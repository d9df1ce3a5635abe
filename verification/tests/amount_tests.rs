use ledger::amount::Amount;
use ledger::types::Error;

#[test]
fn test_marshal_amount() {
    let sut = Amount::from(12345678);
    let actual: String = (&sut).into();

    assert_eq!(actual, "1234.5678");
}

#[test]
fn test_unmarshal_amount() {
    let sut = "1234.5678".to_owned();
    let actual: Amount = sut.try_into().expect("Error unmarshalling 1234.5678");

    assert_eq!(actual, Amount::from(12345678));

    let sut = "1234".to_owned();
    let actual: Amount = sut.try_into().expect("Error unmarshalling 1234");

    assert_eq!(actual, Amount::from(12340000));

    let sut = "1234.56".to_owned();
    let actual: Amount = sut.try_into().expect("Error unmarshalling 1234.56");

    assert_eq!(actual, Amount::from(12345600));

    let sut = "1234.5678901".to_owned();
    let actual: Amount = sut.try_into().expect("Error unmarshalling 1234.5678901");

    assert_eq!(actual, Amount::from(12345678));
}

#[test]
fn test_amount_math() {
    let actual = Amount::from(123400) + Amount::from(234500);
    assert_eq!(actual, Ok(Amount::from(357900)));

    let actual = Amount::from(234500) - Amount::from(123400);
    assert_eq!(actual, Ok(Amount::from(111100)));
}

#[test]
fn exact_sum_and_difference() {
    assert_eq!(Amount::from(1234) + Amount::from(2345), Ok(Amount::from(3579)));
    assert_eq!(Amount::from(2345) - Amount::from(1234), Ok(Amount::from(1111)));
    assert_eq!(Amount::from(5) - Amount::from(5), Ok(Amount::from(0)));
    assert_eq!(Amount::from(u64::MAX) + Amount::from(0), Ok(Amount::from(u64::MAX)));
}

#[test]
fn sum_beyond_range_is_overflow() {
    assert_eq!(Amount::from(u64::MAX) + Amount::from(1), Err(Error::Overflow));
    assert_eq!(Amount::from(u64::MAX) + Amount::from(u64::MAX), Err(Error::Overflow));
}

#[test]
fn difference_below_zero_is_underflow() {
    assert_eq!(Amount::from(1234) - Amount::from(2345), Err(Error::Underflow));
    assert_eq!(Amount::from(0) - Amount::from(1), Err(Error::Underflow));
}

#[test]
fn amounts_are_ordered_by_scaled_value() {
    assert!(Amount::from(1) < Amount::from(2));
    assert!(Amount::from(2) <= Amount::from(2));
    assert!(Amount::from(3) > Amount::from(2));
    assert!(Amount::from(3) >= Amount::from(3));
    assert!(!(Amount::from(3) <= Amount::from(2)));
    assert_eq!(Amount::from(7), Amount::from(7));
    assert_ne!(Amount::from(7), Amount::from(8));
    assert_eq!(Amount::from(9).max(Amount::from(4)), Amount::from(9));
}

#[test]
fn scaled_value_round_trip() {
    assert_eq!(u64::from(Amount::from(42)), 42);
    assert_eq!(u64::from(Amount::from(4242)), 4242);
    let back: u64 = Amount::from(77).into();
    assert_eq!(back, 77);
}

#[test]
fn format_pads_the_fraction_on_the_left() {
    assert_eq!(Amount::from(0).format(), "0.0000");
    assert_eq!(Amount::from(1).format(), "0.0001");
    assert_eq!(Amount::from(12340056).format(), "1234.0056");
    assert_eq!(Amount::from(10000).format(), "1.0000");
    assert_eq!(Amount::from(9999).format(), "0.9999");
    assert_eq!(Amount::from(30000).format(), "3.0000");
    assert_eq!(Amount::from(u64::MAX).format(), "1844674407370955.1615");
}

#[test]
fn format_scaled_goes_beyond_u64() {
    assert_eq!(ledger::amount::format_scaled(70000), "7.0000");
    assert_eq!(
        ledger::amount::format_scaled(u64::MAX as u128 + u64::MAX as u128),
        "3689348814741910.3230"
    );
}

#[test]
fn canonical_text_round_trips() {
    for text in [
        "1234.5678",
        "0.0000",
        "0.0001",
        "1.0000",
        "1234.0056",
        "42.0000",
        "1844674407370955.1615",
    ] {
        let amount = Amount::parse(text).expect("canonical text must parse");
        assert_eq!(amount.format(), text);
    }
}

#[test]
fn written_amount_reads_back() {
    for scaled in [0, 1, 9, 10, 9999, 10000, 10001, 12345678, u64::MAX - 1, u64::MAX] {
        let text = Amount::from(scaled).format();
        assert_eq!(Amount::parse(&text), Ok(Amount::from(scaled)));
    }
}

#[test]
fn parse_truncates_and_does_not_round() {
    assert_eq!(Amount::parse("1234.5678901"), Amount::parse("1234.5678"));
    assert_eq!(Amount::parse("0.99999"), Ok(Amount::from(9999)));
    assert_eq!(Amount::parse("1.00009"), Ok(Amount::from(10000)));
    assert_eq!(Amount::parse("1.2345xyz"), Ok(Amount::from(12345)));
}

#[test]
fn parse_pads_with_zeros() {
    assert_eq!(Amount::parse("1234"), Amount::parse("1234.0000"));
    assert_eq!(Amount::parse("1234.56"), Amount::parse("1234.5600"));
    assert_eq!(Amount::parse("3"), Ok(Amount::from(30000)));
    assert_eq!(Amount::parse("3.5"), Ok(Amount::from(35000)));
    assert_eq!(Amount::parse("3."), Ok(Amount::from(30000)));
    assert_eq!(Amount::parse(".5"), Ok(Amount::from(5000)));
}

#[test]
fn parse_of_odd_but_accepted_texts() {
    assert_eq!(Amount::parse(""), Ok(Amount::from(0)));
    assert_eq!(Amount::parse("."), Ok(Amount::from(0)));
    assert_eq!(Amount::parse("+1.5"), Ok(Amount::from(15000)));
    assert_eq!(Amount::parse("+"), Ok(Amount::from(0)));
    assert_eq!(Amount::parse("007.1"), Ok(Amount::from(71000)));
    assert_eq!(Amount::parse("1844674407370955.1615"), Ok(Amount::from(u64::MAX)));
}

#[test]
fn parse_turns_down_what_is_no_number() {
    assert_eq!(
        Amount::parse("abc"),
        Err(Error::Input(
            "Error while parsing amount abc (abc0000): invalid digit found in string".to_string()
        ))
    );
    assert_eq!(
        Amount::parse("-1"),
        Err(Error::Input(
            "Error while parsing amount -1 (-10000): invalid digit found in string".to_string()
        ))
    );
    assert_eq!(
        Amount::parse("1.2.3"),
        Err(Error::Input(
            "Error while parsing amount 1.2.3 (12.30): invalid digit found in string".to_string()
        ))
    );
    assert_eq!(
        Amount::parse("1.5 "),
        Err(Error::Input(
            "Error while parsing amount 1.5  (15 00): invalid digit found in string".to_string()
        ))
    );
    assert!(matches!(Amount::parse("1,5"), Err(Error::Input(_))));
    assert!(matches!(Amount::parse("1.5é"), Err(Error::Input(_))));
    assert!(matches!(Amount::parse("٣"), Err(Error::Input(_))));
    assert!(matches!(Amount::parse("++1"), Err(Error::Input(_))));
}

#[test]
fn parse_turns_down_what_is_too_large() {
    assert_eq!(
        Amount::parse("1844674407370955.1616"),
        Err(Error::Input(
            "Error while parsing amount 1844674407370955.1616 (18446744073709551616): number too large to fit in target type"
                .to_string()
        ))
    );
    assert_eq!(
        Amount::parse("99999999999999999999"),
        Err(Error::Input(
            "Error while parsing amount 99999999999999999999 (999999999999999999990000): number too large to fit in target type"
                .to_string()
        ))
    );
}

#[test]
fn first_fault_from_the_left_is_reported() {
    assert_eq!(
        Amount::parse("99999999999999999999x"),
        Err(Error::Input(
            "Error while parsing amount 99999999999999999999x (99999999999999999999x0000): number too large to fit in target type"
                .to_string()
        ))
    );
    assert_eq!(
        Amount::parse("x99999999999999999999"),
        Err(Error::Input(
            "Error while parsing amount x99999999999999999999 (x999999999999999999990000): invalid digit found in string"
                .to_string()
        ))
    );
}

#[test]
fn try_from_agrees_with_parse() {
    for text in ["1234.5678", "", "abc", "7", "1.23456", "1844674407370955.1616"] {
        assert_eq!(Amount::try_from(text.to_string()), Amount::parse(text));
    }
}

#[test]
fn string_from_agrees_with_format() {
    let amount = Amount::from(40000);
    assert_eq!(String::from(&amount), amount.format());
    assert_eq!(String::from(&amount), "4.0000");
}
