//! Fixed-point currency amounts with four fractional digits.
//!
//! An [`Amount`] counts ten-thousandths of a currency unit in a `u64`, so
//! that sums and differences are exact. Text is read by [`Amount::parse`]
//! and written by [`Amount::format`].

use crate::decimal::{
    all_digits, decimal_digits, decimal_value, digit_char, digit_str, digit_value, is_digit,
    lemma_digit_char_value, lemma_digit_value_char, lemma_digits_of_value, lemma_digits_shortest,
    lemma_value_append, lemma_value_of_digits, lemma_value_prefix, pow10, push_decimal, zeros,
};
use crate::types::{Error, ErrorView};
use std::cmp::Ordering;
use std::ops::{Add, Sub};
use vstd::prelude::*;
use vstd::std_specs::cmp::PartialOrdSpecImpl;
use vstd::std_specs::convert::{FromSpecImpl, TryFromSpecImpl};
use vstd::std_specs::ops::{AddSpecImpl, SubSpecImpl};
use vstd::string::{StrSliceExecFns, StringExecFns};

verus! {

/// Number of fractional digits that an amount keeps.
pub const DECIMALS: usize = 4;

/// How many ten-thousandths make one currency unit.
pub const SCALE: u64 = 10000;

/// An amount of currency, counted in ten-thousandths of a unit.
#[derive(Copy, Clone, Debug, PartialEq, Eq, Ord, Hash, Structural)]
pub struct Amount(u64);

impl View for Amount {
    type V = nat;

    closed spec fn view(&self) -> nat {
        self.0 as nat
    }
}

impl Amount {
    /// The amount that counts `scaled` ten-thousandths, for `scaled` up to
    /// `u64::MAX`.
    pub closed spec fn of_scaled(scaled: nat) -> Amount {
        Amount(scaled as u64)
    }

    /// Every amount fits a `u64`, and is the amount of what it counts.
    pub proof fn lemma_bounded(self)
        ensures
            self@ <= u64::MAX,
            Amount::of_scaled(self@) == self,
    {
    }

    /// Two amounts are equal just when they count the same.
    pub proof fn lemma_equal_by_count(self, other: Amount)
        ensures
            (self == other) <==> (self@ == other@),
    {
    }

    /// An amount made of a count within range counts just that.
    pub proof fn lemma_of_scaled(scaled: nat)
        requires
            scaled <= u64::MAX,
        ensures
            Amount::of_scaled(scaled)@ == scaled,
    {
    }
}

impl PartialOrd for Amount {
    /// Amounts are ordered as the numbers they count.
    fn partial_cmp(&self, other: &Amount) -> (r: Option<Ordering>) {
        if self.0 < other.0 {
            Some(Ordering::Less)
        } else if self.0 == other.0 {
            Some(Ordering::Equal)
        } else {
            Some(Ordering::Greater)
        }
    }
}

impl PartialOrdSpecImpl for Amount {
    open spec fn obeys_partial_cmp_spec() -> bool {
        true
    }

    open spec fn partial_cmp_spec(&self, other: &Amount) -> Option<Ordering> {
        if self@ < other@ {
            Some(Ordering::Less)
        } else if self@ == other@ {
            Some(Ordering::Equal)
        } else {
            Some(Ordering::Greater)
        }
    }
}

impl From<u64> for Amount {
    /// The amount that counts `value` ten-thousandths.
    fn from(value: u64) -> (a: Amount)
        ensures
            a@ == value,
    {
        Amount(value)
    }
}

impl FromSpecImpl<u64> for Amount {
    open spec fn obeys_from_spec() -> bool {
        true
    }

    open spec fn from_spec(v: u64) -> Amount {
        Amount::of_scaled(v as nat)
    }
}

impl From<Amount> for u64 {
    /// The number of ten-thousandths that `val` counts.
    fn from(val: Amount) -> (v: u64)
        ensures
            v == val@,
    {
        val.0
    }
}

impl FromSpecImpl<Amount> for u64 {
    open spec fn obeys_from_spec() -> bool {
        true
    }

    open spec fn from_spec(v: Amount) -> u64 {
        v@ as u64
    }
}

impl Add for Amount {
    type Output = Result<Amount, Error>;

    /// The sum of two amounts, or [`Error::Overflow`] where a `u64` cannot
    /// hold it.
    fn add(self, rhs: Amount) -> (r: Result<Amount, Error>)
        ensures
            match r {
                Ok(sum) => self@ + rhs@ <= u64::MAX && sum@ == self@ + rhs@,
                Err(e) => self@ + rhs@ > u64::MAX && e == Error::Overflow,
            },
    {
        match self.0.checked_add(rhs.0) {
            Some(v) => Ok(Amount(v)),
            None => Err(Error::Overflow),
        }
    }
}

impl AddSpecImpl for Amount {
    open spec fn obeys_add_spec() -> bool {
        true
    }

    open spec fn add_req(self, rhs: Amount) -> bool {
        true
    }

    open spec fn add_spec(self, rhs: Amount) -> Result<Amount, Error> {
        if self@ + rhs@ <= u64::MAX {
            Ok(Amount::of_scaled(self@ + rhs@))
        } else {
            Err(Error::Overflow)
        }
    }
}

impl Sub for Amount {
    type Output = Result<Amount, Error>;

    /// The difference of two amounts, or [`Error::Underflow`] where `rhs` is
    /// the larger.
    fn sub(self, rhs: Amount) -> (r: Result<Amount, Error>)
        ensures
            match r {
                Ok(diff) => rhs@ <= self@ && diff@ == self@ - rhs@,
                Err(e) => rhs@ > self@ && e == Error::Underflow,
            },
    {
        match self.0.checked_sub(rhs.0) {
            Some(v) => Ok(Amount(v)),
            None => Err(Error::Underflow),
        }
    }
}

impl SubSpecImpl for Amount {
    open spec fn obeys_sub_spec() -> bool {
        true
    }

    open spec fn sub_req(self, rhs: Amount) -> bool {
        true
    }

    open spec fn sub_spec(self, rhs: Amount) -> Result<Amount, Error> {
        if rhs@ <= self@ {
            Ok(Amount::of_scaled((self@ - rhs@) as nat))
        } else {
            Err(Error::Underflow)
        }
    }
}

/// Why a string of characters is not an unsigned 64-bit decimal number.
#[derive(Copy, Clone, Debug, PartialEq, Eq, Structural)]
pub enum NumberFault {
    /// A character that is no digit comes before any overflow.
    InvalidDigit,
    /// The leading digits already denote more than `u64::MAX`.
    TooLarge,
}

/// The position of the first `.` in `s`, or the length of `s` if there is
/// none.
pub open spec fn dot_index(s: Seq<char>) -> int
    decreases s.len(),
{
    if s.len() == 0 || s[0] == '.' {
        0
    } else {
        1 + dot_index(s.drop_first())
    }
}

/// What stands before the first `.`.
pub open spec fn integer_part(s: Seq<char>) -> Seq<char> {
    s.take(dot_index(s))
}

/// The first four characters after the first `.`, or fewer if the text ends
/// before that; nothing if there is no `.`.
pub open spec fn fraction_part(s: Seq<char>) -> Seq<char> {
    let i = dot_index(s);
    if i < s.len() {
        let rest = s.skip(i + 1);
        if rest.len() > DECIMALS {
            rest.take(DECIMALS as int)
        } else {
            rest
        }
    } else {
        Seq::empty()
    }
}

/// The characters that are read as the scaled integer: the integer part,
/// then the fraction part filled up with zeros to four characters.
pub open spec fn scaled_text(s: Seq<char>) -> Seq<char> {
    integer_part(s) + fraction_part(s) + zeros((DECIMALS - fraction_part(s).len()) as nat)
}

/// The digits of `t`: `t` without its leading `+`, where it has one and
/// more than that.
pub open spec fn unsigned_digits(t: Seq<char>) -> Seq<char> {
    if t.len() > 1 && t[0] == '+' {
        t.skip(1)
    } else {
        t
    }
}

/// How many digits `s` starts with.
pub open spec fn leading_digits(s: Seq<char>) -> nat
    decreases s.len(),
{
    if s.len() == 0 || !is_digit(s[0]) {
        0
    } else {
        1 + leading_digits(s.drop_first())
    }
}

/// The unsigned 64-bit number that the text `t` writes in decimal, with an
/// optional leading `+`, or the reason why it writes none. Reading goes from
/// left to right and stops at the first fault.
pub open spec fn read_unsigned(t: Seq<char>) -> Result<nat, NumberFault> {
    let d = unsigned_digits(t);
    let k = leading_digits(d) as int;
    if decimal_value(d.take(k)) > u64::MAX {
        Err(NumberFault::TooLarge)
    } else if k < d.len() {
        Err(NumberFault::InvalidDigit)
    } else {
        Ok(decimal_value(d))
    }
}

/// The scaled integer that the text `s` denotes, or why it denotes none.
pub open spec fn parse_spec(s: Seq<char>) -> Result<nat, NumberFault> {
    read_unsigned(scaled_text(s))
}

/// The words that describe a fault.
pub open spec fn fault_text(f: NumberFault) -> Seq<char> {
    match f {
        NumberFault::InvalidDigit => "invalid digit found in string"@,
        NumberFault::TooLarge => "number too large to fit in target type"@,
    }
}

/// The message of the error that [`Amount::parse`] returns for the text `s`
/// when reading it ends with the fault `f`.
pub open spec fn parse_error_text(s: Seq<char>, f: NumberFault) -> Seq<char> {
    "Error while parsing amount "@ + s + " ("@ + scaled_text(s) + "): "@ + fault_text(f)
}

/// The four digits that write the number `f`, below ten thousand, with
/// leading zeros.
pub open spec fn fraction_digits(f: nat) -> Seq<char> {
    seq![
        digit_char(f / 1000),
        digit_char(f / 100 % 10),
        digit_char(f / 10 % 10),
        digit_char(f % 10),
    ]
}

/// The text that writes the scaled integer `v`: the whole units in their
/// shortest decimal writing, a `.`, and exactly four fractional digits.
pub open spec fn format_spec(v: nat) -> Seq<char> {
    decimal_digits(v / (SCALE as nat)) + seq!['.'] + fraction_digits(v % (SCALE as nat))
}

/// Whether `s` is in the form that [`format_spec`] writes: whole units
/// without a needless leading zero, a `.`, four fractional digits, and a
/// scaled value that a `u64` holds.
pub open spec fn is_canonical(s: Seq<char>) -> bool {
    let n = s.len() - DECIMALS - 1;
    &&& n >= 1
    &&& s[n] == '.'
    &&& all_digits(s.take(n))
    &&& all_digits(s.skip(n + 1))
    &&& (n == 1 || s[0] != '0')
    &&& decimal_value(s.take(n) + s.skip(n + 1)) <= u64::MAX
}

/// The first `.` lies within the text, or at its end where there is none,
/// and no `.` stands before it.
pub proof fn lemma_dot_index_bounds(s: Seq<char>)
    ensures
        0 <= dot_index(s) <= s.len(),
        dot_index(s) < s.len() ==> s[dot_index(s)] == '.',
        forall|j: int| 0 <= j < dot_index(s) ==> s[j] != '.',
    decreases s.len(),
{
    if s.len() == 0 || s[0] == '.' {
    } else {
        let r = s.drop_first();
        lemma_dot_index_bounds(r);
        assert forall|j: int| 0 <= j < dot_index(s) implies s[j] != '.' by {
            if j > 0 {
                assert(s[j] == r[j - 1]);
            }
        }
        if dot_index(s) < s.len() {
            assert(s[dot_index(s)] == r[dot_index(r)]);
        }
    }
}

/// The first `.` is where a `.` stands with none before it.
pub proof fn lemma_dot_index_is(s: Seq<char>, i: int)
    requires
        0 <= i <= s.len(),
        i < s.len() ==> s[i] == '.',
        forall|j: int| 0 <= j < i ==> s[j] != '.',
    ensures
        dot_index(s) == i,
{
    lemma_dot_index_bounds(s);
    let d = dot_index(s);
    if d < i {
        assert(s[d] != '.');
    }
}

/// The leading digits are digits, and what follows them, if anything, is
/// none.
pub proof fn lemma_leading_digits_bounds(s: Seq<char>)
    ensures
        leading_digits(s) <= s.len(),
        all_digits(s.take(leading_digits(s) as int)),
        leading_digits(s) < s.len() ==> !is_digit(s[leading_digits(s) as int]),
    decreases s.len(),
{
    if s.len() == 0 || !is_digit(s[0]) {
    } else {
        let r = s.drop_first();
        lemma_leading_digits_bounds(r);
        let k = leading_digits(s) as int;
        assert forall|j: int| 0 <= j < k implies is_digit(#[trigger] s.take(k)[j]) by {
            if j > 0 {
                assert(s[j] == r.take(k - 1)[j - 1]);
            }
        }
        if k < s.len() {
            assert(s[k] == r[k - 1]);
        }
    }
}

/// The leading digits end where the first character that is no digit
/// stands.
pub proof fn lemma_leading_digits_is(s: Seq<char>, k: int)
    requires
        0 <= k <= s.len(),
        forall|j: int| 0 <= j < k ==> is_digit(s[j]),
        k < s.len() ==> !is_digit(s[k]),
    ensures
        leading_digits(s) == k,
{
    lemma_leading_digits_bounds(s);
    let n = leading_digits(s) as int;
    if n < k {
        assert(is_digit(s[n]));
    } else if k < n {
        assert(s.take(n)[k] == s[k]);
    }
}

/// Finds the first `.`.
fn find_dot(cs: &Vec<char>) -> (i: usize)
    ensures
        i == dot_index(cs@),
        i <= cs.len(),
{
    let mut i: usize = 0;
    while i < cs.len() && cs[i] != '.'
        invariant
            i <= cs.len(),
            forall|j: int| 0 <= j < i ==> cs@[j] != '.',
        decreases cs.len() - i,
    {
        i += 1;
    }
    proof {
        lemma_dot_index_is(cs@, i as int);
    }
    i
}

/// Builds the characters that are read as the scaled integer.
fn scaled_chars(cs: &Vec<char>, dot: usize) -> (t: Vec<char>)
    requires
        dot == dot_index(cs@),
        dot <= cs.len(),
    ensures
        t@ == scaled_text(cs@),
        t.len() >= DECIMALS,
{
    let mut t: Vec<char> = Vec::new();
    let mut i: usize = 0;
    while i < dot
        invariant
            i <= dot <= cs.len(),
            t@ == cs@.take(i as int),
        decreases dot - i,
    {
        t.push(cs[i]);
        i += 1;
        assert(cs@.take(i as int) =~= cs@.take(i - 1).push(cs@[i - 1]));
    }
    let avail: usize = if dot < cs.len() {
        cs.len() - dot - 1
    } else {
        0
    };
    let taken: usize = if avail > DECIMALS {
        DECIMALS
    } else {
        avail
    };
    let ghost frac = fraction_part(cs@);
    assert(frac.len() == taken);
    let mut k: usize = 0;
    while k < taken
        invariant
            k <= taken <= DECIMALS,
            taken == frac.len(),
            frac == fraction_part(cs@),
            dot == dot_index(cs@),
            taken > 0 ==> dot + taken < cs.len(),
            t@ == integer_part(cs@) + frac.take(k as int),
        decreases taken - k,
    {
        t.push(cs[dot + 1 + k]);
        assert(frac[k as int] == cs@[dot + 1 + k]);
        k += 1;
        assert(frac.take(k as int) =~= frac.take(k - 1).push(frac[k - 1]));
        assert(t@ =~= integer_part(cs@) + frac.take(k as int));
    }
    assert(frac.take(k as int) =~= frac);
    while k < DECIMALS
        invariant
            taken <= k <= DECIMALS,
            taken == frac.len(),
            t@ == integer_part(cs@) + frac + zeros((k - taken) as nat),
        decreases DECIMALS - k,
    {
        t.push('0');
        k += 1;
        assert(zeros((k - taken) as nat) =~= zeros((k - 1 - taken) as nat).push('0'));
        assert(t@ =~= integer_part(cs@) + frac + zeros((k - taken) as nat));
    }
    t
}

/// Reads an unsigned 64-bit decimal number, with an optional leading `+`.
fn read_digits(t: &Vec<char>) -> (r: Result<u64, NumberFault>)
    requires
        t.len() > 0,
    ensures
        match r {
            Ok(v) => read_unsigned(t@) == Ok::<nat, NumberFault>(v as nat),
            Err(f) => read_unsigned(t@) == Err::<nat, NumberFault>(f),
        },
{
    let start: usize = if t.len() > 1 && t[0] == '+' {
        1
    } else {
        0
    };
    let ghost d = unsigned_digits(t@);
    assert(d =~= t@.skip(start as int));
    let mut acc: u64 = 0;
    let mut i: usize = start;
    while i < t.len()
        invariant
            start <= i <= t.len(),
            d == t@.skip(start as int),
            d == unsigned_digits(t@),
            d.len() > 0,
            forall|j: int| 0 <= j < i - start ==> is_digit(d[j]),
            acc == decimal_value(d.take(i - start)),
        decreases t.len() - i,
    {
        let c = t[i];
        let ghost n = i - start;
        assert(d[n] == c);
        if !('0' <= c && c <= '9') {
            proof {
                lemma_leading_digits_is(d, n);
            }
            return Err(NumberFault::InvalidDigit);
        }
        let digit: u64 = (c as u32 - '0' as u32) as u64;
        proof {
            assert(d.take(n + 1).drop_last() =~= d.take(n));
            assert(decimal_value(d.take(n + 1)) == 10 * acc + digit);
        }
        let next = match acc.checked_mul(10) {
            Some(m) => m.checked_add(digit),
            None => None,
        };
        match next {
            Some(v) => {
                acc = v;
            },
            None => {
                proof {
                    lemma_leading_digits_bounds(d);
                    let k = leading_digits(d) as int;
                    if k < n + 1 {
                        assert(is_digit(d[k]));
                    }
                    lemma_value_prefix(d.take(k), n + 1);
                    assert(d.take(k).take(n + 1) =~= d.take(n + 1));
                }
                return Err(NumberFault::TooLarge);
            },
        }
        i += 1;
    }
    proof {
        lemma_leading_digits_is(d, d.len() as int);
        assert(d.take(d.len() as int) =~= d);
    }
    Ok(acc)
}

/// The characters of `text`, in a vector.
fn chars_of(text: &str) -> (cs: Vec<char>)
    ensures
        cs@ == text@,
{
    let mut cs: Vec<char> = Vec::new();
    for c in it: text.chars()
        invariant
            it.seq() == text@,
            cs@ == text@.take(it.index() as int),
    {
        cs.push(c);
    }
    cs
}

/// Writes the message of the error for a text that does not parse.
fn parse_error(text: &str, len: usize, dot: usize, fault: NumberFault) -> (e: Error)
    requires
        len == text@.len(),
        dot == dot_index(text@),
        dot <= len,
    ensures
        e@ == ErrorView::Input(parse_error_text(text@, fault)),
{
    let ghost s = text@;
    let mut msg = String::from_str("Error while parsing amount ");
    msg.append(text);
    msg.append(" (");
    msg.append(text.substring_char(0, dot));
    let taken: usize = if dot < len {
        if len - dot - 1 > DECIMALS {
            DECIMALS
        } else {
            len - dot - 1
        }
    } else {
        0
    };
    if taken > 0 {
        msg.append(text.substring_char(dot + 1, dot + 1 + taken));
    }
    let ghost frac = fraction_part(s);
    let ghost head = "Error while parsing amount "@ + s + " ("@;
    assert(frac =~= if taken > 0 {
        s.subrange(dot + 1, dot + 1 + taken)
    } else {
        Seq::<char>::empty()
    });
    assert(msg@ =~= head + integer_part(s) + frac);
    let mut k: usize = taken;
    while k < DECIMALS
        invariant
            taken <= k <= DECIMALS,
            msg@ == head + integer_part(s) + frac + zeros((k - taken) as nat),
        decreases DECIMALS - k,
    {
        proof {
            reveal_strlit("0");
        }
        msg.append("0");
        k += 1;
        assert(zeros((k - taken) as nat) =~= zeros((k - 1 - taken) as nat) + "0"@);
        assert(msg@ =~= head + integer_part(s) + frac + zeros((k - taken) as nat));
    }
    msg.append("): ");
    let reason = match fault {
        NumberFault::InvalidDigit => "invalid digit found in string",
        NumberFault::TooLarge => "number too large to fit in target type",
    };
    msg.append(reason);
    assert(msg@ =~= parse_error_text(s, fault));
    Error::Input(msg)
}

/// Writes the scaled integer `v` as a decimal number with four fractional
/// digits.
pub fn format_scaled(v: u128) -> (s: String)
    ensures
        s@ == format_spec(v as nat),
{
    let whole: u128 = v / 10000;
    let f: u128 = v % 10000;
    let mut out = String::new();
    push_decimal(&mut out, whole);
    proof {
        reveal_strlit(".");
    }
    out.append(".");
    out.append(digit_str((f / 1000) as u8));
    out.append(digit_str((f / 100 % 10) as u8));
    out.append(digit_str((f / 10 % 10) as u8));
    out.append(digit_str((f % 10) as u8));
    assert(out@ =~= format_spec(v as nat));
    out
}

impl Amount {
    /// Reads an amount from text.
    ///
    /// The text is split at its first `.`. What stands before it, followed
    /// by the first four characters after it (filled up with zeros on the
    /// right where there are fewer), is read as an unsigned decimal integer:
    /// digits beyond the fourth are cut off, not rounded. A leading `+` is
    /// accepted. Text that does not give a number a `u64` can hold is
    /// turned down with [`Error::Input`].
    pub fn parse(text: &str) -> (r: Result<Amount, Error>)
        ensures
            match r {
                Ok(a) => parse_spec(text@) == Ok::<nat, NumberFault>(a@),
                Err(e) => parse_spec(text@) is Err && e@ == ErrorView::Input(
                    parse_error_text(text@, parse_spec(text@)->Err_0),
                ),
            },
    {
        let cs = chars_of(text);
        let dot = find_dot(&cs);
        let t = scaled_chars(&cs, dot);
        match read_digits(&t) {
            Ok(v) => Ok(Amount(v)),
            Err(fault) => Err(parse_error(text, cs.len(), dot, fault)),
        }
    }

    /// Writes the amount with exactly four fractional digits.
    pub fn format(&self) -> (s: String)
        ensures
            s@ == format_spec(self@),
    {
        format_scaled(self.0 as u128)
    }
}

impl TryFrom<String> for Amount {
    type Error = Error;

    /// Reads an amount from text, as [`Amount::parse`] does.
    fn try_from(value: String) -> (r: Result<Amount, Error>)
        ensures
            match r {
                Ok(a) => parse_spec(value@) == Ok::<nat, NumberFault>(a@),
                Err(e) => parse_spec(value@) is Err && e@ == ErrorView::Input(
                    parse_error_text(value@, parse_spec(value@)->Err_0),
                ),
            },
    {
        Amount::parse(value.as_str())
    }
}

impl TryFromSpecImpl<String> for Amount {
    open spec fn obeys_try_from_spec() -> bool {
        false
    }

    open spec fn try_from_spec(v: String) -> Result<Amount, Error> {
        arbitrary()
    }
}

impl From<&Amount> for String {
    /// Writes the amount, as [`Amount::format`] does.
    fn from(value: &Amount) -> (s: String)
        ensures
            s@ == format_spec(value@),
    {
        value.format()
    }
}

impl FromSpecImpl<&Amount> for String {
    open spec fn obeys_from_spec() -> bool {
        false
    }

    open spec fn from_spec(v: &Amount) -> String {
        arbitrary()
    }
}

/// The value of four digits, and the digits of a value below ten thousand.
pub proof fn lemma_fraction_digits(frac: Seq<char>)
    requires
        frac.len() == DECIMALS,
        all_digits(frac),
    ensures
        decimal_value(frac) < SCALE,
        fraction_digits(decimal_value(frac)) == frac,
{
    let f1 = frac.take(1);
    let f2 = frac.take(2);
    let f3 = frac.take(3);
    assert(f1.drop_last() =~= Seq::<char>::empty());
    assert(f2.drop_last() =~= f1);
    assert(f3.drop_last() =~= f2);
    assert(frac.drop_last() =~= f3);
    assert(decimal_value(f1.drop_last()) == 0);
    assert(is_digit(frac[0]) && is_digit(frac[1]) && is_digit(frac[2]) && is_digit(frac[3]));
    let d0 = digit_value(frac[0]);
    let d1 = digit_value(frac[1]);
    let d2 = digit_value(frac[2]);
    let d3 = digit_value(frac[3]);
    assert(f1.last() == frac[0] && f2.last() == frac[1] && f3.last() == frac[2]);
    assert(decimal_value(f1) == d0);
    assert(decimal_value(f2) == 10 * d0 + d1);
    assert(decimal_value(f3) == 100 * d0 + 10 * d1 + d2);
    let f = decimal_value(frac);
    assert(f == 1000 * d0 + 100 * d1 + 10 * d2 + d3);
    lemma_digit_value_char(frac[0]);
    lemma_digit_value_char(frac[1]);
    lemma_digit_value_char(frac[2]);
    lemma_digit_value_char(frac[3]);
    assert(f / 1000 == d0);
    assert(f / 100 % 10 == d1);
    assert(f / 10 % 10 == d2);
    assert(f % 10 == d3);
    assert(fraction_digits(f) =~= frac);
}

/// The four digits written for a number below ten thousand denote it.
pub proof fn lemma_fraction_value(f: nat)
    requires
        f < SCALE,
    ensures
        fraction_digits(f).len() == DECIMALS,
        all_digits(fraction_digits(f)),
        decimal_value(fraction_digits(f)) == f,
{
    let frac = fraction_digits(f);
    lemma_digit_char_value(f / 1000);
    lemma_digit_char_value(f / 100 % 10);
    lemma_digit_char_value(f / 10 % 10);
    lemma_digit_char_value(f % 10);
    assert(all_digits(frac));
    let f1 = frac.take(1);
    let f2 = frac.take(2);
    let f3 = frac.take(3);
    assert(f1.drop_last() =~= Seq::<char>::empty());
    assert(f2.drop_last() =~= f1);
    assert(f3.drop_last() =~= f2);
    assert(frac.drop_last() =~= f3);
    assert(decimal_value(f1.drop_last()) == 0);
    assert(f1.last() == frac[0] && f2.last() == frac[1] && f3.last() == frac[2]);
    assert(decimal_value(f1) == f / 1000);
    assert(decimal_value(f2) == 10 * (f / 1000) + f / 100 % 10);
    assert(decimal_value(f3) == 100 * (f / 1000) + 10 * (f / 100 % 10) + f / 10 % 10);
}

/// Whole units followed by four fractional digits denote the whole units
/// times ten thousand, plus the fraction.
pub proof fn lemma_value_scaled(whole: Seq<char>, frac: Seq<char>)
    requires
        frac.len() == DECIMALS,
        all_digits(frac),
    ensures
        decimal_value(whole + frac) == decimal_value(whole) * SCALE + decimal_value(frac),
        decimal_value(frac) < SCALE,
{
    lemma_value_append(whole, frac);
    lemma_fraction_digits(frac);
    assert(pow10(4) == 10000) by {
        reveal_with_fuel(pow10, 5);
    }
}

/// Where the first `.` of a text stands after `whole`, the text is split
/// there.
pub proof fn lemma_split_at_dot(whole: Seq<char>, rest: Seq<char>)
    requires
        !whole.contains('.'),
    ensures
        dot_index(whole + seq!['.'] + rest) == whole.len(),
        integer_part(whole + seq!['.'] + rest) == whole,
        fraction_part(whole + seq!['.'] + rest) == if rest.len() > DECIMALS {
            rest.take(DECIMALS as int)
        } else {
            rest
        },
{
    let s = whole + seq!['.'] + rest;
    assert forall|j: int| 0 <= j < whole.len() implies s[j] != '.' by {
        assert(whole.contains(s[j]));
    }
    lemma_dot_index_is(s, whole.len() as int);
    assert(s.take(whole.len() as int) =~= whole);
    assert(s.skip(whole.len() as int + 1) =~= rest);
}

/// A text without a `.` is all integer part.
pub proof fn lemma_no_dot(whole: Seq<char>)
    requires
        !whole.contains('.'),
    ensures
        dot_index(whole) == whole.len(),
        scaled_text(whole) == whole + zeros(DECIMALS as nat),
{
    assert forall|j: int| 0 <= j < whole.len() implies whole[j] != '.' by {
        assert(whole.contains(whole[j]));
    }
    lemma_dot_index_is(whole, whole.len() as int);
    assert(whole.take(whole.len() as int) =~= whole);
    assert(scaled_text(whole) =~= whole + zeros(DECIMALS as nat));
}

/// Digits, a `.` and four more digits are read as the number that the
/// digits write together, where a `u64` holds it.
pub proof fn lemma_parse_plain(whole: Seq<char>, frac: Seq<char>)
    requires
        whole.len() > 0,
        all_digits(whole),
        frac.len() == DECIMALS,
        all_digits(frac),
        decimal_value(whole + frac) <= u64::MAX,
    ensures
        parse_spec(whole + seq!['.'] + frac) == Ok::<nat, NumberFault>(
            decimal_value(whole + frac),
        ),
{
    let s = whole + seq!['.'] + frac;
    assert(!whole.contains('.')) by {
        if whole.contains('.') {
            let j = choose|j: int| 0 <= j < whole.len() && whole[j] == '.';
            assert(is_digit(whole[j]));
        }
    }
    lemma_split_at_dot(whole, frac);
    let t = scaled_text(s);
    assert(t =~= whole + frac);
    assert(t[0] == whole[0]);
    assert(is_digit(whole[0]));
    assert(unsigned_digits(t) == t);
    assert forall|j: int| 0 <= j < t.len() implies is_digit(t[j]) by {
        if j < whole.len() {
            assert(t[j] == whole[j]);
        } else {
            assert(t[j] == frac[j - whole.len()]);
        }
    }
    lemma_leading_digits_is(t, t.len() as int);
    assert(t.take(t.len() as int) =~= t);
}

/// Reading a text in canonical form and writing the amount gives the text
/// back.
pub proof fn lemma_format_parse_round_trip(s: Seq<char>)
    requires
        is_canonical(s),
    ensures
        parse_spec(s) is Ok,
        parse_spec(s)->Ok_0 <= u64::MAX,
        format_spec(parse_spec(s)->Ok_0) == s,
{
    let n = s.len() - DECIMALS - 1;
    let whole = s.take(n);
    let frac = s.skip(n + 1);
    assert(s =~= whole + seq!['.'] + frac);
    lemma_parse_plain(whole, frac);
    lemma_value_scaled(whole, frac);
    let v = decimal_value(whole + frac);
    let a = decimal_value(whole);
    let b = decimal_value(frac);
    assert(v == a * 10000 + b);
    assert(v / 10000 == a && v % 10000 == b);
    assert(whole[0] == s[0]);
    lemma_digits_of_value(whole);
    lemma_fraction_digits(frac);
}

/// Writing an amount and reading the text gives the amount back, and the
/// text written is in canonical form.
pub proof fn lemma_parse_format_round_trip(v: nat)
    requires
        v <= u64::MAX,
    ensures
        is_canonical(format_spec(v)),
        parse_spec(format_spec(v)) == Ok::<nat, NumberFault>(v),
{
    let a = v / 10000;
    let b = v % 10000;
    let whole = decimal_digits(a);
    let frac = fraction_digits(b);
    let s = format_spec(v);
    lemma_digits_shortest(a);
    lemma_value_of_digits(a);
    lemma_fraction_value(b);
    lemma_value_scaled(whole, frac);
    assert(decimal_value(whole + frac) == a * 10000 + b);
    lemma_parse_plain(whole, frac);
    let n = s.len() - DECIMALS - 1;
    assert(n == whole.len());
    assert(s.take(n) =~= whole);
    assert(s.skip(n + 1) =~= frac);
    assert(s[0] == whole[0]);
}

/// Fractional digits beyond the fourth are cut off: what follows them does
/// not change the amount read.
pub proof fn lemma_parse_truncates(whole: Seq<char>, frac: Seq<char>, tail: Seq<char>)
    requires
        !whole.contains('.'),
        frac.len() == DECIMALS,
    ensures
        parse_spec(whole + seq!['.'] + frac + tail) == parse_spec(whole + seq!['.'] + frac),
{
    lemma_split_at_dot(whole, frac + tail);
    lemma_split_at_dot(whole, frac);
    assert(whole + seq!['.'] + frac + tail =~= whole + seq!['.'] + (frac + tail));
    assert((frac + tail).take(DECIMALS as int) =~= frac);
    if tail.len() == 0 {
        assert(frac + tail =~= frac);
    }
}

/// Missing fractional digits count as zeros: a text with fewer than four of
/// them, or with no `.` at all, is read as the text with the zeros written
/// out.
pub proof fn lemma_parse_pads(whole: Seq<char>, frac: Seq<char>)
    requires
        !whole.contains('.'),
        frac.len() <= DECIMALS,
    ensures
        parse_spec(whole + seq!['.'] + frac) == parse_spec(
            whole + seq!['.'] + frac + zeros((DECIMALS - frac.len()) as nat),
        ),
        parse_spec(whole) == parse_spec(whole + seq!['.'] + zeros(DECIMALS as nat)),
{
    let pad = zeros((DECIMALS - frac.len()) as nat);
    lemma_split_at_dot(whole, frac);
    lemma_split_at_dot(whole, frac + pad);
    assert(whole + seq!['.'] + frac + pad =~= whole + seq!['.'] + (frac + pad));
    assert(scaled_text(whole + seq!['.'] + frac) =~= whole + frac + pad);
    assert(scaled_text(whole + seq!['.'] + (frac + pad)) =~= whole + frac + pad);
    lemma_no_dot(whole);
    lemma_split_at_dot(whole, zeros(DECIMALS as nat));
    assert(scaled_text(whole + seq!['.'] + zeros(DECIMALS as nat)) =~= whole + zeros(
        DECIMALS as nat,
    ));
}

} // verus!
