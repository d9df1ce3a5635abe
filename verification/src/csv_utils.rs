//! The records that come in and go out: one input row for each
//! transaction, one output row for each account.

use crate::amount::{
    format_scaled, format_spec, parse_error_text, parse_spec, Amount, NumberFault,
};
use crate::decimal::{decimal_digits, push_decimal};
use crate::types::{Account, ClientId, Error, ErrorView, Txn, TxnId};
use vstd::prelude::*;
use vstd::std_specs::convert::{FromSpecImpl, TryFromSpecImpl};
use vstd::string::StringExecFns;

verus! {

/// One row of input, as it was read: the kind of transaction by its name,
/// and the amount, where the row has one, as text.
#[derive(Debug)]
pub struct Input {
    pub tpe: String,
    pub client: ClientId,
    pub tx: TxnId,
    pub amount: Option<String>,
}

/// An [`Input`] with each text as a sequence of characters.
pub struct InputView {
    pub tpe: Seq<char>,
    pub client: ClientId,
    pub tx: TxnId,
    pub amount: Option<Seq<char>>,
}

impl View for Input {
    type V = InputView;

    open spec fn view(&self) -> InputView {
        InputView {
            tpe: self.tpe@,
            client: self.client,
            tx: self.tx,
            amount: match self.amount {
                Some(text) => Some(text@),
                None => None,
            },
        }
    }
}

/// One row of output: the balances of an account, written out.
#[derive(Debug, PartialEq, Eq)]
pub struct Output {
    pub client: ClientId,
    pub available: String,
    pub held: String,
    pub total: String,
    pub locked: bool,
}

/// An [`Output`] with each text as a sequence of characters.
pub struct OutputView {
    pub client: ClientId,
    pub available: Seq<char>,
    pub held: Seq<char>,
    pub total: Seq<char>,
    pub locked: bool,
}

impl View for Output {
    type V = OutputView;

    open spec fn view(&self) -> OutputView {
        OutputView {
            client: self.client,
            available: self.available@,
            held: self.held@,
            total: self.total@,
            locked: self.locked,
        }
    }
}

/// The message for a deposit or withdrawal that comes without an amount.
pub open spec fn missing_amount_text(tx: TxnId) -> Seq<char> {
    "Missing amount in transaction "@ + decimal_digits(tx as nat)
}

/// The message for a row whose kind is none of the five.
pub open spec fn invalid_type_text(tx: TxnId) -> Seq<char> {
    "Invalid transaction type in transaction "@ + decimal_digits(tx as nat)
}

/// The amount that a deposit or withdrawal row carries, or the error for a
/// row that has none or one that does not parse.
pub open spec fn amount_of(row: InputView) -> Result<Amount, ErrorView> {
    match row.amount {
        Some(text) => match parse_spec(text) {
            Ok(v) => Ok(Amount::of_scaled(v)),
            Err(f) => Err(ErrorView::Input(parse_error_text(text, f))),
        },
        None => Err(ErrorView::Input(missing_amount_text(row.tx))),
    }
}

/// The transaction that an input row stands for, or the error for a row
/// that stands for none.
pub open spec fn txn_of(row: InputView) -> Result<Txn, ErrorView> {
    if row.tpe == "deposit"@ {
        match amount_of(row) {
            Ok(amount) => Ok(Txn::Deposit { client: row.client, tx: row.tx, amount }),
            Err(e) => Err(e),
        }
    } else if row.tpe == "withdrawal"@ {
        match amount_of(row) {
            Ok(amount) => Ok(Txn::Withdrawal { client: row.client, tx: row.tx, amount }),
            Err(e) => Err(e),
        }
    } else if row.tpe == "dispute"@ {
        Ok(Txn::Dispute { client: row.client, tx: row.tx })
    } else if row.tpe == "resolve"@ {
        Ok(Txn::Resolve { client: row.client, tx: row.tx })
    } else if row.tpe == "chargeback"@ {
        Ok(Txn::Chargeback { client: row.client, tx: row.tx })
    } else {
        Err(ErrorView::Input(invalid_type_text(row.tx)))
    }
}

/// The output row of an account: its balances and their sum, each written
/// with four fractional digits.
pub open spec fn output_of(a: Account) -> OutputView {
    let d = a.data();
    OutputView {
        client: d.client,
        available: format_spec(d.available@),
        held: format_spec(d.held@),
        total: format_spec(d.available@ + d.held@),
        locked: a is Locked,
    }
}

/// Whether `text` is the word `word`.
fn is_word(text: &String, word: &str) -> (b: bool)
    ensures
        b == (text@ == word@),
{
    *text == String::from_str(word)
}

/// Reads the amount of a deposit or withdrawal row.
fn read_amount(amount: &Option<String>, tx: TxnId) -> (r: Result<Amount, Error>)
    ensures
        match r {
            Ok(a) => amount matches Some(text) && parse_spec(text@) == Ok::<nat, NumberFault>(a@),
            Err(e) => match amount {
                Some(text) => parse_spec(text@) is Err && e@ == ErrorView::Input(
                    parse_error_text(text@, parse_spec(text@)->Err_0),
                ),
                None => e@ == ErrorView::Input(missing_amount_text(tx)),
            },
        },
{
    match amount {
        Some(text) => Amount::parse(text.as_str()),
        None => {
            let mut msg = String::from_str("Missing amount in transaction ");
            push_decimal(&mut msg, tx as u128);
            Err(Error::Input(msg))
        },
    }
}

impl TryFrom<Input> for Txn {
    type Error = Error;

    /// The transaction that the row stands for.
    ///
    /// A deposit or withdrawal needs an amount that parses; the other
    /// kinds take none, and what the row holds as amount is ignored. A row
    /// of another kind is turned down.
    fn try_from(inp: Input) -> (r: Result<Txn, Error>)
        ensures
            match r {
                Ok(t) => txn_of(inp@) == Ok::<Txn, ErrorView>(t),
                Err(e) => txn_of(inp@) == Err::<Txn, ErrorView>(e@),
            },
    {
        if is_word(&inp.tpe, "deposit") {
            match read_amount(&inp.amount, inp.tx) {
                Ok(amount) => {
                    proof {
                        amount.lemma_bounded();
                    }
                    Ok(Txn::Deposit { client: inp.client, tx: inp.tx, amount })
                },
                Err(e) => Err(e),
            }
        } else if is_word(&inp.tpe, "withdrawal") {
            match read_amount(&inp.amount, inp.tx) {
                Ok(amount) => {
                    proof {
                        amount.lemma_bounded();
                    }
                    Ok(Txn::Withdrawal { client: inp.client, tx: inp.tx, amount })
                },
                Err(e) => Err(e),
            }
        } else if is_word(&inp.tpe, "dispute") {
            Ok(Txn::Dispute { client: inp.client, tx: inp.tx })
        } else if is_word(&inp.tpe, "resolve") {
            Ok(Txn::Resolve { client: inp.client, tx: inp.tx })
        } else if is_word(&inp.tpe, "chargeback") {
            Ok(Txn::Chargeback { client: inp.client, tx: inp.tx })
        } else {
            let mut msg = String::from_str("Invalid transaction type in transaction ");
            push_decimal(&mut msg, inp.tx as u128);
            Err(Error::Input(msg))
        }
    }
}

impl TryFromSpecImpl<Input> for Txn {
    open spec fn obeys_try_from_spec() -> bool {
        false
    }

    open spec fn try_from_spec(v: Input) -> Result<Txn, Error> {
        arbitrary()
    }
}

impl From<&Account> for Output {
    /// The output row of the account.
    fn from(val: &Account) -> (o: Output)
        ensures
            o@ == output_of(*val),
    {
        let (d, locked) = match *val {
            Account::Locked(d) => (d, true),
            Account::Unlocked(d) => (d, false),
        };
        let total: u128 = u64::from(d.available) as u128 + u64::from(d.held) as u128;
        Output {
            client: d.client,
            available: d.available.format(),
            held: d.held.format(),
            total: format_scaled(total),
            locked,
        }
    }
}

impl FromSpecImpl<&Account> for Output {
    open spec fn obeys_from_spec() -> bool {
        false
    }

    open spec fn from_spec(v: &Account) -> Output {
        arbitrary()
    }
}

impl From<Account> for Output {
    /// The output row of the account.
    fn from(val: Account) -> (o: Output)
        ensures
            o@ == output_of(val),
    {
        Output::from(&val)
    }
}

impl FromSpecImpl<Account> for Output {
    open spec fn obeys_from_spec() -> bool {
        false
    }

    open spec fn from_spec(v: Account) -> Output {
        arbitrary()
    }
}

/// The rows to write out for the accounts: one for each, in their order.
pub fn save(accts: &Vec<Account>) -> (rows: Vec<Output>)
    ensures
        rows@.len() == accts@.len(),
        forall|i: int| 0 <= i < rows@.len() ==> (#[trigger] rows@[i])@ == output_of(accts@[i]),
{
    let mut rows: Vec<Output> = Vec::new();
    let mut i: usize = 0;
    while i < accts.len()
        invariant
            i <= accts.len(),
            rows@.len() == i,
            forall|j: int| 0 <= j < i ==> (#[trigger] rows@[j])@ == output_of(accts@[j]),
        decreases accts.len() - i,
    {
        rows.push(Output::from(&accts[i]));
        i += 1;
    }
    rows
}

} // verus!
