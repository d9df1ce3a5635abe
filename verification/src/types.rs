//! Transactions, accounts and errors.

use crate::amount::Amount;
use crate::model::Balances;
use vstd::prelude::*;

verus! {

/// Identifies a client, and with it the client's account.
pub type ClientId = u16;

/// Identifies a transaction of one client.
pub type TxnId = u32;

/// One transaction of the input stream.
#[derive(Copy, Clone, Debug, PartialEq, Eq, Hash, Structural)]
pub enum Txn {
    Deposit { client: ClientId, tx: TxnId, amount: Amount },
    Withdrawal { client: ClientId, tx: TxnId, amount: Amount },
    Dispute { client: ClientId, tx: TxnId },
    Resolve { client: ClientId, tx: TxnId },
    Chargeback { client: ClientId, tx: TxnId },
}

impl Txn {
    /// The client the transaction is about.
    pub open spec fn client(self) -> ClientId {
        match self {
            Txn::Deposit { client, .. } => client,
            Txn::Withdrawal { client, .. } => client,
            Txn::Dispute { client, .. } => client,
            Txn::Resolve { client, .. } => client,
            Txn::Chargeback { client, .. } => client,
        }
    }

    /// The transaction's identifier; for a dispute, resolve or chargeback,
    /// that of the transaction it refers to.
    pub open spec fn tx(self) -> TxnId {
        match self {
            Txn::Deposit { tx, .. } => tx,
            Txn::Withdrawal { tx, .. } => tx,
            Txn::Dispute { tx, .. } => tx,
            Txn::Resolve { tx, .. } => tx,
            Txn::Chargeback { tx, .. } => tx,
        }
    }

    /// The amount moved by a deposit or withdrawal; `None` for the other
    /// kinds, which carry none.
    pub open spec fn money(self) -> Option<nat> {
        match self {
            Txn::Deposit { amount, .. } => Some(amount@),
            Txn::Withdrawal { amount, .. } => Some(amount@),
            _ => None,
        }
    }

    /// The amount of a deposit or withdrawal.
    pub fn amount(&self) -> (r: Option<Amount>)
        ensures
            match r {
                Some(a) => self.money() == Some(a@),
                None => self.money() is None,
            },
    {
        match *self {
            Txn::Deposit { amount, .. } => Some(amount),
            Txn::Withdrawal { amount, .. } => Some(amount),
            _ => None,
        }
    }
}

/// The balances of one client.
#[derive(Copy, Clone, Debug, PartialEq, Eq, PartialOrd, Ord, Structural)]
pub struct AccountData {
    pub client: ClientId,
    pub available: Amount,
    pub held: Amount,
}

/// An account, open for transactions or locked for good.
#[derive(Copy, Clone, Debug, PartialEq, Eq, PartialOrd, Ord, Structural)]
pub enum Account {
    Locked(AccountData),
    Unlocked(AccountData),
}

impl Account {
    /// The balances, whichever state the account is in.
    pub open spec fn data(self) -> AccountData {
        match self {
            Account::Locked(d) => d,
            Account::Unlocked(d) => d,
        }
    }

    /// The balances as the ledger's model holds them.
    pub open spec fn balances(self) -> Balances {
        Balances {
            available: self.data().available@ as int,
            held: self.data().held@ as int,
            locked: self is Locked,
        }
    }
}

/// Why a record or a transaction was turned down.
#[derive(Debug, PartialEq)]
pub enum Error {
    Deserialization(String, String),
    Serialization(String),
    Input(String),
    InsufficientFunds(TxnId),
    InvalidTransaction(TxnId, String),
    NonexistentAccount(TxnId, ClientId),
    LockedAccount(TxnId, ClientId),
    Overflow,
    Underflow,
}

/// An [`Error`] with each text as a sequence of characters.
pub enum ErrorView {
    Deserialization(Seq<char>, Seq<char>),
    Serialization(Seq<char>),
    Input(Seq<char>),
    InsufficientFunds(TxnId),
    InvalidTransaction(TxnId, Seq<char>),
    NonexistentAccount(TxnId, ClientId),
    LockedAccount(TxnId, ClientId),
    Overflow,
    Underflow,
}

impl View for Error {
    type V = ErrorView;

    open spec fn view(&self) -> ErrorView {
        match *self {
            Error::Deserialization(file, text) => ErrorView::Deserialization(file@, text@),
            Error::Serialization(text) => ErrorView::Serialization(text@),
            Error::Input(text) => ErrorView::Input(text@),
            Error::InsufficientFunds(tx) => ErrorView::InsufficientFunds(tx),
            Error::InvalidTransaction(tx, text) => ErrorView::InvalidTransaction(tx, text@),
            Error::NonexistentAccount(tx, client) => ErrorView::NonexistentAccount(tx, client),
            Error::LockedAccount(tx, client) => ErrorView::LockedAccount(tx, client),
            Error::Overflow => ErrorView::Overflow,
            Error::Underflow => ErrorView::Underflow,
        }
    }
}

} // verus!
