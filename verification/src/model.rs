//! The ledger as a mathematical state machine.
//!
//! A [`Ledger`] holds the balances of every account as integers, the
//! history of deposits and withdrawals and the disputes that are open.
//! [`Ledger::verdict`] says whether a transaction is accepted, and
//! [`Ledger::apply`] what the ledger is after it. The laws at the end of this
//! module hold of every ledger that [`Ledger::run`] reaches.

use crate::types::{ClientId, ErrorView, Txn, TxnId};
use vstd::prelude::*;

verus! {

/// The largest scaled value that a balance may reach.
pub const MAX_BALANCE: u64 = u64::MAX;

/// The balances of one account, in ten-thousandths of a unit.
pub struct Balances {
    /// Funds that may be withdrawn or put under dispute.
    pub available: int,
    /// Funds frozen while a dispute is open.
    pub held: int,
    /// Whether the account was locked by a chargeback.
    pub locked: bool,
}

impl Balances {
    /// The client's full balance.
    pub open spec fn total(self) -> int {
        self.available + self.held
    }
}

/// The state of the ledger.
pub struct Ledger {
    /// The account of each client that has one.
    pub accounts: Map<ClientId, Balances>,
    /// The deposits and withdrawals that were accepted, by transaction and
    /// client.
    pub history: Map<(TxnId, ClientId), Txn>,
    /// The transactions under dispute, by transaction and client.
    pub disputes: Map<(TxnId, ClientId), Txn>,
}

/// The amount of the deposit or withdrawal that `records` holds for
/// transaction `tx` of `client`, if it holds one.
pub open spec fn recorded(records: Map<(TxnId, ClientId), Txn>, tx: TxnId, client: ClientId)
    -> Option<nat> {
    if records.contains_key((tx, client)) {
        records[(tx, client)].money()
    } else {
        None
    }
}

impl Ledger {
    /// The ledger before any transaction: no account, nothing recorded.
    pub open spec fn empty() -> Ledger {
        Ledger { accounts: Map::empty(), history: Map::empty(), disputes: Map::empty() }
    }

    /// Whether `client` has an account that is not locked.
    pub open spec fn is_open(self, client: ClientId) -> bool {
        self.accounts.contains_key(client) && !self.accounts[client].locked
    }

    /// Whether `client` has an account that is locked.
    pub open spec fn is_locked(self, client: ClientId) -> bool {
        self.accounts.contains_key(client) && self.accounts[client].locked
    }

    /// Why the transaction `t` is turned down, or `None` where it is
    /// accepted.
    pub open spec fn verdict(self, t: Txn) -> Option<ErrorView> {
        let client = t.client();
        let tx = t.tx();
        if !self.accounts.contains_key(client) {
            if t is Deposit {
                None
            } else {
                Some(ErrorView::NonexistentAccount(tx, client))
            }
        } else if self.accounts[client].locked {
            Some(ErrorView::LockedAccount(tx, client))
        } else {
            let b = self.accounts[client];
            match t {
                Txn::Deposit { amount, .. } => {
                    if b.available + amount@ > MAX_BALANCE {
                        Some(ErrorView::Overflow)
                    } else {
                        None
                    }
                },
                Txn::Withdrawal { amount, .. } => {
                    if amount@ > b.available {
                        Some(ErrorView::InsufficientFunds(tx))
                    } else {
                        None
                    }
                },
                Txn::Dispute { .. } => match recorded(self.history, tx, client) {
                    None => Some(ErrorView::InvalidTransaction(tx, "Invalid dispute"@)),
                    Some(a) => {
                        if a > b.available {
                            Some(ErrorView::InsufficientFunds(tx))
                        } else if b.held + a > MAX_BALANCE {
                            Some(ErrorView::Overflow)
                        } else {
                            None
                        }
                    },
                },
                Txn::Resolve { .. } => match recorded(self.disputes, tx, client) {
                    None => Some(ErrorView::InvalidTransaction(tx, "Invalid resolve"@)),
                    Some(a) => {
                        if a > b.held {
                            Some(ErrorView::InsufficientFunds(tx))
                        } else if b.available + a > MAX_BALANCE {
                            Some(ErrorView::Overflow)
                        } else {
                            None
                        }
                    },
                },
                Txn::Chargeback { .. } => match recorded(self.history, tx, client) {
                    None => Some(ErrorView::InvalidTransaction(tx, "Invalid chargeback"@)),
                    Some(a) => {
                        if a > b.held {
                            Some(ErrorView::InsufficientFunds(tx))
                        } else {
                            None
                        }
                    },
                },
            }
        }
    }

    /// The ledger after an accepted transaction `t`.
    pub open spec fn effect(self, t: Txn) -> Ledger {
        let client = t.client();
        let key = (t.tx(), client);
        let b = self.accounts[client];
        match t {
            Txn::Deposit { amount, .. } => {
                let after = if self.accounts.contains_key(client) {
                    Balances { available: b.available + amount@, ..b }
                } else {
                    Balances { available: amount@ as int, held: 0, locked: false }
                };
                Ledger {
                    accounts: self.accounts.insert(client, after),
                    history: self.history.insert(key, t),
                    ..self
                }
            },
            Txn::Withdrawal { amount, .. } => Ledger {
                accounts: self.accounts.insert(
                    client,
                    Balances { available: b.available - amount@, ..b },
                ),
                history: self.history.insert(key, t),
                ..self
            },
            Txn::Dispute { .. } => {
                let a = self.history[key].money().unwrap();
                Ledger {
                    accounts: self.accounts.insert(
                        client,
                        Balances { available: b.available - a, held: b.held + a, ..b },
                    ),
                    disputes: self.disputes.insert(key, self.history[key]),
                    ..self
                }
            },
            Txn::Resolve { .. } => {
                let a = self.disputes[key].money().unwrap();
                Ledger {
                    accounts: self.accounts.insert(
                        client,
                        Balances { available: b.available + a, held: b.held - a, ..b },
                    ),
                    disputes: self.disputes.remove(key),
                    ..self
                }
            },
            Txn::Chargeback { .. } => {
                let a = self.history[key].money().unwrap();
                Ledger {
                    accounts: self.accounts.insert(
                        client,
                        Balances { held: b.held - a, locked: true, ..b },
                    ),
                    disputes: self.disputes.remove(key),
                    ..self
                }
            },
        }
    }

    /// The ledger after the transaction `t`: changed as `t` asks where it is
    /// accepted, and unchanged where it is turned down.
    pub open spec fn apply(self, t: Txn) -> Ledger {
        if self.verdict(t) is None {
            self.effect(t)
        } else {
            self
        }
    }

    /// The ledger after the transactions `txns`, applied in order to `self`.
    pub open spec fn run(self, txns: Seq<Txn>) -> Ledger
        decreases txns.len(),
    {
        if txns.len() == 0 {
            self
        } else {
            self.run(txns.drop_last()).apply(txns.last())
        }
    }

    /// Whether no balance is negative or beyond [`MAX_BALANCE`].
    pub open spec fn balances_in_range(self) -> bool {
        forall|c: ClientId| #[trigger]
            self.accounts.contains_key(c) ==> {
                &&& 0 <= self.accounts[c].available <= MAX_BALANCE
                &&& 0 <= self.accounts[c].held <= MAX_BALANCE
            }
    }

    /// A transaction leaves every balance at or above zero and within
    /// range, if they were so before.
    pub proof fn lemma_apply_keeps_balances_in_range(self, t: Txn)
        requires
            self.balances_in_range(),
        ensures
            self.apply(t).balances_in_range(),
    {
        if let Txn::Deposit { amount, .. } = t {
            amount.lemma_bounded();
        }
    }

    /// In every ledger reached from the empty one, whatever the
    /// transactions, no balance is negative: `available >= 0` and
    /// `held >= 0` for every account.
    pub proof fn lemma_reachable_balances_nonnegative(txns: Seq<Txn>, client: ClientId)
        ensures
            Ledger::empty().run(txns).balances_in_range(),
            Ledger::empty().run(txns).accounts.contains_key(client) ==> {
                &&& Ledger::empty().run(txns).accounts[client].available >= 0
                &&& Ledger::empty().run(txns).accounts[client].held >= 0
            },
        decreases txns.len(),
    {
        if txns.len() > 0 {
            Self::lemma_reachable_balances_nonnegative(txns.drop_last(), client);
            Ledger::empty().run(txns.drop_last()).lemma_apply_keeps_balances_in_range(
                txns.last(),
            );
        }
    }

    /// Whether every record is a deposit or a withdrawal, filed under its own
    /// transaction and client.
    pub open spec fn records_well_filed(self) -> bool {
        &&& forall|k: (TxnId, ClientId)| #[trigger]
            self.history.contains_key(k) ==> {
                &&& self.history[k].money() is Some
                &&& self.history[k].tx() == k.0
                &&& self.history[k].client() == k.1
            }
        &&& forall|k: (TxnId, ClientId)| #[trigger]
            self.disputes.contains_key(k) ==> {
                &&& self.disputes[k].money() is Some
                &&& self.disputes[k].tx() == k.0
                &&& self.disputes[k].client() == k.1
            }
    }

    /// A transaction leaves the records well filed, if they were so before.
    pub proof fn lemma_apply_keeps_records_well_filed(self, t: Txn)
        requires
            self.records_well_filed(),
        ensures
            self.apply(t).records_well_filed(),
    {
    }

    /// In every ledger reached from the empty one, the history holds only
    /// deposits and withdrawals, and so do the open disputes, each under
    /// its own transaction and client.
    pub proof fn lemma_reachable_records_well_filed(txns: Seq<Txn>)
        ensures
            Ledger::empty().run(txns).records_well_filed(),
        decreases txns.len(),
    {
        if txns.len() > 0 {
            Self::lemma_reachable_records_well_filed(txns.drop_last());
            Ledger::empty().run(txns.drop_last()).lemma_apply_keeps_records_well_filed(
                txns.last(),
            );
        }
    }

    /// No transaction removes an account or a record of the history.
    pub proof fn lemma_accounts_and_history_are_kept(
        self,
        t: Txn,
        client: ClientId,
        key: (TxnId, ClientId),
    )
        ensures
            self.accounts.contains_key(client) ==> self.apply(t).accounts.contains_key(client),
            self.history.contains_key(key) ==> self.apply(t).history.contains_key(key),
            self.history.contains_key(key) && key != (t.tx(), t.client()) ==> self.apply(
                t,
            ).history[key] == self.history[key],
    {
    }

    /// A transaction that is turned down changes nothing.
    pub proof fn lemma_rejected_changes_nothing(self, t: Txn)
        requires
            self.verdict(t) is Some,
        ensures
            self.apply(t) == self,
    {
    }

    /// Every transaction against a locked account is turned down with
    /// `LockedAccount`, whatever its kind, and changes nothing.
    pub proof fn lemma_locked_account_rejects(self, t: Txn)
        requires
            self.is_locked(t.client()),
        ensures
            self.verdict(t) == Some(ErrorView::LockedAccount(t.tx(), t.client())),
            self.apply(t) == self,
    {
    }

    /// A locked account stays locked, with the same balances, whatever
    /// transactions follow, and goes on turning down every transaction
    /// against it.
    pub proof fn lemma_locked_is_final(self, txns: Seq<Txn>, client: ClientId, t: Txn)
        requires
            self.is_locked(client),
            t.client() == client,
        ensures
            self.run(txns).is_locked(client),
            self.run(txns).accounts[client] == self.accounts[client],
            self.run(txns).verdict(t) == Some(ErrorView::LockedAccount(t.tx(), client)),
        decreases txns.len(),
    {
        if txns.len() > 0 {
            self.lemma_locked_is_final(txns.drop_last(), client, t);
        }
    }

    /// A deposit for a client without an account is accepted and opens an
    /// unlocked account that holds the amount as available and nothing as
    /// held.
    pub proof fn lemma_first_deposit_opens_account(self, t: Txn)
        requires
            t is Deposit,
            !self.accounts.contains_key(t.client()),
        ensures
            self.verdict(t) is None,
            self.apply(t).accounts.contains_key(t.client()),
            self.apply(t).accounts[t.client()] == (Balances {
                available: t.money().unwrap() as int,
                held: 0,
                locked: false,
            }),
            self.apply(t).history[(t.tx(), t.client())] == t,
    {
    }

    /// A transaction changes no account but that of its own client.
    pub proof fn lemma_other_accounts_unchanged(self, t: Txn, other: ClientId)
        requires
            other != t.client(),
        ensures
            self.apply(t).accounts.contains_key(other) == self.accounts.contains_key(other),
            self.apply(t).accounts[other] == self.accounts[other],
    {
    }

    /// Disputes and resolutions only move funds between available and held:
    /// the total of the account stays what it was.
    pub proof fn lemma_dispute_and_resolve_keep_total(self, t: Txn)
        requires
            t is Dispute || t is Resolve,
            self.accounts.contains_key(t.client()),
        ensures
            self.apply(t).accounts.contains_key(t.client()),
            self.apply(t).accounts[t.client()].total() == self.accounts[t.client()].total(),
    {
    }

    /// An accepted chargeback takes the amount out of the held funds and
    /// leaves the available funds as they were.
    pub proof fn lemma_chargeback_takes_from_held(self, t: Txn)
        requires
            t is Chargeback,
            self.verdict(t) is None,
        ensures
            recorded(self.history, t.tx(), t.client()) is Some,
            self.apply(t).accounts[t.client()] == (Balances {
                available: self.accounts[t.client()].available,
                held: self.accounts[t.client()].held - recorded(
                    self.history,
                    t.tx(),
                    t.client(),
                ).unwrap(),
                locked: true,
            }),
            !self.apply(t).disputes.contains_key((t.tx(), t.client())),
    {
    }

    /// Only a chargeback locks an account, and no transaction unlocks one.
    pub proof fn lemma_only_chargeback_locks(self, t: Txn, client: ClientId)
        requires
            self.apply(t).is_locked(client),
        ensures
            self.is_locked(client) || (t is Chargeback && t.client() == client && self.is_open(
                client,
            )),
    {
    }
}

} // verus!
