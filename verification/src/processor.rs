//! The ledger engine: applies transactions to the accounts.

use crate::amount::Amount;
use crate::model::{Balances, Ledger, MAX_BALANCE};
use crate::types::{Account, AccountData, ClientId, Error, Txn, TxnId};
use std::collections::HashMap;
use vstd::prelude::*;
use vstd::std_specs::hash::spec_keys_iter;
use vstd::std_specs::iter::IteratorSpec;

verus! {

broadcast use vstd::std_specs::hash::group_hash_axioms;

/// The key under which the engine files the record of transaction `tx` of
/// `client`: the pair, packed into one integer.
pub open spec fn record_key(tx: TxnId, client: ClientId) -> u64 {
    (tx as u64 * 65536 + client as u64) as u64
}

/// Distinct pairs have distinct keys.
pub proof fn lemma_record_key_injective(tx1: TxnId, c1: ClientId, tx2: TxnId, c2: ClientId)
    requires
        record_key(tx1, c1) == record_key(tx2, c2),
    ensures
        tx1 == tx2,
        c1 == c2,
{
}

/// The records of `m`, by transaction and client.
pub open spec fn records_of(m: Map<u64, Txn>) -> Map<(TxnId, ClientId), Txn> {
    Map::new(
        |k: (TxnId, ClientId)| m.contains_key(record_key(k.0, k.1)),
        |k: (TxnId, ClientId)| m[record_key(k.0, k.1)],
    )
}

/// Filing a record under the key of a pair files it under the pair.
proof fn lemma_records_insert(m: Map<u64, Txn>, tx: TxnId, client: ClientId, t: Txn)
    ensures
        records_of(m.insert(record_key(tx, client), t)) == records_of(m).insert((tx, client), t),
{
    assert forall|k: (TxnId, ClientId)| k != (tx, client) implies record_key(k.0, k.1)
        != record_key(tx, client) by {
        if record_key(k.0, k.1) == record_key(tx, client) {
            lemma_record_key_injective(k.0, k.1, tx, client);
        }
    }
    assert(records_of(m.insert(record_key(tx, client), t)) =~= records_of(m).insert(
        (tx, client),
        t,
    ));
}

/// Removing the record under the key of a pair removes the pair's record.
proof fn lemma_records_remove(m: Map<u64, Txn>, tx: TxnId, client: ClientId)
    ensures
        records_of(m.remove(record_key(tx, client))) == records_of(m).remove((tx, client)),
{
    assert forall|k: (TxnId, ClientId)| k != (tx, client) implies record_key(k.0, k.1)
        != record_key(tx, client) by {
        if record_key(k.0, k.1) == record_key(tx, client) {
            lemma_record_key_injective(k.0, k.1, tx, client);
        }
    }
    assert(records_of(m.remove(record_key(tx, client))) =~= records_of(m).remove((tx, client)));
}

/// The balances of the accounts of `m`, by client.
pub open spec fn balances_of(m: Map<ClientId, Account>) -> Map<ClientId, Balances> {
    Map::new(|c: ClientId| m.contains_key(c), |c: ClientId| m[c].balances())
}

/// The record together with its amount, where there is a record and it is a
/// deposit or a withdrawal.
fn monetary(record: Option<Txn>) -> (r: Option<(Txn, Amount)>)
    ensures
        match r {
            Some((t, a)) => record == Some(t) && t.money() == Some(a@),
            None => record is None || record->0.money() is None,
        },
{
    match record {
        Some(t) => match t.amount() {
            Some(a) => Some((t, a)),
            None => None,
        },
        None => None,
    }
}

/// Packs a transaction and a client into the key of their record.
fn key_of(tx: TxnId, client: ClientId) -> (k: u64)
    ensures
        k == record_key(tx, client),
{
    tx as u64 * 65536 + client as u64
}

/// The ledger engine. It holds every account, the history of deposits and
/// withdrawals and the disputes that are open, and applies one transaction
/// at a time.
#[derive(Debug)]
pub struct Processor {
    accounts: HashMap<ClientId, Account>,
    history: HashMap<u64, Txn>,
    disputes: HashMap<u64, Txn>,
}

impl View for Processor {
    type V = Ledger;

    closed spec fn view(&self) -> Ledger {
        Ledger {
            accounts: balances_of(self.accounts@),
            history: records_of(self.history@),
            disputes: records_of(self.disputes@),
        }
    }
}

impl Processor {
    /// Whether the engine is well formed: every account is filed under its
    /// own client.
    pub closed spec fn wf(&self) -> bool {
        forall|c: ClientId| #[trigger]
            self.accounts@.contains_key(c) ==> self.accounts@[c].data().client == c
    }

    /// The balances of every account of an engine are at or above zero and
    /// within range.
    pub proof fn lemma_balances_in_range(&self)
        ensures
            self@.balances_in_range(),
    {
        assert forall|c: ClientId| #[trigger] self@.accounts.contains_key(c) implies {
            &&& 0 <= self@.accounts[c].available <= MAX_BALANCE
            &&& 0 <= self@.accounts[c].held <= MAX_BALANCE
        } by {
            self.accounts@[c].data().available.lemma_bounded();
            self.accounts@[c].data().held.lemma_bounded();
        }
    }

    /// An engine without accounts or records.
    pub fn new() -> (p: Processor)
        ensures
            p.wf(),
            p@ == Ledger::empty(),
    {
        let p = Processor {
            accounts: HashMap::new(),
            history: HashMap::new(),
            disputes: HashMap::new(),
        };
        assert(p@.accounts =~= Map::empty());
        assert(p@.history =~= Map::empty());
        assert(p@.disputes =~= Map::empty());
        p
    }

    /// The account of `client`, if there is one.
    pub fn account(&self, client: ClientId) -> (r: Option<Account>)
        requires
            self.wf(),
        ensures
            match r {
                Some(a) => {
                    &&& self@.accounts.contains_key(client)
                    &&& a.data().client == client
                    &&& a.balances() == self@.accounts[client]
                },
                None => !self@.accounts.contains_key(client),
            },
    {
        match self.accounts.get(&client) {
            Some(a) => Some(*a),
            None => None,
        }
    }

    /// The deposit or withdrawal recorded for transaction `tx` of `client`,
    /// if one was accepted.
    pub fn recorded(&self, tx: TxnId, client: ClientId) -> (r: Option<Txn>)
        ensures
            match r {
                Some(t) => self@.history.contains_key((tx, client)) && self@.history[(tx, client)]
                    == t,
                None => !self@.history.contains_key((tx, client)),
            },
    {
        match self.history.get(&key_of(tx, client)) {
            Some(t) => Some(*t),
            None => None,
        }
    }

    /// The transaction of `client` that is under dispute as `tx`, if one
    /// is.
    pub fn disputed(&self, tx: TxnId, client: ClientId) -> (r: Option<Txn>)
        ensures
            match r {
                Some(t) => self@.disputes.contains_key((tx, client)) && self@.disputes[(
                    tx,
                    client,
                )] == t,
                None => !self@.disputes.contains_key((tx, client)),
            },
    {
        match self.disputes.get(&key_of(tx, client)) {
            Some(t) => Some(*t),
            None => None,
        }
    }

    /// Applies one transaction.
    ///
    /// The transaction is either accepted, and the ledger changed as
    /// [`Ledger::effect`] says, or turned down with the error that
    /// [`Ledger::verdict`] names, and nothing is changed.
    pub fn process_txn(&mut self, txn: &Txn) -> (r: Result<(), Error>)
        requires
            old(self).wf(),
        ensures
            final(self).wf(),
            final(self)@ == old(self)@.apply(*txn),
            match r {
                Ok(()) => old(self)@.verdict(*txn) is None,
                Err(e) => old(self)@.verdict(*txn) == Some(e@),
            },
    {
        let ghost before = self@;
        match *txn {
            Txn::Deposit { client, tx, amount } => match self.account(client) {
                Some(Account::Unlocked(acct)) => match acct.available + amount {
                    Ok(available) => {
                        let after = AccountData { client, available, held: acct.held };
                        self.accounts.insert(client, Account::Unlocked(after));
                        self.history.insert(key_of(tx, client), *txn);
                        proof {
                            lemma_records_insert(old(self).history@, tx, client, *txn);
                            assert(self@.accounts =~= before.apply(*txn).accounts);
                        }
                        Ok(())
                    },
                    Err(e) => Err(e),
                },
                None => {
                    let opened = AccountData { client, available: amount, held: Amount::from(0) };
                    self.accounts.insert(client, Account::Unlocked(opened));
                    self.history.insert(key_of(tx, client), *txn);
                    proof {
                        lemma_records_insert(old(self).history@, tx, client, *txn);
                        assert(self@.accounts =~= before.apply(*txn).accounts);
                    }
                    Ok(())
                },
                Some(Account::Locked(_)) => Err(Error::LockedAccount(tx, client)),
            },
            Txn::Withdrawal { client, tx, amount } => match self.account(client) {
                Some(Account::Unlocked(acct)) => match acct.available - amount {
                    Ok(available) => {
                        let after = AccountData { client, available, held: acct.held };
                        self.accounts.insert(client, Account::Unlocked(after));
                        self.history.insert(key_of(tx, client), *txn);
                        proof {
                            lemma_records_insert(old(self).history@, tx, client, *txn);
                            assert(self@.accounts =~= before.apply(*txn).accounts);
                        }
                        Ok(())
                    },
                    Err(_) => Err(Error::InsufficientFunds(tx)),
                },
                Some(Account::Locked(_)) => Err(Error::LockedAccount(tx, client)),
                None => Err(Error::NonexistentAccount(tx, client)),
            },
            Txn::Dispute { client, tx } => match self.account(client) {
                Some(Account::Unlocked(acct)) => match monetary(self.recorded(tx, client)) {
                    Some((record, amount)) => match acct.available - amount {
                        Ok(available) => match acct.held + amount {
                            Ok(held) => {
                                let after = AccountData { client, available, held };
                                self.accounts.insert(client, Account::Unlocked(after));
                                self.disputes.insert(key_of(tx, client), record);
                                proof {
                                    lemma_records_insert(old(self).disputes@, tx, client, record);
                                    assert(self@.accounts =~= before.apply(*txn).accounts);
                                }
                                Ok(())
                            },
                            Err(e) => Err(e),
                        },
                        Err(_) => Err(Error::InsufficientFunds(tx)),
                    },
                    None => Err(Error::InvalidTransaction(tx, "Invalid dispute".to_owned())),
                },
                Some(Account::Locked(_)) => Err(Error::LockedAccount(tx, client)),
                None => Err(Error::NonexistentAccount(tx, client)),
            },
            Txn::Resolve { client, tx } => match self.account(client) {
                Some(Account::Unlocked(acct)) => match monetary(self.disputed(tx, client)) {
                    Some((_, amount)) => match acct.held - amount {
                        Ok(held) => match acct.available + amount {
                            Ok(available) => {
                                let after = AccountData { client, available, held };
                                self.accounts.insert(client, Account::Unlocked(after));
                                self.disputes.remove(&key_of(tx, client));
                                proof {
                                    lemma_records_remove(old(self).disputes@, tx, client);
                                    assert(self@.accounts =~= before.apply(*txn).accounts);
                                }
                                Ok(())
                            },
                            Err(e) => Err(e),
                        },
                        Err(_) => Err(Error::InsufficientFunds(tx)),
                    },
                    None => Err(Error::InvalidTransaction(tx, "Invalid resolve".to_owned())),
                },
                Some(Account::Locked(_)) => Err(Error::LockedAccount(tx, client)),
                None => Err(Error::NonexistentAccount(tx, client)),
            },
            Txn::Chargeback { client, tx } => match self.account(client) {
                Some(Account::Unlocked(acct)) => match monetary(self.recorded(tx, client)) {
                    Some((_, amount)) => match acct.held - amount {
                        Ok(held) => {
                            let after = AccountData { client, available: acct.available, held };
                            self.accounts.insert(client, Account::Locked(after));
                            self.disputes.remove(&key_of(tx, client));
                            proof {
                                lemma_records_remove(old(self).disputes@, tx, client);
                                assert(self@.accounts =~= before.apply(*txn).accounts);
                            }
                            Ok(())
                        },
                        Err(_) => Err(Error::InsufficientFunds(tx)),
                    },
                    None => Err(Error::InvalidTransaction(tx, "Invalid chargeback".to_owned())),
                },
                Some(Account::Locked(_)) => Err(Error::LockedAccount(tx, client)),
                None => Err(Error::NonexistentAccount(tx, client)),
            },
        }
    }

    /// Every account, each once, in no particular order.
    pub fn get_accounts(&self) -> (r: Vec<Account>)
        requires
            self.wf(),
        ensures
            r@.len() == self@.accounts.len(),
            forall|i: int|
                0 <= i < r@.len() ==> {
                    &&& self@.accounts.contains_key(#[trigger] r@[i].data().client)
                    &&& r@[i].balances() == self@.accounts[r@[i].data().client]
                },
            forall|i: int, j: int|
                0 <= i < j < r@.len() ==> r@[i].data().client != r@[j].data().client,
            forall|c: ClientId|
                self@.accounts.contains_key(c) ==> exists|i: int|
                    0 <= i < r@.len() && #[trigger] r@[i].data().client == c,
    {
        let mut r: Vec<Account> = Vec::new();
        let ghost filed = self.accounts@;
        let ghost keys = spec_keys_iter(&self.accounts).remaining().unref();
        for client in it: self.accounts.keys()
            invariant
                filed == self.accounts@,
                keys == it.seq().unref(),
                keys.to_set() == filed.dom(),
                keys.no_duplicates(),
                keys.len() == filed.dom().len(),
                r@.len() == it.index(),
                forall|i: int|
                    0 <= i < r@.len() ==> filed.contains_key(keys[i]) && #[trigger] r@[i]
                        == filed[keys[i]],
        {
            proof {
                assert(keys[it.index()] == *client);
                assert(keys.to_set().contains(*client));
            }
            match self.accounts.get(client) {
                Some(a) => {
                    r.push(*a);
                },
                None => {},
            }
        }
        proof {
            assert(self@.accounts.dom() =~= filed.dom());
            assert forall|i: int, j: int| 0 <= i < j < r@.len() implies r@[i].data().client
                != r@[j].data().client by {
                assert(keys[i] != keys[j]);
            }
            assert forall|c: ClientId| self@.accounts.contains_key(c) implies exists|i: int|
                0 <= i < r@.len() && #[trigger] r@[i].data().client == c by {
                assert(keys.to_set().contains(c));
                let i = choose|i: int| 0 <= i < keys.len() && keys[i] == c;
                assert(r@[i].data().client == c);
            }
        }
        r
    }
}

} // verus!
