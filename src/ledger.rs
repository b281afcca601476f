use std::collections::HashMap;
use vstd::prelude::*;

use crate::money::{difference, sum, Money};

verus! {

broadcast use vstd::std_specs::hash::group_hash_axioms;

/// The kinds of transaction record that the ledger understands.
#[derive(Clone, Copy, Debug, PartialEq, Eq, Structural)]
pub enum TransactionKind {
    Deposit,
    Withdrawal,
    Dispute,
    Resolve,
    Chargeback,
}

/// One transaction record. Deposits and withdrawals carry an amount;
/// disputes, resolves and chargebacks refer to an earlier deposit by `tx`.
#[derive(Clone, Copy, Debug, PartialEq, Eq, Structural)]
pub struct Transaction {
    pub kind: TransactionKind,
    pub client: u16,
    pub tx: u32,
    pub amount: Option<Money>,
}

/// Why a transaction could not be applied.
#[derive(Clone, Copy, Debug, PartialEq, Eq, Structural)]
pub enum LedgerError {
    /// A deposit or withdrawal without an amount; carries its transaction id.
    MissingAmount { tx: u32 },
    /// A withdrawal of more than the account has available.
    InsufficientFunds,
    /// A balance would leave the range that `Money` holds.
    Overflow,
}

impl LedgerError {
    /// A short description of the failure.
    pub fn message(&self) -> (r: &'static str)
        ensures
            r@ == (match *self {
                LedgerError::MissingAmount { .. } => "transaction must have an amount"@,
                LedgerError::InsufficientFunds => "funds are not sufficient for withdrawal"@,
                LedgerError::Overflow => "balance out of range"@,
            }),
    {
        proof {
            reveal_strlit("funds are not sufficient for withdrawal");
            reveal_strlit("transaction must have an amount");
            reveal_strlit("balance out of range");
        }
        match self {
            LedgerError::MissingAmount { .. } => "transaction must have an amount",
            LedgerError::InsufficientFunds => "funds are not sufficient for withdrawal",
            LedgerError::Overflow => "balance out of range",
        }
    }
}

/// The balances of one client account.
///
/// `locked` records that a chargeback happened; it does not block later
/// transactions.
#[derive(Clone, Copy, Debug, PartialEq, Eq, Structural)]
pub struct AccountState {
    pub client: u16,
    pub available: Money,
    pub held: Money,
    pub total: Money,
    pub locked: bool,
}

impl AccountState {
    pub open spec fn fresh_spec(client: u16) -> AccountState {
        AccountState {
            client,
            available: Money { units: 0 },
            held: Money { units: 0 },
            total: Money { units: 0 },
            locked: false,
        }
    }

    /// An account with zero balances, not locked.
    pub fn fresh(client: u16) -> (r: AccountState)
        ensures
            r == AccountState::fresh_spec(client),
    {
        AccountState {
            client,
            available: Money { units: 0 },
            held: Money { units: 0 },
            total: Money { units: 0 },
            locked: false,
        }
    }

    /// `total == available + held`.
    pub open spec fn balanced(&self) -> bool {
        self.total@ == self.available@ + self.held@
    }
}

/// The key under which a client's dispute of a transaction is recorded.
pub open spec fn dispute_key(client: u16, tx: u32) -> u64 {
    (client as int * 0x1_0000_0000 + tx as int) as u64
}

/// The ledger as a mathematical value.
#[verifier::ext_equal]
pub ghost struct LedgerModel {
    /// Each known client's account.
    pub accounts: Map<u16, AccountState>,
    /// The amount of each deposit that can still be disputed.
    pub deposits: Map<u32, Money>,
    /// The amount of each open dispute, under `dispute_key(client, tx)`.
    pub disputes: Map<u64, Money>,
}

impl LedgerModel {
    /// The model with an account for `client`, created empty if it was absent.
    pub open spec fn open_account(self, client: u16) -> LedgerModel {
        if self.accounts.contains_key(client) {
            self
        } else {
            LedgerModel {
                accounts: self.accounts.insert(client, AccountState::fresh_spec(client)),
                ..self
            }
        }
    }

    /// The model with `client`'s account replaced by `a`.
    pub open spec fn with_account(self, client: u16, a: AccountState) -> LedgerModel {
        LedgerModel { accounts: self.accounts.insert(client, a), ..self }
    }

    /// Every account satisfies `total == available + held`.
    pub open spec fn balanced(self) -> bool {
        forall|c: u16| #[trigger] self.accounts.contains_key(c) ==> self.accounts[c].balanced()
    }

    /// Every account is filed under its own client id.
    pub open spec fn keyed_by_client(self) -> bool {
        forall|c: u16| #[trigger] self.accounts.contains_key(c) ==> self.accounts[c].client == c
    }
}

/// The result of applying `t` to a ledger `m`: the new ledger, or the error.
///
/// Whatever the outcome, the client's account exists afterwards; on an error
/// that is the only change (see `after`).
pub open spec fn step(m: LedgerModel, t: Transaction) -> Result<LedgerModel, LedgerError> {
    let m0 = m.open_account(t.client);
    let a = m0.accounts[t.client];
    let key = dispute_key(t.client, t.tx);
    match t.kind {
        TransactionKind::Deposit => match t.amount {
            None => Err(LedgerError::MissingAmount { tx: t.tx }),
            Some(x) => match (sum(a.available, x), sum(a.total, x)) {
                (Some(av), Some(tot)) => Ok(
                    LedgerModel {
                        deposits: m0.deposits.insert(t.tx, x),
                        ..m0.with_account(t.client, AccountState { available: av, total: tot, ..a })
                    },
                ),
                _ => Err(LedgerError::Overflow),
            },
        },
        TransactionKind::Withdrawal => match t.amount {
            None => Err(LedgerError::MissingAmount { tx: t.tx }),
            Some(x) => if x@ > a.available@ {
                Err(LedgerError::InsufficientFunds)
            } else {
                match (difference(a.available, x), difference(a.total, x)) {
                    (Some(av), Some(tot)) => Ok(
                        m0.with_account(t.client, AccountState { available: av, total: tot, ..a }),
                    ),
                    _ => Err(LedgerError::Overflow),
                }
            },
        },
        TransactionKind::Dispute => if !m0.deposits.contains_key(t.tx) || m0.disputes.contains_key(
            key,
        ) {
            Ok(m0)
        } else {
            let x = m0.deposits[t.tx];
            match (difference(a.available, x), sum(a.held, x)) {
                (Some(av), Some(h)) => Ok(
                    LedgerModel {
                        deposits: m0.deposits.remove(t.tx),
                        disputes: m0.disputes.insert(key, x),
                        ..m0.with_account(t.client, AccountState { available: av, held: h, ..a })
                    },
                ),
                _ => Err(LedgerError::Overflow),
            }
        },
        TransactionKind::Resolve => if !m0.disputes.contains_key(key) {
            Ok(m0)
        } else {
            let x = m0.disputes[key];
            match (sum(a.available, x), difference(a.held, x)) {
                (Some(av), Some(h)) => Ok(
                    LedgerModel {
                        disputes: m0.disputes.remove(key),
                        ..m0.with_account(t.client, AccountState { available: av, held: h, ..a })
                    },
                ),
                _ => Err(LedgerError::Overflow),
            }
        },
        TransactionKind::Chargeback => if !m0.disputes.contains_key(key) {
            Ok(m0)
        } else {
            let x = m0.disputes[key];
            match (difference(a.held, x), difference(a.total, x)) {
                (Some(h), Some(tot)) => Ok(
                    LedgerModel {
                        disputes: m0.disputes.remove(key),
                        ..m0.with_account(
                            t.client,
                            AccountState { held: h, total: tot, locked: true, ..a },
                        )
                    },
                ),
                _ => Err(LedgerError::Overflow),
            }
        },
    }
}

/// The ledger after `t` was applied to `m`, whether it succeeded or not.
pub open spec fn after(m: LedgerModel, t: Transaction) -> LedgerModel {
    match step(m, t) {
        Ok(n) => n,
        Err(_) => m.open_account(t.client),
    }
}

/// The state of a replay: every client account seen so far, the deposits
/// that can still be disputed, and the disputes that are open.
pub struct Ledger {
    accounts: HashMap<u16, AccountState>,
    /// The clients in the order their accounts were opened, each once.
    clients: Vec<u16>,
    deposits: HashMap<u32, Money>,
    disputes: HashMap<u64, Money>,
}

impl View for Ledger {
    type V = LedgerModel;

    closed spec fn view(&self) -> LedgerModel {
        LedgerModel {
            accounts: self.accounts@,
            deposits: self.deposits@,
            disputes: self.disputes@,
        }
    }
}

impl Ledger {
    /// The ledger's internal invariant; it implies `self@.balanced()`.
    pub closed spec fn wf(&self) -> bool {
        &&& self@.balanced()
        &&& self@.keyed_by_client()
        &&& forall|i: int|
            0 <= i < self.clients@.len() ==> self.accounts@.contains_key(#[trigger] self.clients@[i])
        &&& forall|c: u16| #[trigger]
            self.accounts@.contains_key(c) ==> exists|i: int|
                0 <= i < self.clients@.len() && #[trigger] self.clients@[i] == c
        &&& forall|i: int, j: int|
            0 <= i < j < self.clients@.len() ==> self.clients@[i] != self.clients@[j]
    }

    /// An empty ledger: no accounts, no deposits, no disputes.
    pub fn new() -> (r: Ledger)
        ensures
            r.wf(),
            r@.accounts == Map::<u16, AccountState>::empty(),
            r@.deposits == Map::<u32, Money>::empty(),
            r@.disputes == Map::<u64, Money>::empty(),
    {
        Ledger {
            accounts: HashMap::new(),
            clients: Vec::new(),
            deposits: HashMap::new(),
            disputes: HashMap::new(),
        }
    }

    /// Creates an empty account for `client` unless it has one.
    fn open_account(&mut self, client: u16)
        requires
            old(self).wf(),
        ensures
            final(self).wf(),
            final(self)@ == old(self)@.open_account(client),
    {
        if !self.accounts.contains_key(&client) {
            self.accounts.insert(client, AccountState::fresh(client));
            self.clients.push(client);
            proof {
                let n = self.clients@.len() - 1;
                assert(self.clients@[n] == client);
                assert forall|c: u16| #[trigger] self.accounts@.contains_key(c) implies exists|
                    i: int,
                |
                    0 <= i < self.clients@.len() && #[trigger] self.clients@[i] == c by {
                    if c == client {
                        assert(self.clients@[n] == c);
                    } else {
                        let i = choose|i: int|
                            0 <= i < old(self).clients@.len() && #[trigger] old(
                                self,
                            ).clients@[i] == c;
                        assert(self.clients@[i] == c);
                    }
                }
            }
        }
        assert(self@ =~= old(self)@.open_account(client));
    }

    /// The key of `client`'s dispute of `tx`.
    fn dispute_key_of(client: u16, tx: u32) -> (r: u64)
        ensures
            r == dispute_key(client, tx),
    {
        (client as u64) * 0x1_0000_0000 + (tx as u64)
    }

    /// Applies one transaction.
    ///
    /// The client's account is created if it is new, whatever the outcome.
    /// A deposit adds to `available` and `total` and becomes disputable. A
    /// withdrawal takes from them, and fails with `InsufficientFunds` when
    /// the amount is more than `available`. A dispute of a disputable deposit moves its
    /// amount from `available` to `held` (`available` may go negative); a
    /// resolve moves it back; a chargeback takes it from `held` and `total`
    /// and locks the account. A dispute, resolve or chargeback that refers to
    /// nothing it can act on changes nothing; so does a dispute of a
    /// transaction that the client already has under dispute. A locked account
    /// takes further transactions as before. On an error only the account's
    /// creation remains.
    pub fn apply(&mut self, t: &Transaction) -> (r: Result<(), LedgerError>)
        requires
            old(self).wf(),
        ensures
            final(self).wf(),
            final(self)@.balanced(),
            final(self)@ == after(old(self)@, *t),
            match step(old(self)@, *t) {
                Ok(n) => r is Ok && final(self)@ == n,
                Err(e) => r == Err::<(), LedgerError>(e),
            },
    {
        let c = t.client;
        self.open_account(c);
        let ghost m0 = self@;
        let ghost cl = self.clients@;
        assert(forall|c2: u16| #[trigger]
            m0.accounts.contains_key(c2) ==> exists|i: int|
                0 <= i < cl.len() && #[trigger] cl[i] == c2);
        let a = match self.accounts.get(&c) {
            Some(a) => *a,
            None => AccountState::fresh(c),
        };
        assert(a == m0.accounts[c]);
        let key = Ledger::dispute_key_of(c, t.tx);
        match t.kind {
            TransactionKind::Deposit => {
                let x = match t.amount {
                    Some(x) => x,
                    None => {
                        return Err(LedgerError::MissingAmount { tx: t.tx });
                    },
                };
                let (av, tot) = match (a.available.checked_add(x), a.total.checked_add(x)) {
                    (Some(av), Some(tot)) => (av, tot),
                    _ => {
                        return Err(LedgerError::Overflow);
                    },
                };
                self.accounts.insert(c, AccountState { available: av, total: tot, ..a });
                self.deposits.insert(t.tx, x);
            },
            TransactionKind::Withdrawal => {
                let x = match t.amount {
                    Some(x) => x,
                    None => {
                        return Err(LedgerError::MissingAmount { tx: t.tx });
                    },
                };
                if x.units() > a.available.units() {
                    return Err(LedgerError::InsufficientFunds);
                }
                let (av, tot) = match (a.available.checked_sub(x), a.total.checked_sub(x)) {
                    (Some(av), Some(tot)) => (av, tot),
                    _ => {
                        return Err(LedgerError::Overflow);
                    },
                };
                self.accounts.insert(c, AccountState { available: av, total: tot, ..a });
            },
            TransactionKind::Dispute => {
                if self.disputes.contains_key(&key) {
                    return Ok(());
                }
                let x = match self.deposits.get(&t.tx) {
                    Some(x) => *x,
                    None => {
                        return Ok(());
                    },
                };
                let (av, h) = match (a.available.checked_sub(x), a.held.checked_add(x)) {
                    (Some(av), Some(h)) => (av, h),
                    _ => {
                        return Err(LedgerError::Overflow);
                    },
                };
                self.deposits.remove(&t.tx);
                self.disputes.insert(key, x);
                self.accounts.insert(c, AccountState { available: av, held: h, ..a });
            },
            TransactionKind::Resolve => {
                let x = match self.disputes.get(&key) {
                    Some(x) => *x,
                    None => {
                        return Ok(());
                    },
                };
                let (av, h) = match (a.available.checked_add(x), a.held.checked_sub(x)) {
                    (Some(av), Some(h)) => (av, h),
                    _ => {
                        return Err(LedgerError::Overflow);
                    },
                };
                self.disputes.remove(&key);
                self.accounts.insert(c, AccountState { available: av, held: h, ..a });
            },
            TransactionKind::Chargeback => {
                let x = match self.disputes.get(&key) {
                    Some(x) => *x,
                    None => {
                        return Ok(());
                    },
                };
                let (h, tot) = match (a.held.checked_sub(x), a.total.checked_sub(x)) {
                    (Some(h), Some(tot)) => (h, tot),
                    _ => {
                        return Err(LedgerError::Overflow);
                    },
                };
                self.disputes.remove(&key);
                self.accounts.insert(c, AccountState { held: h, total: tot, locked: true, ..a });
            },
        }
        proof {
            assert(m0.accounts.contains_key(c));
            assert(a.balanced() && a.client == c);
            assert forall|c2: u16| #[trigger] self@.accounts.contains_key(c2) implies self@.accounts[c2].balanced()
                && self@.accounts[c2].client == c2 && exists|i: int|
                0 <= i < self.clients@.len() && #[trigger] self.clients@[i] == c2 by {
                assert(m0.accounts.contains_key(c2));
                assert(self.clients@ == cl);
            }
            assert(self.accounts@.dom() =~= m0.accounts.dom());
            assert(self@ =~= step(old(self)@, *t)->Ok_0);
        }
        Ok(())
    }

    /// Every account, each once, in the order in which they were opened.
    pub fn accounts(&self) -> (r: Vec<AccountState>)
        requires
            self.wf(),
        ensures
            forall|i: int|
                0 <= i < r@.len() ==> self@.accounts.contains_key(#[trigger] r@[i].client)
                    && self@.accounts[r@[i].client] == r@[i],
            forall|c: u16| #[trigger]
                self@.accounts.contains_key(c) ==> exists|i: int|
                    0 <= i < r@.len() && #[trigger] r@[i].client == c,
            forall|i: int, j: int| 0 <= i < j < r@.len() ==> r@[i].client != r@[j].client,
    {
        let mut out: Vec<AccountState> = Vec::new();
        let mut k: usize = 0;
        while k < self.clients.len()
            invariant
                self.wf(),
                k <= self.clients@.len(),
                out@.len() == k,
                forall|i: int|
                    0 <= i < k ==> #[trigger] out@[i] == self.accounts@[self.clients@[i]],
            decreases self.clients@.len() - k,
        {
            let c = self.clients[k];
            assert(self.accounts@.contains_key(self.clients@[k as int]));
            match self.accounts.get(&c) {
                Some(a) => out.push(*a),
                None => {},
            }
            k = k + 1;
        }
        proof {
            assert forall|i: int| 0 <= i < out@.len() implies #[trigger] out@[i].client
                == self.clients@[i] by {
                assert(out@[i] == self.accounts@[self.clients@[i]]);
                assert(self@.accounts.contains_key(self.clients@[i]));
            }
            assert forall|c: u16| #[trigger]
                self@.accounts.contains_key(c) implies exists|i: int|
                    0 <= i < out@.len() && #[trigger] out@[i].client == c by {
                let i = choose|i: int| 0 <= i < self.clients@.len() && #[trigger] self.clients@[i] == c;
                assert(out@[i].client == c);
            }
        }
        out
    }

    /// The account of `client`, if the ledger has one.
    pub fn account(&self, client: u16) -> (r: Option<AccountState>)
        requires
            self.wf(),
        ensures
            r == (if self@.accounts.contains_key(client) {
                Some(self@.accounts[client])
            } else {
                None
            }),
    {
        match self.accounts.get(&client) {
            Some(a) => Some(*a),
            None => None,
        }
    }
}

} // verus!
