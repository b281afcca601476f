use vstd::prelude::*;

use crate::ledger::{after, dispute_key, step, LedgerModel, Transaction, TransactionKind};
use crate::money::fits;

verus! {

/// After any transaction, applied or refused, every account still has
/// `total == available + held`.
pub proof fn balance_is_kept(m: LedgerModel, t: Transaction)
    requires
        m.balanced(),
    ensures
        after(m, t).balanced(),
{
    let m0 = m.open_account(t.client);
    assert(m0.balanced());
    let n = after(m, t);
    assert forall|c: u16| #[trigger] n.accounts.contains_key(c) implies n.accounts[c].balanced() by {
        assert(m0.accounts.contains_key(c));
        assert(m0.accounts[t.client].balanced());
    }
}

/// Resolving the same transaction a second time, right after the first,
/// changes nothing.
pub proof fn resolve_twice_is_resolve_once(m: LedgerModel, t: Transaction)
    requires
        t.kind == TransactionKind::Resolve,
    ensures
        after(after(m, t), t) == after(m, t),
{
    let n = after(m, t);
    assert(n.accounts.contains_key(t.client));
    assert(n.open_account(t.client) == n);
    if step(m, t) is Err {
        assert(n == m.open_account(t.client));
        assert(step(n, t) == step(m, t));
    } else {
        assert(!n.disputes.contains_key(dispute_key(t.client, t.tx)));
    }
}

/// A dispute, resolve or chargeback that names a transaction which is neither
/// a disputable deposit nor under dispute by that client changes nothing but
/// the opening of the client's account.
pub proof fn unknown_reference_changes_nothing(m: LedgerModel, t: Transaction)
    requires
        t.kind == TransactionKind::Dispute || t.kind == TransactionKind::Resolve || t.kind
            == TransactionKind::Chargeback,
        !m.deposits.contains_key(t.tx),
        !m.disputes.contains_key(dispute_key(t.client, t.tx)),
    ensures
        step(m, t) == Ok::<LedgerModel, crate::ledger::LedgerError>(m.open_account(t.client)),
        m.accounts.contains_key(t.client) ==> after(m, t) == m,
{
}

/// No transaction removes an account or unlocks a locked one.
pub proof fn lock_is_kept(m: LedgerModel, t: Transaction, c: u16)
    requires
        m.accounts.contains_key(c),
    ensures
        after(m, t).accounts.contains_key(c),
        m.accounts[c].locked ==> after(m, t).accounts[c].locked,
{
}

/// Disputing a deposit and then resolving it leaves every account as it was
/// before the dispute, where the client had no open dispute of that
/// transaction and the moved amount keeps `available` and `held` in range.
pub proof fn dispute_then_resolve_restores_accounts(
    m: LedgerModel,
    d: Transaction,
    r: Transaction,
)
    requires
        d.kind == TransactionKind::Dispute,
        r.kind == TransactionKind::Resolve,
        r.client == d.client,
        r.tx == d.tx,
        m.deposits.contains_key(d.tx),
        !m.disputes.contains_key(dispute_key(d.client, d.tx)),
        fits(m.open_account(d.client).accounts[d.client].available@ - m.deposits[d.tx]@),
        fits(m.open_account(d.client).accounts[d.client].held@ + m.deposits[d.tx]@),
    ensures
        step(m, d) is Ok,
        step(after(m, d), r) is Ok,
        after(after(m, d), r).accounts == m.open_account(d.client).accounts,
        m.accounts.contains_key(d.client) ==> after(after(m, d), r).accounts == m.accounts,
{
    let c = d.client;
    let m0 = m.open_account(c);
    let a = m0.accounts[c];
    let x = m.deposits[d.tx];
    let n = after(m, d);
    assert(n.disputes.contains_key(dispute_key(c, d.tx)));
    assert(n.disputes[dispute_key(c, d.tx)] == x);
    let b = n.accounts[c];
    assert(b.available@ == a.available@ - x@);
    assert(b.held@ == a.held@ + x@);
    let e = after(n, r).accounts[c];
    assert(e.available == a.available);
    assert(e.held == a.held);
    assert(e == a);
    assert(after(n, r).accounts =~= m0.accounts);
}

} // verus!
