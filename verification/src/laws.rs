//! The engine's stream-level guarantees, stated over the mathematical model
//! and proved once and for all: conservation of client totals, the silence
//! of rejected transactions, the absorbing lock, and the dispute lifecycle.

use vstd::prelude::*;

use crate::model::{
    admitted, aborts, account_or_new, frozen, history_wf, is_amount_tx, mutated, next,
    referenced_amount, run, sufficient, total_of, LedgerView, Amount, ClientId, Tx, TxId, TxInner,
};

verus! {

/// The deposit amount one transaction contributes to client `c`.
pub open spec fn deposit_amount_for(tx: Tx, c: ClientId) -> int {
    match tx.inner {
        TxInner::Deposit { amount } => if tx.client_id == c {
            amount as int
        } else {
            0
        },
        _ => 0,
    }
}

/// The sum of all deposit amounts for one client over a stream.
pub open spec fn deposit_sum(txs: Seq<Tx>, c: ClientId) -> int
    decreases txs.len(),
{
    if txs.len() == 0 {
        0
    } else {
        deposit_amount_for(txs[0], c) + deposit_sum(txs.drop_first(), c)
    }
}

/// The withdrawal amount one transaction debits from client `c`, counted
/// only if the withdrawal is admitted in the state it is applied to.
pub open spec fn withdrawal_amount_for(s: LedgerView, tx: Tx, c: ClientId) -> int {
    match tx.inner {
        TxInner::Withdrawal { amount } => if tx.client_id == c && admitted(s, tx) {
            amount as int
        } else {
            0
        },
        _ => 0,
    }
}

/// The sum of the amounts of the successful withdrawals for one client:
/// those admitted at the moment they are applied, processing the stream
/// from state `s`.
pub open spec fn successful_withdrawal_sum(s: LedgerView, txs: Seq<Tx>, c: ClientId) -> int
    decreases txs.len(),
{
    if txs.len() == 0 {
        0
    } else {
        withdrawal_amount_for(s, txs[0], c) + successful_withdrawal_sum(
            next(s, txs[0]),
            txs.drop_first(),
            c,
        )
    }
}

/// No account is locked.
pub open spec fn all_unlocked(s: LedgerView) -> bool {
    forall|c: ClientId| #[trigger] s.accounts.contains_key(c) ==> !s.accounts[c].locked
}

/// No transaction id of the stream occupies a history slot yet.
pub open spec fn ids_fresh(s: LedgerView, txs: Seq<Tx>) -> bool {
    forall|k: int| #![trigger txs[k]] 0 <= k < txs.len() ==> !s.history.contains_key(txs[k].tx_id)
}

/// Every transaction of the stream is a deposit or a withdrawal.
pub open spec fn all_amount_txs(txs: Seq<Tx>) -> bool {
    forall|k: int| #![trigger txs[k]] 0 <= k < txs.len() ==> is_amount_tx(txs[k].inner)
}

/// The transaction ids of the stream are pairwise distinct.
pub open spec fn unique_ids(txs: Seq<Tx>) -> bool {
    forall|k: int, j: int| #![trigger txs[k], txs[j]]
        0 <= k < j < txs.len() ==> txs[k].tx_id != txs[j].tx_id
}

/// The inductive core of the conservation law, generalized over a start
/// state whose accounts are all unlocked and whose history is disjoint
/// from the stream's ids.
proof fn lemma_client_total_step(s: LedgerView, txs: Seq<Tx>, c: ClientId)
    requires
        all_amount_txs(txs),
        unique_ids(txs),
        ids_fresh(s, txs),
        all_unlocked(s),
    ensures
        total_of(run(s, txs), c) == total_of(s, c) + deposit_sum(txs, c)
            - successful_withdrawal_sum(s, txs, c),
    decreases txs.len(),
{
    if txs.len() != 0 {
        let tx = txs[0];
        let rest = txs.drop_first();
        assert(is_amount_tx(tx.inner));
        assert(!s.history.contains_key(tx.tx_id));
        assert(!frozen(s, tx.client_id));
        let s1 = next(s, tx);
        assert(all_amount_txs(rest));
        assert(unique_ids(rest));
        assert(ids_fresh(s1, rest)) by {
            assert(forall|k: int| #![trigger rest[k]]
                0 <= k < rest.len() ==> rest[k] == txs[k + 1]);
        }
        assert(all_unlocked(s1)) by {
            if admitted(s, tx) {
                assert(account_or_new(s, tx.client_id).locked == false);
            }
        }
        lemma_client_total_step(s1, rest, c);
        assert(total_of(s1, c) == total_of(s, c) + deposit_amount_for(tx, c)
            - withdrawal_amount_for(s, tx, c));
    }
}

/// Law: over any stream made only of deposits and withdrawals with pairwise
/// distinct transaction ids, each client's final total — available plus
/// held — equals the sum of the client's deposits minus the sum of the
/// client's successful withdrawals.
pub proof fn lemma_total_is_deposits_minus_withdrawals(txs: Seq<Tx>, c: ClientId)
    requires
        all_amount_txs(txs),
        unique_ids(txs),
    ensures
        total_of(run(LedgerView::init(), txs), c) == deposit_sum(txs, c)
            - successful_withdrawal_sum(LedgerView::init(), txs, c),
{
    lemma_client_total_step(LedgerView::init(), txs, c);
}

/// Law: a withdrawal that is not sufficiently funded — the client has no
/// account, or the amount exceeds the available balance — is a silent
/// no-op: the whole state, balances included, is unchanged.
pub proof fn lemma_insufficient_withdrawal_no_op(s: LedgerView, tx: Tx)
    requires
        tx.inner is Withdrawal,
        !sufficient(s, tx),
    ensures
        next(s, tx) == s,
{
}

/// Law: a transaction for a client whose account is locked — of any kind —
/// is dropped at admission and changes nothing; in particular the account
/// stays locked.
pub proof fn lemma_locked_tx_dropped(s: LedgerView, tx: Tx)
    requires
        frozen(s, tx.client_id),
    ensures
        !admitted(s, tx),
        next(s, tx) == s,
{
}

/// Law: once a client's account is locked it is absorbing: whatever
/// transactions follow, for this client or any other, the account — its
/// balances and its lock — never changes again for the rest of the run.
pub proof fn lemma_locked_account_absorbs(s: LedgerView, txs: Seq<Tx>, c: ClientId)
    requires
        frozen(s, c),
    ensures
        run(s, txs).accounts.contains_key(c),
        run(s, txs).accounts[c] == s.accounts[c],
    decreases txs.len(),
{
    if txs.len() != 0 {
        let tx = txs[0];
        if aborts(s, tx) {
            assert(tx.client_id != c);
            assert(mutated(s, tx).accounts[c] == s.accounts[c]);
        } else {
            assert(next(s, tx).accounts[c] == s.accounts[c]) by {
                if admitted(s, tx) {
                    assert(tx.client_id != c);
                }
            }
            assert(frozen(next(s, tx), c));
            lemma_locked_account_absorbs(next(s, tx), txs.drop_first(), c);
        }
    }
}

/// A dispute transaction issued by client `c` against transaction id `t`.
pub open spec fn dispute_tx(c: ClientId, t: TxId) -> Tx {
    Tx { client_id: c, tx_id: t, inner: TxInner::Dispute }
}

/// A resolve transaction issued by client `c` against transaction id `t`.
pub open spec fn resolve_tx(c: ClientId, t: TxId) -> Tx {
    Tx { client_id: c, tx_id: t, inner: TxInner::Resolve }
}

/// A chargeback transaction issued by client `c` against transaction id `t`.
pub open spec fn chargeback_tx(c: ClientId, t: TxId) -> Tx {
    Tx { client_id: c, tx_id: t, inner: TxInner::Chargeback }
}

/// Law: a dispute followed by a resolve of the same transaction id, issued
/// by the same client, restores every account — available and held — to
/// its pre-dispute value exactly, whether or not the dispute took effect.
pub proof fn lemma_dispute_resolve_restores_balances(s: LedgerView, c: ClientId, t: TxId)
    ensures
        next(next(s, dispute_tx(c, t)), resolve_tx(c, t)).accounts == s.accounts,
{
    let d = dispute_tx(c, t);
    let r = resolve_tx(c, t);
    let s1 = next(s, d);
    let s2 = next(s1, r);
    if frozen(s, c) {
        assert(s2.accounts =~= s.accounts);
    } else {
        match referenced_amount(s, t) {
            Some(amount) => {
                if s.accounts.contains_key(c) {
                    assert(referenced_amount(s1, t) == Some(amount));
                    assert(s2.accounts =~= s.accounts);
                } else {
                    assert(s2.accounts =~= s.accounts);
                }
            },
            None => {
                assert(s2.accounts =~= s.accounts);
            },
        }
    }
}

/// Law: a dispute followed by a chargeback of the same recorded transaction
/// id removes the disputed amount from available — net, after accounting
/// for the held amount: the dispute moves it to held, the chargeback takes
/// it out of held — and locks the account permanently.
pub proof fn lemma_dispute_chargeback_locks(s: LedgerView, c: ClientId, t: TxId, a: Amount)
    requires
        !frozen(s, c),
        s.accounts.contains_key(c),
        referenced_amount(s, t) == Some(a),
    ensures
        ({
            let s2 = next(next(s, dispute_tx(c, t)), chargeback_tx(c, t));
            &&& s2.accounts.contains_key(c)
            &&& s2.accounts[c].locked
            &&& s2.accounts[c].held == s.accounts[c].held
            &&& s2.accounts[c].available == s.accounts[c].available - a
        }),
{
    let s1 = next(s, dispute_tx(c, t));
    assert(referenced_amount(s1, t) == Some(a));
}

/// Law: the removal is permanent. After a dispute and a chargeback of the
/// same recorded transaction id, whatever transactions follow — for this
/// client or any other — the account keeps exactly the balances and the
/// lock the chargeback left it with.
pub proof fn lemma_dispute_chargeback_permanent(
    s: LedgerView,
    c: ClientId,
    t: TxId,
    a: Amount,
    rest: Seq<Tx>,
)
    requires
        !frozen(s, c),
        s.accounts.contains_key(c),
        referenced_amount(s, t) == Some(a),
    ensures
        ({
            let s2 = next(next(s, dispute_tx(c, t)), chargeback_tx(c, t));
            run(s2, rest).accounts[c] == s2.accounts[c]
        }),
{
    let s2 = next(next(s, dispute_tx(c, t)), chargeback_tx(c, t));
    lemma_dispute_chargeback_locks(s, c, t, a);
    lemma_locked_account_absorbs(s2, rest, c);
}

/// Law: a dispute referencing a transaction id with no history slot leaves
/// the whole state — all balances included — unchanged.
pub proof fn lemma_unknown_dispute_no_op(s: LedgerView, tx: Tx)
    requires
        tx.inner is Dispute,
        !s.history.contains_key(tx.tx_id),
    ensures
        next(s, tx) == s,
{
}

/// The history design contract is an invariant of every step: each slot
/// holds a deposit or a withdrawal, stored under its own id.
pub proof fn lemma_next_preserves_history_wf(s: LedgerView, tx: Tx)
    requires
        history_wf(s),
    ensures
        history_wf(next(s, tx)),
{
    assert(next(s, tx).history == s.history || next(s, tx).history == s.history.insert(
        tx.tx_id,
        tx,
    ));
}

} // verus!
