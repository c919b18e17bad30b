//! The transaction vocabulary and the mathematical model of the ledger
//! engine: what one applied transaction does to the account state, and what
//! a whole stream of them does.

use vstd::prelude::*;

verus! {

/// Identifies a client account.
pub type ClientId = u16;

/// Identifies a deposit or withdrawal; dispute-lifecycle transactions reuse
/// the id of the transaction they reference instead of defining their own.
pub type TxId = u32;

/// A monetary amount in fixed-point form: a signed count of the smallest
/// currency unit, so decimal arithmetic is exact with no rounding error.
pub type Amount = i64;

/// A running balance, in the same fixed-point unit as `Amount`. Balances are
/// wider than single amounts so that long streams of transactions fit.
pub type Balance = i128;

/// One transaction from the input stream, already validated by the producer:
/// deposits and withdrawals always carry their amount.
#[derive(Clone, Copy, Debug, PartialEq, Eq, Structural)]
pub struct Tx {
    pub client_id: ClientId,
    pub tx_id: TxId,
    pub inner: TxInner,
}

/// The five transaction kinds; only deposits and withdrawals carry an amount.
#[derive(Clone, Copy, Debug, PartialEq, Eq, Structural)]
pub enum TxInner {
    Deposit { amount: Amount },
    Withdrawal { amount: Amount },
    Dispute,
    Resolve,
    Chargeback,
}

/// The only run-terminating failure: a second deposit or withdrawal under an
/// already-recorded transaction id.
#[derive(Clone, Copy, Debug, PartialEq, Eq, Structural)]
pub enum LedgerError {
    DuplicateTx(TxId),
}

/// Mathematical model of one account: exact, unbounded balances plus the
/// permanent lock flag. The total is never stored; it is always derived as
/// `available + held`.
#[verifier::ext_equal]
pub struct AccountModel {
    pub available: int,
    pub held: int,
    pub locked: bool,
}

/// Mathematical model of the whole engine state.
#[verifier::ext_equal]
pub struct LedgerView {
    /// Per-client account state, created lazily on first successful use.
    pub accounts: Map<ClientId, AccountModel>,
    /// The uniqueness-checked history; only deposits and withdrawals occupy
    /// a slot.
    pub history: Map<TxId, Tx>,
    /// Transaction ids currently under an open dispute.
    pub disputed: Set<TxId>,
}

impl LedgerView {
    /// The state before any transaction: no accounts, an empty history,
    /// nothing disputed.
    pub open spec fn init() -> LedgerView {
        LedgerView {
            accounts: Map::empty(),
            history: Map::empty(),
            disputed: Set::empty(),
        }
    }
}

/// The amount a transaction carries, for the two kinds that carry one.
pub open spec fn tx_amount(inner: TxInner) -> Option<Amount> {
    match inner {
        TxInner::Deposit { amount } => Some(amount),
        TxInner::Withdrawal { amount } => Some(amount),
        _ => None,
    }
}

/// Deposits and withdrawals: the transactions that carry an amount and are
/// recorded in the uniqueness-checked history.
pub open spec fn is_amount_tx(inner: TxInner) -> bool {
    tx_amount(inner) is Some
}

/// A freshly created account: zero balances, unlocked.
pub open spec fn zero_account() -> AccountModel {
    AccountModel { available: 0, held: 0, locked: false }
}

/// The account a deposit or withdrawal starts from: the existing one, or a
/// fresh zeroed account created lazily.
pub open spec fn account_or_new(s: LedgerView, c: ClientId) -> AccountModel {
    if s.accounts.contains_key(c) {
        s.accounts[c]
    } else {
        zero_account()
    }
}

/// A locked account suppresses every further transaction for its client.
pub open spec fn frozen(s: LedgerView, c: ClientId) -> bool {
    s.accounts.contains_key(c) && s.accounts[c].locked
}

/// A withdrawal needs an existing account with enough available funds; every
/// other kind is always sufficiently funded.
pub open spec fn sufficient(s: LedgerView, tx: Tx) -> bool {
    match tx.inner {
        TxInner::Withdrawal { amount } => s.accounts.contains_key(tx.client_id)
            && s.accounts[tx.client_id].available >= amount,
        _ => true,
    }
}

/// The admission check: a transaction not admitted is silently dropped,
/// mutating nothing.
pub open spec fn admitted(s: LedgerView, tx: Tx) -> bool {
    !frozen(s, tx.client_id) && sufficient(s, tx)
}

/// A deposit or withdrawal whose id already occupies a history slot.
pub open spec fn is_duplicate(s: LedgerView, tx: Tx) -> bool {
    is_amount_tx(tx.inner) && s.history.contains_key(tx.tx_id)
}

/// The fatal condition: an admitted deposit or withdrawal hits an
/// already-used transaction id, and the run cannot safely continue.
pub open spec fn aborts(s: LedgerView, tx: Tx) -> bool {
    admitted(s, tx) && is_duplicate(s, tx)
}

/// A deposit credits the client's available balance, creating the account
/// if absent.
pub open spec fn deposit_applied(s: LedgerView, c: ClientId, amount: Amount) -> LedgerView {
    let base = account_or_new(s, c);
    LedgerView {
        accounts: s.accounts.insert(
            c,
            AccountModel { available: base.available + amount, ..base },
        ),
        ..s
    }
}

/// A withdrawal debits the client's available balance; admission has already
/// checked that the account exists and has sufficient funds.
pub open spec fn withdrawal_applied(s: LedgerView, c: ClientId, amount: Amount) -> LedgerView {
    let base = account_or_new(s, c);
    LedgerView {
        accounts: s.accounts.insert(
            c,
            AccountModel { available: base.available - amount, ..base },
        ),
        ..s
    }
}

/// The amount a dispute-lifecycle transaction refers to: the recorded
/// deposit's or withdrawal's amount, if the referenced id is in the history.
pub open spec fn referenced_amount(s: LedgerView, t: TxId) -> Option<Amount> {
    if s.history.contains_key(t) {
        tx_amount(s.history[t].inner)
    } else {
        None
    }
}

/// A dispute moves the referenced amount from available to held and opens
/// the dispute; with an unknown id or no account for its client it is a
/// silent no-op.
pub open spec fn dispute_applied(s: LedgerView, tx: Tx) -> LedgerView {
    match referenced_amount(s, tx.tx_id) {
        Some(amount) => if s.accounts.contains_key(tx.client_id) {
            let base = s.accounts[tx.client_id];
            LedgerView {
                accounts: s.accounts.insert(
                    tx.client_id,
                    AccountModel {
                        available: base.available - amount,
                        held: base.held + amount,
                        ..base
                    },
                ),
                disputed: s.disputed.insert(tx.tx_id),
                ..s
            }
        } else {
            s
        },
        None => s,
    }
}

/// A resolve reverses a hold and closes the dispute; the engine does not
/// require that the id currently be disputed.
pub open spec fn resolve_applied(s: LedgerView, tx: Tx) -> LedgerView {
    match referenced_amount(s, tx.tx_id) {
        Some(amount) => if s.accounts.contains_key(tx.client_id) {
            let base = s.accounts[tx.client_id];
            LedgerView {
                accounts: s.accounts.insert(
                    tx.client_id,
                    AccountModel {
                        available: base.available + amount,
                        held: base.held - amount,
                        ..base
                    },
                ),
                disputed: s.disputed.remove(tx.tx_id),
                ..s
            }
        } else {
            s
        },
        None => s,
    }
}

/// A chargeback finalizes the reversal against the client: the held funds
/// leave the account — available is untouched, so the net effect of a
/// dispute followed by a chargeback removes exactly the disputed amount —
/// and the account is locked permanently.
pub open spec fn chargeback_applied(s: LedgerView, tx: Tx) -> LedgerView {
    match referenced_amount(s, tx.tx_id) {
        Some(amount) => if s.accounts.contains_key(tx.client_id) {
            let base = s.accounts[tx.client_id];
            LedgerView {
                accounts: s.accounts.insert(
                    tx.client_id,
                    AccountModel {
                        available: base.available,
                        held: base.held - amount,
                        locked: true,
                    },
                ),
                ..s
            }
        } else {
            s
        },
        None => s,
    }
}

/// The balance mutation of one admitted transaction, dispatched on its kind.
pub open spec fn mutated(s: LedgerView, tx: Tx) -> LedgerView {
    match tx.inner {
        TxInner::Deposit { amount } => deposit_applied(s, tx.client_id, amount),
        TxInner::Withdrawal { amount } => withdrawal_applied(s, tx.client_id, amount),
        TxInner::Dispute => dispute_applied(s, tx),
        TxInner::Resolve => resolve_applied(s, tx),
        TxInner::Chargeback => chargeback_applied(s, tx),
    }
}

/// Recording into the uniqueness-checked history: only deposits and
/// withdrawals occupy a slot; dispute-lifecycle kinds are pure lookups.
pub open spec fn recorded(s: LedgerView, tx: Tx) -> LedgerView {
    if is_amount_tx(tx.inner) {
        LedgerView { history: s.history.insert(tx.tx_id, tx), ..s }
    } else {
        s
    }
}

/// The state after one `apply` call: dropped at admission, applied and
/// recorded, or — on a duplicate id — applied but left unrecorded while the
/// engine reports the fatal error.
pub open spec fn next(s: LedgerView, tx: Tx) -> LedgerView {
    if admitted(s, tx) {
        if is_duplicate(s, tx) {
            mutated(s, tx)
        } else {
            recorded(mutated(s, tx), tx)
        }
    } else {
        s
    }
}

/// The state after a whole stream: transactions are applied in arrival order
/// until the stream ends or a duplicate id aborts the run.
pub open spec fn run(s: LedgerView, txs: Seq<Tx>) -> LedgerView
    decreases txs.len(),
{
    if txs.len() == 0 {
        s
    } else if aborts(s, txs[0]) {
        mutated(s, txs[0])
    } else {
        run(next(s, txs[0]), txs.drop_first())
    }
}

/// Whether a whole stream is processed without hitting the duplicate-id
/// error.
pub open spec fn runs_clean(s: LedgerView, txs: Seq<Tx>) -> bool
    decreases txs.len(),
{
    txs.len() == 0 || (!aborts(s, txs[0]) && runs_clean(next(s, txs[0]), txs.drop_first()))
}

/// A client's total funds: always derived as available + held, zero for a
/// client with no account.
pub open spec fn total_of(s: LedgerView, c: ClientId) -> int {
    if s.accounts.contains_key(c) {
        s.accounts[c].available + s.accounts[c].held
    } else {
        0
    }
}

/// Whether an exact balance value fits the machine balance type.
pub open spec fn in_balance_range(x: int) -> bool {
    i128::MIN <= x <= i128::MAX
}

/// Whether the balance updates of one admitted transaction stay within the
/// machine balance type. The model itself is exact; this only bounds the
/// executable representation.
pub open spec fn mutation_fits(s: LedgerView, tx: Tx) -> bool {
    match tx.inner {
        TxInner::Deposit { amount } => in_balance_range(
            account_or_new(s, tx.client_id).available + amount,
        ),
        TxInner::Withdrawal { amount } => in_balance_range(
            account_or_new(s, tx.client_id).available - amount,
        ),
        TxInner::Dispute => match referenced_amount(s, tx.tx_id) {
            Some(amount) => !s.accounts.contains_key(tx.client_id) || {
                let base = s.accounts[tx.client_id];
                in_balance_range(base.available - amount) && in_balance_range(base.held + amount)
            },
            None => true,
        },
        TxInner::Resolve => match referenced_amount(s, tx.tx_id) {
            Some(amount) => !s.accounts.contains_key(tx.client_id) || {
                let base = s.accounts[tx.client_id];
                in_balance_range(base.available + amount) && in_balance_range(base.held - amount)
            },
            None => true,
        },
        TxInner::Chargeback => match referenced_amount(s, tx.tx_id) {
            Some(amount) => !s.accounts.contains_key(tx.client_id) || in_balance_range(
                s.accounts[tx.client_id].held - amount,
            ),
            None => true,
        },
    }
}

/// What one `apply` call needs so that its balance arithmetic cannot
/// overflow the machine balance type.
pub open spec fn step_fits(s: LedgerView, tx: Tx) -> bool {
    admitted(s, tx) ==> mutation_fits(s, tx)
}

/// What processing a whole stream needs so that no step overflows the
/// machine balance type.
pub open spec fn run_fits(s: LedgerView, txs: Seq<Tx>) -> bool
    decreases txs.len(),
{
    txs.len() == 0 || (step_fits(s, txs[0]) && (aborts(s, txs[0]) || run_fits(
        next(s, txs[0]),
        txs.drop_first(),
    )))
}

/// Extending a cleanly processed stream by one transaction: the run either
/// advances by one `next` step or hits the duplicate-id abort there.
pub proof fn lemma_run_snoc(s: LedgerView, p: Seq<Tx>, tx: Tx)
    requires
        runs_clean(s, p),
    ensures
        !aborts(run(s, p), tx) ==> run(s, p.push(tx)) == next(run(s, p), tx) && runs_clean(
            s,
            p.push(tx),
        ),
        aborts(run(s, p), tx) ==> run(s, p.push(tx)) == mutated(run(s, p), tx) && !runs_clean(
            s,
            p.push(tx),
        ),
    decreases p.len(),
{
    if p.len() == 0 {
        assert(p.push(tx)[0] == tx);
        assert(p.push(tx).drop_first() =~= Seq::<Tx>::empty());
        assert(run(s, p) == s);
        assert(run(next(s, tx), p.push(tx).drop_first()) == next(s, tx));
        assert(runs_clean(next(s, tx), p.push(tx).drop_first()));
        assert(!aborts(s, tx) ==> run(s, p.push(tx)) == next(s, tx));
        assert(runs_clean(s, p.push(tx)) == !aborts(s, tx));
    } else {
        assert(p.push(tx)[0] == p[0]);
        assert(p.push(tx).drop_first() =~= p.drop_first().push(tx));
        assert(run(s, p) == run(next(s, p[0]), p.drop_first()));
        assert(run(s, p.push(tx)) == run(next(s, p[0]), p.drop_first().push(tx)));
        assert(runs_clean(s, p.push(tx)) == runs_clean(next(s, p[0]), p.drop_first().push(tx)));
        lemma_run_snoc(next(s, p[0]), p.drop_first(), tx);
    }
}

/// Once some prefix of the stream has hit the duplicate-id abort, the run
/// over the whole stream stops there: the remaining transactions are never
/// applied.
pub proof fn lemma_run_after_abort(s: LedgerView, txs: Seq<Tx>, k: int)
    requires
        0 <= k <= txs.len(),
        !runs_clean(s, txs.take(k)),
    ensures
        run(s, txs) == run(s, txs.take(k)),
        !runs_clean(s, txs),
    decreases k,
{
    let p = txs.take(k);
    if k == 0 {
        assert(p =~= Seq::<Tx>::empty());
        assert(false);
    } else {
        assert(p[0] == txs[0]);
        if !aborts(s, txs[0]) {
            assert(p.drop_first() =~= txs.drop_first().take(k - 1));
            lemma_run_after_abort(next(s, txs[0]), txs.drop_first(), k - 1);
        }
    }
}

/// Design contract on the history: every slot holds a deposit or withdrawal
/// stored under its own id.
pub open spec fn history_wf(s: LedgerView) -> bool {
    forall|t: TxId| #[trigger]
        s.history.contains_key(t) ==> is_amount_tx(s.history[t].inner) && s.history[t].tx_id == t
}

} // verus!
