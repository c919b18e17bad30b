//! The ledger engine: owns all account state and transaction history,
//! consumes transactions one at a time in stream order, and exposes the
//! final per-client state once the stream is exhausted.

use std::collections::HashMap;
use std::collections::HashSet;

use vstd::prelude::*;
use vstd::std_specs::hash::spec_keys_iter;
use vstd::std_specs::iter::IteratorSpec;

use crate::model::{
    aborts, account_or_new, admitted, chargeback_applied, deposit_applied, dispute_applied,
    frozen, in_balance_range, is_duplicate, lemma_run_after_abort, lemma_run_snoc, mutated,
    mutation_fits, next, recorded, referenced_amount, resolve_applied, run, run_fits, runs_clean,
    step_fits, sufficient, withdrawal_applied, zero_account, AccountModel, Amount, Balance,
    ClientId, LedgerError, LedgerView, Tx, TxId, TxInner,
};

verus! {

broadcast use vstd::std_specs::hash::group_hash_axioms;

/// One client's account as the engine stores it: fixed-point balances and
/// the permanent lock flag.
#[derive(Clone, Copy, Debug, PartialEq, Eq, Structural)]
pub struct ClientAccount {
    pub available: Balance,
    pub held: Balance,
    pub locked: bool,
}

impl View for ClientAccount {
    type V = AccountModel;

    open spec fn view(&self) -> AccountModel {
        AccountModel {
            available: self.available as int,
            held: self.held as int,
            locked: self.locked,
        }
    }
}

impl ClientAccount {
    /// A freshly created account: zero balances, unlocked.
    pub fn new() -> (a: Self)
        ensures
            a@ == zero_account(),
    {
        ClientAccount { available: 0, held: 0, locked: false }
    }

    /// The derived total: available + held. It is never stored.
    pub fn total(&self) -> (t: Balance)
        requires
            in_balance_range(self@.available + self@.held),
        ensures
            t as int == self@.available + self@.held,
    {
        self.available + self.held
    }

    fn deposit(&mut self, amount: Amount)
        requires
            in_balance_range(old(self)@.available + amount),
        ensures
            final(self)@ == (AccountModel { available: old(self)@.available + amount, ..old(self)@ }),
    {
        self.available = self.available + amount as Balance;
    }

    fn withdrawal(&mut self, amount: Amount)
        requires
            in_balance_range(old(self)@.available - amount),
        ensures
            final(self)@ == (AccountModel { available: old(self)@.available - amount, ..old(self)@ }),
    {
        self.available = self.available - amount as Balance;
    }

    fn dispute(&mut self, amount: Amount)
        requires
            in_balance_range(old(self)@.available - amount),
            in_balance_range(old(self)@.held + amount),
        ensures
            final(self)@ == (AccountModel {
                available: old(self)@.available - amount,
                held: old(self)@.held + amount,
                ..old(self)@
            }),
    {
        self.available = self.available - amount as Balance;
        self.held = self.held + amount as Balance;
    }

    fn resolve(&mut self, amount: Amount)
        requires
            in_balance_range(old(self)@.available + amount),
            in_balance_range(old(self)@.held - amount),
        ensures
            final(self)@ == (AccountModel {
                available: old(self)@.available + amount,
                held: old(self)@.held - amount,
                ..old(self)@
            }),
    {
        self.available = self.available + amount as Balance;
        self.held = self.held - amount as Balance;
    }

    fn chargeback(&mut self, amount: Amount)
        requires
            in_balance_range(old(self)@.held - amount),
        ensures
            final(self)@ == (AccountModel {
                available: old(self)@.available,
                held: old(self)@.held - amount,
                locked: true,
            }),
    {
        self.held = self.held - amount as Balance;
        self.locked = true;
    }
}

/// The stateful ledger engine: the account mapping, the uniqueness-checked
/// transaction history, and the set of open disputes, owned as a single
/// aggregate and mutated by one logical writer through `apply`.
pub struct PaymentsEngine {
    client_accounts: HashMap<ClientId, ClientAccount>,
    done_txs: HashMap<TxId, Tx>,
    disputed_txs: HashSet<TxId>,
}

impl View for PaymentsEngine {
    type V = LedgerView;

    closed spec fn view(&self) -> LedgerView {
        LedgerView {
            accounts: Map::new(
                |c: ClientId| self.client_accounts@.contains_key(c),
                |c: ClientId| self.client_accounts@[c]@,
            ),
            history: self.done_txs@,
            disputed: self.disputed_txs@,
        }
    }
}

impl PaymentsEngine {
    /// An engine holding no state: no accounts, an empty history, no open
    /// disputes.
    pub fn new() -> (e: Self)
        ensures
            e@ == LedgerView::init(),
    {
        let e = PaymentsEngine {
            client_accounts: HashMap::new(),
            done_txs: HashMap::new(),
            disputed_txs: HashSet::new(),
        };
        proof {
            assert(e@ =~= LedgerView::init());
        }
        e
    }

    /// The account state for one client, if that client has an account.
    pub fn account(&self, client_id: ClientId) -> (r: Option<ClientAccount>)
        ensures
            match r {
                Some(a) => self@.accounts.contains_key(client_id) && a@ == self@.accounts[client_id],
                None => !self@.accounts.contains_key(client_id),
            },
    {
        match self.client_accounts.get(&client_id) {
            Some(a) => Some(*a),
            None => None,
        }
    }

    /// The id of every client that has an account, each exactly once: the
    /// final report has one record per element.
    pub fn client_ids(&self) -> (r: Vec<ClientId>)
        ensures
            r@.no_duplicates(),
            forall|c: ClientId| r@.contains(c) <==> self@.accounts.contains_key(c),
    {
        let ghost key_seq = spec_keys_iter(&self.client_accounts).remaining().unref();
        proof {
            assert(key_seq.to_set() == self.client_accounts@.dom());
            assert(key_seq.len() == self.client_accounts@.dom().len());
            key_seq.lemma_no_dup_set_cardinality();
        }
        let mut ids: Vec<ClientId> = Vec::new();
        for k in it: self.client_accounts.keys()
            invariant
                it.seq().unref() == key_seq,
                ids@.len() == it.index(),
                forall|i: int| 0 <= i < ids@.len() ==> ids@[i] == key_seq[i],
        {
            ids.push(*k);
        }
        proof {
            assert(ids@.len() == key_seq.len());
            assert forall|c: ClientId| ids@.contains(c) implies self.client_accounts@.contains_key(
                c,
            ) by {
                let i = choose|i: int| 0 <= i < ids@.len() && ids@[i] == c;
                assert(key_seq[i] == c);
                assert(key_seq.contains(c));
                assert(key_seq.to_set().contains(c));
            };
            assert forall|c: ClientId| self.client_accounts@.contains_key(c) implies ids@.contains(
                c,
            ) by {
                assert(key_seq.to_set().contains(c));
                assert(key_seq.contains(c));
                let i = choose|i: int| 0 <= i < key_seq.len() && key_seq[i] == c;
                assert(ids@[i] == c);
            };
            assert forall|i: int, j: int| 0 <= i < j < ids@.len() implies ids@[i] != ids@[j] by {
                assert(ids@[i] == key_seq[i]);
                assert(ids@[j] == key_seq[j]);
            };
            assert(ids@.no_duplicates());
        }
        ids
    }

    /// Whether a transaction id is currently under an open dispute.
    pub fn is_disputed(&self, tx_id: TxId) -> (b: bool)
        ensures
            b == self@.disputed.contains(tx_id),
    {
        self.disputed_txs.contains(&tx_id)
    }

    fn client_account_frozen(&self, tx: &Tx) -> (b: bool)
        ensures
            b == frozen(self@, tx.client_id),
    {
        match self.client_accounts.get(&tx.client_id) {
            Some(account) => account.locked,
            None => false,
        }
    }

    fn sufficient_funds(&self, tx: &Tx) -> (b: bool)
        ensures
            b == sufficient(self@, *tx),
    {
        if let TxInner::Withdrawal { amount } = tx.inner {
            match self.client_accounts.get(&tx.client_id) {
                Some(account) => account.available >= amount as Balance,
                None => false,
            }
        } else {
            true
        }
    }

    fn can_process_tx(&self, tx: &Tx) -> (b: bool)
        ensures
            b == admitted(self@, *tx),
    {
        !self.client_account_frozen(tx) && self.sufficient_funds(tx)
    }

    /// The amount the referenced history entry carries, if the id is
    /// recorded.
    fn referenced_amount_of(&self, tx_id: TxId) -> (r: Option<Amount>)
        ensures
            r == referenced_amount(self@, tx_id),
    {
        match self.done_txs.get(&tx_id) {
            Some(d) => match d.inner {
                TxInner::Deposit { amount } => Some(amount),
                TxInner::Withdrawal { amount } => Some(amount),
                _ => None,
            },
            None => None,
        }
    }

    fn deposit(&mut self, client_id: ClientId, amount: Amount)
        requires
            in_balance_range(account_or_new(old(self)@, client_id).available + amount),
        ensures
            final(self)@ == deposit_applied(old(self)@, client_id, amount),
    {
        let mut account = match self.client_accounts.get(&client_id) {
            Some(a) => *a,
            None => ClientAccount::new(),
        };
        account.deposit(amount);
        self.client_accounts.insert(client_id, account);
        proof {
            assert(self@ =~= deposit_applied(old(self)@, client_id, amount));
        }
    }

    fn withdrawal(&mut self, client_id: ClientId, amount: Amount)
        requires
            in_balance_range(account_or_new(old(self)@, client_id).available - amount),
        ensures
            final(self)@ == withdrawal_applied(old(self)@, client_id, amount),
    {
        let mut account = match self.client_accounts.get(&client_id) {
            Some(a) => *a,
            None => ClientAccount::new(),
        };
        account.withdrawal(amount);
        self.client_accounts.insert(client_id, account);
        proof {
            assert(self@ =~= withdrawal_applied(old(self)@, client_id, amount));
        }
    }

    fn dispute(&mut self, tx: &Tx)
        requires
            tx.inner is Dispute,
            mutation_fits(old(self)@, *tx),
        ensures
            final(self)@ == dispute_applied(old(self)@, *tx),
    {
        // A dispute that references an unknown id, or a client with no
        // account, is a silent no-op: never surfaced as an error.
        if let Some(amount) = self.referenced_amount_of(tx.tx_id) {
            let existing = match self.client_accounts.get(&tx.client_id) {
                Some(a) => Some(*a),
                None => None,
            };
            if let Some(mut account) = existing {
                account.dispute(amount);
                self.client_accounts.insert(tx.client_id, account);
                self.disputed_txs.insert(tx.tx_id);
            }
        }
        proof {
            assert(self@ =~= dispute_applied(old(self)@, *tx));
        }
    }

    fn resolve(&mut self, tx: &Tx)
        requires
            tx.inner is Resolve,
            mutation_fits(old(self)@, *tx),
        ensures
            final(self)@ == resolve_applied(old(self)@, *tx),
    {
        if let Some(amount) = self.referenced_amount_of(tx.tx_id) {
            let existing = match self.client_accounts.get(&tx.client_id) {
                Some(a) => Some(*a),
                None => None,
            };
            if let Some(mut account) = existing {
                account.resolve(amount);
                self.client_accounts.insert(tx.client_id, account);
                self.disputed_txs.remove(&tx.tx_id);
            }
        }
        proof {
            assert(self@ =~= resolve_applied(old(self)@, *tx));
        }
    }

    fn chargeback(&mut self, tx: &Tx)
        requires
            tx.inner is Chargeback,
            mutation_fits(old(self)@, *tx),
        ensures
            final(self)@ == chargeback_applied(old(self)@, *tx),
    {
        if let Some(amount) = self.referenced_amount_of(tx.tx_id) {
            let existing = match self.client_accounts.get(&tx.client_id) {
                Some(a) => Some(*a),
                None => None,
            };
            if let Some(mut account) = existing {
                account.chargeback(amount);
                self.client_accounts.insert(tx.client_id, account);
            }
        }
        proof {
            assert(self@ =~= chargeback_applied(old(self)@, *tx));
        }
    }

    fn update_client_accounts(&mut self, tx: &Tx)
        requires
            admitted(old(self)@, *tx),
            mutation_fits(old(self)@, *tx),
        ensures
            final(self)@ == mutated(old(self)@, *tx),
    {
        match tx.inner {
            TxInner::Deposit { amount } => self.deposit(tx.client_id, amount),
            TxInner::Withdrawal { amount } => self.withdrawal(tx.client_id, amount),
            TxInner::Dispute => self.dispute(tx),
            TxInner::Resolve => self.resolve(tx),
            TxInner::Chargeback => self.chargeback(tx),
        }
    }

    fn update_tx_history(&mut self, tx: Tx) -> (r: Result<(), LedgerError>)
        ensures
            r is Err <==> is_duplicate(old(self)@, tx),
            r is Ok ==> final(self)@ == recorded(old(self)@, tx),
            r is Err ==> final(self)@ == old(self)@ && r == Err::<(), LedgerError>(
                LedgerError::DuplicateTx(tx.tx_id),
            ),
    {
        match tx.inner {
            // Only deposits and withdrawals occupy a history slot; the
            // dispute-lifecycle kinds reference an existing id and are
            // never recorded under it.
            TxInner::Deposit { .. } | TxInner::Withdrawal { .. } => {
                if self.done_txs.contains_key(&tx.tx_id) {
                    Err(LedgerError::DuplicateTx(tx.tx_id))
                } else {
                    self.done_txs.insert(tx.tx_id, tx);
                    proof {
                        assert(self@ =~= recorded(old(self)@, tx));
                    }
                    Ok(())
                }
            },
            _ => Ok(()),
        }
    }

    /// The sole mutating entry point: applies one transaction, the next in
    /// arrival order. A transaction that fails admission — its client's
    /// account is locked, or it is a withdrawal without sufficient
    /// available funds — is silently dropped, mutating nothing; in
    /// particular a failed withdrawal does not create the client's
    /// account. The one fatal condition is an admitted deposit or
    /// withdrawal under an already-used transaction id: the balances have
    /// then been updated but the transaction is not recorded, the error is
    /// surfaced, and no further transaction should be applied.
    pub fn apply(&mut self, tx: Tx) -> (r: Result<(), LedgerError>)
        requires
            step_fits(old(self)@, tx),
        ensures
            final(self)@ == next(old(self)@, tx),
            r is Err <==> aborts(old(self)@, tx),
            r is Err ==> r == Err::<(), LedgerError>(LedgerError::DuplicateTx(tx.tx_id)),
    {
        if self.can_process_tx(&tx) {
            self.update_client_accounts(&tx);
            self.update_tx_history(tx)
        } else {
            Ok(())
        }
    }

    /// Applies a whole stream of transactions in order, stopping at the
    /// first duplicate-id error; the remaining transactions are then never
    /// applied and the final report cannot be trusted as complete.
    pub fn process_txs(&mut self, txs: &Vec<Tx>) -> (r: Result<(), LedgerError>)
        requires
            run_fits(old(self)@, txs@),
        ensures
            final(self)@ == run(old(self)@, txs@),
            r is Ok <==> runs_clean(old(self)@, txs@),
            r is Err ==> (exists|k: int|
                0 <= k < txs@.len() && r == Err::<(), LedgerError>(
                    LedgerError::DuplicateTx(txs@[k].tx_id),
                ) && runs_clean(old(self)@, txs@.take(k)) && #[trigger] aborts(
                    run(old(self)@, txs@.take(k)),
                    txs@[k],
                )),
    {
        proof {
            assert(txs@.skip(0) =~= txs@);
        }
        let mut i: usize = 0;
        while i < txs.len()
            invariant
                i <= txs.len(),
                self@ == run(old(self)@, txs@.take(i as int)),
                runs_clean(old(self)@, txs@.take(i as int)),
                run_fits(self@, txs@.skip(i as int)),
            decreases txs.len() - i,
        {
            proof {
                assert(txs@.skip(i as int)[0] == txs@[i as int]);
            }
            let tx = txs[i];
            let r = self.apply(tx);
            proof {
                lemma_run_snoc(old(self)@, txs@.take(i as int), txs@[i as int]);
                assert(txs@.take(i as int).push(txs@[i as int]) =~= txs@.take(i as int + 1));
                assert(txs@.skip(i as int).drop_first() =~= txs@.skip(i as int + 1));
            }
            if let Err(e) = r {
                proof {
                    assert(aborts(run(old(self)@, txs@.take(i as int)), txs@[i as int]));
                    lemma_run_after_abort(old(self)@, txs@, i as int + 1);
                }
                return Err(e);
            }
            i = i + 1;
        }
        proof {
            assert(txs@.take(txs@.len() as int) =~= txs@);
        }
        Ok(())
    }

    /// Whether applying `tx` in the current state keeps every balance
    /// within the machine balance type; a stream runner checks this before
    /// each `apply` call. The model itself is exact, so this tests only the
    /// executable representation's limits.
    pub fn tx_fits(&self, tx: &Tx) -> (b: bool)
        ensures
            b == step_fits(self@, *tx),
    {
        if !self.can_process_tx(tx) {
            return true;
        }
        match tx.inner {
            TxInner::Deposit { amount } => {
                let base = match self.client_accounts.get(&tx.client_id) {
                    Some(a) => *a,
                    None => ClientAccount::new(),
                };
                add_in_range(base.available, amount as Balance)
            },
            TxInner::Withdrawal { amount } => {
                let base = match self.client_accounts.get(&tx.client_id) {
                    Some(a) => *a,
                    None => ClientAccount::new(),
                };
                add_in_range(base.available, -(amount as Balance))
            },
            TxInner::Dispute => {
                match self.referenced_amount_of(tx.tx_id) {
                    Some(amount) => match self.client_accounts.get(&tx.client_id) {
                        Some(a) => add_in_range(a.available, -(amount as Balance))
                            && add_in_range(a.held, amount as Balance),
                        None => true,
                    },
                    None => true,
                }
            },
            TxInner::Resolve => {
                match self.referenced_amount_of(tx.tx_id) {
                    Some(amount) => match self.client_accounts.get(&tx.client_id) {
                        Some(a) => add_in_range(a.available, amount as Balance)
                            && add_in_range(a.held, -(amount as Balance)),
                        None => true,
                    },
                    None => true,
                }
            },
            TxInner::Chargeback => {
                match self.referenced_amount_of(tx.tx_id) {
                    Some(amount) => match self.client_accounts.get(&tx.client_id) {
                        Some(a) => add_in_range(a.held, -(amount as Balance)),
                        None => true,
                    },
                    None => true,
                }
            },
        }
    }
}

/// Whether an exact sum of a balance and one widened amount stays within
/// the machine balance type.
fn add_in_range(a: Balance, b: Balance) -> (r: bool)
    requires
        -0x1_0000_0000_0000_0000 <= b <= 0x1_0000_0000_0000_0000,
    ensures
        r == in_balance_range(a + b),
{
    if b >= 0 {
        a <= i128::MAX - b
    } else {
        a >= i128::MIN - b
    }
}

} // verus!
