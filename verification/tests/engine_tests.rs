//! End-to-end tests of the ledger engine: whole-stream scenarios, the
//! dispute lifecycle, the admission rules, and the one fatal error.
//!
//! Amounts are fixed-point integers with four fractional decimal digits,
//! so 5.0 currency units are written 50_000.

use ledger::engine::PaymentsEngine;
use ledger::model::{Amount, ClientId, LedgerError, Tx, TxId, TxInner};

fn deposit(client_id: ClientId, tx_id: TxId, amount: Amount) -> Tx {
    Tx { client_id, tx_id, inner: TxInner::Deposit { amount } }
}

fn withdrawal(client_id: ClientId, tx_id: TxId, amount: Amount) -> Tx {
    Tx { client_id, tx_id, inner: TxInner::Withdrawal { amount } }
}

fn dispute(client_id: ClientId, tx_id: TxId) -> Tx {
    Tx { client_id, tx_id, inner: TxInner::Dispute }
}

fn resolve(client_id: ClientId, tx_id: TxId) -> Tx {
    Tx { client_id, tx_id, inner: TxInner::Resolve }
}

fn chargeback(client_id: ClientId, tx_id: TxId) -> Tx {
    Tx { client_id, tx_id, inner: TxInner::Chargeback }
}

fn apply_all(engine: &mut PaymentsEngine, txs: Vec<Tx>) {
    for tx in txs {
        assert!(engine.tx_fits(&tx));
        engine.apply(tx).expect("no duplicate transaction id expected");
    }
}

fn balances(engine: &PaymentsEngine, client_id: ClientId) -> (i128, i128, bool) {
    let account = engine.account(client_id).expect("account should exist");
    (account.available, account.held, account.locked)
}

#[test]
fn scenario_deposits_then_withdrawal() {
    let mut engine = PaymentsEngine::new();
    apply_all(
        &mut engine,
        vec![deposit(1, 1, 50_000), deposit(1, 2, 30_000), withdrawal(1, 3, 40_000)],
    );
    let account = engine.account(1).expect("account should exist");
    assert_eq!(account.available, 40_000);
    assert_eq!(account.held, 0);
    assert_eq!(account.total(), 40_000);
    assert!(!account.locked);
}

#[test]
fn scenario_dispute_holds_funds() {
    let mut engine = PaymentsEngine::new();
    apply_all(&mut engine, vec![deposit(2, 10, 100_000), dispute(2, 10)]);
    let account = engine.account(2).expect("account should exist");
    assert_eq!(account.available, 0);
    assert_eq!(account.held, 100_000);
    assert_eq!(account.total(), 100_000);
    assert!(!account.locked);
    assert!(engine.is_disputed(10));
}

#[test]
fn scenario_chargeback_locks_account() {
    let mut engine = PaymentsEngine::new();
    apply_all(
        &mut engine,
        vec![deposit(2, 10, 100_000), dispute(2, 10), chargeback(2, 10)],
    );
    // The chargeback takes the disputed amount out of held and locks the
    // account: the whole deposit is gone and the account is frozen for good.
    let account = engine.account(2).expect("account should exist");
    assert_eq!(account.available, 0);
    assert_eq!(account.held, 0);
    assert_eq!(account.total(), 0);
    assert!(account.locked);
    // Any further transaction for this client is silently dropped.
    apply_all(&mut engine, vec![deposit(2, 11, 70_000)]);
    assert_eq!(balances(&engine, 2), (0, 0, true));
}

#[test]
fn scenario_withdrawal_without_account() {
    let mut engine = PaymentsEngine::new();
    apply_all(&mut engine, vec![withdrawal(3, 20, 500_000)]);
    // The failed withdrawal mutates nothing; in particular it does not
    // materialize an empty account for the client.
    assert!(engine.account(3).is_none());
}

#[test]
fn totals_are_deposits_minus_successful_withdrawals() {
    let mut engine = PaymentsEngine::new();
    apply_all(
        &mut engine,
        vec![
            deposit(1, 1, 30_000),
            deposit(2, 2, 50_000),
            withdrawal(1, 3, 10_000),
            deposit(1, 4, 5_000),
            withdrawal(2, 5, 999_999), // insufficient: not counted
            withdrawal(2, 6, 20_000),
        ],
    );
    let one = engine.account(1).expect("account should exist");
    let two = engine.account(2).expect("account should exist");
    assert_eq!(one.total(), 30_000 - 10_000 + 5_000);
    assert_eq!(two.total(), 50_000 - 20_000);
}

#[test]
fn insufficient_withdrawal_changes_nothing() {
    let mut engine = PaymentsEngine::new();
    apply_all(&mut engine, vec![deposit(7, 70, 25_000)]);
    let before = balances(&engine, 7);
    apply_all(&mut engine, vec![withdrawal(7, 71, 25_001)]);
    assert_eq!(balances(&engine, 7), before);
    // An exactly-funded withdrawal, by contrast, is admitted.
    apply_all(&mut engine, vec![withdrawal(7, 72, 25_000)]);
    assert_eq!(balances(&engine, 7), (0, 0, false));
}

#[test]
fn locked_account_drops_every_kind() {
    let mut engine = PaymentsEngine::new();
    apply_all(
        &mut engine,
        vec![deposit(4, 40, 80_000), deposit(4, 41, 20_000), dispute(4, 40), chargeback(4, 40)],
    );
    let frozen = balances(&engine, 4);
    assert!(frozen.2);
    apply_all(
        &mut engine,
        vec![
            deposit(4, 42, 10_000),
            withdrawal(4, 43, 1_000),
            dispute(4, 41),
            resolve(4, 41),
            chargeback(4, 41),
        ],
    );
    assert_eq!(balances(&engine, 4), frozen);
}

#[test]
fn dispute_then_resolve_restores_balances() {
    let mut engine = PaymentsEngine::new();
    apply_all(&mut engine, vec![deposit(5, 50, 60_000), withdrawal(5, 51, 10_000)]);
    let before = balances(&engine, 5);
    apply_all(&mut engine, vec![dispute(5, 50), resolve(5, 50)]);
    assert_eq!(balances(&engine, 5), before);
    assert!(!engine.is_disputed(50));
}

#[test]
fn resolve_without_open_dispute_still_applies() {
    // The engine does not re-check dispute membership: a resolve of any
    // recorded transaction reverses a hold of its amount.
    let mut engine = PaymentsEngine::new();
    apply_all(&mut engine, vec![deposit(6, 60, 40_000), resolve(6, 60)]);
    assert_eq!(balances(&engine, 6), (80_000, -40_000, false));
}

#[test]
fn dispute_chargeback_removes_held_amount_and_locks() {
    let mut engine = PaymentsEngine::new();
    apply_all(&mut engine, vec![deposit(8, 80, 90_000), withdrawal(8, 81, 30_000)]);
    let before = balances(&engine, 8);
    apply_all(&mut engine, vec![dispute(8, 80), chargeback(8, 80)]);
    let after = balances(&engine, 8);
    // Held returns to its pre-dispute value; the account is locked; net,
    // available has lost exactly the disputed amount.
    assert_eq!(after.1, before.1);
    assert_eq!(after.0, before.0 - 90_000);
    assert!(after.2);
}

#[test]
fn unknown_dispute_is_a_no_op() {
    let mut engine = PaymentsEngine::new();
    apply_all(&mut engine, vec![deposit(9, 90, 15_000)]);
    let before = balances(&engine, 9);
    apply_all(&mut engine, vec![dispute(9, 999)]);
    assert_eq!(balances(&engine, 9), before);
    assert!(!engine.is_disputed(999));
}

#[test]
fn dispute_for_client_without_account_is_a_no_op() {
    let mut engine = PaymentsEngine::new();
    apply_all(&mut engine, vec![deposit(10, 100, 15_000)]);
    // Client 11 has no account: the dispute referencing client 10's
    // transaction id under client 11 changes nothing.
    apply_all(&mut engine, vec![dispute(11, 100)]);
    assert!(engine.account(11).is_none());
    assert_eq!(balances(&engine, 10), (15_000, 0, false));
}

#[test]
fn duplicate_transaction_id_is_fatal() {
    let mut engine = PaymentsEngine::new();
    assert_eq!(engine.apply(deposit(12, 120, 10_000)), Ok(()));
    let result = engine.apply(deposit(12, 120, 7_000));
    assert_eq!(result, Err(LedgerError::DuplicateTx(120)));
    // The duplicate was admitted and applied before the recording step
    // failed: the balance shows the mutation, but the run must stop here.
    assert_eq!(balances(&engine, 12), (17_000, 0, false));
}

#[test]
fn withdrawal_under_unused_id_is_not_a_duplicate() {
    let mut engine = PaymentsEngine::new();
    assert_eq!(engine.apply(deposit(13, 130, 10_000)), Ok(()));
    // A rejected withdrawal is never recorded, so its id stays free.
    assert_eq!(engine.apply(withdrawal(13, 131, 99_999)), Ok(()));
    assert_eq!(engine.apply(deposit(13, 131, 5_000)), Ok(()));
    assert_eq!(balances(&engine, 13), (15_000, 0, false));
}

#[test]
fn process_txs_runs_a_whole_stream() {
    let mut engine = PaymentsEngine::new();
    let txs = vec![
        deposit(1, 1, 50_000),
        deposit(1, 2, 30_000),
        withdrawal(1, 3, 40_000),
        deposit(2, 4, 10_000),
        dispute(2, 4),
    ];
    assert_eq!(engine.process_txs(&txs), Ok(()));
    assert_eq!(balances(&engine, 1), (40_000, 0, false));
    assert_eq!(balances(&engine, 2), (0, 10_000, false));
}

#[test]
fn process_txs_stops_at_the_first_duplicate() {
    let mut engine = PaymentsEngine::new();
    let txs = vec![
        deposit(1, 1, 50_000),
        deposit(1, 1, 30_000), // fatal: id 1 is already recorded
        deposit(1, 2, 10_000), // never applied
    ];
    assert_eq!(engine.process_txs(&txs), Err(LedgerError::DuplicateTx(1)));
    assert_eq!(balances(&engine, 1), (80_000, 0, false));
}

#[test]
fn accounts_are_created_lazily_with_zero_balances() {
    let engine = PaymentsEngine::new();
    assert!(engine.account(1).is_none());
    let fresh = ledger::engine::ClientAccount::new();
    assert_eq!(fresh.available, 0);
    assert_eq!(fresh.held, 0);
    assert!(!fresh.locked);
    assert_eq!(fresh.total(), 0);
}

#[test]
fn client_ids_lists_every_account_once() {
    let mut engine = PaymentsEngine::new();
    assert!(engine.client_ids().is_empty());
    apply_all(
        &mut engine,
        vec![
            deposit(3, 30, 10_000),
            deposit(1, 31, 10_000),
            deposit(2, 32, 10_000),
            deposit(1, 33, 10_000),
            withdrawal(5, 34, 10_000), // rejected: creates no account
        ],
    );
    let mut ids = engine.client_ids();
    ids.sort();
    assert_eq!(ids, vec![1, 2, 3]);
}

#[test]
fn negative_amounts_follow_the_same_rules() {
    // Amounts are signed, as the exact-decimal amounts of the source data
    // are; the admission rules apply unchanged.
    let mut engine = PaymentsEngine::new();
    apply_all(&mut engine, vec![deposit(14, 140, -5_000)]);
    assert_eq!(balances(&engine, 14), (-5_000, 0, false));
    // A withdrawal of a negative amount is admitted when available >= amount.
    apply_all(&mut engine, vec![withdrawal(14, 141, -10_000)]);
    assert_eq!(balances(&engine, 14), (5_000, 0, false));
}

#[test]
fn tx_fits_accepts_every_reachable_small_stream() {
    let mut engine = PaymentsEngine::new();
    let txs = vec![
        deposit(15, 150, i64::MAX),
        deposit(15, 151, i64::MAX),
        withdrawal(15, 152, i64::MAX),
        dispute(15, 150),
        resolve(15, 150),
        chargeback(15, 151),
    ];
    for tx in txs {
        assert!(engine.tx_fits(&tx));
        let _ = engine.apply(tx);
    }
}
