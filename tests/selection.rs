use wallet_engine::block::UtxoInfo;
use wallet_engine::digest::{BlockRef, Digest};
use wallet_engine::pending::PendingTransactions;
use wallet_engine::selection::{select_inputs, InputSelectionRule, SelectionError};
use wallet_engine::state::{RawHashKey, UtxoDbData, UtxoRecoveryData, WalletState};

fn d(x: u64) -> Digest {
    Digest(x, 0, 0, 0, 0)
}

fn record(id: i64, amount: u128, height: u64) -> UtxoDbData {
    UtxoDbData {
        id,
        recovery_data: UtxoRecoveryData {
            utxo: UtxoInfo { digest: d(id as u64), amount, release_date: None, lock_script_hash: d(1) },
            sender_randomness: d(2),
            receiver_preimage: d(3),
            aocl_index: id as u64,
        },
        confirmed_in_block: BlockRef { height, digest: d(height), timestamp: 0 },
        confirmed_txid: None,
        spent_in_block: None,
        spent_txid: None,
    }
}

fn wallet(records: Vec<UtxoDbData>) -> WalletState {
    let mut w = WalletState::new(0, 10, RawHashKey { preimage: d(9), lock_script_hash: d(8) });
    let next = records.iter().map(|r| r.id).max().unwrap_or(0) + 1;
    w.records = records;
    w.next_id = next;
    w
}

fn heights(v: &[UtxoDbData]) -> Vec<u64> {
    v.iter().map(|r| r.confirmed_in_block.height).collect()
}

fn ids(v: &[UtxoDbData]) -> Vec<i64> {
    v.iter().map(|r| r.id).collect()
}

#[test]
fn rule_names() {
    assert_eq!(InputSelectionRule::from_str("minimum"), Some(InputSelectionRule::Minimum));
    assert_eq!(InputSelectionRule::from_str("maximum"), Some(InputSelectionRule::Maximum));
    assert_eq!(InputSelectionRule::from_str("oldest"), Some(InputSelectionRule::Oldest));
    assert_eq!(InputSelectionRule::from_str("newest"), Some(InputSelectionRule::Newest));
    assert_eq!(InputSelectionRule::from_str("random"), Some(InputSelectionRule::Random));
    assert_eq!(InputSelectionRule::from_str("Oldest"), None);
    assert_eq!(InputSelectionRule::from_str(""), None);
    assert_eq!(InputSelectionRule::from_str("oldest "), None);
}

#[test]
fn default_rule_is_oldest() {
    assert_eq!(InputSelectionRule::default(), InputSelectionRule::Oldest);
}

#[test]
fn oldest_orders_by_ascending_height() {
    let v = vec![record(1, 1, 100), record(2, 1, 50), record(3, 1, 75)];
    let r = InputSelectionRule::Oldest.apply(v);
    assert_eq!(heights(&r), vec![50, 75, 100]);
}

#[test]
fn newest_orders_by_descending_height_keeping_ties() {
    let v = vec![record(1, 1, 50), record(2, 1, 75), record(3, 1, 50), record(4, 1, 100)];
    let r = InputSelectionRule::Newest.apply(v);
    assert_eq!(ids(&r), vec![4, 2, 1, 3]);
}

#[test]
fn minimum_and_maximum_order_by_amount() {
    let v = vec![record(1, 30, 1), record(2, 10, 2), record(3, 20, 3), record(4, 10, 4)];
    assert_eq!(ids(&InputSelectionRule::Minimum.apply(v.clone())), vec![2, 4, 3, 1]);
    assert_eq!(ids(&InputSelectionRule::Maximum.apply(v)), vec![1, 3, 2, 4]);
}

#[test]
fn random_keeps_the_records() {
    let v: Vec<UtxoDbData> = (1..=20).map(|i| record(i, i as u128, i as u64)).collect();
    let r = InputSelectionRule::Random.apply(v.clone());
    let mut got = ids(&r);
    got.sort();
    assert_eq!(got, ids(&v));
}

#[test]
fn oldest_first_covers_without_overshoot() {
    let w = wallet(vec![record(1, 7, 10), record(2, 5, 20), record(3, 100, 30)]);
    let r = w.create_input(&vec![10], 1, InputSelectionRule::Oldest, &vec![], &vec![], 0).unwrap();
    assert_eq!(ids(&r), vec![1, 2]);
}

#[test]
fn must_include_comes_first() {
    let w = wallet(vec![record(1, 7, 10), record(2, 5, 20), record(3, 100, 30)]);
    let r = w.create_input(&vec![10], 1, InputSelectionRule::Oldest, &vec![3], &vec![], 0).unwrap();
    assert_eq!(ids(&r), vec![3]);
    let r = w.create_input(&vec![10], 1, InputSelectionRule::Oldest, &vec![2], &vec![], 0).unwrap();
    assert_eq!(ids(&r), vec![2, 1]);
}

#[test]
fn unavailable_must_include_is_refused() {
    let mut spent = record(2, 5, 20);
    spent.spent_in_block = Some(BlockRef { height: 25, digest: d(25), timestamp: 0 });
    let w = wallet(vec![record(1, 7, 10), spent]);
    let e = w.create_input(&vec![1], 0, InputSelectionRule::Oldest, &vec![2], &vec![], 0);
    assert_eq!(e, Err(SelectionError::UnavailableInput));
    let e = w.create_input(&vec![1], 0, InputSelectionRule::Oldest, &vec![1, 1], &vec![], 0);
    assert_eq!(e, Err(SelectionError::UnavailableInput));
    let e = w.create_input(&vec![1], 0, InputSelectionRule::Oldest, &vec![1], &vec![1], 0);
    assert_eq!(e, Err(SelectionError::UnavailableInput));
    let e = w.create_input(&vec![1], 0, InputSelectionRule::Oldest, &vec![42], &vec![], 0);
    assert_eq!(e, Err(SelectionError::UnavailableInput));
}

#[test]
fn insufficient_funds() {
    let w = wallet(vec![record(1, 7, 10), record(2, 5, 20)]);
    let e = w.create_input(&vec![10, 2], 1, InputSelectionRule::Oldest, &vec![], &vec![], 0);
    assert_eq!(e, Err(SelectionError::InsufficientFunds));
}

#[test]
fn amount_overflow() {
    let w = wallet(vec![record(1, 7, 10)]);
    let e = w.create_input(&vec![u128::MAX, 1], 0, InputSelectionRule::Oldest, &vec![], &vec![], 0);
    assert_eq!(e, Err(SelectionError::AmountOverflow));
    let e = w.create_input(&vec![u128::MAX], 1, InputSelectionRule::Oldest, &vec![], &vec![], 0);
    assert_eq!(e, Err(SelectionError::AmountOverflow));
}

#[test]
fn largest_amounts_saturate_without_failing() {
    let w = wallet(vec![record(1, u128::MAX, 10), record(2, u128::MAX, 20)]);
    let r = w.create_input(&vec![u128::MAX], 0, InputSelectionRule::Oldest, &vec![], &vec![], 0).unwrap();
    assert_eq!(ids(&r), vec![1]);
}

#[test]
fn time_locked_outputs_are_skipped() {
    let mut locked = record(1, 50, 10);
    locked.recovery_data.utxo.release_date = Some(1_000);
    let w = wallet(vec![locked, record(2, 5, 20), record(3, 6, 30)]);
    let r = w.create_input(&vec![8], 0, InputSelectionRule::Oldest, &vec![], &vec![], 999).unwrap();
    assert_eq!(ids(&r), vec![2, 3]);
    let r = w.create_input(&vec![8], 0, InputSelectionRule::Oldest, &vec![], &vec![], 1_000).unwrap();
    assert_eq!(ids(&r), vec![1]);
}

#[test]
fn reserved_records_are_not_selected_again() {
    let w = wallet(vec![record(1, 7, 10), record(2, 5, 20), record(3, 9, 30), record(4, 4, 40)]);
    let mut pending = PendingTransactions::new();
    let first = w
        .create_input(&vec![10], 1, InputSelectionRule::Oldest, &vec![], &pending.get_pending_spent_utxos(), 0)
        .unwrap();
    assert_eq!(ids(&first), vec![1, 2]);
    pending.add_pending(d(77), ids(&first));
    let second = w
        .create_input(&vec![10], 1, InputSelectionRule::Oldest, &vec![], &pending.get_pending_spent_utxos(), 0)
        .unwrap();
    assert_eq!(ids(&second), vec![3, 4]);
    assert!(ids(&second).iter().all(|i| !ids(&first).contains(i)));
    pending.forget_tx(&d(77));
    assert_eq!(pending.get_pending_spent_utxos(), Vec::<i64>::new());
    assert_eq!(pending.get_pending_transactions(), Vec::<Digest>::new());
}

#[test]
fn pending_transactions_listing() {
    let mut p = PendingTransactions::new();
    p.add_pending(d(1), vec![4, 5]);
    p.add_pending(d(2), vec![6]);
    assert_eq!(p.get_pending_transactions(), vec![d(1), d(2)]);
    assert_eq!(p.get_pending_spent_utxos(), vec![4, 5, 6]);
    p.forget_tx(&d(1));
    assert_eq!(p.get_pending_transactions(), vec![d(2)]);
    assert_eq!(p.get_pending_spent_utxos(), vec![6]);
}

#[test]
fn select_inputs_skips_repeated_records() {
    let a = record(1, 3, 10);
    let r = select_inputs(&vec![a, a, record(2, 3, 20)], &vec![], &vec![5], 0, 0).unwrap();
    assert_eq!(ids(&r), vec![1, 2]);
}

#[test]
fn unspent_listing_excludes_spent_and_pending() {
    let mut spent = record(2, 5, 20);
    spent.spent_in_block = Some(BlockRef { height: 25, digest: d(25), timestamp: 0 });
    let w = wallet(vec![record(1, 7, 10), spent, record(3, 1, 30)]);
    assert_eq!(ids(&w.get_unspent_utxos(&vec![3])), vec![1]);
    assert_eq!(w.get_unspent_inputs_with_ids(&vec![3, 1], &vec![]).map(|v| ids(&v)), Some(vec![3, 1]));
}
