use wallet_engine::block::{replay_plan, GuesserFeeOutput, ReplayStep, UtxoInfo, WalletBlock};
use wallet_engine::digest::{BlockRef, Digest};
use wallet_engine::scan::{IncomingUtxo, KeyMatch};
use wallet_engine::state::{ExpectedUtxo, RawHashKey, SyncError, Tip, WalletState};

fn d(x: u64) -> Digest {
    Digest(x, 0, 0, 0, 0)
}

fn guesser() -> RawHashKey {
    RawHashKey { preimage: d(900), lock_script_hash: d(901) }
}

fn utxo(tag: u64, amount: u128) -> UtxoInfo {
    UtxoInfo { digest: d(tag), amount, release_date: None, lock_script_hash: d(500) }
}

fn incoming(addition: u64, amount: u128) -> IncomingUtxo {
    IncomingUtxo {
        utxo: utxo(addition + 1000, amount),
        addition_record: d(addition),
        sender_randomness: d(addition + 2000),
        receiver_preimage: d(addition + 3000),
        is_guesser_fee: false,
    }
}

fn block(height: u64, prev: u64, outputs: Vec<u64>, inputs: Vec<Vec<u128>>) -> WalletBlock {
    WalletBlock {
        height,
        digest: d(height * 10),
        prev_block_digest: d(prev),
        timestamp: height * 1000,
        outputs: outputs.into_iter().map(d).collect(),
        inputs,
        guesser_fee_outputs: vec![],
        guesser_receiver_digest: d(0),
        mutator_set_hash_after: d(height * 10 + 1),
    }
}

fn hash_after(b: &WalletBlock) -> Digest {
    b.mutator_set_hash_after
}

#[test]
fn incoming_output_becomes_record_at_its_position() {
    let mut w = WalletState::new(0, 5, guesser());
    let b = block(1, 0, vec![11, 12, 13], vec![]);
    let m = vec![KeyMatch { key_index: 2, utxo: incoming(12, 40) }];
    w.update_new_tip(100, &b, &m, &vec![], &vec![], hash_after(&b)).unwrap();
    assert_eq!(w.records.len(), 1);
    let r = w.records[0];
    assert_eq!(r.id, 1);
    assert_eq!(r.recovery_data.aocl_index, 101);
    assert_eq!(r.recovery_data.utxo.amount, 40);
    assert_eq!(r.recovery_data.sender_randomness, d(2012));
    assert_eq!(r.confirmed_in_block, BlockRef { height: 1, digest: d(10), timestamp: 1000 });
    assert_eq!(r.spent_in_block, None);
    assert_eq!(w.tip, Some(Tip { height: 1, digest: d(10), mutator_set_hash: d(11) }));
    assert_eq!(w.num_generation_spending_keys, 2);
    assert_eq!(w.num_symmetric_keys, 0);
    assert_eq!(w.next_id, 2);
    assert_eq!(w.start_height(), 2);
    assert_eq!(w.get_tip(), Some((1, d(10))));
}

#[test]
fn fresh_wallet_starts_at_configured_height() {
    let w = WalletState::new(4321, 5, guesser());
    assert_eq!(w.start_height(), 4321);
    assert_eq!(w.get_tip(), None);
}

#[test]
fn accumulator_mismatch_changes_nothing() {
    let mut w = WalletState::new(0, 5, guesser());
    let b = block(1, 0, vec![11], vec![]);
    let m = vec![KeyMatch { key_index: 0, utxo: incoming(11, 40) }];
    assert_eq!(w.update_new_tip(0, &b, &m, &vec![], &vec![], d(12345)), Err(SyncError::AccumulatorMismatch));
    assert_eq!(w.records.len(), 0);
    assert_eq!(w.tip, None);
}

#[test]
fn block_not_extending_tip_is_refused() {
    let mut w = WalletState::new(0, 5, guesser());
    let b1 = block(1, 0, vec![], vec![]);
    w.update_new_tip(0, &b1, &vec![], &vec![], &vec![], hash_after(&b1)).unwrap();
    let b2 = block(2, 999, vec![], vec![]);
    assert_eq!(w.update_new_tip(0, &b2, &vec![], &vec![], &vec![], hash_after(&b2)), Err(SyncError::NotLinear));
    assert_eq!(w.tip, Some(Tip { height: 1, digest: d(10), mutator_set_hash: d(11) }));
}

#[test]
fn index_sets_must_match_records() {
    let mut w = WalletState::new(0, 5, guesser());
    let b1 = block(1, 0, vec![11], vec![]);
    let m = vec![KeyMatch { key_index: 0, utxo: incoming(11, 40) }];
    w.update_new_tip(0, &b1, &m, &vec![], &vec![], hash_after(&b1)).unwrap();
    let b2 = block(2, 10, vec![], vec![]);
    assert_eq!(w.update_new_tip(1, &b2, &vec![], &vec![], &vec![], hash_after(&b2)), Err(SyncError::IndexSetCount));
}

#[test]
fn counter_overflow_is_refused() {
    let mut w = WalletState::new(0, 5, guesser());
    let b = block(1, 0, vec![11, 12], vec![]);
    assert_eq!(w.update_new_tip(u64::MAX - 1, &b, &vec![], &vec![], &vec![], hash_after(&b)), Err(SyncError::CounterOverflow));
    w.next_id = i64::MAX - 1;
    assert_eq!(w.update_new_tip(0, &b, &vec![], &vec![], &vec![], hash_after(&b)), Err(SyncError::CounterOverflow));
    assert_eq!(w.tip, None);
}

#[test]
fn reapplying_a_block_is_a_no_op() {
    let mut w = WalletState::new(0, 5, guesser());
    let b = block(1, 0, vec![11, 12], vec![]);
    let m = vec![KeyMatch { key_index: 1, utxo: incoming(11, 40) }];
    w.update_new_tip(7, &b, &m, &vec![], &vec![], hash_after(&b)).unwrap();
    let once = (w.records.clone(), w.tip, w.next_id, w.num_generation_spending_keys);
    w.update_new_tip(7, &b, &m, &vec![], &vec![vec![1]], hash_after(&b)).unwrap();
    assert_eq!((w.records.clone(), w.tip, w.next_id, w.num_generation_spending_keys), once);
}

#[test]
fn tip_hash_is_last_blocks_declared_hash() {
    let mut w = WalletState::new(0, 5, guesser());
    let b1 = block(1, 0, vec![], vec![]);
    let b2 = block(2, 10, vec![], vec![]);
    let b3 = block(3, 20, vec![], vec![]);
    for b in [&b1, &b2, &b3] {
        w.update_new_tip(0, b, &vec![], &vec![], &vec![], hash_after(b)).unwrap();
    }
    assert_eq!(w.tip.unwrap().mutator_set_hash, b3.mutator_set_hash_after);
    assert_eq!(w.tip.unwrap().digest, b3.digest);
}

#[test]
fn removal_marks_record_spent() {
    let mut w = WalletState::new(0, 5, guesser());
    let b1 = block(1, 0, vec![11, 12], vec![]);
    let m = vec![KeyMatch { key_index: 0, utxo: incoming(11, 40) }, KeyMatch { key_index: 0, utxo: incoming(12, 2) }];
    w.update_new_tip(0, &b1, &m, &vec![], &vec![], hash_after(&b1)).unwrap();
    assert_eq!(w.records.len(), 2);
    let b2 = block(2, 10, vec![], vec![vec![5, 6, 7]]);
    let sets = vec![vec![1, 2, 3], vec![5, 6, 7]];
    assert_eq!(w.scan_for_spent_utxos(&b2, &sets), vec![2]);
    w.update_new_tip(2, &b2, &vec![], &vec![], &sets, hash_after(&b2)).unwrap();
    assert_eq!(w.records[0].spent_in_block, None);
    assert_eq!(w.records[1].spent_in_block, Some(BlockRef { height: 2, digest: d(20), timestamp: 2000 }));
    assert_eq!(w.records[1].recovery_data.aocl_index, 1);
}

#[test]
fn no_matches_leave_marks_unchanged() {
    let mut w = WalletState::new(0, 5, guesser());
    w.num_generation_spending_keys = 3;
    w.num_symmetric_keys = 4;
    let b = block(1, 0, vec![11], vec![]);
    let scan = w.scan_for_incoming_utxo(&b, &vec![], &vec![]);
    assert_eq!(scan.utxos.len(), 0);
    assert_eq!((scan.num_generation_spending_keys, scan.num_symmetric_keys), (3, 4));
    w.update_new_tip(0, &b, &vec![], &vec![], &vec![], hash_after(&b)).unwrap();
    assert_eq!((w.num_generation_spending_keys, w.num_symmetric_keys), (3, 4));
}

#[test]
fn matches_raise_marks_inside_window_only() {
    let mut w = WalletState::new(0, 5, guesser());
    w.num_symmetric_keys = 2;
    let b = block(1, 0, vec![11, 12, 13], vec![]);
    let gen = vec![KeyMatch { key_index: 4, utxo: incoming(11, 1) }, KeyMatch { key_index: 5, utxo: incoming(12, 1) }];
    let sym = vec![KeyMatch { key_index: 6, utxo: incoming(13, 1) }, KeyMatch { key_index: 1, utxo: incoming(13, 1) }];
    let scan = w.scan_for_incoming_utxo(&b, &gen, &sym);
    assert_eq!(scan.num_generation_spending_keys, 4);
    assert_eq!(scan.num_symmetric_keys, 6);
    assert_eq!(scan.utxos.len(), 3);
    assert_eq!(w.owned_additions(&b, &scan.utxos), vec![true, false, true]);
}

#[test]
fn guesser_fee_is_claimed() {
    let mut w = WalletState::new(0, 5, guesser());
    let mut b = block(1, 0, vec![11], vec![]);
    b.guesser_receiver_digest = d(900);
    b.guesser_fee_outputs = vec![GuesserFeeOutput { utxo: utxo(77, 9), addition_record: d(70) }];
    let scan = w.scan_for_incoming_utxo(&b, &vec![], &vec![]);
    assert_eq!(scan.utxos.len(), 1);
    assert!(scan.utxos[0].is_guesser_fee);
    assert_eq!(scan.utxos[0].sender_randomness, d(10));
    assert_eq!(scan.utxos[0].receiver_preimage, d(900));
    w.update_new_tip(5, &b, &vec![], &vec![], &vec![], hash_after(&b)).unwrap();
    assert_eq!(w.records.len(), 1);
    assert_eq!(w.records[0].recovery_data.aocl_index, 6);
    assert_eq!(w.raw_hash_keys, vec![guesser()]);
    let mut b2 = block(2, 10, vec![], vec![]);
    b2.guesser_receiver_digest = d(900);
    b2.guesser_fee_outputs = vec![GuesserFeeOutput { utxo: utxo(78, 9), addition_record: d(71) }];
    w.update_new_tip(7, &b2, &vec![], &vec![], &vec![vec![]], hash_after(&b2)).unwrap();
    assert_eq!(w.raw_hash_keys, vec![guesser()]);
    assert_eq!(w.records.len(), 2);
}

#[test]
fn guesser_fee_for_someone_else_is_ignored() {
    let w = WalletState::new(0, 5, guesser());
    let mut b = block(1, 0, vec![], vec![]);
    b.guesser_receiver_digest = d(901);
    b.guesser_fee_outputs = vec![GuesserFeeOutput { utxo: utxo(77, 9), addition_record: d(70) }];
    assert_eq!(w.scan_for_incoming_utxo(&b, &vec![], &vec![]).utxos.len(), 0);
}

#[test]
fn expected_output_is_recorded_with_txid() {
    let mut w = WalletState::new(0, 5, guesser());
    w.add_expected_utxo(ExpectedUtxo { incoming: incoming(12, 3), txid: d(4242), created_at: 5 });
    w.add_expected_utxo(ExpectedUtxo { incoming: incoming(99, 1), txid: d(1), created_at: 6 });
    let b = block(1, 0, vec![11, 12], vec![]);
    assert_eq!(w.scan_for_expected_utxos(&b), vec![(incoming(12, 3), d(4242))]);
    w.update_new_tip(0, &b, &vec![], &vec![], &vec![], hash_after(&b)).unwrap();
    assert_eq!(w.records.len(), 1);
    assert_eq!(w.records[0].confirmed_txid, Some(d(4242)));
    assert_eq!(w.records[0].recovery_data.aocl_index, 1);
    assert_eq!(w.expected.len(), 1);
    assert_eq!(w.expected[0].txid, d(1));
}

#[test]
fn rewind_drops_records_above_fork_point() {
    let mut w = WalletState::new(0, 5, guesser());
    let b1 = block(1, 0, vec![11], vec![]);
    w.update_new_tip(0, &b1, &vec![KeyMatch { key_index: 0, utxo: incoming(11, 1) }], &vec![], &vec![], hash_after(&b1)).unwrap();
    let b2 = block(2, 10, vec![12], vec![]);
    w.update_new_tip(1, &b2, &vec![KeyMatch { key_index: 0, utxo: incoming(12, 1) }], &vec![], &vec![vec![]], hash_after(&b2)).unwrap();
    let b3 = block(3, 20, vec![], vec![vec![8]]);
    w.update_new_tip(2, &b3, &vec![], &vec![], &vec![vec![8], vec![]], hash_after(&b3)).unwrap();
    assert!(w.records[0].spent_in_block.is_some());
    w.reorganize_to_height(1, d(10), d(11));
    assert_eq!(w.records.len(), 1);
    assert_eq!(w.records[0].id, 1);
    assert_eq!(w.records[0].spent_in_block, None);
    assert_eq!(w.tip, Some(Tip { height: 1, digest: d(10), mutator_set_hash: d(11) }));
    assert_eq!(w.start_height(), 2);
    assert_eq!(w.next_id, 3);
}

#[test]
fn mutator_set_update_appends_guesser_additions() {
    let mut b = block(1, 0, vec![11, 12], vec![vec![1, 2], vec![3]]);
    b.guesser_fee_outputs = vec![GuesserFeeOutput { utxo: utxo(77, 9), addition_record: d(70) }];
    let u = b.mutator_set_update();
    assert_eq!(u.additions, vec![d(11), d(12), d(70)]);
    assert_eq!(u.removals, vec![vec![1, 2], vec![3]]);
}

#[test]
fn replay_order_interleaves_updates() {
    let plan = replay_plan(&vec![false, true], 2);
    assert_eq!(
        plan,
        vec![
            ReplayStep::UpdateRemovalsForAddition(0),
            ReplayStep::Add(0),
            ReplayStep::UpdateRemovalsForAddition(1),
            ReplayStep::RecordOwnedOutput(1),
            ReplayStep::Add(1),
            ReplayStep::UpdateRemovalsForRemoval(0),
            ReplayStep::Remove(0),
            ReplayStep::UpdateRemovalsForRemoval(1),
            ReplayStep::Remove(1),
        ]
    );
    assert_eq!(replay_plan(&vec![], 0), vec![]);
}

#[test]
fn recovery_data_lookup_by_output_hash() {
    let mut w = WalletState::new(0, 5, guesser());
    let b = block(1, 0, vec![11, 12], vec![]);
    let m = vec![KeyMatch { key_index: 0, utxo: incoming(11, 4) }, KeyMatch { key_index: 0, utxo: incoming(12, 5) }];
    w.update_new_tip(30, &b, &m, &vec![], &vec![], hash_after(&b)).unwrap();
    let r = w.get_recovery_data_from_utxo(&d(1012)).unwrap();
    assert_eq!(r.aocl_index, 31);
    assert_eq!(r.utxo.amount, 5);
    assert_eq!(w.get_recovery_data_from_utxo(&d(5)), None);
    assert!(w.is_well_formed());
}

#[test]
fn out_of_order_ids_are_not_well_formed() {
    let mut w = WalletState::new(0, 5, guesser());
    let b = block(1, 0, vec![11, 12], vec![]);
    let m = vec![KeyMatch { key_index: 0, utxo: incoming(11, 4) }, KeyMatch { key_index: 0, utxo: incoming(12, 5) }];
    w.update_new_tip(0, &b, &m, &vec![], &vec![], hash_after(&b)).unwrap();
    assert!(w.is_well_formed());
    w.records.swap(0, 1);
    assert!(!w.is_well_formed());
    w.records.swap(0, 1);
    w.next_id = 2;
    assert!(!w.is_well_formed());
}

#[test]
fn stale_expected_outputs_are_pruned() {
    let mut w = WalletState::new(0, 5, guesser());
    w.add_expected_utxo(ExpectedUtxo { incoming: incoming(1, 1), txid: d(1), created_at: 100 });
    w.add_expected_utxo(ExpectedUtxo { incoming: incoming(2, 1), txid: d(2), created_at: 500 });
    w.add_expected_utxo(ExpectedUtxo { incoming: incoming(3, 1), txid: d(3), created_at: u64::MAX });
    w.clean_old_expected_utxos(600, 100);
    let left: Vec<Digest> = w.expected.iter().map(|e| e.txid).collect();
    assert_eq!(left, vec![d(2), d(3)]);
    w.clean_old_expected_utxos(601, 100);
    assert_eq!(w.expected.len(), 1);
}
