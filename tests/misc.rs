use wallet_engine::block::UtxoInfo;
use wallet_engine::config::{hash, is_win11, remote_rest_key, Network};
use wallet_engine::digest::{BlockRef, Digest};
use wallet_engine::key_cache::KeyCache;
use wallet_engine::keys::{find_spending_key_for_utxo, KeyKind, SpendingKey};
use wallet_engine::rpc::{membership_requests, unlock_utxos, BroadcastError, MsMembershipProofEx, NodeRpcClient, UnlockError};
use wallet_engine::state::{RawHashKey, UtxoDbData, UtxoRecoveryData, WalletState};

fn d(x: u64) -> Digest {
    Digest(x, 0, 0, 0, 0)
}

fn key(kind: KeyKind, index: u64, lock: u64) -> SpendingKey {
    SpendingKey { kind, index, lock_script_hash: d(lock) }
}

fn record(id: i64, lock: u64) -> UtxoDbData {
    UtxoDbData {
        id,
        recovery_data: UtxoRecoveryData {
            utxo: UtxoInfo { digest: d(id as u64), amount: 1, release_date: None, lock_script_hash: d(lock) },
            sender_randomness: d(2),
            receiver_preimage: d(3),
            aocl_index: 40 + id as u64,
        },
        confirmed_in_block: BlockRef { height: 1, digest: d(1), timestamp: 0 },
        confirmed_txid: None,
        spent_in_block: None,
        spent_txid: None,
    }
}

#[test]
fn password_hash_is_sha256() {
    let h = hash("abc");
    let hex: String = h.iter().map(|b| format!("{:02x}", b)).collect();
    assert_eq!(hex, "ba7816bf8f01cfea414140de5dae2223b00361a396177a9cb410ff61f20015ad");
    assert_eq!(hash("").len(), 32);
}

#[test]
fn remote_rest_keys() {
    assert_eq!(remote_rest_key(Network::Main), "remote_rest");
    assert_eq!(remote_rest_key(Network::Testnet), "remote_rest_testnet");
    assert_eq!(remote_rest_key(Network::RegTest), "remote_rest_regtest");
    assert_eq!(remote_rest_key(Network::TestnetMock), "remote_rest");
}

#[test]
fn windows_eleven_detection() {
    assert!(is_win11(Some((10, 0, 22631))));
    assert!(!is_win11(Some((10, 0, 19045))));
    assert!(!is_win11(Some((6, 1, 30000))));
    assert!(!is_win11(None));
}

#[test]
fn rpc_client_endpoint() {
    let mut c = NodeRpcClient::new("http://a");
    assert_eq!(c.rest_server(), "http://a");
    c.set_rest_server("http://b".to_string());
    assert_eq!(c.rest_server(), "http://b");
}

#[test]
fn known_keys_follow_marks() {
    let mut w = WalletState::new(0, 5, RawHashKey { preimage: d(9), lock_script_hash: d(8) });
    w.num_generation_spending_keys = 1;
    w.num_symmetric_keys = 0;
    w.raw_hash_keys = vec![RawHashKey { preimage: d(9), lock_script_hash: d(8) }];
    let gen = vec![key(KeyKind::Generation, 0, 100), key(KeyKind::Generation, 1, 101), key(KeyKind::Generation, 2, 102)];
    let sym = vec![key(KeyKind::Symmetric, 0, 200), key(KeyKind::Symmetric, 1, 201)];
    let keys = w.get_known_spending_keys(&gen, &sym);
    assert_eq!(
        keys,
        vec![
            key(KeyKind::Generation, 0, 100),
            key(KeyKind::Generation, 1, 101),
            key(KeyKind::Symmetric, 0, 200),
            key(KeyKind::RawHashLock, 0, 8),
        ]
    );
}

#[test]
fn spending_key_lookup() {
    let keys = vec![key(KeyKind::Generation, 0, 100), key(KeyKind::Symmetric, 0, 100), key(KeyKind::Symmetric, 1, 201)];
    let u = record(1, 201).recovery_data.utxo;
    assert_eq!(find_spending_key_for_utxo(&keys, &u), Some(key(KeyKind::Symmetric, 1, 201)));
    let u = record(1, 100).recovery_data.utxo;
    assert_eq!(find_spending_key_for_utxo(&keys, &u), Some(key(KeyKind::Generation, 0, 100)));
    let u = record(1, 5).recovery_data.utxo;
    assert_eq!(find_spending_key_for_utxo(&keys, &u), None);
}

#[test]
fn requests_pair_index_sets_with_positions() {
    let sel = vec![record(1, 100), record(2, 100)];
    let r = membership_requests(&sel, &vec![vec![1, 2], vec![3]]).unwrap();
    assert_eq!(r.len(), 2);
    assert_eq!(r[0].swbf_indices, vec![1, 2]);
    assert_eq!(r[0].aocl_leaf_index, 41);
    assert_eq!(r[1].swbf_indices, vec![3]);
    assert_eq!(r[1].aocl_leaf_index, 42);
    assert!(matches!(membership_requests(&sel, &vec![vec![1]]), Err(UnlockError::CountMismatch)));
}

#[test]
fn unlock_pairs_proofs_and_keys() {
    let keys = vec![key(KeyKind::Generation, 0, 100)];
    let sel = vec![record(1, 100), record(2, 100)];
    let proofs = vec![
        MsMembershipProofEx { auth_path_aocl: vec![1], target_chunks: vec![2] },
        MsMembershipProofEx { auth_path_aocl: vec![3], target_chunks: vec![4] },
    ];
    let u = unlock_utxos(&sel, &proofs, &keys).unwrap();
    assert_eq!(u.len(), 2);
    assert_eq!(u[1].membership_proof.auth_path_aocl, vec![3]);
    assert_eq!(u[1].membership_proof.target_chunks, vec![4]);
    assert_eq!(u[1].membership_proof.aocl_leaf_index, 42);
    assert_eq!(u[0].spending_key, key(KeyKind::Generation, 0, 100));
    assert!(matches!(unlock_utxos(&sel, &proofs[..1].to_vec(), &keys), Err(UnlockError::CountMismatch)));
    let sel = vec![record(1, 100), record(2, 7)];
    assert!(matches!(unlock_utxos(&sel, &proofs, &keys), Err(UnlockError::NoSpendingKey(2))));
}

#[test]
fn broadcast_answers() {
    assert!(BroadcastError::from_response(0, "whatever".to_string()).is_ok());
    assert!(matches!(BroadcastError::from_response(1, "proof machine is busy".to_string()), Err(BroadcastError::Busy)));
    match BroadcastError::from_response(3, "bad tx".to_string()) {
        Err(BroadcastError::Server(m)) => assert_eq!(m, "bad tx"),
        other => panic!("unexpected {:?}", other),
    }
    assert!(matches!(BroadcastError::from_transport(true, true, "x".to_string()), BroadcastError::Timeout));
    assert!(matches!(BroadcastError::from_transport(false, true, "x".to_string()), BroadcastError::Connection(_)));
    assert!(matches!(BroadcastError::from_transport(false, false, "x".to_string()), BroadcastError::Server(_)));
}

#[test]
fn network_names_round_trip() {
    for n in [Network::Main, Network::Testnet, Network::RegTest, Network::TestnetMock] {
        assert_eq!(Network::from_name(n.name()), Some(n));
    }
    assert_eq!(Network::Testnet.name(), "testnet");
    assert_eq!(Network::from_name("Main"), None);
}

#[test]
fn mark_getters_and_raw_keys() {
    let mut w = WalletState::new(0, 7, RawHashKey { preimage: d(9), lock_script_hash: d(8) });
    w.num_generation_spending_keys = 3;
    w.num_symmetric_keys = 4;
    assert_eq!((w.num_generation_spending_keys(), w.num_symmetric_keys(), w.num_future_keys()), (3, 4, 7));
    assert_eq!(w.get_known_raw_hash_keys(), vec![]);
    w.raw_hash_keys = vec![RawHashKey { preimage: d(9), lock_script_hash: d(8) }, RawHashKey { preimage: d(1), lock_script_hash: d(2) }];
    assert_eq!(w.get_known_raw_hash_keys(), vec![key(KeyKind::RawHashLock, 0, 8), key(KeyKind::RawHashLock, 1, 2)]);
}

#[test]
fn key_cache_is_write_once() {
    let mut c = KeyCache::new();
    assert_eq!(c.get_generation_spending_key(3), None);
    assert_eq!(c.missing_generation_spending_keys(0, 5), vec![0, 1, 2, 3, 4]);
    c.add_generation_spending_key(3, key(KeyKind::Generation, 3, 103));
    c.add_generation_spending_key(3, key(KeyKind::Generation, 3, 999));
    assert_eq!(c.get_generation_spending_key(3), Some(key(KeyKind::Generation, 3, 103)));
    assert_eq!(c.get_symmetric_key(3), None);
    assert_eq!(c.missing_generation_spending_keys(2, 5), vec![2, 4]);
    assert_eq!(c.get_future_generation_spending_keys(2, 5), None);
    c.add_generation_spending_key(2, key(KeyKind::Generation, 2, 102));
    c.add_generation_spending_key(4, key(KeyKind::Generation, 4, 104));
    assert_eq!(
        c.get_future_generation_spending_keys(2, 5),
        Some(vec![(2, key(KeyKind::Generation, 2, 102)), (3, key(KeyKind::Generation, 3, 103)), (4, key(KeyKind::Generation, 4, 104))])
    );
    assert_eq!(c.get_future_symmetric_keys(5, 5), Some(vec![]));
    c.add_symmetric_key(0, key(KeyKind::Symmetric, 0, 200));
    assert_eq!(c.missing_symmetric_keys(0, 2), vec![1]);
    assert_eq!(c.get_future_symmetric_keys(0, 1), Some(vec![(0, key(KeyKind::Symmetric, 0, 200))]));
}
