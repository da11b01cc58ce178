use wallet_engine::digest::Digest;
use wallet_engine::fork::{BlockInfo, ForkError, ForkResolver, ForkStep};

fn d(x: u64) -> Digest {
    Digest(x, 0, 0, 0, 0)
}

fn info(height: u64, digest: u64, prev: u64, canonical: bool) -> BlockInfo {
    BlockInfo { height, digest: d(digest), prev_block_digest: d(prev), is_canonical: canonical }
}

#[test]
fn linear_cases() {
    assert_eq!(ForkResolver::check_fork(0, d(1), Some((5, d(2)))).1, ForkStep::Linear);
    assert_eq!(ForkResolver::check_fork(6, d(1), None).1, ForkStep::Linear);
    assert_eq!(ForkResolver::check_fork(6, d(2), Some((5, d(2)))).1, ForkStep::Linear);
}

#[test]
fn walk_to_fork_point() {
    let (mut r, step) = ForkResolver::check_fork(10, d(95), Some((9, d(90))));
    assert_eq!(step, ForkStep::Query(d(95)));
    assert_eq!(r.on_block_info(Some(info(9, 95, 85, false))), ForkStep::Query(d(85)));
    assert_eq!(r.on_block_info(Some(info(8, 85, 70, true))), ForkStep::Query(d(70)));
    assert_eq!(r.on_block_info(Some(info(7, 70, 60, true))), ForkStep::Resolved(7, d(70)));
    assert!(r.is_done());
    assert_eq!(r.on_block_info(None), ForkStep::Failed(ForkError::Finished));
}

#[test]
fn unknown_ancestor_fails() {
    let (mut r, _) = ForkResolver::check_fork(10, d(95), Some((9, d(90))));
    assert_eq!(r.on_block_info(None), ForkStep::Failed(ForkError::NotFound));
    let (mut r, _) = ForkResolver::check_fork(10, d(95), Some((9, d(90))));
    r.on_block_info(Some(info(9, 95, 85, true)));
    assert_eq!(r.on_block_info(None), ForkStep::Failed(ForkError::NotFound));
}

#[test]
fn inconsistent_answers_fail() {
    let (mut r, _) = ForkResolver::check_fork(10, d(95), Some((9, d(90))));
    assert_eq!(r.on_block_info(Some(info(9, 96, 85, false))), ForkStep::Failed(ForkError::Inconsistent));
    let (mut r, _) = ForkResolver::check_fork(10, d(95), Some((9, d(90))));
    assert_eq!(r.on_block_info(Some(info(10, 95, 85, false))), ForkStep::Failed(ForkError::Inconsistent));
    let (mut r, _) = ForkResolver::check_fork(10, d(95), Some((9, d(90))));
    r.on_block_info(Some(info(9, 95, 85, true)));
    assert_eq!(r.on_block_info(Some(info(9, 85, 80, true))), ForkStep::Failed(ForkError::Inconsistent));
}
