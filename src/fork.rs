//! Fork resolution: deciding whether a new block extends the stored tip and,
//! when it does not, walking the remote node's answers back to the fork point.
use vstd::prelude::*;

use crate::digest::Digest;

verus! {

/// A block header as the remote node describes it.
#[derive(Clone, Copy, PartialEq, Eq, Structural, Debug)]
pub struct BlockInfo {
    pub height: u64,
    pub digest: Digest,
    pub prev_block_digest: Digest,
    /// Whether the block is on the remote node's canonical chain.
    pub is_canonical: bool,
}

/// Why fork resolution stopped without a fork point.
#[derive(Clone, Copy, PartialEq, Eq, Structural, Debug)]
pub enum ForkError {
    /// The remote node does not know the requested ancestor.
    NotFound,
    /// The answer is not the block asked for, or is not below the block
    /// it should precede.
    Inconsistent,
    /// Resolution had already ended.
    Finished,
}

/// What the caller does next.
#[derive(Clone, Copy, PartialEq, Eq, Structural, Debug)]
pub enum ForkStep {
    /// The block extends the tip: reconcile it.
    Linear,
    /// Ask the remote node for the header of this digest and hand the
    /// answer to [`ForkResolver::on_block_info`].
    Query(Digest),
    /// The fork point (height, digest): rewind to it before reconciling.
    Resolved(u64, Digest),
    /// Resolution failed; sync halts.
    Failed(ForkError),
}

#[derive(Clone, Copy, PartialEq, Eq, Structural, Debug)]
pub enum ForkPhase {
    /// Walking back through non-canonical ancestors; answers must lie below
    /// `below`.
    Walking { below: u64 },
    /// A canonical ancestor was found at height `below`; waiting for its parent.
    Confirming { below: u64 },
    Done,
}

/// The resolver's state between two remote queries.
#[derive(Clone, Copy)]
pub struct ForkResolver {
    pub phase: ForkPhase,
    /// The digest whose header was asked for last.
    pub queried: Digest,
    /// The new block's parent, where the walk starts.
    pub start: Ghost<Digest>,
    /// The headers accepted so far, each the parent of the one before.
    pub trail: Ghost<Seq<BlockInfo>>,
}

/// `trail` follows parent links from `start`, with strictly falling heights,
/// and ends where `queried` is the parent of its last header.
pub open spec fn parent_chain(start: Digest, trail: Seq<BlockInfo>, queried: Digest) -> bool {
    &&& trail.len() == 0 ==> queried == start
    &&& trail.len() > 0 ==> trail[0].digest == start && queried == trail.last().prev_block_digest
    &&& forall|i: int|
        0 <= i < trail.len() - 1 ==> #[trigger] trail[i + 1].digest == trail[i].prev_block_digest
            && trail[i + 1].height < trail[i].height
}

/// The first decision for a new block at `height` whose parent is
/// `prev_block_digest`, given the stored tip.
pub open spec fn spec_check_fork(height: u64, prev_block_digest: Digest, tip: Option<(u64, Digest)>) -> (
    ForkResolver,
    ForkStep,
) {
    match tip {
        Some((_, tip_digest)) if height != 0 && prev_block_digest != tip_digest => (
            ForkResolver {
                phase: ForkPhase::Walking { below: height },
                queried: prev_block_digest,
                start: Ghost(prev_block_digest),
                trail: Ghost(Seq::empty()),
            },
            ForkStep::Query(prev_block_digest),
        ),
        _ => (
            ForkResolver {
                phase: ForkPhase::Done,
                queried: prev_block_digest,
                start: Ghost(prev_block_digest),
                trail: Ghost(Seq::empty()),
            },
            ForkStep::Linear,
        ),
    }
}

pub open spec fn failed(r: ForkResolver, e: ForkError) -> (ForkResolver, ForkStep) {
    (ForkResolver { phase: ForkPhase::Done, ..r }, ForkStep::Failed(e))
}

/// The answer is the header asked for and lies below `below`.
pub open spec fn answers(r: ForkResolver, info: BlockInfo, below: u64) -> bool {
    info.digest == r.queried && info.height < below
}

/// The resolver's transition on the remote node's answer.
pub open spec fn spec_on_block_info(r: ForkResolver, reply: Option<BlockInfo>) -> (ForkResolver, ForkStep) {
    match r.phase {
        ForkPhase::Done => (r, ForkStep::Failed(ForkError::Finished)),
        ForkPhase::Walking { below } => match reply {
            None => failed(r, ForkError::NotFound),
            Some(info) => if !answers(r, info, below) {
                failed(r, ForkError::Inconsistent)
            } else if info.is_canonical {
                (
                    ForkResolver {
                        phase: ForkPhase::Confirming { below: info.height },
                        queried: info.prev_block_digest,
                        start: r.start,
                        trail: Ghost(r.trail@.push(info)),
                    },
                    ForkStep::Query(info.prev_block_digest),
                )
            } else {
                (
                    ForkResolver {
                        phase: ForkPhase::Walking { below: info.height },
                        queried: info.prev_block_digest,
                        start: r.start,
                        trail: Ghost(r.trail@.push(info)),
                    },
                    ForkStep::Query(info.prev_block_digest),
                )
            },
        },
        ForkPhase::Confirming { below } => match reply {
            None => failed(r, ForkError::NotFound),
            Some(info) => if !answers(r, info, below) {
                failed(r, ForkError::Inconsistent)
            } else {
                (
                    ForkResolver { phase: ForkPhase::Done, trail: Ghost(r.trail@.push(info)), ..r },
                    ForkStep::Resolved(info.height, info.digest),
                )
            },
        },
    }
}

/// How far the walk can still go: the height bound of an active phase.
pub open spec fn remaining(r: ForkResolver) -> int {
    match r.phase {
        ForkPhase::Walking { below } => 2 * below + 1,
        ForkPhase::Confirming { below } => 2 * below,
        ForkPhase::Done => 0,
    }
}

impl ForkResolver {
    /// Starts fork resolution for a block at `height` whose parent is
    /// `prev_block_digest`. A genesis block, a fresh wallet, or a parent
    /// equal to the stored tip is a linear extension; otherwise the parent's
    /// header is asked for.
    pub fn check_fork(height: u64, prev_block_digest: Digest, tip: Option<(u64, Digest)>) -> (r: (
        ForkResolver,
        ForkStep,
    ))
        ensures
            r == spec_check_fork(height, prev_block_digest, tip),
    {
        match tip {
            Some((_, tip_digest)) => {
                if height != 0 && !prev_block_digest.same(&tip_digest) {
                    return (
                        ForkResolver {
                            phase: ForkPhase::Walking { below: height },
                            queried: prev_block_digest,
                            start: Ghost(prev_block_digest),
                            trail: Ghost(Seq::empty()),
                        },
                        ForkStep::Query(prev_block_digest),
                    );
                }
            },
            None => {},
        }
        (
            ForkResolver {
                phase: ForkPhase::Done,
                queried: prev_block_digest,
                start: Ghost(prev_block_digest),
                trail: Ghost(Seq::empty()),
            },
            ForkStep::Linear,
        )
    }

    /// Takes the remote node's answer to the last query (`None`: not found)
    /// and says what to do next. A canonical ancestor leads to a query for
    /// its parent, which is the fork point; a non-canonical one leads to a
    /// query for its own parent.
    pub fn on_block_info(&mut self, reply: Option<BlockInfo>) -> (r: ForkStep)
        ensures
            (*final(self), r) == spec_on_block_info(*old(self), reply),
    {
        match self.phase {
            ForkPhase::Done => ForkStep::Failed(ForkError::Finished),
            ForkPhase::Walking { below } => match reply {
                None => {
                    self.phase = ForkPhase::Done;
                    ForkStep::Failed(ForkError::NotFound)
                },
                Some(info) => {
                    if !info.digest.same(&self.queried) || info.height >= below {
                        self.phase = ForkPhase::Done;
                        ForkStep::Failed(ForkError::Inconsistent)
                    } else {
                        self.phase = if info.is_canonical {
                            ForkPhase::Confirming { below: info.height }
                        } else {
                            ForkPhase::Walking { below: info.height }
                        };
                        self.queried = info.prev_block_digest;
                        self.trail = Ghost(self.trail@.push(info));
                        ForkStep::Query(info.prev_block_digest)
                    }
                },
            },
            ForkPhase::Confirming { below } => match reply {
                None => {
                    self.phase = ForkPhase::Done;
                    ForkStep::Failed(ForkError::NotFound)
                },
                Some(info) => {
                    self.phase = ForkPhase::Done;
                    if !info.digest.same(&self.queried) || info.height >= below {
                        ForkStep::Failed(ForkError::Inconsistent)
                    } else {
                        self.trail = Ghost(self.trail@.push(info));
                        ForkStep::Resolved(info.height, info.digest)
                    }
                },
            },
        }
    }

    /// Whether resolution has ended.
    pub fn is_done(&self) -> (r: bool)
        ensures
            r == (self.phase is Done),
    {
        match self.phase {
            ForkPhase::Done => true,
            _ => false,
        }
    }
}

/// Resolution terminates: every answer either ends it or strictly lowers the
/// height bound, which starts at the new block's height.
pub proof fn lemma_fork_walk_terminates(r: ForkResolver, reply: Option<BlockInfo>)
    ensures
        ({
            let (next, step) = spec_on_block_info(r, reply);
            step is Query ==> 0 <= remaining(next) < remaining(r)
        }),
{
}

/// What holds of every resolver that `check_fork` and the answers produce.
pub open spec fn resolver_inv(r: ForkResolver) -> bool {
    &&& parent_chain(r.start@, r.trail@, r.queried)
    &&& r.phase is Confirming ==> r.trail@.len() > 0 && r.trail@.last().is_canonical
        && r.trail@.last().height == r.phase->Confirming_below
    &&& r.phase is Walking && r.trail@.len() > 0 ==> r.trail@.last().height == r.phase->Walking_below
}

/// Fork resolution starts at the new block's parent with an empty trail.
pub proof fn lemma_check_fork_starts_walk(height: u64, prev_block_digest: Digest, tip: Option<(u64, Digest)>)
    ensures
        resolver_inv(spec_check_fork(height, prev_block_digest, tip).0),
        spec_check_fork(height, prev_block_digest, tip).0.start@ == prev_block_digest,
{
}

/// The walk only ever follows parent links: from a state whose trail is a
/// parent chain from the new block's parent, every answer leaves a parent
/// chain again, whose last header the fork point is when one is returned,
/// and whose previous header is canonical.
pub proof fn lemma_fork_point_is_ancestor(r: ForkResolver, reply: Option<BlockInfo>)
    requires
        resolver_inv(r),
    ensures
        ({
            let (next, step) = spec_on_block_info(r, reply);
            &&& step is Query ==> resolver_inv(next) && next.start == r.start
            &&& step is Resolved ==> {
                let t = next.trail@;
                &&& t.len() >= 2
                &&& t[0].digest == r.start@
                &&& forall|i: int| 0 <= i < t.len() - 1 ==> #[trigger] t[i + 1].digest == t[i].prev_block_digest
                &&& t.last().digest == step->Resolved_1 && t.last().height == step->Resolved_0
                &&& t[t.len() - 2].is_canonical
            }
        }),
{
    let (next, step) = spec_on_block_info(r, reply);
    if step is Query || step is Resolved {
        let t = next.trail@;
        let info = reply->Some_0;
        assert(t == r.trail@.push(info));
        assert forall|i: int| 0 <= i < t.len() - 1 implies #[trigger] t[i + 1].digest == t[i].prev_block_digest
            && t[i + 1].height < t[i].height by {
            if i + 1 < r.trail@.len() {
                assert(t[i] == r.trail@[i] && t[i + 1] == r.trail@[i + 1]);
            } else {
                assert(t[i] == r.trail@[i]);
                assert(t[i + 1] == info);
            }
        }
    }
}

/// A fork point is the parent of a canonical ancestor reached through parent
/// links from the new block, and lies strictly below that ancestor and
/// hence below the new block.
pub proof fn lemma_fork_point_below(r: ForkResolver, reply: Option<BlockInfo>)
    ensures
        ({
            let (next, step) = spec_on_block_info(r, reply);
            step is Resolved ==> {
                &&& r.phase is Confirming
                &&& reply is Some
                &&& reply->Some_0.digest == r.queried
                &&& step->Resolved_0 == reply->Some_0.height
                &&& step->Resolved_1 == r.queried
                &&& (step->Resolved_0 as int) < r.phase->Confirming_below
                &&& next.phase is Done
            }
        }),
{
}

} // verus!
