//! Blocks as the engine reads them, their mutator set update, and the exact
//! order in which a block's additions and removals are replayed against the
//! accumulator.
use vstd::prelude::*;

use crate::digest::{BlockRef, Digest};

verus! {

/// An output payload as far as the engine reads it.
#[derive(Clone, Copy, PartialEq, Eq, Structural, Debug)]
pub struct UtxoInfo {
    /// Content hash of the output; the key under which the record is looked up.
    pub digest: Digest,
    /// Native currency amount, in the smallest unit.
    pub amount: u128,
    /// Time-lock release date (milliseconds), if the output is time-locked.
    pub release_date: Option<u64>,
    /// Hash of the lock script that guards the output.
    pub lock_script_hash: Digest,
}

/// A guesser-fee output of a block, with its addition record.
#[derive(Clone, Copy, PartialEq, Eq, Structural, Debug)]
pub struct GuesserFeeOutput {
    pub utxo: UtxoInfo,
    pub addition_record: Digest,
}

/// A block as the wallet engine consumes it.
#[derive(Clone, Debug)]
pub struct WalletBlock {
    pub height: u64,
    pub digest: Digest,
    pub prev_block_digest: Digest,
    pub timestamp: u64,
    /// Addition records of the block's transaction outputs, in order.
    pub outputs: Vec<Digest>,
    /// Absolute index sets of the block's removal records, in order.
    pub inputs: Vec<Vec<u128>>,
    /// Guesser-fee outputs, appended after `outputs` in the mutator set update.
    pub guesser_fee_outputs: Vec<GuesserFeeOutput>,
    /// Digest that designates the receiver of the guesser fee.
    pub guesser_receiver_digest: Digest,
    /// Accumulator hash that the block declares for the state after it.
    pub mutator_set_hash_after: Digest,
}

/// The change a block makes to the accumulator: commitments to append and
/// index sets to remove.
#[derive(Clone, Debug)]
pub struct MutatorSetUpdate {
    pub additions: Vec<Digest>,
    pub removals: Vec<Vec<u128>>,
}

pub open spec fn guesser_additions(g: Seq<GuesserFeeOutput>) -> Seq<Digest> {
    g.map_values(|o: GuesserFeeOutput| o.addition_record)
}

pub open spec fn index_sets_view(v: Seq<Vec<u128>>) -> Seq<Seq<u128>> {
    v.map_values(|s: Vec<u128>| s@)
}

impl WalletBlock {
    /// All addition records of the block: transaction outputs, then guesser fees.
    pub open spec fn spec_additions(&self) -> Seq<Digest> {
        self.outputs@ + guesser_additions(self.guesser_fee_outputs@)
    }

    pub open spec fn spec_block_ref(&self) -> BlockRef {
        BlockRef { height: self.height, digest: self.digest, timestamp: self.timestamp }
    }

    /// Where records confirmed or spent in this block point to.
    pub fn block_ref(&self) -> (r: BlockRef)
        ensures
            r == self.spec_block_ref(),
    {
        BlockRef { height: self.height, digest: self.digest, timestamp: self.timestamp }
    }

    /// The mutator set update of this block: the transaction's outputs
    /// followed by the guesser-fee addition records, and the transaction's
    /// removal records.
    pub fn mutator_set_update(&self) -> (r: MutatorSetUpdate)
        ensures
            r.additions@ == self.spec_additions(),
            index_sets_view(r.removals@) == index_sets_view(self.inputs@),
    {
        let mut additions: Vec<Digest> = Vec::new();
        let n = self.outputs.len();
        for i in 0..n
            invariant
                n == self.outputs@.len(),
                additions@ == self.outputs@.take(i as int),
        {
            additions.push(self.outputs[i]);
            assert(self.outputs@.take(i + 1) == self.outputs@.take(i as int).push(self.outputs@[i as int]));
        }
        assert(self.outputs@.take(n as int) == self.outputs@);
        let g = self.guesser_fee_outputs.len();
        for j in 0..g
            invariant
                g == self.guesser_fee_outputs@.len(),
                additions@ == self.outputs@ + guesser_additions(self.guesser_fee_outputs@.take(j as int)),
        {
            additions.push(self.guesser_fee_outputs[j].addition_record);
            assert(guesser_additions(self.guesser_fee_outputs@.take(j + 1)) == guesser_additions(
                self.guesser_fee_outputs@.take(j as int),
            ).push(self.guesser_fee_outputs@[j as int].addition_record));
        }
        assert(self.guesser_fee_outputs@.take(g as int) == self.guesser_fee_outputs@);
        let mut removals: Vec<Vec<u128>> = Vec::new();
        let m = self.inputs.len();
        for k in 0..m
            invariant
                m == self.inputs@.len(),
                index_sets_view(removals@) == index_sets_view(self.inputs@.take(k as int)),
        {
            let copy = copy_index_set(&self.inputs[k]);
            let ghost before = removals@;
            removals.push(copy);
            assert(index_sets_view(removals@) =~= index_sets_view(before).push(self.inputs@[k as int]@));
            assert(index_sets_view(self.inputs@.take(k + 1)) =~= index_sets_view(
                self.inputs@.take(k as int),
            ).push(self.inputs@[k as int]@));
        }
        assert(self.inputs@.take(m as int) == self.inputs@);
        MutatorSetUpdate { additions, removals }
    }
}

/// A fresh copy of an index set.
pub fn copy_index_set(v: &Vec<u128>) -> (r: Vec<u128>)
    ensures
        r@ == v@,
{
    let mut r: Vec<u128> = Vec::new();
    let n = v.len();
    for i in 0..n
        invariant
            n == v@.len(),
            r@ == v@.take(i as int),
    {
        r.push(v[i]);
        assert(v@.take(i + 1) == v@.take(i as int).push(v@[i as int]));
    }
    assert(v@.take(n as int) == v@);
    r
}

/// Whether two index sets are equal, element by element.
pub fn same_index_set(a: &Vec<u128>, b: &Vec<u128>) -> (r: bool)
    ensures
        r == (a@ == b@),
{
    if a.len() != b.len() {
        return false;
    }
    let n = a.len();
    for i in 0..n
        invariant
            n == a@.len(),
            n == b@.len(),
            forall|j: int| 0 <= j < i ==> a@[j] == b@[j],
    {
        if a[i] != b[i] {
            return false;
        }
    }
    assert(a@ =~= b@);
    true
}

/// One step of replaying a block against the accumulator.
#[derive(Clone, Copy, PartialEq, Eq, Structural, Debug)]
pub enum ReplayStep {
    /// Bring every removal record of the block up to date with the
    /// accumulator as it stands before addition `i` is appended.
    UpdateRemovalsForAddition(usize),
    /// Take the membership witness of the owned output behind addition `i`,
    /// from the accumulator as it stands right before that addition.
    RecordOwnedOutput(usize),
    /// Append addition `i` to the accumulator.
    Add(usize),
    /// Bring the removal records after `k` up to date with the removal of `k`.
    UpdateRemovalsForRemoval(usize),
    /// Remove removal record `k` from the accumulator.
    Remove(usize),
}

/// The steps for addition `i`: update pending removals, take the witness
/// where the addition is owned, then append.
pub open spec fn addition_steps(i: int, owned: bool) -> Seq<ReplayStep> {
    if owned {
        seq![
            ReplayStep::UpdateRemovalsForAddition(i as usize),
            ReplayStep::RecordOwnedOutput(i as usize),
            ReplayStep::Add(i as usize),
        ]
    } else {
        seq![ReplayStep::UpdateRemovalsForAddition(i as usize), ReplayStep::Add(i as usize)]
    }
}

/// The addition phase for the first `owned.len()` additions, in block order.
pub open spec fn addition_phase(owned: Seq<bool>) -> Seq<ReplayStep>
    decreases owned.len(),
{
    if owned.len() == 0 {
        seq![]
    } else {
        addition_phase(owned.drop_last()) + addition_steps(owned.len() - 1, owned.last())
    }
}

/// The removal phase for the first `m` removal records: each one first
/// updates the records still pending, then is removed.
pub open spec fn removal_phase(m: nat) -> Seq<ReplayStep>
    decreases m,
{
    if m == 0 {
        seq![]
    } else {
        removal_phase((m - 1) as nat) + seq![
            ReplayStep::UpdateRemovalsForRemoval((m - 1) as usize),
            ReplayStep::Remove((m - 1) as usize),
        ]
    }
}

/// The full replay of a block: all additions in order, then all removals in
/// order.
pub open spec fn spec_replay_plan(owned: Seq<bool>, m: nat) -> Seq<ReplayStep> {
    addition_phase(owned) + removal_phase(m)
}

/// The order in which a block is replayed against the accumulator. `owned[i]`
/// says whether addition `i` belongs to this wallet; `removals` is the number
/// of removal records.
pub fn replay_plan(owned: &Vec<bool>, removals: usize) -> (r: Vec<ReplayStep>)
    ensures
        r@ == spec_replay_plan(owned@, removals as nat),
{
    let mut plan: Vec<ReplayStep> = Vec::new();
    let n = owned.len();
    for i in 0..n
        invariant
            n == owned@.len(),
            plan@ == addition_phase(owned@.take(i as int)),
    {
        assert(owned@.take(i + 1).drop_last() == owned@.take(i as int));
        plan.push(ReplayStep::UpdateRemovalsForAddition(i));
        if owned[i] {
            plan.push(ReplayStep::RecordOwnedOutput(i));
        }
        plan.push(ReplayStep::Add(i));
    }
    assert(owned@.take(n as int) == owned@);
    let ghost adds = plan@;
    for k in 0..removals
        invariant
            adds == addition_phase(owned@),
            plan@ == adds + removal_phase(k as nat),
    {
        plan.push(ReplayStep::UpdateRemovalsForRemoval(k));
        plan.push(ReplayStep::Remove(k));
    }
    plan
}

/// How many appends a sequence of steps makes.
pub open spec fn appended(plan: Seq<ReplayStep>) -> int
    decreases plan.len(),
{
    if plan.len() == 0 {
        0
    } else {
        appended(plan.drop_last()) + if plan.last() is Add {
            1int
        } else {
            0int
        }
    }
}

pub proof fn lemma_addition_phase_appends(owned: Seq<bool>)
    ensures
        appended(addition_phase(owned)) == owned.len(),
    decreases owned.len(),
{
    if owned.len() > 0 {
        let a = addition_phase(owned.drop_last());
        lemma_addition_phase_appends(owned.drop_last());
        let n = owned.len() - 1;
        let u = a.push(ReplayStep::UpdateRemovalsForAddition(n as usize));
        assert(u.drop_last() =~= a);
        assert(appended(u) == appended(a));
        if owned.last() {
            let s = a + addition_steps(n, true);
            let r = u.push(ReplayStep::RecordOwnedOutput(n as usize));
            assert(r.drop_last() =~= u);
            assert(appended(r) == appended(u));
            assert(s =~= r.push(ReplayStep::Add(n as usize)));
            assert(s.drop_last() =~= r);
            assert(appended(s) == appended(r) + 1);
        } else {
            let s = a + addition_steps(n, false);
            assert(s =~= u.push(ReplayStep::Add(n as usize)));
            assert(s.drop_last() =~= u);
            assert(appended(s) == appended(u) + 1);
        }
    }
}

/// The witness of owned addition `i` is taken right after the pending
/// removals are brought up to date for it, and after exactly `i` appends:
/// when the accumulator holds `leaf0 + i` leaves, the position that the
/// record of that output stores.
pub proof fn lemma_witness_after_i_appends(owned: Seq<bool>, removals: nat, i: int)
    requires
        0 <= i < owned.len(),
        owned[i],
    ensures
        exists|p: int|
            1 <= p < spec_replay_plan(owned, removals).len() && #[trigger] spec_replay_plan(owned, removals)[p]
                == ReplayStep::RecordOwnedOutput(i as usize) && spec_replay_plan(owned, removals)[p - 1]
                == ReplayStep::UpdateRemovalsForAddition(i as usize) && appended(
                spec_replay_plan(owned, removals).take(p),
            ) == i,
    decreases owned.len(),
{
    let a = addition_phase(owned);
    let plan = spec_replay_plan(owned, removals);
    let p = lemma_witness_in_addition_phase(owned, i);
    assert(plan.take(p) =~= a.take(p));
    assert(plan[p] == a[p] && plan[p - 1] == a[p - 1]);
}

proof fn lemma_witness_in_addition_phase(owned: Seq<bool>, i: int) -> (p: int)
    requires
        0 <= i < owned.len(),
        owned[i],
    ensures
        1 <= p < addition_phase(owned).len(),
        addition_phase(owned)[p] == ReplayStep::RecordOwnedOutput(i as usize),
        addition_phase(owned)[p - 1] == ReplayStep::UpdateRemovalsForAddition(i as usize),
        appended(addition_phase(owned).take(p)) == i,
    decreases owned.len(),
{
    let d = owned.drop_last();
    let a = addition_phase(d);
    let n = owned.len() - 1;
    let whole = addition_phase(owned);
    assert(whole == a + addition_steps(n, owned.last()));
    if i < n {
        assert(d[i] == owned[i]);
        let q = lemma_witness_in_addition_phase(d, i);
        assert(whole.take(q) =~= a.take(q));
        assert(whole[q] == a[q] && whole[q - 1] == a[q - 1]);
        q
    } else {
        lemma_addition_phase_appends(d);
        let q = a.len() as int + 1;
        assert(whole.take(q) =~= a.push(ReplayStep::UpdateRemovalsForAddition(n as usize)));
        assert(whole.take(q).drop_last() =~= a);
        q
    }
}

} // verus!
