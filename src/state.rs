//! The wallet's persisted index of owned outputs and its tip pointer, and the
//! atomic application of one block to them.
use vstd::prelude::*;

use crate::block::{index_sets_view, same_index_set, UtxoInfo, WalletBlock};
use crate::digest::{BlockRef, Digest};
use crate::scan::{
    claim_guesser_fee, claims_guesser_fee, spec_incoming, sweep_window, window_mark, IncomingScan,
    IncomingUtxo, KeyMatch,
};

verus! {

/// What is needed to rebuild an owned output's membership proof.
#[derive(Clone, Copy, PartialEq, Eq, Structural, Debug)]
pub struct UtxoRecoveryData {
    pub utxo: UtxoInfo,
    pub sender_randomness: Digest,
    pub receiver_preimage: Digest,
    /// Position in the accumulator's append-only commitment list.
    pub aocl_index: u64,
}

/// A persisted owned-output record.
#[derive(Clone, Copy, PartialEq, Eq, Structural, Debug)]
pub struct UtxoDbData {
    pub id: i64,
    pub recovery_data: UtxoRecoveryData,
    pub confirmed_in_block: BlockRef,
    pub confirmed_txid: Option<Digest>,
    pub spent_in_block: Option<BlockRef>,
    pub spent_txid: Option<Digest>,
}

/// A hash-lock key: the preimage that unlocks it and the hash of its lock script.
#[derive(Clone, Copy, PartialEq, Eq, Structural, Debug)]
pub struct RawHashKey {
    pub preimage: Digest,
    pub lock_script_hash: Digest,
}

/// An output this wallet expects to see land, recorded when it sends.
#[derive(Clone, Copy, PartialEq, Eq, Structural, Debug)]
pub struct ExpectedUtxo {
    pub incoming: IncomingUtxo,
    /// Id of the transaction that produces the output.
    pub txid: Digest,
    /// When the expectation was recorded (milliseconds).
    pub created_at: u64,
}

/// The last block whose effects were applied.
#[derive(Clone, Copy, PartialEq, Eq, Structural, Debug)]
pub struct Tip {
    pub height: u64,
    pub digest: Digest,
    /// Accumulator hash after that block.
    pub mutator_set_hash: Digest,
}

/// Why a block was not applied. Nothing is changed in each case.
#[derive(Clone, Copy, PartialEq, Eq, Structural, Debug)]
pub enum SyncError {
    /// The block's parent is not the stored tip: the fork resolver runs first.
    NotLinear,
    /// The accumulator hash recomputed by the replay differs from the hash
    /// that the block declares.
    AccumulatorMismatch,
    /// The recomputed index sets do not line up with the stored records.
    IndexSetCount,
    /// A record id or an accumulator position would not fit its integer type.
    CounterOverflow,
}

/// The wallet's persisted state: owned outputs, tip pointer, raw hash-lock
/// keys, expected outputs and the key namespaces' high-water marks.
pub struct WalletState {
    pub records: Vec<UtxoDbData>,
    pub tip: Option<Tip>,
    pub raw_hash_keys: Vec<RawHashKey>,
    pub expected: Vec<ExpectedUtxo>,
    pub num_generation_spending_keys: u64,
    pub num_symmetric_keys: u64,
    /// Lookahead window of the key sweep.
    pub num_future_keys: u64,
    /// Key whose preimage designates this wallet as the receiver of a
    /// guesser fee.
    pub guesser_key: RawHashKey,
    /// Id for the next record to be created.
    pub next_id: i64,
    /// Height at which a fresh sync starts.
    pub scan_start_height: u64,
}

/// The mathematical value of a [`WalletState`].
pub struct WalletView {
    pub records: Seq<UtxoDbData>,
    pub tip: Option<Tip>,
    pub raw_hash_keys: Seq<RawHashKey>,
    pub expected: Seq<ExpectedUtxo>,
    pub num_generation_spending_keys: u64,
    pub num_symmetric_keys: u64,
    pub num_future_keys: u64,
    pub guesser_key: RawHashKey,
    pub next_id: i64,
    pub scan_start_height: u64,
}

impl View for WalletState {
    type V = WalletView;

    open spec fn view(&self) -> WalletView {
        WalletView {
            records: self.records@,
            tip: self.tip,
            raw_hash_keys: self.raw_hash_keys@,
            expected: self.expected@,
            num_generation_spending_keys: self.num_generation_spending_keys,
            num_symmetric_keys: self.num_symmetric_keys,
            num_future_keys: self.num_future_keys,
            guesser_key: self.guesser_key,
            next_id: self.next_id,
            scan_start_height: self.scan_start_height,
        }
    }
}

/// Record ids are positive, strictly increasing in storage order, and below
/// `next_id`.
pub open spec fn well_formed(s: WalletView) -> bool {
    &&& s.next_id >= 1
    &&& forall|k: int| 0 <= k < s.records.len() ==> 1 <= #[trigger] s.records[k].id < s.next_id
    &&& forall|j: int, k: int|
        0 <= j < k < s.records.len() ==> #[trigger] s.records[j].id < #[trigger] s.records[k].id
}

/// Last incoming output whose addition record is `a`.
pub open spec fn last_incoming(a: Digest, inc: Seq<IncomingUtxo>) -> Option<IncomingUtxo>
    decreases inc.len(),
{
    if inc.len() == 0 {
        None
    } else if inc.last().addition_record == a {
        Some(inc.last())
    } else {
        last_incoming(a, inc.drop_last())
    }
}

/// Last expected output whose addition record is `a`.
pub open spec fn last_expected(a: Digest, exp: Seq<ExpectedUtxo>) -> Option<ExpectedUtxo>
    decreases exp.len(),
{
    if exp.len() == 0 {
        None
    } else if exp.last().incoming.addition_record == a {
        Some(exp.last())
    } else {
        last_expected(a, exp.drop_last())
    }
}

/// The output behind addition record `a` and the id of the transaction that
/// this wallet expected to produce it, if the addition belongs to the wallet.
pub open spec fn owned_source(a: Digest, inc: Seq<IncomingUtxo>, exp: Seq<ExpectedUtxo>) -> Option<
    (IncomingUtxo, Option<Digest>),
> {
    let e = last_expected(a, exp);
    let txid = match e {
        Some(x) => Some(x.txid),
        None => None,
    };
    match last_incoming(a, inc) {
        Some(u) => Some((u, txid)),
        None => match e {
            Some(x) => Some((x.incoming, Some(x.txid))),
            None => None,
        },
    }
}

pub open spec fn new_record(id: int, u: IncomingUtxo, aocl_index: int, at: BlockRef, txid: Option<Digest>) -> UtxoDbData {
    UtxoDbData {
        id: id as i64,
        recovery_data: UtxoRecoveryData {
            utxo: u.utxo,
            sender_randomness: u.sender_randomness,
            receiver_preimage: u.receiver_preimage,
            aocl_index: aocl_index as u64,
        },
        confirmed_in_block: at,
        confirmed_txid: txid,
        spent_in_block: None,
        spent_txid: None,
    }
}

/// Records created for the owned additions among `adds`, in block order;
/// addition `i` sits at accumulator position `leaf0 + i`.
pub open spec fn created_records(
    adds: Seq<Digest>,
    inc: Seq<IncomingUtxo>,
    exp: Seq<ExpectedUtxo>,
    leaf0: int,
    first_id: int,
    at: BlockRef,
) -> Seq<UtxoDbData>
    decreases adds.len(),
{
    if adds.len() == 0 {
        seq![]
    } else {
        let prev = created_records(adds.drop_last(), inc, exp, leaf0, first_id, at);
        match owned_source(adds.last(), inc, exp) {
            Some((u, txid)) => prev.push(
                new_record(first_id + prev.len(), u, leaf0 + adds.len() - 1, at, txid),
            ),
            None => prev,
        }
    }
}

pub open spec fn set_in(removals: Seq<Seq<u128>>, s: Seq<u128>) -> bool {
    exists|j: int| 0 <= j < removals.len() && removals[j] == s
}

/// A record with its spent marker set, when it was unspent and its index set
/// is among the block's removals.
pub open spec fn mark_spent(r: UtxoDbData, set: Seq<u128>, removals: Seq<Seq<u128>>, at: BlockRef) -> UtxoDbData {
    if r.spent_in_block is None && set_in(removals, set) {
        UtxoDbData { spent_in_block: Some(at), ..r }
    } else {
        r
    }
}

pub open spec fn marked_records(
    recs: Seq<UtxoDbData>,
    sets: Seq<Seq<u128>>,
    removals: Seq<Seq<u128>>,
    at: BlockRef,
) -> Seq<UtxoDbData> {
    Seq::new(recs.len(), |k: int| mark_spent(recs[k], sets[k], removals, at))
}

/// Expected outputs whose addition record is not among `adds`, in order.
pub open spec fn remaining_expected(exp: Seq<ExpectedUtxo>, adds: Seq<Digest>) -> Seq<ExpectedUtxo>
    decreases exp.len(),
{
    if exp.len() == 0 {
        seq![]
    } else {
        let rest = remaining_expected(exp.drop_last(), adds);
        if adds.contains(exp.last().incoming.addition_record) {
            rest
        } else {
            rest.push(exp.last())
        }
    }
}

/// The raw hash-lock keys after a block: the guesser digest is added when
/// the block's guesser fee is claimed and the key is not known yet.
pub open spec fn keys_after(s: WalletView, b: WalletBlock) -> Seq<RawHashKey> {
    if claims_guesser_fee(b, s.guesser_key.preimage) && b.guesser_fee_outputs@.len() > 0
        && !s.raw_hash_keys.contains(s.guesser_key) {
        s.raw_hash_keys.push(s.guesser_key)
    } else {
        s.raw_hash_keys
    }
}

pub open spec fn generation_end(s: WalletView) -> int {
    s.num_generation_spending_keys + s.num_future_keys
}

pub open spec fn symmetric_end(s: WalletView) -> int {
    s.num_symmetric_keys + s.num_future_keys
}

/// Everything the block sends to this wallet, as scanned from the matches.
pub open spec fn incoming_of(s: WalletView, b: WalletBlock, generation: Seq<KeyMatch>, symmetric: Seq<KeyMatch>) -> Seq<
    IncomingUtxo,
> {
    spec_incoming(b, generation, generation_end(s), symmetric, symmetric_end(s), s.guesser_key.preimage)
}

/// Whether addition `a` belongs to the wallet.
pub open spec fn is_owned(s: WalletView, a: Digest, inc: Seq<IncomingUtxo>) -> bool {
    owned_source(a, inc, s.expected) is Some
}

/// The block is the one the tip already points to, with the same accumulator hash.
pub open spec fn already_applied(s: WalletView, b: WalletBlock) -> bool {
    match s.tip {
        Some(t) => t.height == b.height && t.digest == b.digest && t.mutator_set_hash
            == b.mutator_set_hash_after,
        None => false,
    }
}

/// The block extends the stored tip (or nothing is stored yet).
pub open spec fn extends_tip(s: WalletView, b: WalletBlock) -> bool {
    match s.tip {
        Some(t) => b.prev_block_digest == t.digest,
        None => true,
    }
}

/// The state after applying `b` whose checks all passed.
pub open spec fn applied_state(
    s: WalletView,
    leaf0: u64,
    b: WalletBlock,
    generation: Seq<KeyMatch>,
    symmetric: Seq<KeyMatch>,
    sets: Seq<Seq<u128>>,
) -> WalletView {
    let at = b.spec_block_ref();
    let inc = incoming_of(s, b, generation, symmetric);
    let created = created_records(b.spec_additions(), inc, s.expected, leaf0 as int, s.next_id as int, at);
    WalletView {
        records: marked_records(s.records, sets, index_sets_view(b.inputs@), at) + created,
        tip: Some(Tip { height: b.height, digest: b.digest, mutator_set_hash: b.mutator_set_hash_after }),
        raw_hash_keys: keys_after(s, b),
        expected: remaining_expected(s.expected, b.spec_additions()),
        num_generation_spending_keys: window_mark(generation, generation_end(s), s.num_generation_spending_keys),
        num_symmetric_keys: window_mark(symmetric, symmetric_end(s), s.num_symmetric_keys),
        next_id: (s.next_id + created.len()) as i64,
        ..s
    }
}

/// The outcome of applying block `b` to state `s`: `leaf0` is the number of
/// leaves of the accumulator before the block, `generation` and `symmetric`
/// the sweep's matches, `sets` the index set recomputed for each stored
/// record, and `recomputed` the accumulator hash that the replay produced.
pub open spec fn spec_update_new_tip(
    s: WalletView,
    leaf0: u64,
    b: WalletBlock,
    generation: Seq<KeyMatch>,
    symmetric: Seq<KeyMatch>,
    sets: Seq<Seq<u128>>,
    recomputed: Digest,
) -> Result<WalletView, SyncError> {
    if already_applied(s, b) {
        Ok(s)
    } else if !extends_tip(s, b) {
        Err(SyncError::NotLinear)
    } else if recomputed != b.mutator_set_hash_after {
        Err(SyncError::AccumulatorMismatch)
    } else if sets.len() != s.records.len() {
        Err(SyncError::IndexSetCount)
    } else if leaf0 + b.spec_additions().len() > u64::MAX || s.next_id + b.spec_additions().len()
        > i64::MAX {
        Err(SyncError::CounterOverflow)
    } else {
        Ok(applied_state(s, leaf0, b, generation, symmetric, sets))
    }
}

pub proof fn lemma_created_len(
    adds: Seq<Digest>,
    inc: Seq<IncomingUtxo>,
    exp: Seq<ExpectedUtxo>,
    leaf0: int,
    first_id: int,
    at: BlockRef,
)
    ensures
        created_records(adds, inc, exp, leaf0, first_id, at).len() <= adds.len(),
    decreases adds.len(),
{
    if adds.len() > 0 {
        lemma_created_len(adds.drop_last(), inc, exp, leaf0, first_id, at);
    }
}

/// Created records carry consecutive ids from `first_id`, and sit at
/// accumulator positions from `leaf0` on.
pub proof fn lemma_created_ids(
    adds: Seq<Digest>,
    inc: Seq<IncomingUtxo>,
    exp: Seq<ExpectedUtxo>,
    leaf0: int,
    first_id: int,
    at: BlockRef,
)
    requires
        1 <= first_id,
        first_id + adds.len() <= i64::MAX,
    ensures
        forall|t: int|
            0 <= t < created_records(adds, inc, exp, leaf0, first_id, at).len() ==> (
            #[trigger] created_records(adds, inc, exp, leaf0, first_id, at)[t]).id == first_id + t,
    decreases adds.len(),
{
    if adds.len() > 0 {
        lemma_created_ids(adds.drop_last(), inc, exp, leaf0, first_id, at);
        lemma_created_len(adds.drop_last(), inc, exp, leaf0, first_id, at);
    }
}

/// Whether `d` occurs in `v`.
pub fn contains_digest(v: &Vec<Digest>, d: &Digest) -> (r: bool)
    ensures
        r == v@.contains(*d),
{
    let n = v.len();
    for i in 0..n
        invariant
            n == v@.len(),
            forall|j: int| 0 <= j < i ==> v@[j] != *d,
    {
        if v[i].same(d) {
            assert(v@[i as int] == *d);
            return true;
        }
    }
    false
}

/// Whether `k` occurs in `v`.
pub fn contains_raw_key(v: &Vec<RawHashKey>, k: &RawHashKey) -> (r: bool)
    ensures
        r == v@.contains(*k),
{
    let n = v.len();
    for i in 0..n
        invariant
            n == v@.len(),
            forall|j: int| 0 <= j < i ==> v@[j] != *k,
    {
        if v[i].preimage.same(&k.preimage) && v[i].lock_script_hash.same(&k.lock_script_hash) {
            assert(v@[i as int] == *k);
            return true;
        }
    }
    false
}

/// Whether `set` is one of `removals`.
pub fn index_set_in(removals: &Vec<Vec<u128>>, set: &Vec<u128>) -> (r: bool)
    ensures
        r == set_in(index_sets_view(removals@), set@),
{
    let n = removals.len();
    for i in 0..n
        invariant
            n == removals@.len(),
            forall|j: int| 0 <= j < i ==> removals@[j]@ != set@,
    {
        if same_index_set(&removals[i], set) {
            assert(index_sets_view(removals@)[i as int] == set@);
            return true;
        }
    }
    assert forall|j: int| 0 <= j < index_sets_view(removals@).len() implies index_sets_view(removals@)[j] != set@ by {
        assert(removals@[j]@ != set@);
    }
    false
}

fn find_last_incoming(a: &Digest, inc: &Vec<IncomingUtxo>) -> (r: Option<IncomingUtxo>)
    ensures
        r == last_incoming(*a, inc@),
{
    let mut found: Option<IncomingUtxo> = None;
    let n = inc.len();
    for i in 0..n
        invariant
            n == inc@.len(),
            found == last_incoming(*a, inc@.take(i as int)),
    {
        assert(inc@.take(i + 1).drop_last() == inc@.take(i as int));
        if inc[i].addition_record.same(a) {
            found = Some(inc[i]);
        }
    }
    assert(inc@.take(n as int) == inc@);
    found
}

fn find_last_expected(a: &Digest, exp: &Vec<ExpectedUtxo>) -> (r: Option<ExpectedUtxo>)
    ensures
        r == last_expected(*a, exp@),
{
    let mut found: Option<ExpectedUtxo> = None;
    let n = exp.len();
    for i in 0..n
        invariant
            n == exp@.len(),
            found == last_expected(*a, exp@.take(i as int)),
    {
        assert(exp@.take(i + 1).drop_last() == exp@.take(i as int));
        if exp[i].incoming.addition_record.same(a) {
            found = Some(exp[i]);
        }
    }
    assert(exp@.take(n as int) == exp@);
    found
}

fn find_owned_source(a: &Digest, inc: &Vec<IncomingUtxo>, exp: &Vec<ExpectedUtxo>) -> (r: Option<
    (IncomingUtxo, Option<Digest>),
>)
    ensures
        r == owned_source(*a, inc@, exp@),
{
    let e = find_last_expected(a, exp);
    let txid = match e {
        Some(x) => Some(x.txid),
        None => None,
    };
    match find_last_incoming(a, inc) {
        Some(u) => Some((u, txid)),
        None => match e {
            Some(x) => Some((x.incoming, Some(x.txid))),
            None => None,
        },
    }
}

impl WalletState {
    /// A wallet with no records and no tip, whose sync starts at
    /// `scan_start_height` and whose key sweep looks `num_future_keys` past
    /// the keys in use.
    pub fn new(scan_start_height: u64, num_future_keys: u64, guesser_key: RawHashKey) -> (r: WalletState)
        ensures
            r@.records.len() == 0,
            r@.tip is None,
            r@.raw_hash_keys.len() == 0,
            r@.expected.len() == 0,
            r@.num_generation_spending_keys == 0,
            r@.num_symmetric_keys == 0,
            r@.num_future_keys == num_future_keys,
            r@.guesser_key == guesser_key,
            r@.next_id == 1,
            r@.scan_start_height == scan_start_height,
            well_formed(r@),
    {
        WalletState {
            records: Vec::new(),
            tip: None,
            raw_hash_keys: Vec::new(),
            expected: Vec::new(),
            num_generation_spending_keys: 0,
            num_symmetric_keys: 0,
            num_future_keys,
            guesser_key,
            next_id: 1,
            scan_start_height,
        }
    }

    /// Whether record ids are positive, strictly ascending and below `next_id`.
    pub fn is_well_formed(&self) -> (r: bool)
        ensures
            r == well_formed(self@),
    {
        if self.next_id < 1 {
            return false;
        }
        let n = self.records.len();
        for k in 0..n
            invariant
                n == self.records@.len(),
                self.next_id >= 1,
                forall|j: int| 0 <= j < k ==> 1 <= #[trigger] self.records@[j].id < self.next_id,
                forall|i: int, j: int| 0 <= i < j < k ==> #[trigger] self.records@[i].id < #[trigger] self.records@[j].id,
        {
            let id = self.records[k].id;
            if id < 1 || id >= self.next_id {
                return false;
            }
            if k > 0 && self.records[k - 1].id >= id {
                return false;
            }
        }
        true
    }

    /// The height of the next block to apply: one past the tip, or the
    /// configured start height for a fresh wallet.
    pub fn start_height(&self) -> (r: u64)
        ensures
            r == match self.tip {
                Some(t) => if t.height < u64::MAX { (t.height + 1) as u64 } else { u64::MAX },
                None => self.scan_start_height,
            },
    {
        match self.tip {
            Some(t) => t.height.saturating_add(1),
            None => self.scan_start_height,
        }
    }

    /// The tip pointer, as (height, digest).
    pub fn get_tip(&self) -> (r: Option<(u64, Digest)>)
        ensures
            r == match self.tip {
                Some(t) => Some((t.height, t.digest)),
                None => None::<(u64, Digest)>,
            },
    {
        match self.tip {
            Some(t) => Some((t.height, t.digest)),
            None => None,
        }
    }

    /// Outputs that `block` sends to this wallet, from the matches that the
    /// sweep found for each key namespace, and the high-water marks that the
    /// matches inside the sweep window raise.
    pub fn scan_for_incoming_utxo(
        &self,
        block: &WalletBlock,
        generation: &Vec<KeyMatch>,
        symmetric: &Vec<KeyMatch>,
    ) -> (r: IncomingScan)
        ensures
            r.utxos@ == incoming_of(self@, *block, generation@, symmetric@),
            r.num_generation_spending_keys == window_mark(
                generation@,
                generation_end(self@),
                self.num_generation_spending_keys,
            ),
            r.num_symmetric_keys == window_mark(symmetric@, symmetric_end(self@), self.num_symmetric_keys),
    {
        let mut utxos: Vec<IncomingUtxo> = Vec::new();
        let g_end = self.num_generation_spending_keys as u128 + self.num_future_keys as u128;
        let num_generation_spending_keys = sweep_window(generation, g_end, self.num_generation_spending_keys, &mut utxos);
        let s_end = self.num_symmetric_keys as u128 + self.num_future_keys as u128;
        let num_symmetric_keys = sweep_window(symmetric, s_end, self.num_symmetric_keys, &mut utxos);
        if self.guesser_key.preimage.same(&block.guesser_receiver_digest) {
            claim_guesser_fee(block, self.guesser_key.preimage, &mut utxos);
        }
        proof {
            assert(utxos@ =~= incoming_of(self@, *block, generation@, symmetric@));
        }
        IncomingScan { utxos, num_generation_spending_keys, num_symmetric_keys }
    }

    /// For each addition record of `block`, whether it belongs to this
    /// wallet, given the block's incoming outputs: the flags that the replay
    /// plan takes.
    pub fn owned_additions(&self, block: &WalletBlock, incoming: &Vec<IncomingUtxo>) -> (r: Vec<bool>)
        ensures
            r@.len() == block.spec_additions().len(),
            forall|i: int|
                0 <= i < r@.len() ==> r@[i] == is_owned(self@, block.spec_additions()[i], incoming@),
    {
        let update = block.mutator_set_update();
        let n = update.additions.len();
        let mut flags: Vec<bool> = Vec::new();
        for i in 0..n
            invariant
                n == update.additions@.len(),
                update.additions@ == block.spec_additions(),
                flags@.len() == i,
                forall|j: int|
                    0 <= j < i ==> flags@[j] == is_owned(self@, block.spec_additions()[j], incoming@),
        {
            let src = find_owned_source(&update.additions[i], incoming, &self.expected);
            flags.push(src.is_some());
        }
        flags
    }
}


/// Outputs this wallet expected, paired with their transaction ids, for the
/// additions of `adds` that match, in block order.
pub open spec fn expected_matches(adds: Seq<Digest>, exp: Seq<ExpectedUtxo>) -> Seq<(IncomingUtxo, Digest)>
    decreases adds.len(),
{
    if adds.len() == 0 {
        seq![]
    } else {
        let rest = expected_matches(adds.drop_last(), exp);
        match last_expected(adds.last(), exp) {
            Some(e) => rest.push((e.incoming, e.txid)),
            None => rest,
        }
    }
}

/// Ids of the unspent records whose index set is among the removals.
pub open spec fn spent_ids(recs: Seq<UtxoDbData>, sets: Seq<Seq<u128>>, removals: Seq<Seq<u128>>) -> Seq<i64>
    decreases recs.len(),
{
    if recs.len() == 0 {
        seq![]
    } else {
        let k = recs.len() - 1;
        let rest = spent_ids(recs.drop_last(), sets, removals);
        if recs[k].spent_in_block is None && set_in(removals, sets[k]) {
            rest.push(recs[k].id)
        } else {
            rest
        }
    }
}

impl WalletState {
    /// The expected outputs that `block` brings in, with the ids of the
    /// transactions that produced them, in the order of the block's additions.
    pub fn scan_for_expected_utxos(&self, block: &WalletBlock) -> (r: Vec<(IncomingUtxo, Digest)>)
        ensures
            r@ == expected_matches(block.spec_additions(), self.expected@),
    {
        let update = block.mutator_set_update();
        let adds = update.additions;
        let n = adds.len();
        let mut out: Vec<(IncomingUtxo, Digest)> = Vec::new();
        for i in 0..n
            invariant
                n == adds@.len(),
                adds@ == block.spec_additions(),
                out@ == expected_matches(adds@.take(i as int), self.expected@),
        {
            assert(adds@.take(i + 1).drop_last() == adds@.take(i as int));
            match find_last_expected(&adds[i], &self.expected) {
                Some(e) => out.push((e.incoming, e.txid)),
                None => {},
            }
        }
        assert(adds@.take(n as int) == adds@);
        out
    }

    /// Ids of the unspent records that `block` spends. `index_sets[k]` is the
    /// absolute index set recomputed for record `k`; a record is spent when
    /// its set is one of the block's removal records.
    pub fn scan_for_spent_utxos(&self, block: &WalletBlock, index_sets: &Vec<Vec<u128>>) -> (r: Vec<i64>)
        requires
            index_sets@.len() == self.records@.len(),
        ensures
            r@ == spent_ids(self.records@, index_sets_view(index_sets@), index_sets_view(block.inputs@)),
    {
        let n = self.records.len();
        let mut out: Vec<i64> = Vec::new();
        for k in 0..n
            invariant
                n == self.records@.len(),
                index_sets@.len() == n,
                out@ == spent_ids(
                    self.records@.take(k as int),
                    index_sets_view(index_sets@),
                    index_sets_view(block.inputs@),
                ),
        {
            let r = self.records[k];
            assert(self.records@.take(k + 1).drop_last() == self.records@.take(k as int));
            assert(index_sets_view(index_sets@)[k as int] == index_sets@[k as int]@);
            if r.spent_in_block.is_none() && index_set_in(&block.inputs, &index_sets[k]) {
                out.push(r.id);
            }
        }
        assert(self.records@.take(n as int) == self.records@);
        out
    }

    /// Applies `block` to the wallet in one step: records for the owned
    /// additions (at accumulator position `leaf0 + i` for addition `i`),
    /// spent markers for the records whose recomputed index set
    /// (`index_sets[k]` for record `k`) the block removes, the guesser-fee
    /// key, consumed expected outputs, raised high-water marks and the new
    /// tip. `recomputed` is the accumulator hash that replaying the block
    /// produced. On any error nothing changes.
    pub fn update_new_tip(
        &mut self,
        leaf0: u64,
        block: &WalletBlock,
        generation: &Vec<KeyMatch>,
        symmetric: &Vec<KeyMatch>,
        index_sets: &Vec<Vec<u128>>,
        recomputed: Digest,
    ) -> (r: Result<(), SyncError>)
        requires
            well_formed(old(self)@),
        ensures
            match spec_update_new_tip(
                old(self)@,
                leaf0,
                *block,
                generation@,
                symmetric@,
                index_sets_view(index_sets@),
                recomputed,
            ) {
                Ok(v) => r is Ok && final(self)@ == v,
                Err(e) => r == Err::<(), SyncError>(e) && final(self)@ == old(self)@,
            },
            well_formed(final(self)@),
    {
        if let Some(t) = self.tip {
            if t.height == block.height && t.digest.same(&block.digest) && t.mutator_set_hash.same(
                &block.mutator_set_hash_after,
            ) {
                return Ok(());
            }
            if !block.prev_block_digest.same(&t.digest) {
                return Err(SyncError::NotLinear);
            }
        }
        if !recomputed.same(&block.mutator_set_hash_after) {
            return Err(SyncError::AccumulatorMismatch);
        }
        if index_sets.len() != self.records.len() {
            return Err(SyncError::IndexSetCount);
        }
        let update = block.mutator_set_update();
        let adds = update.additions;
        let n_add = adds.len();
        if leaf0 as u128 + n_add as u128 > u64::MAX as u128 || self.next_id as i128 + n_add as i128
            > i64::MAX as i128 {
            return Err(SyncError::CounterOverflow);
        }
        let ghost s0 = self@;
        let ghost sets = index_sets_view(index_sets@);
        let ghost removals = index_sets_view(block.inputs@);
        let at = block.block_ref();
        let scan = self.scan_for_incoming_utxo(block, generation, symmetric);
        let ghost inc = scan.utxos@;

        let n = self.records.len();
        let mut records: Vec<UtxoDbData> = Vec::new();
        for k in 0..n
            invariant
                n == self.records@.len(),
                index_sets@.len() == n,
                sets == index_sets_view(index_sets@),
                removals == index_sets_view(block.inputs@),
                records@ == marked_records(self.records@, sets, removals, at).take(k as int),
        {
            let r = self.records[k];
            assert(sets[k as int] == index_sets@[k as int]@);
            if r.spent_in_block.is_none() && index_set_in(&block.inputs, &index_sets[k]) {
                records.push(UtxoDbData { spent_in_block: Some(at), ..r });
            } else {
                records.push(r);
            }
            assert(records@ =~= marked_records(self.records@, sets, removals, at).take(k + 1));
        }
        let ghost marked = records@;
        assert(marked =~= marked_records(self.records@, sets, removals, at));

        let first_id = self.next_id;
        let mut made: i64 = 0;
        for i in 0..n_add
            invariant
                n_add == adds@.len(),
                adds@ == block.spec_additions(),
                inc == scan.utxos@,
                1 <= first_id,
                first_id as int + n_add as int <= i64::MAX,
                leaf0 as int + n_add as int <= u64::MAX,
                records@ == marked + created_records(adds@.take(i as int), inc, self.expected@, leaf0 as int, first_id as int, at),
                made as int == created_records(adds@.take(i as int), inc, self.expected@, leaf0 as int, first_id as int, at).len(),
                made <= i,
        {
            proof {
                lemma_created_len(adds@.take(i as int), inc, self.expected@, leaf0 as int, first_id as int, at);
            }
            assert(adds@.take(i + 1).drop_last() == adds@.take(i as int));
            match find_owned_source(&adds[i], &scan.utxos, &self.expected) {
                Some((u, txid)) => {
                    let rec = UtxoDbData {
                        id: first_id + made,
                        recovery_data: UtxoRecoveryData {
                            utxo: u.utxo,
                            sender_randomness: u.sender_randomness,
                            receiver_preimage: u.receiver_preimage,
                            aocl_index: leaf0 + i as u64,
                        },
                        confirmed_in_block: at,
                        confirmed_txid: txid,
                        spent_in_block: None,
                        spent_txid: None,
                    };
                    records.push(rec);
                    made = made + 1;
                },
                None => {},
            }
            assert(records@ =~= marked + created_records(adds@.take(i + 1), inc, self.expected@, leaf0 as int, first_id as int, at));
        }
        assert(adds@.take(n_add as int) == adds@);
        let ghost created = created_records(adds@, inc, self.expected@, leaf0 as int, first_id as int, at);

        let claimed = self.guesser_key.preimage.same(&block.guesser_receiver_digest)
            && block.guesser_fee_outputs.len() > 0;
        if claimed && !contains_raw_key(&self.raw_hash_keys, &self.guesser_key) {
            self.raw_hash_keys.push(self.guesser_key);
        }

        let mut expected: Vec<ExpectedUtxo> = Vec::new();
        let m = self.expected.len();
        for j in 0..m
            invariant
                m == self.expected@.len(),
                adds@ == block.spec_additions(),
                expected@ == remaining_expected(self.expected@.take(j as int), adds@),
        {
            let e = self.expected[j];
            assert(self.expected@.take(j + 1).drop_last() == self.expected@.take(j as int));
            if !contains_digest(&adds, &e.incoming.addition_record) {
                expected.push(e);
            }
        }
        assert(self.expected@.take(m as int) == self.expected@);

        proof {
            lemma_created_ids(adds@, inc, s0.expected, leaf0 as int, first_id as int, at);
            lemma_created_len(adds@, inc, s0.expected, leaf0 as int, first_id as int, at);
        }
        self.records = records;
        self.expected = expected;
        self.next_id = first_id + made;
        self.num_generation_spending_keys = scan.num_generation_spending_keys;
        self.num_symmetric_keys = scan.num_symmetric_keys;
        self.tip = Some(
            Tip { height: block.height, digest: block.digest, mutator_set_hash: block.mutator_set_hash_after },
        );
        proof {
            let v = applied_state(s0, leaf0, *block, generation@, symmetric@, sets);
            assert(self@.records =~= v.records);
            assert(self@.raw_hash_keys =~= v.raw_hash_keys);
            assert(self@ == v);
            let recs = self@.records;
            assert forall|k: int| 0 <= k < recs.len() implies 1 <= #[trigger] recs[k].id < self@.next_id by {
                if k >= marked.len() {
                    assert(recs[k] == created[k - marked.len()]);
                } else {
                    assert(recs[k].id == s0.records[k].id);
                }
            }
            assert forall|j: int, k: int| 0 <= j < k < recs.len() implies #[trigger] recs[j].id < #[trigger] recs[k].id by {
                if j >= marked.len() {
                    assert(recs[j] == created[j - marked.len()]);
                    assert(recs[k] == created[k - marked.len()]);
                } else if k >= marked.len() {
                    assert(recs[j].id == s0.records[j].id);
                    assert(recs[k] == created[k - marked.len()]);
                } else {
                    assert(recs[j].id == s0.records[j].id);
                    assert(recs[k].id == s0.records[k].id);
                }
            }
        }
        Ok(())
    }
}

/// One block application, with everything that `update_new_tip` takes.
pub struct SyncStep {
    pub leaf0: u64,
    pub block: WalletBlock,
    pub generation: Seq<KeyMatch>,
    pub symmetric: Seq<KeyMatch>,
    pub index_sets: Seq<Seq<u128>>,
    pub recomputed: Digest,
}

/// Applies the steps in order, stopping at the first error.
pub open spec fn apply_all(s: WalletView, steps: Seq<SyncStep>) -> Result<WalletView, SyncError>
    decreases steps.len(),
{
    if steps.len() == 0 {
        Ok(s)
    } else {
        match apply_all(s, steps.drop_last()) {
            Ok(s1) => {
                let st = steps.last();
                spec_update_new_tip(s1, st.leaf0, st.block, st.generation, st.symmetric, st.index_sets, st.recomputed)
            },
            Err(e) => Err(e),
        }
    }
}

/// After any sequence of blocks applied in order, the stored accumulator
/// hash is the one that the last applied block declares, and the tip is
/// that block.
pub proof fn lemma_tip_tracks_last_block(s: WalletView, steps: Seq<SyncStep>)
    requires
        steps.len() > 0,
        apply_all(s, steps) is Ok,
    ensures
        ({
            let v = apply_all(s, steps)->Ok_0;
            let b = steps.last().block;
            v.tip == Some(Tip { height: b.height, digest: b.digest, mutator_set_hash: b.mutator_set_hash_after })
        }),
{
}

/// Applying a block a second time, whatever the scan inputs, leaves the
/// state that the first application produced.
pub proof fn lemma_reapply_is_identity(
    s: WalletView,
    leaf0: u64,
    b: WalletBlock,
    generation: Seq<KeyMatch>,
    symmetric: Seq<KeyMatch>,
    sets: Seq<Seq<u128>>,
    recomputed: Digest,
    leaf0_again: u64,
    generation_again: Seq<KeyMatch>,
    symmetric_again: Seq<KeyMatch>,
    sets_again: Seq<Seq<u128>>,
    recomputed_again: Digest,
)
    requires
        spec_update_new_tip(s, leaf0, b, generation, symmetric, sets, recomputed) is Ok,
    ensures
        ({
            let s1 = spec_update_new_tip(s, leaf0, b, generation, symmetric, sets, recomputed)->Ok_0;
            spec_update_new_tip(s1, leaf0_again, b, generation_again, symmetric_again, sets_again, recomputed_again)
                == Ok::<WalletView, SyncError>(s1)
        }),
{
}

/// Applying a block never alters a stored record's id or recovery data, the
/// inputs from which its absolute index set is recomputed.
pub proof fn lemma_update_keeps_recovery_data(
    s: WalletView,
    leaf0: u64,
    b: WalletBlock,
    generation: Seq<KeyMatch>,
    symmetric: Seq<KeyMatch>,
    sets: Seq<Seq<u128>>,
    recomputed: Digest,
)
    requires
        spec_update_new_tip(s, leaf0, b, generation, symmetric, sets, recomputed) is Ok,
    ensures
        ({
            let v = spec_update_new_tip(s, leaf0, b, generation, symmetric, sets, recomputed)->Ok_0;
            &&& v.records.len() >= s.records.len()
            &&& forall|k: int|
                0 <= k < s.records.len() ==> (#[trigger] v.records[k]).recovery_data
                    == s.records[k].recovery_data && v.records[k].id == s.records[k].id
                    && v.records[k].confirmed_in_block == s.records[k].confirmed_in_block
        }),
{
    let v = spec_update_new_tip(s, leaf0, b, generation, symmetric, sets, recomputed)->Ok_0;
    if !already_applied(s, b) {
        let at = b.spec_block_ref();
        let m = marked_records(s.records, sets, index_sets_view(b.inputs@), at);
        assert forall|k: int| 0 <= k < s.records.len() implies (#[trigger] v.records[k]).recovery_data
            == s.records[k].recovery_data && v.records[k].id == s.records[k].id
            && v.records[k].confirmed_in_block == s.records[k].confirmed_in_block by {
            assert(v.records[k] == m[k]);
        }
    }
}

/// The key sweep window never shrinks: applying a block or rewinding
/// leaves each high-water mark at least where it was.
pub proof fn lemma_marks_never_shrink(
    s: WalletView,
    leaf0: u64,
    b: WalletBlock,
    generation: Seq<KeyMatch>,
    symmetric: Seq<KeyMatch>,
    sets: Seq<Seq<u128>>,
    recomputed: Digest,
    height: u64,
    digest: Digest,
    mutator_set_hash: Digest,
)
    ensures
        spec_update_new_tip(s, leaf0, b, generation, symmetric, sets, recomputed) matches Ok(v) ==> v.num_generation_spending_keys
            >= s.num_generation_spending_keys && v.num_symmetric_keys >= s.num_symmetric_keys
            && v.num_future_keys == s.num_future_keys,
        spec_reorganize(s, height, digest, mutator_set_hash).num_generation_spending_keys == s.num_generation_spending_keys,
        spec_reorganize(s, height, digest, mutator_set_hash).num_symmetric_keys == s.num_symmetric_keys,
{
    crate::scan::lemma_window_mark_monotone(generation, generation_end(s), s.num_generation_spending_keys);
    crate::scan::lemma_window_mark_monotone(symmetric, symmetric_end(s), s.num_symmetric_keys);
}

/// A block in which no key finds an announcement inside its sweep window
/// leaves both high-water marks where they were.
pub proof fn lemma_no_matches_keep_marks(
    s: WalletView,
    leaf0: u64,
    b: WalletBlock,
    generation: Seq<KeyMatch>,
    symmetric: Seq<KeyMatch>,
    sets: Seq<Seq<u128>>,
    recomputed: Digest,
)
    requires
        forall|i: int| 0 <= i < generation.len() ==> !crate::scan::in_window(#[trigger] generation[i], generation_end(s)),
        forall|i: int| 0 <= i < symmetric.len() ==> !crate::scan::in_window(#[trigger] symmetric[i], symmetric_end(s)),
        spec_update_new_tip(s, leaf0, b, generation, symmetric, sets, recomputed) is Ok,
    ensures
        ({
            let v = spec_update_new_tip(s, leaf0, b, generation, symmetric, sets, recomputed)->Ok_0;
            v.num_generation_spending_keys == s.num_generation_spending_keys
                && v.num_symmetric_keys == s.num_symmetric_keys
        }),
{
    crate::scan::lemma_window_mark_without_matches(generation, generation_end(s), s.num_generation_spending_keys);
    crate::scan::lemma_window_mark_without_matches(symmetric, symmetric_end(s), s.num_symmetric_keys);
}

/// A kept record loses a spent marker set above `height`.
pub open spec fn unspend_above(r: UtxoDbData, height: u64) -> UtxoDbData {
    match r.spent_in_block {
        Some(at) => if at.height > height {
            UtxoDbData { spent_in_block: None, spent_txid: None, ..r }
        } else {
            r
        },
        None => r,
    }
}

/// Records confirmed at or below `height`, in order, with spent markers
/// above `height` cleared.
pub open spec fn rewound_records(recs: Seq<UtxoDbData>, height: u64) -> Seq<UtxoDbData>
    decreases recs.len(),
{
    if recs.len() == 0 {
        seq![]
    } else {
        let rest = rewound_records(recs.drop_last(), height);
        if recs.last().confirmed_in_block.height > height {
            rest
        } else {
            rest.push(unspend_above(recs.last(), height))
        }
    }
}

/// The state after rewinding to the fork point (`height`, `digest`), whose
/// accumulator hash is `mutator_set_hash`.
pub open spec fn spec_reorganize(s: WalletView, height: u64, digest: Digest, mutator_set_hash: Digest) -> WalletView {
    WalletView {
        records: rewound_records(s.records, height),
        tip: Some(Tip { height, digest, mutator_set_hash }),
        ..s
    }
}

/// Every rewound record is a stored record, up to its spent marker.
pub proof fn lemma_rewound_from(recs: Seq<UtxoDbData>, height: u64)
    ensures
        forall|t: int|
            0 <= t < rewound_records(recs, height).len() ==> exists|k: int|
                0 <= k < recs.len() && (#[trigger] rewound_records(recs, height)[t]).id == recs[k].id
                    && rewound_records(recs, height)[t] == unspend_above(recs[k], height),
        rewound_records(recs, height).len() <= recs.len(),
    decreases recs.len(),
{
    if recs.len() > 0 {
        let d = recs.drop_last();
        lemma_rewound_from(d, height);
        let rw = rewound_records(recs, height);
        assert forall|t: int| 0 <= t < rw.len() implies exists|k: int|
            0 <= k < recs.len() && (#[trigger] rw[t]).id == recs[k].id && rw[t] == unspend_above(recs[k], height) by {
            if t < rewound_records(d, height).len() {
                let k = choose|k: int|
                    0 <= k < d.len() && rewound_records(d, height)[t].id == d[k].id
                        && rewound_records(d, height)[t] == unspend_above(d[k], height);
                assert(recs[k] == d[k]);
            } else {
                assert(rw[t] == unspend_above(recs[recs.len() - 1], height));
            }
        }
    }
}

/// Rewinding keeps ids ascending and below `next_id`.
pub proof fn lemma_rewound_ids(recs: Seq<UtxoDbData>, height: u64, next_id: i64)
    requires
        forall|k: int| 0 <= k < recs.len() ==> 1 <= #[trigger] recs[k].id < next_id,
        forall|j: int, k: int| 0 <= j < k < recs.len() ==> #[trigger] recs[j].id < #[trigger] recs[k].id,
    ensures
        forall|k: int|
            0 <= k < rewound_records(recs, height).len() ==> 1 <= #[trigger] rewound_records(recs, height)[k].id
                < next_id,
        forall|j: int, k: int|
            0 <= j < k < rewound_records(recs, height).len() ==> #[trigger] rewound_records(recs, height)[j].id
                < #[trigger] rewound_records(recs, height)[k].id,
    decreases recs.len(),
{
    lemma_rewound_from(recs, height);
    if recs.len() > 0 {
        let d = recs.drop_last();
        assert forall|k: int| 0 <= k < d.len() implies 1 <= #[trigger] d[k].id < next_id by {
            assert(d[k] == recs[k]);
        }
        assert forall|j: int, k: int| 0 <= j < k < d.len() implies #[trigger] d[j].id < #[trigger] d[k].id by {
            assert(d[j] == recs[j]);
            assert(d[k] == recs[k]);
        }
        lemma_rewound_ids(d, height, next_id);
        lemma_rewound_from(d, height);
        let rw = rewound_records(recs, height);
        let rd = rewound_records(d, height);
        assert forall|j: int, k: int| 0 <= j < k < rw.len() implies #[trigger] rw[j].id < #[trigger] rw[k].id by {
            if k >= rd.len() {
                assert(rw[j] == rd[j]);
                let i = choose|i: int| 0 <= i < d.len() && rd[j].id == d[i].id && rd[j] == unspend_above(d[i], height);
                assert(d[i] == recs[i]);
            } else {
                assert(rw[j] == rd[j]);
                assert(rw[k] == rd[k]);
            }
        }
    }
}

/// After a rewind, no record is confirmed, nor marked spent, above the
/// fork point, and the tip is the fork point.
pub proof fn lemma_rewind_leaves_nothing_above(s: WalletView, height: u64, digest: Digest, mutator_set_hash: Digest)
    ensures
        ({
            let v = spec_reorganize(s, height, digest, mutator_set_hash);
            &&& forall|k: int| 0 <= k < v.records.len() ==> (#[trigger] v.records[k]).confirmed_in_block.height <= height
            &&& forall|k: int|
                0 <= k < v.records.len() ==> match (#[trigger] v.records[k]).spent_in_block {
                    Some(at) => at.height <= height,
                    None => true,
                }
            &&& v.tip == Some(Tip { height, digest, mutator_set_hash })
        }),
    decreases s.records.len(),
{
    if s.records.len() > 0 {
        lemma_rewind_leaves_nothing_above(WalletView { records: s.records.drop_last(), ..s }, height, digest, mutator_set_hash);
    }
}

/// Rewinding never alters a kept record's id, recovery data or
/// confirmation, the inputs from which its absolute index set is recomputed.
pub proof fn lemma_rewind_keeps_recovery_data(s: WalletView, height: u64, digest: Digest, mutator_set_hash: Digest)
    ensures
        forall|t: int|
            0 <= t < spec_reorganize(s, height, digest, mutator_set_hash).records.len() ==> exists|k: int|
                0 <= k < s.records.len() && (#[trigger] spec_reorganize(s, height, digest, mutator_set_hash).records[t]).id
                    == s.records[k].id && spec_reorganize(s, height, digest, mutator_set_hash).records[t].recovery_data
                    == s.records[k].recovery_data && spec_reorganize(s, height, digest, mutator_set_hash).records[t].confirmed_in_block
                    == s.records[k].confirmed_in_block,
{
    lemma_rewound_from(s.records, height);
}

impl WalletState {
    /// Rewinds the wallet to the fork point (`height`, `digest`), whose
    /// accumulator hash is `mutator_set_hash`: records confirmed above it are
    /// removed, spent markers set above it are cleared, and the tip becomes
    /// the fork point. High-water marks, raw hash keys and expected outputs
    /// stay.
    pub fn reorganize_to_height(&mut self, height: u64, digest: Digest, mutator_set_hash: Digest)
        requires
            well_formed(old(self)@),
        ensures
            final(self)@ == spec_reorganize(old(self)@, height, digest, mutator_set_hash),
            well_formed(final(self)@),
    {
        let n = self.records.len();
        let mut kept: Vec<UtxoDbData> = Vec::new();
        for k in 0..n
            invariant
                n == self.records@.len(),
                kept@ == rewound_records(self.records@.take(k as int), height),
        {
            let r = self.records[k];
            assert(self.records@.take(k + 1).drop_last() == self.records@.take(k as int));
            if r.confirmed_in_block.height <= height {
                let cleared = match r.spent_in_block {
                    Some(at) => if at.height > height {
                        UtxoDbData { spent_in_block: None, spent_txid: None, ..r }
                    } else {
                        r
                    },
                    None => r,
                };
                kept.push(cleared);
            }
        }
        assert(self.records@.take(n as int) == self.records@);
        proof {
            lemma_rewound_ids(self.records@, height, self.next_id);
        }
        self.records = kept;
        self.tip = Some(Tip { height, digest, mutator_set_hash });
    }
}

/// The first record whose output has content hash `d`.
pub open spec fn record_with_digest(recs: Seq<UtxoDbData>, d: Digest) -> Option<UtxoDbData>
    decreases recs.len(),
{
    if recs.len() == 0 {
        None
    } else if recs[0].recovery_data.utxo.digest == d {
        Some(recs[0])
    } else {
        record_with_digest(recs.drop_first(), d)
    }
}

impl WalletState {
    /// The recovery data of the first record whose output has content hash
    /// `digest`, if any.
    pub fn get_recovery_data_from_utxo(&self, digest: &Digest) -> (r: Option<UtxoRecoveryData>)
        ensures
            r == match record_with_digest(self.records@, *digest) {
                Some(rec) => Some(rec.recovery_data),
                None => None::<UtxoRecoveryData>,
            },
    {
        let n = self.records.len();
        let mut i: usize = 0;
        assert(self.records@.skip(0) =~= self.records@);
        while i < n
            invariant
                n == self.records@.len(),
                i <= n,
                record_with_digest(self.records@, *digest) == record_with_digest(self.records@.skip(i as int), *digest),
            decreases n - i,
        {
            assert(self.records@.skip(i as int)[0] == self.records@[i as int]);
            if self.records[i].recovery_data.utxo.digest.same(digest) {
                return Some(self.records[i].recovery_data);
            }
            assert(self.records@.skip(i as int).drop_first() =~= self.records@.skip(i + 1));
            i = i + 1;
        }
        assert(self.records@.skip(n as int) =~= Seq::<UtxoDbData>::empty());
        None
    }
}

/// Expected outputs recorded no longer than `retention` before `now`.
pub open spec fn fresh_expected(exp: Seq<ExpectedUtxo>, now: u64, retention: u64) -> Seq<ExpectedUtxo>
    decreases exp.len(),
{
    if exp.len() == 0 {
        seq![]
    } else {
        let rest = fresh_expected(exp.drop_last(), now, retention);
        if exp.last().created_at + retention >= now {
            rest.push(exp.last())
        } else {
            rest
        }
    }
}

impl WalletState {
    /// Records that this wallet expects an output, produced by its own
    /// transaction.
    pub fn add_expected_utxo(&mut self, expected: ExpectedUtxo)
        ensures
            final(self)@ == (WalletView { expected: old(self)@.expected.push(expected), ..old(self)@ }),
    {
        self.expected.push(expected);
    }

    /// Drops the expected outputs recorded more than `retention` before `now`.
    pub fn clean_old_expected_utxos(&mut self, now: u64, retention: u64)
        ensures
            final(self)@ == (WalletView { expected: fresh_expected(old(self)@.expected, now, retention), ..old(self)@ }),
    {
        let n = self.expected.len();
        let mut kept: Vec<ExpectedUtxo> = Vec::new();
        for i in 0..n
            invariant
                n == self.expected@.len(),
                kept@ == fresh_expected(self.expected@.take(i as int), now, retention),
        {
            let e = self.expected[i];
            assert(self.expected@.take(i + 1).drop_last() =~= self.expected@.take(i as int));
            if e.created_at as u128 + retention as u128 >= now as u128 {
                kept.push(e);
            }
        }
        assert(self.expected@.take(n as int) =~= self.expected@);
        self.expected = kept;
    }
}

} // verus!
