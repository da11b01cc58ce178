//! Ownership scanning: which outputs of a block this wallet receives, and
//! how far each key namespace's high-water mark moves.
use vstd::prelude::*;

use crate::block::{GuesserFeeOutput, UtxoInfo, WalletBlock};
use crate::digest::Digest;

verus! {

/// An output that this wallet can receive, with the blinding material needed
/// to rebuild its membership proof.
#[derive(Clone, Copy, PartialEq, Eq, Structural, Debug)]
pub struct IncomingUtxo {
    pub utxo: UtxoInfo,
    /// Addition record (commitment) under which the output enters the accumulator.
    pub addition_record: Digest,
    pub sender_randomness: Digest,
    pub receiver_preimage: Digest,
    pub is_guesser_fee: bool,
}

/// An announced output found by the key with derivation index `key_index`.
#[derive(Clone, Copy, PartialEq, Eq, Structural, Debug)]
pub struct KeyMatch {
    pub key_index: u64,
    pub utxo: IncomingUtxo,
}

/// What a sweep over both key namespaces yields for one block.
#[derive(Clone, Debug)]
pub struct IncomingScan {
    pub utxos: Vec<IncomingUtxo>,
    pub num_generation_spending_keys: u64,
    pub num_symmetric_keys: u64,
}

pub open spec fn in_window(m: KeyMatch, end: int) -> bool {
    (m.key_index as int) < end
}

/// The outputs of the matches whose key lies in `[0, end)`, in order.
pub open spec fn window_utxos(ms: Seq<KeyMatch>, end: int) -> Seq<IncomingUtxo>
    decreases ms.len(),
{
    if ms.len() == 0 {
        seq![]
    } else {
        let rest = window_utxos(ms.drop_last(), end);
        if in_window(ms.last(), end) {
            rest.push(ms.last().utxo)
        } else {
            rest
        }
    }
}

/// `current`, raised to the largest key index among the matches in `[0, end)`.
pub open spec fn window_mark(ms: Seq<KeyMatch>, end: int, current: u64) -> u64
    decreases ms.len(),
{
    if ms.len() == 0 {
        current
    } else {
        let rest = window_mark(ms.drop_last(), end, current);
        if in_window(ms.last(), end) && ms.last().key_index > rest {
            ms.last().key_index
        } else {
            rest
        }
    }
}

pub open spec fn guesser_claim(o: GuesserFeeOutput, sender: Digest, receiver: Digest) -> IncomingUtxo {
    IncomingUtxo {
        utxo: o.utxo,
        addition_record: o.addition_record,
        sender_randomness: sender,
        receiver_preimage: receiver,
        is_guesser_fee: true,
    }
}

/// The guesser-fee outputs of a block, claimed with the block digest as
/// sender randomness and the wallet's guesser digest as receiver preimage.
pub open spec fn guesser_claims(g: Seq<GuesserFeeOutput>, sender: Digest, receiver: Digest) -> Seq<
    IncomingUtxo,
> {
    g.map_values(|o: GuesserFeeOutput| guesser_claim(o, sender, receiver))
}

/// Whether the block's guesser fee is addressed to the wallet's guesser digest.
pub open spec fn claims_guesser_fee(b: WalletBlock, guesser_digest: Digest) -> bool {
    b.guesser_receiver_digest == guesser_digest
}

/// Everything a block sends to this wallet: generation-key matches,
/// symmetric-key matches, then the guesser fee when it is addressed here.
pub open spec fn spec_incoming(
    b: WalletBlock,
    generation: Seq<KeyMatch>,
    generation_end: int,
    symmetric: Seq<KeyMatch>,
    symmetric_end: int,
    guesser_digest: Digest,
) -> Seq<IncomingUtxo> {
    window_utxos(generation, generation_end) + window_utxos(symmetric, symmetric_end) + if claims_guesser_fee(
        b,
        guesser_digest,
    ) {
        guesser_claims(b.guesser_fee_outputs@, b.digest, guesser_digest)
    } else {
        seq![]
    }
}

/// Collects the outputs of the matches whose key index lies below `end`
/// into `out`, and returns `current` raised to the largest such key index.
pub fn sweep_window(ms: &Vec<KeyMatch>, end: u128, current: u64, out: &mut Vec<IncomingUtxo>) -> (r: u64)
    ensures
        final(out)@ == old(out)@ + window_utxos(ms@, end as int),
        r == window_mark(ms@, end as int, current),
{
    let mut mark = current;
    let n = ms.len();
    let ghost start = out@;
    for i in 0..n
        invariant
            n == ms@.len(),
            out@ == start + window_utxos(ms@.take(i as int), end as int),
            mark == window_mark(ms@.take(i as int), end as int, current),
    {
        let m = ms[i];
        assert(ms@.take(i + 1).drop_last() == ms@.take(i as int));
        if (m.key_index as u128) < end {
            out.push(m.utxo);
            if m.key_index > mark {
                mark = m.key_index;
            }
        }
        assert(out@ =~= start + window_utxos(ms@.take(i + 1), end as int));
    }
    assert(ms@.take(n as int) == ms@);
    mark
}

/// Appends the guesser-fee claims of `b` to `out`.
pub fn claim_guesser_fee(b: &WalletBlock, guesser_digest: Digest, out: &mut Vec<IncomingUtxo>)
    ensures
        final(out)@ == old(out)@ + guesser_claims(b.guesser_fee_outputs@, b.digest, guesser_digest),
{
    let n = b.guesser_fee_outputs.len();
    let ghost start = out@;
    for i in 0..n
        invariant
            n == b.guesser_fee_outputs@.len(),
            out@ == start + guesser_claims(b.guesser_fee_outputs@.take(i as int), b.digest, guesser_digest),
    {
        let o = b.guesser_fee_outputs[i];
        out.push(
            IncomingUtxo {
                utxo: o.utxo,
                addition_record: o.addition_record,
                sender_randomness: b.digest,
                receiver_preimage: guesser_digest,
                is_guesser_fee: true,
            },
        );
        assert(guesser_claims(b.guesser_fee_outputs@.take(i + 1), b.digest, guesser_digest) =~= guesser_claims(
            b.guesser_fee_outputs@.take(i as int),
            b.digest,
            guesser_digest,
        ).push(guesser_claim(o, b.digest, guesser_digest)));
        assert(out@ =~= start + guesser_claims(b.guesser_fee_outputs@.take(i + 1), b.digest, guesser_digest));
    }
    assert(b.guesser_fee_outputs@.take(n as int) == b.guesser_fee_outputs@);
}

/// Marks stay where they are when no match lies in the window.
pub proof fn lemma_window_mark_without_matches(ms: Seq<KeyMatch>, end: int, current: u64)
    requires
        forall|i: int| 0 <= i < ms.len() ==> !in_window(#[trigger] ms[i], end),
    ensures
        window_mark(ms, end, current) == current,
        window_utxos(ms, end) == Seq::<IncomingUtxo>::empty(),
    decreases ms.len(),
{
    if ms.len() > 0 {
        let d = ms.drop_last();
        assert forall|i: int| 0 <= i < d.len() implies !in_window(#[trigger] d[i], end) by {
            assert(d[i] == ms[i]);
        }
        lemma_window_mark_without_matches(d, end, current);
        assert(!in_window(ms[ms.len() - 1], end));
    }
}

/// A mark never goes down.
pub proof fn lemma_window_mark_monotone(ms: Seq<KeyMatch>, end: int, current: u64)
    ensures
        window_mark(ms, end, current) >= current,
    decreases ms.len(),
{
    if ms.len() > 0 {
        lemma_window_mark_monotone(ms.drop_last(), end, current);
    }
}

} // verus!
