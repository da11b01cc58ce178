//! Transactions built by this wallet and not yet confirmed, and the records
//! they reserve.
use vstd::prelude::*;

use crate::digest::Digest;

verus! {

/// A pending transaction: its id and the record ids it spends.
#[derive(Clone, Debug)]
pub struct PendingTx {
    pub txid: Digest,
    pub inputs: Vec<i64>,
}

pub struct PendingView {
    pub txid: Digest,
    pub inputs: Seq<i64>,
}

pub open spec fn pending_view(v: Seq<PendingTx>) -> Seq<PendingView> {
    v.map_values(|t: PendingTx| PendingView { txid: t.txid, inputs: t.inputs@ })
}

/// The record ids that the pending transactions reserve, in order.
pub open spec fn reserved(v: Seq<PendingView>) -> Seq<i64>
    decreases v.len(),
{
    if v.len() == 0 {
        seq![]
    } else {
        reserved(v.drop_last()) + v.last().inputs
    }
}

/// The pending transactions whose id is not `txid`.
pub open spec fn without_tx(v: Seq<PendingView>, txid: Digest) -> Seq<PendingView>
    decreases v.len(),
{
    if v.len() == 0 {
        seq![]
    } else {
        let rest = without_tx(v.drop_last(), txid);
        if v.last().txid == txid {
            rest
        } else {
            rest.push(v.last())
        }
    }
}

/// The wallet's pending transactions, in the order they were added.
pub struct PendingTransactions {
    txs: Vec<PendingTx>,
}

impl View for PendingTransactions {
    type V = Seq<PendingView>;

    closed spec fn view(&self) -> Seq<PendingView> {
        pending_view(self.txs@)
    }
}

fn copy_ids(v: &Vec<i64>) -> (r: Vec<i64>)
    ensures
        r@ == v@,
{
    let mut r: Vec<i64> = Vec::new();
    let n = v.len();
    for i in 0..n
        invariant
            n == v@.len(),
            r@ == v@.take(i as int),
    {
        r.push(v[i]);
        assert(v@.take(i + 1) =~= v@.take(i as int).push(v@[i as int]));
    }
    assert(v@.take(n as int) =~= v@);
    r
}

impl PendingTransactions {
    /// No pending transactions.
    pub fn new() -> (r: PendingTransactions)
        ensures
            r@.len() == 0,
    {
        PendingTransactions { txs: Vec::new() }
    }

    /// Records a transaction that spends the records `inputs`.
    pub fn add_pending(&mut self, txid: Digest, inputs: Vec<i64>)
        ensures
            final(self)@ == old(self)@.push(PendingView { txid, inputs: inputs@ }),
            reserved(final(self)@) == reserved(old(self)@) + inputs@,
    {
        let ghost before = self@;
        self.txs.push(PendingTx { txid, inputs });
        assert(self@ =~= before.push(PendingView { txid, inputs: inputs@ }));
        assert(self@.drop_last() =~= before);
    }

    /// Drops every pending transaction with id `txid`, releasing its records.
    pub fn forget_tx(&mut self, txid: &Digest)
        ensures
            final(self)@ == without_tx(old(self)@, *txid),
    {
        let n = self.txs.len();
        let mut kept: Vec<PendingTx> = Vec::new();
        for i in 0..n
            invariant
                n == self.txs@.len(),
                pending_view(kept@) == without_tx(pending_view(self.txs@).take(i as int), *txid),
        {
            let t = &self.txs[i];
            assert(pending_view(self.txs@).take(i + 1).drop_last() =~= pending_view(self.txs@).take(i as int));
            if !t.txid.same(txid) {
                let ghost before = kept@;
                kept.push(PendingTx { txid: t.txid, inputs: copy_ids(&t.inputs) });
                assert(pending_view(kept@) =~= pending_view(before).push(pending_view(self.txs@)[i as int]));
            }
        }
        assert(pending_view(self.txs@).take(n as int) =~= pending_view(self.txs@));
        self.txs = kept;
    }

    /// The ids of the pending transactions, in order.
    pub fn get_pending_transactions(&self) -> (r: Vec<Digest>)
        ensures
            r@ == self@.map_values(|t: PendingView| t.txid),
    {
        let n = self.txs.len();
        let mut out: Vec<Digest> = Vec::new();
        for i in 0..n
            invariant
                n == self.txs@.len(),
                out@ == pending_view(self.txs@).take(i as int).map_values(|t: PendingView| t.txid),
        {
            out.push(self.txs[i].txid);
            assert(pending_view(self.txs@).take(i + 1).map_values(|t: PendingView| t.txid) =~= pending_view(
                self.txs@,
            ).take(i as int).map_values(|t: PendingView| t.txid).push(self.txs@[i as int].txid));
        }
        assert(pending_view(self.txs@).take(n as int) =~= pending_view(self.txs@));
        out
    }

    /// The record ids that the pending transactions spend.
    pub fn get_pending_spent_utxos(&self) -> (r: Vec<i64>)
        ensures
            r@ == reserved(self@),
    {
        let n = self.txs.len();
        let mut out: Vec<i64> = Vec::new();
        for i in 0..n
            invariant
                n == self.txs@.len(),
                out@ == reserved(pending_view(self.txs@).take(i as int)),
        {
            let ghost before = out@;
            let ins = &self.txs[i].inputs;
            let m = ins.len();
            for j in 0..m
                invariant
                    m == ins@.len(),
                    out@ == before + ins@.take(j as int),
            {
                out.push(ins[j]);
                assert(ins@.take(j + 1) =~= ins@.take(j as int).push(ins@[j as int]));
            }
            assert(ins@.take(m as int) =~= ins@);
            assert(pending_view(self.txs@).take(i + 1).drop_last() =~= pending_view(self.txs@).take(i as int));
            assert(out@ =~= reserved(pending_view(self.txs@).take(i + 1)));
        }
        assert(pending_view(self.txs@).take(n as int) =~= pending_view(self.txs@));
        out
    }
}

} // verus!
