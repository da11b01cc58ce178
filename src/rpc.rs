//! What the engine hands to and takes from the remote node: the endpoint,
//! membership-proof requests and answers, unlock-ready inputs, and the
//! meaning of a broadcast answer.
use vstd::prelude::*;

use crate::block::{copy_index_set, UtxoInfo};
use crate::digest::Digest;
use crate::keys::{find_spending_key_for_utxo, first_key_for, SpendingKey};
use crate::state::UtxoDbData;
use crate::text::same_text;

verus! {

/// The remote node's REST endpoint.
pub struct NodeRpcClient {
    rest_server: String,
}

impl NodeRpcClient {
    pub closed spec fn server(&self) -> Seq<char> {
        self.rest_server@
    }

    /// A client for the node at `rest_server`.
    pub fn new(rest_server: &str) -> (r: NodeRpcClient)
        ensures
            r.server() == rest_server@,
    {
        NodeRpcClient { rest_server: rest_server.to_owned() }
    }

    /// Points the client at another node.
    pub fn set_rest_server(&mut self, rest: String)
        ensures
            final(self).server() == rest@,
    {
        self.rest_server = rest;
    }

    /// The node's endpoint.
    pub fn rest_server(&self) -> (r: &str)
        ensures
            r@ == self.server(),
    {
        self.rest_server.as_str()
    }
}

/// A request to rebuild one membership proof: the output's absolute index
/// set and its position in the append-only commitment list.
#[derive(Clone, Debug)]
pub struct RequestMsMembershipProofEx {
    pub swbf_indices: Vec<u128>,
    pub aocl_leaf_index: u64,
}

/// A rebuilt membership proof, as the node encodes it: the commitment-list
/// authentication path and the target chunks.
#[derive(Clone, Debug)]
pub struct MsMembershipProofEx {
    pub auth_path_aocl: Vec<u8>,
    pub target_chunks: Vec<u8>,
}

/// A membership proof for an owned output.
#[derive(Clone, Debug)]
pub struct MsMembershipProof {
    pub sender_randomness: Digest,
    pub receiver_preimage: Digest,
    pub aocl_leaf_index: u64,
    pub auth_path_aocl: Vec<u8>,
    pub target_chunks: Vec<u8>,
}

/// An input ready to be spent: the output, the key that unlocks it and its
/// membership proof.
#[derive(Clone, Debug)]
pub struct UnlockedUtxo {
    pub utxo: UtxoInfo,
    pub spending_key: SpendingKey,
    pub membership_proof: MsMembershipProof,
}

/// Why the chosen inputs could not be unlocked.
#[derive(Clone, Copy, PartialEq, Eq, Structural, Debug)]
pub enum UnlockError {
    /// The node returned a different number of proofs than inputs, or the
    /// index sets do not line up with the inputs.
    CountMismatch,
    /// No known key unlocks the input with this record id.
    NoSpendingKey(i64),
}

/// The requests for the chosen records, `index_sets[k]` being the absolute
/// index set recomputed for record `k`.
pub fn membership_requests(selected: &Vec<UtxoDbData>, index_sets: &Vec<Vec<u128>>) -> (r: Result<
    Vec<RequestMsMembershipProofEx>,
    UnlockError,
>)
    ensures
        selected@.len() != index_sets@.len() ==> r == Err::<Vec<RequestMsMembershipProofEx>, UnlockError>(
            UnlockError::CountMismatch,
        ),
        selected@.len() == index_sets@.len() ==> (r matches Ok(v) && v@.len() == selected@.len() && forall|k: int|
            0 <= k < v@.len() ==> (#[trigger] v@[k]).swbf_indices@ == index_sets@[k]@ && v@[k].aocl_leaf_index
                == selected@[k].recovery_data.aocl_index),
{
    if selected.len() != index_sets.len() {
        return Err(UnlockError::CountMismatch);
    }
    let n = selected.len();
    let mut out: Vec<RequestMsMembershipProofEx> = Vec::new();
    for k in 0..n
        invariant
            n == selected@.len(),
            n == index_sets@.len(),
            out@.len() == k,
            forall|j: int|
                0 <= j < k ==> (#[trigger] out@[j]).swbf_indices@ == index_sets@[j]@ && out@[j].aocl_leaf_index
                    == selected@[j].recovery_data.aocl_index,
    {
        out.push(
            RequestMsMembershipProofEx {
                swbf_indices: copy_index_set(&index_sets[k]),
                aocl_leaf_index: selected[k].recovery_data.aocl_index,
            },
        );
    }
    Ok(out)
}

fn copy_bytes(v: &Vec<u8>) -> (r: Vec<u8>)
    ensures
        r@ == v@,
{
    let mut r: Vec<u8> = Vec::new();
    let n = v.len();
    for i in 0..n
        invariant
            n == v@.len(),
            r@ == v@.take(i as int),
    {
        r.push(v[i]);
        assert(v@.take(i + 1) =~= v@.take(i as int).push(v@[i as int]));
    }
    assert(v@.take(n as int) =~= v@);
    r
}

/// Pairs each chosen record with the node's proof for it (in the same order)
/// and with the first known key that unlocks it.
pub fn unlock_utxos(selected: &Vec<UtxoDbData>, proofs: &Vec<MsMembershipProofEx>, keys: &Vec<SpendingKey>) -> (r: Result<
    Vec<UnlockedUtxo>,
    UnlockError,
>)
    ensures
        proofs@.len() != selected@.len() ==> r == Err::<Vec<UnlockedUtxo>, UnlockError>(UnlockError::CountMismatch),
        proofs@.len() == selected@.len() ==> match r {
            Err(e) => exists|k: int|
                0 <= k < selected@.len() && e == UnlockError::NoSpendingKey(selected@[k].id) && first_key_for(
                    keys@,
                    selected@[k].recovery_data.utxo.lock_script_hash,
                ) is None && forall|j: int|
                    0 <= j < k ==> first_key_for(keys@, #[trigger] selected@[j].recovery_data.utxo.lock_script_hash) is Some,
            Ok(v) => v@.len() == selected@.len() && forall|k: int|
                0 <= k < v@.len() ==> {
                    let u = selected@[k].recovery_data;
                    let p = (#[trigger] v@[k]).membership_proof;
                    &&& v@[k].utxo == u.utxo
                    &&& first_key_for(keys@, u.utxo.lock_script_hash) == Some(v@[k].spending_key)
                    &&& p.sender_randomness == u.sender_randomness
                    &&& p.receiver_preimage == u.receiver_preimage
                    &&& p.aocl_leaf_index == u.aocl_index
                    &&& p.auth_path_aocl@ == proofs@[k].auth_path_aocl@
                    &&& p.target_chunks@ == proofs@[k].target_chunks@
                },
        },
{
    if proofs.len() != selected.len() {
        return Err(UnlockError::CountMismatch);
    }
    let n = selected.len();
    let mut out: Vec<UnlockedUtxo> = Vec::new();
    for k in 0..n
        invariant
            n == selected@.len(),
            n == proofs@.len(),
            out@.len() == k,
            forall|j: int|
                0 <= j < k ==> first_key_for(keys@, #[trigger] selected@[j].recovery_data.utxo.lock_script_hash) is Some,
            forall|j: int|
                0 <= j < k ==> {
                    let u = selected@[j].recovery_data;
                    let p = (#[trigger] out@[j]).membership_proof;
                    &&& out@[j].utxo == u.utxo
                    &&& first_key_for(keys@, u.utxo.lock_script_hash) == Some(out@[j].spending_key)
                    &&& p.sender_randomness == u.sender_randomness
                    &&& p.receiver_preimage == u.receiver_preimage
                    &&& p.aocl_leaf_index == u.aocl_index
                    &&& p.auth_path_aocl@ == proofs@[j].auth_path_aocl@
                    &&& p.target_chunks@ == proofs@[j].target_chunks@
                },
    {
        let u = selected[k].recovery_data;
        let key = match find_spending_key_for_utxo(keys, &u.utxo) {
            Some(key) => key,
            None => {
                return Err(UnlockError::NoSpendingKey(selected[k].id));
            },
        };
        let membership_proof = MsMembershipProof {
            sender_randomness: u.sender_randomness,
            receiver_preimage: u.receiver_preimage,
            aocl_leaf_index: u.aocl_index,
            auth_path_aocl: copy_bytes(&proofs[k].auth_path_aocl),
            target_chunks: copy_bytes(&proofs[k].target_chunks),
        };
        out.push(UnlockedUtxo { utxo: u.utxo, spending_key: key, membership_proof });
    }
    Ok(out)
}

/// Why a broadcast failed.
#[derive(Clone, Debug)]
pub enum BroadcastError {
    /// The node's prover or relay is busy; retry later.
    Busy,
    /// The connection timed out.
    Timeout,
    /// The connection could not be made.
    Connection(String),
    /// The node rejected the transaction.
    Server(String),
}

/// The node's answer for a busy prover.
pub open spec fn busy_message() -> Seq<char> {
    "proof machine is busy"@
}


impl BroadcastError {
    /// The outcome of a broadcast answered with `status` and `message`:
    /// status 0 is success; otherwise the busy message means `Busy`, any
    /// other message a server error carrying it.
    pub fn from_response(status: u64, message: String) -> (r: Result<(), BroadcastError>)
        ensures
            status == 0 ==> r is Ok,
            status != 0 && message@ == busy_message() ==> r matches Err(BroadcastError::Busy),
            status != 0 && message@ != busy_message() ==> (r matches Err(BroadcastError::Server(m)) && m@ == message@),
    {
        if status == 0 {
            return Ok(());
        }
        if same_text(message.as_str(), "proof machine is busy") {
            return Err(BroadcastError::Busy);
        }
        Err(BroadcastError::Server(message))
    }

    /// The error for a failed request: a timeout, a failed connection
    /// (carrying `message`), or otherwise a server error carrying `message`.
    pub fn from_transport(is_timeout: bool, is_connect: bool, message: String) -> (r: BroadcastError)
        ensures
            is_timeout ==> r matches BroadcastError::Timeout,
            !is_timeout && is_connect ==> (r matches BroadcastError::Connection(m) && m@ == message@),
            !is_timeout && !is_connect ==> (r matches BroadcastError::Server(m) && m@ == message@),
    {
        if is_timeout {
            BroadcastError::Timeout
        } else if is_connect {
            BroadcastError::Connection(message)
        } else {
            BroadcastError::Server(message)
        }
    }
}

} // verus!
