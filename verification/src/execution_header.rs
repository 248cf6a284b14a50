//! The execution-header inclusion proof: the standard binary Merkle
//! recombination rule over SHA-256, and a constructor that self-verifies the
//! proof against the independently computed body root before emitting it.

use vstd::prelude::*;

use crate::felt::Felt;
use crate::header::{field_roots_ok, ExecutionPayloadHeader, ExecutionPayloadHeaderCairo, UnsupportedForkError};
use crate::scalars::{be_bytes_int, Uint256, Uint256Bits32};
use crate::types::ExecutionHeaderProofCairo;

verus! {

/// The SHA-256 digest of a byte string: a fixed function of the bytes alone.
pub uninterp spec fn sha256_of(bytes: Seq<u8>) -> Seq<u8>;

/// Relies on sha2's SHA-256 one-shot digest: the 32-byte hash of the 64-byte
/// concatenation of the two inputs, a function of those bytes alone.
#[verifier::external_body]
fn sha256_pair(a: &[u8; 32], b: &[u8; 32]) -> (r: [u8; 32])
    ensures
        r@ == sha256_of(a@ + b@),
{
    let mut buf: Vec<u8> = Vec::with_capacity(64);
    buf.extend_from_slice(a);
    buf.extend_from_slice(b);
    let d = <sha2::Sha256 as sha2::Digest>::digest(&buf);
    d.into()
}

/// The standard binary Merkle recombination rule: climb from the leaf, at
/// each level hashing with the sibling on the side the index bit names, and
/// halve the index.
pub open spec fn merkle_recombine(path: Seq<Seq<u8>>, leaf: Seq<u8>, index: nat) -> Seq<u8>
    decreases path.len(),
{
    if path.len() == 0 {
        leaf
    } else {
        let h = if index % 2 == 0 {
            sha256_of(leaf + path[0])
        } else {
            sha256_of(path[0] + leaf)
        };
        merkle_recombine(path.drop_first(), h, index / 2)
    }
}

/// The view of a path of 32-byte siblings as a sequence of byte strings.
pub open spec fn path_view(path: Seq<[u8; 32]>) -> Seq<Seq<u8>> {
    path.map_values(|h: [u8; 32]| h@)
}

/// Recomputes the root from a sibling path, a leaf, and the leaf's index.
pub fn hash_path(path: &Vec<[u8; 32]>, leaf: &[u8; 32], index: u64) -> (r: [u8; 32])
    ensures
        r@ == merkle_recombine(path_view(path@), leaf@, index as nat),
{
    let mut current: [u8; 32] = *leaf;
    let mut idx: u64 = index;
    let mut i: usize = 0;
    proof {
        assert(path_view(path@).skip(0) =~= path_view(path@));
    }
    while i < path.len()
        invariant
            i <= path@.len(),
            merkle_recombine(path_view(path@).skip(i as int), current@, idx as nat)
                == merkle_recombine(path_view(path@), leaf@, index as nat),
        decreases path@.len() - i,
    {
        let ghost ps = path_view(path@);
        let ghost pre = ps.skip(i as int);
        proof {
            assert(pre[0] == path@[i as int]@);
            assert(pre.drop_first() =~= ps.skip(i as int + 1));
        }
        let sibling = path[i];
        if idx % 2 == 0 {
            current = sha256_pair(&current, &sibling);
        } else {
            current = sha256_pair(&sibling, &current);
        }
        idx = idx / 2;
        i = i + 1;
    }
    proof {
        assert(path_view(path@).skip(path@.len() as int) =~= Seq::<Seq<u8>>::empty());
    }
    current
}

/// Byte-wise equality of two 32-byte hashes.
fn hashes_equal(a: &[u8; 32], b: &[u8; 32]) -> (r: bool)
    ensures
        r <==> a@ == b@,
{
    let mut i: usize = 0;
    while i < 32
        invariant
            i <= 32,
            forall|k: int| 0 <= k < i ==> a@[k] == b@[k],
        decreases 32 - i,
    {
        if a[i] != b[i] {
            return false;
        }
        i = i + 1;
    }
    proof {
        assert(a@ =~= b@);
    }
    true
}

/// How proof construction fails.
#[derive(Clone, PartialEq, Eq, Debug)]
pub enum ExecutionHeaderError {
    /// The beacon collaborator that fetched the block data failed; the
    /// message is carried through unchanged.
    Beacon(String),
    /// The locally recomputed root disagrees with the independently computed
    /// tree root: an internal-consistency failure that signals a bug, and no
    /// proof is emitted.
    RootMismatch,
}

/// The fixed position of the execution payload within the beacon block
/// body's Merkle tree.
pub const EXECUTION_PAYLOAD_LEAF_INDEX: usize = 9;

/// A self-verified proof of inclusion for an execution payload header in a
/// beacon block body, plus the slot it was derived for.
#[derive(Clone, PartialEq, Eq, Debug)]
pub struct ExecutionHeaderProof {
    /// Root hash of the beacon block body's Merkle tree.
    pub root: [u8; 32],
    /// Sibling hashes from the leaf up to the root.
    pub path: Vec<[u8; 32]>,
    /// Hash of the execution payload header: the leaf.
    pub leaf: [u8; 32],
    /// The leaf's position in the tree; fixed by protocol to 9.
    pub index: usize,
    /// The execution payload header the leaf commits to.
    pub execution_payload_header: ExecutionPayloadHeader,
    /// Slot of the beacon block the proof was derived for.
    pub slot: u64,
}

impl ExecutionHeaderProof {
    /// Assembles a proof from a fetched beacon block body's tree root,
    /// Merkle path, and body leaves, self-verifying the path against the
    /// independently computed root before emitting anything. A mismatch is a
    /// fatal internal-consistency failure, never a partial result.
    pub fn from_block_data(
        root: [u8; 32],
        path: Vec<[u8; 32]>,
        leaves: &Vec<[u8; 32]>,
        payload: ExecutionPayloadHeader,
        slot: u64,
    ) -> (r: Result<ExecutionHeaderProof, ExecutionHeaderError>)
        requires
            leaves@.len() > EXECUTION_PAYLOAD_LEAF_INDEX,
        ensures
            r is Ok <==> merkle_recombine(
                path_view(path@),
                leaves@[EXECUTION_PAYLOAD_LEAF_INDEX as int]@,
                EXECUTION_PAYLOAD_LEAF_INDEX as nat,
            ) == root@,
            r matches Ok(p) ==> p == (ExecutionHeaderProof {
                root,
                path: path,
                leaf: leaves@[EXECUTION_PAYLOAD_LEAF_INDEX as int],
                index: EXECUTION_PAYLOAD_LEAF_INDEX,
                execution_payload_header: payload,
                slot,
            }),
            r is Err ==> r == Err::<ExecutionHeaderProof, ExecutionHeaderError>(
                ExecutionHeaderError::RootMismatch,
            ),
    {
        let leaf = leaves[EXECUTION_PAYLOAD_LEAF_INDEX];
        let computed_root = hash_path(&path, &leaf, EXECUTION_PAYLOAD_LEAF_INDEX as u64);
        if !hashes_equal(&computed_root, &root) {
            return Err(ExecutionHeaderError::RootMismatch);
        }
        proof {
            assert(computed_root@ =~= root@);
            assert(computed_root == root);
        }
        Ok(
            ExecutionHeaderProof {
                root,
                path,
                leaf,
                index: EXECUTION_PAYLOAD_LEAF_INDEX,
                execution_payload_header: payload,
                slot,
            },
        )
    }

    /// Converts the proof to its circuit representation: the root and leaf
    /// as 256-bit values, the path as 32-bit-word hashes, the index as a
    /// field element, and the payload flattened to its field roots. Fails
    /// exactly where the payload's fork is unsupported.
    pub fn to_cairo(&self) -> (r: Result<ExecutionHeaderProofCairo, UnsupportedForkError>)
        ensures
            r is Ok <==> !(self.execution_payload_header is Fulu),
            r matches Ok(c) ==> {
                &&& c.root.as_int() == be_bytes_int(self.root@)
                &&& c.leaf.as_int() == be_bytes_int(self.leaf@)
                &&& c.index == (Felt { lo: self.index as u128, hi: 0 })
                &&& c.path@.len() == self.path@.len()
                &&& forall|i: int, j: int|
                    0 <= i < self.path@.len() && 0 <= j < 8 ==> (#[trigger] c.path@[i].spec_word(
                        j,
                    )) as int == be_bytes_int(self.path@[i]@.subrange(4 * j, 4 * j + 4))
                &&& field_roots_ok(self.execution_payload_header, c.execution_payload_header@)
            },
    {
        let execution_payload_header = match ExecutionPayloadHeaderCairo(
            self.execution_payload_header,
        ).to_field_roots() {
            Ok(v) => v,
            Err(e) => {
                return Err(e);
            },
        };
        let mut path: Vec<Uint256Bits32> = Vec::new();
        let mut i: usize = 0;
        while i < self.path.len()
            invariant
                i <= self.path@.len(),
                path@.len() == i,
                forall|k: int, j: int|
                    0 <= k < i && 0 <= j < 8 ==> (#[trigger] path@[k].spec_word(j)) as int
                        == be_bytes_int(self.path@[k]@.subrange(4 * j, 4 * j + 4)),
            decreases self.path@.len() - i,
        {
            path.push(Uint256Bits32::from_bytes_be(&self.path[i]));
            i = i + 1;
        }
        Ok(
            ExecutionHeaderProofCairo {
                root: Uint256::from_bytes_be(&self.root),
                path,
                leaf: Uint256::from_bytes_be(&self.leaf),
                index: Felt::from_usize(self.index),
                execution_payload_header,
            },
        )
    }
}

} // verus!
