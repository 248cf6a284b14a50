use bankai_hints::execution_header::{
    hash_path, ExecutionHeaderError, ExecutionHeaderProof, EXECUTION_PAYLOAD_LEAF_INDEX,
};
use bankai_hints::felt::Felt;
use bankai_hints::header::ExecutionPayloadHeader;
use bankai_hints::scalars::Uint256;
use sha2::{Digest, Sha256};

fn h2(a: &[u8; 32], b: &[u8; 32]) -> [u8; 32] {
    let mut buf = Vec::new();
    buf.extend_from_slice(a);
    buf.extend_from_slice(b);
    let d = Sha256::digest(&buf);
    d.into()
}

fn leaves_with(leaf: [u8; 32]) -> Vec<[u8; 32]> {
    let mut leaves = vec![[0u8; 32]; 16];
    leaves[EXECUTION_PAYLOAD_LEAF_INDEX] = leaf;
    leaves
}

#[test]
fn hash_path_recombines_with_index_bits() {
    let leaf = [3u8; 32];
    let s0 = [1u8; 32];
    let s1 = [2u8; 32];
    let path = vec![s0, s1];
    // Index 9: bit 0 is 1 (sibling on the left), then bit 1 of 4 is 0
    // (sibling on the right).
    let expected = h2(&h2(&s0, &leaf), &s1);
    assert_eq!(hash_path(&path, &leaf, 9), expected);
    // Index 0: all siblings on the right.
    let expected0 = h2(&h2(&leaf, &s0), &s1);
    assert_eq!(hash_path(&path, &leaf, 0), expected0);
    // An empty path returns the leaf itself.
    assert_eq!(hash_path(&Vec::new(), &leaf, 9), leaf);
}

#[test]
fn proof_construction_succeeds_on_a_consistent_root() {
    let leaf = [7u8; 32];
    let s0 = [8u8; 32];
    let s1 = [9u8; 32];
    let s2 = [10u8; 32];
    let path = vec![s0, s1, s2];
    // Leaf index 9: left, right, left.
    let root = h2(&h2(&h2(&s0, &leaf), &s1), &s2);
    let leaves = leaves_with(leaf);
    let proof = ExecutionHeaderProof::from_block_data(
        root,
        path.clone(),
        &leaves,
        ExecutionPayloadHeader::Bellatrix(sample_common()),
        4242,
    )
    .unwrap();
    assert_eq!(proof.root, root);
    assert_eq!(proof.path, path);
    assert_eq!(proof.leaf, leaf);
    assert_eq!(proof.index, EXECUTION_PAYLOAD_LEAF_INDEX);
    assert_eq!(proof.slot, 4242);
}

#[test]
fn one_flipped_sibling_fails_the_self_check() {
    let leaf = [7u8; 32];
    let s0 = [8u8; 32];
    let s1 = [9u8; 32];
    let s2 = [10u8; 32];
    let root = h2(&h2(&h2(&s0, &leaf), &s1), &s2);
    let mut flipped = vec![s0, s1, s2];
    flipped[1][0] ^= 0x01;
    let leaves = leaves_with(leaf);
    let r = ExecutionHeaderProof::from_block_data(
        root,
        flipped,
        &leaves,
        ExecutionPayloadHeader::Bellatrix(sample_common()),
        4242,
    );
    assert_eq!(r, Err(ExecutionHeaderError::RootMismatch));
}

#[test]
fn proof_converts_to_its_circuit_form() {
    let leaf = [7u8; 32];
    let s0 = [8u8; 32];
    let path = vec![s0];
    let root = h2(&s0, &leaf);
    let leaves = leaves_with(leaf);
    let proof = ExecutionHeaderProof::from_block_data(
        root,
        path,
        &leaves,
        ExecutionPayloadHeader::Bellatrix(sample_common()),
        1,
    )
    .unwrap();
    let cairo = proof.to_cairo().unwrap();
    assert_eq!(
        cairo.root,
        Uint256 {
            low: u128::from_be_bytes(root[16..32].try_into().unwrap()),
            high: u128::from_be_bytes(root[0..16].try_into().unwrap()),
        }
    );
    assert_eq!(cairo.leaf, Uint256 { low: u128::from_be_bytes([7; 16]), high: u128::from_be_bytes([7; 16]) });
    assert_eq!(cairo.index, Felt { lo: 9, hi: 0 });
    assert_eq!(cairo.path.len(), 1);
    assert_eq!(cairo.path[0].w0, u32::from_be_bytes([8, 8, 8, 8]));
    assert_eq!(cairo.execution_payload_header.len(), 14);
}

#[test]
fn unsupported_fork_blocks_conversion() {
    let leaf = [7u8; 32];
    let root = leaf;
    let leaves = leaves_with(leaf);
    let proof = ExecutionHeaderProof::from_block_data(
        root,
        Vec::new(),
        &leaves,
        ExecutionPayloadHeader::Fulu,
        1,
    )
    .unwrap();
    assert!(proof.to_cairo().is_err());
}

fn sample_common() -> bankai_hints::header::ExecutionPayloadCommon {
    bankai_hints::header::ExecutionPayloadCommon {
        parent_hash: [1; 32],
        fee_recipient: [2; 20],
        state_root: [3; 32],
        receipts_root: [4; 32],
        logs_bloom_root: [5; 32],
        prev_randao: [6; 32],
        block_number: 1,
        gas_limit: 2,
        gas_used: 3,
        timestamp: 4,
        extra_data_root: [7; 32],
        base_fee_per_gas_root: [8; 32],
        block_hash: [9; 32],
        transactions_root: [10; 32],
    }
}
