//! The beacon-chain domain model and its layout writers: every entity
//! encodes itself at a given address in a fixed, protocol-defined field
//! order and returns the next free address. Variable-length members occupy
//! exactly one pointer cell of the parent; their payload lives in a freshly
//! allocated segment.

use vstd::prelude::*;

use crate::bls::{enc_g1_list, lemma_enc_g1_list_len, lemma_enc_g1_list_push, G1PointCairo, G2PointCairo};
use crate::felt::Felt;
use crate::memory::{
    addr_add, can_write_range, mem_cell, write_cell, write_fixed, write_vals, CellValue,
    EncodeError, MemView, Memory, MemoryAddress, MemoryError,
};
use crate::memory::{lemma_push_frame, lemma_write_cell, lemma_write_vals, lemma_write_vals_concat};
use crate::scalars::{UInt384, Uint256, Uint256Bits32};

verus! {

/// A list of 32-bit-word hashes, encoded end to end.
pub open spec fn enc_b32_list(list: Seq<Uint256Bits32>) -> Seq<CellValue>
    decreases list.len(),
{
    if list.len() == 0 {
        Seq::empty()
    } else {
        list[0].enc() + enc_b32_list(list.drop_first())
    }
}

/// An encoded list of 32-bit-word hashes takes eight cells per hash.
pub proof fn lemma_enc_b32_list_len(list: Seq<Uint256Bits32>)
    ensures
        enc_b32_list(list).len() == 8 * list.len(),
    decreases list.len(),
{
    if list.len() > 0 {
        lemma_enc_b32_list_len(list.drop_first());
    }
}

/// Appending a hash to the list appends its cells to the encoding.
pub proof fn lemma_enc_b32_list_push(list: Seq<Uint256Bits32>, x: Uint256Bits32)
    ensures
        enc_b32_list(list.push(x)) == enc_b32_list(list) + x.enc(),
    decreases list.len(),
{
    if list.len() == 0 {
        assert(list.push(x).drop_first() =~= Seq::<Uint256Bits32>::empty());
        assert(list.push(x)[0] == x);
        assert(enc_b32_list(Seq::<Uint256Bits32>::empty()) == Seq::<CellValue>::empty());
        assert(enc_b32_list(list.push(x)) =~= enc_b32_list(list) + x.enc());
    } else {
        assert(list.push(x).drop_first() =~= list.drop_first().push(x));
        assert(list.push(x)[0] == list[0]);
        lemma_enc_b32_list_push(list.drop_first(), x);
        assert(enc_b32_list(list.push(x)) == list[0].enc() + (enc_b32_list(list.drop_first())
            + x.enc()));
        assert(enc_b32_list(list.push(x)) =~= enc_b32_list(list) + x.enc());
    }
}

/// A list of 256-bit values, encoded end to end.
pub open spec fn enc_u256_list(list: Seq<Uint256>) -> Seq<CellValue>
    decreases list.len(),
{
    if list.len() == 0 {
        Seq::empty()
    } else {
        list[0].enc() + enc_u256_list(list.drop_first())
    }
}

/// An encoded list of 256-bit values takes two cells per value.
pub proof fn lemma_enc_u256_list_len(list: Seq<Uint256>)
    ensures
        enc_u256_list(list).len() == 2 * list.len(),
    decreases list.len(),
{
    if list.len() > 0 {
        lemma_enc_u256_list_len(list.drop_first());
    }
}

/// Appending a value to the list appends its cells to the encoding.
pub proof fn lemma_enc_u256_list_push(list: Seq<Uint256>, x: Uint256)
    ensures
        enc_u256_list(list.push(x)) == enc_u256_list(list) + x.enc(),
    decreases list.len(),
{
    if list.len() == 0 {
        assert(list.push(x).drop_first() =~= Seq::<Uint256>::empty());
        assert(list.push(x)[0] == x);
        assert(enc_u256_list(Seq::<Uint256>::empty()) == Seq::<CellValue>::empty());
        assert(enc_u256_list(list.push(x)) =~= enc_u256_list(list) + x.enc());
    } else {
        assert(list.push(x).drop_first() =~= list.drop_first().push(x));
        assert(list.push(x)[0] == list[0]);
        lemma_enc_u256_list_push(list.drop_first(), x);
        assert(enc_u256_list(list.push(x)) == list[0].enc() + (enc_u256_list(list.drop_first())
            + x.enc()));
        assert(enc_u256_list(list.push(x)) =~= enc_u256_list(list) + x.enc());
    }
}

/// The five 256-bit roots of a beacon block header. Slot and proposer index
/// are carried as 256-bit values for encoding uniformity: the circuit's
/// input contract depends on that width.
#[derive(Clone, Copy, PartialEq, Eq, Structural, Debug)]
pub struct BeaconHeaderCairo {
    pub slot: Uint256,
    pub proposer_index: Uint256,
    pub parent_root: Uint256,
    pub state_root: Uint256,
    pub body_root: Uint256,
}

impl BeaconHeaderCairo {
    /// Its ten cells: slot, proposer index, parent root, state root, body
    /// root, in the circuit's fixed order.
    pub open spec fn enc(self) -> Seq<CellValue> {
        self.slot.enc() + self.proposer_index.enc() + self.parent_root.enc()
            + self.state_root.enc() + self.body_root.enc()
    }

    pub open spec fn spec_n_fields() -> int {
        10
    }

    pub open spec fn dec(m: MemView, seg: int, off: int) -> Option<BeaconHeaderCairo> {
        match (
            Uint256::dec(m, seg, off),
            Uint256::dec(m, seg, off + 2),
            Uint256::dec(m, seg, off + 4),
            Uint256::dec(m, seg, off + 6),
            Uint256::dec(m, seg, off + 8),
        ) {
            (
                Some(slot),
                Some(proposer_index),
                Some(parent_root),
                Some(state_root),
                Some(body_root),
            ) => Some(
                BeaconHeaderCairo { slot, proposer_index, parent_root, state_root, body_root },
            ),
            _ => None,
        }
    }

    pub fn n_fields() -> (r: usize)
        ensures
            r as int == Self::spec_n_fields(),
    {
        Uint256::n_fields() * 5
    }

    /// The cells `to_memory` writes, in order.
    pub fn cells(&self) -> (r: Vec<CellValue>)
        ensures
            r@ == self.enc(),
    {
        let mut v = self.slot.cells();
        let mut t1 = self.proposer_index.cells();
        v.append(&mut t1);
        let mut t2 = self.parent_root.cells();
        v.append(&mut t2);
        let mut t3 = self.state_root.cells();
        v.append(&mut t3);
        let mut t4 = self.body_root.cells();
        v.append(&mut t4);
        v
    }

    /// Writes the header at `address`; the next free address is always
    /// `address + 10` on success.
    pub fn to_memory(&self, mem: &mut Memory, address: MemoryAddress) -> (r: Result<
        MemoryAddress,
        EncodeError,
    >)
        ensures
            r is Ok <==> can_write_range(
                old(mem)@,
                address.segment as int,
                address.offset as int,
                Self::spec_n_fields(),
            ),
            r is Ok ==> final(mem)@ == write_vals(
                old(mem)@,
                address.segment as int,
                address.offset as int,
                self.enc(),
            ),
            r is Ok ==> r == Ok::<MemoryAddress, EncodeError>(
                MemoryAddress {
                    segment: address.segment,
                    offset: (address.offset + Self::spec_n_fields()) as usize,
                },
            ),
            r is Err ==> final(mem)@ == old(mem)@,
    {
        let cells = self.cells();
        write_fixed(mem, address, &cells, 10)
    }

    /// Reads a header back from `address`; used for verification and tests.
    pub fn from_memory(mem: &Memory, address: MemoryAddress) -> (r: Option<BeaconHeaderCairo>)
        requires
            address.offset + Self::spec_n_fields() - 1 <= usize::MAX,
        ensures
            r == Self::dec(mem@, address.segment as int, address.offset as int),
    {
        let slot = match Uint256::from_memory(mem, address) {
            Some(v) => v,
            None => {
                return None;
            },
        };
        let proposer_index = match Uint256::from_memory(
            mem,
            MemoryAddress { segment: address.segment, offset: address.offset + 2 },
        ) {
            Some(v) => v,
            None => {
                return None;
            },
        };
        let parent_root = match Uint256::from_memory(
            mem,
            MemoryAddress { segment: address.segment, offset: address.offset + 4 },
        ) {
            Some(v) => v,
            None => {
                return None;
            },
        };
        let state_root = match Uint256::from_memory(
            mem,
            MemoryAddress { segment: address.segment, offset: address.offset + 6 },
        ) {
            Some(v) => v,
            None => {
                return None;
            },
        };
        let body_root = match Uint256::from_memory(
            mem,
            MemoryAddress { segment: address.segment, offset: address.offset + 8 },
        ) {
            Some(v) => v,
            None => {
                return None;
            },
        };
        Some(BeaconHeaderCairo { slot, proposer_index, parent_root, state_root, body_root })
    }
}

/// Encoding then re-reading a beacon header reproduces it exactly.
pub proof fn lemma_beacon_header_roundtrip(m: MemView, seg: int, off: int, v: BeaconHeaderCairo)
    requires
        0 <= seg < m.len(),
        0 <= off,
    ensures
        BeaconHeaderCairo::dec(write_vals(m, seg, off, v.enc()), seg, off) == Some(v),
{
    lemma_write_vals(m, seg, off, v.enc());
    let m2 = write_vals(m, seg, off, v.enc());
    assert(Uint256::dec(m2, seg, off) == Some(v.slot));
    assert(Uint256::dec(m2, seg, off + 2) == Some(v.proposer_index));
    assert(Uint256::dec(m2, seg, off + 4) == Some(v.parent_root));
    assert(Uint256::dec(m2, seg, off + 6) == Some(v.state_root));
    assert(Uint256::dec(m2, seg, off + 8) == Some(v.body_root));
}

/// The circuit's public output tuple: produced by a prior proof, consumed as
/// the trust anchor of the next.
#[derive(Clone, Copy, PartialEq, Eq, Structural, Debug)]
pub struct RecursiveEpochOutputsCairo {
    pub beacon_header_root: Uint256,
    pub beacon_state_root: Uint256,
    pub beacon_height: Felt,
    pub n_signers: Felt,
    pub execution_header_root: Uint256,
    pub execution_header_height: Felt,
    pub current_committee_hash: Uint256,
    pub next_committee_hash: Uint256,
}

impl RecursiveEpochOutputsCairo {
    /// Its thirteen cells, in the circuit's fixed order.
    pub open spec fn enc(self) -> Seq<CellValue> {
        self.beacon_header_root.enc() + self.beacon_state_root.enc() + self.beacon_height.enc()
            + self.n_signers.enc() + self.execution_header_root.enc()
            + self.execution_header_height.enc() + self.current_committee_hash.enc()
            + self.next_committee_hash.enc()
    }

    pub open spec fn spec_n_fields() -> int {
        13
    }

    pub open spec fn dec(m: MemView, seg: int, off: int) -> Option<RecursiveEpochOutputsCairo> {
        match (
            Uint256::dec(m, seg, off),
            Uint256::dec(m, seg, off + 2),
            Felt::dec(m, seg, off + 4),
            Felt::dec(m, seg, off + 5),
            Uint256::dec(m, seg, off + 6),
            Felt::dec(m, seg, off + 8),
            Uint256::dec(m, seg, off + 9),
            Uint256::dec(m, seg, off + 11),
        ) {
            (
                Some(beacon_header_root),
                Some(beacon_state_root),
                Some(beacon_height),
                Some(n_signers),
                Some(execution_header_root),
                Some(execution_header_height),
                Some(current_committee_hash),
                Some(next_committee_hash),
            ) => Some(
                RecursiveEpochOutputsCairo {
                    beacon_header_root,
                    beacon_state_root,
                    beacon_height,
                    n_signers,
                    execution_header_root,
                    execution_header_height,
                    current_committee_hash,
                    next_committee_hash,
                },
            ),
            _ => None,
        }
    }

    pub fn n_fields() -> (r: usize)
        ensures
            r as int == Self::spec_n_fields(),
    {
        Uint256::n_fields() * 5 + Felt::n_fields() * 3
    }

    /// The cells `to_memory` writes, in order.
    pub fn cells(&self) -> (r: Vec<CellValue>)
        ensures
            r@ == self.enc(),
    {
        let mut v = self.beacon_header_root.cells();
        let mut t1 = self.beacon_state_root.cells();
        v.append(&mut t1);
        let mut t2 = self.beacon_height.cells();
        v.append(&mut t2);
        let mut t3 = self.n_signers.cells();
        v.append(&mut t3);
        let mut t4 = self.execution_header_root.cells();
        v.append(&mut t4);
        let mut t5 = self.execution_header_height.cells();
        v.append(&mut t5);
        let mut t6 = self.current_committee_hash.cells();
        v.append(&mut t6);
        let mut t7 = self.next_committee_hash.cells();
        v.append(&mut t7);
        v
    }

    /// Writes the output tuple at `address`; the next free address is always
    /// `address + 13` on success.
    pub fn to_memory(&self, mem: &mut Memory, address: MemoryAddress) -> (r: Result<
        MemoryAddress,
        EncodeError,
    >)
        ensures
            r is Ok <==> can_write_range(
                old(mem)@,
                address.segment as int,
                address.offset as int,
                Self::spec_n_fields(),
            ),
            r is Ok ==> final(mem)@ == write_vals(
                old(mem)@,
                address.segment as int,
                address.offset as int,
                self.enc(),
            ),
            r is Ok ==> r == Ok::<MemoryAddress, EncodeError>(
                MemoryAddress {
                    segment: address.segment,
                    offset: (address.offset + Self::spec_n_fields()) as usize,
                },
            ),
            r is Err ==> final(mem)@ == old(mem)@,
    {
        let cells = self.cells();
        write_fixed(mem, address, &cells, 13)
    }

    /// Reads an output tuple back from `address`; used for verification and
    /// tests.
    pub fn from_memory(mem: &Memory, address: MemoryAddress) -> (r: Option<
        RecursiveEpochOutputsCairo,
    >)
        requires
            address.offset + Self::spec_n_fields() - 1 <= usize::MAX,
        ensures
            r == Self::dec(mem@, address.segment as int, address.offset as int),
    {
        let beacon_header_root = match Uint256::from_memory(mem, address) {
            Some(v) => v,
            None => {
                return None;
            },
        };
        let beacon_state_root = match Uint256::from_memory(
            mem,
            MemoryAddress { segment: address.segment, offset: address.offset + 2 },
        ) {
            Some(v) => v,
            None => {
                return None;
            },
        };
        let beacon_height = match Felt::from_memory(
            mem,
            MemoryAddress { segment: address.segment, offset: address.offset + 4 },
        ) {
            Some(v) => v,
            None => {
                return None;
            },
        };
        let n_signers = match Felt::from_memory(
            mem,
            MemoryAddress { segment: address.segment, offset: address.offset + 5 },
        ) {
            Some(v) => v,
            None => {
                return None;
            },
        };
        let execution_header_root = match Uint256::from_memory(
            mem,
            MemoryAddress { segment: address.segment, offset: address.offset + 6 },
        ) {
            Some(v) => v,
            None => {
                return None;
            },
        };
        let execution_header_height = match Felt::from_memory(
            mem,
            MemoryAddress { segment: address.segment, offset: address.offset + 8 },
        ) {
            Some(v) => v,
            None => {
                return None;
            },
        };
        let current_committee_hash = match Uint256::from_memory(
            mem,
            MemoryAddress { segment: address.segment, offset: address.offset + 9 },
        ) {
            Some(v) => v,
            None => {
                return None;
            },
        };
        let next_committee_hash = match Uint256::from_memory(
            mem,
            MemoryAddress { segment: address.segment, offset: address.offset + 11 },
        ) {
            Some(v) => v,
            None => {
                return None;
            },
        };
        Some(
            RecursiveEpochOutputsCairo {
                beacon_header_root,
                beacon_state_root,
                beacon_height,
                n_signers,
                execution_header_root,
                execution_header_height,
                current_committee_hash,
                next_committee_hash,
            },
        )
    }
}

/// Encoding then re-reading an output tuple reproduces it exactly.
pub proof fn lemma_outputs_roundtrip(m: MemView, seg: int, off: int, v: RecursiveEpochOutputsCairo)
    requires
        0 <= seg < m.len(),
        0 <= off,
    ensures
        RecursiveEpochOutputsCairo::dec(write_vals(m, seg, off, v.enc()), seg, off) == Some(v),
{
    lemma_write_vals(m, seg, off, v.enc());
    let m2 = write_vals(m, seg, off, v.enc());
    assert(Uint256::dec(m2, seg, off) == Some(v.beacon_header_root));
    assert(Uint256::dec(m2, seg, off + 2) == Some(v.beacon_state_root));
    assert(Felt::dec(m2, seg, off + 4) == Some(v.beacon_height));
    assert(Felt::dec(m2, seg, off + 5) == Some(v.n_signers));
    assert(Uint256::dec(m2, seg, off + 6) == Some(v.execution_header_root));
    assert(Felt::dec(m2, seg, off + 8) == Some(v.execution_header_height));
    assert(Uint256::dec(m2, seg, off + 9) == Some(v.current_committee_hash));
    assert(Uint256::dec(m2, seg, off + 11) == Some(v.next_committee_hash));
}

/// Writes a list of G1 points end to end into a fresh, still-empty segment.
#[verifier::loop_isolation(false)]
fn write_g1_list(mem: &mut Memory, base: MemoryAddress, list: &Vec<G1PointCairo>)
    requires
        base.segment < old(mem)@.len(),
        base.offset == 0,
        forall|o: int| #[trigger] mem_cell(old(mem)@, base.segment as int, o) is None,
        8 * list@.len() <= usize::MAX,
    ensures
        final(mem)@ == write_vals(old(mem)@, base.segment as int, 0, enc_g1_list(list@)),
{
    let mut cursor = base;
    let mut idx: usize = 0;
    proof {
        assert(list@.subrange(0, 0) =~= Seq::<G1PointCairo>::empty());
    }
    while idx < list.len()
        invariant
            idx <= list@.len(),
            cursor.segment == base.segment,
            cursor.offset == 8 * idx,
            mem@ == write_vals(
                old(mem)@,
                base.segment as int,
                0,
                enc_g1_list(list@.subrange(0, idx as int)),
            ),
        decreases list@.len() - idx,
    {
        let ghost pre = list@.subrange(0, idx as int);
        let ghost encpre = enc_g1_list(pre);
        proof {
            lemma_enc_g1_list_len(pre);
            lemma_write_vals(old(mem)@, base.segment as int, 0, encpre);
            assert forall|k: int| 0 <= k < 8 implies #[trigger] mem_cell(
                mem@,
                base.segment as int,
                8 * idx + k,
            ) is None by {
                assert(mem_cell(old(mem)@, base.segment as int, 8 * idx + k) is None);
            }
            assert(can_write_range(mem@, base.segment as int, 8 * idx as int, 8));
        }
        let ghost mprev = mem@;
        let res = list[idx].to_memory(mem, cursor);
        let next = match res {
            Ok(a) => a,
            Err(_) => {
                proof {
                    assert(false);
                }
                return ;
            },
        };
        proof {
            let x = list@[idx as int];
            lemma_write_vals_concat(old(mem)@, base.segment as int, 0, encpre, x.enc());
            lemma_enc_g1_list_push(pre, x);
            assert(pre.push(x) =~= list@.subrange(0, idx as int + 1));
        }
        cursor = next;
        idx = idx + 1;
    }
    proof {
        assert(list@.subrange(0, list@.len() as int) =~= list@);
    }
}

/// Writes a list of 32-bit-word hashes end to end into a fresh, still-empty
/// segment.
#[verifier::loop_isolation(false)]
fn write_b32_list(mem: &mut Memory, base: MemoryAddress, list: &Vec<Uint256Bits32>)
    requires
        base.segment < old(mem)@.len(),
        base.offset == 0,
        forall|o: int| #[trigger] mem_cell(old(mem)@, base.segment as int, o) is None,
        8 * list@.len() <= usize::MAX,
    ensures
        final(mem)@ == write_vals(old(mem)@, base.segment as int, 0, enc_b32_list(list@)),
{
    let mut cursor = base;
    let mut idx: usize = 0;
    proof {
        assert(list@.subrange(0, 0) =~= Seq::<Uint256Bits32>::empty());
    }
    while idx < list.len()
        invariant
            idx <= list@.len(),
            cursor.segment == base.segment,
            cursor.offset == 8 * idx,
            mem@ == write_vals(
                old(mem)@,
                base.segment as int,
                0,
                enc_b32_list(list@.subrange(0, idx as int)),
            ),
        decreases list@.len() - idx,
    {
        let ghost pre = list@.subrange(0, idx as int);
        let ghost encpre = enc_b32_list(pre);
        proof {
            lemma_enc_b32_list_len(pre);
            lemma_write_vals(old(mem)@, base.segment as int, 0, encpre);
            assert forall|k: int| 0 <= k < 8 implies #[trigger] mem_cell(
                mem@,
                base.segment as int,
                8 * idx + k,
            ) is None by {
                assert(mem_cell(old(mem)@, base.segment as int, 8 * idx + k) is None);
            }
            assert(can_write_range(mem@, base.segment as int, 8 * idx as int, 8));
        }
        let res = list[idx].to_memory(mem, cursor);
        let next = match res {
            Ok(a) => a,
            Err(_) => {
                proof {
                    assert(false);
                }
                return ;
            },
        };
        proof {
            let x = list@[idx as int];
            lemma_write_vals_concat(old(mem)@, base.segment as int, 0, encpre, x.enc());
            lemma_enc_b32_list_push(pre, x);
            assert(pre.push(x) =~= list@.subrange(0, idx as int + 1));
        }
        cursor = next;
        idx = idx + 1;
    }
    proof {
        assert(list@.subrange(0, list@.len() as int) =~= list@);
    }
}

/// Writes a list of 256-bit values end to end into a fresh, still-empty
/// segment.
#[verifier::loop_isolation(false)]
fn write_u256_list(mem: &mut Memory, base: MemoryAddress, list: &Vec<Uint256>)
    requires
        base.segment < old(mem)@.len(),
        base.offset == 0,
        forall|o: int| #[trigger] mem_cell(old(mem)@, base.segment as int, o) is None,
        2 * list@.len() <= usize::MAX,
    ensures
        final(mem)@ == write_vals(old(mem)@, base.segment as int, 0, enc_u256_list(list@)),
{
    let mut cursor = base;
    let mut idx: usize = 0;
    proof {
        assert(list@.subrange(0, 0) =~= Seq::<Uint256>::empty());
    }
    while idx < list.len()
        invariant
            idx <= list@.len(),
            cursor.segment == base.segment,
            cursor.offset == 2 * idx,
            mem@ == write_vals(
                old(mem)@,
                base.segment as int,
                0,
                enc_u256_list(list@.subrange(0, idx as int)),
            ),
        decreases list@.len() - idx,
    {
        let ghost pre = list@.subrange(0, idx as int);
        let ghost encpre = enc_u256_list(pre);
        proof {
            lemma_enc_u256_list_len(pre);
            lemma_write_vals(old(mem)@, base.segment as int, 0, encpre);
            assert forall|k: int| 0 <= k < 2 implies #[trigger] mem_cell(
                mem@,
                base.segment as int,
                2 * idx + k,
            ) is None by {
                assert(mem_cell(old(mem)@, base.segment as int, 2 * idx + k) is None);
            }
            assert(can_write_range(mem@, base.segment as int, 2 * idx as int, 2));
        }
        let res = list[idx].to_memory(mem, cursor);
        let next = match res {
            Ok(a) => a,
            Err(_) => {
                proof {
                    assert(false);
                }
                return ;
            },
        };
        proof {
            let x = list@[idx as int];
            lemma_write_vals_concat(old(mem)@, base.segment as int, 0, encpre, x.enc());
            lemma_enc_u256_list_push(pre, x);
            assert(pre.push(x) =~= list@.subrange(0, idx as int + 1));
        }
        cursor = next;
        idx = idx + 1;
    }
    proof {
        assert(list@.subrange(0, list@.len() as int) =~= list@);
    }
}

/// One aggregate public key, a pointer to the non-signer list, and the
/// non-signer count, which the writer keeps equal to the list's length.
#[derive(Clone, PartialEq, Eq, Debug)]
pub struct SignerDataCairo {
    pub aggregate_pub: G1PointCairo,
    pub non_signers: Vec<G1PointCairo>,
    pub n_non_signers: Felt,
}

impl SignerDataCairo {
    pub open spec fn spec_n_fields() -> int {
        10
    }

    /// The explicit non-signer count names the list's exact length.
    pub open spec fn wf(self) -> bool {
        self.n_non_signers == (Felt { lo: self.non_signers@.len() as u128, hi: 0 })
    }

    /// The memory after encoding: the aggregate key at `off`, a pointer at
    /// `off + 8` to a fresh segment holding the non-signers end to end, and
    /// the non-signer count at `off + 9`.
    pub open spec fn spec_encoded(self, m: MemView, seg: int, off: int) -> MemView {
        let fresh = m.len();
        let m1 = write_vals(m, seg, off, self.aggregate_pub.enc());
        let m2 = m1.push(Seq::<Option<CellValue>>::empty());
        let m3 = write_cell(
            m2,
            seg,
            off + 8,
            CellValue::Pointer(MemoryAddress { segment: fresh as usize, offset: 0 }),
        );
        let m4 = write_vals(m3, fresh as int, 0, enc_g1_list(self.non_signers@));
        write_cell(m4, seg, off + 9, CellValue::Felt(self.n_non_signers))
    }

    pub fn n_fields() -> (r: usize)
        ensures
            r as int == Self::spec_n_fields(),
    {
        G1PointCairo::n_fields() + 1 + 1
    }

    /// Writes the signer data at `address`. The writer enforces that the
    /// explicit count equals the list's length. The variable-length
    /// non-signer list takes exactly one pointer cell of the parent,
    /// whatever its length; the next free address is always `address + 10`
    /// on success.
    pub fn to_memory(&self, mem: &mut Memory, address: MemoryAddress) -> (r: Result<
        MemoryAddress,
        EncodeError,
    >)
        ensures
            r is Ok <==> (self.wf() && can_write_range(
                old(mem)@,
                address.segment as int,
                address.offset as int,
                Self::spec_n_fields(),
            ) && 8 * self.non_signers@.len() <= usize::MAX),
            r is Ok ==> final(mem)@ == self.spec_encoded(
                old(mem)@,
                address.segment as int,
                address.offset as int,
            ),
            r is Ok ==> r == Ok::<MemoryAddress, EncodeError>(
                MemoryAddress {
                    segment: address.segment,
                    offset: (address.offset + Self::spec_n_fields()) as usize,
                },
            ),
            r is Err ==> final(mem)@ == old(mem)@,
    {
        let ghost seg = address.segment as int;
        let ghost off = address.offset as int;
        if !(self.n_non_signers.lo == self.non_signers.len() as u128 && self.n_non_signers.hi
            == 0) {
            return Err(EncodeError::CountMismatch);
        }
        if self.non_signers.len() > usize::MAX / 8 {
            return Err(EncodeError::Memory(MemoryError::OffsetOverflow));
        }
        match mem.probe_range(address, 10) {
            Err(e) => {
                return Err(EncodeError::Memory(e));
            },
            Ok(_) => {},
        }
        proof {
            assert(can_write_range(old(mem)@, seg, off, 8));
        }
        let next8 = match self.aggregate_pub.to_memory(mem, address) {
            Ok(a) => a,
            Err(e) => {
                proof {
                    assert(false);
                }
                return Err(e);
            },
        };
        let ghost m1 = mem@;
        let list_base = mem.add_segment();
        let ghost m2 = mem@;
        let ghost fresh = old(mem)@.len() as int;
        proof {
            assert(self.aggregate_pub.enc().len() == 8);
            lemma_write_vals(old(mem)@, seg, off, self.aggregate_pub.enc());
            lemma_push_frame(m1, Seq::<Option<CellValue>>::empty());
            assert(mem_cell(m2, seg, off + 8) is None);
        }
        let res = mem.write(next8, CellValue::Pointer(list_base));
        match res {
            Err(e) => {
                proof {
                    assert(false);
                }
                return Err(EncodeError::Memory(e));
            },
            Ok(_) => {},
        }
        let ghost m3 = mem@;
        let ptr_next = match addr_add(next8, 1) {
            Ok(a) => a,
            Err(e) => {
                proof {
                    assert(false);
                }
                return Err(EncodeError::Memory(e));
            },
        };
        proof {
            lemma_write_cell(m2, seg, off + 8, CellValue::Pointer(list_base));
            assert forall|o: int| #[trigger] mem_cell(m3, fresh, o) is None by {
                assert(mem_cell(m2, fresh, o) is None);
            }
        }
        write_g1_list(mem, list_base, &self.non_signers);
        let ghost m4 = mem@;
        proof {
            lemma_write_vals(m3, fresh, 0, enc_g1_list(self.non_signers@));
            assert(mem_cell(m4, seg, off + 9) == mem_cell(m3, seg, off + 9));
            assert(mem_cell(m2, seg, off + 9) is None);
            assert(mem_cell(m4, seg, off + 9) is None);
        }
        let res2 = mem.write(ptr_next, CellValue::Felt(self.n_non_signers));
        match res2 {
            Err(e) => {
                proof {
                    assert(false);
                }
                return Err(EncodeError::Memory(e));
            },
            Ok(_) => {},
        }
        let current = match addr_add(ptr_next, 1) {
            Ok(a) => a,
            Err(e) => {
                proof {
                    assert(false);
                }
                return Err(EncodeError::Memory(e));
            },
        };
        let expected = match addr_add(address, Self::n_fields()) {
            Ok(a) => a,
            Err(e) => {
                proof {
                    assert(false);
                }
                return Err(EncodeError::Memory(e));
            },
        };
        if current.segment != expected.segment || current.offset != expected.offset {
            return Err(EncodeError::LayoutMismatch { expected, got: current });
        }
        proof {
            assert(list_base == (MemoryAddress { segment: fresh as usize, offset: 0 }));
            assert(mem@ == self.spec_encoded(old(mem)@, seg, off));
        }
        Ok(current)
    }
}

/// A Merkle inclusion proof for the execution payload header: root, sibling
/// path, leaf, leaf index, and the flattened per-field roots of the header.
/// The two variable-length members each take one pointer cell of the parent.
#[derive(Clone, PartialEq, Eq, Debug)]
pub struct ExecutionHeaderProofCairo {
    pub root: Uint256,
    pub path: Vec<Uint256Bits32>,
    pub leaf: Uint256,
    pub index: Felt,
    pub execution_payload_header: Vec<Uint256>,
}

impl ExecutionHeaderProofCairo {
    pub open spec fn spec_n_fields() -> int {
        7
    }

    /// The memory after encoding: root at `off`, a pointer at `off + 2` to a
    /// fresh segment holding the path, leaf at `off + 3`, index at `off + 5`,
    /// and a pointer at `off + 6` to a second fresh segment holding the
    /// flattened payload-header field roots.
    pub open spec fn spec_encoded(self, m: MemView, seg: int, off: int) -> MemView {
        let fresh1 = m.len();
        let fresh2 = m.len() + 1;
        let m1 = write_vals(m, seg, off, self.root.enc());
        let m2 = m1.push(Seq::<Option<CellValue>>::empty());
        let m3 = write_cell(
            m2,
            seg,
            off + 2,
            CellValue::Pointer(MemoryAddress { segment: fresh1 as usize, offset: 0 }),
        );
        let m4 = write_vals(m3, fresh1 as int, 0, enc_b32_list(self.path@));
        let m5 = write_vals(m4, seg, off + 3, self.leaf.enc());
        let m6 = write_vals(m5, seg, off + 5, self.index.enc());
        let m7 = m6.push(Seq::<Option<CellValue>>::empty());
        let m8 = write_cell(
            m7,
            seg,
            off + 6,
            CellValue::Pointer(MemoryAddress { segment: fresh2 as usize, offset: 0 }),
        );
        write_vals(m8, fresh2 as int, 0, enc_u256_list(self.execution_payload_header@))
    }

    pub fn n_fields() -> (r: usize)
        ensures
            r as int == Self::spec_n_fields(),
    {
        Uint256::n_fields() + 1 + Uint256::n_fields() + 1 + 1
    }

    /// Writes the proof at `address`. Each variable-length member takes
    /// exactly one pointer cell of the parent, whatever its length; the next
    /// free address is always `address + 7` on success.
    pub fn to_memory(&self, mem: &mut Memory, address: MemoryAddress) -> (r: Result<
        MemoryAddress,
        EncodeError,
    >)
        ensures
            r is Ok <==> (can_write_range(
                old(mem)@,
                address.segment as int,
                address.offset as int,
                Self::spec_n_fields(),
            ) && 8 * self.path@.len() <= usize::MAX && 2 * self.execution_payload_header@.len()
                <= usize::MAX),
            r is Ok ==> final(mem)@ == self.spec_encoded(
                old(mem)@,
                address.segment as int,
                address.offset as int,
            ),
            r is Ok ==> r == Ok::<MemoryAddress, EncodeError>(
                MemoryAddress {
                    segment: address.segment,
                    offset: (address.offset + Self::spec_n_fields()) as usize,
                },
            ),
            r is Err ==> final(mem)@ == old(mem)@,
    {
        let ghost seg = address.segment as int;
        let ghost off = address.offset as int;
        if self.path.len() > usize::MAX / 8 {
            return Err(EncodeError::Memory(MemoryError::OffsetOverflow));
        }
        if self.execution_payload_header.len() > usize::MAX / 2 {
            return Err(EncodeError::Memory(MemoryError::OffsetOverflow));
        }
        match mem.probe_range(address, 7) {
            Err(e) => {
                return Err(EncodeError::Memory(e));
            },
            Ok(_) => {},
        }
        proof {
            assert(can_write_range(old(mem)@, seg, off, 2));
        }
        let next2 = match self.root.to_memory(mem, address) {
            Ok(a) => a,
            Err(e) => {
                proof {
                    assert(false);
                }
                return Err(e);
            },
        };
        let ghost m1 = mem@;
        let path_base = mem.add_segment();
        let ghost m2 = mem@;
        let ghost fresh1 = old(mem)@.len() as int;
        proof {
            assert(self.root.enc().len() == 2);
            lemma_write_vals(old(mem)@, seg, off, self.root.enc());
            lemma_push_frame(m1, Seq::<Option<CellValue>>::empty());
            assert(mem_cell(m2, seg, off + 2) is None);
        }
        let res = mem.write(next2, CellValue::Pointer(path_base));
        match res {
            Err(e) => {
                proof {
                    assert(false);
                }
                return Err(EncodeError::Memory(e));
            },
            Ok(_) => {},
        }
        let ghost m3 = mem@;
        proof {
            lemma_write_cell(m2, seg, off + 2, CellValue::Pointer(path_base));
            assert forall|o: int| #[trigger] mem_cell(m3, fresh1, o) is None by {
                assert(mem_cell(m2, fresh1, o) is None);
            }
        }
        write_b32_list(mem, path_base, &self.path);
        let ghost m4 = mem@;
        proof {
            lemma_write_vals(m3, fresh1, 0, enc_b32_list(self.path@));
            assert forall|k: int| 0 <= k < 2 implies #[trigger] mem_cell(
                m4,
                seg,
                off + 3 + k,
            ) is None by {
                assert(mem_cell(m3, seg, off + 3 + k) == mem_cell(m4, seg, off + 3 + k));
                assert(mem_cell(old(mem)@, seg, off + (3 + k)) is None);
                assert(mem_cell(m2, seg, off + 3 + k) is None);
            }
            assert(can_write_range(m4, seg, off + 3, 2));
        }
        let leaf_addr = match addr_add(next2, 1) {
            Ok(a) => a,
            Err(e) => {
                proof {
                    assert(false);
                }
                return Err(EncodeError::Memory(e));
            },
        };
        let next5 = match self.leaf.to_memory(mem, leaf_addr) {
            Ok(a) => a,
            Err(e) => {
                proof {
                    assert(false);
                }
                return Err(e);
            },
        };
        let ghost m5 = mem@;
        proof {
            assert(self.leaf.enc().len() == 2);
            lemma_write_vals(m4, seg, off + 3, self.leaf.enc());
            assert(mem_cell(m5, seg, off + 5) == mem_cell(m4, seg, off + 5));
            assert(mem_cell(m2, seg, off + 5) is None);
            assert(can_write_range(m5, seg, off + 5, 1));
        }
        let next6 = match self.index.to_memory(mem, next5) {
            Ok(a) => a,
            Err(e) => {
                proof {
                    assert(false);
                }
                return Err(e);
            },
        };
        let ghost m6 = mem@;
        let payload_base = mem.add_segment();
        let ghost m7 = mem@;
        let ghost fresh2 = old(mem)@.len() as int + 1;
        proof {
            assert(self.index.enc().len() == 1);
            lemma_write_vals(m5, seg, off + 5, self.index.enc());
            lemma_push_frame(m6, Seq::<Option<CellValue>>::empty());
            assert(mem_cell(m6, seg, off + 6) == mem_cell(m5, seg, off + 6));
            assert(mem_cell(m5, seg, off + 6) == mem_cell(m4, seg, off + 6));
            assert(mem_cell(m2, seg, off + 6) is None);
            assert(mem_cell(m7, seg, off + 6) is None);
        }
        let res2 = mem.write(next6, CellValue::Pointer(payload_base));
        match res2 {
            Err(e) => {
                proof {
                    assert(false);
                }
                return Err(EncodeError::Memory(e));
            },
            Ok(_) => {},
        }
        let ghost m8 = mem@;
        proof {
            lemma_write_cell(m7, seg, off + 6, CellValue::Pointer(payload_base));
            assert forall|o: int| #[trigger] mem_cell(m8, fresh2, o) is None by {
                assert(mem_cell(m7, fresh2, o) is None);
            }
        }
        write_u256_list(mem, payload_base, &self.execution_payload_header);
        let current = match addr_add(next6, 1) {
            Ok(a) => a,
            Err(e) => {
                proof {
                    assert(false);
                }
                return Err(EncodeError::Memory(e));
            },
        };
        let expected = match addr_add(address, Self::n_fields()) {
            Ok(a) => a,
            Err(e) => {
                proof {
                    assert(false);
                }
                return Err(EncodeError::Memory(e));
            },
        };
        if current.segment != expected.segment || current.offset != expected.offset {
            return Err(EncodeError::LayoutMismatch { expected, got: current });
        }
        proof {
            assert(path_base == (MemoryAddress { segment: fresh1 as usize, offset: 0 }));
            assert(payload_base == (MemoryAddress { segment: fresh2 as usize, offset: 0 }));
            assert(mem@ == self.spec_encoded(old(mem)@, seg, off));
        }
        Ok(current)
    }
}

/// A sync-committee rotation: beacon slot, the Merkle branch committing the
/// next committee, the next aggregate committee key, and the committee-keys
/// root. The branch takes one pointer cell of the parent.
#[derive(Clone, PartialEq, Eq, Debug)]
pub struct SyncCommitteeDataCairo {
    pub beacon_slot: Felt,
    pub next_sync_committee_branch: Vec<Uint256Bits32>,
    pub next_aggregate_sync_committee: UInt384,
    pub committee_keys_root: Uint256Bits32,
}

impl SyncCommitteeDataCairo {
    pub open spec fn spec_n_fields() -> int {
        14
    }

    /// The memory after encoding: slot at `off`, a pointer at `off + 1` to a
    /// fresh segment holding the branch, the aggregate key at `off + 2`, and
    /// the committee-keys root at `off + 6`.
    pub open spec fn spec_encoded(self, m: MemView, seg: int, off: int) -> MemView {
        let fresh = m.len();
        let m1 = write_vals(m, seg, off, self.beacon_slot.enc());
        let m2 = m1.push(Seq::<Option<CellValue>>::empty());
        let m3 = write_cell(
            m2,
            seg,
            off + 1,
            CellValue::Pointer(MemoryAddress { segment: fresh as usize, offset: 0 }),
        );
        let m4 = write_vals(m3, fresh as int, 0, enc_b32_list(self.next_sync_committee_branch@));
        let m5 = write_vals(m4, seg, off + 2, self.next_aggregate_sync_committee.enc());
        write_vals(m5, seg, off + 6, self.committee_keys_root.enc())
    }

    pub fn n_fields() -> (r: usize)
        ensures
            r as int == Self::spec_n_fields(),
    {
        Felt::n_fields() + 1 + UInt384::n_fields() + Uint256Bits32::n_fields()
    }

    /// Writes the rotation data at `address`. The variable-length branch
    /// takes exactly one pointer cell of the parent, whatever its length;
    /// the next free address is always `address + 14` on success.
    pub fn to_memory(&self, mem: &mut Memory, address: MemoryAddress) -> (r: Result<
        MemoryAddress,
        EncodeError,
    >)
        ensures
            r is Ok <==> (can_write_range(
                old(mem)@,
                address.segment as int,
                address.offset as int,
                Self::spec_n_fields(),
            ) && 8 * self.next_sync_committee_branch@.len() <= usize::MAX),
            r is Ok ==> final(mem)@ == self.spec_encoded(
                old(mem)@,
                address.segment as int,
                address.offset as int,
            ),
            r is Ok ==> r == Ok::<MemoryAddress, EncodeError>(
                MemoryAddress {
                    segment: address.segment,
                    offset: (address.offset + Self::spec_n_fields()) as usize,
                },
            ),
            r is Err ==> final(mem)@ == old(mem)@,
    {
        let ghost seg = address.segment as int;
        let ghost off = address.offset as int;
        if self.next_sync_committee_branch.len() > usize::MAX / 8 {
            return Err(EncodeError::Memory(MemoryError::OffsetOverflow));
        }
        match mem.probe_range(address, 14) {
            Err(e) => {
                return Err(EncodeError::Memory(e));
            },
            Ok(_) => {},
        }
        proof {
            assert(can_write_range(old(mem)@, seg, off, 1));
        }
        let next1 = match self.beacon_slot.to_memory(mem, address) {
            Ok(a) => a,
            Err(e) => {
                proof {
                    assert(false);
                }
                return Err(e);
            },
        };
        let ghost m1 = mem@;
        let branch_base = mem.add_segment();
        let ghost m2 = mem@;
        let ghost fresh = old(mem)@.len() as int;
        proof {
            assert(self.beacon_slot.enc().len() == 1);
            lemma_write_vals(old(mem)@, seg, off, self.beacon_slot.enc());
            lemma_push_frame(m1, Seq::<Option<CellValue>>::empty());
            assert(mem_cell(m2, seg, off + 1) is None);
        }
        let res = mem.write(next1, CellValue::Pointer(branch_base));
        match res {
            Err(e) => {
                proof {
                    assert(false);
                }
                return Err(EncodeError::Memory(e));
            },
            Ok(_) => {},
        }
        let ghost m3 = mem@;
        proof {
            lemma_write_cell(m2, seg, off + 1, CellValue::Pointer(branch_base));
            assert forall|o: int| #[trigger] mem_cell(m3, fresh, o) is None by {
                assert(mem_cell(m2, fresh, o) is None);
            }
        }
        write_b32_list(mem, branch_base, &self.next_sync_committee_branch);
        let ghost m4 = mem@;
        proof {
            lemma_write_vals(m3, fresh, 0, enc_b32_list(self.next_sync_committee_branch@));
            assert forall|k: int| 0 <= k < 4 implies #[trigger] mem_cell(
                m4,
                seg,
                off + 2 + k,
            ) is None by {
                assert(mem_cell(m3, seg, off + 2 + k) == mem_cell(m4, seg, off + 2 + k));
                assert(mem_cell(old(mem)@, seg, off + (2 + k)) is None);
                assert(mem_cell(m2, seg, off + 2 + k) is None);
            }
            assert(can_write_range(m4, seg, off + 2, 4));
        }
        let agg_addr = match addr_add(next1, 1) {
            Ok(a) => a,
            Err(e) => {
                proof {
                    assert(false);
                }
                return Err(EncodeError::Memory(e));
            },
        };
        let next6 = match self.next_aggregate_sync_committee.to_memory(mem, agg_addr) {
            Ok(a) => a,
            Err(e) => {
                proof {
                    assert(false);
                }
                return Err(e);
            },
        };
        let ghost m5 = mem@;
        proof {
            assert(self.next_aggregate_sync_committee.enc().len() == 4);
            lemma_write_vals(m4, seg, off + 2, self.next_aggregate_sync_committee.enc());
            assert forall|k: int| 0 <= k < 8 implies #[trigger] mem_cell(
                m5,
                seg,
                off + 6 + k,
            ) is None by {
                assert(mem_cell(old(mem)@, seg, off + (6 + k)) is None);
                assert(mem_cell(m2, seg, off + 6 + k) is None);
                assert(mem_cell(m4, seg, off + 6 + k) is None);
            }
            assert(can_write_range(m5, seg, off + 6, 8));
        }
        let next14 = match self.committee_keys_root.to_memory(mem, next6) {
            Ok(a) => a,
            Err(e) => {
                proof {
                    assert(false);
                }
                return Err(e);
            },
        };
        let expected = match addr_add(address, Self::n_fields()) {
            Ok(a) => a,
            Err(e) => {
                proof {
                    assert(false);
                }
                return Err(EncodeError::Memory(e));
            },
        };
        if next14.segment != expected.segment || next14.offset != expected.offset {
            return Err(EncodeError::LayoutMismatch { expected, got: next14 });
        }
        proof {
            assert(branch_base == (MemoryAddress { segment: fresh as usize, offset: 0 }));
            assert(mem@ == self.spec_encoded(old(mem)@, seg, off));
        }
        Ok(next14)
    }
}

/// Encoding a committee rotation touches only its fourteen parent cells and
/// the one fresh segment it allocates: the variable-length branch costs the
/// parent exactly one pointer cell, whatever its length.
pub proof fn lemma_synccommittee_encoded_frame(
    v: SyncCommitteeDataCairo,
    m: MemView,
    seg: int,
    off: int,
)
    requires
        0 <= seg < m.len(),
        0 <= off,
    ensures
        v.spec_encoded(m, seg, off).len() == m.len() + 1,
        forall|s2: int, o2: int|
            0 <= s2 < m.len() && !(s2 == seg && off <= o2 < off + 14) ==> #[trigger] mem_cell(
                v.spec_encoded(m, seg, off),
                s2,
                o2,
            ) == mem_cell(m, s2, o2),
{
    let fresh = m.len() as int;
    let m1 = write_vals(m, seg, off, v.beacon_slot.enc());
    let m2 = m1.push(Seq::<Option<CellValue>>::empty());
    let m3 = write_cell(
        m2,
        seg,
        off + 1,
        CellValue::Pointer(MemoryAddress { segment: m.len() as usize, offset: 0 }),
    );
    let m4 = write_vals(m3, fresh, 0, enc_b32_list(v.next_sync_committee_branch@));
    let m5 = write_vals(m4, seg, off + 2, v.next_aggregate_sync_committee.enc());
    let m6 = write_vals(m5, seg, off + 6, v.committee_keys_root.enc());
    assert(v.beacon_slot.enc().len() == 1);
    assert(v.next_aggregate_sync_committee.enc().len() == 4);
    assert(v.committee_keys_root.enc().len() == 8);
    lemma_write_vals(m, seg, off, v.beacon_slot.enc());
    lemma_push_frame(m1, Seq::<Option<CellValue>>::empty());
    lemma_write_cell(m2, seg, off + 1, CellValue::Pointer(MemoryAddress { segment: m.len() as usize, offset: 0 }));
    lemma_write_vals(m3, fresh, 0, enc_b32_list(v.next_sync_committee_branch@));
    lemma_write_vals(m4, seg, off + 2, v.next_aggregate_sync_committee.enc());
    lemma_write_vals(m5, seg, off + 6, v.committee_keys_root.enc());
    assert forall|s2: int, o2: int|
        0 <= s2 < m.len() && !(s2 == seg && off <= o2 < off + 14) implies #[trigger] mem_cell(
        m6,
        s2,
        o2,
    ) == mem_cell(m, s2, o2) by {
        assert(mem_cell(m2, s2, o2) == mem_cell(m1, s2, o2));
    }
}

/// Encoding signer data touches only its ten parent cells and the one fresh
/// segment it allocates.
pub proof fn lemma_signer_encoded_frame(v: SignerDataCairo, m: MemView, seg: int, off: int)
    requires
        0 <= seg < m.len(),
        0 <= off,
    ensures
        v.spec_encoded(m, seg, off).len() == m.len() + 1,
        forall|s2: int, o2: int|
            0 <= s2 < m.len() && !(s2 == seg && off <= o2 < off + 10) ==> #[trigger] mem_cell(
                v.spec_encoded(m, seg, off),
                s2,
                o2,
            ) == mem_cell(m, s2, o2),
{
    let fresh = m.len() as int;
    let m1 = write_vals(m, seg, off, v.aggregate_pub.enc());
    let m2 = m1.push(Seq::<Option<CellValue>>::empty());
    let m3 = write_cell(
        m2,
        seg,
        off + 8,
        CellValue::Pointer(MemoryAddress { segment: m.len() as usize, offset: 0 }),
    );
    let m4 = write_vals(m3, fresh, 0, enc_g1_list(v.non_signers@));
    let m5 = write_cell(m4, seg, off + 9, CellValue::Felt(v.n_non_signers));
    assert(v.aggregate_pub.enc().len() == 8);
    lemma_write_vals(m, seg, off, v.aggregate_pub.enc());
    lemma_push_frame(m1, Seq::<Option<CellValue>>::empty());
    lemma_write_cell(m2, seg, off + 8, CellValue::Pointer(MemoryAddress { segment: m.len() as usize, offset: 0 }));
    lemma_write_vals(m3, fresh, 0, enc_g1_list(v.non_signers@));
    lemma_write_cell(m4, seg, off + 9, CellValue::Felt(v.n_non_signers));
    assert forall|s2: int, o2: int|
        0 <= s2 < m.len() && !(s2 == seg && off <= o2 < off + 10) implies #[trigger] mem_cell(
        m5,
        s2,
        o2,
    ) == mem_cell(m, s2, o2) by {
        assert(mem_cell(m2, s2, o2) == mem_cell(m1, s2, o2));
    }
}

/// Encoding an execution-header proof touches only its seven parent cells
/// and the two fresh segments it allocates.
pub proof fn lemma_execproof_encoded_frame(
    v: ExecutionHeaderProofCairo,
    m: MemView,
    seg: int,
    off: int,
)
    requires
        0 <= seg < m.len(),
        0 <= off,
    ensures
        v.spec_encoded(m, seg, off).len() == m.len() + 2,
        forall|s2: int, o2: int|
            0 <= s2 < m.len() && !(s2 == seg && off <= o2 < off + 7) ==> #[trigger] mem_cell(
                v.spec_encoded(m, seg, off),
                s2,
                o2,
            ) == mem_cell(m, s2, o2),
{
    let fresh1 = m.len() as int;
    let fresh2 = m.len() as int + 1;
    let m1 = write_vals(m, seg, off, v.root.enc());
    let m2 = m1.push(Seq::<Option<CellValue>>::empty());
    let m3 = write_cell(
        m2,
        seg,
        off + 2,
        CellValue::Pointer(MemoryAddress { segment: m.len() as usize, offset: 0 }),
    );
    let m4 = write_vals(m3, fresh1, 0, enc_b32_list(v.path@));
    let m5 = write_vals(m4, seg, off + 3, v.leaf.enc());
    let m6 = write_vals(m5, seg, off + 5, v.index.enc());
    let m7 = m6.push(Seq::<Option<CellValue>>::empty());
    let m8 = write_cell(
        m7,
        seg,
        off + 6,
        CellValue::Pointer(MemoryAddress { segment: (m.len() + 1) as usize, offset: 0 }),
    );
    let m9 = write_vals(m8, fresh2, 0, enc_u256_list(v.execution_payload_header@));
    assert(v.root.enc().len() == 2 && v.leaf.enc().len() == 2 && v.index.enc().len() == 1);
    lemma_write_vals(m, seg, off, v.root.enc());
    lemma_push_frame(m1, Seq::<Option<CellValue>>::empty());
    lemma_write_cell(m2, seg, off + 2, CellValue::Pointer(MemoryAddress { segment: m.len() as usize, offset: 0 }));
    lemma_write_vals(m3, fresh1, 0, enc_b32_list(v.path@));
    lemma_write_vals(m4, seg, off + 3, v.leaf.enc());
    lemma_write_vals(m5, seg, off + 5, v.index.enc());
    lemma_push_frame(m6, Seq::<Option<CellValue>>::empty());
    lemma_write_cell(m7, seg, off + 6, CellValue::Pointer(MemoryAddress { segment: (m.len() + 1) as usize, offset: 0 }));
    lemma_write_vals(m8, fresh2, 0, enc_u256_list(v.execution_payload_header@));
    assert forall|s2: int, o2: int|
        0 <= s2 < m.len() && !(s2 == seg && off <= o2 < off + 7) implies #[trigger] mem_cell(
        m9,
        s2,
        o2,
    ) == mem_cell(m, s2, o2) by {
        assert(mem_cell(m2, s2, o2) == mem_cell(m1, s2, o2));
        assert(mem_cell(m7, s2, o2) == mem_cell(m6, s2, o2));
    }
}

/// The per-epoch attestation payload: signature point, beacon header, signer
/// data, execution-header proof, encoded in that fixed order.
#[derive(Clone, PartialEq, Eq, Debug)]
pub struct EpochUpdateCairo {
    pub signature_point: G2PointCairo,
    pub header: BeaconHeaderCairo,
    pub signer_data: SignerDataCairo,
    pub execution_header_proof: ExecutionHeaderProofCairo,
}

impl EpochUpdateCairo {
    pub open spec fn spec_n_fields() -> int {
        43
    }

    /// The memory after encoding the four members in order: signature point
    /// at `off`, header at `off + 16`, signer data at `off + 26`, and the
    /// execution-header proof at `off + 36`.
    pub open spec fn spec_encoded(self, m: MemView, seg: int, off: int) -> MemView {
        let m1 = write_vals(m, seg, off, self.signature_point.enc());
        let m2 = write_vals(m1, seg, off + 16, self.header.enc());
        let m3 = self.signer_data.spec_encoded(m2, seg, off + 26);
        self.execution_header_proof.spec_encoded(m3, seg, off + 36)
    }

    pub fn n_fields() -> (r: usize)
        ensures
            r as int == Self::spec_n_fields(),
    {
        G2PointCairo::n_fields() + BeaconHeaderCairo::n_fields() + SignerDataCairo::n_fields()
            + ExecutionHeaderProofCairo::n_fields()
    }

    /// Writes the epoch update at `address`, threading the next free address
    /// through each member; it is always `address + 43` on success.
    pub fn to_memory(&self, mem: &mut Memory, address: MemoryAddress) -> (r: Result<
        MemoryAddress,
        EncodeError,
    >)
        ensures
            r is Ok <==> (self.signer_data.wf() && can_write_range(
                old(mem)@,
                address.segment as int,
                address.offset as int,
                Self::spec_n_fields(),
            ) && 8 * self.signer_data.non_signers@.len() <= usize::MAX && 8
                * self.execution_header_proof.path@.len() <= usize::MAX && 2
                * self.execution_header_proof.execution_payload_header@.len() <= usize::MAX),
            r is Ok ==> final(mem)@ == self.spec_encoded(
                old(mem)@,
                address.segment as int,
                address.offset as int,
            ),
            r is Ok ==> r == Ok::<MemoryAddress, EncodeError>(
                MemoryAddress {
                    segment: address.segment,
                    offset: (address.offset + Self::spec_n_fields()) as usize,
                },
            ),
            r is Err ==> final(mem)@ == old(mem)@,
    {
        let ghost seg = address.segment as int;
        let ghost off = address.offset as int;
        if !(self.signer_data.n_non_signers.lo == self.signer_data.non_signers.len() as u128
            && self.signer_data.n_non_signers.hi == 0) {
            return Err(EncodeError::CountMismatch);
        }
        if self.signer_data.non_signers.len() > usize::MAX / 8 {
            return Err(EncodeError::Memory(MemoryError::OffsetOverflow));
        }
        if self.execution_header_proof.path.len() > usize::MAX / 8 {
            return Err(EncodeError::Memory(MemoryError::OffsetOverflow));
        }
        if self.execution_header_proof.execution_payload_header.len() > usize::MAX / 2 {
            return Err(EncodeError::Memory(MemoryError::OffsetOverflow));
        }
        match mem.probe_range(address, 43) {
            Err(e) => {
                return Err(EncodeError::Memory(e));
            },
            Ok(_) => {},
        }
        proof {
            assert(can_write_range(old(mem)@, seg, off, 16));
        }
        let next16 = match self.signature_point.to_memory(mem, address) {
            Ok(a) => a,
            Err(e) => {
                proof {
                    assert(false);
                }
                return Err(e);
            },
        };
        let ghost m1 = mem@;
        proof {
            assert(self.signature_point.enc().len() == 16);
            lemma_write_vals(old(mem)@, seg, off, self.signature_point.enc());
            assert forall|k: int| 0 <= k < 10 implies #[trigger] mem_cell(
                m1,
                seg,
                off + 16 + k,
            ) is None by {
                assert(mem_cell(old(mem)@, seg, off + (16 + k)) is None);
            }
            assert(can_write_range(m1, seg, off + 16, 10));
        }
        let next26 = match self.header.to_memory(mem, next16) {
            Ok(a) => a,
            Err(e) => {
                proof {
                    assert(false);
                }
                return Err(e);
            },
        };
        let ghost m2 = mem@;
        proof {
            assert(self.header.enc().len() == 10);
            lemma_write_vals(m1, seg, off + 16, self.header.enc());
            assert forall|k: int| 0 <= k < 10 implies #[trigger] mem_cell(
                m2,
                seg,
                off + 26 + k,
            ) is None by {
                assert(mem_cell(old(mem)@, seg, off + (26 + k)) is None);
                assert(mem_cell(m1, seg, off + 26 + k) is None);
            }
            assert(can_write_range(m2, seg, off + 26, 10));
        }
        let next36 = match self.signer_data.to_memory(mem, next26) {
            Ok(a) => a,
            Err(e) => {
                proof {
                    assert(false);
                }
                return Err(e);
            },
        };
        let ghost m3 = mem@;
        proof {
            lemma_signer_encoded_frame(self.signer_data, m2, seg, off + 26);
            assert forall|k: int| 0 <= k < 7 implies #[trigger] mem_cell(
                m3,
                seg,
                off + 36 + k,
            ) is None by {
                assert(mem_cell(old(mem)@, seg, off + (36 + k)) is None);
                assert(mem_cell(m1, seg, off + 36 + k) is None);
                assert(mem_cell(m2, seg, off + 36 + k) is None);
                assert(mem_cell(m3, seg, off + 36 + k) == mem_cell(m2, seg, off + 36 + k));
            }
            assert(can_write_range(m3, seg, off + 36, 7));
        }
        let next43 = match self.execution_header_proof.to_memory(mem, next36) {
            Ok(a) => a,
            Err(e) => {
                proof {
                    assert(false);
                }
                return Err(e);
            },
        };
        proof {
            assert(mem@ == self.spec_encoded(old(mem)@, seg, off));
        }
        Ok(next43)
    }
}

/// Everything one recursive proving round consumes. The two optional members
/// carry their presence explicitly: the prior-proof artifact is absent
/// exactly on the genesis path, and the committee update is present exactly
/// when this epoch rotates the sync committee. All downstream flags are
/// derived from that presence, never supplied separately.
#[derive(Clone, PartialEq, Eq, Debug)]
pub struct RecursiveEpochInputsCairo {
    pub epoch_update: EpochUpdateCairo,
    pub sync_committee_update: Option<SyncCommitteeDataCairo>,
    /// The prior proving round's proof, an uninterpreted document carried
    /// verbatim as its serialized text.
    pub stone_proof: Option<String>,
    pub stark_proof_output: Option<RecursiveEpochOutputsCairo>,
}

/// One recursive round: its inputs and the outputs the circuit produced.
#[derive(Clone, PartialEq, Eq, Debug)]
pub struct RecursiveEpochUpdateCairo {
    pub inputs: RecursiveEpochInputsCairo,
    pub outputs: RecursiveEpochOutputsCairo,
}

/// Encoding an epoch update touches only its 43 parent cells and the three
/// fresh segments its members allocate.
pub proof fn lemma_epoch_update_encoded_frame(v: EpochUpdateCairo, m: MemView, seg: int, off: int)
    requires
        0 <= seg < m.len(),
        0 <= off,
    ensures
        v.spec_encoded(m, seg, off).len() == m.len() + 3,
        forall|s2: int, o2: int|
            0 <= s2 < m.len() && !(s2 == seg && off <= o2 < off + 43) ==> #[trigger] mem_cell(
                v.spec_encoded(m, seg, off),
                s2,
                o2,
            ) == mem_cell(m, s2, o2),
{
    let m1 = write_vals(m, seg, off, v.signature_point.enc());
    let m2 = write_vals(m1, seg, off + 16, v.header.enc());
    let m3 = v.signer_data.spec_encoded(m2, seg, off + 26);
    let m4 = v.execution_header_proof.spec_encoded(m3, seg, off + 36);
    assert(v.signature_point.enc().len() == 16);
    assert(v.header.enc().len() == 10);
    lemma_write_vals(m, seg, off, v.signature_point.enc());
    lemma_write_vals(m1, seg, off + 16, v.header.enc());
    lemma_signer_encoded_frame(v.signer_data, m2, seg, off + 26);
    lemma_execproof_encoded_frame(v.execution_header_proof, m3, seg, off + 36);
    assert forall|s2: int, o2: int|
        0 <= s2 < m.len() && !(s2 == seg && off <= o2 < off + 43) implies #[trigger] mem_cell(
        m4,
        s2,
        o2,
    ) == mem_cell(m, s2, o2) by {
        assert(mem_cell(m3, s2, o2) == mem_cell(m2, s2, o2));
        assert(mem_cell(m4, s2, o2) == mem_cell(m3, s2, o2));
    }
}

} // verus!
