//! BLS12-381 group elements: immutable value types, produced from input data
//! and never mutated, each with its fixed cell layout.

use vstd::prelude::*;

use crate::memory::{
    can_write_range, mem_cell, write_fixed, write_vals, CellValue, EncodeError, MemView, Memory,
    MemoryAddress,
};
use crate::memory::lemma_write_vals;
use crate::scalars::UInt384;

verus! {

/// A G1 point: two 384-bit coordinates, written x then y. The order is fixed
/// by the circuit and must not be permuted.
#[derive(Clone, Copy, PartialEq, Eq, Structural, Debug)]
pub struct G1PointCairo {
    pub x: UInt384,
    pub y: UInt384,
}

impl G1PointCairo {
    /// Its eight memory cells: the four limbs of x, then the four of y.
    pub open spec fn enc(self) -> Seq<CellValue> {
        self.x.enc() + self.y.enc()
    }

    pub open spec fn spec_n_fields() -> int {
        8
    }

    pub open spec fn dec(m: MemView, seg: int, off: int) -> Option<G1PointCairo> {
        match (UInt384::dec(m, seg, off), UInt384::dec(m, seg, off + 4)) {
            (Some(x), Some(y)) => Some(G1PointCairo { x, y }),
            _ => None,
        }
    }

    pub fn n_fields() -> (r: usize)
        ensures
            r as int == Self::spec_n_fields(),
    {
        8
    }

    /// The cells `to_memory` writes, in order.
    pub fn cells(&self) -> (r: Vec<CellValue>)
        ensures
            r@ == self.enc(),
    {
        let mut v = self.x.cells();
        let mut t = self.y.cells();
        v.append(&mut t);
        v
    }

    /// Writes the point at `address`; the next free address is always
    /// `address + 8` on success.
    pub fn to_memory(&self, mem: &mut Memory, address: MemoryAddress) -> (r: Result<
        MemoryAddress,
        EncodeError,
    >)
        ensures
            r is Ok <==> can_write_range(
                old(mem)@,
                address.segment as int,
                address.offset as int,
                Self::spec_n_fields(),
            ),
            r is Ok ==> final(mem)@ == write_vals(
                old(mem)@,
                address.segment as int,
                address.offset as int,
                self.enc(),
            ),
            r is Ok ==> r == Ok::<MemoryAddress, EncodeError>(
                MemoryAddress {
                    segment: address.segment,
                    offset: (address.offset + Self::spec_n_fields()) as usize,
                },
            ),
            r is Err ==> final(mem)@ == old(mem)@,
    {
        let cells = self.cells();
        write_fixed(mem, address, &cells, 8)
    }

    /// Reads a point back from `address`; used for verification and tests.
    pub fn from_memory(mem: &Memory, address: MemoryAddress) -> (r: Option<G1PointCairo>)
        requires
            address.offset + Self::spec_n_fields() - 1 <= usize::MAX,
        ensures
            r == Self::dec(mem@, address.segment as int, address.offset as int),
    {
        let x = match UInt384::from_memory(mem, address) {
            Some(x) => x,
            None => {
                return None;
            },
        };
        let a4 = MemoryAddress { segment: address.segment, offset: address.offset + 4 };
        let y = match UInt384::from_memory(mem, a4) {
            Some(y) => y,
            None => {
                return None;
            },
        };
        Some(G1PointCairo { x, y })
    }
}

/// Encoding then re-reading a G1 point reproduces it exactly.
pub proof fn lemma_g1_roundtrip(m: MemView, seg: int, off: int, v: G1PointCairo)
    requires
        0 <= seg < m.len(),
        0 <= off,
    ensures
        G1PointCairo::dec(write_vals(m, seg, off, v.enc()), seg, off) == Some(v),
{
    lemma_write_vals(m, seg, off, v.enc());
    let m2 = write_vals(m, seg, off, v.enc());
    assert(mem_cell(m2, seg, off) == Some(v.enc()[0]));
    assert(UInt384::dec(m2, seg, off) == Some(v.x));
    assert(UInt384::dec(m2, seg, off + 4) == Some(v.y));
}

/// A G2 point: four 384-bit coordinates, written x0, x1, y0, y1. The order
/// is fixed by the circuit and must not be permuted.
#[derive(Clone, Copy, PartialEq, Eq, Structural, Debug)]
pub struct G2PointCairo {
    pub x0: UInt384,
    pub x1: UInt384,
    pub y0: UInt384,
    pub y1: UInt384,
}

impl G2PointCairo {
    /// Its sixteen memory cells: the limbs of x0, x1, y0, y1 in that order.
    pub open spec fn enc(self) -> Seq<CellValue> {
        self.x0.enc() + self.x1.enc() + self.y0.enc() + self.y1.enc()
    }

    pub open spec fn spec_n_fields() -> int {
        16
    }

    pub open spec fn dec(m: MemView, seg: int, off: int) -> Option<G2PointCairo> {
        match (
            UInt384::dec(m, seg, off),
            UInt384::dec(m, seg, off + 4),
            UInt384::dec(m, seg, off + 8),
            UInt384::dec(m, seg, off + 12),
        ) {
            (Some(x0), Some(x1), Some(y0), Some(y1)) => Some(G2PointCairo { x0, x1, y0, y1 }),
            _ => None,
        }
    }

    pub fn n_fields() -> (r: usize)
        ensures
            r as int == Self::spec_n_fields(),
    {
        16
    }

    /// The cells `to_memory` writes, in order.
    pub fn cells(&self) -> (r: Vec<CellValue>)
        ensures
            r@ == self.enc(),
    {
        let mut v = self.x0.cells();
        let mut t1 = self.x1.cells();
        v.append(&mut t1);
        let mut t2 = self.y0.cells();
        v.append(&mut t2);
        let mut t3 = self.y1.cells();
        v.append(&mut t3);
        v
    }

    /// Writes the point at `address`; the next free address is always
    /// `address + 16` on success.
    pub fn to_memory(&self, mem: &mut Memory, address: MemoryAddress) -> (r: Result<
        MemoryAddress,
        EncodeError,
    >)
        ensures
            r is Ok <==> can_write_range(
                old(mem)@,
                address.segment as int,
                address.offset as int,
                Self::spec_n_fields(),
            ),
            r is Ok ==> final(mem)@ == write_vals(
                old(mem)@,
                address.segment as int,
                address.offset as int,
                self.enc(),
            ),
            r is Ok ==> r == Ok::<MemoryAddress, EncodeError>(
                MemoryAddress {
                    segment: address.segment,
                    offset: (address.offset + Self::spec_n_fields()) as usize,
                },
            ),
            r is Err ==> final(mem)@ == old(mem)@,
    {
        let cells = self.cells();
        write_fixed(mem, address, &cells, 16)
    }

    /// Reads a point back from `address`; used for verification and tests.
    pub fn from_memory(mem: &Memory, address: MemoryAddress) -> (r: Option<G2PointCairo>)
        requires
            address.offset + Self::spec_n_fields() - 1 <= usize::MAX,
        ensures
            r == Self::dec(mem@, address.segment as int, address.offset as int),
    {
        let x0 = match UInt384::from_memory(mem, address) {
            Some(v) => v,
            None => {
                return None;
            },
        };
        let x1 = match UInt384::from_memory(
            mem,
            MemoryAddress { segment: address.segment, offset: address.offset + 4 },
        ) {
            Some(v) => v,
            None => {
                return None;
            },
        };
        let y0 = match UInt384::from_memory(
            mem,
            MemoryAddress { segment: address.segment, offset: address.offset + 8 },
        ) {
            Some(v) => v,
            None => {
                return None;
            },
        };
        let y1 = match UInt384::from_memory(
            mem,
            MemoryAddress { segment: address.segment, offset: address.offset + 12 },
        ) {
            Some(v) => v,
            None => {
                return None;
            },
        };
        Some(G2PointCairo { x0, x1, y0, y1 })
    }
}

/// Encoding then re-reading a G2 point reproduces it exactly.
pub proof fn lemma_g2_roundtrip(m: MemView, seg: int, off: int, v: G2PointCairo)
    requires
        0 <= seg < m.len(),
        0 <= off,
    ensures
        G2PointCairo::dec(write_vals(m, seg, off, v.enc()), seg, off) == Some(v),
{
    lemma_write_vals(m, seg, off, v.enc());
    let m2 = write_vals(m, seg, off, v.enc());
    assert(UInt384::dec(m2, seg, off) == Some(v.x0));
    assert(UInt384::dec(m2, seg, off + 4) == Some(v.x1));
    assert(UInt384::dec(m2, seg, off + 8) == Some(v.y0));
    assert(UInt384::dec(m2, seg, off + 12) == Some(v.y1));
}

/// A list of G1 points, encoded end to end.
pub open spec fn enc_g1_list(list: Seq<G1PointCairo>) -> Seq<CellValue>
    decreases list.len(),
{
    if list.len() == 0 {
        Seq::empty()
    } else {
        list[0].enc() + enc_g1_list(list.drop_first())
    }
}

/// An encoded list of G1 points takes eight cells per point.
pub proof fn lemma_enc_g1_list_len(list: Seq<G1PointCairo>)
    ensures
        enc_g1_list(list).len() == 8 * list.len(),
    decreases list.len(),
{
    if list.len() > 0 {
        lemma_enc_g1_list_len(list.drop_first());
    }
}

/// Appending a point to the list appends its cells to the encoding.
pub proof fn lemma_enc_g1_list_push(list: Seq<G1PointCairo>, x: G1PointCairo)
    ensures
        enc_g1_list(list.push(x)) == enc_g1_list(list) + x.enc(),
    decreases list.len(),
{
    if list.len() == 0 {
        assert(list.push(x).drop_first() =~= Seq::<G1PointCairo>::empty());
        assert(list.push(x)[0] == x);
        assert(enc_g1_list(Seq::<G1PointCairo>::empty()) == Seq::<CellValue>::empty());
        assert(enc_g1_list(list.push(x)) =~= enc_g1_list(list) + x.enc());
    } else {
        assert(list.push(x).drop_first() =~= list.drop_first().push(x));
        assert(list.push(x)[0] == list[0]);
        lemma_enc_g1_list_push(list.drop_first(), x);
        assert(enc_g1_list(list.push(x)) == list[0].enc() + (enc_g1_list(list.drop_first())
            + x.enc()));
        assert(enc_g1_list(list.push(x)) =~= enc_g1_list(list) + x.enc());
    }
}

} // verus!
