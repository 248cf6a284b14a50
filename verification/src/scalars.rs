//! Fixed-width scalar quantities — 256-bit and 384-bit values as small fixed
//! numbers of limbs — and their memory writers and readers.

use vstd::prelude::*;
use vstd::arithmetic::power2::{pow2, lemma_pow2_adds, lemma_pow2_strictly_increases, lemma2_to64};

use crate::felt::Felt;
use crate::memory::{
    addr_add, can_write_range, mem_cell, write_fixed, write_vals, CellValue, EncodeError, MemView,
    Memory, MemoryAddress,
};
use crate::memory::lemma_write_vals;

verus! {

/// The integer a big-endian byte string stands for.
pub open spec fn be_bytes_int(s: Seq<u8>) -> int
    decreases s.len(),
{
    if s.len() == 0 {
        0
    } else {
        be_bytes_int(s.drop_last()) * 256 + s.last()
    }
}

/// Concrete values for the powers of two the limb widths need.
pub proof fn lemma_pow2_limb_widths()
    ensures
        pow2(96) == 0x1000000000000000000000000,
        pow2(120) == 0x1000000000000000000000000000000,
        pow2(128) == 0x100000000000000000000000000000000,
{
    lemma2_to64();
    lemma_pow2_adds(64, 32);
    lemma_pow2_adds(96, 24);
    lemma_pow2_adds(64, 64);
}

/// `n` big-endian bytes stand for a value below `2^(8n)`.
pub proof fn lemma_be_bytes_bound(s: Seq<u8>)
    ensures
        0 <= be_bytes_int(s) < pow2((8 * s.len()) as nat),
    decreases s.len(),
{
    if s.len() == 0 {
        lemma2_to64();
    } else {
        lemma_be_bytes_bound(s.drop_last());
        lemma_pow2_adds((8 * (s.len() - 1)) as nat, 8);
        lemma2_to64();
    }
}

/// All-zero bytes stand for zero.
pub proof fn lemma_be_bytes_zero(s: Seq<u8>)
    requires
        forall|i: int| 0 <= i < s.len() ==> s[i] == 0,
    ensures
        be_bytes_int(s) == 0,
    decreases s.len(),
{
    if s.len() > 0 {
        lemma_be_bytes_zero(s.drop_last());
    }
}

/// Concatenation shifts the left part past the right part.
pub proof fn lemma_be_bytes_concat(s1: Seq<u8>, s2: Seq<u8>)
    ensures
        be_bytes_int(s1 + s2) == be_bytes_int(s1) * pow2((8 * s2.len()) as nat) + be_bytes_int(s2),
    decreases s2.len(),
{
    if s2.len() == 0 {
        assert(s1 + s2 =~= s1);
        lemma2_to64();
        assert(be_bytes_int(s2) == 0);
        assert(pow2((8 * s2.len()) as nat) == 1);
        assert(be_bytes_int(s1 + s2) == be_bytes_int(s1));
    } else {
        let s2p = s2.drop_last();
        let a = be_bytes_int(s1);
        let p = pow2((8 * s2p.len()) as nat) as int;
        lemma_be_bytes_concat(s1, s2p);
        assert((s1 + s2).drop_last() =~= s1 + s2p);
        assert(be_bytes_int(s1 + s2) == (a * p + be_bytes_int(s2p)) * 256 + s2.last());
        lemma_pow2_adds((8 * s2p.len()) as nat, 8);
        lemma2_to64();
        assert(pow2((8 * s2.len()) as nat) == p * 256);
        assert((a * p + be_bytes_int(s2p)) * 256 == a * (p * 256) + be_bytes_int(s2p) * 256)
            by (nonlinear_arith);
        assert(be_bytes_int(s2) == be_bytes_int(s2p) * 256 + s2.last());
        assert(be_bytes_int(s1 + s2) == a * (p * 256) + be_bytes_int(s2));
        assert(a * (p * 256) == a * pow2((8 * s2.len()) as nat));
    }
}

/// Folds up to sixteen big-endian bytes of a fixed array into one quantity.
pub fn be_u128_of<const N: usize>(bytes: &[u8; N], start: usize, end: usize) -> (r: u128)
    requires
        start <= end,
        end as int <= N as int,
        end - start <= 16,
    ensures
        r as int == be_bytes_int(bytes@.subrange(start as int, end as int)),
{
    let mut acc: u128 = 0;
    let mut i: usize = start;
    proof {
        assert(bytes@.subrange(start as int, start as int) =~= Seq::<u8>::empty());
    }
    while i < end
        invariant
            start <= i <= end,
            end as int <= N as int,
            end - start <= 16,
            acc as int == be_bytes_int(bytes@.subrange(start as int, i as int)),
        decreases end - i,
    {
        proof {
            let pre = bytes@.subrange(start as int, i as int);
            let nxt = bytes@.subrange(start as int, i as int + 1);
            lemma_be_bytes_bound(pre);
            lemma_pow2_limb_widths();
            if 8 * pre.len() < 120 {
                lemma_pow2_strictly_increases((8 * pre.len()) as nat, 120);
            }
            assert(nxt.drop_last() =~= pre);
            assert(nxt.last() == bytes@[i as int]);
        }
        acc = acc * 256 + (bytes[i] as u128);
        i = i + 1;
    }
    acc
}

/// A 256-bit quantity as two 128-bit limbs, low limb first, as the circuit's
/// 256-bit input type expects them.
#[derive(Clone, Copy, PartialEq, Eq, Structural, Debug)]
pub struct Uint256 {
    pub low: u128,
    pub high: u128,
}

impl Uint256 {
    /// The 256-bit integer the limbs stand for.
    pub open spec fn as_int(self) -> int {
        self.low as int + self.high as int * 0x100000000000000000000000000000000
    }

    /// Its two memory cells: the low limb, then the high limb.
    pub open spec fn enc(self) -> Seq<CellValue> {
        seq![
            CellValue::Felt(Felt { lo: self.low, hi: 0 }),
            CellValue::Felt(Felt { lo: self.high, hi: 0 }),
        ]
    }

    pub open spec fn spec_n_fields() -> int {
        2
    }

    /// Re-reads the value a well-formed encoding at `(seg, off)` stands for.
    pub open spec fn dec(m: MemView, seg: int, off: int) -> Option<Uint256> {
        match (mem_cell(m, seg, off), mem_cell(m, seg, off + 1)) {
            (Some(CellValue::Felt(f0)), Some(CellValue::Felt(f1))) => if f0.hi == 0 && f1.hi
                == 0 {
                Some(Uint256 { low: f0.lo, high: f1.lo })
            } else {
                None
            },
            _ => None,
        }
    }

    /// The 256-bit value of 32 big-endian bytes.
    pub fn from_bytes_be(bytes: &[u8; 32]) -> (r: Uint256)
        ensures
            r.low as int == be_bytes_int(bytes@.subrange(16, 32)),
            r.high as int == be_bytes_int(bytes@.subrange(0, 16)),
            r.as_int() == be_bytes_int(bytes@),
    {
        let high = be_u128_of(bytes, 0, 16);
        let low = be_u128_of(bytes, 16, 32);
        proof {
            lemma_be_bytes_concat(bytes@.subrange(0, 16), bytes@.subrange(16, 32));
            assert(bytes@.subrange(0, 16) + bytes@.subrange(16, 32) =~= bytes@);
            lemma_pow2_limb_widths();
        }
        Uint256 { low, high }
    }

    pub fn n_fields() -> (r: usize)
        ensures
            r as int == Self::spec_n_fields(),
    {
        2
    }

    /// The cells `to_memory` writes, in order.
    pub fn cells(&self) -> (r: Vec<CellValue>)
        ensures
            r@ == self.enc(),
    {
        let mut v: Vec<CellValue> = Vec::new();
        v.push(CellValue::Felt(Felt { lo: self.low, hi: 0 }));
        v.push(CellValue::Felt(Felt { lo: self.high, hi: 0 }));
        proof {
            assert(v@ =~= self.enc());
        }
        v
    }

    /// Writes the value at `address` and returns the next free address,
    /// which is always `address + 2` on success.
    pub fn to_memory(&self, mem: &mut Memory, address: MemoryAddress) -> (r: Result<
        MemoryAddress,
        EncodeError,
    >)
        ensures
            r is Ok <==> can_write_range(
                old(mem)@,
                address.segment as int,
                address.offset as int,
                Self::spec_n_fields(),
            ),
            r is Ok ==> final(mem)@ == write_vals(
                old(mem)@,
                address.segment as int,
                address.offset as int,
                self.enc(),
            ),
            r is Ok ==> r == Ok::<MemoryAddress, EncodeError>(
                MemoryAddress {
                    segment: address.segment,
                    offset: (address.offset + Self::spec_n_fields()) as usize,
                },
            ),
            r is Err ==> final(mem)@ == old(mem)@,
    {
        let cells = self.cells();
        write_fixed(mem, address, &cells, 2)
    }

    /// Reads a value back from `address`; used for verification and tests.
    pub fn from_memory(mem: &Memory, address: MemoryAddress) -> (r: Option<Uint256>)
        requires
            address.offset + Self::spec_n_fields() - 1 <= usize::MAX,
        ensures
            r == Self::dec(mem@, address.segment as int, address.offset as int),
    {
        let c0 = mem.read(address);
        let a1 = match addr_add(address, 1) {
            Ok(a1) => a1,
            Err(_) => {
                return None;
            },
        };
        let c1 = mem.read(a1);
        match (c0, c1) {
            (Some(CellValue::Felt(f0)), Some(CellValue::Felt(f1))) => {
                if f0.hi == 0 && f1.hi == 0 {
                    Some(Uint256 { low: f0.lo, high: f1.lo })
                } else {
                    None
                }
            },
            _ => None,
        }
    }
}

/// Encoding then re-reading a 256-bit value reproduces it exactly.
pub proof fn lemma_uint256_roundtrip(m: MemView, seg: int, off: int, v: Uint256)
    requires
        0 <= seg < m.len(),
        0 <= off,
    ensures
        Uint256::dec(write_vals(m, seg, off, v.enc()), seg, off) == Some(v),
{
    lemma_write_vals(m, seg, off, v.enc());
}

/// A 384-bit quantity as four 96-bit limbs, least-significant limb first.
#[derive(Clone, Copy, PartialEq, Eq, Structural, Debug)]
pub struct UInt384 {
    pub d0: u128,
    pub d1: u128,
    pub d2: u128,
    pub d3: u128,
}

/// Exclusive upper bound of one 96-bit limb of a [`UInt384`].
pub const UINT384_LIMB_BOUND: u128 = 0x1000000000000000000000000;

impl UInt384 {
    /// Well-formedness: each limb stays within 96 bits.
    pub open spec fn wf(self) -> bool {
        self.d0 < UINT384_LIMB_BOUND && self.d1 < UINT384_LIMB_BOUND && self.d2
            < UINT384_LIMB_BOUND && self.d3 < UINT384_LIMB_BOUND
    }

    /// The 384-bit integer the limbs stand for.
    pub open spec fn as_int(self) -> int {
        self.d0 as int + self.d1 as int * 0x1000000000000000000000000 + self.d2 as int
            * 0x1000000000000000000000000000000000000000000000000 + self.d3 as int
            * 0x1000000000000000000000000000000000000000000000000000000000000000000000000
    }

    /// Its four memory cells, least-significant limb first.
    pub open spec fn enc(self) -> Seq<CellValue> {
        seq![
            CellValue::Felt(Felt { lo: self.d0, hi: 0 }),
            CellValue::Felt(Felt { lo: self.d1, hi: 0 }),
            CellValue::Felt(Felt { lo: self.d2, hi: 0 }),
            CellValue::Felt(Felt { lo: self.d3, hi: 0 }),
        ]
    }

    pub open spec fn spec_n_fields() -> int {
        4
    }

    pub open spec fn dec(m: MemView, seg: int, off: int) -> Option<UInt384> {
        match (
            mem_cell(m, seg, off),
            mem_cell(m, seg, off + 1),
            mem_cell(m, seg, off + 2),
            mem_cell(m, seg, off + 3),
        ) {
            (
                Some(CellValue::Felt(f0)),
                Some(CellValue::Felt(f1)),
                Some(CellValue::Felt(f2)),
                Some(CellValue::Felt(f3)),
            ) => if f0.hi == 0 && f1.hi == 0 && f2.hi == 0 && f3.hi == 0 {
                Some(UInt384 { d0: f0.lo, d1: f1.lo, d2: f2.lo, d3: f3.lo })
            } else {
                None
            },
            _ => None,
        }
    }

    /// A 384-bit value from its four 96-bit limbs.
    pub fn from_limbs(d0: u128, d1: u128, d2: u128, d3: u128) -> (r: UInt384)
        requires
            d0 < UINT384_LIMB_BOUND,
            d1 < UINT384_LIMB_BOUND,
            d2 < UINT384_LIMB_BOUND,
            d3 < UINT384_LIMB_BOUND,
        ensures
            r == (UInt384 { d0, d1, d2, d3 }),
            r.wf(),
    {
        UInt384 { d0, d1, d2, d3 }
    }

    /// The 384-bit value of 48 big-endian bytes.
    pub fn from_bytes_be(bytes: &[u8; 48]) -> (r: UInt384)
        ensures
            r.d0 as int == be_bytes_int(bytes@.subrange(36, 48)),
            r.d1 as int == be_bytes_int(bytes@.subrange(24, 36)),
            r.d2 as int == be_bytes_int(bytes@.subrange(12, 24)),
            r.d3 as int == be_bytes_int(bytes@.subrange(0, 12)),
            r.wf(),
    {
        let d3 = be_u128_of(bytes, 0, 12);
        let d2 = be_u128_of(bytes, 12, 24);
        let d1 = be_u128_of(bytes, 24, 36);
        let d0 = be_u128_of(bytes, 36, 48);
        proof {
            lemma_be_bytes_bound(bytes@.subrange(0, 12));
            lemma_be_bytes_bound(bytes@.subrange(12, 24));
            lemma_be_bytes_bound(bytes@.subrange(24, 36));
            lemma_be_bytes_bound(bytes@.subrange(36, 48));
            lemma_pow2_limb_widths();
        }
        UInt384 { d0, d1, d2, d3 }
    }

    pub fn n_fields() -> (r: usize)
        ensures
            r as int == Self::spec_n_fields(),
    {
        4
    }

    /// The cells `to_memory` writes, in order.
    pub fn cells(&self) -> (r: Vec<CellValue>)
        ensures
            r@ == self.enc(),
    {
        let mut v: Vec<CellValue> = Vec::new();
        v.push(CellValue::Felt(Felt { lo: self.d0, hi: 0 }));
        v.push(CellValue::Felt(Felt { lo: self.d1, hi: 0 }));
        v.push(CellValue::Felt(Felt { lo: self.d2, hi: 0 }));
        v.push(CellValue::Felt(Felt { lo: self.d3, hi: 0 }));
        proof {
            assert(v@ =~= self.enc());
        }
        v
    }

    /// Writes the value at `address`; the next free address is always
    /// `address + 4` on success.
    pub fn to_memory(&self, mem: &mut Memory, address: MemoryAddress) -> (r: Result<
        MemoryAddress,
        EncodeError,
    >)
        ensures
            r is Ok <==> can_write_range(
                old(mem)@,
                address.segment as int,
                address.offset as int,
                Self::spec_n_fields(),
            ),
            r is Ok ==> final(mem)@ == write_vals(
                old(mem)@,
                address.segment as int,
                address.offset as int,
                self.enc(),
            ),
            r is Ok ==> r == Ok::<MemoryAddress, EncodeError>(
                MemoryAddress {
                    segment: address.segment,
                    offset: (address.offset + Self::spec_n_fields()) as usize,
                },
            ),
            r is Err ==> final(mem)@ == old(mem)@,
    {
        let cells = self.cells();
        write_fixed(mem, address, &cells, 4)
    }

    /// Reads a value back from `address`; used for verification and tests.
    pub fn from_memory(mem: &Memory, address: MemoryAddress) -> (r: Option<UInt384>)
        requires
            address.offset + Self::spec_n_fields() - 1 <= usize::MAX,
        ensures
            r == Self::dec(mem@, address.segment as int, address.offset as int),
    {
        let c0 = mem.read(address);
        let c1 = match addr_add(address, 1) {
            Ok(a) => mem.read(a),
            Err(_) => {
                return None;
            },
        };
        let c2 = match addr_add(address, 2) {
            Ok(a) => mem.read(a),
            Err(_) => {
                return None;
            },
        };
        let c3 = match addr_add(address, 3) {
            Ok(a) => mem.read(a),
            Err(_) => {
                return None;
            },
        };
        match (c0, c1, c2, c3) {
            (
                Some(CellValue::Felt(f0)),
                Some(CellValue::Felt(f1)),
                Some(CellValue::Felt(f2)),
                Some(CellValue::Felt(f3)),
            ) => {
                if f0.hi == 0 && f1.hi == 0 && f2.hi == 0 && f3.hi == 0 {
                    Some(UInt384 { d0: f0.lo, d1: f1.lo, d2: f2.lo, d3: f3.lo })
                } else {
                    None
                }
            },
            _ => None,
        }
    }
}

/// Encoding then re-reading a 384-bit value reproduces it exactly.
pub proof fn lemma_uint384_roundtrip(m: MemView, seg: int, off: int, v: UInt384)
    requires
        0 <= seg < m.len(),
        0 <= off,
    ensures
        UInt384::dec(write_vals(m, seg, off, v.enc()), seg, off) == Some(v),
{
    lemma_write_vals(m, seg, off, v.enc());
}

/// A 256-bit hash as eight 32-bit big-endian words, most-significant word
/// first: the shape the circuit's hashing builtin consumes.
#[derive(Clone, Copy, PartialEq, Eq, Structural, Debug)]
pub struct Uint256Bits32 {
    pub w0: u32,
    pub w1: u32,
    pub w2: u32,
    pub w3: u32,
    pub w4: u32,
    pub w5: u32,
    pub w6: u32,
    pub w7: u32,
}

impl Uint256Bits32 {
    /// Its eight memory cells, most-significant word first.
    pub open spec fn enc(self) -> Seq<CellValue> {
        seq![
            CellValue::Felt(Felt { lo: self.w0 as u128, hi: 0 }),
            CellValue::Felt(Felt { lo: self.w1 as u128, hi: 0 }),
            CellValue::Felt(Felt { lo: self.w2 as u128, hi: 0 }),
            CellValue::Felt(Felt { lo: self.w3 as u128, hi: 0 }),
            CellValue::Felt(Felt { lo: self.w4 as u128, hi: 0 }),
            CellValue::Felt(Felt { lo: self.w5 as u128, hi: 0 }),
            CellValue::Felt(Felt { lo: self.w6 as u128, hi: 0 }),
            CellValue::Felt(Felt { lo: self.w7 as u128, hi: 0 }),
        ]
    }

    pub open spec fn spec_n_fields() -> int {
        8
    }

    /// The word at position `i`, as the encoding orders them.
    pub open spec fn spec_word(self, i: int) -> u32 {
        if i == 0 {
            self.w0
        } else if i == 1 {
            self.w1
        } else if i == 2 {
            self.w2
        } else if i == 3 {
            self.w3
        } else if i == 4 {
            self.w4
        } else if i == 5 {
            self.w5
        } else if i == 6 {
            self.w6
        } else {
            self.w7
        }
    }

    pub open spec fn dec(m: MemView, seg: int, off: int) -> Option<Uint256Bits32> {
        match (
            mem_cell(m, seg, off),
            mem_cell(m, seg, off + 1),
            mem_cell(m, seg, off + 2),
            mem_cell(m, seg, off + 3),
            mem_cell(m, seg, off + 4),
            mem_cell(m, seg, off + 5),
            mem_cell(m, seg, off + 6),
            mem_cell(m, seg, off + 7),
        ) {
            (
                Some(CellValue::Felt(f0)),
                Some(CellValue::Felt(f1)),
                Some(CellValue::Felt(f2)),
                Some(CellValue::Felt(f3)),
                Some(CellValue::Felt(f4)),
                Some(CellValue::Felt(f5)),
                Some(CellValue::Felt(f6)),
                Some(CellValue::Felt(f7)),
            ) => if f0.hi == 0 && f0.lo < 0x100000000 && f1.hi == 0 && f1.lo < 0x100000000
                && f2.hi == 0 && f2.lo < 0x100000000 && f3.hi == 0 && f3.lo < 0x100000000
                && f4.hi == 0 && f4.lo < 0x100000000 && f5.hi == 0 && f5.lo < 0x100000000
                && f6.hi == 0 && f6.lo < 0x100000000 && f7.hi == 0 && f7.lo < 0x100000000 {
                Some(
                    Uint256Bits32 {
                        w0: f0.lo as u32,
                        w1: f1.lo as u32,
                        w2: f2.lo as u32,
                        w3: f3.lo as u32,
                        w4: f4.lo as u32,
                        w5: f5.lo as u32,
                        w6: f6.lo as u32,
                        w7: f7.lo as u32,
                    },
                )
            } else {
                None
            },
            _ => None,
        }
    }

    /// The eight words of 32 big-endian bytes.
    pub fn from_bytes_be(bytes: &[u8; 32]) -> (r: Uint256Bits32)
        ensures
            forall|i: int|
                0 <= i < 8 ==> #[trigger] r.spec_word(i) as int == be_bytes_int(
                    bytes@.subrange(4 * i, 4 * i + 4),
                ),
    {
        let w0 = Self::word_of(bytes, 0);
        let w1 = Self::word_of(bytes, 4);
        let w2 = Self::word_of(bytes, 8);
        let w3 = Self::word_of(bytes, 12);
        let w4 = Self::word_of(bytes, 16);
        let w5 = Self::word_of(bytes, 20);
        let w6 = Self::word_of(bytes, 24);
        let w7 = Self::word_of(bytes, 28);
        Uint256Bits32 { w0, w1, w2, w3, w4, w5, w6, w7 }
    }

    /// One big-endian 32-bit word of the hash.
    fn word_of(bytes: &[u8; 32], start: usize) -> (r: u32)
        requires
            start + 4 <= 32,
        ensures
            r as int == be_bytes_int(bytes@.subrange(start as int, start as int + 4)),
    {
        let v = be_u128_of(bytes, start, start + 4);
        proof {
            lemma_be_bytes_bound(bytes@.subrange(start as int, start as int + 4));
            lemma2_to64();
        }
        v as u32
    }

    pub fn n_fields() -> (r: usize)
        ensures
            r as int == Self::spec_n_fields(),
    {
        8
    }

    /// The cells `to_memory` writes, in order.
    pub fn cells(&self) -> (r: Vec<CellValue>)
        ensures
            r@ == self.enc(),
    {
        let mut v: Vec<CellValue> = Vec::new();
        v.push(CellValue::Felt(Felt { lo: self.w0 as u128, hi: 0 }));
        v.push(CellValue::Felt(Felt { lo: self.w1 as u128, hi: 0 }));
        v.push(CellValue::Felt(Felt { lo: self.w2 as u128, hi: 0 }));
        v.push(CellValue::Felt(Felt { lo: self.w3 as u128, hi: 0 }));
        v.push(CellValue::Felt(Felt { lo: self.w4 as u128, hi: 0 }));
        v.push(CellValue::Felt(Felt { lo: self.w5 as u128, hi: 0 }));
        v.push(CellValue::Felt(Felt { lo: self.w6 as u128, hi: 0 }));
        v.push(CellValue::Felt(Felt { lo: self.w7 as u128, hi: 0 }));
        proof {
            assert(v@ =~= self.enc());
        }
        v
    }

    /// Writes the hash at `address`; the next free address is always
    /// `address + 8` on success.
    pub fn to_memory(&self, mem: &mut Memory, address: MemoryAddress) -> (r: Result<
        MemoryAddress,
        EncodeError,
    >)
        ensures
            r is Ok <==> can_write_range(
                old(mem)@,
                address.segment as int,
                address.offset as int,
                Self::spec_n_fields(),
            ),
            r is Ok ==> final(mem)@ == write_vals(
                old(mem)@,
                address.segment as int,
                address.offset as int,
                self.enc(),
            ),
            r is Ok ==> r == Ok::<MemoryAddress, EncodeError>(
                MemoryAddress {
                    segment: address.segment,
                    offset: (address.offset + Self::spec_n_fields()) as usize,
                },
            ),
            r is Err ==> final(mem)@ == old(mem)@,
    {
        let cells = self.cells();
        write_fixed(mem, address, &cells, 8)
    }

    /// Reads a hash back from `address`; used for verification and tests.
    pub fn from_memory(mem: &Memory, address: MemoryAddress) -> (r: Option<Uint256Bits32>)
        requires
            address.offset + Self::spec_n_fields() - 1 <= usize::MAX,
        ensures
            r == Self::dec(mem@, address.segment as int, address.offset as int),
    {
        let mut felts: Vec<Felt> = Vec::new();
        let mut i: usize = 0;
        while i < 8
            invariant
                i <= 8,
                address.offset + 7 <= usize::MAX,
                felts@.len() == i,
                forall|k: int|
                    0 <= k < i ==> mem_cell(
                        mem@,
                        address.segment as int,
                        address.offset + k,
                    ) == Some(CellValue::Felt(#[trigger] felts@[k])),
            decreases 8 - i,
        {
            let a = match addr_add(address, i) {
                Ok(a) => a,
                Err(_) => {
                    return None;
                },
            };
            match mem.read(a) {
                Some(CellValue::Felt(f)) => felts.push(f),
                _ => {
                    return None;
                },
            }
            i = i + 1;
        }
        let mut ok = true;
        let mut j: usize = 0;
        while j < 8
            invariant
                j <= 8,
                felts@.len() == 8,
                ok <==> forall|k: int|
                    0 <= k < j ==> (#[trigger] felts@[k]).hi == 0 && felts@[k].lo < 0x100000000,
            decreases 8 - j,
        {
            let f = felts[j];
            if !(f.hi == 0 && f.lo < 0x100000000) {
                ok = false;
            }
            j = j + 1;
        }
        if !ok {
            return None;
        }
        Some(
            Uint256Bits32 {
                w0: felts[0].lo as u32,
                w1: felts[1].lo as u32,
                w2: felts[2].lo as u32,
                w3: felts[3].lo as u32,
                w4: felts[4].lo as u32,
                w5: felts[5].lo as u32,
                w6: felts[6].lo as u32,
                w7: felts[7].lo as u32,
            },
        )
    }
}

/// Encoding then re-reading a 32-bit-word hash reproduces it exactly.
pub proof fn lemma_uint256bits32_roundtrip(m: MemView, seg: int, off: int, v: Uint256Bits32)
    requires
        0 <= seg < m.len(),
        0 <= off,
    ensures
        Uint256Bits32::dec(write_vals(m, seg, off, v.enc()), seg, off) == Some(v),
{
    lemma_write_vals(m, seg, off, v.enc());
}

/// The value of up to 32 big-endian bytes, left-padded with zeros: padding
/// does not change the integer the bytes stand for.
pub fn to_uint256<const N: usize>(bytes: &[u8; N]) -> (r: Uint256)
    requires
        N as int <= 32,
    ensures
        r.as_int() == be_bytes_int(bytes@),
{
    if N <= 16 {
        let low = be_u128_of(bytes, 0, N);
        proof {
            assert(bytes@.subrange(0, N as int) =~= bytes@);
        }
        Uint256 { low, high: 0 }
    } else {
        let high = be_u128_of(bytes, 0, N - 16);
        let low = be_u128_of(bytes, N - 16, N);
        proof {
            lemma_be_bytes_concat(bytes@.subrange(0, N as int - 16), bytes@.subrange(N as int - 16, N as int));
            assert(bytes@.subrange(0, N as int - 16) + bytes@.subrange(N as int - 16, N as int)
                =~= bytes@);
            assert(bytes@.subrange(N as int - 16, N as int).len() == 16);
            lemma_pow2_limb_widths();
        }
        Uint256 { low, high }
    }
}

/// The eight little-endian bytes of a 64-bit integer, lowest-order first.
pub open spec fn u64_le_bytes(v: u64) -> Seq<u8> {
    Seq::new(8, |i: int| ((v >> ((8 * i) as u64)) & 0xff) as u8)
}

/// A 64-bit integer zero-extended into the low-order bytes of a 32-byte
/// value: byte 0 of the 32 is the integer's lowest-order byte, and the 32
/// bytes are then read as one big-endian 256-bit quantity.
pub fn u64_to_uint256(v: u64) -> (r: Uint256)
    ensures
        r.low == 0,
        r.high as int == be_bytes_int(u64_le_bytes(v) + Seq::new(8, |i: int| 0u8)),
{
    let mut b = [0u8; 32];
    let mut i: usize = 0;
    while i < 8
        invariant
            i <= 8,
            forall|k: int| 0 <= k < i ==> b@[k] == u64_le_bytes(v)[k],
            forall|k: int| i <= k < 32 ==> b@[k] == 0,
        decreases 8 - i,
    {
        let byte = ((v >> ((8 * i) as u64)) & 0xff) as u8;
        b[i] = byte;
        i = i + 1;
    }
    let r = Uint256::from_bytes_be(&b);
    proof {
        lemma_be_bytes_zero(b@.subrange(16, 32));
        assert(b@.subrange(0, 16) =~= u64_le_bytes(v) + Seq::new(8, |i: int| 0u8));
    }
    r
}

impl Felt {
    /// Its single memory cell.
    pub open spec fn enc(self) -> Seq<CellValue> {
        seq![CellValue::Felt(self)]
    }

    pub open spec fn spec_n_fields() -> int {
        1
    }

    pub open spec fn dec(m: MemView, seg: int, off: int) -> Option<Felt> {
        match mem_cell(m, seg, off) {
            Some(CellValue::Felt(f)) => Some(f),
            _ => None,
        }
    }

    pub fn n_fields() -> (r: usize)
        ensures
            r as int == Self::spec_n_fields(),
    {
        1
    }

    /// The cells `to_memory` writes.
    pub fn cells(&self) -> (r: Vec<CellValue>)
        ensures
            r@ == self.enc(),
    {
        let mut v: Vec<CellValue> = Vec::new();
        v.push(CellValue::Felt(*self));
        proof {
            assert(v@ =~= self.enc());
        }
        v
    }

    /// Writes the field element at `address`; the next free address is
    /// always `address + 1` on success.
    pub fn to_memory(&self, mem: &mut Memory, address: MemoryAddress) -> (r: Result<
        MemoryAddress,
        EncodeError,
    >)
        ensures
            r is Ok <==> can_write_range(
                old(mem)@,
                address.segment as int,
                address.offset as int,
                Self::spec_n_fields(),
            ),
            r is Ok ==> final(mem)@ == write_vals(
                old(mem)@,
                address.segment as int,
                address.offset as int,
                self.enc(),
            ),
            r is Ok ==> r == Ok::<MemoryAddress, EncodeError>(
                MemoryAddress {
                    segment: address.segment,
                    offset: (address.offset + Self::spec_n_fields()) as usize,
                },
            ),
            r is Err ==> final(mem)@ == old(mem)@,
    {
        let cells = self.cells();
        write_fixed(mem, address, &cells, 1)
    }

    /// Reads a field element back from `address`.
    pub fn from_memory(mem: &Memory, address: MemoryAddress) -> (r: Option<Felt>)
        ensures
            r == Self::dec(mem@, address.segment as int, address.offset as int),
    {
        match mem.read(address) {
            Some(CellValue::Felt(f)) => Some(f),
            _ => None,
        }
    }
}

/// Encoding then re-reading a field element reproduces it exactly.
pub proof fn lemma_felt_roundtrip(m: MemView, seg: int, off: int, v: Felt)
    requires
        0 <= seg < m.len(),
        0 <= off,
    ensures
        Felt::dec(write_vals(m, seg, off, v.enc()), seg, off) == Some(v),
{
    lemma_write_vals(m, seg, off, v.enc());
}

} // verus!
