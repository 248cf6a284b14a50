//! The field element: the scalar a single memory cell carries.

use vstd::prelude::*;

verus! {

/// Exclusive upper bound on the high limb of a [`Felt`]: `2^123`. A pair of
/// limbs below this bound encodes an integer below `2^251`, which lies inside
/// the proving circuit's field.
pub const FELT_HIGH_BOUND: u128 = 0x8000000000000000000000000000000;

/// A field element of the proving circuit, as a 256-bit quantity split into a
/// low and a high 128-bit limb. Well-formed values stay below `2^251`.
#[derive(Clone, Copy, PartialEq, Eq, Structural, Debug)]
pub struct Felt {
    pub lo: u128,
    pub hi: u128,
}

impl Felt {
    /// The integer this pair of limbs stands for.
    pub open spec fn as_int(self) -> int {
        self.lo as int + self.hi as int * 0x100000000000000000000000000000000
    }

    /// Well-formedness: the value lies inside the circuit's field.
    pub open spec fn wf(self) -> bool {
        self.hi < FELT_HIGH_BOUND
    }

    pub fn from_u128(v: u128) -> (r: Felt)
        ensures
            r == (Felt { lo: v, hi: 0 }),
            r.wf(),
            r.as_int() == v as int,
    {
        Felt { lo: v, hi: 0 }
    }

    pub fn from_u64(v: u64) -> (r: Felt)
        ensures
            r == (Felt { lo: v as u128, hi: 0 }),
            r.wf(),
            r.as_int() == v as int,
    {
        Felt { lo: v as u128, hi: 0 }
    }

    pub fn from_usize(v: usize) -> (r: Felt)
        ensures
            r == (Felt { lo: v as u128, hi: 0 }),
            r.wf(),
            r.as_int() == v as int,
    {
        Felt { lo: v as u128, hi: 0 }
    }
}

} // verus!
