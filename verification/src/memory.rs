//! The addressable memory model: an arena of append-mostly segments, indexed
//! by segment id, whose cells carry field elements or pointers to other
//! segments. Cells are written once; every operation fails only on a
//! structural violation and says so with a distinct error.

use vstd::prelude::*;

use crate::felt::Felt;

verus! {

/// A location in the segmented memory: a segment id and a cell offset inside
/// that segment. Address arithmetic stays within one segment.
#[derive(Clone, Copy, PartialEq, Eq, Structural, Debug)]
pub struct MemoryAddress {
    pub segment: usize,
    pub offset: usize,
}

/// What one memory cell carries: a field element, or a pointer to a cell of
/// some segment.
#[derive(Clone, Copy, PartialEq, Eq, Structural, Debug)]
pub enum CellValue {
    Felt(Felt),
    Pointer(MemoryAddress),
}

/// The structural violations a memory operation can fail on. No operation
/// fails for any other reason, and none wraps silently.
#[derive(Clone, Copy, PartialEq, Eq, Structural, Debug)]
pub enum MemoryError {
    /// The address names a segment that was never allocated.
    UnallocatedSegment,
    /// The cell already holds a value: cells are written exactly once.
    CellOccupied,
    /// Address arithmetic would leave the addressable range.
    OffsetOverflow,
}

/// How a layout writer can fail: a structural memory violation, or a writer
/// whose final address disagrees with its declared field count. The latter is
/// a programmer-error class, never recoverable within one encoding pass.
#[derive(Clone, Copy, PartialEq, Eq, Structural, Debug)]
pub enum EncodeError {
    /// A memory operation failed on a structural violation.
    Memory(MemoryError),
    /// The address after encoding is not `start + field_count`; both
    /// addresses are carried for diagnostics.
    LayoutMismatch { expected: MemoryAddress, got: MemoryAddress },
    /// A variable-length member's explicit count disagrees with the length
    /// of its sequence; the writer keeps the two equal.
    CountMismatch,
}

/// The mathematical model of the memory: one sequence of optional cells per
/// allocated segment.
pub type MemView = Seq<Seq<Option<CellValue>>>;

/// The cell at `(seg, off)`: `None` where the segment is missing, the offset
/// was never reached, or the cell is an unwritten gap.
pub open spec fn mem_cell(m: MemView, seg: int, off: int) -> Option<CellValue> {
    if 0 <= seg < m.len() && 0 <= off < m[seg].len() {
        m[seg][off]
    } else {
        None
    }
}

/// The cell a [`MemoryAddress`] names.
pub open spec fn addr_cell(m: MemView, a: MemoryAddress) -> Option<CellValue> {
    mem_cell(m, a.segment as int, a.offset as int)
}

/// A single cell can be written: its segment exists and it holds nothing yet.
pub open spec fn can_write_cell(m: MemView, seg: int, off: int) -> bool {
    &&& 0 <= seg < m.len()
    &&& 0 <= off
    &&& mem_cell(m, seg, off) is None
}

/// `n` consecutive cells from `(seg, off)` can be written, and the last of
/// them is still addressable.
pub open spec fn can_write_range(m: MemView, seg: int, off: int, n: int) -> bool {
    &&& 0 <= seg < m.len()
    &&& 0 <= off
    &&& off + n <= usize::MAX
    &&& forall|i: int| 0 <= i < n ==> #[trigger] mem_cell(m, seg, off + i) is None
}

/// The segment grown with unwritten gaps until `off` is in range.
pub open spec fn seg_extended(s: Seq<Option<CellValue>>, off: int) -> Seq<Option<CellValue>> {
    if off < s.len() {
        s
    } else {
        s + Seq::new((off + 1 - s.len()) as nat, |i: int| None::<CellValue>)
    }
}

/// The memory after one cell write. Out-of-range segment ids leave the
/// memory unchanged (the executable operation fails there instead).
pub open spec fn write_cell(m: MemView, seg: int, off: int, v: CellValue) -> MemView {
    if 0 <= seg < m.len() && 0 <= off {
        m.update(seg, seg_extended(m[seg], off).update(off, Some(v)))
    } else {
        m
    }
}

/// The memory after writing `vals` to consecutive cells from `(seg, off)`.
pub open spec fn write_vals(m: MemView, seg: int, off: int, vals: Seq<CellValue>) -> MemView
    decreases vals.len(),
{
    if vals.len() == 0 {
        m
    } else {
        write_vals(write_cell(m, seg, off, vals[0]), seg, off + 1, vals.drop_first())
    }
}

/// One cell write changes exactly the named cell and no segment count.
pub proof fn lemma_write_cell(m: MemView, seg: int, off: int, v: CellValue)
    requires
        0 <= seg < m.len(),
        0 <= off,
    ensures
        write_cell(m, seg, off, v).len() == m.len(),
        forall|s2: int, o2: int|
            #![trigger mem_cell(write_cell(m, seg, off, v), s2, o2)]
            mem_cell(write_cell(m, seg, off, v), s2, o2) == if s2 == seg && o2 == off {
                Some(v)
            } else {
                mem_cell(m, s2, o2)
            },
{
    let m2 = write_cell(m, seg, off, v);
    assert forall|s2: int, o2: int|
        mem_cell(m2, s2, o2) == if s2 == seg && o2 == off {
            Some(v)
        } else {
            mem_cell(m, s2, o2)
        } by {
        if s2 == seg {
            let s_old = m[seg];
            let s_new = m2[seg];
            if off < s_old.len() {
                assert(s_new =~= s_old.update(off, Some(v)));
            } else {
                assert(s_new.len() == off + 1);
                if 0 <= o2 < s_new.len() && o2 != off {
                    if o2 < s_old.len() {
                        assert(s_new[o2] == s_old[o2]);
                    } else {
                        assert(s_new[o2] == None::<CellValue>);
                    }
                }
            }
        }
    }
}

/// Writing a run of values changes exactly the cells of that run.
pub proof fn lemma_write_vals(m: MemView, seg: int, off: int, vals: Seq<CellValue>)
    requires
        0 <= seg < m.len(),
        0 <= off,
    ensures
        write_vals(m, seg, off, vals).len() == m.len(),
        forall|s2: int, o2: int|
            #![trigger mem_cell(write_vals(m, seg, off, vals), s2, o2)]
            mem_cell(write_vals(m, seg, off, vals), s2, o2) == if s2 == seg && off <= o2
                < off + vals.len() {
                Some(vals[o2 - off])
            } else {
                mem_cell(m, s2, o2)
            },
    decreases vals.len(),
{
    if vals.len() > 0 {
        let m1 = write_cell(m, seg, off, vals[0]);
        lemma_write_cell(m, seg, off, vals[0]);
        lemma_write_vals(m1, seg, off + 1, vals.drop_first());
    }
}

/// Writing a concatenation is writing the parts one after the other.
pub proof fn lemma_write_vals_concat(
    m: MemView,
    seg: int,
    off: int,
    v1: Seq<CellValue>,
    v2: Seq<CellValue>,
)
    ensures
        write_vals(m, seg, off, v1 + v2) == write_vals(
            write_vals(m, seg, off, v1),
            seg,
            off + v1.len(),
            v2,
        ),
    decreases v1.len(),
{
    if v1.len() == 0 {
        assert(v1 + v2 =~= v2);
    } else {
        let m1 = write_cell(m, seg, off, v1[0]);
        assert((v1 + v2).drop_first() =~= v1.drop_first() + v2);
        lemma_write_vals_concat(m1, seg, off + 1, v1.drop_first(), v2);
    }
}

/// Allocating a segment leaves every existing cell as it was, and the new
/// segment empty.
pub proof fn lemma_push_frame(m: MemView, s0: Seq<Option<CellValue>>)
    ensures
        m.push(s0).len() == m.len() + 1,
        forall|s2: int, o2: int|
            0 <= s2 < m.len() ==> #[trigger] mem_cell(m.push(s0), s2, o2) == mem_cell(m, s2, o2),
        s0.len() == 0 ==> forall|o2: int| mem_cell(m.push(s0), m.len() as int, o2) is None,
{
}

/// The memory arena. Segments are allocated monotonically and never
/// reclaimed; its lifetime is one encoding pass.
pub struct Memory {
    segments: Vec<Vec<Option<CellValue>>>,
}

impl View for Memory {
    type V = MemView;

    closed spec fn view(&self) -> MemView {
        self.segments@.map_values(|s: Vec<Option<CellValue>>| s@)
    }
}

impl Memory {
    /// A fresh memory with no segments.
    pub fn new() -> (r: Memory)
        ensures
            r@ == Seq::<Seq<Option<CellValue>>>::empty(),
    {
        let m = Memory { segments: Vec::new() };
        proof {
            assert(m@ =~= Seq::<Seq<Option<CellValue>>>::empty());
        }
        m
    }

    /// How many segments have been allocated.
    pub fn num_segments(&self) -> (r: usize)
        ensures
            r == self@.len(),
    {
        self.segments.len()
    }

    /// Allocates a new empty segment and returns its base address, which is
    /// stable for the life of the memory.
    pub fn add_segment(&mut self) -> (r: MemoryAddress)
        ensures
            r.segment == old(self)@.len(),
            r.offset == 0,
            final(self)@ == old(self)@.push(Seq::<Option<CellValue>>::empty()),
    {
        let id = self.segments.len();
        self.segments.push(Vec::new());
        proof {
            assert(self@ =~= old(self)@.push(Seq::<Option<CellValue>>::empty()));
        }
        MemoryAddress { segment: id, offset: 0 }
    }

    /// Reads one cell back; used for verification and tests only.
    pub fn read(&self, a: MemoryAddress) -> (r: Option<CellValue>)
        ensures
            r == addr_cell(self@, a),
    {
        if a.segment < self.segments.len() {
            let seg = &self.segments[a.segment];
            if a.offset < seg.len() {
                seg[a.offset]
            } else {
                None
            }
        } else {
            None
        }
    }

    /// Writes one cell. Cells are write-once: an occupied cell, like an
    /// unallocated segment, is a structural violation and fails.
    pub fn write(&mut self, a: MemoryAddress, v: CellValue) -> (r: Result<(), MemoryError>)
        ensures
            r is Ok <==> can_write_cell(old(self)@, a.segment as int, a.offset as int),
            r is Ok ==> final(self)@ == write_cell(
                old(self)@,
                a.segment as int,
                a.offset as int,
                v,
            ),
            r is Err ==> final(self)@ == old(self)@,
            r == Err::<(), MemoryError>(MemoryError::UnallocatedSegment) <==> a.segment
                >= old(self)@.len(),
            r == Err::<(), MemoryError>(MemoryError::CellOccupied) <==> (a.segment < old(
                self,
            )@.len() && addr_cell(old(self)@, a) is Some),
    {
        if a.segment >= self.segments.len() {
            return Err(MemoryError::UnallocatedSegment);
        }
        let seg_len = self.segments[a.segment].len();
        if a.offset < seg_len {
            let occupied = match self.segments[a.segment][a.offset] {
                Some(_) => true,
                None => false,
            };
            if occupied {
                return Err(MemoryError::CellOccupied);
            }
            let seg = &mut self.segments[a.segment];
            seg.set(a.offset, Some(v));
            proof {
                assert(self@ =~= write_cell(old(self)@, a.segment as int, a.offset as int, v));
            }
        } else {
            let pad = a.offset - seg_len;
            let mut ext: Vec<Option<CellValue>> = Vec::new();
            while ext.len() < pad
                invariant
                    ext@.len() <= pad,
                    forall|i: int| 0 <= i < ext@.len() ==> ext@[i] is None,
                decreases pad - ext.len(),
            {
                ext.push(None);
            }
            ext.push(Some(v));
            let seg = &mut self.segments[a.segment];
            seg.append(&mut ext);
            proof {
                let w = write_cell(old(self)@, a.segment as int, a.offset as int, v);
                assert(self@[a.segment as int] =~= w[a.segment as int]);
                assert(self@ =~= w);
            }
        }
        Ok(())
    }

    /// Checks, without writing, that `n` consecutive cells from `a` can be
    /// written, and names the violation where they cannot.
    pub fn probe_range(&self, a: MemoryAddress, n: usize) -> (r: Result<(), MemoryError>)
        ensures
            r is Ok <==> can_write_range(self@, a.segment as int, a.offset as int, n as int),
            r == Err::<(), MemoryError>(MemoryError::UnallocatedSegment) <==> a.segment
                >= self@.len(),
            r == Err::<(), MemoryError>(MemoryError::OffsetOverflow) <==> (a.segment < self@.len()
                && a.offset + n > usize::MAX),
    {
        if a.segment >= self.segments.len() {
            return Err(MemoryError::UnallocatedSegment);
        }
        if usize::MAX - a.offset < n {
            return Err(MemoryError::OffsetOverflow);
        }
        let mut i: usize = 0;
        while i < n
            invariant
                a.segment < self@.len(),
                i <= n,
                a.offset + n <= usize::MAX,
                forall|k: int| 0 <= k < i ==> #[trigger] mem_cell(
                    self@,
                    a.segment as int,
                    a.offset + k,
                ) is None,
            decreases n - i,
        {
            let off = a.offset + i;
            let seg = &self.segments[a.segment];
            proof {
                assert(self@[a.segment as int] == seg@);
            }
            if off < seg.len() {
                let occupied = match seg[off] {
                    Some(_) => true,
                    None => false,
                };
                if occupied {
                    proof {
                        assert(mem_cell(self@, a.segment as int, a.offset + i as int) is Some);
                    }
                    return Err(MemoryError::CellOccupied);
                }
            }
            proof {
                assert(mem_cell(self@, a.segment as int, a.offset + i as int) is None);
            }
            i = i + 1;
        }
        Ok(())
    }

    /// Writes a run of values at consecutive offsets and returns the address
    /// one past the run. Nothing is written unless the whole run can be.
    pub fn write_cells(&mut self, a: MemoryAddress, vals: &Vec<CellValue>) -> (r: Result<
        MemoryAddress,
        MemoryError,
    >)
        ensures
            r is Ok <==> can_write_range(
                old(self)@,
                a.segment as int,
                a.offset as int,
                vals@.len() as int,
            ),
            r is Ok ==> final(self)@ == write_vals(
                old(self)@,
                a.segment as int,
                a.offset as int,
                vals@,
            ) && r == Ok::<MemoryAddress, MemoryError>(
                MemoryAddress { segment: a.segment, offset: (a.offset + vals@.len()) as usize },
            ),
            r is Err ==> final(self)@ == old(self)@,
    {
        match self.probe_range(a, vals.len()) {
            Ok(_) => {},
            Err(e) => {
                return Err(e);
            },
        }
        let ghost m0 = self@;
        // Every write now succeeds.
        let mut j: usize = 0;
        while j < vals.len()
            invariant
                j <= vals@.len(),
                a.segment < m0.len(),
                a.offset + vals@.len() <= usize::MAX,
                can_write_range(m0, a.segment as int, a.offset as int, vals@.len() as int),
                self@ == write_vals(
                    m0,
                    a.segment as int,
                    a.offset as int,
                    vals@.subrange(0, j as int),
                ),
            decreases vals@.len() - j,
        {
            let off = a.offset + j;
            let ghost segi = a.segment as int;
            let ghost off0 = a.offset as int;
            let ghost v1 = vals@.subrange(0, j as int);
            let ghost mprev = self@;
            proof {
                lemma_write_vals(m0, segi, off0, v1);
                assert(mem_cell(m0, segi, off0 + j as int) is None);
                assert(mem_cell(mprev, segi, off0 + j as int) is None);
                assert(can_write_cell(mprev, segi, off as int));
            }
            let res = self.write(MemoryAddress { segment: a.segment, offset: off }, vals[j]);
            match res {
                Ok(_) => {},
                Err(_) => {
                    proof {
                        assert(false);
                    }
                },
            }
            proof {
                let x = vals@[j as int];
                lemma_write_vals_concat(m0, segi, off0, v1, seq![x]);
                assert(seq![x].len() == 1 && seq![x][0] == x);
                let mc = write_cell(mprev, segi, off0 + j as int, x);
                assert(write_vals(mc, segi, off0 + j as int + 1, seq![x].drop_first()) == mc);
                assert(write_vals(mprev, segi, off0 + j as int, seq![x]) == mc);
                assert(v1 + seq![x] =~= vals@.subrange(0, j as int + 1));
            }
            j = j + 1;
        }
        proof {
            assert(vals@.subrange(0, vals@.len() as int) =~= vals@);
        }
        Ok(MemoryAddress { segment: a.segment, offset: a.offset + vals.len() })
    }
}

/// Writes the cells of a fixed-size entity and checks the positional
/// invariant: the next free address must be `start + field_count`, else the
/// writer fails with a layout mismatch carrying both addresses.
pub fn write_fixed(
    mem: &mut Memory,
    address: MemoryAddress,
    vals: &Vec<CellValue>,
    field_count: usize,
) -> (r: Result<MemoryAddress, EncodeError>)
    requires
        vals@.len() == field_count,
    ensures
        r is Ok <==> can_write_range(
            old(mem)@,
            address.segment as int,
            address.offset as int,
            field_count as int,
        ),
        r is Ok ==> final(mem)@ == write_vals(
            old(mem)@,
            address.segment as int,
            address.offset as int,
            vals@,
        ) && r == Ok::<MemoryAddress, EncodeError>(
            MemoryAddress {
                segment: address.segment,
                offset: (address.offset + field_count) as usize,
            },
        ),
        r is Err ==> final(mem)@ == old(mem)@,
{
    let next = match mem.write_cells(address, vals) {
        Ok(next) => next,
        Err(e) => {
            return Err(EncodeError::Memory(e));
        },
    };
    let expected = match addr_add(address, field_count) {
        Ok(expected) => expected,
        Err(e) => {
            return Err(EncodeError::Memory(e));
        },
    };
    if next.segment != expected.segment || next.offset != expected.offset {
        return Err(EncodeError::LayoutMismatch { expected, got: next });
    }
    Ok(next)
}

/// Pointer arithmetic within one segment: `a + k` names the cell `k` places
/// on. Leaving the addressable range is the one structural failure.
pub fn addr_add(a: MemoryAddress, k: usize) -> (r: Result<MemoryAddress, MemoryError>)
    ensures
        r is Ok <==> a.offset + k <= usize::MAX,
        r is Ok ==> r == Ok::<MemoryAddress, MemoryError>(
            MemoryAddress { segment: a.segment, offset: (a.offset + k) as usize },
        ),
        r is Err ==> r == Err::<MemoryAddress, MemoryError>(MemoryError::OffsetOverflow),
{
    if usize::MAX - a.offset < k {
        Err(MemoryError::OffsetOverflow)
    } else {
        Ok(MemoryAddress { segment: a.segment, offset: a.offset + k })
    }
}

} // verus!
