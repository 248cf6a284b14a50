use bankai_hints::bls::{G1PointCairo, G2PointCairo};
use bankai_hints::felt::Felt;
use bankai_hints::memory::{
    addr_add, CellValue, EncodeError, Memory, MemoryAddress, MemoryError,
};
use bankai_hints::scalars::{UInt384, Uint256};
use bankai_hints::types::BeaconHeaderCairo;

#[test]
fn segments_allocate_monotonically() {
    let mut mem = Memory::new();
    assert_eq!(mem.num_segments(), 0);
    let a = mem.add_segment();
    let b = mem.add_segment();
    assert_eq!(a, MemoryAddress { segment: 0, offset: 0 });
    assert_eq!(b, MemoryAddress { segment: 1, offset: 0 });
    assert_eq!(mem.num_segments(), 2);
}

#[test]
fn write_then_read_back() {
    let mut mem = Memory::new();
    let base = mem.add_segment();
    let cell = CellValue::Felt(Felt { lo: 5, hi: 0 });
    mem.write(base, cell).unwrap();
    assert_eq!(mem.read(base), Some(cell));
    // A gap left between writes reads back as empty.
    let far = MemoryAddress { segment: base.segment, offset: 10 };
    mem.write(far, cell).unwrap();
    assert_eq!(mem.read(MemoryAddress { segment: base.segment, offset: 5 }), None);
    assert_eq!(mem.read(far), Some(cell));
}

#[test]
fn cells_are_write_once() {
    let mut mem = Memory::new();
    let base = mem.add_segment();
    let cell = CellValue::Felt(Felt { lo: 5, hi: 0 });
    mem.write(base, cell).unwrap();
    assert_eq!(mem.write(base, cell), Err(MemoryError::CellOccupied));
}

#[test]
fn unallocated_segment_is_an_error() {
    let mut mem = Memory::new();
    let a = MemoryAddress { segment: 3, offset: 0 };
    assert_eq!(
        mem.write(a, CellValue::Felt(Felt { lo: 1, hi: 0 })),
        Err(MemoryError::UnallocatedSegment)
    );
    assert_eq!(mem.read(a), None);
}

#[test]
fn address_arithmetic_fails_on_overflow() {
    let a = MemoryAddress { segment: 0, offset: usize::MAX - 1 };
    assert_eq!(addr_add(a, 1), Ok(MemoryAddress { segment: 0, offset: usize::MAX }));
    assert_eq!(addr_add(a, 2), Err(MemoryError::OffsetOverflow));
}

#[test]
fn occupied_cell_fails_an_entity_write() {
    let mut mem = Memory::new();
    let base = mem.add_segment();
    let second = MemoryAddress { segment: base.segment, offset: 1 };
    mem.write(second, CellValue::Felt(Felt { lo: 9, hi: 0 })).unwrap();
    let v = Uint256 { low: 1, high: 2 };
    match v.to_memory(&mut mem, base) {
        Err(EncodeError::Memory(MemoryError::CellOccupied)) => {},
        other => panic!("expected an occupied-cell failure, got {:?}", other),
    }
    // Nothing was written by the failed attempt.
    assert_eq!(mem.read(base), None);
}

#[test]
fn field_count_matches_next_address_across_random_values() {
    // A simple linear congruential generator: deterministic pseudo-random
    // instances for the positional invariant.
    let mut state: u128 = 0x2545f4914f6cdd1d;
    let mut next_rand = move || {
        state = state.wrapping_mul(6364136223846793005).wrapping_add(1442695040888963407);
        state
    };
    let mut mem = Memory::new();
    for _ in 0..20 {
        let base = mem.add_segment();
        let v = Uint256 { low: next_rand(), high: next_rand() };
        let next = v.to_memory(&mut mem, base).unwrap();
        assert_eq!(next.offset - base.offset, Uint256::n_fields());
        assert_eq!(Uint256::from_memory(&mem, base), Some(v));

        let f = Felt { lo: next_rand(), hi: 0 };
        let fbase = MemoryAddress { segment: base.segment, offset: 100 };
        let fnext = f.to_memory(&mut mem, fbase).unwrap();
        assert_eq!(fnext.offset - fbase.offset, Felt::n_fields());
        assert_eq!(Felt::from_memory(&mem, fbase), Some(f));

        let limb_mask = (1u128 << 96) - 1;
        let g = G1PointCairo {
            x: UInt384::from_limbs(
                next_rand() & limb_mask,
                next_rand() & limb_mask,
                next_rand() & limb_mask,
                next_rand() & limb_mask,
            ),
            y: UInt384::from_limbs(
                next_rand() & limb_mask,
                next_rand() & limb_mask,
                next_rand() & limb_mask,
                next_rand() & limb_mask,
            ),
        };
        let gbase = MemoryAddress { segment: base.segment, offset: 200 };
        let gnext = g.to_memory(&mut mem, gbase).unwrap();
        assert_eq!(gnext.offset - gbase.offset, G1PointCairo::n_fields());
        assert_eq!(G1PointCairo::from_memory(&mem, gbase), Some(g));

        let p2 = G2PointCairo {
            x0: UInt384::from_limbs(next_rand() & limb_mask, 0, 0, 0),
            x1: UInt384::from_limbs(next_rand() & limb_mask, 0, 0, 0),
            y0: UInt384::from_limbs(next_rand() & limb_mask, 0, 0, 0),
            y1: UInt384::from_limbs(next_rand() & limb_mask, 0, 0, 0),
        };
        let pbase = MemoryAddress { segment: base.segment, offset: 300 };
        let pnext = p2.to_memory(&mut mem, pbase).unwrap();
        assert_eq!(pnext.offset - pbase.offset, G2PointCairo::n_fields());
        assert_eq!(G2PointCairo::from_memory(&mem, pbase), Some(p2));

        let h = BeaconHeaderCairo {
            slot: Uint256 { low: next_rand(), high: next_rand() },
            proposer_index: Uint256 { low: next_rand(), high: next_rand() },
            parent_root: Uint256 { low: next_rand(), high: next_rand() },
            state_root: Uint256 { low: next_rand(), high: next_rand() },
            body_root: Uint256 { low: next_rand(), high: next_rand() },
        };
        let hbase = MemoryAddress { segment: base.segment, offset: 400 };
        let hnext = h.to_memory(&mut mem, hbase).unwrap();
        assert_eq!(hnext.offset - hbase.offset, BeaconHeaderCairo::n_fields());
        assert_eq!(BeaconHeaderCairo::from_memory(&mem, hbase), Some(h));
    }
}
