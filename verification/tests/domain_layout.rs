use bankai_hints::bls::{G1PointCairo, G2PointCairo};
use bankai_hints::felt::Felt;
use bankai_hints::header::{
    ExecutionPayloadCommon, ExecutionPayloadHeader, ExecutionPayloadHeaderCairo,
    UnsupportedForkError,
};
use bankai_hints::memory::{CellValue, Memory, MemoryAddress};
use bankai_hints::scalars::{u64_to_uint256, UInt384, Uint256, Uint256Bits32};
use bankai_hints::types::{
    BeaconHeaderCairo, EpochUpdateCairo, ExecutionHeaderProofCairo, RecursiveEpochOutputsCairo,
    SignerDataCairo, SyncCommitteeDataCairo,
};

fn g1(seed: u128) -> G1PointCairo {
    G1PointCairo {
        x: UInt384::from_limbs(seed, seed + 1, seed + 2, seed + 3),
        y: UInt384::from_limbs(seed + 4, seed + 5, seed + 6, seed + 7),
    }
}

fn g2(seed: u128) -> G2PointCairo {
    G2PointCairo {
        x0: UInt384::from_limbs(seed, 0, 0, 1),
        x1: UInt384::from_limbs(seed + 1, 0, 0, 2),
        y0: UInt384::from_limbs(seed + 2, 0, 0, 3),
        y1: UInt384::from_limbs(seed + 3, 0, 0, 4),
    }
}

fn header(seed: u128) -> BeaconHeaderCairo {
    BeaconHeaderCairo {
        slot: Uint256 { low: seed, high: 0 },
        proposer_index: Uint256 { low: seed + 1, high: 0 },
        parent_root: Uint256 { low: seed + 2, high: 3 },
        state_root: Uint256 { low: seed + 3, high: 4 },
        body_root: Uint256 { low: seed + 4, high: 5 },
    }
}

fn b32(seed: u32) -> Uint256Bits32 {
    Uint256Bits32 {
        w0: seed,
        w1: seed + 1,
        w2: seed + 2,
        w3: seed + 3,
        w4: seed + 4,
        w5: seed + 5,
        w6: seed + 6,
        w7: seed + 7,
    }
}

fn signer_data(n_non_signers: usize) -> SignerDataCairo {
    let mut non_signers = Vec::new();
    for i in 0..n_non_signers {
        non_signers.push(g1(1000 + i as u128));
    }
    SignerDataCairo {
        aggregate_pub: g1(7),
        non_signers,
        n_non_signers: Felt { lo: n_non_signers as u128, hi: 0 },
    }
}

fn exec_proof(path_len: usize, payload_len: usize) -> ExecutionHeaderProofCairo {
    let mut path = Vec::new();
    for i in 0..path_len {
        path.push(b32(100 + i as u32));
    }
    let mut payload = Vec::new();
    for i in 0..payload_len {
        payload.push(Uint256 { low: 500 + i as u128, high: 0 });
    }
    ExecutionHeaderProofCairo {
        root: Uint256 { low: 11, high: 12 },
        path,
        leaf: Uint256 { low: 13, high: 14 },
        index: Felt { lo: 9, hi: 0 },
        execution_payload_header: payload,
    }
}

fn common() -> ExecutionPayloadCommon {
    ExecutionPayloadCommon {
        parent_hash: [1; 32],
        fee_recipient: [2; 20],
        state_root: [3; 32],
        receipts_root: [4; 32],
        logs_bloom_root: [5; 32],
        prev_randao: [6; 32],
        block_number: 1234,
        gas_limit: 30_000_000,
        gas_used: 21_000,
        timestamp: 1_700_000_000,
        extra_data_root: [7; 32],
        base_fee_per_gas_root: [8; 32],
        block_hash: [9; 32],
        transactions_root: [10; 32],
    }
}

#[test]
fn g1_point_roundtrip_and_count() {
    let mut mem = Memory::new();
    let base = mem.add_segment();
    let p = g1(3);
    let next = p.to_memory(&mut mem, base).unwrap();
    assert_eq!(next.offset - base.offset, G1PointCairo::n_fields());
    assert_eq!(G1PointCairo::n_fields(), 8);
    assert_eq!(G1PointCairo::from_memory(&mem, base), Some(p));
}

#[test]
fn g2_point_roundtrip_and_count() {
    let mut mem = Memory::new();
    let base = mem.add_segment();
    let p = g2(3);
    let next = p.to_memory(&mut mem, base).unwrap();
    assert_eq!(next.offset - base.offset, G2PointCairo::n_fields());
    assert_eq!(G2PointCairo::n_fields(), 16);
    assert_eq!(G2PointCairo::from_memory(&mem, base), Some(p));
}

#[test]
fn beacon_header_roundtrip_and_count() {
    let mut mem = Memory::new();
    let base = mem.add_segment();
    let h = header(20);
    let next = h.to_memory(&mut mem, base).unwrap();
    assert_eq!(next.offset - base.offset, BeaconHeaderCairo::n_fields());
    assert_eq!(BeaconHeaderCairo::n_fields(), 10);
    assert_eq!(BeaconHeaderCairo::from_memory(&mem, base), Some(h));
}

#[test]
fn outputs_roundtrip_and_count() {
    let mut mem = Memory::new();
    let base = mem.add_segment();
    let o = RecursiveEpochOutputsCairo {
        beacon_header_root: Uint256 { low: 1, high: 2 },
        beacon_state_root: Uint256 { low: 3, high: 4 },
        beacon_height: Felt { lo: 5, hi: 0 },
        n_signers: Felt { lo: 6, hi: 0 },
        execution_header_root: Uint256 { low: 7, high: 8 },
        execution_header_height: Felt { lo: 9, hi: 0 },
        current_committee_hash: Uint256 { low: 10, high: 11 },
        next_committee_hash: Uint256 { low: 12, high: 13 },
    };
    let next = o.to_memory(&mut mem, base).unwrap();
    assert_eq!(next.offset - base.offset, RecursiveEpochOutputsCairo::n_fields());
    assert_eq!(RecursiveEpochOutputsCairo::n_fields(), 13);
    assert_eq!(RecursiveEpochOutputsCairo::from_memory(&mem, base), Some(o));
}

#[test]
fn signer_data_takes_one_pointer_cell_whatever_the_length() {
    for n in [0usize, 1, 5] {
        let mut mem = Memory::new();
        let base = mem.add_segment();
        let s = signer_data(n);
        let next = s.to_memory(&mut mem, base).unwrap();
        // The parent's footprint is ten cells, independent of the list.
        assert_eq!(next.offset - base.offset, SignerDataCairo::n_fields());
        assert_eq!(SignerDataCairo::n_fields(), 10);
        // One pointer cell to a fresh segment, then the explicit count.
        let ptr = mem.read(MemoryAddress { segment: base.segment, offset: base.offset + 8 });
        let list_base = match ptr {
            Some(CellValue::Pointer(a)) => a,
            other => panic!("expected a pointer cell, got {:?}", other),
        };
        assert_eq!(list_base, MemoryAddress { segment: 1, offset: 0 });
        assert_eq!(
            mem.read(MemoryAddress { segment: base.segment, offset: base.offset + 9 }),
            Some(CellValue::Felt(Felt { lo: n as u128, hi: 0 }))
        );
        // The payload sits in the fresh segment, element by element.
        for i in 0..n {
            let at = MemoryAddress { segment: list_base.segment, offset: 8 * i };
            assert_eq!(G1PointCairo::from_memory(&mem, at), Some(s.non_signers[i]));
        }
    }
}

#[test]
fn signer_count_must_equal_the_list_length() {
    let mut mem = Memory::new();
    let base = mem.add_segment();
    let mut s = signer_data(3);
    s.n_non_signers = Felt { lo: 2, hi: 0 };
    assert_eq!(
        s.to_memory(&mut mem, base),
        Err(bankai_hints::memory::EncodeError::CountMismatch)
    );
    // The failed writer left the memory untouched.
    assert_eq!(mem.read(base), None);
}

#[test]
fn execution_header_proof_takes_two_pointer_cells() {
    for (paths, fields) in [(0usize, 0usize), (1, 1), (4, 17)] {
        let mut mem = Memory::new();
        let base = mem.add_segment();
        let p = exec_proof(paths, fields);
        let next = p.to_memory(&mut mem, base).unwrap();
        assert_eq!(next.offset - base.offset, ExecutionHeaderProofCairo::n_fields());
        assert_eq!(ExecutionHeaderProofCairo::n_fields(), 7);
        assert_eq!(Uint256::from_memory(&mem, base), Some(p.root));
        let path_ptr = mem.read(MemoryAddress { segment: base.segment, offset: base.offset + 2 });
        let path_base = match path_ptr {
            Some(CellValue::Pointer(a)) => a,
            other => panic!("expected a pointer cell, got {:?}", other),
        };
        for i in 0..paths {
            let at = MemoryAddress { segment: path_base.segment, offset: 8 * i };
            assert_eq!(Uint256Bits32::from_memory(&mem, at), Some(p.path[i]));
        }
        assert_eq!(
            Uint256::from_memory(
                &mem,
                MemoryAddress { segment: base.segment, offset: base.offset + 3 }
            ),
            Some(p.leaf)
        );
        assert_eq!(
            Felt::from_memory(
                &mem,
                MemoryAddress { segment: base.segment, offset: base.offset + 5 }
            ),
            Some(p.index)
        );
        let fields_ptr = mem.read(MemoryAddress { segment: base.segment, offset: base.offset + 6 });
        let fields_base = match fields_ptr {
            Some(CellValue::Pointer(a)) => a,
            other => panic!("expected a pointer cell, got {:?}", other),
        };
        for i in 0..fields {
            let at = MemoryAddress { segment: fields_base.segment, offset: 2 * i };
            assert_eq!(Uint256::from_memory(&mem, at), Some(p.execution_payload_header[i]));
        }
    }
}

#[test]
fn sync_committee_data_layout() {
    let mut mem = Memory::new();
    let base = mem.add_segment();
    let u = SyncCommitteeDataCairo {
        beacon_slot: Felt { lo: 123456, hi: 0 },
        next_sync_committee_branch: vec![b32(1), b32(9), b32(17)],
        next_aggregate_sync_committee: UInt384::from_limbs(1, 2, 3, 4),
        committee_keys_root: b32(99),
    };
    let next = u.to_memory(&mut mem, base).unwrap();
    assert_eq!(next.offset - base.offset, SyncCommitteeDataCairo::n_fields());
    assert_eq!(SyncCommitteeDataCairo::n_fields(), 14);
    assert_eq!(Felt::from_memory(&mem, base), Some(u.beacon_slot));
    let branch_base = match mem.read(MemoryAddress { segment: base.segment, offset: 1 }) {
        Some(CellValue::Pointer(a)) => a,
        other => panic!("expected a pointer cell, got {:?}", other),
    };
    for i in 0..3 {
        let at = MemoryAddress { segment: branch_base.segment, offset: 8 * i };
        assert_eq!(Uint256Bits32::from_memory(&mem, at), Some(u.next_sync_committee_branch[i]));
    }
    assert_eq!(
        UInt384::from_memory(&mem, MemoryAddress { segment: base.segment, offset: 2 }),
        Some(u.next_aggregate_sync_committee)
    );
    assert_eq!(
        Uint256Bits32::from_memory(&mem, MemoryAddress { segment: base.segment, offset: 6 }),
        Some(u.committee_keys_root)
    );
}

#[test]
fn epoch_update_spans_43_cells() {
    let mut mem = Memory::new();
    let base = mem.add_segment();
    let e = EpochUpdateCairo {
        signature_point: g2(50),
        header: header(60),
        signer_data: signer_data(2),
        execution_header_proof: exec_proof(3, 15),
    };
    let next = e.to_memory(&mut mem, base).unwrap();
    assert_eq!(next.offset - base.offset, EpochUpdateCairo::n_fields());
    assert_eq!(EpochUpdateCairo::n_fields(), 43);
    // The four members sit at their protocol offsets.
    assert_eq!(G2PointCairo::from_memory(&mem, base), Some(e.signature_point));
    assert_eq!(
        BeaconHeaderCairo::from_memory(
            &mem,
            MemoryAddress { segment: base.segment, offset: 16 }
        ),
        Some(e.header)
    );
    assert_eq!(
        G1PointCairo::from_memory(&mem, MemoryAddress { segment: base.segment, offset: 26 }),
        Some(e.signer_data.aggregate_pub)
    );
    assert_eq!(
        Uint256::from_memory(&mem, MemoryAddress { segment: base.segment, offset: 36 }),
        Some(e.execution_header_proof.root)
    );
}

#[test]
fn field_roots_bellatrix() {
    let h = ExecutionPayloadHeaderCairo(ExecutionPayloadHeader::Bellatrix(common()));
    let roots = h.to_field_roots().unwrap();
    assert_eq!(roots.len(), 14);
    assert_eq!(roots[0], Uint256 { low: u128::from_be_bytes([1; 16]), high: u128::from_be_bytes([1; 16]) });
    // The 20-byte fee recipient is left-padded with zeros.
    let mut padded = [0u8; 32];
    padded[12..].copy_from_slice(&[2; 20]);
    assert_eq!(
        roots[1],
        Uint256 {
            low: u128::from_be_bytes(padded[16..32].try_into().unwrap()),
            high: u128::from_be_bytes(padded[0..16].try_into().unwrap()),
        }
    );
    // 64-bit integers are zero-extended into the low-order bytes.
    assert_eq!(roots[6], u64_to_uint256(1234));
    assert_eq!(roots[9], u64_to_uint256(1_700_000_000));
}

#[test]
fn field_roots_by_fork() {
    let capella = ExecutionPayloadHeaderCairo(ExecutionPayloadHeader::Capella {
        common: common(),
        withdrawals_root: [11; 32],
    });
    let r = capella.to_field_roots().unwrap();
    assert_eq!(r.len(), 15);
    assert_eq!(
        r[14],
        Uint256 {
            low: u128::from_be_bytes([11; 16]),
            high: u128::from_be_bytes([11; 16]),
        }
    );

    let deneb = ExecutionPayloadHeaderCairo(ExecutionPayloadHeader::Deneb {
        common: common(),
        withdrawals_root: [11; 32],
        blob_gas_used: 77,
        excess_blob_gas: 88,
    });
    let r = deneb.to_field_roots().unwrap();
    assert_eq!(r.len(), 17);
    assert_eq!(r[15], u64_to_uint256(77));
    assert_eq!(r[16], u64_to_uint256(88));

    let electra = ExecutionPayloadHeaderCairo(ExecutionPayloadHeader::Electra {
        common: common(),
        withdrawals_root: [11; 32],
        blob_gas_used: 77,
        excess_blob_gas: 88,
    });
    assert_eq!(electra.to_field_roots().unwrap().len(), 17);
}

#[test]
fn unsupported_fork_fails_fast() {
    let h = ExecutionPayloadHeaderCairo(ExecutionPayloadHeader::Fulu);
    assert_eq!(h.to_field_roots(), Err(UnsupportedForkError));
}
