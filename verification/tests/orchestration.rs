use bankai_hints::bls::{G1PointCairo, G2PointCairo};
use bankai_hints::felt::Felt;
use bankai_hints::input::{
    write_committee_update_inputs, write_epoch_update_inputs, write_expected_proof_output,
    write_stone_proof_inputs, HintError, InputField, PROGRAM_HASH_HIGH, PROGRAM_HASH_LOW,
};
use bankai_hints::memory::{CellValue, Memory, MemoryAddress};
use bankai_hints::scalars::{UInt384, Uint256, Uint256Bits32};
use bankai_hints::types::{
    BeaconHeaderCairo, EpochUpdateCairo, ExecutionHeaderProofCairo, RecursiveEpochInputsCairo,
    RecursiveEpochOutputsCairo, SignerDataCairo, SyncCommitteeDataCairo,
};

fn g1(seed: u128) -> G1PointCairo {
    G1PointCairo {
        x: UInt384::from_limbs(seed, seed + 1, seed + 2, seed + 3),
        y: UInt384::from_limbs(seed + 4, seed + 5, seed + 6, seed + 7),
    }
}

fn b32(seed: u32) -> Uint256Bits32 {
    Uint256Bits32 {
        w0: seed,
        w1: seed + 1,
        w2: seed + 2,
        w3: seed + 3,
        w4: seed + 4,
        w5: seed + 5,
        w6: seed + 6,
        w7: seed + 7,
    }
}

fn sample_epoch_update() -> EpochUpdateCairo {
    EpochUpdateCairo {
        signature_point: G2PointCairo {
            x0: UInt384::from_limbs(1, 0, 0, 0),
            x1: UInt384::from_limbs(2, 0, 0, 0),
            y0: UInt384::from_limbs(3, 0, 0, 0),
            y1: UInt384::from_limbs(4, 0, 0, 0),
        },
        header: BeaconHeaderCairo {
            slot: Uint256 { low: 100, high: 0 },
            proposer_index: Uint256 { low: 7, high: 0 },
            parent_root: Uint256 { low: 1, high: 2 },
            state_root: Uint256 { low: 3, high: 4 },
            body_root: Uint256 { low: 5, high: 6 },
        },
        signer_data: SignerDataCairo {
            aggregate_pub: g1(40),
            non_signers: vec![g1(50), g1(60)],
            n_non_signers: Felt { lo: 2, hi: 0 },
        },
        execution_header_proof: ExecutionHeaderProofCairo {
            root: Uint256 { low: 8, high: 9 },
            path: vec![b32(1), b32(2)],
            leaf: Uint256 { low: 10, high: 11 },
            index: Felt { lo: 9, hi: 0 },
            execution_payload_header: vec![Uint256 { low: 12, high: 0 }],
        },
    }
}

fn sample_outputs() -> RecursiveEpochOutputsCairo {
    RecursiveEpochOutputsCairo {
        beacon_header_root: Uint256 { low: 21, high: 22 },
        beacon_state_root: Uint256 { low: 23, high: 24 },
        beacon_height: Felt { lo: 25, hi: 0 },
        n_signers: Felt { lo: 26, hi: 0 },
        execution_header_root: Uint256 { low: 27, high: 28 },
        execution_header_height: Felt { lo: 29, hi: 0 },
        current_committee_hash: Uint256 { low: 30, high: 31 },
        next_committee_hash: Uint256 { low: 32, high: 33 },
    }
}

fn sample_committee_update() -> SyncCommitteeDataCairo {
    SyncCommitteeDataCairo {
        beacon_slot: Felt { lo: 6400, hi: 0 },
        next_sync_committee_branch: vec![b32(70), b32(80)],
        next_aggregate_sync_committee: UInt384::from_limbs(9, 8, 7, 6),
        committee_keys_root: b32(90),
    }
}

fn inputs(
    stone: Option<String>,
    committee: Option<SyncCommitteeDataCairo>,
    outputs: Option<RecursiveEpochOutputsCairo>,
) -> RecursiveEpochInputsCairo {
    RecursiveEpochInputsCairo {
        epoch_update: sample_epoch_update(),
        sync_committee_update: committee,
        stone_proof: stone,
        stark_proof_output: outputs,
    }
}

fn at(segment: usize, offset: usize) -> MemoryAddress {
    MemoryAddress { segment, offset }
}

fn felt_cell(mem: &Memory, a: MemoryAddress) -> Felt {
    match mem.read(a) {
        Some(CellValue::Felt(f)) => f,
        other => panic!("expected a field-element cell, got {:?}", other),
    }
}

fn run_main_inputs(inp: &RecursiveEpochInputsCairo) -> (Memory, Felt, Felt, Felt) {
    let mut mem = Memory::new();
    let base = mem.add_segment();
    write_epoch_update_inputs(inp, &mut mem, base, at(0, 50), at(0, 51), at(0, 52)).unwrap();
    let g = felt_cell(&mem, at(0, 50));
    let c = felt_cell(&mem, at(0, 51));
    let p = felt_cell(&mem, at(0, 52));
    (mem, g, c, p)
}

#[test]
fn flags_follow_presence_in_all_four_combinations() {
    let zero = Felt { lo: 0, hi: 0 };
    let one = Felt { lo: 1, hi: 0 };

    let (_, g, c, _) = run_main_inputs(&inputs(None, None, None));
    assert_eq!((g, c), (one, zero));

    let (_, g, c, _) = run_main_inputs(&inputs(Some("{}".to_string()), None, None));
    assert_eq!((g, c), (zero, zero));

    let (_, g, c, _) = run_main_inputs(&inputs(None, Some(sample_committee_update()), None));
    assert_eq!((g, c), (one, one));

    let (_, g, c, _) = run_main_inputs(&inputs(
        Some("{}".to_string()),
        Some(sample_committee_update()),
        None,
    ));
    assert_eq!((g, c), (zero, one));
}

#[test]
fn program_identity_is_always_stamped() {
    let (_, _, _, p) = run_main_inputs(&inputs(None, None, None));
    assert_eq!(p, Felt { lo: PROGRAM_HASH_LOW, hi: PROGRAM_HASH_HIGH });
    let (_, _, _, p) = run_main_inputs(&inputs(Some("{}".to_string()), None, None));
    assert_eq!(p, Felt { lo: PROGRAM_HASH_LOW, hi: PROGRAM_HASH_HIGH });
}

#[test]
fn epoch_update_is_encoded_at_its_address() {
    let inp = inputs(None, None, None);
    let (mem, _, _, _) = run_main_inputs(&inp);
    assert_eq!(
        G2PointCairo::from_memory(&mem, at(0, 0)),
        Some(inp.epoch_update.signature_point)
    );
    assert_eq!(
        BeaconHeaderCairo::from_memory(&mem, at(0, 16)),
        Some(inp.epoch_update.header)
    );
}

#[test]
fn scenario_genesis() {
    // No prior proof, no committee update.
    let inp = inputs(None, None, None);
    let mut mem = Memory::new();
    mem.add_segment();
    write_epoch_update_inputs(&inp, &mut mem, at(0, 0), at(0, 50), at(0, 51), at(0, 52)).unwrap();
    assert_eq!(felt_cell(&mem, at(0, 50)), Felt { lo: 1, hi: 0 });
    assert_eq!(felt_cell(&mem, at(0, 51)), Felt { lo: 0, hi: 0 });

    // The expected-proof-output region is left untouched.
    let segments_before = mem.num_segments();
    write_expected_proof_output(&inp, &mut mem, at(0, 60)).unwrap();
    assert_eq!(mem.num_segments(), segments_before);
    for k in 0..13 {
        assert_eq!(mem.read(at(0, 60 + k)), None);
    }

    // The prior proof and the committee update are rightly absent.
    assert_eq!(
        write_stone_proof_inputs(&inp),
        Err(HintError::MissingInput(InputField::StoneProof))
    );
    assert_eq!(
        write_committee_update_inputs(&inp, &mut mem, at(0, 80), at(0, 84), at(0, 100), at(0, 95)),
        Err(HintError::MissingInput(InputField::SyncCommitteeUpdate))
    );
}

#[test]
fn scenario_continuation() {
    // A prior proof and its outputs, no committee update.
    let outputs = sample_outputs();
    let inp = inputs(Some("{\"a\":1}".to_string()), None, Some(outputs));
    let mut mem = Memory::new();
    mem.add_segment();
    write_epoch_update_inputs(&inp, &mut mem, at(0, 0), at(0, 50), at(0, 51), at(0, 52)).unwrap();
    assert_eq!(felt_cell(&mem, at(0, 50)), Felt { lo: 0, hi: 0 });
    assert_eq!(felt_cell(&mem, at(0, 51)), Felt { lo: 0, hi: 0 });

    // The trust-anchor region carries the prior outputs' exact values.
    write_expected_proof_output(&inp, &mut mem, at(0, 60)).unwrap();
    assert_eq!(RecursiveEpochOutputsCairo::from_memory(&mem, at(0, 60)), Some(outputs));

    // The prior proof is packaged verbatim under a `proof` key.
    let packaged = write_stone_proof_inputs(&inp).unwrap();
    assert_eq!(packaged, "{\"proof\":{\"a\":1}}");
}

#[test]
fn scenario_committee_rotation() {
    let u = sample_committee_update();
    let inp = inputs(None, Some(u.clone()), None);
    let mut mem = Memory::new();
    mem.add_segment();
    write_epoch_update_inputs(&inp, &mut mem, at(0, 0), at(0, 50), at(0, 51), at(0, 52)).unwrap();
    assert_eq!(felt_cell(&mem, at(0, 51)), Felt { lo: 1, hi: 0 });

    let first_fresh = mem.num_segments();
    write_committee_update_inputs(&inp, &mut mem, at(0, 80), at(0, 84), at(0, 100), at(0, 95))
        .unwrap();

    assert_eq!(
        UInt384::from_memory(&mem, at(0, 80)),
        Some(u.next_aggregate_sync_committee)
    );
    assert_eq!(
        Uint256Bits32::from_memory(&mem, at(0, 84)),
        Some(u.committee_keys_root)
    );
    // path_len equals the exact count of branch elements supplied.
    assert_eq!(felt_cell(&mem, at(0, 95)), Felt { lo: 2, hi: 0 });
    // Each path cell points at a fresh segment holding that element's words
    // unmodified.
    for i in 0..2 {
        let target = match mem.read(at(0, 100 + i)) {
            Some(CellValue::Pointer(a)) => a,
            other => panic!("expected a pointer cell, got {:?}", other),
        };
        assert_eq!(target, at(first_fresh + i, 0));
        assert_eq!(
            Uint256Bits32::from_memory(&mem, target),
            Some(u.next_sync_committee_branch[i])
        );
    }
}

#[test]
fn packaging_needs_no_memory_and_keeps_the_artifact_verbatim() {
    let inp = inputs(Some("[1,2,3]".to_string()), None, None);
    assert_eq!(write_stone_proof_inputs(&inp).unwrap(), "{\"proof\":[1,2,3]}");
}

#[test]
fn packaging_matches_a_json_object_serialization() {
    let artifact = "{\"trace\":[7,8],\"ok\":true}";
    let value: serde_json::Value = serde_json::from_str(artifact).unwrap();
    let compact = value.to_string();
    let mut wrapper = serde_json::Map::new();
    wrapper.insert("proof".to_string(), value);
    let expected = serde_json::Value::Object(wrapper).to_string();

    let inp = inputs(Some(compact), None, None);
    assert_eq!(write_stone_proof_inputs(&inp).unwrap(), expected);
}

#[test]
fn a_round_pairs_inputs_with_outputs() {
    let round = bankai_hints::types::RecursiveEpochUpdateCairo {
        inputs: inputs(None, None, None),
        outputs: sample_outputs(),
    };
    assert_eq!(round.outputs, sample_outputs());
    assert!(round.inputs.stone_proof.is_none());
}
