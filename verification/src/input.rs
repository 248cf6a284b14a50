//! Orchestration of one recursive proving round: derives the genesis and
//! committee-rotation flags from which optional inputs are present, stamps
//! the verifying program's identity, and drives the layout writers at the
//! circuit's designated input addresses.

use vstd::prelude::*;
use vstd::string::StringExecFns;

use crate::felt::Felt;
use crate::memory::{
    addr_add, addr_cell, can_write_cell, can_write_range, mem_cell, write_cell, write_vals,
    CellValue, EncodeError, MemView, Memory, MemoryAddress,
};
use crate::memory::{lemma_push_frame, lemma_write_cell, lemma_write_vals};
use crate::scalars::Uint256Bits32;
use crate::types::RecursiveEpochInputsCairo;

verus! {

/// Low limb of the verifying circuit's 252-bit identity: a protocol
/// constant, never derived from input, that lets the circuit confirm a
/// consumed prior proof came from a self-identical program.
pub const PROGRAM_HASH_LOW: u128 = 0xb3036db0f0d9acac15d5822ea315287a;

/// High limb of the verifying circuit's identity constant.
pub const PROGRAM_HASH_HIGH: u128 = 0x5b6ff167e72599c14a2e99cac4a6e8d;

/// The program-identity constant as a field element.
pub open spec fn program_hash_felt() -> Felt {
    Felt { lo: PROGRAM_HASH_LOW, hi: PROGRAM_HASH_HIGH }
}

/// The genesis flag: 1 exactly when no prior-proof artifact is present.
pub open spec fn genesis_flag(inputs: RecursiveEpochInputsCairo) -> Felt {
    if inputs.stone_proof is None {
        Felt { lo: 1, hi: 0 }
    } else {
        Felt { lo: 0, hi: 0 }
    }
}

/// The committee flag: 1 exactly when a sync-committee update is present.
pub open spec fn committee_flag(inputs: RecursiveEpochInputsCairo) -> Felt {
    if inputs.sync_committee_update is Some {
        Felt { lo: 1, hi: 0 }
    } else {
        Felt { lo: 0, hi: 0 }
    }
}

/// The flags are derived, never supplied: the genesis flag is 1 exactly when
/// the prior-proof artifact is absent, and the committee flag is 1 exactly
/// when the sync-committee update is present; each is 0 otherwise.
pub proof fn lemma_flags_derived(inputs: RecursiveEpochInputsCairo)
    ensures
        genesis_flag(inputs).as_int() == 1 <==> inputs.stone_proof is None,
        genesis_flag(inputs).as_int() == 0 <==> inputs.stone_proof is Some,
        committee_flag(inputs).as_int() == 1 <==> inputs.sync_committee_update is Some,
        committee_flag(inputs).as_int() == 0 <==> inputs.sync_committee_update is None,
{
}

/// The optional input a mode required but found absent.
#[derive(Clone, Copy, PartialEq, Eq, Structural, Debug)]
pub enum InputField {
    StoneProof,
    SyncCommitteeUpdate,
}

/// How an orchestration step fails: an encoding failure, or an input the
/// current mode requires that is absent — a fatal configuration error,
/// reported with the missing field.
#[derive(Clone, Copy, PartialEq, Eq, Structural, Debug)]
pub enum HintError {
    Encode(EncodeError),
    MissingInput(InputField),
}

/// The memory after one round's main inputs: the epoch update at its
/// designated address, then the two derived flags and the program identity.
pub open spec fn epoch_inputs_encoded(
    inputs: RecursiveEpochInputsCairo,
    m: MemView,
    eu: MemoryAddress,
    ig: MemoryAddress,
    ic: MemoryAddress,
    ph: MemoryAddress,
) -> MemView {
    let m1 = inputs.epoch_update.spec_encoded(m, eu.segment as int, eu.offset as int);
    let m2 = write_cell(
        m1,
        ig.segment as int,
        ig.offset as int,
        CellValue::Felt(genesis_flag(inputs)),
    );
    let m3 = write_cell(
        m2,
        ic.segment as int,
        ic.offset as int,
        CellValue::Felt(committee_flag(inputs)),
    );
    write_cell(m3, ph.segment as int, ph.offset as int, CellValue::Felt(program_hash_felt()))
}

/// When the main inputs can be encoded: the epoch update fits at its
/// address, and each flag cell is still free once everything before it is
/// written.
pub open spec fn epoch_inputs_can_encode(
    inputs: RecursiveEpochInputsCairo,
    m: MemView,
    eu: MemoryAddress,
    ig: MemoryAddress,
    ic: MemoryAddress,
    ph: MemoryAddress,
) -> bool {
    let m1 = inputs.epoch_update.spec_encoded(m, eu.segment as int, eu.offset as int);
    let m2 = write_cell(
        m1,
        ig.segment as int,
        ig.offset as int,
        CellValue::Felt(genesis_flag(inputs)),
    );
    let m3 = write_cell(
        m2,
        ic.segment as int,
        ic.offset as int,
        CellValue::Felt(committee_flag(inputs)),
    );
    &&& inputs.epoch_update.signer_data.wf()
    &&& can_write_range(m, eu.segment as int, eu.offset as int, 43)
    &&& 8 * inputs.epoch_update.signer_data.non_signers@.len() <= usize::MAX
    &&& 8 * inputs.epoch_update.execution_header_proof.path@.len() <= usize::MAX
    &&& 2 * inputs.epoch_update.execution_header_proof.execution_payload_header@.len()
        <= usize::MAX
    &&& can_write_cell(m1, ig.segment as int, ig.offset as int)
    &&& can_write_cell(m2, ic.segment as int, ic.offset as int)
    &&& can_write_cell(m3, ph.segment as int, ph.offset as int)
}

/// Writes the epoch update at its designated address, then the derived
/// `is_genesis` and `is_committee_update` flags and the program-identity
/// constant at theirs. The flags come from the presence of the optional
/// inputs alone and can never disagree with them.
pub fn write_epoch_update_inputs(
    inputs: &RecursiveEpochInputsCairo,
    mem: &mut Memory,
    epoch_update_ptr: MemoryAddress,
    is_genesis_ptr: MemoryAddress,
    is_committee_update_ptr: MemoryAddress,
    program_hash_ptr: MemoryAddress,
) -> (r: Result<(), EncodeError>)
    ensures
        r is Ok <==> epoch_inputs_can_encode(
            *inputs,
            old(mem)@,
            epoch_update_ptr,
            is_genesis_ptr,
            is_committee_update_ptr,
            program_hash_ptr,
        ),
        r is Ok ==> final(mem)@ == epoch_inputs_encoded(
            *inputs,
            old(mem)@,
            epoch_update_ptr,
            is_genesis_ptr,
            is_committee_update_ptr,
            program_hash_ptr,
        ),
        r is Ok ==> addr_cell(final(mem)@, is_genesis_ptr) == Some(
            CellValue::Felt(genesis_flag(*inputs)),
        ),
        r is Ok ==> addr_cell(final(mem)@, is_committee_update_ptr) == Some(
            CellValue::Felt(committee_flag(*inputs)),
        ),
        r is Ok ==> addr_cell(final(mem)@, program_hash_ptr) == Some(
            CellValue::Felt(program_hash_felt()),
        ),
{
    let ghost igseg = is_genesis_ptr.segment as int;
    let ghost igoff = is_genesis_ptr.offset as int;
    let ghost icseg = is_committee_update_ptr.segment as int;
    let ghost icoff = is_committee_update_ptr.offset as int;
    let ghost phseg = program_hash_ptr.segment as int;
    let ghost phoff = program_hash_ptr.offset as int;
    match inputs.epoch_update.to_memory(mem, epoch_update_ptr) {
        Ok(_) => {},
        Err(e) => {
            return Err(e);
        },
    }
    let ghost m1 = mem@;
    let is_genesis = match &inputs.stone_proof {
        Some(_) => Felt { lo: 0, hi: 0 },
        None => Felt { lo: 1, hi: 0 },
    };
    proof {
        assert(is_genesis == genesis_flag(*inputs));
    }
    match mem.write(is_genesis_ptr, CellValue::Felt(is_genesis)) {
        Ok(_) => {},
        Err(e) => {
            return Err(EncodeError::Memory(e));
        },
    }
    let ghost m2 = mem@;
    let is_committee_update = match &inputs.sync_committee_update {
        Some(_) => Felt { lo: 1, hi: 0 },
        None => Felt { lo: 0, hi: 0 },
    };
    proof {
        assert(is_committee_update == committee_flag(*inputs));
    }
    match mem.write(is_committee_update_ptr, CellValue::Felt(is_committee_update)) {
        Ok(_) => {},
        Err(e) => {
            return Err(EncodeError::Memory(e));
        },
    }
    let ghost m3 = mem@;
    let program_hash = Felt { lo: PROGRAM_HASH_LOW, hi: PROGRAM_HASH_HIGH };
    match mem.write(program_hash_ptr, CellValue::Felt(program_hash)) {
        Ok(_) => {},
        Err(e) => {
            return Err(EncodeError::Memory(e));
        },
    }
    proof {
        lemma_write_cell(m1, igseg, igoff, CellValue::Felt(genesis_flag(*inputs)));
        lemma_write_cell(m2, icseg, icoff, CellValue::Felt(committee_flag(*inputs)));
        lemma_write_cell(m3, phseg, phoff, CellValue::Felt(program_hash_felt()));
        assert(mem_cell(m2, igseg, igoff) == Some(CellValue::Felt(genesis_flag(*inputs))));
        assert(mem_cell(m3, igseg, igoff) == Some(CellValue::Felt(genesis_flag(*inputs))));
        assert(mem_cell(m3, icseg, icoff) == Some(CellValue::Felt(committee_flag(*inputs))));
        assert(mem_cell(mem@, igseg, igoff) == Some(CellValue::Felt(genesis_flag(*inputs))));
        assert(mem_cell(mem@, icseg, icoff) == Some(CellValue::Felt(committee_flag(*inputs))));
        assert(mem_cell(mem@, phseg, phoff) == Some(CellValue::Felt(program_hash_felt())));
    }
    Ok(())
}

/// If a prior proof's outputs are present, writes them at the designated
/// trust-anchor address; if absent — the genesis path — the memory is left
/// exactly as it was.
pub fn write_expected_proof_output(
    inputs: &RecursiveEpochInputsCairo,
    mem: &mut Memory,
    expected_output_ptr: MemoryAddress,
) -> (r: Result<(), EncodeError>)
    ensures
        inputs.stark_proof_output is None ==> r is Ok && final(mem)@ == old(mem)@,
        inputs.stark_proof_output matches Some(o) ==> {
            &&& (r is Ok <==> can_write_range(
                old(mem)@,
                expected_output_ptr.segment as int,
                expected_output_ptr.offset as int,
                13,
            ))
            &&& (r is Ok ==> final(mem)@ == write_vals(
                old(mem)@,
                expected_output_ptr.segment as int,
                expected_output_ptr.offset as int,
                o.enc(),
            ))
            &&& (r is Err ==> final(mem)@ == old(mem)@)
        },
{
    match &inputs.stark_proof_output {
        Some(o) => match o.to_memory(mem, expected_output_ptr) {
            Ok(_) => Ok(()),
            Err(e) => Err(e),
        },
        None => Ok(()),
    }
}

/// Packages the prior proof artifact, verbatim and uninterpreted, as the
/// external input document for the proving tool, under a `proof` key. Its
/// absence on a path that needs it is a fatal configuration error.
pub fn write_stone_proof_inputs(inputs: &RecursiveEpochInputsCairo) -> (r: Result<
    String,
    HintError,
>)
    ensures
        inputs.stone_proof matches Some(p) ==> r matches Ok(s) && s@ == "{\"proof\":"@ + p@
            + "}"@,
        inputs.stone_proof is None <==> r == Err::<String, HintError>(
            HintError::MissingInput(InputField::StoneProof),
        ),
{
    match &inputs.stone_proof {
        Some(p) => {
            let mut s = String::from_str("{\"proof\":");
            s.append(p.as_str());
            s.append("}");
            Ok(s)
        },
        None => Err(HintError::MissingInput(InputField::StoneProof)),
    }
}

/// The memory after writing a Merkle branch the committee-update way: each
/// element gets a fresh segment of its own, and the parent cell at
/// `poff + i` holds the pointer to element `i`'s segment.
pub open spec fn committee_branch_encoded(
    m: MemView,
    branch: Seq<Uint256Bits32>,
    pseg: int,
    poff: int,
) -> MemView
    decreases branch.len(),
{
    if branch.len() == 0 {
        m
    } else {
        let m1 = m.push(Seq::<Option<CellValue>>::empty());
        let m2 = write_vals(m1, m.len() as int, 0, branch[0].enc());
        let m3 = write_cell(
            m2,
            pseg,
            poff,
            CellValue::Pointer(MemoryAddress { segment: m.len() as usize, offset: 0 }),
        );
        committee_branch_encoded(m3, branch.drop_first(), pseg, poff + 1)
    }
}

/// Writing a branch appends one segment per element.
pub proof fn lemma_branch_encoded_len(m: MemView, branch: Seq<Uint256Bits32>, pseg: int, poff: int)
    requires
        0 <= pseg < m.len(),
        0 <= poff,
    ensures
        committee_branch_encoded(m, branch, pseg, poff).len() == m.len() + branch.len(),
    decreases branch.len(),
{
    if branch.len() > 0 {
        let m1 = m.push(Seq::<Option<CellValue>>::empty());
        let m2 = write_vals(m1, m.len() as int, 0, branch[0].enc());
        let m3 = write_cell(
            m2,
            pseg,
            poff,
            CellValue::Pointer(MemoryAddress { segment: m.len() as usize, offset: 0 }),
        );
        lemma_write_vals(m1, m.len() as int, 0, branch[0].enc());
        lemma_write_cell(m2, pseg, poff, CellValue::Pointer(MemoryAddress { segment: m.len() as usize, offset: 0 }));
        lemma_branch_encoded_len(m3, branch.drop_first(), pseg, poff + 1);
    }
}

/// Extending the branch by one element extends the encoding by one step at
/// the next parent cell and the next fresh segment id.
pub proof fn lemma_branch_encoded_push(
    m: MemView,
    branch: Seq<Uint256Bits32>,
    x: Uint256Bits32,
    pseg: int,
    poff: int,
)
    requires
        0 <= pseg < m.len(),
        0 <= poff,
    ensures
        committee_branch_encoded(m, branch.push(x), pseg, poff) == ({
            let mc = committee_branch_encoded(m, branch, pseg, poff);
            let m1 = mc.push(Seq::<Option<CellValue>>::empty());
            let m2 = write_vals(m1, m.len() + branch.len() as int, 0, x.enc());
            write_cell(
                m2,
                pseg,
                poff + branch.len(),
                CellValue::Pointer(
                    MemoryAddress { segment: (m.len() + branch.len()) as usize, offset: 0 },
                ),
            )
        }),
    decreases branch.len(),
{
    lemma_branch_encoded_len(m, branch, pseg, poff);
    if branch.len() == 0 {
        assert(branch.push(x)[0] == x);
        assert(branch.push(x).drop_first() =~= Seq::<Uint256Bits32>::empty());
        assert(committee_branch_encoded(m, branch, pseg, poff) == m);
        let m1 = m.push(Seq::<Option<CellValue>>::empty());
        let m2 = write_vals(m1, m.len() as int, 0, x.enc());
        let m3 = write_cell(
            m2,
            pseg,
            poff,
            CellValue::Pointer(MemoryAddress { segment: m.len() as usize, offset: 0 }),
        );
        assert(committee_branch_encoded(m3, branch.push(x).drop_first(), pseg, poff + 1) == m3);
    } else {
        let m1 = m.push(Seq::<Option<CellValue>>::empty());
        let m2 = write_vals(m1, m.len() as int, 0, branch[0].enc());
        let m3 = write_cell(
            m2,
            pseg,
            poff,
            CellValue::Pointer(MemoryAddress { segment: m.len() as usize, offset: 0 }),
        );
        lemma_write_vals(m1, m.len() as int, 0, branch[0].enc());
        lemma_write_cell(m2, pseg, poff, CellValue::Pointer(MemoryAddress { segment: m.len() as usize, offset: 0 }));
        assert(branch.push(x)[0] == branch[0]);
        assert(branch.push(x).drop_first() =~= branch.drop_first().push(x));
        lemma_branch_encoded_push(m3, branch.drop_first(), x, pseg, poff + 1);
        assert(m3.len() + branch.drop_first().len() == m.len() + branch.len());
    }
}

/// Where a written branch's cells land: pointer `i` at `poff + i`, element
/// `i`'s words at offsets 0..8 of segment `m.len() + i`, everything else
/// untouched.
pub proof fn lemma_branch_encoded_cells(
    m: MemView,
    branch: Seq<Uint256Bits32>,
    pseg: int,
    poff: int,
)
    requires
        0 <= pseg < m.len(),
        0 <= poff,
    ensures
        committee_branch_encoded(m, branch, pseg, poff).len() == m.len() + branch.len(),
        forall|s2: int, o2: int|
            0 <= s2 < m.len() && !(s2 == pseg && poff <= o2 < poff + branch.len())
                ==> #[trigger] mem_cell(committee_branch_encoded(m, branch, pseg, poff), s2, o2)
                == mem_cell(m, s2, o2),
        forall|i: int|
            0 <= i < branch.len() ==> #[trigger] mem_cell(
                committee_branch_encoded(m, branch, pseg, poff),
                pseg,
                poff + i,
            ) == Some(
                CellValue::Pointer(MemoryAddress { segment: (m.len() + i) as usize, offset: 0 }),
            ),
        forall|i: int, k: int|
            0 <= i < branch.len() && 0 <= k < 8 ==> #[trigger] mem_cell(
                committee_branch_encoded(m, branch, pseg, poff),
                m.len() + i,
                k,
            ) == Some(branch[i].enc()[k]),
    decreases branch.len(),
{
    lemma_branch_encoded_len(m, branch, pseg, poff);
    if branch.len() > 0 {
        let mc = committee_branch_encoded(m, branch, pseg, poff);
        let m1 = m.push(Seq::<Option<CellValue>>::empty());
        let m2 = write_vals(m1, m.len() as int, 0, branch[0].enc());
        let m3 = write_cell(
            m2,
            pseg,
            poff,
            CellValue::Pointer(MemoryAddress { segment: m.len() as usize, offset: 0 }),
        );
        lemma_push_frame(m, Seq::<Option<CellValue>>::empty());
        lemma_write_vals(m1, m.len() as int, 0, branch[0].enc());
        lemma_write_cell(m2, pseg, poff, CellValue::Pointer(MemoryAddress { segment: m.len() as usize, offset: 0 }));
        lemma_branch_encoded_cells(m3, branch.drop_first(), pseg, poff + 1);
        assert forall|s2: int, o2: int|
            0 <= s2 < m.len() && !(s2 == pseg && poff <= o2 < poff + branch.len())
                implies #[trigger] mem_cell(mc, s2, o2) == mem_cell(m, s2, o2) by {
            assert(mem_cell(mc, s2, o2) == mem_cell(m3, s2, o2));
            assert(mem_cell(m1, s2, o2) == mem_cell(m, s2, o2));
        }
        assert forall|i: int| 0 <= i < branch.len() implies #[trigger] mem_cell(
            mc,
            pseg,
            poff + i,
        ) == Some(
            CellValue::Pointer(MemoryAddress { segment: (m.len() + i) as usize, offset: 0 }),
        ) by {
            if i == 0 {
                assert(mem_cell(mc, pseg, poff) == mem_cell(m3, pseg, poff));
            } else {
                assert(mem_cell(mc, pseg, (poff + 1) + (i - 1)) == Some(
                    CellValue::Pointer(
                        MemoryAddress { segment: (m3.len() + (i - 1)) as usize, offset: 0 },
                    ),
                ));
            }
        }
        assert forall|i: int, k: int| 0 <= i < branch.len() && 0 <= k < 8 implies #[trigger]
            mem_cell(mc, m.len() + i, k) == Some(branch[i].enc()[k]) by {
            if i == 0 {
                assert(mem_cell(mc, m.len() as int, k) == mem_cell(m3, m.len() as int, k));
                assert(mem_cell(m3, m.len() as int, k) == mem_cell(m2, m.len() as int, k));
            } else {
                assert(mem_cell(mc, m3.len() + (i - 1), k) == Some(
                    branch.drop_first()[i - 1].enc()[k],
                ));
                assert(branch.drop_first()[i - 1] == branch[i]);
            }
        }
    }
}

/// The memory after the whole committee update: aggregate key, committee-keys
/// root, the branch with one fresh segment per element, and the branch
/// length, each at its designated address.
pub open spec fn committee_update_encoded(
    u: crate::types::SyncCommitteeDataCairo,
    m: MemView,
    agg: MemoryAddress,
    root: MemoryAddress,
    path: MemoryAddress,
    path_len: MemoryAddress,
) -> MemView {
    let m_a = write_vals(
        m,
        agg.segment as int,
        agg.offset as int,
        u.next_aggregate_sync_committee.enc(),
    );
    let m_b = write_vals(m_a, root.segment as int, root.offset as int, u.committee_keys_root.enc());
    let m_c = committee_branch_encoded(
        m_b,
        u.next_sync_committee_branch@,
        path.segment as int,
        path.offset as int,
    );
    write_cell(
        m_c,
        path_len.segment as int,
        path_len.offset as int,
        CellValue::Felt(Felt { lo: u.next_sync_committee_branch@.len() as u128, hi: 0 }),
    )
}

/// When the committee update can be written: each region is free once what
/// comes before it is written.
pub open spec fn committee_update_can_encode(
    u: crate::types::SyncCommitteeDataCairo,
    m: MemView,
    agg: MemoryAddress,
    root: MemoryAddress,
    path: MemoryAddress,
    path_len: MemoryAddress,
) -> bool {
    let m_a = write_vals(
        m,
        agg.segment as int,
        agg.offset as int,
        u.next_aggregate_sync_committee.enc(),
    );
    let m_b = write_vals(m_a, root.segment as int, root.offset as int, u.committee_keys_root.enc());
    let m_c = committee_branch_encoded(
        m_b,
        u.next_sync_committee_branch@,
        path.segment as int,
        path.offset as int,
    );
    &&& can_write_range(m, agg.segment as int, agg.offset as int, 4)
    &&& can_write_range(m_a, root.segment as int, root.offset as int, 8)
    &&& can_write_range(
        m_b,
        path.segment as int,
        path.offset as int,
        u.next_sync_committee_branch@.len() as int,
    )
    &&& can_write_cell(m_c, path_len.segment as int, path_len.offset as int)
}

/// Writes the committee-rotation inputs at their designated addresses: the
/// next aggregate committee key, the committee-keys root, then one fresh
/// segment per branch element with its pointer in the path array, and the
/// branch length. A missing committee update is a fatal configuration error.
#[verifier::loop_isolation(false)]
pub fn write_committee_update_inputs(
    inputs: &RecursiveEpochInputsCairo,
    mem: &mut Memory,
    aggregate_committee_key_ptr: MemoryAddress,
    committee_keys_root_ptr: MemoryAddress,
    path_ptr: MemoryAddress,
    path_len_ptr: MemoryAddress,
) -> (r: Result<(), HintError>)
    ensures
        inputs.sync_committee_update is None <==> r == Err::<(), HintError>(
            HintError::MissingInput(InputField::SyncCommitteeUpdate),
        ),
        inputs.sync_committee_update is None ==> final(mem)@ == old(mem)@,
        inputs.sync_committee_update matches Some(u) ==> {
            &&& (r is Ok <==> committee_update_can_encode(
                u,
                old(mem)@,
                aggregate_committee_key_ptr,
                committee_keys_root_ptr,
                path_ptr,
                path_len_ptr,
            ))
            &&& (r is Ok ==> final(mem)@ == committee_update_encoded(
                u,
                old(mem)@,
                aggregate_committee_key_ptr,
                committee_keys_root_ptr,
                path_ptr,
                path_len_ptr,
            ))
        },
{
    let u = match &inputs.sync_committee_update {
        Some(u) => u,
        None => {
            return Err(HintError::MissingInput(InputField::SyncCommitteeUpdate));
        },
    };
    let ghost pseg = path_ptr.segment as int;
    let ghost poff = path_ptr.offset as int;
    match u.next_aggregate_sync_committee.to_memory(mem, aggregate_committee_key_ptr) {
        Ok(_) => {},
        Err(e) => {
            return Err(HintError::Encode(e));
        },
    }
    let ghost m_a = mem@;
    match u.committee_keys_root.to_memory(mem, committee_keys_root_ptr) {
        Ok(_) => {},
        Err(e) => {
            return Err(HintError::Encode(e));
        },
    }
    let ghost m_b = mem@;
    proof {
        lemma_write_vals(
            old(mem)@,
            aggregate_committee_key_ptr.segment as int,
            aggregate_committee_key_ptr.offset as int,
            u.next_aggregate_sync_committee.enc(),
        );
        lemma_write_vals(
            m_a,
            committee_keys_root_ptr.segment as int,
            committee_keys_root_ptr.offset as int,
            u.committee_keys_root.enc(),
        );
    }
    match mem.probe_range(path_ptr, u.next_sync_committee_branch.len()) {
        Ok(_) => {},
        Err(e) => {
            proof {
                let n = u.next_sync_committee_branch@.len() as int;
                if pseg < m_b.len() && poff + n <= usize::MAX {
                    let i = choose|i: int|
                        0 <= i < n && !((#[trigger] mem_cell(m_b, pseg, poff + i)) is None);
                    assert(mem_cell(m_b, pseg, poff + i) is Some);
                }
            }
            return Err(HintError::Encode(EncodeError::Memory(e)));
        },
    }
    let mut i: usize = 0;
    let ghost branch = u.next_sync_committee_branch@;
    while i < u.next_sync_committee_branch.len()
        invariant
            i <= branch.len(),
            mem@ == committee_branch_encoded(m_b, branch.subrange(0, i as int), pseg, poff),
        decreases branch.len() - i,
    {
        let ghost pre = branch.subrange(0, i as int);
        proof {
            lemma_branch_encoded_len(m_b, pre, pseg, poff);
            lemma_branch_encoded_cells(m_b, pre, pseg, poff);
        }
        let branch_segment = mem.add_segment();
        let ghost mp1 = mem@;
        proof {
            lemma_push_frame(
                committee_branch_encoded(m_b, pre, pseg, poff),
                Seq::<Option<CellValue>>::empty(),
            );
            assert(can_write_range(mp1, branch_segment.segment as int, 0, 8));
        }
        let elem = &u.next_sync_committee_branch[i];
        match elem.to_memory(mem, branch_segment) {
            Ok(_) => {},
            Err(e) => {
                proof {
                    assert(false);
                }
                return Err(HintError::Encode(e));
            },
        }
        let ghost mp2 = mem@;
        let ptr_cell = match addr_add(path_ptr, i) {
            Ok(a) => a,
            Err(e) => {
                proof {
                    assert(false);
                }
                return Err(HintError::Encode(EncodeError::Memory(e)));
            },
        };
        proof {
            lemma_write_vals(mp1, branch_segment.segment as int, 0, branch[i as int].enc());
            assert(mem_cell(mp2, pseg, poff + i as int) == mem_cell(mp1, pseg, poff + i as int));
            assert(mem_cell(mp1, pseg, poff + i as int) == mem_cell(
                committee_branch_encoded(m_b, pre, pseg, poff),
                pseg,
                poff + i as int,
            ));
            assert(mem_cell(committee_branch_encoded(m_b, pre, pseg, poff), pseg, poff + i as int)
                == mem_cell(m_b, pseg, poff + i as int));
            assert(mem_cell(m_b, pseg, poff + i as int) is None);
        }
        match mem.write(ptr_cell, CellValue::Pointer(branch_segment)) {
            Ok(_) => {},
            Err(e) => {
                proof {
                    assert(false);
                }
                return Err(HintError::Encode(EncodeError::Memory(e)));
            },
        }
        proof {
            lemma_branch_encoded_push(m_b, pre, branch[i as int], pseg, poff);
            assert(pre.push(branch[i as int]) =~= branch.subrange(0, i as int + 1));
            assert(branch_segment == (MemoryAddress {
                segment: (m_b.len() + pre.len()) as usize,
                offset: 0,
            }));
        }
        i = i + 1;
    }
    proof {
        assert(branch.subrange(0, branch.len() as int) =~= branch);
        lemma_branch_encoded_cells(m_b, branch, pseg, poff);
    }
    let path_len = Felt::from_usize(u.next_sync_committee_branch.len());
    match mem.write(path_len_ptr, CellValue::Felt(path_len)) {
        Ok(_) => {},
        Err(e) => {
            return Err(HintError::Encode(EncodeError::Memory(e)));
        },
    }
    Ok(())
}

/// Where the committee update's cells land: the branch length at its
/// address, pointer `i` of the path array at `path + i`, and branch element
/// `i`'s words unmodified at offsets 0..8 of its own fresh segment.
pub proof fn lemma_committee_update_layout(
    u: crate::types::SyncCommitteeDataCairo,
    m: MemView,
    agg: MemoryAddress,
    root: MemoryAddress,
    path: MemoryAddress,
    path_len: MemoryAddress,
)
    requires
        committee_update_can_encode(u, m, agg, root, path, path_len),
    ensures
        ({
            let mf = committee_update_encoded(u, m, agg, root, path, path_len);
            let branch = u.next_sync_committee_branch@;
            &&& addr_cell(mf, path_len) == Some(
                CellValue::Felt(Felt { lo: branch.len() as u128, hi: 0 }),
            )
            &&& forall|i: int|
                0 <= i < branch.len() ==> #[trigger] mem_cell(
                    mf,
                    path.segment as int,
                    path.offset + i,
                ) == Some(
                    CellValue::Pointer(
                        MemoryAddress { segment: (m.len() + i) as usize, offset: 0 },
                    ),
                )
            &&& forall|i: int, k: int|
                0 <= i < branch.len() && 0 <= k < 8 ==> #[trigger] mem_cell(
                    mf,
                    m.len() + i,
                    k,
                ) == Some(branch[i].enc()[k])
        }),
{
    let branch = u.next_sync_committee_branch@;
    let m_a = write_vals(m, agg.segment as int, agg.offset as int, u.next_aggregate_sync_committee.enc());
    let m_b = write_vals(m_a, root.segment as int, root.offset as int, u.committee_keys_root.enc());
    let m_c = committee_branch_encoded(m_b, branch, path.segment as int, path.offset as int);
    lemma_write_vals(m, agg.segment as int, agg.offset as int, u.next_aggregate_sync_committee.enc());
    lemma_write_vals(m_a, root.segment as int, root.offset as int, u.committee_keys_root.enc());
    lemma_branch_encoded_cells(m_b, branch, path.segment as int, path.offset as int);
    lemma_write_cell(
        m_c,
        path_len.segment as int,
        path_len.offset as int,
        CellValue::Felt(Felt { lo: branch.len() as u128, hi: 0 }),
    );
    let mf = committee_update_encoded(u, m, agg, root, path, path_len);
    assert forall|i: int| 0 <= i < branch.len() implies #[trigger] mem_cell(
        mf,
        path.segment as int,
        path.offset + i,
    ) == Some(
        CellValue::Pointer(MemoryAddress { segment: (m.len() + i) as usize, offset: 0 }),
    ) by {
        assert(mem_cell(m_c, path.segment as int, path.offset + i) == Some(
            CellValue::Pointer(MemoryAddress { segment: (m_b.len() + i) as usize, offset: 0 }),
        ));
        assert(mem_cell(m_c, path.segment as int, path.offset + i) is Some);
        assert(mem_cell(mf, path.segment as int, path.offset + i) == mem_cell(
            m_c,
            path.segment as int,
            path.offset + i,
        ));
    }
    assert forall|i: int, k: int| 0 <= i < branch.len() && 0 <= k < 8 implies #[trigger] mem_cell(
        mf,
        m.len() + i,
        k,
    ) == Some(branch[i].enc()[k]) by {
        assert(mem_cell(m_c, m_b.len() + i, k) == Some(branch[i].enc()[k]));
        assert(mem_cell(mf, m.len() + i, k) == mem_cell(m_c, m.len() + i, k));
    }
}

} // verus!
