//! The execution-payload header, one variant per supported hard fork, and
//! its flattening into the ordered list of per-field 32-byte roots the
//! circuit consumes. An unsupported newer fork fails fast rather than
//! producing a wrong-shaped list.

use vstd::prelude::*;

use crate::scalars::{
    be_bytes_int, lemma_be_bytes_concat, lemma_be_bytes_zero, lemma_pow2_limb_widths, to_uint256,
    u64_le_bytes, u64_to_uint256, Uint256,
};

verus! {

/// The execution-payload header fields common to every supported fork. Each
/// hash-shaped field carries its 32-byte root (for list- or tree-shaped
/// fields, the already-computed tree hash); integers stay 64-bit.
#[derive(Clone, Copy, PartialEq, Eq, Debug)]
pub struct ExecutionPayloadCommon {
    pub parent_hash: [u8; 32],
    pub fee_recipient: [u8; 20],
    pub state_root: [u8; 32],
    pub receipts_root: [u8; 32],
    pub logs_bloom_root: [u8; 32],
    pub prev_randao: [u8; 32],
    pub block_number: u64,
    pub gas_limit: u64,
    pub gas_used: u64,
    pub timestamp: u64,
    pub extra_data_root: [u8; 32],
    pub base_fee_per_gas_root: [u8; 32],
    pub block_hash: [u8; 32],
    pub transactions_root: [u8; 32],
}

/// The closed set of execution-payload variants. Forks newer than the last
/// supported one are present so that they can be named, and fail fast.
#[derive(Clone, Copy, PartialEq, Eq, Debug)]
pub enum ExecutionPayloadHeader {
    Bellatrix(ExecutionPayloadCommon),
    Capella { common: ExecutionPayloadCommon, withdrawals_root: [u8; 32] },
    Deneb {
        common: ExecutionPayloadCommon,
        withdrawals_root: [u8; 32],
        blob_gas_used: u64,
        excess_blob_gas: u64,
    },
    Electra {
        common: ExecutionPayloadCommon,
        withdrawals_root: [u8; 32],
        blob_gas_used: u64,
        excess_blob_gas: u64,
    },
    Fulu,
}

/// Flattening met a payload variant newer than the last supported fork.
#[derive(Clone, Copy, PartialEq, Eq, Structural, Debug)]
pub struct UnsupportedForkError;

/// The 256-bit root a 64-bit integer field flattens to: the integer's
/// little-endian bytes zero-extended to 32 bytes, byte 0 lowest-order, read
/// as one big-endian quantity.
pub open spec fn u64_root_int(v: u64) -> int {
    be_bytes_int(u64_le_bytes(v) + Seq::new(24, |i: int| 0u8))
}

/// The first fourteen field roots are the common fields in protocol order.
pub open spec fn common_roots_ok(r: Seq<Uint256>, c: ExecutionPayloadCommon) -> bool {
    &&& r.len() >= 14
    &&& r[0].as_int() == be_bytes_int(c.parent_hash@)
    &&& r[1].as_int() == be_bytes_int(c.fee_recipient@)
    &&& r[2].as_int() == be_bytes_int(c.state_root@)
    &&& r[3].as_int() == be_bytes_int(c.receipts_root@)
    &&& r[4].as_int() == be_bytes_int(c.logs_bloom_root@)
    &&& r[5].as_int() == be_bytes_int(c.prev_randao@)
    &&& r[6].as_int() == u64_root_int(c.block_number)
    &&& r[7].as_int() == u64_root_int(c.gas_limit)
    &&& r[8].as_int() == u64_root_int(c.gas_used)
    &&& r[9].as_int() == u64_root_int(c.timestamp)
    &&& r[10].as_int() == be_bytes_int(c.extra_data_root@)
    &&& r[11].as_int() == be_bytes_int(c.base_fee_per_gas_root@)
    &&& r[12].as_int() == be_bytes_int(c.block_hash@)
    &&& r[13].as_int() == be_bytes_int(c.transactions_root@)
}

/// The exact flattened shape of each supported fork: the fourteen common
/// roots, then withdrawals root, then the two blob-gas roots, as the fork
/// introduces them. No list exists for an unsupported fork.
pub open spec fn field_roots_ok(h: ExecutionPayloadHeader, r: Seq<Uint256>) -> bool {
    match h {
        ExecutionPayloadHeader::Bellatrix(c) => r.len() == 14 && common_roots_ok(r, c),
        ExecutionPayloadHeader::Capella { common, withdrawals_root } => r.len() == 15
            && common_roots_ok(r, common) && r[14].as_int() == be_bytes_int(withdrawals_root@),
        ExecutionPayloadHeader::Deneb { common, withdrawals_root, blob_gas_used, excess_blob_gas }
            => r.len() == 17 && common_roots_ok(r, common) && r[14].as_int() == be_bytes_int(
            withdrawals_root@,
        ) && r[15].as_int() == u64_root_int(blob_gas_used) && r[16].as_int() == u64_root_int(
            excess_blob_gas,
        ),
        ExecutionPayloadHeader::Electra {
            common,
            withdrawals_root,
            blob_gas_used,
            excess_blob_gas,
        } => r.len() == 17 && common_roots_ok(r, common) && r[14].as_int() == be_bytes_int(
            withdrawals_root@,
        ) && r[15].as_int() == u64_root_int(blob_gas_used) && r[16].as_int() == u64_root_int(
            excess_blob_gas,
        ),
        ExecutionPayloadHeader::Fulu => false,
    }
}

/// A 64-bit field root computed limb-wise agrees with [`u64_root_int`].
proof fn lemma_u64_root(v: u64, r: Uint256)
    requires
        r.low == 0,
        r.high as int == be_bytes_int(u64_le_bytes(v) + Seq::new(8, |i: int| 0u8)),
    ensures
        r.as_int() == u64_root_int(v),
{
    let le8z8 = u64_le_bytes(v) + Seq::new(8, |i: int| 0u8);
    let z16 = Seq::new(16, |i: int| 0u8);
    assert(u64_le_bytes(v) + Seq::new(24, |i: int| 0u8) =~= le8z8 + z16);
    lemma_be_bytes_concat(le8z8, z16);
    lemma_be_bytes_zero(z16);
    lemma_pow2_limb_widths();
}

/// The fourteen common field roots, in protocol order.
fn common_roots(c: &ExecutionPayloadCommon) -> (r: Vec<Uint256>)
    ensures
        r@.len() == 14,
        common_roots_ok(r@, *c),
{
    let mut v: Vec<Uint256> = Vec::new();
    v.push(to_uint256(&c.parent_hash));
    v.push(to_uint256(&c.fee_recipient));
    v.push(to_uint256(&c.state_root));
    v.push(to_uint256(&c.receipts_root));
    v.push(to_uint256(&c.logs_bloom_root));
    v.push(to_uint256(&c.prev_randao));
    let block_number = u64_to_uint256(c.block_number);
    proof {
        lemma_u64_root(c.block_number, block_number);
    }
    v.push(block_number);
    let gas_limit = u64_to_uint256(c.gas_limit);
    proof {
        lemma_u64_root(c.gas_limit, gas_limit);
    }
    v.push(gas_limit);
    let gas_used = u64_to_uint256(c.gas_used);
    proof {
        lemma_u64_root(c.gas_used, gas_used);
    }
    v.push(gas_used);
    let timestamp = u64_to_uint256(c.timestamp);
    proof {
        lemma_u64_root(c.timestamp, timestamp);
    }
    v.push(timestamp);
    v.push(to_uint256(&c.extra_data_root));
    v.push(to_uint256(&c.base_fee_per_gas_root));
    v.push(to_uint256(&c.block_hash));
    v.push(to_uint256(&c.transactions_root));
    v
}

/// An execution-payload header as the circuit sees it: a flattener from the
/// fork variant to the ordered per-field roots.
#[derive(Clone, Copy, PartialEq, Eq, Debug)]
pub struct ExecutionPayloadHeaderCairo(pub ExecutionPayloadHeader);

impl ExecutionPayloadHeaderCairo {
    /// Flattens the header into its ordered 32-byte field roots: the common
    /// fourteen for every fork, the withdrawals root from the fork that
    /// introduces it onward, then the two blob-gas fields likewise. An
    /// unsupported newer fork fails, never a shorter best-effort list.
    pub fn to_field_roots(&self) -> (r: Result<Vec<Uint256>, UnsupportedForkError>)
        ensures
            r is Ok <==> !(self.0 is Fulu),
            r matches Ok(v) ==> field_roots_ok(self.0, v@),
    {
        match &self.0 {
            ExecutionPayloadHeader::Bellatrix(c) => Ok(common_roots(c)),
            ExecutionPayloadHeader::Capella { common, withdrawals_root } => {
                let mut roots = common_roots(common);
                roots.push(to_uint256(withdrawals_root));
                Ok(roots)
            },
            ExecutionPayloadHeader::Deneb {
                common,
                withdrawals_root,
                blob_gas_used,
                excess_blob_gas,
            } => {
                let mut roots = common_roots(common);
                roots.push(to_uint256(withdrawals_root));
                let blob = u64_to_uint256(*blob_gas_used);
                proof {
                    lemma_u64_root(*blob_gas_used, blob);
                }
                roots.push(blob);
                let excess = u64_to_uint256(*excess_blob_gas);
                proof {
                    lemma_u64_root(*excess_blob_gas, excess);
                }
                roots.push(excess);
                Ok(roots)
            },
            ExecutionPayloadHeader::Electra {
                common,
                withdrawals_root,
                blob_gas_used,
                excess_blob_gas,
            } => {
                let mut roots = common_roots(common);
                roots.push(to_uint256(withdrawals_root));
                let blob = u64_to_uint256(*blob_gas_used);
                proof {
                    lemma_u64_root(*blob_gas_used, blob);
                }
                roots.push(blob);
                let excess = u64_to_uint256(*excess_blob_gas);
                proof {
                    lemma_u64_root(*excess_blob_gas, excess);
                }
                roots.push(excess);
                Ok(roots)
            },
            ExecutionPayloadHeader::Fulu => Err(UnsupportedForkError),
        }
    }
}

} // verus!
