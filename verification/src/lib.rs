//! Input-encoding engine for recursive epoch-update proofs: a segmented
//! addressable memory, layout writers for the beacon-chain domain model, a
//! self-verifying execution-header Merkle proof constructor, and the
//! orchestration that derives the genesis / committee-rotation flags.

pub mod felt;
pub mod memory;
pub mod scalars;
pub mod bls;
pub mod types;
pub mod header;
pub mod execution_header;
pub mod input;
