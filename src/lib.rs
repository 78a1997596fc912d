//! A ledger of chart commitments, a challenge-response check over Keccak-256,
//! and a per-owner log of dated predictions with aggregated ratings.

pub mod bytes;
pub mod charts;
pub mod predictions;
pub mod zk_proof;

pub use bytes::{Address, Bytes32};
pub use charts::{ChartCommitment, ChartEvent, ChartRegistry, ChartRegistryError};
pub use predictions::{FarcasterPredictions, PredictionError};
pub use zk_proof::{
    keccak256, string_to_bytes, u64_array_to_bytes, verify_zk_proof, verify_zk_proof_simple,
};
