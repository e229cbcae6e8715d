use vstd::prelude::*;

pub mod ccc;
pub mod ccr;
pub mod consensus;
pub mod crypto;
pub mod node;
pub mod sharding;
pub mod codec;

verus! {

/// Errors reported by the hybrid consensus library.
#[derive(Debug)]
pub enum HybridConsensusError {
    SerializationError(String),
    ConsensusError(String),
    CryptoError(String),
    NetworkError(String),
    CCRError(String),
    CCCError(String),
}

/// Result type used throughout the library.
pub type Result<T> = core::result::Result<T, HybridConsensusError>;

} // verus!
