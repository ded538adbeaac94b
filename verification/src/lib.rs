use vstd::prelude::*;

pub mod bloom;
pub mod bytesutil;
pub mod hashing;
pub mod hexfmt;
pub mod order;
pub mod sections;
pub mod shard;
pub mod witness;

verus! {

/// Largest number of bytes a wrapped witness may hold; a larger witness
/// cannot fit the downstream transaction format and aborts generation.
pub const WITNESS_SIZE_LIMIT: usize = 32768;

/// Number of bytes kept from an account digest as its fingerprint.
pub const ACCOUNT_ID_LENGTH: usize = 20;

/// Number of capacity-bounded groups the preserved fingerprints are split into.
pub const PRESERVED_ACCOUNT_CELL_COUNT: u8 = 20;

/// Largest number of fingerprints one preserved-account group may hold.
pub const PRESERVED_ACCOUNT_LIMIT_PER_CELL: usize = 1000;

/// A fatal condition that makes the generated configuration unsafe to emit.
#[derive(Clone, Copy, Debug, PartialEq, Eq, Structural)]
pub enum GenError {
    /// A wrapped witness would exceed `WITNESS_SIZE_LIMIT` bytes.
    OversizedWitness,
    /// Some shard holds more fingerprints than its fixed capacity.
    ShardCapacityExceeded,
    /// A required input file could not be read.
    MissingInputFile,
    /// An input line could not be decoded.
    DecodeError,
}

} // verus!
