//! Verified core of a token-mint scanner: fixed-layout mint decoding,
//! TLV extension classification, deterministic metadata-address derivation,
//! order-preserving batch fetching, and result aggregation.

pub mod address;
pub mod account;
pub mod errors;
pub mod mint;
pub mod tlv;
pub mod pda;
pub mod batch;
pub mod aggregate;
pub mod scan;
pub mod cli;
