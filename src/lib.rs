//! Verified core of a universal SNARK toolkit: circuit shape arithmetic,
//! canonical encodings of keys and parameters, and the outer checks that wrap
//! proof verification of transactions.
pub mod bech32m;
pub mod bytes;
pub mod circuit_info;
pub mod codec;
pub mod execution;
pub mod field;
pub mod leaf;
pub mod pedersen;
pub mod verifying_key;
pub mod vm;
