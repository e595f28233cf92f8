//! Deterministic (CREATE2) deployment of the Uniswap V2, V3 and V4 contract
//! suites: address derivation, library linking, constructor encoding and the
//! decisions that drive each deployment.

pub mod keccak;
pub mod abi;
pub mod bytes;
pub mod hex;
pub mod config;
pub mod create2;
pub mod helpers;
pub mod plan;
pub mod uniswap_v2;
pub mod uniswap_v3;
pub mod uniswap_v4;
