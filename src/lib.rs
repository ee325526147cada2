//! Core value model of a Cardano-style client library: fee arithmetic,
//! network parameters, extended keys with child derivation and signatures,
//! credentials, the address codec and the canonical multi-asset map.
pub mod address;
pub mod bytes;
pub mod credential;
pub mod error;
pub mod keys;
pub mod lex;
pub mod linear_fee;
pub mod multi_asset;
pub mod network_info;
pub mod varint;
