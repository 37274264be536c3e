//! Verified core of an RPOW2 mining client: the proof-of-work search, the
//! hex and text handling around it, and the decisions of the login flow and
//! of the mining loop.

pub mod auth;
pub mod hashing;
pub mod hexcodec;
pub mod miner;
pub mod pow;
pub mod text;
