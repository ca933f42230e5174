//! The proof system: ring signatures and the proof of reserves built on them.

pub mod mprove;
pub mod mprove_sigs;
