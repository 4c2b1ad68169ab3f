//! Request lifecycle of a cross-chain token relay contract: the persisted state and its
//! binary layout, the instruction codec and size table, and the three transitions
//! (initialization, transfer request, oracle attestation), each of which yields the new
//! encoded state and at most one token movement for the host to carry out.

pub mod bytes;
pub mod error;
pub mod state;
pub mod instruction;
pub mod processor;
