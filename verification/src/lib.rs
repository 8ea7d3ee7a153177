//! An in-process atomic operation pipeline: an ordered list of reversible
//! operations is applied to a caller-owned shared state, and either every
//! operation takes effect or the state is restored exactly as it was.

pub mod account;
pub mod tx;
