//! A non-interactive zero-knowledge proof engine for arithmetic circuits over
//! a prime field, in the "MPC-in-the-head" style: three virtual parties
//! evaluate the circuit on secret-shared inputs, the prover commits to every
//! party's view, and a Fiat-Shamir challenge opens two of the three views in
//! each repetition.
pub mod field;
pub mod native;
pub mod sponge;
pub mod circuit;
pub mod mpc;
pub mod engine;
pub mod completeness;
