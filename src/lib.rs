//! A numeric kernel: transcendental functions evaluated by range reduction
//! and truncated power series, and a Newton polynomial root finder, written
//! once against a small set of capability traits and verified for every
//! scalar that implements them.
pub mod rules;
pub mod fixed;
pub mod cc;
pub mod prim;
pub mod alg;
pub mod ints;
pub mod rat;
pub mod laws;
