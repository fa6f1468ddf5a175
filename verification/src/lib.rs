//! An evolutionary search engine over tiny stack-machine programs.
//!
//! The crate holds no floating-point code. A real number travels as the 64
//! bits of its IEEE 754 encoding ([`number::Real`]). What the engine
//! compares, it compares on those bits; what it computes, the
//! `rustc_apfloat` crate computes on them ([`arith`]); and a real number that
//! is to be drawn at random is asked of the caller, who draws it from the
//! run's generator and hands it back ([`genome::RealRequest`]).

pub mod api;
pub mod arith;
pub mod error;
pub mod evolve;
pub mod genome;
pub mod models;
pub mod number;
pub mod registry;
pub mod rng;
pub mod run_id;
pub mod vm;
