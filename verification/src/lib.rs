//! Prediction-market settlement engine.
//!
//! Prices shares in mutually exclusive outcomes with a logarithmic
//! market-scoring-rule cost function over fixed-point integers, escrows
//! funds in an abstract pool, and resolves markets through a
//! propose -> dispute -> finalize state machine.

pub mod errors;
pub mod laws;
pub mod lmsr;
pub mod market;
pub mod math;
pub mod trade;
