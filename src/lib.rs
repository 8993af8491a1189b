//! Verified bookkeeping around a Monte Carlo estimate of collision times: the
//! bit-exact parameter key, the validation and layout of the collision-time grid,
//! and the checks on sampled mass batches.
pub mod ieee;
pub mod key;
pub mod grid;
pub mod samples;
