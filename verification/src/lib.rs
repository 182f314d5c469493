//! A store of responses that is found by meaning: a prompt is read as the
//! vectors of its known words, and answered with a response that was stored
//! for the nearest prompt before it.
//!
//! This crate holds the rules: how the embedding table is read, which
//! vectors an utterance selects, how a bucket of responses grows, and which
//! error a call ends in. Files, the durable table, the nearest-neighbour
//! index and the arithmetic on vectors belong to the caller.

pub mod matrix_body;
pub mod store;
pub mod text;
pub mod vectors;
