//! An in-memory, ordered key-value engine with optimistic concurrency
//! control, together with a few small verified companions: a Redis `SET`
//! argument parser, a fixed-size ring buffer, error-chain builders, and an
//! XOR-based erasure-coding round trip.
//!
//! The engine owns an ordered mapping from byte-string keys to versioned
//! values and exposes point reads (with byte-range slicing), bounded
//! forward/reverse listing, and conditional writes (existence preconditions
//! and version compare-and-set).

pub mod chain;
pub mod get;
pub mod laws;
pub mod lex;
pub mod location;
pub mod other;
pub mod parser;
pub mod post;
pub mod raft;
pub mod ring;
pub mod store;
pub mod xor_ec;
