//! Per-key statistics (minimum, maximum, mean, count) over `key:value` lines,
//! computed chunk by chunk and merged by a single consumer.
//!
//! Values are decimal numbers held as fixed-point integers (millionths), and
//! each key keeps the exact total of its values beside the count, so the mean
//! `total / count` is exact. The merge of two partial results is then exactly
//! associative and commutative, and the result of a run does not depend on
//! the chunk size or on the order in which chunks complete.
//!
//! - `row`: splitting a line into key and value, or skipping it.
//! - `stats`: the statistics of one key.
//! - `partial_map`: statistics per key, and the merge.
//! - `aggregate`: one chunk's statistics, and the laws of the reduction.
//! - `chunking`: cutting the line stream into chunks.
//! - `progress`: chunks merged against chunks expected.
//! - `report`: the report line of a key.
//! - `config`: chunk size and worker count.
use vstd::prelude::*;

pub mod stats;
pub mod partial_map;
pub mod row;
pub mod aggregate;
pub mod progress;
pub mod chunking;
pub mod config;
pub mod report;

verus! {

} // verus!
