//! Kinds of performance data that a query asks for.

use vstd::prelude::*;

verus! {

/// The kind of measure a performance query reads.
#[derive(Debug, Clone, Copy, PartialEq, Eq)]
pub enum JsonPerfKind {
    Latency,
    Throughput,
    Compute,
    Memory,
    Storage,
}

} // verus!
