//! Errors of the benchmark output adapters.

use vstd::prelude::*;

verus! {

/// Why an adapter could not turn benchmark output into results.
#[derive(Debug)]
pub enum AdapterError {
    /// The units of a benchmark could not be parsed; holds the detail.
    BenchmarkUnits(String),
    /// The results could not be converted; holds the detail.
    Convert(String),
}

/// The message of an adapter error: a fixed text per kind, then the detail.
pub open spec fn spec_adapter_message(e: AdapterError) -> Seq<char> {
    match e {
        AdapterError::BenchmarkUnits(detail) => "Failed to parse benchmark units: "@ + detail@,
        AdapterError::Convert(detail) => "Failed to convert results: "@ + detail@,
    }
}

impl AdapterError {
    /// The error's message, as it is displayed.
    pub fn message(&self) -> (m: String)
        ensures
            m@ == spec_adapter_message(*self),
    {
        match self {
            AdapterError::BenchmarkUnits(detail) => {
                let mut m = String::from_str("Failed to parse benchmark units: ");
                m.append(detail.as_str());
                m
            },
            AdapterError::Convert(detail) => {
                let mut m = String::from_str("Failed to convert results: ");
                m.append(detail.as_str());
                m
            },
        }
    }
}

} // verus!
