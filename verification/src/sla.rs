//! Service level agreements.

use vstd::prelude::*;

verus! {

/// Resource and quality-of-service requirements of one function.
/// A value is never changed once it has been issued.
#[derive(Clone, Copy, Debug, PartialEq, Eq, Structural)]
pub struct SLA {
    pub storage_bytes: u64,
    pub ram_bytes: u64,
    pub cpu_millicpu: u64,
    pub latency_max_ms: u64,
    pub data_input_max_bytes: u64,
    pub data_output_max_bytes: u64,
    pub max_milliseconds_before_hot: u64,
    pub reevaluation_period_seconds: Option<u64>,
}

impl Default for SLA {
    fn default() -> (sla: SLA)
        ensures
            sla == (SLA {
                storage_bytes: 0,
                ram_bytes: 0,
                cpu_millicpu: 0,
                latency_max_ms: 0,
                data_input_max_bytes: 0,
                data_output_max_bytes: 0,
                max_milliseconds_before_hot: 0,
                reevaluation_period_seconds: None,
            }),
    {
        SLA {
            storage_bytes: 0,
            ram_bytes: 0,
            cpu_millicpu: 0,
            latency_max_ms: 0,
            data_input_max_bytes: 0,
            data_output_max_bytes: 0,
            max_milliseconds_before_hot: 0,
            reevaluation_period_seconds: None,
        }
    }
}

/// The answer to the question whether an SLA can be satisfied.
#[derive(Debug, Clone, Copy, PartialEq, Eq, Structural)]
pub struct Satisfiable {
    pub is_satisfiable: bool,
    /// The SLA that the answer is about.
    pub sla: Option<SLA>,
}

impl Default for Satisfiable {
    fn default() -> (answer: Satisfiable)
        ensures
            answer == (Satisfiable { is_satisfiable: false, sla: None }),
    {
        Satisfiable { is_satisfiable: false, sla: None }
    }
}

} // verus!
