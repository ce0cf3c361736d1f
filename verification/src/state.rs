//! The typed outcome of one execution request.

use vstd::prelude::*;

use crate::memory::Memory;
use crate::time::MsTime;

verus! {

/// The terminal state of one request: exactly one variant per completed
/// execution.
#[derive(Debug, Clone, Hash)]
pub enum RunnerState {
    Success { stdout: String, max_memory_usage: Memory, ms_time_elapsed: MsTime },
    RuntimeError { stderr: String, exit_code: i32, max_memory_usage: Memory, ms_time_elapsed: MsTime },
    Timeout { ms_time_elapsed: MsTime },
    MemoryLimit { max_memory_usage: Memory },
    CompileError { stderr: String },
    InternalError,
}

/// Value equality of two runner states: same variant, equal fields, with
/// strings compared by their characters.
pub open spec fn state_eq(a: RunnerState, b: RunnerState) -> bool {
    match (a, b) {
        (
            RunnerState::Success { stdout: o1, max_memory_usage: m1, ms_time_elapsed: t1 },
            RunnerState::Success { stdout: o2, max_memory_usage: m2, ms_time_elapsed: t2 },
        ) => o1@ == o2@ && m1 == m2 && t1 == t2,
        (
            RunnerState::RuntimeError { stderr: e1, exit_code: c1, max_memory_usage: m1, ms_time_elapsed: t1 },
            RunnerState::RuntimeError { stderr: e2, exit_code: c2, max_memory_usage: m2, ms_time_elapsed: t2 },
        ) => e1@ == e2@ && c1 == c2 && m1 == m2 && t1 == t2,
        (
            RunnerState::Timeout { ms_time_elapsed: t1 },
            RunnerState::Timeout { ms_time_elapsed: t2 },
        ) => t1 == t2,
        (
            RunnerState::MemoryLimit { max_memory_usage: m1 },
            RunnerState::MemoryLimit { max_memory_usage: m2 },
        ) => m1 == m2,
        (
            RunnerState::CompileError { stderr: e1 },
            RunnerState::CompileError { stderr: e2 },
        ) => e1@ == e2@,
        (RunnerState::InternalError, RunnerState::InternalError) => true,
        _ => false,
    }
}

impl PartialEq for RunnerState {
    fn eq(&self, other: &Self) -> (r: bool)
        ensures
            r == state_eq(*self, *other),
    {
        match (self, other) {
            (
                RunnerState::Success { stdout: o1, max_memory_usage: m1, ms_time_elapsed: t1 },
                RunnerState::Success { stdout: o2, max_memory_usage: m2, ms_time_elapsed: t2 },
            ) => crate::strings::string_eq(o1, o2) && *m1 == *m2 && *t1 == *t2,
            (
                RunnerState::RuntimeError { stderr: e1, exit_code: c1, max_memory_usage: m1, ms_time_elapsed: t1 },
                RunnerState::RuntimeError { stderr: e2, exit_code: c2, max_memory_usage: m2, ms_time_elapsed: t2 },
            ) => crate::strings::string_eq(e1, e2) && *c1 == *c2 && *m1 == *m2 && *t1 == *t2,
            (
                RunnerState::Timeout { ms_time_elapsed: t1 },
                RunnerState::Timeout { ms_time_elapsed: t2 },
            ) => *t1 == *t2,
            (
                RunnerState::MemoryLimit { max_memory_usage: m1 },
                RunnerState::MemoryLimit { max_memory_usage: m2 },
            ) => *m1 == *m2,
            (
                RunnerState::CompileError { stderr: e1 },
                RunnerState::CompileError { stderr: e2 },
            ) => crate::strings::string_eq(e1, e2),
            (RunnerState::InternalError, RunnerState::InternalError) => true,
            _ => false,
        }
    }
}

impl vstd::std_specs::cmp::PartialEqSpecImpl for RunnerState {
    open spec fn obeys_eq_spec() -> bool {
        true
    }

    open spec fn eq_spec(&self, other: &RunnerState) -> bool {
        state_eq(*self, *other)
    }
}

impl Eq for RunnerState {

}

} // verus!
