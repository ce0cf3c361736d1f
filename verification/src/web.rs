//! The request and response the front end exchanges with the runner, and
//! their wire forms: a flat message of plain scalars for requests, and a
//! response whose state travels as a JSON string.

use vstd::prelude::*;

use crate::json;
use crate::lang::Language;
use crate::memory::Memory;
use crate::state::{state_eq, RunnerState};
use crate::strings::string_eq;
use crate::time::MsTime;

verus! {

/// A field that could not be converted between the web and wire forms.
#[derive(Debug, Clone)]
pub struct GrpcConvertError {
    /// The name of the offending field.
    pub field: String,
}

/// One execution request: what to run, under which limits, with which
/// input.
#[derive(Debug, Clone, Hash)]
pub struct RunnerRequest {
    pub lang: Language,
    pub code: String,
    pub ms_time_limit: MsTime,
    pub memory_limit: Memory,
    pub stdin: String,
}

/// The outcome reported for one request.
#[derive(Debug, Clone, Hash)]
pub struct RunnerResponse {
    pub state: RunnerState,
}

/// The wire form of a request: the language as its integer identifier,
/// limits as plain integers.
#[derive(Debug, Clone, Hash)]
pub struct GrpcRunnerRequest {
    pub lang: u32,
    pub code: String,
    pub ms_time_limit: u64,
    pub memory_limit: u64,
    pub stdin: String,
}

/// The wire form of a response: the state as a JSON string.
#[derive(Debug, Clone, Hash)]
pub struct GrpcRunnerResponse {
    pub state: String,
}

/// Value equality of two requests, with strings compared by their
/// characters.
pub open spec fn request_eq(a: RunnerRequest, b: RunnerRequest) -> bool {
    &&& a.lang == b.lang
    &&& a.code@ == b.code@
    &&& a.ms_time_limit == b.ms_time_limit
    &&& a.memory_limit == b.memory_limit
    &&& a.stdin@ == b.stdin@
}

impl PartialEq for RunnerRequest {
    fn eq(&self, other: &Self) -> (r: bool)
        ensures
            r == request_eq(*self, *other),
    {
        self.lang == other.lang && string_eq(&self.code, &other.code)
            && self.ms_time_limit == other.ms_time_limit
            && self.memory_limit == other.memory_limit && string_eq(&self.stdin, &other.stdin)
    }
}

impl vstd::std_specs::cmp::PartialEqSpecImpl for RunnerRequest {
    open spec fn obeys_eq_spec() -> bool {
        true
    }

    open spec fn eq_spec(&self, other: &RunnerRequest) -> bool {
        request_eq(*self, *other)
    }
}

impl Eq for RunnerRequest {

}

impl PartialEq for RunnerResponse {
    fn eq(&self, other: &Self) -> (r: bool)
        ensures
            r == state_eq(self.state, other.state),
    {
        self.state == other.state
    }
}

impl vstd::std_specs::cmp::PartialEqSpecImpl for RunnerResponse {
    open spec fn obeys_eq_spec() -> bool {
        true
    }

    open spec fn eq_spec(&self, other: &RunnerResponse) -> bool {
        state_eq(self.state, other.state)
    }
}

impl Eq for RunnerResponse {

}

impl RunnerRequest {
    /// Lowers a request onto the wire, field by field.
    pub fn into_grpc(self) -> (r: GrpcRunnerRequest)
        ensures
            r.lang == self.lang.spec_u32(),
            r.code@ == self.code@,
            r.ms_time_limit == self.ms_time_limit.0,
            r.memory_limit == self.memory_limit.0,
            r.stdin@ == self.stdin@,
    {
        GrpcRunnerRequest {
            lang: self.lang.as_u32(),
            code: self.code,
            ms_time_limit: self.ms_time_limit.as_ms(),
            memory_limit: self.memory_limit.as_bytes(),
            stdin: self.stdin,
        }
    }
}

impl RunnerResponse {
    /// Lowers a response onto the wire; the state becomes its JSON text.
    pub fn try_into_grpc(self) -> (r: Result<GrpcRunnerResponse, GrpcConvertError>)
        ensures
            r matches Ok(g) && g.state@ == json::state_json(self.state),
    {
        Ok(GrpcRunnerResponse { state: self.state.to_json() })
    }
}

impl GrpcRunnerRequest {
    /// Raises a wire request back to the web form; an unknown language
    /// identifier is rejected, naming the field.
    pub fn try_into_web(self) -> (r: Result<RunnerRequest, GrpcConvertError>)
        ensures
            match r {
                Ok(w) => w.lang.spec_u32() == self.lang && w.code@ == self.code@
                    && w.ms_time_limit.0 == self.ms_time_limit
                    && w.memory_limit.0 == self.memory_limit && w.stdin@ == self.stdin@,
                Err(e) => (forall|lang: Language| lang.spec_u32() != self.lang)
                    && e.field@ == "lang"@,
            },
    {
        let lang = match Language::try_from_u32(self.lang) {
            Some(lang) => lang,
            None => {
                return Err(GrpcConvertError { field: "lang".to_owned() });
            },
        };
        Ok(RunnerRequest {
            lang,
            code: self.code,
            ms_time_limit: MsTime::new_ms(self.ms_time_limit),
            memory_limit: Memory::new_bytes(self.memory_limit),
            stdin: self.stdin,
        })
    }
}

impl GrpcRunnerResponse {
    /// Raises a wire response back to the web form; exactly the texts
    /// that are the JSON form of some state are accepted, and a
    /// rejection names the field.
    pub fn try_from_web(self) -> (r: Result<RunnerResponse, GrpcConvertError>)
        ensures
            match r {
                Ok(w) => self.state@ == json::state_json(w.state),
                Err(e) => (forall|st: crate::state::RunnerState|
                    self.state@ != json::state_json(st)) && e.field@ == "state"@,
            },
    {
        match RunnerState::from_json(self.state.as_str()) {
            Some(state) => Ok(RunnerResponse { state }),
            None => Err(GrpcConvertError { field: "state".to_owned() }),
        }
    }
}

} // verus!
