//! The process-wide configuration the orchestrator is given at startup:
//! filesystem layout, the unprivileged identity, and the fixed ceilings
//! of the compile phase.

use vstd::prelude::*;

use crate::memory::Memory;
use crate::numerals::{
    decimal_of, format_u64, is_numeral, numeral_body, numeral_value, parse_u64,
    ParseNumberError, parses_to_u64,
};
use crate::strings::{chars_to_string, push_chars, str_to_chars};
use crate::time::MsTime;

verus! {

/// Fixed ceilings applied to every compile phase, loaded once at startup.
#[derive(Debug, Clone, Copy)]
pub struct RunnerOption {
    pub compile_time_limit_seconds: MsTime,
    pub compile_memory_limit_megabytes: Memory,
}

/// Parses a whole number of seconds into a duration, as the configuration
/// loader reads it from its environment.
pub fn compile_time_limit_seconds(value: &str) -> (r: Result<MsTime, ParseNumberError>)
    ensures
        match r {
            Ok(t) => parses_to_u64(value@) && t.0 == numeral_value(numeral_body(value@)) * 1000,
            Err(ParseNumberError::Empty) => value@.len() == 0,
            Err(ParseNumberError::Invalid) => value@.len() > 0 && !is_numeral(value@),
            Err(ParseNumberError::Overflow) => is_numeral(value@) && numeral_value(
                numeral_body(value@),
            ) * 1000 > u64::MAX as int,
        },
{
    let cs = str_to_chars(value);
    let n = parse_u64(&cs)?;
    match n.checked_mul(1000) {
        Some(_) => Ok(MsTime::new_seconds(n)),
        None => Err(ParseNumberError::Overflow),
    }
}

/// Parses a whole number of megabytes into a memory, as the configuration
/// loader reads it from its environment.
pub fn compile_memory_limit_megabytes(value: &str) -> (r: Result<Memory, ParseNumberError>)
    ensures
        match r {
            Ok(m) => parses_to_u64(value@) && m.0 == numeral_value(numeral_body(value@)) * 1048576,
            Err(ParseNumberError::Empty) => value@.len() == 0,
            Err(ParseNumberError::Invalid) => value@.len() > 0 && !is_numeral(value@),
            Err(ParseNumberError::Overflow) => is_numeral(value@) && numeral_value(
                numeral_body(value@),
            ) * 1048576 > u64::MAX as int,
        },
{
    let cs = str_to_chars(value);
    let n = parse_u64(&cs)?;
    match n.checked_mul(1048576) {
        Some(_) => Ok(Memory::new_megabytes(n)),
        None => Err(ParseNumberError::Overflow),
    }
}

/// Where the service's fixed paths live and which unprivileged identity
/// sandboxed processes are dropped to.
#[derive(Debug, Clone)]
pub struct RunnerEnv {
    /// Base directory holding one toolchain installation per language.
    pub runner_path: String,
    /// Base directory under which per-request workspaces are created.
    pub running_path: String,
    /// The read-only store the toolchains link against.
    pub nix_store_path: String,
    /// Directory of the shared helper binaries (`sh`, the isolation
    /// launcher, the measuring wrapper).
    pub nix_bin: String,
    /// The unprivileged uid and gid sandboxed processes run as.
    pub permission_id: u32,
}

impl RunnerEnv {
    /// The decimal form of the unprivileged identity.
    pub fn permission_id_str(&self) -> (r: String)
        ensures
            r@ == decimal_of(self.permission_id as nat),
    {
        let cs = format_u64(self.permission_id as u64);
        chars_to_string(&cs)
    }

    /// The shell every sandboxed command line is handed to.
    pub fn sh_cmd(&self) -> (r: String)
        ensures
            r@ == self.nix_bin@ + "/sh"@,
    {
        self.bin_join("/sh")
    }

    /// The isolation launcher binary.
    pub fn nsjail_cmd(&self) -> (r: String)
        ensures
            r@ == self.nix_bin@ + "/nsjail"@,
    {
        self.bin_join("/nsjail")
    }

    /// The resource-measuring wrapper binary.
    pub fn time_cmd(&self) -> (r: String)
        ensures
            r@ == self.nix_bin@ + "/time"@,
    {
        self.bin_join("/time")
    }

    fn bin_join(&self, suffix: &str) -> (r: String)
        ensures
            r@ == self.nix_bin@ + suffix@,
    {
        let mut out: Vec<char> = Vec::new();
        push_chars(&mut out, self.nix_bin.as_str());
        push_chars(&mut out, suffix);
        chars_to_string(&out)
    }
}

} // verus!
