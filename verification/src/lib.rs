//! Sandboxed execution backend for an online code runner.
//!
//! Given a program's source text, an input stream and resource limits, the
//! library plans a compile phase and a run phase inside an isolation
//! launcher, parses the resource accounting left behind by the measuring
//! wrapper, and classifies the observed exit into a typed outcome.

pub mod accounting;
pub mod env;
pub mod error;
pub mod json;
pub mod lang;
pub mod memory;
pub mod nsjail;
pub mod numerals;
pub mod orchestrate;
pub mod runner;
pub mod state;
pub mod strings;
pub mod time;
pub mod web;
