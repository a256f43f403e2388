//! Verified core of the CodeTracer recorder for Cadence / Flow programs.
//!
//! The library turns the helper's trace events into the exact sequence of
//! trace-writer operations, decodes Cadence printed values into typed value
//! records, and holds the small decisions of the command line and of the
//! transaction replay.

pub mod text;
pub mod printed;
pub mod numeric;
pub mod value;
pub mod decode;
pub mod paths;
pub mod events;
pub mod ops;
pub mod tracer;
pub mod conversion;
pub mod handlers;
pub mod replay;
pub mod cli;
pub mod invariants;
pub mod counts;
pub mod typing;
