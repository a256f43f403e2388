//! The trace-writer operations the recorder performs, in order.

use vstd::prelude::*;
use crate::value::{TypeKind, Value, ValueV, value_view, values_view};

verus! {

/// Which event log a special event goes to.
#[derive(Clone, Copy, Debug, PartialEq, Eq, Structural)]
pub enum EventKind {
    TraceLogEvent,
    Error,
    EvmEvent,
}

/// One call on the trace writer.
#[derive(Debug, PartialEq)]
pub enum TraceOp {
    /// Opt into column-aware step encoding.
    EnableColumnAwareSteps,
    /// Advertise per-column breakpoints.
    EnableColumnBreakpoints,
    /// Advertise per-column motions.
    EnableColumnMotions,
    /// Register a source path with its per-line byte lengths.
    RegisterPath { path: String, line_lengths: Vec<u32> },
    /// Start the trace at `path:line`.
    Start { path: String, line: i64 },
    /// Register the type `name` of kind `kind`.
    EnsureType { kind: TypeKind, name: String },
    /// Register the function `name` declared at `path:line`.
    EnsureFunction { name: String, path: String, line: i64 },
    /// A step at `path:line`, at `column` when the file has a column axis.
    Step { path: String, line: i64, column: Option<i64> },
    /// A variable with its full value.
    Variable { name: String, value: Value },
    /// A variable whose value is handed over encoded, keeping its variant.
    VariableEncoded { name: String, value: Value },
    /// A call argument, handed over encoded.
    CallArg { name: String, value: Value },
    /// A call of the registered function `function` with its arguments.
    Call { function: String, args: Vec<Value> },
    /// A return with its full value.
    Return { value: Value },
    /// A return whose value is handed over encoded.
    ReturnEncoded { value: Value },
    /// A return without a value.
    ReturnNone,
    /// An entry of the event log.
    SpecialEvent { kind: EventKind, metadata: String, content: String },
}

pub enum OpV {
    EnableColumnAwareSteps,
    EnableColumnBreakpoints,
    EnableColumnMotions,
    RegisterPath { path: Seq<char>, line_lengths: Seq<u32> },
    Start { path: Seq<char>, line: i64 },
    EnsureType { kind: TypeKind, name: Seq<char> },
    EnsureFunction { name: Seq<char>, path: Seq<char>, line: i64 },
    Step { path: Seq<char>, line: i64, column: Option<i64> },
    Variable { name: Seq<char>, value: ValueV },
    VariableEncoded { name: Seq<char>, value: ValueV },
    CallArg { name: Seq<char>, value: ValueV },
    Call { function: Seq<char>, args: Seq<ValueV> },
    Return { value: ValueV },
    ReturnEncoded { value: ValueV },
    ReturnNone,
    SpecialEvent { kind: EventKind, metadata: Seq<char>, content: Seq<char> },
}

pub open spec fn op_view(o: TraceOp) -> OpV {
    match o {
        TraceOp::EnableColumnAwareSteps => OpV::EnableColumnAwareSteps,
        TraceOp::EnableColumnBreakpoints => OpV::EnableColumnBreakpoints,
        TraceOp::EnableColumnMotions => OpV::EnableColumnMotions,
        TraceOp::RegisterPath { path, line_lengths } => OpV::RegisterPath {
            path: path@,
            line_lengths: line_lengths@,
        },
        TraceOp::Start { path, line } => OpV::Start { path: path@, line },
        TraceOp::EnsureType { kind, name } => OpV::EnsureType { kind, name: name@ },
        TraceOp::EnsureFunction { name, path, line } => OpV::EnsureFunction {
            name: name@,
            path: path@,
            line,
        },
        TraceOp::Step { path, line, column } => OpV::Step { path: path@, line, column },
        TraceOp::Variable { name, value } => OpV::Variable { name: name@, value: value_view(value) },
        TraceOp::VariableEncoded { name, value } => OpV::VariableEncoded {
            name: name@,
            value: value_view(value),
        },
        TraceOp::CallArg { name, value } => OpV::CallArg { name: name@, value: value_view(value) },
        TraceOp::Call { function, args } => OpV::Call {
            function: function@,
            args: values_view(args@),
        },
        TraceOp::Return { value } => OpV::Return { value: value_view(value) },
        TraceOp::ReturnEncoded { value } => OpV::ReturnEncoded { value: value_view(value) },
        TraceOp::ReturnNone => OpV::ReturnNone,
        TraceOp::SpecialEvent { kind, metadata, content } => OpV::SpecialEvent {
            kind,
            metadata: metadata@,
            content: content@,
        },
    }
}

impl View for TraceOp {
    type V = OpV;

    open spec fn view(&self) -> OpV {
        op_view(*self)
    }
}

pub open spec fn ops_view(s: Seq<TraceOp>) -> Seq<OpV> {
    s.map_values(|o: TraceOp| op_view(o))
}

} // verus!
