//! What converting each helper event does to the recorder's state and to
//! the writer operations it has performed.

use vstd::prelude::*;
use crate::text::decimal_digits;
use crate::decode::{decode, TypeReq};
use crate::value::{TypeKind, ValueV};
use crate::ops::{EventKind, OpV};
use crate::events::{ArgV, EventV};
use crate::paths::{path_equiv, step_path};
use crate::tracer::{TracerV, apply_reqs, is_encoded, push_op};

verus! {

/// The writer operation that hands over the variable `name` with value `v`.
pub open spec fn write_op(name: Seq<char>, v: ValueV) -> OpV {
    if is_encoded(v) {
        OpV::VariableEncoded { name, value: v }
    } else {
        OpV::Variable { name, value: v }
    }
}

/// Hand each of `vars` to the writer, in order.
pub open spec fn write_vars(st: TracerV, vars: Seq<(Seq<char>, ValueV)>) -> TracerV
    decreases vars.len(),
{
    if vars.len() == 0 {
        st
    } else {
        push_op(write_vars(st, vars.drop_last()), write_op(vars.last().0, vars.last().1))
    }
}

/// Stage a variable: against the open step, or held for the next step.
pub open spec fn typed_var(st: TracerV, name: Seq<char>, v: ValueV) -> TracerV {
    if st.step_open {
        push_op(st, write_op(name, v))
    } else {
        TracerV { deferred: st.deferred.push((name, v)), ..st }
    }
}

/// Whether `p` and `q` name the same path: the same text, or equal as
/// paths.
pub open spec fn same_path_as(q: Seq<char>, p: Seq<char>) -> bool {
    q == p || path_equiv(q, p)
}

/// Whether some path of `list` is the path `p`.
pub open spec fn path_in(list: Seq<Seq<char>>, p: Seq<char>) -> bool {
    exists|j: int| 0 <= j < list.len() && same_path_as(list[j], p)
}

/// The line-length table of the first source entry for the path `p`; empty
/// when there is none.
pub open spec fn lookup_lengths(sources: Seq<(Seq<char>, Seq<u32>)>, p: Seq<char>) -> Seq<u32>
    decreases sources.len(),
{
    if sources.len() == 0 {
        seq![]
    } else if same_path_as(sources[0].0, p) {
        sources[0].1
    } else {
        lookup_lengths(sources.drop_first(), p)
    }
}

/// The column recorded for a step on `p`: the helper's column only when
/// `p` has a column axis.
pub open spec fn step_column(st: TracerV, p: Seq<char>, col: Option<u32>) -> Option<i64> {
    if path_in(st.axis_paths, p) {
        match col {
            Some(c) => Some(c as i64),
            None => None,
        }
    } else {
        None
    }
}

/// Emit a step and attach to it every variable staged while none was open.
pub open spec fn open_step(st: TracerV, p: Seq<char>, line: u32, col: Option<u32>) -> TracerV {
    let s1 = push_op(st, OpV::Step { path: p, line: line as i64, column: step_column(st, p, col) });
    write_vars(TracerV { step_open: true, deferred: seq![], ..s1 }, st.deferred)
}

/// Register `p` with its line-length table, once.
pub open spec fn ensure_path(st: TracerV, p: Seq<char>) -> TracerV {
    if path_in(st.lengths_paths, p) {
        st
    } else {
        let ll = lookup_lengths(st.sources, p);
        let s1 = push_op(st, OpV::RegisterPath { path: p, line_lengths: ll });
        TracerV {
            axis_paths: if ll.len() > 0 {
                s1.axis_paths.push(p)
            } else {
                s1.axis_paths
            },
            lengths_paths: s1.lengths_paths.push(p),
            ..s1
        }
    }
}

/// An entry of the trace-log event channel whose metadata and content are
/// both `text`.
pub open spec fn tagged(st: TracerV, text: Seq<char>) -> TracerV {
    push_op(st, OpV::SpecialEvent { kind: EventKind::TraceLogEvent, metadata: text, content: text })
}

/// The visibility tag of a Cadence access modifier.
pub open spec fn access_tag(access: Seq<char>) -> Option<Seq<char>> {
    if access == "self"@ {
        Some("AccessSelf"@)
    } else if access == "contract"@ {
        Some("AccessContract"@)
    } else if access == "account"@ {
        Some("AccessAccount"@)
    } else if access == "all"@ {
        Some("AccessAll"@)
    } else {
        None
    }
}

/// Decode and stage each call argument, then hand it to the call record.
pub open spec fn call_args(st: TracerV, args: Seq<ArgV>) -> (TracerV, Seq<ValueV>)
    decreases args.len(),
{
    if args.len() == 0 {
        (st, seq![])
    } else {
        let (s0, vs) = call_args(st, args.drop_last());
        let a = args.last();
        let (v, rs) = decode(a.value, a.cadence_type);
        let s1 = typed_var(apply_reqs(s0, rs), a.name, v);
        (push_op(s1, OpV::CallArg { name: a.name, value: v }), vs.push(v))
    }
}

/// A call: register the callee, stage and hand over each argument, record
/// the call (which closes the open step), then tag its visibility and
/// whether it is the script's entry.
pub open spec fn convert_call(
    st: TracerV,
    src: Seq<char>,
    name: Seq<char>,
    args: Seq<ArgV>,
    access: Option<Seq<char>>,
    script: bool,
) -> TracerV {
    let s1 = push_op(st, OpV::EnsureFunction { name, path: src, line: 1 });
    let (s2, vs) = call_args(s1, args);
    let s3 = TracerV { step_open: false, ..push_op(s2, OpV::Call { function: name, args: vs }) };
    let s4 = match access {
        Some(a) => match access_tag(a) {
            Some(tag) => tagged(s3, "CadenceAccess:"@ + name + ":"@ + tag),
            None => s3,
        },
        None => s3,
    };
    if script {
        tagged(s4, "CadenceScriptEntry:"@ + name)
    } else {
        s4
    }
}

/// A return, with its decoded value unless there is none (absent, empty,
/// `nil` or `Void`); it closes the open step.
pub open spec fn convert_return(
    st: TracerV,
    value: Option<Seq<char>>,
    cadence_type: Option<Seq<char>>,
) -> TracerV {
    let s1 = match value {
        Some(v) => if v.len() == 0 || v == "nil"@ || v == "Void"@ {
            push_op(st, OpV::ReturnNone)
        } else {
            let (rv, rs) = decode(v, cadence_type);
            let s0 = apply_reqs(st, rs);
            if is_encoded(rv) {
                push_op(s0, OpV::ReturnEncoded { value: rv })
            } else {
                push_op(s0, OpV::Return { value: rv })
            }
        },
        None => push_op(st, OpV::ReturnNone),
    };
    TracerV { step_open: false, ..s1 }
}

/// The event log and metadata tag of a helper error of the given kind.
pub open spec fn error_route(error_kind: Option<Seq<char>>) -> (EventKind, Seq<char>) {
    match error_kind {
        Some(k) => if k == "pre"@ {
            (EventKind::TraceLogEvent, "CadencePreCondition"@)
        } else if k == "post"@ {
            (EventKind::TraceLogEvent, "CadencePostCondition"@)
        } else {
            (EventKind::Error, "CadenceRuntimeError"@)
        },
        None => (EventKind::Error, "CadenceRuntimeError"@),
    }
}

/// `<Type>#<uuid>`, the identity of a resource in tags and names.
pub open spec fn resource_id(rt: Seq<char>, uuid: u64) -> Seq<char> {
    rt + "#"@ + decimal_digits(uuid as nat)
}

/// The step, typed local and tagged log entry of a resource lifecycle
/// event; `text` is the local's value and `tag`/`content` the log entry.
pub open spec fn resource_lifecycle(
    st: TracerV,
    src: Seq<char>,
    rt: Seq<char>,
    uuid: u64,
    line: u32,
    col: Option<u32>,
    text: Seq<char>,
    tag: Seq<char>,
    content: Seq<char>,
    init_fn: bool,
) -> TracerV {
    let s1 = open_step(st, src, line, col);
    let s2 = if init_fn {
        push_op(s1, OpV::EnsureFunction { name: rt + ".init"@, path: src, line: line as i64 })
    } else {
        s1
    };
    let key = "@Resource:"@ + rt;
    let s3 = apply_reqs(s2, seq![(TypeKind::Int, key)]);
    let s4 = typed_var(s3, "@resource:"@ + resource_id(rt, uuid), ValueV::String { text, ty: key });
    push_op(
        s4,
        OpV::SpecialEvent {
            kind: EventKind::TraceLogEvent,
            metadata: tag + resource_id(rt, uuid),
            content,
        },
    )
}

/// The tag of a Cadence composite kind.
pub open spec fn composite_tag(kind: Seq<char>) -> Option<Seq<char>> {
    if kind == "structure"@ {
        Some("CompositeKindStructure"@)
    } else if kind == "resource"@ {
        Some("CompositeKindResource"@)
    } else if kind == "event"@ {
        Some("CompositeKindEvent"@)
    } else {
        None
    }
}

/// `name: value` for each field, separated by `, `.
pub open spec fn emit_fields_text(fs: Seq<ArgV>) -> Seq<char>
    decreases fs.len(),
{
    if fs.len() == 0 {
        seq![]
    } else {
        let prev = emit_fields_text(fs.drop_last());
        let sep = if fs.len() > 1 {
            ", "@
        } else {
            seq![]
        };
        prev + sep + fs.last().name + ": "@ + fs.last().value
    }
}

/// Stage each emitted field as the typed local `emit:<event>.<field>`.
pub open spec fn emit_fields(st: TracerV, name: Seq<char>, fs: Seq<ArgV>) -> TracerV
    decreases fs.len(),
{
    if fs.len() == 0 {
        st
    } else {
        let s0 = emit_fields(st, name, fs.drop_last());
        let f = fs.last();
        let (v, rs) = decode(f.value, f.cadence_type);
        typed_var(apply_reqs(s0, rs), "emit:"@ + name + "."@ + f.name, v)
    }
}

/// What converting one helper event does.
pub open spec fn convert_event(st: TracerV, src: Seq<char>, e: EventV) -> TracerV {
    match e {
        EventV::Step { file, line, column } => {
            let p = step_path(src, file);
            open_step(ensure_path(st, p), p, line, column)
        },
        EventV::Variable { name, value, cadence_type } => {
            let (v, rs) = decode(value, cadence_type);
            typed_var(apply_reqs(st, rs), name, v)
        },
        EventV::Call { name, args, access, script } => convert_call(st, src, name, args, access, script),
        EventV::Return { value, cadence_type } => convert_return(st, value, cadence_type),
        EventV::Error { message, error_kind } => push_op(
            st,
            OpV::SpecialEvent {
                kind: error_route(error_kind).0,
                metadata: error_route(error_kind).1,
                content: message,
            },
        ),
        EventV::Event { name, payload } => push_op(
            st,
            OpV::SpecialEvent {
                kind: EventKind::EvmEvent,
                metadata: "CadenceEvent:"@ + name,
                content: payload,
            },
        ),
        EventV::ResourceCreate { resource_type, uuid, owner, file, line, column } =>
            resource_lifecycle(
            st,
            src,
            resource_type,
            uuid,
            line,
            column,
            "created(owner="@ + owner + ")"@,
            "CadenceResourceCreate:"@,
            "owner="@ + owner,
            true,
        ),
        EventV::ResourceMove { resource_type, uuid, from_owner, to_owner, file, line, column } =>
            resource_lifecycle(
            st,
            src,
            resource_type,
            uuid,
            line,
            column,
            "moved("@ + from_owner + " -> "@ + to_owner + ")"@,
            "CadenceResourceMove:"@,
            "from="@ + from_owner + " to="@ + to_owner,
            false,
        ),
        EventV::ResourceDestroy { resource_type, uuid, owner, file, line, column } =>
            resource_lifecycle(
            st,
            src,
            resource_type,
            uuid,
            line,
            column,
            "destroyed(owner="@ + owner + ")"@,
            "CadenceResourceDestroy:"@,
            "owner="@ + owner,
            false,
        ),
        EventV::ResourceOwnerChange {
            resource_type,
            uuid,
            from_owner,
            to_owner,
            file,
            line,
            column,
        } => {
            let s1 = open_step(st, src, line, column);
            let id = "ResourceOwnerChange:"@ + resource_id(resource_type, uuid);
            push_op(
                s1,
                OpV::SpecialEvent {
                    kind: EventKind::TraceLogEvent,
                    metadata: id,
                    content: id + ": "@ + from_owner + " -> "@ + to_owner,
                },
            )
        },
        EventV::ForceNilUnwrap { context } => tagged(st, "ForceNilUnwrap:"@ + context),
        EventV::Emit { name, fields } => {
            let payload = "CadenceEmit:"@ + name + "("@ + emit_fields_text(fields) + ")"@;
            let s1 = emit_fields(st, name, fields);
            push_op(
                s1,
                OpV::SpecialEvent {
                    kind: EventKind::EvmEvent,
                    metadata: "CadenceEmit:"@ + name,
                    content: payload,
                },
            )
        },
        EventV::CompositeKind { kind, declared_type } => match composite_tag(kind) {
            Some(tag) => tagged(st, tag + ":"@ + declared_type),
            None => st,
        },
        EventV::AnyTypeBind { static_type, runtime_type, varname } => tagged(
            st,
            "CadenceAnyType:"@ + static_type + ":"@ + runtime_type + ":"@ + varname,
        ),
        EventV::TypeAlias { alias_name, underlying_type } => tagged(
            st,
            "CadenceTypeAlias:"@ + alias_name + ":"@ + underlying_type,
        ),
        EventV::AttachmentAttach { attachment_type, target_type } => tagged(
            st,
            "CadenceAttachmentAttach:"@ + attachment_type + ":"@ + target_type,
        ),
        EventV::AttachmentRemove { attachment_type, target_type } => tagged(
            st,
            "CadenceAttachmentRemove:"@ + attachment_type + ":"@ + target_type,
        ),
    }
}

/// Convert the events in order.
pub open spec fn convert_events(st: TracerV, src: Seq<char>, evs: Seq<EventV>) -> TracerV
    decreases evs.len(),
{
    if evs.len() == 0 {
        st
    } else {
        convert_event(convert_events(st, src, evs.drop_last()), src, evs.last())
    }
}

/// After the last event: hand every still-staged variable to the writer.
pub open spec fn flush(st: TracerV) -> TracerV {
    write_vars(TracerV { deferred: seq![], ..st }, st.deferred)
}

/// The types every trace starts with.
pub open spec fn initial_types() -> Seq<TypeReq> {
    seq![
        (TypeKind::Int, "Int"@),
        (TypeKind::Int, "UInt64"@),
        (TypeKind::Int, "Fix64"@),
        (TypeKind::Int, "Bool"@),
        (TypeKind::Int, "String"@),
        (TypeKind::Int, "Address"@),
    ]
}

/// The recorder's state after setting up a trace of the entry source `src`.
pub open spec fn initial_state(src: Seq<char>, sources: Seq<(Seq<char>, Seq<u32>)>) -> TracerV {
    let s0 = TracerV {
        ops: seq![
            OpV::EnableColumnAwareSteps,
            OpV::EnableColumnBreakpoints,
            OpV::EnableColumnMotions,
        ],
        types: seq![],
        lengths_paths: seq![],
        axis_paths: seq![],
        step_open: false,
        deferred: seq![],
        sources,
    };
    let s1 = ensure_path(s0, src);
    apply_reqs(push_op(s1, OpV::Start { path: src, line: 1 }), initial_types())
}

/// Every writer operation that records the events `evs` of a run of the
/// entry source `src`.
pub open spec fn trace_ops(src: Seq<char>, sources: Seq<(Seq<char>, Seq<u32>)>, evs: Seq<EventV>) -> Seq<OpV> {
    flush(convert_events(initial_state(src, sources), src, evs)).ops
}

} // verus!
