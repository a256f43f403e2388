//! The recorder keeps the helper's counts: one call record per call event,
//! one return record per return event, one step per step or resource
//! lifecycle event, and nothing else of these kinds.

use vstd::prelude::*;
use crate::ops::OpV;
use crate::events::{ArgV, EventV};
use crate::value::ValueV;
use crate::decode::{decode, TypeReq};
use crate::tracer::{TracerV, apply_req, apply_reqs, push_op};
use crate::invariants::grows;
use crate::conversion::{
    call_args, convert_call, convert_event, convert_events, convert_return, emit_fields,
    ensure_path, initial_state, initial_types, open_step, resource_lifecycle, step_column, tagged,
    trace_ops, typed_var, write_op, write_vars,
};

verus! {

/// The class of a writer operation: 0 a call, 1 a return, 2 a step, 3 any
/// other.
pub open spec fn op_class(op: OpV) -> int {
    if op is Call {
        0
    } else if op is Return || op is ReturnEncoded || op is ReturnNone {
        1
    } else if op is Step {
        2
    } else {
        3
    }
}

/// The class of a helper event: 0 a call, 1 a return, 2 a step or a
/// resource lifecycle event (each has a source position), 3 any other.
pub open spec fn event_class(e: EventV) -> int {
    match e {
        EventV::Call { .. } => 0,
        EventV::Return { .. } => 1,
        EventV::Step { .. } => 2,
        EventV::ResourceCreate { .. } => 2,
        EventV::ResourceMove { .. } => 2,
        EventV::ResourceDestroy { .. } => 2,
        EventV::ResourceOwnerChange { .. } => 2,
        _ => 3,
    }
}

/// How many operations of `ops` are of class `c`.
pub open spec fn count_ops(ops: Seq<OpV>, c: int) -> nat
    decreases ops.len(),
{
    if ops.len() == 0 {
        0
    } else {
        count_ops(ops.drop_last(), c) + if op_class(ops.last()) == c {
            1nat
        } else {
            0nat
        }
    }
}

/// How many events of `evs` are of class `c`.
pub open spec fn count_events(evs: Seq<EventV>, c: int) -> nat
    decreases evs.len(),
{
    if evs.len() == 0 {
        0
    } else {
        count_events(evs.drop_last(), c) + if event_class(evs.last()) == c {
            1nat
        } else {
            0nat
        }
    }
}

/// `b` extends `a` with operations of class 3 only.
pub open spec fn quiet_tail(a: Seq<OpV>, b: Seq<OpV>) -> bool {
    &&& grows(a, b)
    &&& forall|k: int| a.len() <= k < b.len() ==> op_class(#[trigger] b[k]) == 3
}

proof fn lemma_quiet_count(a: Seq<OpV>, b: Seq<OpV>, c: int)
    requires
        quiet_tail(a, b),
        c != 3,
    ensures
        count_ops(b, c) == count_ops(a, c),
    decreases b.len(),
{
    if b.len() > a.len() {
        let d = b.drop_last();
        assert(quiet_tail(a, d)) by {
            assert forall|k: int| a.len() <= k < d.len() implies op_class(#[trigger] d[k]) == 3 by {
                assert(d[k] == b[k]);
            }
            assert forall|i: int| 0 <= i < a.len() implies #[trigger] d[i] == a[i] by {
                assert(d[i] == b[i]);
            }
        }
        lemma_quiet_count(a, d, c);
        assert(op_class(b[b.len() - 1]) == 3);
    } else {
        assert(b =~= a);
    }
}

proof fn lemma_count_push(a: Seq<OpV>, op: OpV, c: int)
    ensures
        count_ops(a.push(op), c) == count_ops(a, c) + if op_class(op) == c {
            1nat
        } else {
            0nat
        },
{
    assert(a.push(op).drop_last() =~= a);
}

proof fn lemma_quiet_trans(a: Seq<OpV>, b: Seq<OpV>, d: Seq<OpV>)
    requires
        quiet_tail(a, b),
        quiet_tail(b, d),
    ensures
        quiet_tail(a, d),
{
    assert forall|k: int| a.len() <= k < d.len() implies op_class(#[trigger] d[k]) == 3 by {
        if k < b.len() {
            assert(d[k] == b[k]);
        }
    }
    assert forall|i: int| 0 <= i < a.len() implies #[trigger] d[i] == a[i] by {
        assert(d[i] == b[i]);
    }
}

proof fn lemma_quiet_push(a: Seq<OpV>, op: OpV)
    requires
        op_class(op) == 3,
    ensures
        quiet_tail(a, a.push(op)),
{
}

proof fn lemma_quiet_refl(a: Seq<OpV>)
    ensures
        quiet_tail(a, a),
{
}

proof fn lemma_q_apply_reqs(st: TracerV, rs: Seq<TypeReq>)
    ensures
        quiet_tail(st.ops, apply_reqs(st, rs).ops),
        apply_reqs(st, rs).step_open == st.step_open,
        apply_reqs(st, rs).deferred == st.deferred,
    decreases rs.len(),
{
    if rs.len() > 0 {
        lemma_q_apply_reqs(st, rs.drop_last());
        let a = apply_reqs(st, rs.drop_last());
        if !a.types.contains(rs.last().1) {
            lemma_quiet_push(a.ops, OpV::EnsureType { kind: rs.last().0, name: rs.last().1 });
            lemma_quiet_trans(st.ops, a.ops, apply_req(a, rs.last()).ops);
        }
    }
}

proof fn lemma_q_write_vars(st: TracerV, vars: Seq<(Seq<char>, ValueV)>)
    ensures
        quiet_tail(st.ops, write_vars(st, vars).ops),
    decreases vars.len(),
{
    if vars.len() > 0 {
        lemma_q_write_vars(st, vars.drop_last());
        let a = write_vars(st, vars.drop_last());
        lemma_quiet_push(a.ops, write_op(vars.last().0, vars.last().1));
        lemma_quiet_trans(st.ops, a.ops, write_vars(st, vars).ops);
    }
}

proof fn lemma_q_typed_var(st: TracerV, name: Seq<char>, v: ValueV)
    ensures
        quiet_tail(st.ops, typed_var(st, name, v).ops),
{
    if st.step_open {
        lemma_quiet_push(st.ops, write_op(name, v));
    }
}

proof fn lemma_q_ensure_path(st: TracerV, p: Seq<char>)
    ensures
        quiet_tail(st.ops, ensure_path(st, p).ops),
{
    if !crate::conversion::path_in(st.lengths_paths, p) {
        let r = ensure_path(st, p);
        lemma_quiet_push(st.ops, r.ops.last());
        assert(r.ops =~= st.ops.push(r.ops.last()));
    }
}

proof fn lemma_q_tagged(st: TracerV, t: Seq<char>)
    ensures
        quiet_tail(st.ops, tagged(st, t).ops),
{
    lemma_quiet_push(st.ops, tagged(st, t).ops.last());
    assert(tagged(st, t).ops =~= st.ops.push(tagged(st, t).ops.last()));
}

proof fn lemma_q_call_args(st: TracerV, args: Seq<ArgV>)
    ensures
        quiet_tail(st.ops, call_args(st, args).0.ops),
    decreases args.len(),
{
    if args.len() > 0 {
        lemma_q_call_args(st, args.drop_last());
        let s0 = call_args(st, args.drop_last()).0;
        let a = args.last();
        let (v, rs) = decode(a.value, a.cadence_type);
        lemma_q_apply_reqs(s0, rs);
        let s1 = apply_reqs(s0, rs);
        lemma_q_typed_var(s1, a.name, v);
        let s2 = typed_var(s1, a.name, v);
        lemma_quiet_push(s2.ops, OpV::CallArg { name: a.name, value: v });
        lemma_quiet_trans(s0.ops, s1.ops, s2.ops);
        lemma_quiet_trans(s0.ops, s2.ops, call_args(st, args).0.ops);
        lemma_quiet_trans(st.ops, s0.ops, call_args(st, args).0.ops);
    }
}

proof fn lemma_q_emit_fields(st: TracerV, name: Seq<char>, fs: Seq<ArgV>)
    ensures
        quiet_tail(st.ops, emit_fields(st, name, fs).ops),
    decreases fs.len(),
{
    if fs.len() > 0 {
        lemma_q_emit_fields(st, name, fs.drop_last());
        let s0 = emit_fields(st, name, fs.drop_last());
        let f = fs.last();
        let (v, rs) = decode(f.value, f.cadence_type);
        lemma_q_apply_reqs(s0, rs);
        let s1 = apply_reqs(s0, rs);
        lemma_q_typed_var(s1, "emit:"@ + name + "."@ + f.name, v);
        lemma_quiet_trans(s0.ops, s1.ops, emit_fields(st, name, fs).ops);
        lemma_quiet_trans(st.ops, s0.ops, emit_fields(st, name, fs).ops);
    }
}

/// Counts after one step: one more step, nothing more of the other classes.
proof fn lemma_c_open_step(st: TracerV, p: Seq<char>, line: u32, col: Option<u32>, c: int)
    requires
        0 <= c < 3,
    ensures
        count_ops(open_step(st, p, line, col).ops, c) == count_ops(st.ops, c) + if c == 2 {
            1nat
        } else {
            0nat
        },
{
    let op = OpV::Step { path: p, line: line as i64, column: step_column(st, p, col) };
    let s1 = push_op(st, op);
    lemma_count_push(st.ops, op, c);
    let s2 = TracerV { step_open: true, deferred: seq![], ..s1 };
    lemma_q_write_vars(s2, st.deferred);
    lemma_quiet_count(s2.ops, open_step(st, p, line, col).ops, c);
}

proof fn lemma_c_resource(
    st: TracerV,
    src: Seq<char>,
    rt: Seq<char>,
    uuid: u64,
    line: u32,
    col: Option<u32>,
    text: Seq<char>,
    tag: Seq<char>,
    content: Seq<char>,
    init_fn: bool,
    c: int,
)
    requires
        0 <= c < 3,
    ensures
        count_ops(resource_lifecycle(st, src, rt, uuid, line, col, text, tag, content, init_fn).ops, c)
            == count_ops(st.ops, c) + if c == 2 {
            1nat
        } else {
            0nat
        },
{
    lemma_c_open_step(st, src, line, col, c);
    let s1 = open_step(st, src, line, col);
    let f = OpV::EnsureFunction { name: rt + ".init"@, path: src, line: line as i64 };
    let s2 = if init_fn {
        push_op(s1, f)
    } else {
        s1
    };
    if init_fn {
        lemma_quiet_push(s1.ops, f);
    } else {
        lemma_quiet_refl(s1.ops);
    }
    let key = "@Resource:"@ + rt;
    lemma_q_apply_reqs(s2, seq![(crate::value::TypeKind::Int, key)]);
    let s3 = apply_reqs(s2, seq![(crate::value::TypeKind::Int, key)]);
    let id = crate::conversion::resource_id(rt, uuid);
    lemma_q_typed_var(s3, "@resource:"@ + id, ValueV::String { text, ty: key });
    let s4 = typed_var(s3, "@resource:"@ + id, ValueV::String { text, ty: key });
    let r = resource_lifecycle(st, src, rt, uuid, line, col, text, tag, content, init_fn);
    lemma_quiet_push(s4.ops, r.ops.last());
    assert(r.ops =~= s4.ops.push(r.ops.last()));
    lemma_quiet_trans(s1.ops, s2.ops, s3.ops);
    lemma_quiet_trans(s1.ops, s3.ops, s4.ops);
    lemma_quiet_trans(s1.ops, s4.ops, r.ops);
    lemma_quiet_count(s1.ops, r.ops, c);
}

proof fn lemma_c_call(
    st: TracerV,
    src: Seq<char>,
    name: Seq<char>,
    args: Seq<ArgV>,
    access: Option<Seq<char>>,
    script: bool,
    c: int,
)
    requires
        0 <= c < 3,
    ensures
        count_ops(convert_call(st, src, name, args, access, script).ops, c) == count_ops(st.ops, c)
            + if c == 0 {
            1nat
        } else {
            0nat
        },
{
    let f = OpV::EnsureFunction { name, path: src, line: 1 };
    let s1 = push_op(st, f);
    lemma_quiet_push(st.ops, f);
    lemma_q_call_args(s1, args);
    let (s2, vs) = call_args(s1, args);
    lemma_quiet_trans(st.ops, s1.ops, s2.ops);
    lemma_quiet_count(st.ops, s2.ops, c);
    let cop = OpV::Call { function: name, args: vs };
    lemma_count_push(s2.ops, cop, c);
    let s3 = TracerV { step_open: false, ..push_op(s2, cop) };
    let s4 = match access {
        Some(a) => match crate::conversion::access_tag(a) {
            Some(tag) => tagged(s3, "CadenceAccess:"@ + name + ":"@ + tag),
            None => s3,
        },
        None => s3,
    };
    match access {
        Some(a) => match crate::conversion::access_tag(a) {
            Some(tag) => lemma_q_tagged(s3, "CadenceAccess:"@ + name + ":"@ + tag),
            None => lemma_quiet_refl(s3.ops),
        },
        None => lemma_quiet_refl(s3.ops),
    }
    let r = convert_call(st, src, name, args, access, script);
    if script {
        lemma_q_tagged(s4, "CadenceScriptEntry:"@ + name);
    } else {
        lemma_quiet_refl(s4.ops);
    }
    lemma_quiet_trans(s3.ops, s4.ops, r.ops);
    lemma_quiet_count(s3.ops, r.ops, c);
}

proof fn lemma_c_return(st: TracerV, value: Option<Seq<char>>, cadence_type: Option<Seq<char>>, c: int)
    requires
        0 <= c < 3,
    ensures
        count_ops(convert_return(st, value, cadence_type).ops, c) == count_ops(st.ops, c) + if c
            == 1 {
            1nat
        } else {
            0nat
        },
{
    match value {
        Some(v) => if v.len() == 0 || v == "nil"@ || v == "Void"@ {
            lemma_count_push(st.ops, OpV::ReturnNone, c);
        } else {
            let (rv, rs) = decode(v, cadence_type);
            lemma_q_apply_reqs(st, rs);
            let s0 = apply_reqs(st, rs);
            lemma_quiet_count(st.ops, s0.ops, c);
            if crate::tracer::is_encoded(rv) {
                lemma_count_push(s0.ops, OpV::ReturnEncoded { value: rv }, c);
            } else {
                lemma_count_push(s0.ops, OpV::Return { value: rv }, c);
            }
        },
        None => lemma_count_push(st.ops, OpV::ReturnNone, c),
    }
}

/// One event adds one operation of its own class, and none of another.
proof fn lemma_c_event(st: TracerV, src: Seq<char>, e: EventV, c: int)
    requires
        0 <= c < 3,
    ensures
        count_ops(convert_event(st, src, e).ops, c) == count_ops(st.ops, c) + if event_class(e)
            == c {
            1nat
        } else {
            0nat
        },
{
    let r = convert_event(st, src, e);
    match e {
        EventV::Step { file, line, column } => {
            let p = crate::paths::step_path(src, file);
            lemma_q_ensure_path(st, p);
            lemma_quiet_count(st.ops, ensure_path(st, p).ops, c);
            lemma_c_open_step(ensure_path(st, p), p, line, column, c);
        },
        EventV::Variable { name, value, cadence_type } => {
            let (v, rs) = decode(value, cadence_type);
            lemma_q_apply_reqs(st, rs);
            lemma_q_typed_var(apply_reqs(st, rs), name, v);
            lemma_quiet_trans(st.ops, apply_reqs(st, rs).ops, r.ops);
            lemma_quiet_count(st.ops, r.ops, c);
        },
        EventV::Call { name, args, access, script } => {
            lemma_c_call(st, src, name, args, access, script, c);
        },
        EventV::Return { value, cadence_type } => {
            lemma_c_return(st, value, cadence_type, c);
        },
        EventV::ResourceCreate { resource_type, uuid, owner, file, line, column } => {
            lemma_c_resource(
                st,
                src,
                resource_type,
                uuid,
                line,
                column,
                "created(owner="@ + owner + ")"@,
                "CadenceResourceCreate:"@,
                "owner="@ + owner,
                true,
                c,
            );
        },
        EventV::ResourceMove { resource_type, uuid, from_owner, to_owner, file, line, column } => {
            lemma_c_resource(
                st,
                src,
                resource_type,
                uuid,
                line,
                column,
                "moved("@ + from_owner + " -> "@ + to_owner + ")"@,
                "CadenceResourceMove:"@,
                "from="@ + from_owner + " to="@ + to_owner,
                false,
                c,
            );
        },
        EventV::ResourceDestroy { resource_type, uuid, owner, file, line, column } => {
            lemma_c_resource(
                st,
                src,
                resource_type,
                uuid,
                line,
                column,
                "destroyed(owner="@ + owner + ")"@,
                "CadenceResourceDestroy:"@,
                "owner="@ + owner,
                false,
                c,
            );
        },
        EventV::ResourceOwnerChange {
            resource_type,
            uuid,
            from_owner,
            to_owner,
            file,
            line,
            column,
        } => {
            lemma_c_open_step(st, src, line, column, c);
            let s1 = open_step(st, src, line, column);
            lemma_count_push(s1.ops, r.ops.last(), c);
            assert(r.ops =~= s1.ops.push(r.ops.last()));
        },
        EventV::Emit { name, fields } => {
            lemma_q_emit_fields(st, name, fields);
            let s1 = emit_fields(st, name, fields);
            lemma_quiet_push(s1.ops, r.ops.last());
            assert(r.ops =~= s1.ops.push(r.ops.last()));
            lemma_quiet_trans(st.ops, s1.ops, r.ops);
            lemma_quiet_count(st.ops, r.ops, c);
        },
        EventV::CompositeKind { kind, declared_type } => {
            match crate::conversion::composite_tag(kind) {
                Some(tag) => {
                    lemma_q_tagged(st, tag + ":"@ + declared_type);
                    lemma_quiet_count(st.ops, r.ops, c);
                },
                None => {},
            }
        },
        _ => {
            assert(r.ops =~= st.ops.push(r.ops.last()));
            lemma_count_push(st.ops, r.ops.last(), c);
        },
    }
}

proof fn lemma_c_events(st: TracerV, src: Seq<char>, evs: Seq<EventV>, c: int)
    requires
        0 <= c < 3,
    ensures
        count_ops(convert_events(st, src, evs).ops, c) == count_ops(st.ops, c) + count_events(evs, c),
    decreases evs.len(),
{
    if evs.len() > 0 {
        lemma_c_events(st, src, evs.drop_last(), c);
        lemma_c_event(convert_events(st, src, evs.drop_last()), src, evs.last(), c);
    }
}

/// A trace holds exactly one call record per call event of the helper, one
/// return record per return event, and one step per step or resource
/// lifecycle event: registering a resource's `init` function adds no call,
/// and no variable, type or tag adds a step.
pub proof fn law_counts_kept(src: Seq<char>, sources: Seq<(Seq<char>, Seq<u32>)>, evs: Seq<EventV>)
    ensures
        count_ops(trace_ops(src, sources, evs), 0) == count_events(evs, 0),
        count_ops(trace_ops(src, sources, evs), 1) == count_events(evs, 1),
        count_ops(trace_ops(src, sources, evs), 2) == count_events(evs, 2),
{
    let e = TracerV {
        ops: seq![],
        types: seq![],
        lengths_paths: seq![],
        axis_paths: seq![],
        step_open: false,
        deferred: seq![],
        sources,
    };
    let s0 = TracerV {
        ops: seq![
            OpV::EnableColumnAwareSteps,
            OpV::EnableColumnBreakpoints,
            OpV::EnableColumnMotions,
        ],
        ..e
    };
    assert(quiet_tail(e.ops, s0.ops));
    lemma_q_ensure_path(s0, src);
    let s1 = ensure_path(s0, src);
    let st = OpV::Start { path: src, line: 1 };
    lemma_quiet_push(s1.ops, st);
    let s2 = push_op(s1, st);
    lemma_q_apply_reqs(s2, initial_types());
    let i = initial_state(src, sources);
    lemma_quiet_trans(e.ops, s0.ops, s1.ops);
    lemma_quiet_trans(e.ops, s1.ops, s2.ops);
    lemma_quiet_trans(e.ops, s2.ops, i.ops);
    let cv = convert_events(i, src, evs);
    lemma_q_write_vars(TracerV { deferred: seq![], ..cv }, cv.deferred);
    assert(count_ops(e.ops, 0) == 0 && count_ops(e.ops, 1) == 0 && count_ops(e.ops, 2) == 0);
    lemma_quiet_count(e.ops, i.ops, 0);
    lemma_c_events(i, src, evs, 0);
    lemma_quiet_count(cv.ops, trace_ops(src, sources, evs), 0);
    lemma_quiet_count(e.ops, i.ops, 1);
    lemma_c_events(i, src, evs, 1);
    lemma_quiet_count(cv.ops, trace_ops(src, sources, evs), 1);
    lemma_quiet_count(e.ops, i.ops, 2);
    lemma_c_events(i, src, evs, 2);
    lemma_quiet_count(cv.ops, trace_ops(src, sources, evs), 2);
}

/// How many operations of `ops` hand a variable to the writer.
pub open spec fn var_ops(ops: Seq<OpV>) -> nat
    decreases ops.len(),
{
    if ops.len() == 0 {
        0
    } else {
        var_ops(ops.drop_last()) + if ops.last() is Variable || ops.last() is VariableEncoded {
            1nat
        } else {
            0nat
        }
    }
}

/// How many variables one helper event stages: its own, each call
/// argument, a resource's local, or each field of an emitted event.
pub open spec fn staged(e: EventV) -> nat {
    match e {
        EventV::Variable { .. } => 1,
        EventV::Call { args, .. } => args.len(),
        EventV::ResourceCreate { .. } => 1,
        EventV::ResourceMove { .. } => 1,
        EventV::ResourceDestroy { .. } => 1,
        EventV::Emit { fields, .. } => fields.len(),
        _ => 0,
    }
}

/// How many variables the events `evs` stage.
pub open spec fn staged_all(evs: Seq<EventV>) -> nat
    decreases evs.len(),
{
    if evs.len() == 0 {
        0
    } else {
        staged_all(evs.drop_last()) + staged(evs.last())
    }
}

/// Variables written so far plus those still staged.
pub open spec fn vars_held(st: TracerV) -> nat {
    var_ops(st.ops) + st.deferred.len()
}

proof fn lemma_var_push(a: Seq<OpV>, op: OpV)
    ensures
        var_ops(a.push(op)) == var_ops(a) + if op is Variable || op is VariableEncoded {
            1nat
        } else {
            0nat
        },
{
    assert(a.push(op).drop_last() =~= a);
}

proof fn lemma_v_quiet(a: Seq<OpV>, b: Seq<OpV>)
    requires
        grows(a, b),
        forall|k: int| a.len() <= k < b.len() ==> !(#[trigger] b[k] is Variable) && !(b[k] is VariableEncoded),
    ensures
        var_ops(b) == var_ops(a),
    decreases b.len(),
{
    if b.len() > a.len() {
        let d = b.drop_last();
        assert forall|i: int| 0 <= i < a.len() implies #[trigger] d[i] == a[i] by {
            assert(d[i] == b[i]);
        }
        assert forall|k: int| a.len() <= k < d.len() implies !(#[trigger] d[k] is Variable) && !(d[k] is VariableEncoded) by {
            assert(d[k] == b[k]);
        }
        lemma_v_quiet(a, d);
        assert(b[b.len() - 1] == b.last());
    } else {
        assert(b =~= a);
    }
}

proof fn lemma_v_apply_reqs(st: TracerV, rs: Seq<TypeReq>)
    ensures
        vars_held(apply_reqs(st, rs)) == vars_held(st),
        apply_reqs(st, rs).step_open == st.step_open,
    decreases rs.len(),
{
    if rs.len() > 0 {
        lemma_v_apply_reqs(st, rs.drop_last());
        let a = apply_reqs(st, rs.drop_last());
        if !a.types.contains(rs.last().1) {
            lemma_var_push(a.ops, OpV::EnsureType { kind: rs.last().0, name: rs.last().1 });
        }
    }
    lemma_q_apply_reqs(st, rs);
}

proof fn lemma_v_write_vars(st: TracerV, vars: Seq<(Seq<char>, ValueV)>)
    ensures
        var_ops(write_vars(st, vars).ops) == var_ops(st.ops) + vars.len(),
        write_vars(st, vars).deferred == st.deferred,
        write_vars(st, vars).step_open == st.step_open,
    decreases vars.len(),
{
    if vars.len() > 0 {
        lemma_v_write_vars(st, vars.drop_last());
        lemma_var_push(write_vars(st, vars.drop_last()).ops, write_op(vars.last().0, vars.last().1));
    }
}

proof fn lemma_v_typed_var(st: TracerV, name: Seq<char>, v: ValueV)
    ensures
        vars_held(typed_var(st, name, v)) == vars_held(st) + 1,
        typed_var(st, name, v).step_open == st.step_open,
{
    if st.step_open {
        lemma_var_push(st.ops, write_op(name, v));
    }
}

proof fn lemma_v_open_step(st: TracerV, p: Seq<char>, line: u32, col: Option<u32>)
    ensures
        vars_held(open_step(st, p, line, col)) == vars_held(st),
{
    let op = OpV::Step { path: p, line: line as i64, column: step_column(st, p, col) };
    lemma_var_push(st.ops, op);
    let s1 = push_op(st, op);
    let s2 = TracerV { step_open: true, deferred: seq![], ..s1 };
    lemma_v_write_vars(s2, st.deferred);
}

proof fn lemma_v_ensure_path(st: TracerV, p: Seq<char>)
    ensures
        vars_held(ensure_path(st, p)) == vars_held(st),
{
    if !crate::conversion::path_in(st.lengths_paths, p) {
        let r = ensure_path(st, p);
        assert(r.ops =~= st.ops.push(r.ops.last()));
        lemma_var_push(st.ops, r.ops.last());
    }
}

proof fn lemma_v_call_args(st: TracerV, args: Seq<ArgV>)
    ensures
        vars_held(call_args(st, args).0) == vars_held(st) + args.len(),
    decreases args.len(),
{
    if args.len() > 0 {
        lemma_v_call_args(st, args.drop_last());
        let s0 = call_args(st, args.drop_last()).0;
        let a = args.last();
        let (v, rs) = decode(a.value, a.cadence_type);
        lemma_v_apply_reqs(s0, rs);
        lemma_v_typed_var(apply_reqs(s0, rs), a.name, v);
        let s2 = typed_var(apply_reqs(s0, rs), a.name, v);
        lemma_var_push(s2.ops, OpV::CallArg { name: a.name, value: v });
    }
}

proof fn lemma_v_emit_fields(st: TracerV, name: Seq<char>, fs: Seq<ArgV>)
    ensures
        vars_held(emit_fields(st, name, fs)) == vars_held(st) + fs.len(),
    decreases fs.len(),
{
    if fs.len() > 0 {
        lemma_v_emit_fields(st, name, fs.drop_last());
        let s0 = emit_fields(st, name, fs.drop_last());
        let f = fs.last();
        let (v, rs) = decode(f.value, f.cadence_type);
        lemma_v_apply_reqs(s0, rs);
        lemma_v_typed_var(apply_reqs(s0, rs), "emit:"@ + name + "."@ + f.name, v);
    }
}

proof fn lemma_v_tagged(st: TracerV, t: Seq<char>)
    ensures
        vars_held(tagged(st, t)) == vars_held(st),
{
    lemma_var_push(st.ops, tagged(st, t).ops.last());
    assert(tagged(st, t).ops =~= st.ops.push(tagged(st, t).ops.last()));
}

proof fn lemma_v_call(
    st: TracerV,
    src: Seq<char>,
    name: Seq<char>,
    args: Seq<ArgV>,
    access: Option<Seq<char>>,
    script: bool,
)
    ensures
        vars_held(convert_call(st, src, name, args, access, script)) == vars_held(st) + args.len(),
{
    let f = OpV::EnsureFunction { name, path: src, line: 1 };
    lemma_var_push(st.ops, f);
    let s1 = push_op(st, f);
    lemma_v_call_args(s1, args);
    let (s2, vs) = call_args(s1, args);
    let cop = OpV::Call { function: name, args: vs };
    lemma_var_push(s2.ops, cop);
    let s3 = TracerV { step_open: false, ..push_op(s2, cop) };
    let s4 = match access {
        Some(a) => match crate::conversion::access_tag(a) {
            Some(tag) => tagged(s3, "CadenceAccess:"@ + name + ":"@ + tag),
            None => s3,
        },
        None => s3,
    };
    match access {
        Some(a) => match crate::conversion::access_tag(a) {
            Some(tag) => lemma_v_tagged(s3, "CadenceAccess:"@ + name + ":"@ + tag),
            None => {},
        },
        None => {},
    }
    if script {
        lemma_v_tagged(s4, "CadenceScriptEntry:"@ + name);
    }
}

proof fn lemma_v_return(st: TracerV, value: Option<Seq<char>>, cadence_type: Option<Seq<char>>)
    ensures
        vars_held(convert_return(st, value, cadence_type)) == vars_held(st),
{
    match value {
        Some(v) => if v.len() == 0 || v == "nil"@ || v == "Void"@ {
            lemma_var_push(st.ops, OpV::ReturnNone);
        } else {
            let (rv, rs) = decode(v, cadence_type);
            lemma_v_apply_reqs(st, rs);
            let s0 = apply_reqs(st, rs);
            if crate::tracer::is_encoded(rv) {
                lemma_var_push(s0.ops, OpV::ReturnEncoded { value: rv });
            } else {
                lemma_var_push(s0.ops, OpV::Return { value: rv });
            }
        },
        None => lemma_var_push(st.ops, OpV::ReturnNone),
    }
}

proof fn lemma_v_resource(
    st: TracerV,
    src: Seq<char>,
    rt: Seq<char>,
    uuid: u64,
    line: u32,
    col: Option<u32>,
    text: Seq<char>,
    tag: Seq<char>,
    content: Seq<char>,
    init_fn: bool,
)
    ensures
        vars_held(resource_lifecycle(st, src, rt, uuid, line, col, text, tag, content, init_fn))
            == vars_held(st) + 1,
{
    lemma_v_open_step(st, src, line, col);
    let s1 = open_step(st, src, line, col);
    let f = OpV::EnsureFunction { name: rt + ".init"@, path: src, line: line as i64 };
    let s2 = if init_fn {
        push_op(s1, f)
    } else {
        s1
    };
    if init_fn {
        lemma_var_push(s1.ops, f);
    }
    let key = "@Resource:"@ + rt;
    lemma_v_apply_reqs(s2, seq![(crate::value::TypeKind::Int, key)]);
    let s3 = apply_reqs(s2, seq![(crate::value::TypeKind::Int, key)]);
    let id = crate::conversion::resource_id(rt, uuid);
    lemma_v_typed_var(s3, "@resource:"@ + id, ValueV::String { text, ty: key });
    let s4 = typed_var(s3, "@resource:"@ + id, ValueV::String { text, ty: key });
    let r = resource_lifecycle(st, src, rt, uuid, line, col, text, tag, content, init_fn);
    assert(r.ops =~= s4.ops.push(r.ops.last()));
    lemma_var_push(s4.ops, r.ops.last());
}

proof fn lemma_v_event(st: TracerV, src: Seq<char>, e: EventV)
    ensures
        vars_held(convert_event(st, src, e)) == vars_held(st) + staged(e),
{
    let r = convert_event(st, src, e);
    match e {
        EventV::Step { file, line, column } => {
            let p = crate::paths::step_path(src, file);
            lemma_v_ensure_path(st, p);
            lemma_v_open_step(ensure_path(st, p), p, line, column);
        },
        EventV::Variable { name, value, cadence_type } => {
            let (v, rs) = decode(value, cadence_type);
            lemma_v_apply_reqs(st, rs);
            lemma_v_typed_var(apply_reqs(st, rs), name, v);
        },
        EventV::Call { name, args, access, script } => {
            lemma_v_call(st, src, name, args, access, script);
        },
        EventV::Return { value, cadence_type } => {
            lemma_v_return(st, value, cadence_type);
        },
        EventV::ResourceCreate { resource_type, uuid, owner, file, line, column } => {
            lemma_v_resource(
                st,
                src,
                resource_type,
                uuid,
                line,
                column,
                "created(owner="@ + owner + ")"@,
                "CadenceResourceCreate:"@,
                "owner="@ + owner,
                true,
            );
        },
        EventV::ResourceMove { resource_type, uuid, from_owner, to_owner, file, line, column } => {
            lemma_v_resource(
                st,
                src,
                resource_type,
                uuid,
                line,
                column,
                "moved("@ + from_owner + " -> "@ + to_owner + ")"@,
                "CadenceResourceMove:"@,
                "from="@ + from_owner + " to="@ + to_owner,
                false,
            );
        },
        EventV::ResourceDestroy { resource_type, uuid, owner, file, line, column } => {
            lemma_v_resource(
                st,
                src,
                resource_type,
                uuid,
                line,
                column,
                "destroyed(owner="@ + owner + ")"@,
                "CadenceResourceDestroy:"@,
                "owner="@ + owner,
                false,
            );
        },
        EventV::ResourceOwnerChange {
            resource_type,
            uuid,
            from_owner,
            to_owner,
            file,
            line,
            column,
        } => {
            lemma_v_open_step(st, src, line, column);
            let s1 = open_step(st, src, line, column);
            assert(r.ops =~= s1.ops.push(r.ops.last()));
            lemma_var_push(s1.ops, r.ops.last());
        },
        EventV::Emit { name, fields } => {
            lemma_v_emit_fields(st, name, fields);
            let s1 = emit_fields(st, name, fields);
            assert(r.ops =~= s1.ops.push(r.ops.last()));
            lemma_var_push(s1.ops, r.ops.last());
        },
        EventV::CompositeKind { kind, declared_type } => {
            match crate::conversion::composite_tag(kind) {
                Some(tag) => lemma_v_tagged(st, tag + ":"@ + declared_type),
                None => {},
            }
        },
        _ => {
            assert(r.ops =~= st.ops.push(r.ops.last()));
            lemma_var_push(st.ops, r.ops.last());
        },
    }
}

proof fn lemma_v_events(st: TracerV, src: Seq<char>, evs: Seq<EventV>)
    ensures
        vars_held(convert_events(st, src, evs)) == vars_held(st) + staged_all(evs),
    decreases evs.len(),
{
    if evs.len() > 0 {
        lemma_v_events(st, src, evs.drop_last());
        lemma_v_event(convert_events(st, src, evs.drop_last()), src, evs.last());
    }
}

/// No variable is lost or doubled: a trace hands the writer exactly one
/// variable per variable the helper's events stage (each variable event,
/// call argument, resource lifecycle event and emitted field), whether it
/// went to its step at once, waited for the next step, or was handed over
/// when the run ended.
pub proof fn law_variables_kept(src: Seq<char>, sources: Seq<(Seq<char>, Seq<u32>)>, evs: Seq<EventV>)
    ensures
        var_ops(trace_ops(src, sources, evs)) == staged_all(evs),
{
    let e = TracerV {
        ops: seq![],
        types: seq![],
        lengths_paths: seq![],
        axis_paths: seq![],
        step_open: false,
        deferred: seq![],
        sources,
    };
    let s0 = TracerV {
        ops: seq![
            OpV::EnableColumnAwareSteps,
            OpV::EnableColumnBreakpoints,
            OpV::EnableColumnMotions,
        ],
        ..e
    };
    assert(var_ops(s0.ops) == 0) by {
        lemma_var_push(e.ops, OpV::EnableColumnAwareSteps);
        let a1 = e.ops.push(OpV::EnableColumnAwareSteps);
        lemma_var_push(a1, OpV::EnableColumnBreakpoints);
        let a2 = a1.push(OpV::EnableColumnBreakpoints);
        lemma_var_push(a2, OpV::EnableColumnMotions);
        assert(a2.push(OpV::EnableColumnMotions) =~= s0.ops);
    }
    lemma_v_ensure_path(s0, src);
    let s1 = ensure_path(s0, src);
    let st = OpV::Start { path: src, line: 1 };
    lemma_var_push(s1.ops, st);
    let s2 = push_op(s1, st);
    lemma_v_apply_reqs(s2, initial_types());
    let i = initial_state(src, sources);
    lemma_v_events(i, src, evs);
    let cv = convert_events(i, src, evs);
    lemma_v_write_vars(TracerV { deferred: seq![], ..cv }, cv.deferred);
}

/// The variables `ops` hands to the writer, with their values, in order.
pub open spec fn var_seq(ops: Seq<OpV>) -> Seq<(Seq<char>, ValueV)>
    decreases ops.len(),
{
    if ops.len() == 0 {
        seq![]
    } else {
        let r = var_seq(ops.drop_last());
        match ops.last() {
            OpV::Variable { name, value } => r.push((name, value)),
            OpV::VariableEncoded { name, value } => r.push((name, value)),
            _ => r,
        }
    }
}

/// The call arguments as the variables they stage, in order.
pub open spec fn arg_vars(args: Seq<ArgV>) -> Seq<(Seq<char>, ValueV)>
    decreases args.len(),
{
    if args.len() == 0 {
        seq![]
    } else {
        arg_vars(args.drop_last()).push(
            (args.last().name, decode(args.last().value, args.last().cadence_type).0),
        )
    }
}

/// The fields of the emitted event `name` as the variables they stage.
pub open spec fn emit_vars(name: Seq<char>, fs: Seq<ArgV>) -> Seq<(Seq<char>, ValueV)>
    decreases fs.len(),
{
    if fs.len() == 0 {
        seq![]
    } else {
        emit_vars(name, fs.drop_last()).push(
            ("emit:"@ + name + "."@ + fs.last().name, decode(fs.last().value, fs.last().cadence_type).0),
        )
    }
}

/// The local of a resource lifecycle event.
pub open spec fn resource_var(rt: Seq<char>, uuid: u64, text: Seq<char>) -> (Seq<char>, ValueV) {
    (
        "@resource:"@ + crate::conversion::resource_id(rt, uuid),
        ValueV::String { text, ty: "@Resource:"@ + rt },
    )
}

/// The variables one helper event stages, in order.
pub open spec fn event_vars(e: EventV) -> Seq<(Seq<char>, ValueV)> {
    match e {
        EventV::Variable { name, value, cadence_type } => seq![(name, decode(value, cadence_type).0)],
        EventV::Call { args, .. } => arg_vars(args),
        EventV::ResourceCreate { resource_type, uuid, owner, .. } => seq![
            resource_var(resource_type, uuid, "created(owner="@ + owner + ")"@),
        ],
        EventV::ResourceMove { resource_type, uuid, from_owner, to_owner, .. } => seq![
            resource_var(resource_type, uuid, "moved("@ + from_owner + " -> "@ + to_owner + ")"@),
        ],
        EventV::ResourceDestroy { resource_type, uuid, owner, .. } => seq![
            resource_var(resource_type, uuid, "destroyed(owner="@ + owner + ")"@),
        ],
        EventV::Emit { name, fields } => emit_vars(name, fields),
        _ => seq![],
    }
}

/// The variables the events `evs` stage, in order.
pub open spec fn staged_vars(evs: Seq<EventV>) -> Seq<(Seq<char>, ValueV)>
    decreases evs.len(),
{
    if evs.len() == 0 {
        seq![]
    } else {
        staged_vars(evs.drop_last()) + event_vars(evs.last())
    }
}

/// Variables written so far, then those still staged, in order.
pub open spec fn held_seq(st: TracerV) -> Seq<(Seq<char>, ValueV)> {
    var_seq(st.ops) + st.deferred
}

/// Nothing is staged while a step is open.
pub open spec fn tidy(st: TracerV) -> bool {
    st.step_open ==> st.deferred.len() == 0
}

proof fn lemma_vs_push(a: Seq<OpV>, op: OpV)
    ensures
        var_seq(a.push(op)) == match op {
            OpV::Variable { name, value } => var_seq(a).push((name, value)),
            OpV::VariableEncoded { name, value } => var_seq(a).push((name, value)),
            _ => var_seq(a),
        },
{
    assert(a.push(op).drop_last() =~= a);
}

proof fn lemma_o_apply_reqs(st: TracerV, rs: Seq<TypeReq>)
    ensures
        var_seq(apply_reqs(st, rs).ops) == var_seq(st.ops),
        apply_reqs(st, rs).step_open == st.step_open,
        apply_reqs(st, rs).deferred == st.deferred,
    decreases rs.len(),
{
    lemma_q_apply_reqs(st, rs);
    if rs.len() > 0 {
        lemma_o_apply_reqs(st, rs.drop_last());
        let a = apply_reqs(st, rs.drop_last());
        if !a.types.contains(rs.last().1) {
            lemma_vs_push(a.ops, OpV::EnsureType { kind: rs.last().0, name: rs.last().1 });
        }
    }
}

proof fn lemma_o_write_vars(st: TracerV, vars: Seq<(Seq<char>, ValueV)>)
    ensures
        var_seq(write_vars(st, vars).ops) == var_seq(st.ops) + vars,
        write_vars(st, vars).deferred == st.deferred,
        write_vars(st, vars).step_open == st.step_open,
    decreases vars.len(),
{
    if vars.len() > 0 {
        lemma_o_write_vars(st, vars.drop_last());
        lemma_vs_push(write_vars(st, vars.drop_last()).ops, write_op(vars.last().0, vars.last().1));
        assert(var_seq(st.ops) + vars =~= (var_seq(st.ops) + vars.drop_last()).push(vars.last()));
    } else {
        assert(var_seq(st.ops) + vars =~= var_seq(st.ops));
    }
}

proof fn lemma_o_typed_var(st: TracerV, name: Seq<char>, v: ValueV)
    requires
        tidy(st),
    ensures
        held_seq(typed_var(st, name, v)) == held_seq(st).push((name, v)),
        tidy(typed_var(st, name, v)),
        typed_var(st, name, v).step_open == st.step_open,
{
    if st.step_open {
        lemma_vs_push(st.ops, write_op(name, v));
        assert(st.deferred =~= Seq::<(Seq<char>, ValueV)>::empty());
        assert(held_seq(typed_var(st, name, v)) =~= held_seq(st).push((name, v)));
    } else {
        assert(held_seq(typed_var(st, name, v)) =~= held_seq(st).push((name, v)));
    }
}

proof fn lemma_o_open_step(st: TracerV, p: Seq<char>, line: u32, col: Option<u32>)
    ensures
        held_seq(open_step(st, p, line, col)) == held_seq(st),
        tidy(open_step(st, p, line, col)),
{
    let op = OpV::Step { path: p, line: line as i64, column: step_column(st, p, col) };
    lemma_vs_push(st.ops, op);
    let s1 = push_op(st, op);
    let s2 = TracerV { step_open: true, deferred: seq![], ..s1 };
    lemma_o_write_vars(s2, st.deferred);
    assert(held_seq(open_step(st, p, line, col)) =~= held_seq(st));
}

proof fn lemma_o_plain(st: TracerV, op: OpV)
    requires
        !(op is Variable),
        !(op is VariableEncoded),
    ensures
        held_seq(push_op(st, op)) == held_seq(st),
{
    lemma_vs_push(st.ops, op);
}

proof fn lemma_o_ensure_path(st: TracerV, p: Seq<char>)
    ensures
        held_seq(ensure_path(st, p)) == held_seq(st),
        ensure_path(st, p).step_open == st.step_open,
        ensure_path(st, p).deferred == st.deferred,
{
    if !crate::conversion::path_in(st.lengths_paths, p) {
        let r = ensure_path(st, p);
        assert(r.ops =~= st.ops.push(r.ops.last()));
        lemma_vs_push(st.ops, r.ops.last());
    }
}

proof fn lemma_o_tagged(st: TracerV, t: Seq<char>)
    ensures
        held_seq(tagged(st, t)) == held_seq(st),
{
    lemma_o_plain(st, tagged(st, t).ops.last());
    assert(tagged(st, t).ops =~= st.ops.push(tagged(st, t).ops.last()));
}

proof fn lemma_o_call_args(st: TracerV, args: Seq<ArgV>)
    requires
        tidy(st),
    ensures
        held_seq(call_args(st, args).0) == held_seq(st) + arg_vars(args),
        tidy(call_args(st, args).0),
        call_args(st, args).0.step_open == st.step_open,
    decreases args.len(),
{
    if args.len() > 0 {
        lemma_o_call_args(st, args.drop_last());
        let s0 = call_args(st, args.drop_last()).0;
        let a = args.last();
        let (v, rs) = decode(a.value, a.cadence_type);
        lemma_o_apply_reqs(s0, rs);
        let s1 = apply_reqs(s0, rs);
        lemma_o_typed_var(s1, a.name, v);
        let s2 = typed_var(s1, a.name, v);
        lemma_o_plain(s2, OpV::CallArg { name: a.name, value: v });
        assert(held_seq(st) + arg_vars(args) =~= (held_seq(st) + arg_vars(args.drop_last())).push((a.name, v)));
    } else {
        assert(held_seq(st) + arg_vars(args) =~= held_seq(st));
    }
}

proof fn lemma_o_emit_fields(st: TracerV, name: Seq<char>, fs: Seq<ArgV>)
    requires
        tidy(st),
    ensures
        held_seq(emit_fields(st, name, fs)) == held_seq(st) + emit_vars(name, fs),
        tidy(emit_fields(st, name, fs)),
    decreases fs.len(),
{
    if fs.len() > 0 {
        lemma_o_emit_fields(st, name, fs.drop_last());
        let s0 = emit_fields(st, name, fs.drop_last());
        let f = fs.last();
        let (v, rs) = decode(f.value, f.cadence_type);
        lemma_o_apply_reqs(s0, rs);
        lemma_o_typed_var(apply_reqs(s0, rs), "emit:"@ + name + "."@ + f.name, v);
        assert(held_seq(st) + emit_vars(name, fs) =~= (held_seq(st) + emit_vars(name, fs.drop_last())).push(
            ("emit:"@ + name + "."@ + f.name, v),
        ));
    } else {
        assert(held_seq(st) + emit_vars(name, fs) =~= held_seq(st));
    }
}

proof fn lemma_o_call(
    st: TracerV,
    src: Seq<char>,
    name: Seq<char>,
    args: Seq<ArgV>,
    access: Option<Seq<char>>,
    script: bool,
)
    requires
        tidy(st),
    ensures
        held_seq(convert_call(st, src, name, args, access, script)) == held_seq(st) + arg_vars(args),
        tidy(convert_call(st, src, name, args, access, script)),
{
    let f = OpV::EnsureFunction { name, path: src, line: 1 };
    lemma_o_plain(st, f);
    let s1 = push_op(st, f);
    lemma_o_call_args(s1, args);
    let (s2, vs) = call_args(s1, args);
    let cop = OpV::Call { function: name, args: vs };
    lemma_o_plain(s2, cop);
    let s3 = TracerV { step_open: false, ..push_op(s2, cop) };
    let s4 = match access {
        Some(a) => match crate::conversion::access_tag(a) {
            Some(tag) => tagged(s3, "CadenceAccess:"@ + name + ":"@ + tag),
            None => s3,
        },
        None => s3,
    };
    match access {
        Some(a) => match crate::conversion::access_tag(a) {
            Some(tag) => lemma_o_tagged(s3, "CadenceAccess:"@ + name + ":"@ + tag),
            None => {},
        },
        None => {},
    }
    if script {
        lemma_o_tagged(s4, "CadenceScriptEntry:"@ + name);
    }
}

proof fn lemma_o_return(st: TracerV, value: Option<Seq<char>>, cadence_type: Option<Seq<char>>)
    ensures
        held_seq(convert_return(st, value, cadence_type)) == held_seq(st),
        tidy(convert_return(st, value, cadence_type)),
{
    match value {
        Some(v) => if v.len() == 0 || v == "nil"@ || v == "Void"@ {
            lemma_o_plain(st, OpV::ReturnNone);
        } else {
            let (rv, rs) = decode(v, cadence_type);
            lemma_o_apply_reqs(st, rs);
            let s0 = apply_reqs(st, rs);
            if crate::tracer::is_encoded(rv) {
                lemma_o_plain(s0, OpV::ReturnEncoded { value: rv });
            } else {
                lemma_o_plain(s0, OpV::Return { value: rv });
            }
        },
        None => lemma_o_plain(st, OpV::ReturnNone),
    }
}

proof fn lemma_o_resource(
    st: TracerV,
    src: Seq<char>,
    rt: Seq<char>,
    uuid: u64,
    line: u32,
    col: Option<u32>,
    text: Seq<char>,
    tag: Seq<char>,
    content: Seq<char>,
    init_fn: bool,
)
    ensures
        held_seq(resource_lifecycle(st, src, rt, uuid, line, col, text, tag, content, init_fn))
            == held_seq(st).push(resource_var(rt, uuid, text)),
        tidy(resource_lifecycle(st, src, rt, uuid, line, col, text, tag, content, init_fn)),
{
    lemma_o_open_step(st, src, line, col);
    let s1 = open_step(st, src, line, col);
    let f = OpV::EnsureFunction { name: rt + ".init"@, path: src, line: line as i64 };
    let s2 = if init_fn {
        push_op(s1, f)
    } else {
        s1
    };
    if init_fn {
        lemma_o_plain(s1, f);
    }
    let key = "@Resource:"@ + rt;
    lemma_o_apply_reqs(s2, seq![(crate::value::TypeKind::Int, key)]);
    let s3 = apply_reqs(s2, seq![(crate::value::TypeKind::Int, key)]);
    let id = crate::conversion::resource_id(rt, uuid);
    lemma_o_typed_var(s3, "@resource:"@ + id, ValueV::String { text, ty: key });
    let s4 = typed_var(s3, "@resource:"@ + id, ValueV::String { text, ty: key });
    let r = resource_lifecycle(st, src, rt, uuid, line, col, text, tag, content, init_fn);
    assert(r.ops =~= s4.ops.push(r.ops.last()));
    lemma_o_plain(s4, r.ops.last());
}

proof fn lemma_o_event(st: TracerV, src: Seq<char>, e: EventV)
    requires
        tidy(st),
    ensures
        held_seq(convert_event(st, src, e)) == held_seq(st) + event_vars(e),
        tidy(convert_event(st, src, e)),
{
    let r = convert_event(st, src, e);
    match e {
        EventV::Step { file, line, column } => {
            let p = crate::paths::step_path(src, file);
            lemma_o_ensure_path(st, p);
            lemma_o_open_step(ensure_path(st, p), p, line, column);
        },
        EventV::Variable { name, value, cadence_type } => {
            let (v, rs) = decode(value, cadence_type);
            lemma_o_apply_reqs(st, rs);
            lemma_o_typed_var(apply_reqs(st, rs), name, v);
        },
        EventV::Call { name, args, access, script } => {
            lemma_o_call(st, src, name, args, access, script);
        },
        EventV::Return { value, cadence_type } => {
            lemma_o_return(st, value, cadence_type);
        },
        EventV::ResourceCreate { resource_type, uuid, owner, file, line, column } => {
            lemma_o_resource(
                st,
                src,
                resource_type,
                uuid,
                line,
                column,
                "created(owner="@ + owner + ")"@,
                "CadenceResourceCreate:"@,
                "owner="@ + owner,
                true,
            );
        },
        EventV::ResourceMove { resource_type, uuid, from_owner, to_owner, file, line, column } => {
            lemma_o_resource(
                st,
                src,
                resource_type,
                uuid,
                line,
                column,
                "moved("@ + from_owner + " -> "@ + to_owner + ")"@,
                "CadenceResourceMove:"@,
                "from="@ + from_owner + " to="@ + to_owner,
                false,
            );
        },
        EventV::ResourceDestroy { resource_type, uuid, owner, file, line, column } => {
            lemma_o_resource(
                st,
                src,
                resource_type,
                uuid,
                line,
                column,
                "destroyed(owner="@ + owner + ")"@,
                "CadenceResourceDestroy:"@,
                "owner="@ + owner,
                false,
            );
        },
        EventV::ResourceOwnerChange {
            resource_type,
            uuid,
            from_owner,
            to_owner,
            file,
            line,
            column,
        } => {
            lemma_o_open_step(st, src, line, column);
            let s1 = open_step(st, src, line, column);
            assert(r.ops =~= s1.ops.push(r.ops.last()));
            lemma_o_plain(s1, r.ops.last());
        },
        EventV::Emit { name, fields } => {
            lemma_o_emit_fields(st, name, fields);
            let s1 = emit_fields(st, name, fields);
            assert(r.ops =~= s1.ops.push(r.ops.last()));
            lemma_o_plain(s1, r.ops.last());
        },
        EventV::CompositeKind { kind, declared_type } => {
            match crate::conversion::composite_tag(kind) {
                Some(tag) => lemma_o_tagged(st, tag + ":"@ + declared_type),
                None => {},
            }
        },
        _ => {
            assert(r.ops =~= st.ops.push(r.ops.last()));
            lemma_o_plain(st, r.ops.last());
        },
    }
    assert(held_seq(st) + event_vars(e) =~= held_seq(r));
}

proof fn lemma_o_events(st: TracerV, src: Seq<char>, evs: Seq<EventV>)
    requires
        tidy(st),
    ensures
        held_seq(convert_events(st, src, evs)) == held_seq(st) + staged_vars(evs),
        tidy(convert_events(st, src, evs)),
    decreases evs.len(),
{
    if evs.len() > 0 {
        lemma_o_events(st, src, evs.drop_last());
        lemma_o_event(convert_events(st, src, evs.drop_last()), src, evs.last());
        assert(held_seq(st) + staged_vars(evs) =~= held_seq(st) + staged_vars(evs.drop_last()) + event_vars(evs.last()));
    } else {
        assert(held_seq(st) + staged_vars(evs) =~= held_seq(st));
    }
}

/// Every staged variable reaches the writer exactly once and in staging
/// order: the variables a trace hands over, with their values, are the
/// variables the helper's events stage (each variable event, call argument,
/// resource lifecycle local and emitted field), in the order staged, whether
/// each went to its step at once, waited for the next step, or was handed
/// over when the run ended.
pub proof fn law_variables_in_order(src: Seq<char>, sources: Seq<(Seq<char>, Seq<u32>)>, evs: Seq<EventV>)
    ensures
        var_seq(trace_ops(src, sources, evs)) == staged_vars(evs),
{
    let e = TracerV {
        ops: seq![],
        types: seq![],
        lengths_paths: seq![],
        axis_paths: seq![],
        step_open: false,
        deferred: seq![],
        sources,
    };
    let s0 = TracerV {
        ops: seq![
            OpV::EnableColumnAwareSteps,
            OpV::EnableColumnBreakpoints,
            OpV::EnableColumnMotions,
        ],
        ..e
    };
    lemma_o_plain(e, OpV::EnableColumnAwareSteps);
    let a1 = push_op(e, OpV::EnableColumnAwareSteps);
    lemma_o_plain(a1, OpV::EnableColumnBreakpoints);
    let a2 = push_op(a1, OpV::EnableColumnBreakpoints);
    lemma_o_plain(a2, OpV::EnableColumnMotions);
    assert(push_op(a2, OpV::EnableColumnMotions).ops =~= s0.ops);
    assert(held_seq(e) =~= Seq::<(Seq<char>, ValueV)>::empty());
    lemma_o_ensure_path(s0, src);
    let s1 = ensure_path(s0, src);
    let st = OpV::Start { path: src, line: 1 };
    lemma_o_plain(s1, st);
    let s2 = push_op(s1, st);
    lemma_o_apply_reqs(s2, initial_types());
    let i = initial_state(src, sources);
    lemma_o_events(i, src, evs);
    let cv = convert_events(i, src, evs);
    lemma_o_write_vars(TracerV { deferred: seq![], ..cv }, cv.deferred);
    assert(held_seq(i) =~= Seq::<(Seq<char>, ValueV)>::empty());
    assert(var_seq(trace_ops(src, sources, evs)) =~= held_seq(cv));
    assert(held_seq(i) + staged_vars(evs) =~= staged_vars(evs));
}

} // verus!
