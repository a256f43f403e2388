//! What every run of the recorder keeps: variables go to the writer only
//! while a step is open, a step names a registered path, a column only on a
//! path with a column axis, and no path or type is registered twice.

use vstd::prelude::*;
use crate::ops::{EventKind, OpV};
use crate::paths::path_equiv;
use crate::text::{decimal_digits, trim};
use crate::events::{ArgV, EventV};
use crate::value::{TypeKind, ValueV};
use crate::decode::{decode, TypeReq};
use crate::tracer::{TracerV, apply_req, apply_reqs, push_op};
use crate::typing::{
    all_typed_in, lemma_all_typed_mono, lemma_all_typed_push, lemma_decode_typed,
    lemma_typed_mono, names_within, req_names, typed_in,
};
use crate::conversion::{
    call_args, convert_call, convert_event, convert_events, convert_return, emit_fields,
    ensure_path, flush, initial_state, initial_types, open_step, path_in, resource_lifecycle,
    step_column, tagged, trace_ops, typed_var, write_op, write_vars, lookup_lengths,
};

verus! {

/// A writer operation that hands over a variable.
pub open spec fn is_var_op(op: OpV) -> bool {
    op is Variable || op is VariableEncoded
}

/// A writer operation that flushes the writer's pending step.
pub open spec fn is_closer(op: OpV) -> bool {
    op is Call || op is Return || op is ReturnEncoded || op is ReturnNone
}

/// Whether, after `ops`, the writer holds an open step: a step came, and no
/// call or return since.
pub open spec fn step_is_open(ops: Seq<OpV>) -> bool
    decreases ops.len(),
{
    if ops.len() == 0 {
        false
    } else if ops.last() is Step {
        true
    } else if is_closer(ops.last()) {
        false
    } else {
        step_is_open(ops.drop_last())
    }
}

/// The paths registered by `ops`, in order.
pub open spec fn reg_paths(ops: Seq<OpV>) -> Seq<Seq<char>>
    decreases ops.len(),
{
    if ops.len() == 0 {
        seq![]
    } else {
        match ops.last() {
            OpV::RegisterPath { path, .. } => reg_paths(ops.drop_last()).push(path),
            _ => reg_paths(ops.drop_last()),
        }
    }
}

/// The paths registered by `ops` with a non-empty line table: those with a
/// column axis.
pub open spec fn axis_regs(ops: Seq<OpV>) -> Seq<Seq<char>>
    decreases ops.len(),
{
    if ops.len() == 0 {
        seq![]
    } else {
        match ops.last() {
            OpV::RegisterPath { path, line_lengths } => if line_lengths.len() > 0 {
                axis_regs(ops.drop_last()).push(path)
            } else {
                axis_regs(ops.drop_last())
            },
            _ => axis_regs(ops.drop_last()),
        }
    }
}

/// The type names registered by `ops`, in order.
pub open spec fn type_names(ops: Seq<OpV>) -> Seq<Seq<char>>
    decreases ops.len(),
{
    if ops.len() == 0 {
        seq![]
    } else {
        match ops.last() {
            OpV::EnsureType { name, .. } => type_names(ops.drop_last()).push(name),
            _ => type_names(ops.drop_last()),
        }
    }
}


/// The values an operation hands to the writer.
pub open spec fn op_values(op: OpV) -> Seq<ValueV> {
    match op {
        OpV::Variable { value, .. } => seq![value],
        OpV::VariableEncoded { value, .. } => seq![value],
        OpV::CallArg { value, .. } => seq![value],
        OpV::Call { args, .. } => args,
        OpV::Return { value } => seq![value],
        OpV::ReturnEncoded { value } => seq![value],
        _ => seq![],
    }
}

/// What the operation `op` may rely on, performed after `pre`.
pub open spec fn op_ok(pre: Seq<OpV>, op: OpV) -> bool {
    &&& is_var_op(op) ==> step_is_open(pre)
    &&& all_typed_in(op_values(op), type_names(pre))
    &&& match op {
        OpV::Step { path, column, .. } => {
            &&& path_in(reg_paths(pre), path)
            &&& (column is Some ==> path_in(axis_regs(pre), path))
        },
        OpV::RegisterPath { path, .. } => !path_in(reg_paths(pre), path),
        OpV::EnsureType { name, .. } => !type_names(pre).contains(name),
        _ => true,
    }
}

/// Every operation of `ops` meets [`op_ok`] against the operations before it.
pub open spec fn ops_ok(ops: Seq<OpV>) -> bool {
    forall|k: int| #![trigger ops[k]] 0 <= k < ops.len() ==> op_ok(ops.take(k), ops[k])
}

/// A path registration carries the line table read for that path.
pub open spec fn table_ok(op: OpV, sources: Seq<(Seq<char>, Seq<u32>)>) -> bool {
    match op {
        OpV::RegisterPath { path, line_lengths } => line_lengths == lookup_lengths(sources, path),
        _ => true,
    }
}

/// The recorder's state agrees with the operations it performed.
pub open spec fn inv(st: TracerV) -> bool {
    &&& ops_ok(st.ops)
    &&& st.lengths_paths == reg_paths(st.ops)
    &&& st.axis_paths == axis_regs(st.ops)
    &&& st.types == type_names(st.ops)
    &&& st.step_open ==> step_is_open(st.ops)
    &&& st.step_open ==> st.deferred.len() == 0
    &&& forall|i: int| 0 <= i < st.deferred.len() ==> typed_in(#[trigger] st.deferred[i].1, st.types)
    &&& forall|k: int| 0 <= k < st.ops.len() ==> table_ok(#[trigger] st.ops[k], st.sources)
}

/// An operation that touches none of the things [`inv`] tracks.
pub open spec fn is_plain(op: OpV) -> bool {
    !(op is Step) && !(op is RegisterPath) && !(op is EnsureType) && !is_closer(op) && !is_var_op(
        op,
    )
}

/// `b` keeps `a`'s registered paths, and perhaps adds more.
pub open spec fn paths_kept(a: TracerV, b: TracerV) -> bool {
    a.lengths_paths.is_prefix_of(b.lengths_paths)
}

/// `b` starts with the operations of `a`.
pub open spec fn grows(a: Seq<OpV>, b: Seq<OpV>) -> bool {
    a.len() <= b.len() && forall|i: int| 0 <= i < a.len() ==> #[trigger] b[i] == a[i]
}

proof fn lemma_ops_ok_push(ops: Seq<OpV>, op: OpV)
    requires
        ops_ok(ops),
        op_ok(ops, op),
    ensures
        ops_ok(ops.push(op)),
{
    let n = ops.push(op);
    assert forall|k: int| #![trigger n[k]] 0 <= k < n.len() implies op_ok(n.take(k), n[k]) by {
        if k < ops.len() {
            assert(n.take(k) =~= ops.take(k));
        } else {
            assert(n.take(k) =~= ops);
        }
    }
}

proof fn lemma_known_prefix(a: Seq<Seq<char>>, b: Seq<Seq<char>>, p: Seq<char>)
    requires
        a.is_prefix_of(b),
        path_in(a, p),
    ensures
        path_in(b, p),
{
    let j = choose|j: int| 0 <= j < a.len() && crate::conversion::same_path_as(a[j], p);
    assert(b[j] == a[j]);
}

proof fn lemma_push_plain(st: TracerV, op: OpV)
    requires
        inv(st),
        is_plain(op),
        all_typed_in(op_values(op), st.types),
    ensures
        inv(push_op(st, op)),
        paths_kept(st, push_op(st, op)),
        grows(st.ops, push_op(st, op).ops),
{
    let n = st.ops.push(op);
    assert(n.drop_last() =~= st.ops);
    lemma_ops_ok_push(st.ops, op);
}

proof fn lemma_push_var(st: TracerV, op: OpV)
    requires
        inv(st),
        st.step_open,
        is_var_op(op),
        all_typed_in(op_values(op), st.types),
    ensures
        inv(push_op(st, op)),
        push_op(st, op).step_open,
        paths_kept(st, push_op(st, op)),
        grows(st.ops, push_op(st, op).ops),
{
    let n = st.ops.push(op);
    assert(n.drop_last() =~= st.ops);
    lemma_ops_ok_push(st.ops, op);
}

proof fn lemma_push_closer(st: TracerV, op: OpV)
    requires
        inv(st),
        is_closer(op),
        all_typed_in(op_values(op), st.types),
    ensures
        inv(TracerV { step_open: false, ..push_op(st, op) }),
        paths_kept(st, push_op(st, op)),
        grows(st.ops, push_op(st, op).ops),
{
    let n = st.ops.push(op);
    assert(n.drop_last() =~= st.ops);
    lemma_ops_ok_push(st.ops, op);
}

proof fn lemma_apply_req(st: TracerV, r: TypeReq)
    requires
        inv(st),
    ensures
        inv(apply_req(st, r)),
        apply_req(st, r).step_open == st.step_open,
        apply_req(st, r).lengths_paths == st.lengths_paths,
        apply_req(st, r).deferred == st.deferred,
        apply_req(st, r).sources == st.sources,
        grows(st.ops, apply_req(st, r).ops),
{
    if !st.types.contains(r.1) {
        let op = OpV::EnsureType { kind: r.0, name: r.1 };
        let n = st.ops.push(op);
        assert(n.drop_last() =~= st.ops);
        lemma_ops_ok_push(st.ops, op);
        let b = apply_req(st, r);
        assert(names_within(st.types, b.types)) by {
            assert forall|x: Seq<char>| st.types.contains(x) implies #[trigger] b.types.contains(x) by {
                let j = choose|j: int| 0 <= j < st.types.len() && st.types[j] == x;
                assert(b.types[j] == x);
            }
        }
        assert forall|i: int| 0 <= i < b.deferred.len() implies typed_in(#[trigger] b.deferred[i].1, b.types) by {
            lemma_typed_mono(b.deferred[i].1, st.types, b.types);
        }
    }
}

proof fn lemma_apply_reqs(st: TracerV, rs: Seq<TypeReq>)
    requires
        inv(st),
    ensures
        inv(apply_reqs(st, rs)),
        apply_reqs(st, rs).step_open == st.step_open,
        apply_reqs(st, rs).lengths_paths == st.lengths_paths,
        apply_reqs(st, rs).deferred == st.deferred,
        apply_reqs(st, rs).sources == st.sources,
        grows(st.ops, apply_reqs(st, rs).ops),
    decreases rs.len(),
{
    if rs.len() > 0 {
        lemma_apply_reqs(st, rs.drop_last());
        lemma_apply_req(apply_reqs(st, rs.drop_last()), rs.last());
    }
}

proof fn lemma_apply_reqs_grows(st: TracerV, rs: Seq<TypeReq>)
    ensures
        grows(st.ops, apply_reqs(st, rs).ops),
    decreases rs.len(),
{
    if rs.len() > 0 {
        lemma_apply_reqs_grows(st, rs.drop_last());
    }
}

proof fn lemma_write_vars(st: TracerV, vars: Seq<(Seq<char>, ValueV)>)
    requires
        inv(st),
        st.step_open,
        forall|i: int| 0 <= i < vars.len() ==> typed_in(#[trigger] vars[i].1, st.types),
    ensures
        inv(write_vars(st, vars)),
        write_vars(st, vars).step_open,
        write_vars(st, vars).lengths_paths == st.lengths_paths,
        write_vars(st, vars).deferred == st.deferred,
        write_vars(st, vars).sources == st.sources,
        write_vars(st, vars).types == st.types,
        grows(st.ops, write_vars(st, vars).ops),
    decreases vars.len(),
{
    if vars.len() > 0 {
        let d = vars.drop_last();
        assert forall|i: int| 0 <= i < d.len() implies typed_in(#[trigger] d[i].1, st.types) by {
            assert(d[i] == vars[i]);
        }
        lemma_write_vars(st, d);
        let s = write_vars(st, d);
        assert(typed_in(vars[vars.len() - 1].1, st.types));
        lemma_single_value(vars.last().1, s.types);
        lemma_push_var(s, write_op(vars.last().0, vars.last().1));
    }
}

proof fn lemma_typed_var(st: TracerV, name: Seq<char>, v: ValueV)
    requires
        inv(st),
        typed_in(v, st.types),
    ensures
        inv(typed_var(st, name, v)),
        typed_var(st, name, v).step_open == st.step_open,
        typed_var(st, name, v).lengths_paths == st.lengths_paths,
        typed_var(st, name, v).sources == st.sources,
        grows(st.ops, typed_var(st, name, v).ops),
{
    if st.step_open {
        lemma_single_value(v, st.types);
        lemma_push_var(st, write_op(name, v));
    } else {
        let r = typed_var(st, name, v);
        assert forall|i: int| 0 <= i < r.deferred.len() implies typed_in(#[trigger] r.deferred[i].1, r.types) by {
            if i < st.deferred.len() {
                assert(r.deferred[i] == st.deferred[i]);
            }
        }
    }
}

proof fn lemma_single_value(v: ValueV, names: Seq<Seq<char>>)
    requires
        typed_in(v, names),
    ensures
        all_typed_in(seq![v], names),
{
    lemma_all_typed_push(Seq::<ValueV>::empty(), v, names);
    assert(Seq::<ValueV>::empty().push(v) =~= seq![v]);
}

/// Registering types keeps every registered name and adds the requested ones.
proof fn lemma_types_grow(st: TracerV, rs: Seq<TypeReq>)
    ensures
        names_within(st.types, apply_reqs(st, rs).types),
        names_within(req_names(rs), apply_reqs(st, rs).types),
{
    lemma_apply_reqs_registers(st, rs);
    let b = apply_reqs(st, rs).types;
    assert forall|x: Seq<char>| st.types.contains(x) implies #[trigger] b.contains(x) by {
        let j = choose|j: int| 0 <= j < st.types.len() && st.types[j] == x;
        assert(b[j] == x);
    }
    assert forall|x: Seq<char>| req_names(rs).contains(x) implies #[trigger] b.contains(x) by {
        let j = choose|j: int| 0 <= j < req_names(rs).len() && req_names(rs)[j] == x;
        assert(rs[j].1 == x);
    }
}

/// After decoding, the value names only registered types, and what was
/// named before still is.
proof fn lemma_decoded_typed(st: TracerV, value: Seq<char>, ty: Option<Seq<char>>)
    ensures
        typed_in(decode(value, ty).0, apply_reqs(st, decode(value, ty).1).types),
        names_within(st.types, apply_reqs(st, decode(value, ty).1).types),
{
    lemma_decode_typed(value, ty);
    lemma_types_grow(st, decode(value, ty).1);
    lemma_typed_mono(decode(value, ty).0, req_names(decode(value, ty).1), apply_reqs(st, decode(value, ty).1).types);
}

proof fn lemma_open_step(st: TracerV, p: Seq<char>, line: u32, col: Option<u32>)
    requires
        inv(st),
        path_in(st.lengths_paths, p),
    ensures
        inv(open_step(st, p, line, col)),
        open_step(st, p, line, col).lengths_paths == st.lengths_paths,
        open_step(st, p, line, col).sources == st.sources,
        grows(st.ops, open_step(st, p, line, col).ops),
{
    let op = OpV::Step { path: p, line: line as i64, column: step_column(st, p, col) };
    let n = st.ops.push(op);
    assert(n.drop_last() =~= st.ops);
    lemma_ops_ok_push(st.ops, op);
    let s1 = push_op(st, op);
    let s2 = TracerV { step_open: true, deferred: seq![], ..s1 };
    assert(inv(s2));
    lemma_write_vars(s2, st.deferred);
}

proof fn lemma_ensure_path(st: TracerV, p: Seq<char>)
    requires
        inv(st),
    ensures
        inv(ensure_path(st, p)),
        path_in(ensure_path(st, p).lengths_paths, p),
        paths_kept(st, ensure_path(st, p)),
        ensure_path(st, p).step_open == st.step_open,
        ensure_path(st, p).deferred == st.deferred,
        ensure_path(st, p).sources == st.sources,
        grows(st.ops, ensure_path(st, p).ops),
{
    if path_in(st.lengths_paths, p) {
    } else {
        let r = ensure_path(st, p);
        let op = r.ops.last();
        assert(r.ops =~= st.ops.push(op));
        assert(r.ops.drop_last() =~= st.ops);
        lemma_ops_ok_push(st.ops, op);
        let l = r.lengths_paths;
        assert(l[l.len() - 1] == p);
    }
}

/// One argument: decode it, stage it, and hand it to the call record.
proof fn lemma_call_arg(s0: TracerV, vs: Seq<ValueV>, a: ArgV)
    requires
        inv(s0),
        all_typed_in(vs, s0.types),
    ensures
        ({
            let (v, rs) = decode(a.value, a.cadence_type);
            let s1 = typed_var(apply_reqs(s0, rs), a.name, v);
            let s2 = push_op(s1, OpV::CallArg { name: a.name, value: v });
            &&& inv(s2)
            &&& s2.step_open == s0.step_open
            &&& s2.lengths_paths == s0.lengths_paths
            &&& s2.sources == s0.sources
            &&& grows(s0.ops, s2.ops)
            &&& all_typed_in(vs.push(v), s2.types)
        }),
{
    let (v, rs) = decode(a.value, a.cadence_type);
    lemma_apply_reqs(s0, rs);
    let s1 = apply_reqs(s0, rs);
    lemma_decoded_typed(s0, a.value, a.cadence_type);
    lemma_typed_var(s1, a.name, v);
    let s2 = typed_var(s1, a.name, v);
    lemma_single_value(v, s2.types);
    lemma_push_plain(s2, OpV::CallArg { name: a.name, value: v });
    lemma_all_typed_mono(vs, s0.types, s1.types);
    lemma_all_typed_push(vs, v, s1.types);
}

proof fn lemma_call_args(st: TracerV, args: Seq<ArgV>)
    requires
        inv(st),
    ensures
        inv(call_args(st, args).0),
        call_args(st, args).0.step_open == st.step_open,
        call_args(st, args).0.lengths_paths == st.lengths_paths,
        call_args(st, args).0.sources == st.sources,
        grows(st.ops, call_args(st, args).0.ops),
        all_typed_in(call_args(st, args).1, call_args(st, args).0.types),
    decreases args.len(),
{
    if args.len() > 0 {
        lemma_call_args(st, args.drop_last());
        let (s0, vs) = call_args(st, args.drop_last());
        lemma_call_arg(s0, vs, args.last());
    }
}

proof fn lemma_emit_fields(st: TracerV, name: Seq<char>, fs: Seq<ArgV>)
    requires
        inv(st),
    ensures
        inv(emit_fields(st, name, fs)),
        emit_fields(st, name, fs).lengths_paths == st.lengths_paths,
        emit_fields(st, name, fs).sources == st.sources,
        grows(st.ops, emit_fields(st, name, fs).ops),
    decreases fs.len(),
{
    if fs.len() > 0 {
        lemma_emit_fields(st, name, fs.drop_last());
        let s0 = emit_fields(st, name, fs.drop_last());
        let f = fs.last();
        let (v, rs) = decode(f.value, f.cadence_type);
        lemma_apply_reqs(s0, rs);
        lemma_decoded_typed(s0, f.value, f.cadence_type);
        lemma_typed_var(apply_reqs(s0, rs), "emit:"@ + name + "."@ + f.name, v);
    }
}

proof fn lemma_tagged(st: TracerV, t: Seq<char>)
    requires
        inv(st),
    ensures
        inv(tagged(st, t)),
        tagged(st, t).lengths_paths == st.lengths_paths,
        tagged(st, t).sources == st.sources,
        grows(st.ops, tagged(st, t).ops),
{
    lemma_push_plain(st, OpV::SpecialEvent { kind: crate::ops::EventKind::TraceLogEvent, metadata: t, content: t });
}

proof fn lemma_convert_call(
    st: TracerV,
    src: Seq<char>,
    name: Seq<char>,
    args: Seq<ArgV>,
    access: Option<Seq<char>>,
    script: bool,
)
    requires
        inv(st),
    ensures
        inv(convert_call(st, src, name, args, access, script)),
        convert_call(st, src, name, args, access, script).lengths_paths == st.lengths_paths,
        convert_call(st, src, name, args, access, script).sources == st.sources,
        grows(st.ops, convert_call(st, src, name, args, access, script).ops),
{
    let s1 = push_op(st, OpV::EnsureFunction { name, path: src, line: 1 });
    lemma_push_plain(st, OpV::EnsureFunction { name, path: src, line: 1 });
    lemma_call_args(s1, args);
    let (s2, vs) = call_args(s1, args);
    lemma_push_closer(s2, OpV::Call { function: name, args: vs });
    let s3 = TracerV { step_open: false, ..push_op(s2, OpV::Call { function: name, args: vs }) };
    let s4 = match access {
        Some(a) => match crate::conversion::access_tag(a) {
            Some(tag) => tagged(s3, "CadenceAccess:"@ + name + ":"@ + tag),
            None => s3,
        },
        None => s3,
    };
    match access {
        Some(a) => match crate::conversion::access_tag(a) {
            Some(tag) => lemma_tagged(s3, "CadenceAccess:"@ + name + ":"@ + tag),
            None => {},
        },
        None => {},
    }
    if script {
        lemma_tagged(s4, "CadenceScriptEntry:"@ + name);
    }
}

proof fn lemma_convert_return(st: TracerV, value: Option<Seq<char>>, cadence_type: Option<Seq<char>>)
    requires
        inv(st),
    ensures
        inv(convert_return(st, value, cadence_type)),
        convert_return(st, value, cadence_type).lengths_paths == st.lengths_paths,
        convert_return(st, value, cadence_type).sources == st.sources,
        grows(st.ops, convert_return(st, value, cadence_type).ops),
{
    match value {
        Some(v) => if v.len() == 0 || v == "nil"@ || v == "Void"@ {
            lemma_push_closer(st, OpV::ReturnNone);
        } else {
            let (rv, rs) = decode(v, cadence_type);
            lemma_apply_reqs(st, rs);
            let s0 = apply_reqs(st, rs);
            lemma_decoded_typed(st, v, cadence_type);
            lemma_single_value(rv, s0.types);
            if crate::tracer::is_encoded(rv) {
                lemma_push_closer(s0, OpV::ReturnEncoded { value: rv });
            } else {
                lemma_push_closer(s0, OpV::Return { value: rv });
            }
        },
        None => lemma_push_closer(st, OpV::ReturnNone),
    }
}

proof fn lemma_resource_lifecycle(
    st: TracerV,
    src: Seq<char>,
    rt: Seq<char>,
    uuid: u64,
    line: u32,
    col: Option<u32>,
    text: Seq<char>,
    tag: Seq<char>,
    content: Seq<char>,
    init_fn: bool,
)
    requires
        inv(st),
        path_in(st.lengths_paths, src),
    ensures
        inv(resource_lifecycle(st, src, rt, uuid, line, col, text, tag, content, init_fn)),
        resource_lifecycle(st, src, rt, uuid, line, col, text, tag, content, init_fn).lengths_paths
            == st.lengths_paths,
        resource_lifecycle(st, src, rt, uuid, line, col, text, tag, content, init_fn).sources
            == st.sources,
        grows(st.ops, resource_lifecycle(st, src, rt, uuid, line, col, text, tag, content, init_fn).ops),
{
    lemma_open_step(st, src, line, col);
    let s1 = open_step(st, src, line, col);
    let f = OpV::EnsureFunction { name: rt + ".init"@, path: src, line: line as i64 };
    let s2 = if init_fn {
        push_op(s1, f)
    } else {
        s1
    };
    if init_fn {
        lemma_push_plain(s1, f);
    }
    let key = "@Resource:"@ + rt;
    lemma_apply_reqs(s2, seq![(crate::value::TypeKind::Int, key)]);
    let s3 = apply_reqs(s2, seq![(crate::value::TypeKind::Int, key)]);
    lemma_types_grow(s2, seq![(crate::value::TypeKind::Int, key)]);
    assert(req_names(seq![(crate::value::TypeKind::Int, key)])[0] == key);
    assert(s3.types.contains(key));
    let id = crate::conversion::resource_id(rt, uuid);
    lemma_typed_var(s3, "@resource:"@ + id, ValueV::String { text, ty: key });
    let s4 = typed_var(s3, "@resource:"@ + id, ValueV::String { text, ty: key });
    lemma_push_plain(
        s4,
        OpV::SpecialEvent {
            kind: crate::ops::EventKind::TraceLogEvent,
            metadata: tag + id,
            content,
        },
    );
}

/// One event keeps the invariant, and keeps the entry path registered.
proof fn lemma_convert_event(st: TracerV, src: Seq<char>, e: EventV)
    requires
        inv(st),
        path_in(st.lengths_paths, src),
    ensures
        inv(convert_event(st, src, e)),
        path_in(convert_event(st, src, e).lengths_paths, src),
        grows(st.ops, convert_event(st, src, e).ops),
        convert_event(st, src, e).sources == st.sources,
{
    let r = convert_event(st, src, e);
    match e {
        EventV::Step { file, line, column } => {
            let p = crate::paths::step_path(src, file);
            lemma_ensure_path(st, p);
            let s1 = ensure_path(st, p);
            lemma_open_step(s1, p, line, column);
            lemma_known_prefix(st.lengths_paths, s1.lengths_paths, src);
        },
        EventV::Variable { name, value, cadence_type } => {
            let (v, rs) = decode(value, cadence_type);
            lemma_apply_reqs(st, rs);
            lemma_decoded_typed(st, value, cadence_type);
            lemma_typed_var(apply_reqs(st, rs), name, v);
        },
        EventV::Call { name, args, access, script } => {
            lemma_convert_call(st, src, name, args, access, script);
        },
        EventV::Return { value, cadence_type } => {
            lemma_convert_return(st, value, cadence_type);
        },
        EventV::Error { message, error_kind } => {
            lemma_push_plain(
                st,
                OpV::SpecialEvent {
                    kind: crate::conversion::error_route(error_kind).0,
                    metadata: crate::conversion::error_route(error_kind).1,
                    content: message,
                },
            );
        },
        EventV::Event { name, payload } => {
            lemma_push_plain(
                st,
                OpV::SpecialEvent {
                    kind: crate::ops::EventKind::EvmEvent,
                    metadata: "CadenceEvent:"@ + name,
                    content: payload,
                },
            );
        },
        EventV::ResourceCreate { resource_type, uuid, owner, file, line, column } => {
            lemma_resource_lifecycle(
                st,
                src,
                resource_type,
                uuid,
                line,
                column,
                "created(owner="@ + owner + ")"@,
                "CadenceResourceCreate:"@,
                "owner="@ + owner,
                true,
            );
        },
        EventV::ResourceMove { resource_type, uuid, from_owner, to_owner, file, line, column } => {
            lemma_resource_lifecycle(
                st,
                src,
                resource_type,
                uuid,
                line,
                column,
                "moved("@ + from_owner + " -> "@ + to_owner + ")"@,
                "CadenceResourceMove:"@,
                "from="@ + from_owner + " to="@ + to_owner,
                false,
            );
        },
        EventV::ResourceDestroy { resource_type, uuid, owner, file, line, column } => {
            lemma_resource_lifecycle(
                st,
                src,
                resource_type,
                uuid,
                line,
                column,
                "destroyed(owner="@ + owner + ")"@,
                "CadenceResourceDestroy:"@,
                "owner="@ + owner,
                false,
            );
        },
        EventV::ResourceOwnerChange {
            resource_type,
            uuid,
            from_owner,
            to_owner,
            file,
            line,
            column,
        } => {
            lemma_open_step(st, src, line, column);
            let s1 = open_step(st, src, line, column);
            let id = "ResourceOwnerChange:"@ + crate::conversion::resource_id(resource_type, uuid);
            lemma_push_plain(
                s1,
                OpV::SpecialEvent {
                    kind: crate::ops::EventKind::TraceLogEvent,
                    metadata: id,
                    content: id + ": "@ + from_owner + " -> "@ + to_owner,
                },
            );
        },
        EventV::ForceNilUnwrap { context } => {
            lemma_tagged(st, "ForceNilUnwrap:"@ + context);
        },
        EventV::Emit { name, fields } => {
            let payload = "CadenceEmit:"@ + name + "("@ + crate::conversion::emit_fields_text(fields) + ")"@;
            lemma_emit_fields(st, name, fields);
            lemma_push_plain(
                emit_fields(st, name, fields),
                OpV::SpecialEvent {
                    kind: crate::ops::EventKind::EvmEvent,
                    metadata: "CadenceEmit:"@ + name,
                    content: payload,
                },
            );
        },
        EventV::CompositeKind { kind, declared_type } => {
            match crate::conversion::composite_tag(kind) {
                Some(tag) => lemma_tagged(st, tag + ":"@ + declared_type),
                None => {},
            }
        },
        EventV::AnyTypeBind { static_type, runtime_type, varname } => {
            lemma_tagged(st, "CadenceAnyType:"@ + static_type + ":"@ + runtime_type + ":"@ + varname);
        },
        EventV::TypeAlias { alias_name, underlying_type } => {
            lemma_tagged(st, "CadenceTypeAlias:"@ + alias_name + ":"@ + underlying_type);
        },
        EventV::AttachmentAttach { attachment_type, target_type } => {
            lemma_tagged(st, "CadenceAttachmentAttach:"@ + attachment_type + ":"@ + target_type);
        },
        EventV::AttachmentRemove { attachment_type, target_type } => {
            lemma_tagged(st, "CadenceAttachmentRemove:"@ + attachment_type + ":"@ + target_type);
        },
    }
}

proof fn lemma_convert_events(st: TracerV, src: Seq<char>, evs: Seq<EventV>)
    requires
        inv(st),
        path_in(st.lengths_paths, src),
    ensures
        inv(convert_events(st, src, evs)),
        path_in(convert_events(st, src, evs).lengths_paths, src),
        grows(st.ops, convert_events(st, src, evs).ops),
        convert_events(st, src, evs).sources == st.sources,
    decreases evs.len(),
{
    if evs.len() > 0 {
        lemma_convert_events(st, src, evs.drop_last());
        lemma_convert_event(convert_events(st, src, evs.drop_last()), src, evs.last());
    }
}

proof fn lemma_initial_state(src: Seq<char>, sources: Seq<(Seq<char>, Seq<u32>)>)
    ensures
        inv(initial_state(src, sources)),
        path_in(initial_state(src, sources).lengths_paths, src),
        initial_state(src, sources).sources == sources,
{
    let s0 = TracerV {
        ops: seq![
            OpV::EnableColumnAwareSteps,
            OpV::EnableColumnBreakpoints,
            OpV::EnableColumnMotions,
        ],
        types: seq![],
        lengths_paths: seq![],
        axis_paths: seq![],
        step_open: false,
        deferred: seq![],
        sources,
    };
    let e = TracerV { ops: seq![], ..s0 };
    lemma_push_plain(e, OpV::EnableColumnAwareSteps);
    let e1 = push_op(e, OpV::EnableColumnAwareSteps);
    lemma_push_plain(e1, OpV::EnableColumnBreakpoints);
    let e2 = push_op(e1, OpV::EnableColumnBreakpoints);
    lemma_push_plain(e2, OpV::EnableColumnMotions);
    let e3 = push_op(e2, OpV::EnableColumnMotions);
    assert(e3.ops =~= s0.ops);
    assert(e3 == s0);
    lemma_ensure_path(s0, src);
    let s1 = ensure_path(s0, src);
    lemma_push_plain(s1, OpV::Start { path: src, line: 1 });
    let s2 = push_op(s1, OpV::Start { path: src, line: 1 });
    lemma_apply_reqs(s2, initial_types());
}

proof fn lemma_write_vars_tail(st: TracerV, vars: Seq<(Seq<char>, ValueV)>)
    ensures
        grows(st.ops, write_vars(st, vars).ops),
        forall|k: int|
            st.ops.len() <= k < write_vars(st, vars).ops.len() ==> is_var_op(
                #[trigger] write_vars(st, vars).ops[k],
            ),
    decreases vars.len(),
{
    if vars.len() > 0 {
        lemma_write_vars_tail(st, vars.drop_last());
    }
}

/// The conversion of a run meets [`inv`], and the final flush only adds
/// variables after it.
proof fn lemma_run(src: Seq<char>, sources: Seq<(Seq<char>, Seq<u32>)>, evs: Seq<EventV>)
    ensures
        inv(convert_events(initial_state(src, sources), src, evs)),
        convert_events(initial_state(src, sources), src, evs).sources == sources,
        grows(initial_state(src, sources).ops, convert_events(initial_state(src, sources), src, evs).ops),
        grows(convert_events(initial_state(src, sources), src, evs).ops, trace_ops(src, sources, evs)),
        forall|k: int|
            convert_events(initial_state(src, sources), src, evs).ops.len() <= k < trace_ops(src, sources, evs).len()
                ==> is_var_op(#[trigger] trace_ops(src, sources, evs)[k]),
{
    lemma_initial_state(src, sources);
    lemma_convert_events(initial_state(src, sources), src, evs);
    let c = convert_events(initial_state(src, sources), src, evs);
    lemma_write_vars_tail(TracerV { deferred: seq![], ..c }, c.deferred);
}

/// Every variable the recorder hands to the writer while the run's events
/// are converted goes to an open step: a step came before it, with no call
/// or return since. Only the variables still staged when the events run out
/// are handed over after that, at the very end, and none is staged when the
/// run ends with a step open.
pub proof fn law_variables_attach_to_steps(
    src: Seq<char>,
    sources: Seq<(Seq<char>, Seq<u32>)>,
    evs: Seq<EventV>,
)
    ensures
        forall|k: int|
            0 <= k < convert_events(initial_state(src, sources), src, evs).ops.len() && is_var_op(
                #[trigger] trace_ops(src, sources, evs)[k],
            ) ==> step_is_open(trace_ops(src, sources, evs).take(k)),
        forall|k: int|
            convert_events(initial_state(src, sources), src, evs).ops.len() <= k < trace_ops(
                src,
                sources,
                evs,
            ).len() ==> is_var_op(#[trigger] trace_ops(src, sources, evs)[k]),
        convert_events(initial_state(src, sources), src, evs).step_open ==> trace_ops(src, sources, evs)
            == convert_events(initial_state(src, sources), src, evs).ops,
{
    lemma_run(src, sources, evs);
    let c = convert_events(initial_state(src, sources), src, evs);
    let ops = trace_ops(src, sources, evs);
    assert forall|k: int|
        0 <= k < c.ops.len() && is_var_op(#[trigger] ops[k]) implies step_is_open(ops.take(k)) by {
        assert(ops.take(k) =~= c.ops.take(k));
        assert(op_ok(c.ops.take(k), c.ops[k]));
    }
    if c.step_open {
        assert(c.deferred =~= Seq::<(Seq<char>, ValueV)>::empty());
        assert(TracerV { deferred: seq![], ..c } == c);
    }
}

proof fn lemma_trace_op_ok(
    src: Seq<char>,
    sources: Seq<(Seq<char>, Seq<u32>)>,
    evs: Seq<EventV>,
    k: int,
)
    requires
        0 <= k < trace_ops(src, sources, evs).len(),
        !is_var_op(trace_ops(src, sources, evs)[k]),
    ensures
        op_ok(trace_ops(src, sources, evs).take(k), trace_ops(src, sources, evs)[k]),
{
    lemma_run(src, sources, evs);
    let c = convert_events(initial_state(src, sources), src, evs);
    let ops = trace_ops(src, sources, evs);
    assert(k < c.ops.len());
    assert(ops.take(k) =~= c.ops.take(k));
    assert(op_ok(c.ops.take(k), c.ops[k]));
}

/// Every step of a trace names a path registered before it (as written, or
/// an equal path), and carries a column only when a path equal to its own
/// was registered with a non-empty line table: a column elsewhere would
/// read back as a later line.
pub proof fn law_steps_on_registered_paths(
    src: Seq<char>,
    sources: Seq<(Seq<char>, Seq<u32>)>,
    evs: Seq<EventV>,
)
    ensures
        forall|k: int|
            #![trigger trace_ops(src, sources, evs)[k]]
            0 <= k < trace_ops(src, sources, evs).len() ==> match trace_ops(src, sources, evs)[k] {
                OpV::Step { path, column, .. } => {
                    &&& path_in(reg_paths(trace_ops(src, sources, evs).take(k)), path)
                    &&& (column is Some ==> path_in(
                        axis_regs(trace_ops(src, sources, evs).take(k)),
                        path,
                    ))
                },
                _ => true,
            },
{
    assert forall|k: int|
        #![trigger trace_ops(src, sources, evs)[k]]
        0 <= k < trace_ops(src, sources, evs).len() implies match trace_ops(src, sources, evs)[k] {
            OpV::Step { path, column, .. } => {
                &&& path_in(reg_paths(trace_ops(src, sources, evs).take(k)), path)
                &&& (column is Some ==> path_in(axis_regs(trace_ops(src, sources, evs).take(k)), path))
            },
            _ => true,
        } by {
        if trace_ops(src, sources, evs)[k] is Step {
            lemma_trace_op_ok(src, sources, evs, k);
        }
    }
}

/// A trace registers each source path once: no path is registered when an
/// equal one already was.
pub proof fn law_paths_registered_once(
    src: Seq<char>,
    sources: Seq<(Seq<char>, Seq<u32>)>,
    evs: Seq<EventV>,
)
    ensures
        forall|k: int|
            #![trigger trace_ops(src, sources, evs)[k]]
            0 <= k < trace_ops(src, sources, evs).len() ==> match trace_ops(src, sources, evs)[k] {
                OpV::RegisterPath { path, .. } => !path_in(
                    reg_paths(trace_ops(src, sources, evs).take(k)),
                    path,
                ),
                _ => true,
            },
{
    assert forall|k: int|
        #![trigger trace_ops(src, sources, evs)[k]]
        0 <= k < trace_ops(src, sources, evs).len() implies match trace_ops(src, sources, evs)[k] {
            OpV::RegisterPath { path, .. } => !path_in(
                reg_paths(trace_ops(src, sources, evs).take(k)),
                path,
            ),
            _ => true,
        } by {
        if trace_ops(src, sources, evs)[k] is RegisterPath {
            lemma_trace_op_ok(src, sources, evs, k);
        }
    }
}

/// A trace registers each type name once.
pub proof fn law_types_registered_once(
    src: Seq<char>,
    sources: Seq<(Seq<char>, Seq<u32>)>,
    evs: Seq<EventV>,
)
    ensures
        forall|k: int|
            #![trigger trace_ops(src, sources, evs)[k]]
            0 <= k < trace_ops(src, sources, evs).len() ==> match trace_ops(src, sources, evs)[k] {
                OpV::EnsureType { name, .. } => !type_names(
                    trace_ops(src, sources, evs).take(k),
                ).contains(name),
                _ => true,
            },
{
    assert forall|k: int|
        #![trigger trace_ops(src, sources, evs)[k]]
        0 <= k < trace_ops(src, sources, evs).len() implies match trace_ops(src, sources, evs)[k] {
            OpV::EnsureType { name, .. } => !type_names(
                trace_ops(src, sources, evs).take(k),
            ).contains(name),
            _ => true,
        } by {
        if trace_ops(src, sources, evs)[k] is EnsureType {
            lemma_trace_op_ok(src, sources, evs, k);
        }
    }
}

/// A trace opts into column-aware steps and advertises column breakpoints
/// and motions before anything else, then registers the entry path with
/// its line table, and only then starts at the entry's first line.
pub proof fn law_trace_prologue(
    src: Seq<char>,
    sources: Seq<(Seq<char>, Seq<u32>)>,
    evs: Seq<EventV>,
)
    ensures
        trace_ops(src, sources, evs).len() >= 5,
        trace_ops(src, sources, evs)[0] == OpV::EnableColumnAwareSteps,
        trace_ops(src, sources, evs)[1] == OpV::EnableColumnBreakpoints,
        trace_ops(src, sources, evs)[2] == OpV::EnableColumnMotions,
        trace_ops(src, sources, evs)[3] == (OpV::RegisterPath {
            path: src,
            line_lengths: lookup_lengths(sources, src),
        }),
        trace_ops(src, sources, evs)[4] == (OpV::Start { path: src, line: 1 }),
{
    lemma_run(src, sources, evs);
    let s0 = TracerV {
        ops: seq![
            OpV::EnableColumnAwareSteps,
            OpV::EnableColumnBreakpoints,
            OpV::EnableColumnMotions,
        ],
        types: seq![],
        lengths_paths: seq![],
        axis_paths: seq![],
        step_open: false,
        deferred: seq![],
        sources,
    };
    let s1 = ensure_path(s0, src);
    let s2 = push_op(s1, OpV::Start { path: src, line: 1 });
    lemma_apply_reqs_grows(s2, initial_types());
    let i = initial_state(src, sources);
    assert(i.ops[4] == s2.ops[4]);
}

proof fn lemma_apply_reqs_registers(st: TracerV, rs: Seq<TypeReq>)
    ensures
        st.types.len() <= apply_reqs(st, rs).types.len(),
        forall|i: int| 0 <= i < st.types.len() ==> #[trigger] apply_reqs(st, rs).types[i] == st.types[i],
        forall|i: int| 0 <= i < rs.len() ==> apply_reqs(st, rs).types.contains(#[trigger] rs[i].1),
    decreases rs.len(),
{
    if rs.len() > 0 {
        let p = rs.drop_last();
        lemma_apply_reqs_registers(st, p);
        let a = apply_reqs(st, p);
        let b = apply_req(a, rs.last());
        assert forall|i: int| 0 <= i < st.types.len() implies #[trigger] b.types[i] == st.types[i] by {
            assert(a.types[i] == st.types[i]);
        }
        assert forall|i: int| 0 <= i < rs.len() implies b.types.contains(#[trigger] rs[i].1) by {
            if i < p.len() {
                assert(p[i] == rs[i]);
                assert(a.types.contains(p[i].1));
                let j = choose|j: int| 0 <= j < a.types.len() && a.types[j] == p[i].1;
                assert(b.types[j] == a.types[j]);
            } else if !a.types.contains(rs.last().1) {
                assert(b.types[b.types.len() - 1] == rs.last().1);
            }
        }
    }
}

proof fn lemma_apply_reqs_known(st: TracerV, rs: Seq<TypeReq>)
    requires
        forall|i: int| 0 <= i < rs.len() ==> st.types.contains(#[trigger] rs[i].1),
    ensures
        apply_reqs(st, rs) == st,
    decreases rs.len(),
{
    if rs.len() > 0 {
        let p = rs.drop_last();
        assert forall|i: int| 0 <= i < p.len() implies st.types.contains(#[trigger] p[i].1) by {
            assert(p[i] == rs[i]);
        }
        lemma_apply_reqs_known(st, p);
        assert(st.types.contains(rs[rs.len() - 1].1));
    }
}

/// Registering the same types a second time changes nothing: the recorder
/// registers each type name once, however often a value of it is decoded.
pub proof fn law_type_registration_idempotent(st: TracerV, rs: Seq<TypeReq>)
    ensures
        apply_reqs(apply_reqs(st, rs), rs) == apply_reqs(st, rs),
{
    lemma_apply_reqs_registers(st, rs);
    lemma_apply_reqs_known(apply_reqs(st, rs), rs);
}

proof fn lemma_flush_typed(st: TracerV, vars: Seq<(Seq<char>, ValueV)>)
    requires
        st.types == type_names(st.ops),
        forall|i: int| 0 <= i < vars.len() ==> typed_in(#[trigger] vars[i].1, st.types),
    ensures
        type_names(write_vars(st, vars).ops) == st.types,
        write_vars(st, vars).types == st.types,
        grows(st.ops, write_vars(st, vars).ops),
        forall|k: int|
            #![trigger write_vars(st, vars).ops[k]]
            st.ops.len() <= k < write_vars(st, vars).ops.len() ==> all_typed_in(
                op_values(write_vars(st, vars).ops[k]),
                type_names(write_vars(st, vars).ops.take(k)),
            ),
    decreases vars.len(),
{
    if vars.len() > 0 {
        let d = vars.drop_last();
        assert forall|i: int| 0 <= i < d.len() implies typed_in(#[trigger] d[i].1, st.types) by {
            assert(d[i] == vars[i]);
        }
        lemma_flush_typed(st, d);
        let w0 = write_vars(st, d).ops;
        let op = write_op(vars.last().0, vars.last().1);
        let w = w0.push(op);
        assert(w.drop_last() =~= w0);
        assert(typed_in(vars[vars.len() - 1].1, st.types));
        lemma_single_value(vars.last().1, st.types);
        assert forall|k: int| #![trigger w[k]] st.ops.len() <= k < w.len() implies all_typed_in(
            op_values(w[k]),
            type_names(w.take(k)),
        ) by {
            if k < w0.len() {
                assert(w.take(k) =~= w0.take(k));
                assert(w[k] == w0[k]);
            } else {
                assert(w.take(k) =~= w0);
            }
        }
    }
}

/// Every value a trace hands to the writer, in a variable, a call argument,
/// a call record or a return, names only types registered before it: the
/// writer never meets a type it was not told of.
pub proof fn law_values_name_registered_types(
    src: Seq<char>,
    sources: Seq<(Seq<char>, Seq<u32>)>,
    evs: Seq<EventV>,
)
    ensures
        forall|k: int|
            #![trigger trace_ops(src, sources, evs)[k]]
            0 <= k < trace_ops(src, sources, evs).len() ==> all_typed_in(
                op_values(trace_ops(src, sources, evs)[k]),
                type_names(trace_ops(src, sources, evs).take(k)),
            ),
{
    lemma_run(src, sources, evs);
    let c = convert_events(initial_state(src, sources), src, evs);
    let c0 = TracerV { deferred: seq![], ..c };
    lemma_flush_typed(c0, c.deferred);
    let ops = trace_ops(src, sources, evs);
    assert forall|k: int| #![trigger ops[k]] 0 <= k < ops.len() implies all_typed_in(
        op_values(ops[k]),
        type_names(ops.take(k)),
    ) by {
        if k < c.ops.len() {
            assert(ops.take(k) =~= c.ops.take(k));
            assert(op_ok(c.ops.take(k), c.ops[k]));
        }
    }
}

/// Every source path a trace registers carries the line table read for
/// that path, and an empty one when it could not be read.
pub proof fn law_registered_tables(
    src: Seq<char>,
    sources: Seq<(Seq<char>, Seq<u32>)>,
    evs: Seq<EventV>,
)
    ensures
        forall|k: int|
            #![trigger trace_ops(src, sources, evs)[k]]
            0 <= k < trace_ops(src, sources, evs).len() ==> table_ok(
                trace_ops(src, sources, evs)[k],
                sources,
            ),
{
    lemma_run(src, sources, evs);
    let c = convert_events(initial_state(src, sources), src, evs);
    let ops = trace_ops(src, sources, evs);
    assert forall|k: int| #![trigger ops[k]] 0 <= k < ops.len() implies table_ok(ops[k], sources) by {
        if k < c.ops.len() {
            assert(ops[k] == c.ops[k]);
        }
    }
}

/// `b` extends `a` with operations that register no path.
pub open spec fn no_regs(a: Seq<OpV>, b: Seq<OpV>) -> bool {
    &&& grows(a, b)
    &&& forall|k: int| a.len() <= k < b.len() ==> !(#[trigger] b[k] is RegisterPath)
}

proof fn lemma_nr_trans(a: Seq<OpV>, b: Seq<OpV>, d: Seq<OpV>)
    requires
        no_regs(a, b),
        no_regs(b, d),
    ensures
        no_regs(a, d),
{
    assert forall|k: int| a.len() <= k < d.len() implies !(#[trigger] d[k] is RegisterPath) by {
        if k < b.len() {
            assert(d[k] == b[k]);
        }
    }
    assert forall|i: int| 0 <= i < a.len() implies #[trigger] d[i] == a[i] by {
        assert(d[i] == b[i]);
    }
}

proof fn lemma_nr_push(a: Seq<OpV>, op: OpV)
    requires
        !(op is RegisterPath),
    ensures
        no_regs(a, a.push(op)),
{
}

proof fn lemma_nr_apply_reqs(st: TracerV, rs: Seq<TypeReq>)
    ensures
        no_regs(st.ops, apply_reqs(st, rs).ops),
    decreases rs.len(),
{
    lemma_apply_reqs_grows(st, rs);
    if rs.len() > 0 {
        lemma_nr_apply_reqs(st, rs.drop_last());
        let a = apply_reqs(st, rs.drop_last());
        if !a.types.contains(rs.last().1) {
            lemma_nr_push(a.ops, OpV::EnsureType { kind: rs.last().0, name: rs.last().1 });
            lemma_nr_trans(st.ops, a.ops, apply_req(a, rs.last()).ops);
        }
    }
}

proof fn lemma_nr_write_vars(st: TracerV, vars: Seq<(Seq<char>, ValueV)>)
    ensures
        no_regs(st.ops, write_vars(st, vars).ops),
    decreases vars.len(),
{
    if vars.len() > 0 {
        lemma_nr_write_vars(st, vars.drop_last());
        let a = write_vars(st, vars.drop_last());
        lemma_nr_push(a.ops, write_op(vars.last().0, vars.last().1));
        lemma_nr_trans(st.ops, a.ops, write_vars(st, vars).ops);
    }
}

proof fn lemma_nr_typed_var(st: TracerV, name: Seq<char>, v: ValueV)
    ensures
        no_regs(st.ops, typed_var(st, name, v).ops),
{
    if st.step_open {
        lemma_nr_push(st.ops, write_op(name, v));
    }
}

proof fn lemma_nr_open_step(st: TracerV, p: Seq<char>, line: u32, col: Option<u32>)
    ensures
        no_regs(st.ops, open_step(st, p, line, col).ops),
{
    let op = OpV::Step { path: p, line: line as i64, column: step_column(st, p, col) };
    lemma_nr_push(st.ops, op);
    let s1 = push_op(st, op);
    let s2 = TracerV { step_open: true, deferred: seq![], ..s1 };
    lemma_nr_write_vars(s2, st.deferred);
    lemma_nr_trans(st.ops, s1.ops, open_step(st, p, line, col).ops);
}

proof fn lemma_nr_tagged(st: TracerV, t: Seq<char>)
    ensures
        no_regs(st.ops, tagged(st, t).ops),
{
    assert(tagged(st, t).ops =~= st.ops.push(tagged(st, t).ops.last()));
}

proof fn lemma_nr_call_args(st: TracerV, args: Seq<ArgV>)
    ensures
        no_regs(st.ops, call_args(st, args).0.ops),
    decreases args.len(),
{
    if args.len() > 0 {
        lemma_nr_call_args(st, args.drop_last());
        let s0 = call_args(st, args.drop_last()).0;
        let a = args.last();
        let (v, rs) = decode(a.value, a.cadence_type);
        lemma_nr_apply_reqs(s0, rs);
        let s1 = apply_reqs(s0, rs);
        lemma_nr_typed_var(s1, a.name, v);
        let s2 = typed_var(s1, a.name, v);
        lemma_nr_push(s2.ops, OpV::CallArg { name: a.name, value: v });
        lemma_nr_trans(s0.ops, s1.ops, s2.ops);
        lemma_nr_trans(s0.ops, s2.ops, call_args(st, args).0.ops);
        lemma_nr_trans(st.ops, s0.ops, call_args(st, args).0.ops);
    }
}

proof fn lemma_nr_emit_fields(st: TracerV, name: Seq<char>, fs: Seq<ArgV>)
    ensures
        no_regs(st.ops, emit_fields(st, name, fs).ops),
    decreases fs.len(),
{
    if fs.len() > 0 {
        lemma_nr_emit_fields(st, name, fs.drop_last());
        let s0 = emit_fields(st, name, fs.drop_last());
        let f = fs.last();
        let (v, rs) = decode(f.value, f.cadence_type);
        lemma_nr_apply_reqs(s0, rs);
        let s1 = apply_reqs(s0, rs);
        lemma_nr_typed_var(s1, "emit:"@ + name + "."@ + f.name, v);
        lemma_nr_trans(s0.ops, s1.ops, emit_fields(st, name, fs).ops);
        lemma_nr_trans(st.ops, s0.ops, emit_fields(st, name, fs).ops);
    }
}

proof fn lemma_nr_call(
    st: TracerV,
    src: Seq<char>,
    name: Seq<char>,
    args: Seq<ArgV>,
    access: Option<Seq<char>>,
    script: bool,
)
    ensures
        no_regs(st.ops, convert_call(st, src, name, args, access, script).ops),
{
    let f = OpV::EnsureFunction { name, path: src, line: 1 };
    lemma_nr_push(st.ops, f);
    let s1 = push_op(st, f);
    lemma_nr_call_args(s1, args);
    let (s2, vs) = call_args(s1, args);
    let cop = OpV::Call { function: name, args: vs };
    lemma_nr_push(s2.ops, cop);
    let s3 = TracerV { step_open: false, ..push_op(s2, cop) };
    lemma_nr_trans(st.ops, s1.ops, s2.ops);
    lemma_nr_trans(st.ops, s2.ops, s3.ops);
    let s4 = match access {
        Some(a) => match crate::conversion::access_tag(a) {
            Some(tag) => tagged(s3, "CadenceAccess:"@ + name + ":"@ + tag),
            None => s3,
        },
        None => s3,
    };
    match access {
        Some(a) => match crate::conversion::access_tag(a) {
            Some(tag) => {
                lemma_nr_tagged(s3, "CadenceAccess:"@ + name + ":"@ + tag);
                lemma_nr_trans(st.ops, s3.ops, s4.ops);
            },
            None => {},
        },
        None => {},
    }
    if script {
        lemma_nr_tagged(s4, "CadenceScriptEntry:"@ + name);
        lemma_nr_trans(st.ops, s4.ops, convert_call(st, src, name, args, access, script).ops);
    }
}

proof fn lemma_nr_return(st: TracerV, value: Option<Seq<char>>, cadence_type: Option<Seq<char>>)
    ensures
        no_regs(st.ops, convert_return(st, value, cadence_type).ops),
{
    match value {
        Some(v) => if v.len() == 0 || v == "nil"@ || v == "Void"@ {
            lemma_nr_push(st.ops, OpV::ReturnNone);
        } else {
            let (rv, rs) = decode(v, cadence_type);
            lemma_nr_apply_reqs(st, rs);
            let s0 = apply_reqs(st, rs);
            let r = convert_return(st, value, cadence_type);
            assert(r.ops =~= s0.ops.push(r.ops.last()));
            lemma_nr_push(s0.ops, r.ops.last());
            lemma_nr_trans(st.ops, s0.ops, r.ops);
        },
        None => lemma_nr_push(st.ops, OpV::ReturnNone),
    }
}

proof fn lemma_nr_resource(
    st: TracerV,
    src: Seq<char>,
    rt: Seq<char>,
    uuid: u64,
    line: u32,
    col: Option<u32>,
    text: Seq<char>,
    tag: Seq<char>,
    content: Seq<char>,
    init_fn: bool,
)
    ensures
        no_regs(st.ops, resource_lifecycle(st, src, rt, uuid, line, col, text, tag, content, init_fn).ops),
{
    lemma_nr_open_step(st, src, line, col);
    let s1 = open_step(st, src, line, col);
    let f = OpV::EnsureFunction { name: rt + ".init"@, path: src, line: line as i64 };
    let s2 = if init_fn {
        push_op(s1, f)
    } else {
        s1
    };
    if init_fn {
        lemma_nr_push(s1.ops, f);
        lemma_nr_trans(st.ops, s1.ops, s2.ops);
    }
    let key = "@Resource:"@ + rt;
    lemma_nr_apply_reqs(s2, seq![(crate::value::TypeKind::Int, key)]);
    let s3 = apply_reqs(s2, seq![(crate::value::TypeKind::Int, key)]);
    let id = crate::conversion::resource_id(rt, uuid);
    lemma_nr_typed_var(s3, "@resource:"@ + id, ValueV::String { text, ty: key });
    let s4 = typed_var(s3, "@resource:"@ + id, ValueV::String { text, ty: key });
    let r = resource_lifecycle(st, src, rt, uuid, line, col, text, tag, content, init_fn);
    assert(r.ops =~= s4.ops.push(r.ops.last()));
    lemma_nr_push(s4.ops, r.ops.last());
    lemma_nr_trans(st.ops, s2.ops, s3.ops);
    lemma_nr_trans(st.ops, s3.ops, s4.ops);
    lemma_nr_trans(st.ops, s4.ops, r.ops);
}

/// Every path `ops` registers is among `files`.
pub open spec fn regs_listed(ops: Seq<OpV>, files: Seq<Seq<char>>) -> bool {
    forall|k: int|
        #![trigger ops[k]]
        0 <= k < ops.len() ==> match ops[k] {
            OpV::RegisterPath { path, .. } => files.contains(path),
            _ => true,
        }
}

proof fn lemma_listed_nr(a: Seq<OpV>, b: Seq<OpV>, files: Seq<Seq<char>>, more: Seq<Seq<char>>)
    requires
        regs_listed(a, files),
        no_regs(a, b),
        files.is_prefix_of(more),
    ensures
        regs_listed(b, more),
{
    assert forall|k: int| #![trigger b[k]] 0 <= k < b.len() implies match b[k] {
        OpV::RegisterPath { path, .. } => more.contains(path),
        _ => true,
    } by {
        if k < a.len() {
            assert(b[k] == a[k]);
            if let OpV::RegisterPath { path, .. } = a[k] {
                let j = choose|j: int| 0 <= j < files.len() && files[j] == path;
                assert(more[j] == files[j]);
            }
        }
    }
}

proof fn lemma_listed_event(st: TracerV, src: Seq<char>, evs: Seq<EventV>, e: EventV)
    requires
        regs_listed(st.ops, crate::handlers::step_files(src, evs)),
    ensures
        regs_listed(convert_event(st, src, e).ops, crate::handlers::step_files(src, evs.push(e))),
{
    let files = crate::handlers::step_files(src, evs);
    let more = crate::handlers::step_files(src, evs.push(e));
    assert(evs.push(e).drop_last() =~= evs);
    assert(evs.push(e).last() == e);
    assert(files.is_prefix_of(more)) by {
        if e is Step {
            assert(more.subrange(0, files.len() as int) =~= files);
        } else {
            assert(more == files);
        }
    }
    let r = convert_event(st, src, e);
    match e {
        EventV::Step { file, line, column } => {
            let p = crate::paths::step_path(src, file);
            let s1 = ensure_path(st, p);
            assert(more.last() == p);
            assert(more.contains(p)) by {
                assert(more[more.len() - 1] == p);
            }
            assert(regs_listed(s1.ops, more)) by {
                if crate::conversion::path_in(st.lengths_paths, p) {
                    lemma_listed_nr(st.ops, s1.ops, files, more);
                } else {
                    assert(s1.ops =~= st.ops.push(s1.ops.last()));
                    assert forall|k: int| #![trigger s1.ops[k]] 0 <= k < s1.ops.len() implies match s1.ops[k] {
                        OpV::RegisterPath { path, .. } => more.contains(path),
                        _ => true,
                    } by {
                        if k < st.ops.len() {
                            assert(s1.ops[k] == st.ops[k]);
                            if let OpV::RegisterPath { path, .. } = st.ops[k] {
                                let j = choose|j: int| 0 <= j < files.len() && files[j] == path;
                                assert(more[j] == files[j]);
                            }
                        }
                    }
                }
            }
            lemma_nr_open_step(s1, p, line, column);
            lemma_listed_nr(s1.ops, r.ops, more, more);
        },
        EventV::Variable { name, value, cadence_type } => {
            let (v, rs) = decode(value, cadence_type);
            lemma_nr_apply_reqs(st, rs);
            lemma_nr_typed_var(apply_reqs(st, rs), name, v);
            lemma_nr_trans(st.ops, apply_reqs(st, rs).ops, r.ops);
            lemma_listed_nr(st.ops, r.ops, files, more);
        },
        EventV::Call { name, args, access, script } => {
            lemma_nr_call(st, src, name, args, access, script);
            lemma_listed_nr(st.ops, r.ops, files, more);
        },
        EventV::Return { value, cadence_type } => {
            lemma_nr_return(st, value, cadence_type);
            lemma_listed_nr(st.ops, r.ops, files, more);
        },
        EventV::ResourceCreate { resource_type, uuid, owner, file, line, column } => {
            lemma_nr_resource(
                st,
                src,
                resource_type,
                uuid,
                line,
                column,
                "created(owner="@ + owner + ")"@,
                "CadenceResourceCreate:"@,
                "owner="@ + owner,
                true,
            );
            lemma_listed_nr(st.ops, r.ops, files, more);
        },
        EventV::ResourceMove { resource_type, uuid, from_owner, to_owner, file, line, column } => {
            lemma_nr_resource(
                st,
                src,
                resource_type,
                uuid,
                line,
                column,
                "moved("@ + from_owner + " -> "@ + to_owner + ")"@,
                "CadenceResourceMove:"@,
                "from="@ + from_owner + " to="@ + to_owner,
                false,
            );
            lemma_listed_nr(st.ops, r.ops, files, more);
        },
        EventV::ResourceDestroy { resource_type, uuid, owner, file, line, column } => {
            lemma_nr_resource(
                st,
                src,
                resource_type,
                uuid,
                line,
                column,
                "destroyed(owner="@ + owner + ")"@,
                "CadenceResourceDestroy:"@,
                "owner="@ + owner,
                false,
            );
            lemma_listed_nr(st.ops, r.ops, files, more);
        },
        EventV::ResourceOwnerChange {
            resource_type,
            uuid,
            from_owner,
            to_owner,
            file,
            line,
            column,
        } => {
            lemma_nr_open_step(st, src, line, column);
            let s1 = open_step(st, src, line, column);
            assert(r.ops =~= s1.ops.push(r.ops.last()));
            lemma_nr_push(s1.ops, r.ops.last());
            lemma_nr_trans(st.ops, s1.ops, r.ops);
            lemma_listed_nr(st.ops, r.ops, files, more);
        },
        EventV::Emit { name, fields } => {
            lemma_nr_emit_fields(st, name, fields);
            let s1 = emit_fields(st, name, fields);
            assert(r.ops =~= s1.ops.push(r.ops.last()));
            lemma_nr_push(s1.ops, r.ops.last());
            lemma_nr_trans(st.ops, s1.ops, r.ops);
            lemma_listed_nr(st.ops, r.ops, files, more);
        },
        EventV::CompositeKind { kind, declared_type } => {
            match crate::conversion::composite_tag(kind) {
                Some(tag) => lemma_nr_tagged(st, tag + ":"@ + declared_type),
                None => {},
            }
            lemma_listed_nr(st.ops, r.ops, files, more);
        },
        _ => {
            assert(r.ops =~= st.ops.push(r.ops.last()));
            lemma_nr_push(st.ops, r.ops.last());
            lemma_listed_nr(st.ops, r.ops, files, more);
        },
    }
}

proof fn lemma_listed_events(st: TracerV, src: Seq<char>, evs: Seq<EventV>)
    requires
        regs_listed(st.ops, seq![src]),
    ensures
        regs_listed(convert_events(st, src, evs).ops, crate::handlers::step_files(src, evs)),
    decreases evs.len(),
{
    if evs.len() > 0 {
        let d = evs.drop_last();
        lemma_listed_events(st, src, d);
        lemma_listed_event(convert_events(st, src, d), src, d, evs.last());
        assert(d.push(evs.last()) =~= evs);
    }
}

/// A run only ever registers paths that `source_files` lists, so the line
/// tables of those files are all the recorder can use.
pub proof fn law_registered_paths_listed(
    src: Seq<char>,
    sources: Seq<(Seq<char>, Seq<u32>)>,
    evs: Seq<EventV>,
)
    ensures
        regs_listed(trace_ops(src, sources, evs), crate::handlers::step_files(src, evs)),
{
    let s0 = TracerV {
        ops: seq![
            OpV::EnableColumnAwareSteps,
            OpV::EnableColumnBreakpoints,
            OpV::EnableColumnMotions,
        ],
        types: seq![],
        lengths_paths: seq![],
        axis_paths: seq![],
        step_open: false,
        deferred: seq![],
        sources,
    };
    let one = seq![src];
    assert(regs_listed(s0.ops, one));
    let s1 = ensure_path(s0, src);
    assert(s1.ops =~= s0.ops.push(s1.ops.last()));
    assert(one[0] == src);
    assert(regs_listed(s1.ops, one)) by {
        assert forall|k: int| #![trigger s1.ops[k]] 0 <= k < s1.ops.len() implies match s1.ops[k] {
            OpV::RegisterPath { path, .. } => one.contains(path),
            _ => true,
        } by {
            if k < 3 {
                assert(s1.ops[k] == s0.ops[k]);
            }
        }
    }
    let st = OpV::Start { path: src, line: 1 };
    lemma_nr_push(s1.ops, st);
    let s2 = push_op(s1, st);
    lemma_nr_apply_reqs(s2, initial_types());
    let i = initial_state(src, sources);
    lemma_nr_trans(s1.ops, s2.ops, i.ops);
    lemma_listed_nr(s1.ops, i.ops, one, one);
    lemma_listed_events(i, src, evs);
    let cv = convert_events(i, src, evs);
    let c0 = TracerV { deferred: seq![], ..cv };
    lemma_nr_write_vars(c0, cv.deferred);
    let files = crate::handlers::step_files(src, evs);
    lemma_listed_nr(cv.ops, trace_ops(src, sources, evs), files, files);
}

/// Registering a path a second time does nothing.
pub proof fn law_ensure_path_once(st: TracerV, p: Seq<char>)
    ensures
        ensure_path(ensure_path(st, p), p) == ensure_path(st, p),
{
    if !path_in(st.lengths_paths, p) {
        let r = ensure_path(st, p);
        let l = r.lengths_paths;
        assert(l[l.len() - 1] == p);
        assert(crate::conversion::same_path_as(l[l.len() - 1], p));
    }
}

proof fn lemma_axis_regs_grow(a: Seq<OpV>, b: Seq<OpV>)
    requires
        grows(a, b),
    ensures
        axis_regs(a).is_prefix_of(axis_regs(b)),
    decreases b.len(),
{
    if b.len() > a.len() {
        let d = b.drop_last();
        assert(grows(a, d)) by {
            assert forall|i: int| 0 <= i < a.len() implies #[trigger] d[i] == a[i] by {
                assert(d[i] == b[i]);
            }
        }
        lemma_axis_regs_grow(a, d);
        let x = axis_regs(d);
        let y = axis_regs(b);
        assert(y == x || y == x.push(y.last()));
        assert(axis_regs(a).is_prefix_of(y)) by {
            assert forall|i: int| 0 <= i < axis_regs(a).len() implies y[i] == axis_regs(a)[i] by {
                assert(x[i] == axis_regs(a)[i]);
            }
        }
    } else {
        assert(b =~= a);
    }
}

/// A run whose entry source has a line table keeps it registered with its
/// column axis after any events: its steps may carry columns throughout.
pub proof fn law_entry_keeps_column_axis(
    src: Seq<char>,
    sources: Seq<(Seq<char>, Seq<u32>)>,
    evs: Seq<EventV>,
)
    requires
        lookup_lengths(sources, src).len() > 0,
    ensures
        path_in(convert_events(initial_state(src, sources), src, evs).lengths_paths, src),
        path_in(convert_events(initial_state(src, sources), src, evs).axis_paths, src),
{
    lemma_run(src, sources, evs);
    lemma_initial_state(src, sources);
    lemma_convert_events(initial_state(src, sources), src, evs);
    let i = initial_state(src, sources);
    let c = convert_events(i, src, evs);
    let s0 = TracerV {
        ops: seq![
            OpV::EnableColumnAwareSteps,
            OpV::EnableColumnBreakpoints,
            OpV::EnableColumnMotions,
        ],
        types: seq![],
        lengths_paths: seq![],
        axis_paths: seq![],
        step_open: false,
        deferred: seq![],
        sources,
    };
    let s1 = ensure_path(s0, src);
    assert(s1.axis_paths =~= seq![src]);
    let s2 = push_op(s1, OpV::Start { path: src, line: 1 });
    assert(i.axis_paths == seq![src]) by {
        lemma_initial_axis(s2, initial_types());
    }
    lemma_axis_regs_grow(i.ops, c.ops);
    let x = axis_regs(i.ops);
    let y = axis_regs(c.ops);
    assert(x == i.axis_paths);
    assert(y == c.axis_paths);
    assert(x.len() == 1 && x[0] == src);
    assert(y.subrange(0, x.len() as int)[0] == y[0]);
    assert(c.axis_paths[0] == src);
    assert(crate::conversion::same_path_as(c.axis_paths[0], src));
}

proof fn lemma_initial_axis(st: TracerV, rs: Seq<TypeReq>)
    ensures
        apply_reqs(st, rs).axis_paths == st.axis_paths,
    decreases rs.len(),
{
    if rs.len() > 0 {
        lemma_initial_axis(st, rs.drop_last());
    }
}

/// A step on a path registered with a column axis keeps the helper's
/// column: registering the path again is a no-op, and the step carries the
/// column as given.
pub proof fn law_step_keeps_column(
    st: TracerV,
    src: Seq<char>,
    file: Seq<char>,
    line: u32,
    c: u32,
)
    requires
        path_in(st.lengths_paths, crate::paths::step_path(src, file)),
        path_in(st.axis_paths, crate::paths::step_path(src, file)),
    ensures
        convert_event(st, src, EventV::Step { file, line, column: Some(c) }).ops[st.ops.len() as int]
            == (OpV::Step {
            path: crate::paths::step_path(src, file),
            line: line as i64,
            column: Some(c as i64),
        }),
{
    let p = crate::paths::step_path(src, file);
    assert(ensure_path(st, p) == st);
    let op = OpV::Step { path: p, line: line as i64, column: step_column(st, p, Some(c)) };
    lemma_write_vars_tail(TracerV { step_open: true, deferred: seq![], ..push_op(st, op) }, st.deferred);
}

/// A step whose file is written as the entry path itself is a step on the
/// entry source.
pub proof fn law_entry_step_path(src: Seq<char>)
    requires
        trim(src) == src,
        src.contains('/'),
    ensures
        crate::paths::step_path(src, src) == src,
{
}

/// The trace-log entry with metadata and content `t`.
pub open spec fn tag_op(t: Seq<char>) -> OpV {
    OpV::SpecialEvent { kind: crate::ops::EventKind::TraceLogEvent, metadata: t, content: t }
}

/// The tagged entries that follow a call record: the visibility tag when
/// the access modifier is `self`, `contract`, `account` or `all`
/// (`AccessSelf`, `AccessContract`, `AccessAccount`, `AccessAll`), then the
/// script-entry tag when flagged.
pub open spec fn call_tags(name: Seq<char>, access: Option<Seq<char>>, script: bool) -> Seq<OpV> {
    let vis = |tag: Seq<char>| seq![tag_op("CadenceAccess:"@ + name + ":"@ + tag)];
    let a = if access == Some("self"@) {
        vis("AccessSelf"@)
    } else if access == Some("contract"@) {
        vis("AccessContract"@)
    } else if access == Some("account"@) {
        vis("AccessAccount"@)
    } else if access == Some("all"@) {
        vis("AccessAll"@)
    } else {
        seq![]
    };
    if script {
        a.push(tag_op("CadenceScriptEntry:"@ + name))
    } else {
        a
    }
}

/// Each call argument decoded under its Cadence type, in order.
pub open spec fn decoded_args(args: Seq<ArgV>) -> Seq<ValueV> {
    Seq::new(args.len(), |k: int| decode(args[k].value, args[k].cadence_type).0)
}

proof fn lemma_call_args_values(st: TracerV, args: Seq<ArgV>)
    ensures
        call_args(st, args).1 == decoded_args(args),
    decreases args.len(),
{
    if args.len() > 0 {
        lemma_call_args_values(st, args.drop_last());
        assert(call_args(st, args).1 =~= decoded_args(args));
    } else {
        assert(call_args(st, args).1 =~= decoded_args(args));
    }
}

/// A call event registers the callee, records the call with every argument
/// decoded in order, closes the open step, and is followed by exactly the
/// visibility and script-entry tags that `call_tags` names.
pub proof fn law_call_record(
    st: TracerV,
    src: Seq<char>,
    name: Seq<char>,
    args: Seq<ArgV>,
    access: Option<Seq<char>>,
    script: bool,
)
    ensures
        convert_call(st, src, name, args, access, script).ops[st.ops.len() as int] == (OpV::EnsureFunction {
            name,
            path: src,
            line: 1,
        }),
        !convert_call(st, src, name, args, access, script).step_open,
        exists|n: int|
            #![trigger convert_call(st, src, name, args, access, script).ops[n]]
            st.ops.len() < n < convert_call(st, src, name, args, access, script).ops.len()
                && convert_call(st, src, name, args, access, script).ops[n] == (OpV::Call {
                function: name,
                args: decoded_args(args),
            }) && convert_call(st, src, name, args, access, script).ops.subrange(
                n + 1,
                convert_call(st, src, name, args, access, script).ops.len() as int,
            ) == call_tags(name, access, script),
{
    let r = convert_call(st, src, name, args, access, script);
    let f = OpV::EnsureFunction { name, path: src, line: 1 };
    let s1 = push_op(st, f);
    lemma_nr_call_args(s1, args);
    lemma_call_args_values(s1, args);
    let (s2, vs) = call_args(s1, args);
    let n = s2.ops.len() as int;
    let cop = OpV::Call { function: name, args: vs };
    let s3 = TracerV { step_open: false, ..push_op(s2, cop) };
    assert(s2.ops[st.ops.len() as int] == s1.ops[st.ops.len() as int]);
    assert(r.ops =~= s3.ops + call_tags(name, access, script));
    assert(r.ops[n] == cop);
    assert(r.ops.subrange(n + 1, r.ops.len() as int) =~= call_tags(name, access, script));
}

proof fn lemma_apply_reqs_keeps_step(st: TracerV, rs: Seq<TypeReq>)
    ensures
        apply_reqs(st, rs).step_open == st.step_open,
    decreases rs.len(),
{
    if rs.len() > 0 {
        lemma_apply_reqs_keeps_step(st, rs.drop_last());
    }
}

proof fn lemma_write_vars_keeps_step(st: TracerV, vars: Seq<(Seq<char>, ValueV)>)
    ensures
        write_vars(st, vars).step_open == st.step_open,
    decreases vars.len(),
{
    if vars.len() > 0 {
        lemma_write_vars_keeps_step(st, vars.drop_last());
    }
}

/// The last two writer operations of a resource lifecycle event: the local
/// and the log entry, after the step is opened.
proof fn lemma_lifecycle_tail(
    st: TracerV,
    src: Seq<char>,
    rt: Seq<char>,
    uuid: u64,
    line: u32,
    col: Option<u32>,
    text: Seq<char>,
    tag: Seq<char>,
    content: Seq<char>,
    init_fn: bool,
)
    ensures
        ({
            let r = resource_lifecycle(st, src, rt, uuid, line, col, text, tag, content, init_fn);
            let id = rt + "#"@ + decimal_digits(uuid as nat);
            &&& r.ops.len() >= 2
            &&& r.ops[r.ops.len() - 2] == OpV::VariableEncoded {
                name: "@resource:"@ + id,
                value: ValueV::String { text, ty: "@Resource:"@ + rt },
            }
            &&& r.ops.last() == OpV::SpecialEvent {
                kind: EventKind::TraceLogEvent,
                metadata: tag + id,
                content,
            }
        }),
{
    let s0 = open_step(st, src, line, col);
    let op = OpV::Step { path: src, line: line as i64, column: step_column(st, src, col) };
    let s1 = push_op(st, op);
    lemma_write_vars_keeps_step(TracerV { step_open: true, deferred: seq![], ..s1 }, st.deferred);
    let s2 = if init_fn {
        push_op(s0, OpV::EnsureFunction { name: rt + ".init"@, path: src, line: line as i64 })
    } else {
        s0
    };
    let key = "@Resource:"@ + rt;
    lemma_apply_reqs_keeps_step(s2, seq![(TypeKind::Int, key)]);
    let id = rt + "#"@ + decimal_digits(uuid as nat);
    assert(crate::conversion::resource_id(rt, uuid) == id);
}

/// A resource lifecycle event records, last of all, the local
/// `@resource:<Type>#<uuid>` holding what became of the resource and then a
/// log entry tagged with the event and the resource: a creation holds
/// `created(owner=<owner>)`, a move `moved(<from> -> <to>)` (from the old
/// owner to the new one), a destruction `destroyed(owner=<owner>)`.
pub proof fn law_resource_lifecycle_locals(st: TracerV, src: Seq<char>, e: EventV)
    ensures
        e matches EventV::ResourceMove { resource_type, uuid, from_owner, to_owner, .. } ==> ({
            let r = convert_event(st, src, e);
            let id = resource_type + "#"@ + decimal_digits(uuid as nat);
            &&& r.ops.len() >= 2
            &&& r.ops[r.ops.len() - 2] == OpV::VariableEncoded {
                name: "@resource:"@ + id,
                value: ValueV::String {
                    text: "moved("@ + from_owner + " -> "@ + to_owner + ")"@,
                    ty: "@Resource:"@ + resource_type,
                },
            }
            &&& r.ops.last() == OpV::SpecialEvent {
                kind: EventKind::TraceLogEvent,
                metadata: "CadenceResourceMove:"@ + id,
                content: "from="@ + from_owner + " to="@ + to_owner,
            }
        }),
        e matches EventV::ResourceCreate { resource_type, uuid, owner, .. } ==> ({
            let r = convert_event(st, src, e);
            let id = resource_type + "#"@ + decimal_digits(uuid as nat);
            &&& r.ops.len() >= 2
            &&& r.ops[r.ops.len() - 2] == OpV::VariableEncoded {
                name: "@resource:"@ + id,
                value: ValueV::String {
                    text: "created(owner="@ + owner + ")"@,
                    ty: "@Resource:"@ + resource_type,
                },
            }
            &&& r.ops.last() == OpV::SpecialEvent {
                kind: EventKind::TraceLogEvent,
                metadata: "CadenceResourceCreate:"@ + id,
                content: "owner="@ + owner,
            }
        }),
        e matches EventV::ResourceDestroy { resource_type, uuid, owner, .. } ==> ({
            let r = convert_event(st, src, e);
            let id = resource_type + "#"@ + decimal_digits(uuid as nat);
            &&& r.ops.len() >= 2
            &&& r.ops[r.ops.len() - 2] == OpV::VariableEncoded {
                name: "@resource:"@ + id,
                value: ValueV::String {
                    text: "destroyed(owner="@ + owner + ")"@,
                    ty: "@Resource:"@ + resource_type,
                },
            }
            &&& r.ops.last() == OpV::SpecialEvent {
                kind: EventKind::TraceLogEvent,
                metadata: "CadenceResourceDestroy:"@ + id,
                content: "owner="@ + owner,
            }
        }),
{
    match e {
        EventV::ResourceCreate { resource_type, uuid, owner, file, line, column } => {
            lemma_lifecycle_tail(
                st,
                src,
                resource_type,
                uuid,
                line,
                column,
                "created(owner="@ + owner + ")"@,
                "CadenceResourceCreate:"@,
                "owner="@ + owner,
                true,
            );
        },
        EventV::ResourceMove { resource_type, uuid, from_owner, to_owner, file, line, column } => {
            lemma_lifecycle_tail(
                st,
                src,
                resource_type,
                uuid,
                line,
                column,
                "moved("@ + from_owner + " -> "@ + to_owner + ")"@,
                "CadenceResourceMove:"@,
                "from="@ + from_owner + " to="@ + to_owner,
                false,
            );
        },
        EventV::ResourceDestroy { resource_type, uuid, owner, file, line, column } => {
            lemma_lifecycle_tail(
                st,
                src,
                resource_type,
                uuid,
                line,
                column,
                "destroyed(owner="@ + owner + ")"@,
                "CadenceResourceDestroy:"@,
                "owner="@ + owner,
                false,
            );
        },
        _ => {},
    }
}

/// A composite-kind declaration of a structure, a resource or an event adds
/// exactly one trace-log entry, `CompositeKindStructure:<type>`,
/// `CompositeKindResource:<type>` or `CompositeKindEvent:<type>`, and
/// changes nothing else; any other kind changes nothing.
pub proof fn law_composite_kind_tag(st: TracerV, src: Seq<char>, kind: Seq<char>, declared_type: Seq<char>)
    ensures
        ({
            let r = convert_event(st, src, EventV::CompositeKind { kind, declared_type });
            let t_s = "CompositeKindStructure:"@ + declared_type;
            let t_r = "CompositeKindResource:"@ + declared_type;
            let t_e = "CompositeKindEvent:"@ + declared_type;
            &&& kind == "structure"@ ==> r == TracerV {
                ops: st.ops.push(
                    OpV::SpecialEvent { kind: EventKind::TraceLogEvent, metadata: t_s, content: t_s },
                ),
                ..st
            }
            &&& kind == "resource"@ ==> r == TracerV {
                ops: st.ops.push(
                    OpV::SpecialEvent { kind: EventKind::TraceLogEvent, metadata: t_r, content: t_r },
                ),
                ..st
            }
            &&& kind == "event"@ ==> r == TracerV {
                ops: st.ops.push(
                    OpV::SpecialEvent { kind: EventKind::TraceLogEvent, metadata: t_e, content: t_e },
                ),
                ..st
            }
            &&& (kind != "structure"@ && kind != "resource"@ && kind != "event"@) ==> r == st
        }),
{
    reveal_strlit("structure");
    reveal_strlit("resource");
    reveal_strlit("event");
    reveal_strlit("CompositeKindStructure");
    reveal_strlit("CompositeKindResource");
    reveal_strlit("CompositeKindEvent");
    reveal_strlit("CompositeKindStructure:");
    reveal_strlit("CompositeKindResource:");
    reveal_strlit("CompositeKindEvent:");
    reveal_strlit(":");
    assert("structure"@.len() == 9 && "resource"@.len() == 8 && "event"@.len() == 5);
    assert("structure"@ != "resource"@);
    assert("structure"@ != "event"@);
    assert("resource"@ != "event"@);
    assert("CompositeKindStructure"@ + ":"@ =~= "CompositeKindStructure:"@);
    assert("CompositeKindResource"@ + ":"@ =~= "CompositeKindResource:"@);
    assert("CompositeKindEvent"@ + ":"@ =~= "CompositeKindEvent:"@);
    assert(("CompositeKindStructure"@ + ":"@) + declared_type =~= "CompositeKindStructure:"@ + declared_type);
    assert(("CompositeKindResource"@ + ":"@) + declared_type =~= "CompositeKindResource:"@ + declared_type);
    assert(("CompositeKindEvent"@ + ":"@) + declared_type =~= "CompositeKindEvent:"@ + declared_type);
}

/// The helper events that only log: each appends exactly one entry and
/// changes nothing else. A forced-nil unwrap, an `AnyStruct` binding, a
/// type alias and an attachment being attached or removed go to the trace
/// log tagged `ForceNilUnwrap:<context>`, `CadenceAnyType:<static>:<runtime>:<var>`,
/// `CadenceTypeAlias:<alias>:<type>`, `CadenceAttachmentAttach:<att>:<target>`
/// and `CadenceAttachmentRemove:<att>:<target>`; a Cadence event goes to the
/// event log as `CadenceEvent:<name>` with its payload; a failed pre- or
/// post-condition goes to the trace log as `CadencePreCondition` /
/// `CadencePostCondition`, any other error to the error log as
/// `CadenceRuntimeError`, each with the error's message.
pub proof fn law_logged_events(st: TracerV, src: Seq<char>, e: EventV)
    ensures
        ({
            let r = convert_event(st, src, e);
            let only = |op: OpV| r == TracerV { ops: st.ops.push(op), ..st };
            &&& e matches EventV::ForceNilUnwrap { context } ==> only(
                tag_op("ForceNilUnwrap:"@ + context),
            )
            &&& e matches EventV::AnyTypeBind { static_type, runtime_type, varname } ==> only(
                tag_op("CadenceAnyType:"@ + static_type + ":"@ + runtime_type + ":"@ + varname),
            )
            &&& e matches EventV::TypeAlias { alias_name, underlying_type } ==> only(
                tag_op("CadenceTypeAlias:"@ + alias_name + ":"@ + underlying_type),
            )
            &&& e matches EventV::AttachmentAttach { attachment_type, target_type } ==> only(
                tag_op("CadenceAttachmentAttach:"@ + attachment_type + ":"@ + target_type),
            )
            &&& e matches EventV::AttachmentRemove { attachment_type, target_type } ==> only(
                tag_op("CadenceAttachmentRemove:"@ + attachment_type + ":"@ + target_type),
            )
            &&& e matches EventV::Event { name, payload } ==> only(
                OpV::SpecialEvent {
                    kind: EventKind::EvmEvent,
                    metadata: "CadenceEvent:"@ + name,
                    content: payload,
                },
            )
            &&& e matches EventV::Error { message, error_kind } ==> only(
                if error_kind == Some("pre"@) {
                    OpV::SpecialEvent {
                        kind: EventKind::TraceLogEvent,
                        metadata: "CadencePreCondition"@,
                        content: message,
                    }
                } else if error_kind == Some("post"@) {
                    OpV::SpecialEvent {
                        kind: EventKind::TraceLogEvent,
                        metadata: "CadencePostCondition"@,
                        content: message,
                    }
                } else {
                    OpV::SpecialEvent {
                        kind: EventKind::Error,
                        metadata: "CadenceRuntimeError"@,
                        content: message,
                    }
                },
            )
        }),
{
    reveal_strlit("pre");
    reveal_strlit("post");
    assert("pre"@.len() == 3 && "post"@.len() == 4);
}

/// A return closes the open step. A return with no value (absent, empty,
/// `nil` or `Void`) records exactly a valueless return; any other value is
/// recorded decoded under its Cadence type, as the last operation.
pub proof fn law_return_record(
    st: TracerV,
    src: Seq<char>,
    value: Option<Seq<char>>,
    cadence_type: Option<Seq<char>>,
)
    ensures
        ({
            let r = convert_event(st, src, EventV::Return { value, cadence_type });
            &&& !r.step_open
            &&& (value is None || value == Some(""@) || value == Some("nil"@) || value == Some(
                "Void"@,
            )) ==> r == TracerV { ops: st.ops.push(OpV::ReturnNone), step_open: false, ..st }
            &&& (value matches Some(v) && v.len() > 0 && v != "nil"@ && v != "Void"@) ==> (
            r.ops.last() == OpV::Return { value: decode(value->0, cadence_type).0 }
                || r.ops.last() == OpV::ReturnEncoded { value: decode(value->0, cadence_type).0 })
        }),
{
    reveal_strlit("");
    assert(""@.len() == 0);
}

/// A change of a resource's owner opens a step and logs, last of all,
/// `ResourceOwnerChange:<Type>#<uuid>` with the text
/// `ResourceOwnerChange:<Type>#<uuid>: <from> -> <to>`.
pub proof fn law_owner_change_entry(
    st: TracerV,
    src: Seq<char>,
    resource_type: Seq<char>,
    uuid: u64,
    from_owner: Seq<char>,
    to_owner: Seq<char>,
    file: Seq<char>,
    line: u32,
    column: Option<u32>,
)
    ensures
        ({
            let r = convert_event(
                st,
                src,
                EventV::ResourceOwnerChange {
                    resource_type,
                    uuid,
                    from_owner,
                    to_owner,
                    file,
                    line,
                    column,
                },
            );
            let id = "ResourceOwnerChange:"@ + resource_type + "#"@ + decimal_digits(uuid as nat);
            &&& r.step_open
            &&& r.ops.len() > 0
            &&& r.ops.last() == OpV::SpecialEvent {
                kind: EventKind::TraceLogEvent,
                metadata: id,
                content: id + ": "@ + from_owner + " -> "@ + to_owner,
            }
        }),
{
    let op = OpV::Step { path: src, line: line as i64, column: step_column(st, src, column) };
    let s1 = push_op(st, op);
    lemma_write_vars_keeps_step(TracerV { step_open: true, deferred: seq![], ..s1 }, st.deferred);
    assert(("ResourceOwnerChange:"@ + resource_type) + "#"@ + decimal_digits(uuid as nat)
        =~= "ResourceOwnerChange:"@ + crate::conversion::resource_id(resource_type, uuid));
}

/// The text of emitted fields: nothing for none, `name: value` for one, and
/// each further field appended after `, `.
pub proof fn law_emit_fields_text(fs: Seq<ArgV>, f: ArgV)
    ensures
        crate::conversion::emit_fields_text(seq![]) == Seq::<char>::empty(),
        crate::conversion::emit_fields_text(seq![f]) == f.name + ": "@ + f.value,
        fs.len() > 0 ==> crate::conversion::emit_fields_text(fs.push(f))
            == crate::conversion::emit_fields_text(fs) + ", "@ + f.name + ": "@ + f.value,
{
    assert(seq![f].drop_last() =~= Seq::<ArgV>::empty());
    assert(fs.push(f).drop_last() =~= fs);
    assert(Seq::<char>::empty() + Seq::<char>::empty() + f.name + ": "@ + f.value =~= f.name + ": "@
        + f.value);
}

/// An emitted event is logged last of all to the event log as
/// `CadenceEmit:<name>`, with the text `CadenceEmit:<name>(<fields>)`.
pub proof fn law_emit_record(st: TracerV, src: Seq<char>, name: Seq<char>, fields: Seq<ArgV>)
    ensures
        ({
            let r = convert_event(st, src, EventV::Emit { name, fields });
            &&& r.ops.len() > 0
            &&& r.ops.last() == OpV::SpecialEvent {
                kind: EventKind::EvmEvent,
                metadata: "CadenceEmit:"@ + name,
                content: "CadenceEmit:"@ + name + "("@ + crate::conversion::emit_fields_text(fields)
                    + ")"@,
            }
        }),
{
}

} // verus!
