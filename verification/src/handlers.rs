//! The recorder's handling of each helper trace event, and of a whole run.

use vstd::prelude::*;
use crate::text::{chars_of, is_lit, push_chars, push_lit, string_of, u64_decimal};
use crate::events::{EventV, TraceArg, TraceEvent, args_view, events_view, opt_str};
use crate::ops::{EventKind, OpV, TraceOp, ops_view};
use crate::value::{TypeKind, Value, ValueV, lemma_values_view_push, values_view};
use crate::paths::{resolve_step_source_path, step_path};
use crate::tracer::{
    CadenceTracer, SourceLines, lemma_apply_reqs_push, clone_value, opt_chars, push_op,
    sources_view,
};
use crate::conversion::{
    access_tag, call_args, composite_tag, convert_call, convert_event, convert_events,
    convert_return, emit_fields, emit_fields_text, error_route, flush, resource_id,
    resource_lifecycle, tagged, trace_ops,
};

verus! {

/// The characters of `s`.
fn text(s: &String) -> (res: Vec<char>)
    ensures
        res@ == s@,
{
    chars_of(s.as_str())
}

/// The characters of `o`, if any.
fn opt_text(o: &Option<String>) -> (res: Option<Vec<char>>)
    ensures
        opt_chars(res) == opt_str(*o),
{
    match o {
        Some(s) => Some(text(s)),
        None => None,
    }
}

pub open spec fn opt_lit(o: Option<&str>) -> Option<Seq<char>> {
    match o {
        Some(s) => Some(s@),
        None => None,
    }
}

/// The visibility tag of the Cadence access modifier `access`: `self`,
/// `contract`, `account` and `all` have one, anything else has none.
pub fn visibility_tag(access: &str) -> (res: Option<&'static str>)
    ensures
        opt_lit(res) == access_tag(access@),
{
    let a = chars_of(access);
    if is_lit(&a, "self") {
        Some("AccessSelf")
    } else if is_lit(&a, "contract") {
        Some("AccessContract")
    } else if is_lit(&a, "account") {
        Some("AccessAccount")
    } else if is_lit(&a, "all") {
        Some("AccessAll")
    } else {
        None
    }
}

/// `rt#uuid`.
fn resource_id_text(rt: &String, uuid: u64) -> (res: Vec<char>)
    ensures
        res@ == resource_id(rt@, uuid),
{
    let mut id = text(rt);
    push_lit(&mut id, "#");
    let d = u64_decimal(uuid);
    push_chars(&mut id, &d);
    id
}

/// The payload fields of an emitted event, `name: value` separated by `, `.
fn emit_text(fields: &Vec<TraceArg>) -> (res: Vec<char>)
    ensures
        res@ == emit_fields_text(args_view(fields@)),
{
    let ghost fs = args_view(fields@);
    let mut out: Vec<char> = Vec::new();
    let mut i: usize = 0;
    while i < fields.len()
        invariant
            i <= fields@.len(),
            fs == args_view(fields@),
            out@ == emit_fields_text(fs.take(i as int)),
        decreases fields@.len() - i,
    {
        assert(fs.take(i + 1).drop_last() =~= fs.take(i as int));
        assert(fs.take(i + 1).last() == fields@[i as int]@);
        if i > 0 {
            push_lit(&mut out, ", ");
        }
        let n = text(&fields[i].name);
        push_chars(&mut out, &n);
        push_lit(&mut out, ": ");
        let v = text(&fields[i].value);
        push_chars(&mut out, &v);
        i = i + 1;
    }
    assert(fs.take(fields@.len() as int) =~= fs);
    out
}

impl CadenceTracer {
    /// An entry of the trace-log event channel whose metadata and content
    /// are both `t`.
    fn tag_event(&mut self, t: &[char])
        ensures
            final(self)@ == tagged(old(self)@, t@),
    {
        self.push_op(
            TraceOp::SpecialEvent {
                kind: EventKind::TraceLogEvent,
                metadata: string_of(t),
                content: string_of(t),
            },
        );
    }

    /// The tag `prefix` followed by `a`, `:` and `b`.
    fn tag_pair(&mut self, prefix: &str, a: &String, b: &String)
        ensures
            final(self)@ == tagged(old(self)@, prefix@ + a@ + ":"@ + b@),
    {
        let mut t = chars_of(prefix);
        push_chars(&mut t, &text(a));
        push_lit(&mut t, ":");
        push_chars(&mut t, &text(b));
        self.tag_event(&t);
    }

    fn on_step(&mut self, src: &str, file: &String, line: u32, column: Option<u32>)
        ensures
            final(self)@ == convert_event(
                old(self)@,
                src@,
                EventV::Step { file: file@, line, column },
            ),
    {
        let p = resolve_step_source_path(src, file.as_str());
        self.ensure_path_lengths(p.as_str());
        self.open_step(p.as_str(), line, column);
    }

    fn on_variable(&mut self, name: &String, value: &String, ty: &Option<String>)
        ensures
            final(self)@ == convert_event(
                old(self)@,
                seq![],
                EventV::Variable { name: name@, value: value@, cadence_type: opt_str(*ty) },
            ),
    {
        let v = text(value);
        let rec = self.value_record(&v, opt_text(ty));
        self.register_typed_variable(name.clone(), rec);
    }

    fn on_call(
        &mut self,
        src: &str,
        name: &String,
        args: &Vec<TraceArg>,
        access: &Option<String>,
        script: bool,
    )
        ensures
            final(self)@ == convert_call(
                old(self)@,
                src@,
                name@,
                args_view(args@),
                opt_str(*access),
                script,
            ),
    {
        let ghost av = args_view(args@);
        self.push_op(TraceOp::EnsureFunction { name: name.clone(), path: src.to_string(), line: 1 });
        let ghost s1 = self@;
        let mut vals: Vec<Value> = Vec::new();
        let mut i: usize = 0;
        while i < args.len()
            invariant
                i <= args@.len(),
                av == args_view(args@),
                self@ == call_args(s1, av.take(i as int)).0,
                values_view(vals@) == call_args(s1, av.take(i as int)).1,
            decreases args@.len() - i,
        {
            assert(av.take(i + 1).drop_last() =~= av.take(i as int));
            assert(av.take(i + 1).last() == args@[i as int]@);
            let a = &args[i];
            let v = text(&a.value);
            let rec = self.value_record(&v, opt_text(&a.cadence_type));
            let staged = clone_value(&rec);
            self.register_typed_variable(a.name.clone(), staged);
            let handed = clone_value(&rec);
            self.push_op(TraceOp::CallArg { name: a.name.clone(), value: handed });
            proof {
                lemma_values_view_push(vals@, rec);
            }
            vals.push(rec);
            i = i + 1;
        }
        assert(av.take(args@.len() as int) =~= av);
        self.push_op(TraceOp::Call { function: name.clone(), args: vals });
        self.close_step();
        match access {
            Some(a) => match visibility_tag(a.as_str()) {
                Some(tag) => {
                    let mut t = chars_of("CadenceAccess:");
                    push_chars(&mut t, &text(name));
                    push_lit(&mut t, ":");
                    push_lit(&mut t, tag);
                    self.tag_event(&t);
                },
                None => {},
            },
            None => {},
        }
        if script {
            let mut t = chars_of("CadenceScriptEntry:");
            push_chars(&mut t, &text(name));
            self.tag_event(&t);
        }
    }

    fn on_return(&mut self, value: &Option<String>, ty: &Option<String>)
        ensures
            final(self)@ == convert_return(old(self)@, opt_str(*value), opt_str(*ty)),
    {
        match value {
            Some(v) => {
                let vc = text(v);
                if vc.len() == 0 || is_lit(&vc, "nil") || is_lit(&vc, "Void") {
                    self.push_op(TraceOp::ReturnNone);
                } else {
                    let rec = self.value_record(&vc, opt_text(ty));
                    let enc = match &rec {
                        Value::Bool { .. } => true,
                        Value::String { .. } => true,
                        _ => false,
                    };
                    if enc {
                        self.push_op(TraceOp::ReturnEncoded { value: rec });
                    } else {
                        self.push_op(TraceOp::Return { value: rec });
                    }
                }
            },
            None => {
                self.push_op(TraceOp::ReturnNone);
            },
        }
        self.close_step();
    }

    fn on_error(&mut self, message: &String, error_kind: &Option<String>)
        ensures
            final(self)@ == push_op(
                old(self)@,
                OpV::SpecialEvent {
                    kind: error_route(opt_str(*error_kind)).0,
                    metadata: error_route(opt_str(*error_kind)).1,
                    content: message@,
                },
            ),
    {
        let (kind, tag): (EventKind, &str) = match error_kind {
            Some(k) => {
                let kc = text(k);
                if is_lit(&kc, "pre") {
                    (EventKind::TraceLogEvent, "CadencePreCondition")
                } else if is_lit(&kc, "post") {
                    (EventKind::TraceLogEvent, "CadencePostCondition")
                } else {
                    (EventKind::Error, "CadenceRuntimeError")
                }
            },
            None => (EventKind::Error, "CadenceRuntimeError"),
        };
        self.push_op(
            TraceOp::SpecialEvent { kind, metadata: tag.to_string(), content: message.clone() },
        );
    }

    fn on_resource(
        &mut self,
        src: &str,
        rt: &String,
        uuid: u64,
        line: u32,
        column: Option<u32>,
        value_text: &[char],
        tag: &str,
        content: &[char],
        init_fn: bool,
    )
        ensures
            final(self)@ == resource_lifecycle(
                old(self)@,
                src@,
                rt@,
                uuid,
                line,
                column,
                value_text@,
                tag@,
                content@,
                init_fn,
            ),
    {
        self.open_step(src, line, column);
        if init_fn {
            let mut n = text(rt);
            push_lit(&mut n, ".init");
            self.push_op(
                TraceOp::EnsureFunction {
                    name: string_of(&n),
                    path: src.to_string(),
                    line: line as i64,
                },
            );
        }
        let mut key = chars_of("@Resource:");
        push_chars(&mut key, &text(rt));
        let ghost s2 = self@;
        let tn = self.ensure_type(TypeKind::Int, &key);
        proof {
            let r = (TypeKind::Int, key@);
            lemma_apply_reqs_push(s2, Seq::empty(), r);
            assert(Seq::<(TypeKind, Seq<char>)>::empty().push(r) =~= seq![r]);
        }
        let id = resource_id_text(rt, uuid);
        let mut vname = chars_of("@resource:");
        push_chars(&mut vname, &id);
        let val = Value::String { text: string_of(value_text), ty: tn };
        assert(val@ == ValueV::String { text: value_text@, ty: key@ });
        self.register_typed_variable(string_of(&vname), val);
        let mut meta = chars_of(tag);
        push_chars(&mut meta, &id);
        self.push_op(
            TraceOp::SpecialEvent {
                kind: EventKind::TraceLogEvent,
                metadata: string_of(&meta),
                content: string_of(content),
            },
        );
    }

    fn on_emit(&mut self, name: &String, fields: &Vec<TraceArg>)
        ensures
            final(self)@ == convert_event(
                old(self)@,
                seq![],
                EventV::Emit { name: name@, fields: args_view(fields@) },
            ),
    {
        let ghost fs = args_view(fields@);
        let mut payload = chars_of("CadenceEmit:");
        push_chars(&mut payload, &text(name));
        push_lit(&mut payload, "(");
        push_chars(&mut payload, &emit_text(fields));
        push_lit(&mut payload, ")");
        let ghost s0 = self@;
        let mut i: usize = 0;
        while i < fields.len()
            invariant
                i <= fields@.len(),
                fs == args_view(fields@),
                self@ == emit_fields(s0, name@, fs.take(i as int)),
            decreases fields@.len() - i,
        {
            assert(fs.take(i + 1).drop_last() =~= fs.take(i as int));
            assert(fs.take(i + 1).last() == fields@[i as int]@);
            let f = &fields[i];
            let v = text(&f.value);
            let rec = self.value_record(&v, opt_text(&f.cadence_type));
            let mut vname = chars_of("emit:");
            push_chars(&mut vname, &text(name));
            push_lit(&mut vname, ".");
            push_chars(&mut vname, &text(&f.name));
            self.register_typed_variable(string_of(&vname), rec);
            i = i + 1;
        }
        assert(fs.take(fields@.len() as int) =~= fs);
        let mut meta = chars_of("CadenceEmit:");
        push_chars(&mut meta, &text(name));
        self.push_op(
            TraceOp::SpecialEvent {
                kind: EventKind::EvmEvent,
                metadata: string_of(&meta),
                content: string_of(&payload),
            },
        );
    }
}

impl CadenceTracer {
    /// Record one helper event of a run of the entry source `src`.
    pub fn convert_event(&mut self, src: &str, e: &TraceEvent)
        ensures
            final(self)@ == convert_event(old(self)@, src@, e@),
    {
        match e {
            TraceEvent::Step { file, line, column } => self.on_step(src, file, *line, *column),
            TraceEvent::Variable { name, value, cadence_type } => self.on_variable(
                name,
                value,
                cadence_type,
            ),
            TraceEvent::Call { name, args, access, script } => self.on_call(
                src,
                name,
                args,
                access,
                *script,
            ),
            TraceEvent::Return { value, cadence_type } => self.on_return(value, cadence_type),
            TraceEvent::Error { message, error_kind } => self.on_error(message, error_kind),
            TraceEvent::Event { name, payload } => {
                let mut meta = chars_of("CadenceEvent:");
                push_chars(&mut meta, &text(name));
                self.push_op(
                    TraceOp::SpecialEvent {
                        kind: EventKind::EvmEvent,
                        metadata: string_of(&meta),
                        content: payload.clone(),
                    },
                );
            },
            TraceEvent::ResourceCreate { resource_type, uuid, owner, file: _, line, column } => {
                let mut vt = chars_of("created(owner=");
                push_chars(&mut vt, &text(owner));
                push_lit(&mut vt, ")");
                let mut c = chars_of("owner=");
                push_chars(&mut c, &text(owner));
                self.on_resource(
                    src,
                    resource_type,
                    *uuid,
                    *line,
                    *column,
                    &vt,
                    "CadenceResourceCreate:",
                    &c,
                    true,
                );
            },
            TraceEvent::ResourceMove {
                resource_type,
                uuid,
                from_owner,
                to_owner,
                file: _,
                line,
                column,
            } => {
                let mut vt = chars_of("moved(");
                push_chars(&mut vt, &text(from_owner));
                push_lit(&mut vt, " -> ");
                push_chars(&mut vt, &text(to_owner));
                push_lit(&mut vt, ")");
                let mut c = chars_of("from=");
                push_chars(&mut c, &text(from_owner));
                push_lit(&mut c, " to=");
                push_chars(&mut c, &text(to_owner));
                self.on_resource(
                    src,
                    resource_type,
                    *uuid,
                    *line,
                    *column,
                    &vt,
                    "CadenceResourceMove:",
                    &c,
                    false,
                );
            },
            TraceEvent::ResourceDestroy { resource_type, uuid, owner, file: _, line, column } => {
                let mut vt = chars_of("destroyed(owner=");
                push_chars(&mut vt, &text(owner));
                push_lit(&mut vt, ")");
                let mut c = chars_of("owner=");
                push_chars(&mut c, &text(owner));
                self.on_resource(
                    src,
                    resource_type,
                    *uuid,
                    *line,
                    *column,
                    &vt,
                    "CadenceResourceDestroy:",
                    &c,
                    false,
                );
            },
            TraceEvent::ResourceOwnerChange {
                resource_type,
                uuid,
                from_owner,
                to_owner,
                file: _,
                line,
                column,
            } => {
                self.open_step(src, *line, *column);
                let mut id = chars_of("ResourceOwnerChange:");
                push_chars(&mut id, &resource_id_text(resource_type, *uuid));
                let mut c: Vec<char> = Vec::new();
                push_chars(&mut c, &id);
                assert(c@ =~= id@);
                push_lit(&mut c, ": ");
                push_chars(&mut c, &text(from_owner));
                push_lit(&mut c, " -> ");
                push_chars(&mut c, &text(to_owner));
                self.push_op(
                    TraceOp::SpecialEvent {
                        kind: EventKind::TraceLogEvent,
                        metadata: string_of(&id),
                        content: string_of(&c),
                    },
                );
            },
            TraceEvent::ForceNilUnwrap { context } => {
                let mut t = chars_of("ForceNilUnwrap:");
                push_chars(&mut t, &text(context));
                self.tag_event(&t);
            },
            TraceEvent::Emit { name, fields } => self.on_emit(name, fields),
            TraceEvent::CompositeKind { kind, declared_type } => {
                let k = text(kind);
                let tag: Option<&str> = if is_lit(&k, "structure") {
                    Some("CompositeKindStructure")
                } else if is_lit(&k, "resource") {
                    Some("CompositeKindResource")
                } else if is_lit(&k, "event") {
                    Some("CompositeKindEvent")
                } else {
                    None
                };
                assert(opt_lit(tag) == composite_tag(kind@));
                match tag {
                    Some(tg) => {
                        let mut t = chars_of(tg);
                        push_lit(&mut t, ":");
                        push_chars(&mut t, &text(declared_type));
                        self.tag_event(&t);
                    },
                    None => {},
                }
            },
            TraceEvent::AnyTypeBind { static_type, runtime_type, varname } => {
                let mut t = chars_of("CadenceAnyType:");
                push_chars(&mut t, &text(static_type));
                push_lit(&mut t, ":");
                push_chars(&mut t, &text(runtime_type));
                push_lit(&mut t, ":");
                push_chars(&mut t, &text(varname));
                self.tag_event(&t);
            },
            TraceEvent::TypeAlias { alias_name, underlying_type } => self.tag_pair(
                "CadenceTypeAlias:",
                alias_name,
                underlying_type,
            ),
            TraceEvent::AttachmentAttach { attachment_type, target_type } => self.tag_pair(
                "CadenceAttachmentAttach:",
                attachment_type,
                target_type,
            ),
            TraceEvent::AttachmentRemove { attachment_type, target_type } => self.tag_pair(
                "CadenceAttachmentRemove:",
                attachment_type,
                target_type,
            ),
        }
    }

    /// Record the helper events of a run of the entry source `src`, in
    /// order; then hand every variable still staged to the writer, since no
    /// step follows for it to attach to.
    pub fn convert_events(&mut self, src: &str, events: &Vec<TraceEvent>)
        ensures
            final(self)@ == flush(convert_events(old(self)@, src@, events_view(events@))),
    {
        let ghost evs = events_view(events@);
        let ghost s0 = self@;
        let mut i: usize = 0;
        while i < events.len()
            invariant
                i <= events@.len(),
                evs == events_view(events@),
                self@ == convert_events(s0, src@, evs.take(i as int)),
            decreases events@.len() - i,
        {
            assert(evs.take(i + 1).drop_last() =~= evs.take(i as int));
            assert(evs.take(i + 1).last() == events@[i as int]@);
            self.convert_event(src, &events[i]);
            i = i + 1;
        }
        assert(evs.take(events@.len() as int) =~= evs);
        self.flush_deferred();
    }

    /// Every writer operation that records the helper events `events` of a
    /// run of the entry source `source_path`, given the line-length tables
    /// of the source files that could be read.
    pub fn trace_low_level_events_from_events(
        source_path: &str,
        events: &Vec<TraceEvent>,
        sources: Vec<SourceLines>,
    ) -> (res: Vec<TraceOp>)
        ensures
            ops_view(res@) == trace_ops(source_path@, sources_view(sources@), events_view(events@)),
    {
        let mut t = CadenceTracer::new(source_path, sources);
        t.convert_events(source_path, events);
        t.into_ops()
    }
}

/// The source files a run of the entry source `src` steps through: the
/// entry itself, then the file of each step event, in order.
pub open spec fn step_files(src: Seq<char>, evs: Seq<EventV>) -> Seq<Seq<char>>
    decreases evs.len(),
{
    if evs.len() == 0 {
        seq![src]
    } else {
        let r = step_files(src, evs.drop_last());
        match evs.last() {
            EventV::Step { file, .. } => r.push(step_path(src, file)),
            _ => r,
        }
    }
}

pub open spec fn strings_of(v: Seq<String>) -> Seq<Seq<char>> {
    v.map_values(|s: String| s@)
}

/// The source files whose line tables a run of `source_path` may use: the
/// entry source and the file of every step event.
pub fn source_files(source_path: &str, events: &Vec<TraceEvent>) -> (res: Vec<String>)
    ensures
        strings_of(res@) == step_files(source_path@, events_view(events@)),
{
    let ghost evs = events_view(events@);
    let mut out: Vec<String> = Vec::new();
    out.push(source_path.to_string());
    assert(strings_of(out@) =~= seq![source_path@]);
    let mut i: usize = 0;
    while i < events.len()
        invariant
            i <= events@.len(),
            evs == events_view(events@),
            strings_of(out@) == step_files(source_path@, evs.take(i as int)),
        decreases events@.len() - i,
    {
        assert(evs.take(i + 1).drop_last() =~= evs.take(i as int));
        assert(evs.take(i + 1).last() == events@[i as int]@);
        match &events[i] {
            TraceEvent::Step { file, .. } => {
                let p = resolve_step_source_path(source_path, file.as_str());
                let ghost before = out@;
                out.push(p);
                assert(strings_of(out@) =~= strings_of(before).push(p@));
            },
            _ => {},
        }
        i = i + 1;
    }
    assert(evs.take(events@.len() as int) =~= evs);
    out
}

} // verus!
