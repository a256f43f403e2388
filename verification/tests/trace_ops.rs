use codetracer_flow_recorder::events::{TraceArg, TraceEvent};
use codetracer_flow_recorder::handlers::{source_files, visibility_tag};
use codetracer_flow_recorder::ops::{EventKind, TraceOp};
use codetracer_flow_recorder::tracer::{CadenceTracer, SourceLines};
use codetracer_flow_recorder::value::{TypeKind, Value};

fn s(x: &str) -> String {
    x.to_string()
}

fn call(name: &str) -> TraceEvent {
    TraceEvent::Call { name: s(name), args: vec![], access: None, script: false }
}

fn step(file: &str, line: u32) -> TraceEvent {
    TraceEvent::Step { file: s(file), line, column: None }
}

fn step_at(file: &str, line: u32, column: u32) -> TraceEvent {
    TraceEvent::Step { file: s(file), line, column: Some(column) }
}

fn var(name: &str, value: &str, ty: &str) -> TraceEvent {
    TraceEvent::Variable { name: s(name), value: s(value), cadence_type: Some(s(ty)) }
}

fn ret(value: &str, ty: &str) -> TraceEvent {
    TraceEvent::Return { value: Some(s(value)), cadence_type: Some(s(ty)) }
}

fn arg(name: &str, value: &str, ty: &str) -> TraceArg {
    TraceArg { name: s(name), value: s(value), cadence_type: Some(s(ty)) }
}

fn ops_of(src: &str, events: Vec<TraceEvent>) -> Vec<TraceOp> {
    CadenceTracer::trace_low_level_events_from_events(src, &events, vec![])
}

fn special(ops: &[TraceOp], metadata: &str) -> Option<(EventKind, String)> {
    ops.iter().find_map(|op| match op {
        TraceOp::SpecialEvent { kind, metadata: m, content } if m == metadata => {
            Some((*kind, content.clone()))
        }
        _ => None,
    })
}

fn intv(i: i64, ty: &str) -> Value {
    Value::Int { i, ty: s(ty) }
}

#[test]
fn test_cadence_call_args_are_staged_on_call_records() {
    let events = vec![
        call("main"),
        step("call_args.cdc", 1),
        TraceEvent::Call {
            name: s("add"),
            args: vec![arg("x", "10", "Int"), arg("y", "20", "Int")],
            access: None,
            script: false,
        },
        step("call_args.cdc", 2),
        ret("30", "Int"),
        ret("30", "Int"),
    ];
    let ops = ops_of("call_args.cdc", events);
    let call_arg_lengths: Vec<usize> = ops
        .iter()
        .filter_map(|op| match op {
            TraceOp::Call { args, .. } => Some(args.len()),
            _ => None,
        })
        .collect();
    assert!(
        call_arg_lengths.iter().any(|len| *len >= 2),
        "expected a Call record with staged Cadence args, got lengths {call_arg_lengths:?}"
    );
}

#[test]
fn test_cadence_events_route_to_evm_event_log() {
    let events = vec![
        call("main"),
        step("event_test.cdc", 3),
        TraceEvent::Event { name: s("MyEvent"), payload: s("MyEvent(message: \"done\")") },
        ret("", "Void"),
    ];
    let ops = ops_of("event_test.cdc", events);
    let (kind, content) =
        special(&ops, "CadenceEvent:MyEvent").expect("expected CadenceEvent:MyEvent special event");
    assert_eq!(kind, EventKind::EvmEvent);
    assert_eq!(content, "MyEvent(message: \"done\")");
}

#[test]
fn test_replay_on_chain_state_and_event_ndjson_routes_to_special_events() {
    let events = vec![
        call("execute"),
        step("tx_deadbeef.cdc", 8),
        TraceEvent::ResourceMove {
            resource_type: s("FlowToken.Vault"),
            uuid: 9001,
            from_owner: s("0xSender"),
            to_owner: s("0xReceiver"),
            file: s("FlowToken.cdc"),
            line: 42,
            column: None,
        },
        TraceEvent::Event {
            name: s("flow.AccountContract.TokensDeposited"),
            payload: s("TokensDeposited(amount: 10.0, to: 0xReceiver)"),
        },
        ret("", "Void"),
    ];
    let ops = ops_of("tx_deadbeef.cdc", events);
    let (kind, content) = special(&ops, "CadenceResourceMove:FlowToken.Vault#9001")
        .expect("expected replay resource_move special event");
    assert_eq!(kind, EventKind::TraceLogEvent);
    assert_eq!(content, "from=0xSender to=0xReceiver");
    let (kind, content) = special(&ops, "CadenceEvent:flow.AccountContract.TokensDeposited")
        .expect("expected replay Cadence event special event");
    assert_eq!(kind, EventKind::EvmEvent);
    assert_eq!(content, "TokensDeposited(amount: 10.0, to: 0xReceiver)");
}

/// The operations every trace of `src` (with no readable source) starts with.
fn prologue(src: &str) -> Vec<TraceOp> {
    let mut v = vec![
        TraceOp::EnableColumnAwareSteps,
        TraceOp::EnableColumnBreakpoints,
        TraceOp::EnableColumnMotions,
        TraceOp::RegisterPath { path: s(src), line_lengths: vec![] },
        TraceOp::Start { path: s(src), line: 1 },
    ];
    for t in ["Int", "UInt64", "Fix64", "Bool", "String", "Address"] {
        v.push(TraceOp::EnsureType { kind: TypeKind::Int, name: s(t) });
    }
    v
}

#[test]
fn empty_run_is_the_prologue() {
    assert_eq!(ops_of("a.cdc", vec![]), prologue("a.cdc"));
}

#[test]
fn variables_attach_to_the_open_step() {
    let ops = ops_of(
        "test.cdc",
        vec![
            call("main"),
            step("test.cdc", 2),
            var("x", "42", "Int"),
            step("test.cdc", 3),
            var("msg", "hello", "String"),
            TraceEvent::Return { value: Some(s("42")), cadence_type: None },
        ],
    );
    let mut expected = prologue("test.cdc");
    expected.extend(vec![
        TraceOp::EnsureFunction { name: s("main"), path: s("test.cdc"), line: 1 },
        TraceOp::Call { function: s("main"), args: vec![] },
        TraceOp::Step { path: s("test.cdc"), line: 2, column: None },
        TraceOp::Variable { name: s("x"), value: intv(42, "Int") },
        TraceOp::Step { path: s("test.cdc"), line: 3, column: None },
        TraceOp::VariableEncoded {
            name: s("msg"),
            value: Value::String { text: s("hello"), ty: s("String") },
        },
        TraceOp::Return { value: intv(42, "Int") },
    ]);
    assert_eq!(ops, expected);
}

#[test]
fn variable_after_return_waits_for_next_step() {
    let ops = ops_of(
        "a.cdc",
        vec![
            step("a.cdc", 1),
            call("foo"),
            step("a.cdc", 5),
            ret("7", "Int"),
            var("x", "7", "Int"),
            step("a.cdc", 2),
        ],
    );
    let tail: Vec<&TraceOp> = ops.iter().rev().take(3).collect();
    assert_eq!(*tail[0], TraceOp::Variable { name: s("x"), value: intv(7, "Int") });
    assert_eq!(*tail[1], TraceOp::Step { path: s("a.cdc"), line: 2, column: None });
    assert_eq!(*tail[2], TraceOp::Return { value: intv(7, "Int") });
}

#[test]
fn staged_variables_flushed_at_end() {
    let ops = ops_of("a.cdc", vec![var("late", "true", "Bool")]);
    assert_eq!(
        ops.last(),
        Some(&TraceOp::VariableEncoded {
            name: s("late"),
            value: Value::Bool { b: true, ty: s("Bool") },
        })
    );
}

#[test]
fn call_arguments_are_staged_and_handed_over() {
    let ops = ops_of(
        "a.cdc",
        vec![
            step("a.cdc", 1),
            TraceEvent::Call {
                name: s("add"),
                args: vec![arg("x", "10", "Int"), arg("ok", "false", "Bool")],
                access: Some(s("contract")),
                script: true,
            },
        ],
    );
    let n = prologue("a.cdc").len();
    let expected = vec![
        TraceOp::Step { path: s("a.cdc"), line: 1, column: None },
        TraceOp::EnsureFunction { name: s("add"), path: s("a.cdc"), line: 1 },
        TraceOp::Variable { name: s("x"), value: intv(10, "Int") },
        TraceOp::CallArg { name: s("x"), value: intv(10, "Int") },
        TraceOp::VariableEncoded { name: s("ok"), value: Value::Bool { b: false, ty: s("Bool") } },
        TraceOp::CallArg { name: s("ok"), value: Value::Bool { b: false, ty: s("Bool") } },
        TraceOp::Call {
            function: s("add"),
            args: vec![intv(10, "Int"), Value::Bool { b: false, ty: s("Bool") }],
        },
        TraceOp::SpecialEvent {
            kind: EventKind::TraceLogEvent,
            metadata: s("CadenceAccess:add:AccessContract"),
            content: s("CadenceAccess:add:AccessContract"),
        },
        TraceOp::SpecialEvent {
            kind: EventKind::TraceLogEvent,
            metadata: s("CadenceScriptEntry:add"),
            content: s("CadenceScriptEntry:add"),
        },
    ];
    assert_eq!(&ops[n..], &expected[..]);
}

#[test]
fn unknown_access_has_no_tag() {
    let ops = ops_of(
        "a.cdc",
        vec![TraceEvent::Call { name: s("f"), args: vec![], access: Some(s("private")), script: false }],
    );
    assert!(!ops.iter().any(|op| matches!(op, TraceOp::SpecialEvent { .. })));
}

#[test]
fn visibility_tags() {
    assert_eq!(visibility_tag("self"), Some("AccessSelf"));
    assert_eq!(visibility_tag("contract"), Some("AccessContract"));
    assert_eq!(visibility_tag("account"), Some("AccessAccount"));
    assert_eq!(visibility_tag("all"), Some("AccessAll"));
    assert_eq!(visibility_tag("pub"), None);
    assert_eq!(visibility_tag(" all"), None);
}

#[test]
fn error_kinds_route_apart() {
    let ops = ops_of(
        "a.cdc",
        vec![
            TraceEvent::Error { message: s("m1"), error_kind: Some(s("pre")) },
            TraceEvent::Error { message: s("m2"), error_kind: Some(s("post")) },
            TraceEvent::Error { message: s("m3"), error_kind: Some(s("panic")) },
            TraceEvent::Error { message: s("m4"), error_kind: None },
        ],
    );
    assert_eq!(special(&ops, "CadencePreCondition"), Some((EventKind::TraceLogEvent, s("m1"))));
    assert_eq!(special(&ops, "CadencePostCondition"), Some((EventKind::TraceLogEvent, s("m2"))));
    let errors: Vec<&TraceOp> = ops
        .iter()
        .filter(|op| matches!(op, TraceOp::SpecialEvent { kind: EventKind::Error, .. }))
        .collect();
    assert_eq!(errors.len(), 2);
    assert_eq!(
        *errors[1],
        TraceOp::SpecialEvent {
            kind: EventKind::Error,
            metadata: s("CadenceRuntimeError"),
            content: s("m4"),
        }
    );
}

#[test]
fn test_cadence_runtime_error_emits_error_event() {
    let ops = ops_of(
        "runtime_error.cdc",
        vec![
            call("main"),
            step("runtime_error.cdc", 3),
            TraceEvent::Error {
                message: s("pre-condition failed: balance must be non-negative"),
                error_kind: None,
            },
        ],
    );
    assert_eq!(
        special(&ops, "CadenceRuntimeError"),
        Some((EventKind::Error, s("pre-condition failed: balance must be non-negative")))
    );
}

#[test]
fn resource_create_registers_init_type_and_local() {
    let ops = ops_of(
        "r.cdc",
        vec![TraceEvent::ResourceCreate {
            resource_type: s("FlowToken.Vault"),
            uuid: 1001,
            owner: s("0x01"),
            file: s("r.cdc"),
            line: 5,
            column: Some(3),
        }],
    );
    let n = prologue("r.cdc").len();
    let expected = vec![
        TraceOp::Step { path: s("r.cdc"), line: 5, column: None },
        TraceOp::EnsureFunction { name: s("FlowToken.Vault.init"), path: s("r.cdc"), line: 5 },
        TraceOp::EnsureType { kind: TypeKind::Int, name: s("@Resource:FlowToken.Vault") },
        TraceOp::VariableEncoded {
            name: s("@resource:FlowToken.Vault#1001"),
            value: Value::String { text: s("created(owner=0x01)"), ty: s("@Resource:FlowToken.Vault") },
        },
        TraceOp::SpecialEvent {
            kind: EventKind::TraceLogEvent,
            metadata: s("CadenceResourceCreate:FlowToken.Vault#1001"),
            content: s("owner=0x01"),
        },
    ];
    assert_eq!(&ops[n..], &expected[..]);
}

#[test]
fn resource_destroy_and_owner_change() {
    let ops = ops_of(
        "r.cdc",
        vec![
            TraceEvent::ResourceDestroy {
                resource_type: s("NFT.Token"),
                uuid: 2003,
                owner: s("0x10"),
                file: s("r.cdc"),
                line: 12,
                column: None,
            },
            TraceEvent::ResourceOwnerChange {
                resource_type: s("NFT.Token"),
                uuid: 7,
                from_owner: s("0xA"),
                to_owner: s("0xB"),
                file: s("r.cdc"),
                line: 13,
                column: None,
            },
        ],
    );
    assert_eq!(
        special(&ops, "CadenceResourceDestroy:NFT.Token#2003"),
        Some((EventKind::TraceLogEvent, s("owner=0x10")))
    );
    assert_eq!(
        special(&ops, "ResourceOwnerChange:NFT.Token#7"),
        Some((EventKind::TraceLogEvent, s("ResourceOwnerChange:NFT.Token#7: 0xA -> 0xB")))
    );
    assert!(ops.contains(&TraceOp::VariableEncoded {
        name: s("@resource:NFT.Token#2003"),
        value: Value::String { text: s("destroyed(owner=0x10)"), ty: s("@Resource:NFT.Token") },
    }));
    let type_regs = ops
        .iter()
        .filter(|op| matches!(op, TraceOp::EnsureType { name, .. } if name == "@Resource:NFT.Token"))
        .count();
    assert_eq!(type_regs, 1);
}

#[test]
fn tagged_metadata_events() {
    let ops = ops_of(
        "a.cdc",
        vec![
            TraceEvent::ForceNilUnwrap { context: s("x!") },
            TraceEvent::CompositeKind { kind: s("resource"), declared_type: s("Vault") },
            TraceEvent::CompositeKind { kind: s("contract"), declared_type: s("C") },
            TraceEvent::AnyTypeBind {
                static_type: s("AnyResource"),
                runtime_type: s("Vault"),
                varname: s("r"),
            },
            TraceEvent::TypeAlias { alias_name: s("Amount"), underlying_type: s("UFix64") },
            TraceEvent::AttachmentAttach { attachment_type: s("Att"), target_type: s("T") },
            TraceEvent::AttachmentRemove { attachment_type: s("Att"), target_type: s("T") },
        ],
    );
    let tags: Vec<String> = ops
        .iter()
        .filter_map(|op| match op {
            TraceOp::SpecialEvent { kind: EventKind::TraceLogEvent, metadata, content } => {
                assert_eq!(metadata, content);
                Some(content.clone())
            }
            _ => None,
        })
        .collect();
    assert_eq!(
        tags,
        vec![
            "ForceNilUnwrap:x!",
            "CompositeKindResource:Vault",
            "CadenceAnyType:AnyResource:Vault:r",
            "CadenceTypeAlias:Amount:UFix64",
            "CadenceAttachmentAttach:Att:T",
            "CadenceAttachmentRemove:Att:T",
        ]
    );
}

#[test]
fn emit_payload_and_locals() {
    let ops = ops_of(
        "a.cdc",
        vec![
            step("a.cdc", 4),
            TraceEvent::Emit {
                name: s("Deposited"),
                fields: vec![arg("amount", "10", "Int"), arg("to", "0x01", "Address")],
            },
        ],
    );
    assert_eq!(
        special(&ops, "CadenceEmit:Deposited"),
        Some((EventKind::EvmEvent, s("CadenceEmit:Deposited(amount: 10, to: 0x01)")))
    );
    assert!(ops.contains(&TraceOp::Variable { name: s("emit:Deposited.amount"), value: intv(10, "Int") }));
    assert!(ops.contains(&TraceOp::Variable { name: s("emit:Deposited.to"), value: intv(1, "Address") }));
}

#[test]
fn columns_only_on_files_with_line_table() {
    let sources = vec![SourceLines { path: s("/w/col.cdc"), line_lengths: vec![30, 25, 10, 1] }];
    let events = vec![
        call("main"),
        step_at("/w/col.cdc", 2, 5),
        var("a", "1", "Int"),
        step_at("/w/col.cdc", 2, 18),
        step_at("other.cdc", 1, 7),
    ];
    let ops = CadenceTracer::trace_low_level_events_from_events("/w/col.cdc", &events, sources);
    assert_eq!(ops[3], TraceOp::RegisterPath { path: s("/w/col.cdc"), line_lengths: vec![30, 25, 10, 1] });
    let steps: Vec<&TraceOp> = ops.iter().filter(|op| matches!(op, TraceOp::Step { .. })).collect();
    assert_eq!(*steps[0], TraceOp::Step { path: s("/w/col.cdc"), line: 2, column: Some(5) });
    assert_eq!(*steps[1], TraceOp::Step { path: s("/w/col.cdc"), line: 2, column: Some(18) });
    assert_eq!(*steps[2], TraceOp::Step { path: s("/w/other.cdc"), line: 1, column: None });
    assert!(ops.contains(&TraceOp::RegisterPath { path: s("/w/other.cdc"), line_lengths: vec![] }));
}

#[test]
fn each_path_registered_once() {
    let ops = ops_of(
        "dir/main.cdc",
        vec![
            step("main.cdc", 1),
            step("", 2),
            step("Lib.cdc", 3),
            step("Lib.cdc", 4),
            step("/abs/X.cdc", 5),
        ],
    );
    let regs: Vec<String> = ops
        .iter()
        .filter_map(|op| match op {
            TraceOp::RegisterPath { path, .. } => Some(path.clone()),
            _ => None,
        })
        .collect();
    assert_eq!(regs, vec!["dir/main.cdc", "dir/Lib.cdc", "/abs/X.cdc"]);
}

#[test]
fn types_registered_once_in_first_use_order() {
    let ops = ops_of(
        "a.cdc",
        vec![
            step("a.cdc", 1),
            var("xs", "[1, 2]", "[Int8]"),
            var("ys", "[3]", "[Int8]"),
        ],
    );
    let names: Vec<String> = ops
        .iter()
        .filter_map(|op| match op {
            TraceOp::EnsureType { name, .. } => Some(name.clone()),
            _ => None,
        })
        .collect();
    assert_eq!(
        names,
        vec!["Int", "UInt64", "Fix64", "Bool", "String", "Address", "[Int8]", "Int8"]
    );
}

#[test]
fn return_forms() {
    let ops = ops_of(
        "a.cdc",
        vec![
            TraceEvent::Return { value: None, cadence_type: None },
            ret("nil", "Int?"),
            ret("Void", "Void"),
            ret("hi", "String"),
        ],
    );
    let n = prologue("a.cdc").len();
    assert_eq!(
        &ops[n..],
        &[
            TraceOp::ReturnNone,
            TraceOp::ReturnNone,
            TraceOp::ReturnNone,
            TraceOp::ReturnEncoded { value: Value::String { text: s("hi"), ty: s("String") } },
        ][..]
    );
}

fn mixed_run() -> Vec<TraceEvent> {
    vec![
        call("main"),
        step("m.cdc", 1),
        var("balance", "100", "Int"),
        TraceEvent::Call {
            name: s("deposit"),
            args: vec![arg("amount", "1.5", "UFix64"), arg("to", "0x02", "Address")],
            access: Some(s("all")),
            script: false,
        },
        step("m.cdc", 7),
        TraceEvent::ResourceCreate {
            resource_type: s("Vault"),
            uuid: 3,
            owner: s("0x02"),
            file: s("m.cdc"),
            line: 8,
            column: None,
        },
        TraceEvent::Emit {
            name: s("Deposited"),
            fields: vec![arg("amount", "1.5", "UFix64"), arg("ids", "[1, 2]", "[UInt64]")],
        },
        ret("", "Void"),
        var("after", "{\"a\": [1]}", "{String: [Int]}"),
        TraceEvent::ResourceOwnerChange {
            resource_type: s("Vault"),
            uuid: 3,
            from_owner: s("0x02"),
            to_owner: s("0x03"),
            file: s("m.cdc"),
            line: 9,
            column: None,
        },
        ret("true", "Bool"),
    ]
}

#[test]
fn every_staged_variable_is_written_once() {
    let ops = ops_of("m.cdc", mixed_run());
    let vars = ops
        .iter()
        .filter(|op| matches!(op, TraceOp::Variable { .. } | TraceOp::VariableEncoded { .. }))
        .count();
    assert_eq!(vars, 1 + 2 + 1 + 2 + 1);
}

#[test]
fn call_return_and_step_counts_kept() {
    let ops = ops_of("m.cdc", mixed_run());
    let calls = ops.iter().filter(|op| matches!(op, TraceOp::Call { .. })).count();
    let returns = ops
        .iter()
        .filter(|op| {
            matches!(op, TraceOp::Return { .. } | TraceOp::ReturnEncoded { .. } | TraceOp::ReturnNone)
        })
        .count();
    let steps = ops.iter().filter(|op| matches!(op, TraceOp::Step { .. })).count();
    assert_eq!((calls, returns, steps), (2, 2, 4));
}

fn value_types(v: &Value, out: &mut Vec<String>) {
    match v {
        Value::Int { ty, .. }
        | Value::Bool { ty, .. }
        | Value::String { ty, .. }
        | Value::Raw { ty, .. }
        | Value::BigInt { ty, .. }
        | Value::NoValue { ty } => out.push(ty.clone()),
        Value::Sequence { elements, ty, .. } | Value::Tuple { elements, ty } => {
            out.push(ty.clone());
            for e in elements {
                value_types(e, out);
            }
        }
        Value::Struct { field_values, ty } => {
            out.push(ty.clone());
            for e in field_values {
                value_types(e, out);
            }
        }
        Value::Variant { contents, ty, .. } => {
            out.push(ty.clone());
            value_types(contents, out);
        }
        Value::Reference { dereferenced, ty, .. } => {
            out.push(ty.clone());
            value_types(dereferenced, out);
        }
    }
}

#[test]
fn values_name_types_registered_before_them() {
    let ops = ops_of("m.cdc", mixed_run());
    let mut registered: Vec<String> = Vec::new();
    let mut checked = 0;
    for op in &ops {
        let values: Vec<&Value> = match op {
            TraceOp::Variable { value, .. }
            | TraceOp::VariableEncoded { value, .. }
            | TraceOp::CallArg { value, .. }
            | TraceOp::Return { value }
            | TraceOp::ReturnEncoded { value } => vec![value],
            TraceOp::Call { args, .. } => args.iter().collect(),
            _ => vec![],
        };
        for v in values {
            let mut tys = Vec::new();
            value_types(v, &mut tys);
            for t in tys {
                assert!(registered.contains(&t), "{t} used before it was registered");
                checked += 1;
            }
        }
        if let TraceOp::EnsureType { name, .. } = op {
            assert!(!registered.contains(name), "{name} registered twice");
            registered.push(name.clone());
        }
    }
    assert!(checked > 10);
}

#[test]
fn registered_tables_are_the_ones_read() {
    let sources = vec![
        SourceLines { path: s("/p/main.cdc"), line_lengths: vec![4, 0, 9] },
        SourceLines { path: s("/p/Lib.cdc"), line_lengths: vec![1] },
    ];
    let events = vec![step("Lib.cdc", 1), step("Other.cdc", 2), step("main.cdc", 3)];
    let ops = CadenceTracer::trace_low_level_events_from_events("/p/main.cdc", &events, sources);
    let regs: Vec<(String, Vec<u32>)> = ops
        .iter()
        .filter_map(|op| match op {
            TraceOp::RegisterPath { path, line_lengths } => Some((path.clone(), line_lengths.clone())),
            _ => None,
        })
        .collect();
    assert_eq!(
        regs,
        vec![
            (s("/p/main.cdc"), vec![4, 0, 9]),
            (s("/p/Lib.cdc"), vec![1]),
            (s("/p/Other.cdc"), vec![]),
        ]
    );
}

#[test]
fn decoding_twice_registers_types_once() {
    let mut t = CadenceTracer::new("a.cdc", vec![]);
    let v: Vec<char> = "{\"k\": [1, 2]}".chars().collect();
    let ty: Vec<char> = "{String: [Int8]}".chars().collect();
    let first = t.value_record(&v, Some(ty.clone()));
    let second = t.value_record(&v, Some(ty));
    assert_eq!(first, second);
    let ops = t.into_ops();
    let names: Vec<&String> = ops
        .iter()
        .filter_map(|op| match op {
            TraceOp::EnsureType { name, .. } => Some(name),
            _ => None,
        })
        .collect();
    assert_eq!(names.len(), 6 + 4);
    assert_eq!(names[6..], [&s("{String: [Int8]}"), &s("DictEntry"), &s("[Int8]"), &s("Int8")]);
}

#[test]
fn resource_local_named_by_type_and_uuid() {
    let ops = ops_of(
        "r.cdc",
        vec![
            TraceEvent::ResourceCreate {
                resource_type: s("T"),
                uuid: 18446744073709551615,
                owner: s("a"),
                file: s("r.cdc"),
                line: 1,
                column: None,
            },
            TraceEvent::ResourceMove {
                resource_type: s("T"),
                uuid: 18446744073709551615,
                from_owner: s("a"),
                to_owner: s("b"),
                file: s("r.cdc"),
                line: 2,
                column: None,
            },
        ],
    );
    let names: Vec<&String> = ops
        .iter()
        .filter_map(|op| match op {
            TraceOp::VariableEncoded { name, .. } => Some(name),
            _ => None,
        })
        .collect();
    assert_eq!(names, vec!["@resource:T#18446744073709551615"; 2]);
    assert_eq!(
        special(&ops, "CadenceResourceMove:T#18446744073709551615"),
        Some((EventKind::TraceLogEvent, s("from=a to=b")))
    );
}

#[test]
fn source_files_lists_entry_then_step_files() {
    let events = vec![
        step("Lib.cdc", 1),
        var("x", "1", "Int"),
        step("main.cdc", 2),
        step("/abs/Y.cdc", 3),
    ];
    assert_eq!(
        source_files("/p/main.cdc", &events),
        vec!["/p/main.cdc", "/p/Lib.cdc", "/p/main.cdc", "/abs/Y.cdc"]
    );
    assert_eq!(source_files("/p/main.cdc", &vec![]), vec!["/p/main.cdc"]);
}

#[test]
fn test_column_aware_steps_flag_and_distinct_columns() {
    let src = "/work/col_aware.cdc";
    let sources = vec![SourceLines { path: s(src), line_lengths: vec![30, 25, 10, 1] }];
    let events = vec![
        call("main"),
        step_at(src, 2, 5),
        var("a", "1", "Int"),
        step_at(src, 2, 18),
        var("b", "2", "Int"),
        ret("", "Void"),
    ];
    let ops = CadenceTracer::trace_low_level_events_from_events(src, &events, sources);
    assert_eq!(ops[0], TraceOp::EnableColumnAwareSteps);
    let cols: Vec<Option<i64>> = ops
        .iter()
        .filter_map(|op| match op {
            TraceOp::Step { line: 2, column, .. } => Some(*column),
            _ => None,
        })
        .collect();
    assert_eq!(cols, vec![Some(5), Some(18)]);
    let regs = ops.iter().filter(|op| matches!(op, TraceOp::RegisterPath { .. })).count();
    assert_eq!(regs, 1);
}

#[test]
fn call_record_then_tags_in_order() {
    let ops = ops_of(
        "a.cdc",
        vec![TraceEvent::Call {
            name: s("f"),
            args: vec![arg("n", "3", "UInt8"), arg("m", "[1]", "[Int]")],
            access: Some(s("self")),
            script: true,
        }],
    );
    let k = ops.iter().position(|op| matches!(op, TraceOp::Call { .. })).unwrap();
    assert_eq!(
        ops[k],
        TraceOp::Call {
            function: s("f"),
            args: vec![
                intv(3, "UInt8"),
                Value::Sequence { elements: vec![intv(1, "Int")], is_slice: false, ty: s("[Int]") },
            ],
        }
    );
    assert!(matches!(&ops[k + 1], TraceOp::SpecialEvent { metadata, .. } if metadata == "CadenceAccess:f:AccessSelf"));
    assert!(matches!(&ops[k + 2], TraceOp::SpecialEvent { metadata, .. } if metadata == "CadenceScriptEntry:f"));
    // No step was open, so the staged arguments are handed over at the end.
    assert_eq!(ops.len(), k + 5);
    assert_eq!(ops[k + 3], TraceOp::Variable { name: s("n"), value: intv(3, "UInt8") });
}

#[test]
fn variables_reach_writer_in_staging_order() {
    let ops = ops_of("m.cdc", mixed_run());
    let names: Vec<&String> = ops
        .iter()
        .filter_map(|op| match op {
            TraceOp::Variable { name, .. } | TraceOp::VariableEncoded { name, .. } => Some(name),
            _ => None,
        })
        .collect();
    assert_eq!(
        names,
        vec![
            "balance",
            "amount",
            "to",
            "@resource:Vault#3",
            "emit:Deposited.amount",
            "emit:Deposited.ids",
            "after",
        ]
    );
}
