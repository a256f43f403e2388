use codetracer_flow_recorder::events::ndjson_records;
use codetracer_flow_recorder::numeric::{
    decimal_to_be_bytes, parse_fixed_point_scaled, stable_address_hash,
};
use codetracer_flow_recorder::paths::{compute_line_lengths, resolve_step_source_path};
use codetracer_flow_recorder::printed::{
    parse_cadence_array, parse_cadence_dict, parse_cadence_struct, parse_resource_handle,
    split_top_level, strip_quotes, top_level_index_of,
};
use codetracer_flow_recorder::tracer::CadenceTracer;
use codetracer_flow_recorder::value::Value;

fn cs(x: &str) -> Vec<char> {
    x.chars().collect()
}

fn st(v: &[char]) -> String {
    v.iter().collect()
}

fn strs(v: Vec<Vec<char>>) -> Vec<String> {
    v.iter().map(|x| st(x)).collect()
}

fn pairs(v: Vec<(Vec<char>, Vec<char>)>) -> Vec<(String, String)> {
    v.iter().map(|(a, b)| (st(a), st(b))).collect()
}

fn s(x: &str) -> String {
    x.to_string()
}

fn record(value: &str, ty: Option<&str>) -> Value {
    let mut t = CadenceTracer::new("a.cdc", vec![]);
    t.value_record(&cs(value), ty.map(cs))
}

#[test]
fn fixed_point_examples() {
    assert_eq!(parse_fixed_point_scaled(&cs("-1.5")), Some(-150_000_000));
    assert_eq!(parse_fixed_point_scaled(&cs("0.25")), Some(25_000_000));
    assert_eq!(parse_fixed_point_scaled(&cs("1.0")), Some(100_000_000));
    assert_eq!(parse_fixed_point_scaled(&cs("12.5")), Some(1_250_000_000));
    assert_eq!(parse_fixed_point_scaled(&cs("12")), Some(1_200_000_000));
    assert_eq!(parse_fixed_point_scaled(&cs("+.5")), Some(50_000_000));
    assert_eq!(parse_fixed_point_scaled(&cs(" 3. ")), Some(300_000_000));
    assert_eq!(parse_fixed_point_scaled(&cs("184467440737.09551615")), None);
}

#[test]
fn fixed_point_rejections() {
    assert_eq!(parse_fixed_point_scaled(&cs("1.123456789")), None);
    assert_eq!(parse_fixed_point_scaled(&cs(".")), None);
    assert_eq!(parse_fixed_point_scaled(&cs("")), None);
    assert_eq!(parse_fixed_point_scaled(&cs("-")), None);
    assert_eq!(parse_fixed_point_scaled(&cs("1a.0")), None);
    assert_eq!(parse_fixed_point_scaled(&cs("1.0x")), None);
    assert_eq!(parse_fixed_point_scaled(&cs("92233720369.0")), None);
}

#[test]
fn fixed_point_largest() {
    assert_eq!(
        parse_fixed_point_scaled(&cs("92233720368.54775807")),
        Some(9_223_372_036_854_775_807)
    );
    assert_eq!(
        parse_fixed_point_scaled(&cs("-92233720368.54775807")),
        Some(-9_223_372_036_854_775_807)
    );
}

#[test]
fn decimal_bytes() {
    assert_eq!(decimal_to_be_bytes(&cs("256")), vec![1, 0]);
    assert_eq!(decimal_to_be_bytes(&cs("255")), vec![255]);
    assert_eq!(decimal_to_be_bytes(&cs("0")), vec![0]);
    assert_eq!(decimal_to_be_bytes(&cs("000")), vec![0]);
    assert_eq!(decimal_to_be_bytes(&cs("")), Vec::<u8>::new());
    assert_eq!(decimal_to_be_bytes(&cs("abc")), Vec::<u8>::new());
    assert_eq!(decimal_to_be_bytes(&cs("12a3")), vec![123]);
    assert_eq!(
        decimal_to_be_bytes(&cs("12345678901234567890123")),
        vec![2, 157, 66, 182, 78, 118, 113, 66, 68, 203]
    );
    assert_eq!(decimal_to_be_bytes(&cs("0065536")), vec![1, 0, 0]);
}

#[test]
fn address_hash_values() {
    assert_eq!(stable_address_hash(&cs("")), 5472609002491880229);
    assert_eq!(stable_address_hash(&cs("a")), 3414815163700866188);
    assert_eq!(stable_address_hash(&cs("/storage/Vault")), 6586728086316374008);
    assert!(stable_address_hash(&cs("é")) <= i64::MAX as u64);
}

#[test]
fn top_level_split() {
    assert_eq!(
        strs(split_top_level(&cs("a, [b, c], {d: e}, f(g, h)"), ',')),
        vec!["a", "[b, c]", "{d: e}", "f(g, h)"]
    );
    assert_eq!(strs(split_top_level(&cs("\"x,y\", z"), ',')), vec!["\"x,y\"", "z"]);
    assert_eq!(strs(split_top_level(&cs(""), ',')), Vec::<String>::new());
    assert_eq!(strs(split_top_level(&cs("   "), ',')), Vec::<String>::new());
    assert_eq!(strs(split_top_level(&cs("a,"), ',')), vec!["a", ""]);
    assert_eq!(strs(split_top_level(&cs(",a"), ',')), vec!["", "a"]);
}

#[test]
fn top_level_index() {
    assert_eq!(top_level_index_of(&cs("a: [b: c]"), ':'), Some(1));
    assert_eq!(top_level_index_of(&cs("\"k:1\": 2"), ':'), Some(5));
    assert_eq!(top_level_index_of(&cs("[a: b]"), ':'), None);
}

#[test]
fn arrays() {
    assert_eq!(strs(parse_cadence_array(&cs(" [1, 2, 3] "))), vec!["1", "2", "3"]);
    assert_eq!(strs(parse_cadence_array(&cs("[]"))), Vec::<String>::new());
    assert_eq!(strs(parse_cadence_array(&cs("[[1, 2], [3]]"))), vec!["[1, 2]", "[3]"]);
    assert_eq!(strs(parse_cadence_array(&cs("1, 2"))), Vec::<String>::new());
}

#[test]
fn dictionaries() {
    assert_eq!(
        pairs(parse_cadence_dict(&cs("{\"apple\": 30, \"banana\": 10}"))),
        vec![(s("apple"), s("30")), (s("banana"), s("10"))]
    );
    assert_eq!(pairs(parse_cadence_dict(&cs("{}"))), vec![]);
    assert_eq!(
        pairs(parse_cadence_dict(&cs("{1: [2, 3], nokey}"))),
        vec![(s("1"), s("[2, 3]"))]
    );
}

#[test]
fn structs() {
    assert_eq!(
        pairs(parse_cadence_struct(&cs("S.Point(x: 3, y: 4)"))),
        vec![(s("x"), s("3")), (s("y"), s("4"))]
    );
    assert_eq!(pairs(parse_cadence_struct(&cs("Point"))), vec![]);
    assert_eq!(pairs(parse_cadence_struct(&cs("P(x: 1"))), vec![]);
}

#[test]
fn resource_handles() {
    let h = parse_resource_handle(&cs("@Coin#7001")).unwrap();
    assert_eq!((st(&h.0), h.1, h.2.map(|o| st(&o))), (s("Coin"), 7001, None));
    let h = parse_resource_handle(&cs(" @Vault#5001@0x01 ")).unwrap();
    assert_eq!((st(&h.0), h.1, h.2.map(|o| st(&o))), (s("Vault"), 5001, Some(s("0x01"))));
    assert!(parse_resource_handle(&cs("Coin#1")).is_none());
    assert!(parse_resource_handle(&cs("@Coin#x")).is_none());
    assert!(parse_resource_handle(&cs("@Coin")).is_none());
}

#[test]
fn quotes() {
    assert_eq!(st(&strip_quotes(&cs("\"abc\""))), "abc");
    assert_eq!(st(&strip_quotes(&cs(" \"a\" "))), "a");
    assert_eq!(st(&strip_quotes(&cs("\""))), "\"");
    assert_eq!(st(&strip_quotes(&cs("\"\""))), "");
    assert_eq!(st(&strip_quotes(&cs("abc"))), "abc");
}

#[test]
fn line_lengths() {
    assert_eq!(compute_line_lengths("ab\ncde\n"), vec![2, 3]);
    assert_eq!(compute_line_lengths("ab\ncde"), vec![2, 3]);
    assert_eq!(compute_line_lengths(""), Vec::<u32>::new());
    assert_eq!(compute_line_lengths("\n\n"), vec![0, 0]);
    assert_eq!(compute_line_lengths("é\nxyz"), vec![2, 3]);
}

#[test]
fn step_source_paths() {
    assert_eq!(resolve_step_source_path("/w/main.cdc", " Lib.cdc "), "/w/Lib.cdc");
    assert_eq!(resolve_step_source_path("/w/main.cdc", "main.cdc"), "/w/main.cdc");
    assert_eq!(resolve_step_source_path("/w/main.cdc", "  "), "/w/main.cdc");
    assert_eq!(resolve_step_source_path("/w/main.cdc", "a/b.cdc"), "a/b.cdc");
    assert_eq!(resolve_step_source_path("main.cdc", "Lib.cdc"), "Lib.cdc");
}

#[test]
fn ndjson_framing() {
    let r = ndjson_records("a\n\n  b  \r\n");
    assert_eq!(r, vec![(1, s("a")), (3, s("b"))]);
    assert_eq!(ndjson_records(""), vec![]);
    assert_eq!(ndjson_records("x"), vec![(1, s("x"))]);
}

#[test]
fn typed_array_and_dict() {
    assert_eq!(
        record("[1, 2]", Some("[Int]")),
        Value::Sequence {
            elements: vec![Value::Int { i: 1, ty: s("Int") }, Value::Int { i: 2, ty: s("Int") }],
            is_slice: false,
            ty: s("[Int]"),
        }
    );
    assert_eq!(
        record("{\"apple\": 30}", Some("{String: Int}")),
        Value::Sequence {
            elements: vec![Value::Tuple {
                elements: vec![
                    Value::String { text: s("apple"), ty: s("String") },
                    Value::Int { i: 30, ty: s("Int") },
                ],
                ty: s("DictEntry"),
            }],
            is_slice: false,
            ty: s("{String: Int}"),
        }
    );
}

#[test]
fn optionals() {
    assert_eq!(
        record("nil", Some("Int?")),
        Value::Variant {
            discriminator: s("None"),
            contents: Box::new(Value::NoValue { ty: s("Int") }),
            ty: s("Int?"),
        }
    );
    assert_eq!(
        record(" 5 ", Some("UInt8?")),
        Value::Variant {
            discriminator: s("Some"),
            contents: Box::new(Value::Int { i: 5, ty: s("UInt8") }),
            ty: s("UInt8?"),
        }
    );
}

#[test]
fn paths_and_addresses() {
    assert_eq!(
        record("/storage/Vault", Some("StoragePath")),
        Value::Struct {
            field_values: vec![
                Value::String { text: s("storage"), ty: s("PathDomain") },
                Value::String { text: s("Vault"), ty: s("PathIdentifier") },
            ],
            ty: s("StoragePath"),
        }
    );
    assert_eq!(record("0x01", Some("Address")), Value::Int { i: 1, ty: s("Address") });
    assert_eq!(
        record("0xf8d6e0586b0a20c7", Some("Address")),
        Value::BigInt {
            b: vec![248, 214, 224, 88, 107, 10, 32, 199],
            negative: false,
            ty: s("Address"),
        }
    );
    assert_eq!(record("0xzz", Some("Address")), Value::Raw { r: s("0xzz"), ty: s("Address") });
}

#[test]
fn wide_and_fixed_numbers() {
    assert_eq!(
        record("-12345678901234567890123", Some("Int256")),
        Value::BigInt {
            b: vec![2, 157, 66, 182, 78, 118, 113, 66, 68, 203],
            negative: true,
            ty: s("Int256"),
        }
    );
    assert_eq!(record("1.5", Some("UFix64")), Value::Int { i: 150_000_000, ty: s("UFix64") });
    assert_eq!(record("1.5.0", Some("Fix64")), Value::Raw { r: s("1.5.0"), ty: s("Fix64") });
    assert_eq!(record("abc", Some("Int")), Value::Raw { r: s("abc"), ty: s("Int") });
    assert_eq!(record("-42", Some("Int64")), Value::Int { i: -42, ty: s("Int64") });
}

#[test]
fn bools_strings_enums() {
    assert_eq!(record("true", Some("Bool")), Value::Bool { b: true, ty: s("Bool") });
    assert_eq!(record("maybe", Some("Bool")), Value::Raw { r: s("maybe"), ty: s("Bool") });
    assert_eq!(record(" hi ", Some("String")), Value::String { text: s(" hi "), ty: s("String") });
    assert_eq!(
        record("Color.red", Some("enum:Color:UInt8")),
        Value::Variant {
            discriminator: s("Color.red"),
            contents: Box::new(Value::NoValue { ty: s("EnumCase") }),
            ty: s("enum:Color:UInt8"),
        }
    );
}

#[test]
fn resources_references_structs() {
    assert_eq!(
        record("@Vault#5001@0x01", Some("@Vault")),
        Value::Struct {
            field_values: vec![
                Value::String { text: s("Vault"), ty: s("ResourceType") },
                Value::Int { i: 5001, ty: s("ResourceUuid") },
                Value::String { text: s("0x01"), ty: s("ResourceOwner") },
            ],
            ty: s("@Vault"),
        }
    );
    assert_eq!(
        record("garbage", Some("@Coin")),
        Value::Struct {
            field_values: vec![
                Value::String { text: s("Coin"), ty: s("ResourceType") },
                Value::Int { i: 0, ty: s("ResourceUuid") },
            ],
            ty: s("@Coin"),
        }
    );
    assert_eq!(
        record("/storage/Vault", Some("auth(Withdraw) &Vault")),
        Value::Reference {
            dereferenced: Box::new(Value::String {
                text: s("/storage/Vault"),
                ty: s("ReferencePayload"),
            }),
            address: 6586728086316374008,
            mutable: true,
            ty: s("auth(Withdraw) &Vault"),
        }
    );
    assert_eq!(
        record("S.Point(x: 3, y: abc)", Some("S.Point")),
        Value::Struct {
            field_values: vec![
                Value::Int { i: 3, ty: s("Int") },
                Value::String { text: s("abc"), ty: s("String") },
            ],
            ty: s("S.Point"),
        }
    );
}

#[test]
fn untyped_values() {
    assert_eq!(record("42", None), Value::Int { i: 42, ty: s("Int") });
    assert_eq!(
        record("[1, x]", None),
        Value::Sequence {
            elements: vec![Value::Int { i: 1, ty: s("Int") }, Value::Raw { r: s("x"), ty: s("Int") }],
            is_slice: false,
            ty: s("[]"),
        }
    );
    assert_eq!(
        record("{}", None),
        Value::Sequence { elements: vec![], is_slice: false, ty: s("{}") }
    );
    assert_eq!(record("hello", Some("Foo")), Value::Raw { r: s("hello"), ty: s("Foo") });
}

#[test]
fn unicode_whitespace_is_trimmed() {
    assert_eq!(strs(parse_cadence_array(&cs("\u{3000}[ 1 ,\u{a0}2 ]\u{2009}"))), vec!["1", "2"]);
    assert_eq!(st(&strip_quotes(&cs("\u{85}\"k\"\t"))), "k");
    assert_eq!(record("\u{2028}7 ", Some("Int?")), Value::Variant {
        discriminator: s("Some"),
        contents: Box::new(Value::Int { i: 7, ty: s("Int") }),
        ty: s("Int?"),
    });
}

#[test]
fn wide_integer_not_a_number_is_one_zero_byte() {
    assert_eq!(
        record("abc", Some("Int128")),
        Value::BigInt { b: vec![0], negative: false, ty: s("Int128") }
    );
    assert_eq!(
        record("12a3", Some("Word128")),
        Value::BigInt { b: vec![0], negative: false, ty: s("Word128") }
    );
    assert_eq!(
        record(" - ", Some("Int256")),
        Value::BigInt { b: vec![0], negative: true, ty: s("Int256") }
    );
    assert_eq!(
        record("0", Some("UInt128")),
        Value::BigInt { b: vec![0], negative: false, ty: s("UInt128") }
    );
    assert_eq!(
        record(" 65536 ", Some("UInt256")),
        Value::BigInt { b: vec![1, 0, 0], negative: false, ty: s("UInt256") }
    );
}
