//! What a Cadence value printed by the helper becomes as a typed value
//! record, given the helper's Cadence type annotation, together with the
//! types that the decoding registers, in order.

use vstd::prelude::*;
use crate::text::{
    all_radix_digits, first_index, is_prefix, lemma_first_index_bounds, lemma_trim_shorter, spec_parse_i64,
    spec_parse_u64_radix, trim,
};
use crate::printed::{
    array_elems, dict_entries, dict_entry, dict_pairs, lemma_split_pieces_shorter,
    resource_handle, split_top, struct_fields, top_index,
};
use crate::numeric::{address_hash, decimal_be_bytes, fixed_point_scaled};
use crate::value::{TypeKind, ValueV};

verus! {

/// A request to register the type `name` with kind `kind`.
pub type TypeReq = (TypeKind, Seq<char>);

pub open spec fn ty_len(ty: Option<Seq<char>>) -> nat {
    match ty {
        Some(t) => t.len(),
        None => 0,
    }
}

pub open spec fn max_len(s: Seq<Seq<char>>) -> nat
    decreases s.len(),
{
    if s.len() == 0 {
        0
    } else {
        let m = max_len(s.drop_last());
        if s.last().len() > m {
            s.last().len()
        } else {
            m
        }
    }
}

pub open spec fn max_pair_len(s: Seq<(Seq<char>, Seq<char>)>) -> nat
    decreases s.len(),
{
    if s.len() == 0 {
        0
    } else {
        let m = max_pair_len(s.drop_last());
        let a = s.last().0.len();
        let b = s.last().1.len();
        let c = if a > b {
            a
        } else {
            b
        };
        if c > m {
            c
        } else {
            m
        }
    }
}

pub open spec fn is_enum_type(t: Seq<char>) -> bool {
    is_prefix("enum:"@, t)
}

pub open spec fn is_optional_type(t: Seq<char>) -> bool {
    t.len() > 1 && t.last() == '?'
}

pub open spec fn is_array_type(t: Seq<char>) -> bool {
    t.len() >= 2 && t[0] == '[' && t.last() == ']'
}

pub open spec fn is_dict_type(t: Seq<char>) -> bool {
    t.len() > 0 && t[0] == '{' && t.last() == '}' && t.contains(':')
}

pub open spec fn is_path_type(t: Seq<char>) -> bool {
    t == "Path"@ || t == "StoragePath"@ || t == "PublicPath"@ || t == "PrivatePath"@ || t
        == "CapabilityPath"@
}

pub open spec fn is_wide_int_type(t: Seq<char>) -> bool {
    t == "Int128"@ || t == "Int256"@ || t == "UInt128"@ || t == "UInt256"@ || t == "Word128"@
        || t == "Word256"@
}

pub open spec fn is_reference_type(t: Seq<char>) -> bool {
    (t.len() > 0 && t[0] == '&') || is_prefix("auth("@, t) || is_prefix("Capability<"@, t) || t
        == "Capability"@
}

pub open spec fn is_resource_type(t: Seq<char>) -> bool {
    t.len() > 0 && t[0] == '@'
}

/// A value printed as `Name(field: value, ...)` under a type that is none
/// of the bracketed, resource or optional forms.
pub open spec fn is_struct_printed(value: Seq<char>, t: Seq<char>) -> bool {
    &&& value.contains('(')
    &&& value.contains(')')
    &&& value.contains(':')
    &&& !(t.len() > 0 && t[0] == '[')
    &&& !(t.len() > 0 && t[0] == '{')
    &&& !(t.len() > 0 && t[0] == '@')
    &&& !(t.len() > 0 && t.last() == '?')
}

pub open spec fn is_fixed_type(t: Seq<char>) -> bool {
    t == "Fix64"@ || t == "UFix64"@
}

pub open spec fn is_int_type(t: Seq<char>) -> bool {
    t == "Int"@ || t == "Int8"@ || t == "Int16"@ || t == "Int32"@ || t == "Int64"@ || t == "UInt"@
        || t == "UInt8"@ || t == "UInt16"@ || t == "UInt32"@ || t == "UInt64"@ || t == "Word8"@
        || t == "Word16"@ || t == "Word32"@ || t == "Word64"@
}

/// Whether the trimmed value is an absent optional.
pub open spec fn is_absent_optional(v: Seq<char>) -> bool {
    v.len() == 0 || v == "nil"@ || v == "Optional()"@
}

/// `u` as eight big-endian bytes, as `u64::to_be_bytes`.
pub open spec fn be_fixed(n: nat, k: nat) -> Seq<u8>
    decreases k,
{
    if k == 0 {
        seq![]
    } else {
        be_fixed(n / 256, (k - 1) as nat).push((n % 256) as u8)
    }
}

pub open spec fn decode_enum(value: Seq<char>, t: Seq<char>) -> (ValueV, Seq<TypeReq>) {
    (
        ValueV::Variant {
            discriminator: trim(value),
            contents: Box::new(ValueV::NoValue { ty: "EnumCase"@ }),
            ty: t,
        },
        seq![(TypeKind::Variant, t), (TypeKind::NoValue, "EnumCase"@)],
    )
}

/// `/domain/identifier`, without the leading slash, split at the next slash.
pub open spec fn path_parts(value: Seq<char>) -> (Seq<char>, Seq<char>) {
    let v = trim(value);
    let stripped = if v.len() > 0 && v[0] == '/' {
        v.drop_first()
    } else {
        v
    };
    match first_index(stripped, '/') {
        Some(k) => (stripped.subrange(0, k), stripped.subrange(k + 1, stripped.len() as int)),
        None => (stripped, seq![]),
    }
}

pub open spec fn decode_path(value: Seq<char>, t: Seq<char>) -> (ValueV, Seq<TypeReq>) {
    let (d, i) = path_parts(value);
    (
        ValueV::Struct {
            field_values: seq![
                ValueV::String { text: d, ty: "PathDomain"@ },
                ValueV::String { text: i, ty: "PathIdentifier"@ },
            ],
            ty: t,
        },
        seq![
            (TypeKind::Struct, t),
            (TypeKind::String, "PathDomain"@),
            (TypeKind::String, "PathIdentifier"@),
        ],
    )
}

/// The hexadecimal digits of an address literal, without a `0x` / `0X` prefix.
pub open spec fn address_hex(value: Seq<char>) -> Seq<char> {
    let v = trim(value);
    if is_prefix("0x"@, v) || is_prefix("0X"@, v) {
        v.subrange(2, v.len() as int)
    } else {
        v
    }
}

pub open spec fn decode_address(value: Seq<char>) -> (ValueV, Seq<TypeReq>) {
    let v = match spec_parse_u64_radix(address_hex(value), 16) {
        Some(u) => if u <= i64::MAX {
            ValueV::Int { i: u as i64, ty: "Address"@ }
        } else {
            ValueV::BigInt { b: be_fixed(u as nat, 8), negative: false, ty: "Address"@ }
        },
        None => ValueV::Raw { r: value, ty: "Address"@ },
    };
    (v, seq![(TypeKind::Int, "Address"@)])
}

/// Sign and magnitude digits of a decimal integer.
pub open spec fn bigint_parts(value: Seq<char>) -> (bool, Seq<char>) {
    let v = trim(value);
    if v.len() > 0 && v[0] == '-' {
        (true, v.drop_first())
    } else {
        (false, v)
    }
}

/// The big-endian magnitude of a wide integer's digits: a single zero byte
/// when they are not a base-10 integer.
pub open spec fn wide_magnitude(mag: Seq<char>) -> Seq<u8> {
    if mag.len() > 0 && all_radix_digits(mag, 10) {
        decimal_be_bytes(mag)
    } else {
        seq![0u8]
    }
}

pub open spec fn decode_wide(value: Seq<char>, t: Seq<char>) -> (ValueV, Seq<TypeReq>) {
    let (neg, mag) = bigint_parts(value);
    (ValueV::BigInt { b: wide_magnitude(mag), negative: neg, ty: t }, seq![(TypeKind::Int, t)])
}

pub open spec fn decode_reference(value: Seq<char>, t: Seq<char>) -> (ValueV, Seq<TypeReq>) {
    (
        ValueV::Reference {
            dereferenced: Box::new(ValueV::String { text: value, ty: "ReferencePayload"@ }),
            address: address_hash(value),
            mutable: is_prefix("auth("@, t),
            ty: t,
        },
        seq![(TypeKind::Ref, t), (TypeKind::String, "ReferencePayload"@)],
    )
}

pub open spec fn decode_resource(value: Seq<char>, t: Seq<char>) -> (ValueV, Seq<TypeReq>) {
    let (pt, pu, po) = match resource_handle(value) {
        Some(h) => h,
        None => (t.drop_first(), 0u64, None),
    };
    let base = seq![
        ValueV::String { text: pt, ty: "ResourceType"@ },
        ValueV::Int { i: pu as i64, ty: "ResourceUuid"@ },
    ];
    let reqs = seq![
        (TypeKind::Struct, t),
        (TypeKind::String, "ResourceType"@),
        (TypeKind::Int, "ResourceUuid"@),
    ];
    match po {
        Some(o) => (
            ValueV::Struct {
                field_values: base.push(ValueV::String { text: o, ty: "ResourceOwner"@ }),
                ty: t,
            },
            reqs.push((TypeKind::String, "ResourceOwner"@)),
        ),
        None => (ValueV::Struct { field_values: base, ty: t }, reqs),
    }
}

/// A struct field value: an integer when it reads as `i64`, else a string.
pub open spec fn struct_field_value(fv: Seq<char>) -> (ValueV, TypeReq) {
    match spec_parse_i64(fv) {
        Some(i) => (ValueV::Int { i, ty: "Int"@ }, (TypeKind::Int, "Int"@)),
        None => (ValueV::String { text: fv, ty: "String"@ }, (TypeKind::String, "String"@)),
    }
}

pub open spec fn struct_field_values(fs: Seq<(Seq<char>, Seq<char>)>) -> (Seq<ValueV>, Seq<TypeReq>)
    decreases fs.len(),
{
    if fs.len() == 0 {
        (seq![], seq![])
    } else {
        let (vs, rs) = struct_field_values(fs.drop_last());
        let (v, r) = struct_field_value(fs.last().1);
        (vs.push(v), rs.push(r))
    }
}

pub open spec fn decode_struct(value: Seq<char>, t: Seq<char>) -> (ValueV, Seq<TypeReq>) {
    let (vs, rs) = struct_field_values(struct_fields(value));
    (ValueV::Struct { field_values: vs, ty: t }, seq![(TypeKind::Struct, t)] + rs)
}

pub open spec fn decode_bool(value: Seq<char>) -> (ValueV, Seq<TypeReq>) {
    let v = if value == "true"@ {
        ValueV::Bool { b: true, ty: "Bool"@ }
    } else if value == "false"@ {
        ValueV::Bool { b: false, ty: "Bool"@ }
    } else {
        ValueV::Raw { r: value, ty: "Bool"@ }
    };
    (v, seq![(TypeKind::Bool, "Bool"@)])
}

pub open spec fn decode_fixed(value: Seq<char>, t: Seq<char>) -> (ValueV, Seq<TypeReq>) {
    let v = match fixed_point_scaled(trim(value)) {
        Some(s) => ValueV::Int { i: s, ty: t },
        None => ValueV::Raw { r: value, ty: t },
    };
    (v, seq![(TypeKind::Int, t)])
}

/// An integer under the type `lang` when the text reads as `i64`, else the
/// raw text under that type.
pub open spec fn decode_int(value: Seq<char>, lang: Seq<char>) -> (ValueV, Seq<TypeReq>) {
    let v = match spec_parse_i64(value) {
        Some(i) => ValueV::Int { i, ty: lang },
        None => ValueV::Raw { r: value, ty: lang },
    };
    (v, seq![(TypeKind::Int, lang)])
}

/// The key and value types of a dictionary type `{K: V}`.
pub open spec fn dict_types(t: Seq<char>) -> (Seq<char>, Seq<char>) {
    let inner = t.subrange(1, t.len() - 1);
    match first_index(inner, ':') {
        Some(c) => (trim(inner.subrange(0, c)), trim(inner.subrange(c + 1, inner.len() as int))),
        None => ("String"@, "Int"@),
    }
}

pub open spec fn untyped_seq(v: Seq<char>) -> bool {
    v.len() >= 2 && v[0] == '[' && v.last() == ']'
}

pub open spec fn untyped_dict(v: Seq<char>) -> bool {
    v.len() >= 2 && v[0] == '{' && v.last() == '}' && (v == "{}"@ || v.contains(':'))
}

/// The typed value record for the printed `value` under the optional
/// Cadence type `ty`, and the types registered on the way, in order.
pub open spec fn decode(value: Seq<char>, ty: Option<Seq<char>>) -> (ValueV, Seq<TypeReq>)
    decreases value.len() + ty_len(ty), 0nat, 0nat,
{
    let has = ty is Some;
    let t = match ty {
        Some(raw) => trim(raw),
        None => "Int"@,
    };
    proof {
        if has {
            lemma_trim_shorter(ty->0);
        }
    }
    if has && is_enum_type(t) {
        decode_enum(value, t)
    } else if has && is_optional_type(t) {
        let inner = t.drop_last();
        let v = trim(value);
        if is_absent_optional(v) {
            (
                ValueV::Variant {
                    discriminator: "None"@,
                    contents: Box::new(ValueV::NoValue { ty: inner }),
                    ty: t,
                },
                seq![(TypeKind::Variant, t), (TypeKind::NoValue, inner)],
            )
        } else {
            proof {
                lemma_trim_shorter(value);
            }
            let (iv, ir) = decode(v, Some(inner));
            (
                ValueV::Variant { discriminator: "Some"@, contents: Box::new(iv), ty: t },
                seq![(TypeKind::Variant, t)] + ir,
            )
        }
    } else if has && is_array_type(t) {
        let elems = array_elems(value);
        proof {
            lemma_array_elems_short(value);
            lemma_max_len_bound(elems, (value.len() - 2) as nat);
        }
        let (vs, rs) = decode_list(elems, Some(t.subrange(1, t.len() - 1)));
        (
            ValueV::Sequence { elements: vs, is_slice: false, ty: t },
            seq![(TypeKind::Sequence, t)] + rs,
        )
    } else if has && is_dict_type(t) {
        let pairs = dict_pairs(value);
        let (kt, vt) = dict_types(t);
        proof {
            lemma_dict_pairs_short(value);
            lemma_max_pair_len_bound(pairs, (value.len() - 2) as nat);
            lemma_dict_types_short(t);
        }
        let (vs, rs) = decode_pairs(pairs, Some(kt), Some(vt));
        (
            ValueV::Sequence { elements: vs, is_slice: false, ty: t },
            seq![(TypeKind::Sequence, t), (TypeKind::Tuple, "DictEntry"@)] + rs,
        )
    } else if has && is_path_type(t) {
        decode_path(value, t)
    } else if has && t == "Address"@ {
        decode_address(value)
    } else if has && is_wide_int_type(t) {
        decode_wide(value, t)
    } else if has && is_reference_type(t) {
        decode_reference(value, t)
    } else if has && is_resource_type(t) {
        decode_resource(value, t)
    } else if has && is_struct_printed(value, t) {
        decode_struct(value, t)
    } else if has && t == "Bool"@ {
        decode_bool(value)
    } else if has && t == "String"@ {
        (ValueV::String { text: value, ty: "String"@ }, seq![(TypeKind::String, "String"@)])
    } else if has && is_fixed_type(t) {
        decode_fixed(value, t)
    } else if has && is_int_type(t) {
        decode_int(value, t)
    } else {
        let v = trim(value);
        if untyped_seq(v) {
            let elems = array_elems(value);
            proof {
                lemma_array_elems_short(value);
                lemma_max_len_bound(elems, (value.len() - 2) as nat);
            }
            let (vs, rs) = decode_list(elems, None);
            (
                ValueV::Sequence { elements: vs, is_slice: false, ty: "[]"@ },
                seq![(TypeKind::Sequence, "[]"@)] + rs,
            )
        } else if untyped_dict(v) {
            let pairs = dict_pairs(value);
            proof {
                lemma_dict_pairs_short(value);
                lemma_max_pair_len_bound(pairs, (value.len() - 2) as nat);
            }
            let (vs, rs) = decode_pairs(pairs, None, None);
            (
                ValueV::Sequence { elements: vs, is_slice: false, ty: "{}"@ },
                seq![(TypeKind::Sequence, "{}"@), (TypeKind::Tuple, "DictEntry"@)] + rs,
            )
        } else {
            decode_int(value, t)
        }
    }
}

/// An optional type `T?` wraps the decoding under `T`: an absent value
/// (empty, `nil` or `Optional()` once trimmed) is the `None` variant holding
/// no value of `T`; any other value is the `Some` variant holding the
/// trimmed value decoded under `T`.
pub proof fn law_optional_wraps(value: Seq<char>, ty: Seq<char>)
    requires
        is_optional_type(trim(ty)),
        !is_enum_type(trim(ty)),
    ensures
        ({
            let t = trim(ty);
            let inner = t.drop_last();
            let v = trim(value);
            &&& (v.len() == 0 || v == "nil"@ || v == "Optional()"@) ==> decode(value, Some(ty)).0
                == ValueV::Variant {
                discriminator: "None"@,
                contents: Box::new(ValueV::NoValue { ty: inner }),
                ty: t,
            }
            &&& !(v.len() == 0 || v == "nil"@ || v == "Optional()"@) ==> decode(value, Some(ty)).0
                == ValueV::Variant {
                discriminator: "Some"@,
                contents: Box::new(decode(v, Some(inner)).0),
                ty: t,
            }
        }),
{
}

/// A `Fix64` / `UFix64` value (not printed as a composite) is the integer
/// its literal scales to by 10^8, or the raw text when it is no such
/// literal: decoding agrees with `parse_fixed_point_scaled`.
pub proof fn law_fixed_decode(value: Seq<char>, ty: Seq<char>)
    requires
        trim(ty) == "Fix64"@ || trim(ty) == "UFix64"@,
        !is_struct_printed(value, trim(ty)),
    ensures
        decode(value, Some(ty)).0 == match fixed_point_scaled(trim(value)) {
            Some(m) => ValueV::Int { i: m, ty: trim(ty) },
            None => ValueV::Raw { r: value, ty: trim(ty) },
        },
{
    let t = trim(ty);
    reveal_strlit("Fix64");
    reveal_strlit("UFix64");
    reveal_strlit("auth(");
    reveal_strlit("enum:");
    reveal_strlit("Capability<");
    reveal_strlit("Capability");
    reveal_strlit("Path");
    reveal_strlit("StoragePath");
    reveal_strlit("PublicPath");
    reveal_strlit("PrivatePath");
    reveal_strlit("CapabilityPath");
    reveal_strlit("Address");
    reveal_strlit("Int128");
    reveal_strlit("Int256");
    reveal_strlit("UInt128");
    reveal_strlit("UInt256");
    reveal_strlit("Word128");
    reveal_strlit("Word256");
    assert(t[0] == 'F' || t[0] == 'U');
    assert(t.last() == '4');
    if t[0] == 'U' {
        assert(t[1] == 'F');
    }
    if is_prefix("enum:"@, t) {
        assert(t[0] == "enum:"@[0]);
    }
    if is_prefix("auth("@, t) {
        assert(t[0] == "auth("@[0]);
    }
    if is_prefix("Capability<"@, t) {
        assert(t[0] == "Capability<"@[0]);
    }
    assert(!is_enum_type(t));
    assert(!is_optional_type(t));
    assert(!is_array_type(t));
    assert(!is_dict_type(t));
    assert(!is_path_type(t));
    assert(t != "Address"@);
    assert(!is_wide_int_type(t));
    assert(!is_reference_type(t));
    assert(!is_resource_type(t));
    reveal_strlit("Bool");
    reveal_strlit("String");
    assert(t != "Bool"@ && t != "String"@);
    assert(is_fixed_type(t));
}

/// A value decoded under a reference or capability type (`&T`, `auth(..) &T`,
/// `Capability<..>`, not optional) is a reference of that type, mutable
/// exactly when the type is entitled (starts with `auth(`): a plain `&T`
/// reference and a capability are never mutable.
pub proof fn law_reference_mutability(value: Seq<char>, ty: Seq<char>)
    requires
        is_reference_type(trim(ty)),
        !is_optional_type(trim(ty)),
    ensures
        decode(value, Some(ty)).0 matches ValueV::Reference { mutable, ty: rt, dereferenced, .. }
            && rt == trim(ty) && (mutable <==> (rt.len() >= 5 && rt.subrange(0, 5) == "auth("@))
            && (rt[0] == '&' ==> !mutable) && (is_prefix("Capability"@, rt) ==> !mutable)
            && *dereferenced == (ValueV::String { text: value, ty: "ReferencePayload"@ }),
        decode(value, Some(ty)).1 == seq![(TypeKind::Ref, trim(ty)), (TypeKind::String, "ReferencePayload"@)],
{
    let t = trim(ty);
    reveal_strlit("auth(");
    reveal_strlit("enum:");
    reveal_strlit("Capability<");
    reveal_strlit("Capability");
    reveal_strlit("Path");
    reveal_strlit("StoragePath");
    reveal_strlit("PublicPath");
    reveal_strlit("PrivatePath");
    reveal_strlit("CapabilityPath");
    reveal_strlit("Address");
    reveal_strlit("Int128");
    reveal_strlit("Int256");
    reveal_strlit("UInt128");
    reveal_strlit("UInt256");
    reveal_strlit("Word128");
    reveal_strlit("Word256");
    assert(t.len() > 0);
    if t == "Capability"@ {
        assert(t[0] == 'C');
    }
    if is_prefix("auth("@, t) {
        assert(t[0] == "auth("@[0]);
    }
    if is_prefix("Capability<"@, t) {
        assert(t[0] == "Capability<"@[0]);
        assert(t[10] == "Capability<"@[10]);
        assert(t.len() >= 11);
    }
    assert(t[0] == '&' || t[0] == 'a' || t[0] == 'C');
    if is_prefix("enum:"@, t) {
        assert(t[0] == "enum:"@[0]);
    }
    assert(!is_enum_type(t));
    assert(!is_array_type(t));
    assert(!is_dict_type(t));
    if t == "CapabilityPath"@ {
        assert(t.len() == 14);
        assert(t[10] == 'P');
    }
    assert(!is_path_type(t));
    assert(t != "Address"@);
    assert(!is_wide_int_type(t));
    if t[0] == '&' || is_prefix("Capability"@, t) {
        if is_prefix("auth("@, t) {
            assert(t[0] == 'a');
            if is_prefix("Capability"@, t) {
                assert(t[0] == "Capability"@[0]);
            }
        }
    }
    if is_prefix("Capability"@, t) {
        assert(t[0] == "Capability"@[0]);
    }
}

/// A reference's address depends on the printed value alone: the same value
/// under any two reference or capability types has the same address, so
/// capabilities published at one storage path compare equal.
pub proof fn law_reference_address_stable(value: Seq<char>, ty1: Seq<char>, ty2: Seq<char>)
    requires
        is_reference_type(trim(ty1)),
        !is_optional_type(trim(ty1)),
        is_reference_type(trim(ty2)),
        !is_optional_type(trim(ty2)),
    ensures
        ({
            &&& decode(value, Some(ty1)).0 is Reference
            &&& decode(value, Some(ty2)).0 is Reference
            &&& decode(value, Some(ty1)).0->address == decode(value, Some(ty2)).0->address
        }),
{
    law_reference_mutability(value, ty1);
    law_reference_mutability(value, ty2);
}

/// The optional branch of [`decode`] for the optional type `t`.
pub open spec fn decode_optional_of(value: Seq<char>, t: Seq<char>) -> (ValueV, Seq<TypeReq>) {
    let inner = t.drop_last();
    let v = trim(value);
    if is_absent_optional(v) {
        (
            ValueV::Variant {
                discriminator: "None"@,
                contents: Box::new(ValueV::NoValue { ty: inner }),
                ty: t,
            },
            seq![(TypeKind::Variant, t), (TypeKind::NoValue, inner)],
        )
    } else {
        let (iv, ir) = decode(v, Some(inner));
        (
            ValueV::Variant { discriminator: "Some"@, contents: Box::new(iv), ty: t },
            seq![(TypeKind::Variant, t)] + ir,
        )
    }
}

/// A printed array decoded element by element under `elem_ty`, as a
/// sequence of the type `name`.
pub open spec fn decode_seq_of(value: Seq<char>, name: Seq<char>, elem_ty: Option<Seq<char>>) -> (ValueV, Seq<TypeReq>) {
    let (vs, rs) = decode_list(array_elems(value), elem_ty);
    (ValueV::Sequence { elements: vs, is_slice: false, ty: name }, seq![(TypeKind::Sequence, name)] + rs)
}

/// A printed dictionary decoded pair by pair under `kt` and `vt`, as a
/// sequence of `DictEntry` tuples of the type `name`.
pub open spec fn decode_dict_of(
    value: Seq<char>,
    name: Seq<char>,
    kt: Option<Seq<char>>,
    vt: Option<Seq<char>>,
) -> (ValueV, Seq<TypeReq>) {
    let (vs, rs) = decode_pairs(dict_pairs(value), kt, vt);
    (
        ValueV::Sequence { elements: vs, is_slice: false, ty: name },
        seq![(TypeKind::Sequence, name), (TypeKind::Tuple, "DictEntry"@)] + rs,
    )
}

/// Each text of `elems` decoded under `ty`, in order.
pub open spec fn decode_list(elems: Seq<Seq<char>>, ty: Option<Seq<char>>) -> (Seq<ValueV>, Seq<TypeReq>)
    decreases max_len(elems) + ty_len(ty), 1nat, elems.len(),
{
    if elems.len() == 0 {
        (seq![], seq![])
    } else {
        let (vs, rs) = decode_list(elems.drop_last(), ty);
        let (v, r) = decode(elems.last(), ty);
        (vs.push(v), rs + r)
    }
}

/// Each `(key, value)` decoded under `kt` and `vt` into a `DictEntry` tuple.
pub open spec fn decode_pairs(
    pairs: Seq<(Seq<char>, Seq<char>)>,
    kt: Option<Seq<char>>,
    vt: Option<Seq<char>>,
) -> (Seq<ValueV>, Seq<TypeReq>)
    decreases max_pair_len(pairs) + ty_len(kt) + ty_len(vt), 1nat, pairs.len(),
{
    if pairs.len() == 0 {
        (seq![], seq![])
    } else {
        let (vs, rs) = decode_pairs(pairs.drop_last(), kt, vt);
        let (kv, kr) = decode(pairs.last().0, kt);
        let (vv, vr) = decode(pairs.last().1, vt);
        (vs.push(ValueV::Tuple { elements: seq![kv, vv], ty: "DictEntry"@ }), rs + kr + vr)
    }
}

pub proof fn lemma_max_len_bound(s: Seq<Seq<char>>, b: nat)
    requires
        forall|k: int| 0 <= k < s.len() ==> #[trigger] s[k].len() <= b,
    ensures
        max_len(s) <= b,
    decreases s.len(),
{
    if s.len() > 0 {
        lemma_max_len_bound(s.drop_last(), b);
    }
}

pub proof fn lemma_max_pair_len_bound(s: Seq<(Seq<char>, Seq<char>)>, b: nat)
    requires
        forall|k: int| 0 <= k < s.len() ==> #[trigger] s[k].0.len() <= b && s[k].1.len() <= b,
    ensures
        max_pair_len(s) <= b,
    decreases s.len(),
{
    if s.len() > 0 {
        lemma_max_pair_len_bound(s.drop_last(), b);
    }
}

/// Every element text of a printed array is shorter than the array by its
/// two brackets.
pub proof fn lemma_array_elems_short(value: Seq<char>)
    ensures
        forall|k: int| 0 <= k < array_elems(value).len() ==> #[trigger] array_elems(value)[k].len() + 2 <= value.len(),
{
    let v = trim(value);
    lemma_trim_shorter(value);
    if v.len() > 0 && v[0] == '[' && v.last() == ']' {
        let inner = v.subrange(1, v.len() - 1);
        lemma_split_pieces_shorter(inner, ',');
    }
}

proof fn lemma_dict_entries_short(es: Seq<Seq<char>>, b: nat)
    requires
        forall|k: int| 0 <= k < es.len() ==> #[trigger] es[k].len() <= b,
    ensures
        forall|k: int| 0 <= k < dict_entries(es).len() ==> #[trigger] dict_entries(es)[k].0.len() <= b
            && dict_entries(es)[k].1.len() <= b,
    decreases es.len(),
{
    if es.len() > 0 {
        let d = es.drop_last();
        assert forall|k: int| 0 <= k < d.len() implies #[trigger] d[k].len() <= b by {
            assert(d[k] == es[k]);
        }
        lemma_dict_entries_short(d, b);
        let e = es.last();
        assert(e == es[es.len() - 1]);
        let r = dict_entries(d);
        match top_index(e, ':') {
            Some(j) => {
                crate::printed::lemma_top_index_in_range(e, ':');
                lemma_trim_shorter(e.subrange(0, j));
                lemma_trim_shorter(trim(e.subrange(0, j)));
                lemma_trim_shorter(e.subrange(j + 1, e.len() as int));
                let p = dict_entry(e).unwrap();
                assert(p.0.len() <= b);
                assert(p.1.len() <= b);
                assert(dict_entries(es) == r.push(p));
                assert forall|k: int| 0 <= k < dict_entries(es).len() implies #[trigger] dict_entries(es)[k].0.len() <= b
                    && dict_entries(es)[k].1.len() <= b by {
                    if k < r.len() {
                        assert(dict_entries(es)[k] == r[k]);
                    }
                }
            },
            None => {
                assert(dict_entries(es) == r);
            },
        }
    }
}

/// Every key and value text of a printed dictionary is shorter than the
/// dictionary by its two braces.
pub proof fn lemma_dict_pairs_short(value: Seq<char>)
    ensures
        forall|k: int| 0 <= k < dict_pairs(value).len() ==> #[trigger] dict_pairs(value)[k].0.len() + 2 <= value.len()
            && dict_pairs(value)[k].1.len() + 2 <= value.len(),
{
    let v = trim(value);
    lemma_trim_shorter(value);
    if v.len() > 0 && v[0] == '{' && v.last() == '}' {
        let inner = v.subrange(1, v.len() - 1);
        lemma_split_pieces_shorter(inner, ',');
        lemma_dict_entries_short(split_top(inner, ','), inner.len());
    }
}

/// The key and value types of a dictionary type are shorter than it by
/// its braces and colon.
pub proof fn lemma_dict_types_short(t: Seq<char>)
    requires
        is_dict_type(t),
    ensures
        dict_types(t).0.len() + dict_types(t).1.len() + 3 <= t.len(),
{
    let inner = t.subrange(1, t.len() - 1);
    lemma_first_index_bounds(inner, ':');
    let j = choose|j: int| 0 <= j < t.len() && t[j] == ':';
    assert(0 < j < t.len() - 1);
    assert(inner[j - 1] == ':');
    match first_index(inner, ':') {
        Some(c) => {
            lemma_trim_shorter(inner.subrange(0, c));
            lemma_trim_shorter(inner.subrange(c + 1, inner.len() as int));
        },
        None => {},
    }
}

} // verus!
