//! Which type names a value record refers to, and that decoding a printed
//! value registers every one of them.

use vstd::prelude::*;
use crate::value::ValueV;
use crate::text::trim;
use crate::printed::{array_elems, dict_pairs, struct_fields};
use crate::decode::{
    TypeReq, decode, decode_list, decode_pairs, dict_types, is_absent_optional, is_array_type,
    is_dict_type, is_enum_type, is_optional_type, lemma_array_elems_short, lemma_dict_pairs_short,
    lemma_dict_types_short, lemma_max_len_bound, lemma_max_pair_len_bound, max_len, max_pair_len,
    struct_field_values, ty_len, untyped_dict, untyped_seq,
};

verus! {

/// The type name a value record carries.
pub open spec fn ty_of(v: ValueV) -> Seq<char> {
    match v {
        ValueV::Int { ty, .. } => ty,
        ValueV::Bool { ty, .. } => ty,
        ValueV::String { ty, .. } => ty,
        ValueV::Raw { ty, .. } => ty,
        ValueV::BigInt { ty, .. } => ty,
        ValueV::Sequence { ty, .. } => ty,
        ValueV::Tuple { ty, .. } => ty,
        ValueV::Struct { ty, .. } => ty,
        ValueV::Variant { ty, .. } => ty,
        ValueV::Reference { ty, .. } => ty,
        ValueV::NoValue { ty } => ty,
    }
}

/// Every type name `v` carries, its own and its parts', is among `names`.
pub open spec fn typed_in(v: ValueV, names: Seq<Seq<char>>) -> bool
    decreases v,
{
    names.contains(ty_of(v)) && match v {
        ValueV::Sequence { elements, .. } => all_typed_in(elements, names),
        ValueV::Tuple { elements, .. } => all_typed_in(elements, names),
        ValueV::Struct { field_values, .. } => all_typed_in(field_values, names),
        ValueV::Variant { contents, .. } => typed_in(*contents, names),
        ValueV::Reference { dereferenced, .. } => typed_in(*dereferenced, names),
        _ => true,
    }
}

/// [`typed_in`] for every value of `vs`.
pub open spec fn all_typed_in(vs: Seq<ValueV>, names: Seq<Seq<char>>) -> bool
    decreases vs,
{
    if vs.len() == 0 {
        true
    } else {
        all_typed_in(vs.subrange(0, vs.len() - 1), names) && typed_in(vs[vs.len() - 1], names)
    }
}

/// The names of the type requests `rs`.
pub open spec fn req_names(rs: Seq<TypeReq>) -> Seq<Seq<char>> {
    rs.map_values(|r: TypeReq| r.1)
}

/// Every name of `a` is among `b`.
pub open spec fn names_within(a: Seq<Seq<char>>, b: Seq<Seq<char>>) -> bool {
    forall|x: Seq<char>| a.contains(x) ==> #[trigger] b.contains(x)
}

pub proof fn lemma_typed_mono(v: ValueV, a: Seq<Seq<char>>, b: Seq<Seq<char>>)
    requires
        typed_in(v, a),
        names_within(a, b),
    ensures
        typed_in(v, b),
    decreases v,
{
    match v {
        ValueV::Sequence { elements, .. } => lemma_all_typed_mono(elements, a, b),
        ValueV::Tuple { elements, .. } => lemma_all_typed_mono(elements, a, b),
        ValueV::Struct { field_values, .. } => lemma_all_typed_mono(field_values, a, b),
        ValueV::Variant { contents, .. } => lemma_typed_mono(*contents, a, b),
        ValueV::Reference { dereferenced, .. } => lemma_typed_mono(*dereferenced, a, b),
        _ => {},
    }
}

pub proof fn lemma_all_typed_mono(vs: Seq<ValueV>, a: Seq<Seq<char>>, b: Seq<Seq<char>>)
    requires
        all_typed_in(vs, a),
        names_within(a, b),
    ensures
        all_typed_in(vs, b),
    decreases vs,
{
    if vs.len() > 0 {
        lemma_all_typed_mono(vs.subrange(0, vs.len() - 1), a, b);
        lemma_typed_mono(vs[vs.len() - 1], a, b);
    }
}

pub proof fn lemma_all_typed_push(vs: Seq<ValueV>, v: ValueV, names: Seq<Seq<char>>)
    requires
        all_typed_in(vs, names),
        typed_in(v, names),
    ensures
        all_typed_in(vs.push(v), names),
{
    assert(vs.push(v).subrange(0, vs.len() as int) =~= vs);
}

proof fn lemma_all_typed_pair(a: ValueV, b: ValueV, names: Seq<Seq<char>>)
    requires
        typed_in(a, names),
        typed_in(b, names),
    ensures
        all_typed_in(seq![a, b], names),
{
    let e = Seq::<ValueV>::empty();
    lemma_all_typed_push(e, a, names);
    assert(e.push(a) =~= seq![a]);
    lemma_all_typed_push(seq![a], b, names);
    assert(seq![a].push(b) =~= seq![a, b]);
}

proof fn lemma_req_names_append(a: Seq<TypeReq>, b: Seq<TypeReq>)
    ensures
        req_names(a + b) =~= req_names(a) + req_names(b),
{
}

proof fn lemma_within_left(a: Seq<TypeReq>, b: Seq<TypeReq>)
    ensures
        names_within(req_names(a), req_names(a + b)),
        names_within(req_names(b), req_names(a + b)),
{
    lemma_req_names_append(a, b);
    assert forall|x: Seq<char>| req_names(a).contains(x) implies #[trigger] req_names(a + b).contains(x) by {
        let i = choose|i: int| 0 <= i < req_names(a).len() && req_names(a)[i] == x;
        assert(req_names(a + b)[i] == x);
    }
    assert forall|x: Seq<char>| req_names(b).contains(x) implies #[trigger] req_names(a + b).contains(x) by {
        let i = choose|i: int| 0 <= i < req_names(b).len() && req_names(b)[i] == x;
        assert(req_names(a + b)[a.len() + i] == x);
    }
}

proof fn lemma_entry_within(head: Seq<TypeReq>, rs: Seq<TypeReq>)
    requires
        head.len() == 2,
        head[1].1 == "DictEntry"@,
    ensures
        names_within(entry_names(rs), req_names(head + rs)),
{
    lemma_within_left(head, rs);
    assert forall|x: Seq<char>| entry_names(rs).contains(x) implies #[trigger] req_names(head + rs).contains(x) by {
        let i = choose|i: int| 0 <= i < entry_names(rs).len() && entry_names(rs)[i] == x;
        if i == 0 {
            assert(req_names(head + rs)[1] == x);
        } else {
            assert(req_names(rs)[i - 1] == x);
            assert(req_names(rs).contains(x));
        }
    }
}

proof fn lemma_struct_fields_typed(fs: Seq<(Seq<char>, Seq<char>)>)
    ensures
        all_typed_in(struct_field_values(fs).0, req_names(struct_field_values(fs).1)),
        struct_field_values(fs).0.len() == fs.len(),
    decreases fs.len(),
{
    if fs.len() > 0 {
        let (vs, rs) = struct_field_values(fs.drop_last());
        lemma_struct_fields_typed(fs.drop_last());
        let (v, r) = crate::decode::struct_field_value(fs.last().1);
        lemma_within_left(rs, seq![r]);
        assert(rs.push(r) =~= rs + seq![r]);
        lemma_all_typed_mono(vs, req_names(rs), req_names(rs.push(r)));
        assert(req_names(rs.push(r))[rs.len() as int] == r.1);
        lemma_all_typed_push(vs, v, req_names(rs.push(r)));
    }
}

/// A leaf value whose type is the first one requested.
proof fn lemma_single_typed(d: (ValueV, Seq<TypeReq>))
    requires
        d.1.len() >= 1,
        ty_of(d.0) == d.1[0].1,
        !(d.0 is Sequence || d.0 is Tuple || d.0 is Struct || d.0 is Variant || d.0 is Reference),
    ensures
        typed_in(d.0, req_names(d.1)),
{
    assert(req_names(d.1)[0] == d.1[0].1);
}

proof fn lemma_path_typed(value: Seq<char>, t: Seq<char>)
    ensures
        typed_in(crate::decode::decode_path(value, t).0, req_names(crate::decode::decode_path(value, t).1)),
{
    let (v, rs) = crate::decode::decode_path(value, t);
    let names = req_names(rs);
    assert(names[0] == t && names[1] == "PathDomain"@ && names[2] == "PathIdentifier"@);
    let (d, i) = crate::decode::path_parts(value);
    let a = ValueV::String { text: d, ty: "PathDomain"@ };
    let b = ValueV::String { text: i, ty: "PathIdentifier"@ };
    assert(names.contains("PathDomain"@));
    assert(names.contains("PathIdentifier"@));
    lemma_all_typed_pair(a, b, names);
    assert(names.contains(t));
}

proof fn lemma_reference_typed(value: Seq<char>, t: Seq<char>)
    ensures
        typed_in(crate::decode::decode_reference(value, t).0, req_names(crate::decode::decode_reference(value, t).1)),
{
    let (v, rs) = crate::decode::decode_reference(value, t);
    let names = req_names(rs);
    assert(names[0] == t && names[1] == "ReferencePayload"@);
    assert(names.contains(t));
    assert(typed_in(ValueV::String { text: value, ty: "ReferencePayload"@ }, names));
}

proof fn lemma_resource_typed(value: Seq<char>, t: Seq<char>)
    ensures
        typed_in(crate::decode::decode_resource(value, t).0, req_names(crate::decode::decode_resource(value, t).1)),
{
    let (v, rs) = crate::decode::decode_resource(value, t);
    let names = req_names(rs);
    assert(names[0] == t && names[1] == "ResourceType"@ && names[2] == "ResourceUuid"@);
    let (pt, pu, po) = match crate::printed::resource_handle(value) {
        Some(h) => h,
        None => (t.drop_first(), 0u64, None),
    };
    let a = ValueV::String { text: pt, ty: "ResourceType"@ };
    let b = ValueV::Int { i: pu as i64, ty: "ResourceUuid"@ };
    let base = seq![a, b];
    assert(names.contains("ResourceType"@));
    assert(names.contains("ResourceUuid"@));
    assert(names.contains(t));
    lemma_all_typed_pair(a, b, names);
    match po {
        Some(o) => {
            assert(names[3] == "ResourceOwner"@);
            lemma_all_typed_push(base, ValueV::String { text: o, ty: "ResourceOwner"@ }, names);
        },
        None => {},
    }
}

proof fn lemma_struct_typed(value: Seq<char>, t: Seq<char>)
    ensures
        typed_in(crate::decode::decode_struct(value, t).0, req_names(crate::decode::decode_struct(value, t).1)),
{
    let (v, rs) = crate::decode::decode_struct(value, t);
    let names = req_names(rs);
    let (vs, sr) = struct_field_values(struct_fields(value));
    lemma_struct_fields_typed(struct_fields(value));
    lemma_within_left(seq![(crate::value::TypeKind::Struct, t)], sr);
    lemma_all_typed_mono(vs, req_names(sr), names);
    assert(names[0] == t);
}

/// Decoding a printed value registers every type name the value carries.
pub proof fn lemma_decode_typed(value: Seq<char>, ty: Option<Seq<char>>)
    ensures
        typed_in(decode(value, ty).0, req_names(decode(value, ty).1)),
    decreases value.len() + ty_len(ty), 0nat, 0nat,
{
    let has = ty is Some;
    let t = match ty {
        Some(raw) => trim(raw),
        None => "Int"@,
    };
    if has {
        crate::text::lemma_trim_shorter(ty->0);
    }
    let (v, rs) = decode(value, ty);
    let names = req_names(rs);
    if has && is_enum_type(t) {
        assert(names[1] == "EnumCase"@);
        assert(names[0] == t);
        assert(names.contains("EnumCase"@));
        assert(names.contains(t));
        assert(typed_in(ValueV::NoValue { ty: "EnumCase"@ }, names));
        assert(typed_in(v, names));
    } else if has && is_optional_type(t) {
        let inner = t.drop_last();
        let tv = trim(value);
        if is_absent_optional(tv) {
            assert(names[0] == t);
            assert(names[1] == inner);
            assert(names.contains(inner));
            assert(names.contains(t));
            assert(typed_in(ValueV::NoValue { ty: inner }, names));
        } else {
            crate::text::lemma_trim_shorter(value);
            lemma_decode_typed(tv, Some(inner));
            let (iv, ir) = decode(tv, Some(inner));
            lemma_within_left(seq![(crate::value::TypeKind::Variant, t)], ir);
            lemma_typed_mono(iv, req_names(ir), names);
            assert(names[0] == t);
            assert(names.contains(t));
            assert(v == ValueV::Variant { discriminator: "Some"@, contents: Box::new(iv), ty: t });
        }
        assert(typed_in(v, names));
    } else if has && is_array_type(t) {
        let elems = array_elems(value);
        lemma_array_elems_short(value);
        lemma_max_len_bound(elems, (value.len() - 2) as nat);
        let et = Some(t.subrange(1, t.len() - 1));
        lemma_list_typed(elems, et);
        let (vs, lr) = decode_list(elems, et);
        lemma_within_left(seq![(crate::value::TypeKind::Sequence, t)], lr);
        lemma_all_typed_mono(vs, req_names(lr), names);
        assert(names[0] == t);
        assert(typed_in(v, names));
    } else if has && is_dict_type(t) {
        let pairs = dict_pairs(value);
        let (kt, vt) = dict_types(t);
        lemma_dict_pairs_short(value);
        lemma_max_pair_len_bound(pairs, (value.len() - 2) as nat);
        lemma_dict_types_short(t);
        lemma_pairs_typed(pairs, Some(kt), Some(vt));
        let (vs, pr) = decode_pairs(pairs, Some(kt), Some(vt));
        let head = seq![
            (crate::value::TypeKind::Sequence, t),
            (crate::value::TypeKind::Tuple, "DictEntry"@),
        ];
        lemma_entry_within(head, pr);
        lemma_all_typed_mono(vs, entry_names(pr), names);
        assert(names[0] == t);
        assert(typed_in(v, names));
    } else if has && crate::decode::is_path_type(t) {
        lemma_path_typed(value, t);
    } else if has && t == "Address"@ {
        lemma_single_typed(crate::decode::decode_address(value));
    } else if has && crate::decode::is_wide_int_type(t) {
        lemma_single_typed(crate::decode::decode_wide(value, t));
    } else if has && crate::decode::is_reference_type(t) {
        lemma_reference_typed(value, t);
    } else if has && crate::decode::is_resource_type(t) {
        lemma_resource_typed(value, t);
    } else if has && crate::decode::is_struct_printed(value, t) {
        lemma_struct_typed(value, t);
    } else if has && t == "Bool"@ {
        lemma_single_typed(crate::decode::decode_bool(value));
    } else if has && t == "String"@ {
        assert(names[0] == "String"@);
    } else if has && crate::decode::is_fixed_type(t) {
        lemma_single_typed(crate::decode::decode_fixed(value, t));
    } else if has && crate::decode::is_int_type(t) {
        lemma_single_typed(crate::decode::decode_int(value, t));
    } else {
        let tv = trim(value);
        if untyped_seq(tv) {
            let elems = array_elems(value);
            lemma_array_elems_short(value);
            lemma_max_len_bound(elems, (value.len() - 2) as nat);
            lemma_list_typed(elems, None);
            let (vs, lr) = decode_list(elems, None);
            lemma_within_left(seq![(crate::value::TypeKind::Sequence, "[]"@)], lr);
            lemma_all_typed_mono(vs, req_names(lr), names);
            assert(names[0] == "[]"@);
        } else if untyped_dict(tv) {
            let pairs = dict_pairs(value);
            lemma_dict_pairs_short(value);
            lemma_max_pair_len_bound(pairs, (value.len() - 2) as nat);
            lemma_pairs_typed(pairs, None, None);
            let (vs, pr) = decode_pairs(pairs, None, None);
            let head = seq![
                (crate::value::TypeKind::Sequence, "{}"@),
                (crate::value::TypeKind::Tuple, "DictEntry"@),
            ];
            lemma_entry_within(head, pr);
            lemma_all_typed_mono(vs, entry_names(pr), names);
            assert(names[0] == "{}"@);
        } else {
            lemma_single_typed(crate::decode::decode_int(value, t));
        }
    }
}

proof fn lemma_list_typed(elems: Seq<Seq<char>>, ty: Option<Seq<char>>)
    ensures
        all_typed_in(decode_list(elems, ty).0, req_names(decode_list(elems, ty).1)),
    decreases max_len(elems) + ty_len(ty), 1nat, elems.len(),
{
    if elems.len() > 0 {
        let (vs, rs) = decode_list(elems.drop_last(), ty);
        lemma_list_typed(elems.drop_last(), ty);
        lemma_decode_typed(elems.last(), ty);
        let (v, r) = decode(elems.last(), ty);
        lemma_within_left(rs, r);
        lemma_all_typed_mono(vs, req_names(rs), req_names(rs + r));
        lemma_typed_mono(v, req_names(r), req_names(rs + r));
        lemma_all_typed_push(vs, v, req_names(rs + r));
    }
}

/// The names of `rs`, with the dictionary entry type the caller registers.
pub open spec fn entry_names(rs: Seq<TypeReq>) -> Seq<Seq<char>> {
    seq!["DictEntry"@] + req_names(rs)
}

proof fn lemma_pairs_typed(
    pairs: Seq<(Seq<char>, Seq<char>)>,
    kt: Option<Seq<char>>,
    vt: Option<Seq<char>>,
)
    ensures
        all_typed_in(decode_pairs(pairs, kt, vt).0, entry_names(decode_pairs(pairs, kt, vt).1)),
    decreases max_pair_len(pairs) + ty_len(kt) + ty_len(vt), 1nat, pairs.len(),
{
    if pairs.len() > 0 {
        let (vs, rs) = decode_pairs(pairs.drop_last(), kt, vt);
        lemma_pairs_typed(pairs.drop_last(), kt, vt);
        lemma_decode_typed(pairs.last().0, kt);
        lemma_decode_typed(pairs.last().1, vt);
        let (kv, kr) = decode(pairs.last().0, kt);
        let (vv, vr) = decode(pairs.last().1, vt);
        let all = rs + kr + vr;
        lemma_within_left(rs + kr, vr);
        lemma_within_left(rs, kr);
        let n = entry_names(all);
        assert forall|x: Seq<char>| req_names(all).contains(x) implies #[trigger] n.contains(x) by {
            let i = choose|i: int| 0 <= i < req_names(all).len() && req_names(all)[i] == x;
            assert(n[i + 1] == x);
        }
        assert(names_within(entry_names(rs), n)) by {
            assert forall|x: Seq<char>| entry_names(rs).contains(x) implies #[trigger] n.contains(x) by {
                let i = choose|i: int| 0 <= i < entry_names(rs).len() && entry_names(rs)[i] == x;
                if i == 0 {
                    assert(n[0] == x);
                } else {
                    assert(req_names(rs)[i - 1] == x);
                    assert(req_names(rs).contains(x));
                    assert(req_names(rs + kr).contains(x));
                    assert(req_names(all).contains(x));
                }
            }
        }
        assert(names_within(req_names(kr), n)) by {
            assert forall|x: Seq<char>| req_names(kr).contains(x) implies #[trigger] n.contains(x) by {
                assert(req_names(rs + kr).contains(x));
                assert(req_names(all).contains(x));
            }
        }
        assert(names_within(req_names(vr), n)) by {
            assert forall|x: Seq<char>| req_names(vr).contains(x) implies #[trigger] n.contains(x) by {
                assert(req_names(all).contains(x));
            }
        }
        lemma_all_typed_mono(vs, entry_names(rs), n);
        lemma_typed_mono(kv, req_names(kr), n);
        lemma_typed_mono(vv, req_names(vr), n);
        let tup = ValueV::Tuple { elements: seq![kv, vv], ty: "DictEntry"@ };
        lemma_all_typed_pair(kv, vv, n);
        assert(n[0] == "DictEntry"@);
        assert(n.contains("DictEntry"@));
        lemma_all_typed_push(vs, tup, n);
    }
}

} // verus!
