//! The recorder's conversion of helper trace events into trace-writer
//! operations: steps, variables, calls, returns and tagged event-log
//! entries, with typed values and registered types.

use vstd::prelude::*;
use crate::text::{
    chars_eq, chars_of, contains_char, find_char, is_lit, lemma_first_index_bounds,
    lemma_trim_shorter, parse_i64, parse_u64_radix, slice_chars, starts_with_lit, string_of,
    trim_chars,
};
use crate::printed::{
    array_elems, dict_pairs, parse_cadence_array, parse_cadence_dict, parse_cadence_struct,
    parse_resource_handle, pair_views, struct_fields, views,
};
use crate::numeric::{all_decimal_digits, decimal_to_be_bytes, parse_fixed_point_scaled, stable_address_hash};
use crate::decode::{
    address_hex, be_fixed, bigint_parts, decode, decode_address, decode_bool, decode_enum,
    decode_dict_of, decode_fixed, decode_int, decode_list, decode_optional_of, decode_pairs,
    decode_seq_of, decode_path, decode_reference,
    decode_resource, decode_struct, decode_wide, dict_types, is_dict_type,
    lemma_array_elems_short, lemma_dict_pairs_short, lemma_dict_types_short, path_parts,
    struct_field_value, struct_field_values, ty_len, TypeReq,
};
use crate::value::{
    TypeKind, Value, ValueV, lemma_values_view_push, value_view,
    values_view,
};
use crate::ops::{OpV, TraceOp, ops_view};
use crate::paths::{path_equiv, same_path};
use crate::conversion::{
    ensure_path, initial_state, initial_types, lookup_lengths, open_step, path_in, same_path_as, step_column,
    typed_var, write_op, write_vars,
};

verus! {

/// The per-line byte lengths of one source file, as read from disk (empty
/// when the file could not be read).
#[derive(Debug, Clone, PartialEq)]
pub struct SourceLines {
    pub path: String,
    pub line_lengths: Vec<u32>,
}

/// Converts helper trace events into the trace-writer operations that
/// record them.
pub struct CadenceTracer {
    ops: Vec<TraceOp>,
    types: Vec<Vec<char>>,
    paths_with_line_lengths: Vec<String>,
    paths_with_column_axis: Vec<String>,
    step_open: bool,
    deferred_vars: Vec<(String, Value)>,
    sources: Vec<SourceLines>,
}

/// The mathematical state of a [`CadenceTracer`].
pub struct TracerV {
    /// Writer operations so far.
    pub ops: Seq<OpV>,
    /// Type names registered so far, in order.
    pub types: Seq<Seq<char>>,
    /// Paths registered with their line-length table.
    pub lengths_paths: Seq<Seq<char>>,
    /// Registered paths whose table is non-empty: they have a column axis.
    pub axis_paths: Seq<Seq<char>>,
    /// Whether a step is open for variables to attach to.
    pub step_open: bool,
    /// Variables staged while no step was open.
    pub deferred: Seq<(Seq<char>, ValueV)>,
    /// Line-length tables of the source files.
    pub sources: Seq<(Seq<char>, Seq<u32>)>,
}

pub open spec fn names_view(s: Seq<Vec<char>>) -> Seq<Seq<char>> {
    s.map_values(|v: Vec<char>| v@)
}

pub open spec fn strings_view(s: Seq<String>) -> Seq<Seq<char>> {
    s.map_values(|v: String| v@)
}

pub open spec fn vars_view(s: Seq<(String, Value)>) -> Seq<(Seq<char>, ValueV)> {
    s.map_values(|p: (String, Value)| (p.0@, value_view(p.1)))
}

pub open spec fn sources_view(s: Seq<SourceLines>) -> Seq<(Seq<char>, Seq<u32>)> {
    s.map_values(|p: SourceLines| (p.path@, p.line_lengths@))
}

impl View for CadenceTracer {
    type V = TracerV;

    closed spec fn view(&self) -> TracerV {
        TracerV {
            ops: ops_view(self.ops@),
            types: names_view(self.types@),
            lengths_paths: strings_view(self.paths_with_line_lengths@),
            axis_paths: strings_view(self.paths_with_column_axis@),
            step_open: self.step_open,
            deferred: vars_view(self.deferred_vars@),
            sources: sources_view(self.sources@),
        }
    }
}

pub open spec fn push_op(st: TracerV, op: OpV) -> TracerV {
    TracerV { ops: st.ops.push(op), ..st }
}

/// Register the type `r.1` unless a type of that name is registered already.
pub open spec fn apply_req(st: TracerV, r: TypeReq) -> TracerV {
    if st.types.contains(r.1) {
        st
    } else {
        TracerV {
            types: st.types.push(r.1),
            ops: st.ops.push(OpV::EnsureType { kind: r.0, name: r.1 }),
            ..st
        }
    }
}

pub open spec fn apply_reqs(st: TracerV, rs: Seq<TypeReq>) -> TracerV
    decreases rs.len(),
{
    if rs.len() == 0 {
        st
    } else {
        apply_req(apply_reqs(st, rs.drop_last()), rs.last())
    }
}

pub proof fn lemma_apply_reqs_push(st: TracerV, rs: Seq<TypeReq>, r: TypeReq)
    ensures
        apply_reqs(st, rs.push(r)) == apply_req(apply_reqs(st, rs), r),
{
    assert(rs.push(r).drop_last() =~= rs);
}

pub proof fn lemma_apply_reqs_append(st: TracerV, a: Seq<TypeReq>, b: Seq<TypeReq>)
    ensures
        apply_reqs(st, a + b) == apply_reqs(apply_reqs(st, a), b),
    decreases b.len(),
{
    if b.len() == 0 {
        assert(a + b =~= a);
    } else {
        lemma_apply_reqs_append(st, a, b.drop_last());
        assert((a + b).drop_last() =~= a + b.drop_last());
        assert((a + b).last() == b.last());
    }
}

impl CadenceTracer {
    pub(crate) fn push_op(&mut self, op: TraceOp)
        ensures
            final(self)@ == push_op(old(self)@, op@),
    {
        self.ops.push(op);
        assert(ops_view(self.ops@) =~= ops_view(old(self).ops@).push(op@));
    }

    /// Register the type `name` of kind `kind` unless one of that name is
    /// registered already; returns the name under which values of it go.
    pub(crate) fn ensure_type(&mut self, kind: TypeKind, name: &[char]) -> (res: String)
        ensures
            final(self)@ == apply_req(old(self)@, (kind, name@)),
            res@ == name@,
    {
        let mut i: usize = 0;
        while i < self.types.len()
            invariant
                i <= self.types@.len(),
                forall|k: int| 0 <= k < i ==> (#[trigger] self.types@[k])@ != name@,
            decreases self.types@.len() - i,
        {
            if chars_eq(&self.types[i], name) {
                assert(names_view(self.types@)[i as int] == name@);
                return string_of(name);
            }
            i = i + 1;
        }
        assert(!names_view(self.types@).contains(name@)) by {
            if names_view(self.types@).contains(name@) {
                let k = choose|k: int| 0 <= k < names_view(self.types@).len() && names_view(self.types@)[k] == name@;
                assert(self.types@[k]@ == name@);
            }
        }
        let nm = slice_chars(name, 0, name.len());
        assert(name@.subrange(0, name@.len() as int) =~= name@);
        self.types.push(nm);
        assert(names_view(self.types@) =~= names_view(old(self).types@).push(name@));
        let s = string_of(name);
        let s2 = string_of(name);
        self.push_op(TraceOp::EnsureType { kind, name: s });
        s2
    }
}

/// `n` as `k` big-endian bytes.
fn be_fixed_bytes(n: u64, k: usize) -> (res: Vec<u8>)
    ensures
        res@ == be_fixed(n as nat, k as nat),
    decreases k,
{
    if k == 0 {
        Vec::new()
    } else {
        let mut v = be_fixed_bytes(n / 256, k - 1);
        v.push((n % 256) as u8);
        v
    }
}

/// A copy of `v`.
pub fn clone_value(v: &Value) -> (res: Value)
    ensures
        res@ == v@,
    decreases v,
{
    match v {
        Value::Int { i, ty } => Value::Int { i: *i, ty: ty.clone() },
        Value::Bool { b, ty } => Value::Bool { b: *b, ty: ty.clone() },
        Value::String { text, ty } => Value::String { text: text.clone(), ty: ty.clone() },
        Value::Raw { r, ty } => Value::Raw { r: r.clone(), ty: ty.clone() },
        Value::BigInt { b, negative, ty } => Value::BigInt {
            b: b.clone(),
            negative: *negative,
            ty: ty.clone(),
        },
        Value::Sequence { elements, is_slice, ty } => Value::Sequence {
            elements: clone_values(elements),
            is_slice: *is_slice,
            ty: ty.clone(),
        },
        Value::Tuple { elements, ty } => Value::Tuple {
            elements: clone_values(elements),
            ty: ty.clone(),
        },
        Value::Struct { field_values, ty } => Value::Struct {
            field_values: clone_values(field_values),
            ty: ty.clone(),
        },
        Value::Variant { discriminator, contents, ty } => Value::Variant {
            discriminator: discriminator.clone(),
            contents: Box::new(clone_value(contents)),
            ty: ty.clone(),
        },
        Value::Reference { dereferenced, address, mutable, ty } => Value::Reference {
            dereferenced: Box::new(clone_value(dereferenced)),
            address: *address,
            mutable: *mutable,
            ty: ty.clone(),
        },
        Value::NoValue { ty } => Value::NoValue { ty: ty.clone() },
    }
}

/// A copy of every value of `vs`.
pub fn clone_values(vs: &Vec<Value>) -> (res: Vec<Value>)
    ensures
        values_view(res@) == values_view(vs@),
    decreases vs,
{
    let mut out: Vec<Value> = Vec::new();
    let mut i: usize = 0;
    while i < vs.len()
        invariant
            i <= vs@.len(),
            values_view(out@) == values_view(vs@.take(i as int)),
        decreases vs@.len() - i,
    {
        let c = clone_value(&vs[i]);
        proof {
            lemma_values_view_push(out@, c);
            lemma_values_view_push(vs@.take(i as int), vs@[i as int]);
            assert(vs@.take(i + 1) =~= vs@.take(i as int).push(vs@[i as int]));
        }
        out.push(c);
        i = i + 1;
    }
    assert(vs@.take(vs@.len() as int) =~= vs@);
    out
}

pub open spec fn opt_chars(o: Option<Vec<char>>) -> Option<Seq<char>> {
    match o {
        Some(v) => Some(v@),
        None => None,
    }
}

fn clone_opt(o: &Option<Vec<char>>) -> (res: Option<Vec<char>>)
    ensures
        opt_chars(res) == opt_chars(*o),
{
    match o {
        Some(v) => {
            let c = slice_chars(v, 0, v.len());
            assert(v@.subrange(0, v@.len() as int) =~= v@);
            Some(c)
        },
        None => None,
    }
}

/// Whether a value goes to the writer encoded (Bool and String keep their
/// variant only that way).
pub open spec fn is_encoded(v: ValueV) -> bool {
    v is Bool || v is String
}

impl CadenceTracer {
    fn ensure_tracked(
        &mut self,
        kind: TypeKind,
        name: &[char],
        Ghost(st0): Ghost<TracerV>,
        Ghost(rs): Ghost<Seq<TypeReq>>,
    ) -> (res: String)
        requires
            old(self)@ == apply_reqs(st0, rs),
        ensures
            final(self)@ == apply_reqs(st0, rs.push((kind, name@))),
            res@ == name@,
    {
        let r = self.ensure_type(kind, name);
        proof {
            lemma_apply_reqs_push(st0, rs, (kind, name@));
        }
        r
    }

    fn ensure_lit_tracked(
        &mut self,
        kind: TypeKind,
        lit: &str,
        Ghost(st0): Ghost<TracerV>,
        Ghost(rs): Ghost<Seq<TypeReq>>,
    ) -> (res: String)
        requires
            old(self)@ == apply_reqs(st0, rs),
        ensures
            final(self)@ == apply_reqs(st0, rs.push((kind, lit@))),
            res@ == lit@,
    {
        let l = chars_of(lit);
        self.ensure_tracked(kind, &l, Ghost(st0), Ghost(rs))
    }

    fn vr_enum(&mut self, value: &[char], t: &[char]) -> (res: Value)
        ensures
            res@ == decode_enum(value@, t@).0,
            final(self)@ == apply_reqs(old(self)@, decode_enum(value@, t@).1),
    {
        let ghost st0 = self@;
        let ghost rs: Seq<TypeReq> = seq![];
        let vt = self.ensure_tracked(TypeKind::Variant, t, Ghost(st0), Ghost(rs));
        proof {
            rs = rs.push((TypeKind::Variant, t@));
        }
        let inner = self.ensure_lit_tracked(TypeKind::NoValue, "EnumCase", Ghost(st0), Ghost(rs));
        proof {
            rs = rs.push((TypeKind::NoValue, "EnumCase"@));
            assert(rs =~= decode_enum(value@, t@).1);
        }
        let d = trim_chars(value);
        let nv = Value::NoValue { ty: inner };
        assert(nv@ == ValueV::NoValue { ty: "EnumCase"@ });
        Value::Variant { discriminator: string_of(&d), contents: Box::new(nv), ty: vt }
    }

    fn vr_path(&mut self, value: &[char], t: &[char]) -> (res: Value)
        ensures
            res@ == decode_path(value@, t@).0,
            final(self)@ == apply_reqs(old(self)@, decode_path(value@, t@).1),
    {
        let ghost st0 = self@;
        let ghost rs: Seq<TypeReq> = seq![];
        let st = self.ensure_tracked(TypeKind::Struct, t, Ghost(st0), Ghost(rs));
        proof {
            rs = rs.push((TypeKind::Struct, t@));
        }
        let dn = self.ensure_lit_tracked(TypeKind::String, "PathDomain", Ghost(st0), Ghost(rs));
        proof {
            rs = rs.push((TypeKind::String, "PathDomain"@));
        }
        let idn = self.ensure_lit_tracked(TypeKind::String, "PathIdentifier", Ghost(st0), Ghost(rs));
        proof {
            rs = rs.push((TypeKind::String, "PathIdentifier"@));
            assert(rs =~= decode_path(value@, t@).1);
        }
        let v = trim_chars(value);
        let stripped = if v.len() > 0 && v[0] == '/' {
            slice_chars(&v, 1, v.len())
        } else {
            slice_chars(&v, 0, v.len())
        };
        assert(v@.subrange(1, v@.len() as int) =~= v@.drop_first());
        assert(v@.subrange(0, v@.len() as int) =~= v@);
        proof {
            crate::text::lemma_first_index_bounds(stripped@, '/');
        }
        let (d, i) = match crate::text::find_char(&stripped, '/') {
            Some(k) => (slice_chars(&stripped, 0, k), slice_chars(&stripped, k + 1, stripped.len())),
            None => (slice_chars(&stripped, 0, stripped.len()), Vec::new()),
        };
        assert(stripped@.subrange(0, stripped@.len() as int) =~= stripped@);
        assert((d@, i@) == path_parts(value@));
        let mut fields: Vec<Value> = Vec::new();
        let f1 = Value::String { text: string_of(&d), ty: dn };
        let f2 = Value::String { text: string_of(&i), ty: idn };
        proof {
            lemma_values_view_push(fields@, f1);
            lemma_values_view_push(fields@.push(f1), f2);
            assert(values_view(Seq::<Value>::empty()) == Seq::<ValueV>::empty());
        }
        fields.push(f1);
        fields.push(f2);
        assert(values_view(fields@) =~= seq![
            ValueV::String { text: d@, ty: "PathDomain"@ },
            ValueV::String { text: i@, ty: "PathIdentifier"@ },
        ]);
        Value::Struct { field_values: fields, ty: st }
    }

    fn vr_address(&mut self, value: &[char]) -> (res: Value)
        ensures
            res@ == decode_address(value@).0,
            final(self)@ == apply_reqs(old(self)@, decode_address(value@).1),
    {
        let ghost st0 = self@;
        let tn = self.ensure_lit_tracked(TypeKind::Int, "Address", Ghost(st0), Ghost(Seq::<TypeReq>::empty()));
        assert(Seq::<TypeReq>::empty().push((TypeKind::Int, "Address"@)) =~= decode_address(value@).1);
        let v = trim_chars(value);
        let hex = if starts_with_lit(&v, "0x") || starts_with_lit(&v, "0X") {
            proof {
                reveal_strlit("0x");
                reveal_strlit("0X");
            }
            slice_chars(&v, 2, v.len())
        } else {
            slice_chars(&v, 0, v.len())
        };
        assert(v@.subrange(0, v@.len() as int) =~= v@);
        assert(hex@ == address_hex(value@));
        match parse_u64_radix(&hex, 16) {
            Some(u) => if u <= 0x7fff_ffff_ffff_ffff {
                Value::Int { i: u as i64, ty: tn }
            } else {
                Value::BigInt { b: be_fixed_bytes(u, 8), negative: false, ty: tn }
            },
            None => Value::Raw { r: string_of(value), ty: tn },
        }
    }

    fn vr_wide(&mut self, value: &[char], t: &[char]) -> (res: Value)
        ensures
            res@ == decode_wide(value@, t@).0,
            final(self)@ == apply_reqs(old(self)@, decode_wide(value@, t@).1),
    {
        let ghost st0 = self@;
        let tn = self.ensure_tracked(TypeKind::Int, t, Ghost(st0), Ghost(Seq::<TypeReq>::empty()));
        assert(Seq::<TypeReq>::empty().push((TypeKind::Int, t@)) =~= decode_wide(value@, t@).1);
        let v = trim_chars(value);
        let (neg, mag) = if v.len() > 0 && v[0] == '-' {
            (true, slice_chars(&v, 1, v.len()))
        } else {
            (false, slice_chars(&v, 0, v.len()))
        };
        assert(v@.subrange(1, v@.len() as int) =~= v@.drop_first());
        assert(v@.subrange(0, v@.len() as int) =~= v@);
        assert((neg, mag@) == bigint_parts(value@));
        let b = if mag.len() > 0 && all_decimal_digits(&mag) {
            decimal_to_be_bytes(&mag)
        } else {
            let mut z: Vec<u8> = Vec::new();
            z.push(0u8);
            assert(z@ =~= seq![0u8]);
            z
        };
        Value::BigInt { b, negative: neg, ty: tn }
    }

    fn vr_reference(&mut self, value: &[char], t: &[char]) -> (res: Value)
        ensures
            res@ == decode_reference(value@, t@).0,
            final(self)@ == apply_reqs(old(self)@, decode_reference(value@, t@).1),
    {
        let ghost st0 = self@;
        let ghost rs: Seq<TypeReq> = seq![];
        let rt = self.ensure_tracked(TypeKind::Ref, t, Ghost(st0), Ghost(rs));
        proof {
            rs = rs.push((TypeKind::Ref, t@));
        }
        let pt = self.ensure_lit_tracked(TypeKind::String, "ReferencePayload", Ghost(st0), Ghost(rs));
        proof {
            rs = rs.push((TypeKind::String, "ReferencePayload"@));
            assert(rs =~= decode_reference(value@, t@).1);
        }
        let mutable = starts_with_lit(t, "auth(");
        let address = stable_address_hash(value);
        let inner = Value::String { text: string_of(value), ty: pt };
        assert(inner@ == ValueV::String { text: value@, ty: "ReferencePayload"@ });
        Value::Reference { dereferenced: Box::new(inner), address, mutable, ty: rt }
    }

    fn vr_resource(&mut self, value: &[char], t: &[char]) -> (res: Value)
        requires
            t@.len() > 0,
        ensures
            res@ == decode_resource(value@, t@).0,
            final(self)@ == apply_reqs(old(self)@, decode_resource(value@, t@).1),
    {
        let ghost st0 = self@;
        let ghost rs: Seq<TypeReq> = seq![];
        let st = self.ensure_tracked(TypeKind::Struct, t, Ghost(st0), Ghost(rs));
        proof {
            rs = rs.push((TypeKind::Struct, t@));
        }
        let tf = self.ensure_lit_tracked(TypeKind::String, "ResourceType", Ghost(st0), Ghost(rs));
        proof {
            rs = rs.push((TypeKind::String, "ResourceType"@));
        }
        let uf = self.ensure_lit_tracked(TypeKind::Int, "ResourceUuid", Ghost(st0), Ghost(rs));
        proof {
            rs = rs.push((TypeKind::Int, "ResourceUuid"@));
        }
        let (pt, pu, po) = match parse_resource_handle(value) {
            Some(h) => h,
            None => (slice_chars(t, 1, t.len()), 0u64, None),
        };
        assert(t@.subrange(1, t@.len() as int) =~= t@.drop_first());
        let ghost h = match crate::printed::resource_handle(value@) {
            Some(h) => h,
            None => (t@.drop_first(), 0u64, None),
        };
        assert(pt@ == h.0 && pu == h.1);
        assert(match po {
            Some(o) => h.2 == Some(o@),
            None => h.2 is None,
        });
        let mut fields: Vec<Value> = Vec::new();
        assert(values_view(fields@) =~= Seq::<ValueV>::empty());
        let f1 = Value::String { text: string_of(&pt), ty: tf };
        let f2 = Value::Int { i: pu as i64, ty: uf };
        proof {
            lemma_values_view_push(fields@, f1);
            lemma_values_view_push(fields@.push(f1), f2);
        }
        fields.push(f1);
        fields.push(f2);
        let ghost base = seq![
            ValueV::String { text: h.0, ty: "ResourceType"@ },
            ValueV::Int { i: h.1 as i64, ty: "ResourceUuid"@ },
        ];
        assert(values_view(fields@) =~= base);
        match po {
            Some(o) => {
                let of = self.ensure_lit_tracked(TypeKind::String, "ResourceOwner", Ghost(st0), Ghost(rs));
                proof {
                    rs = rs.push((TypeKind::String, "ResourceOwner"@));
                    assert(rs =~= decode_resource(value@, t@).1);
                }
                let f3 = Value::String { text: string_of(&o), ty: of };
                proof {
                    lemma_values_view_push(fields@, f3);
                }
                fields.push(f3);
                assert(values_view(fields@) =~= base.push(ValueV::String { text: o@, ty: "ResourceOwner"@ }));
                let r = Value::Struct { field_values: fields, ty: st };
                assert(r@ == decode_resource(value@, t@).0);
                r
            },
            None => {
                assert(rs =~= decode_resource(value@, t@).1);
                let r = Value::Struct { field_values: fields, ty: st };
                assert(r@ == decode_resource(value@, t@).0);
                r
            },
        }
    }

    fn vr_struct(&mut self, value: &[char], t: &[char]) -> (res: Value)
        ensures
            res@ == decode_struct(value@, t@).0,
            final(self)@ == apply_reqs(old(self)@, decode_struct(value@, t@).1),
    {
        let ghost st0 = self@;
        let ghost rs: Seq<TypeReq> = seq![];
        let st = self.ensure_tracked(TypeKind::Struct, t, Ghost(st0), Ghost(rs));
        proof {
            rs = rs.push((TypeKind::Struct, t@));
        }
        let fields = parse_cadence_struct(value);
        let ghost fs = pair_views(fields@);
        let mut out: Vec<Value> = Vec::new();
        let mut i: usize = 0;
        while i < fields.len()
            invariant
                i <= fields@.len(),
                fs == pair_views(fields@),
                fs == struct_fields(value@),
                self@ == apply_reqs(st0, rs + struct_field_values(fs.take(i as int)).1),
                rs == seq![(TypeKind::Struct, t@)],
                values_view(out@) == struct_field_values(fs.take(i as int)).0,
            decreases fields@.len() - i,
        {
            let ghost pre = struct_field_values(fs.take(i as int));
            assert(fs.take(i + 1).drop_last() =~= fs.take(i as int));
            assert(fs.take(i + 1).last() == (fields@[i as int].0@, fields@[i as int].1@));
            let fv = &fields[i].1;
            let ghost r1 = struct_field_value(fv@);
            let v = match parse_i64(fv) {
                Some(n) => {
                    let tn = self.ensure_lit_tracked(TypeKind::Int, "Int", Ghost(st0), Ghost(rs + pre.1));
                    Value::Int { i: n, ty: tn }
                },
                None => {
                    let tn = self.ensure_lit_tracked(TypeKind::String, "String", Ghost(st0), Ghost(rs + pre.1));
                    Value::String { text: string_of(fv), ty: tn }
                },
            };
            proof {
                assert((rs + pre.1).push(r1.1) =~= rs + pre.1.push(r1.1));
                lemma_values_view_push(out@, v);
            }
            out.push(v);
            i = i + 1;
        }
        assert(fs.take(fields@.len() as int) =~= fs);
        Value::Struct { field_values: out, ty: st }
    }

    fn vr_bool(&mut self, value: &[char]) -> (res: Value)
        ensures
            res@ == decode_bool(value@).0,
            final(self)@ == apply_reqs(old(self)@, decode_bool(value@).1),
    {
        let ghost st0 = self@;
        let tn = self.ensure_lit_tracked(TypeKind::Bool, "Bool", Ghost(st0), Ghost(Seq::<TypeReq>::empty()));
        assert(Seq::<TypeReq>::empty().push((TypeKind::Bool, "Bool"@)) =~= decode_bool(value@).1);
        if is_lit(value, "true") {
            Value::Bool { b: true, ty: tn }
        } else if is_lit(value, "false") {
            Value::Bool { b: false, ty: tn }
        } else {
            Value::Raw { r: string_of(value), ty: tn }
        }
    }

    fn vr_fixed(&mut self, value: &[char], t: &[char]) -> (res: Value)
        ensures
            res@ == decode_fixed(value@, t@).0,
            final(self)@ == apply_reqs(old(self)@, decode_fixed(value@, t@).1),
    {
        let ghost st0 = self@;
        let tn = self.ensure_tracked(TypeKind::Int, t, Ghost(st0), Ghost(Seq::<TypeReq>::empty()));
        assert(Seq::<TypeReq>::empty().push((TypeKind::Int, t@)) =~= decode_fixed(value@, t@).1);
        let v = trim_chars(value);
        match parse_fixed_point_scaled(&v) {
            Some(sc) => Value::Int { i: sc, ty: tn },
            None => Value::Raw { r: string_of(value), ty: tn },
        }
    }

    fn vr_int(&mut self, value: &[char], lang: &[char]) -> (res: Value)
        ensures
            res@ == decode_int(value@, lang@).0,
            final(self)@ == apply_reqs(old(self)@, decode_int(value@, lang@).1),
    {
        let ghost st0 = self@;
        let tn = self.ensure_tracked(TypeKind::Int, lang, Ghost(st0), Ghost(Seq::<TypeReq>::empty()));
        assert(Seq::<TypeReq>::empty().push((TypeKind::Int, lang@)) =~= decode_int(value@, lang@).1);
        match parse_i64(value) {
            Some(n) => Value::Int { i: n, ty: tn },
            None => Value::Raw { r: string_of(value), ty: tn },
        }
    }

    /// The typed value record for the printed `value` under the optional
    /// Cadence type `ty`; registers the types it needs on the way.
    pub fn value_record(&mut self, value: &[char], ty: Option<Vec<char>>) -> (res: Value)
        ensures
            res@ == decode(value@, opt_chars(ty)).0,
            final(self)@ == apply_reqs(old(self)@, decode(value@, opt_chars(ty)).1),
        decreases value@.len() + ty_len(opt_chars(ty)), 2nat,
    {
        let ghost m = value@.len() + ty_len(opt_chars(ty));
        let has = ty.is_some();
        let t: Vec<char> = match &ty {
            Some(raw) => trim_chars(raw),
            None => chars_of("Int"),
        };
        proof {
            if has {
                lemma_trim_shorter(ty->0@);
            }
        }
        if has && starts_with_lit(&t, "enum:") {
            return self.vr_enum(value, &t);
        }
        if has && t.len() > 1 && t[t.len() - 1] == '?' {
            return self.vr_optional(value, &t, Ghost(m));
        }
        if has && t.len() >= 2 && t[0] == '[' && t[t.len() - 1] == ']' {
            let inner = slice_chars(&t, 1, t.len() - 1);
            return self.vr_seq(value, &t, Some(inner), Ghost(m));
        }
        if has && t.len() > 0 && t[0] == '{' && t[t.len() - 1] == '}' && contains_char(&t, ':') {
            return self.vr_dict(value, &t, true, Ghost(m));
        }
        if has && (is_lit(&t, "Path") || is_lit(&t, "StoragePath") || is_lit(&t, "PublicPath")
            || is_lit(&t, "PrivatePath") || is_lit(&t, "CapabilityPath")) {
            return self.vr_path(value, &t);
        }
        if has && is_lit(&t, "Address") {
            return self.vr_address(value);
        }
        if has && (is_lit(&t, "Int128") || is_lit(&t, "Int256") || is_lit(&t, "UInt128")
            || is_lit(&t, "UInt256") || is_lit(&t, "Word128") || is_lit(&t, "Word256")) {
            return self.vr_wide(value, &t);
        }
        if has && ((t.len() > 0 && t[0] == '&') || starts_with_lit(&t, "auth(") || starts_with_lit(
            &t,
            "Capability<",
        ) || is_lit(&t, "Capability")) {
            return self.vr_reference(value, &t);
        }
        if has && t.len() > 0 && t[0] == '@' {
            return self.vr_resource(value, &t);
        }
        if has && contains_char(value, '(') && contains_char(value, ')') && contains_char(value, ':')
            && !(t.len() > 0 && t[0] == '[') && !(t.len() > 0 && t[0] == '{') && !(t.len() > 0
            && t[0] == '@') && !(t.len() > 0 && t[t.len() - 1] == '?') {
            return self.vr_struct(value, &t);
        }
        if has && is_lit(&t, "Bool") {
            return self.vr_bool(value);
        }
        if has && is_lit(&t, "String") {
            let ghost st0 = self@;
            let tn = self.ensure_lit_tracked(TypeKind::String, "String", Ghost(st0), Ghost(Seq::<TypeReq>::empty()));
            assert(Seq::<TypeReq>::empty().push((TypeKind::String, "String"@)) =~= decode(value@, opt_chars(ty)).1);
            return Value::String { text: string_of(value), ty: tn };
        }
        if has && (is_lit(&t, "Fix64") || is_lit(&t, "UFix64")) {
            return self.vr_fixed(value, &t);
        }
        if has && (is_lit(&t, "Int") || is_lit(&t, "Int8") || is_lit(&t, "Int16") || is_lit(
            &t,
            "Int32",
        ) || is_lit(&t, "Int64") || is_lit(&t, "UInt") || is_lit(&t, "UInt8") || is_lit(
            &t,
            "UInt16",
        ) || is_lit(&t, "UInt32") || is_lit(&t, "UInt64") || is_lit(&t, "Word8") || is_lit(
            &t,
            "Word16",
        ) || is_lit(&t, "Word32") || is_lit(&t, "Word64")) {
            return self.vr_int(value, &t);
        }
        let v = trim_chars(value);
        if v.len() >= 2 && v[0] == '[' && v[v.len() - 1] == ']' {
            return self.vr_seq(value, &chars_of("[]"), None, Ghost(m));
        }
        if v.len() >= 2 && v[0] == '{' && v[v.len() - 1] == '}' && (is_lit(&v, "{}")
            || contains_char(&v, ':')) {
            return self.vr_dict(value, &chars_of("{}"), false, Ghost(m));
        }
        self.vr_int(value, &t)
    }

    fn vr_optional(&mut self, value: &[char], t: &[char], Ghost(m): Ghost<nat>) -> (res: Value)
        requires
            t@.len() > 1 && t@.last() == '?',
            value@.len() + t@.len() <= m,
        ensures
            res@ == decode_optional_of(value@, t@).0,
            final(self)@ == apply_reqs(old(self)@, decode_optional_of(value@, t@).1),
        decreases m, 1nat,
    {
        let ghost st0 = self@;
        let inner = slice_chars(t, 0, t.len() - 1);
        assert(inner@ =~= t@.drop_last());
        let v = trim_chars(value);
        let vt = self.ensure_tracked(TypeKind::Variant, t, Ghost(st0), Ghost(Seq::<TypeReq>::empty()));
        let ghost st1 = self@;
        assert(Seq::<TypeReq>::empty().push((TypeKind::Variant, t@)) =~= seq![(TypeKind::Variant, t@)]);
        if v.len() == 0 || is_lit(&v, "nil") || is_lit(&v, "Optional()") {
            let ghost r1 = seq![(TypeKind::Variant, t@)];
            let it = self.ensure_tracked(TypeKind::NoValue, &inner, Ghost(st0), Ghost(r1));
            assert(seq![(TypeKind::Variant, t@)].push((TypeKind::NoValue, inner@)) =~= decode_optional_of(value@, t@).1);
            let nv = Value::NoValue { ty: it };
            assert(nv@ == ValueV::NoValue { ty: inner@ });
            let dn = chars_of("None");
            Value::Variant { discriminator: string_of(&dn), contents: Box::new(nv), ty: vt }
        } else {
            proof {
                lemma_trim_shorter(value@);
            }
            let iv = self.value_record(&v, Some(inner));
            proof {
                lemma_apply_reqs_append(st0, seq![(TypeKind::Variant, t@)], decode(v@, Some(t@.drop_last())).1);
            }
            let dn = chars_of("Some");
            Value::Variant { discriminator: string_of(&dn), contents: Box::new(iv), ty: vt }
        }
    }

    fn vr_seq(&mut self, value: &[char], name: &[char], elem_ty: Option<Vec<char>>, Ghost(m): Ghost<nat>) -> (res: Value)
        requires
            value@.len() + ty_len(opt_chars(elem_ty)) <= m,
        ensures
            res@ == decode_seq_of(value@, name@, opt_chars(elem_ty)).0,
            final(self)@ == apply_reqs(old(self)@, decode_seq_of(value@, name@, opt_chars(elem_ty)).1),
        decreases m, 1nat,
    {
        let ghost st0 = self@;
        let ghost et = opt_chars(elem_ty);
        let sn = self.ensure_tracked(TypeKind::Sequence, name, Ghost(st0), Ghost(Seq::<TypeReq>::empty()));
        let ghost r0 = seq![(TypeKind::Sequence, name@)];
        assert(Seq::<TypeReq>::empty().push((TypeKind::Sequence, name@)) =~= r0);
        let ghost st1 = self@;
        let elems = parse_cadence_array(value);
        let ghost es = views(elems@);
        proof {
            lemma_array_elems_short(value@);
        }
        let mut out: Vec<Value> = Vec::new();
        let mut i: usize = 0;
        while i < elems.len()
            invariant
                i <= elems@.len(),
                es == views(elems@),
                es == array_elems(value@),
                forall|k: int| 0 <= k < es.len() ==> #[trigger] es[k].len() + 2 <= value@.len(),
                value@.len() + ty_len(et) <= m,
                et == opt_chars(elem_ty),
                st1 == apply_reqs(st0, r0),
                self@ == apply_reqs(st1, decode_list(es.take(i as int), et).1),
                values_view(out@) == decode_list(es.take(i as int), et).0,
            decreases elems@.len() - i,
        {
            let ghost pre = decode_list(es.take(i as int), et);
            assert(es.take(i + 1).drop_last() =~= es.take(i as int));
            assert(es.take(i + 1).last() == elems@[i as int]@);
            assert(es[i as int] == elems@[i as int]@);
            let ety = clone_opt(&elem_ty);
            let v = self.value_record(&elems[i], ety);
            proof {
                lemma_apply_reqs_append(st1, pre.1, decode(es[i as int], et).1);
                lemma_values_view_push(out@, v);
            }
            out.push(v);
            i = i + 1;
        }
        assert(es.take(elems@.len() as int) =~= es);
        proof {
            lemma_apply_reqs_append(st0, r0, decode_list(es, et).1);
        }
        Value::Sequence { elements: out, is_slice: false, ty: sn }
    }

    fn vr_dict(&mut self, value: &[char], name: &[char], typed: bool, Ghost(m): Ghost<nat>) -> (res: Value)
        requires
            typed ==> is_dict_type(name@) && value@.len() + name@.len() <= m,
            !typed ==> value@.len() <= m,
        ensures
            typed ==> res@ == decode_dict_of(value@, name@, Some(dict_types(name@).0), Some(dict_types(name@).1)).0,
            typed ==> final(self)@ == apply_reqs(old(self)@, decode_dict_of(value@, name@, Some(dict_types(name@).0), Some(dict_types(name@).1)).1),
            !typed ==> res@ == decode_dict_of(value@, name@, None, None).0,
            !typed ==> final(self)@ == apply_reqs(old(self)@, decode_dict_of(value@, name@, None, None).1),
        decreases m, 1nat,
    {
        let ghost st0 = self@;
        let (kt, vt): (Option<Vec<char>>, Option<Vec<char>>) = if typed {
            let inner = slice_chars(name, 1, name.len() - 1);
            proof {
                lemma_first_index_bounds(inner@, ':');
                lemma_dict_types_short(name@);
            }
            match find_char(&inner, ':') {
                Some(c) => {
                    let a = slice_chars(&inner, 0, c);
                    let b = slice_chars(&inner, c + 1, inner.len());
                    (Some(trim_chars(&a)), Some(trim_chars(&b)))
                },
                None => (Some(chars_of("String")), Some(chars_of("Int"))),
            }
        } else {
            (None, None)
        };
        let ghost ktv = opt_chars(kt);
        let ghost vtv = opt_chars(vt);
        assert(typed ==> ktv == Some(dict_types(name@).0) && vtv == Some(dict_types(name@).1));
        assert(ty_len(ktv) + ty_len(vtv) + value@.len() <= m);
        let sn = self.ensure_tracked(TypeKind::Sequence, name, Ghost(st0), Ghost(Seq::<TypeReq>::empty()));
        let ghost r0 = seq![(TypeKind::Sequence, name@), (TypeKind::Tuple, "DictEntry"@)];
        let pn = self.ensure_lit_tracked(TypeKind::Tuple, "DictEntry", Ghost(st0), Ghost(Seq::<TypeReq>::empty().push((TypeKind::Sequence, name@))));
        assert(Seq::<TypeReq>::empty().push((TypeKind::Sequence, name@)).push((TypeKind::Tuple, "DictEntry"@)) =~= r0);
        let ghost st1 = self@;
        let pairs = parse_cadence_dict(value);
        let ghost ps = pair_views(pairs@);
        proof {
            lemma_dict_pairs_short(value@);
        }
        let mut out: Vec<Value> = Vec::new();
        let mut i: usize = 0;
        while i < pairs.len()
            invariant
                i <= pairs@.len(),
                ps == pair_views(pairs@),
                ps == dict_pairs(value@),
                forall|k: int| 0 <= k < ps.len() ==> #[trigger] ps[k].0.len() + 2 <= value@.len() && ps[k].1.len() + 2 <= value@.len(),
                ty_len(ktv) + ty_len(vtv) + value@.len() <= m,
                ktv == opt_chars(kt),
                vtv == opt_chars(vt),
                pn@ == "DictEntry"@,
                st1 == apply_reqs(st0, r0),
                self@ == apply_reqs(st1, decode_pairs(ps.take(i as int), ktv, vtv).1),
                values_view(out@) == decode_pairs(ps.take(i as int), ktv, vtv).0,
            decreases pairs@.len() - i,
        {
            let ghost pre = decode_pairs(ps.take(i as int), ktv, vtv);
            assert(ps.take(i + 1).drop_last() =~= ps.take(i as int));
            assert(ps.take(i + 1).last() == ps[i as int]);
            assert(ps[i as int] == (pairs@[i as int].0@, pairs@[i as int].1@));
            let k1 = clone_opt(&kt);
            let kref: &Vec<char> = &pairs[i].0;
            let vref: &Vec<char> = &pairs[i].1;
            assert(kref@ == ps[i as int].0 && vref@ == ps[i as int].1);
            assert(kref@.len() + ty_len(opt_chars(k1)) < m);
            assert(vref@.len() + ty_len(vtv) < m);
            let kv = self.value_record(kref, k1);
            let ghost mid = self@;
            proof {
                lemma_apply_reqs_append(st1, pre.1, decode(ps[i as int].0, ktv).1);
            }
            let v1 = clone_opt(&vt);
            let vv = self.value_record(vref, v1);
            proof {
                lemma_apply_reqs_append(st1, pre.1 + decode(ps[i as int].0, ktv).1, decode(ps[i as int].1, vtv).1);
            }
            let mut els: Vec<Value> = Vec::new();
            proof {
                lemma_values_view_push(els@, kv);
                lemma_values_view_push(els@.push(kv), vv);
                assert(values_view(els@) =~= Seq::<ValueV>::empty());
            }
            els.push(kv);
            els.push(vv);
            assert(values_view(els@) =~= seq![decode(ps[i as int].0, ktv).0, decode(ps[i as int].1, vtv).0]);
            let pc = pn.clone();
            let tup = Value::Tuple { elements: els, ty: pc };
            proof {
                lemma_values_view_push(out@, tup);
            }
            out.push(tup);
            i = i + 1;
        }
        assert(ps.take(pairs@.len() as int) =~= ps);
        proof {
            lemma_apply_reqs_append(st0, r0, decode_pairs(ps, ktv, vtv).1);
        }
        Value::Sequence { elements: out, is_slice: false, ty: sn }
    }

    /// Hand the variable `name` to the writer.
    pub(crate) fn write_variable(&mut self, name: String, value: Value)
        ensures
            final(self)@ == push_op(old(self)@, write_op(name@, value@)),
    {
        let enc = match &value {
            Value::Bool { .. } => true,
            Value::String { .. } => true,
            _ => false,
        };
        if enc {
            self.push_op(TraceOp::VariableEncoded { name, value });
        } else {
            self.push_op(TraceOp::Variable { name, value });
        }
    }

    /// Stage the variable `name` against the open step, or hold it.
    pub(crate) fn register_typed_variable(&mut self, name: String, value: Value)
        ensures
            final(self)@ == typed_var(old(self)@, name@, value@),
    {
        if self.step_open {
            self.write_variable(name, value);
        } else {
            self.deferred_vars.push((name, value));
            assert(vars_view(self.deferred_vars@) =~= vars_view(old(self).deferred_vars@).push((name@, value@)));
        }
    }

    /// Hand every staged variable to the writer, in order, and clear them.
    pub(crate) fn flush_deferred(&mut self)
        ensures
            final(self)@ == write_vars(TracerV { deferred: seq![], ..old(self)@ }, old(self)@.deferred),
    {
        let mut vars: Vec<(String, Value)> = Vec::new();
        std::mem::swap(&mut vars, &mut self.deferred_vars);
        let ghost dv = vars_view(vars@);
        assert(vars_view(self.deferred_vars@) =~= Seq::<(Seq<char>, ValueV)>::empty());
        let ghost st1 = self@;
        let mut i: usize = 0;
        while i < vars.len()
            invariant
                i <= vars@.len(),
                dv == vars_view(vars@),
                self@ == write_vars(st1, dv.take(i as int)),
            decreases vars@.len() - i,
        {
            assert(dv.take(i + 1).drop_last() =~= dv.take(i as int));
            let name = vars[i].0.clone();
            let value = clone_value(&vars[i].1);
            self.write_variable(name, value);
            i = i + 1;
        }
        assert(dv.take(vars@.len() as int) =~= dv);
    }

    /// Whether a path of `list` is the path `p`.
    fn path_listed(list: &Vec<String>, p: &str) -> (res: bool)
        ensures
            res == path_in(strings_view(list@), p@),
    {
        let mut i: usize = 0;
        while i < list.len()
            invariant
                i <= list@.len(),
                forall|k: int| 0 <= k < i ==> !same_path_as(#[trigger] list@[k]@, p@),
            decreases list@.len() - i,
        {
            if same_path(list[i].as_str(), p) {
                assert(strings_view(list@)[i as int] == list@[i as int]@);
                return true;
            }
            i = i + 1;
        }
        assert(!path_in(strings_view(list@), p@)) by {
            if path_in(strings_view(list@), p@) {
                let j = choose|j: int| 0 <= j < strings_view(list@).len() && same_path_as(strings_view(list@)[j], p@);
                assert(strings_view(list@)[j] == list@[j]@);
            }
        }
        false
    }

    /// The line lengths recorded for `p` among the sources.
    fn lookup_lines(&self, p: &str) -> (res: Vec<u32>)
        ensures
            res@ == lookup_lengths(self@.sources, p@),
    {
        let ghost sv = self@.sources;
        assert(sv.subrange(0, sv.len() as int) =~= sv);
        let mut i: usize = 0;
        while i < self.sources.len()
            invariant
                i <= self.sources@.len(),
                sv == sources_view(self.sources@),
                lookup_lengths(sv, p@) == lookup_lengths(sv.subrange(i as int, sv.len() as int), p@),
            decreases self.sources@.len() - i,
        {
            let ghost rest = sv.subrange(i as int, sv.len() as int);
            assert(rest[0] == (self.sources@[i as int].path@, self.sources@[i as int].line_lengths@));
            if same_path(self.sources[i].path.as_str(), p) {
                let ll = &self.sources[i].line_lengths;
                let mut out: Vec<u32> = Vec::new();
                let mut k: usize = 0;
                while k < ll.len()
                    invariant
                        k <= ll@.len(),
                        out@ == ll@.take(k as int),
                    decreases ll@.len() - k,
                {
                    out.push(ll[k]);
                    k = k + 1;
                    assert(out@ =~= ll@.take(k as int));
                }
                assert(ll@.take(ll@.len() as int) =~= ll@);
                return out;
            }
            assert(rest.drop_first() =~= sv.subrange(i + 1, sv.len() as int));
            i = i + 1;
        }
        Vec::new()
    }

    /// Register `p` with its line-length table, once.
    pub(crate) fn ensure_path_lengths(&mut self, p: &str)
        ensures
            final(self)@ == ensure_path(old(self)@, p@),
    {
        if Self::path_listed(&self.paths_with_line_lengths, p) {
            return;
        }
        let ll = self.lookup_lines(p);
        let nonempty = ll.len() > 0;
        let ghost llv = ll@;
        self.push_op(TraceOp::RegisterPath { path: p.to_string(), line_lengths: ll });
        if nonempty {
            self.paths_with_column_axis.push(p.to_string());
            assert(strings_view(self.paths_with_column_axis@) =~= strings_view(old(self).paths_with_column_axis@).push(p@));
        }
        self.paths_with_line_lengths.push(p.to_string());
        assert(strings_view(self.paths_with_line_lengths@) =~= strings_view(old(self).paths_with_line_lengths@).push(p@));
    }

    /// Nothing is open for variables to attach to until the next step.
    pub(crate) fn close_step(&mut self)
        ensures
            final(self)@ == (TracerV { step_open: false, ..old(self)@ }),
    {
        self.step_open = false;
    }

    /// Emit a step and attach every staged variable to it.
    pub(crate) fn open_step(&mut self, p: &str, line: u32, column: Option<u32>)
        ensures
            final(self)@ == open_step(old(self)@, p@, line, column),
    {
        let axis = Self::path_listed(&self.paths_with_column_axis, p);
        let col: Option<i64> = if axis {
            match column {
                Some(c) => Some(c as i64),
                None => None,
            }
        } else {
            None
        };
        assert(col == step_column(old(self)@, p@, column));
        self.push_op(TraceOp::Step { path: p.to_string(), line: line as i64, column: col });
        self.step_open = true;
        self.flush_deferred();
    }
}

impl CadenceTracer {
    /// A recorder for a run of the entry source `source_path`, given the
    /// line-length tables of the source files that could be read: it opts
    /// into column-aware steps, registers the entry path, starts the trace
    /// at its first line and registers the common Cadence types.
    pub fn new(source_path: &str, sources: Vec<SourceLines>) -> (res: Self)
        ensures
            res@ == initial_state(source_path@, sources_view(sources@)),
    {
        let mut ops: Vec<TraceOp> = Vec::new();
        ops.push(TraceOp::EnableColumnAwareSteps);
        ops.push(TraceOp::EnableColumnBreakpoints);
        ops.push(TraceOp::EnableColumnMotions);
        let mut t = CadenceTracer {
            ops,
            types: Vec::new(),
            paths_with_line_lengths: Vec::new(),
            paths_with_column_axis: Vec::new(),
            step_open: false,
            deferred_vars: Vec::new(),
            sources,
        };
        assert(t@.ops =~= seq![
            OpV::EnableColumnAwareSteps,
            OpV::EnableColumnBreakpoints,
            OpV::EnableColumnMotions,
        ]);
        assert(t@.types =~= Seq::<Seq<char>>::empty());
        assert(t@.lengths_paths =~= Seq::<Seq<char>>::empty());
        assert(t@.axis_paths =~= Seq::<Seq<char>>::empty());
        assert(t@.deferred =~= Seq::<(Seq<char>, ValueV)>::empty());
        t.ensure_path_lengths(source_path);
        t.push_op(TraceOp::Start { path: source_path.to_string(), line: 1 });
        let ghost s2 = t@;
        let ghost mut rs: Seq<TypeReq> = seq![];
        t.ensure_lit_tracked(TypeKind::Int, "Int", Ghost(s2), Ghost(rs));
        proof {
            rs = rs.push((TypeKind::Int, "Int"@));
        }
        t.ensure_lit_tracked(TypeKind::Int, "UInt64", Ghost(s2), Ghost(rs));
        proof {
            rs = rs.push((TypeKind::Int, "UInt64"@));
        }
        t.ensure_lit_tracked(TypeKind::Int, "Fix64", Ghost(s2), Ghost(rs));
        proof {
            rs = rs.push((TypeKind::Int, "Fix64"@));
        }
        t.ensure_lit_tracked(TypeKind::Int, "Bool", Ghost(s2), Ghost(rs));
        proof {
            rs = rs.push((TypeKind::Int, "Bool"@));
        }
        t.ensure_lit_tracked(TypeKind::Int, "String", Ghost(s2), Ghost(rs));
        proof {
            rs = rs.push((TypeKind::Int, "String"@));
        }
        t.ensure_lit_tracked(TypeKind::Int, "Address", Ghost(s2), Ghost(rs));
        proof {
            rs = rs.push((TypeKind::Int, "Address"@));
            assert(rs =~= initial_types());
        }
        t
    }

    /// The writer operations performed so far.
    pub fn into_ops(self) -> (res: Vec<TraceOp>)
        ensures
            ops_view(res@) == self@.ops,
    {
        self.ops
    }
}

} // verus!
