//! Typed value records produced from Cadence printed values, and their
//! mathematical view.

use vstd::prelude::*;

verus! {

/// The categories of types the recorder registers.
#[derive(Clone, Copy, Debug, PartialEq, Eq, Structural)]
pub enum TypeKind {
    Sequence,
    Struct,
    Int,
    String,
    Bool,
    Ref,
    Tuple,
    Variant,
    NoValue,
}

/// A value record; each value names the type it was registered under.
#[derive(Debug, PartialEq)]
pub enum Value {
    Int { i: i64, ty: String },
    Bool { b: bool, ty: String },
    String { text: String, ty: String },
    Raw { r: String, ty: String },
    BigInt { b: Vec<u8>, negative: bool, ty: String },
    Sequence { elements: Vec<Value>, is_slice: bool, ty: String },
    Tuple { elements: Vec<Value>, ty: String },
    Struct { field_values: Vec<Value>, ty: String },
    Variant { discriminator: String, contents: Box<Value>, ty: String },
    Reference { dereferenced: Box<Value>, address: u64, mutable: bool, ty: String },
    NoValue { ty: String },
}

/// The mathematical form of a [`Value`].
pub enum ValueV {
    Int { i: i64, ty: Seq<char> },
    Bool { b: bool, ty: Seq<char> },
    String { text: Seq<char>, ty: Seq<char> },
    Raw { r: Seq<char>, ty: Seq<char> },
    BigInt { b: Seq<u8>, negative: bool, ty: Seq<char> },
    Sequence { elements: Seq<ValueV>, is_slice: bool, ty: Seq<char> },
    Tuple { elements: Seq<ValueV>, ty: Seq<char> },
    Struct { field_values: Seq<ValueV>, ty: Seq<char> },
    Variant { discriminator: Seq<char>, contents: Box<ValueV>, ty: Seq<char> },
    Reference { dereferenced: Box<ValueV>, address: u64, mutable: bool, ty: Seq<char> },
    NoValue { ty: Seq<char> },
}

pub open spec fn values_view(s: Seq<Value>) -> Seq<ValueV>
    decreases s,
{
    if s.len() == 0 {
        seq![]
    } else {
        values_view(s.subrange(0, s.len() - 1)).push(value_view(s[s.len() - 1]))
    }
}

pub open spec fn value_view(v: Value) -> ValueV
    decreases v,
{
    match v {
        Value::Int { i, ty } => ValueV::Int { i, ty: ty@ },
        Value::Bool { b, ty } => ValueV::Bool { b, ty: ty@ },
        Value::String { text, ty } => ValueV::String { text: text@, ty: ty@ },
        Value::Raw { r, ty } => ValueV::Raw { r: r@, ty: ty@ },
        Value::BigInt { b, negative, ty } => ValueV::BigInt {
            b: b@,
            negative,
            ty: ty@,
        },
        Value::Sequence { elements, is_slice, ty } => ValueV::Sequence {
            elements: values_view(elements@),
            is_slice,
            ty: ty@,
        },
        Value::Tuple { elements, ty } => ValueV::Tuple {
            elements: values_view(elements@),
            ty: ty@,
        },
        Value::Struct { field_values, ty } => ValueV::Struct {
            field_values: values_view(field_values@),
            ty: ty@,
        },
        Value::Variant { discriminator, contents, ty } => ValueV::Variant {
            discriminator: discriminator@,
            contents: Box::new(value_view(*contents)),
            ty: ty@,
        },
        Value::Reference { dereferenced, address, mutable, ty } => ValueV::Reference {
            dereferenced: Box::new(value_view(*dereferenced)),
            address,
            mutable,
            ty: ty@,
        },
        Value::NoValue { ty } => ValueV::NoValue { ty: ty@ },
    }
}

impl View for Value {
    type V = ValueV;

    open spec fn view(&self) -> ValueV {
        value_view(*self)
    }
}

pub proof fn lemma_values_view_push(s: Seq<Value>, v: Value)
    ensures
        values_view(s.push(v)) == values_view(s).push(value_view(v)),
{
    assert(s.push(v).subrange(0, s.len() as int) =~= s);
}

pub proof fn lemma_values_view_index(s: Seq<Value>)
    ensures
        values_view(s).len() == s.len(),
        forall|k: int| 0 <= k < s.len() ==> #[trigger] values_view(s)[k] == value_view(s[k]),
    decreases s.len(),
{
    if s.len() > 0 {
        let t = s.subrange(0, s.len() - 1);
        lemma_values_view_index(t);
        assert forall|k: int| 0 <= k < s.len() implies #[trigger] values_view(s)[k] == value_view(s[k]) by {
            if k < s.len() - 1 {
                assert(values_view(s)[k] == values_view(t)[k]);
                assert(t[k] == s[k]);
            }
        }
    }
}

} // verus!
