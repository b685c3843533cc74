//! Model of one decoded message value: a closed sum over the kinds the
//! source format can hold. A struct value holds one slot per field of
//! its definition, in declared order; an absent slot means the field is
//! not present in this instance (an unset pointer, or another member of
//! the same variant group was selected). Floating-point fields carry
//! their raw bit patterns.

use vstd::prelude::*;

verus! {

broadcast use vstd::std_specs::vec::axiom_vec_index_decreases;

/// One decoded value.
#[allow(inconsistent_fields)]
pub enum Value {
    Void,
    Bool(bool),
    Int8(i8),
    Int16(i16),
    Int32(i32),
    Int64(i64),
    UInt8(u8),
    UInt16(u16),
    UInt32(u32),
    UInt64(u64),
    Float32 { bits: u32 },
    Float64 { bits: u64 },
    Text(String),
    Data(Vec<u8>),
    Struct(Vec<Option<Value>>),
    List(Vec<Value>),
    Enum(u16),
}

/// Mathematical model of a decoded value.
#[allow(inconsistent_fields)]
pub enum ValueView {
    Void,
    Bool(bool),
    Int8(i8),
    Int16(i16),
    Int32(i32),
    Int64(i64),
    UInt8(u8),
    UInt16(u16),
    UInt32(u32),
    UInt64(u64),
    Float32 { bits: u32 },
    Float64 { bits: u64 },
    Text(Seq<char>),
    Data(Seq<u8>),
    Struct(Seq<Option<ValueView>>),
    List(Seq<ValueView>),
    Enum(u16),
}

pub open spec fn value_view(v: Value) -> ValueView
    decreases v, 0int, 0int,
{
    match v {
        Value::Void => ValueView::Void,
        Value::Bool(x) => ValueView::Bool(x),
        Value::Int8(x) => ValueView::Int8(x),
        Value::Int16(x) => ValueView::Int16(x),
        Value::Int32(x) => ValueView::Int32(x),
        Value::Int64(x) => ValueView::Int64(x),
        Value::UInt8(x) => ValueView::UInt8(x),
        Value::UInt16(x) => ValueView::UInt16(x),
        Value::UInt32(x) => ValueView::UInt32(x),
        Value::UInt64(x) => ValueView::UInt64(x),
        Value::Float32 { bits } => ValueView::Float32 { bits },
        Value::Float64 { bits } => ValueView::Float64 { bits },
        Value::Text(s) => ValueView::Text(s@),
        Value::Data(b) => ValueView::Data(b@),
        Value::Struct(slots) => ValueView::Struct(slots_view_from(slots, 0)),
        Value::List(elems) => ValueView::List(vals_view_from(elems, 0)),
        Value::Enum(ord) => ValueView::Enum(ord),
    }
}

pub open spec fn slots_view_from(v: Vec<Option<Value>>, k: int) -> Seq<Option<ValueView>>
    decreases v, 1int, v.len() - k,
{
    if k < 0 || k >= v.len() {
        Seq::empty()
    } else {
        (match v[k] {
            Some(x) => seq![Some(value_view(x))],
            None => seq![None],
        }) + slots_view_from(v, k + 1)
    }
}

pub open spec fn vals_view_from(v: Vec<Value>, k: int) -> Seq<ValueView>
    decreases v, 1int, v.len() - k,
{
    if k < 0 || k >= v.len() {
        Seq::empty()
    } else {
        seq![value_view(v[k])] + vals_view_from(v, k + 1)
    }
}

/// The views of a struct value's slots.
pub open spec fn slots_view(v: Vec<Option<Value>>) -> Seq<Option<ValueView>> {
    slots_view_from(v, 0)
}

/// The views of a list value's elements.
pub open spec fn vals_view(v: Vec<Value>) -> Seq<ValueView> {
    vals_view_from(v, 0)
}

/// Pointwise description of `slots_view`.
pub proof fn lemma_slots_view(v: Vec<Option<Value>>)
    ensures
        slots_view(v).len() == v.len(),
        forall|i: int|
            0 <= i < v.len() ==> slots_view(v)[i] == (match v[i] {
                Some(x) => Some(value_view(x)),
                None => None::<ValueView>,
            }),
{
    assert forall|k: int| 0 <= k <= v.len() implies slots_view_from(v, k).len() == v.len() - k
        && forall|i: int|
        0 <= i < slots_view_from(v, k).len() ==> slots_view_from(v, k)[i] == (match v[k + i] {
            Some(x) => Some(value_view(x)),
            None => None::<ValueView>,
        }) by {
        lemma_slots_view_from(v, k);
    }
}

proof fn lemma_slots_view_from(v: Vec<Option<Value>>, k: int)
    requires
        0 <= k <= v.len(),
    ensures
        slots_view_from(v, k).len() == v.len() - k,
        forall|i: int|
            0 <= i < slots_view_from(v, k).len() ==> slots_view_from(v, k)[i] == (match v[k + i] {
                Some(x) => Some(value_view(x)),
                None => None::<ValueView>,
            }),
    decreases v.len() - k,
{
    if k < v.len() {
        lemma_slots_view_from(v, k + 1);
    }
}

/// Pointwise description of `vals_view`.
pub proof fn lemma_vals_view(v: Vec<Value>)
    ensures
        vals_view(v).len() == v.len(),
        forall|i: int| 0 <= i < v.len() ==> vals_view(v)[i] == value_view(v[i]),
{
    assert forall|k: int| 0 <= k <= v.len() implies vals_view_from(v, k).len() == v.len() - k
        && forall|i: int|
        0 <= i < vals_view_from(v, k).len() ==> vals_view_from(v, k)[i] == value_view(v[k + i]) by {
        lemma_vals_view_from(v, k);
    }
}

proof fn lemma_vals_view_from(v: Vec<Value>, k: int)
    requires
        0 <= k <= v.len(),
    ensures
        vals_view_from(v, k).len() == v.len() - k,
        forall|i: int|
            0 <= i < vals_view_from(v, k).len() ==> vals_view_from(v, k)[i] == value_view(v[k + i]),
    decreases v.len() - k,
{
    if k < v.len() {
        lemma_vals_view_from(v, k + 1);
    }
}

impl View for Value {
    type V = ValueView;

    open spec fn view(&self) -> ValueView {
        value_view(*self)
    }
}

/// A copy of a byte blob.
#[verifier::loop_isolation(false)]
pub fn dup_bytes(v: &Vec<u8>) -> (r: Vec<u8>)
    ensures
        r@ == v@,
{
    let mut r: Vec<u8> = Vec::new();
    let n = v.len();
    let mut i: usize = 0;
    while i < n
        invariant
            0 <= i <= n,
            r@.len() == i,
            forall|j: int| 0 <= j < i ==> r@[j] == v@[j],
        decreases n - i,
    {
        let b = v[i];
        r.push(b);
        i += 1;
    }
    proof {
        assert(r@ =~= v@);
    }
    r
}

} // verus!
