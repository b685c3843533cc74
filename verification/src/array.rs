//! Growable column builders, one per zipped field, mirroring the zipped
//! tree's shape. A dictionary builder is pre-seeded with the full,
//! order-preserved enumerant list before any data arrives, so two
//! batches built from the same schema assign identical indices to the
//! same constants.

use crate::field::{zf_wf, Field, FieldView};
use crate::schema::{dup_names, strs_view, ArrowDataType, DataTypeView};
use vstd::prelude::*;

verus! {

broadcast use vstd::std_specs::vec::axiom_vec_index_decreases;

/// One mutable, append-only column: a sequence of value slots of one
/// logical type, with null markers. Composite builders own their child
/// builders; a list builder keeps arrow-style offsets into its child.
#[allow(inconsistent_fields)]
pub enum MutableArray {
    Null { slots: Vec<()> },
    Boolean { values: Vec<Option<bool>> },
    Int8 { values: Vec<Option<i8>> },
    Int16 { values: Vec<Option<i16>> },
    Int32 { values: Vec<Option<i32>> },
    Int64 { values: Vec<Option<i64>> },
    UInt8 { values: Vec<Option<u8>> },
    UInt16 { values: Vec<Option<u16>> },
    UInt32 { values: Vec<Option<u32>> },
    UInt64 { values: Vec<Option<u64>> },
    Float32 { values: Vec<Option<u32>> },
    Float64 { values: Vec<Option<u64>> },
    Utf8 { values: Vec<Option<String>> },
    Binary { values: Vec<Option<Vec<u8>>> },
    Dictionary { keys: Vec<Option<u16>>, values: Vec<String> },
    Struct { children: Vec<MutableArray>, validity: Vec<bool> },
    List { child: Box<MutableArray>, offsets: Vec<usize>, validity: Vec<bool> },
}

/// Mathematical model of a column builder.
#[allow(inconsistent_fields)]
pub enum ArrayView {
    Null { len: nat },
    Boolean { values: Seq<Option<bool>> },
    Int8 { values: Seq<Option<i8>> },
    Int16 { values: Seq<Option<i16>> },
    Int32 { values: Seq<Option<i32>> },
    Int64 { values: Seq<Option<i64>> },
    UInt8 { values: Seq<Option<u8>> },
    UInt16 { values: Seq<Option<u16>> },
    UInt32 { values: Seq<Option<u32>> },
    UInt64 { values: Seq<Option<u64>> },
    Float32 { values: Seq<Option<u32>> },
    Float64 { values: Seq<Option<u64>> },
    Utf8 { values: Seq<Option<Seq<char>>> },
    Binary { values: Seq<Option<Seq<u8>>> },
    Dictionary { keys: Seq<Option<u16>>, values: Seq<Seq<char>> },
    Struct { children: Seq<ArrayView>, validity: Seq<bool> },
    List { child: Box<ArrayView>, offsets: Seq<usize>, validity: Seq<bool> },
}

/// The views of a column of optional text slots.
pub open spec fn opt_strs_view(v: Vec<Option<String>>) -> Seq<Option<Seq<char>>> {
    v@.map_values(
        |o: Option<String>|
            match o {
                Some(s) => Some(s@),
                None => None,
            },
    )
}

/// The views of a column of optional byte-blob slots.
pub open spec fn opt_bytes_view(v: Vec<Option<Vec<u8>>>) -> Seq<Option<Seq<u8>>> {
    v@.map_values(
        |o: Option<Vec<u8>>|
            match o {
                Some(b) => Some(b@),
                None => None,
            },
    )
}

pub open spec fn array_view(a: MutableArray) -> ArrayView
    decreases a, 0int, 0int,
{
    match a {
        MutableArray::Null { slots } => ArrayView::Null { len: slots@.len() },
        MutableArray::Boolean { values } => ArrayView::Boolean { values: values@ },
        MutableArray::Int8 { values } => ArrayView::Int8 { values: values@ },
        MutableArray::Int16 { values } => ArrayView::Int16 { values: values@ },
        MutableArray::Int32 { values } => ArrayView::Int32 { values: values@ },
        MutableArray::Int64 { values } => ArrayView::Int64 { values: values@ },
        MutableArray::UInt8 { values } => ArrayView::UInt8 { values: values@ },
        MutableArray::UInt16 { values } => ArrayView::UInt16 { values: values@ },
        MutableArray::UInt32 { values } => ArrayView::UInt32 { values: values@ },
        MutableArray::UInt64 { values } => ArrayView::UInt64 { values: values@ },
        MutableArray::Float32 { values } => ArrayView::Float32 { values: values@ },
        MutableArray::Float64 { values } => ArrayView::Float64 { values: values@ },
        MutableArray::Utf8 { values } => ArrayView::Utf8 { values: opt_strs_view(values) },
        MutableArray::Binary { values } => ArrayView::Binary { values: opt_bytes_view(values) },
        MutableArray::Dictionary { keys, values } => ArrayView::Dictionary {
            keys: keys@,
            values: strs_view(values),
        },
        MutableArray::Struct { children, validity } => ArrayView::Struct {
            children: arrs_view_from(children, 0),
            validity: validity@,
        },
        MutableArray::List { child, offsets, validity } => ArrayView::List {
            child: Box::new(array_view(*child)),
            offsets: offsets@,
            validity: validity@,
        },
    }
}

pub open spec fn arrs_view_from(v: Vec<MutableArray>, k: int) -> Seq<ArrayView>
    decreases v, 1int, v.len() - k,
{
    if k < 0 || k >= v.len() {
        Seq::empty()
    } else {
        seq![array_view(v[k])] + arrs_view_from(v, k + 1)
    }
}

/// The views of a vector of column builders.
pub open spec fn arrs_view(v: Vec<MutableArray>) -> Seq<ArrayView> {
    arrs_view_from(v, 0)
}

/// Pointwise description of `arrs_view`.
pub proof fn lemma_arrs_view(v: Vec<MutableArray>)
    ensures
        arrs_view(v).len() == v.len(),
        forall|i: int| 0 <= i < v.len() ==> arrs_view(v)[i] == array_view(v[i]),
{
    assert forall|k: int| 0 <= k <= v.len() implies arrs_view_from(v, k).len() == v.len() - k
        && forall|i: int|
        0 <= i < arrs_view_from(v, k).len() ==> arrs_view_from(v, k)[i] == array_view(v[k + i]) by {
        lemma_arrs_view_from(v, k);
    }
}

proof fn lemma_arrs_view_from(v: Vec<MutableArray>, k: int)
    requires
        0 <= k <= v.len(),
    ensures
        arrs_view_from(v, k).len() == v.len() - k,
        forall|i: int|
            0 <= i < arrs_view_from(v, k).len() ==> arrs_view_from(v, k)[i] == array_view(v[k + i]),
    decreases v.len() - k,
{
    if k < v.len() {
        lemma_arrs_view_from(v, k + 1);
    }
}

impl View for MutableArray {
    type V = ArrayView;

    open spec fn view(&self) -> ArrayView {
        array_view(*self)
    }
}

/// The number of closed row slots of a builder.
pub open spec fn rows(b: ArrayView) -> nat
    decreases b,
{
    match b {
        ArrayView::Null { len } => len,
        ArrayView::Boolean { values } => values.len(),
        ArrayView::Int8 { values } => values.len(),
        ArrayView::Int16 { values } => values.len(),
        ArrayView::Int32 { values } => values.len(),
        ArrayView::Int64 { values } => values.len(),
        ArrayView::UInt8 { values } => values.len(),
        ArrayView::UInt16 { values } => values.len(),
        ArrayView::UInt32 { values } => values.len(),
        ArrayView::UInt64 { values } => values.len(),
        ArrayView::Float32 { values } => values.len(),
        ArrayView::Float64 { values } => values.len(),
        ArrayView::Utf8 { values } => values.len(),
        ArrayView::Binary { values } => values.len(),
        ArrayView::Dictionary { keys, .. } => keys.len(),
        ArrayView::Struct { validity, .. } => validity.len(),
        ArrayView::List { validity, .. } => validity.len(),
    }
}

/// Internal row alignment of a builder: every child of a struct builder
/// has as many rows as the struct has closed; a list builder's offsets
/// start at zero, never decrease, and end at its child's row count.
pub open spec fn array_wf(b: ArrayView) -> bool
    decreases b,
{
    match b {
        ArrayView::Struct { children, validity } => forall|i: int|
            0 <= i < children.len() ==> rows(#[trigger] children[i]) == validity.len() && array_wf(
                children[i],
            ),
        ArrayView::List { child, offsets, validity } => {
            &&& offsets.len() == validity.len() + 1
            &&& offsets[0] == 0
            &&& forall|i: int| 0 <= i < offsets.len() - 1 ==> offsets[i] <= #[trigger] offsets[i + 1]
            &&& offsets[offsets.len() - 1] == rows(*child)
            &&& array_wf(*child)
        },
        _ => true,
    }
}

/// The builder has the shape its zipped field calls for: the same kind
/// of slots as the field's logical type, children mirroring the zipped
/// children, and a dictionary backed by exactly the field's cached
/// enumerant list.
pub open spec fn builder_matches(b: ArrayView, zf: FieldView) -> bool
    decreases b,
{
    match zf.arrow_field.data_type {
        DataTypeView::Null => b is Null,
        DataTypeView::Boolean => b is Boolean,
        DataTypeView::Int8 => b is Int8,
        DataTypeView::Int16 => b is Int16,
        DataTypeView::Int32 => b is Int32,
        DataTypeView::Int64 => b is Int64,
        DataTypeView::UInt8 => b is UInt8,
        DataTypeView::UInt16 => b is UInt16,
        DataTypeView::UInt32 => b is UInt32,
        DataTypeView::UInt64 => b is UInt64,
        DataTypeView::Float32 => b is Float32,
        DataTypeView::Float64 => b is Float64,
        DataTypeView::Utf8 => b is Utf8,
        DataTypeView::Binary => b is Binary,
        DataTypeView::Dictionary => b matches ArrayView::Dictionary { values, .. }
            && zf.enumerants == Some(values),
        DataTypeView::Struct(_) => b matches ArrayView::Struct { children, .. } && (
        zf.inner_fields matches Some(inner) && children.len() == inner.len() && forall|i: int|
            0 <= i < children.len() ==> builder_matches(#[trigger] children[i], inner[i])),
        DataTypeView::List(_) => b matches ArrayView::List { child, .. } && (zf.inner_fields
            matches Some(inner) && inner.len() == 1 && builder_matches(*child, inner[0])),
    }
}

/// Allocate one empty builder per field of the zipped tree, mirroring
/// its shape. The capacity hint sizes the allocations; it leaves no
/// trace in the builder's contents. A dictionary builder is seeded with
/// the field's full cached enumerant list, in declared order, before any
/// data arrives.
#[verifier::loop_isolation(false)]
pub fn make_mutable_array(field: &Field, length: usize) -> (r: MutableArray)
    requires
        zf_wf(field@),
    ensures
        builder_matches(r@, field@),
        array_wf(r@),
        rows(r@) == 0,
        r@ == empty_builder(field@),
    decreases *field,
{
    let af = field.arrow_field();
    match &af.data_type {
        ArrowDataType::Null => MutableArray::Null { slots: Vec::with_capacity(length) },
        ArrowDataType::Boolean => MutableArray::Boolean { values: Vec::with_capacity(length) },
        ArrowDataType::Int8 => MutableArray::Int8 { values: Vec::with_capacity(length) },
        ArrowDataType::Int16 => MutableArray::Int16 { values: Vec::with_capacity(length) },
        ArrowDataType::Int32 => MutableArray::Int32 { values: Vec::with_capacity(length) },
        ArrowDataType::Int64 => MutableArray::Int64 { values: Vec::with_capacity(length) },
        ArrowDataType::UInt8 => MutableArray::UInt8 { values: Vec::with_capacity(length) },
        ArrowDataType::UInt16 => MutableArray::UInt16 { values: Vec::with_capacity(length) },
        ArrowDataType::UInt32 => MutableArray::UInt32 { values: Vec::with_capacity(length) },
        ArrowDataType::UInt64 => MutableArray::UInt64 { values: Vec::with_capacity(length) },
        ArrowDataType::Float32 => MutableArray::Float32 { values: Vec::with_capacity(length) },
        ArrowDataType::Float64 => MutableArray::Float64 { values: Vec::with_capacity(length) },
        ArrowDataType::Utf8 => {
            let values: Vec<Option<String>> = Vec::with_capacity(length);
            proof {
                assert(opt_strs_view(values) =~= Seq::<Option<Seq<char>>>::empty());
            }
            MutableArray::Utf8 { values }
        },
        ArrowDataType::Binary => {
            let values: Vec<Option<Vec<u8>>> = Vec::with_capacity(length);
            proof {
                assert(opt_bytes_view(values) =~= Seq::<Option<Seq<u8>>>::empty());
            }
            MutableArray::Binary { values }
        },
        ArrowDataType::Dictionary => {
            let enumerants = dup_names(field.enumerants());
            MutableArray::Dictionary { keys: Vec::with_capacity(length), values: enumerants }
        },
        ArrowDataType::Struct(_) => {
            let inner = field.inner_fields();
            let mut children: Vec<MutableArray> = Vec::new();
            let n = inner.len();
            let mut i: usize = 0;
            proof {
                crate::field::lemma_zfs_view(*inner);
                assert(field@.inner_fields == Some(crate::field::zfs_view(*inner)));
            }
            while i < n
                invariant
                    0 <= i <= n,
                    children@.len() == i,
                    forall|j: int|
                        0 <= j < i ==> builder_matches(
                            array_view(#[trigger] children@[j]),
                            crate::field::zfs_view(*inner)[j],
                        ) && array_wf(array_view(children@[j])) && rows(array_view(children@[j]))
                            == 0 && array_view(children@[j]) == empty_builder(
                            crate::field::zfs_view(*inner)[j],
                        ),
                decreases n - i,
            {
                proof {
                    vstd::std_specs::vec::axiom_vec_index_decreases(*inner, i as int);
                    assert(inner@[i as int]@ == crate::field::zfs_view(*inner)[i as int]);
                    assert(zf_wf(inner@[i as int]@));
                }
                let child = make_mutable_array(&inner[i], length);
                children.push(child);
                i += 1;
            }
            let r = MutableArray::Struct { children, validity: Vec::new() };
            proof {
                match r {
                    MutableArray::Struct { children: ref cs, .. } => {
                        lemma_arrs_view(*cs);
                        lemma_empty_builders(crate::field::zfs_view(*inner));
                        assert(arrs_view(*cs) =~= empty_builders(crate::field::zfs_view(*inner)));
                    },
                    _ => {},
                }
            }
            r
        },
        ArrowDataType::List(_) => {
            let child = make_mutable_array(field.inner_field(), length);
            let mut offsets: Vec<usize> = Vec::new();
            offsets.push(0);
            proof {
                assert(offsets@ =~= seq![0usize]);
            }
            MutableArray::List {
                child: Box::new(child),
                offsets,
                validity: Vec::with_capacity(length),
            }
        },
    }
}

impl MutableArray {
    /// The number of closed row slots.
    pub fn len(&self) -> (r: usize)
        ensures
            r as nat == rows(self@),
    {
        match self {
            MutableArray::Null { slots } => slots.len(),
            MutableArray::Boolean { values } => values.len(),
            MutableArray::Int8 { values } => values.len(),
            MutableArray::Int16 { values } => values.len(),
            MutableArray::Int32 { values } => values.len(),
            MutableArray::Int64 { values } => values.len(),
            MutableArray::UInt8 { values } => values.len(),
            MutableArray::UInt16 { values } => values.len(),
            MutableArray::UInt32 { values } => values.len(),
            MutableArray::UInt64 { values } => values.len(),
            MutableArray::Float32 { values } => values.len(),
            MutableArray::Float64 { values } => values.len(),
            MutableArray::Utf8 { values } => values.len(),
            MutableArray::Binary { values } => values.len(),
            MutableArray::Dictionary { keys, .. } => keys.len(),
            MutableArray::Struct { validity, .. } => validity.len(),
            MutableArray::List { validity, .. } => validity.len(),
        }
    }
}

/// The builder that allocation yields for one zipped field: empty of
/// rows, mirroring the field's shape, with a dictionary already seeded
/// by the field's cached enumerant list.
pub open spec fn empty_builder(zf: FieldView) -> ArrayView
    decreases zf, 1int,
{
    match zf.arrow_field.data_type {
        DataTypeView::Null => ArrayView::Null { len: 0 },
        DataTypeView::Boolean => ArrayView::Boolean { values: Seq::empty() },
        DataTypeView::Int8 => ArrayView::Int8 { values: Seq::empty() },
        DataTypeView::Int16 => ArrayView::Int16 { values: Seq::empty() },
        DataTypeView::Int32 => ArrayView::Int32 { values: Seq::empty() },
        DataTypeView::Int64 => ArrayView::Int64 { values: Seq::empty() },
        DataTypeView::UInt8 => ArrayView::UInt8 { values: Seq::empty() },
        DataTypeView::UInt16 => ArrayView::UInt16 { values: Seq::empty() },
        DataTypeView::UInt32 => ArrayView::UInt32 { values: Seq::empty() },
        DataTypeView::UInt64 => ArrayView::UInt64 { values: Seq::empty() },
        DataTypeView::Float32 => ArrayView::Float32 { values: Seq::empty() },
        DataTypeView::Float64 => ArrayView::Float64 { values: Seq::empty() },
        DataTypeView::Utf8 => ArrayView::Utf8 { values: Seq::empty() },
        DataTypeView::Binary => ArrayView::Binary { values: Seq::empty() },
        DataTypeView::Dictionary => ArrayView::Dictionary {
            keys: Seq::empty(),
            values: (match zf.enumerants {
                Some(vs) => vs,
                None => Seq::empty(),
            }),
        },
        DataTypeView::Struct(_) => (match zf.inner_fields {
            Some(inner) => ArrayView::Struct {
                children: empty_builders(inner),
                validity: Seq::empty(),
            },
            None => ArrayView::Null { len: 0 },
        }),
        DataTypeView::List(_) => (match zf.inner_fields {
            Some(inner) => if inner.len() == 1 {
                ArrayView::List {
                    child: Box::new(empty_builder(inner[0])),
                    offsets: seq![0usize],
                    validity: Seq::empty(),
                }
            } else {
                ArrayView::Null { len: 0 }
            },
            None => ArrayView::Null { len: 0 },
        }),
    }
}

/// The empty builders of a sequence of zipped fields.
pub open spec fn empty_builders(inner: Seq<FieldView>) -> Seq<ArrayView>
    decreases inner, 2int,
{
    if inner.len() == 0 {
        Seq::empty()
    } else {
        seq![empty_builder(inner[0])] + empty_builders(inner.drop_first())
    }
}

/// Pointwise description of `empty_builders`.
pub proof fn lemma_empty_builders(inner: Seq<FieldView>)
    ensures
        empty_builders(inner).len() == inner.len(),
        forall|i: int| 0 <= i < inner.len() ==> empty_builders(inner)[i] == empty_builder(inner[i]),
    decreases inner.len(),
{
    if inner.len() > 0 {
        lemma_empty_builders(inner.drop_first());
        assert forall|i: int| 0 <= i < inner.len() implies empty_builders(inner)[i]
            == empty_builder(inner[i]) by {
            if i > 0 {
                assert(inner.drop_first()[i - 1] == inner[i]);
            }
        }
    }
}

/// Every struct-descendant column of a builder closes exactly `n` row
/// slots: the builder itself, and, recursively, each child of every
/// struct builder in it. List children are deliberately exempt: they
/// hold one slot per list element, not per row.
pub open spec fn struct_descendants_aligned(b: ArrayView, n: nat) -> bool
    decreases b,
{
    rows(b) == n && (match b {
        ArrayView::Struct { children, .. } => forall|i: int|
            0 <= i < children.len() ==> struct_descendants_aligned(#[trigger] children[i], n),
        _ => true,
    })
}

/// A well-formed builder with `n` closed rows is aligned throughout:
/// every nested struct child — variant-group members included, whichever
/// member each row selected — also closed exactly `n` row slots.
pub proof fn lemma_wf_aligned(b: ArrayView, n: nat)
    requires
        array_wf(b),
        rows(b) == n,
    ensures
        struct_descendants_aligned(b, n),
    decreases b,
{
    match b {
        ArrayView::Struct { children, validity } => {
            assert forall|i: int| 0 <= i < children.len() implies struct_descendants_aligned(
                #[trigger] children[i],
                n,
            ) by {
                lemma_wf_aligned(children[i], n);
            }
        },
        _ => {},
    }
}

} // verus!
