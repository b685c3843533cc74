//! Row-to-column deserialization: walking each message against the
//! zipped field tree and pushing exactly one row slot (a value or a
//! null) into every builder, so that all columns stay aligned with the
//! message count whatever variant-group members the messages select.

use crate::array::{
    array_wf, builder_matches, empty_builder, lemma_arrs_view, make_mutable_array, opt_bytes_view,
    opt_strs_view, rows, ArrayView, MutableArray,
};
use crate::field::{zf_wf, zip_agrees, zip_wf, Field, FieldView};
use crate::reader::read_from_capnp_struct;
use crate::schema::DataTypeView;
use crate::source::{SchemaView, SourceType};
use crate::value::{lemma_slots_view, lemma_vals_view, value_view, Value, ValueView};
use vstd::prelude::*;

verus! {

broadcast use vstd::std_specs::vec::axiom_vec_index_decreases;

/// A fatal decoding failure: the runtime value disagrees with what the
/// cached accessor expects — an invariant violation, not a data error.
/// The in-progress batch is discarded; no partial batch is returned.
#[derive(Clone, Copy, Debug, PartialEq, Eq, Structural)]
pub enum DeserializeError {
    TypeMismatch,
}

/// A finished batch: one immutable column per zipped field, all of one
/// length.
pub struct Chunk {
    pub arrays: Vec<MutableArray>,
}

/// The value can be pushed into a builder of this field's type without a
/// type mismatch. An absent value (`valid` false) always can: every
/// column then receives a null row slot. An unknown enumerant also can:
/// it becomes a null, not an error.
pub open spec fn dv_fits(zf: FieldView, v: ValueView, valid: bool) -> bool
    decreases zf, 1int,
{
    match zf.arrow_field.data_type {
        DataTypeView::Null => true,
        DataTypeView::Boolean => valid ==> v is Bool,
        DataTypeView::Int8 => valid ==> v is Int8,
        DataTypeView::Int16 => valid ==> v is Int16,
        DataTypeView::Int32 => valid ==> v is Int32,
        DataTypeView::Int64 => valid ==> v is Int64,
        DataTypeView::UInt8 => valid ==> v is UInt8,
        DataTypeView::UInt16 => valid ==> v is UInt16,
        DataTypeView::UInt32 => valid ==> v is UInt32,
        DataTypeView::UInt64 => valid ==> v is UInt64,
        DataTypeView::Float32 => valid ==> v is Float32,
        DataTypeView::Float64 => valid ==> v is Float64,
        DataTypeView::Utf8 => valid ==> v is Text,
        DataTypeView::Binary => valid ==> v is Data,
        DataTypeView::Dictionary => valid ==> v is Enum,
        DataTypeView::Struct(_) => valid ==> (zf.inner_fields matches Some(inner) && forall|i: int|
            0 <= i < inner.len() ==> sf_fits(#[trigger] inner[i], v, true)),
        DataTypeView::List(_) => valid ==> (v matches ValueView::List(elems) && (zf.inner_fields
            matches Some(inner) && inner.len() == 1 && forall|j: int|
            0 <= j < elems.len() ==> dv_fits(inner[0], #[trigger] elems[j], true))),
    }
}

/// The field can be read from this struct value and its value pushed:
/// the value is a struct, the accessor is in range, and the slot's
/// value, when present, fits the field.
pub open spec fn sf_fits(zf: FieldView, v: ValueView, valid: bool) -> bool
    decreases zf, 2int,
{
    valid ==> (v matches ValueView::Struct(slots) && (zf.capnp_field matches Some(k) && (k as int)
        < slots.len() && (match slots[k as int] {
        Some(x) => dv_fits(zf, x, true),
        None => true,
    })))
}

/// What pushing one value (or a null, when `valid` is false) does to a
/// builder of the matching shape.
pub open spec fn push_value(zf: FieldView, v: ValueView, b: ArrayView, valid: bool) -> ArrayView
    decreases zf, 3int, 0int,
{
    match b {
        ArrayView::Null { len } => ArrayView::Null { len: len + 1 },
        ArrayView::Boolean { values } => ArrayView::Boolean {
            values: values.push(
                match (valid, v) {
                    (true, ValueView::Bool(x)) => Some(x),
                    _ => None,
                },
            ),
        },
        ArrayView::Int8 { values } => ArrayView::Int8 {
            values: values.push(
                match (valid, v) {
                    (true, ValueView::Int8(x)) => Some(x),
                    _ => None,
                },
            ),
        },
        ArrayView::Int16 { values } => ArrayView::Int16 {
            values: values.push(
                match (valid, v) {
                    (true, ValueView::Int16(x)) => Some(x),
                    _ => None,
                },
            ),
        },
        ArrayView::Int32 { values } => ArrayView::Int32 {
            values: values.push(
                match (valid, v) {
                    (true, ValueView::Int32(x)) => Some(x),
                    _ => None,
                },
            ),
        },
        ArrayView::Int64 { values } => ArrayView::Int64 {
            values: values.push(
                match (valid, v) {
                    (true, ValueView::Int64(x)) => Some(x),
                    _ => None,
                },
            ),
        },
        ArrayView::UInt8 { values } => ArrayView::UInt8 {
            values: values.push(
                match (valid, v) {
                    (true, ValueView::UInt8(x)) => Some(x),
                    _ => None,
                },
            ),
        },
        ArrayView::UInt16 { values } => ArrayView::UInt16 {
            values: values.push(
                match (valid, v) {
                    (true, ValueView::UInt16(x)) => Some(x),
                    _ => None,
                },
            ),
        },
        ArrayView::UInt32 { values } => ArrayView::UInt32 {
            values: values.push(
                match (valid, v) {
                    (true, ValueView::UInt32(x)) => Some(x),
                    _ => None,
                },
            ),
        },
        ArrayView::UInt64 { values } => ArrayView::UInt64 {
            values: values.push(
                match (valid, v) {
                    (true, ValueView::UInt64(x)) => Some(x),
                    _ => None,
                },
            ),
        },
        ArrayView::Float32 { values } => ArrayView::Float32 {
            values: values.push(
                match (valid, v) {
                    (true, ValueView::Float32 { bits }) => Some(bits),
                    _ => None,
                },
            ),
        },
        ArrayView::Float64 { values } => ArrayView::Float64 {
            values: values.push(
                match (valid, v) {
                    (true, ValueView::Float64 { bits }) => Some(bits),
                    _ => None,
                },
            ),
        },
        ArrayView::Utf8 { values } => ArrayView::Utf8 {
            values: values.push(
                match (valid, v) {
                    (true, ValueView::Text(s)) => Some(s),
                    _ => None,
                },
            ),
        },
        ArrayView::Binary { values } => ArrayView::Binary {
            values: values.push(
                match (valid, v) {
                    (true, ValueView::Data(bytes)) => Some(bytes),
                    _ => None,
                },
            ),
        },
        ArrayView::Dictionary { keys, values } => ArrayView::Dictionary {
            keys: keys.push(
                match (valid, v) {
                    (true, ValueView::Enum(ord)) => if (ord as int) < values.len() {
                        Some(ord)
                    } else {
                        None
                    },
                    _ => None,
                },
            ),
            values,
        },
        ArrayView::Struct { children, validity } => match zf.inner_fields {
            Some(inner) => ArrayView::Struct {
                children: push_children(inner, v, children, valid),
                validity: validity.push(valid),
            },
            None => b,
        },
        ArrayView::List { child, offsets, validity } => match zf.inner_fields {
            Some(inner) => if inner.len() == 1 {
                let c2 = if valid {
                    match v {
                        ValueView::List(elems) => push_elems(inner[0], elems, *child),
                        _ => *child,
                    }
                } else {
                    push_value(inner[0], v, *child, false)
                };
                ArrayView::List {
                    child: Box::new(c2),
                    offsets: offsets.push(rows(c2) as usize),
                    validity: validity.push(true),
                }
            } else {
                b
            },
            None => b,
        },
    }
}

/// What reading one field from a struct value and pushing the outcome
/// does to the field's builder.
pub open spec fn push_struct_field(
    zf: FieldView,
    v: ValueView,
    b: ArrayView,
    valid: bool,
) -> ArrayView
    decreases zf, 4int, 0int,
{
    if valid {
        match v {
            ValueView::Struct(slots) => match zf.capnp_field {
                Some(k) => if (k as int) < slots.len() {
                    match slots[k as int] {
                        Some(x) => push_value(zf, x, b, true),
                        None => push_value(zf, v, b, false),
                    }
                } else {
                    b
                },
                None => b,
            },
            _ => b,
        }
    } else {
        push_value(zf, v, b, false)
    }
}

/// What one row does to the child builders of a struct builder.
pub open spec fn push_children(
    inner: Seq<FieldView>,
    v: ValueView,
    children: Seq<ArrayView>,
    valid: bool,
) -> Seq<ArrayView>
    decreases inner, 5int, 0int,
{
    if inner.len() == 0 || children.len() == 0 {
        children
    } else {
        seq![push_struct_field(inner[0], v, children[0], valid)] + push_children(
            inner.drop_first(),
            v,
            children.drop_first(),
            valid,
        )
    }
}

/// What pushing every element of one list value does to the list's
/// child builder.
pub open spec fn push_elems(zf: FieldView, elems: Seq<ValueView>, b: ArrayView) -> ArrayView
    decreases zf, 6int, elems.len(),
{
    if elems.len() == 0 {
        b
    } else {
        push_elems(zf, elems.drop_first(), push_value(zf, elems[0], b, true))
    }
}

/// The column that deserializing a batch of messages grows from an
/// initial builder, one row slot per message.
pub open spec fn spec_column(zf: FieldView, msgs: Seq<ValueView>, b: ArrayView) -> ArrayView
    decreases msgs.len(),
{
    if msgs.len() == 0 {
        b
    } else {
        spec_column(zf, msgs.drop_first(), push_struct_field(zf, msgs[0], b, true))
    }
}

/// Folding one more message onto a column.
pub proof fn lemma_spec_column_snoc(zf: FieldView, msgs: Seq<ValueView>, m: ValueView, b: ArrayView)
    ensures
        spec_column(zf, msgs.push(m), b) == push_struct_field(zf, m, spec_column(zf, msgs, b), true),
    decreases msgs.len(),
{
    let p = msgs.push(m);
    if msgs.len() == 0 {
        assert(p[0] == m);
        assert(p.drop_first() =~= Seq::<ValueView>::empty());
        assert(spec_column(zf, p, b) == spec_column(
            zf,
            p.drop_first(),
            push_struct_field(zf, m, b, true),
        ));
        assert(spec_column(zf, msgs, b) == b);
    } else {
        assert(p[0] == msgs[0]);
        assert(p.drop_first() =~= msgs.drop_first().push(m));
        lemma_spec_column_snoc(zf, msgs.drop_first(), m, push_struct_field(zf, msgs[0], b, true));
        assert(spec_column(zf, p, b) == spec_column(
            zf,
            p.drop_first(),
            push_struct_field(zf, msgs[0], b, true),
        ));
    }
}

/// The views of a batch of messages.
pub open spec fn msgs_views(v: Vec<Value>) -> Seq<ValueView> {
    Seq::new(v@.len(), |i: int| value_view(v@[i]))
}

/// Pointwise description of `push_children`.
proof fn lemma_push_children(
    inner: Seq<FieldView>,
    v: ValueView,
    children: Seq<ArrayView>,
    valid: bool,
)
    requires
        inner.len() == children.len(),
    ensures
        push_children(inner, v, children, valid).len() == children.len(),
        forall|i: int|
            0 <= i < children.len() ==> push_children(inner, v, children, valid)[i]
                == push_struct_field(inner[i], v, #[trigger] children[i], valid),
    decreases inner.len(),
{
    if inner.len() > 0 {
        lemma_push_children(inner.drop_first(), v, children.drop_first(), valid);
        assert forall|i: int| 0 <= i < children.len() implies push_children(
            inner,
            v,
            children,
            valid,
        )[i] == push_struct_field(inner[i], v, #[trigger] children[i], valid) by {
            if i > 0 {
                assert(children.drop_first()[i - 1] == children[i]);
                assert(inner.drop_first()[i - 1] == inner[i]);
            }
        }
    }
}

/// Read the zipped field from the struct value and push the outcome into
/// the field's builder: the slot's value when the field is present, a
/// null row slot otherwise. When `is_valid` is false — this struct or an
/// enclosing field is an unselected variant-group member — the value is
/// ignored and a null row slot is pushed, recursively for every
/// descendant, so every column stays aligned.
pub fn deserialize_struct_field(
    field: &Field,
    capnp_struct: &Value,
    array: MutableArray,
    is_valid: bool,
) -> (r: Result<MutableArray, DeserializeError>)
    requires
        zf_wf(field@),
        is_valid ==> field@.capnp_field is Some,
        builder_matches(array@, field@),
        array_wf(array@),
    ensures
        r matches Ok(b2) ==> b2@ == push_struct_field(field@, capnp_struct@, array@, is_valid)
            && builder_matches(b2@, field@) && array_wf(b2@) && rows(b2@) == rows(array@) + 1,
        r is Ok <==> sf_fits(field@, capnp_struct@, is_valid),
    decreases *field, 2int, 0int,
{
    if is_valid {
        match capnp_struct {
            Value::Struct(slots) => {
                proof {
                    lemma_slots_view(*slots);
                }
                let k = field.capnp_field();
                if k >= slots.len() {
                    return Err(DeserializeError::TypeMismatch);
                }
                match read_from_capnp_struct(capnp_struct, field) {
                    Some(capnp_value) => deserialize_value(field, capnp_value, array, true),
                    None => deserialize_value(field, capnp_struct, array, false),
                }
            },
            _ => Err(DeserializeError::TypeMismatch),
        }
    } else {
        deserialize_value(field, capnp_struct, array, false)
    }
}

/// Push one row slot for this field into its builder: the value itself
/// when present and valid, a null otherwise. A composite recurses into
/// its children first and closes its own row afterwards; a list seals
/// its row with the element count. An unrecognized enumerant ordinal
/// becomes a null. A kind mismatch between the zipped field and the
/// runtime value aborts the whole batch.
#[verifier::loop_isolation(false)]
pub fn deserialize_value(
    field: &Field,
    capnp_value: &Value,
    array: MutableArray,
    is_valid: bool,
) -> (r: Result<MutableArray, DeserializeError>)
    requires
        zf_wf(field@),
        builder_matches(array@, field@),
        array_wf(array@),
    ensures
        r matches Ok(b2) ==> b2@ == push_value(field@, capnp_value@, array@, is_valid)
            && builder_matches(b2@, field@) && array_wf(b2@) && rows(b2@) == rows(array@) + 1,
        r is Ok <==> dv_fits(field@, capnp_value@, is_valid),
    decreases *field, 1int, 0int,
{
    let ghost b0 = array@;
    let af = field.arrow_field();
    match (&af.data_type, array) {
        (crate::schema::ArrowDataType::Null, MutableArray::Null { mut slots }) => {
            slots.push(());
            Ok(MutableArray::Null { slots })
        },
        (crate::schema::ArrowDataType::Boolean, MutableArray::Boolean { mut values }) => {
            if is_valid {
                match capnp_value {
                    Value::Bool(x) => {
                        values.push(Some(*x));
                        Ok(MutableArray::Boolean { values })
                    },
                    _ => Err(DeserializeError::TypeMismatch),
                }
            } else {
                values.push(None);
                Ok(MutableArray::Boolean { values })
            }
        },
        (crate::schema::ArrowDataType::Int8, MutableArray::Int8 { mut values }) => {
            if is_valid {
                match capnp_value {
                    Value::Int8(x) => {
                        values.push(Some(*x));
                        Ok(MutableArray::Int8 { values })
                    },
                    _ => Err(DeserializeError::TypeMismatch),
                }
            } else {
                values.push(None);
                Ok(MutableArray::Int8 { values })
            }
        },
        (crate::schema::ArrowDataType::Int16, MutableArray::Int16 { mut values }) => {
            if is_valid {
                match capnp_value {
                    Value::Int16(x) => {
                        values.push(Some(*x));
                        Ok(MutableArray::Int16 { values })
                    },
                    _ => Err(DeserializeError::TypeMismatch),
                }
            } else {
                values.push(None);
                Ok(MutableArray::Int16 { values })
            }
        },
        (crate::schema::ArrowDataType::Int32, MutableArray::Int32 { mut values }) => {
            if is_valid {
                match capnp_value {
                    Value::Int32(x) => {
                        values.push(Some(*x));
                        Ok(MutableArray::Int32 { values })
                    },
                    _ => Err(DeserializeError::TypeMismatch),
                }
            } else {
                values.push(None);
                Ok(MutableArray::Int32 { values })
            }
        },
        (crate::schema::ArrowDataType::Int64, MutableArray::Int64 { mut values }) => {
            if is_valid {
                match capnp_value {
                    Value::Int64(x) => {
                        values.push(Some(*x));
                        Ok(MutableArray::Int64 { values })
                    },
                    _ => Err(DeserializeError::TypeMismatch),
                }
            } else {
                values.push(None);
                Ok(MutableArray::Int64 { values })
            }
        },
        (crate::schema::ArrowDataType::UInt8, MutableArray::UInt8 { mut values }) => {
            if is_valid {
                match capnp_value {
                    Value::UInt8(x) => {
                        values.push(Some(*x));
                        Ok(MutableArray::UInt8 { values })
                    },
                    _ => Err(DeserializeError::TypeMismatch),
                }
            } else {
                values.push(None);
                Ok(MutableArray::UInt8 { values })
            }
        },
        (crate::schema::ArrowDataType::UInt16, MutableArray::UInt16 { mut values }) => {
            if is_valid {
                match capnp_value {
                    Value::UInt16(x) => {
                        values.push(Some(*x));
                        Ok(MutableArray::UInt16 { values })
                    },
                    _ => Err(DeserializeError::TypeMismatch),
                }
            } else {
                values.push(None);
                Ok(MutableArray::UInt16 { values })
            }
        },
        (crate::schema::ArrowDataType::UInt32, MutableArray::UInt32 { mut values }) => {
            if is_valid {
                match capnp_value {
                    Value::UInt32(x) => {
                        values.push(Some(*x));
                        Ok(MutableArray::UInt32 { values })
                    },
                    _ => Err(DeserializeError::TypeMismatch),
                }
            } else {
                values.push(None);
                Ok(MutableArray::UInt32 { values })
            }
        },
        (crate::schema::ArrowDataType::UInt64, MutableArray::UInt64 { mut values }) => {
            if is_valid {
                match capnp_value {
                    Value::UInt64(x) => {
                        values.push(Some(*x));
                        Ok(MutableArray::UInt64 { values })
                    },
                    _ => Err(DeserializeError::TypeMismatch),
                }
            } else {
                values.push(None);
                Ok(MutableArray::UInt64 { values })
            }
        },
        (crate::schema::ArrowDataType::Float32, MutableArray::Float32 { mut values }) => {
            if is_valid {
                match capnp_value {
                    Value::Float32 { bits } => {
                        values.push(Some(*bits));
                        Ok(MutableArray::Float32 { values })
                    },
                    _ => Err(DeserializeError::TypeMismatch),
                }
            } else {
                values.push(None);
                Ok(MutableArray::Float32 { values })
            }
        },
        (crate::schema::ArrowDataType::Float64, MutableArray::Float64 { mut values }) => {
            if is_valid {
                match capnp_value {
                    Value::Float64 { bits } => {
                        values.push(Some(*bits));
                        Ok(MutableArray::Float64 { values })
                    },
                    _ => Err(DeserializeError::TypeMismatch),
                }
            } else {
                values.push(None);
                Ok(MutableArray::Float64 { values })
            }
        },
        (crate::schema::ArrowDataType::Utf8, MutableArray::Utf8 { mut values }) => {
            let ghost vs0 = values@;
            if is_valid {
                match capnp_value {
                    Value::Text(s) => {
                        values.push(Some(s.clone()));
                        proof {
                            assert(opt_strs_view(values) =~= opt_strs_view_of(vs0).push(
                                Some(s@),
                            ));
                        }
                        Ok(MutableArray::Utf8 { values })
                    },
                    _ => Err(DeserializeError::TypeMismatch),
                }
            } else {
                values.push(None);
                proof {
                    assert(opt_strs_view(values) =~= opt_strs_view_of(vs0).push(None));
                }
                Ok(MutableArray::Utf8 { values })
            }
        },
        (crate::schema::ArrowDataType::Binary, MutableArray::Binary { mut values }) => {
            let ghost vs0 = values@;
            if is_valid {
                match capnp_value {
                    Value::Data(bytes) => {
                        values.push(Some(crate::value::dup_bytes(bytes)));
                        proof {
                            assert(opt_bytes_view(values) =~= opt_bytes_view_of(vs0).push(
                                Some(bytes@),
                            ));
                        }
                        Ok(MutableArray::Binary { values })
                    },
                    _ => Err(DeserializeError::TypeMismatch),
                }
            } else {
                values.push(None);
                proof {
                    assert(opt_bytes_view(values) =~= opt_bytes_view_of(vs0).push(None));
                }
                Ok(MutableArray::Binary { values })
            }
        },
        (crate::schema::ArrowDataType::Dictionary, MutableArray::Dictionary {
            mut keys,
            values,
        }) => {
            if is_valid {
                match capnp_value {
                    Value::Enum(ord) => {
                        if (*ord as usize) < values.len() {
                            keys.push(Some(*ord));
                        } else {
                            keys.push(None);
                        }
                        Ok(MutableArray::Dictionary { keys, values })
                    },
                    _ => Err(DeserializeError::TypeMismatch),
                }
            } else {
                keys.push(None);
                Ok(MutableArray::Dictionary { keys, values })
            }
        },
        (crate::schema::ArrowDataType::Struct(_), MutableArray::Struct {
            mut children,
            mut validity,
        }) => {
            let inner = field.inner_fields();
            proof {
                crate::field::lemma_zfs_view(*inner);
                lemma_arrs_view(children);
            }
            let ghost innerseq = crate::field::zfs_view(*inner);
            let ghost ch0 = crate::array::arrs_view(children);
            let n = children.len();
            let mut new_children: Vec<MutableArray> = Vec::new();
            let mut i: usize = 0;
            while i < n
                invariant
                    0 <= i <= n,
                    children@.len() == n - i,
                    forall|j: int| 0 <= j < n - i ==> (#[trigger] children@[j])@ == ch0[i + j],
                    new_children@.len() == i,
                    forall|j: int|
                        0 <= j < i ==> (#[trigger] new_children@[j])@ == push_struct_field(
                            innerseq[j],
                            capnp_value@,
                            ch0[j],
                            is_valid,
                        ) && builder_matches(new_children@[j]@, innerseq[j]) && array_wf(
                            new_children@[j]@,
                        ) && rows(new_children@[j]@) == rows(ch0[j]) + 1,
                    forall|j: int| 0 <= j < i ==> sf_fits(#[trigger] innerseq[j], capnp_value@, is_valid),
                decreases n - i,
            {
                let ghost chpre = children@;
                let child = children.remove(0);
                proof {
                    assert(children@ =~= chpre.drop_first());
                    vstd::std_specs::vec::axiom_vec_index_decreases(*inner, i as int);
                    assert(zf_wf(inner@[i as int]@));
                }
                match deserialize_struct_field(&inner[i], capnp_value, child, is_valid) {
                    Ok(c2) => {
                        new_children.push(c2);
                    },
                    Err(e) => {
                        return Err(e);
                    },
                }
                i += 1;
            }
            validity.push(is_valid);
            let b2 = MutableArray::Struct { children: new_children, validity };
            proof {
                match b2 {
                    MutableArray::Struct { children: ref cs, .. } => {
                        lemma_arrs_view(*cs);
                    },
                    _ => {},
                }
                lemma_push_children(innerseq, capnp_value@, ch0, is_valid);
                assert(crate::array::arrs_view_from(new_children, 0) =~= push_children(
                    innerseq,
                    capnp_value@,
                    ch0,
                    is_valid,
                ));
            }
            Ok(b2)
        },
        (crate::schema::ArrowDataType::List(_), MutableArray::List {
            child,
            mut offsets,
            mut validity,
        }) => {
            let item_field = field.inner_field();
            let mut c: MutableArray = *child;
            let ghost c0 = c@;
            if is_valid {
                match capnp_value {
                    Value::List(elems) => {
                        proof {
                            lemma_vals_view(*elems);
                        }
                        let ghost ev = crate::value::vals_view(*elems);
                        proof {
                            assert(ev.skip(0) =~= ev);
                        }
                        let n = elems.len();
                        let mut j: usize = 0;
                        while j < n
                            invariant
                                0 <= j <= n,
                                builder_matches(c@, item_field@),
                                array_wf(c@),
                                rows(c@) == rows(c0) + j,
                                push_elems(item_field@, ev.skip(j as int), c@) == push_elems(
                                    item_field@,
                                    ev,
                                    c0,
                                ),
                                forall|k: int| 0 <= k < j ==> dv_fits(item_field@, #[trigger] ev[k], true),
                            decreases n - j,
                        {
                            proof {
                                assert(ev.skip(j as int)[0] == ev[j as int]);
                                assert(ev.skip(j as int).drop_first() =~= ev.skip(j as int + 1));
                            }
                            match deserialize_value(item_field, &elems[j], c, true) {
                                Ok(c2) => {
                                    c = c2;
                                },
                                Err(e) => {
                                    return Err(e);
                                },
                            }
                            j += 1;
                        }
                        proof {
                            assert(ev.skip(n as int) =~= Seq::<ValueView>::empty());
                            assert(c@ == push_elems(item_field@, ev, c0));
                        }
                        let clen = c.len();
                        offsets.push(clen);
                        validity.push(true);
                        Ok(MutableArray::List { child: Box::new(c), offsets, validity })
                    },
                    _ => Err(DeserializeError::TypeMismatch),
                }
            } else {
                match deserialize_value(item_field, capnp_value, c, false) {
                    Ok(c2) => {
                        let clen = c2.len();
                        offsets.push(clen);
                        validity.push(true);
                        Ok(MutableArray::List { child: Box::new(c2), offsets, validity })
                    },
                    Err(_) => vstd::pervasive::unreached(),
                }
            }
        },
        (_, _) => vstd::pervasive::unreached(),
    }
}

/// The views of a sequence of optional text slots.
pub open spec fn opt_strs_view_of(v: Seq<Option<String>>) -> Seq<Option<Seq<char>>> {
    v.map_values(
        |o: Option<String>|
            match o {
                Some(s) => Some(s@),
                None => None,
            },
    )
}

/// The views of a sequence of optional byte-blob slots.
pub open spec fn opt_bytes_view_of(v: Seq<Option<Vec<u8>>>) -> Seq<Option<Seq<u8>>> {
    v.map_values(
        |o: Option<Vec<u8>>|
            match o {
                Some(b) => Some(b@),
                None => None,
            },
    )
}

/// Deserialize a batch: allocate one builder per zipped field, push one
/// row slot per message into every builder, and freeze the builders
/// into a chunk of equal-length columns — one row per message in every
/// column. A type mismatch anywhere aborts the whole batch: no partial
/// chunk is ever returned.
#[verifier::loop_isolation(false)]
pub fn deserialize(messages: &Vec<Value>, fields: &Vec<Field>) -> (r: Result<
    Chunk,
    DeserializeError,
>)
    requires
        forall|i: int|
            0 <= i < fields@.len() ==> zf_wf((#[trigger] fields@[i])@) && fields@[i]@.capnp_field
                is Some,
    ensures
        r matches Ok(chunk) ==> {
            &&& chunk.arrays@.len() == fields@.len()
            &&& forall|i: int|
                0 <= i < fields@.len() ==> rows((#[trigger] chunk.arrays@[i])@)
                    == messages@.len() && builder_matches(chunk.arrays@[i]@, fields@[i]@)
                    && array_wf(chunk.arrays@[i]@) && chunk.arrays@[i]@ == spec_column(
                    fields@[i]@,
                    msgs_views(*messages),
                    empty_builder(fields@[i]@),
                )
        },
        r is Ok <==> (forall|m: int, i: int|
            0 <= m < messages@.len() && 0 <= i < fields@.len() ==> sf_fits(
                (#[trigger] fields@[i])@,
                #[trigger] msgs_views(*messages)[m],
                true,
            )),
{
    let ghost mvs = msgs_views(*messages);
    let n_fields = fields.len();
    let mut arrays: Vec<MutableArray> = Vec::new();
    let mut i: usize = 0;
    while i < n_fields
        invariant
            0 <= i <= n_fields,
            arrays@.len() == i,
            forall|j: int|
                0 <= j < i ==> (#[trigger] arrays@[j])@ == empty_builder(fields@[j]@)
                    && builder_matches(arrays@[j]@, fields@[j]@) && array_wf(arrays@[j]@) && rows(
                    arrays@[j]@,
                ) == 0,
        decreases n_fields - i,
    {
        let a = make_mutable_array(&fields[i], messages.len());
        arrays.push(a);
        i += 1;
    }
    let n_msgs = messages.len();
    let mut m: usize = 0;
    while m < n_msgs
        invariant
            0 <= m <= n_msgs,
            arrays@.len() == n_fields,
            forall|j: int|
                0 <= j < n_fields ==> (#[trigger] arrays@[j])@ == spec_column(
                    fields@[j]@,
                    mvs.take(m as int),
                    empty_builder(fields@[j]@),
                ) && builder_matches(arrays@[j]@, fields@[j]@) && array_wf(arrays@[j]@) && rows(
                    arrays@[j]@,
                ) == m,
            forall|mm: int, j: int|
                0 <= mm < m && 0 <= j < n_fields ==> sf_fits(
                    (#[trigger] fields@[j])@,
                    #[trigger] mvs[mm],
                    true,
                ),
        decreases n_msgs - m,
    {
        proof {
            assert(mvs.take(0) =~= Seq::<ValueView>::empty());
        }
        let msg = &messages[m];
        let mut new_arrays: Vec<MutableArray> = Vec::new();
        let mut i: usize = 0;
        while i < n_fields
            invariant
                0 <= i <= n_fields,
                arrays@.len() == n_fields - i,
                forall|j: int|
                    0 <= j < n_fields - i ==> (#[trigger] arrays@[j])@ == spec_column(
                        fields@[i + j]@,
                        mvs.take(m as int),
                        empty_builder(fields@[i + j]@),
                    ) && builder_matches(arrays@[j]@, fields@[i + j]@) && array_wf(arrays@[j]@)
                        && rows(arrays@[j]@) == m,
                new_arrays@.len() == i,
                forall|j: int|
                    0 <= j < i ==> (#[trigger] new_arrays@[j])@ == push_struct_field(
                        fields@[j]@,
                        mvs[m as int],
                        spec_column(fields@[j]@, mvs.take(m as int), empty_builder(fields@[j]@)),
                        true,
                    ) && builder_matches(new_arrays@[j]@, fields@[j]@) && array_wf(
                        new_arrays@[j]@,
                    ) && rows(new_arrays@[j]@) == m + 1,
                forall|j: int| 0 <= j < i ==> sf_fits((#[trigger] fields@[j])@, mvs[m as int], true),
            decreases n_fields - i,
        {
            let ghost apre = arrays@;
            let a = arrays.remove(0);
            proof {
                assert(arrays@ =~= apre.drop_first());
                assert(msg@ == mvs[m as int]);
            }
            match deserialize_struct_field(&fields[i], msg, a, true) {
                Ok(a2) => {
                    new_arrays.push(a2);
                },
                Err(e) => {
                    return Err(e);
                },
            }
            i += 1;
        }
        arrays = new_arrays;
        proof {
            assert(mvs.take(m + 1) =~= mvs.take(m as int).push(mvs[m as int]));
            assert forall|j: int| 0 <= j < n_fields implies (#[trigger] arrays@[j])@ == spec_column(
                fields@[j]@,
                mvs.take(m + 1),
                empty_builder(fields@[j]@),
            ) by {
                lemma_spec_column_snoc(
                    fields@[j]@,
                    mvs.take(m as int),
                    mvs[m as int],
                    empty_builder(fields@[j]@),
                );
            }
        }
        m += 1;
    }
    proof {
        assert(mvs.take(n_msgs as int) =~= mvs);
    }
    Ok(Chunk { arrays })
}

proof fn lemma_column_dictionary_values(zf: FieldView, msgs: Seq<ValueView>, b: ArrayView)
    requires
        b is Dictionary,
    ensures
        spec_column(zf, msgs, b) is Dictionary,
        spec_column(zf, msgs, b)->Dictionary_values == b->Dictionary_values,
    decreases msgs.len(),
{
    if msgs.len() > 0 {
        let b2 = push_struct_field(zf, msgs[0], b, true);
        assert(b2 is Dictionary && b2->Dictionary_values == b->Dictionary_values);
        lemma_column_dictionary_values(zf, msgs.drop_first(), b2);
    }
}

/// Dictionary determinism: a dictionary column deserialized over one
/// zipped enumeration field always carries exactly the field's cached
/// enumerant list as its backing values, in declared order — whatever
/// messages were decoded, including none, and however many rows two
/// batches have, their backing value lists are identical.
pub proof fn lemma_dictionary_determinism(
    zf: FieldView,
    msgs1: Seq<ValueView>,
    msgs2: Seq<ValueView>,
)
    requires
        zf.arrow_field.data_type is Dictionary,
        zf.enumerants is Some,
    ensures
        spec_column(zf, msgs1, empty_builder(zf)) is Dictionary,
        spec_column(zf, msgs2, empty_builder(zf)) is Dictionary,
        Some(spec_column(zf, msgs1, empty_builder(zf))->Dictionary_values) == zf.enumerants,
        spec_column(zf, msgs1, empty_builder(zf))->Dictionary_values == spec_column(
            zf,
            msgs2,
            empty_builder(zf),
        )->Dictionary_values,
{
    lemma_column_dictionary_values(zf, msgs1, empty_builder(zf));
    lemma_column_dictionary_values(zf, msgs2, empty_builder(zf));
}

/// The value is one the source schema can produce for this type: kinds
/// line up, a struct value has one slot per field of its definition,
/// and every present slot and list element conforms in turn.
pub open spec fn value_conforms(s: SchemaView, ty: SourceType, v: ValueView) -> bool
    decreases v, 0int,
{
    match v {
        ValueView::Void => ty == SourceType::Void,
        ValueView::Bool(_) => ty == SourceType::Bool,
        ValueView::Int8(_) => ty == SourceType::Int8,
        ValueView::Int16(_) => ty == SourceType::Int16,
        ValueView::Int32(_) => ty == SourceType::Int32,
        ValueView::Int64(_) => ty == SourceType::Int64,
        ValueView::UInt8(_) => ty == SourceType::UInt8,
        ValueView::UInt16(_) => ty == SourceType::UInt16,
        ValueView::UInt32(_) => ty == SourceType::UInt32,
        ValueView::UInt64(_) => ty == SourceType::UInt64,
        ValueView::Float32 { .. } => ty == SourceType::Float32,
        ValueView::Float64 { .. } => ty == SourceType::Float64,
        ValueView::Text(_) => ty == SourceType::Text,
        ValueView::Data(_) => ty == SourceType::Data,
        ValueView::Enum(_) => ty is Enum,
        ValueView::Struct(slots) => ty matches SourceType::Struct(i) && i < s.structs.len()
            && slots.len() == s.structs[i as int].len() && (forall|k: int|
            0 <= k < slots.len() ==> ((#[trigger] slots[k]) matches Some(x) ==> value_conforms(
                s,
                s.structs[i as int][k].dtype,
                x,
            ))),
        ValueView::List(elems) => ty matches SourceType::List(et) && (forall|j: int|
            0 <= j < elems.len() ==> value_conforms(s, *et, #[trigger] elems[j])),
    }
}

proof fn lemma_conforming_dv_fits(s: SchemaView, ty: SourceType, zf: FieldView, v: ValueView)
    requires
        zf_wf(zf),
        zip_agrees(s, ty, zf),
        value_conforms(s, ty, v),
    ensures
        dv_fits(zf, v, true),
    decreases v, 1int,
{
    match zf.arrow_field.data_type {
        DataTypeView::Struct(_) => {
            let i = ty->Struct_0;
            if let ValueView::Struct(slots) = v {
                let inner = zf.inner_fields->0;
                assert forall|j: int| 0 <= j < inner.len() implies sf_fits(
                    #[trigger] inner[j],
                    v,
                    true,
                ) by {
                    lemma_conforming_sf_fits(s, i, inner[j], v);
                }
            }
        },
        DataTypeView::List(_) => {
            if let ValueView::List(elems) = v {
                let et = ty->List_0;
                let inner = zf.inner_fields->0;
                assert forall|j: int| 0 <= j < elems.len() implies dv_fits(
                    inner[0],
                    #[trigger] elems[j],
                    true,
                ) by {
                    lemma_conforming_dv_fits(s, *et, inner[0], elems[j]);
                }
            }
        },
        _ => {},
    }
}

/// Decoding is total on conforming input: a message that conforms to
/// the source struct definition its fields were zipped from fits every
/// zipped field, so deserializing a batch of such messages never
/// reports a type mismatch.
pub proof fn lemma_conforming_sf_fits(s: SchemaView, i: usize, zf: FieldView, v: ValueView)
    requires
        i < s.structs.len(),
        zf_wf(zf),
        zip_wf(s, s.structs[i as int], zf),
        value_conforms(s, SourceType::Struct(i), v),
    ensures
        sf_fits(zf, v, true),
    decreases v, 0int,
{
    if let ValueView::Struct(slots) = v {
        let k = zf.capnp_field->0;
        if let Some(x) = slots[k as int] {
            lemma_conforming_dv_fits(s, s.structs[i as int][k as int].dtype, zf, x);
        }
    }
}

/// Batch form of the conformance law: when every zipped field is zipped
/// from the struct definition and every message conforms to it, the
/// whole batch fits — exactly the condition under which `deserialize`
/// returns a chunk.
pub proof fn lemma_conforming_batch_fits(
    s: SchemaView,
    i: usize,
    zfs: Seq<FieldView>,
    msgs: Seq<ValueView>,
)
    requires
        i < s.structs.len(),
        forall|j: int|
            0 <= j < zfs.len() ==> zf_wf(#[trigger] zfs[j]) && zip_wf(s, s.structs[i as int], zfs[j]),
        forall|m: int|
            0 <= m < msgs.len() ==> value_conforms(s, SourceType::Struct(i), #[trigger] msgs[m]),
    ensures
        forall|m: int, j: int|
            0 <= m < msgs.len() && 0 <= j < zfs.len() ==> sf_fits(
                #[trigger] zfs[j],
                #[trigger] msgs[m],
                true,
            ),
{
    assert forall|m: int, j: int|
        0 <= m < msgs.len() && 0 <= j < zfs.len() implies sf_fits(
        #[trigger] zfs[j],
        #[trigger] msgs[m],
        true,
    ) by {
        lemma_conforming_sf_fits(s, i, zfs[j], msgs[m]);
    }
}

/// Alignment law for a whole batch: every column the deserializer
/// returns, and every struct-descendant column inside it, holds exactly
/// one closed row slot per message — whichever variant-group members the
/// messages selected. The premises are exactly what `deserialize`
/// ensures of a returned chunk.
pub proof fn lemma_batch_columns_aligned(arrays: Seq<ArrayView>, n: nat)
    requires
        forall|i: int|
            0 <= i < arrays.len() ==> array_wf(#[trigger] arrays[i]) && rows(arrays[i]) == n,
    ensures
        forall|i: int|
            0 <= i < arrays.len() ==> crate::array::struct_descendants_aligned(
                #[trigger] arrays[i],
                n,
            ),
{
    assert forall|i: int| 0 <= i < arrays.len() implies crate::array::struct_descendants_aligned(
        #[trigger] arrays[i],
        n,
    ) by {
        crate::array::lemma_wf_aligned(arrays[i], n);
    }
}

} // verus!
