//! Field access on a decoded struct value through a cached accessor
//! handle: the hot-path read that replaces name-based lookup during
//! decoding.

use crate::field::Field;
use crate::value::{lemma_slots_view, Value, ValueView};
use vstd::prelude::*;

verus! {

/// Read the slot of one zipped field from a struct value through the
/// field's cached accessor. `None` means the field is not present in
/// this instance: it was never set, or another member of its variant
/// group was selected; the caller then records a null row instead.
pub fn read_from_capnp_struct<'a>(struct_reader: &'a Value, field: &Field) -> (r: Option<
    &'a Value,
>)
    requires
        field@.capnp_field is Some,
        struct_reader@ matches ValueView::Struct(slots) && field@.capnp_field matches Some(k) && (
        k as int) < slots.len(),
    ensures
        struct_reader@ matches ValueView::Struct(slots) && field@.capnp_field matches Some(k)
            && (match r {
            Some(v) => slots[k as int] == Some(v@),
            None => slots[k as int] is None,
        }),
{
    let k = field.capnp_field();
    match struct_reader {
        Value::Struct(slots) => {
            proof {
                lemma_slots_view(*slots);
            }
            match &slots[k] {
                Some(v) => Some(v),
                None => None,
            }
        },
        _ => vstd::pervasive::unreached(),
    }
}

} // verus!
