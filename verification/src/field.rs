//! Field zipping: walking the source schema and the mapped columnar
//! schema together, pairing each columnar field with a cached accessor
//! handle into the source schema, so that decoding never repeats
//! name-based field lookup. For enumeration leaves the backing dictionary
//! value list is cached as well.

use crate::schema::{
    af_size, af_view, afs_size, afs_view, dtype_matches, dup_arrow_field, dup_arrow_fields,
    dup_names, fields_match, lemma_afs_view, lemma_fields_match_head, strs_view, ArrowDataType,
    ArrowField, ArrowFieldView, DataTypeView,
};
use crate::source::{
    schema_wf, type_wf, SchemaView, SourceField, SourceFieldView, SourceSchema, SourceType,
};
use vstd::prelude::*;

verus! {

broadcast use {crate::schema::lemma_afs_view, vstd::std_specs::vec::axiom_vec_index_decreases};

/// One zipped field: the columnar field, the cached accessor handle into
/// the enclosing source struct (absent only for list items), the zipped
/// children of a composite, and the cached dictionary values of an
/// enumeration.
pub struct Field {
    arrow_field: ArrowField,
    capnp_field: Option<usize>,
    inner_fields: Option<Vec<Field>>,
    enumerants: Option<Vec<String>>,
}

/// Mathematical model of a zipped field.
#[verifier::ext_equal]
pub struct FieldView {
    pub arrow_field: ArrowFieldView,
    pub capnp_field: Option<usize>,
    pub inner_fields: Option<Seq<FieldView>>,
    pub enumerants: Option<Seq<Seq<char>>>,
}

pub closed spec fn field_view(f: Field) -> FieldView
    decreases f, 0int, 0int,
{
    FieldView {
        arrow_field: af_view(f.arrow_field),
        capnp_field: f.capnp_field,
        inner_fields: match f.inner_fields {
            Some(v) => Some(zfs_view_from(v, 0)),
            None => None,
        },
        enumerants: match f.enumerants {
            Some(v) => Some(strs_view(v)),
            None => None,
        },
    }
}

pub closed spec fn zfs_view_from(v: Vec<Field>, k: int) -> Seq<FieldView>
    decreases v, 1int, v.len() - k,
{
    if k < 0 || k >= v.len() {
        Seq::empty()
    } else {
        seq![field_view(v[k])] + zfs_view_from(v, k + 1)
    }
}

/// The views of a vector of zipped fields.
pub open spec fn zfs_view(v: Vec<Field>) -> Seq<FieldView> {
    zfs_view_from(v, 0)
}

/// Pointwise description of `zfs_view`.
pub broadcast proof fn lemma_zfs_view(v: Vec<Field>)
    ensures
        (#[trigger] zfs_view(v)).len() == v.len(),
        forall|i: int| 0 <= i < v.len() ==> zfs_view(v)[i] == field_view(v[i]),
{
    assert forall|k: int| 0 <= k <= v.len() implies zfs_view_from(v, k).len() == v.len() - k
        && forall|i: int| 0 <= i < zfs_view_from(v, k).len() ==> zfs_view_from(v, k)[i]
        == field_view(v[k + i]) by {
        lemma_zfs_view_from(v, k);
    }
}

proof fn lemma_zfs_view_from(v: Vec<Field>, k: int)
    requires
        0 <= k <= v.len(),
    ensures
        zfs_view_from(v, k).len() == v.len() - k,
        forall|i: int|
            0 <= i < zfs_view_from(v, k).len() ==> zfs_view_from(v, k)[i] == field_view(v[k + i]),
    decreases v.len() - k,
{
    if k < v.len() {
        lemma_zfs_view_from(v, k + 1);
    }
}

impl View for Field {
    type V = FieldView;

    open spec fn view(&self) -> FieldView {
        field_view(*self)
    }
}

/// Shape invariant of a zipped field: the zipped tree mirrors the
/// columnar tree exactly. A struct's zipped children pair one to one with
/// the columnar children and each carries an accessor; a list has exactly
/// one zipped child, the list item; a dictionary carries its value list.
pub open spec fn zf_wf(zf: FieldView) -> bool
    decreases zf,
{
    match zf.arrow_field.data_type {
        DataTypeView::Struct(children) => zf.inner_fields matches Some(inner) && inner.len()
            == children.len() && (forall|i: int|
            0 <= i < inner.len() ==> (#[trigger] inner[i]).arrow_field == children[i]
                && inner[i].capnp_field is Some && zf_wf(inner[i])),
        DataTypeView::List(child) => zf.inner_fields matches Some(inner) && inner.len() == 1
            && inner[0].arrow_field == *child && zf_wf(inner[0]),
        DataTypeView::Dictionary => zf.enumerants is Some && zf.inner_fields is None,
        _ => true,
    }
}

/// A zipped field's columnar type agrees with one source type: a struct
/// against the referenced definition (children zipped against it), a
/// list against the element type, a dictionary against an enumeration
/// whose declared constant names it caches, and a primitive against
/// exactly the source kind that maps to it.
pub open spec fn zip_agrees(s: SchemaView, ty: SourceType, zf: FieldView) -> bool
    decreases zf, 0int,
{
    match zf.arrow_field.data_type {
        DataTypeView::Struct(children) => ty matches SourceType::Struct(i) && i < s.structs.len()
            && (zf.inner_fields matches Some(inner) && forall|j: int|
            0 <= j < inner.len() ==> zip_wf(s, s.structs[i as int], #[trigger] inner[j])),
        DataTypeView::List(child) => ty matches SourceType::List(et) && (zf.inner_fields matches
            Some(inner) && inner.len() == 1 && zip_list_wf(s, *et, inner[0])),
        DataTypeView::Dictionary => ty matches SourceType::Enum(e) && e < s.enums.len()
            && zf.enumerants == Some(s.enums[e as int]),
        _ => crate::schema::prim_map(ty) == Some(zf.arrow_field.data_type),
    }
}

/// A zipped field is correct against the source fields `def` of its
/// enclosing struct: its accessor resolves to the identically named
/// source field, and its columnar type agrees with that field's type.
pub open spec fn zip_wf(s: SchemaView, def: Seq<SourceFieldView>, zf: FieldView) -> bool
    decreases zf, 1int,
{
    zf.capnp_field matches Some(k) && k < def.len() && def[k as int].name == zf.arrow_field.name
        && zip_agrees(s, def[k as int].dtype, zf)
}

/// A zipped list item is correct against the list's element type: it has
/// no accessor of its own and its columnar type agrees with the element
/// type.
pub open spec fn zip_list_wf(s: SchemaView, et: SourceType, zf: FieldView) -> bool
    decreases zf, 1int,
{
    zf.capnp_field is None && zip_agrees(s, et, zf)
}

impl Field {
    /// The columnar field this zipped field describes.
    pub fn arrow_field(&self) -> (r: &ArrowField)
        ensures
            af_view(*r) == self@.arrow_field,
    {
        &self.arrow_field
    }

    /// The cached accessor handle into the enclosing source struct.
    /// Only list items carry none.
    pub fn capnp_field(&self) -> (r: usize)
        requires
            self@.capnp_field is Some,
        ensures
            self@.capnp_field == Some(r),
    {
        match &self.capnp_field {
            Some(k) => *k,
            None => vstd::pervasive::unreached(),
        }
    }

    /// The zipped children of a nested type (struct or list).
    pub fn inner_fields(&self) -> (r: &Vec<Field>)
        requires
            self@.inner_fields is Some,
        ensures
            self@.inner_fields == Some(zfs_view(*r)),
            decreases_to!(*self => *r),
    {
        match &self.inner_fields {
            Some(v) => v,
            None => vstd::pervasive::unreached(),
        }
    }

    /// The single zipped child of a list.
    pub fn inner_field(&self) -> (r: &Field)
        requires
            self@.inner_fields matches Some(inner) && inner.len() == 1,
        ensures
            self@.inner_fields matches Some(inner) && inner[0] == r@,
            decreases_to!(*self => *r),
    {
        match &self.inner_fields {
            Some(v) => {
                proof {
                    lemma_zfs_view(*v);
                }
                if v.len() == 1 {
                    proof {
                        vstd::std_specs::vec::axiom_vec_index_decreases(*v, 0);
                    }
                    &v[0]
                } else {
                    vstd::pervasive::unreached()
                }
            },
            None => vstd::pervasive::unreached(),
        }
    }

    /// The cached dictionary values of an enumeration leaf.
    pub fn enumerants(&self) -> (r: &Vec<String>)
        requires
            self@.enumerants is Some,
        ensures
            self@.enumerants == Some(strs_view(*r)),
    {
        match &self.enumerants {
            Some(v) => v,
            None => vstd::pervasive::unreached(),
        }
    }
}

/// A fatal zipping failure: schema drift between the columnar fields and
/// the source schema, a programming error rather than a data error.
#[derive(Clone, Copy, Debug, PartialEq, Eq, Structural)]
pub enum ZipError {
    NoSuchField,
    KindMismatch,
}

/// The position of the first source field with the given name.
#[verifier::loop_isolation(false)]
fn find_field_index(def: &Vec<SourceField>, name: &String) -> (r: Option<usize>)
    ensures
        r matches Some(k) ==> k < def@.len() && (#[trigger] def@[k as int])@.name == name@
            && forall|j: int| 0 <= j < k ==> (#[trigger] def@[j])@.name != name@,
        r is None ==> forall|j: int| 0 <= j < def@.len() ==> (#[trigger] def@[j])@.name != name@,
{
    let n = def.len();
    let mut i: usize = 0;
    while i < n
        invariant
            0 <= i <= n,
            forall|j: int| 0 <= j < i ==> (#[trigger] def@[j])@.name != name@,
        decreases n - i,
    {
        if def[i].name == *name {
            return Some(i);
        }
        i += 1;
    }
    None
}


/// Whether a primitive columnar type is exactly what the source kind
/// maps to.
fn prim_kinds_agree(dt: &ArrowDataType, ty: &SourceType) -> (r: bool)
    ensures
        r == (crate::schema::prim_map(*ty) == Some(crate::schema::dt_view(*dt))),
{
    match (dt, ty) {
        (ArrowDataType::Null, SourceType::Void) => true,
        (ArrowDataType::Boolean, SourceType::Bool) => true,
        (ArrowDataType::Int8, SourceType::Int8) => true,
        (ArrowDataType::Int16, SourceType::Int16) => true,
        (ArrowDataType::Int32, SourceType::Int32) => true,
        (ArrowDataType::Int64, SourceType::Int64) => true,
        (ArrowDataType::UInt8, SourceType::UInt8) => true,
        (ArrowDataType::UInt16, SourceType::UInt16) => true,
        (ArrowDataType::UInt32, SourceType::UInt32) => true,
        (ArrowDataType::UInt64, SourceType::UInt64) => true,
        (ArrowDataType::Float32, SourceType::Float32) => true,
        (ArrowDataType::Float64, SourceType::Float64) => true,
        (ArrowDataType::Utf8, SourceType::Text) => true,
        (ArrowDataType::Binary, SourceType::Data) => true,
        (_, _) => false,
    }
}

/// Zip the mapped columnar fields of one source struct definition with
/// that definition: every columnar field is paired with the accessor of
/// the identically named source field, recursively for nested types.
/// Each zipped field keeps its columnar field exactly as given, nullable
/// flag included: the mapper already marks every field nullable, so the
/// zipped pipeline output is all-nullable without re-forcing the flag
/// here. Fails fatally on schema drift; on the mapping's own output it
/// always succeeds.
pub fn zip_fields(schema: &SourceSchema, def_idx: usize, arrow_fields: Vec<ArrowField>) -> (r:
    Result<Vec<Field>, ZipError>)
    requires
        schema_wf(schema@),
        def_idx < schema@.structs.len(),
    ensures
        r matches Ok(zfs) ==> zfs_view(zfs).len() == afs_view(arrow_fields).len() && (forall|
            i: int,
        |
            0 <= i < zfs_view(zfs).len() ==> (#[trigger] zfs_view(zfs)[i]).arrow_field == afs_view(
                arrow_fields,
            )[i] && zf_wf(zfs_view(zfs)[i]) && zip_wf(
                schema@,
                schema@.structs[def_idx as int],
                zfs_view(zfs)[i],
            )),
        fields_match(schema@, schema@.structs[def_idx as int], afs_view(arrow_fields)) ==> r is Ok,
    decreases afs_size(afs_view(arrow_fields)), 3int,
{
    proof {
        assert(afs_view(arrow_fields).skip(0) =~= afs_view(arrow_fields));
    }
    zip_fields_from(schema, def_idx, &arrow_fields, 0)
}

fn zip_fields_from(
    schema: &SourceSchema,
    def_idx: usize,
    arrow_fields: &Vec<ArrowField>,
    start: usize,
) -> (r: Result<Vec<Field>, ZipError>)
    requires
        schema_wf(schema@),
        def_idx < schema@.structs.len(),
        start <= arrow_fields@.len(),
    ensures
        r matches Ok(zfs) ==> zfs_view(zfs).len() == afs_view(*arrow_fields).len() - start && (
        forall|i: int|
            0 <= i < zfs_view(zfs).len() ==> (#[trigger] zfs_view(zfs)[i]).arrow_field == afs_view(
                *arrow_fields,
            )[start + i] && zf_wf(zfs_view(zfs)[i]) && zip_wf(
                schema@,
                schema@.structs[def_idx as int],
                zfs_view(zfs)[i],
            )),
        fields_match(
            schema@,
            schema@.structs[def_idx as int],
            afs_view(*arrow_fields).skip(start as int),
        ) ==> r is Ok,
    decreases afs_size(afs_view(*arrow_fields).skip(start as int)), 2int,
{
    let ghost avs = afs_view(*arrow_fields);
    let n = arrow_fields.len();
    if start >= n {
        let zfs: Vec<Field> = Vec::new();
        proof {
            lemma_zfs_view(zfs);
            assert(zfs_view(zfs) =~= Seq::<FieldView>::empty());
        }
        return Ok(zfs);
    }
    proof {
        assert(avs.skip(start as int).len() > 0);
        assert(avs.skip(start as int)[0] == avs[start as int]);
        assert(avs.skip(start as int).drop_first() =~= avs.skip(start as int + 1));
        assert(afs_size(avs.skip(start as int)) == af_size(avs[start as int]) + afs_size(
            avs.skip(start as int + 1),
        ));
    }
    let ghost def = schema@.structs[def_idx as int];
    let ghost matched = fields_match(schema@, def, avs.skip(start as int));
    proof {
        if matched {
            let j0 = lemma_fields_match_head(schema@, def, avs.skip(start as int));
            crate::schema::lemma_fields_match_widen(
                schema@,
                def,
                avs.skip(start as int).drop_first(),
                j0 + 1,
            );
        }
    }
    let zf = match zip_field(schema, def_idx, &arrow_fields[start]) {
        Ok(zf) => zf,
        Err(e) => {
            return Err(e);
        },
    };
    let mut rest = match zip_fields_from(schema, def_idx, arrow_fields, start + 1) {
        Ok(rest) => rest,
        Err(e) => {
            return Err(e);
        },
    };
    let ghost rest0 = rest;
    rest.insert(0, zf);
    proof {
        lemma_zfs_view(rest);
        lemma_zfs_view(rest0);
        assert(zfs_view(rest)[0] == field_view(zf));
        assert forall|j: int| 0 < j < zfs_view(rest).len() implies zfs_view(rest)[j] == zfs_view(
            rest0,
        )[j - 1] by {
            assert(rest@[j] == rest0@[j - 1]);
        }
    }
    Ok(rest)
}

/// Zip one columnar field against the source struct definition that
/// encloses it.
fn zip_field(schema: &SourceSchema, def_idx: usize, af: &ArrowField) -> (r: Result<
    Field,
    ZipError,
>)
    requires
        schema_wf(schema@),
        def_idx < schema@.structs.len(),
    ensures
        r matches Ok(zf) ==> zf@.arrow_field == af_view(*af) && zf_wf(zf@) && zip_wf(
            schema@,
            schema@.structs[def_idx as int],
            zf@,
        ),
        (exists|k: int|
            0 <= k < schema@.structs[def_idx as int].len() && (#[trigger] schema@.structs[def_idx as int][k]).name == af_view(*af).name && dtype_matches(
                schema@,
                schema@.structs[def_idx as int][k].dtype,
                af_view(*af).data_type,
            )) ==> r is Ok,
    decreases af_size(af_view(*af)), 1int,
{
    let ghost def = schema@.structs[def_idx as int];
    let k = match find_field_index(&schema.structs[def_idx].fields, &af.name) {
        Some(k) => k,
        None => {
            proof {
                assert forall|k: int| 0 <= k < def.len() implies (#[trigger] def[k]).name
                    != af_view(*af).name by {
                    assert(schema.structs@[def_idx as int].fields@[k]@.name == def[k].name);
                }
            }
            return Err(ZipError::NoSuchField);
        },
    };
    proof {
        assert(def[k as int] == schema.structs@[def_idx as int].fields@[k as int]@);
        assert(crate::source::def_names_distinct(def) && type_wf(schema@, def[k as int].dtype))
            by {
            assert(schema_wf(schema@));
            assert(type_wf(schema@, schema@.structs[def_idx as int][k as int].dtype)
                && crate::source::def_names_distinct(schema@.structs[def_idx as int]));
        }
    }
    proof {
        lemma_unique_index(def, k as int, af_view(*af).name);
    }
    let stored = dup_arrow_field(af);
    let sf = &schema.structs[def_idx].fields[k];
    match (&af.data_type, &sf.dtype) {
        (ArrowDataType::Struct(children), SourceType::Struct(i)) => {
            let dup = dup_arrow_fields(children);
            match zip_fields(schema, *i, dup) {
                Ok(inner) => {
                    let ghost innerg = inner;
                    let f = Field {
                        arrow_field: stored,
                        capnp_field: Some(k),
                        inner_fields: Some(inner),
                        enumerants: None,
                    };
                    proof {
                        lemma_zfs_view(innerg);
                        assert(af.data_type == ArrowDataType::Struct(*children));
                        assert(f@.arrow_field.data_type == DataTypeView::Struct(
                            afs_view(*children),
                        ));
                        assert(f@.inner_fields == Some(zfs_view(innerg)));
                        assert(zf_wf(f@));
                        assert(zip_wf(schema@, def, f@));
                    }
                    Ok(f)
                },
                Err(e) => {
                    proof {
                        assert(af_view(*af).data_type == DataTypeView::Struct(afs_view(*children)));
                    }
                    Err(e)
                },
            }
        },
        (ArrowDataType::List(item_af), SourceType::List(et)) => {
            let item = dup_arrow_field(&**item_af);
            proof {
                assert(af_view(*af).data_type == DataTypeView::List(
                    Box::new(af_view(**item_af)),
                ));
            }
            match zip_list_field(schema, &**et, item) {
                Ok(zf_item) => {
                    let ghost zfg = zf_item;
                    let mut inner: Vec<Field> = Vec::new();
                    inner.push(zf_item);
                    let ghost innerg = inner;
                    let f = Field {
                        arrow_field: stored,
                        capnp_field: Some(k),
                        inner_fields: Some(inner),
                        enumerants: None,
                    };
                    proof {
                        lemma_zfs_view(innerg);
                        assert(zfs_view(innerg) =~= seq![field_view(zfg)]);
                        assert(f@.inner_fields == Some(zfs_view(innerg)));
                        assert(zf_wf(f@));
                        assert(zip_wf(schema@, def, f@));
                    }
                    Ok(f)
                },
                Err(e) => Err(e),
            }
        },
        (ArrowDataType::Dictionary, SourceType::Enum(e)) => {
            let names = dup_names(&schema.enums[*e].enumerants);
            let f = Field {
                arrow_field: stored,
                capnp_field: Some(k),
                inner_fields: None,
                enumerants: Some(names),
            };
            proof {
                assert(schema@.enums[*e as int] == strs_view(schema.enums@[*e as int].enumerants));
                assert(zf_wf(f@));
                assert(zip_wf(schema@, def, f@));
            }
            Ok(f)
        },
        (ArrowDataType::Struct(_), _) => Err(ZipError::KindMismatch),
        (ArrowDataType::List(_), _) => Err(ZipError::KindMismatch),
        (ArrowDataType::Dictionary, _) => Err(ZipError::KindMismatch),
        _ => {
            if !prim_kinds_agree(&af.data_type, &sf.dtype) {
                return Err(ZipError::KindMismatch);
            }
            let f = Field {
                arrow_field: stored,
                capnp_field: Some(k),
                inner_fields: None,
                enumerants: None,
            };
            proof {
                assert(zf_wf(f@));
                assert(zip_wf(schema@, def, f@));
            }
            Ok(f)
        },
    }
}

/// Distinct field names make the found index the only one carrying the
/// name.
proof fn lemma_unique_index(def: Seq<SourceFieldView>, k: int, nm: Seq<char>)
    requires
        crate::source::def_names_distinct(def),
        0 <= k < def.len(),
        def[k].name == nm,
    ensures
        forall|k2: int| 0 <= k2 < def.len() && (#[trigger] def[k2]).name == nm ==> k2 == k,
{
    assert forall|k2: int| 0 <= k2 < def.len() && (#[trigger] def[k2]).name == nm implies k2
        == k by {
        if k2 < k {
            assert(def[k2].name != def[k].name);
        } else if k2 > k {
            assert(def[k].name != def[k2].name);
        }
    }
}

/// Zip the item description of a list against the list's source element
/// type. The item has no accessor of its own: it is read by iterating
/// the list value.
fn zip_list_field(schema: &SourceSchema, element_type: &SourceType, arrow_field: ArrowField) -> (r:
    Result<Field, ZipError>)
    requires
        schema_wf(schema@),
        type_wf(schema@, *element_type),
    ensures
        r matches Ok(zf) ==> zf@.arrow_field == af_view(arrow_field) && zf_wf(zf@) && zip_list_wf(
            schema@,
            *element_type,
            zf@,
        ),
        dtype_matches(schema@, *element_type, af_view(arrow_field).data_type) ==> r is Ok,
    decreases af_size(af_view(arrow_field)), 1int,
{
    let ghost afg = arrow_field;
    match (&arrow_field.data_type, element_type) {
        (ArrowDataType::Struct(children), SourceType::Struct(i)) => {
            proof {
                assert(af_view(afg).data_type == DataTypeView::Struct(afs_view(*children)));
            }
            let dup = dup_arrow_fields(children);
            match zip_fields(schema, *i, dup) {
                Ok(inner) => {
                    let ghost innerg = inner;
                    let f = Field {
                        arrow_field,
                        capnp_field: None,
                        inner_fields: Some(inner),
                        enumerants: None,
                    };
                    proof {
                        lemma_zfs_view(innerg);
                        assert(f@.inner_fields == Some(zfs_view(innerg)));
                        assert(zf_wf(f@));
                        assert(zip_list_wf(schema@, *element_type, f@));
                    }
                    Ok(f)
                },
                Err(e) => Err(e),
            }
        },
        (ArrowDataType::List(item_af), SourceType::List(et2)) => {
            let item = dup_arrow_field(&**item_af);
            proof {
                assert(af_view(afg).data_type == DataTypeView::List(Box::new(af_view(**item_af))));
            }
            match zip_list_field(schema, &**et2, item) {
                Ok(zf_item) => {
                    let ghost zfg = zf_item;
                    let mut inner: Vec<Field> = Vec::new();
                    inner.push(zf_item);
                    let ghost innerg = inner;
                    let f = Field {
                        arrow_field,
                        capnp_field: None,
                        inner_fields: Some(inner),
                        enumerants: None,
                    };
                    proof {
                        lemma_zfs_view(innerg);
                        assert(zfs_view(innerg) =~= seq![field_view(zfg)]);
                        assert(f@.inner_fields == Some(zfs_view(innerg)));
                        assert(zf_wf(f@));
                        assert(zip_list_wf(schema@, *element_type, f@));
                    }
                    Ok(f)
                },
                Err(e) => Err(e),
            }
        },
        (ArrowDataType::Dictionary, SourceType::Enum(e)) => {
            let names = dup_names(&schema.enums[*e].enumerants);
            let f = Field {
                arrow_field,
                capnp_field: None,
                inner_fields: None,
                enumerants: Some(names),
            };
            proof {
                assert(schema@.enums[*e as int] == strs_view(schema.enums@[*e as int].enumerants));
                assert(zf_wf(f@));
                assert(zip_list_wf(schema@, *element_type, f@));
            }
            Ok(f)
        },
        (ArrowDataType::Struct(_), _) => Err(ZipError::KindMismatch),
        (ArrowDataType::List(_), _) => Err(ZipError::KindMismatch),
        (ArrowDataType::Dictionary, _) => Err(ZipError::KindMismatch),
        _ => {
            if !prim_kinds_agree(&arrow_field.data_type, element_type) {
                return Err(ZipError::KindMismatch);
            }
            let f = Field {
                arrow_field,
                capnp_field: None,
                inner_fields: None,
                enumerants: None,
            };
            proof {
                assert(zf_wf(f@));
                assert(zip_list_wf(schema@, *element_type, f@));
            }
            Ok(f)
        },
    }
}

} // verus!
