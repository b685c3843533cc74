//! Model of the source structural schema: a runtime-introspectable
//! description of a message's fields, nesting, enumerations and variant
//! groups. Struct and enumeration types refer to their definitions by
//! index into the schema's tables, so self-referential schemas are
//! representable as finite values.

use vstd::prelude::*;

verus! {

/// The kind of one source field: a primitive scalar, text, an opaque byte
/// blob, a nested struct or enumeration (by index into the schema's
/// tables), a list of an element type, or one of the two unsupported
/// reference kinds.
pub enum SourceType {
    Void,
    Bool,
    Int8,
    Int16,
    Int32,
    Int64,
    UInt8,
    UInt16,
    UInt32,
    UInt64,
    Float32,
    Float64,
    Text,
    Data,
    Struct(usize),
    List(Box<SourceType>),
    Enum(usize),
    AnyPointer,
    Capability,
}

/// One named field of a struct definition.
pub struct SourceField {
    pub name: String,
    pub dtype: SourceType,
}

/// One struct definition: its fields in declared order.
pub struct StructDef {
    pub fields: Vec<SourceField>,
}

/// One enumeration definition: its constant names in declared order.
pub struct EnumDef {
    pub enumerants: Vec<String>,
}

/// A whole source schema: the tables that `SourceType::Struct` and
/// `SourceType::Enum` index into. The message root is a struct definition.
pub struct SourceSchema {
    pub structs: Vec<StructDef>,
    pub enums: Vec<EnumDef>,
}

/// Mathematical model of a source field: the name as a character sequence.
pub struct SourceFieldView {
    pub name: Seq<char>,
    pub dtype: SourceType,
}

/// Mathematical model of a whole schema: sequences of struct definitions
/// (each a sequence of fields) and of enumeration definitions (each a
/// sequence of constant names).
pub struct SchemaView {
    pub structs: Seq<Seq<SourceFieldView>>,
    pub enums: Seq<Seq<Seq<char>>>,
}

impl View for SourceField {
    type V = SourceFieldView;

    open spec fn view(&self) -> SourceFieldView {
        SourceFieldView { name: self.name@, dtype: self.dtype }
    }
}

impl View for StructDef {
    type V = Seq<SourceFieldView>;

    open spec fn view(&self) -> Seq<SourceFieldView> {
        self.fields@.map_values(|f: SourceField| f@)
    }
}

impl View for EnumDef {
    type V = Seq<Seq<char>>;

    open spec fn view(&self) -> Seq<Seq<char>> {
        self.enumerants@.map_values(|e: String| e@)
    }
}

impl View for SourceSchema {
    type V = SchemaView;

    open spec fn view(&self) -> SchemaView {
        SchemaView {
            structs: self.structs@.map_values(|d: StructDef| d@),
            enums: self.enums@.map_values(|d: EnumDef| d@),
        }
    }
}

/// A type is well formed when every struct or enumeration index in it
/// points into the schema's tables.
pub open spec fn type_wf(s: SchemaView, ty: SourceType) -> bool
    decreases ty,
{
    match ty {
        SourceType::Struct(i) => i < s.structs.len(),
        SourceType::Enum(i) => i < s.enums.len(),
        SourceType::List(inner) => type_wf(s, *inner),
        _ => true,
    }
}

/// Field names are distinct within one struct definition.
pub open spec fn def_names_distinct(def: Seq<SourceFieldView>) -> bool {
    forall|i: int, j: int| 0 <= i < j < def.len() ==> def[i].name != def[j].name
}

/// A schema is well formed when every field's type is well formed and the
/// field names of each struct definition are distinct.
pub open spec fn schema_wf(s: SchemaView) -> bool {
    forall|i: int, j: int|
        0 <= i < s.structs.len() && 0 <= j < s.structs[i].len() ==> type_wf(
            s,
            #[trigger] s.structs[i][j].dtype,
        ) && def_names_distinct(s.structs[i])
}

/// The struct definition at the end of a chain of list wrappers, if the
/// chain ends in a struct type.
pub open spec fn spine_struct(ty: SourceType) -> Option<usize>
    decreases ty,
{
    match ty {
        SourceType::Struct(i) => Some(i),
        SourceType::List(inner) => spine_struct(*inner),
        _ => None,
    }
}

/// The chain of list wrappers ends in one of the two unsupported
/// reference kinds.
pub open spec fn unsupported_spine(ty: SourceType) -> bool
    decreases ty,
{
    match ty {
        SourceType::AnyPointer => true,
        SourceType::Capability => true,
        SourceType::List(inner) => unsupported_spine(*inner),
        _ => false,
    }
}

/// A flat type reaches, through list wrappers only, a primitive or an
/// enumeration: mapping it touches no struct definition and cannot fail.
pub open spec fn flat_type(ty: SourceType) -> bool
    decreases ty,
{
    match ty {
        SourceType::Struct(_) => false,
        SourceType::AnyPointer => false,
        SourceType::Capability => false,
        SourceType::List(inner) => flat_type(*inner),
        _ => true,
    }
}

/// Structural height of a type term.
pub open spec fn type_height(ty: SourceType) -> nat
    decreases ty,
{
    match ty {
        SourceType::List(inner) => type_height(*inner) + 1,
        _ => 0,
    }
}

/// A flat type has neither a struct nor an unsupported kind at the end
/// of its list nesting.
pub proof fn lemma_flat_spine(ty: SourceType)
    requires
        flat_type(ty),
    ensures
        spine_struct(ty) is None,
        !unsupported_spine(ty),
    decreases ty,
{
    if let SourceType::List(inner) = ty {
        lemma_flat_spine(*inner);
    }
}

/// The type holds no unsupported reference kind along its list nesting.
/// Struct contents are covered schema-wide by `schema_supported`.
pub open spec fn type_supported(ty: SourceType) -> bool
    decreases ty,
{
    match ty {
        SourceType::AnyPointer => false,
        SourceType::Capability => false,
        SourceType::List(inner) => type_supported(*inner),
        _ => true,
    }
}

/// No field anywhere in the schema has an unsupported kind: mapping such
/// a schema never aborts, whatever empty structs or self-reference it
/// holds.
pub open spec fn schema_supported(s: SchemaView) -> bool {
    forall|i: int, j: int|
        0 <= i < s.structs.len() && 0 <= j < s.structs[i].len() ==> type_supported(
            (#[trigger] s.structs[i][j]).dtype,
        )
}

/// The names of one struct definition's fields, in declared order.
pub open spec fn def_names(def: Seq<SourceFieldView>) -> Seq<Seq<char>> {
    def.map_values(|f: SourceFieldView| f.name)
}

/// All field names of all struct definitions, concatenated.
pub open spec fn structs_names(ss: Seq<Seq<SourceFieldView>>) -> Seq<Seq<char>>
    decreases ss.len(),
{
    if ss.len() == 0 {
        Seq::empty()
    } else {
        def_names(ss[0]) + structs_names(ss.drop_first())
    }
}

/// All field names that occur anywhere in the schema.
pub open spec fn names_seq(s: SchemaView) -> Seq<Seq<char>> {
    structs_names(s.structs)
}

/// Every field name of every struct definition occurs in `structs_names`.
pub proof fn lemma_structs_names_contains(ss: Seq<Seq<SourceFieldView>>, i: int, j: int)
    requires
        0 <= i < ss.len(),
        0 <= j < ss[i].len(),
    ensures
        structs_names(ss).contains(ss[i][j].name),
    decreases i,
{
    if i == 0 {
        assert(structs_names(ss)[j] == ss[0][j].name);
    } else {
        lemma_structs_names_contains(ss.drop_first(), i - 1, j);
        let rest = structs_names(ss.drop_first());
        let k = choose|k: int| 0 <= k < rest.len() && rest[k] == ss[i][j].name;
        assert(structs_names(ss)[def_names(ss[0]).len() + k] == ss[i][j].name);
    }
}

} // verus!
