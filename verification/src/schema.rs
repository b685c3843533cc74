//! Schema mapping: translation of a source structural schema into a
//! columnar schema, with recursion limiting, empty-struct rejection and
//! enumeration-to-dictionary mapping.

use crate::source::{
    flat_type, lemma_structs_names_contains, names_seq, schema_supported, schema_wf, spine_struct,
    type_height, type_supported, type_wf, unsupported_spine, SchemaView, SourceField,
    SourceFieldView, SourceSchema, SourceType,
};
use vstd::prelude::*;

verus! {

broadcast use {
    vstd::std_specs::vec::axiom_vec_index_decreases,
    vstd::prelude::Seq::add_empty_left,
    vstd::prelude::Seq::add_empty_right,
};

/// The logical type of one columnar field. `Dictionary` stands for a
/// dictionary-encoded string column with 16-bit unsigned indices.
#[derive(Debug, PartialEq)]
pub enum ArrowDataType {
    Null,
    Boolean,
    Int8,
    Int16,
    Int32,
    Int64,
    UInt8,
    UInt16,
    UInt32,
    UInt64,
    Float32,
    Float64,
    Utf8,
    Binary,
    Struct(Vec<ArrowField>),
    List(Box<ArrowField>),
    Dictionary,
}

/// One columnar field: name, logical type and nullable flag.
#[derive(Debug, PartialEq)]
pub struct ArrowField {
    pub name: String,
    pub data_type: ArrowDataType,
    pub nullable: bool,
}

/// Mathematical model of a columnar logical type.
pub enum DataTypeView {
    Null,
    Boolean,
    Int8,
    Int16,
    Int32,
    Int64,
    UInt8,
    UInt16,
    UInt32,
    UInt64,
    Float32,
    Float64,
    Utf8,
    Binary,
    Struct(Seq<ArrowFieldView>),
    List(Box<ArrowFieldView>),
    Dictionary,
}

/// Mathematical model of a columnar field.
pub struct ArrowFieldView {
    pub name: Seq<char>,
    pub data_type: DataTypeView,
    pub nullable: bool,
}

pub open spec fn dt_view(dt: ArrowDataType) -> DataTypeView
    decreases dt, 0int, 0int,
{
    match dt {
        ArrowDataType::Null => DataTypeView::Null,
        ArrowDataType::Boolean => DataTypeView::Boolean,
        ArrowDataType::Int8 => DataTypeView::Int8,
        ArrowDataType::Int16 => DataTypeView::Int16,
        ArrowDataType::Int32 => DataTypeView::Int32,
        ArrowDataType::Int64 => DataTypeView::Int64,
        ArrowDataType::UInt8 => DataTypeView::UInt8,
        ArrowDataType::UInt16 => DataTypeView::UInt16,
        ArrowDataType::UInt32 => DataTypeView::UInt32,
        ArrowDataType::UInt64 => DataTypeView::UInt64,
        ArrowDataType::Float32 => DataTypeView::Float32,
        ArrowDataType::Float64 => DataTypeView::Float64,
        ArrowDataType::Utf8 => DataTypeView::Utf8,
        ArrowDataType::Binary => DataTypeView::Binary,
        ArrowDataType::Struct(fields) => DataTypeView::Struct(afs_view_from(fields, 0)),
        ArrowDataType::List(inner) => DataTypeView::List(Box::new(af_view(*inner))),
        ArrowDataType::Dictionary => DataTypeView::Dictionary,
    }
}

pub open spec fn afs_view_from(v: Vec<ArrowField>, k: int) -> Seq<ArrowFieldView>
    decreases v, 1int, v.len() - k,
{
    if k < 0 || k >= v.len() {
        Seq::empty()
    } else {
        seq![af_view(v[k])] + afs_view_from(v, k + 1)
    }
}

pub open spec fn af_view(f: ArrowField) -> ArrowFieldView
    decreases f, 0int, 0int,
{
    ArrowFieldView { name: f.name@, data_type: dt_view(f.data_type), nullable: f.nullable }
}

/// The views of a vector of columnar fields.
pub open spec fn afs_view(v: Vec<ArrowField>) -> Seq<ArrowFieldView> {
    afs_view_from(v, 0)
}

/// Pointwise description of `afs_view`.
pub broadcast proof fn lemma_afs_view(v: Vec<ArrowField>)
    ensures
        (#[trigger] afs_view(v)).len() == v.len(),
        forall|i: int| 0 <= i < v.len() ==> afs_view(v)[i] == af_view(v[i]),
{
    assert forall|k: int| 0 <= k <= v.len() implies afs_view_from(v, k).len() == v.len() - k
        && forall|i: int| 0 <= i < afs_view_from(v, k).len() ==> afs_view_from(v, k)[i] == af_view(
        v[k + i],
    ) by {
        lemma_afs_view_from(v, k);
    }
}

proof fn lemma_afs_view_from(v: Vec<ArrowField>, k: int)
    requires
        0 <= k <= v.len(),
    ensures
        afs_view_from(v, k).len() == v.len() - k,
        forall|i: int|
            0 <= i < afs_view_from(v, k).len() ==> afs_view_from(v, k)[i] == af_view(v[k + i]),
    decreases v.len() - k,
{
    if k < v.len() {
        lemma_afs_view_from(v, k + 1);
    }
}

impl View for ArrowDataType {
    type V = DataTypeView;

    open spec fn view(&self) -> DataTypeView {
        dt_view(*self)
    }
}

impl View for ArrowField {
    type V = ArrowFieldView;

    open spec fn view(&self) -> ArrowFieldView {
        af_view(*self)
    }
}

/// The columnar type that one primitive source kind maps to; `None` for
/// the composite and unsupported kinds.
pub open spec fn prim_map(ty: SourceType) -> Option<DataTypeView> {
    match ty {
        SourceType::Void => Some(DataTypeView::Null),
        SourceType::Bool => Some(DataTypeView::Boolean),
        SourceType::Int8 => Some(DataTypeView::Int8),
        SourceType::Int16 => Some(DataTypeView::Int16),
        SourceType::Int32 => Some(DataTypeView::Int32),
        SourceType::Int64 => Some(DataTypeView::Int64),
        SourceType::UInt8 => Some(DataTypeView::UInt8),
        SourceType::UInt16 => Some(DataTypeView::UInt16),
        SourceType::UInt32 => Some(DataTypeView::UInt32),
        SourceType::UInt64 => Some(DataTypeView::UInt64),
        SourceType::Float32 => Some(DataTypeView::Float32),
        SourceType::Float64 => Some(DataTypeView::Float64),
        SourceType::Text => Some(DataTypeView::Utf8),
        SourceType::Data => Some(DataTypeView::Binary),
        _ => None,
    }
}

/// A columnar type is a correct mapping of a source type: primitives map
/// one to one, an enumeration maps to a dictionary, a list wraps the
/// mapping of its element type under the single child field named `item`,
/// and a struct's children pair up, in order, with a subselection of the
/// source definition's fields.
pub open spec fn dtype_matches(s: SchemaView, ty: SourceType, dt: DataTypeView) -> bool
    decreases dt,
{
    match dt {
        DataTypeView::Struct(children) => ty matches SourceType::Struct(i) && i < s.structs.len()
            && fields_match(s, s.structs[i as int], children),
        DataTypeView::List(child) => ty matches SourceType::List(et) && child.name == "item"@
            && child.nullable && dtype_matches(s, *et, child.data_type),
        DataTypeView::Dictionary => ty matches SourceType::Enum(i) && i < s.enums.len(),
        _ => prim_map(ty) == Some(dt),
    }
}

/// The columnar fields `children` pair up, in order, with a subselection
/// of the source fields `def`: every child carries the name of its source
/// field, is nullable, and its type is a correct mapping of the source
/// field's type. Source fields may be skipped (they were dropped during
/// mapping), but never reordered or invented.
pub open spec fn fields_match(
    s: SchemaView,
    def: Seq<SourceFieldView>,
    children: Seq<ArrowFieldView>,
) -> bool
    decreases children, def.len(),
{
    if children.len() == 0 {
        true
    } else if def.len() == 0 {
        false
    } else {
        (children[0].name == def[0].name && children[0].nullable && dtype_matches(
            s,
            def[0].dtype,
            children[0].data_type,
        ) && fields_match(s, def.drop_first(), children.drop_first())) || fields_match(
            s,
            def.drop_first(),
            children,
        )
    }
}

/// How many times a struct (or list-of-struct) field of one name may be
/// expanded before the mapping stops expanding it.
pub const MAX_RECURSIVE_DEPTH: u32 = 3;

/// A schema-mapping failure for one field or for the whole schema.
/// `EmptyStruct` and `RecursionLimitExceeded` are per-field and
/// recoverable: the field is dropped and a diagnostic recorded.
/// `UnsupportedType` is fatal: mapping of the whole schema aborts.
#[derive(Clone, Copy, Debug, PartialEq, Eq, Structural)]
pub enum MapError {
    EmptyStruct,
    RecursionLimitExceeded,
    UnsupportedType,
}

/// A record of one field dropped during mapping, and why.
#[derive(Debug)]
pub struct Diagnostic {
    pub field_name: String,
    pub error: MapError,
}

/// Mathematical model of a diagnostic.
pub struct DiagView {
    pub field_name: Seq<char>,
    pub error: MapError,
}

impl View for Diagnostic {
    type V = DiagView;

    open spec fn view(&self) -> DiagView {
        DiagView { field_name: self.field_name@, error: self.error }
    }
}

/// One per-name expansion counter.
pub struct DepthEntry {
    pub name: String,
    pub count: u32,
}

/// The per-field-name occurrence counters threaded through the recursive
/// mapping calls. Explicit, scoped state: two unrelated mappings cannot
/// interfere with each other.
pub struct RecursionDepths {
    pub entries: Vec<DepthEntry>,
}

impl RecursionDepths {
    /// An empty counter table.
    pub fn new() -> (r: RecursionDepths)
        ensures
            r.entries@ == Seq::<DepthEntry>::empty(),
    {
        RecursionDepths { entries: Vec::new() }
    }
}

/// The counter recorded for `name`: 0 when no entry holds the name.
pub open spec fn count_of(s: Seq<DepthEntry>, name: Seq<char>) -> int
    decreases s.len(),
{
    if s.len() == 0 {
        0
    } else if s[0].name@ == name {
        s[0].count as int
    } else {
        count_of(s.drop_first(), name)
    }
}

/// The position of the first entry holding `name`, or -1.
pub open spec fn find_entry(s: Seq<DepthEntry>, name: Seq<char>) -> int
    decreases s.len(),
{
    if s.len() == 0 {
        -1
    } else if s[0].name@ == name {
        0
    } else {
        let r = find_entry(s.drop_first(), name);
        if r == -1 {
            -1
        } else {
            r + 1
        }
    }
}

/// What one update does to the whole counter table: the first entry
/// holding the name is incremented, or a fresh entry at 1 is appended.
pub open spec fn spec_bump_entries(d: Seq<DepthEntry>, name: String) -> Seq<DepthEntry> {
    let i = find_entry(d, name@);
    if i == -1 {
        d.push(DepthEntry { name, count: 1 })
    } else {
        d.update(
            i,
            DepthEntry { name: d[i].name, count: spec_bump_count(d[i].count as int) as u32 },
        )
    }
}

proof fn lemma_find_entry_first_match(s: Seq<DepthEntry>, i: int, name: Seq<char>)
    requires
        0 <= i < s.len(),
        forall|k: int| 0 <= k < i ==> (#[trigger] s[k]).name@ != name,
        s[i].name@ == name,
    ensures
        find_entry(s, name) == i,
    decreases i,
{
    if i > 0 {
        lemma_find_entry_first_match(s.drop_first(), i - 1, name);
    }
}

proof fn lemma_find_entry_no_match(s: Seq<DepthEntry>, name: Seq<char>)
    requires
        forall|k: int| 0 <= k < s.len() ==> (#[trigger] s[k]).name@ != name,
    ensures
        find_entry(s, name) == -1,
    decreases s.len(),
{
    if s.len() > 0 {
        lemma_find_entry_no_match(s.drop_first(), name);
    }
}

/// The names of the entries, in order.
pub open spec fn entry_names(s: Seq<DepthEntry>) -> Seq<Seq<char>> {
    s.map_values(|e: DepthEntry| e.name@)
}

/// Some entry holds `name`.
pub open spec fn has_name(s: Seq<DepthEntry>, name: Seq<char>) -> bool {
    entry_names(s).contains(name)
}

/// The sum of all counters, each clipped at one past the recursion
/// bound.
pub open spec fn sum_clipped(s: Seq<DepthEntry>) -> int
    decreases s.len(),
{
    if s.len() == 0 {
        0
    } else {
        clip(s[0].count as int) + sum_clipped(s.drop_first())
    }
}

/// What one update does to a counter: the exact increment the original
/// arithmetic performs, held back only at the counter type's limit.
pub open spec fn spec_bump_count(c: int) -> int {
    if c < u32::MAX {
        c + 1
    } else {
        c
    }
}

/// A counter clipped at one past the recursion bound: all the recursion
/// limiter ever reads of a counter, and the units the termination budget
/// is charged in.
pub open spec fn clip(c: int) -> int {
    if c > MAX_RECURSIVE_DEPTH + 1 {
        MAX_RECURSIVE_DEPTH + 1
    } else {
        c
    }
}

/// The counter table is well formed against a schema: entry names are
/// distinct field names of the schema.
pub open spec fn depths_wf(s: SchemaView, d: RecursionDepths) -> bool {
    &&& entry_names(d.entries@).no_duplicates()
    &&& forall|i: int|
        0 <= i < d.entries@.len() ==> names_seq(s).contains((#[trigger] d.entries@[i]).name@)
}

/// The termination budget of the mapping: every clipped counter can rise
/// at most to one past the bound, and there are at most as many counters
/// as the schema has field names.
pub open spec fn spec_budget(s: SchemaView, entries: Seq<DepthEntry>) -> int {
    (MAX_RECURSIVE_DEPTH + 1) * names_seq(s).len() - sum_clipped(entries)
}

proof fn lemma_sum_clipped_le(s: Seq<DepthEntry>)
    ensures
        sum_clipped(s) <= (MAX_RECURSIVE_DEPTH + 1) * s.len(),
    decreases s.len(),
{
    if s.len() > 0 {
        lemma_sum_clipped_le(s.drop_first());
    }
}

/// Under well-formedness the budget is never negative.
pub proof fn lemma_budget_nonneg(s: SchemaView, d: RecursionDepths)
    requires
        depths_wf(s, d),
    ensures
        spec_budget(s, d.entries@) >= 0,
{
    broadcast use vstd::seq_lib::group_seq_properties;

    let names = entry_names(d.entries@);
    lemma_sum_clipped_le(d.entries@);
    names.unique_seq_to_set();
    assert forall|x: Seq<char>| names.to_set().contains(x) implies names_seq(s).to_set().contains(
        x,
    ) by {
        let i = choose|i: int| 0 <= i < names.len() && names[i] == x;
        assert(d.entries@[i].name@ == x);
    }
    vstd::seq_lib::seq_to_set_is_finite::<Seq<char>>(names_seq(s));
    vstd::set_lib::lemma_len_subset(names.to_set(), names_seq(s).to_set());
    names_seq(s).lemma_cardinality_of_set();
    assert(sum_clipped(d.entries@) <= (MAX_RECURSIVE_DEPTH + 1) * d.entries@.len());
    assert(d.entries@.len() <= names_seq(s).len());
    assert((MAX_RECURSIVE_DEPTH + 1) * d.entries@.len() <= (MAX_RECURSIVE_DEPTH + 1) * names_seq(
        s,
    ).len()) by (nonlinear_arith)
        requires
            d.entries@.len() <= names_seq(s).len(),
    ;
}

proof fn lemma_count_of_first_match(s: Seq<DepthEntry>, i: int, name: Seq<char>)
    requires
        0 <= i < s.len(),
        forall|k: int| 0 <= k < i ==> (#[trigger] s[k]).name@ != name,
        s[i].name@ == name,
    ensures
        count_of(s, name) == s[i].count,
    decreases i,
{
    if i > 0 {
        lemma_count_of_first_match(s.drop_first(), i - 1, name);
    }
}

proof fn lemma_count_of_no_match(s: Seq<DepthEntry>, name: Seq<char>)
    requires
        forall|k: int| 0 <= k < s.len() ==> (#[trigger] s[k]).name@ != name,
    ensures
        count_of(s, name) == 0,
    decreases s.len(),
{
    if s.len() > 0 {
        lemma_count_of_no_match(s.drop_first(), name);
    }
}

proof fn lemma_count_of_update_other(s: Seq<DepthEntry>, i: int, e: DepthEntry, n: Seq<char>)
    requires
        0 <= i < s.len(),
        e.name@ == s[i].name@,
        n != s[i].name@,
    ensures
        count_of(s.update(i, e), n) == count_of(s, n),
    decreases i,
{
    if i == 0 {
        assert(s.update(0, e).drop_first() =~= s.drop_first());
    } else {
        assert(s.update(i, e).drop_first() =~= s.drop_first().update(i - 1, e));
        lemma_count_of_update_other(s.drop_first(), i - 1, e, n);
    }
}

proof fn lemma_sum_clipped_update(s: Seq<DepthEntry>, i: int, e: DepthEntry)
    requires
        0 <= i < s.len(),
    ensures
        sum_clipped(s.update(i, e)) == sum_clipped(s) - clip(s[i].count as int) + clip(
            e.count as int,
        ),
    decreases i,
{
    if i == 0 {
        assert(s.update(0, e).drop_first() =~= s.drop_first());
    } else {
        assert(s.update(i, e).drop_first() =~= s.drop_first().update(i - 1, e));
        lemma_sum_clipped_update(s.drop_first(), i - 1, e);
    }
}

proof fn lemma_count_of_push_new(s: Seq<DepthEntry>, e: DepthEntry)
    requires
        forall|k: int| 0 <= k < s.len() ==> (#[trigger] s[k]).name@ != e.name@,
    ensures
        count_of(s.push(e), e.name@) == e.count,
    decreases s.len(),
{
    let p = s.push(e);
    if s.len() == 0 {
        assert(p[0] == e);
        assert(count_of(p, e.name@) == p[0].count);
    } else {
        assert(p[0] == s[0]);
        assert(p.drop_first() =~= s.drop_first().push(e));
        lemma_count_of_push_new(s.drop_first(), e);
        assert(count_of(p, e.name@) == count_of(p.drop_first(), e.name@));
    }
}

proof fn lemma_count_of_push_other(s: Seq<DepthEntry>, e: DepthEntry, n: Seq<char>)
    requires
        n != e.name@,
    ensures
        count_of(s.push(e), n) == count_of(s, n),
    decreases s.len(),
{
    let p = s.push(e);
    if s.len() == 0 {
        assert(p[0] == e);
        assert(p.drop_first() =~= Seq::<DepthEntry>::empty());
        assert(count_of(p, n) == count_of(p.drop_first(), n));
        assert(count_of(s, n) == 0);
    } else {
        assert(p[0] == s[0]);
        assert(p.drop_first() =~= s.drop_first().push(e));
        lemma_count_of_push_other(s.drop_first(), e, n);
        if s[0].name@ == n {
            assert(count_of(p, n) == p[0].count);
        } else {
            assert(count_of(p, n) == count_of(p.drop_first(), n));
            assert(count_of(s, n) == count_of(s.drop_first(), n));
        }
    }
}

proof fn lemma_sum_clipped_push(s: Seq<DepthEntry>, e: DepthEntry)
    ensures
        sum_clipped(s.push(e)) == sum_clipped(s) + clip(e.count as int),
    decreases s.len(),
{
    let p = s.push(e);
    if s.len() == 0 {
        assert(p[0] == e);
        assert(p.drop_first() =~= Seq::<DepthEntry>::empty());
        assert(sum_clipped(p) == clip(p[0].count as int) + sum_clipped(p.drop_first()));
    } else {
        assert(p[0] == s[0]);
        assert(p.drop_first() =~= s.drop_first().push(e));
        lemma_sum_clipped_push(s.drop_first(), e);
        assert(sum_clipped(p) == clip(p[0].count as int) + sum_clipped(p.drop_first()));
    }
}

/// One counter was bumped: the counter for `name` rose by
/// `spec_bump_count`, every other counter is unchanged, exactly the name
/// was added, distinctness is preserved, and the clipped sum rose by one
/// unless the counter was already past the recursion bound.
pub open spec fn bumped(pre: Seq<DepthEntry>, post: Seq<DepthEntry>, name: Seq<char>) -> bool {
    &&& count_of(post, name) == spec_bump_count(count_of(pre, name))
    &&& forall|n: Seq<char>| n != name ==> count_of(post, n) == count_of(pre, n)
    &&& forall|n: Seq<char>| has_name(post, n) <==> has_name(pre, n) || n == name
    &&& entry_names(pre).no_duplicates() ==> entry_names(post).no_duplicates()
    &&& forall|k: int|
        0 <= k < post.len() ==> has_name(pre, (#[trigger] post[k]).name@) || post[k].name@ == name
    &&& sum_clipped(post) == sum_clipped(pre) + (if count_of(pre, name) <= MAX_RECURSIVE_DEPTH {
        1int
    } else {
        0int
    })
}

/// Record one more expansion of the field name: a fresh name starts at 1,
/// a known name is incremented. The counter is wide enough that the
/// increment is exact for any schema walk this machine can perform; it
/// stops only at the counter type's own limit.
#[verifier::loop_isolation(false)]
pub fn update_recusion_depth(name: &String, recursion_depth: &mut RecursionDepths)
    ensures
        final(recursion_depth).entries@ == spec_bump_entries(old(recursion_depth).entries@, *name),
        bumped(old(recursion_depth).entries@, final(recursion_depth).entries@, name@),
{
    let ghost s0 = recursion_depth.entries@;
    let n = recursion_depth.entries.len();
    let mut i: usize = 0;
    while i < n
        invariant
            n == recursion_depth.entries@.len(),
            *recursion_depth == *old(recursion_depth),
            0 <= i <= n,
            forall|k: int| 0 <= k < i ==> (#[trigger] recursion_depth.entries@[k]).name@ != name@,
        decreases n - i,
    {
        if recursion_depth.entries[i].name == *name {
            proof {
                assert(i < s0.len());
                assert(s0[i as int].name@ == name@);
            }
            let e = recursion_depth.entries.remove(i);
            let c: u32 = if e.count < u32::MAX {
                e.count + 1
            } else {
                e.count
            };
            let e2 = DepthEntry { name: e.name, count: c };
            recursion_depth.entries.insert(i, e2);
            proof {
                let s1 = recursion_depth.entries@;
                assert(s1 =~= s0.update(i as int, e2));
                lemma_find_entry_first_match(s0, i as int, name@);
                assert(e2 == (DepthEntry {
                    name: s0[i as int].name,
                    count: spec_bump_count(s0[i as int].count as int) as u32,
                }));
                lemma_count_of_first_match(s0, i as int, name@);
                lemma_count_of_first_match(s1, i as int, name@);
                assert forall|nm: Seq<char>| nm != name@ implies count_of(s1, nm) == count_of(
                    s0,
                    nm,
                ) by {
                    lemma_count_of_update_other(s0, i as int, e2, nm);
                }
                lemma_sum_clipped_update(s0, i as int, e2);
                assert(entry_names(s1) =~= entry_names(s0));
                assert(entry_names(s0)[i as int] == name@);
                assert(has_name(s0, name@));
                assert forall|k: int| 0 <= k < s1.len() implies has_name(
                    s0,
                    (s1[k]).name@,
                ) by {
                    assert(entry_names(s0)[k] == s0[k].name@);
                    assert(s1[k].name@ == s0[k].name@);
                }
            }
            return ;
        }
        i += 1;
    }
    proof {
        lemma_count_of_no_match(s0, name@);
        lemma_find_entry_no_match(s0, name@);
    }
    let e = DepthEntry { name: name.clone(), count: 1 };
    recursion_depth.entries.push(e);
    proof {
        let s1 = recursion_depth.entries@;
        assert(e == (DepthEntry { name: *name, count: 1u32 }));
        lemma_count_of_push_new(s0, e);
        assert forall|nm: Seq<char>| nm != name@ implies count_of(s1, nm) == count_of(s0, nm) by {
            lemma_count_of_push_other(s0, e, nm);
        }
        lemma_sum_clipped_push(s0, e);
        assert(entry_names(s1) =~= entry_names(s0).push(name@));
        assert forall|nm: Seq<char>| has_name(s1, nm) implies (has_name(s0, nm) || nm
            == name@) by {
            let k = choose|k: int| 0 <= k < entry_names(s1).len() && entry_names(s1)[k] == nm;
            if k < s0.len() {
                assert(entry_names(s0)[k] == nm);
            }
        }
        assert forall|nm: Seq<char>| has_name(s0, nm) implies has_name(s1, nm) by {
            let k = choose|k: int| 0 <= k < entry_names(s0).len() && entry_names(s0)[k] == nm;
            assert(entry_names(s1)[k] == nm);
        }
        assert(entry_names(s1)[s0.len() as int] == name@);
        assert forall|k: int| 0 <= k < s1.len() implies (has_name(s0, (s1[k]).name@)
            || (s1[k]).name@ == name@) by {
            if k < s0.len() {
                assert(s1[k] == s0[k]);
                assert(entry_names(s0)[k] == s0[k].name@);
            } else {
                assert(s1[k] == e);
            }
        }
    }
}

impl RecursionDepths {
    /// The counter recorded for a name, 0 when the name has no entry.
    #[verifier::loop_isolation(false)]
    pub fn get_count(&self, name: &String) -> (c: u32)
        ensures
            c as int == count_of(self.entries@, name@),
    {
        let n = self.entries.len();
        let mut i: usize = 0;
        while i < n
            invariant
                0 <= i <= n,
                forall|k: int| 0 <= k < i ==> (#[trigger] self.entries@[k]).name@ != name@,
            decreases n - i,
        {
            if self.entries[i].name == *name {
                proof {
                    lemma_count_of_first_match(self.entries@, i as int, name@);
                }
                return self.entries[i].count;
            }
            i += 1;
        }
        proof {
            lemma_count_of_no_match(self.entries@, name@);
        }
        0
    }
}

/// The chain of list wrappers ends in a struct type.
fn has_struct_spine(ty: &SourceType) -> (r: bool)
    ensures
        r == (spine_struct(*ty) is Some),
    decreases *ty,
{
    match ty {
        SourceType::Struct(_) => true,
        SourceType::List(inner) => has_struct_spine(&**inner),
        _ => false,
    }
}

/// For a struct field, or a field whose list nesting ends in a struct,
/// record one more expansion of the field's name and report whether the
/// recursion bound is now exceeded; any other field is left alone.
fn limit_recursion(name: &String, dtype: &SourceType, recursion_depth: &mut RecursionDepths) -> (r:
    bool)
    ensures
        spine_struct(*dtype) is Some ==> bumped(
            old(recursion_depth).entries@,
            final(recursion_depth).entries@,
            name@,
        ) && final(recursion_depth).entries@ == spec_bump_entries(
            old(recursion_depth).entries@,
            *name,
        ) && r == (count_of(final(recursion_depth).entries@, name@) > MAX_RECURSIVE_DEPTH),
        spine_struct(*dtype) is None ==> *final(recursion_depth) == *old(recursion_depth) && r == false,
{
    if has_struct_spine(dtype) {
        update_recusion_depth(name, recursion_depth);
        recursion_depth.get_count(name) > MAX_RECURSIVE_DEPTH
    } else {
        false
    }
}

/// Rank of a type in the mapping's termination order: expanding a type
/// whose list nesting ends in a struct is charged to the budget first.
pub open spec fn dtype_rank(ty: SourceType) -> int {
    if spine_struct(ty) is Some {
        5
    } else {
        1
    }
}

/// The field name `nm` is accounted for: it appears among the mapped
/// columnar fields, or a diagnostic recorded from position `lo` on
/// names it as dropped.
pub open spec fn name_accounted(
    children: Seq<ArrowFieldView>,
    diags: Seq<Diagnostic>,
    lo: int,
    nm: Seq<char>,
) -> bool {
    (exists|j: int| 0 <= j < children.len() && (#[trigger] children[j]).name == nm) || (exists|
        j: int|
        lo <= j < diags.len() && (#[trigger] diags[j]).field_name@ == nm)
}

/// Two consecutive stretches of recorded diagnostics, neither holding a
/// fatal error, make one such stretch.
proof fn lemma_diag_window_compose(d0: Seq<Diagnostic>, d1: Seq<Diagnostic>, d2: Seq<Diagnostic>)
    requires
        d0.is_prefix_of(d1),
        d1.is_prefix_of(d2),
        forall|j: int|
            d0.len() <= j < d1.len() ==> (#[trigger] d1[j]).error != MapError::UnsupportedType,
        forall|j: int|
            d1.len() <= j < d2.len() ==> (#[trigger] d2[j]).error != MapError::UnsupportedType,
    ensures
        d0.is_prefix_of(d2),
        forall|j: int|
            d0.len() <= j < d2.len() ==> (#[trigger] d2[j]).error != MapError::UnsupportedType,
{
    assert(d0 =~= d2.subrange(0, d0.len() as int));
    assert forall|j: int| d0.len() <= j < d2.len() implies (#[trigger] d2[j]).error
        != MapError::UnsupportedType by {
        if j < d1.len() {
            assert(d2[j] == d2.subrange(0, d1.len() as int)[j]);
        }
    }
}

/// An accounted name stays accounted when the columnar fields are shifted
/// right and the diagnostic window is widened on the left.
proof fn lemma_accounted_step(
    children_new: Seq<ArrowFieldView>,
    children_old: Seq<ArrowFieldView>,
    diags: Seq<Diagnostic>,
    lo_new: int,
    lo_old: int,
    shift: int,
    nm: Seq<char>,
)
    requires
        lo_new <= lo_old,
        0 <= shift,
        children_new.len() >= children_old.len() + shift,
        forall|j: int|
            0 <= j < children_old.len() ==> children_new[j + shift] == (#[trigger] children_old[j]),
        name_accounted(children_old, diags, lo_old, nm),
    ensures
        name_accounted(children_new, diags, lo_new, nm),
{
    if exists|j: int| 0 <= j < children_old.len() && (#[trigger] children_old[j]).name == nm {
        let j = choose|j: int| 0 <= j < children_old.len() && (#[trigger] children_old[j]).name
            == nm;
        assert(children_new[j + shift].name == nm);
    } else {
        let j = choose|j: int| lo_old <= j < diags.len() && (#[trigger] diags[j]).field_name@
            == nm;
        assert(lo_new <= j < diags.len() && diags[j].field_name@ == nm);
    }
}

/// The exact result of mapping one source type, as a function of the
/// schema and the counter table: the mapped columnar type (or the error
/// the mapping raises), the counter table after the walk, and the
/// diagnostics recorded for fields dropped along the way, in order. The
/// fuel only bounds the recursion for the termination checker: whenever
/// it is at least the remaining termination budget, it is never
/// consumed to exhaustion, and every such fuel yields the same result —
/// the contracts below state the executable mapping equal to this
/// function at every sufficient fuel.
pub open spec fn smap_dtype(
    schema: SourceSchema,
    ty: SourceType,
    d: Seq<DepthEntry>,
    fuel: nat,
) -> (Result<DataTypeView, MapError>, Seq<DepthEntry>, Seq<Diagnostic>)
    decreases fuel, dtype_rank(ty), type_height(ty),
{
    match ty {
        SourceType::Void => (Ok(DataTypeView::Null), d, Seq::empty()),
        SourceType::Bool => (Ok(DataTypeView::Boolean), d, Seq::empty()),
        SourceType::Int8 => (Ok(DataTypeView::Int8), d, Seq::empty()),
        SourceType::Int16 => (Ok(DataTypeView::Int16), d, Seq::empty()),
        SourceType::Int32 => (Ok(DataTypeView::Int32), d, Seq::empty()),
        SourceType::Int64 => (Ok(DataTypeView::Int64), d, Seq::empty()),
        SourceType::UInt8 => (Ok(DataTypeView::UInt8), d, Seq::empty()),
        SourceType::UInt16 => (Ok(DataTypeView::UInt16), d, Seq::empty()),
        SourceType::UInt32 => (Ok(DataTypeView::UInt32), d, Seq::empty()),
        SourceType::UInt64 => (Ok(DataTypeView::UInt64), d, Seq::empty()),
        SourceType::Float32 => (Ok(DataTypeView::Float32), d, Seq::empty()),
        SourceType::Float64 => (Ok(DataTypeView::Float64), d, Seq::empty()),
        SourceType::Text => (Ok(DataTypeView::Utf8), d, Seq::empty()),
        SourceType::Data => (Ok(DataTypeView::Binary), d, Seq::empty()),
        SourceType::Enum(_) => (Ok(DataTypeView::Dictionary), d, Seq::empty()),
        SourceType::AnyPointer => (Err(MapError::UnsupportedType), d, Seq::empty()),
        SourceType::Capability => (Err(MapError::UnsupportedType), d, Seq::empty()),
        SourceType::Struct(i) => if i < schema.structs@.len() {
            if schema.structs@[i as int].fields@.len() == 0 {
                (Err(MapError::EmptyStruct), d, Seq::empty())
            } else {
                let m = smap_fields(schema, i as int, 0, d, fuel);
                match m.0 {
                    Ok(children) => (Ok(DataTypeView::Struct(children)), m.1, m.2),
                    Err(e) => (Err(e), m.1, m.2),
                }
            }
        } else {
            (Err(MapError::UnsupportedType), d, Seq::empty())
        },
        SourceType::List(et) => {
            let m = smap_dtype(schema, *et, d, fuel);
            match m.0 {
                Ok(inner_dtype) => (
                    Ok(
                        DataTypeView::List(
                            Box::new(
                                ArrowFieldView {
                                    name: "item"@,
                                    data_type: inner_dtype,
                                    nullable: true,
                                },
                            ),
                        ),
                    ),
                    m.1,
                    m.2,
                ),
                Err(e) => (Err(e), m.1, m.2),
            }
        },
    }
}

/// The exact result of mapping one named source field: the recursion
/// limit is consulted first, then the field's type is mapped.
pub open spec fn smap_field(
    schema: SourceSchema,
    f: SourceField,
    d: Seq<DepthEntry>,
    fuel: nat,
) -> (Result<ArrowFieldView, MapError>, Seq<DepthEntry>, Seq<Diagnostic>)
    decreases fuel, 3int, 0int,
{
    if spine_struct(f.dtype) is Some {
        let d1 = spec_bump_entries(d, f.name);
        if count_of(d1, f.name@) > MAX_RECURSIVE_DEPTH {
            (Err(MapError::RecursionLimitExceeded), d1, Seq::empty())
        } else if fuel == 0 {
            // Never reached at the fuels the contracts quantify over: a
            // within-limit expansion always has budget, hence fuel, left.
            (Err(MapError::UnsupportedType), d1, Seq::empty())
        } else {
            let m = smap_dtype(schema, f.dtype, d1, (fuel - 1) as nat);
            match m.0 {
                Ok(dt) => (
                    Ok(ArrowFieldView { name: f.name@, data_type: dt, nullable: true }),
                    m.1,
                    m.2,
                ),
                Err(e) => (Err(e), m.1, m.2),
            }
        }
    } else {
        let m = smap_dtype(schema, f.dtype, d, fuel);
        match m.0 {
            Ok(dt) => (
                Ok(ArrowFieldView { name: f.name@, data_type: dt, nullable: true }),
                m.1,
                m.2,
            ),
            Err(e) => (Err(e), m.1, m.2),
        }
    }
}

/// The exact result of mapping the fields of one struct definition from
/// position `start` on: a field appears in the children exactly when
/// its own mapping succeeds, with its recursively mapped type, in
/// declared order; a field whose mapping fails recoverably is dropped
/// and contributes exactly one diagnostic, in order; an unsupported
/// kind aborts the whole mapping.
pub open spec fn smap_fields(
    schema: SourceSchema,
    def_idx: int,
    start: int,
    d: Seq<DepthEntry>,
    fuel: nat,
) -> (Result<Seq<ArrowFieldView>, MapError>, Seq<DepthEntry>, Seq<Diagnostic>)
    decreases fuel, 4int, schema.structs@[def_idx].fields@.len() - start,
{
    if def_idx < 0 || def_idx >= schema.structs@.len() {
        // Immaterial: the contracts apply this function only to
        // definitions inside the schema's tables.
        (Err(MapError::UnsupportedType), d, Seq::empty())
    } else if start < 0 || start >= schema.structs@[def_idx].fields@.len() {
        (Ok(Seq::empty()), d, Seq::empty())
    } else {
        let f = schema.structs@[def_idx].fields@[start];
        let m1 = smap_field(schema, f, d, fuel);
        match m1.0 {
            Ok(af) => {
                let m2 = smap_fields(schema, def_idx, start + 1, m1.1, fuel);
                match m2.0 {
                    Ok(rest) => (Ok(seq![af] + rest), m2.1, m1.2 + m2.2),
                    Err(e) => (Err(e), m2.1, m1.2 + m2.2),
                }
            },
            Err(MapError::UnsupportedType) => (Err(MapError::UnsupportedType), m1.1, m1.2),
            Err(e) => {
                let diag = Diagnostic { field_name: f.name, error: e };
                let m2 = smap_fields(schema, def_idx, start + 1, m1.1, fuel);
                match m2.0 {
                    Ok(rest) => (Ok(rest), m2.1, m1.2 + seq![diag] + m2.2),
                    Err(e2) => (Err(e2), m2.1, m1.2 + seq![diag] + m2.2),
                }
            },
        }
    }
}

/// The mapping of one source type to a columnar type, recursing into
/// struct definitions and list element types. Fatal errors abort; a
/// nested field that fails recoverably is dropped by `map_arrow_fields`
/// and recorded in `diagnostics`.
fn map_arrow_dtype(
    schema: &SourceSchema,
    ty: &SourceType,
    recursion_depth: &mut RecursionDepths,
    diagnostics: &mut Vec<Diagnostic>,
) -> (r: Result<ArrowDataType, MapError>)
    requires
        schema_wf(schema@),
        type_wf(schema@, *ty),
        depths_wf(schema@, *old(recursion_depth)),
    ensures
        depths_wf(schema@, *final(recursion_depth)),
        sum_clipped(final(recursion_depth).entries@) >= sum_clipped(old(recursion_depth).entries@),
        old(diagnostics)@.is_prefix_of(final(diagnostics)@),
        forall|j: int|
            old(diagnostics)@.len() <= j < final(diagnostics)@.len() ==> (#[trigger] final(diagnostics)@[j]).error != MapError::UnsupportedType,
        r matches Ok(dt) ==> dtype_matches(schema@, *ty, dt@),
        flat_type(*ty) ==> r is Ok && *final(recursion_depth) == *old(recursion_depth) && final(diagnostics)@ == old(diagnostics)@,
        unsupported_spine(*ty) ==> r == Err::<ArrowDataType, MapError>(MapError::UnsupportedType),
        (type_supported(*ty) && schema_supported(schema@)) ==> r != Err::<ArrowDataType, MapError>(
            MapError::UnsupportedType,
        ),
        (r == Err::<ArrowDataType, MapError>(MapError::EmptyStruct)) <==> (spine_struct(*ty)
            matches Some(i) && schema@.structs[i as int].len() == 0),
        r != Err::<ArrowDataType, MapError>(MapError::RecursionLimitExceeded),
        forall|fuel: nat|
            #![trigger smap_dtype(*schema, *ty, old(recursion_depth).entries@, fuel)]
            fuel >= spec_budget(schema@, old(recursion_depth).entries@) ==> {
                let m = smap_dtype(*schema, *ty, old(recursion_depth).entries@, fuel);
                &&& m.0 == (match r {
                    Ok(dt) => Ok::<DataTypeView, MapError>(dt_view(dt)),
                    Err(e) => Err::<DataTypeView, MapError>(e),
                })
                &&& m.1 == final(recursion_depth).entries@
                &&& final(diagnostics)@ == old(diagnostics)@ + m.2
            },
    decreases spec_budget(schema@, old(recursion_depth).entries@), dtype_rank(*ty), type_height(*ty),
{
    proof {
        lemma_budget_nonneg(schema@, *recursion_depth);
    }
    let result = match ty {
        SourceType::Void => Ok(ArrowDataType::Null),
        SourceType::Bool => Ok(ArrowDataType::Boolean),
        SourceType::Int8 => Ok(ArrowDataType::Int8),
        SourceType::Int16 => Ok(ArrowDataType::Int16),
        SourceType::Int32 => Ok(ArrowDataType::Int32),
        SourceType::Int64 => Ok(ArrowDataType::Int64),
        SourceType::UInt8 => Ok(ArrowDataType::UInt8),
        SourceType::UInt16 => Ok(ArrowDataType::UInt16),
        SourceType::UInt32 => Ok(ArrowDataType::UInt32),
        SourceType::UInt64 => Ok(ArrowDataType::UInt64),
        SourceType::Float32 => Ok(ArrowDataType::Float32),
        SourceType::Float64 => Ok(ArrowDataType::Float64),
        SourceType::Text => Ok(ArrowDataType::Utf8),
        SourceType::Data => Ok(ArrowDataType::Binary),
        SourceType::Enum(_) => Ok(ArrowDataType::Dictionary),
        SourceType::AnyPointer => Err(MapError::UnsupportedType),
        SourceType::Capability => Err(MapError::UnsupportedType),
        SourceType::Struct(idx) => {
            let st: usize = *idx;
            if schema.structs[st].fields.len() == 0 {
                Err(MapError::EmptyStruct)
            } else {
                match map_arrow_fields(schema, st, 0, recursion_depth, diagnostics) {
                    Ok(children) => {
                        proof {
                            broadcast use lemma_afs_view;

                            assert(schema@.structs[st as int].skip(0) =~= schema@.structs[st as int]);
                        }
                        Ok(ArrowDataType::Struct(children))
                    },
                    Err(e) => Err(e),
                }
            }
        },
        SourceType::List(inner) => {
            match map_arrow_dtype(schema, &**inner, recursion_depth, diagnostics) {
                Ok(inner_dtype) => {
                    let inner_field = ArrowField {
                        name: "item".to_owned(),
                        data_type: inner_dtype,
                        nullable: true,
                    };
                    Ok(ArrowDataType::List(Box::new(inner_field)))
                },
                Err(e) => Err(e),
            }
        },
    };
    proof {
        let d0 = old(recursion_depth).entries@;
        let g0 = old(diagnostics)@;
        assert forall|fuel: nat|
            #![trigger smap_dtype(*schema, *ty, d0, fuel)]
            fuel >= spec_budget(schema@, d0) implies {
            let m = smap_dtype(*schema, *ty, d0, fuel);
            &&& m.0 == (match result {
                Ok(dt) => Ok::<DataTypeView, MapError>(dt_view(dt)),
                Err(e) => Err::<DataTypeView, MapError>(e),
            })
            &&& m.1 == recursion_depth.entries@
            &&& diagnostics@ == g0 + m.2
        } by {
            let m = smap_dtype(*schema, *ty, d0, fuel);
            match *ty {
                SourceType::Struct(st) => {
                    let mf = smap_fields(*schema, st as int, 0, d0, fuel);
                    if schema.structs@[st as int].fields@.len() == 0 {
                        assert(diagnostics@ =~= g0 + m.2);
                    } else {
                        assert(m.2 == mf.2);
                    }
                },
                SourceType::List(et) => {
                    let mi = smap_dtype(*schema, *et, d0, fuel);
                    assert(m.2 == mi.2);
                },
                _ => {
                    assert(diagnostics@ =~= g0 + m.2);
                },
            }
        }
    }
    result
}

/// The mapping of one named source field to a columnar field: the field
/// keeps its name, is marked nullable, and its type is mapped by
/// `map_arrow_dtype` after the recursion limit is consulted.
fn map_arrow_field(
    schema: &SourceSchema,
    field: &SourceField,
    recursion_depth: &mut RecursionDepths,
    diagnostics: &mut Vec<Diagnostic>,
) -> (r: Result<ArrowField, MapError>)
    requires
        schema_wf(schema@),
        type_wf(schema@, field.dtype),
        names_seq(schema@).contains(field@.name),
        depths_wf(schema@, *old(recursion_depth)),
    ensures
        depths_wf(schema@, *final(recursion_depth)),
        sum_clipped(final(recursion_depth).entries@) >= sum_clipped(old(recursion_depth).entries@),
        old(diagnostics)@.is_prefix_of(final(diagnostics)@),
        forall|j: int|
            old(diagnostics)@.len() <= j < final(diagnostics)@.len() ==> (#[trigger] final(diagnostics)@[j]).error != MapError::UnsupportedType,
        r matches Ok(af) ==> af@.name == field@.name && af@.nullable && dtype_matches(
            schema@,
            field.dtype,
            af@.data_type,
        ),
        flat_type(field.dtype) ==> r is Ok && *final(recursion_depth) == *old(recursion_depth)
            && final(diagnostics)@ == old(diagnostics)@,
        (type_supported(field.dtype) && schema_supported(schema@)) ==> r != Err::<
            ArrowField,
            MapError,
        >(MapError::UnsupportedType),
        (r == Err::<ArrowField, MapError>(MapError::RecursionLimitExceeded)) <==> (spine_struct(
            field.dtype,
        ) is Some && count_of(old(recursion_depth).entries@, field@.name)
            >= MAX_RECURSIVE_DEPTH),
        (r == Err::<ArrowField, MapError>(MapError::EmptyStruct)) <==> (!(spine_struct(field.dtype)
            is Some && count_of(old(recursion_depth).entries@, field@.name)
            >= MAX_RECURSIVE_DEPTH) && (spine_struct(field.dtype) matches Some(i)
            && schema@.structs[i as int].len() == 0)),
        forall|fuel: nat|
            #![trigger smap_field(*schema, *field, old(recursion_depth).entries@, fuel)]
            fuel >= spec_budget(schema@, old(recursion_depth).entries@) ==> {
                let m = smap_field(*schema, *field, old(recursion_depth).entries@, fuel);
                &&& m.0 == (match r {
                    Ok(af) => Ok::<ArrowFieldView, MapError>(af_view(af)),
                    Err(e) => Err::<ArrowFieldView, MapError>(e),
                })
                &&& m.1 == final(recursion_depth).entries@
                &&& final(diagnostics)@ == old(diagnostics)@ + m.2
            },
    decreases spec_budget(schema@, old(recursion_depth).entries@), 3int, 0int,
{
    proof {
        lemma_budget_nonneg(schema@, *recursion_depth);
        if flat_type(field.dtype) {
            crate::source::lemma_flat_spine(field.dtype);
        }
    }
    let ghost d0 = old(recursion_depth).entries@;
    let ghost g0 = old(diagnostics)@;
    let name = field.name.clone();
    let nullable = true;
    if limit_recursion(&name, &field.dtype, recursion_depth) {
        proof {
            assert forall|fuel: nat|
                #![trigger smap_field(*schema, *field, d0, fuel)]
                fuel >= spec_budget(schema@, d0) implies {
                let m = smap_field(*schema, *field, d0, fuel);
                &&& m.0 == Err::<ArrowFieldView, MapError>(MapError::RecursionLimitExceeded)
                &&& m.1 == recursion_depth.entries@
                &&& diagnostics@ == g0 + m.2
            } by {
                assert(spec_bump_entries(d0, field.name) == spec_bump_entries(d0, name));
                assert(diagnostics@ =~= g0 + Seq::<Diagnostic>::empty());
            }
        }
        return Err(MapError::RecursionLimitExceeded);
    }
    proof {
        if spine_struct(field.dtype) is Some {
            assert forall|k: int| 0 <= k < recursion_depth.entries@.len() implies names_seq(
                schema@,
            ).contains((#[trigger] recursion_depth.entries@[k]).name@) by {
                let nm = recursion_depth.entries@[k].name@;
                if has_name(old(recursion_depth).entries@, nm) {
                    let i = choose|i: int|
                        0 <= i < entry_names(old(recursion_depth).entries@).len() && entry_names(
                            old(recursion_depth).entries@,
                        )[i] == nm;
                    assert(old(recursion_depth).entries@[i].name@ == nm);
                }
            }
        }
        assert(depths_wf(schema@, *recursion_depth));
        lemma_budget_nonneg(schema@, *recursion_depth);
    }
    let ghost dmid = recursion_depth.entries@;
    let result = match map_arrow_dtype(schema, &field.dtype, recursion_depth, diagnostics) {
        Ok(arrow_dtype) => Ok(ArrowField { name, data_type: arrow_dtype, nullable }),
        Err(e) => Err(e),
    };
    proof {
        assert forall|fuel: nat|
            #![trigger smap_field(*schema, *field, d0, fuel)]
            fuel >= spec_budget(schema@, d0) implies {
            let m = smap_field(*schema, *field, d0, fuel);
            &&& m.0 == (match result {
                Ok(af) => Ok::<ArrowFieldView, MapError>(af_view(af)),
                Err(e) => Err::<ArrowFieldView, MapError>(e),
            })
            &&& m.1 == recursion_depth.entries@
            &&& diagnostics@ == g0 + m.2
        } by {
            if spine_struct(field.dtype) is Some {
                assert(spec_bump_entries(d0, field.name) == spec_bump_entries(d0, name));
                assert(spec_budget(schema@, dmid) == spec_budget(schema@, d0) - 1);
                assert(fuel >= 1);
                let mi = smap_dtype(*schema, field.dtype, dmid, (fuel - 1) as nat);
                assert(fuel - 1 >= spec_budget(schema@, dmid));
            } else {
                let mi = smap_dtype(*schema, field.dtype, dmid, fuel);
            }
        }
    }
    result
}

/// The mapping of the fields of one struct definition, from position
/// `start` on. A field that fails with `EmptyStruct` or
/// `RecursionLimitExceeded` is dropped and recorded in `diagnostics`;
/// its siblings are unaffected. `UnsupportedType` aborts the whole
/// mapping.
fn map_arrow_fields(
    schema: &SourceSchema,
    def_idx: usize,
    start: usize,
    recursion_depth: &mut RecursionDepths,
    diagnostics: &mut Vec<Diagnostic>,
) -> (r: Result<Vec<ArrowField>, MapError>)
    requires
        schema_wf(schema@),
        def_idx < schema@.structs.len(),
        start <= schema@.structs[def_idx as int].len(),
        depths_wf(schema@, *old(recursion_depth)),
    ensures
        depths_wf(schema@, *final(recursion_depth)),
        sum_clipped(final(recursion_depth).entries@) >= sum_clipped(old(recursion_depth).entries@),
        old(diagnostics)@.is_prefix_of(final(diagnostics)@),
        forall|j: int|
            old(diagnostics)@.len() <= j < final(diagnostics)@.len() ==> (#[trigger] final(diagnostics)@[j]).error != MapError::UnsupportedType,
        r matches Ok(children) ==> fields_match(
            schema@,
            schema@.structs[def_idx as int].skip(start as int),
            afs_view(children),
        ),
        r matches Ok(children) ==> forall|k: int|
            start <= k < schema@.structs[def_idx as int].len() ==> name_accounted(
                afs_view(children),
                final(diagnostics)@,
                old(diagnostics)@.len() as int,
                (#[trigger] schema@.structs[def_idx as int][k]).name,
            ),
        (forall|k: int|
            start <= k < schema@.structs[def_idx as int].len() ==> flat_type(
                (#[trigger] schema@.structs[def_idx as int][k]).dtype,
            )) ==> (r matches Ok(children) && afs_view(children).len() == schema@.structs[def_idx as int].len() - start && *final(recursion_depth) == *old(recursion_depth) && final(diagnostics)@
            == old(diagnostics)@ && (forall|j: int|
            0 <= j < afs_view(children).len() ==> (#[trigger] afs_view(children)[j]).name
                == schema@.structs[def_idx as int][start + j].name && afs_view(children)[j].nullable
                && dtype_matches(
                schema@,
                schema@.structs[def_idx as int][start + j].dtype,
                afs_view(children)[j].data_type,
            ))),
        r matches Err(e) ==> e == MapError::UnsupportedType,
        schema_supported(schema@) ==> r is Ok,
        forall|fuel: nat|
            #![trigger smap_fields(*schema, def_idx as int, start as int, old(recursion_depth).entries@, fuel)]
            fuel >= spec_budget(schema@, old(recursion_depth).entries@) ==> {
                let m = smap_fields(
                    *schema,
                    def_idx as int,
                    start as int,
                    old(recursion_depth).entries@,
                    fuel,
                );
                &&& m.0 == (match r {
                    Ok(children) => Ok::<Seq<ArrowFieldView>, MapError>(afs_view(children)),
                    Err(e) => Err::<Seq<ArrowFieldView>, MapError>(e),
                })
                &&& m.1 == final(recursion_depth).entries@
                &&& final(diagnostics)@ == old(diagnostics)@ + m.2
            },
    decreases spec_budget(schema@, old(recursion_depth).entries@), 4int, schema@.structs[def_idx as int].len() - start,
{
    proof {
        broadcast use lemma_afs_view;

        lemma_budget_nonneg(schema@, *recursion_depth);
    }
    let ghost def = schema@.structs[def_idx as int];
    let ghost dd0 = old(recursion_depth).entries@;
    let ghost g0 = old(diagnostics)@;
    let n = schema.structs[def_idx].fields.len();
    if start >= n {
        let children: Vec<ArrowField> = Vec::new();
        proof {
            assert(afs_view(children) =~= Seq::<ArrowFieldView>::empty());
            assert(def.skip(start as int) =~= Seq::<SourceFieldView>::empty());
            assert forall|fuel: nat|
                #![trigger smap_fields(*schema, def_idx as int, start as int, dd0, fuel)]
                fuel >= spec_budget(schema@, dd0) implies {
                let m = smap_fields(*schema, def_idx as int, start as int, dd0, fuel);
                &&& m.0 == Ok::<Seq<ArrowFieldView>, MapError>(afs_view(children))
                &&& m.1 == recursion_depth.entries@
                &&& diagnostics@ == g0 + m.2
            } by {
                let m = smap_fields(*schema, def_idx as int, start as int, dd0, fuel);
                assert(diagnostics@ =~= g0 + m.2);
            }
        }
        return Ok(children);
    }
    let field = &schema.structs[def_idx].fields[start];
    proof {
        assert(field@ == def[start as int]);
        assert(type_wf(schema@, def[start as int].dtype) && crate::source::def_names_distinct(
            def,
        ));
        lemma_structs_names_contains(schema@.structs, def_idx as int, start as int);
    }
    let ghost fv = *field;
    let field_result = map_arrow_field(schema, field, recursion_depth, diagnostics);
    let ghost dmid = recursion_depth.entries@;
    let ghost gmid = diagnostics@;
    proof {
        lemma_budget_nonneg(schema@, *recursion_depth);
    }
    let ghost d0 = old(diagnostics)@;
    match field_result {
        Ok(af) => {
            let ghost mid_diags = diagnostics@;
            match map_arrow_fields(schema, def_idx, start + 1, recursion_depth, diagnostics) {
                Ok(mut rest) => {
                    let ghost rest0 = rest;
                    rest.insert(0, af);
                    proof {
                        let d2 = diagnostics@;
                        assert(afs_view(rest)[0] == af_view(af));
                        assert forall|j: int| 0 < j < afs_view(rest).len() implies afs_view(
                            rest,
                        )[j] == afs_view(rest0)[j - 1] by {
                            assert(rest@[j] == rest0@[j - 1]);
                        }
                        assert(afs_view(rest).drop_first() =~= afs_view(rest0));
                        assert(def.skip(start as int).drop_first() =~= def.skip(start as int + 1));
                        assert(def.skip(start as int)[0] == def[start as int]);
                        assert(fields_match(schema@, def.skip(start as int), afs_view(rest)));
                        assert forall|j: int| d0.len() <= j < d2.len() implies (#[trigger] d2[j]).error
                            != MapError::UnsupportedType by {
                            if j < mid_diags.len() {
                                assert(d2[j] == d2.subrange(0, mid_diags.len() as int)[j]);
                            }
                        }
                        assert forall|k: int| start <= k < def.len() implies name_accounted(
                            afs_view(rest),
                            d2,
                            d0.len() as int,
                            (#[trigger] def[k]).name,
                        ) by {
                            if k == start {
                                assert(afs_view(rest)[0].name == def[k].name);
                            } else {
                                lemma_accounted_step(
                                    afs_view(rest),
                                    afs_view(rest0),
                                    d2,
                                    d0.len() as int,
                                    mid_diags.len() as int,
                                    1,
                                    def[k].name,
                                );
                            }
                        }
                        assert forall|fuel: nat|
                            #![trigger smap_fields(*schema, def_idx as int, start as int, dd0, fuel)]
                            fuel >= spec_budget(schema@, dd0) implies {
                            let m = smap_fields(*schema, def_idx as int, start as int, dd0, fuel);
                            &&& m.0 == Ok::<Seq<ArrowFieldView>, MapError>(afs_view(rest))
                            &&& m.1 == recursion_depth.entries@
                            &&& diagnostics@ == g0 + m.2
                        } by {
                            let m = smap_fields(*schema, def_idx as int, start as int, dd0, fuel);
                            let m1 = smap_field(*schema, fv, dd0, fuel);
                            assert(fuel >= spec_budget(schema@, dmid));
                            let m2 = smap_fields(
                                *schema,
                                def_idx as int,
                                start as int + 1,
                                dmid,
                                fuel,
                            );
                            assert(afs_view(rest) =~= seq![af_view(af)] + afs_view(rest0));
                            assert(diagnostics@ =~= g0 + (m1.2 + m2.2));
                        }
                    }
                    Ok(rest)
                },
                Err(e) => {
                    proof {
                        lemma_diag_window_compose(d0, mid_diags, diagnostics@);
                        assert forall|fuel: nat|
                            #![trigger smap_fields(*schema, def_idx as int, start as int, dd0, fuel)]
                            fuel >= spec_budget(schema@, dd0) implies {
                            let m = smap_fields(*schema, def_idx as int, start as int, dd0, fuel);
                            &&& m.0 == Err::<Seq<ArrowFieldView>, MapError>(e)
                            &&& m.1 == recursion_depth.entries@
                            &&& diagnostics@ == g0 + m.2
                        } by {
                            let m = smap_fields(*schema, def_idx as int, start as int, dd0, fuel);
                            let m1 = smap_field(*schema, fv, dd0, fuel);
                            assert(fuel >= spec_budget(schema@, dmid));
                            let m2 = smap_fields(
                                *schema,
                                def_idx as int,
                                start as int + 1,
                                dmid,
                                fuel,
                            );
                            assert(diagnostics@ =~= g0 + (m1.2 + m2.2));
                        }
                    }
                    Err(e)
                },
            }
        },
        Err(MapError::UnsupportedType) => {
            proof {
                assert forall|fuel: nat|
                    #![trigger smap_fields(*schema, def_idx as int, start as int, dd0, fuel)]
                    fuel >= spec_budget(schema@, dd0) implies {
                    let m = smap_fields(*schema, def_idx as int, start as int, dd0, fuel);
                    &&& m.0 == Err::<Seq<ArrowFieldView>, MapError>(MapError::UnsupportedType)
                    &&& m.1 == recursion_depth.entries@
                    &&& diagnostics@ == g0 + m.2
                } by {
                    let m = smap_fields(*schema, def_idx as int, start as int, dd0, fuel);
                    let m1 = smap_field(*schema, fv, dd0, fuel);
                }
            }
            Err(MapError::UnsupportedType)
        },
        Err(e) => {
            let ghost d1 = diagnostics@;
            let diag = Diagnostic { field_name: field.name.clone(), error: e };
            let ghost diag_v = diag;
            diagnostics.push(diag);
            let ghost mid_diags = diagnostics@;
            let r = map_arrow_fields(schema, def_idx, start + 1, recursion_depth, diagnostics);
            match r {
                Ok(children) => {
                    proof {
                        let d2 = diagnostics@;
                        assert(mid_diags[d1.len() as int].field_name@ == def[start as int].name);
                        assert(d2[d1.len() as int] == d2.subrange(0, mid_diags.len() as int)[d1.len() as int]);
                        assert(d2[d1.len() as int].field_name@ == def[start as int].name);
                        assert(def.skip(start as int).drop_first() =~= def.skip(start as int + 1));
                        if afs_view(children).len() > 0 {
                            assert(fields_match(schema@, def.skip(start as int), afs_view(children)));
                        }
                        assert forall|j: int| d0.len() <= j < d2.len() implies (#[trigger] d2[j]).error
                            != MapError::UnsupportedType by {
                            if j < mid_diags.len() {
                                assert(d2[j] == d2.subrange(0, mid_diags.len() as int)[j]);
                                assert(d2[j] == mid_diags[j]);
                                if j < d1.len() {
                                    assert(mid_diags[j] == d1[j]);
                                }
                            }
                        }
                        assert forall|k: int| start <= k < def.len() implies name_accounted(
                            afs_view(children),
                            d2,
                            d0.len() as int,
                            (#[trigger] def[k]).name,
                        ) by {
                            if k == start {
                                assert(d0.len() <= d1.len() < d2.len() && d2[d1.len() as int].field_name@ == def[k].name);
                            } else {
                                lemma_accounted_step(
                                    afs_view(children),
                                    afs_view(children),
                                    d2,
                                    d0.len() as int,
                                    mid_diags.len() as int,
                                    0,
                                    def[k].name,
                                );
                            }
                        }
                        assert forall|fuel: nat|
                            #![trigger smap_fields(*schema, def_idx as int, start as int, dd0, fuel)]
                            fuel >= spec_budget(schema@, dd0) implies {
                            let m = smap_fields(*schema, def_idx as int, start as int, dd0, fuel);
                            &&& m.0 == Ok::<Seq<ArrowFieldView>, MapError>(afs_view(children))
                            &&& m.1 == recursion_depth.entries@
                            &&& diagnostics@ == g0 + m.2
                        } by {
                            let m = smap_fields(*schema, def_idx as int, start as int, dd0, fuel);
                            let m1 = smap_field(*schema, fv, dd0, fuel);
                            assert(fuel >= spec_budget(schema@, dmid));
                            let m2 = smap_fields(
                                *schema,
                                def_idx as int,
                                start as int + 1,
                                dmid,
                                fuel,
                            );
                            assert(diag_v == (Diagnostic { field_name: fv.name, error: e }));
                            assert(diagnostics@ =~= g0 + (m1.2 + seq![diag_v] + m2.2));
                        }
                    }
                    Ok(children)
                },
                Err(e2) => {
                    proof {
                        let d2 = diagnostics@;
                        assert(mid_diags =~= d1.push(diag_v));
                        assert forall|j: int| d0.len() <= j < mid_diags.len() implies (
                        #[trigger] mid_diags[j]).error != MapError::UnsupportedType by {
                            if j < d1.len() {
                                assert(mid_diags[j] == d1[j]);
                            } else {
                                assert(mid_diags[j] == diag_v);
                            }
                        }
                        assert(d0.is_prefix_of(mid_diags)) by {
                            assert(d0 =~= mid_diags.subrange(0, d0.len() as int));
                        }
                        lemma_diag_window_compose(d0, mid_diags, d2);
                        assert forall|fuel: nat|
                            #![trigger smap_fields(*schema, def_idx as int, start as int, dd0, fuel)]
                            fuel >= spec_budget(schema@, dd0) implies {
                            let m = smap_fields(*schema, def_idx as int, start as int, dd0, fuel);
                            &&& m.0 == Err::<Seq<ArrowFieldView>, MapError>(e2)
                            &&& m.1 == recursion_depth.entries@
                            &&& diagnostics@ == g0 + m.2
                        } by {
                            let m = smap_fields(*schema, def_idx as int, start as int, dd0, fuel);
                            let m1 = smap_field(*schema, fv, dd0, fuel);
                            assert(fuel >= spec_budget(schema@, dmid));
                            let m2 = smap_fields(
                                *schema,
                                def_idx as int,
                                start as int + 1,
                                dmid,
                                fuel,
                            );
                            assert(diag_v == (Diagnostic { field_name: fv.name, error: e }));
                            assert(diagnostics@ =~= g0 + (m1.2 + seq![diag_v] + m2.2));
                        }
                    }
                    Err(e2)
                },
            }
        },
    }
}

/// Structural size of a columnar type term; the termination measure of
/// the field zipper.
pub open spec fn dt_size(dt: DataTypeView) -> nat
    decreases dt,
{
    match dt {
        DataTypeView::Struct(children) => 1 + afs_size(children),
        DataTypeView::List(child) => 1 + af_size(*child),
        _ => 1,
    }
}

/// Structural size of a columnar field.
pub open spec fn af_size(f: ArrowFieldView) -> nat
    decreases f,
{
    1 + dt_size(f.data_type)
}

/// Summed structural size of a sequence of columnar fields.
pub open spec fn afs_size(s: Seq<ArrowFieldView>) -> nat
    decreases s,
{
    if s.len() == 0 {
        0
    } else {
        af_size(s[0]) + afs_size(s.drop_first())
    }
}

/// A deep copy of a columnar type, equal to the original in its model.
pub fn dup_dtype(dt: &ArrowDataType) -> (r: ArrowDataType)
    ensures
        dt_view(r) == dt_view(*dt),
    decreases *dt, 1int, 0int,
{
    match dt {
        ArrowDataType::Null => ArrowDataType::Null,
        ArrowDataType::Boolean => ArrowDataType::Boolean,
        ArrowDataType::Int8 => ArrowDataType::Int8,
        ArrowDataType::Int16 => ArrowDataType::Int16,
        ArrowDataType::Int32 => ArrowDataType::Int32,
        ArrowDataType::Int64 => ArrowDataType::Int64,
        ArrowDataType::UInt8 => ArrowDataType::UInt8,
        ArrowDataType::UInt16 => ArrowDataType::UInt16,
        ArrowDataType::UInt32 => ArrowDataType::UInt32,
        ArrowDataType::UInt64 => ArrowDataType::UInt64,
        ArrowDataType::Float32 => ArrowDataType::Float32,
        ArrowDataType::Float64 => ArrowDataType::Float64,
        ArrowDataType::Utf8 => ArrowDataType::Utf8,
        ArrowDataType::Binary => ArrowDataType::Binary,
        ArrowDataType::Struct(children) => ArrowDataType::Struct(dup_arrow_fields(children)),
        ArrowDataType::List(inner) => ArrowDataType::List(Box::new(dup_arrow_field(&**inner))),
        ArrowDataType::Dictionary => ArrowDataType::Dictionary,
    }
}

/// A deep copy of a columnar field, equal to the original in its model.
pub fn dup_arrow_field(f: &ArrowField) -> (r: ArrowField)
    ensures
        af_view(r) == af_view(*f),
    decreases *f, 2int, 0int,
{
    ArrowField { name: f.name.clone(), data_type: dup_dtype(&f.data_type), nullable: f.nullable }
}

/// A deep copy of a vector of columnar fields, equal to the original in
/// its model.
#[verifier::loop_isolation(false)]
pub fn dup_arrow_fields(v: &Vec<ArrowField>) -> (r: Vec<ArrowField>)
    ensures
        afs_view(r) == afs_view(*v),
    decreases *v, 0int, 0int,
{
    proof {
        broadcast use lemma_afs_view;

    }
    let mut r: Vec<ArrowField> = Vec::new();
    let n = v.len();
    let mut i: usize = 0;
    while i < n
        invariant
            0 <= i <= n,
            r@.len() == i,
            forall|j: int| 0 <= j < i ==> af_view(#[trigger] r@[j]) == af_view(v@[j]),
        decreases n - i,
    {
        proof {
            vstd::std_specs::vec::axiom_vec_index_decreases(*v, i as int);
        }
        let f = dup_arrow_field(&v[i]);
        r.push(f);
        i += 1;
    }
    proof {
        assert(afs_view(r) =~= afs_view(*v));
    }
    r
}

/// A copy of a list of names, equal to the original in its model.
#[verifier::loop_isolation(false)]
pub fn dup_names(v: &Vec<String>) -> (r: Vec<String>)
    ensures
        strs_view(r) == strs_view(*v),
{
    let mut r: Vec<String> = Vec::new();
    let n = v.len();
    let mut i: usize = 0;
    while i < n
        invariant
            0 <= i <= n,
            r@.len() == i,
            forall|j: int| 0 <= j < i ==> (#[trigger] r@[j])@ == v@[j]@,
        decreases n - i,
    {
        let s = v[i].clone();
        r.push(s);
        i += 1;
    }
    proof {
        assert(strs_view(r) =~= strs_view(*v));
    }
    r
}

/// The views of a vector of names.
pub open spec fn strs_view(v: Vec<String>) -> Seq<Seq<char>> {
    v@.map_values(|s: String| s@)
}

/// A subselection against a suffix of the source fields is one against
/// the whole list.
pub proof fn lemma_fields_match_widen(
    s: SchemaView,
    def: Seq<SourceFieldView>,
    children: Seq<ArrowFieldView>,
    n: int,
)
    requires
        0 <= n <= def.len(),
        fields_match(s, def.skip(n), children),
    ensures
        fields_match(s, def, children),
    decreases n,
{
    if n > 0 && children.len() > 0 {
        assert(def.drop_first().skip(n - 1) =~= def.skip(n));
        lemma_fields_match_widen(s, def.drop_first(), children, n - 1);
    } else if n > 0 {
        assert(fields_match(s, def, children));
    } else {
        assert(def.skip(0) =~= def);
    }
}

/// The first of a matched list of columnar fields pairs with some source
/// field, and the rest match what follows it.
pub proof fn lemma_fields_match_head(
    s: SchemaView,
    def: Seq<SourceFieldView>,
    children: Seq<ArrowFieldView>,
) -> (j0: int)
    requires
        fields_match(s, def, children),
        children.len() > 0,
    ensures
        0 <= j0 < def.len(),
        children[0].name == def[j0].name,
        children[0].nullable,
        dtype_matches(s, def[j0].dtype, children[0].data_type),
        fields_match(s, def.skip(j0 + 1), children.drop_first()),
    decreases def.len(),
{
    if children[0].name == def[0].name && children[0].nullable && dtype_matches(
        s,
        def[0].dtype,
        children[0].data_type,
    ) && fields_match(s, def.drop_first(), children.drop_first()) {
        assert(def.skip(1) =~= def.drop_first());
        0
    } else {
        let j1 = lemma_fields_match_head(s, def.drop_first(), children);
        assert(def.drop_first().skip(j1 + 1) =~= def.skip(j1 + 2));
        j1 + 1
    }
}

/// The columnar field views carried by a vector of zipped fields.
pub open spec fn zfs_arrow_views(zfs: Vec<crate::field::Field>) -> Seq<ArrowFieldView> {
    Seq::new(
        crate::field::zfs_view(zfs).len(),
        |i: int| crate::field::zfs_view(zfs)[i].arrow_field,
    )
}

/// Fuel that the mapping of a whole schema can never exhaust: one more
/// than the termination budget of an empty counter table.
pub open spec fn spec_mapping_fuel(schema: SourceSchema) -> nat {
    ((MAX_RECURSIVE_DEPTH + 1) * names_seq(schema@).len() + 1) as nat
}

/// The exact mapping of a whole schema, as a function of the schema
/// alone: the mapped columnar fields of the root definition (or the
/// fatal error), and the diagnostics recorded for dropped fields, in
/// order. Two calls on equal schemas are equal by construction.
pub open spec fn spec_schema_mapping(schema: SourceSchema, root: int) -> (Result<
    Seq<ArrowFieldView>,
    MapError,
>, Seq<Diagnostic>) {
    let m = smap_fields(schema, root, 0, Seq::empty(), spec_mapping_fuel(schema));
    (m.0, m.2)
}

/// The columnar fields described by a set of zipped fields.
pub fn make_arrow_fields(fields: Vec<crate::field::Field>) -> (r: Vec<ArrowField>)
    ensures
        afs_view(r).len() == crate::field::zfs_view(fields).len(),
        forall|i: int|
            0 <= i < afs_view(r).len() ==> afs_view(r)[i] == crate::field::zfs_view(
                fields,
            )[i].arrow_field,
{
    proof {
        broadcast use lemma_afs_view;

        crate::field::lemma_zfs_view(fields);
    }
    let mut r: Vec<ArrowField> = Vec::new();
    let n = fields.len();
    let mut i: usize = 0;
    while i < n
        invariant
            0 <= i <= n,
            n == fields@.len(),
            r@.len() == i,
            forall|j: int|
                0 <= j < i ==> af_view(#[trigger] r@[j]) == crate::field::zfs_view(
                    fields,
                )[j].arrow_field,
        decreases n - i,
    {
        proof {
            crate::field::lemma_zfs_view(fields);
        }
        let af = dup_arrow_field(fields[i].arrow_field());
        r.push(af);
        i += 1;
    }
    proof {
        broadcast use lemma_afs_view;

        crate::field::lemma_zfs_view(fields);
    }
    r
}

/// Translate one source struct schema into zipped columnar fields: map
/// the schema's fields to columnar fields, dropping declared-empty
/// structs and recursion beyond the bound with a diagnostic each, then
/// zip the result with the source schema. Only an unsupported source
/// kind aborts; on the mapping's own output the zipping step never
/// fails.
pub fn schema_to_fields(schema: &SourceSchema, root: usize) -> (r: Result<
    (Vec<crate::field::Field>, Vec<Diagnostic>),
    MapError,
>)
    requires
        schema_wf(schema@),
        root < schema@.structs.len(),
    ensures
        r matches Ok(p) ==> {
            &&& forall|i: int|
                0 <= i < crate::field::zfs_view(p.0).len() ==> crate::field::zf_wf(
                    #[trigger] crate::field::zfs_view(p.0)[i],
                ) && crate::field::zip_wf(
                    schema@,
                    schema@.structs[root as int],
                    crate::field::zfs_view(p.0)[i],
                )
            &&& fields_match(schema@, schema@.structs[root as int], zfs_arrow_views(p.0))
            &&& forall|k: int|
                0 <= k < schema@.structs[root as int].len() ==> name_accounted(
                    zfs_arrow_views(p.0),
                    p.1@,
                    0,
                    (#[trigger] schema@.structs[root as int][k]).name,
                )
        },
        r matches Err(e) ==> e == MapError::UnsupportedType,
        schema_supported(schema@) ==> r is Ok,
        spec_schema_mapping(*schema, root as int).0 == (match r {
            Ok(p) => Ok::<Seq<ArrowFieldView>, MapError>(zfs_arrow_views(p.0)),
            Err(e) => Err::<Seq<ArrowFieldView>, MapError>(e),
        }),
        r matches Ok(p) ==> p.1@ == spec_schema_mapping(*schema, root as int).1,
        (forall|k: int|
            0 <= k < schema@.structs[root as int].len() ==> flat_type(
                (#[trigger] schema@.structs[root as int][k]).dtype,
            )) ==> (r matches Ok(p) && crate::field::zfs_view(p.0).len() == schema@.structs[root as int].len() && (forall|j: int|
            0 <= j < crate::field::zfs_view(p.0).len() ==> (#[trigger] crate::field::zfs_view(
                p.0,
            )[j]).arrow_field.name == schema@.structs[root as int][j].name && dtype_matches(
                schema@,
                schema@.structs[root as int][j].dtype,
                crate::field::zfs_view(p.0)[j].arrow_field.data_type,
            ))),
{
    proof {
        broadcast use lemma_afs_view;

    }
    let ghost def = schema@.structs[root as int];
    let mut recursion_depth = RecursionDepths::new();
    let mut diagnostics: Vec<Diagnostic> = Vec::new();
    proof {
        assert(depths_wf(schema@, recursion_depth));
    }
    let ghost fuel0 = spec_mapping_fuel(*schema);
    let mapped = map_arrow_fields(schema, root, 0, &mut recursion_depth, &mut diagnostics);
    proof {
        let m = smap_fields(*schema, root as int, 0, Seq::<DepthEntry>::empty(), fuel0);
        assert(sum_clipped(Seq::<DepthEntry>::empty()) == 0);
        assert(fuel0 >= spec_budget(schema@, Seq::<DepthEntry>::empty()));
        assert(diagnostics@ =~= m.2);
    }
    let afs = match mapped {
        Ok(afs) => afs,
        Err(e) => {
            return Err(e);
        },
    };
    proof {
        assert(def.skip(0) =~= def);
    }
    match crate::field::zip_fields(schema, root, afs) {
        Ok(zfs) => {
            proof {
                crate::field::lemma_zfs_view(zfs);
                assert(zfs_arrow_views(zfs) =~= afs_view(afs));
            }
            Ok((zfs, diagnostics))
        },
        Err(_) => vstd::pervasive::unreached(),
    }
}

} // verus!
