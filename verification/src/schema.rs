use vstd::prelude::*;
use vstd::string::StringExecFns;
use crate::casing::snake_of;
use crate::casing::title_of;
use crate::header_field::FieldKind;

verus! {

/// One named member of a `Struct` schema.
pub struct Member {
    pub name: String,
    pub schema: Schema,
}

/// One named variant of an `Enum` schema.
pub struct Variant {
    pub name: String,
    pub schema: Schema,
}

/// A finite, acyclic description of one message type: the single generic
/// shape that both the registry builder and the tree renderer walk, so that
/// the two can never traverse a type differently.
pub enum Schema {
    /// A scalar member, rendered as one line of text.
    Leaf,
    /// Ordered named members, each of any schema kind.
    Struct { members: Vec<Member> },
    /// Named variants, each carrying a payload schema.
    Enum { name: String, variants: Vec<Variant> },
    /// Zero or more instances of one element schema, registered under the
    /// member's own path.
    Repeated { elem_name: String, element: Box<Schema> },
    /// Zero or one instance of the inner schema.
    Optional { inner: Box<Schema> },
    /// The inner schema registered at the member's path without a
    /// descriptor entry for the member itself.
    Expand { inner: Box<Schema> },
}

/// A descriptor-map entry: field path, display name, and field kind.
pub type FieldEntry = (Seq<char>, Seq<char>, FieldKind);

/// The views of a sequence of strings.
pub open spec fn str_views(v: Seq<String>) -> Seq<Seq<char>> {
    v.map(|i: int, s: String| s@)
}

/// The field path of a member named `seg` under the path `q`.
pub open spec fn child_path(q: Seq<char>, seg: Seq<char>) -> Seq<char> {
    q + "."@ + seg
}

/// Joins a field-path prefix and one segment with the `.` separator.
pub fn join_path(prefix: &str, segment: &str) -> (r: String)
    ensures
        r@ == child_path(prefix@, segment@),
{
    let mut out = prefix.to_owned();
    out.append(".");
    out.append(segment);
    out
}

/// The descriptor entries that registering `s` at path `q` produces, in
/// insertion order; `m` is the bare member name used for a leaf's display.
pub open spec fn reg_entries(s: Schema, q: Seq<char>, m: Seq<char>) -> Seq<FieldEntry>
    decreases s,
{
    match s {
        Schema::Leaf => seq![(q, title_of(m), FieldKind::Text)],
        Schema::Struct { members } => reg_entries_members(members@, q),
        Schema::Enum { name, variants } => seq![(q, name@, FieldKind::Branch)]
            + reg_entries_variants(variants@, q),
        Schema::Repeated { elem_name, element } => seq![(q, elem_name@, FieldKind::Branch)]
            + reg_entries(*element, q, m),
        Schema::Optional { inner } => reg_entries(*inner, q, m),
        Schema::Expand { inner } => reg_entries(*inner, q, m),
    }
}

/// The entries of a struct's members, in member order.
pub open spec fn reg_entries_members(ms: Seq<Member>, q: Seq<char>) -> Seq<FieldEntry>
    decreases ms,
{
    if ms.len() == 0 {
        Seq::empty()
    } else {
        reg_entries_members(ms.drop_last(), q) + reg_entries(
            ms.last().schema,
            child_path(q, ms.last().name@),
            ms.last().name@,
        )
    }
}

/// The entries of an enum's variants, each under the snake_case form of its
/// variant name, in variant order.
pub open spec fn reg_entries_variants(vs: Seq<Variant>, q: Seq<char>) -> Seq<FieldEntry>
    decreases vs,
{
    if vs.len() == 0 {
        Seq::empty()
    } else {
        reg_entries_variants(vs.drop_last(), q) + reg_entries(
            vs.last().schema,
            child_path(q, snake_of(vs.last().name@)),
            snake_of(vs.last().name@),
        )
    }
}

/// The subtree catalog that registering `s` at path `q` produces, in the
/// order the renderer opens subtrees.
pub open spec fn reg_subtrees(s: Schema, q: Seq<char>) -> Seq<Seq<char>>
    decreases s,
{
    match s {
        Schema::Leaf => Seq::empty(),
        Schema::Struct { members } => reg_subtrees_members(members@, q),
        Schema::Enum { name, variants } => seq![q] + reg_subtrees_variants(variants@, q),
        Schema::Repeated { elem_name, element } => seq![q] + reg_subtrees(*element, q),
        Schema::Optional { inner } => reg_subtrees(*inner, q),
        Schema::Expand { inner } => reg_subtrees(*inner, q),
    }
}

/// The subtree catalog of a struct's members, in member order.
pub open spec fn reg_subtrees_members(ms: Seq<Member>, q: Seq<char>) -> Seq<Seq<char>>
    decreases ms,
{
    if ms.len() == 0 {
        Seq::empty()
    } else {
        reg_subtrees_members(ms.drop_last(), q) + reg_subtrees(
            ms.last().schema,
            child_path(q, ms.last().name@),
        )
    }
}

/// The subtree catalog of an enum's variants, in variant order.
pub open spec fn reg_subtrees_variants(vs: Seq<Variant>, q: Seq<char>) -> Seq<Seq<char>>
    decreases vs,
{
    if vs.len() == 0 {
        Seq::empty()
    } else {
        reg_subtrees_variants(vs.drop_last(), q) + reg_subtrees(
            vs.last().schema,
            child_path(q, snake_of(vs.last().name@)),
        )
    }
}

/// A usable path segment: non-empty and free of the separator.
pub open spec fn seg_ok(s: Seq<char>) -> bool {
    s.len() > 0 && forall|i: int| 0 <= i < s.len() ==> s[i] != '.'
}

/// Member names usable as path segments and pairwise distinct.
pub open spec fn member_names_ok(ms: Seq<Member>) -> bool {
    &&& forall|i: int| 0 <= i < ms.len() ==> seg_ok(#[trigger] ms[i].name@)
    &&& forall|i: int, j: int| 0 <= i < j < ms.len() ==> ms[i].name@ != ms[j].name@
}

/// Snake-cased variant names usable as path segments and pairwise distinct.
pub open spec fn variant_segs_ok(vs: Seq<Variant>) -> bool {
    &&& forall|i: int| 0 <= i < vs.len() ==> seg_ok(snake_of(#[trigger] vs[i].name@))
    &&& forall|i: int, j: int| 0 <= i < j < vs.len() ==> snake_of(vs[i].name@) != snake_of(
        vs[j].name@,
    )
}

/// Whether `s` registers descriptors only strictly below its own path, so
/// that it can stand as the element of a `Repeated` member without its
/// entries colliding with the member's own branch entry.
pub open spec fn nested_below(s: Schema) -> bool
    decreases s,
{
    match s {
        Schema::Struct { .. } => true,
        Schema::Optional { inner } => nested_below(*inner),
        Schema::Expand { inner } => nested_below(*inner),
        _ => false,
    }
}

/// A well-formed schema: every struct's member names and every enum's
/// snake-cased variant names are usable, pairwise-distinct path segments,
/// and every `Repeated` element registers strictly below the member path.
pub open spec fn wf_schema(s: Schema) -> bool
    decreases s,
{
    match s {
        Schema::Leaf => true,
        Schema::Struct { members } => member_names_ok(members@) && (forall|i: int|
            0 <= i < members@.len() ==> wf_schema(#[trigger] members@[i].schema)),
        Schema::Enum { name, variants } => variant_segs_ok(variants@) && (forall|i: int|
            0 <= i < variants@.len() ==> wf_schema(#[trigger] variants@[i].schema)),
        Schema::Repeated { elem_name, element } => nested_below(*element) && wf_schema(*element),
        Schema::Optional { inner } => wf_schema(*inner),
        Schema::Expand { inner } => wf_schema(*inner),
    }
}

impl Member {
    /// A scalar member.
    pub fn leaf(name: &str) -> (r: Member)
        ensures
            r.name@ == name@,
            r.schema is Leaf,
    {
        Member { name: name.to_owned(), schema: Schema::Leaf }
    }

    /// A member of any schema kind.
    pub fn of(name: &str, schema: Schema) -> (r: Member)
        ensures
            r.name@ == name@,
            r.schema == schema,
    {
        Member { name: name.to_owned(), schema }
    }
}

impl Variant {
    /// A variant carrying a payload schema.
    pub fn of(name: &str, schema: Schema) -> (r: Variant)
        ensures
            r.name@ == name@,
            r.schema == schema,
    {
        Variant { name: name.to_owned(), schema }
    }
}

impl Schema {
    /// A struct schema from its members.
    pub fn structure(members: Vec<Member>) -> (r: Schema)
        ensures
            r == (Schema::Struct { members }),
    {
        Schema::Struct { members }
    }

    /// An enum schema from its display name and variants.
    pub fn union(name: &str, variants: Vec<Variant>) -> (r: Schema)
        ensures
            r matches Schema::Enum { name: n, variants: vs } && n@ == name@ && vs == variants,
    {
        Schema::Enum { name: name.to_owned(), variants }
    }

    /// A repeated member whose elements all follow `element`.
    pub fn repeated(elem_name: &str, element: Schema) -> (r: Schema)
        ensures
            r matches Schema::Repeated { elem_name: t, element: e } && t@ == elem_name@ && *e
                == element,
    {
        Schema::Repeated { elem_name: elem_name.to_owned(), element: Box::new(element) }
    }

    /// An optional member of the inner schema.
    pub fn optional(inner: Schema) -> (r: Schema)
        ensures
            r matches Schema::Optional { inner: e } && *e == inner,
    {
        Schema::Optional { inner: Box::new(inner) }
    }

    /// A member whose inner schema is flattened into the member's path.
    pub fn expand(inner: Schema) -> (r: Schema)
        ensures
            r matches Schema::Expand { inner: e } && *e == inner,
    {
        Schema::Expand { inner: Box::new(inner) }
    }
}

} // verus!
