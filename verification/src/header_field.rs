use vstd::prelude::*;
use vstd::string::StringExecFns;
use crate::casing::title_case;
use crate::casing::snake_case;
use crate::schema::FieldEntry;
use crate::schema::Schema;
use crate::schema::join_path;
use crate::schema::reg_entries;
use crate::schema::reg_entries_members;
use crate::schema::reg_entries_variants;
use crate::schema::reg_subtrees;
use crate::schema::reg_subtrees_members;
use crate::schema::reg_subtrees_variants;
use crate::schema::str_views;
use crate::laws::no_dup;
use crate::laws::paths_of;

verus! {

/// The kind of a registered field: a textual line or a branch that can
/// carry a subtree.
#[derive(Debug, Copy, Clone)]
pub enum FieldKind {
    Text,
    Branch,
}

/// How the host display layer shows a field of a given kind.
#[derive(Debug, Copy, Clone)]
pub enum FieldDisplay {
    BaseNone,
}

/// The value type the host display layer stores for a field of a given
/// kind: a string for textual fields, no value for branches.
#[derive(Debug, Copy, Clone)]
pub enum FieldValueType {
    StringValue,
    NoValue,
}

impl FieldKind {
    /// The display base and value type the host registers for this kind.
    pub fn convert(self) -> (r: (FieldDisplay, FieldValueType))
        ensures
            self is Text ==> r == (FieldDisplay::BaseNone, FieldValueType::StringValue),
            self is Branch ==> r == (FieldDisplay::BaseNone, FieldValueType::NoValue),
    {
        match self {
            FieldKind::Text => (FieldDisplay::BaseNone, FieldValueType::StringValue),
            FieldKind::Branch => (FieldDisplay::BaseNone, FieldValueType::NoValue),
        }
    }
}

/// The descriptor of one registered field: display name and kind.
#[derive(Debug, Clone)]
pub struct HeaderField {
    pub name: String,
    pub kind: FieldKind,
}

/// The descriptor map built by registration: field path to descriptor, in
/// insertion order.
pub struct HeaderFieldMap(Vec<(String, HeaderField)>);

/// The descriptor found for a path: the first entry with that path.
pub open spec fn spec_get(es: Seq<FieldEntry>, k: Seq<char>) -> Option<(Seq<char>, FieldKind)>
    decreases es,
{
    if es.len() == 0 {
        None
    } else if es[0].0 == k {
        Some((es[0].1, es[0].2))
    } else {
        spec_get(es.drop_first(), k)
    }
}

impl HeaderFieldMap {
    /// The entries, in insertion order, as (path, display, kind).
    pub closed spec fn entries(&self) -> Seq<FieldEntry> {
        self.0@.map(|i: int, e: (String, HeaderField)| (e.0@, e.1.name@, e.1.kind))
    }

    pub fn new() -> (r: Self)
        ensures
            r.entries() =~= Seq::<FieldEntry>::empty(),
    {
        HeaderFieldMap(Vec::new())
    }

    /// Adds one descriptor under `key` and hands the map back.
    pub fn add(self, key: String, display_name: &str, kind: FieldKind) -> (r: Self)
        ensures
            r.entries() =~= self.entries().push((key@, display_name@, kind)),
    {
        let mut r = self;
        r.push_entry(key, display_name.to_owned(), kind);
        r
    }

    /// Appends one descriptor entry.
    fn push_entry(&mut self, key: String, display_name: String, kind: FieldKind)
        ensures
            final(self).entries() =~= old(self).entries().push((key@, display_name@, kind)),
    {
        let ghost prior = self.entries();
        self.0.push((key, HeaderField { name: display_name, kind }));
        proof {
            assert(self.entries() =~= prior.push(
                (self.0@.last().0@, self.0@.last().1.name@, self.0@.last().1.kind),
            ));
        }
    }

    /// The number of entries.
    pub fn len(&self) -> (r: usize)
        ensures
            r == self.entries().len(),
    {
        self.0.len()
    }

    /// Looks a path up, returning the first descriptor registered for it.
    pub fn get(&self, key: &str) -> (r: Option<&HeaderField>)
        ensures
            match r {
                Some(hf) => spec_get(self.entries(), key@) == Some((hf.name@, hf.kind)),
                None => spec_get(self.entries(), key@) is None,
            },
    {
        let k = key.to_owned();
        let n = self.0.len();
        let mut i: usize = 0;
        proof {
            assert(self.entries().skip(0) =~= self.entries());
        }
        while i < n
            invariant
                n == self.0@.len(),
                i <= n,
                k@ == key@,
                spec_get(self.entries(), key@) == spec_get(self.entries().skip(i as int), key@),
            decreases n - i,
        {
            proof {
                assert(self.entries().skip(i as int).drop_first() =~= self.entries().skip(
                    i as int + 1,
                ));
                assert(self.entries().skip(i as int)[0] == self.entries()[i as int]);
            }
            if self.0[i].0 == k {
                return Some(&self.0[i].1);
            }
            i += 1;
        }
        proof {
            assert(self.entries().skip(n as int) =~= Seq::<FieldEntry>::empty());
        }
        None
    }
}

/// The registry construction invariant, checked once at initialization:
/// no two descriptors share a field path. A collision is a programming
/// error in the schema, reported as a `SchemaError` naming the path.
#[verifier::loop_isolation(false)]
pub fn check_unique(map: &HeaderFieldMap) -> (r: Result<(), SchemaError>)
    ensures
        r is Ok <==> no_dup(paths_of(map.entries())),
        r matches Err(e) ==> exists|a: int, b: int|
            0 <= a < b < map.entries().len() && map.entries()[a].0 == e.path@ && map.entries()[b].0
                == e.path@,
{
    let n = map.0.len();
    let mut i: usize = 0;
    while i < n
        invariant
            i <= n,
            forall|a: int, b: int|
                0 <= a < b < n && a < i ==> paths_of(map.entries())[a] != paths_of(
                    map.entries(),
                )[b],
        decreases n - i,
    {
        let mut j: usize = i + 1;
        while j < n
            invariant
                i < j <= n || (i + 1 > n && j == i + 1),
                forall|b: int| i < b < j ==> paths_of(map.entries())[i as int] != paths_of(
                    map.entries(),
                )[b],
            decreases n - j,
        {
            if map.0[i].0 == map.0[j].0 {
                proof {
                    assert(map.entries()[i as int].0 == map.0@[i as int].0@);
                    assert(map.entries()[j as int].0 == map.0@[j as int].0@);
                    assert(paths_of(map.entries())[i as int] == map.entries()[i as int].0);
                    assert(paths_of(map.entries())[j as int] == map.entries()[j as int].0);
                    assert(!no_dup(paths_of(map.entries())));
                }
                return Err(SchemaError { path: map.0[i].0.clone() });
            }
            j += 1;
        }
        i += 1;
    }
    Ok(())
}

/// Appends to `hf` and `st` the descriptor entries and subtree catalog that
/// registering `s` at `path` produces; `member` is the bare member name a
/// leaf's display is computed from.
#[verifier::loop_isolation(false)]
pub fn build_into(
    s: &Schema,
    path: &str,
    member: &str,
    hf: &mut HeaderFieldMap,
    st: &mut Vec<String>,
)
    ensures
        final(hf).entries() =~= old(hf).entries() + reg_entries(*s, path@, member@),
        str_views(final(st)@) =~= str_views(old(st)@) + reg_subtrees(*s, path@),
    decreases *s,
{
    let ghost hf0 = hf.entries();
    let ghost st0 = str_views(st@);
    match s {
        Schema::Leaf => {
            let display = title_case(member);
            hf.push_entry(path.to_owned(), display, FieldKind::Text);
        },
        Schema::Struct { members } => {
            let n = members.len();
            let mut i: usize = 0;
            while i < n
                invariant
                    n == members@.len(),
                    i <= n,
                    hf.entries() =~= hf0 + reg_entries_members(members@.take(i as int), path@),
                    str_views(st@) =~= st0 + reg_subtrees_members(
                        members@.take(i as int),
                        path@,
                    ),
                decreases n - i,
            {
                proof {
                    assert(members@.take(i + 1).drop_last() =~= members@.take(i as int));
                    assert(members@.take(i + 1).last() == members@[i as int]);
                    assert(decreases_to!(*s => (*s)->members));
                    assert(decreases_to!((*s)->members => (*s)->members@));
                    assert(decreases_to!((*s)->members@ => (*s)->members@[i as int]));
                    assert(decreases_to!((*s)->members@[i as int] => (*s)->members@[i as int].schema));
                }
                let child = join_path(path, members[i].name.as_str());
                build_into(&members[i].schema, child.as_str(), members[i].name.as_str(), hf, st);
                i += 1;
            }
            proof {
                assert(members@.take(n as int) =~= members@);
            }
        },
        Schema::Enum { name, variants } => {
            hf.push_entry(path.to_owned(), name.clone(), FieldKind::Branch);
            st.push(path.to_owned());
            let ghost hf1 = hf.entries();
            let ghost st1 = str_views(st@);
            proof {
                assert(st1 =~= st0.push(path@));
            }
            let n = variants.len();
            let mut i: usize = 0;
            while i < n
                invariant
                    n == variants@.len(),
                    i <= n,
                    hf.entries() =~= hf1 + reg_entries_variants(variants@.take(i as int), path@),
                    str_views(st@) =~= st1 + reg_subtrees_variants(
                        variants@.take(i as int),
                        path@,
                    ),
                decreases n - i,
            {
                proof {
                    assert(variants@.take(i + 1).drop_last() =~= variants@.take(i as int));
                    assert(variants@.take(i + 1).last() == variants@[i as int]);
                    assert(decreases_to!(*s => (*s)->variants));
                    assert(decreases_to!((*s)->variants => (*s)->variants@));
                    assert(decreases_to!((*s)->variants@ => (*s)->variants@[i as int]));
                    assert(decreases_to!((*s)->variants@[i as int] => (*s)->variants@[i as int].schema));
                }
                let seg = snake_case(variants[i].name.as_str());
                let child = join_path(path, seg.as_str());
                build_into(&variants[i].schema, child.as_str(), seg.as_str(), hf, st);
                i += 1;
            }
            proof {
                assert(variants@.take(n as int) =~= variants@);
                assert(hf.entries() =~= hf0 + reg_entries(*s, path@, member@));
                assert(str_views(st@) =~= st0 + reg_subtrees(*s, path@));
            }
        },
        Schema::Repeated { elem_name, element } => {
            hf.push_entry(path.to_owned(), elem_name.clone(), FieldKind::Branch);
            st.push(path.to_owned());
            proof {
                assert(str_views(st@) =~= st0.push(path@));
            }
            build_into(element, path, member, hf, st);
            proof {
                assert(hf.entries() =~= hf0 + reg_entries(*s, path@, member@));
                assert(str_views(st@) =~= st0 + reg_subtrees(*s, path@));
            }
        },
        Schema::Optional { inner } => {
            build_into(inner, path, member, hf, st);
        },
        Schema::Expand { inner } => {
            build_into(inner, path, member, hf, st);
        },
    }
}

/// Builds the descriptor map and subtree catalog for `s` registered at
/// `prefix`: the flat field catalog the renderer reads at dissection time.
pub fn build_catalog(s: &Schema, prefix: &str) -> (r: (HeaderFieldMap, Vec<String>))
    ensures
        r.0.entries() =~= reg_entries(*s, prefix@, prefix@),
        str_views(r.1@) =~= reg_subtrees(*s, prefix@),
{
    let mut hf = HeaderFieldMap::new();
    let mut st: Vec<String> = Vec::new();
    build_into(s, prefix, prefix, &mut hf, &mut st);
    (hf, st)
}

/// Registry-time failure, fatal to initialization: two descriptors were
/// registered under one field path.
#[derive(Debug)]
pub struct SchemaError {
    pub path: String,
}

/// The registry a dissection session reads: the schema it was built from,
/// the descriptor map, and the subtree catalog, with the root branch entry
/// first in both.
pub struct Registry {
    pub prefix: String,
    pub root_display: String,
    pub schema: Schema,
    pub hf_map: HeaderFieldMap,
    pub subtrees: Vec<String>,
}

impl Registry {
    /// The registry is exactly what registering its schema at its prefix
    /// produces, with the root branch entry and root subtree first.
    pub open spec fn wf(&self) -> bool {
        &&& self.hf_map.entries() == seq![
            (self.prefix@, self.root_display@, FieldKind::Branch),
        ] + reg_entries(self.schema, self.prefix@, self.prefix@)
        &&& str_views(self.subtrees@) == seq![self.prefix@] + reg_subtrees(
            self.schema,
            self.prefix@,
        )
    }

    /// Builds the registry for `schema` rooted at `prefix`: the root
    /// branch entry under the protocol's display name, then the schema's
    /// own catalog.
    pub fn build(schema: Schema, prefix: &str, root_display: &str) -> (r: Registry)
        ensures
            r.wf(),
            r.schema == schema,
            r.prefix@ == prefix@,
            r.root_display@ == root_display@,
    {
        let mut hf = HeaderFieldMap::new();
        let mut st: Vec<String> = Vec::new();
        hf.push_entry(prefix.to_owned(), root_display.to_owned(), FieldKind::Branch);
        st.push(prefix.to_owned());
        proof {
            assert(str_views(st@) =~= seq![prefix@]);
        }
        build_into(&schema, prefix, prefix, &mut hf, &mut st);
        let r = Registry {
            prefix: prefix.to_owned(),
            root_display: root_display.to_owned(),
            schema,
            hf_map: hf,
            subtrees: st,
        };
        proof {
            assert(r.hf_map.entries() =~= seq![(r.prefix@, r.root_display@, FieldKind::Branch)]
                + reg_entries(r.schema, r.prefix@, r.prefix@));
            assert(str_views(r.subtrees@) =~= seq![r.prefix@] + reg_subtrees(r.schema, r.prefix@));
        }
        r
    }
}

/// A protocol type that can register its field catalog: the extension
/// point a concrete protocol implements by delegating to `Registry::build`
/// over its schema value, which carries the exact contract.
pub trait Registration {
    /// The descriptor map: the root branch at `prefix` followed by the
    /// schema's entries.
    fn generate_hf_map(prefix: &str) -> HeaderFieldMap;

    /// The subtree catalog: the root at `prefix` followed by the schema's
    /// subtrees, in render-time open order.
    fn generate_subtree_names(prefix: &str) -> Vec<String>;
}

} // verus!
