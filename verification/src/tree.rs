use vstd::prelude::*;
use vstd::string::StringExecFns;
use crate::casing::snake_case;
use crate::casing::snake_of;
use crate::header_field::HeaderFieldMap;
use crate::schema::FieldEntry;
use crate::header_field::spec_get;
use crate::schema::Member;
use crate::schema::Schema;
use crate::schema::child_path;
use crate::schema::join_path;
use crate::schema::str_views;
use crate::value::Value;
use crate::value::conforms;

verus! {

/// One emitted piece of rendered output. The host replays the sequence
/// into its own tree widget: `Open` places a labeled, collapsible
/// container under the current one and descends, `Close` ascends, `Text`
/// records one textual field line under the current container. Every
/// event carries the byte span it refers to.
pub enum TreeEvent {
    Text { path: String, start: usize, length: usize, text: String },
    Open { path: String, label: String, start: usize, length: usize },
    Close,
}

/// The mathematical form of one tree event.
pub enum EventSpec {
    Text { path: Seq<char>, start: int, length: int, text: Seq<char> },
    Open { path: Seq<char>, label: Seq<char>, start: int, length: int },
    Close,
}

impl View for TreeEvent {
    type V = EventSpec;

    open spec fn view(&self) -> EventSpec {
        match self {
            TreeEvent::Text { path, start, length, text } => EventSpec::Text {
                path: path@,
                start: *start as int,
                length: *length as int,
                text: text@,
            },
            TreeEvent::Open { path, label, start, length } => EventSpec::Open {
                path: path@,
                label: label@,
                start: *start as int,
                length: *length as int,
            },
            TreeEvent::Close => EventSpec::Close,
        }
    }
}

/// The views of a sequence of tree events.
pub open spec fn event_views(es: Seq<TreeEvent>) -> Seq<EventSpec> {
    es.map(|i: int, e: TreeEvent| e@)
}

/// The label of an opened enum subtree: `Name (Variant)`.
pub open spec fn enum_label(name: Seq<char>, variant: Seq<char>) -> Seq<char> {
    name + " ("@ + variant + ")"@
}

/// The events rendering `v` against `s` at path `q` emits over the byte
/// span `start..start+length`, in order. The span is attached unchanged to
/// every event of one message: the codec reports no per-field offsets.
pub open spec fn events_of(v: Value, s: Schema, q: Seq<char>, start: int, length: int) -> Seq<
    EventSpec,
>
    decreases v, s,
{
    match s {
        Schema::Leaf => seq![
            EventSpec::Text { path: q, start, length, text: spec_leaf_text(v) },
        ],
        Schema::Struct { members } => match v {
            Value::Struct { fields } => events_of_members(fields@, members@, q, start, length),
            _ => Seq::empty(),
        },
        Schema::Enum { name, variants } => match v {
            Value::Enum { variant, payload } => if variant < variants@.len() {
                let vn = variants@[variant as int].name@;
                seq![
                    EventSpec::Open { path: q, label: enum_label(name@, vn), start, length },
                ] + events_of(
                    *payload,
                    variants@[variant as int].schema,
                    child_path(q, snake_of(vn)),
                    start,
                    length,
                ) + seq![EventSpec::Close]
            } else {
                Seq::empty()
            },
            _ => Seq::empty(),
        },
        Schema::Repeated { elem_name, element } => match v {
            Value::Repeated { elements } => events_of_elements(elements@, *element, q, start, length),
            _ => Seq::empty(),
        },
        Schema::Optional { inner } => match v {
            Value::Optional { content } => match content {
                Some(b) => events_of(*b, *inner, q, start, length),
                None => Seq::empty(),
            },
            _ => Seq::empty(),
        },
        Schema::Expand { inner } => events_of(v, *inner, q, start, length),
    }
}

/// The display text a leaf value renders.
pub open spec fn spec_leaf_text(v: Value) -> Seq<char> {
    match v {
        Value::Leaf { text } => text@,
        _ => Seq::empty(),
    }
}

/// The events of a struct's members, in member order.
pub open spec fn events_of_members(
    fs: Seq<Value>,
    ms: Seq<Member>,
    q: Seq<char>,
    start: int,
    length: int,
) -> Seq<EventSpec>
    decreases fs,
{
    if fs.len() == 0 || ms.len() == 0 {
        Seq::empty()
    } else if fs.len() != ms.len() {
        Seq::empty()
    } else {
        events_of_members(fs.drop_last(), ms.drop_last(), q, start, length) + events_of(
            fs.last(),
            ms.last().schema,
            child_path(q, ms.last().name@),
            start,
            length,
        )
    }
}

/// The events of a repeated member's elements: every element is rendered
/// under the same path and span.
pub open spec fn events_of_elements(
    es: Seq<Value>,
    elem: Schema,
    q: Seq<char>,
    start: int,
    length: int,
) -> Seq<EventSpec>
    decreases es,
{
    if es.len() == 0 {
        Seq::empty()
    } else {
        events_of_elements(es.drop_last(), elem, q, start, length) + events_of(
            es.last(),
            elem,
            q,
            start,
            length,
        )
    }
}

/// The subtree paths rendering `v` against `s` at `q` opens, in order.
pub open spec fn opens_of(v: Value, s: Schema, q: Seq<char>) -> Seq<Seq<char>>
    decreases v, s,
{
    match s {
        Schema::Leaf => Seq::empty(),
        Schema::Struct { members } => match v {
            Value::Struct { fields } => opens_of_members(fields@, members@, q),
            _ => Seq::empty(),
        },
        Schema::Enum { name, variants } => match v {
            Value::Enum { variant, payload } => if variant < variants@.len() {
                let vn = variants@[variant as int].name@;
                seq![q] + opens_of(
                    *payload,
                    variants@[variant as int].schema,
                    child_path(q, snake_of(vn)),
                )
            } else {
                Seq::empty()
            },
            _ => Seq::empty(),
        },
        Schema::Repeated { elem_name, element } => match v {
            Value::Repeated { elements } => opens_of_elements(elements@, *element, q),
            _ => Seq::empty(),
        },
        Schema::Optional { inner } => match v {
            Value::Optional { content } => match content {
                Some(b) => opens_of(*b, *inner, q),
                None => Seq::empty(),
            },
            _ => Seq::empty(),
        },
        Schema::Expand { inner } => opens_of(v, *inner, q),
    }
}

/// The opened subtree paths of a struct's members, in member order.
pub open spec fn opens_of_members(fs: Seq<Value>, ms: Seq<Member>, q: Seq<char>) -> Seq<Seq<char>>
    decreases fs,
{
    if fs.len() == 0 || ms.len() == 0 {
        Seq::empty()
    } else if fs.len() != ms.len() {
        Seq::empty()
    } else {
        opens_of_members(fs.drop_last(), ms.drop_last(), q) + opens_of(
            fs.last(),
            ms.last().schema,
            child_path(q, ms.last().name@),
        )
    }
}

/// The opened subtree paths of a repeated member's elements.
pub open spec fn opens_of_elements(es: Seq<Value>, elem: Schema, q: Seq<char>) -> Seq<Seq<char>>
    decreases es,
{
    if es.len() == 0 {
        Seq::empty()
    } else {
        opens_of_elements(es.drop_last(), elem, q) + opens_of(es.last(), elem, q)
    }
}

/// Whether every lookup rendering `v` against `s` at `q` performs will
/// succeed: each leaf and enum path has a descriptor, and each enum path
/// stands in the subtree catalog.
pub open spec fn lookups_ok(
    es: Seq<FieldEntry>,
    st: Seq<Seq<char>>,
    v: Value,
    s: Schema,
    q: Seq<char>,
) -> bool
    decreases v, s,
{
    match s {
        Schema::Leaf => spec_get(es, q) is Some,
        Schema::Struct { members } => match v {
            Value::Struct { fields } => lookups_ok_members(es, st, fields@, members@, q),
            _ => true,
        },
        Schema::Enum { name, variants } => match v {
            Value::Enum { variant, payload } => if variant < variants@.len() {
                &&& spec_get(es, q) is Some
                &&& st.contains(q)
                &&& lookups_ok(
                    es,
                    st,
                    *payload,
                    variants@[variant as int].schema,
                    child_path(q, snake_of(variants@[variant as int].name@)),
                )
            } else {
                true
            },
            _ => true,
        },
        Schema::Repeated { elem_name, element } => match v {
            Value::Repeated { elements } => lookups_ok_elements(es, st, elements@, *element, q),
            _ => true,
        },
        Schema::Optional { inner } => match v {
            Value::Optional { content } => match content {
                Some(b) => lookups_ok(es, st, *b, *inner, q),
                None => true,
            },
            _ => true,
        },
        Schema::Expand { inner } => lookups_ok(es, st, v, *inner, q),
    }
}

/// The member-by-member form of `lookups_ok`.
pub open spec fn lookups_ok_members(
    es: Seq<FieldEntry>,
    st: Seq<Seq<char>>,
    fs: Seq<Value>,
    ms: Seq<Member>,
    q: Seq<char>,
) -> bool
    decreases fs,
{
    if fs.len() == 0 || ms.len() == 0 || fs.len() != ms.len() {
        true
    } else {
        lookups_ok_members(es, st, fs.drop_last(), ms.drop_last(), q) && lookups_ok(
            es,
            st,
            fs.last(),
            ms.last().schema,
            child_path(q, ms.last().name@),
        )
    }
}

/// The element-by-element form of `lookups_ok`.
pub open spec fn lookups_ok_elements(
    es: Seq<FieldEntry>,
    st: Seq<Seq<char>>,
    vs: Seq<Value>,
    elem: Schema,
    q: Seq<char>,
) -> bool
    decreases vs,
{
    if vs.len() == 0 {
        true
    } else {
        lookups_ok_elements(es, st, vs.drop_last(), elem, q) && lookups_ok(
            es,
            st,
            vs.last(),
            elem,
            q,
        )
    }
}

/// Each member's lookups are covered by the struct's.
pub proof fn lemma_lookups_members_index(
    es: Seq<FieldEntry>,
    st: Seq<Seq<char>>,
    fs: Seq<Value>,
    ms: Seq<Member>,
    q: Seq<char>,
    i: int,
)
    requires
        lookups_ok_members(es, st, fs, ms, q),
        fs.len() == ms.len(),
        0 <= i < ms.len(),
    ensures
        lookups_ok(es, st, fs[i], ms[i].schema, child_path(q, ms[i].name@)),
    decreases fs.len(),
{
    if i == fs.len() - 1 {
    } else {
        assert(fs.drop_last()[i] == fs[i]);
        assert(ms.drop_last()[i] == ms[i]);
        lemma_lookups_members_index(es, st, fs.drop_last(), ms.drop_last(), q, i);
    }
}

/// Each element's lookups are covered by the repeated member's.
pub proof fn lemma_lookups_elements_index(
    es: Seq<FieldEntry>,
    st: Seq<Seq<char>>,
    vs: Seq<Value>,
    elem: Schema,
    q: Seq<char>,
    i: int,
)
    requires
        lookups_ok_elements(es, st, vs, elem, q),
        0 <= i < vs.len(),
    ensures
        lookups_ok(es, st, vs[i], elem, q),
    decreases vs.len(),
{
    if i == vs.len() - 1 {
    } else {
        assert(vs.drop_last()[i] == vs[i]);
        lemma_lookups_elements_index(es, st, vs.drop_last(), elem, q, i);
    }
}

/// Rendering failure: a field path the registry does not know, from drift
/// between the registered catalog and the schema being rendered. It aborts
/// the current message only.
#[derive(Debug)]
pub enum RenderError {
    UnknownField { path: String },
}

/// Whether the subtree catalog holds `path`.
pub fn contains_path(st: &Vec<String>, path: &str) -> (r: bool)
    ensures
        r == str_views(st@).contains(path@),
{
    let p = path.to_owned();
    let n = st.len();
    let mut i: usize = 0;
    while i < n
        invariant
            n == st@.len(),
            i <= n,
            p@ == path@,
            forall|j: int| 0 <= j < i ==> str_views(st@)[j] != path@,
        decreases n - i,
    {
        if st[i] == p {
            proof {
                assert(str_views(st@)[i as int] == path@);
            }
            return true;
        }
        i += 1;
    }
    proof {
        if str_views(st@).contains(path@) {
            let j = choose|j: int| 0 <= j < str_views(st@).len() && str_views(st@)[j] == path@;
            assert(str_views(st@)[j] != path@);
        }
    }
    false
}

/// Appended events extend their old prefix.
proof fn lemma_prefix_trans(a: Seq<EventSpec>, b: Seq<EventSpec>, c: Seq<EventSpec>)
    requires
        a.is_prefix_of(b),
        b.is_prefix_of(c),
    ensures
        a.is_prefix_of(c),
{
    assert(a =~= c.subrange(0, a.len() as int)) by {
        assert forall|i: int| 0 <= i < a.len() implies a[i] == c.subrange(0, a.len() as int)[i] by {
            assert(a[i] == b.subrange(0, a.len() as int)[i]);
            assert(b[i] == c.subrange(0, b.len() as int)[i]);
        }
    }
}

/// Walks `v` beside `s` at `path`, appending the rendered events to `out`.
/// On success the appended events are exactly `events_of`; a path missing
/// from the descriptor map or the subtree catalog aborts this message with
/// `UnknownField`, leaving whatever was already appended in place.
#[verifier::loop_isolation(false)]
pub fn render_value(
    v: &Value,
    s: &Schema,
    path: &str,
    start: usize,
    length: usize,
    hf: &HeaderFieldMap,
    st: &Vec<String>,
    out: &mut Vec<TreeEvent>,
) -> (r: Result<(), RenderError>)
    requires
        conforms(*v, *s),
    ensures
        r is Ok ==> event_views(final(out)@) =~= event_views(old(out)@) + events_of(
            *v,
            *s,
            path@,
            start as int,
            length as int,
        ),
        event_views(old(out)@).is_prefix_of(event_views(final(out)@)),
        lookups_ok(hf.entries(), str_views(st@), *v, *s, path@) ==> r is Ok,
        r matches Err(e) ==> (e matches RenderError::UnknownField { path: p } && (spec_get(
            hf.entries(),
            p@,
        ) is None || !str_views(st@).contains(p@))),
    decreases *v, *s,
{
    let ghost before = event_views(out@);
    match s {
        Schema::Leaf => {
            match v {
                Value::Leaf { text } => {
                    if hf.get(path).is_none() {
                        proof {
                            assert(before.is_prefix_of(event_views(out@)));
                        }
                        return Err(RenderError::UnknownField { path: path.to_owned() });
                    }
                    out.push(
                        TreeEvent::Text {
                            path: path.to_owned(),
                            start,
                            length,
                            text: text.clone(),
                        },
                    );
                    proof {
                        assert(event_views(out@) =~= before + events_of(
                            *v,
                            *s,
                            path@,
                            start as int,
                            length as int,
                        ));
                        assert(before.is_prefix_of(event_views(out@)));
                    }
                },
                _ => {
                    proof {
                        assert(false);
                    }
                },
            }
        },
        Schema::Struct { members } => {
            match v {
                Value::Struct { fields } => {
                    let n = members.len();
                    let mut i: usize = 0;
                    while i < n
                        invariant
                            i <= n,
                            event_views(out@) =~= before + events_of_members(
                                fields@.take(i as int),
                                members@.take(i as int),
                                path@,
                                start as int,
                                length as int,
                            ),
                        decreases n - i,
                    {
                        proof {
                            assert(fields@.take(i + 1).drop_last() =~= fields@.take(i as int));
                            assert(members@.take(i + 1).drop_last() =~= members@.take(i as int));
                            assert(fields@.take(i + 1).last() == fields@[i as int]);
                            assert(members@.take(i + 1).last() == members@[i as int]);
                            assert(decreases_to!(*v => (*v)->fields));
                            assert(decreases_to!((*v)->fields => (*v)->fields@));
                            assert(decreases_to!((*v)->fields@ => (*v)->fields@[i as int]));
                        }
                        let child = join_path(path, members[i].name.as_str());
                        let ghost mid = event_views(out@);
                        let res = render_value(
                            &fields[i],
                            &members[i].schema,
                            child.as_str(),
                            start,
                            length,
                            hf,
                            st,
                            out,
                        );
                        if let Err(e) = res {
                            proof {
                                lemma_prefix_trans(before, mid, event_views(out@));
                                if lookups_ok(hf.entries(), str_views(st@), *v, *s, path@) {
                                    lemma_lookups_members_index(
                                        hf.entries(),
                                        str_views(st@),
                                        fields@,
                                        members@,
                                        path@,
                                        i as int,
                                    );
                                }
                            }
                            return Err(e);
                        }
                        i += 1;
                    }
                    proof {
                        assert(fields@.take(n as int) =~= fields@);
                        assert(members@.take(n as int) =~= members@);
                    }
                },
                _ => {
                    proof {
                        assert(false);
                    }
                },
            }
        },
        Schema::Enum { name, variants } => {
            match v {
                Value::Enum { variant, payload } => {
                    if hf.get(path).is_none() || !contains_path(st, path) {
                        proof {
                            assert(before.is_prefix_of(event_views(out@)));
                        }
                        return Err(RenderError::UnknownField { path: path.to_owned() });
                    }
                    let vn = variants[*variant].name.as_str();
                    let label = name.clone().concat(" (").concat(vn).concat(")");
                    out.push(
                        TreeEvent::Open { path: path.to_owned(), label, start, length },
                    );
                    let seg = snake_case(vn);
                    let child = join_path(path, seg.as_str());
                    let ghost mid = event_views(out@);
                    proof {
                        assert(mid =~= before + seq![
                            EventSpec::Open {
                                path: path@,
                                label: enum_label(name@, variants@[*variant as int].name@),
                                start: start as int,
                                length: length as int,
                            },
                        ]);
                        assert(decreases_to!(*v => (*v)->payload));
                    }
                    let ghost ev_open = EventSpec::Open {
                        path: path@,
                        label: enum_label(name@, variants@[*variant as int].name@),
                        start: start as int,
                        length: length as int,
                    };
                    let ghost pe = events_of(
                        **payload,
                        variants@[*variant as int].schema,
                        child_path(path@, snake_of(variants@[*variant as int].name@)),
                        start as int,
                        length as int,
                    );
                    let res = render_value(
                        payload,
                        &variants[*variant].schema,
                        child.as_str(),
                        start,
                        length,
                        hf,
                        st,
                        out,
                    );
                    if let Err(e) = res {
                        proof {
                            lemma_prefix_trans(before, mid, event_views(out@));
                        }
                        return Err(e);
                    }
                    proof {
                        assert(child@ == child_path(path@, snake_of(variants@[*variant as int].name@)));
                        assert(event_views(out@) =~= mid + pe);
                    }
                    let ghost withpe = out@;
                    out.push(TreeEvent::Close);
                    proof {
                        assert(events_of(*v, *s, path@, start as int, length as int) == seq![ev_open]
                            + pe + seq![EventSpec::Close]);
                        assert(event_views(out@) =~= event_views(withpe).push(EventSpec::Close));
                        assert(event_views(withpe) == mid + pe);
                        assert(event_views(out@) =~= before + (seq![ev_open] + pe + seq![
                            EventSpec::Close,
                        ]));
                        assert(before.is_prefix_of(event_views(out@)));
                    }
                },
                _ => {
                    proof {
                        assert(false);
                    }
                },
            }
        },
        Schema::Repeated { elem_name, element } => {
            match v {
                Value::Repeated { elements } => {
                    let n = elements.len();
                    let mut i: usize = 0;
                    while i < n
                        invariant
                            i <= n,
                            event_views(out@) =~= before + events_of_elements(
                                elements@.take(i as int),
                                **element,
                                path@,
                                start as int,
                                length as int,
                            ),
                        decreases n - i,
                    {
                        proof {
                            assert(elements@.take(i + 1).drop_last() =~= elements@.take(i as int));
                            assert(elements@.take(i + 1).last() == elements@[i as int]);
                            assert(decreases_to!(*v => (*v)->elements));
                            assert(decreases_to!((*v)->elements => (*v)->elements@));
                            assert(decreases_to!((*v)->elements@ => (*v)->elements@[i as int]));
                        }
                        let ghost mid = event_views(out@);
                        let res = render_value(
                            &elements[i],
                            &**element,
                            path,
                            start,
                            length,
                            hf,
                            st,
                            out,
                        );
                        if let Err(e) = res {
                            proof {
                                lemma_prefix_trans(before, mid, event_views(out@));
                                if lookups_ok(hf.entries(), str_views(st@), *v, *s, path@) {
                                    lemma_lookups_elements_index(
                                        hf.entries(),
                                        str_views(st@),
                                        elements@,
                                        **element,
                                        path@,
                                        i as int,
                                    );
                                }
                            }
                            return Err(e);
                        }
                        i += 1;
                    }
                    proof {
                        assert(elements@.take(n as int) =~= elements@);
                    }
                },
                _ => {
                    proof {
                        assert(false);
                    }
                },
            }
        },
        Schema::Optional { inner } => {
            match v {
                Value::Optional { content } => {
                    match content {
                        Some(b) => {
                            proof {
                                assert(decreases_to!(*v => (*v)->content));
                            }
                            let res = render_value(
                                &**b,
                                &**inner,
                                path,
                                start,
                                length,
                                hf,
                                st,
                                out,
                            );
                            if let Err(e) = res {
                                return Err(e);
                            }
                        },
                        None => {},
                    }
                },
                _ => {
                    proof {
                        assert(false);
                    }
                },
            }
        },
        Schema::Expand { inner } => {
            let res = render_value(v, &**inner, path, start, length, hf, st, out);
            if let Err(e) = res {
                return Err(e);
            }
        },
    }
    Ok(())
}

} // verus!
