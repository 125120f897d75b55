use vstd::prelude::*;
use crate::header_field::FieldKind;
use crate::schema::FieldEntry;
use crate::schema::Member;
use crate::schema::Schema;
use crate::schema::Variant;
use crate::schema::child_path;
use crate::schema::member_names_ok;
use crate::schema::nested_below;
use crate::schema::reg_entries;
use crate::schema::reg_entries_members;
use crate::schema::reg_entries_variants;
use crate::schema::seg_ok;
use crate::schema::variant_segs_ok;
use crate::schema::wf_schema;
use crate::casing::snake_of;
use crate::schema::reg_subtrees;
use crate::schema::reg_subtrees_members;
use crate::schema::reg_subtrees_variants;
use crate::tree::EventSpec;
use crate::tree::events_of;
use crate::tree::events_of_members;
use crate::tree::events_of_elements;
use crate::tree::opens_of;
use crate::tree::opens_of_members;
use crate::tree::opens_of_elements;
use crate::tree::enum_label;
use crate::value::Value;
use crate::value::conforms;
use crate::value::repeats_bounded;
use crate::header_field::Registry;
use crate::header_field::spec_get;
use crate::schema::str_views;
use crate::tree::lookups_ok;
use crate::tree::lookups_ok_members;
use crate::tree::lookups_ok_elements;

verus! {

/// `p` lies strictly below `q` in the path tree: `p` begins with `q`
/// followed by the separator.
pub open spec fn extends(p: Seq<char>, q: Seq<char>) -> bool {
    p.len() > q.len() && p.subrange(0, q.len() as int) == q && p[q.len() as int] == '.'
}

/// `p` is `q` itself or lies strictly below it.
pub open spec fn in_scope(p: Seq<char>, q: Seq<char>) -> bool {
    p == q || extends(p, q)
}

/// The field paths of a sequence of descriptor entries.
pub open spec fn paths_of(es: Seq<FieldEntry>) -> Seq<Seq<char>> {
    es.map(|i: int, e: FieldEntry| e.0)
}

/// No two elements of `ps` are equal.
pub open spec fn no_dup(ps: Seq<Seq<char>>) -> bool {
    forall|i: int, j: int| 0 <= i < j < ps.len() ==> ps[i] != ps[j]
}

/// The shape of a child path: its length, its copy of the parent path, the
/// separator, and its copy of the segment.
proof fn lemma_child_index(q: Seq<char>, x: Seq<char>)
    ensures
        child_path(q, x).len() == q.len() + 1 + x.len(),
        forall|i: int| 0 <= i < q.len() ==> child_path(q, x)[i] == q[i],
        child_path(q, x)[q.len() as int] == '.',
        forall|i: int| 0 <= i < x.len() ==> child_path(q, x)[q.len() + 1 + i] == x[i],
{
    reveal_strlit(".");
    assert("."@.len() == 1);
}

/// A child path strictly extends its parent.
proof fn lemma_child_extends(q: Seq<char>, x: Seq<char>)
    ensures
        extends(child_path(q, x), q),
{
    lemma_child_index(q, x);
    assert(child_path(q, x).subrange(0, q.len() as int) =~= q);
}

/// What `in_scope` gives character by character.
proof fn lemma_scope_chars(p: Seq<char>, r: Seq<char>)
    requires
        in_scope(p, r),
    ensures
        p.len() >= r.len(),
        forall|i: int| 0 <= i < r.len() ==> p[i] == r[i],
        p.len() == r.len() || p[r.len() as int] == '.',
{
    if p != r {
        assert forall|i: int| 0 <= i < r.len() implies p[i] == r[i] by {
            assert(p.subrange(0, r.len() as int)[i] == p[i]);
        }
    }
}

/// Scope is carried up: whatever lies in the scope of `r` lies strictly
/// below any `q` that `r` strictly extends.
proof fn lemma_scope_trans(p: Seq<char>, r: Seq<char>, q: Seq<char>)
    requires
        in_scope(p, r),
        extends(r, q),
    ensures
        extends(p, q),
{
    lemma_scope_chars(p, r);
    assert(p.subrange(0, q.len() as int) =~= q) by {
        assert forall|i: int| 0 <= i < q.len() implies p.subrange(0, q.len() as int)[i] == q[i] by {
            assert(p[i] == r[i]);
            assert(r.subrange(0, q.len() as int)[i] == r[i]);
        }
    }
    assert(p[q.len() as int] == r[q.len() as int]);
}

/// The scopes of two distinct segments under one parent are disjoint: no
/// path lies in both.
proof fn lemma_scopes_exclusive(q: Seq<char>, x: Seq<char>, y: Seq<char>, p: Seq<char>, p2: Seq<char>)
    requires
        seg_ok(x),
        seg_ok(y),
        x != y,
        in_scope(p, child_path(q, x)),
        in_scope(p2, child_path(q, y)),
    ensures
        p != p2,
    decreases x.len(),
{
    if p != p2 {
    } else if x.len() > y.len() {
        lemma_scopes_exclusive(q, y, x, p, p);
    } else {
        let a = q.len() + 1;
        let qx = child_path(q, x);
        let qy = child_path(q, y);
        lemma_child_index(q, x);
        lemma_child_index(q, y);
        lemma_scope_chars(p, qx);
        lemma_scope_chars(p, qy);
        if x.len() == y.len() {
            assert(x =~= y) by {
                assert forall|i: int| 0 <= i < x.len() implies x[i] == y[i] by {
                    assert(p[a + i] == qx[a + i]);
                    assert(p[a + i] == qy[a + i]);
                }
            }
        } else {
            let j = a + x.len();
            assert(p[j as int] == qy[j as int]);
            assert(qy[j as int] == y[x.len() as int]);
            assert(y[x.len() as int] != '.');
            assert(p.len() > j);
            assert(p[j as int] == '.');
        }
    }
}

/// Every entry a schema registers at `q` has `q` itself or a strict
/// extension of it as its path.
proof fn lemma_entries_in_scope(s: Schema, q: Seq<char>, m: Seq<char>)
    ensures
        forall|k: int|
            0 <= k < reg_entries(s, q, m).len() ==> in_scope(
                #[trigger] reg_entries(s, q, m)[k].0,
                q,
            ),
    decreases s, 1int,
{
    let es = reg_entries(s, q, m);
    match s {
        Schema::Leaf => {},
        Schema::Struct { members } => {
            lemma_members_extend(members@, q);
            assert forall|k: int| 0 <= k < es.len() implies in_scope(es[k].0, q) by {
                assert(extends(reg_entries_members(members@, q)[k].0, q));
            }
        },
        Schema::Enum { name, variants } => {
            lemma_variants_extend(variants@, q);
            let tail = reg_entries_variants(variants@, q);
            assert forall|k: int| 0 <= k < es.len() implies in_scope(es[k].0, q) by {
                if k > 0 {
                    assert(es[k] == tail[k - 1]);
                    assert(extends(tail[k - 1].0, q));
                }
            }
        },
        Schema::Repeated { elem_name, element } => {
            lemma_entries_in_scope(*element, q, m);
            let tail = reg_entries(*element, q, m);
            assert forall|k: int| 0 <= k < es.len() implies in_scope(es[k].0, q) by {
                if k > 0 {
                    assert(es[k] == tail[k - 1]);
                    assert(in_scope(tail[k - 1].0, q));
                }
            }
        },
        Schema::Optional { inner } => {
            lemma_entries_in_scope(*inner, q, m);
            assert forall|k: int| 0 <= k < es.len() implies in_scope(es[k].0, q) by {
                assert(in_scope(reg_entries(*inner, q, m)[k].0, q));
            }
        },
        Schema::Expand { inner } => {
            lemma_entries_in_scope(*inner, q, m);
            assert forall|k: int| 0 <= k < es.len() implies in_scope(es[k].0, q) by {
                assert(in_scope(reg_entries(*inner, q, m)[k].0, q));
            }
        },
    }
}

/// Every entry a struct's members register under `q` strictly extends `q`.
proof fn lemma_members_extend(ms: Seq<Member>, q: Seq<char>)
    ensures
        forall|k: int|
            0 <= k < reg_entries_members(ms, q).len() ==> extends(
                #[trigger] reg_entries_members(ms, q)[k].0,
                q,
            ),
    decreases ms, 0int,
{
    if ms.len() > 0 {
        let last = ms[ms.len() - 1];
        let child = child_path(q, last.name@);
        lemma_members_extend(ms.drop_last(), q);
        assert(decreases_to!(ms => ms[ms.len() - 1]));
        lemma_entries_in_scope(last.schema, child, last.name@);
        lemma_child_extends(q, last.name@);
        let pre = reg_entries_members(ms.drop_last(), q);
        let blk = reg_entries(last.schema, child, last.name@);
        assert forall|k: int|
            0 <= k < reg_entries_members(ms, q).len() implies extends(
            reg_entries_members(ms, q)[k].0,
            q,
        ) by {
            if k >= pre.len() {
                let p = blk[k - pre.len()].0;
                lemma_scope_trans(p, child, q);
            }
        }
    }
}

/// Every entry an enum's variants register under `q` strictly extends `q`.
proof fn lemma_variants_extend(vs: Seq<Variant>, q: Seq<char>)
    ensures
        forall|k: int|
            0 <= k < reg_entries_variants(vs, q).len() ==> extends(
                #[trigger] reg_entries_variants(vs, q)[k].0,
                q,
            ),
    decreases vs, 0int,
{
    if vs.len() > 0 {
        let last = vs[vs.len() - 1];
        let seg = snake_of(last.name@);
        let child = child_path(q, seg);
        lemma_variants_extend(vs.drop_last(), q);
        assert(decreases_to!(vs => vs[vs.len() - 1]));
        lemma_entries_in_scope(last.schema, child, seg);
        lemma_child_extends(q, seg);
        let pre = reg_entries_variants(vs.drop_last(), q);
        let blk = reg_entries(last.schema, child, seg);
        assert forall|k: int|
            0 <= k < reg_entries_variants(vs, q).len() implies extends(
            reg_entries_variants(vs, q)[k].0,
            q,
        ) by {
            if k >= pre.len() {
                let p = blk[k - pre.len()].0;
                lemma_scope_trans(p, child, q);
            }
        }
    }
}

/// A schema that registers strictly below its path really does so.
proof fn lemma_nested_strict(s: Schema, q: Seq<char>, m: Seq<char>)
    requires
        nested_below(s),
    ensures
        forall|k: int|
            0 <= k < reg_entries(s, q, m).len() ==> extends(
                #[trigger] reg_entries(s, q, m)[k].0,
                q,
            ),
    decreases s,
{
    let es = reg_entries(s, q, m);
    match s {
        Schema::Struct { members } => {
            lemma_members_extend(members@, q);
            assert forall|k: int| 0 <= k < es.len() implies extends(es[k].0, q) by {
                assert(extends(reg_entries_members(members@, q)[k].0, q));
            }
        },
        Schema::Optional { inner } => {
            lemma_nested_strict(*inner, q, m);
            assert forall|k: int| 0 <= k < es.len() implies extends(es[k].0, q) by {
                assert(extends(reg_entries(*inner, q, m)[k].0, q));
            }
        },
        Schema::Expand { inner } => {
            lemma_nested_strict(*inner, q, m);
            assert forall|k: int| 0 <= k < es.len() implies extends(es[k].0, q) by {
                assert(extends(reg_entries(*inner, q, m)[k].0, q));
            }
        },
        _ => {},
    }
}

/// Entries registered by members whose names all differ from `x` never
/// reach the scope of segment `x`.
proof fn lemma_members_avoid(ms: Seq<Member>, q: Seq<char>, x: Seq<char>)
    requires
        seg_ok(x),
        forall|i: int| 0 <= i < ms.len() ==> seg_ok(#[trigger] ms[i].name@),
        forall|i: int| 0 <= i < ms.len() ==> (#[trigger] ms[i].name@) != x,
    ensures
        forall|k: int|
            0 <= k < reg_entries_members(ms, q).len() ==> !in_scope(
                #[trigger] reg_entries_members(ms, q)[k].0,
                child_path(q, x),
            ),
    decreases ms,
{
    if ms.len() > 0 {
        let last = ms[ms.len() - 1];
        let child = child_path(q, last.name@);
        lemma_members_avoid(ms.drop_last(), q, x);
        assert(decreases_to!(ms => ms[ms.len() - 1]));
        lemma_entries_in_scope(last.schema, child, last.name@);
        let pre = reg_entries_members(ms.drop_last(), q);
        let blk = reg_entries(last.schema, child, last.name@);
        assert forall|k: int|
            0 <= k < reg_entries_members(ms, q).len() implies !in_scope(
            reg_entries_members(ms, q)[k].0,
            child_path(q, x),
        ) by {
            if k >= pre.len() {
                let p = blk[k - pre.len()].0;
                if in_scope(p, child_path(q, x)) {
                    lemma_scopes_exclusive(q, last.name@, x, p, p);
                }
            }
        }
    }
}

/// Entries registered by variants whose snake-cased names all differ from
/// `x` never reach the scope of segment `x`.
proof fn lemma_variants_avoid(vs: Seq<Variant>, q: Seq<char>, x: Seq<char>)
    requires
        seg_ok(x),
        forall|i: int| 0 <= i < vs.len() ==> seg_ok(snake_of(#[trigger] vs[i].name@)),
        forall|i: int| 0 <= i < vs.len() ==> snake_of(#[trigger] vs[i].name@) != x,
    ensures
        forall|k: int|
            0 <= k < reg_entries_variants(vs, q).len() ==> !in_scope(
                #[trigger] reg_entries_variants(vs, q)[k].0,
                child_path(q, x),
            ),
    decreases vs,
{
    if vs.len() > 0 {
        let last = vs[vs.len() - 1];
        let seg = snake_of(last.name@);
        let child = child_path(q, seg);
        lemma_variants_avoid(vs.drop_last(), q, x);
        assert(decreases_to!(vs => vs[vs.len() - 1]));
        lemma_entries_in_scope(last.schema, child, seg);
        let pre = reg_entries_variants(vs.drop_last(), q);
        let blk = reg_entries(last.schema, child, seg);
        assert forall|k: int|
            0 <= k < reg_entries_variants(vs, q).len() implies !in_scope(
            reg_entries_variants(vs, q)[k].0,
            child_path(q, x),
        ) by {
            if k >= pre.len() {
                let p = blk[k - pre.len()].0;
                if in_scope(p, child_path(q, x)) {
                    lemma_scopes_exclusive(q, seg, x, p, p);
                }
            }
        }
    }
}

/// The paths a well-formed schema registers at `q` are pairwise distinct.
pub proof fn lemma_entries_no_dup(s: Schema, q: Seq<char>, m: Seq<char>)
    requires
        wf_schema(s),
    ensures
        no_dup(paths_of(reg_entries(s, q, m))),
    decreases s, 1int,
{
    match s {
        Schema::Leaf => {},
        Schema::Struct { members } => {
            lemma_members_no_dup(members@, q);
        },
        Schema::Enum { name, variants } => {
            lemma_variants_no_dup(variants@, q);
            lemma_variants_extend(variants@, q);
            let es = reg_entries(s, q, m);
            let vs = reg_entries_variants(variants@, q);
            assert forall|i: int, j: int| 0 <= i < j < paths_of(es).len() implies paths_of(es)[i]
                != paths_of(es)[j] by {
                if i == 0 {
                    assert(extends(vs[j - 1].0, q));
                } else {
                    assert(paths_of(vs)[i - 1] != paths_of(vs)[j - 1]);
                }
            }
        },
        Schema::Repeated { elem_name, element } => {
            lemma_entries_no_dup(*element, q, m);
            lemma_nested_strict(*element, q, m);
            let es = reg_entries(s, q, m);
            let inner = reg_entries(*element, q, m);
            assert forall|i: int, j: int| 0 <= i < j < paths_of(es).len() implies paths_of(es)[i]
                != paths_of(es)[j] by {
                if i == 0 {
                    assert(extends(inner[j - 1].0, q));
                } else {
                    assert(paths_of(inner)[i - 1] != paths_of(inner)[j - 1]);
                }
            }
        },
        Schema::Optional { inner } => {
            lemma_entries_no_dup(*inner, q, m);
        },
        Schema::Expand { inner } => {
            lemma_entries_no_dup(*inner, q, m);
        },
    }
}

/// The paths a well-formed struct's members register are pairwise distinct.
proof fn lemma_members_no_dup(ms: Seq<Member>, q: Seq<char>)
    requires
        member_names_ok(ms),
        forall|i: int| 0 <= i < ms.len() ==> wf_schema(#[trigger] ms[i].schema),
    ensures
        no_dup(paths_of(reg_entries_members(ms, q))),
    decreases ms, 0int,
{
    if ms.len() > 0 {
        let last = ms[ms.len() - 1];
        let child = child_path(q, last.name@);
        lemma_members_no_dup(ms.drop_last(), q);
        assert(decreases_to!(ms => ms[ms.len() - 1]));
        lemma_entries_no_dup(last.schema, child, last.name@);
        lemma_members_avoid(ms.drop_last(), q, last.name@);
        lemma_entries_in_scope(last.schema, child, last.name@);
        let pre = reg_entries_members(ms.drop_last(), q);
        let blk = reg_entries(last.schema, child, last.name@);
        let es = reg_entries_members(ms, q);
        assert forall|i: int, j: int| 0 <= i < j < paths_of(es).len() implies paths_of(es)[i]
            != paths_of(es)[j] by {
            if j < pre.len() {
                assert(paths_of(pre)[i] != paths_of(pre)[j]);
            } else if i >= pre.len() {
                assert(paths_of(blk)[i - pre.len()] != paths_of(blk)[j - pre.len()]);
            } else {
                assert(!in_scope(pre[i].0, child));
                assert(in_scope(blk[j - pre.len()].0, child));
            }
        }
    }
}

/// The paths a well-formed enum's variants register are pairwise distinct.
proof fn lemma_variants_no_dup(vs: Seq<Variant>, q: Seq<char>)
    requires
        variant_segs_ok(vs),
        forall|i: int| 0 <= i < vs.len() ==> wf_schema(#[trigger] vs[i].schema),
    ensures
        no_dup(paths_of(reg_entries_variants(vs, q))),
    decreases vs, 0int,
{
    if vs.len() > 0 {
        let last = vs[vs.len() - 1];
        let seg = snake_of(last.name@);
        let child = child_path(q, seg);
        lemma_variants_no_dup(vs.drop_last(), q);
        assert(decreases_to!(vs => vs[vs.len() - 1]));
        lemma_entries_no_dup(last.schema, child, seg);
        lemma_variants_avoid(vs.drop_last(), q, seg);
        lemma_entries_in_scope(last.schema, child, seg);
        let pre = reg_entries_variants(vs.drop_last(), q);
        let blk = reg_entries(last.schema, child, seg);
        let es = reg_entries_variants(vs, q);
        assert forall|i: int, j: int| 0 <= i < j < paths_of(es).len() implies paths_of(es)[i]
            != paths_of(es)[j] by {
            if j < pre.len() {
                assert(paths_of(pre)[i] != paths_of(pre)[j]);
            } else if i >= pre.len() {
                assert(paths_of(blk)[i - pre.len()] != paths_of(blk)[j - pre.len()]);
            } else {
                assert(!in_scope(pre[i].0, child));
                assert(in_scope(blk[j - pre.len()].0, child));
            }
        }
    }
}

/// For every well-formed schema, catalog construction is collision-free:
/// no two descriptor entries share a field path.
pub proof fn lemma_catalog_no_duplicate_paths(s: Schema, prefix: Seq<char>)
    requires
        wf_schema(s),
    ensures
        no_dup(paths_of(reg_entries(s, prefix, prefix))),
{
    lemma_entries_no_dup(s, prefix, prefix);
}

/// A full catalog with a root branch entry at `prefix` is collision-free
/// too, when the schema under the root registers strictly below it.
pub proof fn lemma_root_catalog_no_duplicate_paths(
    s: Schema,
    prefix: Seq<char>,
    display: Seq<char>,
)
    requires
        wf_schema(s),
        nested_below(s),
    ensures
        no_dup(
            paths_of(
                seq![(prefix, display, FieldKind::Branch)] + reg_entries(s, prefix, prefix),
            ),
        ),
{
    lemma_entries_no_dup(s, prefix, prefix);
    lemma_nested_strict(s, prefix, prefix);
    let es = seq![(prefix, display, FieldKind::Branch)] + reg_entries(s, prefix, prefix);
    let inner = reg_entries(s, prefix, prefix);
    assert forall|i: int, j: int| 0 <= i < j < paths_of(es).len() implies paths_of(es)[i]
        != paths_of(es)[j] by {
        if i == 0 {
            assert(extends(inner[j - 1].0, prefix));
        } else {
            assert(paths_of(inner)[i - 1] != paths_of(inner)[j - 1]);
        }
    }
}


/// `a` is a subsequence of `b`: the elements of `a` appear in `b`, in
/// `a`'s order.
pub open spec fn subseq_of(a: Seq<Seq<char>>, b: Seq<Seq<char>>) -> bool
    decreases a.len() + b.len(),
{
    if a.len() == 0 {
        true
    } else if b.len() == 0 {
        false
    } else {
        (a.last() == b.last() && subseq_of(a.drop_last(), b.drop_last())) || subseq_of(
            a,
            b.drop_last(),
        )
    }
}

proof fn lemma_subseq_empty(a: Seq<Seq<char>>, b: Seq<Seq<char>>)
    requires
        a.len() == 0,
    ensures
        subseq_of(a, b),
{
}

proof fn lemma_subseq_refl(a: Seq<Seq<char>>)
    ensures
        subseq_of(a, a),
    decreases a.len(),
{
    if a.len() > 0 {
        lemma_subseq_refl(a.drop_last());
    }
}

proof fn lemma_subseq_extend_right(a: Seq<Seq<char>>, b: Seq<Seq<char>>, c: Seq<Seq<char>>)
    requires
        subseq_of(a, b),
    ensures
        subseq_of(a, b + c),
    decreases c.len(),
{
    if c.len() == 0 {
        assert(b + c =~= b);
    } else {
        lemma_subseq_extend_right(a, b, c.drop_last());
        assert((b + c).drop_last() =~= b + c.drop_last());
    }
}

proof fn lemma_subseq_extend_left(a: Seq<Seq<char>>, b: Seq<Seq<char>>, c: Seq<Seq<char>>)
    requires
        subseq_of(a, c),
    ensures
        subseq_of(a, b + c),
    decreases a.len() + c.len(),
{
    if a.len() == 0 {
    } else if c.len() == 0 {
    } else {
        assert((b + c).drop_last() =~= b + c.drop_last());
        assert((b + c).last() == c.last());
        if a.last() == c.last() && subseq_of(a.drop_last(), c.drop_last()) {
            lemma_subseq_extend_left(a.drop_last(), b, c.drop_last());
        } else {
            assert(subseq_of(a, c.drop_last()));
            lemma_subseq_extend_left(a, b, c.drop_last());
        }
    }
}

proof fn lemma_subseq_concat(
    a1: Seq<Seq<char>>,
    b1: Seq<Seq<char>>,
    a2: Seq<Seq<char>>,
    b2: Seq<Seq<char>>,
)
    requires
        subseq_of(a1, b1),
        subseq_of(a2, b2),
    ensures
        subseq_of(a1 + a2, b1 + b2),
    decreases a2.len() + b2.len(),
{
    if b2.len() == 0 {
        assert(a2.len() == 0);
        assert(a1 + a2 =~= a1);
        assert(b1 + b2 =~= b1);
    } else if a2.len() == 0 {
        assert(a1 + a2 =~= a1);
        lemma_subseq_extend_right(a1, b1, b2);
    } else {
        assert((a1 + a2).drop_last() =~= a1 + a2.drop_last());
        assert((b1 + b2).drop_last() =~= b1 + b2.drop_last());
        assert((a1 + a2).last() == a2.last());
        assert((b1 + b2).last() == b2.last());
        if a2.last() == b2.last() && subseq_of(a2.drop_last(), b2.drop_last()) {
            lemma_subseq_concat(a1, b1, a2.drop_last(), b2.drop_last());
        } else {
            assert(subseq_of(a2, b2.drop_last()));
            lemma_subseq_concat(a1, b1, a2, b2.drop_last());
        }
    }
}

/// Whatever is a subsequence of one variant's subtree chunk is a
/// subsequence of the whole variant catalog.
proof fn lemma_sub_variant_chunk(a: Seq<Seq<char>>, vs: Seq<Variant>, q: Seq<char>, i: int)
    requires
        0 <= i < vs.len(),
        subseq_of(a, reg_subtrees(vs[i].schema, child_path(q, snake_of(vs[i].name@)))),
    ensures
        subseq_of(a, reg_subtrees_variants(vs, q)),
    decreases vs.len(),
{
    let chunk_last = reg_subtrees(
        vs.last().schema,
        child_path(q, snake_of(vs.last().name@)),
    );
    if i == vs.len() - 1 {
        lemma_subseq_extend_left(a, reg_subtrees_variants(vs.drop_last(), q), chunk_last);
    } else {
        assert(vs.drop_last()[i] == vs[i]);
        lemma_sub_variant_chunk(a, vs.drop_last(), q, i);
        lemma_subseq_extend_right(a, reg_subtrees_variants(vs.drop_last(), q), chunk_last);
    }
}

/// The subtrees rendering opens for a conforming value appear in the
/// registered subtree catalog, in catalog order. Repeated members are
/// assumed to hold at most one element: two elements of distinct variants
/// can open their subtrees in an order the catalog lists only once.
pub proof fn lemma_opens_follow_catalog(v: Value, s: Schema, q: Seq<char>)
    requires
        conforms(v, s),
        repeats_bounded(v),
    ensures
        subseq_of(opens_of(v, s, q), reg_subtrees(s, q)),
    decreases v, s,
{
    match s {
        Schema::Leaf => {
            assert(opens_of(v, s, q).len() == 0);
            lemma_subseq_empty(opens_of(v, s, q), reg_subtrees(s, q));
        },
        Schema::Struct { members } => {
            match v {
                Value::Struct { fields } => {
                    lemma_opens_members(fields@, members@, q);
                },
                _ => {},
            }
        },
        Schema::Enum { name, variants } => {
            match v {
                Value::Enum { variant, payload } => {
                    let i = variant as int;
                    let seg = snake_of(variants@[i].name@);
                    let child = child_path(q, seg);
                    assert(decreases_to!(v => v->payload));
                    lemma_opens_follow_catalog(*payload, variants@[i].schema, child);
                    lemma_sub_variant_chunk(
                        opens_of(*payload, variants@[i].schema, child),
                        variants@,
                        q,
                        i,
                    );
                    lemma_subseq_refl(seq![q]);
                    lemma_subseq_concat(
                        seq![q],
                        seq![q],
                        opens_of(*payload, variants@[i].schema, child),
                        reg_subtrees_variants(variants@, q),
                    );
                },
                _ => {},
            }
        },
        Schema::Repeated { elem_name, element } => {
            match v {
                Value::Repeated { elements } => {
                    if elements@.len() == 0 {
                        assert(opens_of_elements(elements@, *element, q).len() == 0);
                        assert(opens_of(v, s, q).len() == 0);
                        lemma_subseq_empty(opens_of(v, s, q), reg_subtrees(s, q));
                    } else {
                        assert(elements@.len() == 1);
                        assert(decreases_to!(v => v->elements));
                        assert(decreases_to!(v->elements => v->elements@));
                        assert(decreases_to!(v->elements@ => v->elements@[0]));
                        lemma_opens_follow_catalog(elements@[0], *element, q);
                        assert(elements@.drop_last() =~= Seq::<Value>::empty());
                        assert(elements@.last() == elements@[0]);
                        assert(opens_of_elements(Seq::<Value>::empty(), *element, q) =~= Seq::<
                            Seq<char>,
                        >::empty());
                        assert(opens_of_elements(elements@, *element, q) =~= opens_of(
                            elements@[0],
                            *element,
                            q,
                        ));
                        lemma_subseq_extend_left(
                            opens_of_elements(elements@, *element, q),
                            seq![q],
                            reg_subtrees(*element, q),
                        );
                    }
                },
                _ => {},
            }
        },
        Schema::Optional { inner } => {
            match v {
                Value::Optional { content } => {
                    match content {
                        Some(b) => {
                            assert(decreases_to!(v => v->content));
                            lemma_opens_follow_catalog(*b, *inner, q);
                        },
                        None => {},
                    }
                },
                _ => {},
            }
        },
        Schema::Expand { inner } => {
            lemma_opens_follow_catalog(v, *inner, q);
        },
    }
}

/// The member-by-member form of the catalog-order law.
proof fn lemma_opens_members(fs: Seq<Value>, ms: Seq<Member>, q: Seq<char>)
    requires
        fs.len() == ms.len(),
        forall|i: int| 0 <= i < ms.len() ==> conforms(#[trigger] fs[i], ms[i].schema),
        forall|i: int| 0 <= i < fs.len() ==> repeats_bounded(#[trigger] fs[i]),
    ensures
        subseq_of(opens_of_members(fs, ms, q), reg_subtrees_members(ms, q)),
    decreases fs,
{
    if fs.len() == 0 || ms.len() == 0 {
    } else {
        lemma_opens_members(fs.drop_last(), ms.drop_last(), q);
        assert(decreases_to!(fs => fs[fs.len() - 1]));
        lemma_opens_follow_catalog(
            fs.last(),
            ms.last().schema,
            child_path(q, ms.last().name@),
        );
        lemma_subseq_concat(
            opens_of_members(fs.drop_last(), ms.drop_last(), q),
            reg_subtrees_members(ms.drop_last(), q),
            opens_of(fs.last(), ms.last().schema, child_path(q, ms.last().name@)),
            reg_subtrees(ms.last().schema, child_path(q, ms.last().name@)),
        );
    }
}

/// The subtree paths among a sequence of rendered events, in emission
/// order.
pub open spec fn open_paths(es: Seq<EventSpec>) -> Seq<Seq<char>>
    decreases es.len(),
{
    if es.len() == 0 {
        Seq::empty()
    } else {
        open_paths(es.drop_last()) + (match es.last() {
            EventSpec::Open { path, label, start, length } => seq![path],
            _ => Seq::<Seq<char>>::empty(),
        })
    }
}

proof fn lemma_open_paths_concat(x: Seq<EventSpec>, y: Seq<EventSpec>)
    ensures
        open_paths(x + y) =~= open_paths(x) + open_paths(y),
    decreases y.len(),
{
    if y.len() == 0 {
        assert(x + y =~= x);
        assert(open_paths(y) =~= Seq::<Seq<char>>::empty());
    } else {
        assert((x + y).drop_last() =~= x + y.drop_last());
        lemma_open_paths_concat(x, y.drop_last());
        assert((x + y).last() == y.last());
    }
}

/// The renderer's emitted `Open` events carry exactly the subtree paths
/// `opens_of` lists, in order.
pub proof fn lemma_events_open_paths(v: Value, s: Schema, q: Seq<char>, start: int, length: int)
    ensures
        open_paths(events_of(v, s, q, start, length)) =~= opens_of(v, s, q),
    decreases v, s,
{
    match s {
        Schema::Leaf => {
            let es = events_of(v, s, q, start, length);
            assert(es.drop_last() =~= Seq::<EventSpec>::empty());
            assert(open_paths(Seq::<EventSpec>::empty()) =~= Seq::<Seq<char>>::empty());
            assert(open_paths(es) =~= Seq::<Seq<char>>::empty());
        },
        Schema::Struct { members } => {
            match v {
                Value::Struct { fields } => {
                    lemma_events_open_paths_members(fields@, members@, q, start, length);
                },
                _ => {
                    assert(events_of(v, s, q, start, length).len() == 0);
                    assert(opens_of(v, s, q).len() == 0);
                },
            }
        },
        Schema::Enum { name, variants } => {
            match v {
                Value::Enum { variant, payload } => {
                    if (variant as int) >= variants@.len() {
                        assert(events_of(v, s, q, start, length).len() == 0);
                        assert(opens_of(v, s, q).len() == 0);
                    } else {
                        let i = variant as int;
                        let seg = snake_of(variants@[i].name@);
                        let child = child_path(q, seg);
                        assert(decreases_to!(v => v->payload));
                        lemma_events_open_paths(*payload, variants@[i].schema, child, start, length);
                        let open_ev = EventSpec::Open {
                            path: q,
                            label: enum_label(name@, variants@[i].name@),
                            start,
                            length,
                        };
                        let pe = events_of(*payload, variants@[i].schema, child, start, length);
                        lemma_open_paths_concat(seq![open_ev], pe);
                        lemma_open_paths_concat(seq![open_ev] + pe, seq![EventSpec::Close]);
                        assert(open_paths(Seq::<EventSpec>::empty()) =~= Seq::<Seq<char>>::empty());
                        assert(seq![open_ev].drop_last() =~= Seq::<EventSpec>::empty());
                        assert(seq![EventSpec::Close].drop_last() =~= Seq::<EventSpec>::empty());
                        assert(open_paths(seq![open_ev]) =~= seq![q]);
                        assert(open_paths(seq![EventSpec::Close]) =~= Seq::<Seq<char>>::empty());
                    }
                },
                _ => {
                    assert(events_of(v, s, q, start, length).len() == 0);
                    assert(opens_of(v, s, q).len() == 0);
                },
            }
        },
        Schema::Repeated { elem_name, element } => {
            match v {
                Value::Repeated { elements } => {
                    lemma_events_open_paths_elements(elements@, *element, q, start, length);
                },
                _ => {
                    assert(events_of(v, s, q, start, length).len() == 0);
                    assert(opens_of(v, s, q).len() == 0);
                },
            }
        },
        Schema::Optional { inner } => {
            match v {
                Value::Optional { content } => {
                    match content {
                        Some(b) => {
                            assert(decreases_to!(v => v->content));
                            lemma_events_open_paths(*b, *inner, q, start, length);
                        },
                        None => {
                            assert(events_of(v, s, q, start, length).len() == 0);
                            assert(opens_of(v, s, q).len() == 0);
                        },
                    }
                },
                _ => {
                    assert(events_of(v, s, q, start, length).len() == 0);
                    assert(opens_of(v, s, q).len() == 0);
                },
            }
        },
        Schema::Expand { inner } => {
            lemma_events_open_paths(v, *inner, q, start, length);
        },
    }
}

proof fn lemma_events_open_paths_members(
    fs: Seq<Value>,
    ms: Seq<Member>,
    q: Seq<char>,
    start: int,
    length: int,
)
    ensures
        open_paths(events_of_members(fs, ms, q, start, length)) =~= opens_of_members(fs, ms, q),
    decreases fs,
{
    if fs.len() == 0 || ms.len() == 0 || fs.len() != ms.len() {
    } else {
        lemma_events_open_paths_members(fs.drop_last(), ms.drop_last(), q, start, length);
        assert(decreases_to!(fs => fs[fs.len() - 1]));
        lemma_events_open_paths(
            fs.last(),
            ms.last().schema,
            child_path(q, ms.last().name@),
            start,
            length,
        );
        lemma_open_paths_concat(
            events_of_members(fs.drop_last(), ms.drop_last(), q, start, length),
            events_of(fs.last(), ms.last().schema, child_path(q, ms.last().name@), start, length),
        );
    }
}

proof fn lemma_events_open_paths_elements(
    es: Seq<Value>,
    elem: Schema,
    q: Seq<char>,
    start: int,
    length: int,
)
    ensures
        open_paths(events_of_elements(es, elem, q, start, length)) =~= opens_of_elements(
            es,
            elem,
            q,
        ),
    decreases es,
{
    if es.len() == 0 {
    } else {
        lemma_events_open_paths_elements(es.drop_last(), elem, q, start, length);
        assert(decreases_to!(es => es[es.len() - 1]));
        lemma_events_open_paths(es.last(), elem, q, start, length);
        lemma_open_paths_concat(
            events_of_elements(es.drop_last(), elem, q, start, length),
            events_of(es.last(), elem, q, start, length),
        );
    }
}


/// A key that stands in the entries is found by lookup.
proof fn lemma_spec_get_present(es: Seq<FieldEntry>, k: Seq<char>)
    requires
        exists|j: int| 0 <= j < es.len() && (#[trigger] es[j]).0 == k,
    ensures
        spec_get(es, k) is Some,
    decreases es.len(),
{
    let j = choose|j: int| 0 <= j < es.len() && (#[trigger] es[j]).0 == k;
    if es[0].0 == k {
    } else {
        assert(es.drop_first()[j - 1] == es[j]);
        lemma_spec_get_present(es.drop_first(), k);
    }
}

/// Every entry of `sub` has a descriptor in `es`.
pub open spec fn covered(es: Seq<FieldEntry>, sub: Seq<FieldEntry>) -> bool {
    forall|k: int| 0 <= k < sub.len() ==> spec_get(es, (#[trigger] sub[k]).0) is Some
}

/// Every path of `sub` stands in the catalog `st`.
pub open spec fn st_covered(st: Seq<Seq<char>>, sub: Seq<Seq<char>>) -> bool {
    forall|k: int| 0 <= k < sub.len() ==> st.contains(#[trigger] sub[k])
}

proof fn lemma_covered_split(es: Seq<FieldEntry>, a: Seq<FieldEntry>, b: Seq<FieldEntry>)
    requires
        covered(es, a + b),
    ensures
        covered(es, a),
        covered(es, b),
{
    assert forall|k: int| 0 <= k < a.len() implies spec_get(es, (a[k]).0) is Some by {
        assert((a + b)[k] == a[k]);
    }
    assert forall|k: int| 0 <= k < b.len() implies spec_get(es, (b[k]).0) is Some by {
        assert((a + b)[a.len() + k] == b[k]);
    }
}

proof fn lemma_st_covered_split(st: Seq<Seq<char>>, a: Seq<Seq<char>>, b: Seq<Seq<char>>)
    requires
        st_covered(st, a + b),
    ensures
        st_covered(st, a),
        st_covered(st, b),
{
    assert forall|k: int| 0 <= k < a.len() implies st.contains(a[k]) by {
        assert((a + b)[k] == a[k]);
    }
    assert forall|k: int| 0 <= k < b.len() implies st.contains(b[k]) by {
        assert((a + b)[a.len() + k] == b[k]);
    }
}

/// Coverage of a variant list covers each variant's chunk.
proof fn lemma_covered_variant_chunk(
    es: Seq<FieldEntry>,
    st: Seq<Seq<char>>,
    vs: Seq<Variant>,
    q: Seq<char>,
    i: int,
)
    requires
        covered(es, reg_entries_variants(vs, q)),
        st_covered(st, reg_subtrees_variants(vs, q)),
        0 <= i < vs.len(),
    ensures
        covered(
            es,
            reg_entries(vs[i].schema, child_path(q, snake_of(vs[i].name@)), snake_of(vs[i].name@)),
        ),
        st_covered(st, reg_subtrees(vs[i].schema, child_path(q, snake_of(vs[i].name@)))),
    decreases vs.len(),
{
    lemma_covered_split(
        es,
        reg_entries_variants(vs.drop_last(), q),
        reg_entries(
            vs.last().schema,
            child_path(q, snake_of(vs.last().name@)),
            snake_of(vs.last().name@),
        ),
    );
    lemma_st_covered_split(
        st,
        reg_subtrees_variants(vs.drop_last(), q),
        reg_subtrees(vs.last().schema, child_path(q, snake_of(vs.last().name@))),
    );
    if i == vs.len() - 1 {
    } else {
        assert(vs.drop_last()[i] == vs[i]);
        lemma_covered_variant_chunk(es, st, vs.drop_last(), q, i);
    }
}

/// Under full coverage of a schema's catalog, every lookup rendering a
/// conforming value performs succeeds.
proof fn lemma_conforms_lookups_ok(
    es: Seq<FieldEntry>,
    st: Seq<Seq<char>>,
    v: Value,
    s: Schema,
    q: Seq<char>,
    m: Seq<char>,
)
    requires
        conforms(v, s),
        covered(es, reg_entries(s, q, m)),
        st_covered(st, reg_subtrees(s, q)),
    ensures
        lookups_ok(es, st, v, s, q),
    decreases v, s,
{
    match s {
        Schema::Leaf => {
            assert(reg_entries(s, q, m)[0].0 == q);
        },
        Schema::Struct { members } => {
            match v {
                Value::Struct { fields } => {
                    lemma_conforms_lookups_members(es, st, fields@, members@, q);
                },
                _ => {},
            }
        },
        Schema::Enum { name, variants } => {
            match v {
                Value::Enum { variant, payload } => {
                    let i = variant as int;
                    assert(reg_entries(s, q, m)[0].0 == q);
                    assert(reg_subtrees(s, q)[0] == q);
                    lemma_covered_split(
                        es,
                        seq![(q, name@, FieldKind::Branch)],
                        reg_entries_variants(variants@, q),
                    );
                    lemma_st_covered_split(st, seq![q], reg_subtrees_variants(variants@, q));
                    lemma_covered_variant_chunk(es, st, variants@, q, i);
                    assert(decreases_to!(v => v->payload));
                    lemma_conforms_lookups_ok(
                        es,
                        st,
                        *payload,
                        variants@[i].schema,
                        child_path(q, snake_of(variants@[i].name@)),
                        snake_of(variants@[i].name@),
                    );
                },
                _ => {},
            }
        },
        Schema::Repeated { elem_name, element } => {
            match v {
                Value::Repeated { elements } => {
                    lemma_covered_split(
                        es,
                        seq![(q, elem_name@, FieldKind::Branch)],
                        reg_entries(*element, q, m),
                    );
                    lemma_st_covered_split(st, seq![q], reg_subtrees(*element, q));
                    lemma_conforms_lookups_elements(es, st, elements@, *element, q, m);
                },
                _ => {},
            }
        },
        Schema::Optional { inner } => {
            match v {
                Value::Optional { content } => {
                    match content {
                        Some(b) => {
                            assert(decreases_to!(v => v->content));
                            lemma_conforms_lookups_ok(es, st, *b, *inner, q, m);
                        },
                        None => {},
                    }
                },
                _ => {},
            }
        },
        Schema::Expand { inner } => {
            lemma_conforms_lookups_ok(es, st, v, *inner, q, m);
        },
    }
}

proof fn lemma_conforms_lookups_members(
    es: Seq<FieldEntry>,
    st: Seq<Seq<char>>,
    fs: Seq<Value>,
    ms: Seq<Member>,
    q: Seq<char>,
)
    requires
        fs.len() == ms.len(),
        forall|i: int| 0 <= i < ms.len() ==> conforms(#[trigger] fs[i], ms[i].schema),
        covered(es, reg_entries_members(ms, q)),
        st_covered(st, reg_subtrees_members(ms, q)),
    ensures
        lookups_ok_members(es, st, fs, ms, q),
    decreases fs,
{
    if fs.len() == 0 || ms.len() == 0 {
    } else {
        let child = child_path(q, ms.last().name@);
        lemma_covered_split(
            es,
            reg_entries_members(ms.drop_last(), q),
            reg_entries(ms.last().schema, child, ms.last().name@),
        );
        lemma_st_covered_split(
            st,
            reg_subtrees_members(ms.drop_last(), q),
            reg_subtrees(ms.last().schema, child),
        );
        lemma_conforms_lookups_members(es, st, fs.drop_last(), ms.drop_last(), q);
        assert(decreases_to!(fs => fs[fs.len() - 1]));
        lemma_conforms_lookups_ok(es, st, fs.last(), ms.last().schema, child, ms.last().name@);
    }
}

proof fn lemma_conforms_lookups_elements(
    es: Seq<FieldEntry>,
    st: Seq<Seq<char>>,
    vs: Seq<Value>,
    elem: Schema,
    q: Seq<char>,
    m: Seq<char>,
)
    requires
        forall|i: int| 0 <= i < vs.len() ==> conforms(#[trigger] vs[i], elem),
        covered(es, reg_entries(elem, q, m)),
        st_covered(st, reg_subtrees(elem, q)),
    ensures
        lookups_ok_elements(es, st, vs, elem, q),
    decreases vs,
{
    if vs.len() > 0 {
        lemma_conforms_lookups_elements(es, st, vs.drop_last(), elem, q, m);
        assert(decreases_to!(vs => vs[vs.len() - 1]));
        lemma_conforms_lookups_ok(es, st, vs.last(), elem, q, m);
    }
}

/// A registry built from a schema answers every lookup the renderer
/// makes: rendering a value that conforms to the registry's schema under
/// it can never hit `UnknownField`. Registration and rendering cannot
/// drift apart.
pub proof fn lemma_registry_lookups_ok(r: Registry, v: Value)
    requires
        r.wf(),
        conforms(v, r.schema),
    ensures
        lookups_ok(r.hf_map.entries(), str_views(r.subtrees@), v, r.schema, r.prefix@),
{
    let es = r.hf_map.entries();
    let st = str_views(r.subtrees@);
    let inner = reg_entries(r.schema, r.prefix@, r.prefix@);
    assert forall|k: int| 0 <= k < inner.len() implies spec_get(es, (inner[k]).0) is Some by {
        assert(es[k + 1] == inner[k]);
        lemma_spec_get_present(es, inner[k].0);
    }
    assert forall|k: int|
        0 <= k < reg_subtrees(r.schema, r.prefix@).len() implies st.contains(
        reg_subtrees(r.schema, r.prefix@)[k],
    ) by {
        assert(st[k + 1] == reg_subtrees(r.schema, r.prefix@)[k]);
    }
    lemma_conforms_lookups_ok(es, st, v, r.schema, r.prefix@, r.prefix@);
}


/// The registry-level form of the catalog-order law: the root subtree
/// followed by the subtrees one conforming message opens is a subsequence
/// of the registered subtree catalog, so the catalog's index order is the
/// render-time open order.
pub proof fn lemma_registry_opens_follow_catalog(r: Registry, v: Value)
    requires
        r.wf(),
        conforms(v, r.schema),
        repeats_bounded(v),
    ensures
        subseq_of(seq![r.prefix@] + opens_of(v, r.schema, r.prefix@), str_views(r.subtrees@)),
{
    lemma_opens_follow_catalog(v, r.schema, r.prefix@);
    lemma_subseq_refl(seq![r.prefix@]);
    lemma_subseq_concat(
        seq![r.prefix@],
        seq![r.prefix@],
        opens_of(v, r.schema, r.prefix@),
        reg_subtrees(r.schema, r.prefix@),
    );
}

} // verus!
