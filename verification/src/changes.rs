//! Which fields a change of a vertex or an edge touches, as reported to listeners
//! of storage events and to index synchronisation.
//!
//! A property list stands for the map built from it: a name that occurs again later
//! in the list is shadowed by its later occurrence, and only the pairs that are not
//! shadowed are visited.
use vstd::prelude::*;
use crate::model::{
    Value, ValueView, Tag, TagView, Vertex, Edge, EdgeView, Properties, props_view, lookup, lookup_prop, tags_view,
};
use crate::index_updater::str_eq;

verus! {

/// The pair at `i` is shadowed by a later pair with the same name.
pub open spec fn shadowed(p: Seq<(Seq<char>, ValueView)>, i: int) -> bool {
    exists|j: int| i < j < p.len() && #[trigger] p[j].0 == p[i].0
}

/// The pair at `i` of `new`, if it is visited and its value differs from (or is
/// missing in) `old`.
pub open spec fn entry_change(old: Seq<(Seq<char>, ValueView)>, new: Seq<(Seq<char>, ValueView)>, i: int) -> Seq<
    (Seq<char>, ValueView),
> {
    if shadowed(new, i) || lookup(old, new[i].0) == Some(new[i].1) {
        Seq::empty()
    } else {
        seq![new[i]]
    }
}

/// The changed pairs among the first `n` pairs of `new`, in list order.
pub open spec fn changes_upto(old: Seq<(Seq<char>, ValueView)>, new: Seq<(Seq<char>, ValueView)>, n: nat) -> Seq<
    (Seq<char>, ValueView),
>
    decreases n,
{
    if n == 0 {
        Seq::empty()
    } else {
        changes_upto(old, new, (n - 1) as nat) + entry_change(old, new, n - 1)
    }
}

/// The pairs of `new` whose value is new or differs from the one in `old`.
pub open spec fn changed_pairs(old: Seq<(Seq<char>, ValueView)>, new: Seq<(Seq<char>, ValueView)>) -> Seq<
    (Seq<char>, ValueView),
> {
    changes_upto(old, new, new.len())
}

/// The pair at `i` of `old`, if it is visited and its name is missing in `new`.
pub open spec fn entry_removal(old: Seq<(Seq<char>, ValueView)>, new: Seq<(Seq<char>, ValueView)>, i: int) -> Seq<
    (Seq<char>, ValueView),
> {
    if shadowed(old, i) || lookup(new, old[i].0) is Some {
        Seq::empty()
    } else {
        seq![old[i]]
    }
}

pub open spec fn removals_upto(old: Seq<(Seq<char>, ValueView)>, new: Seq<(Seq<char>, ValueView)>, n: nat) -> Seq<
    (Seq<char>, ValueView),
>
    decreases n,
{
    if n == 0 {
        Seq::empty()
    } else {
        removals_upto(old, new, (n - 1) as nat) + entry_removal(old, new, n - 1)
    }
}

/// The pairs of `old` whose name is missing in `new`.
pub open spec fn removed_pairs(old: Seq<(Seq<char>, ValueView)>, new: Seq<(Seq<char>, ValueView)>) -> Seq<
    (Seq<char>, ValueView),
> {
    removals_upto(old, new, old.len())
}

/// The names of a list of pairs.
pub open spec fn names(p: Seq<(Seq<char>, ValueView)>) -> Seq<Seq<char>> {
    p.map_values(|e: (Seq<char>, ValueView)| e.0)
}

/// The properties of all tags, one list after the other.
pub open spec fn all_props(tags: Seq<TagView>) -> Seq<(Seq<char>, ValueView)>
    decreases tags.len(),
{
    if tags.len() == 0 {
        Seq::empty()
    } else {
        all_props(tags.drop_last()) + tags.last().properties
    }
}

/// The names changed by the tags of a vertex against the old properties `old`, tag by tag.
pub open spec fn tags_changes(old: Seq<(Seq<char>, ValueView)>, tags: Seq<TagView>) -> Seq<Seq<char>>
    decreases tags.len(),
{
    if tags.len() == 0 {
        Seq::empty()
    } else {
        tags_changes(old, tags.drop_last()) + names(changed_pairs(old, tags.last().properties))
    }
}

/// The fields a vertex update changes: `vid` when the id differs, then, tag by tag,
/// each property of the new vertex whose value differs from the old vertex's (read
/// across all its tags) or that the old vertex lacks.
pub open spec fn vertex_changed_fields(
    old_vid: ValueView,
    old_tags: Seq<TagView>,
    new_vid: ValueView,
    new_tags: Seq<TagView>,
) -> Seq<Seq<char>> {
    (if old_vid != new_vid {
        seq!["vid"@]
    } else {
        Seq::empty()
    }) + tags_changes(all_props(old_tags), new_tags)
}

/// The fields an edge update changes: `src`, `dst`, `edge_type`, `ranking` when they
/// differ, then each property whose value differs or that the old edge lacks.
pub open spec fn edge_changed_fields(old: EdgeView, new: EdgeView) -> Seq<Seq<char>> {
    (if old.src != new.src {
        seq!["src"@]
    } else {
        Seq::empty()
    }) + (if old.dst != new.dst {
        seq!["dst"@]
    } else {
        Seq::empty()
    }) + (if old.edge_type != new.edge_type {
        seq!["edge_type"@]
    } else {
        Seq::empty()
    }) + (if old.ranking != new.ranking {
        seq!["ranking"@]
    } else {
        Seq::empty()
    }) + names(changed_pairs(old.props, new.props))
}

/// The position of the first tag named `name`.
pub open spec fn first_tag(tags: Seq<TagView>, name: Seq<char>) -> Option<int>
    decreases tags.len(),
{
    if tags.len() == 0 {
        None
    } else {
        match first_tag(tags.drop_last(), name) {
            Some(i) => Some(i),
            None => if tags.last().name == name {
                Some(tags.len() - 1)
            } else {
                None
            },
        }
    }
}

/// The property changes of one new tag against the old vertex's tags: against the
/// first old tag of the same name, the changed and the removed properties (a removed
/// one with its old value); without such a tag, all its properties.
pub open spec fn tag_property_changes(old_tags: Seq<TagView>, t: TagView) -> Seq<(Seq<char>, ValueView)> {
    match first_tag(old_tags, t.name) {
        Some(i) => changed_pairs(old_tags[i].properties, t.properties) + removed_pairs(
            old_tags[i].properties,
            t.properties,
        ),
        None => changed_pairs(Seq::empty(), t.properties),
    }
}

/// The property changes of a vertex, new tag by new tag.
pub open spec fn vertex_property_changes(old_tags: Seq<TagView>, new_tags: Seq<TagView>) -> Seq<
    (Seq<char>, ValueView),
>
    decreases new_tags.len(),
{
    if new_tags.len() == 0 {
        Seq::empty()
    } else {
        vertex_property_changes(old_tags, new_tags.drop_last()) + tag_property_changes(old_tags, new_tags.last())
    }
}

fn is_shadowed(p: &Properties, i: usize) -> (r: bool)
    requires
        i < p@.len(),
    ensures
        r == shadowed(props_view(p@), i as int),
{
    let ghost pv = props_view(p@);
    let _n = p.len();
    let mut j: usize = i + 1;
    while j < p.len()
        invariant
            i < j <= p@.len(),
            pv == props_view(p@),
            forall|k: int| i < k < j ==> pv[k].0 != pv[i as int].0,
        decreases p@.len() - j,
    {
        if p[j].0 == p[i].0 {
            assert(pv[j as int].0 == pv[i as int].0);
            return true;
        }
        j = j + 1;
    }
    false
}

/// Appends the changed pairs of `new` against `old` to `out`.
fn push_changes(out: &mut Properties, prev: &Properties, next: &Properties)
    ensures
        props_view(final(out)@) == props_view(old(out)@) + changed_pairs(props_view(prev@), props_view(next@)),
{
    let ghost ov = props_view(prev@);
    let ghost nv = props_view(next@);
    let ghost base = props_view(out@);
    let mut i: usize = 0;
    while i < next.len()
        invariant
            i <= next@.len(),
            ov == props_view(prev@),
            nv == props_view(next@),
            props_view(out@) == base + changes_upto(ov, nv, i as nat),
        decreases next@.len() - i,
    {
        let ghost before = props_view(out@);
        if !is_shadowed(next, i) {
            let same = match lookup_prop(prev, &next[i].0) {
                Some(v) => v.same_as(&next[i].1),
                None => false,
            };
            if !same {
                out.push((next[i].0.clone(), next[i].1.clone()));
                assert(props_view(out@) =~= before + seq![nv[i as int]]);
            }
        }
        assert(props_view(out@) =~= base + changes_upto(ov, nv, (i + 1) as nat));
        i = i + 1;
    }
}

/// Appends the pairs of `old` whose name `new` lacks to `out`.
fn push_removals(out: &mut Properties, prev: &Properties, next: &Properties)
    ensures
        props_view(final(out)@) == props_view(old(out)@) + removed_pairs(props_view(prev@), props_view(next@)),
{
    let ghost ov = props_view(prev@);
    let ghost nv = props_view(next@);
    let ghost base = props_view(out@);
    let mut i: usize = 0;
    while i < prev.len()
        invariant
            i <= prev@.len(),
            ov == props_view(prev@),
            nv == props_view(next@),
            props_view(out@) == base + removals_upto(ov, nv, i as nat),
        decreases prev@.len() - i,
    {
        let ghost before = props_view(out@);
        if !is_shadowed(prev, i) {
            if lookup_prop(next, &prev[i].0).is_none() {
                out.push((prev[i].0.clone(), prev[i].1.clone()));
                assert(props_view(out@) =~= before + seq![ov[i as int]]);
            }
        }
        assert(props_view(out@) =~= base + removals_upto(ov, nv, (i + 1) as nat));
        i = i + 1;
    }
}

fn names_of(p: Properties) -> (r: Vec<String>)
    ensures
        r@.map_values(|s: String| s@) == names(props_view(p@)),
{
    let ghost pv = props_view(p@);
    let mut out: Vec<String> = Vec::new();
    let mut i: usize = 0;
    while i < p.len()
        invariant
            i <= p@.len(),
            pv == props_view(p@),
            out@.map_values(|s: String| s@) == names(pv.subrange(0, i as int)),
        decreases p@.len() - i,
    {
        let ghost before = out@.map_values(|s: String| s@);
        let nm = p[i].0.clone();
        assert(nm@ == pv[i as int].0);
        out.push(nm);
        assert(out@.map_values(|s: String| s@) =~= before.push(pv[i as int].0));
        assert(pv.subrange(0, i as int + 1) =~= pv.subrange(0, i as int).push(pv[i as int]));
        assert(out@.map_values(|s: String| s@) =~= names(pv.subrange(0, i as int + 1)));
        i = i + 1;
    }
    assert(pv.subrange(0, i as int) =~= pv);
    out
}

/// All properties of the tags, one list after the other.
fn gather_props(tags: &Vec<Tag>) -> (r: Properties)
    ensures
        props_view(r@) == all_props(tags_view(tags@)),
{
    let ghost tv = tags_view(tags@);
    let mut out: Properties = Vec::new();
    let mut i: usize = 0;
    while i < tags.len()
        invariant
            i <= tags@.len(),
            tv == tags_view(tags@),
            props_view(out@) == all_props(tv.subrange(0, i as int)),
        decreases tags@.len() - i,
    {
        assert(tv.subrange(0, i as int + 1).drop_last() =~= tv.subrange(0, i as int));
        let ghost before = props_view(out@);
        let p = crate::model::clone_props(&tags[i].properties);
        let mut k: usize = 0;
        while k < p.len()
            invariant
                k <= p@.len(),
                props_view(out@) == before + props_view(p@).subrange(0, k as int),
            decreases p@.len() - k,
        {
            let ghost mid = props_view(out@);
            let e = (p[k].0.clone(), p[k].1.clone());
            assert((e.0@, e.1@) == props_view(p@)[k as int]);
            out.push(e);
            assert(props_view(out@) =~= mid.push(props_view(p@)[k as int]));
            assert(props_view(p@).subrange(0, k as int + 1) =~= props_view(p@).subrange(0, k as int).push(
                props_view(p@)[k as int],
            ));
            assert(props_view(out@) =~= before + props_view(p@).subrange(0, k as int + 1));
            k = k + 1;
        }
        assert(props_view(p@).subrange(0, k as int) =~= props_view(p@));
        i = i + 1;
    }
    assert(tv.subrange(0, i as int) =~= tv);
    out
}

/// The fields that an update from `old` to `new` changes.
pub fn compute_changed_fields(old: &Vertex, new: &Vertex) -> (r: Vec<String>)
    ensures
        r@.map_values(|s: String| s@) == vertex_changed_fields(
            (*old.vid)@,
            tags_view(old.tags@),
            (*new.vid)@,
            tags_view(new.tags@),
        ),
{
    let mut changed: Vec<String> = Vec::new();
    if !old.vid.same_as(&new.vid) {
        changed.push("vid".to_owned());
    }
    let ghost head = changed@.map_values(|s: String| s@);
    assert(head =~= (if (*old.vid)@ != (*new.vid)@ {
        seq!["vid"@]
    } else {
        Seq::empty()
    }));
    let old_props = gather_props(&old.tags);
    let ghost ov = props_view(old_props@);
    let ghost tv = tags_view(new.tags@);
    let mut i: usize = 0;
    while i < new.tags.len()
        invariant
            i <= new.tags@.len(),
            ov == props_view(old_props@),
            tv == tags_view(new.tags@),
            changed@.map_values(|s: String| s@) == head + tags_changes(ov, tv.subrange(0, i as int)),
        decreases new.tags@.len() - i,
    {
        assert(tv.subrange(0, i as int + 1).drop_last() =~= tv.subrange(0, i as int));
        let mut pairs: Properties = Vec::new();
        push_changes(&mut pairs, &old_props, &new.tags[i].properties);
        assert(props_view(pairs@) =~= changed_pairs(ov, tv[i as int].properties));
        let ns = names_of(pairs);
        let ghost before = changed@.map_values(|s: String| s@);
        let mut k: usize = 0;
        while k < ns.len()
            invariant
                k <= ns@.len(),
                changed@.map_values(|s: String| s@) == before + ns@.map_values(|s: String| s@).subrange(0, k as int),
            decreases ns@.len() - k,
        {
            let ghost mid = changed@.map_values(|s: String| s@);
            let nm = ns[k].clone();
            assert(nm@ == ns@.map_values(|s: String| s@)[k as int]);
            changed.push(nm);
            assert(changed@.map_values(|s: String| s@) =~= mid.push(nm@));
            assert(changed@.map_values(|s: String| s@) =~= before + ns@.map_values(|s: String| s@).subrange(
                0,
                k as int + 1,
            ));
            k = k + 1;
        }
        assert(ns@.map_values(|s: String| s@).subrange(0, k as int) =~= ns@.map_values(|s: String| s@));
        assert(changed@.map_values(|s: String| s@) =~= head + tags_changes(ov, tv.subrange(0, i as int + 1)));
        i = i + 1;
    }
    assert(tv.subrange(0, i as int) =~= tv);
    changed
}

/// The fields that an update from `old` to `new` changes.
pub fn compute_edge_changed_fields(old: &Edge, new: &Edge) -> (r: Vec<String>)
    ensures
        r@.map_values(|s: String| s@) == edge_changed_fields(old@, new@),
{
    let mut changed: Vec<String> = Vec::new();
    if !old.src.same_as(&new.src) {
        changed.push("src".to_owned());
    }
    if !old.dst.same_as(&new.dst) {
        changed.push("dst".to_owned());
    }
    if !str_eq(old.edge_type.as_str(), new.edge_type.as_str()) {
        changed.push("edge_type".to_owned());
    }
    if old.ranking != new.ranking {
        changed.push("ranking".to_owned());
    }
    let ghost head = changed@.map_values(|s: String| s@);
    let mut pairs: Properties = Vec::new();
    push_changes(&mut pairs, &old.props, &new.props);
    assert(props_view(pairs@) =~= changed_pairs(old@.props, new@.props));
    let ns = names_of(pairs);
    let mut k: usize = 0;
    while k < ns.len()
        invariant
            k <= ns@.len(),
            changed@.map_values(|s: String| s@) == head + ns@.map_values(|s: String| s@).subrange(0, k as int),
        decreases ns@.len() - k,
    {
        let ghost mid = changed@.map_values(|s: String| s@);
        let nm = ns[k].clone();
        assert(nm@ == ns@.map_values(|s: String| s@)[k as int]);
        changed.push(nm);
        assert(changed@.map_values(|s: String| s@) =~= mid.push(nm@));
        assert(changed@.map_values(|s: String| s@) =~= head + ns@.map_values(|s: String| s@).subrange(0, k as int + 1));
        k = k + 1;
    }
    assert(ns@.map_values(|s: String| s@).subrange(0, k as int) =~= ns@.map_values(|s: String| s@));
    assert(changed@.map_values(|s: String| s@) =~= edge_changed_fields(old@, new@));
    changed
}

fn find_tag(tags: &Vec<Tag>, name: &String) -> (r: Option<usize>)
    ensures
        match r {
            Some(j) => j < tags@.len() && first_tag(tags_view(tags@), name@) == Some(j as int),
            None => first_tag(tags_view(tags@), name@) is None,
        },
{
    let ghost tv = tags_view(tags@);
    let mut i: usize = 0;
    while i < tags.len()
        invariant
            i <= tags@.len(),
            tv == tags_view(tags@),
            first_tag(tv.subrange(0, i as int), name@) is None,
        decreases tags@.len() - i,
    {
        assert(tv.subrange(0, i as int + 1).drop_last() =~= tv.subrange(0, i as int));
        if tags[i].name == *name {
            proof {
                lemma_first_tag_prefix(tv, name@, i as int + 1);
            }
            return Some(i);
        }
        i = i + 1;
    }
    assert(tv.subrange(0, i as int) =~= tv);
    None
}

proof fn lemma_first_tag_prefix(tags: Seq<TagView>, name: Seq<char>, n: int)
    requires
        0 <= n <= tags.len(),
        first_tag(tags.subrange(0, n), name) is Some,
    ensures
        first_tag(tags, name) == first_tag(tags.subrange(0, n), name),
    decreases tags.len() - n,
{
    if n < tags.len() {
        assert(tags.subrange(0, n + 1).drop_last() =~= tags.subrange(0, n));
        lemma_first_tag_prefix(tags, name, n + 1);
    } else {
        assert(tags.subrange(0, n) =~= tags);
    }
}

/// The properties that an update from `old_vertex` to `new_vertex` changes, each with
/// its new value (or, for a removed property, its old value).
pub fn detect_changed_properties(old_vertex: &Vertex, new_vertex: &Vertex) -> (r: Properties)
    ensures
        props_view(r@) == vertex_property_changes(tags_view(old_vertex.tags@), tags_view(new_vertex.tags@)),
{
    let ghost otv = tags_view(old_vertex.tags@);
    let ghost ntv = tags_view(new_vertex.tags@);
    let mut changed: Properties = Vec::new();
    let empty: Properties = Vec::new();
    let mut i: usize = 0;
    while i < new_vertex.tags.len()
        invariant
            i <= new_vertex.tags@.len(),
            otv == tags_view(old_vertex.tags@),
            ntv == tags_view(new_vertex.tags@),
            props_view(empty@) == Seq::<(Seq<char>, ValueView)>::empty(),
            props_view(changed@) == vertex_property_changes(otv, ntv.subrange(0, i as int)),
        decreases new_vertex.tags@.len() - i,
    {
        assert(ntv.subrange(0, i as int + 1).drop_last() =~= ntv.subrange(0, i as int));
        let new_tag = &new_vertex.tags[i];
        assert(ntv[i as int] == new_tag@);
        let ghost before = props_view(changed@);
        match find_tag(&old_vertex.tags, &new_tag.name) {
            Some(j) => {
                let old_tag = &old_vertex.tags[j];
                assert(otv[j as int] == old_tag@);
                push_changes(&mut changed, &old_tag.properties, &new_tag.properties);
                push_removals(&mut changed, &old_tag.properties, &new_tag.properties);
                assert(first_tag(otv, new_tag@.name) == Some(j as int));
                assert(props_view(changed@) =~= before + tag_property_changes(otv, new_tag@));
            },
            None => {
                push_changes(&mut changed, &empty, &new_tag.properties);
                assert(props_view(empty@) =~= Seq::<(Seq<char>, ValueView)>::empty());
                assert(props_view(changed@) =~= before + tag_property_changes(otv, new_tag@));
            },
        }
        assert(ntv.subrange(0, i as int + 1).last() == new_tag@);
        assert(props_view(changed@) =~= vertex_property_changes(otv, ntv.subrange(0, i as int + 1)));
        i = i + 1;
    }
    assert(ntv.subrange(0, i as int) =~= ntv);
    changed
}

// ---------------------------------------------------------------------------
// Laws: an update that changes nothing reports nothing
// ---------------------------------------------------------------------------
/// Every property name has one value across the list.
pub open spec fn names_consistent(p: Seq<(Seq<char>, ValueView)>) -> bool {
    forall|i: int, j: int| 0 <= i < p.len() && 0 <= j < p.len() && #[trigger] p[i].0 == #[trigger] p[j].0 ==> p[i].1 == p[j].1
}

/// No two tags share a name.
pub open spec fn tag_names_distinct(tags: Seq<TagView>) -> bool {
    forall|i: int, j: int| 0 <= i < j < tags.len() ==> #[trigger] tags[i].name != #[trigger] tags[j].name
}

/// A pair that is not shadowed is the one a lookup of its name finds.
proof fn lemma_lookup_unshadowed(p: Seq<(Seq<char>, ValueView)>, i: int)
    requires
        0 <= i < p.len(),
        !shadowed(p, i),
    ensures
        lookup(p, p[i].0) == Some(p[i].1),
    decreases p.len(),
{
    if i < p.len() - 1 {
        assert(p[p.len() - 1].0 != p[i].0);
        let q = p.drop_last();
        assert forall|j: int| i < j < q.len() implies #[trigger] q[j].0 != q[i].0 by {
            assert(p[j].0 != p[i].0);
        }
        lemma_lookup_unshadowed(q, i);
    }
}

/// In a list whose names are consistent, a lookup of a pair's name finds its value.
proof fn lemma_lookup_consistent(p: Seq<(Seq<char>, ValueView)>, i: int)
    requires
        0 <= i < p.len(),
        names_consistent(p),
    ensures
        lookup(p, p[i].0) == Some(p[i].1),
    decreases p.len(),
{
    if p.last().0 != p[i].0 {
        let q = p.drop_last();
        assert(i < p.len() - 1);
        assert forall|a: int, b: int| 0 <= a < q.len() && 0 <= b < q.len() && #[trigger] q[a].0 == #[trigger] q[b].0 implies q[a].1
            == q[b].1 by {
            assert(p[a].0 == p[b].0);
        }
        lemma_lookup_consistent(q, i);
    } else {
        assert(p[p.len() - 1].0 == p[i].0);
    }
}

/// No pair of `new` among the first `n` is reported when each visited one is found
/// with its value in `old`.
proof fn lemma_no_changes_upto(old: Seq<(Seq<char>, ValueView)>, new: Seq<(Seq<char>, ValueView)>, n: nat)
    requires
        n <= new.len(),
        forall|i: int| 0 <= i < n && !shadowed(new, i) ==> #[trigger] lookup(old, new[i].0) == Some(new[i].1),
    ensures
        changes_upto(old, new, n) == Seq::<(Seq<char>, ValueView)>::empty(),
    decreases n,
{
    if n > 0 {
        lemma_no_changes_upto(old, new, (n - 1) as nat);
        let i = n - 1;
        if !shadowed(new, i) {
            assert(lookup(old, new[i].0) == Some(new[i].1));
        }
        assert(entry_change(old, new, i) =~= Seq::<(Seq<char>, ValueView)>::empty());
    }
}

/// A property list compared with itself has no changed pairs.
proof fn lemma_no_self_changes(p: Seq<(Seq<char>, ValueView)>)
    ensures
        changed_pairs(p, p) == Seq::<(Seq<char>, ValueView)>::empty(),
{
    assert forall|i: int| 0 <= i < p.len() && !shadowed(p, i) implies #[trigger] lookup(p, p[i].0) == Some(p[i].1) by {
        lemma_lookup_unshadowed(p, i);
    }
    lemma_no_changes_upto(p, p, p.len());
}

/// A property list compared with itself has no removed pairs.
proof fn lemma_no_self_removals(p: Seq<(Seq<char>, ValueView)>, n: nat)
    requires
        n <= p.len(),
    ensures
        removals_upto(p, p, n) == Seq::<(Seq<char>, ValueView)>::empty(),
    decreases n,
{
    if n > 0 {
        lemma_no_self_removals(p, (n - 1) as nat);
        let i = n - 1;
        if !shadowed(p, i) {
            lemma_lookup_unshadowed(p, i);
        }
        assert(entry_removal(p, p, i) =~= Seq::<(Seq<char>, ValueView)>::empty());
    }
}

/// Each property of each tag is among the properties of all tags.
proof fn lemma_all_props_has(tags: Seq<TagView>, t: int, i: int)
    requires
        0 <= t < tags.len(),
        0 <= i < tags[t].properties.len(),
    ensures
        exists|k: int| 0 <= k < all_props(tags).len() && #[trigger] all_props(tags)[k] == tags[t].properties[i],
    decreases tags.len(),
{
    let front = all_props(tags.drop_last());
    if t == tags.len() - 1 {
        assert(all_props(tags)[front.len() + i] == tags[t].properties[i]);
    } else {
        lemma_all_props_has(tags.drop_last(), t, i);
        let k = choose|k: int| 0 <= k < front.len() && #[trigger] front[k] == tags.drop_last()[t].properties[i];
        assert(all_props(tags)[k] == tags[t].properties[i]);
    }
}

/// The tags report nothing against `old` when each of their pairs is found with its
/// value in `old`.
proof fn lemma_no_tags_changes(old: Seq<(Seq<char>, ValueView)>, tags: Seq<TagView>)
    requires
        forall|t: int, i: int|
            0 <= t < tags.len() && 0 <= i < tags[t].properties.len() ==> #[trigger] lookup(
                old,
                tags[t].properties[i].0,
            ) == Some(tags[t].properties[i].1),
    ensures
        tags_changes(old, tags) == Seq::<Seq<char>>::empty(),
    decreases tags.len(),
{
    if tags.len() > 0 {
        let q = tags.drop_last();
        assert forall|t: int, i: int| 0 <= t < q.len() && 0 <= i < q[t].properties.len() implies #[trigger] lookup(
            old,
            q[t].properties[i].0,
        ) == Some(q[t].properties[i].1) by {
            assert(q[t] == tags[t]);
        }
        lemma_no_tags_changes(old, q);
        let last = tags.last().properties;
        assert forall|i: int| 0 <= i < last.len() && !shadowed(last, i) implies #[trigger] lookup(old, last[i].0) == Some(
            last[i].1,
        ) by {
            assert(lookup(old, tags[tags.len() - 1].properties[i].0) == Some(tags[tags.len() - 1].properties[i].1));
        }
        lemma_no_changes_upto(old, last, last.len());
        assert(names(changed_pairs(old, last)) =~= Seq::<Seq<char>>::empty());
    }
}

/// A vertex compared with itself reports no changed field, provided each property
/// name has one value across its tags (otherwise the value read for a name is that
/// of its last tag, and an earlier tag's differing value counts as a change).
pub proof fn lemma_unchanged_vertex_no_fields(vid: ValueView, tags: Seq<TagView>)
    requires
        names_consistent(all_props(tags)),
    ensures
        vertex_changed_fields(vid, tags, vid, tags) == Seq::<Seq<char>>::empty(),
{
    let all = all_props(tags);
    assert forall|t: int, i: int| 0 <= t < tags.len() && 0 <= i < tags[t].properties.len() implies #[trigger] lookup(
        all,
        tags[t].properties[i].0,
    ) == Some(tags[t].properties[i].1) by {
        lemma_all_props_has(tags, t, i);
        let k = choose|k: int| 0 <= k < all.len() && #[trigger] all[k] == tags[t].properties[i];
        lemma_lookup_consistent(all, k);
    }
    lemma_no_tags_changes(all, tags);
}

/// An edge compared with itself reports no changed field.
pub proof fn lemma_unchanged_edge_no_fields(e: EdgeView)
    ensures
        edge_changed_fields(e, e) == Seq::<Seq<char>>::empty(),
{
    lemma_no_self_changes(e.props);
    assert(names(changed_pairs(e.props, e.props)) =~= Seq::<Seq<char>>::empty());
}

/// The first tag named as the `i`-th is the `i`-th when tag names are distinct.
proof fn lemma_first_tag_found(tags: Seq<TagView>, name: Seq<char>)
    ensures
        first_tag(tags, name) matches Some(j) ==> 0 <= j < tags.len() && tags[j].name == name,
        first_tag(tags, name) is None ==> forall|j: int| 0 <= j < tags.len() ==> #[trigger] tags[j].name != name,
    decreases tags.len(),
{
    if tags.len() > 0 {
        let q = tags.drop_last();
        lemma_first_tag_found(q, name);
        if first_tag(tags, name) is None {
            assert forall|j: int| 0 <= j < tags.len() implies #[trigger] tags[j].name != name by {
                if j < tags.len() - 1 {
                    assert(q[j] == tags[j]);
                }
            }
        }
        if let Some(j) = first_tag(q, name) {
            assert(q[j] == tags[j]);
        }
    }
}

proof fn lemma_first_tag_distinct(tags: Seq<TagView>, i: int)
    requires
        0 <= i < tags.len(),
        tag_names_distinct(tags),
    ensures
        first_tag(tags, tags[i].name) == Some(i),
    decreases tags.len(),
{
    let q = tags.drop_last();
    lemma_first_tag_found(q, tags[i].name);
    if i == tags.len() - 1 {
        if let Some(j) = first_tag(q, tags[i].name) {
            assert(q[j] == tags[j]);
            assert(tags[j].name != tags[i].name);
        }
    } else {
        assert forall|a: int, b: int| 0 <= a < b < q.len() implies #[trigger] q[a].name != #[trigger] q[b].name by {
            assert(tags[a].name != tags[b].name);
        }
        assert(q[i] == tags[i]);
        lemma_first_tag_distinct(q, i);
    }
}

proof fn lemma_no_property_changes_prefix(tags: Seq<TagView>, n: nat)
    requires
        n <= tags.len(),
        tag_names_distinct(tags),
    ensures
        vertex_property_changes(tags, tags.subrange(0, n as int)) == Seq::<(Seq<char>, ValueView)>::empty(),
    decreases n,
{
    if n > 0 {
        let pre = tags.subrange(0, n as int);
        assert(pre.drop_last() =~= tags.subrange(0, n - 1));
        lemma_no_property_changes_prefix(tags, (n - 1) as nat);
        let t = tags[n - 1];
        assert(pre.last() == t);
        lemma_first_tag_distinct(tags, n - 1);
        lemma_no_self_changes(t.properties);
        lemma_no_self_removals(t.properties, t.properties.len());
        assert(tag_property_changes(tags, t) =~= Seq::<(Seq<char>, ValueView)>::empty());
    }
}

/// A vertex compared with itself has no property changes, provided its tag names
/// are distinct (otherwise each tag is compared with the first tag of its name).
pub proof fn lemma_unchanged_vertex_no_property_changes(tags: Seq<TagView>)
    requires
        tag_names_distinct(tags),
    ensures
        vertex_property_changes(tags, tags) == Seq::<(Seq<char>, ValueView)>::empty(),
{
    lemma_no_property_changes_prefix(tags, tags.len());
    assert(tags.subrange(0, tags.len() as int) =~= tags);
}

/// `x` is one of the first `n` pairs of `p`.
spec fn among(p: Seq<(Seq<char>, ValueView)>, n: int, x: (Seq<char>, ValueView)) -> bool {
    exists|i: int| 0 <= i < n && #[trigger] p[i] == x
}

/// Each changed pair among the first `n` of `new` is one of those pairs.
proof fn lemma_changes_from_new(old: Seq<(Seq<char>, ValueView)>, new: Seq<(Seq<char>, ValueView)>, n: nat)
    requires
        n <= new.len(),
    ensures
        forall|k: int|
            0 <= k < changes_upto(old, new, n).len() ==> #[trigger] among(new, n as int, changes_upto(old, new, n)[k]),
    decreases n,
{
    if n > 0 {
        lemma_changes_from_new(old, new, (n - 1) as nat);
        let c0 = changes_upto(old, new, (n - 1) as nat);
        let c = changes_upto(old, new, n);
        assert forall|k: int| 0 <= k < c.len() implies #[trigger] among(new, n as int, c[k]) by {
            if k < c0.len() {
                assert(c[k] == c0[k]);
                assert(among(new, n - 1, c0[k]));
            } else {
                assert(c[k] == new[n - 1]);
            }
        }
    }
}

/// A name reported among the changed properties is the name of a property of the
/// new list.
proof fn lemma_changed_names_from_new(old: Seq<(Seq<char>, ValueView)>, new: Seq<(Seq<char>, ValueView)>, x: Seq<char>)
    requires
        names(changed_pairs(old, new)).contains(x),
    ensures
        exists|i: int| 0 <= i < new.len() && #[trigger] new[i].0 == x,
{
    lemma_changes_from_new(old, new, new.len());
    let c = changed_pairs(old, new);
    let k = choose|k: int| 0 <= k < names(c).len() && names(c)[k] == x;
    assert(c[k].0 == x);
    assert(among(new, new.len() as int, c[k]));
    let i = choose|i: int| 0 <= i < new.len() && #[trigger] new[i] == c[k];
    assert(new[i].0 == x);
}

/// An edge update reports each of `src`, `dst`, `edge_type` and `ranking` exactly
/// when it differs between the old and the new edge (where no property of the new
/// edge bears that name, which would be reported as a property).
pub proof fn lemma_edge_fields_reported(old: EdgeView, new: EdgeView)
    ensures
        (forall|i: int| 0 <= i < new.props.len() ==> #[trigger] new.props[i].0 != "src"@) ==> (edge_changed_fields(
            old,
            new,
        ).contains("src"@) <==> old.src != new.src),
        (forall|i: int| 0 <= i < new.props.len() ==> #[trigger] new.props[i].0 != "dst"@) ==> (edge_changed_fields(
            old,
            new,
        ).contains("dst"@) <==> old.dst != new.dst),
        (forall|i: int| 0 <= i < new.props.len() ==> #[trigger] new.props[i].0 != "edge_type"@) ==> (
        edge_changed_fields(old, new).contains("edge_type"@) <==> old.edge_type != new.edge_type),
        (forall|i: int| 0 <= i < new.props.len() ==> #[trigger] new.props[i].0 != "ranking"@) ==> (
        edge_changed_fields(old, new).contains("ranking"@) <==> old.ranking != new.ranking),
{
    reveal_strlit("src");
    reveal_strlit("dst");
    reveal_strlit("edge_type");
    reveal_strlit("ranking");
    let r = edge_changed_fields(old, new);
    let a: Seq<Seq<char>> = if old.src != new.src { seq!["src"@] } else { Seq::empty() };
    let b: Seq<Seq<char>> = if old.dst != new.dst { seq!["dst"@] } else { Seq::empty() };
    let c: Seq<Seq<char>> = if old.edge_type != new.edge_type { seq!["edge_type"@] } else { Seq::empty() };
    let d: Seq<Seq<char>> = if old.ranking != new.ranking { seq!["ranking"@] } else { Seq::empty() };
    let t = names(changed_pairs(old.props, new.props));
    let f = a + b + c + d;
    assert(r == f + t);
    assert forall|x: Seq<char>| r.contains(x) implies f.contains(x) || t.contains(x) by {
        let k = choose|k: int| 0 <= k < r.len() && r[k] == x;
        if k < f.len() {
            assert(f[k] == x);
        } else {
            assert(t[k - f.len()] == x);
        }
    }
    assert forall|x: Seq<char>| f.contains(x) implies r.contains(x) by {
        let k = choose|k: int| 0 <= k < f.len() && f[k] == x;
        assert(r[k] == x);
    }
    assert forall|x: Seq<char>| t.contains(x) implies exists|i: int| 0 <= i < new.props.len() && #[trigger] new.props[i].0 == x by {
        lemma_changed_names_from_new(old.props, new.props, x);
    }
    assert("src"@[0] == 's' && "dst"@[0] == 'd' && "edge_type"@[0] == 'e' && "ranking"@[0] == 'r');
    assert("src"@ != "dst"@ && "src"@ != "edge_type"@ && "src"@ != "ranking"@);
    assert("dst"@ != "edge_type"@ && "dst"@ != "ranking"@ && "edge_type"@ != "ranking"@);
    let ab = a + b;
    let abc = ab + c;
    assert forall|k: int| 0 <= k < f.len() implies {
        ||| (#[trigger] f[k] == "src"@ && old.src != new.src)
        ||| (f[k] == "dst"@ && old.dst != new.dst)
        ||| (f[k] == "edge_type"@ && old.edge_type != new.edge_type)
        ||| (f[k] == "ranking"@ && old.ranking != new.ranking)
    } by {
        if k < abc.len() {
            assert(f[k] == abc[k]);
            if k < ab.len() {
                assert(abc[k] == ab[k]);
                if k < a.len() {
                    assert(ab[k] == a[k]);
                } else {
                    assert(ab[k] == b[k - a.len()]);
                }
            } else {
                assert(abc[k] == c[k - ab.len()]);
            }
        } else {
            assert(f[k] == d[k - abc.len()]);
        }
    }
    assert(f.contains("src"@) <==> old.src != new.src) by {
        if f.contains("src"@) {
            let k = choose|k: int| 0 <= k < f.len() && f[k] == "src"@;
            assert(f[k] == "src"@);
        }
        if old.src != new.src {
            assert(f[0] == "src"@);
        }
    }
    assert(f.contains("dst"@) <==> old.dst != new.dst) by {
        if f.contains("dst"@) {
            let k = choose|k: int| 0 <= k < f.len() && f[k] == "dst"@;
            assert(f[k] == "dst"@);
        }
        if old.dst != new.dst {
            assert(f[a.len() as int] == "dst"@);
        }
    }
    assert(f.contains("edge_type"@) <==> old.edge_type != new.edge_type) by {
        if f.contains("edge_type"@) {
            let k = choose|k: int| 0 <= k < f.len() && f[k] == "edge_type"@;
            assert(f[k] == "edge_type"@);
        }
        if old.edge_type != new.edge_type {
            assert(f[(a.len() + b.len()) as int] == "edge_type"@);
        }
    }
    assert(f.contains("ranking"@) <==> old.ranking != new.ranking) by {
        if f.contains("ranking"@) {
            let k = choose|k: int| 0 <= k < f.len() && f[k] == "ranking"@;
            assert(f[k] == "ranking"@);
        }
        if old.ranking != new.ranking {
            assert(f[(a.len() + b.len() + c.len()) as int] == "ranking"@);
        }
    }
}

/// An edge update that keeps the properties reports exactly the fields among `src`,
/// `dst`, `edge_type` and `ranking` that differ, in that order; so an edge whose
/// source alone changes reports exactly `src`.
pub proof fn lemma_edge_same_props_fields(old: EdgeView, new: EdgeView)
    requires
        new.props == old.props,
    ensures
        edge_changed_fields(old, new) == (if old.src != new.src {
            seq!["src"@]
        } else {
            Seq::empty()
        }) + (if old.dst != new.dst {
            seq!["dst"@]
        } else {
            Seq::empty()
        }) + (if old.edge_type != new.edge_type {
            seq!["edge_type"@]
        } else {
            Seq::empty()
        }) + (if old.ranking != new.ranking {
            seq!["ranking"@]
        } else {
            Seq::empty()
        }),
        old.src != new.src && old.dst == new.dst && old.edge_type == new.edge_type && old.ranking == new.ranking
            ==> edge_changed_fields(old, new) == seq!["src"@],
{
    lemma_no_self_changes(old.props);
    assert(names(changed_pairs(old.props, new.props)) =~= Seq::<Seq<char>>::empty());
    let r = edge_changed_fields(old, new);
    if old.src != new.src && old.dst == new.dst && old.edge_type == new.edge_type && old.ranking == new.ranking {
        assert(r =~= seq!["src"@]);
    }
    assert(r =~= (if old.src != new.src {
        seq!["src"@]
    } else {
        Seq::empty()
    }) + (if old.dst != new.dst {
        seq!["dst"@]
    } else {
        Seq::empty()
    }) + (if old.edge_type != new.edge_type {
        seq!["edge_type"@]
    } else {
        Seq::empty()
    }) + (if old.ranking != new.ranking {
        seq!["ranking"@]
    } else {
        Seq::empty()
    }));
}

/// A vertex update that keeps the tags reports exactly `vid` when the id changes and
/// nothing otherwise, provided each property name has one value across the tags.
pub proof fn lemma_vertex_same_tags_fields(old_vid: ValueView, new_vid: ValueView, tags: Seq<TagView>)
    requires
        names_consistent(all_props(tags)),
    ensures
        vertex_changed_fields(old_vid, tags, new_vid, tags) == if old_vid != new_vid {
            seq!["vid"@]
        } else {
            Seq::<Seq<char>>::empty()
        },
{
    lemma_unchanged_vertex_no_fields(old_vid, tags);
    let t = tags_changes(all_props(tags), tags);
    assert(t =~= Seq::<Seq<char>>::empty());
    if old_vid != new_vid {
        assert(vertex_changed_fields(old_vid, tags, new_vid, tags) =~= seq!["vid"@]);
    } else {
        assert(vertex_changed_fields(old_vid, tags, new_vid, tags) =~= Seq::<Seq<char>>::empty());
    }
}

/// A vertex update that changes the id reports `vid` first.
pub proof fn lemma_vertex_id_change_first(old_vid: ValueView, old_tags: Seq<TagView>, new_vid: ValueView, new_tags: Seq<TagView>)
    requires
        old_vid != new_vid,
    ensures
        vertex_changed_fields(old_vid, old_tags, new_vid, new_tags).len() > 0,
        vertex_changed_fields(old_vid, old_tags, new_vid, new_tags)[0] == "vid"@,
{
}

/// A visited pair of `new` among its first `n` whose value is new or differs is
/// among the changed pairs.
proof fn lemma_change_in_upto(old: Seq<(Seq<char>, ValueView)>, new: Seq<(Seq<char>, ValueView)>, n: nat, i: int)
    requires
        0 <= i < n <= new.len(),
        !shadowed(new, i),
        lookup(old, new[i].0) != Some(new[i].1),
    ensures
        changes_upto(old, new, n).contains(new[i]),
    decreases n,
{
    let c0 = changes_upto(old, new, (n - 1) as nat);
    let c = changes_upto(old, new, n);
    assert(c == c0 + entry_change(old, new, n - 1));
    if i < n - 1 {
        lemma_change_in_upto(old, new, (n - 1) as nat, i);
        let k = choose|k: int| 0 <= k < c0.len() && c0[k] == new[i];
        assert(c[k] == new[i]);
    } else {
        assert(entry_change(old, new, i) == seq![new[i]]);
        assert(c[c0.len() as int] == new[i]);
    }
}

/// A visited pair of `old` among its first `n` whose name `new` lacks is among the
/// removed pairs.
proof fn lemma_removal_in_upto(old: Seq<(Seq<char>, ValueView)>, new: Seq<(Seq<char>, ValueView)>, n: nat, i: int)
    requires
        0 <= i < n <= old.len(),
        !shadowed(old, i),
        lookup(new, old[i].0) is None,
    ensures
        removals_upto(old, new, n).contains(old[i]),
    decreases n,
{
    let c0 = removals_upto(old, new, (n - 1) as nat);
    let c = removals_upto(old, new, n);
    assert(c == c0 + entry_removal(old, new, n - 1));
    if i < n - 1 {
        lemma_removal_in_upto(old, new, (n - 1) as nat, i);
        let k = choose|k: int| 0 <= k < c0.len() && c0[k] == old[i];
        assert(c[k] == old[i]);
    } else {
        assert(entry_removal(old, new, i) == seq![old[i]]);
        assert(c[c0.len() as int] == old[i]);
    }
}

/// The name of a changed pair is among the names of the changed pairs.
proof fn lemma_change_named(old: Seq<(Seq<char>, ValueView)>, new: Seq<(Seq<char>, ValueView)>, i: int)
    requires
        0 <= i < new.len(),
        !shadowed(new, i),
        lookup(old, new[i].0) != Some(new[i].1),
    ensures
        names(changed_pairs(old, new)).contains(new[i].0),
{
    lemma_change_in_upto(old, new, new.len(), i);
    let c = changed_pairs(old, new);
    let k = choose|k: int| 0 <= k < c.len() && c[k] == new[i];
    assert(names(c)[k] == new[i].0);
}

/// An edge update reports every property of the new edge (that a later one of the
/// same name does not shadow) whose value is new or differs from the old edge's.
pub proof fn lemma_edge_property_change_reported(old: EdgeView, new: EdgeView, i: int)
    requires
        0 <= i < new.props.len(),
        !shadowed(new.props, i),
        lookup(old.props, new.props[i].0) != Some(new.props[i].1),
    ensures
        edge_changed_fields(old, new).contains(new.props[i].0),
{
    lemma_change_named(old.props, new.props, i);
    let t = names(changed_pairs(old.props, new.props));
    let r = edge_changed_fields(old, new);
    let f = r.subrange(0, r.len() - t.len());
    assert(r == f + t);
    let k = choose|k: int| 0 <= k < t.len() && t[k] == new.props[i].0;
    assert(r[f.len() + k] == new.props[i].0);
}

/// The names changed by the tags include each changed property of each tag.
proof fn lemma_tags_changes_has(old: Seq<(Seq<char>, ValueView)>, tags: Seq<TagView>, t: int, i: int)
    requires
        0 <= t < tags.len(),
        0 <= i < tags[t].properties.len(),
        !shadowed(tags[t].properties, i),
        lookup(old, tags[t].properties[i].0) != Some(tags[t].properties[i].1),
    ensures
        tags_changes(old, tags).contains(tags[t].properties[i].0),
    decreases tags.len(),
{
    let c0 = tags_changes(old, tags.drop_last());
    let c = tags_changes(old, tags);
    let x = tags[t].properties[i].0;
    if t < tags.len() - 1 {
        assert(tags.drop_last()[t] == tags[t]);
        lemma_tags_changes_has(old, tags.drop_last(), t, i);
        let k = choose|k: int| 0 <= k < c0.len() && c0[k] == x;
        assert(c[k] == x);
    } else {
        lemma_change_named(old, tags[t].properties, i);
        let n = names(changed_pairs(old, tags.last().properties));
        let k = choose|k: int| 0 <= k < n.len() && n[k] == x;
        assert(c[c0.len() + k] == x);
    }
}

/// A vertex update reports every property of every new tag (that a later one of the
/// same name in that tag does not shadow) whose value is new or differs from the
/// one the old vertex holds under that name across its tags.
pub proof fn lemma_vertex_property_change_reported(
    old_vid: ValueView,
    old_tags: Seq<TagView>,
    new_vid: ValueView,
    new_tags: Seq<TagView>,
    t: int,
    i: int,
)
    requires
        0 <= t < new_tags.len(),
        0 <= i < new_tags[t].properties.len(),
        !shadowed(new_tags[t].properties, i),
        lookup(all_props(old_tags), new_tags[t].properties[i].0) != Some(new_tags[t].properties[i].1),
    ensures
        vertex_changed_fields(old_vid, old_tags, new_vid, new_tags).contains(new_tags[t].properties[i].0),
{
    let x = new_tags[t].properties[i].0;
    lemma_tags_changes_has(all_props(old_tags), new_tags, t, i);
    let c = tags_changes(all_props(old_tags), new_tags);
    let r = vertex_changed_fields(old_vid, old_tags, new_vid, new_tags);
    let f = r.subrange(0, r.len() - c.len());
    assert(r == f + c);
    let k = choose|k: int| 0 <= k < c.len() && c[k] == x;
    assert(r[f.len() + k] == x);
}

/// The property changes of the vertex include those of each new tag.
proof fn lemma_property_changes_has(old_tags: Seq<TagView>, new_tags: Seq<TagView>, t: int, x: (Seq<char>, ValueView))
    requires
        0 <= t < new_tags.len(),
        tag_property_changes(old_tags, new_tags[t]).contains(x),
    ensures
        vertex_property_changes(old_tags, new_tags).contains(x),
    decreases new_tags.len(),
{
    let c0 = vertex_property_changes(old_tags, new_tags.drop_last());
    let c = vertex_property_changes(old_tags, new_tags);
    if t < new_tags.len() - 1 {
        assert(new_tags.drop_last()[t] == new_tags[t]);
        lemma_property_changes_has(old_tags, new_tags.drop_last(), t, x);
        let k = choose|k: int| 0 <= k < c0.len() && c0[k] == x;
        assert(c[k] == x);
    } else {
        let n = tag_property_changes(old_tags, new_tags.last());
        let k = choose|k: int| 0 <= k < n.len() && n[k] == x;
        assert(c[c0.len() + k] == x);
    }
}

/// Detecting property changes reports, for each new tag, every property (that a
/// later one of the same name in the tag does not shadow) whose value is new or
/// differs from the one in the first old tag of the same name (with no such tag,
/// every such property), and every property of that old tag that the new tag lacks,
/// with its old value.
pub proof fn lemma_property_changes_reported(old_tags: Seq<TagView>, new_tags: Seq<TagView>, t: int)
    requires
        0 <= t < new_tags.len(),
    ensures
        forall|i: int|
            0 <= i < new_tags[t].properties.len() && !shadowed(new_tags[t].properties, i) && (match first_tag(
                old_tags,
                new_tags[t].name,
            ) {
                Some(j) => lookup(old_tags[j].properties, new_tags[t].properties[i].0) != Some(
                    new_tags[t].properties[i].1,
                ),
                None => true,
            }) ==> vertex_property_changes(old_tags, new_tags).contains(#[trigger] new_tags[t].properties[i]),
        first_tag(old_tags, new_tags[t].name) matches Some(j) ==> forall|k: int|
            0 <= k < old_tags[j].properties.len() && !shadowed(old_tags[j].properties, k) && lookup(
                new_tags[t].properties,
                old_tags[j].properties[k].0,
            ) is None ==> vertex_property_changes(old_tags, new_tags).contains(#[trigger] old_tags[j].properties[k]),
{
    let nt = new_tags[t];
    assert forall|i: int|
        0 <= i < nt.properties.len() && !shadowed(nt.properties, i) && (match first_tag(old_tags, nt.name) {
            Some(j) => lookup(old_tags[j].properties, nt.properties[i].0) != Some(nt.properties[i].1),
            None => true,
        }) implies vertex_property_changes(old_tags, new_tags).contains(#[trigger] new_tags[t].properties[i]) by {
        let tc = tag_property_changes(old_tags, nt);
        match first_tag(old_tags, nt.name) {
            Some(j) => {
                lemma_change_in_upto(old_tags[j].properties, nt.properties, nt.properties.len(), i);
                let c = changed_pairs(old_tags[j].properties, nt.properties);
                let k = choose|k: int| 0 <= k < c.len() && c[k] == nt.properties[i];
                assert(tc[k] == nt.properties[i]);
            },
            None => {
                assert(lookup(Seq::<(Seq<char>, ValueView)>::empty(), nt.properties[i].0) is None);
                lemma_change_in_upto(Seq::empty(), nt.properties, nt.properties.len(), i);
            },
        }
        lemma_property_changes_has(old_tags, new_tags, t, nt.properties[i]);
    }
    if let Some(j) = first_tag(old_tags, nt.name) {
        let op = old_tags[j].properties;
        assert forall|k: int|
            0 <= k < op.len() && !shadowed(op, k) && lookup(nt.properties, op[k].0) is None implies vertex_property_changes(
            old_tags,
            new_tags,
        ).contains(#[trigger] old_tags[j].properties[k]) by {
            lemma_removal_in_upto(op, nt.properties, op.len(), k);
            let c = changed_pairs(op, nt.properties);
            let rm = removed_pairs(op, nt.properties);
            let tc = tag_property_changes(old_tags, nt);
            let m = choose|m: int| 0 <= m < rm.len() && rm[m] == op[k];
            assert(tc[c.len() + m] == op[k]);
            lemma_property_changes_has(old_tags, new_tags, t, op[k]);
        }
    }
}

/// `x` is one of the first `n` pairs of `new`, visited, whose value is new or
/// differs from the one in `old`.
spec fn changed_among(old: Seq<(Seq<char>, ValueView)>, new: Seq<(Seq<char>, ValueView)>, n: int, x: (Seq<char>, ValueView)) -> bool {
    exists|i: int|
        0 <= i < n && #[trigger] new[i] == x && !shadowed(new, i) && lookup(old, new[i].0) != Some(new[i].1)
}

/// Each changed pair among the first `n` of `new` is a visited pair whose value is
/// new or differs.
proof fn lemma_changes_are_changes(old: Seq<(Seq<char>, ValueView)>, new: Seq<(Seq<char>, ValueView)>, n: nat)
    requires
        n <= new.len(),
    ensures
        forall|k: int|
            0 <= k < changes_upto(old, new, n).len() ==> #[trigger] changed_among(old, new, n as int, changes_upto(old, new, n)[k]),
    decreases n,
{
    if n > 0 {
        lemma_changes_are_changes(old, new, (n - 1) as nat);
        let c0 = changes_upto(old, new, (n - 1) as nat);
        let c = changes_upto(old, new, n);
        assert forall|k: int| 0 <= k < c.len() implies #[trigger] changed_among(old, new, n as int, c[k]) by {
            if k < c0.len() {
                assert(c[k] == c0[k]);
                assert(changed_among(old, new, n - 1, c0[k]));
            } else {
                assert(c[k] == new[n - 1]);
            }
        }
    }
}

/// A name among the changed pairs' names is that of a visited pair of `new` whose
/// value is new or differs.
proof fn lemma_changed_name_is_change(old: Seq<(Seq<char>, ValueView)>, new: Seq<(Seq<char>, ValueView)>, x: Seq<char>)
    requires
        names(changed_pairs(old, new)).contains(x),
    ensures
        exists|i: int|
            0 <= i < new.len() && #[trigger] new[i].0 == x && !shadowed(new, i) && lookup(old, x) != Some(new[i].1),
{
    lemma_changes_are_changes(old, new, new.len());
    let c = changed_pairs(old, new);
    let k = choose|k: int| 0 <= k < names(c).len() && names(c)[k] == x;
    assert(c[k].0 == x);
    assert(changed_among(old, new, new.len() as int, c[k]));
    let i = choose|i: int|
        0 <= i < new.len() && #[trigger] new[i] == c[k] && !shadowed(new, i) && lookup(old, new[i].0) != Some(new[i].1);
    assert(new[i].0 == x);
}

/// An edge update reports nothing that did not change: each reported field is one
/// of `src`, `dst`, `edge_type`, `ranking` that differs, or the name of a property
/// of the new edge (not shadowed by a later one) whose value is new or differs.
pub proof fn lemma_edge_fields_sound(old: EdgeView, new: EdgeView)
    ensures
        forall|x: Seq<char>|
            #[trigger] edge_changed_fields(old, new).contains(x) ==> {
                ||| x == "src"@ && old.src != new.src
                ||| x == "dst"@ && old.dst != new.dst
                ||| x == "edge_type"@ && old.edge_type != new.edge_type
                ||| x == "ranking"@ && old.ranking != new.ranking
                ||| exists|i: int|
                    0 <= i < new.props.len() && #[trigger] new.props[i].0 == x && !shadowed(new.props, i) && lookup(
                        old.props,
                        x,
                    ) != Some(new.props[i].1)
            },
{
    let r = edge_changed_fields(old, new);
    let a: Seq<Seq<char>> = if old.src != new.src { seq!["src"@] } else { Seq::empty() };
    let b: Seq<Seq<char>> = if old.dst != new.dst { seq!["dst"@] } else { Seq::empty() };
    let c: Seq<Seq<char>> = if old.edge_type != new.edge_type { seq!["edge_type"@] } else { Seq::empty() };
    let d: Seq<Seq<char>> = if old.ranking != new.ranking { seq!["ranking"@] } else { Seq::empty() };
    let t = names(changed_pairs(old.props, new.props));
    let ab = a + b;
    let abc = ab + c;
    let f = abc + d;
    assert(r == f + t);
    assert forall|x: Seq<char>| #[trigger] r.contains(x) implies {
        ||| x == "src"@ && old.src != new.src
        ||| x == "dst"@ && old.dst != new.dst
        ||| x == "edge_type"@ && old.edge_type != new.edge_type
        ||| x == "ranking"@ && old.ranking != new.ranking
        ||| exists|i: int|
            0 <= i < new.props.len() && #[trigger] new.props[i].0 == x && !shadowed(new.props, i) && lookup(old.props, x)
                != Some(new.props[i].1)
    } by {
        let k = choose|k: int| 0 <= k < r.len() && r[k] == x;
        if k < f.len() {
            assert(r[k] == f[k]);
            if k < abc.len() {
                assert(f[k] == abc[k]);
                if k < ab.len() {
                    assert(abc[k] == ab[k]);
                    if k < a.len() {
                        assert(ab[k] == a[k]);
                    } else {
                        assert(ab[k] == b[k - a.len()]);
                    }
                } else {
                    assert(abc[k] == c[k - ab.len()]);
                }
            } else {
                assert(f[k] == d[k - abc.len()]);
            }
        } else {
            assert(r[k] == t[k - f.len()]);
            assert(t.contains(x));
            lemma_changed_name_is_change(old.props, new.props, x);
        }
    }
}

/// The names changed by the tags are each the name of a changed property of a tag.
proof fn lemma_tags_changes_are_changes(old: Seq<(Seq<char>, ValueView)>, tags: Seq<TagView>, x: Seq<char>)
    requires
        tags_changes(old, tags).contains(x),
    ensures
        exists|t: int, i: int|
            0 <= t < tags.len() && 0 <= i < tags[t].properties.len() && #[trigger] tags[t].properties[i].0 == x
                && !shadowed(tags[t].properties, i) && lookup(old, x) != Some(tags[t].properties[i].1),
    decreases tags.len(),
{
    let c0 = tags_changes(old, tags.drop_last());
    let c = tags_changes(old, tags);
    let n = names(changed_pairs(old, tags.last().properties));
    assert(c == c0 + n);
    let k = choose|k: int| 0 <= k < c.len() && c[k] == x;
    if k < c0.len() {
        assert(c0[k] == x);
        assert(c0.contains(x));
        lemma_tags_changes_are_changes(old, tags.drop_last(), x);
        let (t, i) = choose|t: int, i: int|
            0 <= t < tags.drop_last().len() && 0 <= i < tags.drop_last()[t].properties.len()
                && #[trigger] tags.drop_last()[t].properties[i].0 == x && !shadowed(tags.drop_last()[t].properties, i)
                && lookup(old, x) != Some(tags.drop_last()[t].properties[i].1);
        assert(tags.drop_last()[t] == tags[t]);
    } else {
        assert(n[k - c0.len()] == x);
        assert(n.contains(x));
        lemma_changed_name_is_change(old, tags.last().properties, x);
        let t = tags.len() - 1;
        assert(tags.last() == tags[t]);
    }
}

/// A vertex update reports nothing that did not change: each reported field is `vid`
/// where the id differs, or the name of a property of a new tag (not shadowed by a
/// later one in that tag) whose value is new or differs from the one the old vertex
/// holds under that name across its tags.
pub proof fn lemma_vertex_fields_sound(old_vid: ValueView, old_tags: Seq<TagView>, new_vid: ValueView, new_tags: Seq<TagView>)
    ensures
        forall|x: Seq<char>|
            #[trigger] vertex_changed_fields(old_vid, old_tags, new_vid, new_tags).contains(x) ==> {
                ||| x == "vid"@ && old_vid != new_vid
                ||| exists|t: int, i: int|
                    0 <= t < new_tags.len() && 0 <= i < new_tags[t].properties.len()
                        && #[trigger] new_tags[t].properties[i].0 == x && !shadowed(new_tags[t].properties, i) && lookup(
                        all_props(old_tags),
                        x,
                    ) != Some(new_tags[t].properties[i].1)
            },
{
    let r = vertex_changed_fields(old_vid, old_tags, new_vid, new_tags);
    let a: Seq<Seq<char>> = if old_vid != new_vid { seq!["vid"@] } else { Seq::empty() };
    let c = tags_changes(all_props(old_tags), new_tags);
    assert(r == a + c);
    assert forall|x: Seq<char>| #[trigger] r.contains(x) implies {
        ||| x == "vid"@ && old_vid != new_vid
        ||| exists|t: int, i: int|
            0 <= t < new_tags.len() && 0 <= i < new_tags[t].properties.len() && #[trigger] new_tags[t].properties[i].0 == x
                && !shadowed(new_tags[t].properties, i) && lookup(all_props(old_tags), x) != Some(new_tags[t].properties[i].1)
    } by {
        let k = choose|k: int| 0 <= k < r.len() && r[k] == x;
        if k < a.len() {
            assert(r[k] == a[k]);
        } else {
            assert(r[k] == c[k - a.len()]);
            assert(c.contains(x));
            lemma_tags_changes_are_changes(all_props(old_tags), new_tags, x);
        }
    }
}

/// `x` is one of the first `n` pairs of `old`, visited, whose name `new` lacks.
spec fn removed_among(old: Seq<(Seq<char>, ValueView)>, new: Seq<(Seq<char>, ValueView)>, n: int, x: (Seq<char>, ValueView)) -> bool {
    exists|i: int| 0 <= i < n && #[trigger] old[i] == x && !shadowed(old, i) && lookup(new, old[i].0) is None
}

/// Each removed pair among the first `n` of `old` is a visited pair whose name `new`
/// lacks.
proof fn lemma_removals_are_removals(old: Seq<(Seq<char>, ValueView)>, new: Seq<(Seq<char>, ValueView)>, n: nat)
    requires
        n <= old.len(),
    ensures
        forall|k: int|
            0 <= k < removals_upto(old, new, n).len() ==> #[trigger] removed_among(old, new, n as int, removals_upto(old, new, n)[k]),
    decreases n,
{
    if n > 0 {
        lemma_removals_are_removals(old, new, (n - 1) as nat);
        let c0 = removals_upto(old, new, (n - 1) as nat);
        let c = removals_upto(old, new, n);
        assert forall|k: int| 0 <= k < c.len() implies #[trigger] removed_among(old, new, n as int, c[k]) by {
            if k < c0.len() {
                assert(c[k] == c0[k]);
                assert(removed_among(old, new, n - 1, c0[k]));
            } else {
                assert(c[k] == old[n - 1]);
            }
        }
    }
}

/// `x` is a change that the new tag `nt` makes against the old tags: against the
/// first old tag of its name, a property of `nt` (not shadowed) whose value is new or
/// differs, or a property of that old tag (not shadowed) that `nt` lacks; without
/// such a tag, a property of `nt` (not shadowed).
pub open spec fn tag_change(old_tags: Seq<TagView>, nt: TagView, x: (Seq<char>, ValueView)) -> bool {
    match first_tag(old_tags, nt.name) {
        Some(j) => {
            ||| exists|i: int|
                0 <= i < nt.properties.len() && #[trigger] nt.properties[i] == x && !shadowed(nt.properties, i) && lookup(
                    old_tags[j].properties,
                    x.0,
                ) != Some(x.1)
            ||| exists|k: int|
                0 <= k < old_tags[j].properties.len() && #[trigger] old_tags[j].properties[k] == x && !shadowed(
                    old_tags[j].properties,
                    k,
                ) && lookup(nt.properties, x.0) is None
        },
        None => exists|i: int| 0 <= i < nt.properties.len() && #[trigger] nt.properties[i] == x && !shadowed(nt.properties, i),
    }
}

/// Each pair in a tag's property changes is a change that the tag makes.
proof fn lemma_tag_changes_sound(old_tags: Seq<TagView>, nt: TagView, x: (Seq<char>, ValueView))
    requires
        tag_property_changes(old_tags, nt).contains(x),
    ensures
        tag_change(old_tags, nt, x),
{
    let tc = tag_property_changes(old_tags, nt);
    let m = choose|m: int| 0 <= m < tc.len() && tc[m] == x;
    match first_tag(old_tags, nt.name) {
        Some(j) => {
            let op = old_tags[j].properties;
            let c = changed_pairs(op, nt.properties);
            let rm = removed_pairs(op, nt.properties);
            assert(tc == c + rm);
            if m < c.len() {
                assert(c[m] == x);
                lemma_changes_are_changes(op, nt.properties, nt.properties.len());
                assert(changed_among(op, nt.properties, nt.properties.len() as int, c[m]));
            } else {
                assert(rm[m - c.len()] == x);
                lemma_removals_are_removals(op, nt.properties, op.len());
                assert(removed_among(op, nt.properties, op.len() as int, rm[m - c.len()]));
            }
        },
        None => {
            let c = changed_pairs(Seq::empty(), nt.properties);
            assert(c[m] == x);
            lemma_changes_are_changes(Seq::empty(), nt.properties, nt.properties.len());
            assert(changed_among(Seq::empty(), nt.properties, nt.properties.len() as int, c[m]));
        },
    }
}

/// Detecting property changes reports nothing that did not change: each reported
/// pair is a change that one of the new tags makes against the old tags
/// (`tag_change`).
pub proof fn lemma_property_changes_sound(old_tags: Seq<TagView>, new_tags: Seq<TagView>, x: (Seq<char>, ValueView))
    requires
        vertex_property_changes(old_tags, new_tags).contains(x),
    ensures
        exists|t: int| 0 <= t < new_tags.len() && #[trigger] tag_change(old_tags, new_tags[t], x),
    decreases new_tags.len(),
{
    let c0 = vertex_property_changes(old_tags, new_tags.drop_last());
    let tc = tag_property_changes(old_tags, new_tags.last());
    let c = vertex_property_changes(old_tags, new_tags);
    assert(c == c0 + tc);
    let k = choose|k: int| 0 <= k < c.len() && c[k] == x;
    if k < c0.len() {
        assert(c0[k] == x);
        assert(c0.contains(x));
        lemma_property_changes_sound(old_tags, new_tags.drop_last(), x);
        let t = choose|t: int| 0 <= t < new_tags.drop_last().len() && #[trigger] tag_change(old_tags, new_tags.drop_last()[t], x);
        assert(new_tags.drop_last()[t] == new_tags[t]);
    } else {
        assert(tc[k - c0.len()] == x);
        assert(tc.contains(x));
        lemma_tag_changes_sound(old_tags, new_tags.last(), x);
        assert(new_tags.last() == new_tags[new_tags.len() - 1]);
    }
}

} // verus!
