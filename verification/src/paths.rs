//! What is derived, told over the lists of the input and without the relations that the rules
//! pass through: by paths of regions, each a subset of the next.
//!
//! For subsets, requirements and live loans there are two laws each. One says that the relation
//! holds what it has to, the other that it is within every relation that does. Together they leave
//! nothing open. In all of them `live` is the set of the pairs that are listed as live, or that
//! are a universal region and an end of an edge.
use crate::facts::{AllFacts, Facts, Loan, Point, Region};
use crate::laws::{
    dead_path_is_reached, dead_reach_is_by_dead_paths, errors_are_invalidated_live_loans,
    errors_are_those_of_the_transitive_analysis, is_dead_path, is_path, linked, path_is_reached,
    path_leads,
};
use crate::output::{groups, groups_nested};
use crate::rules::{
    closed_under_rules, derived, derived_is_closed, derived_is_least, proper_subset,
    rule_dying_requires, rule_live_reached, rule_live_required, rule_live_to_dying,
    rule_origins_dying_requires, rule_origins_live_to_dying, rule_reach_first, rule_reach_live,
    rule_reach_next, rule_requires_carried, rule_requires_dying, rule_subset_carried,
    rule_subset_dying, Model,
};
use crate::transitive::{
    closed_as_plain_requires, closed_as_plain_subset, dead_requirement_is_created, plain_requires,
    plain_subset,
};
use std::collections::{BTreeMap, BTreeSet};
use vstd::prelude::*;

verus! {

/// The facts are those that are listed.
pub proof fn facts_are_those_listed(a: AllFacts)
    ensures
        forall|t: (Region, Loan, Point)| #[trigger]
            a@.borrow_region.contains(t) <==> a.borrow_region@.contains(t),
        forall|r: Region| #[trigger]
            a@.universal_region.contains(r) <==> a.universal_region@.contains(r),
        forall|t: (Point, Point)| #[trigger] a@.cfg_edge.contains(t) <==> a.cfg_edge@.contains(t),
        forall|t: (Loan, Point)| #[trigger] a@.killed.contains(t) <==> a.killed@.contains(t),
        forall|t: (Region, Region, Point)| #[trigger]
            a@.outlives.contains(t) <==> a.outlives@.contains(t),
        forall|t: (Region, Point)| #[trigger]
            a@.region_live_at.contains(t) <==> a.region_live_at@.contains(t),
        forall|t: (Point, Loan)| #[trigger]
            a@.invalidates.contains(t) <==> a.invalidates@.contains(t),
{
}

/// A region is live where it is listed as live, and if it is universal at the ends of the listed
/// edges, and nowhere else.
pub proof fn live_is_what_is_listed(a: AllFacts, live: Set<(Region, Point)>)
    requires
        forall|r: Region, p: Point| #[trigger]
            live.contains((r, p)) <==> a.region_live_at@.contains((r, p)) || (
            a.universal_region@.contains(r) && exists|q: Point|
                #![trigger a.cfg_edge@.contains((p, q))]
                #![trigger a.cfg_edge@.contains((q, p))]
                a.cfg_edge@.contains((p, q)) || a.cfg_edge@.contains((q, p))),
    ensures
        a@.live_set() == live,
        forall|r: Region, p: Point| #[trigger] a@.live(r, p) <==> live.contains((r, p)),
{
    let f = a@;
    assert forall|r: Region, p: Point| #[trigger] f.live(r, p) <==> live.contains((r, p)) by {
        if f.is_point(p) {
            let q = choose|q: Point|
                #![trigger f.cfg_edge.contains((p, q))]
                f.cfg_edge.contains((p, q)) || f.cfg_edge.contains((q, p));
            assert(a.cfg_edge@.contains((p, q)) || a.cfg_edge@.contains((q, p)));
        }
        if exists|q: Point|
            #![trigger a.cfg_edge@.contains((p, q))]
            a.cfg_edge@.contains((p, q)) || a.cfg_edge@.contains((q, p)) {
            let q = choose|q: Point|
                #![trigger a.cfg_edge@.contains((p, q))]
                a.cfg_edge@.contains((p, q)) || a.cfg_edge@.contains((q, p));
            assert(f.cfg_edge.contains((p, q)) || f.cfg_edge.contains((q, p)));
        }
        assert(f.region_live_at.contains((r, p)) <==> a.region_live_at@.contains((r, p)));
        assert(f.universal_region.contains(r) <==> a.universal_region@.contains(r));
    }
    assert(a@.live_set() =~= live);
}

/// The pairs that are listed as live, or that are a universal region and an end of an edge.
proof fn listed_live(a: AllFacts) -> (live: Set<(Region, Point)>)
    ensures
        forall|r: Region, p: Point| #[trigger]
            live.contains((r, p)) <==> a.region_live_at@.contains((r, p)) || (
            a.universal_region@.contains(r) && exists|q: Point|
                #![trigger a.cfg_edge@.contains((p, q))]
                #![trigger a.cfg_edge@.contains((q, p))]
                a.cfg_edge@.contains((p, q)) || a.cfg_edge@.contains((q, p))),
        a@.live_set() == live,
        forall|r: Region, p: Point| #[trigger] a@.live(r, p) <==> live.contains((r, p)),
{
    let live = Set::new(
        |t: (Region, Point)|
            a.region_live_at@.contains(t) || (a.universal_region@.contains(t.0)
                && exists|q: Point|
                #![trigger a.cfg_edge@.contains((t.1, q))]
                #![trigger a.cfg_edge@.contains((q, t.1))]
                a.cfg_edge@.contains((t.1, q)) || a.cfg_edge@.contains((q, t.1))),
    );
    live_is_what_is_listed(a, live);
    live
}

/// A region that is not universal is live just where it is listed, whatever else there is.
pub proof fn other_regions_are_live_where_listed(a: AllFacts, r: Region, p: Point)
    requires
        !a.universal_region@.contains(r),
    ensures
        a@.live(r, p) <==> a.region_live_at@.contains((r, p)),
        a@.live_set().contains((r, p)) <==> a.region_live_at@.contains((r, p)),
{
    let live = listed_live(a);
}

/// A point that no edge touches is no place for a universal region, unless that is listed.
pub proof fn off_the_graph_live_is_what_is_listed(a: AllFacts, r: Region, p: Point)
    requires
        forall|q: Point, e: Point| #[trigger] a.cfg_edge@.contains((q, e)) ==> q != p && e != p,
    ensures
        a@.live_set().contains((r, p)) <==> a.region_live_at@.contains((r, p)),
{
    let live = listed_live(a);
}

/// Without universal regions, the output on live regions is the list of live regions, by point.
pub proof fn live_output_regroups_the_list(a: AllFacts, lists: Map<Point, Vec<Region>>)
    requires
        forall|r: Region| !#[trigger] a.universal_region@.contains(r),
        groups(lists, a@.live_set()),
    ensures
        forall|r: Region, p: Point| #[trigger]
            a.region_live_at@.contains((r, p)) <==> lists.contains_key(p) && exists|i: int|
                0 <= i < lists[p]@.len() && #[trigger] lists[p]@[i] == r,
{
    let live = listed_live(a);
    lists_hold_the_relation(lists, a@.live_set());
    assert forall|r: Region, p: Point| #[trigger]
        a.region_live_at@.contains((r, p)) <==> lists.contains_key(p) && exists|i: int|
            0 <= i < lists[p]@.len() && #[trigger] lists[p]@[i] == r by {
        assert(live.contains((r, p)) <==> a.region_live_at@.contains((r, p)));
        assert(a@.live_set().contains((r, p)) <==> live.contains((r, p)));
    }
}

/// The output on live regions is what is listed as live, and the universal regions at the ends of
/// the edges.
pub proof fn live_output_is_what_is_listed(a: AllFacts, lists: Map<Point, Vec<Region>>)
    requires
        groups(lists, a@.live_set()),
    ensures
        forall|r: Region, p: Point|
            lists.contains_key(p) && #[trigger] lists[p]@.contains(r)
                ==> a.region_live_at@.contains((r, p))
                || (a.universal_region@.contains(r) && exists|q: Point|
                #![trigger a.cfg_edge@.contains((p, q))]
                #![trigger a.cfg_edge@.contains((q, p))]
                a.cfg_edge@.contains((p, q)) || a.cfg_edge@.contains((q, p))),
        forall|r: Region, p: Point| #[trigger]
            a.region_live_at@.contains((r, p)) ==> lists.contains_key(p) && lists[p]@.contains(r),
        forall|r: Region, p: Point, q: Point| #[trigger]
            a.universal_region@.contains(r) && #[trigger] a.cfg_edge@.contains((p, q))
                ==> lists.contains_key(p) && lists[p]@.contains(r) && lists.contains_key(q)
                && lists[q]@.contains(r),
{
    let live = listed_live(a);
    assert forall|r: Region, p: Point| #[trigger]
        live.contains((r, p)) <==> lists.contains_key(p) && lists[p]@.contains(r) by {
        assert(a@.live_set().contains((r, p)) <==> lists.contains_key(p) && lists[p]@.contains(r));
    }
    assert forall|r: Region, p: Point|
        lists.contains_key(p) && #[trigger] lists[p]@.contains(r) implies live.contains((r, p)) by {
        assert(live.contains((r, p)) <==> lists.contains_key(p) && lists[p]@.contains(r));
    }
    assert forall|r: Region, p: Point| #[trigger]
        a.region_live_at@.contains((r, p)) implies live.contains((r, p)) by {}
    assert forall|r: Region, p: Point, q: Point| #[trigger]
        a.universal_region@.contains(r) && #[trigger] a.cfg_edge@.contains((p, q))
        implies live.contains((r, p)) && live.contains((r, q)) by {}
}

/// One more pair in the list of live regions makes that pair live, and no other.
pub proof fn listing_a_pair_makes_it_live(a: AllFacts, b: AllFacts, r: Region, p: Point)
    requires
        b.region_live_at@ == a.region_live_at@.push((r, p)),
        b.universal_region@ == a.universal_region@,
        b.cfg_edge@ == a.cfg_edge@,
    ensures
        b@.live_set() == a@.live_set().insert((r, p)),
{
    let before = listed_live(a);
    let after = listed_live(b);
    a.region_live_at@.lemma_push_to_set_commute((r, p));
    assert forall|t: (Region, Point)| #[trigger]
        b.region_live_at@.contains(t) <==> a.region_live_at@.contains(t) || t == (r, p) by {
        assert(b.region_live_at@.to_set().contains(t) <==> b.region_live_at@.contains(t));
        assert(a.region_live_at@.to_set().contains(t) <==> a.region_live_at@.contains(t));
    }
    assert(after =~= before.insert((r, p)));
}

/// One more universal region is live at the ends of the edges besides, and nothing else is.
pub proof fn a_universal_region_is_live_on_the_graph(a: AllFacts, b: AllFacts, r: Region)
    requires
        b.universal_region@ == a.universal_region@.push(r),
        b.region_live_at@ == a.region_live_at@,
        b.cfg_edge@ == a.cfg_edge@,
    ensures
        forall|s: Region, p: Point| #[trigger]
            b@.live_set().contains((s, p)) <==> a@.live_set().contains((s, p)) || (s == r
                && exists|q: Point|
                #![trigger a.cfg_edge@.contains((p, q))]
                #![trigger a.cfg_edge@.contains((q, p))]
                a.cfg_edge@.contains((p, q)) || a.cfg_edge@.contains((q, p))),
{
    let before = listed_live(a);
    let after = listed_live(b);
    a.universal_region@.lemma_push_to_set_commute(r);
    assert forall|s: Region| #[trigger]
        b.universal_region@.contains(s) <==> a.universal_region@.contains(s) || s == r by {
        assert(b.universal_region@.to_set().contains(s) <==> b.universal_region@.contains(s));
        assert(a.universal_region@.to_set().contains(s) <==> a.universal_region@.contains(s));
    }
}

/// What is listed of one region decides where it is live: other regions do not matter.
pub proof fn a_region_is_live_by_its_own_facts(a: AllFacts, b: AllFacts, r: Region)
    requires
        b.universal_region@.contains(r) <==> a.universal_region@.contains(r),
        forall|p: Point| #[trigger]
            b.region_live_at@.contains((r, p)) <==> a.region_live_at@.contains((r, p)),
        forall|t: (Point, Point)| #[trigger] b.cfg_edge@.contains(t) <==> a.cfg_edge@.contains(t),
    ensures
        forall|p: Point| #[trigger]
            b@.live_set().contains((r, p)) <==> a@.live_set().contains((r, p)),
{
    let before = listed_live(a);
    let after = listed_live(b);
    assert forall|p: Point| #[trigger] after.contains((r, p)) <==> before.contains((r, p)) by {
        if exists|q: Point|
            #![trigger a.cfg_edge@.contains((p, q))]
            a.cfg_edge@.contains((p, q)) || a.cfg_edge@.contains((q, p)) {
            let q = choose|q: Point|
                #![trigger a.cfg_edge@.contains((p, q))]
                a.cfg_edge@.contains((p, q)) || a.cfg_edge@.contains((q, p));
            assert(b.cfg_edge@.contains((p, q)) || b.cfg_edge@.contains((q, p)));
        }
        if exists|q: Point|
            #![trigger b.cfg_edge@.contains((p, q))]
            b.cfg_edge@.contains((p, q)) || b.cfg_edge@.contains((q, p)) {
            let q = choose|q: Point|
                #![trigger b.cfg_edge@.contains((p, q))]
                b.cfg_edge@.contains((p, q)) || b.cfg_edge@.contains((q, p));
            assert(a.cfg_edge@.contains((p, q)) || a.cfg_edge@.contains((q, p)));
        }
        assert(before.contains((r, p)) <==> a@.live_set().contains((r, p)));
    }
    assert forall|p: Point| #[trigger] b@.live_set().contains((r, p)) <==> a@.live_set().contains(
        (r, p),
    ) by {
        assert(after.contains((r, p)) <==> before.contains((r, p)));
    }
}

/// An output by point holds the pairs of the relation, each once, in rising order, and nothing
/// else.
pub proof fn lists_hold_the_relation(
    lists: Map<Point, Vec<usize>>,
    relation: Set<(usize, Point)>,
)
    requires
        groups(lists, relation),
    ensures
        forall|x: usize, p: Point| #[trigger]
            relation.contains((x, p)) <==> lists.contains_key(p) && exists|i: int|
                0 <= i < lists[p]@.len() && #[trigger] lists[p]@[i] == x,
        forall|p: Point, i: int, j: int|
            lists.contains_key(p) && 0 <= i < j < lists[p]@.len() ==> #[trigger] lists[p]@[i]
                < #[trigger] lists[p]@[j],
        forall|p: Point| #[trigger] lists.contains_key(p) ==> lists[p]@.len() > 0,
{
    assert forall|x: usize, p: Point| #[trigger]
        relation.contains((x, p)) <==> lists.contains_key(p) && exists|i: int|
            0 <= i < lists[p]@.len() && #[trigger] lists[p]@[i] == x by {
        if lists.contains_key(p) {
            assert(lists[p]@.contains(x) <==> exists|i: int|
                0 <= i < lists[p]@.len() && #[trigger] lists[p]@[i] == x);
        }
    }
}

/// An output by point and region holds the triples of the relation, and nothing else.
pub proof fn trees_hold_the_relation(
    trees: Map<Point, BTreeMap<usize, BTreeSet<usize>>>,
    relation: Set<(usize, usize, Point)>,
)
    requires
        groups_nested(trees, relation),
    ensures
        forall|x: usize, y: usize, p: Point| #[trigger]
            relation.contains((x, y, p)) <==> trees.contains_key(p) && trees[p]@.contains_key(x)
                && trees[p]@[x]@.contains(y),
        forall|p: Point| #[trigger] trees.contains_key(p) ==> !trees[p]@.is_empty(),
        forall|p: Point, x: usize|
            trees.contains_key(p) && #[trigger] trees[p]@.contains_key(x)
                ==> !trees[p]@[x]@.is_empty(),
{
    assert forall|p: Point| #[trigger] trees.contains_key(p) implies !trees[p]@.is_empty() by {
        let x = choose|x: usize| #[trigger] trees[p]@.contains_key(x);
        assert(trees[p]@.contains_key(x));
        assert(trees[p]@.dom().contains(x));
    }
    assert forall|p: Point, x: usize|
        trees.contains_key(p) && #[trigger] trees[p]@.contains_key(x)
        implies !trees[p]@[x]@.is_empty() by {
        let y = choose|y: usize| #[trigger] trees[p]@[x]@.contains(y);
        assert(trees[p]@[x]@.contains(y));
    }
}

/// The output on subsets holds what is derived, less what relates a region to itself.
pub proof fn subset_output_holds_what_is_derived(
    a: AllFacts,
    trees: Map<Point, BTreeMap<Region, BTreeSet<Region>>>,
)
    requires
        groups_nested(trees, proper_subset(derived(a@))),
    ensures
        forall|r1: Region, r2: Region, p: Point| #[trigger]
            derived(a@).subset.contains((r1, r2, p)) && r1 != r2 <==> trees.contains_key(p)
                && trees[p]@.contains_key(r1) && trees[p]@[r1]@.contains(r2),
{
    trees_hold_the_relation(trees, proper_subset(derived(a@)));
    assert forall|r1: Region, r2: Region, p: Point| #[trigger]
        derived(a@).subset.contains((r1, r2, p)) && r1 != r2 <==> trees.contains_key(p)
            && trees[p]@.contains_key(r1) && trees[p]@[r1]@.contains(r2) by {
        assert(proper_subset(derived(a@)).contains((r1, r2, p)) <==> derived(a@).subset.contains(
            (r1, r2, p),
        ) && r1 != r2);
    }
}

/// A path that is given by its neighbours.
proof fn neighbours_make_a_path(f: Facts, m: Model, path: Seq<Region>, p: Point, q: Point)
    requires
        path.len() >= 2,
        forall|i: int, j: int|
            0 <= i < path.len() - 1 && j == i + 1 ==> m.subset.contains(
                (#[trigger] path[i], #[trigger] path[j], p),
            ),
        forall|i: int| 0 < i < path.len() - 1 ==> !f.live(#[trigger] path[i], q),
    ensures
        is_path(f, m, path, p, q),
{
    assert forall|i: int| 0 <= i < path.len() - 1 implies #[trigger] linked(m, path, i, p) by {
        let j = i + 1;
        assert(m.subset.contains((path[i], path[j], p)));
    }
}

/// The neighbours on a path.
proof fn path_has_neighbours(f: Facts, m: Model, path: Seq<Region>, p: Point, q: Point)
    requires
        is_path(f, m, path, p, q),
    ensures
        forall|i: int, j: int|
            0 <= i < path.len() - 1 && j == i + 1 ==> m.subset.contains(
                (#[trigger] path[i], #[trigger] path[j], p),
            ),
{
    assert forall|i: int, j: int| 0 <= i < path.len() - 1 && j == i + 1 implies m.subset.contains(
        (#[trigger] path[i], #[trigger] path[j], p),
    ) by {
        assert(linked(m, path, i, p));
    }
}

/// What is listed as outliving is a subset relation at its point.
pub proof fn outlives_makes_subset(a: AllFacts, r1: Region, r2: Region, p: Point)
    requires
        a.outlives@.contains((r1, r2, p)),
    ensures
        derived(a@).subset.contains((r1, r2, p)),
{
    facts_are_those_listed(a);
    derived_is_closed(a@);
    assert(a@.outlives.contains((r1, r2, p)));
}

/// A path of subset relations at the start of an edge, whose two ends are live at the end of the
/// edge and whose other regions are dead there, is a subset relation at the end of the edge.
pub proof fn path_makes_subset(
    a: AllFacts,
    live: Set<(Region, Point)>,
    path: Seq<Region>,
    p: Point,
    q: Point,
)
    requires
        forall|r: Region, p: Point| #[trigger]
            live.contains((r, p)) <==> a.region_live_at@.contains((r, p)) || (
            a.universal_region@.contains(r) && exists|q: Point|
                #![trigger a.cfg_edge@.contains((p, q))]
                #![trigger a.cfg_edge@.contains((q, p))]
                a.cfg_edge@.contains((p, q)) || a.cfg_edge@.contains((q, p))),
        a.cfg_edge@.contains((p, q)),
        path.len() >= 2,
        forall|i: int, j: int|
            0 <= i < path.len() - 1 && j == i + 1 ==> derived(a@).subset.contains(
                (#[trigger] path[i], #[trigger] path[j], p),
            ),
        forall|i: int| 0 < i < path.len() - 1 ==> !live.contains((#[trigger] path[i], q)),
        live.contains((path.first(), q)),
        live.contains((path.last(), q)),
    ensures
        derived(a@).subset.contains((path.first(), path.last(), q)),
{
    let f = a@;
    let d = derived(f);
    facts_are_those_listed(a);
    live_is_what_is_listed(a, live);
    derived_is_closed(f);
    assert(f.cfg_edge.contains((p, q)));
    neighbours_make_a_path(f, d, path, p, q);
    assert(linked(d, path, 0, p));
    if path.len() == 2 {
        assert(rule_subset_carried(f, d));
    } else {
        let rest = path.drop_first();
        assert(is_path(f, d, rest, p, q)) by {
            assert forall|i: int| 0 <= i < rest.len() - 1 implies #[trigger] linked(
                d,
                rest,
                i,
                p,
            ) by {
                assert(linked(d, path, i + 1, p));
            }
            assert forall|i: int| 0 < i < rest.len() - 1 implies !#[trigger] f.live(
                rest[i],
                q,
            ) by {
                assert(!f.live(path[i + 1], q));
            }
        }
        assert(!f.live(path[1], q));
        assert(rule_live_to_dying(f, d));
        assert(d.live_to_dying_regions.contains((path[0], path[1], p, q)));
        assert(rule_origins_live_to_dying(f, d));
        path_is_reached(f, rest, p, q);
        assert(rule_reach_live(f, d));
        assert(d.dying_can_reach_live.contains((path[1], path.last(), p, q)));
        assert(rule_subset_dying(f, d));
    }
}

/// Nothing else is a subset relation: what is derived is within every relation that holds what is
/// listed as outliving, and the ends of each such path.
pub proof fn subset_is_least(
    a: AllFacts,
    live: Set<(Region, Point)>,
    s: Set<(Region, Region, Point)>,
)
    requires
        forall|r: Region, p: Point| #[trigger]
            live.contains((r, p)) <==> a.region_live_at@.contains((r, p)) || (
            a.universal_region@.contains(r) && exists|q: Point|
                #![trigger a.cfg_edge@.contains((p, q))]
                #![trigger a.cfg_edge@.contains((q, p))]
                a.cfg_edge@.contains((p, q)) || a.cfg_edge@.contains((q, p))),
        forall|r1: Region, r2: Region, p: Point| #[trigger]
            a.outlives@.contains((r1, r2, p)) ==> s.contains((r1, r2, p)),
        forall|path: Seq<Region>, p: Point, q: Point|
            #![trigger a.cfg_edge@.contains((p, q)), s.contains((path.first(), path.last(), q))]
            a.cfg_edge@.contains((p, q)) && path.len() >= 2 && (forall|i: int, j: int|
                0 <= i < path.len() - 1 && j == i + 1 ==> s.contains(
                    (#[trigger] path[i], #[trigger] path[j], p),
                )) && (forall|i: int|
                0 < i < path.len() - 1 ==> !live.contains((#[trigger] path[i], q)))
                && live.contains((path.first(), q)) && live.contains((path.last(), q))
                ==> s.contains((path.first(), path.last(), q)),
    ensures
        derived(a@).subset.subset_of(s),
{
    let f = a@;
    facts_are_those_listed(a);
    live_is_what_is_listed(a, live);
    let base = Model { subset: s, ..derived(f) };
    let m = Model {
        subset: s,
        live_to_dying_regions: Set::new(
            |t: (Region, Region, Point, Point)|
                s.contains((t.0, t.1, t.2)) && f.cfg_edge.contains((t.2, t.3)) && f.live(t.0, t.3)
                    && !f.live(t.1, t.3),
        ),
        dying_region_requires: Set::full(),
        dying_can_reach_origins: Set::full(),
        dying_can_reach: Set::new(
            |t: (Region, Region, Point, Point)| path_leads(f, base, t.0, t.1, t.2, t.3),
        ),
        dying_can_reach_live: Set::new(
            |t: (Region, Region, Point, Point)|
                path_leads(f, base, t.0, t.1, t.2, t.3) && f.live(t.1, t.3),
        ),
        region_requires: Set::full(),
        dead_borrow_region_can_reach_root: Set::full(),
        dead_borrow_region_can_reach_dead: Set::full(),
        borrow_live_at: Set::full(),
        errors: Set::full(),
    };
    reaching_by_paths_is_closed(f, m, base);
    assert(rule_subset_carried(f, m)) by {
        assert forall|r1: Region, r2: Region, p: Point, q: Point|
            #![trigger m.subset.contains((r1, r2, p)), f.cfg_edge.contains((p, q))]
            m.subset.contains((r1, r2, p)) && f.cfg_edge.contains((p, q)) && f.live(r1, q)
                && f.live(r2, q) implies m.subset.contains((r1, r2, q)) by {
            let path = seq![r1, r2];
            assert(path.first() == r1 && path.last() == r2);
            assert(a.cfg_edge@.contains((p, q)));
            assert(s.contains((path.first(), path.last(), q)));
        }
    }
    assert(rule_subset_dying(f, m)) by {
        assert forall|r1: Region, r2: Region, r3: Region, p: Point, q: Point|
            #![trigger m.live_to_dying_regions.contains((r1, r2, p, q)),
                m.dying_can_reach_live.contains((r2, r3, p, q))]
            m.live_to_dying_regions.contains((r1, r2, p, q)) && m.dying_can_reach_live.contains(
                (r2, r3, p, q),
            ) implies m.subset.contains((r1, r3, q)) by {
            let rest = choose|path: Seq<Region>| #[trigger]
                is_path(f, base, path, p, q) && path[0] == r2 && path[path.len() - 1] == r3;
            let path = seq![r1] + rest;
            prefixed_path(f, base, r1, rest, p, q);
            path_has_neighbours(f, base, path, p, q);
            assert(path.first() == r1 && path.last() == r3);
            assert(a.cfg_edge@.contains((p, q)));
            assert forall|i: int| 0 < i < path.len() - 1 implies !live.contains(
                (#[trigger] path[i], q),
            ) by {
                assert(!f.live(path[i], q));
            }
            assert(s.contains((path.first(), path.last(), q)));
        }
    }
    assert(closed_under_rules(f, m));
    derived_is_least(f, m);
}

/// A region in front of a path that starts dead.
proof fn prefixed_path(f: Facts, m: Model, r: Region, rest: Seq<Region>, p: Point, q: Point)
    requires
        is_path(f, m, rest, p, q),
        m.subset.contains((r, rest[0], p)),
        !f.live(rest[0], q),
    ensures
        is_path(f, m, seq![r] + rest, p, q),
{
    let path = seq![r] + rest;
    assert forall|i: int| 0 <= i < path.len() - 1 implies #[trigger] linked(m, path, i, p) by {
        if i > 0 {
            assert(linked(m, rest, i - 1, p));
        }
    }
    assert forall|i: int| 0 < i < path.len() - 1 implies !#[trigger] f.live(path[i], q) by {
        if i > 1 {
            assert(!f.live(rest[i - 1], q));
        }
    }
}

/// Reaching by paths is closed under the rules for reaching.
proof fn reaching_by_paths_is_closed(f: Facts, m: Model, base: Model)
    requires
        m.subset == base.subset,
        m.dying_can_reach == Set::new(
            |t: (Region, Region, Point, Point)| path_leads(f, base, t.0, t.1, t.2, t.3),
        ),
        m.dying_can_reach_live == Set::new(
            |t: (Region, Region, Point, Point)|
                path_leads(f, base, t.0, t.1, t.2, t.3) && f.live(t.1, t.3),
        ),
    ensures
        rule_reach_first(f, m),
        rule_reach_next(f, m),
        rule_reach_live(f, m),
{
    assert forall|r1: Region, r2: Region, p: Point, q: Point|
        #![trigger m.dying_can_reach_origins.contains((r1, p, q)), m.subset.contains((r1, r2, p))]
        m.dying_can_reach_origins.contains((r1, p, q)) && m.subset.contains((r1, r2, p))
        implies m.dying_can_reach.contains((r1, r2, p, q)) by {
        let path = seq![r1, r2];
        assert(is_path(f, base, path, p, q)) by {
            assert forall|i: int| 0 <= i < path.len() - 1 implies #[trigger] linked(
                base,
                path,
                i,
                p,
            ) by {
                assert(i == 0);
            }
        }
        assert(path_leads(f, base, r1, r2, p, q));
    }
    assert forall|r1: Region, r2: Region, r3: Region, p: Point, q: Point|
        #![trigger m.dying_can_reach.contains((r1, r2, p, q)), m.subset.contains((r2, r3, p))]
        m.dying_can_reach.contains((r1, r2, p, q)) && m.subset.contains((r2, r3, p)) && !f.live(
            r2,
            q,
        ) implies m.dying_can_reach.contains((r1, r3, p, q)) by {
        let path = choose|path: Seq<Region>| #[trigger]
            is_path(f, base, path, p, q) && path[0] == r1 && path[path.len() - 1] == r2;
        let longer = path.push(r3);
        assert(is_path(f, base, longer, p, q)) by {
            assert forall|i: int| 0 <= i < longer.len() - 1 implies #[trigger] linked(
                base,
                longer,
                i,
                p,
            ) by {
                if i < path.len() - 1 {
                    assert(linked(base, path, i, p));
                }
            }
            assert forall|i: int| 0 < i < longer.len() - 1 implies !#[trigger] f.live(
                longer[i],
                q,
            ) by {
                if i < path.len() - 1 {
                    assert(!f.live(path[i], q));
                }
            }
        }
        assert(longer[0] == r1 && longer[longer.len() - 1] == r3);
        assert(path_leads(f, base, r1, r3, p, q));
    }
}

/// A region requires the loans that are created with it.
pub proof fn creation_makes_requirement(a: AllFacts, r: Region, b: Loan, p: Point)
    requires
        a.borrow_region@.contains((r, b, p)),
    ensures
        derived(a@).region_requires.contains((r, b, p)),
{
    facts_are_those_listed(a);
    derived_is_closed(a@);
    assert(a@.borrow_region.contains((r, b, p)));
}

/// A path at the start of an edge, from a region that requires a loan there, hands the loan on to
/// the end of the edge, where the last region of the path is live and all others are dead, unless
/// the loan is killed. The path may be that one region.
pub proof fn path_makes_requirement(
    a: AllFacts,
    live: Set<(Region, Point)>,
    path: Seq<Region>,
    b: Loan,
    p: Point,
    q: Point,
)
    requires
        forall|r: Region, p: Point| #[trigger]
            live.contains((r, p)) <==> a.region_live_at@.contains((r, p)) || (
            a.universal_region@.contains(r) && exists|q: Point|
                #![trigger a.cfg_edge@.contains((p, q))]
                #![trigger a.cfg_edge@.contains((q, p))]
                a.cfg_edge@.contains((p, q)) || a.cfg_edge@.contains((q, p))),
        a.cfg_edge@.contains((p, q)),
        !a.killed@.contains((b, p)),
        path.len() >= 1,
        derived(a@).region_requires.contains((path.first(), b, p)),
        forall|i: int, j: int|
            0 <= i < path.len() - 1 && j == i + 1 ==> derived(a@).subset.contains(
                (#[trigger] path[i], #[trigger] path[j], p),
            ),
        forall|i: int| 0 <= i < path.len() - 1 ==> !live.contains((#[trigger] path[i], q)),
        live.contains((path.last(), q)),
    ensures
        derived(a@).region_requires.contains((path.last(), b, q)),
{
    let f = a@;
    let d = derived(f);
    facts_are_those_listed(a);
    live_is_what_is_listed(a, live);
    derived_is_closed(f);
    assert(f.cfg_edge.contains((p, q)));
    assert(!f.killed.contains((b, p)));
    if path.len() == 1 {
        assert(rule_requires_carried(f, d));
    } else {
        neighbours_make_a_path(f, d, path, p, q);
        assert(!live.contains((path[0], q)));
        assert(!f.live(path[0], q));
        assert(rule_dying_requires(f, d));
        assert(d.dying_region_requires.contains((path[0], p, q, b)));
        assert(rule_origins_dying_requires(f, d));
        path_is_reached(f, path, p, q);
        assert(rule_reach_live(f, d));
        assert(d.dying_can_reach_live.contains((path[0], path.last(), p, q)));
        assert(rule_requires_dying(f, d));
    }
}

/// Nothing else is required: what is derived is within every relation that holds the listed
/// loans, and what such paths hand on.
pub proof fn requirement_is_least(
    a: AllFacts,
    live: Set<(Region, Point)>,
    s: Set<(Region, Loan, Point)>,
)
    requires
        forall|r: Region, p: Point| #[trigger]
            live.contains((r, p)) <==> a.region_live_at@.contains((r, p)) || (
            a.universal_region@.contains(r) && exists|q: Point|
                #![trigger a.cfg_edge@.contains((p, q))]
                #![trigger a.cfg_edge@.contains((q, p))]
                a.cfg_edge@.contains((p, q)) || a.cfg_edge@.contains((q, p))),
        forall|r: Region, b: Loan, p: Point| #[trigger]
            a.borrow_region@.contains((r, b, p)) ==> s.contains((r, b, p)),
        forall|path: Seq<Region>, b: Loan, p: Point, q: Point|
            #![trigger a.cfg_edge@.contains((p, q)), s.contains((path.first(), b, p)),
                s.contains((path.last(), b, q))]
            a.cfg_edge@.contains((p, q)) && !a.killed@.contains((b, p)) && path.len() >= 1
                && s.contains((path.first(), b, p)) && (forall|i: int, j: int|
                0 <= i < path.len() - 1 && j == i + 1 ==> derived(a@).subset.contains(
                    (#[trigger] path[i], #[trigger] path[j], p),
                )) && (forall|i: int|
                0 <= i < path.len() - 1 ==> !live.contains((#[trigger] path[i], q)))
                && live.contains((path.last(), q)) ==> s.contains((path.last(), b, q)),
    ensures
        derived(a@).region_requires.subset_of(s),
{
    let f = a@;
    let d = derived(f);
    facts_are_those_listed(a);
    live_is_what_is_listed(a, live);
    derived_is_closed(f);
    let m = Model {
        subset: d.subset,
        live_to_dying_regions: Set::new(
            |t: (Region, Region, Point, Point)|
                d.subset.contains((t.0, t.1, t.2)) && f.cfg_edge.contains((t.2, t.3)) && f.live(
                    t.0,
                    t.3,
                ) && !f.live(t.1, t.3),
        ),
        dying_region_requires: Set::new(
            |t: (Region, Point, Point, Loan)|
                s.contains((t.0, t.3, t.1)) && !f.killed.contains((t.3, t.1))
                    && f.cfg_edge.contains((t.1, t.2)) && !f.live(t.0, t.2),
        ),
        dying_can_reach_origins: Set::full(),
        dying_can_reach: Set::new(
            |t: (Region, Region, Point, Point)| path_leads(f, d, t.0, t.1, t.2, t.3),
        ),
        dying_can_reach_live: Set::new(
            |t: (Region, Region, Point, Point)|
                path_leads(f, d, t.0, t.1, t.2, t.3) && f.live(t.1, t.3),
        ),
        region_requires: s,
        dead_borrow_region_can_reach_root: Set::full(),
        dead_borrow_region_can_reach_dead: Set::full(),
        borrow_live_at: Set::full(),
        errors: Set::full(),
    };
    reaching_by_paths_is_closed(f, m, d);
    assert(rule_subset_dying(f, m)) by {
        assert forall|r1: Region, r2: Region, r3: Region, p: Point, q: Point|
            #![trigger m.live_to_dying_regions.contains((r1, r2, p, q)),
                m.dying_can_reach_live.contains((r2, r3, p, q))]
            m.live_to_dying_regions.contains((r1, r2, p, q)) && m.dying_can_reach_live.contains(
                (r2, r3, p, q),
            ) implies m.subset.contains((r1, r3, q)) by {
            let rest = choose|path: Seq<Region>| #[trigger]
                is_path(f, d, path, p, q) && path[0] == r2 && path[path.len() - 1] == r3;
            assert(rule_live_to_dying(f, d));
            assert(d.live_to_dying_regions.contains((r1, r2, p, q)));
            assert(rule_origins_live_to_dying(f, d));
            path_is_reached(f, rest, p, q);
            assert(rule_reach_live(f, d));
            assert(d.dying_can_reach_live.contains((r2, r3, p, q)));
            assert(rule_subset_dying(f, d));
        }
    }
    assert(rule_requires_carried(f, m)) by {
        assert forall|r: Region, b: Loan, p: Point, q: Point|
            #![trigger m.region_requires.contains((r, b, p)), f.cfg_edge.contains((p, q))]
            m.region_requires.contains((r, b, p)) && f.cfg_edge.contains((p, q))
                && !f.killed.contains((b, p)) && f.live(r, q)
            implies m.region_requires.contains((r, b, q)) by {
            let path = seq![r];
            assert(path.first() == r && path.last() == r);
            assert(a.cfg_edge@.contains((p, q)));
            assert(s.contains((path.first(), b, p)));
            assert(s.contains((path.last(), b, q)));
        }
    }
    assert(rule_requires_dying(f, m)) by {
        assert forall|r1: Region, r2: Region, b: Loan, p: Point, q: Point|
            #![trigger m.dying_region_requires.contains((r1, p, q, b)),
                m.dying_can_reach_live.contains((r1, r2, p, q))]
            m.dying_region_requires.contains((r1, p, q, b)) && m.dying_can_reach_live.contains(
                (r1, r2, p, q),
            ) implies m.region_requires.contains((r2, b, q)) by {
            let path = choose|path: Seq<Region>| #[trigger]
                is_path(f, d, path, p, q) && path[0] == r1 && path[path.len() - 1] == r2;
            path_has_neighbours(f, d, path, p, q);
            assert(path.first() == r1 && path.last() == r2);
            assert(a.cfg_edge@.contains((p, q)));
            assert forall|i: int| 0 <= i < path.len() - 1 implies !live.contains(
                (#[trigger] path[i], q),
            ) by {
                if i > 0 {
                    assert(!f.live(path[i], q));
                }
            }
            assert(s.contains((path.first(), b, p)));
            assert(s.contains((path.last(), b, q)));
        }
    }
    assert(closed_under_rules(f, m));
    derived_is_least(f, m);
}

/// A path at one point, from a region that requires a loan there, makes the loan live, where the
/// last region of the path is live and all others are dead. The path may be that one region.
pub proof fn path_makes_loan_live(
    a: AllFacts,
    live: Set<(Region, Point)>,
    path: Seq<Region>,
    b: Loan,
    p: Point,
)
    requires
        forall|r: Region, p: Point| #[trigger]
            live.contains((r, p)) <==> a.region_live_at@.contains((r, p)) || (
            a.universal_region@.contains(r) && exists|q: Point|
                #![trigger a.cfg_edge@.contains((p, q))]
                #![trigger a.cfg_edge@.contains((q, p))]
                a.cfg_edge@.contains((p, q)) || a.cfg_edge@.contains((q, p))),
        path.len() >= 1,
        derived(a@).region_requires.contains((path.first(), b, p)),
        forall|i: int, j: int|
            0 <= i < path.len() - 1 && j == i + 1 ==> derived(a@).subset.contains(
                (#[trigger] path[i], #[trigger] path[j], p),
            ),
        forall|i: int| 0 <= i < path.len() - 1 ==> !live.contains((#[trigger] path[i], p)),
        live.contains((path.last(), p)),
    ensures
        derived(a@).borrow_live_at.contains((b, p)),
{
    let f = a@;
    let d = derived(f);
    live_is_what_is_listed(a, live);
    derived_is_closed(f);
    if path.len() == 1 {
        assert(rule_live_required(f, d));
    } else {
        let dead = path.drop_last();
        assert(!live.contains((path[0], p)));
        dead_requirement_is_created(f, path[0], b, p);
        neighbours_make_a_path(f, d, path, p, p);
        assert(is_dead_path(f, d, dead, p)) by {
            assert forall|i: int| 0 <= i < dead.len() - 1 implies #[trigger] linked(
                d,
                dead,
                i,
                p,
            ) by {
                assert(linked(d, path, i, p));
            }
            assert forall|i: int| 0 <= i < dead.len() implies !#[trigger] f.live(dead[i], p) by {
                assert(!live.contains((path[i], p)));
            }
        }
        dead_path_is_reached(f, dead, p, b);
        assert(linked(d, path, path.len() - 2, p));
        assert(rule_live_reached(f, d));
    }
}

/// No other loan is live: what is derived is within every relation that holds the loans that such
/// paths make live.
pub proof fn live_loans_are_least(
    a: AllFacts,
    live: Set<(Region, Point)>,
    s: Set<(Loan, Point)>,
)
    requires
        forall|r: Region, p: Point| #[trigger]
            live.contains((r, p)) <==> a.region_live_at@.contains((r, p)) || (
            a.universal_region@.contains(r) && exists|q: Point|
                #![trigger a.cfg_edge@.contains((p, q))]
                #![trigger a.cfg_edge@.contains((q, p))]
                a.cfg_edge@.contains((p, q)) || a.cfg_edge@.contains((q, p))),
        forall|path: Seq<Region>, b: Loan, p: Point|
            #![trigger derived(a@).region_requires.contains((path.first(), b, p)),
                live.contains((path.last(), p))]
            path.len() >= 1 && derived(a@).region_requires.contains((path.first(), b, p)) && (
            forall|i: int, j: int|
                0 <= i < path.len() - 1 && j == i + 1 ==> derived(a@).subset.contains(
                    (#[trigger] path[i], #[trigger] path[j], p),
                )) && (forall|i: int|
                0 <= i < path.len() - 1 ==> !live.contains((#[trigger] path[i], p)))
                && live.contains((path.last(), p)) ==> s.contains((b, p)),
    ensures
        derived(a@).borrow_live_at.subset_of(s),
{
    let f = a@;
    let d = derived(f);
    live_is_what_is_listed(a, live);
    derived_is_closed(f);
    let m = Model { borrow_live_at: s, errors: Set::full(), ..d };
    assert(rule_live_required(f, m)) by {
        assert forall|r: Region, b: Loan, p: Point| #[trigger]
            m.region_requires.contains((r, b, p)) && f.live(r, p)
            implies m.borrow_live_at.contains((b, p)) by {
            let path = seq![r];
            assert(path.first() == r && path.last() == r);
            assert(d.region_requires.contains((path.first(), b, p)));
            assert(live.contains((path.last(), p)));
        }
    }
    assert(rule_live_reached(f, m)) by {
        assert forall|r1: Region, r2: Region, b: Loan, p: Point|
            #![trigger m.dead_borrow_region_can_reach_dead.contains((r1, p, b)),
                m.subset.contains((r1, r2, p))]
            m.dead_borrow_region_can_reach_dead.contains((r1, p, b)) && m.subset.contains(
                (r1, r2, p),
            ) && f.live(r2, p) implies m.borrow_live_at.contains((b, p)) by {
            dead_reach_is_by_dead_paths(f, r1, p, b);
            let dead = choose|path: Seq<Region>| #[trigger]
                is_dead_path(f, d, path, p) && f.borrow_region.contains((path[0], b, p))
                    && path[path.len() - 1] == r1;
            let path = dead.push(r2);
            assert forall|i: int, j: int| 0 <= i < path.len() - 1 && j == i + 1
                implies d.subset.contains((#[trigger] path[i], #[trigger] path[j], p)) by {
                if i < dead.len() - 1 {
                    assert(linked(d, dead, i, p));
                }
            }
            assert forall|i: int| 0 <= i < path.len() - 1 implies !live.contains(
                (#[trigger] path[i], p),
            ) by {
                assert(!f.live(dead[i], p));
            }
            assert(path.first() == dead[0] && path.last() == r2);
            assert(d.region_requires.contains((path.first(), b, p)));
            assert(live.contains((path.last(), p)));
        }
    }
    assert(closed_under_rules(f, m));
    derived_is_least(f, m);
}

/// The errors are the loans that are listed as invalidated where they are live.
pub proof fn errors_are_listed_as_invalidated(a: AllFacts, b: Loan, p: Point)
    ensures
        derived(a@).errors.contains((b, p)) <==> a.invalidates@.contains((p, b)) && derived(
            a@,
        ).borrow_live_at.contains((b, p)),
{
    facts_are_those_listed(a);
    errors_are_invalidated_live_loans(a@, b, p);
}

/// No error comes without a flow. Let `s` hold what is listed as outliving, be transitive at each
/// point, and keep what is live from one point to the next; let `t` hold the listed loans, follow
/// `s`, and keep what is live and not killed. Then a loan is reported only where it is listed as
/// invalidated and a live region has it by `t`.
pub proof fn no_error_without_a_flow(
    a: AllFacts,
    live: Set<(Region, Point)>,
    s: Set<(Region, Region, Point)>,
    t: Set<(Region, Loan, Point)>,
    b: Loan,
    p: Point,
)
    requires
        forall|r: Region, p: Point| #[trigger]
            live.contains((r, p)) <==> a.region_live_at@.contains((r, p)) || (
            a.universal_region@.contains(r) && exists|q: Point|
                #![trigger a.cfg_edge@.contains((p, q))]
                #![trigger a.cfg_edge@.contains((q, p))]
                a.cfg_edge@.contains((p, q)) || a.cfg_edge@.contains((q, p))),
        forall|r1: Region, r2: Region, p: Point| #[trigger]
            a.outlives@.contains((r1, r2, p)) ==> s.contains((r1, r2, p)),
        forall|r1: Region, r2: Region, r3: Region, p: Point| #[trigger]
            s.contains((r1, r2, p)) && #[trigger] s.contains((r2, r3, p)) ==> s.contains(
                (r1, r3, p),
            ),
        forall|r1: Region, r2: Region, p: Point, q: Point| #[trigger]
            s.contains((r1, r2, p)) && #[trigger] a.cfg_edge@.contains((p, q)) && live.contains(
                (r1, q),
            ) && live.contains((r2, q)) ==> s.contains((r1, r2, q)),
        forall|r: Region, b: Loan, p: Point| #[trigger]
            a.borrow_region@.contains((r, b, p)) ==> t.contains((r, b, p)),
        forall|r1: Region, r2: Region, b: Loan, p: Point| #[trigger]
            t.contains((r1, b, p)) && #[trigger] s.contains((r1, r2, p)) ==> t.contains(
                (r2, b, p),
            ),
        forall|r: Region, b: Loan, p: Point, q: Point| #[trigger]
            t.contains((r, b, p)) && #[trigger] a.cfg_edge@.contains((p, q))
                && !a.killed@.contains((b, p)) && live.contains((r, q)) ==> t.contains((r, b, q)),
        derived(a@).errors.contains((b, p)),
    ensures
        a.invalidates@.contains((p, b)),
        exists|r: Region| #[trigger] t.contains((r, b, p)) && live.contains((r, p)),
{
    let f = a@;
    facts_are_those_listed(a);
    live_is_what_is_listed(a, live);
    errors_are_those_of_the_transitive_analysis(f, b, p);
    assert(closed_as_plain_subset(f, s));
    assert(plain_subset(f).subset_of(s));
    assert(closed_as_plain_requires(f, t));
    let r = choose|r: Region| #[trigger]
        plain_requires(f).contains((r, b, p)) && f.live(r, p);
    assert(t.contains((r, b, p)));
}

/// What is listed of one loan decides where it is live and where it is reported: other loans do
/// not matter.
pub proof fn a_loan_is_judged_by_its_own_facts(a: AllFacts, c: AllFacts, b: Loan, p: Point)
    requires
        c.cfg_edge@ == a.cfg_edge@,
        c.universal_region@ == a.universal_region@,
        c.region_live_at@ == a.region_live_at@,
        c.outlives@ == a.outlives@,
        forall|r: Region, q: Point| #[trigger]
            c.borrow_region@.contains((r, b, q)) <==> a.borrow_region@.contains((r, b, q)),
        forall|q: Point| #[trigger] c.killed@.contains((b, q)) <==> a.killed@.contains((b, q)),
        forall|q: Point| #[trigger]
            c.invalidates@.contains((q, b)) <==> a.invalidates@.contains((q, b)),
    ensures
        derived(c@).subset == derived(a@).subset,
        forall|r: Region| #[trigger]
            derived(c@).region_requires.contains((r, b, p)) <==> derived(
                a@,
            ).region_requires.contains((r, b, p)),
        derived(c@).borrow_live_at.contains((b, p)) <==> derived(a@).borrow_live_at.contains(
            (b, p),
        ),
        derived(c@).errors.contains((b, p)) <==> derived(a@).errors.contains((b, p)),
{
    a_loan_is_judged_within(a, c, b);
    a_loan_is_judged_within(c, a, b);
    assert(derived(c@).subset =~= derived(a@).subset);
    errors_are_listed_as_invalidated(a, b, p);
    errors_are_listed_as_invalidated(c, b, p);
}

/// What one list of facts says of a loan, another that agrees on it says too.
proof fn a_loan_is_judged_within(a: AllFacts, c: AllFacts, b: Loan)
    requires
        c.cfg_edge@ == a.cfg_edge@,
        c.universal_region@ == a.universal_region@,
        c.region_live_at@ == a.region_live_at@,
        c.outlives@ == a.outlives@,
        forall|r: Region, q: Point| #[trigger]
            c.borrow_region@.contains((r, b, q)) <==> a.borrow_region@.contains((r, b, q)),
        forall|q: Point| #[trigger] c.killed@.contains((b, q)) <==> a.killed@.contains((b, q)),
    ensures
        derived(a@).subset.subset_of(derived(c@).subset),
        forall|r: Region, q: Point| #[trigger]
            derived(a@).region_requires.contains((r, b, q)) ==> derived(
                c@,
            ).region_requires.contains((r, b, q)),
        forall|q: Point| #[trigger]
            derived(a@).borrow_live_at.contains((b, q)) ==> derived(c@).borrow_live_at.contains(
                (b, q),
            ),
{
    let f = a@;
    let g = c@;
    let (d, e) = (derived(f), derived(g));
    facts_are_those_listed(a);
    facts_are_those_listed(c);
    let live = listed_live(a);
    live_is_what_is_listed(c, live);
    derived_is_closed(g);
    assert(f.cfg_edge == g.cfg_edge && f.outlives == g.outlives);
    assert forall|r: Region, p: Point| #[trigger] f.live(r, p) == g.live(r, p) by {
        assert(live.contains((r, p)) == f.live(r, p));
    }
    assert forall|r: Region, q: Point| #[trigger]
        f.borrow_region.contains((r, b, q)) <==> g.borrow_region.contains((r, b, q)) by {
        assert(c.borrow_region@.contains((r, b, q)) <==> a.borrow_region@.contains((r, b, q)));
    }
    assert forall|q: Point| #[trigger]
        f.killed.contains((b, q)) <==> g.killed.contains((b, q)) by {
        assert(c.killed@.contains((b, q)) <==> a.killed@.contains((b, q)));
    }
    let m = Model {
        subset: e.subset,
        live_to_dying_regions: Set::new(
            |t: (Region, Region, Point, Point)|
                e.subset.contains((t.0, t.1, t.2)) && f.cfg_edge.contains((t.2, t.3)) && f.live(
                    t.0,
                    t.3,
                ) && !f.live(t.1, t.3),
        ),
        dying_region_requires: Set::new(
            |t: (Region, Point, Point, Loan)|
                (t.3 == b ==> e.region_requires.contains((t.0, b, t.1)) && !f.killed.contains(
                    (b, t.1),
                )) && f.cfg_edge.contains((t.1, t.2)) && !f.live(t.0, t.2),
        ),
        dying_can_reach_origins: Set::full(),
        dying_can_reach: Set::new(
            |t: (Region, Region, Point, Point)| path_leads(f, e, t.0, t.1, t.2, t.3),
        ),
        dying_can_reach_live: Set::new(
            |t: (Region, Region, Point, Point)|
                path_leads(f, e, t.0, t.1, t.2, t.3) && f.live(t.1, t.3),
        ),
        region_requires: Set::new(
            |t: (Region, Loan, Point)| t.1 == b ==> e.region_requires.contains(t),
        ),
        dead_borrow_region_can_reach_root: Set::new(
            |t: (Region, Point, Loan)|
                t.2 == b ==> e.dead_borrow_region_can_reach_root.contains(t),
        ),
        dead_borrow_region_can_reach_dead: Set::new(
            |t: (Region, Point, Loan)|
                t.2 == b ==> e.dead_borrow_region_can_reach_dead.contains(t),
        ),
        borrow_live_at: Set::new(|t: (Loan, Point)| t.0 == b ==> e.borrow_live_at.contains(t)),
        errors: Set::full(),
    };
    reaching_by_paths_is_closed(f, m, e);
    assert(rule_subset_dying(f, m)) by {
        assert forall|r1: Region, r2: Region, r3: Region, p: Point, q: Point|
            #![trigger m.live_to_dying_regions.contains((r1, r2, p, q)),
                m.dying_can_reach_live.contains((r2, r3, p, q))]
            m.live_to_dying_regions.contains((r1, r2, p, q)) && m.dying_can_reach_live.contains(
                (r2, r3, p, q),
            ) implies m.subset.contains((r1, r3, q)) by {
            let rest = choose|path: Seq<Region>| #[trigger]
                is_path(f, e, path, p, q) && path[0] == r2 && path[path.len() - 1] == r3;
            prefixed_path(f, e, r1, rest, p, q);
            let path = seq![r1] + rest;
            path_has_neighbours(f, e, path, p, q);
            assert(path.first() == r1 && path.last() == r3);
            assert(c.cfg_edge@.contains((p, q)));
            assert forall|i: int| 0 < i < path.len() - 1 implies !live.contains(
                (#[trigger] path[i], q),
            ) by {
                assert(!f.live(path[i], q));
            }
            path_makes_subset(c, live, path, p, q);
        }
    }
    assert(rule_requires_dying(f, m)) by {
        assert forall|r1: Region, r2: Region, l: Loan, p: Point, q: Point|
            #![trigger m.dying_region_requires.contains((r1, p, q, l)),
                m.dying_can_reach_live.contains((r1, r2, p, q))]
            m.dying_region_requires.contains((r1, p, q, l)) && m.dying_can_reach_live.contains(
                (r1, r2, p, q),
            ) implies m.region_requires.contains((r2, l, q)) by {
            if l == b {
                let path = choose|path: Seq<Region>| #[trigger]
                    is_path(f, e, path, p, q) && path[0] == r1 && path[path.len() - 1] == r2;
                path_has_neighbours(f, e, path, p, q);
                assert(path.first() == r1 && path.last() == r2);
                assert(c.cfg_edge@.contains((p, q)));
                assert(!c.killed@.contains((b, p)));
                assert forall|i: int| 0 <= i < path.len() - 1 implies !live.contains(
                    (#[trigger] path[i], q),
                ) by {
                    if i > 0 {
                        assert(!f.live(path[i], q));
                    }
                }
                path_makes_requirement(c, live, path, b, p, q);
            }
        }
    }
    assert(closed_under_rules(f, m));
    derived_is_least(f, m);
    assert forall|r: Region, q: Point| #[trigger]
        d.region_requires.contains((r, b, q)) implies e.region_requires.contains((r, b, q)) by {
        assert(m.region_requires.contains((r, b, q)));
    }
    assert forall|q: Point| #[trigger]
        d.borrow_live_at.contains((b, q)) implies e.borrow_live_at.contains((b, q)) by {
        assert(m.borrow_live_at.contains((b, q)));
    }
}

/// What comes of listing the live regions, told by the lists: what was listed stays, each
/// universal region comes to each end of an edge, and nothing else comes.
pub proof fn listing_adds_the_universal_regions(a: AllFacts, b: AllFacts)
    requires
        b@ == (Facts { region_live_at: a@.live_set(), ..a@ }),
    ensures
        forall|r: Region, p: Point| #[trigger]
            b.region_live_at@.contains((r, p)) <==> a.region_live_at@.contains((r, p)) || (
            a.universal_region@.contains(r) && exists|q: Point|
                #![trigger a.cfg_edge@.contains((p, q))]
                #![trigger a.cfg_edge@.contains((q, p))]
                a.cfg_edge@.contains((p, q)) || a.cfg_edge@.contains((q, p))),
{
    let live = listed_live(a);
    facts_are_those_listed(b);
    assert forall|r: Region, p: Point| #[trigger]
        b.region_live_at@.contains((r, p)) <==> live.contains((r, p)) by {
        assert(b@.region_live_at.contains((r, p)) <==> b.region_live_at@.contains((r, p)));
    }
}

} // verus!
