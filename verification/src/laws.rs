//! What holds of the analysis as a whole.
use crate::facts::{AllFacts, Facts, Loan, Point, Region};
use crate::output::{groups, groups_nested, increasing};
use crate::rules::{
    closed_under_rules, consequences, derived, derived_is_closed, derived_is_fixpoint,
    derived_is_least, goes_dead, is_enforced, proper_subset, rule_dead_first, rule_dead_next,
    rule_live_reached, rule_live_to_dying, rule_outlives, rule_reach_first, rule_reach_live,
    rule_reach_next, rule_subset_carried, within, Model,
};
use crate::transitive::{
    live_loans_are_plainly_live, more_facts_are_plainly_more_live, plain_requires, plainly_live,
};
use std::collections::{BTreeMap, BTreeSet};
use vstd::prelude::*;

verus! {

/// The errors are the loans that are invalidated where they are live.
pub proof fn errors_are_invalidated_live_loans(f: Facts, b: Loan, p: Point)
    ensures
        derived(f).errors.contains((b, p)) <==> f.invalidates.contains((p, b)) && derived(
            f,
        ).borrow_live_at.contains((b, p)),
{
    derived_is_fixpoint(f);
    assert(consequences(f, derived(f)).errors.contains((b, p)) <==> f.invalidates.contains((p, b))
        && derived(f).borrow_live_at.contains((b, p)));
}

/// A loan is live where a live region requires it, or where it is created with a dead region
/// and reaches a live one through dead ones.
pub proof fn loans_are_live_where_enforced(f: Facts, b: Loan, p: Point)
    ensures
        derived(f).borrow_live_at.contains((b, p)) <==> is_enforced(f, derived(f), b, p),
{
    derived_is_fixpoint(f);
    assert(consequences(f, derived(f)).borrow_live_at.contains((b, p)) <==> is_enforced(
        f,
        derived(f),
        b,
        p,
    ));
}

/// Two regions are live to dying along an edge just where the first is a subset of the second
/// at its start, and at its end the first is live and the second dead.
pub proof fn live_to_dying_exactly(f: Facts, r1: Region, r2: Region, p: Point, q: Point)
    ensures
        derived(f).live_to_dying_regions.contains((r1, r2, p, q)) <==> derived(f).subset.contains(
            (r1, r2, p),
        ) && f.cfg_edge.contains((p, q)) && f.live(r1, q) && !f.live(r2, q),
{
    derived_is_fixpoint(f);
    let c = consequences(f, derived(f));
    assert(c.live_to_dying_regions.contains((r1, r2, p, q)) <==> derived(f).subset.contains(
        (r1, r2, p),
    ) && f.cfg_edge.contains((p, q)) && f.live(r1, q) && !f.live(r2, q));
}

/// A dying region requires a loan along an edge just where it requires the loan at the start of
/// the edge, which does not kill the loan, and is dead at its end.
pub proof fn dying_requires_exactly(f: Facts, r: Region, p: Point, q: Point, b: Loan)
    ensures
        derived(f).dying_region_requires.contains((r, p, q, b)) <==> derived(
            f,
        ).region_requires.contains((r, b, p)) && !f.killed.contains((b, p))
            && f.cfg_edge.contains((p, q)) && !f.live(r, q),
{
    derived_is_fixpoint(f);
    let c = consequences(f, derived(f));
    assert(c.dying_region_requires.contains((r, p, q, b)) <==> derived(
        f,
    ).region_requires.contains((r, b, p)) && !f.killed.contains((b, p)) && f.cfg_edge.contains(
        (p, q),
    ) && !f.live(r, q));
}

/// The regions of interest along an edge are dead at its end.
pub proof fn origins_are_dead(f: Facts, r: Region, p: Point, q: Point)
    requires
        derived(f).dying_can_reach_origins.contains((r, p, q)),
    ensures
        f.cfg_edge.contains((p, q)),
        !f.live(r, q),
{
    let d = derived(f);
    derived_is_fixpoint(f);
    assert(consequences(f, d).dying_can_reach_origins.contains((r, p, q)));
    assert(goes_dead(d, r, p, q));
    if exists|r1: Region| #[trigger] d.live_to_dying_regions.contains((r1, r, p, q)) {
        let r1 = choose|r1: Region| #[trigger] d.live_to_dying_regions.contains((r1, r, p, q));
        live_to_dying_exactly(f, r1, r, p, q);
    } else {
        let b = choose|b: Loan| #[trigger] d.dying_region_requires.contains((r, p, q, b));
        dying_requires_exactly(f, r, p, q, b);
    }
}

/// What a dying region can reach that is live is the live part of what it can reach.
pub proof fn reach_live_is_live_part(f: Facts, r1: Region, r2: Region, p: Point, q: Point)
    ensures
        derived(f).dying_can_reach_live.contains((r1, r2, p, q)) <==> derived(
            f,
        ).dying_can_reach.contains((r1, r2, p, q)) && f.live(r2, q),
{
    derived_is_fixpoint(f);
    let c = consequences(f, derived(f));
    assert(c.dying_can_reach_live.contains((r1, r2, p, q)) <==> derived(
        f,
    ).dying_can_reach.contains((r1, r2, p, q)) && f.live(r2, q));
}

/// The region at `i` of the path is a subset of the next one in `p`.
pub open spec fn linked(m: Model, path: Seq<Region>, i: int, p: Point) -> bool {
    m.subset.contains((path[i], path[i + 1], p))
}

/// Each region of the path is a subset of the next in `p`, and those between the ends are dead
/// in `q`.
pub open spec fn is_path(f: Facts, m: Model, path: Seq<Region>, p: Point, q: Point) -> bool {
    &&& path.len() >= 2
    &&& forall|i: int| 0 <= i < path.len() - 1 ==> #[trigger] linked(m, path, i, p)
    &&& forall|i: int| 0 < i < path.len() - 1 ==> !#[trigger] f.live(path[i], q)
}

/// Such a path leads from `r1` to `r2`.
pub open spec fn path_leads(
    f: Facts,
    m: Model,
    r1: Region,
    r2: Region,
    p: Point,
    q: Point,
) -> bool {
    exists|path: Seq<Region>| #[trigger]
        is_path(f, m, path, p, q) && path[0] == r1 && path[path.len() - 1] == r2
}

/// The end of a path from a region of interest is reached.
pub proof fn path_is_reached(f: Facts, path: Seq<Region>, p: Point, q: Point)
    requires
        derived(f).dying_can_reach_origins.contains((path[0], p, q)),
        is_path(f, derived(f), path, p, q),
    ensures
        derived(f).dying_can_reach.contains((path[0], path[path.len() - 1], p, q)),
    decreases path.len(),
{
    let d = derived(f);
    derived_is_closed(f);
    let last = path.len() - 1;
    assert(linked(d, path, last - 1, p));
    if path.len() == 2 {
        assert(rule_reach_first(f, d));
    } else {
        let shorter = path.drop_last();
        assert(is_path(f, d, shorter, p, q)) by {
            assert forall|i: int| 0 <= i < shorter.len() - 1 implies #[trigger] linked(
                d,
                shorter,
                i,
                p,
            ) by {
                assert(linked(d, path, i, p));
            }
        }
        path_is_reached(f, shorter, p, q);
        assert(!f.live(path[last - 1], q));
        assert(rule_reach_next(f, d));
    }
}

/// Reaching is the transitive `subset` relation, kept to the regions of interest at the start
/// and to dead regions on the way.
pub proof fn reach_is_limited_transitive_subset(
    f: Facts,
    r1: Region,
    r2: Region,
    p: Point,
    q: Point,
)
    ensures
        derived(f).dying_can_reach.contains((r1, r2, p, q)) <==> derived(
            f,
        ).dying_can_reach_origins.contains((r1, p, q)) && path_leads(f, derived(f), r1, r2, p, q),
{
    let d = derived(f);
    let by_path = Set::new(
        |t: (Region, Region, Point, Point)|
            d.dying_can_reach_origins.contains((t.0, t.2, t.3)) && path_leads(
                f,
                d,
                t.0,
                t.1,
                t.2,
                t.3,
            ),
    );
    derived_is_closed(f);
    assert forall|t: (Region, Region, Point, Point)| #[trigger]
        by_path.contains(t) implies d.dying_can_reach.contains(t) by {
        let path = choose|path: Seq<Region>| #[trigger]
            is_path(f, d, path, t.2, t.3) && path[0] == t.0 && path[path.len() - 1] == t.1;
        path_is_reached(f, path, t.2, t.3);
        assert(t == (t.0, t.1, t.2, t.3));
    }
    let m = Model { dying_can_reach: by_path, ..d };
    assert(rule_reach_first(f, m)) by {
        assert forall|r1: Region, r2: Region, p: Point, q: Point|
            #![trigger m.dying_can_reach_origins.contains((r1, p, q)),
                m.subset.contains((r1, r2, p))]
            m.dying_can_reach_origins.contains((r1, p, q)) && m.subset.contains((r1, r2, p))
                implies m.dying_can_reach.contains((r1, r2, p, q)) by {
            let path = seq![r1, r2];
            assert(is_path(f, d, path, p, q)) by {
                assert forall|i: int| 0 <= i < path.len() - 1 implies #[trigger] linked(
                    d,
                    path,
                    i,
                    p,
                ) by {
                    assert(i == 0);
                }
            }
            assert(path_leads(f, d, r1, r2, p, q));
        }
    }
    assert(rule_reach_next(f, m)) by {
        assert forall|r1: Region, r2: Region, r3: Region, p: Point, q: Point|
            #![trigger m.dying_can_reach.contains((r1, r2, p, q)), m.subset.contains((r2, r3, p))]
            m.dying_can_reach.contains((r1, r2, p, q)) && m.subset.contains((r2, r3, p)) && !f.live(
                r2,
                q,
            ) implies m.dying_can_reach.contains((r1, r3, p, q)) by {
            assert(path_leads(f, d, r1, r2, p, q));
            let path = choose|path: Seq<Region>| #[trigger]
                is_path(f, d, path, p, q) && path[0] == r1 && path[path.len() - 1] == r2;
            let longer = path.push(r3);
            assert(is_path(f, d, longer, p, q)) by {
                assert forall|i: int| 0 <= i < longer.len() - 1 implies #[trigger] linked(
                    d,
                    longer,
                    i,
                    p,
                ) by {
                    if i < path.len() - 1 {
                        assert(linked(d, path, i, p));
                    }
                }
                assert forall|i: int| 0 < i < longer.len() - 1 implies !#[trigger] f.live(
                    longer[i],
                    q,
                ) by {
                    if i < path.len() - 1 {
                        assert(!f.live(path[i], q));
                    }
                }
            }
            assert(longer[0] == r1 && longer[longer.len() - 1] == r3);
            assert(path_leads(f, d, r1, r3, p, q));
        }
    }
    assert(rule_reach_live(f, m));
    assert(closed_under_rules(f, m));
    derived_is_least(f, m);
    assert(by_path.contains((r1, r2, p, q)) <==> d.dying_can_reach.contains((r1, r2, p, q)));
}

/// The regions that a loan which is created dead reaches as dead are dead.
pub proof fn dead_reached_regions_are_dead(f: Facts, r: Region, p: Point, b: Loan)
    requires
        derived(f).dead_borrow_region_can_reach_dead.contains((r, p, b)),
    ensures
        !f.live(r, p),
{
    let d = derived(f);
    derived_is_fixpoint(f);
    assert(consequences(f, d).dead_borrow_region_can_reach_dead.contains((r, p, b)));
    if d.dead_borrow_region_can_reach_root.contains((r, p, b)) {
        assert(consequences(f, d).dead_borrow_region_can_reach_root.contains((r, p, b)));
    }
}

/// Each region of the path is dead in `p`, and is a subset of the next there.
pub open spec fn is_dead_path(f: Facts, m: Model, path: Seq<Region>, p: Point) -> bool {
    &&& path.len() >= 1
    &&& forall|i: int| 0 <= i < path.len() - 1 ==> #[trigger] linked(m, path, i, p)
    &&& forall|i: int| 0 <= i < path.len() ==> !#[trigger] f.live(path[i], p)
}

/// Such a path leads from a region with which `b` is created at `p` to `r`.
pub open spec fn dead_path_leads(f: Facts, m: Model, r: Region, p: Point, b: Loan) -> bool {
    exists|path: Seq<Region>| #[trigger]
        is_dead_path(f, m, path, p) && f.borrow_region.contains((path[0], b, p)) && path[path.len()
            - 1] == r
}

/// The end of a path of dead regions from where a loan is created is reached.
pub proof fn dead_path_is_reached(f: Facts, path: Seq<Region>, p: Point, b: Loan)
    requires
        f.borrow_region.contains((path[0], b, p)),
        is_dead_path(f, derived(f), path, p),
    ensures
        derived(f).dead_borrow_region_can_reach_dead.contains((path[path.len() - 1], p, b)),
    decreases path.len(),
{
    let d = derived(f);
    derived_is_closed(f);
    let last = path.len() - 1;
    assert(!f.live(path[last], p));
    if path.len() == 1 {
        assert(d.dead_borrow_region_can_reach_root.contains((path[0], p, b)));
    } else {
        let shorter = path.drop_last();
        assert(is_dead_path(f, d, shorter, p)) by {
            assert forall|i: int| 0 <= i < shorter.len() - 1 implies #[trigger] linked(
                d,
                shorter,
                i,
                p,
            ) by {
                assert(linked(d, path, i, p));
            }
        }
        dead_path_is_reached(f, shorter, p, b);
        assert(linked(d, path, last - 1, p));
        assert(rule_dead_next(f, d));
    }
}

/// A loan that is created dead reaches, as dead, the regions at the end of a path of dead
/// regions, and no others.
pub proof fn dead_reach_is_by_dead_paths(f: Facts, r: Region, p: Point, b: Loan)
    ensures
        derived(f).dead_borrow_region_can_reach_dead.contains((r, p, b)) <==> dead_path_leads(
            f,
            derived(f),
            r,
            p,
            b,
        ),
{
    let d = derived(f);
    let by_path = Set::new(|t: (Region, Point, Loan)| dead_path_leads(f, d, t.0, t.1, t.2));
    derived_is_closed(f);
    derived_is_fixpoint(f);
    assert forall|t: (Region, Point, Loan)| #[trigger]
        by_path.contains(t) implies d.dead_borrow_region_can_reach_dead.contains(t) by {
        let path = choose|path: Seq<Region>| #[trigger]
            is_dead_path(f, d, path, t.1) && f.borrow_region.contains((path[0], t.2, t.1))
                && path[path.len() - 1] == t.0;
        dead_path_is_reached(f, path, t.1, t.2);
        assert(t == (t.0, t.1, t.2));
    }
    let m = Model { dead_borrow_region_can_reach_dead: by_path, ..d };
    assert(rule_dead_first(f, m)) by {
        assert forall|r: Region, b: Loan, p: Point| #[trigger]
            m.dead_borrow_region_can_reach_root.contains((r, p, b))
                implies m.dead_borrow_region_can_reach_dead.contains((r, p, b)) by {
            assert(consequences(f, d).dead_borrow_region_can_reach_root.contains((r, p, b)));
            assert(is_dead_path(f, d, seq![r], p));
            assert(dead_path_leads(f, d, r, p, b));
        }
    }
    assert(rule_dead_next(f, m)) by {
        assert forall|r1: Region, r2: Region, b: Loan, p: Point|
            #![trigger m.dead_borrow_region_can_reach_dead.contains((r1, p, b)),
                m.subset.contains((r1, r2, p))]
            m.dead_borrow_region_can_reach_dead.contains((r1, p, b)) && m.subset.contains(
                (r1, r2, p),
            ) && !f.live(r2, p) implies m.dead_borrow_region_can_reach_dead.contains(
            (r2, p, b),
        ) by {
            assert(dead_path_leads(f, d, r1, p, b));
            let path = choose|path: Seq<Region>| #[trigger]
                is_dead_path(f, d, path, p) && f.borrow_region.contains((path[0], b, p))
                    && path[path.len() - 1] == r1;
            let longer = path.push(r2);
            assert(is_dead_path(f, d, longer, p)) by {
                assert forall|i: int| 0 <= i < longer.len() - 1 implies #[trigger] linked(
                    d,
                    longer,
                    i,
                    p,
                ) by {
                    if i < path.len() - 1 {
                        assert(linked(d, path, i, p));
                    }
                }
                assert forall|i: int| 0 <= i < longer.len() implies !#[trigger] f.live(
                    longer[i],
                    p,
                ) by {
                    if i < path.len() {
                        assert(!f.live(path[i], p));
                    }
                }
            }
            assert(longer[0] == path[0] && longer[longer.len() - 1] == r2);
            assert(dead_path_leads(f, d, r2, p, b));
        }
    }
    assert(closed_under_rules(f, m));
    derived_is_least(f, m);
    assert(by_path.contains((r, p, b)) <==> d.dead_borrow_region_can_reach_dead.contains(
        (r, p, b),
    ));
}

/// More loans, more subset relations and more invalidations, and fewer kills, give no fewer
/// errors, and no less of any other relation.
pub proof fn more_facts_derive_more(f: Facts, g: Facts)
    requires
        f.borrow_region.subset_of(g.borrow_region),
        f.outlives.subset_of(g.outlives),
        f.invalidates.subset_of(g.invalidates),
        g.killed.subset_of(f.killed),
        g.cfg_edge == f.cfg_edge,
        g.universal_region == f.universal_region,
        g.region_live_at == f.region_live_at,
    ensures
        within(derived(f), derived(g)),
{
    derived_is_closed(g);
    let d = derived(g);
    assert forall|r: Region, p: Point|
        #![trigger f.live(r, p)]
        #![trigger g.live(r, p)]
        f.live(r, p) == g.live(r, p) by {
        assert(f.is_point(p) == g.is_point(p));
    }
    assert(closed_under_rules(f, d));
    derived_is_least(f, d);
}

/// To reach only from dying regions, and only through dead ones, costs nothing. The errors are
/// those of the plain analysis, in which `subset` is transitive at every point: the loans that
/// are invalidated where a live region requires them.
pub proof fn errors_are_those_of_the_transitive_analysis(f: Facts, b: Loan, p: Point)
    ensures
        derived(f).errors.contains((b, p)) <==> f.invalidates.contains((p, b))
            && exists|r: Region| #[trigger]
            plain_requires(f).contains((r, b, p)) && f.live(r, p),
{
    errors_are_invalidated_live_loans(f, b, p);
    live_loans_are_plainly_live(f, b, p);
}

/// More facts of every kind but kills, and fewer kills, give no fewer errors, and leave no fewer
/// loans live. Live regions are among these facts, though the rules ask for dead ones too.
pub proof fn more_facts_give_no_fewer_errors(f: Facts, g: Facts)
    requires
        f.borrow_region.subset_of(g.borrow_region),
        f.universal_region.subset_of(g.universal_region),
        f.cfg_edge.subset_of(g.cfg_edge),
        f.outlives.subset_of(g.outlives),
        f.region_live_at.subset_of(g.region_live_at),
        f.invalidates.subset_of(g.invalidates),
        g.killed.subset_of(f.killed),
    ensures
        derived(f).errors.subset_of(derived(g).errors),
        derived(f).borrow_live_at.subset_of(derived(g).borrow_live_at),
{
    more_facts_are_plainly_more_live(f, g);
    assert forall|t: (Loan, Point)| #[trigger]
        derived(f).borrow_live_at.contains(t) implies derived(g).borrow_live_at.contains(t) by {
        live_loans_are_plainly_live(f, t.0, t.1);
        live_loans_are_plainly_live(g, t.0, t.1);
        assert(plainly_live(f, t.0, t.1));
    }
    assert forall|t: (Loan, Point)| #[trigger]
        derived(f).errors.contains(t) implies derived(g).errors.contains(t) by {
        errors_are_invalidated_live_loans(f, t.0, t.1);
        errors_are_invalidated_live_loans(g, t.0, t.1);
        assert(derived(f).borrow_live_at.contains((t.0, t.1)));
    }
}

/// That a region is a subset of itself has no consequence: without such facts, the rules derive
/// the same errors, the same live loans, the same requirements, and the same subset relations
/// between different regions.
pub proof fn self_subsets_do_not_matter(f: Facts, g: Facts)
    requires
        g == (Facts {
            outlives: Set::new(
                |t: (Region, Region, Point)| f.outlives.contains(t) && t.0 != t.1,
            ),
            ..f
        }),
    ensures
        derived(g).errors == derived(f).errors,
        derived(g).borrow_live_at == derived(f).borrow_live_at,
        derived(g).region_requires == derived(f).region_requires,
        proper_subset(derived(g)) == proper_subset(derived(f)),
{
    let d = derived(g);
    more_facts_derive_more(g, f);
    derived_is_closed(g);
    let m = Model {
        subset: Set::new(|t: (Region, Region, Point)| d.subset.contains(t) || t.0 == t.1),
        dying_can_reach: Set::new(
            |t: (Region, Region, Point, Point)|
                d.dying_can_reach.contains(t) || (t.0 == t.1 && d.dying_can_reach_origins.contains(
                    (t.0, t.2, t.3),
                )),
        ),
        ..d
    };
    assert(g.cfg_edge == f.cfg_edge && g.borrow_region == f.borrow_region && g.killed == f.killed
        && g.invalidates == f.invalidates);
    assert forall|r: Region, p: Point|
        #![trigger f.live(r, p)]
        #![trigger g.live(r, p)]
        f.live(r, p) == g.live(r, p) by {
        assert(f.is_point(p) == g.is_point(p));
    }
    assert(rule_outlives(f, m)) by {
        assert forall|r1: Region, r2: Region, p: Point| #[trigger]
            f.outlives.contains((r1, r2, p)) implies m.subset.contains((r1, r2, p)) by {
            if r1 != r2 {
                assert(g.outlives.contains((r1, r2, p)));
            }
        }
    }
    assert(rule_live_to_dying(f, m));
    assert(rule_reach_first(f, m));
    assert(rule_reach_next(f, m));
    assert(rule_reach_live(f, m)) by {
        assert forall|r1: Region, r2: Region, p: Point, q: Point| #[trigger]
            m.dying_can_reach.contains((r1, r2, p, q)) && f.live(r2, q)
                implies m.dying_can_reach_live.contains((r1, r2, p, q)) by {
            if !d.dying_can_reach.contains((r1, r2, p, q)) {
                origins_are_dead(g, r1, p, q);
            }
        }
    }
    assert(rule_subset_carried(f, m));
    assert(rule_dead_next(f, m));
    assert(rule_live_reached(f, m)) by {
        assert forall|r1: Region, r2: Region, b: Loan, p: Point|
            #![trigger m.dead_borrow_region_can_reach_dead.contains((r1, p, b)),
                m.subset.contains((r1, r2, p))]
            m.dead_borrow_region_can_reach_dead.contains((r1, p, b)) && m.subset.contains(
                (r1, r2, p),
            ) && f.live(r2, p) implies m.borrow_live_at.contains((b, p)) by {
            dead_reached_regions_are_dead(g, r1, p, b);
        }
    }
    assert(closed_under_rules(f, m));
    derived_is_least(f, m);
    assert(derived(g).errors =~= derived(f).errors);
    assert(derived(g).borrow_live_at =~= derived(f).borrow_live_at);
    assert(derived(g).region_requires =~= derived(f).region_requires);
    assert(proper_subset(derived(g)) =~= proper_subset(derived(f)));
}

/// The loan is created somewhere.
pub open spec fn is_created(f: Facts, b: Loan) -> bool {
    exists|r: Region, p: Point| #[trigger] f.borrow_region.contains((r, b, p))
}

/// Only loans that are created are required, live or reported.
pub proof fn only_created_loans_count(f: Facts, b: Loan, p: Point)
    ensures
        forall|r: Region| #[trigger]
            derived(f).region_requires.contains((r, b, p)) ==> is_created(f, b),
        derived(f).borrow_live_at.contains((b, p)) ==> is_created(f, b),
        derived(f).errors.contains((b, p)) ==> is_created(f, b),
{
    let m = Model {
        subset: Set::full(),
        live_to_dying_regions: Set::full(),
        dying_region_requires: Set::new(
            |t: (Region, Point, Point, Loan)| is_created(f, t.3),
        ),
        dying_can_reach_origins: Set::full(),
        dying_can_reach: Set::full(),
        dying_can_reach_live: Set::full(),
        region_requires: Set::new(|t: (Region, Loan, Point)| is_created(f, t.1)),
        dead_borrow_region_can_reach_root: Set::new(
            |t: (Region, Point, Loan)| is_created(f, t.2),
        ),
        dead_borrow_region_can_reach_dead: Set::new(
            |t: (Region, Point, Loan)| is_created(f, t.2),
        ),
        borrow_live_at: Set::new(|t: (Loan, Point)| is_created(f, t.0)),
        errors: Set::new(|t: (Loan, Point)| is_created(f, t.0)),
    };
    assert(closed_under_rules(f, m));
    derived_is_least(f, m);
    assert forall|r: Region| #[trigger]
        derived(f).region_requires.contains((r, b, p)) implies is_created(f, b) by {
        assert(m.region_requires.contains((r, b, p)));
    }
    if derived(f).borrow_live_at.contains((b, p)) {
        assert(m.borrow_live_at.contains((b, p)));
    }
    if derived(f).errors.contains((b, p)) {
        assert(m.errors.contains((b, p)));
    }
}

/// A universal region is live at every point.
pub proof fn universal_regions_are_live(f: Facts, r: Region, p: Point)
    requires
        f.universal_region.contains(r),
        f.is_point(p),
    ensures
        f.live(r, p),
        f.live_set().contains((r, p)),
{
}

/// Listing what is live in the facts changes nothing of what is live or derived.
pub proof fn listing_live_regions_changes_nothing(f: Facts, g: Facts)
    requires
        g == (Facts { region_live_at: f.live_set(), ..f }),
    ensures
        g.live_set() == f.live_set(),
        derived(g) == derived(f),
{
    assert(g.cfg_edge == f.cfg_edge && g.borrow_region == f.borrow_region && g.killed == f.killed
        && g.invalidates == f.invalidates && g.outlives == f.outlives);
    assert forall|r: Region, p: Point|
        #![trigger f.live(r, p)]
        #![trigger g.live(r, p)]
        f.live(r, p) == g.live(r, p) by {
        assert(f.is_point(p) == g.is_point(p));
    }
    assert(g.live_set() =~= f.live_set());
    derived_is_closed(f);
    derived_is_closed(g);
    assert(closed_under_rules(g, derived(f)));
    assert(closed_under_rules(f, derived(g)));
    derived_is_least(g, derived(f));
    derived_is_least(f, derived(g));
    assert(derived(g) =~= derived(f));
}

/// Neither the order within a list of facts nor repetition matters.
pub proof fn order_and_repetition_do_not_matter(a: AllFacts, b: AllFacts)
    requires
        forall|t: (Region, Loan, Point)| #[trigger]
            a.borrow_region@.contains(t) <==> b.borrow_region@.contains(t),
        forall|r: Region| #[trigger]
            a.universal_region@.contains(r) <==> b.universal_region@.contains(r),
        forall|t: (Point, Point)| #[trigger] a.cfg_edge@.contains(t) <==> b.cfg_edge@.contains(t),
        forall|t: (Loan, Point)| #[trigger] a.killed@.contains(t) <==> b.killed@.contains(t),
        forall|t: (Region, Region, Point)| #[trigger]
            a.outlives@.contains(t) <==> b.outlives@.contains(t),
        forall|t: (Region, Point)| #[trigger]
            a.region_live_at@.contains(t) <==> b.region_live_at@.contains(t),
        forall|t: (Point, Loan)| #[trigger]
            a.invalidates@.contains(t) <==> b.invalidates@.contains(t),
    ensures
        a@ == b@,
        derived(a@) == derived(b@),
{
    assert(a@ =~= b@);
}

/// A list that rises is determined by what it holds.
proof fn increasing_list_is_determined(a: Seq<usize>, b: Seq<usize>)
    requires
        increasing(a),
        increasing(b),
        forall|x: usize| #[trigger] a.contains(x) <==> b.contains(x),
    ensures
        a == b,
    decreases a.len(),
{
    if a.len() == 0 {
        if b.len() > 0 {
            assert(b.contains(b[0]));
            assert(a.contains(b[0]));
        }
        assert(a =~= b);
    } else {
        assert(a.contains(a.last()));
        assert(b.len() > 0);
        assert(b.contains(b.last()));
        assert(a.contains(b.last()));
        let i = choose|i: int| 0 <= i < b.len() && b[i] == a.last();
        let j = choose|j: int| 0 <= j < a.len() && a[j] == b.last();
        assert(a.last() == b.last());
        let (c, d) = (a.drop_last(), b.drop_last());
        assert forall|x: usize| #[trigger] c.contains(x) <==> d.contains(x) by {
            if c.contains(x) {
                let k = choose|k: int| 0 <= k < c.len() && c[k] == x;
                assert(a[k] == x);
                assert(a.contains(x));
                let l = choose|l: int| 0 <= l < b.len() && b[l] == x;
                assert(d[l] == x);
            }
            if d.contains(x) {
                let k = choose|k: int| 0 <= k < d.len() && d[k] == x;
                assert(b[k] == x);
                assert(b.contains(x));
                assert(a.contains(x));
                let l = choose|l: int| 0 <= l < a.len() && a[l] == x;
                assert(c[l] == x);
            }
        }
        increasing_list_is_determined(c, d);
        assert(a =~= c.push(a.last()));
        assert(b =~= d.push(b.last()));
    }
}

/// What an output lists by point is determined by the relation. So the errors depend on the
/// facts alone, and not on whether more than the errors is asked for.
pub proof fn lists_are_determined(
    a: Map<Point, Vec<usize>>,
    b: Map<Point, Vec<usize>>,
    relation: Set<(usize, Point)>,
)
    requires
        groups(a, relation),
        groups(b, relation),
    ensures
        a.dom() == b.dom(),
        forall|p: Point| #[trigger] a.contains_key(p) ==> a[p]@ == b[p]@,
{
    assert forall|p: Point| #[trigger] a.contains_key(p) <==> b.contains_key(p) by {
        if a.contains_key(p) {
            assert(a[p]@.contains(a[p]@[0]));
            assert(relation.contains((a[p]@[0], p)));
        }
        if b.contains_key(p) {
            assert(b[p]@.contains(b[p]@[0]));
            assert(relation.contains((b[p]@[0], p)));
        }
    }
    assert(a.dom() =~= b.dom());
    assert forall|p: Point| #[trigger] a.contains_key(p) implies a[p]@ == b[p]@ by {
        assert(b.contains_key(p));
        assert forall|x: usize| #[trigger] a[p]@.contains(x) <==> b[p]@.contains(x) by {
            assert(relation.contains((x, p)) <==> a[p]@.contains(x));
        }
        increasing_list_is_determined(a[p]@, b[p]@);
    }
}

/// What an output lists by point and region is determined by the relation.
pub proof fn trees_are_determined(
    a: Map<Point, BTreeMap<usize, BTreeSet<usize>>>,
    b: Map<Point, BTreeMap<usize, BTreeSet<usize>>>,
    relation: Set<(usize, usize, Point)>,
)
    requires
        groups_nested(a, relation),
        groups_nested(b, relation),
    ensures
        a.dom() == b.dom(),
        forall|p: Point| #[trigger] a.contains_key(p) ==> a[p]@.dom() == b[p]@.dom(),
        forall|p: Point, x: usize|
            a.contains_key(p) && #[trigger] a[p]@.contains_key(x) ==> a[p]@[x]@ == b[p]@[x]@,
{
    tree_is_in(a, b, relation);
    tree_is_in(b, a, relation);
    assert(a.dom() =~= b.dom());
    assert forall|p: Point| #[trigger] a.contains_key(p) implies a[p]@.dom() == b[p]@.dom() by {
        assert(b.contains_key(p));
        assert(a[p]@.dom() =~= b[p]@.dom());
    }
    assert forall|p: Point, x: usize|
        a.contains_key(p) && #[trigger] a[p]@.contains_key(x) implies a[p]@[x]@ == b[p]@[x]@ by {
        assert(b.contains_key(p) && b[p]@.contains_key(x));
        assert forall|y: usize| a[p]@[x]@.contains(y) <==> b[p]@[x]@.contains(y) by {
            assert(relation.contains((x, y, p)) <==> a[p]@[x]@.contains(y));
        }
        assert(a[p]@[x]@ =~= b[p]@[x]@);
    }
}

/// What is a key in one output is a key in the other.
proof fn tree_is_in(
    a: Map<Point, BTreeMap<usize, BTreeSet<usize>>>,
    b: Map<Point, BTreeMap<usize, BTreeSet<usize>>>,
    relation: Set<(usize, usize, Point)>,
)
    requires
        groups_nested(a, relation),
        groups_nested(b, relation),
    ensures
        forall|p: Point, x: usize|
            a.contains_key(p) && #[trigger] a[p]@.contains_key(x) ==> b.contains_key(p)
                && b[p]@.contains_key(x),
        forall|p: Point| #[trigger] a.contains_key(p) ==> b.contains_key(p),
{
    assert forall|p: Point, x: usize|
        a.contains_key(p) && #[trigger] a[p]@.contains_key(x) implies b.contains_key(p)
        && b[p]@.contains_key(x) by {
        let y = choose|y: usize| #[trigger] a[p]@[x]@.contains(y);
        assert(relation.contains((x, y, p)));
    }
    assert forall|p: Point| #[trigger] a.contains_key(p) implies b.contains_key(p) by {
        let x = choose|x: usize| #[trigger] a[p]@.contains_key(x);
        assert(a[p]@.contains_key(x));
    }
}

/// An output relates no region to itself.
pub proof fn subset_output_is_irreflexive(
    subset: Map<Point, BTreeMap<Region, BTreeSet<Region>>>,
    f: Facts,
    p: Point,
    r: Region,
)
    requires
        groups_nested(subset, proper_subset(derived(f))),
        subset.contains_key(p),
        subset[p]@.contains_key(r),
    ensures
        !subset[p]@[r]@.contains(r),
{
    assert(!proper_subset(derived(f)).contains((r, r, p)));
}

} // verus!
