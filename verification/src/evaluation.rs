//! What each round of the evaluation keeps, and what is left when no round adds anything.
use crate::facts::{Facts, Loan, Point, Region};
use crate::laws::{dead_reached_regions_are_dead, origins_are_dead};
use crate::plan::{
    by_point, by_region_and_point, dead_first, dead_next, dead_reached, dead_root, dying_requires,
    dying_requires_along, dying_requires_unkilled, error, live_to_dying, live_to_dying_along,
    live_to_dying_from_live, loan_live, origin, plan_closed, reach_first, reach_live, reach_next,
    reach_through_dead, reflexive, required_by_loan, required_by_region, requires_along,
    requires_carried, requires_dying, requires_unkilled, subset_along, subset_carried,
    subset_dying, subset_from_live, Sheet, State,
};
use crate::rules::{
    closed_under_rules, derived, derived_is_closed, derived_is_least, proper_subset,
    rule_dead_first, rule_dead_next, rule_dead_root, rule_dying_requires, rule_errors,
    rule_live_reached, rule_live_required, rule_live_to_dying, rule_origins_dying_requires,
    rule_origins_live_to_dying, rule_reach_first, rule_reach_live, rule_reach_next,
    rule_requires_carried, rule_requires_dying, rule_subset_carried, rule_subset_dying, Model,
};
use crate::saturation::{holds_facts, rules_saturate, with_reflexive};
use crate::soundness::{bound, bound_is_closed, irreflexive_bound, rules_within, state_within};
use vstd::prelude::*;

verus! {

/// No recent tuple of a distinct variable is stable already.
pub open spec fn recent_is_new(s: State) -> bool {
    &&& s.recent.cfg_edge.disjoint(s.stable.cfg_edge)
    &&& s.recent.invalidates.disjoint(s.stable.invalidates)
    &&& s.recent.region_live_at.disjoint(s.stable.region_live_at)
    &&& s.recent.borrow_region_rp.disjoint(s.stable.borrow_region_rp)
    &&& s.recent.subset.disjoint(s.stable.subset)
    &&& s.recent.region_requires.disjoint(s.stable.region_requires)
    &&& s.recent.borrow_live_at.disjoint(s.stable.borrow_live_at)
    &&& s.recent.live_to_dying_regions_r2pq.disjoint(s.stable.live_to_dying_regions_r2pq)
    &&& s.recent.dying_region_requires.disjoint(s.stable.dying_region_requires)
    &&& s.recent.dying_can_reach_origins.disjoint(s.stable.dying_can_reach_origins)
    &&& s.recent.dying_can_reach_r2q.disjoint(s.stable.dying_can_reach_r2q)
    &&& s.recent.dying_can_reach_live.disjoint(s.stable.dying_can_reach_live)
    &&& s.recent.dead_borrow_region_can_reach_root.disjoint(
        s.stable.dead_borrow_region_can_reach_root,
    )
    &&& s.recent.dead_borrow_region_can_reach_dead.disjoint(
        s.stable.dead_borrow_region_can_reach_dead,
    )
    &&& s.recent.errors.disjoint(s.stable.errors)
}

/// What holds whenever the iteration has been stepped.
pub open spec fn invariant_holds(f: Facts, s: State) -> bool {
    &&& state_within(s, bound(f, derived(f)))
    &&& holds_facts(f, with_reflexive(s.stable.union(s.recent)))
    &&& plan_closed(s.stable, with_reflexive(s.stable.union(s.recent)), f.live_set(), f.killed)
    &&& s.stable.subset.disjoint(reflexive())
    &&& s.pending.is_empty()
    &&& recent_is_new(s)
}

/// One round: the rules are applied once, and the iteration is stepped.
pub open spec fn round(f: Facts, s: State) -> State {
    s.without_reflexive().with_rules(f.live_set(), f.killed).advanced()
}

/// What is pending before the first step: the facts.
pub open spec fn initial(f: Facts) -> State {
    State {
        stable: Sheet::empty(),
        recent: Sheet::empty(),
        pending: Sheet {
            cfg_edge: f.cfg_edge,
            invalidates: bound(f, derived(f)).invalidates,
            region_live_at: bound(f, derived(f)).region_live_at,
            borrow_region_rp: bound(f, derived(f)).borrow_region_rp,
            subset: f.outlives,
            region_requires: f.borrow_region,
            ..Sheet::empty()
        },
    }
}

/// The first step establishes the invariant.
pub proof fn initial_step_establishes(f: Facts)
    ensures
        invariant_holds(f, initial(f).advanced()),
{
    derived_is_closed(f);
    let s = initial(f).advanced();
    assert(s.stable =~~= Sheet::empty());
    assert(s.recent =~~= initial(f).pending);
    assert forall|t: (Region, Region, Point)| #[trigger]
        f.outlives.contains(t) implies derived(f).subset.contains(t) by {
        assert(f.outlives.contains((t.0, t.1, t.2)));
    }
    assert forall|t: (Region, Loan, Point)| #[trigger]
        f.borrow_region.contains(t) implies derived(f).region_requires.contains(t) by {
        assert(f.borrow_region.contains((t.0, t.1, t.2)));
    }
    assert(s.recent.subset_of(bound(f, derived(f))));
    let sheet = with_reflexive(s.stable.union(s.recent));
    assert forall|b: Loan, p: Point| #[trigger] f.invalidates.contains((p, b))
        implies sheet.invalidates.contains(((b, p), ())) by {
        assert(s.recent.invalidates.contains(((b, p), ())));
    }
    assert(holds_facts(f, sheet));
}

/// Each round keeps the invariant.
pub proof fn round_keeps(f: Facts, s: State)
    requires
        invariant_holds(f, s),
    ensures
        invariant_holds(f, round(f, s)),
{
    let c = s.without_reflexive();
    let t = c.with_rules(f.live_set(), f.killed);
    let n = t.advanced();
    let before = with_reflexive(s.stable.union(s.recent));
    let after = with_reflexive(n.stable.union(n.recent));
    derived_is_closed(f);
    bound_is_closed(f, derived(f));
    rules_within(
        c,
        irreflexive_bound(f, derived(f)),
        bound(f, derived(f)),
        f.live_set(),
        f.killed,
    );
    assert(before.subset_of(after));
    assert(t.pending.subset_of(after));
    rules_saturate(c, before, after, f.live_set(), f.killed);
}

/// The model that a finished evaluation stands for: its relations, and every region a subset of
/// itself besides.
pub open spec fn model_of(s: Sheet) -> Model {
    Model {
        subset: s.subset.union(reflexive()),
        live_to_dying_regions: Set::new(
            |t: (Region, Region, Point, Point)|
                s.live_to_dying_regions_r2pq.contains(((t.1, t.2, t.3), t.0)),
        ),
        dying_region_requires: Set::new(
            |t: (Region, Point, Point, Loan)|
                s.dying_region_requires.contains(((t.0, t.1, t.2), t.3)),
        ),
        dying_can_reach_origins: Set::new(
            |t: (Region, Point, Point)| s.dying_can_reach_origins.contains(((t.0, t.1), t.2)),
        ),
        dying_can_reach: Set::new(
            |t: (Region, Region, Point, Point)|
                s.dying_can_reach_r2q.contains(((t.1, t.3), (t.0, t.2))) || (t.0 == t.1
                    && s.dying_can_reach_origins.contains(((t.0, t.2), t.3))),
        ),
        dying_can_reach_live: Set::new(
            |t: (Region, Region, Point, Point)|
                s.dying_can_reach_live.contains(((t.0, t.2, t.3), t.1)),
        ),
        region_requires: s.region_requires,
        dead_borrow_region_can_reach_root: Set::new(
            |t: (Region, Point, Loan)|
                s.dead_borrow_region_can_reach_root.contains(((t.0, t.1), t.2)),
        ),
        dead_borrow_region_can_reach_dead: Set::new(
            |t: (Region, Point, Loan)|
                s.dead_borrow_region_can_reach_dead.contains(((t.0, t.1), t.2)),
        ),
        borrow_live_at: Set::new(|t: (Loan, Point)| s.borrow_live_at.contains((t, ()))),
        errors: s.errors,
    }
}

/// A sheet to which no rule has anything to add.
pub open spec fn finished(f: Facts, s: Sheet) -> bool {
    &&& s.subset_of(bound(f, derived(f)))
    &&& holds_facts(f, with_reflexive(s))
    &&& plan_closed(s, with_reflexive(s), f.live_set(), f.killed)
    &&& s.subset.disjoint(reflexive())
}

/// The model of a finished evaluation is closed under the rules.
proof fn model_of_finished_is_closed(f: Facts, s: Sheet)
    requires
        finished(f, s),
    ensures
        closed_under_rules(f, model_of(s)),
{
    let m = model_of(s);
    let live = f.live_set();
    assert(rule_live_to_dying(f, m)) by {
        assert forall|r1: Region, r2: Region, p: Point, q: Point|
            #![trigger m.subset.contains((r1, r2, p)), f.cfg_edge.contains((p, q))]
            m.subset.contains((r1, r2, p))
                && f.cfg_edge.contains((p, q))
                && f.live(r1, q)
                && !f.live(r2, q)
            implies m.live_to_dying_regions.contains((r1, r2, p, q)) by {
            assert(s.subset.contains((r1, r2, p)));
            assert(s.subset_p.contains(by_point()((r1, r2, p))));
            assert(s.cfg_edge.contains((p, q)));
            assert(s.live_to_dying_regions_1.contains(live_to_dying_along()(p, (r1, r2), q)));
            assert(s.region_live_at.contains(((r1, q), ())));
            assert(s.live_to_dying_regions_2.contains(
                live_to_dying_from_live()((r1, q), (r2, p), ()),
            ));
            assert(!live.contains((r2, q)));
            assert(s.live_to_dying_regions_r2pq.contains(live_to_dying()((r2, q), (r1, p))));
        }
    }
    assert(rule_dying_requires(f, m)) by {
        assert forall|r: Region, b: Loan, p: Point, q: Point|
            #![trigger m.region_requires.contains((r, b, p)), f.cfg_edge.contains((p, q))]
            m.region_requires.contains((r, b, p))
                && f.cfg_edge.contains((p, q))
                && !f.killed.contains((b, p))
                && !f.live(r, q)
            implies m.dying_region_requires.contains((r, p, q, b)) by {
            assert(s.region_requires_bp.contains(required_by_loan()((r, b, p))));
            assert(s.dying_region_requires_1.contains(dying_requires_unkilled()((b, p), r)));
            assert(s.cfg_edge.contains((p, q)));
            assert(s.dying_region_requires_2.contains(dying_requires_along()(p, (b, r), q)));
            assert(!live.contains((r, q)));
            assert(s.dying_region_requires.contains(dying_requires()((r, q), (b, p))));
        }
    }
    assert(rule_origins_live_to_dying(f, m)) by {
        assert forall|r1: Region, r2: Region, p: Point, q: Point|
            #![trigger m.live_to_dying_regions.contains((r1, r2, p, q))]
            m.live_to_dying_regions.contains((r1, r2, p, q))
            implies m.dying_can_reach_origins.contains((r2, p, q)) by {
            assert(s.dying_can_reach_origins.contains(origin()(((r2, p, q), r1))));
        }
    }
    assert(rule_origins_dying_requires(f, m)) by {
        assert forall|r: Region, p: Point, q: Point, b: Loan|
            #![trigger m.dying_region_requires.contains((r, p, q, b))]
            m.dying_region_requires.contains((r, p, q, b))
            implies m.dying_can_reach_origins.contains((r, p, q)) by {
            assert(s.dying_can_reach_origins.contains(origin()(((r, p, q), b))));
        }
    }
    assert(rule_reach_first(f, m)) by {
        assert forall|r1: Region, r2: Region, p: Point, q: Point|
            #![trigger m.dying_can_reach_origins.contains((r1, p, q)),
                m.subset.contains((r1, r2, p))]
            m.dying_can_reach_origins.contains((r1, p, q)) && m.subset.contains((r1, r2, p))
            implies m.dying_can_reach.contains((r1, r2, p, q)) by {
            if r1 != r2 {
                assert(s.subset.contains((r1, r2, p)));
                assert(s.subset_r1p.contains(by_region_and_point()((r1, r2, p))));
                assert(s.dying_can_reach_r2q.contains(reach_first()((r1, p), q, r2)));
            }
        }
    }
    assert(rule_reach_next(f, m)) by {
        assert forall|r1: Region, r2: Region, r3: Region, p: Point, q: Point|
            #![trigger m.dying_can_reach.contains((r1, r2, p, q)), m.subset.contains((r2, r3, p))]
            m.dying_can_reach.contains((r1, r2, p, q))
                && m.subset.contains((r2, r3, p))
                && !f.live(r2, q)
            implies m.dying_can_reach.contains((r1, r3, p, q)) by {
            if r2 != r3 {
                assert(s.subset.contains((r2, r3, p)));
                assert(s.subset_r1p.contains(by_region_and_point()((r2, r3, p))));
                if s.dying_can_reach_r2q.contains(((r2, q), (r1, p))) {
                    assert(!live.contains((r2, q)));
                    assert(s.dying_can_reach_1.contains(reach_through_dead()((r2, q), (r1, p))));
                    assert(s.dying_can_reach_r2q.contains(reach_next()((r2, p), (r1, q), r3)));
                } else {
                    assert(s.dying_can_reach_r2q.contains(reach_first()((r1, p), q, r3)));
                }
            }
        }
    }
    assert(rule_reach_live(f, m)) by {
        assert forall|r1: Region, r2: Region, p: Point, q: Point|
            #![trigger m.dying_can_reach.contains((r1, r2, p, q))]
            m.dying_can_reach.contains((r1, r2, p, q)) && f.live(r2, q)
            implies m.dying_can_reach_live.contains((r1, r2, p, q)) by {
            if s.dying_can_reach_r2q.contains(((r2, q), (r1, p))) {
                assert(s.region_live_at.contains(((r2, q), ())));
                assert(s.dying_can_reach_live.contains(reach_live()((r2, q), (r1, p), ())));
            } else {
                assert(bound(f, derived(f)).dying_can_reach_origins.contains(((r1, p), q)));
                origins_are_dead(f, r1, p, q);
            }
        }
    }
    assert(rule_subset_carried(f, m)) by {
        assert forall|r1: Region, r2: Region, p: Point, q: Point|
            #![trigger m.subset.contains((r1, r2, p)), f.cfg_edge.contains((p, q))]
            m.subset.contains((r1, r2, p))
                && f.cfg_edge.contains((p, q))
                && f.live(r1, q)
                && f.live(r2, q)
            implies m.subset.contains((r1, r2, q)) by {
            if r1 != r2 {
                assert(s.subset.contains((r1, r2, p)));
                assert(s.subset_p.contains(by_point()((r1, r2, p))));
                assert(s.cfg_edge.contains((p, q)));
                assert(s.subset_1.contains(subset_along()(p, (r1, r2), q)));
                assert(s.region_live_at.contains(((r1, q), ())));
                assert(s.subset_2.contains(subset_from_live()((r1, q), r2, ())));
                assert(s.region_live_at.contains(((r2, q), ())));
                assert(with_reflexive(s).subset.contains(subset_carried()((r2, q), r1, ())));
            }
        }
    }
    assert(rule_subset_dying(f, m)) by {
        assert forall|r1: Region, r2: Region, r3: Region, p: Point, q: Point|
            #![trigger m.live_to_dying_regions.contains((r1, r2, p, q)),
                m.dying_can_reach_live.contains((r2, r3, p, q))]
            m.live_to_dying_regions.contains((r1, r2, p, q))
                && m.dying_can_reach_live.contains((r2, r3, p, q))
            implies m.subset.contains((r1, r3, q)) by {
            assert(with_reflexive(s).subset.contains(subset_dying()((r2, p, q), r1, r3)));
        }
    }
    assert(rule_requires_dying(f, m)) by {
        assert forall|r1: Region, r2: Region, b: Loan, p: Point, q: Point|
            #![trigger m.dying_region_requires.contains((r1, p, q, b)),
                m.dying_can_reach_live.contains((r1, r2, p, q))]
            m.dying_region_requires.contains((r1, p, q, b))
                && m.dying_can_reach_live.contains((r1, r2, p, q))
            implies m.region_requires.contains((r2, b, q)) by {
            assert(s.region_requires.contains(requires_dying()((r1, p, q), b, r2)));
        }
    }
    assert(rule_requires_carried(f, m)) by {
        assert forall|r: Region, b: Loan, p: Point, q: Point|
            #![trigger m.region_requires.contains((r, b, p)), f.cfg_edge.contains((p, q))]
            m.region_requires.contains((r, b, p))
                && f.cfg_edge.contains((p, q))
                && !f.killed.contains((b, p))
                && f.live(r, q)
            implies m.region_requires.contains((r, b, q)) by {
            assert(s.region_requires_bp.contains(required_by_loan()((r, b, p))));
            assert(s.region_requires_1.contains(requires_unkilled()((b, p), r)));
            assert(s.cfg_edge.contains((p, q)));
            assert(s.region_requires_2.contains(requires_along()(p, (r, b), q)));
            assert(s.region_live_at.contains(((r, q), ())));
            assert(s.region_requires.contains(requires_carried()((r, q), b, ())));
        }
    }
    assert(rule_dead_root(f, m)) by {
        assert forall|r: Region, b: Loan, p: Point|
            #![trigger f.borrow_region.contains((r, b, p))]
            f.borrow_region.contains((r, b, p)) && !f.live(r, p)
            implies m.dead_borrow_region_can_reach_root.contains((r, p, b)) by {
            assert(s.borrow_region_rp.contains(((r, p), b)));
            assert(!live.contains((r, p)));
            assert(s.dead_borrow_region_can_reach_root.contains(dead_root()((r, p), b)));
        }
    }
    assert(rule_dead_first(f, m)) by {
        assert forall|r: Region, b: Loan, p: Point|
            #![trigger m.dead_borrow_region_can_reach_root.contains((r, p, b))]
            m.dead_borrow_region_can_reach_root.contains((r, p, b))
            implies m.dead_borrow_region_can_reach_dead.contains((r, p, b)) by {
            assert(s.dead_borrow_region_can_reach_dead.contains(dead_first()(((r, p), b))));
        }
    }
    assert(rule_dead_next(f, m)) by {
        assert forall|r1: Region, r2: Region, b: Loan, p: Point|
            #![trigger m.dead_borrow_region_can_reach_dead.contains((r1, p, b)),
                m.subset.contains((r1, r2, p))]
            m.dead_borrow_region_can_reach_dead.contains((r1, p, b))
                && m.subset.contains((r1, r2, p))
                && !f.live(r2, p)
            implies m.dead_borrow_region_can_reach_dead.contains((r2, p, b)) by {
            if r1 != r2 {
                assert(s.subset.contains((r1, r2, p)));
                assert(s.subset_r1p.contains(by_region_and_point()((r1, r2, p))));
                assert(s.dead_borrow_region_can_reach_dead_1.contains(
                    dead_reached()((r1, p), b, r2),
                ));
                assert(!live.contains((r2, p)));
                assert(s.dead_borrow_region_can_reach_dead.contains(dead_next()((r2, p), b)));
            }
        }
    }
    assert(rule_live_required(f, m)) by {
        assert forall|r: Region, b: Loan, p: Point|
            #![trigger m.region_requires.contains((r, b, p))]
            m.region_requires.contains((r, b, p)) && f.live(r, p)
            implies m.borrow_live_at.contains((b, p)) by {
            assert(s.region_requires_rp.contains(required_by_region()((r, b, p))));
            assert(s.region_live_at.contains(((r, p), ())));
            assert(s.borrow_live_at.contains(loan_live()((r, p), b, ())));
        }
    }
    assert(rule_live_reached(f, m)) by {
        assert forall|r1: Region, r2: Region, b: Loan, p: Point|
            #![trigger m.dead_borrow_region_can_reach_dead.contains((r1, p, b)),
                m.subset.contains((r1, r2, p))]
            m.dead_borrow_region_can_reach_dead.contains((r1, p, b))
                && m.subset.contains((r1, r2, p))
                && f.live(r2, p)
            implies m.borrow_live_at.contains((b, p)) by {
            if r1 != r2 {
                assert(s.subset.contains((r1, r2, p)));
                assert(s.subset_r1p.contains(by_region_and_point()((r1, r2, p))));
                assert(s.dead_borrow_region_can_reach_dead_1.contains(
                    dead_reached()((r1, p), b, r2),
                ));
                assert(s.region_live_at.contains(((r2, p), ())));
                assert(s.borrow_live_at.contains(loan_live()((r2, p), b, ())));
            } else {
                assert(
                    bound(f, derived(f)).dead_borrow_region_can_reach_dead.contains(((r1, p), b))
                );
                dead_reached_regions_are_dead(f, r1, p, b);
            }
        }
    }
    assert(rule_errors(f, m)) by {
        assert forall|b: Loan, p: Point|
            #![trigger f.invalidates.contains((p, b)), m.borrow_live_at.contains((b, p))]
            f.invalidates.contains((p, b)) && m.borrow_live_at.contains((b, p))
            implies m.errors.contains((b, p)) by {
            assert(s.invalidates.contains(((b, p), ())));
            assert(s.errors.contains(error()((b, p), (), ())));
        }
    }
}

/// A finished evaluation holds what the rules derive, except that it holds no tuple of `subset`
/// that relates a region to itself.
pub proof fn finished_is_derived(f: Facts, s: Sheet)
    requires
        finished(f, s),
    ensures
        s.subset == proper_subset(derived(f)),
        s.region_requires == derived(f).region_requires,
        forall|t: (Loan, Point)| #[trigger]
            derived(f).borrow_live_at.contains(t) <==> s.borrow_live_at.contains((t, ())),
        s.errors == derived(f).errors,
{
    model_of_finished_is_closed(f, s);
    derived_is_least(f, model_of(s));
    assert(s.subset =~= proper_subset(derived(f)));
    assert forall|t: (Loan, Point)| #[trigger]
        derived(f).borrow_live_at.contains(t) <==> s.borrow_live_at.contains((t, ())) by {
        if s.borrow_live_at.contains((t, ())) {
            assert(bound(f, derived(f)).borrow_live_at.contains((t, ())));
        }
        if derived(f).borrow_live_at.contains(t) {
            assert(model_of(s).borrow_live_at.contains(t));
        }
    }
}

/// In a finished evaluation, `dead_borrow_region_can_reach_dead_1` is
/// `dead_borrow_region_can_reach_dead` and `subset` joined together.
pub proof fn dead_reached_is_dead_joined_with_subset(
    f: Facts,
    s: Sheet,
    r: Region,
    p: Point,
    b: Loan,
)
    requires
        finished(f, s),
    ensures
        s.dead_borrow_region_can_reach_dead_1.contains(((r, p), b)) <==> exists|r1: Region|
            #[trigger] s.dead_borrow_region_can_reach_dead.contains(((r1, p), b))
                && s.subset.contains((r1, r, p)),
{
    let d = derived(f);
    model_of_finished_is_closed(f, s);
    derived_is_least(f, model_of(s));
    if s.dead_borrow_region_can_reach_dead_1.contains(((r, p), b)) {
        assert(bound(f, d).dead_borrow_region_can_reach_dead_1.contains(((r, p), b)));
        let r1 = choose|r1: Region| #[trigger]
            d.dead_borrow_region_can_reach_dead.contains((r1, p, b)) && proper_subset(d).contains(
                (r1, r, p),
            );
        assert(model_of(s).dead_borrow_region_can_reach_dead.contains((r1, p, b)));
        assert(model_of(s).subset.contains((r1, r, p)));
        assert(s.dead_borrow_region_can_reach_dead.contains(((r1, p), b)));
    }
    if exists|r1: Region| #[trigger]
        s.dead_borrow_region_can_reach_dead.contains(((r1, p), b))
            && s.subset.contains((r1, r, p)) {
        let r1 = choose|r1: Region| #[trigger]
            s.dead_borrow_region_can_reach_dead.contains(((r1, p), b)) && s.subset.contains(
                (r1, r, p),
            );
        assert(s.subset_r1p.contains(by_region_and_point()((r1, r, p))));
        assert(s.dead_borrow_region_can_reach_dead_1.contains(dead_reached()((r1, p), b, r)));
    }
}

} // verus!
