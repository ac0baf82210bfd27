//! The rules of the analysis, and the relations that they define.
use crate::facts::{Facts, Loan, Point, Region};
use vstd::prelude::*;

verus! {

/// One candidate for the relations that the rules speak of.
#[verifier::ext_equal]
pub struct Model {
    /// `(r1, r2, p)`: at the point `p`, `r1 <= r2`.
    pub subset: Set<(Region, Region, Point)>,
    /// `(r1, r2, p, q)`: along the edge `p -> q`, `r1 <= r2` holds in `p`, and in `q` the
    /// region `r1` is live but `r2` is dead.
    pub live_to_dying_regions: Set<(Region, Region, Point, Point)>,
    /// `(r, p, q, b)`: the region `r` requires the loan `b` in `p`, and goes dead along the
    /// edge `p -> q`.
    pub dying_region_requires: Set<(Region, Point, Point, Loan)>,
    /// `(r, p, q)`: what the region `r`, which is dead in `q`, can reach along `p -> q` is
    /// of interest.
    pub dying_can_reach_origins: Set<(Region, Point, Point)>,
    /// `(r1, r2, p, q)`: the region `r1`, which is dead in `q`, can reach `r2` in `p` through
    /// regions that are dead in `q`.
    pub dying_can_reach: Set<(Region, Region, Point, Point)>,
    /// `(r1, r2, p, q)`: the same, with an `r2` that is live in `q`.
    pub dying_can_reach_live: Set<(Region, Region, Point, Point)>,
    /// `(r, b, p)`: at the point `p`, what has the region `r` may depend on the loan `b`.
    pub region_requires: Set<(Region, Loan, Point)>,
    /// `(r, p, b)`: the loan `b` is created at `p` with a region `r` that is dead there.
    pub dead_borrow_region_can_reach_root: Set<(Region, Point, Loan)>,
    /// `(r, p, b)`: such a loan reaches, in `p`, the region `r`, which is dead there too.
    pub dead_borrow_region_can_reach_dead: Set<(Region, Point, Loan)>,
    /// `(b, p)`: the restrictions of the loan `b` are to be enforced at `p`.
    pub borrow_live_at: Set<(Loan, Point)>,
    /// `(b, p)`: the loan `b` is live at `p`, where it is invalidated.
    pub errors: Set<(Loan, Point)>,
}

/// subset(r1, r2, p) :- outlives(r1, r2, p).
pub open spec fn rule_outlives(f: Facts, m: Model) -> bool {
    forall|r1: Region, r2: Region, p: Point|
        #![trigger f.outlives.contains((r1, r2, p))]
        f.outlives.contains((r1, r2, p))
            ==> m.subset.contains((r1, r2, p))
}

/// live_to_dying_regions(r1, r2, p, q) :- subset(r1, r2, p), cfg_edge(p, q), live(r1, q),
/// !live(r2, q).
pub open spec fn rule_live_to_dying(f: Facts, m: Model) -> bool {
    forall|r1: Region, r2: Region, p: Point, q: Point|
        #![trigger m.subset.contains((r1, r2, p)), f.cfg_edge.contains((p, q))]
        m.subset.contains((r1, r2, p))
            && f.cfg_edge.contains((p, q))
            && f.live(r1, q)
            && !f.live(r2, q)
            ==> m.live_to_dying_regions.contains((r1, r2, p, q))
}

/// dying_region_requires(r, p, q, b) :- region_requires(r, b, p), !killed(b, p),
/// cfg_edge(p, q), !live(r, q).
pub open spec fn rule_dying_requires(f: Facts, m: Model) -> bool {
    forall|r: Region, b: Loan, p: Point, q: Point|
        #![trigger m.region_requires.contains((r, b, p)), f.cfg_edge.contains((p, q))]
        m.region_requires.contains((r, b, p))
            && f.cfg_edge.contains((p, q))
            && !f.killed.contains((b, p))
            && !f.live(r, q)
            ==> m.dying_region_requires.contains((r, p, q, b))
}

/// dying_can_reach_origins(r2, p, q) :- live_to_dying_regions(_, r2, p, q).
pub open spec fn rule_origins_live_to_dying(f: Facts, m: Model) -> bool {
    forall|r1: Region, r2: Region, p: Point, q: Point|
        #![trigger m.live_to_dying_regions.contains((r1, r2, p, q))]
        m.live_to_dying_regions.contains((r1, r2, p, q))
            ==> m.dying_can_reach_origins.contains((r2, p, q))
}

/// dying_can_reach_origins(r, p, q) :- dying_region_requires(r, p, q, _).
pub open spec fn rule_origins_dying_requires(f: Facts, m: Model) -> bool {
    forall|r: Region, p: Point, q: Point, b: Loan|
        #![trigger m.dying_region_requires.contains((r, p, q, b))]
        m.dying_region_requires.contains((r, p, q, b))
            ==> m.dying_can_reach_origins.contains((r, p, q))
}

/// dying_can_reach(r1, r2, p, q) :- dying_can_reach_origins(r1, p, q), subset(r1, r2, p).
pub open spec fn rule_reach_first(f: Facts, m: Model) -> bool {
    forall|r1: Region, r2: Region, p: Point, q: Point|
        #![trigger m.dying_can_reach_origins.contains((r1, p, q)), m.subset.contains((r1, r2, p))]
        m.dying_can_reach_origins.contains((r1, p, q)) && m.subset.contains((r1, r2, p))
            ==> m.dying_can_reach.contains((r1, r2, p, q))
}

/// dying_can_reach(r1, r3, p, q) :- dying_can_reach(r1, r2, p, q), !live(r2, q),
/// subset(r2, r3, p).
pub open spec fn rule_reach_next(f: Facts, m: Model) -> bool {
    forall|r1: Region, r2: Region, r3: Region, p: Point, q: Point|
        #![trigger m.dying_can_reach.contains((r1, r2, p, q)), m.subset.contains((r2, r3, p))]
        m.dying_can_reach.contains((r1, r2, p, q))
            && m.subset.contains((r2, r3, p))
            && !f.live(r2, q)
            ==> m.dying_can_reach.contains((r1, r3, p, q))
}

/// dying_can_reach_live(r1, r2, p, q) :- dying_can_reach(r1, r2, p, q), live(r2, q).
pub open spec fn rule_reach_live(f: Facts, m: Model) -> bool {
    forall|r1: Region, r2: Region, p: Point, q: Point|
        #![trigger m.dying_can_reach.contains((r1, r2, p, q))]
        m.dying_can_reach.contains((r1, r2, p, q)) && f.live(r2, q)
            ==> m.dying_can_reach_live.contains((r1, r2, p, q))
}

/// subset(r1, r2, q) :- subset(r1, r2, p), cfg_edge(p, q), live(r1, q), live(r2, q).
pub open spec fn rule_subset_carried(f: Facts, m: Model) -> bool {
    forall|r1: Region, r2: Region, p: Point, q: Point|
        #![trigger m.subset.contains((r1, r2, p)), f.cfg_edge.contains((p, q))]
        m.subset.contains((r1, r2, p))
            && f.cfg_edge.contains((p, q))
            && f.live(r1, q)
            && f.live(r2, q)
            ==> m.subset.contains((r1, r2, q))
}

/// subset(r1, r3, q) :- live_to_dying_regions(r1, r2, p, q), dying_can_reach_live(r2, r3, p, q).
pub open spec fn rule_subset_dying(f: Facts, m: Model) -> bool {
    forall|r1: Region, r2: Region, r3: Region, p: Point, q: Point|
        #![trigger m.live_to_dying_regions.contains((r1, r2, p, q)),
            m.dying_can_reach_live.contains((r2, r3, p, q))]
        m.live_to_dying_regions.contains((r1, r2, p, q))
            && m.dying_can_reach_live.contains((r2, r3, p, q))
            ==> m.subset.contains((r1, r3, q))
}

/// region_requires(r, b, p) :- borrow_region(r, b, p).
pub open spec fn rule_requires_borrow(f: Facts, m: Model) -> bool {
    forall|r: Region, b: Loan, p: Point|
        #![trigger f.borrow_region.contains((r, b, p))]
        f.borrow_region.contains((r, b, p))
            ==> m.region_requires.contains((r, b, p))
}

/// region_requires(r2, b, q) :- dying_region_requires(r1, p, q, b),
/// dying_can_reach_live(r1, r2, p, q).
pub open spec fn rule_requires_dying(f: Facts, m: Model) -> bool {
    forall|r1: Region, r2: Region, b: Loan, p: Point, q: Point|
        #![trigger m.dying_region_requires.contains((r1, p, q, b)),
            m.dying_can_reach_live.contains((r1, r2, p, q))]
        m.dying_region_requires.contains((r1, p, q, b))
            && m.dying_can_reach_live.contains((r1, r2, p, q))
            ==> m.region_requires.contains((r2, b, q))
}

/// region_requires(r, b, q) :- region_requires(r, b, p), !killed(b, p), cfg_edge(p, q),
/// live(r, q).
pub open spec fn rule_requires_carried(f: Facts, m: Model) -> bool {
    forall|r: Region, b: Loan, p: Point, q: Point|
        #![trigger m.region_requires.contains((r, b, p)), f.cfg_edge.contains((p, q))]
        m.region_requires.contains((r, b, p))
            && f.cfg_edge.contains((p, q))
            && !f.killed.contains((b, p))
            && f.live(r, q)
            ==> m.region_requires.contains((r, b, q))
}

/// dead_borrow_region_can_reach_root(r, p, b) :- borrow_region(r, b, p), !live(r, p).
pub open spec fn rule_dead_root(f: Facts, m: Model) -> bool {
    forall|r: Region, b: Loan, p: Point|
        #![trigger f.borrow_region.contains((r, b, p))]
        f.borrow_region.contains((r, b, p)) && !f.live(r, p)
            ==> m.dead_borrow_region_can_reach_root.contains((r, p, b))
}

/// dead_borrow_region_can_reach_dead(r, p, b) :- dead_borrow_region_can_reach_root(r, p, b).
pub open spec fn rule_dead_first(f: Facts, m: Model) -> bool {
    forall|r: Region, b: Loan, p: Point|
        #![trigger m.dead_borrow_region_can_reach_root.contains((r, p, b))]
        m.dead_borrow_region_can_reach_root.contains((r, p, b))
            ==> m.dead_borrow_region_can_reach_dead.contains((r, p, b))
}

/// dead_borrow_region_can_reach_dead(r2, p, b) :- dead_borrow_region_can_reach_dead(r1, p, b),
/// subset(r1, r2, p), !live(r2, p).
pub open spec fn rule_dead_next(f: Facts, m: Model) -> bool {
    forall|r1: Region, r2: Region, b: Loan, p: Point|
        #![trigger m.dead_borrow_region_can_reach_dead.contains((r1, p, b)),
            m.subset.contains((r1, r2, p))]
        m.dead_borrow_region_can_reach_dead.contains((r1, p, b))
            && m.subset.contains((r1, r2, p))
            && !f.live(r2, p)
            ==> m.dead_borrow_region_can_reach_dead.contains((r2, p, b))
}

/// borrow_live_at(b, p) :- region_requires(r, b, p), live(r, p).
pub open spec fn rule_live_required(f: Facts, m: Model) -> bool {
    forall|r: Region, b: Loan, p: Point|
        #![trigger m.region_requires.contains((r, b, p))]
        m.region_requires.contains((r, b, p)) && f.live(r, p)
            ==> m.borrow_live_at.contains((b, p))
}

/// borrow_live_at(b, p) :- dead_borrow_region_can_reach_dead(r1, p, b), subset(r1, r2, p),
/// live(r2, p).
pub open spec fn rule_live_reached(f: Facts, m: Model) -> bool {
    forall|r1: Region, r2: Region, b: Loan, p: Point|
        #![trigger m.dead_borrow_region_can_reach_dead.contains((r1, p, b)),
            m.subset.contains((r1, r2, p))]
        m.dead_borrow_region_can_reach_dead.contains((r1, p, b))
            && m.subset.contains((r1, r2, p))
            && f.live(r2, p)
            ==> m.borrow_live_at.contains((b, p))
}

/// errors(b, p) :- invalidates(p, b), borrow_live_at(b, p).
pub open spec fn rule_errors(f: Facts, m: Model) -> bool {
    forall|b: Loan, p: Point|
        #![trigger f.invalidates.contains((p, b)), m.borrow_live_at.contains((b, p))]
        f.invalidates.contains((p, b)) && m.borrow_live_at.contains((b, p))
            ==> m.errors.contains((b, p))
}

/// No rule asks for anything that `m` lacks.
pub open spec fn closed_under_rules(f: Facts, m: Model) -> bool {
    &&& rule_outlives(f, m)
    &&& rule_live_to_dying(f, m)
    &&& rule_dying_requires(f, m)
    &&& rule_origins_live_to_dying(f, m)
    &&& rule_origins_dying_requires(f, m)
    &&& rule_reach_first(f, m)
    &&& rule_reach_next(f, m)
    &&& rule_reach_live(f, m)
    &&& rule_subset_carried(f, m)
    &&& rule_subset_dying(f, m)
    &&& rule_requires_borrow(f, m)
    &&& rule_requires_dying(f, m)
    &&& rule_requires_carried(f, m)
    &&& rule_dead_root(f, m)
    &&& rule_dead_first(f, m)
    &&& rule_dead_next(f, m)
    &&& rule_live_required(f, m)
    &&& rule_live_reached(f, m)
    &&& rule_errors(f, m)
}

/// What the rules derive from the facts: the least model that is closed under the rules.
pub open spec fn derived(f: Facts) -> Model {
    Model {
        subset: Set::new(
            |t: (Region, Region, Point)| forall|m: Model| #[trigger] closed_under_rules(f, m)
                ==> m.subset.contains(t),
        ),
        live_to_dying_regions: Set::new(
            |t: (Region, Region, Point, Point)| forall|m: Model| #[trigger] closed_under_rules(f, m)
                ==> m.live_to_dying_regions.contains(t),
        ),
        dying_region_requires: Set::new(
            |t: (Region, Point, Point, Loan)| forall|m: Model| #[trigger] closed_under_rules(f, m)
                ==> m.dying_region_requires.contains(t),
        ),
        dying_can_reach_origins: Set::new(
            |t: (Region, Point, Point)| forall|m: Model| #[trigger] closed_under_rules(f, m)
                ==> m.dying_can_reach_origins.contains(t),
        ),
        dying_can_reach: Set::new(
            |t: (Region, Region, Point, Point)| forall|m: Model| #[trigger] closed_under_rules(f, m)
                ==> m.dying_can_reach.contains(t),
        ),
        dying_can_reach_live: Set::new(
            |t: (Region, Region, Point, Point)| forall|m: Model| #[trigger] closed_under_rules(f, m)
                ==> m.dying_can_reach_live.contains(t),
        ),
        region_requires: Set::new(
            |t: (Region, Loan, Point)| forall|m: Model| #[trigger] closed_under_rules(f, m)
                ==> m.region_requires.contains(t),
        ),
        dead_borrow_region_can_reach_root: Set::new(
            |t: (Region, Point, Loan)| forall|m: Model| #[trigger] closed_under_rules(f, m)
                ==> m.dead_borrow_region_can_reach_root.contains(t),
        ),
        dead_borrow_region_can_reach_dead: Set::new(
            |t: (Region, Point, Loan)| forall|m: Model| #[trigger] closed_under_rules(f, m)
                ==> m.dead_borrow_region_can_reach_dead.contains(t),
        ),
        borrow_live_at: Set::new(
            |t: (Loan, Point)| forall|m: Model| #[trigger] closed_under_rules(f, m)
                ==> m.borrow_live_at.contains(t),
        ),
        errors: Set::new(
            |t: (Loan, Point)| forall|m: Model| #[trigger] closed_under_rules(f, m)
                ==> m.errors.contains(t),
        ),
    }
}

/// Every relation of `m` is a part of the same relation of `n`.
pub open spec fn within(m: Model, n: Model) -> bool {
    &&& m.subset.subset_of(n.subset)
    &&& m.live_to_dying_regions.subset_of(n.live_to_dying_regions)
    &&& m.dying_region_requires.subset_of(n.dying_region_requires)
    &&& m.dying_can_reach_origins.subset_of(n.dying_can_reach_origins)
    &&& m.dying_can_reach.subset_of(n.dying_can_reach)
    &&& m.dying_can_reach_live.subset_of(n.dying_can_reach_live)
    &&& m.region_requires.subset_of(n.region_requires)
    &&& m.dead_borrow_region_can_reach_root.subset_of(n.dead_borrow_region_can_reach_root)
    &&& m.dead_borrow_region_can_reach_dead.subset_of(n.dead_borrow_region_can_reach_dead)
    &&& m.borrow_live_at.subset_of(n.borrow_live_at)
    &&& m.errors.subset_of(n.errors)
}

/// The tuples of `subset` that relate two different regions.
pub open spec fn proper_subset(m: Model) -> Set<(Region, Region, Point)> {
    Set::new(|t: (Region, Region, Point)| m.subset.contains(t) && t.0 != t.1)
}

/// What the rules derive is in every model that is closed under them.
pub proof fn derived_is_least(f: Facts, m: Model)
    requires
        closed_under_rules(f, m),
    ensures
        within(derived(f), m),
{
}

/// What the rules derive is itself closed under the rules.
pub proof fn derived_is_closed(f: Facts)
    ensures
        closed_under_rules(f, derived(f)),
{
    let d = derived(f);
    assert(rule_outlives(f, d)) by {
        assert forall|r1: Region, r2: Region, p: Point|
            #![trigger f.outlives.contains((r1, r2, p))]
            f.outlives.contains((r1, r2, p))
            implies d.subset.contains((r1, r2, p)) by {
            assert forall|m: Model| #[trigger] closed_under_rules(f, m)
                implies m.subset.contains((r1, r2, p)) by {}
        }
    }
    assert(rule_live_to_dying(f, d)) by {
        assert forall|r1: Region, r2: Region, p: Point, q: Point|
            #![trigger d.subset.contains((r1, r2, p)), f.cfg_edge.contains((p, q))]
            d.subset.contains((r1, r2, p))
                && f.cfg_edge.contains((p, q))
                && f.live(r1, q)
                && !f.live(r2, q)
            implies d.live_to_dying_regions.contains((r1, r2, p, q)) by {
            assert forall|m: Model| #[trigger] closed_under_rules(f, m)
                implies m.live_to_dying_regions.contains((r1, r2, p, q)) by {}
        }
    }
    assert(rule_dying_requires(f, d)) by {
        assert forall|r: Region, b: Loan, p: Point, q: Point|
            #![trigger d.region_requires.contains((r, b, p)), f.cfg_edge.contains((p, q))]
            d.region_requires.contains((r, b, p))
                && f.cfg_edge.contains((p, q))
                && !f.killed.contains((b, p))
                && !f.live(r, q)
            implies d.dying_region_requires.contains((r, p, q, b)) by {
            assert forall|m: Model| #[trigger] closed_under_rules(f, m)
                implies m.dying_region_requires.contains((r, p, q, b)) by {}
        }
    }
    assert(rule_origins_live_to_dying(f, d)) by {
        assert forall|r1: Region, r2: Region, p: Point, q: Point|
            #![trigger d.live_to_dying_regions.contains((r1, r2, p, q))]
            d.live_to_dying_regions.contains((r1, r2, p, q))
            implies d.dying_can_reach_origins.contains((r2, p, q)) by {
            assert forall|m: Model| #[trigger] closed_under_rules(f, m)
                implies m.dying_can_reach_origins.contains((r2, p, q)) by {}
        }
    }
    assert(rule_origins_dying_requires(f, d)) by {
        assert forall|r: Region, p: Point, q: Point, b: Loan|
            #![trigger d.dying_region_requires.contains((r, p, q, b))]
            d.dying_region_requires.contains((r, p, q, b))
            implies d.dying_can_reach_origins.contains((r, p, q)) by {
            assert forall|m: Model| #[trigger] closed_under_rules(f, m)
                implies m.dying_can_reach_origins.contains((r, p, q)) by {}
        }
    }
    assert(rule_reach_first(f, d)) by {
        assert forall|r1: Region, r2: Region, p: Point, q: Point|
            #![trigger d.dying_can_reach_origins.contains((r1, p, q)),
                d.subset.contains((r1, r2, p))]
            d.dying_can_reach_origins.contains((r1, p, q)) && d.subset.contains((r1, r2, p))
            implies d.dying_can_reach.contains((r1, r2, p, q)) by {
            assert forall|m: Model| #[trigger] closed_under_rules(f, m)
                implies m.dying_can_reach.contains((r1, r2, p, q)) by {}
        }
    }
    assert(rule_reach_next(f, d)) by {
        assert forall|r1: Region, r2: Region, r3: Region, p: Point, q: Point|
            #![trigger d.dying_can_reach.contains((r1, r2, p, q)), d.subset.contains((r2, r3, p))]
            d.dying_can_reach.contains((r1, r2, p, q))
                && d.subset.contains((r2, r3, p))
                && !f.live(r2, q)
            implies d.dying_can_reach.contains((r1, r3, p, q)) by {
            assert forall|m: Model| #[trigger] closed_under_rules(f, m)
                implies m.dying_can_reach.contains((r1, r3, p, q)) by {}
        }
    }
    assert(rule_reach_live(f, d)) by {
        assert forall|r1: Region, r2: Region, p: Point, q: Point|
            #![trigger d.dying_can_reach.contains((r1, r2, p, q))]
            d.dying_can_reach.contains((r1, r2, p, q)) && f.live(r2, q)
            implies d.dying_can_reach_live.contains((r1, r2, p, q)) by {
            assert forall|m: Model| #[trigger] closed_under_rules(f, m)
                implies m.dying_can_reach_live.contains((r1, r2, p, q)) by {}
        }
    }
    assert(rule_subset_carried(f, d)) by {
        assert forall|r1: Region, r2: Region, p: Point, q: Point|
            #![trigger d.subset.contains((r1, r2, p)), f.cfg_edge.contains((p, q))]
            d.subset.contains((r1, r2, p))
                && f.cfg_edge.contains((p, q))
                && f.live(r1, q)
                && f.live(r2, q)
            implies d.subset.contains((r1, r2, q)) by {
            assert forall|m: Model| #[trigger] closed_under_rules(f, m)
                implies m.subset.contains((r1, r2, q)) by {}
        }
    }
    assert(rule_subset_dying(f, d)) by {
        assert forall|r1: Region, r2: Region, r3: Region, p: Point, q: Point|
            #![trigger d.live_to_dying_regions.contains((r1, r2, p, q)),
                d.dying_can_reach_live.contains((r2, r3, p, q))]
            d.live_to_dying_regions.contains((r1, r2, p, q))
                && d.dying_can_reach_live.contains((r2, r3, p, q))
            implies d.subset.contains((r1, r3, q)) by {
            assert forall|m: Model| #[trigger] closed_under_rules(f, m)
                implies m.subset.contains((r1, r3, q)) by {}
        }
    }
    assert(rule_requires_borrow(f, d)) by {
        assert forall|r: Region, b: Loan, p: Point|
            #![trigger f.borrow_region.contains((r, b, p))]
            f.borrow_region.contains((r, b, p))
            implies d.region_requires.contains((r, b, p)) by {
            assert forall|m: Model| #[trigger] closed_under_rules(f, m)
                implies m.region_requires.contains((r, b, p)) by {}
        }
    }
    assert(rule_requires_dying(f, d)) by {
        assert forall|r1: Region, r2: Region, b: Loan, p: Point, q: Point|
            #![trigger d.dying_region_requires.contains((r1, p, q, b)),
                d.dying_can_reach_live.contains((r1, r2, p, q))]
            d.dying_region_requires.contains((r1, p, q, b))
                && d.dying_can_reach_live.contains((r1, r2, p, q))
            implies d.region_requires.contains((r2, b, q)) by {
            assert forall|m: Model| #[trigger] closed_under_rules(f, m)
                implies m.region_requires.contains((r2, b, q)) by {}
        }
    }
    assert(rule_requires_carried(f, d)) by {
        assert forall|r: Region, b: Loan, p: Point, q: Point|
            #![trigger d.region_requires.contains((r, b, p)), f.cfg_edge.contains((p, q))]
            d.region_requires.contains((r, b, p))
                && f.cfg_edge.contains((p, q))
                && !f.killed.contains((b, p))
                && f.live(r, q)
            implies d.region_requires.contains((r, b, q)) by {
            assert forall|m: Model| #[trigger] closed_under_rules(f, m)
                implies m.region_requires.contains((r, b, q)) by {}
        }
    }
    assert(rule_dead_root(f, d)) by {
        assert forall|r: Region, b: Loan, p: Point|
            #![trigger f.borrow_region.contains((r, b, p))]
            f.borrow_region.contains((r, b, p)) && !f.live(r, p)
            implies d.dead_borrow_region_can_reach_root.contains((r, p, b)) by {
            assert forall|m: Model| #[trigger] closed_under_rules(f, m)
                implies m.dead_borrow_region_can_reach_root.contains((r, p, b)) by {}
        }
    }
    assert(rule_dead_first(f, d)) by {
        assert forall|r: Region, b: Loan, p: Point|
            #![trigger d.dead_borrow_region_can_reach_root.contains((r, p, b))]
            d.dead_borrow_region_can_reach_root.contains((r, p, b))
            implies d.dead_borrow_region_can_reach_dead.contains((r, p, b)) by {
            assert forall|m: Model| #[trigger] closed_under_rules(f, m)
                implies m.dead_borrow_region_can_reach_dead.contains((r, p, b)) by {}
        }
    }
    assert(rule_dead_next(f, d)) by {
        assert forall|r1: Region, r2: Region, b: Loan, p: Point|
            #![trigger d.dead_borrow_region_can_reach_dead.contains((r1, p, b)),
                d.subset.contains((r1, r2, p))]
            d.dead_borrow_region_can_reach_dead.contains((r1, p, b))
                && d.subset.contains((r1, r2, p))
                && !f.live(r2, p)
            implies d.dead_borrow_region_can_reach_dead.contains((r2, p, b)) by {
            assert forall|m: Model| #[trigger] closed_under_rules(f, m)
                implies m.dead_borrow_region_can_reach_dead.contains((r2, p, b)) by {}
        }
    }
    assert(rule_live_required(f, d)) by {
        assert forall|r: Region, b: Loan, p: Point|
            #![trigger d.region_requires.contains((r, b, p))]
            d.region_requires.contains((r, b, p)) && f.live(r, p)
            implies d.borrow_live_at.contains((b, p)) by {
            assert forall|m: Model| #[trigger] closed_under_rules(f, m)
                implies m.borrow_live_at.contains((b, p)) by {}
        }
    }
    assert(rule_live_reached(f, d)) by {
        assert forall|r1: Region, r2: Region, b: Loan, p: Point|
            #![trigger d.dead_borrow_region_can_reach_dead.contains((r1, p, b)),
                d.subset.contains((r1, r2, p))]
            d.dead_borrow_region_can_reach_dead.contains((r1, p, b))
                && d.subset.contains((r1, r2, p))
                && f.live(r2, p)
            implies d.borrow_live_at.contains((b, p)) by {
            assert forall|m: Model| #[trigger] closed_under_rules(f, m)
                implies m.borrow_live_at.contains((b, p)) by {}
        }
    }
    assert(rule_errors(f, d)) by {
        assert forall|b: Loan, p: Point|
            #![trigger f.invalidates.contains((p, b)), d.borrow_live_at.contains((b, p))]
            f.invalidates.contains((p, b)) && d.borrow_live_at.contains((b, p))
            implies d.errors.contains((b, p)) by {
            assert forall|m: Model| #[trigger] closed_under_rules(f, m)
                implies m.errors.contains((b, p)) by {}
        }
    }
}

/// The region `r` goes dead along `p -> q`, and something depends on what it reaches.
pub open spec fn goes_dead(m: Model, r: Region, p: Point, q: Point) -> bool {
    ||| exists|r1: Region| #[trigger] m.live_to_dying_regions.contains((r1, r, p, q))
    ||| exists|b: Loan| #[trigger] m.dying_region_requires.contains((r, p, q, b))
}

/// A region that is live at `p` requires the loan `b`, or is reached by it.
pub open spec fn is_enforced(f: Facts, m: Model, b: Loan, p: Point) -> bool {
    ||| exists|r: Region| #[trigger] m.region_requires.contains((r, b, p)) && f.live(r, p)
    ||| exists|r1: Region, r2: Region|
        #![trigger m.dead_borrow_region_can_reach_dead.contains((r1, p, b)),
            m.subset.contains((r1, r2, p))]
        m.dead_borrow_region_can_reach_dead.contains((r1, p, b)) && m.subset.contains((r1, r2, p))
            && f.live(r2, p)
}

/// What one application of the rules to the relations of `m` gives.
pub open spec fn consequences(f: Facts, m: Model) -> Model {
    Model {
        subset: Set::new(
            |t: (Region, Region, Point)|
                {
                    ||| f.outlives.contains((t.0, t.1, t.2))
                    ||| exists|p: Point| #[trigger]
                        m.subset.contains((t.0, t.1, p)) && f.cfg_edge.contains((p, t.2))
                            && f.live(t.0, t.2) && f.live(t.1, t.2)
                    ||| exists|r2: Region, p: Point| #[trigger]
                        m.live_to_dying_regions.contains((t.0, r2, p, t.2))
                            && m.dying_can_reach_live.contains((r2, t.1, p, t.2))
                },
        ),
        live_to_dying_regions: Set::new(
            |t: (Region, Region, Point, Point)|
                m.subset.contains((t.0, t.1, t.2)) && f.cfg_edge.contains((t.2, t.3)) && f.live(
                    t.0,
                    t.3,
                ) && !f.live(t.1, t.3),
        ),
        dying_region_requires: Set::new(
            |t: (Region, Point, Point, Loan)|
                m.region_requires.contains((t.0, t.3, t.1)) && !f.killed.contains((t.3, t.1))
                    && f.cfg_edge.contains((t.1, t.2)) && !f.live(t.0, t.2),
        ),
        dying_can_reach_origins: Set::new(
            |t: (Region, Point, Point)| goes_dead(m, t.0, t.1, t.2),
        ),
        dying_can_reach: Set::new(
            |t: (Region, Region, Point, Point)|
                {
                    ||| m.dying_can_reach_origins.contains((t.0, t.2, t.3)) && m.subset.contains(
                        (t.0, t.1, t.2),
                    )
                    ||| exists|r2: Region| #[trigger]
                        m.dying_can_reach.contains((t.0, r2, t.2, t.3)) && !f.live(r2, t.3)
                            && m.subset.contains((r2, t.1, t.2))
                },
        ),
        dying_can_reach_live: Set::new(
            |t: (Region, Region, Point, Point)|
                m.dying_can_reach.contains((t.0, t.1, t.2, t.3)) && f.live(t.1, t.3),
        ),
        region_requires: Set::new(
            |t: (Region, Loan, Point)|
                {
                    ||| f.borrow_region.contains((t.0, t.1, t.2))
                    ||| exists|r1: Region, p: Point| #[trigger]
                        m.dying_region_requires.contains((r1, p, t.2, t.1))
                            && m.dying_can_reach_live.contains((r1, t.0, p, t.2))
                    ||| exists|p: Point| #[trigger]
                        m.region_requires.contains((t.0, t.1, p)) && !f.killed.contains((t.1, p))
                            && f.cfg_edge.contains((p, t.2)) && f.live(t.0, t.2)
                },
        ),
        dead_borrow_region_can_reach_root: Set::new(
            |t: (Region, Point, Loan)|
                f.borrow_region.contains((t.0, t.2, t.1)) && !f.live(t.0, t.1),
        ),
        dead_borrow_region_can_reach_dead: Set::new(
            |t: (Region, Point, Loan)|
                {
                    ||| m.dead_borrow_region_can_reach_root.contains((t.0, t.1, t.2))
                    ||| exists|r1: Region| #[trigger]
                        m.dead_borrow_region_can_reach_dead.contains((r1, t.1, t.2))
                            && m.subset.contains((r1, t.0, t.1)) && !f.live(t.0, t.1)
                },
        ),
        borrow_live_at: Set::new(|t: (Loan, Point)| is_enforced(f, m, t.0, t.1)),
        errors: Set::new(
            |t: (Loan, Point)|
                f.invalidates.contains((t.1, t.0)) && m.borrow_live_at.contains((t.0, t.1)),
        ),
    }
}

/// A model is closed under the rules just where it holds what the rules give.
pub proof fn closed_iff_holds_consequences(f: Facts, m: Model)
    ensures
        closed_under_rules(f, m) <==> within(consequences(f, m), m),
{
    let c = consequences(f, m);
    if within(c, m) {
        assert(rule_outlives(f, m)) by {
            assert forall|r1: Region, r2: Region, p: Point|
                #![trigger f.outlives.contains((r1, r2, p))]
                f.outlives.contains((r1, r2, p))
                implies m.subset.contains((r1, r2, p)) by {
                assert(c.subset.contains((r1, r2, p)));
            }
        }
        assert(rule_live_to_dying(f, m)) by {
            assert forall|r1: Region, r2: Region, p: Point, q: Point|
                #![trigger m.subset.contains((r1, r2, p)), f.cfg_edge.contains((p, q))]
                m.subset.contains((r1, r2, p))
                    && f.cfg_edge.contains((p, q))
                    && f.live(r1, q)
                    && !f.live(r2, q)
                implies m.live_to_dying_regions.contains((r1, r2, p, q)) by {
                assert(c.live_to_dying_regions.contains((r1, r2, p, q)));
            }
        }
        assert(rule_dying_requires(f, m)) by {
            assert forall|r: Region, b: Loan, p: Point, q: Point|
                #![trigger m.region_requires.contains((r, b, p)), f.cfg_edge.contains((p, q))]
                m.region_requires.contains((r, b, p))
                    && f.cfg_edge.contains((p, q))
                    && !f.killed.contains((b, p))
                    && !f.live(r, q)
                implies m.dying_region_requires.contains((r, p, q, b)) by {
                assert(c.dying_region_requires.contains((r, p, q, b)));
            }
        }
        assert(rule_origins_live_to_dying(f, m)) by {
            assert forall|r1: Region, r2: Region, p: Point, q: Point|
                #![trigger m.live_to_dying_regions.contains((r1, r2, p, q))]
                m.live_to_dying_regions.contains((r1, r2, p, q))
                implies m.dying_can_reach_origins.contains((r2, p, q)) by {
                assert(c.dying_can_reach_origins.contains((r2, p, q)));
            }
        }
        assert(rule_origins_dying_requires(f, m)) by {
            assert forall|r: Region, p: Point, q: Point, b: Loan|
                #![trigger m.dying_region_requires.contains((r, p, q, b))]
                m.dying_region_requires.contains((r, p, q, b))
                implies m.dying_can_reach_origins.contains((r, p, q)) by {
                assert(c.dying_can_reach_origins.contains((r, p, q)));
            }
        }
        assert(rule_reach_first(f, m)) by {
            assert forall|r1: Region, r2: Region, p: Point, q: Point|
                #![trigger m.dying_can_reach_origins.contains((r1, p, q)),
                    m.subset.contains((r1, r2, p))]
                m.dying_can_reach_origins.contains((r1, p, q)) && m.subset.contains((r1, r2, p))
                implies m.dying_can_reach.contains((r1, r2, p, q)) by {
                assert(c.dying_can_reach.contains((r1, r2, p, q)));
            }
        }
        assert(rule_reach_next(f, m)) by {
            assert forall|r1: Region, r2: Region, r3: Region, p: Point, q: Point|
                #![trigger m.dying_can_reach.contains((r1, r2, p, q)),
                    m.subset.contains((r2, r3, p))]
                m.dying_can_reach.contains((r1, r2, p, q))
                    && m.subset.contains((r2, r3, p))
                    && !f.live(r2, q)
                implies m.dying_can_reach.contains((r1, r3, p, q)) by {
                assert(c.dying_can_reach.contains((r1, r3, p, q)));
            }
        }
        assert(rule_reach_live(f, m)) by {
            assert forall|r1: Region, r2: Region, p: Point, q: Point|
                #![trigger m.dying_can_reach.contains((r1, r2, p, q))]
                m.dying_can_reach.contains((r1, r2, p, q)) && f.live(r2, q)
                implies m.dying_can_reach_live.contains((r1, r2, p, q)) by {
                assert(c.dying_can_reach_live.contains((r1, r2, p, q)));
            }
        }
        assert(rule_subset_carried(f, m)) by {
            assert forall|r1: Region, r2: Region, p: Point, q: Point|
                #![trigger m.subset.contains((r1, r2, p)), f.cfg_edge.contains((p, q))]
                m.subset.contains((r1, r2, p))
                    && f.cfg_edge.contains((p, q))
                    && f.live(r1, q)
                    && f.live(r2, q)
                implies m.subset.contains((r1, r2, q)) by {
                assert(c.subset.contains((r1, r2, q)));
            }
        }
        assert(rule_subset_dying(f, m)) by {
            assert forall|r1: Region, r2: Region, r3: Region, p: Point, q: Point|
                #![trigger m.live_to_dying_regions.contains((r1, r2, p, q)),
                    m.dying_can_reach_live.contains((r2, r3, p, q))]
                m.live_to_dying_regions.contains((r1, r2, p, q))
                    && m.dying_can_reach_live.contains((r2, r3, p, q))
                implies m.subset.contains((r1, r3, q)) by {
                assert(c.subset.contains((r1, r3, q)));
            }
        }
        assert(rule_requires_borrow(f, m)) by {
            assert forall|r: Region, b: Loan, p: Point|
                #![trigger f.borrow_region.contains((r, b, p))]
                f.borrow_region.contains((r, b, p))
                implies m.region_requires.contains((r, b, p)) by {
                assert(c.region_requires.contains((r, b, p)));
            }
        }
        assert(rule_requires_dying(f, m)) by {
            assert forall|r1: Region, r2: Region, b: Loan, p: Point, q: Point|
                #![trigger m.dying_region_requires.contains((r1, p, q, b)),
                    m.dying_can_reach_live.contains((r1, r2, p, q))]
                m.dying_region_requires.contains((r1, p, q, b))
                    && m.dying_can_reach_live.contains((r1, r2, p, q))
                implies m.region_requires.contains((r2, b, q)) by {
                assert(c.region_requires.contains((r2, b, q)));
            }
        }
        assert(rule_requires_carried(f, m)) by {
            assert forall|r: Region, b: Loan, p: Point, q: Point|
                #![trigger m.region_requires.contains((r, b, p)), f.cfg_edge.contains((p, q))]
                m.region_requires.contains((r, b, p))
                    && f.cfg_edge.contains((p, q))
                    && !f.killed.contains((b, p))
                    && f.live(r, q)
                implies m.region_requires.contains((r, b, q)) by {
                assert(c.region_requires.contains((r, b, q)));
            }
        }
        assert(rule_dead_root(f, m)) by {
            assert forall|r: Region, b: Loan, p: Point|
                #![trigger f.borrow_region.contains((r, b, p))]
                f.borrow_region.contains((r, b, p)) && !f.live(r, p)
                implies m.dead_borrow_region_can_reach_root.contains((r, p, b)) by {
                assert(c.dead_borrow_region_can_reach_root.contains((r, p, b)));
            }
        }
        assert(rule_dead_first(f, m)) by {
            assert forall|r: Region, b: Loan, p: Point|
                #![trigger m.dead_borrow_region_can_reach_root.contains((r, p, b))]
                m.dead_borrow_region_can_reach_root.contains((r, p, b))
                implies m.dead_borrow_region_can_reach_dead.contains((r, p, b)) by {
                assert(c.dead_borrow_region_can_reach_dead.contains((r, p, b)));
            }
        }
        assert(rule_dead_next(f, m)) by {
            assert forall|r1: Region, r2: Region, b: Loan, p: Point|
                #![trigger m.dead_borrow_region_can_reach_dead.contains((r1, p, b)),
                    m.subset.contains((r1, r2, p))]
                m.dead_borrow_region_can_reach_dead.contains((r1, p, b))
                    && m.subset.contains((r1, r2, p))
                    && !f.live(r2, p)
                implies m.dead_borrow_region_can_reach_dead.contains((r2, p, b)) by {
                assert(c.dead_borrow_region_can_reach_dead.contains((r2, p, b)));
            }
        }
        assert(rule_live_required(f, m)) by {
            assert forall|r: Region, b: Loan, p: Point|
                #![trigger m.region_requires.contains((r, b, p))]
                m.region_requires.contains((r, b, p)) && f.live(r, p)
                implies m.borrow_live_at.contains((b, p)) by {
                assert(c.borrow_live_at.contains((b, p)));
            }
        }
        assert(rule_live_reached(f, m)) by {
            assert forall|r1: Region, r2: Region, b: Loan, p: Point|
                #![trigger m.dead_borrow_region_can_reach_dead.contains((r1, p, b)),
                    m.subset.contains((r1, r2, p))]
                m.dead_borrow_region_can_reach_dead.contains((r1, p, b))
                    && m.subset.contains((r1, r2, p))
                    && f.live(r2, p)
                implies m.borrow_live_at.contains((b, p)) by {
                assert(c.borrow_live_at.contains((b, p)));
            }
        }
        assert(rule_errors(f, m)) by {
            assert forall|b: Loan, p: Point|
                #![trigger f.invalidates.contains((p, b)), m.borrow_live_at.contains((b, p))]
                f.invalidates.contains((p, b)) && m.borrow_live_at.contains((b, p))
                implies m.errors.contains((b, p)) by {
                assert(c.errors.contains((b, p)));
            }
        }
    }
    if closed_under_rules(f, m) {
        assert(c.subset.subset_of(m.subset));
        assert(c.live_to_dying_regions.subset_of(m.live_to_dying_regions));
        assert(c.dying_region_requires.subset_of(m.dying_region_requires));
        assert(c.dying_can_reach_origins.subset_of(m.dying_can_reach_origins));
        assert(c.dying_can_reach.subset_of(m.dying_can_reach));
        assert(c.dying_can_reach_live.subset_of(m.dying_can_reach_live));
        assert(c.region_requires.subset_of(m.region_requires));
        assert(c.dead_borrow_region_can_reach_root.subset_of(m.dead_borrow_region_can_reach_root));
        assert(c.dead_borrow_region_can_reach_dead.subset_of(m.dead_borrow_region_can_reach_dead));
        assert(c.borrow_live_at.subset_of(m.borrow_live_at));
        assert(c.errors.subset_of(m.errors));
    }
}

/// More in the relations gives no fewer consequences: the rules ask for the absence of facts
/// alone, never for that of a derived tuple.
pub proof fn consequences_are_monotone(f: Facts, m: Model, n: Model)
    requires
        within(m, n),
    ensures
        within(consequences(f, m), consequences(f, n)),
{
}

/// The rules give what they derive, no less and no more: each derived tuple follows by one rule
/// from derived tuples and facts.
pub proof fn derived_is_fixpoint(f: Facts)
    ensures
        derived(f) == consequences(f, derived(f)),
{
    let d = derived(f);
    let c = consequences(f, d);
    derived_is_closed(f);
    closed_iff_holds_consequences(f, d);
    consequences_are_monotone(f, c, d);
    closed_iff_holds_consequences(f, c);
    derived_is_least(f, c);
}

} // verus!
