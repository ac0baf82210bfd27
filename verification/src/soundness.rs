//! The evaluation derives nothing but what the rules derive.
use crate::engine::{antijoin_rows, join_rows, map_rows};
use crate::facts::{Facts, Loan, Point, Region};
use crate::plan::{
    antijoin_closed, by_point, by_region_and_point, dead_first, dead_next, dead_reached, dead_root,
    dying_requires, dying_requires_along, dying_requires_unkilled, error, join_closed,
    live_to_dying, live_to_dying_along, live_to_dying_from_live, loan_live, map_closed, origin,
    plan_closed, reach_first, reach_live, reach_next, reach_through_dead, required_by_loan,
    required_by_region, requires_along, requires_carried, requires_dying, requires_unkilled,
    subset_along, subset_carried, subset_dying, subset_from_live, Sheet, State,
};
use crate::rules::{closed_under_rules, proper_subset, Model};
use vstd::prelude::*;

verus! {

/// `r1 <= r2` holds at a point from which control may flow to `q`.
pub open spec fn subset_enters(f: Facts, m: Model, r1: Region, r2: Region, q: Point) -> bool {
    exists|p: Point| #[trigger] m.subset.contains((r1, r2, p)) && f.cfg_edge.contains((p, q))
}

/// `r` requires `b` at a point that does not kill `b` and from which control may flow to `q`.
pub open spec fn requires_enters(f: Facts, m: Model, r: Region, b: Loan, q: Point) -> bool {
    exists|p: Point| #[trigger]
        m.region_requires.contains((r, b, p)) && !f.killed.contains((b, p)) && f.cfg_edge.contains(
            (p, q),
        )
}

/// A loan `b` that is created dead at `p` reaches `r` there from another region.
pub open spec fn dead_enters(m: Model, r: Region, p: Point, b: Loan) -> bool {
    exists|r1: Region| #[trigger]
        m.dead_borrow_region_can_reach_dead.contains((r1, p, b)) && proper_subset(m).contains(
            (r1, r, p),
        )
}

/// The tuples that each relation of the plan may hold, given those of the model `m`.
pub open spec fn bound(f: Facts, m: Model) -> Sheet {
    Sheet {
        cfg_edge: f.cfg_edge,
        invalidates: Set::new(|t: ((Loan, Point), ())| f.invalidates.contains((t.0.1, t.0.0))),
        region_live_at: Set::new(|t: ((Region, Point), ())| f.live(t.0.0, t.0.1)),
        borrow_region_rp: Set::new(
            |t: ((Region, Point), Loan)| f.borrow_region.contains((t.0.0, t.1, t.0.1)),
        ),
        subset: m.subset,
        subset_1: Set::new(|t: ((Region, Point), Region)| subset_enters(f, m, t.0.0, t.1, t.0.1)),
        subset_2: Set::new(
            |t: ((Region, Point), Region)|
                subset_enters(f, m, t.1, t.0.0, t.0.1) && f.live(t.1, t.0.1),
        ),
        subset_r1p: Set::new(
            |t: ((Region, Point), Region)| proper_subset(m).contains((t.0.0, t.1, t.0.1)),
        ),
        subset_p: Set::new(
            |t: (Point, (Region, Region))| proper_subset(m).contains((t.1.0, t.1.1, t.0)),
        ),
        region_requires: m.region_requires,
        region_requires_1: Set::new(
            |t: (Point, (Region, Loan))|
                m.region_requires.contains((t.1.0, t.1.1, t.0)) && !f.killed.contains(
                    (t.1.1, t.0),
                ),
        ),
        region_requires_2: Set::new(
            |t: ((Region, Point), Loan)| requires_enters(f, m, t.0.0, t.1, t.0.1),
        ),
        region_requires_bp: Set::new(
            |t: ((Loan, Point), Region)| m.region_requires.contains((t.1, t.0.0, t.0.1)),
        ),
        region_requires_rp: Set::new(
            |t: ((Region, Point), Loan)| m.region_requires.contains((t.0.0, t.1, t.0.1)),
        ),
        borrow_live_at: Set::new(|t: ((Loan, Point), ())| m.borrow_live_at.contains(t.0)),
        live_to_dying_regions_r2pq: Set::new(
            |t: ((Region, Point, Point), Region)|
                m.live_to_dying_regions.contains((t.1, t.0.0, t.0.1, t.0.2)),
        ),
        live_to_dying_regions_1: Set::new(
            |t: ((Region, Point), (Region, Point))|
                m.subset.contains((t.0.0, t.1.0, t.1.1)) && f.cfg_edge.contains((t.1.1, t.0.1)),
        ),
        live_to_dying_regions_2: Set::new(
            |t: ((Region, Point), (Region, Point))|
                m.subset.contains((t.1.0, t.0.0, t.1.1)) && f.cfg_edge.contains((t.1.1, t.0.1))
                    && f.live(t.1.0, t.0.1),
        ),
        dying_region_requires: Set::new(
            |t: ((Region, Point, Point), Loan)|
                m.dying_region_requires.contains((t.0.0, t.0.1, t.0.2, t.1)),
        ),
        dying_region_requires_1: Set::new(
            |t: (Point, (Loan, Region))|
                m.region_requires.contains((t.1.1, t.1.0, t.0)) && !f.killed.contains(
                    (t.1.0, t.0),
                ),
        ),
        dying_region_requires_2: Set::new(
            |t: ((Region, Point), (Loan, Point))|
                m.region_requires.contains((t.0.0, t.1.0, t.1.1)) && !f.killed.contains(t.1)
                    && f.cfg_edge.contains((t.1.1, t.0.1)),
        ),
        dying_can_reach_origins: Set::new(
            |t: ((Region, Point), Point)|
                m.dying_can_reach_origins.contains((t.0.0, t.0.1, t.1)),
        ),
        dying_can_reach_r2q: Set::new(
            |t: ((Region, Point), (Region, Point))|
                m.dying_can_reach.contains((t.1.0, t.0.0, t.1.1, t.0.1)),
        ),
        dying_can_reach_1: Set::new(
            |t: ((Region, Point), (Region, Point))|
                m.dying_can_reach.contains((t.1.0, t.0.0, t.0.1, t.1.1)) && !f.live(t.0.0, t.1.1),
        ),
        dying_can_reach_live: Set::new(
            |t: ((Region, Point, Point), Region)|
                m.dying_can_reach_live.contains((t.0.0, t.1, t.0.1, t.0.2)),
        ),
        dead_borrow_region_can_reach_root: Set::new(
            |t: ((Region, Point), Loan)|
                m.dead_borrow_region_can_reach_root.contains((t.0.0, t.0.1, t.1)),
        ),
        dead_borrow_region_can_reach_dead: Set::new(
            |t: ((Region, Point), Loan)|
                m.dead_borrow_region_can_reach_dead.contains((t.0.0, t.0.1, t.1)),
        ),
        dead_borrow_region_can_reach_dead_1: Set::new(
            |t: ((Region, Point), Loan)| dead_enters(m, t.0.0, t.0.1, t.1),
        ),
        errors: m.errors,
    }
}

/// The tuples of the bound from which the rules of the plan start: no region is a subset of
/// itself.
pub open spec fn irreflexive_bound(f: Facts, m: Model) -> Sheet {
    Sheet { subset: proper_subset(m), ..bound(f, m) }
}

/// From the bound of a model that is closed under the rules, the plan does not lead out of it.
pub proof fn bound_is_closed(f: Facts, m: Model)
    requires
        closed_under_rules(f, m),
    ensures
        plan_closed(irreflexive_bound(f, m), bound(f, m), f.live_set(), f.killed),
{
}

/// A join of tuples within bounds gives tuples within bounds.
proof fn join_within<K, A, B, T>(
    left: Set<(K, A)>,
    left_recent: Set<(K, A)>,
    left_bound: Set<(K, A)>,
    right: Set<(K, B)>,
    right_recent: Set<(K, B)>,
    right_bound: Set<(K, B)>,
    output: Set<T>,
    f: spec_fn(K, A, B) -> T,
)
    requires
        left.subset_of(left_bound),
        left_recent.subset_of(left_bound),
        right.subset_of(right_bound),
        right_recent.subset_of(right_bound),
        join_closed(left_bound, right_bound, output, f),
    ensures
        join_rows(left, left_recent, right, right_recent, f).subset_of(output),
{
}

/// So does an antijoin.
proof fn antijoin_within<K, A, T>(
    recent: Set<(K, A)>,
    input_bound: Set<(K, A)>,
    excluded: Set<K>,
    output: Set<T>,
    f: spec_fn(K, A) -> T,
)
    requires
        recent.subset_of(input_bound),
        antijoin_closed(input_bound, excluded, output, f),
    ensures
        antijoin_rows(recent, excluded, f).subset_of(output),
{
}

/// So does a map.
proof fn map_within<S, T>(recent: Set<S>, input_bound: Set<S>, output: Set<T>, f: spec_fn(S) -> T)
    requires
        recent.subset_of(input_bound),
        map_closed(input_bound, output, f),
    ensures
        map_rows(recent, f).subset_of(output),
{
}

/// Nothing that the evaluation holds is out of bounds.
pub open spec fn state_within(s: State, t: Sheet) -> bool {
    &&& s.stable.subset_of(t)
    &&& s.recent.subset_of(t)
    &&& s.pending.subset_of(t)
}

/// Applying the rules keeps within the bounds `u`, where the plan leads from `t` to `u`.
pub proof fn rules_within(
    s: State,
    t: Sheet,
    u: Sheet,
    live: Set<(Region, Point)>,
    killed: Set<(Loan, Point)>,
)
    requires
        s.stable.subset_of(t),
        s.recent.subset_of(t),
        state_within(s, u),
        plan_closed(t, u, live, killed),
    ensures
        state_within(s.with_rules(live, killed), u),
{
    map_within(s.recent.subset, t.subset, u.subset_r1p, by_region_and_point());
    map_within(s.recent.subset, t.subset, u.subset_p, by_point());
    map_within(
        s.recent.region_requires,
        t.region_requires,
        u.region_requires_bp,
        required_by_loan(),
    );
    map_within(
        s.recent.region_requires,
        t.region_requires,
        u.region_requires_rp,
        required_by_region(),
    );
    join_within(
        s.stable.subset_p,
        s.recent.subset_p,
        t.subset_p,
        s.stable.cfg_edge,
        s.recent.cfg_edge,
        t.cfg_edge,
        u.live_to_dying_regions_1,
        live_to_dying_along(),
    );
    join_within(
        s.stable.live_to_dying_regions_1,
        s.recent.live_to_dying_regions_1,
        t.live_to_dying_regions_1,
        s.stable.region_live_at,
        s.recent.region_live_at,
        t.region_live_at,
        u.live_to_dying_regions_2,
        live_to_dying_from_live(),
    );
    antijoin_within(
        s.recent.live_to_dying_regions_2,
        t.live_to_dying_regions_2,
        live,
        u.live_to_dying_regions_r2pq,
        live_to_dying(),
    );
    antijoin_within(
        s.recent.region_requires_bp,
        t.region_requires_bp,
        killed,
        u.dying_region_requires_1,
        dying_requires_unkilled(),
    );
    join_within(
        s.stable.dying_region_requires_1,
        s.recent.dying_region_requires_1,
        t.dying_region_requires_1,
        s.stable.cfg_edge,
        s.recent.cfg_edge,
        t.cfg_edge,
        u.dying_region_requires_2,
        dying_requires_along(),
    );
    antijoin_within(
        s.recent.dying_region_requires_2,
        t.dying_region_requires_2,
        live,
        u.dying_region_requires,
        dying_requires(),
    );
    map_within(
        s.recent.live_to_dying_regions_r2pq,
        t.live_to_dying_regions_r2pq,
        u.dying_can_reach_origins,
        origin(),
    );
    map_within(
        s.recent.dying_region_requires,
        t.dying_region_requires,
        u.dying_can_reach_origins,
        origin(),
    );
    join_within(
        s.stable.dying_can_reach_origins,
        s.recent.dying_can_reach_origins,
        t.dying_can_reach_origins,
        s.stable.subset_r1p,
        s.recent.subset_r1p,
        t.subset_r1p,
        u.dying_can_reach_r2q,
        reach_first(),
    );
    antijoin_within(
        s.recent.dying_can_reach_r2q,
        t.dying_can_reach_r2q,
        live,
        u.dying_can_reach_1,
        reach_through_dead(),
    );
    join_within(
        s.stable.dying_can_reach_1,
        s.recent.dying_can_reach_1,
        t.dying_can_reach_1,
        s.stable.subset_r1p,
        s.recent.subset_r1p,
        t.subset_r1p,
        u.dying_can_reach_r2q,
        reach_next(),
    );
    join_within(
        s.stable.dying_can_reach_r2q,
        s.recent.dying_can_reach_r2q,
        t.dying_can_reach_r2q,
        s.stable.region_live_at,
        s.recent.region_live_at,
        t.region_live_at,
        u.dying_can_reach_live,
        reach_live(),
    );
    join_within(
        s.stable.subset_p,
        s.recent.subset_p,
        t.subset_p,
        s.stable.cfg_edge,
        s.recent.cfg_edge,
        t.cfg_edge,
        u.subset_1,
        subset_along(),
    );
    join_within(
        s.stable.subset_1,
        s.recent.subset_1,
        t.subset_1,
        s.stable.region_live_at,
        s.recent.region_live_at,
        t.region_live_at,
        u.subset_2,
        subset_from_live(),
    );
    join_within(
        s.stable.subset_2,
        s.recent.subset_2,
        t.subset_2,
        s.stable.region_live_at,
        s.recent.region_live_at,
        t.region_live_at,
        u.subset,
        subset_carried(),
    );
    join_within(
        s.stable.live_to_dying_regions_r2pq,
        s.recent.live_to_dying_regions_r2pq,
        t.live_to_dying_regions_r2pq,
        s.stable.dying_can_reach_live,
        s.recent.dying_can_reach_live,
        t.dying_can_reach_live,
        u.subset,
        subset_dying(),
    );
    join_within(
        s.stable.dying_region_requires,
        s.recent.dying_region_requires,
        t.dying_region_requires,
        s.stable.dying_can_reach_live,
        s.recent.dying_can_reach_live,
        t.dying_can_reach_live,
        u.region_requires,
        requires_dying(),
    );
    antijoin_within(
        s.recent.region_requires_bp,
        t.region_requires_bp,
        killed,
        u.region_requires_1,
        requires_unkilled(),
    );
    join_within(
        s.stable.region_requires_1,
        s.recent.region_requires_1,
        t.region_requires_1,
        s.stable.cfg_edge,
        s.recent.cfg_edge,
        t.cfg_edge,
        u.region_requires_2,
        requires_along(),
    );
    join_within(
        s.stable.region_requires_2,
        s.recent.region_requires_2,
        t.region_requires_2,
        s.stable.region_live_at,
        s.recent.region_live_at,
        t.region_live_at,
        u.region_requires,
        requires_carried(),
    );
    antijoin_within(
        s.recent.borrow_region_rp,
        t.borrow_region_rp,
        live,
        u.dead_borrow_region_can_reach_root,
        dead_root(),
    );
    map_within(
        s.recent.dead_borrow_region_can_reach_root,
        t.dead_borrow_region_can_reach_root,
        u.dead_borrow_region_can_reach_dead,
        dead_first(),
    );
    join_within(
        s.stable.dead_borrow_region_can_reach_dead,
        s.recent.dead_borrow_region_can_reach_dead,
        t.dead_borrow_region_can_reach_dead,
        s.stable.subset_r1p,
        s.recent.subset_r1p,
        t.subset_r1p,
        u.dead_borrow_region_can_reach_dead_1,
        dead_reached(),
    );
    antijoin_within(
        s.recent.dead_borrow_region_can_reach_dead_1,
        t.dead_borrow_region_can_reach_dead_1,
        live,
        u.dead_borrow_region_can_reach_dead,
        dead_next(),
    );
    join_within(
        s.stable.region_requires_rp,
        s.recent.region_requires_rp,
        t.region_requires_rp,
        s.stable.region_live_at,
        s.recent.region_live_at,
        t.region_live_at,
        u.borrow_live_at,
        loan_live(),
    );
    join_within(
        s.stable.dead_borrow_region_can_reach_dead_1,
        s.recent.dead_borrow_region_can_reach_dead_1,
        t.dead_borrow_region_can_reach_dead_1,
        s.stable.region_live_at,
        s.recent.region_live_at,
        t.region_live_at,
        u.borrow_live_at,
        loan_live(),
    );
    join_within(
        s.stable.invalidates,
        s.recent.invalidates,
        t.invalidates,
        s.stable.borrow_live_at,
        s.recent.borrow_live_at,
        t.borrow_live_at,
        u.errors,
        error(),
    );
}

} // verus!
