//! The evaluation goes on until every rule has been applied to all that it holds.
use crate::engine::{antijoin_rows, join_rows, map_rows, meet, passes};
use crate::facts::{Facts, Loan, Point, Region};
use crate::plan::{
    antijoin_closed, by_point, by_region_and_point, dead_first, dead_next, dead_reached, dead_root,
    dying_requires, dying_requires_along, dying_requires_unkilled, error, join_closed,
    live_to_dying, live_to_dying_along, live_to_dying_from_live, loan_live, map_closed, origin,
    plan_closed, reach_first, reach_live, reach_next, reach_through_dead, reflexive,
    required_by_loan, required_by_region, requires_along, requires_carried, requires_dying,
    requires_unkilled, subset_along, subset_carried, subset_dying, subset_from_live, Sheet, State,
};
use vstd::prelude::*;

verus! {

/// With every region a subset of itself.
pub open spec fn with_reflexive(sheet: Sheet) -> Sheet {
    Sheet { subset: sheet.subset.union(reflexive()), ..sheet }
}

/// The facts are there, in the forms that the plan gives them.
pub open spec fn holds_facts(f: Facts, sheet: Sheet) -> bool {
    &&& f.cfg_edge.subset_of(sheet.cfg_edge)
    &&& forall|b: Loan, p: Point| #[trigger]
        f.invalidates.contains((p, b)) ==> sheet.invalidates.contains(((b, p), ()))
    &&& forall|r: Region, p: Point| #[trigger]
        f.live(r, p) ==> sheet.region_live_at.contains(((r, p), ()))
    &&& forall|r: Region, b: Loan, p: Point| #[trigger]
        f.borrow_region.contains((r, b, p)) ==> sheet.borrow_region_rp.contains(((r, p), b))
    &&& f.outlives.subset_of(sheet.subset)
    &&& f.borrow_region.subset_of(sheet.region_requires)
}

/// A join whose stable tuples have led to their results has, with what one round adds, the
/// results of the recent ones too.
proof fn join_saturates<K, A, B, T>(
    left: Set<(K, A)>,
    left_recent: Set<(K, A)>,
    right: Set<(K, B)>,
    right_recent: Set<(K, B)>,
    before: Set<T>,
    after: Set<T>,
    f: spec_fn(K, A, B) -> T,
)
    requires
        join_closed(left, right, before, f),
        before.subset_of(after),
        join_rows(left, left_recent, right, right_recent, f).subset_of(after),
    ensures
        join_closed(left.union(left_recent), right.union(right_recent), after, f),
{
    let l = left.union(left_recent);
    let r = right.union(right_recent);
    assert forall|k: K, a: A, b: B|
        #![trigger l.contains((k, a)), r.contains((k, b))]
        l.contains((k, a)) && r.contains((k, b)) implies after.contains(f(k, a, b)) by {
        if meet(left, left_recent, right, right_recent, k, a, b) {
            assert(join_rows(left, left_recent, right, right_recent, f).contains(f(k, a, b)));
        } else {
            assert(left.contains((k, a)) && right.contains((k, b)));
        }
    }
}

/// So has an antijoin.
proof fn antijoin_saturates<K, A, T>(
    input: Set<(K, A)>,
    recent: Set<(K, A)>,
    excluded: Set<K>,
    before: Set<T>,
    after: Set<T>,
    f: spec_fn(K, A) -> T,
)
    requires
        antijoin_closed(input, excluded, before, f),
        before.subset_of(after),
        antijoin_rows(recent, excluded, f).subset_of(after),
    ensures
        antijoin_closed(input.union(recent), excluded, after, f),
{
    assert forall|k: K, a: A| #[trigger]
        input.union(recent).contains((k, a)) && !excluded.contains(k) implies after.contains(
        f(k, a),
    ) by {
        if passes(recent, excluded, k, a) {
            assert(antijoin_rows(recent, excluded, f).contains(f(k, a)));
        } else {
            assert(input.contains((k, a)));
        }
    }
}

/// So has a map.
proof fn map_saturates<S, T>(
    input: Set<S>,
    recent: Set<S>,
    before: Set<T>,
    after: Set<T>,
    f: spec_fn(S) -> T,
)
    requires
        map_closed(input, before, f),
        before.subset_of(after),
        map_rows(recent, f).subset_of(after),
    ensures
        map_closed(input.union(recent), after, f),
{
    assert forall|s: S| #[trigger] input.union(recent).contains(s) implies after.contains(f(s)) by {
        if recent.contains(s) {
            assert(map_rows(recent, f).contains(f(s)));
        } else {
            assert(input.contains(s));
        }
    }
}

/// Where the stable tuples have led to tuples of `before`, applying the rules once makes the
/// stable and the recent tuples lead to tuples of any `after` that holds `before` and what the
/// rules have added.
pub proof fn rules_saturate(
    s: State,
    before: Sheet,
    after: Sheet,
    live: Set<(Region, Point)>,
    killed: Set<(Loan, Point)>,
)
    requires
        plan_closed(s.stable, before, live, killed),
        before.subset_of(after),
        s.with_rules(live, killed).pending.subset_of(after),
    ensures
        plan_closed(s.stable.union(s.recent), after, live, killed),
{
    map_saturates(
        s.stable.subset,
        s.recent.subset,
        before.subset_r1p,
        after.subset_r1p,
        by_region_and_point(),
    );
    map_saturates(s.stable.subset, s.recent.subset, before.subset_p, after.subset_p, by_point());
    map_saturates(
        s.stable.region_requires,
        s.recent.region_requires,
        before.region_requires_bp,
        after.region_requires_bp,
        required_by_loan(),
    );
    map_saturates(
        s.stable.region_requires,
        s.recent.region_requires,
        before.region_requires_rp,
        after.region_requires_rp,
        required_by_region(),
    );
    join_saturates(
        s.stable.subset_p,
        s.recent.subset_p,
        s.stable.cfg_edge,
        s.recent.cfg_edge,
        before.live_to_dying_regions_1,
        after.live_to_dying_regions_1,
        live_to_dying_along(),
    );
    join_saturates(
        s.stable.live_to_dying_regions_1,
        s.recent.live_to_dying_regions_1,
        s.stable.region_live_at,
        s.recent.region_live_at,
        before.live_to_dying_regions_2,
        after.live_to_dying_regions_2,
        live_to_dying_from_live(),
    );
    antijoin_saturates(
        s.stable.live_to_dying_regions_2,
        s.recent.live_to_dying_regions_2,
        live,
        before.live_to_dying_regions_r2pq,
        after.live_to_dying_regions_r2pq,
        live_to_dying(),
    );
    antijoin_saturates(
        s.stable.region_requires_bp,
        s.recent.region_requires_bp,
        killed,
        before.dying_region_requires_1,
        after.dying_region_requires_1,
        dying_requires_unkilled(),
    );
    join_saturates(
        s.stable.dying_region_requires_1,
        s.recent.dying_region_requires_1,
        s.stable.cfg_edge,
        s.recent.cfg_edge,
        before.dying_region_requires_2,
        after.dying_region_requires_2,
        dying_requires_along(),
    );
    antijoin_saturates(
        s.stable.dying_region_requires_2,
        s.recent.dying_region_requires_2,
        live,
        before.dying_region_requires,
        after.dying_region_requires,
        dying_requires(),
    );
    map_saturates(
        s.stable.live_to_dying_regions_r2pq,
        s.recent.live_to_dying_regions_r2pq,
        before.dying_can_reach_origins,
        after.dying_can_reach_origins,
        origin(),
    );
    map_saturates(
        s.stable.dying_region_requires,
        s.recent.dying_region_requires,
        before.dying_can_reach_origins,
        after.dying_can_reach_origins,
        origin(),
    );
    join_saturates(
        s.stable.dying_can_reach_origins,
        s.recent.dying_can_reach_origins,
        s.stable.subset_r1p,
        s.recent.subset_r1p,
        before.dying_can_reach_r2q,
        after.dying_can_reach_r2q,
        reach_first(),
    );
    antijoin_saturates(
        s.stable.dying_can_reach_r2q,
        s.recent.dying_can_reach_r2q,
        live,
        before.dying_can_reach_1,
        after.dying_can_reach_1,
        reach_through_dead(),
    );
    join_saturates(
        s.stable.dying_can_reach_1,
        s.recent.dying_can_reach_1,
        s.stable.subset_r1p,
        s.recent.subset_r1p,
        before.dying_can_reach_r2q,
        after.dying_can_reach_r2q,
        reach_next(),
    );
    join_saturates(
        s.stable.dying_can_reach_r2q,
        s.recent.dying_can_reach_r2q,
        s.stable.region_live_at,
        s.recent.region_live_at,
        before.dying_can_reach_live,
        after.dying_can_reach_live,
        reach_live(),
    );
    join_saturates(
        s.stable.subset_p,
        s.recent.subset_p,
        s.stable.cfg_edge,
        s.recent.cfg_edge,
        before.subset_1,
        after.subset_1,
        subset_along(),
    );
    join_saturates(
        s.stable.subset_1,
        s.recent.subset_1,
        s.stable.region_live_at,
        s.recent.region_live_at,
        before.subset_2,
        after.subset_2,
        subset_from_live(),
    );
    join_saturates(
        s.stable.subset_2,
        s.recent.subset_2,
        s.stable.region_live_at,
        s.recent.region_live_at,
        before.subset,
        after.subset,
        subset_carried(),
    );
    join_saturates(
        s.stable.live_to_dying_regions_r2pq,
        s.recent.live_to_dying_regions_r2pq,
        s.stable.dying_can_reach_live,
        s.recent.dying_can_reach_live,
        before.subset,
        after.subset,
        subset_dying(),
    );
    join_saturates(
        s.stable.dying_region_requires,
        s.recent.dying_region_requires,
        s.stable.dying_can_reach_live,
        s.recent.dying_can_reach_live,
        before.region_requires,
        after.region_requires,
        requires_dying(),
    );
    antijoin_saturates(
        s.stable.region_requires_bp,
        s.recent.region_requires_bp,
        killed,
        before.region_requires_1,
        after.region_requires_1,
        requires_unkilled(),
    );
    join_saturates(
        s.stable.region_requires_1,
        s.recent.region_requires_1,
        s.stable.cfg_edge,
        s.recent.cfg_edge,
        before.region_requires_2,
        after.region_requires_2,
        requires_along(),
    );
    join_saturates(
        s.stable.region_requires_2,
        s.recent.region_requires_2,
        s.stable.region_live_at,
        s.recent.region_live_at,
        before.region_requires,
        after.region_requires,
        requires_carried(),
    );
    antijoin_saturates(
        s.stable.borrow_region_rp,
        s.recent.borrow_region_rp,
        live,
        before.dead_borrow_region_can_reach_root,
        after.dead_borrow_region_can_reach_root,
        dead_root(),
    );
    map_saturates(
        s.stable.dead_borrow_region_can_reach_root,
        s.recent.dead_borrow_region_can_reach_root,
        before.dead_borrow_region_can_reach_dead,
        after.dead_borrow_region_can_reach_dead,
        dead_first(),
    );
    join_saturates(
        s.stable.dead_borrow_region_can_reach_dead,
        s.recent.dead_borrow_region_can_reach_dead,
        s.stable.subset_r1p,
        s.recent.subset_r1p,
        before.dead_borrow_region_can_reach_dead_1,
        after.dead_borrow_region_can_reach_dead_1,
        dead_reached(),
    );
    antijoin_saturates(
        s.stable.dead_borrow_region_can_reach_dead_1,
        s.recent.dead_borrow_region_can_reach_dead_1,
        live,
        before.dead_borrow_region_can_reach_dead,
        after.dead_borrow_region_can_reach_dead,
        dead_next(),
    );
    join_saturates(
        s.stable.region_requires_rp,
        s.recent.region_requires_rp,
        s.stable.region_live_at,
        s.recent.region_live_at,
        before.borrow_live_at,
        after.borrow_live_at,
        loan_live(),
    );
    join_saturates(
        s.stable.dead_borrow_region_can_reach_dead_1,
        s.recent.dead_borrow_region_can_reach_dead_1,
        s.stable.region_live_at,
        s.recent.region_live_at,
        before.borrow_live_at,
        after.borrow_live_at,
        loan_live(),
    );
    join_saturates(
        s.stable.invalidates,
        s.recent.invalidates,
        s.stable.borrow_live_at,
        s.recent.borrow_live_at,
        before.errors,
        after.errors,
        error(),
    );
}

} // verus!
