//! The evaluation comes to an end.
//!
//! A round that makes a tuple of a distinct variable stable leaves fewer tuples that could still
//! become stable, of which there are finitely many. In any other round the variables that are
//! not distinct pass on what they hold, each to variables nearer to a distinct one.
use crate::engine::{antijoin_rows, join_rows, map_rows};
use crate::evaluation::{recent_is_new, round};
use crate::facts::{Facts, Loan, Point, Region};
use crate::plan::{
    by_point, by_region_and_point, dead_first, dead_next, dead_reached, dead_root, dying_requires,
    dying_requires_along, dying_requires_unkilled, error, live_to_dying, live_to_dying_along,
    live_to_dying_from_live, loan_live, origin, reach_first, reach_live, reach_next,
    reach_through_dead, required_by_loan, required_by_region, requires_along, requires_carried,
    requires_dying, requires_unkilled, subset_along, subset_carried, subset_dying,
    subset_from_live, Sheet, State,
};
use vstd::prelude::*;

verus! {

/// How many tuples are not in the set.
pub open spec fn room<T>(s: Set<T>) -> nat {
    s.complement().len()
}

/// How many tuples the distinct variables can still take up.
pub open spec fn total_room(s: Sheet) -> nat {
    room(s.cfg_edge)
        + room(s.invalidates)
        + room(s.region_live_at)
        + room(s.borrow_region_rp)
        + room(s.subset)
        + room(s.region_requires)
        + room(s.borrow_live_at)
        + room(s.live_to_dying_regions_r2pq)
        + room(s.dying_region_requires)
        + room(s.dying_can_reach_origins)
        + room(s.dying_can_reach_r2q)
        + room(s.dying_can_reach_live)
        + room(s.dead_borrow_region_can_reach_root)
        + room(s.dead_borrow_region_can_reach_dead)
        + room(s.errors)
}

/// The longest way that a recent tuple still has to a distinct variable.
pub open spec fn level(s: Sheet) -> nat {
    if !(s.subset_p.is_empty() && s.region_requires_bp.is_empty()) {
        3
    } else if !(s.live_to_dying_regions_1.is_empty()
        && s.subset_1.is_empty()
        && s.dying_region_requires_1.is_empty()
        && s.region_requires_1.is_empty()
        && s.subset_r1p.is_empty()) {
        2
    } else if !(s.live_to_dying_regions_2.is_empty()
        && s.subset_2.is_empty()
        && s.dying_region_requires_2.is_empty()
        && s.region_requires_2.is_empty()
        && s.dead_borrow_region_can_reach_dead_1.is_empty()
        && s.dying_can_reach_1.is_empty()
        && s.region_requires_rp.is_empty()) {
        1
    } else {
        0
    }
}

/// What a round that makes no tuple of a distinct variable stable brings down.
pub open spec fn height(s: Sheet) -> nat {
    if s.is_empty() {
        0
    } else {
        1 + level(s)
    }
}

/// The distinct variables have no recent tuple.
pub open spec fn distinct_settled(s: Sheet) -> bool {
    &&& s.cfg_edge.is_empty()
    &&& s.invalidates.is_empty()
    &&& s.region_live_at.is_empty()
    &&& s.borrow_region_rp.is_empty()
    &&& s.subset.is_empty()
    &&& s.region_requires.is_empty()
    &&& s.borrow_live_at.is_empty()
    &&& s.live_to_dying_regions_r2pq.is_empty()
    &&& s.dying_region_requires.is_empty()
    &&& s.dying_can_reach_origins.is_empty()
    &&& s.dying_can_reach_r2q.is_empty()
    &&& s.dying_can_reach_live.is_empty()
    &&& s.dead_borrow_region_can_reach_root.is_empty()
    &&& s.dead_borrow_region_can_reach_dead.is_empty()
    &&& s.errors.is_empty()
}

/// There are finitely many pairs with the first element in a finite set.
proof fn pairs_are_finite<A, B>(s: Set<A>)
    requires
        s.finite(),
        Set::<B>::full().finite(),
    ensures
        Set::new(|t: (A, B)| s.contains(t.0)).finite(),
    decreases s.len(),
{
    let all = Set::new(|t: (A, B)| s.contains(t.0));
    if s.len() == 0 {
        assert(all =~= Set::<(A, B)>::empty());
    } else {
        let a = s.choose();
        let rest = Set::new(|t: (A, B)| s.remove(a).contains(t.0));
        pairs_are_finite::<A, B>(s.remove(a));
        let with_a = Set::<B>::full().map(|b: B| (a, b));
        Set::<B>::full().lemma_map_finite(|b: B| (a, b));
        assert forall|t: (A, B)| all.contains(t) implies rest.union(with_a).contains(t) by {
            if t.0 == a {
                assert(Set::<B>::full().contains(t.1));
                assert(t == (a, t.1));
            }
        }
        assert(all =~= rest.union(with_a));
    }
}

/// There are finitely many pairs of two finite types.
proof fn all_pairs_are_finite<A, B>()
    requires
        Set::<A>::full().finite(),
        Set::<B>::full().finite(),
    ensures
        Set::<(A, B)>::full().finite(),
{
    pairs_are_finite::<A, B>(Set::full());
    assert(Set::new(|t: (A, B)| Set::<A>::full().contains(t.0)) =~= Set::<(A, B)>::full());
}

/// There are finitely many tuples of each shape.
proof fn tuples_are_finite()
    ensures
        Set::<(usize, usize)>::full().finite(),
        Set::<((usize, usize), ())>::full().finite(),
        Set::<(usize, usize, usize)>::full().finite(),
        Set::<((usize, usize), usize)>::full().finite(),
        Set::<((usize, usize, usize), usize)>::full().finite(),
        Set::<((usize, usize), (usize, usize))>::full().finite(),
{
    broadcast use vstd::set_lib::full_set_properties;

    all_pairs_are_finite::<usize, usize>();
    assert(Set::<()>::full() =~= set![()]);
    all_pairs_are_finite::<(usize, usize), ()>();
    all_pairs_are_finite::<(usize, usize), usize>();
    all_pairs_are_finite::<(usize, usize), (usize, usize)>();
    let flat = |t: ((usize, usize), usize)| (t.0.0, t.0.1, t.1);
    Set::<((usize, usize), usize)>::full().lemma_map_finite(flat);
    assert forall|t: (usize, usize, usize)| #[trigger]
        Set::<((usize, usize), usize)>::full().map(flat).contains(t) by {
        assert(Set::<((usize, usize), usize)>::full().contains(((t.0, t.1), t.2)));
        assert(flat(((t.0, t.1), t.2)) == t);
    }
    assert(Set::<((usize, usize), usize)>::full().map(flat) =~= Set::<
        (usize, usize, usize),
    >::full());
    all_pairs_are_finite::<(usize, usize, usize), usize>();
}

/// A set that takes up more tuples leaves no more room, and less where a tuple is new.
proof fn room_shrinks<T>(s: Set<T>, added: Set<T>)
    requires
        Set::<T>::full().finite(),
        added.disjoint(s),
    ensures
        room(s.union(added)) <= room(s),
        added.is_empty() ==> room(s.union(added)) == room(s),
        !added.is_empty() ==> room(s.union(added)) < room(s),
{
    vstd::set_lib::lemma_set_subset_finite(Set::<T>::full(), s.complement());
    vstd::set_lib::lemma_len_subset(s.union(added).complement(), s.complement());
    if added.is_empty() {
        assert(s.union(added) =~= s);
    } else {
        let t = added.choose();
        assert(s.complement().contains(t));
        vstd::set_lib::lemma_len_subset(
            s.union(added).complement(),
            s.complement().remove(t),
        );
    }
}

/// A join without recent tuples adds nothing.
proof fn empty_join<K, A, B, T>(
    left: Set<(K, A)>,
    left_recent: Set<(K, A)>,
    right: Set<(K, B)>,
    right_recent: Set<(K, B)>,
    f: spec_fn(K, A, B) -> T,
)
    requires
        left_recent.is_empty(),
        right_recent.is_empty(),
    ensures
        join_rows(left, left_recent, right, right_recent, f).is_empty(),
{
}

/// Nor does an antijoin.
proof fn empty_antijoin<K, A, T>(recent: Set<(K, A)>, excluded: Set<K>, f: spec_fn(K, A) -> T)
    requires
        recent.is_empty(),
    ensures
        antijoin_rows(recent, excluded, f).is_empty(),
{
}

/// Nor does a map.
proof fn empty_map<S, T>(recent: Set<S>, f: spec_fn(S) -> T)
    requires
        recent.is_empty(),
    ensures
        map_rows(recent, f).is_empty(),
{
}

/// Where the distinct variables have no recent tuple, what the others pass on has a shorter way
/// to go.
proof fn level_falls(
    c: State,
    live: Set<(Region, Point)>,
    killed: Set<(Loan, Point)>,
)
    requires
        c.pending.is_empty(),
        distinct_settled(c.recent),
    ensures
        level(c.recent) > 0 ==> level(c.with_rules(live, killed).pending) < level(c.recent),
        c.recent.is_empty() ==> c.with_rules(live, killed).pending.is_empty(),
        level(c.recent) == 0 ==> c.recent.is_empty(),
{
    empty_map(c.recent.subset, by_region_and_point());
    empty_map(c.recent.subset, by_point());
    empty_map(c.recent.region_requires, required_by_loan());
    empty_map(c.recent.region_requires, required_by_region());
    empty_map(c.recent.live_to_dying_regions_r2pq, origin());
    empty_map(c.recent.dying_region_requires, origin());
    empty_antijoin(c.recent.dying_can_reach_r2q, live, reach_through_dead());
    empty_join(
        c.stable.dying_can_reach_r2q,
        c.recent.dying_can_reach_r2q,
        c.stable.region_live_at,
        c.recent.region_live_at,
        reach_live(),
    );
    empty_join(
        c.stable.live_to_dying_regions_r2pq,
        c.recent.live_to_dying_regions_r2pq,
        c.stable.dying_can_reach_live,
        c.recent.dying_can_reach_live,
        subset_dying(),
    );
    empty_join(
        c.stable.dying_region_requires,
        c.recent.dying_region_requires,
        c.stable.dying_can_reach_live,
        c.recent.dying_can_reach_live,
        requires_dying(),
    );
    empty_antijoin(c.recent.borrow_region_rp, live, dead_root());
    empty_map(c.recent.dead_borrow_region_can_reach_root, dead_first());
    empty_join(
        c.stable.invalidates,
        c.recent.invalidates,
        c.stable.borrow_live_at,
        c.recent.borrow_live_at,
        error(),
    );
    if level(c.recent) < 1 {
        empty_antijoin(c.recent.live_to_dying_regions_2, live, live_to_dying());
        empty_antijoin(c.recent.dying_region_requires_2, live, dying_requires());
        empty_join(
            c.stable.dying_can_reach_1,
            c.recent.dying_can_reach_1,
            c.stable.subset_r1p,
            c.recent.subset_r1p,
            reach_next(),
        );
        empty_join(
            c.stable.subset_2,
            c.recent.subset_2,
            c.stable.region_live_at,
            c.recent.region_live_at,
            subset_carried(),
        );
        empty_join(
            c.stable.region_requires_2,
            c.recent.region_requires_2,
            c.stable.region_live_at,
            c.recent.region_live_at,
            requires_carried(),
        );
        empty_antijoin(c.recent.dead_borrow_region_can_reach_dead_1, live, dead_next());
        empty_join(
            c.stable.region_requires_rp,
            c.recent.region_requires_rp,
            c.stable.region_live_at,
            c.recent.region_live_at,
            loan_live(),
        );
        empty_join(
            c.stable.dead_borrow_region_can_reach_dead_1,
            c.recent.dead_borrow_region_can_reach_dead_1,
            c.stable.region_live_at,
            c.recent.region_live_at,
            loan_live(),
        );
    }
    if level(c.recent) < 2 {
        empty_join(
            c.stable.live_to_dying_regions_1,
            c.recent.live_to_dying_regions_1,
            c.stable.region_live_at,
            c.recent.region_live_at,
            live_to_dying_from_live(),
        );
        empty_join(
            c.stable.dying_region_requires_1,
            c.recent.dying_region_requires_1,
            c.stable.cfg_edge,
            c.recent.cfg_edge,
            dying_requires_along(),
        );
        empty_join(
            c.stable.dying_can_reach_origins,
            c.recent.dying_can_reach_origins,
            c.stable.subset_r1p,
            c.recent.subset_r1p,
            reach_first(),
        );
        empty_join(
            c.stable.subset_1,
            c.recent.subset_1,
            c.stable.region_live_at,
            c.recent.region_live_at,
            subset_from_live(),
        );
        empty_join(
            c.stable.region_requires_1,
            c.recent.region_requires_1,
            c.stable.cfg_edge,
            c.recent.cfg_edge,
            requires_along(),
        );
        empty_join(
            c.stable.dead_borrow_region_can_reach_dead,
            c.recent.dead_borrow_region_can_reach_dead,
            c.stable.subset_r1p,
            c.recent.subset_r1p,
            dead_reached(),
        );
    }
    if level(c.recent) < 3 {
        empty_join(
            c.stable.subset_p,
            c.recent.subset_p,
            c.stable.cfg_edge,
            c.recent.cfg_edge,
            live_to_dying_along(),
        );
        empty_antijoin(c.recent.region_requires_bp, killed, dying_requires_unkilled());
        empty_join(
            c.stable.subset_p,
            c.recent.subset_p,
            c.stable.cfg_edge,
            c.recent.cfg_edge,
            subset_along(),
        );
        empty_antijoin(c.recent.region_requires_bp, killed, requires_unkilled());
    }
}

/// Each round brings the measure down while there is anything recent.
pub proof fn round_makes_progress(f: Facts, s: State)
    requires
        s.pending.is_empty(),
        recent_is_new(s),
        !s.recent.is_empty(),
    ensures
        total_room(round(f, s).stable) <= total_room(s.stable),
        total_room(round(f, s).stable) == total_room(s.stable) ==> height(round(f, s).recent)
            < height(s.recent),
{
    let c = s.without_reflexive();
    tuples_are_finite();
    room_shrinks(c.stable.cfg_edge, c.recent.cfg_edge);
    room_shrinks(c.stable.invalidates, c.recent.invalidates);
    room_shrinks(c.stable.region_live_at, c.recent.region_live_at);
    room_shrinks(c.stable.borrow_region_rp, c.recent.borrow_region_rp);
    room_shrinks(c.stable.subset, c.recent.subset);
    room_shrinks(c.stable.region_requires, c.recent.region_requires);
    room_shrinks(c.stable.borrow_live_at, c.recent.borrow_live_at);
    room_shrinks(c.stable.live_to_dying_regions_r2pq, c.recent.live_to_dying_regions_r2pq);
    room_shrinks(c.stable.dying_region_requires, c.recent.dying_region_requires);
    room_shrinks(c.stable.dying_can_reach_origins, c.recent.dying_can_reach_origins);
    room_shrinks(c.stable.dying_can_reach_r2q, c.recent.dying_can_reach_r2q);
    room_shrinks(c.stable.dying_can_reach_live, c.recent.dying_can_reach_live);
    room_shrinks(
        c.stable.dead_borrow_region_can_reach_root,
        c.recent.dead_borrow_region_can_reach_root,
    );
    room_shrinks(
        c.stable.dead_borrow_region_can_reach_dead,
        c.recent.dead_borrow_region_can_reach_dead,
    );
    room_shrinks(c.stable.errors, c.recent.errors);
    if distinct_settled(c.recent) {
        level_falls(c, f.live_set(), f.killed);
        assert(level(c.recent) == level(s.recent));
        let n = round(f, s);
        let p = c.with_rules(f.live_set(), f.killed).pending;
        assert(level(n.recent) == level(p));
        if c.recent.is_empty() {
            assert(n.recent.is_empty());
        }
    }
}

} // verus!
