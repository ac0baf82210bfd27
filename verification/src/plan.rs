//! The plan by which the rules are evaluated: the relations in the forms that joins ask for,
//! and what one round adds to each of them.
use crate::engine::{antijoin_rows, join_rows, map_rows};
use crate::facts::{Loan, Point, Region};
use vstd::prelude::*;

verus! {

/// A set of tuples for each relation of the plan. The letters behind a name tell the columns
/// that make up the key; a number stands for a step on the way to the relation of that name.
#[verifier::ext_equal]
pub struct Sheet {
    pub cfg_edge: Set<(Point, Point)>,
    pub invalidates: Set<((Loan, Point), ())>,
    pub region_live_at: Set<((Region, Point), ())>,
    pub borrow_region_rp: Set<((Region, Point), Loan)>,
    pub subset: Set<(Region, Region, Point)>,
    pub subset_1: Set<((Region, Point), Region)>,
    pub subset_2: Set<((Region, Point), Region)>,
    pub subset_r1p: Set<((Region, Point), Region)>,
    pub subset_p: Set<(Point, (Region, Region))>,
    pub region_requires: Set<(Region, Loan, Point)>,
    pub region_requires_1: Set<(Point, (Region, Loan))>,
    pub region_requires_2: Set<((Region, Point), Loan)>,
    pub region_requires_bp: Set<((Loan, Point), Region)>,
    pub region_requires_rp: Set<((Region, Point), Loan)>,
    pub borrow_live_at: Set<((Loan, Point), ())>,
    pub live_to_dying_regions_r2pq: Set<((Region, Point, Point), Region)>,
    pub live_to_dying_regions_1: Set<((Region, Point), (Region, Point))>,
    pub live_to_dying_regions_2: Set<((Region, Point), (Region, Point))>,
    pub dying_region_requires: Set<((Region, Point, Point), Loan)>,
    pub dying_region_requires_1: Set<(Point, (Loan, Region))>,
    pub dying_region_requires_2: Set<((Region, Point), (Loan, Point))>,
    pub dying_can_reach_origins: Set<((Region, Point), Point)>,
    pub dying_can_reach_r2q: Set<((Region, Point), (Region, Point))>,
    pub dying_can_reach_1: Set<((Region, Point), (Region, Point))>,
    pub dying_can_reach_live: Set<((Region, Point, Point), Region)>,
    pub dead_borrow_region_can_reach_root: Set<((Region, Point), Loan)>,
    pub dead_borrow_region_can_reach_dead: Set<((Region, Point), Loan)>,
    pub dead_borrow_region_can_reach_dead_1: Set<((Region, Point), Loan)>,
    pub errors: Set<(Loan, Point)>,
}

impl Sheet {
    pub open spec fn empty() -> Sheet {
        Sheet {
            cfg_edge: Set::empty(),
            invalidates: Set::empty(),
            region_live_at: Set::empty(),
            borrow_region_rp: Set::empty(),
            subset: Set::empty(),
            subset_1: Set::empty(),
            subset_2: Set::empty(),
            subset_r1p: Set::empty(),
            subset_p: Set::empty(),
            region_requires: Set::empty(),
            region_requires_1: Set::empty(),
            region_requires_2: Set::empty(),
            region_requires_bp: Set::empty(),
            region_requires_rp: Set::empty(),
            borrow_live_at: Set::empty(),
            live_to_dying_regions_r2pq: Set::empty(),
            live_to_dying_regions_1: Set::empty(),
            live_to_dying_regions_2: Set::empty(),
            dying_region_requires: Set::empty(),
            dying_region_requires_1: Set::empty(),
            dying_region_requires_2: Set::empty(),
            dying_can_reach_origins: Set::empty(),
            dying_can_reach_r2q: Set::empty(),
            dying_can_reach_1: Set::empty(),
            dying_can_reach_live: Set::empty(),
            dead_borrow_region_can_reach_root: Set::empty(),
            dead_borrow_region_can_reach_dead: Set::empty(),
            dead_borrow_region_can_reach_dead_1: Set::empty(),
            errors: Set::empty(),
        }
    }

    pub open spec fn union(self, other: Sheet) -> Sheet {
        Sheet {
            cfg_edge: self.cfg_edge.union(other.cfg_edge),
            invalidates: self.invalidates.union(other.invalidates),
            region_live_at: self.region_live_at.union(other.region_live_at),
            borrow_region_rp: self.borrow_region_rp.union(other.borrow_region_rp),
            subset: self.subset.union(other.subset),
            subset_1: self.subset_1.union(other.subset_1),
            subset_2: self.subset_2.union(other.subset_2),
            subset_r1p: self.subset_r1p.union(other.subset_r1p),
            subset_p: self.subset_p.union(other.subset_p),
            region_requires: self.region_requires.union(other.region_requires),
            region_requires_1: self.region_requires_1.union(other.region_requires_1),
            region_requires_2: self.region_requires_2.union(other.region_requires_2),
            region_requires_bp: self.region_requires_bp.union(other.region_requires_bp),
            region_requires_rp: self.region_requires_rp.union(other.region_requires_rp),
            borrow_live_at: self.borrow_live_at.union(other.borrow_live_at),
            live_to_dying_regions_r2pq: self.live_to_dying_regions_r2pq.union(
                other.live_to_dying_regions_r2pq,
            ),
            live_to_dying_regions_1: self.live_to_dying_regions_1.union(
                other.live_to_dying_regions_1,
            ),
            live_to_dying_regions_2: self.live_to_dying_regions_2.union(
                other.live_to_dying_regions_2,
            ),
            dying_region_requires: self.dying_region_requires.union(other.dying_region_requires),
            dying_region_requires_1: self.dying_region_requires_1.union(
                other.dying_region_requires_1,
            ),
            dying_region_requires_2: self.dying_region_requires_2.union(
                other.dying_region_requires_2,
            ),
            dying_can_reach_origins: self.dying_can_reach_origins.union(
                other.dying_can_reach_origins,
            ),
            dying_can_reach_r2q: self.dying_can_reach_r2q.union(other.dying_can_reach_r2q),
            dying_can_reach_1: self.dying_can_reach_1.union(other.dying_can_reach_1),
            dying_can_reach_live: self.dying_can_reach_live.union(other.dying_can_reach_live),
            dead_borrow_region_can_reach_root: self.dead_borrow_region_can_reach_root.union(
                other.dead_borrow_region_can_reach_root,
            ),
            dead_borrow_region_can_reach_dead: self.dead_borrow_region_can_reach_dead.union(
                other.dead_borrow_region_can_reach_dead,
            ),
            dead_borrow_region_can_reach_dead_1: self.dead_borrow_region_can_reach_dead_1.union(
                other.dead_borrow_region_can_reach_dead_1,
            ),
            errors: self.errors.union(other.errors),
        }
    }

    pub open spec fn subset_of(self, other: Sheet) -> bool {
        &&& self.cfg_edge.subset_of(other.cfg_edge)
        &&& self.invalidates.subset_of(other.invalidates)
        &&& self.region_live_at.subset_of(other.region_live_at)
        &&& self.borrow_region_rp.subset_of(other.borrow_region_rp)
        &&& self.subset.subset_of(other.subset)
        &&& self.subset_1.subset_of(other.subset_1)
        &&& self.subset_2.subset_of(other.subset_2)
        &&& self.subset_r1p.subset_of(other.subset_r1p)
        &&& self.subset_p.subset_of(other.subset_p)
        &&& self.region_requires.subset_of(other.region_requires)
        &&& self.region_requires_1.subset_of(other.region_requires_1)
        &&& self.region_requires_2.subset_of(other.region_requires_2)
        &&& self.region_requires_bp.subset_of(other.region_requires_bp)
        &&& self.region_requires_rp.subset_of(other.region_requires_rp)
        &&& self.borrow_live_at.subset_of(other.borrow_live_at)
        &&& self.live_to_dying_regions_r2pq.subset_of(other.live_to_dying_regions_r2pq)
        &&& self.live_to_dying_regions_1.subset_of(other.live_to_dying_regions_1)
        &&& self.live_to_dying_regions_2.subset_of(other.live_to_dying_regions_2)
        &&& self.dying_region_requires.subset_of(other.dying_region_requires)
        &&& self.dying_region_requires_1.subset_of(other.dying_region_requires_1)
        &&& self.dying_region_requires_2.subset_of(other.dying_region_requires_2)
        &&& self.dying_can_reach_origins.subset_of(other.dying_can_reach_origins)
        &&& self.dying_can_reach_r2q.subset_of(other.dying_can_reach_r2q)
        &&& self.dying_can_reach_1.subset_of(other.dying_can_reach_1)
        &&& self.dying_can_reach_live.subset_of(other.dying_can_reach_live)
        &&& self.dead_borrow_region_can_reach_root.subset_of(
            other.dead_borrow_region_can_reach_root,
        )
        &&& self.dead_borrow_region_can_reach_dead.subset_of(
            other.dead_borrow_region_can_reach_dead,
        )
        &&& self.dead_borrow_region_can_reach_dead_1.subset_of(
            other.dead_borrow_region_can_reach_dead_1,
        )
        &&& self.errors.subset_of(other.errors)
    }

    pub open spec fn is_empty(self) -> bool {
        &&& self.cfg_edge.is_empty()
        &&& self.invalidates.is_empty()
        &&& self.region_live_at.is_empty()
        &&& self.borrow_region_rp.is_empty()
        &&& self.subset.is_empty()
        &&& self.subset_1.is_empty()
        &&& self.subset_2.is_empty()
        &&& self.subset_r1p.is_empty()
        &&& self.subset_p.is_empty()
        &&& self.region_requires.is_empty()
        &&& self.region_requires_1.is_empty()
        &&& self.region_requires_2.is_empty()
        &&& self.region_requires_bp.is_empty()
        &&& self.region_requires_rp.is_empty()
        &&& self.borrow_live_at.is_empty()
        &&& self.live_to_dying_regions_r2pq.is_empty()
        &&& self.live_to_dying_regions_1.is_empty()
        &&& self.live_to_dying_regions_2.is_empty()
        &&& self.dying_region_requires.is_empty()
        &&& self.dying_region_requires_1.is_empty()
        &&& self.dying_region_requires_2.is_empty()
        &&& self.dying_can_reach_origins.is_empty()
        &&& self.dying_can_reach_r2q.is_empty()
        &&& self.dying_can_reach_1.is_empty()
        &&& self.dying_can_reach_live.is_empty()
        &&& self.dead_borrow_region_can_reach_root.is_empty()
        &&& self.dead_borrow_region_can_reach_dead.is_empty()
        &&& self.dead_borrow_region_can_reach_dead_1.is_empty()
        &&& self.errors.is_empty()
    }
}

/// Every region is a subset of itself. The evaluation keeps no such tuple.
pub open spec fn reflexive() -> Set<(Region, Region, Point)> {
    Set::new(|t: (Region, Region, Point)| t.0 == t.1)
}

/// How far the evaluation has come.
#[verifier::ext_equal]
pub struct State {
    pub stable: Sheet,
    pub recent: Sheet,
    pub pending: Sheet,
}

/// `(r1, r2, p)` becomes `((r1, p), r2)`.
pub open spec fn by_region_and_point() -> spec_fn(
    (Region, Region, Point),
) -> ((Region, Point), Region) {
    |r1r2p: (Region, Region, Point)| ((r1r2p.0, r1r2p.2), r1r2p.1)
}

/// `(r1, r2, p)` becomes `(p, (r1, r2))`.
pub open spec fn by_point() -> spec_fn((Region, Region, Point)) -> (Point, (Region, Region)) {
    |r1r2p: (Region, Region, Point)| (r1r2p.2, (r1r2p.0, r1r2p.1))
}

/// `(r, b, p)` becomes `((b, p), r)`.
pub open spec fn required_by_loan() -> spec_fn((Region, Loan, Point)) -> ((Loan, Point), Region) {
    |rbp: (Region, Loan, Point)| ((rbp.1, rbp.2), rbp.0)
}

/// `(r, b, p)` becomes `((r, p), b)`.
pub open spec fn required_by_region() -> spec_fn((Region, Loan, Point)) -> ((Region, Point), Loan) {
    |rbp: (Region, Loan, Point)| ((rbp.0, rbp.2), rbp.1)
}

/// `(p, (r1, r2))` and `(p, q)` become `((r1, q), (r2, p))`.
pub open spec fn live_to_dying_along() -> spec_fn(Point, (Region, Region), Point) -> (
    (Region, Point),
    (Region, Point),
) {
    |p: Point, r1r2: (Region, Region), q: Point| ((r1r2.0, q), (r1r2.1, p))
}

/// `((r1, q), (r2, p))`, with `r1` live in `q`, becomes `((r2, q), (r1, p))`.
pub open spec fn live_to_dying_from_live() -> spec_fn(
    (Region, Point),
    (Region, Point),
    (),
) -> ((Region, Point), (Region, Point)) {
    |r1q: (Region, Point), r2p: (Region, Point), _live: ()| ((r2p.0, r1q.1), (r1q.0, r2p.1))
}

/// `((r2, q), (r1, p))`, with `r2` dead in `q`, becomes `((r2, p, q), r1)`.
pub open spec fn live_to_dying() -> spec_fn(
    (Region, Point),
    (Region, Point),
) -> ((Region, Point, Point), Region) {
    |r2q: (Region, Point), r1p: (Region, Point)| ((r2q.0, r1p.1, r2q.1), r1p.0)
}

/// `((b, p), r)`, with `b` not killed in `p`, becomes `(p, (b, r))`.
pub open spec fn dying_requires_unkilled() -> spec_fn(
    (Loan, Point),
    Region,
) -> (Point, (Loan, Region)) {
    |bp: (Loan, Point), r: Region| (bp.1, (bp.0, r))
}

/// `(p, (b, r))` and `(p, q)` become `((r, q), (b, p))`.
pub open spec fn dying_requires_along() -> spec_fn(Point, (Loan, Region), Point) -> (
    (Region, Point),
    (Loan, Point),
) {
    |p: Point, br: (Loan, Region), q: Point| ((br.1, q), (br.0, p))
}

/// `((r, q), (b, p))`, with `r` dead in `q`, becomes `((r, p, q), b)`.
pub open spec fn dying_requires() -> spec_fn(
    (Region, Point),
    (Loan, Point),
) -> ((Region, Point, Point), Loan) {
    |rq: (Region, Point), bp: (Loan, Point)| ((rq.0, bp.1, rq.1), bp.0)
}

/// `((r, p, q), _)` becomes `((r, p), q)`.
pub open spec fn origin() -> spec_fn(((Region, Point, Point), Region)) -> ((Region, Point), Point) {
    |rpq: ((Region, Point, Point), Region)| ((rpq.0.0, rpq.0.1), rpq.0.2)
}

/// `((r1, p), q)` and `((r1, p), r2)` become `((r2, q), (r1, p))`.
pub open spec fn reach_first() -> spec_fn((Region, Point), Point, Region) -> (
    (Region, Point),
    (Region, Point),
) {
    |r1p: (Region, Point), q: Point, r2: Region| ((r2, q), r1p)
}

/// `((r2, q), (r1, p))`, with `r2` dead in `q`, becomes `((r2, p), (r1, q))`.
pub open spec fn reach_through_dead() -> spec_fn(
    (Region, Point),
    (Region, Point),
) -> ((Region, Point), (Region, Point)) {
    |r2q: (Region, Point), r1p: (Region, Point)| ((r2q.0, r1p.1), (r1p.0, r2q.1))
}

/// `((r2, p), (r1, q))` and `((r2, p), r3)` become `((r3, q), (r1, p))`.
pub open spec fn reach_next() -> spec_fn(
    (Region, Point),
    (Region, Point),
    Region,
) -> ((Region, Point), (Region, Point)) {
    |r2p: (Region, Point), r1q: (Region, Point), r3: Region| ((r3, r1q.1), (r1q.0, r2p.1))
}

/// `((r2, q), (r1, p))`, with `r2` live in `q`, becomes `((r1, p, q), r2)`.
pub open spec fn reach_live() -> spec_fn(
    (Region, Point),
    (Region, Point),
    (),
) -> ((Region, Point, Point), Region) {
    |r2q: (Region, Point), r1p: (Region, Point), _live: ()| ((r1p.0, r1p.1, r2q.1), r2q.0)
}

/// `(p, (r1, r2))` and `(p, q)` become `((r1, q), r2)`.
pub open spec fn subset_along() -> spec_fn(
    Point,
    (Region, Region),
    Point,
) -> ((Region, Point), Region) {
    |p: Point, r1r2: (Region, Region), q: Point| ((r1r2.0, q), r1r2.1)
}

/// `((r1, q), r2)`, with `r1` live in `q`, becomes `((r2, q), r1)`.
pub open spec fn subset_from_live() -> spec_fn(
    (Region, Point),
    Region,
    (),
) -> ((Region, Point), Region) {
    |r1q: (Region, Point), r2: Region, _live: ()| ((r2, r1q.1), r1q.0)
}

/// `((r2, q), r1)`, with `r2` live in `q`, becomes `(r1, r2, q)`.
pub open spec fn subset_carried() -> spec_fn(
    (Region, Point),
    Region,
    (),
) -> (Region, Region, Point) {
    |r2q: (Region, Point), r1: Region, _live: ()| (r1, r2q.0, r2q.1)
}

/// `((r2, p, q), r1)` and `((r2, p, q), r3)` become `(r1, r3, q)`.
pub open spec fn subset_dying() -> spec_fn(
    (Region, Point, Point),
    Region,
    Region,
) -> (Region, Region, Point) {
    |r2pq: (Region, Point, Point), r1: Region, r3: Region| (r1, r3, r2pq.2)
}

/// `((r1, p, q), b)` and `((r1, p, q), r2)` become `(r2, b, q)`.
pub open spec fn requires_dying() -> spec_fn(
    (Region, Point, Point),
    Loan,
    Region,
) -> (Region, Loan, Point) {
    |r1pq: (Region, Point, Point), b: Loan, r2: Region| (r2, b, r1pq.2)
}

/// `((b, p), r)`, with `b` not killed in `p`, becomes `(p, (r, b))`.
pub open spec fn requires_unkilled() -> spec_fn((Loan, Point), Region) -> (Point, (Region, Loan)) {
    |bp: (Loan, Point), r: Region| (bp.1, (r, bp.0))
}

/// `(p, (r, b))` and `(p, q)` become `((r, q), b)`.
pub open spec fn requires_along() -> spec_fn(
    Point,
    (Region, Loan),
    Point,
) -> ((Region, Point), Loan) {
    |p: Point, rb: (Region, Loan), q: Point| ((rb.0, q), rb.1)
}

/// `((r, q), b)`, with `r` live in `q`, becomes `(r, b, q)`.
pub open spec fn requires_carried() -> spec_fn((Region, Point), Loan, ()) -> (Region, Loan, Point) {
    |rq: (Region, Point), b: Loan, _live: ()| (rq.0, b, rq.1)
}

/// `((r, p), b)`, with `r` dead in `p`, stays as it is.
pub open spec fn dead_root() -> spec_fn((Region, Point), Loan) -> ((Region, Point), Loan) {
    |rp: (Region, Point), b: Loan| (rp, b)
}

/// `((r, p), b)` stays as it is.
pub open spec fn dead_first() -> spec_fn(((Region, Point), Loan)) -> ((Region, Point), Loan) {
    |rpb: ((Region, Point), Loan)| rpb
}

/// `((r1, p), b)` and `((r1, p), r2)` become `((r2, p), b)`.
pub open spec fn dead_reached() -> spec_fn(
    (Region, Point),
    Loan,
    Region,
) -> ((Region, Point), Loan) {
    |r1p: (Region, Point), b: Loan, r2: Region| ((r2, r1p.1), b)
}

/// `((r2, p), b)`, with `r2` dead in `p`, stays as it is.
pub open spec fn dead_next() -> spec_fn((Region, Point), Loan) -> ((Region, Point), Loan) {
    |r2p: (Region, Point), b: Loan| (r2p, b)
}

/// `((r, p), b)`, with `r` live in `p`, becomes `((b, p), ())`.
pub open spec fn loan_live() -> spec_fn((Region, Point), Loan, ()) -> ((Loan, Point), ()) {
    |rp: (Region, Point), b: Loan, _live: ()| ((b, rp.1), ())
}

/// `(b, p)`, invalidated and live, is an error.
pub open spec fn error() -> spec_fn((Loan, Point), (), ()) -> (Loan, Point) {
    |bp: (Loan, Point), _invalid: (), _live: ()| (bp.0, bp.1)
}

impl State {
    /// Without the recent tuples of `subset` that relate a region to itself.
    pub open spec fn without_reflexive(self) -> State {
        State {
            recent: Sheet { subset: self.recent.subset.difference(reflexive()), ..self.recent },
            ..self
        }
    }

    /// One step of the iteration later.
    pub open spec fn advanced(self) -> State {
        let stable = self.stable.union(self.recent);
        State {
            stable,
            recent: Sheet {
                cfg_edge: self.pending.cfg_edge.difference(stable.cfg_edge),
                invalidates: self.pending.invalidates.difference(stable.invalidates),
                region_live_at: self.pending.region_live_at.difference(stable.region_live_at),
                borrow_region_rp: self.pending.borrow_region_rp.difference(stable.borrow_region_rp),
                subset: self.pending.subset.difference(stable.subset),
                subset_1: self.pending.subset_1,
                subset_2: self.pending.subset_2,
                subset_r1p: self.pending.subset_r1p,
                subset_p: self.pending.subset_p,
                region_requires: self.pending.region_requires.difference(stable.region_requires),
                region_requires_1: self.pending.region_requires_1,
                region_requires_2: self.pending.region_requires_2,
                region_requires_bp: self.pending.region_requires_bp,
                region_requires_rp: self.pending.region_requires_rp,
                borrow_live_at: self.pending.borrow_live_at.difference(stable.borrow_live_at),
                live_to_dying_regions_r2pq: self.pending.live_to_dying_regions_r2pq.difference(
                    stable.live_to_dying_regions_r2pq,
                ),
                live_to_dying_regions_1: self.pending.live_to_dying_regions_1,
                live_to_dying_regions_2: self.pending.live_to_dying_regions_2,
                dying_region_requires: self.pending.dying_region_requires.difference(
                    stable.dying_region_requires,
                ),
                dying_region_requires_1: self.pending.dying_region_requires_1,
                dying_region_requires_2: self.pending.dying_region_requires_2,
                dying_can_reach_origins: self.pending.dying_can_reach_origins.difference(
                    stable.dying_can_reach_origins,
                ),
                dying_can_reach_r2q: self.pending.dying_can_reach_r2q.difference(
                    stable.dying_can_reach_r2q,
                ),
                dying_can_reach_1: self.pending.dying_can_reach_1,
                dying_can_reach_live: self.pending.dying_can_reach_live.difference(
                    stable.dying_can_reach_live,
                ),
                dead_borrow_region_can_reach_root:
                    self.pending.dead_borrow_region_can_reach_root.difference(
                        stable.dead_borrow_region_can_reach_root,
                    ),
                dead_borrow_region_can_reach_dead:
                    self.pending.dead_borrow_region_can_reach_dead.difference(
                        stable.dead_borrow_region_can_reach_dead,
                    ),
                dead_borrow_region_can_reach_dead_1:
                    self.pending.dead_borrow_region_can_reach_dead_1,
                errors: self.pending.errors.difference(stable.errors),
            },
            pending: Sheet::empty(),
        }
    }

    /// The indices by which the rules find `subset` and `region_requires`.
    pub open spec fn with_indices(self) -> State {
        State {
            pending: Sheet {
                subset_r1p: self.pending.subset_r1p.union(
                    map_rows(self.recent.subset, by_region_and_point()),
                ),
                subset_p: self.pending.subset_p.union(
                    map_rows(self.recent.subset, by_point()),
                ),
                region_requires_bp: self.pending.region_requires_bp.union(
                    map_rows(self.recent.region_requires, required_by_loan()),
                ),
                region_requires_rp: self.pending.region_requires_rp.union(
                    map_rows(self.recent.region_requires, required_by_region()),
                ),
                ..self.pending
            },
            ..self
        }
    }

    /// `live_to_dying_regions(r1, r2, p, q) :- subset(r1, r2, p), cfg_edge(p, q), live(r1, q),
    /// !live(r2, q).`
    pub open spec fn with_live_to_dying_regions(self, live: Set<(Region, Point)>) -> State {
        State {
            pending: Sheet {
                live_to_dying_regions_1: self.pending.live_to_dying_regions_1.union(
                    join_rows(
                        self.stable.subset_p,
                        self.recent.subset_p,
                        self.stable.cfg_edge,
                        self.recent.cfg_edge,
                        live_to_dying_along(),
                    ),
                ),
                live_to_dying_regions_2: self.pending.live_to_dying_regions_2.union(
                    join_rows(
                        self.stable.live_to_dying_regions_1,
                        self.recent.live_to_dying_regions_1,
                        self.stable.region_live_at,
                        self.recent.region_live_at,
                        live_to_dying_from_live(),
                    ),
                ),
                live_to_dying_regions_r2pq: self.pending.live_to_dying_regions_r2pq.union(
                    antijoin_rows(self.recent.live_to_dying_regions_2, live, live_to_dying()),
                ),
                ..self.pending
            },
            ..self
        }
    }

    /// `dying_region_requires(r, p, q, b) :- region_requires(r, b, p), !killed(b, p),
    /// cfg_edge(p, q), !live(r, q).`
    pub open spec fn with_dying_region_requires(
        self,
        live: Set<(Region, Point)>,
        killed: Set<(Loan, Point)>,
    ) -> State {
        State {
            pending: Sheet {
                dying_region_requires_1: self.pending.dying_region_requires_1.union(
                    antijoin_rows(
                        self.recent.region_requires_bp,
                        killed,
                        dying_requires_unkilled(),
                    ),
                ),
                dying_region_requires_2: self.pending.dying_region_requires_2.union(
                    join_rows(
                        self.stable.dying_region_requires_1,
                        self.recent.dying_region_requires_1,
                        self.stable.cfg_edge,
                        self.recent.cfg_edge,
                        dying_requires_along(),
                    ),
                ),
                dying_region_requires: self.pending.dying_region_requires.union(
                    antijoin_rows(self.recent.dying_region_requires_2, live, dying_requires()),
                ),
                ..self.pending
            },
            ..self
        }
    }

    /// `dying_can_reach_origins(r, p, q) :- live_to_dying_regions(_, r, p, q).`
    ///
    /// `dying_can_reach_origins(r, p, q) :- dying_region_requires(r, p, q, _).`
    pub open spec fn with_dying_can_reach_origins(self) -> State {
        State {
            pending: Sheet {
                dying_can_reach_origins: self.pending.dying_can_reach_origins.union(
                    map_rows(self.recent.live_to_dying_regions_r2pq, origin()),
                ).union(
                    map_rows(self.recent.dying_region_requires, origin()),
                ),
                ..self.pending
            },
            ..self
        }
    }

    /// `dying_can_reach(r1, r2, p, q) :- dying_can_reach_origins(r1, p, q), subset(r1, r2, p).`
    ///
    /// `dying_can_reach(r1, r3, p, q) :- dying_can_reach(r1, r2, p, q), !live(r2, q),
    /// subset(r2, r3, p).`
    ///
    /// `dying_can_reach_live(r1, r2, p, q) :- dying_can_reach(r1, r2, p, q), live(r2, q).`
    pub open spec fn with_dying_can_reach(self, live: Set<(Region, Point)>) -> State {
        State {
            pending: Sheet {
                dying_can_reach_r2q: self.pending.dying_can_reach_r2q.union(
                    join_rows(
                        self.stable.dying_can_reach_origins,
                        self.recent.dying_can_reach_origins,
                        self.stable.subset_r1p,
                        self.recent.subset_r1p,
                        reach_first(),
                    ),
                ).union(
                    join_rows(
                        self.stable.dying_can_reach_1,
                        self.recent.dying_can_reach_1,
                        self.stable.subset_r1p,
                        self.recent.subset_r1p,
                        reach_next(),
                    ),
                ),
                dying_can_reach_1: self.pending.dying_can_reach_1.union(
                    antijoin_rows(self.recent.dying_can_reach_r2q, live, reach_through_dead()),
                ),
                dying_can_reach_live: self.pending.dying_can_reach_live.union(
                    join_rows(
                        self.stable.dying_can_reach_r2q,
                        self.recent.dying_can_reach_r2q,
                        self.stable.region_live_at,
                        self.recent.region_live_at,
                        reach_live(),
                    ),
                ),
                ..self.pending
            },
            ..self
        }
    }

    /// `subset(r1, r2, q) :- subset(r1, r2, p), cfg_edge(p, q), live(r1, q), live(r2, q).`
    ///
    /// `subset(r1, r3, q) :- live_to_dying_regions(r1, r2, p, q),
    /// dying_can_reach_live(r2, r3, p, q).`
    pub open spec fn with_subset(self) -> State {
        State {
            pending: Sheet {
                subset_1: self.pending.subset_1.union(
                    join_rows(
                        self.stable.subset_p,
                        self.recent.subset_p,
                        self.stable.cfg_edge,
                        self.recent.cfg_edge,
                        subset_along(),
                    ),
                ),
                subset_2: self.pending.subset_2.union(
                    join_rows(
                        self.stable.subset_1,
                        self.recent.subset_1,
                        self.stable.region_live_at,
                        self.recent.region_live_at,
                        subset_from_live(),
                    ),
                ),
                subset: self.pending.subset.union(
                    join_rows(
                        self.stable.subset_2,
                        self.recent.subset_2,
                        self.stable.region_live_at,
                        self.recent.region_live_at,
                        subset_carried(),
                    ),
                ).union(
                    join_rows(
                        self.stable.live_to_dying_regions_r2pq,
                        self.recent.live_to_dying_regions_r2pq,
                        self.stable.dying_can_reach_live,
                        self.recent.dying_can_reach_live,
                        subset_dying(),
                    ),
                ),
                ..self.pending
            },
            ..self
        }
    }

    /// `region_requires(r2, b, q) :- dying_region_requires(r1, p, q, b),
    /// dying_can_reach_live(r1, r2, p, q).`
    ///
    /// `region_requires(r, b, q) :- region_requires(r, b, p), !killed(b, p), cfg_edge(p, q),
    /// live(r, q).`
    pub open spec fn with_region_requires(self, killed: Set<(Loan, Point)>) -> State {
        State {
            pending: Sheet {
                region_requires: self.pending.region_requires.union(
                    join_rows(
                        self.stable.dying_region_requires,
                        self.recent.dying_region_requires,
                        self.stable.dying_can_reach_live,
                        self.recent.dying_can_reach_live,
                        requires_dying(),
                    ),
                ).union(
                    join_rows(
                        self.stable.region_requires_2,
                        self.recent.region_requires_2,
                        self.stable.region_live_at,
                        self.recent.region_live_at,
                        requires_carried(),
                    ),
                ),
                region_requires_1: self.pending.region_requires_1.union(
                    antijoin_rows(self.recent.region_requires_bp, killed, requires_unkilled()),
                ),
                region_requires_2: self.pending.region_requires_2.union(
                    join_rows(
                        self.stable.region_requires_1,
                        self.recent.region_requires_1,
                        self.stable.cfg_edge,
                        self.recent.cfg_edge,
                        requires_along(),
                    ),
                ),
                ..self.pending
            },
            ..self
        }
    }

    /// `dead_borrow_region_can_reach_root(r, p, b) :- borrow_region(r, b, p), !live(r, p).`
    ///
    /// `dead_borrow_region_can_reach_dead(r, p, b) :-
    /// dead_borrow_region_can_reach_root(r, p, b).`
    ///
    /// `dead_borrow_region_can_reach_dead(r2, p, b) :-
    /// dead_borrow_region_can_reach_dead(r1, p, b), subset(r1, r2, p), !live(r2, p).`
    pub open spec fn with_dead_borrow_region_can_reach(self, live: Set<(Region, Point)>) -> State {
        State {
            pending: Sheet {
                dead_borrow_region_can_reach_root:
                    self.pending.dead_borrow_region_can_reach_root.union(
                    antijoin_rows(self.recent.borrow_region_rp, live, dead_root()),
                ),
                dead_borrow_region_can_reach_dead:
                    self.pending.dead_borrow_region_can_reach_dead.union(
                    map_rows(self.recent.dead_borrow_region_can_reach_root, dead_first()),
                ).union(
                    antijoin_rows(
                        self.recent.dead_borrow_region_can_reach_dead_1,
                        live,
                        dead_next(),
                    ),
                ),
                dead_borrow_region_can_reach_dead_1:
                    self.pending.dead_borrow_region_can_reach_dead_1.union(
                    join_rows(
                        self.stable.dead_borrow_region_can_reach_dead,
                        self.recent.dead_borrow_region_can_reach_dead,
                        self.stable.subset_r1p,
                        self.recent.subset_r1p,
                        dead_reached(),
                    ),
                ),
                ..self.pending
            },
            ..self
        }
    }

    /// `borrow_live_at(b, p) :- region_requires(r, b, p), live(r, p).`
    ///
    /// `borrow_live_at(b, p) :- dead_borrow_region_can_reach_dead(r1, p, b), subset(r1, r2, p),
    /// live(r2, p).`
    pub open spec fn with_borrow_live_at(self) -> State {
        State {
            pending: Sheet {
                borrow_live_at: self.pending.borrow_live_at.union(
                    join_rows(
                        self.stable.region_requires_rp,
                        self.recent.region_requires_rp,
                        self.stable.region_live_at,
                        self.recent.region_live_at,
                        loan_live(),
                    ),
                ).union(
                    join_rows(
                        self.stable.dead_borrow_region_can_reach_dead_1,
                        self.recent.dead_borrow_region_can_reach_dead_1,
                        self.stable.region_live_at,
                        self.recent.region_live_at,
                        loan_live(),
                    ),
                ),
                ..self.pending
            },
            ..self
        }
    }

    /// `errors(b, p) :- invalidates(p, b), borrow_live_at(b, p).`
    pub open spec fn with_errors(self) -> State {
        State {
            pending: Sheet {
                errors: self.pending.errors.union(
                    join_rows(
                        self.stable.invalidates,
                        self.recent.invalidates,
                        self.stable.borrow_live_at,
                        self.recent.borrow_live_at,
                        error(),
                    ),
                ),
                ..self.pending
            },
            ..self
        }
    }

    /// After every rule has been applied once.
    pub open spec fn with_rules(
        self,
        live: Set<(Region, Point)>,
        killed: Set<(Loan, Point)>,
    ) -> State {
        self
            .with_indices()
            .with_live_to_dying_regions(live)
            .with_dying_region_requires(live, killed)
            .with_dying_can_reach_origins()
            .with_dying_can_reach(live)
            .with_subset()
            .with_region_requires(killed)
            .with_dead_borrow_region_can_reach(live)
            .with_borrow_live_at()
            .with_errors()
    }
}

/// Every two tuples of `left` and `right` with one key have led to a tuple of `output`.
pub open spec fn join_closed<K, A, B, T>(
    left: Set<(K, A)>,
    right: Set<(K, B)>,
    output: Set<T>,
    f: spec_fn(K, A, B) -> T,
) -> bool {
    forall|k: K, a: A, b: B|
        #![trigger left.contains((k, a)), right.contains((k, b))]
        left.contains((k, a)) && right.contains((k, b)) ==> output.contains(f(k, a, b))
}

/// Every tuple of `input` whose key is not excluded has led to a tuple of `output`.
pub open spec fn antijoin_closed<K, A, T>(
    input: Set<(K, A)>,
    excluded: Set<K>,
    output: Set<T>,
    f: spec_fn(K, A) -> T,
) -> bool {
    forall|k: K, a: A| #[trigger]
        input.contains((k, a)) && !excluded.contains(k) ==> output.contains(f(k, a))
}

/// Every tuple of `input` has led to a tuple of `output`.
pub open spec fn map_closed<S, T>(input: Set<S>, output: Set<T>, f: spec_fn(S) -> T) -> bool {
    forall|s: S| #[trigger] input.contains(s) ==> output.contains(f(s))
}

/// Every rule, applied to the tuples of `input`, has led to tuples of `output`.
pub open spec fn plan_closed(
    input: Sheet,
    output: Sheet,
    live: Set<(Region, Point)>,
    killed: Set<(Loan, Point)>,
) -> bool {
    &&& map_closed(input.subset, output.subset_r1p, by_region_and_point())
    &&& map_closed(input.subset, output.subset_p, by_point())
    &&& map_closed(input.region_requires, output.region_requires_bp, required_by_loan())
    &&& map_closed(input.region_requires, output.region_requires_rp, required_by_region())
    &&& join_closed(
        input.subset_p,
        input.cfg_edge,
        output.live_to_dying_regions_1,
        live_to_dying_along(),
    )
    &&& join_closed(
        input.live_to_dying_regions_1,
        input.region_live_at,
        output.live_to_dying_regions_2,
        live_to_dying_from_live(),
    )
    &&& antijoin_closed(
        input.live_to_dying_regions_2,
        live,
        output.live_to_dying_regions_r2pq,
        live_to_dying(),
    )
    &&& antijoin_closed(
        input.region_requires_bp,
        killed,
        output.dying_region_requires_1,
        dying_requires_unkilled(),
    )
    &&& join_closed(
        input.dying_region_requires_1,
        input.cfg_edge,
        output.dying_region_requires_2,
        dying_requires_along(),
    )
    &&& antijoin_closed(
        input.dying_region_requires_2,
        live,
        output.dying_region_requires,
        dying_requires(),
    )
    &&& map_closed(input.live_to_dying_regions_r2pq, output.dying_can_reach_origins, origin())
    &&& map_closed(input.dying_region_requires, output.dying_can_reach_origins, origin())
    &&& join_closed(
        input.dying_can_reach_origins,
        input.subset_r1p,
        output.dying_can_reach_r2q,
        reach_first(),
    )
    &&& antijoin_closed(
        input.dying_can_reach_r2q,
        live,
        output.dying_can_reach_1,
        reach_through_dead(),
    )
    &&& join_closed(
        input.dying_can_reach_1,
        input.subset_r1p,
        output.dying_can_reach_r2q,
        reach_next(),
    )
    &&& join_closed(
        input.dying_can_reach_r2q,
        input.region_live_at,
        output.dying_can_reach_live,
        reach_live(),
    )
    &&& join_closed(input.subset_p, input.cfg_edge, output.subset_1, subset_along())
    &&& join_closed(input.subset_1, input.region_live_at, output.subset_2, subset_from_live())
    &&& join_closed(input.subset_2, input.region_live_at, output.subset, subset_carried())
    &&& join_closed(
        input.live_to_dying_regions_r2pq,
        input.dying_can_reach_live,
        output.subset,
        subset_dying(),
    )
    &&& join_closed(
        input.dying_region_requires,
        input.dying_can_reach_live,
        output.region_requires,
        requires_dying(),
    )
    &&& antijoin_closed(
        input.region_requires_bp,
        killed,
        output.region_requires_1,
        requires_unkilled(),
    )
    &&& join_closed(
        input.region_requires_1,
        input.cfg_edge,
        output.region_requires_2,
        requires_along(),
    )
    &&& join_closed(
        input.region_requires_2,
        input.region_live_at,
        output.region_requires,
        requires_carried(),
    )
    &&& antijoin_closed(
        input.borrow_region_rp,
        live,
        output.dead_borrow_region_can_reach_root,
        dead_root(),
    )
    &&& map_closed(
        input.dead_borrow_region_can_reach_root,
        output.dead_borrow_region_can_reach_dead,
        dead_first(),
    )
    &&& join_closed(
        input.dead_borrow_region_can_reach_dead,
        input.subset_r1p,
        output.dead_borrow_region_can_reach_dead_1,
        dead_reached(),
    )
    &&& antijoin_closed(
        input.dead_borrow_region_can_reach_dead_1,
        live,
        output.dead_borrow_region_can_reach_dead,
        dead_next(),
    )
    &&& join_closed(
        input.region_requires_rp,
        input.region_live_at,
        output.borrow_live_at,
        loan_live(),
    )
    &&& join_closed(
        input.dead_borrow_region_can_reach_dead_1,
        input.region_live_at,
        output.borrow_live_at,
        loan_live(),
    )
    &&& join_closed(input.invalidates, input.borrow_live_at, output.errors, error())
}

} // verus!
