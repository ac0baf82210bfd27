//! Other names for the same regions, loans and points.
use crate::facts::{Facts, Loan, Point, Region};
use crate::rules::{closed_under_rules, derived, derived_is_closed, derived_is_least, Model};
use vstd::prelude::*;

verus! {

/// A new name for each region, each loan and each point.
pub struct Renaming {
    pub region: spec_fn(Region) -> Region,
    pub loan: spec_fn(Loan) -> Loan,
    pub point: spec_fn(Point) -> Point,
}

/// Different atoms get different names.
pub open spec fn is_injective(rename: spec_fn(usize) -> usize) -> bool {
    forall|x: usize, y: usize| #[trigger] rename(x) == #[trigger] rename(y) ==> x == y
}

impl Renaming {
    /// Different atoms of one kind get different names.
    pub open spec fn keeps_apart(self) -> bool {
        &&& is_injective(self.region)
        &&& is_injective(self.loan)
        &&& is_injective(self.point)
    }

    /// The facts under the new names.
    pub open spec fn facts(self, f: Facts) -> Facts {
        Facts {
            borrow_region: f.borrow_region.map(
                |t: (Region, Loan, Point)| (
                    (self.region)(t.0),
                    (self.loan)(t.1),
                    (self.point)(t.2),
                ),
            ),
            universal_region: f.universal_region.map(|t: Region| (self.region)(t)),
            cfg_edge: f.cfg_edge.map(|t: (Point, Point)| ((self.point)(t.0), (self.point)(t.1))),
            killed: f.killed.map(|t: (Loan, Point)| ((self.loan)(t.0), (self.point)(t.1))),
            outlives: f.outlives.map(
                |t: (Region, Region, Point)| (
                    (self.region)(t.0),
                    (self.region)(t.1),
                    (self.point)(t.2),
                ),
            ),
            region_live_at: f.region_live_at.map(
                |t: (Region, Point)| ((self.region)(t.0), (self.point)(t.1)),
            ),
            invalidates: f.invalidates.map(
                |t: (Point, Loan)| ((self.point)(t.0), (self.loan)(t.1)),
            ),
        }
    }

    /// Pairs of a loan and a point under the new names.
    pub open spec fn loans_at(self, s: Set<(Loan, Point)>) -> Set<(Loan, Point)> {
        s.map(|t: (Loan, Point)| ((self.loan)(t.0), (self.point)(t.1)))
    }

    /// Pairs of a region and a point under the new names.
    pub open spec fn regions_at(self, s: Set<(Region, Point)>) -> Set<(Region, Point)> {
        s.map(|t: (Region, Point)| ((self.region)(t.0), (self.point)(t.1)))
    }

    /// Pairs of regions at a point under the new names.
    pub open spec fn subsets(
        self,
        s: Set<(Region, Region, Point)>,
    ) -> Set<(Region, Region, Point)> {
        s.map(
            |t: (Region, Region, Point)|
                ((self.region)(t.0), (self.region)(t.1), (self.point)(t.2)),
        )
    }

    /// Requirements under the new names.
    pub open spec fn requirements(
        self,
        s: Set<(Region, Loan, Point)>,
    ) -> Set<(Region, Loan, Point)> {
        s.map(
            |t: (Region, Loan, Point)| ((self.region)(t.0), (self.loan)(t.1), (self.point)(t.2)),
        )
    }
}

/// `x` is the new name of an atom.
pub open spec fn is_name(rename: spec_fn(usize) -> usize, x: usize) -> bool {
    exists|y: usize| #[trigger] rename(y) == x
}

/// The atom whose new name is `x`.
pub open spec fn origin(rename: spec_fn(usize) -> usize, x: usize) -> usize {
    choose|y: usize| #[trigger] rename(y) == x
}

/// An atom has one new name, and a new name one origin.
proof fn origin_is_inverse(rename: spec_fn(usize) -> usize)
    requires
        is_injective(rename),
    ensures
        forall|x: usize| origin(rename, #[trigger] rename(x)) == x,
        forall|x: usize| is_name(rename, #[trigger] rename(x)),
        forall|x: usize| #[trigger] is_name(rename, x) ==> rename(origin(rename, x)) == x,
{
    assert forall|x: usize| origin(rename, #[trigger] rename(x)) == x by {
        assert(rename(origin(rename, rename(x))) == rename(x));
    }
}

/// What a relation under the new names holds, told by the old ones.
proof fn named<T>(
    s: Set<T>,
    rename: spec_fn(T) -> T,
    back: spec_fn(T) -> T,
    is_named: spec_fn(T) -> bool,
)
    requires
        forall|t: T| #[trigger] back(rename(t)) == t && is_named(rename(t)),
        forall|t: T| #[trigger] is_named(t) ==> rename(back(t)) == t,
    ensures
        forall|t: T| #[trigger]
            s.map(rename).contains(t) <==> is_named(t) && s.contains(back(t)),
{
    assert forall|t: T| #[trigger] s.map(rename).contains(t) <==> is_named(t) && s.contains(
        back(t),
    ) by {
        if s.map(rename).contains(t) {
            let o = choose|o: T| s.contains(o) && t == rename(o);
            assert(back(rename(o)) == o);
        }
        if is_named(t) && s.contains(back(t)) {
            assert(rename(back(t)) == t);
        }
    }
}

/// The facts under the new names, told by the old ones.
spec fn facts_are_named(n: Renaming, f: Facts, g: Facts) -> bool {
    &&& forall|t: (Region, Loan, Point)| #[trigger] g.borrow_region.contains(t)
        <==> is_name(n.region, t.0)
            && is_name(n.loan, t.1)
            && is_name(n.point, t.2)
            && f.borrow_region.contains(
                (origin(n.region, t.0), origin(n.loan, t.1), origin(n.point, t.2)),
            )
    &&& forall|t: Region| #[trigger] g.universal_region.contains(t)
        <==> is_name(n.region, t) && f.universal_region.contains(origin(n.region, t))
    &&& forall|t: (Point, Point)| #[trigger] g.cfg_edge.contains(t)
        <==> is_name(n.point, t.0)
            && is_name(n.point, t.1)
            && f.cfg_edge.contains((origin(n.point, t.0), origin(n.point, t.1)))
    &&& forall|t: (Loan, Point)| #[trigger] g.killed.contains(t)
        <==> is_name(n.loan, t.0)
            && is_name(n.point, t.1)
            && f.killed.contains((origin(n.loan, t.0), origin(n.point, t.1)))
    &&& forall|t: (Region, Region, Point)| #[trigger] g.outlives.contains(t)
        <==> is_name(n.region, t.0)
            && is_name(n.region, t.1)
            && is_name(n.point, t.2)
            && f.outlives.contains(
                (origin(n.region, t.0), origin(n.region, t.1), origin(n.point, t.2)),
            )
    &&& forall|t: (Region, Point)| #[trigger] g.region_live_at.contains(t)
        <==> is_name(n.region, t.0)
            && is_name(n.point, t.1)
            && f.region_live_at.contains((origin(n.region, t.0), origin(n.point, t.1)))
    &&& forall|t: (Point, Loan)| #[trigger] g.invalidates.contains(t)
        <==> is_name(n.point, t.0)
            && is_name(n.loan, t.1)
            && f.invalidates.contains((origin(n.point, t.0), origin(n.loan, t.1)))
}

/// So the renaming tells them.
proof fn renamed_facts_are_named(n: Renaming, f: Facts)
    requires
        n.keeps_apart(),
    ensures
        facts_are_named(n, f, n.facts(f)),
{
    origin_is_inverse(n.region);
    origin_is_inverse(n.loan);
    origin_is_inverse(n.point);
    named(
        f.borrow_region,
        |t: (Region, Loan, Point)| ((n.region)(t.0), (n.loan)(t.1), (n.point)(t.2)),
        |t: (Region, Loan, Point)| (
            origin(n.region, t.0),
            origin(n.loan, t.1),
            origin(n.point, t.2),
        ),
        |t: (Region, Loan, Point)| is_name(n.region, t.0)
            && is_name(n.loan, t.1)
            && is_name(n.point, t.2),
    );
    named(
        f.universal_region,
        |t: Region| (n.region)(t),
        |t: Region| origin(n.region, t),
        |t: Region| is_name(n.region, t),
    );
    named(
        f.cfg_edge,
        |t: (Point, Point)| ((n.point)(t.0), (n.point)(t.1)),
        |t: (Point, Point)| (origin(n.point, t.0), origin(n.point, t.1)),
        |t: (Point, Point)| is_name(n.point, t.0) && is_name(n.point, t.1),
    );
    named(
        f.killed,
        |t: (Loan, Point)| ((n.loan)(t.0), (n.point)(t.1)),
        |t: (Loan, Point)| (origin(n.loan, t.0), origin(n.point, t.1)),
        |t: (Loan, Point)| is_name(n.loan, t.0) && is_name(n.point, t.1),
    );
    named(
        f.outlives,
        |t: (Region, Region, Point)| ((n.region)(t.0), (n.region)(t.1), (n.point)(t.2)),
        |t: (Region, Region, Point)| (
            origin(n.region, t.0),
            origin(n.region, t.1),
            origin(n.point, t.2),
        ),
        |t: (Region, Region, Point)| is_name(n.region, t.0)
            && is_name(n.region, t.1)
            && is_name(n.point, t.2),
    );
    named(
        f.region_live_at,
        |t: (Region, Point)| ((n.region)(t.0), (n.point)(t.1)),
        |t: (Region, Point)| (origin(n.region, t.0), origin(n.point, t.1)),
        |t: (Region, Point)| is_name(n.region, t.0) && is_name(n.point, t.1),
    );
    named(
        f.invalidates,
        |t: (Point, Loan)| ((n.point)(t.0), (n.loan)(t.1)),
        |t: (Point, Loan)| (origin(n.point, t.0), origin(n.loan, t.1)),
        |t: (Point, Loan)| is_name(n.point, t.0) && is_name(n.loan, t.1),
    );
}

/// A region is live under the new names just where it is under the old ones.
proof fn liveness_is_renamed(n: Renaming, f: Facts)
    requires
        n.keeps_apart(),
    ensures
        forall|r: Region, p: Point| #[trigger]
            n.facts(f).live(r, p) <==> is_name(n.region, r) && is_name(n.point, p) && f.live(
                origin(n.region, r),
                origin(n.point, p),
            ),
{
    let g = n.facts(f);
    renamed_facts_are_named(n, f);
    origin_is_inverse(n.region);
    origin_is_inverse(n.point);
    assert forall|p: Point| #[trigger] g.is_point(p) <==> is_name(n.point, p) && f.is_point(
        origin(n.point, p),
    ) by {
        if g.is_point(p) {
            let q = choose|q: Point|
                #![trigger g.cfg_edge.contains((p, q))]
                g.cfg_edge.contains((p, q)) || g.cfg_edge.contains((q, p));
            let (o, e) = (origin(n.point, p), origin(n.point, q));
            assert(f.cfg_edge.contains((o, e)) || f.cfg_edge.contains((e, o)));
        }
        if is_name(n.point, p) && f.is_point(origin(n.point, p)) {
            let o = origin(n.point, p);
            let e = choose|e: Point|
                #![trigger f.cfg_edge.contains((o, e))]
                f.cfg_edge.contains((o, e)) || f.cfg_edge.contains((e, o));
            let q = (n.point)(e);
            assert(g.cfg_edge.contains((p, q)) || g.cfg_edge.contains((q, p)));
        }
    }
}

/// The model under the new names.
spec fn named_model(n: Renaming, m: Model) -> Model {
    Model {
        subset: Set::new(
            |t: (Region, Region, Point)| is_name(n.region, t.0)
                && is_name(n.region, t.1)
                && is_name(n.point, t.2)
                && m.subset.contains(
                    (origin(n.region, t.0), origin(n.region, t.1), origin(n.point, t.2)),
                ),
        ),
        live_to_dying_regions: Set::new(
            |t: (Region, Region, Point, Point)| is_name(n.region, t.0)
                && is_name(n.region, t.1)
                && is_name(n.point, t.2)
                && is_name(n.point, t.3)
                && m.live_to_dying_regions.contains(
                    (
                        origin(n.region, t.0),
                        origin(n.region, t.1),
                        origin(n.point, t.2),
                        origin(n.point, t.3),
                    ),
                ),
        ),
        dying_region_requires: Set::new(
            |t: (Region, Point, Point, Loan)| is_name(n.region, t.0)
                && is_name(n.point, t.1)
                && is_name(n.point, t.2)
                && is_name(n.loan, t.3)
                && m.dying_region_requires.contains(
                    (
                        origin(n.region, t.0),
                        origin(n.point, t.1),
                        origin(n.point, t.2),
                        origin(n.loan, t.3),
                    ),
                ),
        ),
        dying_can_reach_origins: Set::new(
            |t: (Region, Point, Point)| is_name(n.region, t.0)
                && is_name(n.point, t.1)
                && is_name(n.point, t.2)
                && m.dying_can_reach_origins.contains(
                    (origin(n.region, t.0), origin(n.point, t.1), origin(n.point, t.2)),
                ),
        ),
        dying_can_reach: Set::new(
            |t: (Region, Region, Point, Point)| is_name(n.region, t.0)
                && is_name(n.region, t.1)
                && is_name(n.point, t.2)
                && is_name(n.point, t.3)
                && m.dying_can_reach.contains(
                    (
                        origin(n.region, t.0),
                        origin(n.region, t.1),
                        origin(n.point, t.2),
                        origin(n.point, t.3),
                    ),
                ),
        ),
        dying_can_reach_live: Set::new(
            |t: (Region, Region, Point, Point)| is_name(n.region, t.0)
                && is_name(n.region, t.1)
                && is_name(n.point, t.2)
                && is_name(n.point, t.3)
                && m.dying_can_reach_live.contains(
                    (
                        origin(n.region, t.0),
                        origin(n.region, t.1),
                        origin(n.point, t.2),
                        origin(n.point, t.3),
                    ),
                ),
        ),
        region_requires: Set::new(
            |t: (Region, Loan, Point)| is_name(n.region, t.0)
                && is_name(n.loan, t.1)
                && is_name(n.point, t.2)
                && m.region_requires.contains(
                    (origin(n.region, t.0), origin(n.loan, t.1), origin(n.point, t.2)),
                ),
        ),
        dead_borrow_region_can_reach_root: Set::new(
            |t: (Region, Point, Loan)| is_name(n.region, t.0)
                && is_name(n.point, t.1)
                && is_name(n.loan, t.2)
                && m.dead_borrow_region_can_reach_root.contains(
                    (origin(n.region, t.0), origin(n.point, t.1), origin(n.loan, t.2)),
                ),
        ),
        dead_borrow_region_can_reach_dead: Set::new(
            |t: (Region, Point, Loan)| is_name(n.region, t.0)
                && is_name(n.point, t.1)
                && is_name(n.loan, t.2)
                && m.dead_borrow_region_can_reach_dead.contains(
                    (origin(n.region, t.0), origin(n.point, t.1), origin(n.loan, t.2)),
                ),
        ),
        borrow_live_at: Set::new(
            |t: (Loan, Point)| is_name(n.loan, t.0)
                && is_name(n.point, t.1)
                && m.borrow_live_at.contains((origin(n.loan, t.0), origin(n.point, t.1))),
        ),
        errors: Set::new(
            |t: (Loan, Point)| is_name(n.loan, t.0)
                && is_name(n.point, t.1)
                && m.errors.contains((origin(n.loan, t.0), origin(n.point, t.1))),
        ),
    }
}

/// The model under the old names.
spec fn model_by_origin(n: Renaming, m: Model) -> Model {
    Model {
        subset: Set::new(
            |t: (Region, Region, Point)| m.subset.contains(
                ((n.region)(t.0), (n.region)(t.1), (n.point)(t.2)),
            ),
        ),
        live_to_dying_regions: Set::new(
            |t: (Region, Region, Point, Point)| m.live_to_dying_regions.contains(
                ((n.region)(t.0), (n.region)(t.1), (n.point)(t.2), (n.point)(t.3)),
            ),
        ),
        dying_region_requires: Set::new(
            |t: (Region, Point, Point, Loan)| m.dying_region_requires.contains(
                ((n.region)(t.0), (n.point)(t.1), (n.point)(t.2), (n.loan)(t.3)),
            ),
        ),
        dying_can_reach_origins: Set::new(
            |t: (Region, Point, Point)| m.dying_can_reach_origins.contains(
                ((n.region)(t.0), (n.point)(t.1), (n.point)(t.2)),
            ),
        ),
        dying_can_reach: Set::new(
            |t: (Region, Region, Point, Point)| m.dying_can_reach.contains(
                ((n.region)(t.0), (n.region)(t.1), (n.point)(t.2), (n.point)(t.3)),
            ),
        ),
        dying_can_reach_live: Set::new(
            |t: (Region, Region, Point, Point)| m.dying_can_reach_live.contains(
                ((n.region)(t.0), (n.region)(t.1), (n.point)(t.2), (n.point)(t.3)),
            ),
        ),
        region_requires: Set::new(
            |t: (Region, Loan, Point)| m.region_requires.contains(
                ((n.region)(t.0), (n.loan)(t.1), (n.point)(t.2)),
            ),
        ),
        dead_borrow_region_can_reach_root: Set::new(
            |t: (Region, Point, Loan)| m.dead_borrow_region_can_reach_root.contains(
                ((n.region)(t.0), (n.point)(t.1), (n.loan)(t.2)),
            ),
        ),
        dead_borrow_region_can_reach_dead: Set::new(
            |t: (Region, Point, Loan)| m.dead_borrow_region_can_reach_dead.contains(
                ((n.region)(t.0), (n.point)(t.1), (n.loan)(t.2)),
            ),
        ),
        borrow_live_at: Set::new(
            |t: (Loan, Point)| m.borrow_live_at.contains(((n.loan)(t.0), (n.point)(t.1))),
        ),
        errors: Set::new(|t: (Loan, Point)| m.errors.contains(((n.loan)(t.0), (n.point)(t.1)))),
    }
}

/// The renamed model is closed for the renamed facts.
proof fn named_model_is_closed(n: Renaming, f: Facts, m: Model)
    requires
        n.keeps_apart(),
        closed_under_rules(f, m),
    ensures
        closed_under_rules(n.facts(f), named_model(n, m)),
{
    renamed_facts_are_named(n, f);
    liveness_is_renamed(n, f);
}

/// A model for the renamed facts is closed under the old names too.
proof fn model_by_origin_is_closed(n: Renaming, f: Facts, m: Model)
    requires
        n.keeps_apart(),
        closed_under_rules(n.facts(f), m),
    ensures
        closed_under_rules(f, model_by_origin(n, m)),
{
    renamed_facts_are_named(n, f);
    liveness_is_renamed(n, f);
    origin_is_inverse(n.region);
    origin_is_inverse(n.loan);
    origin_is_inverse(n.point);
    let g = n.facts(f);
    assert(forall|r: Region, p: Point| #[trigger]
        f.live(r, p) <==> g.live((n.region)(r), (n.point)(p)));
    assert(forall|t: (Region, Loan, Point)| #[trigger]
        f.borrow_region.contains(t) <==> g.borrow_region.contains(
            ((n.region)(t.0), (n.loan)(t.1), (n.point)(t.2)),
        ));
    assert(forall|t: (Point, Point)| #[trigger]
        f.cfg_edge.contains(t) <==> g.cfg_edge.contains(
            ((n.point)(t.0), (n.point)(t.1)),
        ));
    assert(forall|t: (Loan, Point)| #[trigger]
        f.killed.contains(t) <==> g.killed.contains(
            ((n.loan)(t.0), (n.point)(t.1)),
        ));
    assert(forall|t: (Region, Region, Point)| #[trigger]
        f.outlives.contains(t) <==> g.outlives.contains(
            ((n.region)(t.0), (n.region)(t.1), (n.point)(t.2)),
        ));
    assert(forall|t: (Point, Loan)| #[trigger]
        f.invalidates.contains(t) <==> g.invalidates.contains(
            ((n.point)(t.0), (n.loan)(t.1)),
        ));
}

/// What the rules derive from the renamed facts is what they derive from the facts, renamed.
pub proof fn derived_is_renamed(n: Renaming, f: Facts)
    requires
        n.keeps_apart(),
    ensures
        n.facts(f).live_set() == n.regions_at(f.live_set()),
        derived(n.facts(f)).subset == n.subsets(derived(f).subset),
        derived(n.facts(f)).region_requires == n.requirements(derived(f).region_requires),
        derived(n.facts(f)).borrow_live_at == n.loans_at(derived(f).borrow_live_at),
        derived(n.facts(f)).errors == n.loans_at(derived(f).errors),
{
    let g = n.facts(f);
    let (d, e) = (derived(f), derived(g));
    derived_is_closed(f);
    derived_is_closed(g);
    named_model_is_closed(n, f, d);
    derived_is_least(g, named_model(n, d));
    model_by_origin_is_closed(n, f, e);
    derived_is_least(f, model_by_origin(n, e));
    liveness_is_renamed(n, f);
    origin_is_inverse(n.region);
    origin_is_inverse(n.loan);
    origin_is_inverse(n.point);
    named(
        f.live_set(),
        |t: (Region, Point)| ((n.region)(t.0), (n.point)(t.1)),
        |t: (Region, Point)| (origin(n.region, t.0), origin(n.point, t.1)),
        |t: (Region, Point)| is_name(n.region, t.0) && is_name(n.point, t.1),
    );
    assert(g.live_set() =~= n.regions_at(f.live_set()));
    named(
        d.subset,
        |t: (Region, Region, Point)| ((n.region)(t.0), (n.region)(t.1), (n.point)(t.2)),
        |t: (Region, Region, Point)| (
            origin(n.region, t.0),
            origin(n.region, t.1),
            origin(n.point, t.2),
        ),
        |t: (Region, Region, Point)| is_name(n.region, t.0)
            && is_name(n.region, t.1)
            && is_name(n.point, t.2),
    );
    assert forall|t: (Region, Region, Point)| #[trigger] e.subset.contains(t)
        <==> n.subsets(d.subset).contains(t) by {
        if e.subset.contains(t) {
            assert(named_model(n, d).subset.contains(t));
        }
        if n.subsets(d.subset).contains(t) {
            assert(
                d.subset.contains(
                    (origin(n.region, t.0), origin(n.region, t.1), origin(n.point, t.2)),
                )
            );
            assert(
                model_by_origin(n, e).subset.contains(
                    (origin(n.region, t.0), origin(n.region, t.1), origin(n.point, t.2)),
                )
            );
        }
    }
    assert(e.subset =~= n.subsets(d.subset));
    named(
        d.region_requires,
        |t: (Region, Loan, Point)| ((n.region)(t.0), (n.loan)(t.1), (n.point)(t.2)),
        |t: (Region, Loan, Point)| (
            origin(n.region, t.0),
            origin(n.loan, t.1),
            origin(n.point, t.2),
        ),
        |t: (Region, Loan, Point)| is_name(n.region, t.0)
            && is_name(n.loan, t.1)
            && is_name(n.point, t.2),
    );
    assert forall|t: (Region, Loan, Point)| #[trigger] e.region_requires.contains(t)
        <==> n.requirements(d.region_requires).contains(t) by {
        if e.region_requires.contains(t) {
            assert(named_model(n, d).region_requires.contains(t));
        }
        if n.requirements(d.region_requires).contains(t) {
            assert(
                d.region_requires.contains(
                    (origin(n.region, t.0), origin(n.loan, t.1), origin(n.point, t.2)),
                )
            );
            assert(
                model_by_origin(n, e).region_requires.contains(
                    (origin(n.region, t.0), origin(n.loan, t.1), origin(n.point, t.2)),
                )
            );
        }
    }
    assert(e.region_requires =~= n.requirements(d.region_requires));
    named(
        d.borrow_live_at,
        |t: (Loan, Point)| ((n.loan)(t.0), (n.point)(t.1)),
        |t: (Loan, Point)| (origin(n.loan, t.0), origin(n.point, t.1)),
        |t: (Loan, Point)| is_name(n.loan, t.0) && is_name(n.point, t.1),
    );
    assert forall|t: (Loan, Point)| #[trigger] e.borrow_live_at.contains(t)
        <==> n.loans_at(d.borrow_live_at).contains(t) by {
        if e.borrow_live_at.contains(t) {
            assert(named_model(n, d).borrow_live_at.contains(t));
        }
        if n.loans_at(d.borrow_live_at).contains(t) {
            assert(d.borrow_live_at.contains((origin(n.loan, t.0), origin(n.point, t.1))));
            assert(
                model_by_origin(n, e).borrow_live_at.contains(
                    (origin(n.loan, t.0), origin(n.point, t.1)),
                )
            );
        }
    }
    assert(e.borrow_live_at =~= n.loans_at(d.borrow_live_at));
    named(
        d.errors,
        |t: (Loan, Point)| ((n.loan)(t.0), (n.point)(t.1)),
        |t: (Loan, Point)| (origin(n.loan, t.0), origin(n.point, t.1)),
        |t: (Loan, Point)| is_name(n.loan, t.0) && is_name(n.point, t.1),
    );
    assert forall|t: (Loan, Point)| #[trigger] e.errors.contains(t)
        <==> n.loans_at(d.errors).contains(t) by {
        if e.errors.contains(t) {
            assert(named_model(n, d).errors.contains(t));
        }
        if n.loans_at(d.errors).contains(t) {
            assert(d.errors.contains((origin(n.loan, t.0), origin(n.point, t.1))));
            assert(
                model_by_origin(n, e).errors.contains((origin(n.loan, t.0), origin(n.point, t.1)))
            );
        }
    }
    assert(e.errors =~= n.loans_at(d.errors));
}

} // verus!
