//! The analysis in its plain form: `subset` is transitive at every point, and regions require
//! what their subsets require. The rules derive less than that, and lose nothing by it.
use crate::facts::{Facts, Loan, Point, Region};
use crate::rules::{
    closed_under_rules, consequences, derived, derived_is_closed, derived_is_fixpoint,
    derived_is_least, rule_dead_first, rule_dead_next, rule_dead_root, rule_dying_requires,
    rule_live_reached, rule_live_required, rule_live_to_dying, rule_origins_dying_requires,
    rule_origins_live_to_dying, rule_reach_first, rule_reach_live, rule_reach_next,
    rule_requires_carried, rule_requires_dying, rule_subset_carried, rule_subset_dying, Model,
};
use vstd::prelude::*;

verus! {

/// `s` holds the `outlives` facts, is transitive at each point, and is carried over an edge
/// where both regions are live at its end.
pub open spec fn closed_as_plain_subset(f: Facts, s: Set<(Region, Region, Point)>) -> bool {
    &&& forall|r1: Region, r2: Region, p: Point| #[trigger]
        f.outlives.contains((r1, r2, p)) ==> s.contains((r1, r2, p))
    &&& forall|r1: Region, r2: Region, r3: Region, p: Point| #[trigger]
        s.contains((r1, r2, p)) && #[trigger] s.contains((r2, r3, p)) ==> s.contains((r1, r3, p))
    &&& forall|r1: Region, r2: Region, p: Point, q: Point| #[trigger]
        s.contains((r1, r2, p)) && #[trigger] f.cfg_edge.contains((p, q)) && f.live(r1, q)
            && f.live(r2, q) ==> s.contains((r1, r2, q))
}

/// `(r1, r2, p)`: at the point `p`, `r1 <= r2`, in the plain analysis. This is the least
/// relation that is closed in this way.
pub open spec fn plain_subset(f: Facts) -> Set<(Region, Region, Point)> {
    Set::new(
        |t: (Region, Region, Point)|
            forall|s: Set<(Region, Region, Point)>| #[trigger]
                closed_as_plain_subset(f, s) ==> s.contains(t),
    )
}

/// `s` holds the `borrow_region` facts, is closed under `plain_subset`, and is carried over an
/// edge where the loan is not killed at its start and the region is live at its end.
pub open spec fn closed_as_plain_requires(f: Facts, s: Set<(Region, Loan, Point)>) -> bool {
    &&& forall|r: Region, b: Loan, p: Point| #[trigger]
        f.borrow_region.contains((r, b, p)) ==> s.contains((r, b, p))
    &&& forall|r1: Region, r2: Region, b: Loan, p: Point| #[trigger]
        s.contains((r1, b, p)) && #[trigger] plain_subset(f).contains((r1, r2, p)) ==> s.contains(
            (r2, b, p),
        )
    &&& forall|r: Region, b: Loan, p: Point, q: Point| #[trigger]
        s.contains((r, b, p)) && #[trigger] f.cfg_edge.contains((p, q)) && !f.killed.contains(
            (b, p),
        ) && f.live(r, q) ==> s.contains((r, b, q))
}

/// `(r, b, p)`: at the point `p`, what has the region `r` may depend on the loan `b`, in the
/// plain analysis. This is the least relation that is closed in this way.
pub open spec fn plain_requires(f: Facts) -> Set<(Region, Loan, Point)> {
    Set::new(
        |t: (Region, Loan, Point)|
            forall|s: Set<(Region, Loan, Point)>| #[trigger]
                closed_as_plain_requires(f, s) ==> s.contains(t),
    )
}

/// `plain_subset` is itself closed.
pub proof fn plain_subset_is_closed(f: Facts)
    ensures
        closed_as_plain_subset(f, plain_subset(f)),
{
    let d = plain_subset(f);
    assert forall|r1: Region, r2: Region, p: Point| #[trigger]
        f.outlives.contains((r1, r2, p)) implies d.contains((r1, r2, p)) by {
        assert forall|s: Set<(Region, Region, Point)>| #[trigger]
            closed_as_plain_subset(f, s) implies s.contains((r1, r2, p)) by {}
    }
    assert forall|r1: Region, r2: Region, r3: Region, p: Point| #[trigger]
        d.contains((r1, r2, p)) && #[trigger] d.contains((r2, r3, p)) implies d.contains(
        (r1, r3, p),
    ) by {
        assert forall|s: Set<(Region, Region, Point)>| #[trigger]
            closed_as_plain_subset(f, s) implies s.contains((r1, r3, p)) by {
            assert(s.contains((r1, r2, p)) && s.contains((r2, r3, p)));
        }
    }
    assert forall|r1: Region, r2: Region, p: Point, q: Point| #[trigger]
        d.contains((r1, r2, p)) && #[trigger] f.cfg_edge.contains((p, q)) && f.live(r1, q)
            && f.live(r2, q) implies d.contains((r1, r2, q)) by {
        assert forall|s: Set<(Region, Region, Point)>| #[trigger]
            closed_as_plain_subset(f, s) implies s.contains((r1, r2, q)) by {
            assert(s.contains((r1, r2, p)));
        }
    }
}

/// `plain_requires` is itself closed.
pub proof fn plain_requires_is_closed(f: Facts)
    ensures
        closed_as_plain_requires(f, plain_requires(f)),
{
    let d = plain_requires(f);
    assert forall|r: Region, b: Loan, p: Point| #[trigger]
        f.borrow_region.contains((r, b, p)) implies d.contains((r, b, p)) by {
        assert forall|s: Set<(Region, Loan, Point)>| #[trigger]
            closed_as_plain_requires(f, s) implies s.contains((r, b, p)) by {}
    }
    assert forall|r1: Region, r2: Region, b: Loan, p: Point| #[trigger]
        d.contains((r1, b, p)) && #[trigger] plain_subset(f).contains(
            (r1, r2, p),
        ) implies d.contains((r2, b, p)) by {
        assert forall|s: Set<(Region, Loan, Point)>| #[trigger]
            closed_as_plain_requires(f, s) implies s.contains((r2, b, p)) by {
            assert(s.contains((r1, b, p)));
        }
    }
    assert forall|r: Region, b: Loan, p: Point, q: Point| #[trigger]
        d.contains((r, b, p)) && #[trigger] f.cfg_edge.contains((p, q)) && !f.killed.contains(
            (b, p),
        ) && f.live(r, q) implies d.contains((r, b, q)) by {
        assert forall|s: Set<(Region, Loan, Point)>| #[trigger]
            closed_as_plain_requires(f, s) implies s.contains((r, b, q)) by {
            assert(s.contains((r, b, p)));
        }
    }
}

/// `n` steps of `subset` lead from `r1` to `r2` in `p`.
pub open spec fn chain(m: Model, r1: Region, r2: Region, p: Point, n: nat) -> bool
    decreases n,
{
    if n == 0 {
        r1 == r2
    } else {
        exists|r: Region| #[trigger]
            m.subset.contains((r1, r, p)) && chain(m, r, r2, p, (n - 1) as nat)
    }
}

/// One or more steps of `subset` lead from `r1` to `r2` in `p`.
pub open spec fn leads(m: Model, r1: Region, r2: Region, p: Point) -> bool {
    exists|n: nat| n > 0 && #[trigger] chain(m, r1, r2, p, n)
}

/// A step of `subset` in front of a chain.
proof fn step_leads(m: Model, r1: Region, r: Region, r2: Region, p: Point)
    requires
        m.subset.contains((r1, r, p)),
        r == r2 || leads(m, r, r2, p),
    ensures
        leads(m, r1, r2, p),
{
    let n: nat = if r == r2 {
        0
    } else {
        choose|n: nat| n > 0 && #[trigger] chain(m, r, r2, p, n)
    };
    assert(chain(m, r, r2, p, n));
    assert(chain(m, r1, r2, p, n + 1));
}

/// A chain in front of another.
proof fn chain_leads(m: Model, r1: Region, r2: Region, r3: Region, p: Point, n: nat)
    requires
        chain(m, r1, r2, p, n),
        leads(m, r2, r3, p),
    ensures
        leads(m, r1, r3, p),
    decreases n,
{
    if n > 0 {
        let r = choose|r: Region| #[trigger]
            m.subset.contains((r1, r, p)) && chain(m, r, r2, p, (n - 1) as nat);
        chain_leads(m, r, r2, r3, p, (n - 1) as nat);
        step_leads(m, r1, r, r3, p);
    }
}

/// Leading is transitive.
proof fn leads_on(m: Model, r1: Region, r2: Region, r3: Region, p: Point)
    requires
        leads(m, r1, r2, p),
        leads(m, r2, r3, p),
    ensures
        leads(m, r1, r3, p),
{
    let n = choose|n: nat| n > 0 && #[trigger] chain(m, r1, r2, p, n);
    chain_leads(m, r1, r2, r3, p, n);
}

/// `r1` reaches, along the edge, a region that is live at its end and leads on to `r2` there.
spec fn reaches_live_before(
    m: Model,
    r1: Region,
    r2: Region,
    p: Point,
    q: Point,
) -> bool {
    exists|r: Region| #[trigger]
        m.dying_can_reach_live.contains((r1, r, p, q)) && (r == r2 || leads(m, r, r2, q))
}

/// A chain between regions that are live at the end of an edge leads on there.
proof fn chain_is_carried(f: Facts, r1: Region, r2: Region, p: Point, q: Point, n: nat)
    requires
        chain(derived(f), r1, r2, p, n),
        f.cfg_edge.contains((p, q)),
        f.live(r1, q),
        f.live(r2, q),
        n > 0,
    ensures
        leads(derived(f), r1, r2, q),
    decreases n, 1nat,
{
    let d = derived(f);
    derived_is_closed(f);
    let rest = (n - 1) as nat;
    let r = choose|r: Region| #[trigger] d.subset.contains((r1, r, p)) && chain(d, r, r2, p, rest);
    if f.live(r, q) {
        if rest > 0 {
            chain_is_carried(f, r, r2, p, q, rest);
        }
        assert(rule_subset_carried(f, d));
        step_leads(d, r1, r, r2, q);
    } else {
        assert(rule_live_to_dying(f, d));
        assert(d.live_to_dying_regions.contains((r1, r, p, q)));
        assert(rule_origins_live_to_dying(f, d));
        chain_of_dying_is_carried(f, r, r, r2, p, q, rest);
        let live = choose|live: Region| #[trigger]
            d.dying_can_reach_live.contains((r, live, p, q)) && (live == r2 || leads(
                d,
                live,
                r2,
                q,
            ));
        assert(rule_subset_dying(f, d));
        step_leads(d, r1, live, r2, q);
    }
}

/// So does a chain from a region that dies, from the first region on it that is live.
proof fn chain_of_dying_is_carried(
    f: Facts,
    origin: Region,
    r1: Region,
    r2: Region,
    p: Point,
    q: Point,
    n: nat,
)
    requires
        derived(f).dying_can_reach_origins.contains((origin, p, q)),
        r1 == origin || derived(f).dying_can_reach.contains((origin, r1, p, q)),
        chain(derived(f), r1, r2, p, n),
        f.cfg_edge.contains((p, q)),
        !f.live(r1, q),
        f.live(r2, q),
    ensures
        reaches_live_before(derived(f), origin, r2, p, q),
    decreases n, 0nat,
{
    let d = derived(f);
    derived_is_closed(f);
    let rest = (n - 1) as nat;
    let r = choose|r: Region| #[trigger] d.subset.contains((r1, r, p)) && chain(d, r, r2, p, rest);
    assert(d.dying_can_reach.contains((origin, r, p, q))) by {
        assert(rule_reach_first(f, d));
        assert(rule_reach_next(f, d));
    }
    if f.live(r, q) {
        if rest > 0 {
            chain_is_carried(f, r, r2, p, q, rest);
        }
        assert(rule_reach_live(f, d));
        assert(d.dying_can_reach_live.contains((origin, r, p, q)));
    } else {
        chain_of_dying_is_carried(f, origin, r, r2, p, q, rest);
    }
}

/// `plain_subset` is what the steps of the derived `subset` lead to.
pub proof fn plain_subset_is_led_to(f: Facts, r1: Region, r2: Region, p: Point)
    ensures
        plain_subset(f).contains((r1, r2, p)) <==> leads(derived(f), r1, r2, p),
{
    let d = derived(f);
    let led = Set::new(|t: (Region, Region, Point)| leads(d, t.0, t.1, t.2));
    derived_is_closed(f);
    assert forall|r1: Region, r2: Region, p: Point| #[trigger]
        f.outlives.contains((r1, r2, p)) implies led.contains((r1, r2, p)) by {
        step_leads(d, r1, r2, r2, p);
    }
    assert forall|r1: Region, r2: Region, r3: Region, p: Point| #[trigger]
        led.contains((r1, r2, p)) && #[trigger] led.contains((r2, r3, p)) implies led.contains(
        (r1, r3, p),
    ) by {
        leads_on(d, r1, r2, r3, p);
    }
    assert forall|r1: Region, r2: Region, p: Point, q: Point| #[trigger]
        led.contains((r1, r2, p)) && #[trigger] f.cfg_edge.contains((p, q)) && f.live(r1, q)
            && f.live(r2, q) implies led.contains((r1, r2, q)) by {
        let n = choose|n: nat| n > 0 && #[trigger] chain(d, r1, r2, p, n);
        chain_is_carried(f, r1, r2, p, q, n);
    }
    assert(closed_as_plain_subset(f, led));
    if plain_subset(f).contains((r1, r2, p)) {
        assert(led.contains((r1, r2, p)));
    }
    if leads(d, r1, r2, p) {
        let n = choose|n: nat| n > 0 && #[trigger] chain(d, r1, r2, p, n);
        derived_is_within_plain(f);
        chain_is_plain(f, r1, r2, p, n);
    }
}

/// A chain of derived `subset` steps is in `plain_subset`.
proof fn chain_is_plain(f: Facts, r1: Region, r2: Region, p: Point, n: nat)
    requires
        derived(f).subset.subset_of(plain_subset(f)),
        chain(derived(f), r1, r2, p, n),
        n > 0,
    ensures
        plain_subset(f).contains((r1, r2, p)),
    decreases n,
{
    let d = derived(f);
    let rest = (n - 1) as nat;
    let r = choose|r: Region| #[trigger] d.subset.contains((r1, r, p)) && chain(d, r, r2, p, rest);
    assert(plain_subset(f).contains((r1, r, p)));
    if rest > 0 {
        chain_is_plain(f, r, r2, p, rest);
        plain_subset_is_closed(f);
    }
}

/// In `p`, a live region requires the loan, in the plain analysis.
pub open spec fn plainly_live(f: Facts, b: Loan, p: Point) -> bool {
    exists|r: Region| #[trigger] plain_requires(f).contains((r, b, p)) && f.live(r, p)
}

/// The rules derive nothing that the plain analysis lacks.
proof fn derived_is_within_plain(f: Facts)
    ensures
        derived(f).subset.subset_of(plain_subset(f)),
        derived(f).region_requires.subset_of(plain_requires(f)),
        forall|b: Loan, p: Point| #[trigger]
            derived(f).borrow_live_at.contains((b, p)) ==> plainly_live(f, b, p),
{
    let subset = plain_subset(f);
    let needed = plain_requires(f);
    plain_subset_is_closed(f);
    plain_requires_is_closed(f);
    let m = Model {
        subset,
        live_to_dying_regions: Set::new(
            |t: (Region, Region, Point, Point)|
                subset.contains((t.0, t.1, t.2)) && f.cfg_edge.contains((t.2, t.3)) && f.live(
                    t.0,
                    t.3,
                ),
        ),
        dying_region_requires: Set::new(
            |t: (Region, Point, Point, Loan)|
                needed.contains((t.0, t.3, t.1)) && !f.killed.contains((t.3, t.1))
                    && f.cfg_edge.contains((t.1, t.2)),
        ),
        dying_can_reach_origins: Set::full(),
        dying_can_reach: Set::new(
            |t: (Region, Region, Point, Point)| subset.contains((t.0, t.1, t.2)),
        ),
        dying_can_reach_live: Set::new(
            |t: (Region, Region, Point, Point)|
                subset.contains((t.0, t.1, t.2)) && f.live(t.1, t.3),
        ),
        region_requires: needed,
        dead_borrow_region_can_reach_root: Set::new(
            |t: (Region, Point, Loan)| needed.contains((t.0, t.2, t.1)),
        ),
        dead_borrow_region_can_reach_dead: Set::new(
            |t: (Region, Point, Loan)| needed.contains((t.0, t.2, t.1)),
        ),
        borrow_live_at: Set::new(|t: (Loan, Point)| plainly_live(f, t.0, t.1)),
        errors: Set::full(),
    };
    assert(rule_subset_dying(f, m)) by {
        assert forall|r1: Region, r2: Region, r3: Region, p: Point, q: Point|
            #![trigger m.live_to_dying_regions.contains((r1, r2, p, q)),
                m.dying_can_reach_live.contains((r2, r3, p, q))]
            m.live_to_dying_regions.contains((r1, r2, p, q)) && m.dying_can_reach_live.contains(
                (r2, r3, p, q),
            ) implies m.subset.contains((r1, r3, q)) by {
            assert(subset.contains((r1, r2, p)) && subset.contains((r2, r3, p)));
            assert(subset.contains((r1, r3, p)) && f.cfg_edge.contains((p, q)));
        }
    }
    assert(rule_requires_dying(f, m)) by {
        assert forall|r1: Region, r2: Region, b: Loan, p: Point, q: Point|
            #![trigger m.dying_region_requires.contains((r1, p, q, b)),
                m.dying_can_reach_live.contains((r1, r2, p, q))]
            m.dying_region_requires.contains((r1, p, q, b)) && m.dying_can_reach_live.contains(
                (r1, r2, p, q),
            ) implies m.region_requires.contains((r2, b, q)) by {
            assert(needed.contains((r1, b, p)) && subset.contains((r1, r2, p)));
            assert(needed.contains((r2, b, p)) && f.cfg_edge.contains((p, q)));
        }
    }
    assert(rule_live_reached(f, m)) by {
        assert forall|r1: Region, r2: Region, b: Loan, p: Point|
            #![trigger m.dead_borrow_region_can_reach_dead.contains((r1, p, b)),
                m.subset.contains((r1, r2, p))]
            m.dead_borrow_region_can_reach_dead.contains((r1, p, b)) && m.subset.contains(
                (r1, r2, p),
            ) && f.live(r2, p) implies m.borrow_live_at.contains((b, p)) by {
            assert(needed.contains((r1, b, p)));
            assert(needed.contains((r2, b, p)));
        }
    }
    assert(closed_under_rules(f, m));
    derived_is_least(f, m);
    assert forall|b: Loan, p: Point| #[trigger]
        derived(f).borrow_live_at.contains((b, p)) implies plainly_live(f, b, p) by {
        assert(m.borrow_live_at.contains((b, p)));
    }
}

/// `r` is, or is led to by, a region that requires `b` in `p`.
pub open spec fn led_to_by_required(m: Model, r: Region, b: Loan, p: Point) -> bool {
    exists|r0: Region| #[trigger]
        m.region_requires.contains((r0, b, p)) && (r0 == r || leads(m, r0, r, p))
}

/// A requirement by way of a chain is carried to where the region at its end is live.
proof fn led_requirement_is_carried(f: Facts, r: Region, b: Loan, p: Point, q: Point)
    requires
        led_to_by_required(derived(f), r, b, p),
        f.cfg_edge.contains((p, q)),
        !f.killed.contains((b, p)),
        f.live(r, q),
    ensures
        led_to_by_required(derived(f), r, b, q),
{
    let d = derived(f);
    derived_is_closed(f);
    let r0 = choose|r0: Region| #[trigger]
        d.region_requires.contains((r0, b, p)) && (r0 == r || leads(d, r0, r, p));
    let n: nat = if r0 == r {
        0
    } else {
        choose|n: nat| n > 0 && #[trigger] chain(d, r0, r, p, n)
    };
    assert(chain(d, r0, r, p, n));
    if f.live(r0, q) {
        assert(rule_requires_carried(f, d));
        assert(d.region_requires.contains((r0, b, q)));
        if n > 0 {
            chain_is_carried(f, r0, r, p, q, n);
        }
    } else {
        assert(rule_dying_requires(f, d));
        assert(d.dying_region_requires.contains((r0, p, q, b)));
        assert(rule_origins_dying_requires(f, d));
        chain_of_dying_is_carried(f, r0, r0, r, p, q, n);
        let live = choose|live: Region| #[trigger]
            d.dying_can_reach_live.contains((r0, live, p, q)) && (live == r || leads(
                d,
                live,
                r,
                q,
            ));
        assert(rule_requires_dying(f, d));
        assert(d.region_requires.contains((live, b, q)));
    }
}

/// `plain_requires` is what the derived `region_requires` and the steps of the derived `subset`
/// lead to.
pub proof fn plain_requires_is_led_to(f: Facts, r: Region, b: Loan, p: Point)
    ensures
        plain_requires(f).contains((r, b, p)) <==> led_to_by_required(derived(f), r, b, p),
{
    let d = derived(f);
    let led = Set::new(|t: (Region, Loan, Point)| led_to_by_required(d, t.0, t.1, t.2));
    derived_is_closed(f);
    assert forall|r: Region, b: Loan, p: Point| #[trigger]
        f.borrow_region.contains((r, b, p)) implies led.contains((r, b, p)) by {
        assert(d.region_requires.contains((r, b, p)));
    }
    assert forall|r1: Region, r2: Region, b: Loan, p: Point| #[trigger]
        led.contains((r1, b, p)) && #[trigger] plain_subset(f).contains(
            (r1, r2, p),
        ) implies led.contains((r2, b, p)) by {
        plain_subset_is_led_to(f, r1, r2, p);
        let r0 = choose|r0: Region| #[trigger]
            d.region_requires.contains((r0, b, p)) && (r0 == r1 || leads(d, r0, r1, p));
        if r0 != r1 {
            leads_on(d, r0, r1, r2, p);
        }
    }
    assert forall|r: Region, b: Loan, p: Point, q: Point| #[trigger]
        led.contains((r, b, p)) && #[trigger] f.cfg_edge.contains((p, q)) && !f.killed.contains(
            (b, p),
        ) && f.live(r, q) implies led.contains((r, b, q)) by {
        led_requirement_is_carried(f, r, b, p, q);
    }
    assert(closed_as_plain_requires(f, led));
    if plain_requires(f).contains((r, b, p)) {
        assert(led.contains((r, b, p)));
    }
    if led_to_by_required(d, r, b, p) {
        let r0 = choose|r0: Region| #[trigger]
            d.region_requires.contains((r0, b, p)) && (r0 == r || leads(d, r0, r, p));
        derived_is_within_plain(f);
        assert(plain_requires(f).contains((r0, b, p)));
        if r0 != r {
            plain_subset_is_led_to(f, r0, r, p);
            plain_requires_is_closed(f);
        }
    }
}

/// A loan that is created dead is live where a chain leads to a live region.
proof fn dead_chain_makes_live(f: Facts, r1: Region, r2: Region, b: Loan, p: Point, n: nat)
    requires
        derived(f).dead_borrow_region_can_reach_dead.contains((r1, p, b)),
        chain(derived(f), r1, r2, p, n),
        !f.live(r1, p),
        f.live(r2, p),
    ensures
        derived(f).borrow_live_at.contains((b, p)),
    decreases n,
{
    let d = derived(f);
    derived_is_closed(f);
    let rest = (n - 1) as nat;
    let r = choose|r: Region| #[trigger] d.subset.contains((r1, r, p)) && chain(d, r, r2, p, rest);
    if f.live(r, p) {
        assert(rule_live_reached(f, d));
    } else {
        assert(rule_dead_next(f, d));
        dead_chain_makes_live(f, r, r2, b, p, rest);
    }
}

/// The rules find a loan live just where the plain analysis does.
pub proof fn live_loans_are_plainly_live(f: Facts, b: Loan, p: Point)
    ensures
        derived(f).borrow_live_at.contains((b, p)) <==> plainly_live(f, b, p),
{
    let d = derived(f);
    derived_is_within_plain(f);
    if plainly_live(f, b, p) {
        let r = choose|r: Region| #[trigger]
            plain_requires(f).contains((r, b, p)) && f.live(r, p);
        plain_requires_is_led_to(f, r, b, p);
        let r0 = choose|r0: Region| #[trigger]
            d.region_requires.contains((r0, b, p)) && (r0 == r || leads(d, r0, r, p));
        derived_is_closed(f);
        if f.live(r0, p) {
            assert(rule_live_required(f, d));
        } else {
            let n = choose|n: nat| n > 0 && #[trigger] chain(d, r0, r, p, n);
            dead_requirement_is_created(f, r0, b, p);
            assert(rule_dead_root(f, d));
            assert(d.dead_borrow_region_can_reach_root.contains((r0, p, b)));
            assert(rule_dead_first(f, d));
            dead_chain_makes_live(f, r0, r, b, p, n);
        }
    }
}

/// A region that is dead requires no loan but those that are created with it there.
pub proof fn dead_requirement_is_created(f: Facts, r: Region, b: Loan, p: Point)
    requires
        derived(f).region_requires.contains((r, b, p)),
        !f.live(r, p),
    ensures
        f.borrow_region.contains((r, b, p)),
{
    let d = derived(f);
    derived_is_closed(f);
    derived_is_fixpoint(f);
    let m = Model {
        region_requires: Set::new(
            |t: (Region, Loan, Point)|
                d.region_requires.contains(t) && (f.live(t.0, t.2) || f.borrow_region.contains(t)),
        ),
        ..d
    };
    assert(rule_requires_dying(f, m)) by {
        assert forall|r1: Region, r2: Region, b: Loan, p: Point, q: Point|
            #![trigger m.dying_region_requires.contains((r1, p, q, b)),
                m.dying_can_reach_live.contains((r1, r2, p, q))]
            m.dying_region_requires.contains((r1, p, q, b)) && m.dying_can_reach_live.contains(
                (r1, r2, p, q),
            ) implies m.region_requires.contains((r2, b, q)) by {
            assert(consequences(f, d).dying_can_reach_live.contains((r1, r2, p, q)));
        }
    }
    assert(closed_under_rules(f, m));
    derived_is_least(f, m);
    assert(m.region_requires.contains((r, b, p)));
}

/// More facts of every kind but kills, and fewer kills, leave no less live.
pub proof fn more_facts_are_plainly_more_live(f: Facts, g: Facts)
    requires
        f.borrow_region.subset_of(g.borrow_region),
        f.universal_region.subset_of(g.universal_region),
        f.cfg_edge.subset_of(g.cfg_edge),
        f.outlives.subset_of(g.outlives),
        f.region_live_at.subset_of(g.region_live_at),
        g.killed.subset_of(f.killed),
    ensures
        plain_subset(f).subset_of(plain_subset(g)),
        plain_requires(f).subset_of(plain_requires(g)),
        forall|b: Loan, p: Point| #[trigger] plainly_live(f, b, p) ==> plainly_live(g, b, p),
{
    assert forall|r: Region, p: Point| #[trigger] f.live(r, p) implies g.live(r, p) by {
        if f.is_point(p) {
            let q = choose|q: Point|
                #![trigger f.cfg_edge.contains((p, q))]
                f.cfg_edge.contains((p, q)) || f.cfg_edge.contains((q, p));
            assert(g.cfg_edge.contains((p, q)) || g.cfg_edge.contains((q, p)));
        }
    }
    plain_subset_is_closed(g);
    assert(closed_as_plain_subset(f, plain_subset(g)));
    plain_requires_is_closed(g);
    assert(closed_as_plain_requires(f, plain_requires(g)));
    assert forall|b: Loan, p: Point| #[trigger] plainly_live(f, b, p) implies plainly_live(
        g,
        b,
        p,
    ) by {
        let r = choose|r: Region| #[trigger]
            plain_requires(f).contains((r, b, p)) && f.live(r, p);
        assert(plain_requires(g).contains((r, b, p)));
    }
}

} // verus!
