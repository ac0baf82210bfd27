//! The variables of the plan, and the rounds that fill them.
use crate::engine::{
    antijoin, ascending, complete, insert, join, members, one_to_pair_contents, pair_contents,
    pair_to_one_contents, pair_to_pair_contents, pair_to_unit_contents, relation_rows, remap,
    retain_recent, triple_contents, triple_to_one_contents, variable, variable_indistinct, Tuples,
};
use crate::facts::{Loan, Point, Region};
use crate::plan::{
    by_point, by_region_and_point, dead_first, dead_next, dead_reached, dead_root, dying_requires,
    dying_requires_along, dying_requires_unkilled, error, live_to_dying, live_to_dying_along,
    live_to_dying_from_live, loan_live, origin, reach_first, reach_live, reach_next,
    reach_through_dead, required_by_loan, required_by_region, requires_along, requires_carried,
    requires_dying, requires_unkilled, subset_along, subset_carried, subset_dying,
    subset_from_live, Sheet, State,
};
use datafrog::{Iteration, Relation, Variable};
use vstd::prelude::*;

verus! {

/// An iteration and its variables.
pub(crate) struct Tables {
    pub(crate) iteration: Iteration,
    pub(crate) cfg_edge: Variable<(Point, Point)>,
    pub(crate) invalidates: Variable<((Loan, Point), ())>,
    pub(crate) region_live_at: Variable<((Region, Point), ())>,
    pub(crate) borrow_region_rp: Variable<((Region, Point), Loan)>,
    pub(crate) subset: Variable<(Region, Region, Point)>,
    pub(crate) subset_1: Variable<((Region, Point), Region)>,
    pub(crate) subset_2: Variable<((Region, Point), Region)>,
    pub(crate) subset_r1p: Variable<((Region, Point), Region)>,
    pub(crate) subset_p: Variable<(Point, (Region, Region))>,
    pub(crate) region_requires: Variable<(Region, Loan, Point)>,
    pub(crate) region_requires_1: Variable<(Point, (Region, Loan))>,
    pub(crate) region_requires_2: Variable<((Region, Point), Loan)>,
    pub(crate) region_requires_bp: Variable<((Loan, Point), Region)>,
    pub(crate) region_requires_rp: Variable<((Region, Point), Loan)>,
    pub(crate) borrow_live_at: Variable<((Loan, Point), ())>,
    pub(crate) live_to_dying_regions_r2pq: Variable<((Region, Point, Point), Region)>,
    pub(crate) live_to_dying_regions_1: Variable<((Region, Point), (Region, Point))>,
    pub(crate) live_to_dying_regions_2: Variable<((Region, Point), (Region, Point))>,
    pub(crate) dying_region_requires: Variable<((Region, Point, Point), Loan)>,
    pub(crate) dying_region_requires_1: Variable<(Point, (Loan, Region))>,
    pub(crate) dying_region_requires_2: Variable<((Region, Point), (Loan, Point))>,
    pub(crate) dying_can_reach_origins: Variable<((Region, Point), Point)>,
    pub(crate) dying_can_reach_r2q: Variable<((Region, Point), (Region, Point))>,
    pub(crate) dying_can_reach_1: Variable<((Region, Point), (Region, Point))>,
    pub(crate) dying_can_reach_live: Variable<((Region, Point, Point), Region)>,
    pub(crate) dead_borrow_region_can_reach_root: Variable<((Region, Point), Loan)>,
    pub(crate) dead_borrow_region_can_reach_dead: Variable<((Region, Point), Loan)>,
    pub(crate) dead_borrow_region_can_reach_dead_1: Variable<((Region, Point), Loan)>,
    pub(crate) errors: Variable<(Loan, Point)>,
}

impl Tables {
    /// What tells the variables apart, in the order in which they are made.
    pub(crate) closed spec fn ids(self) -> Seq<int> {
        seq![
            self.cfg_edge.contents().id,
            self.invalidates.contents().id,
            self.region_live_at.contents().id,
            self.borrow_region_rp.contents().id,
            self.subset.contents().id,
            self.subset_1.contents().id,
            self.subset_2.contents().id,
            self.subset_r1p.contents().id,
            self.subset_p.contents().id,
            self.region_requires.contents().id,
            self.region_requires_1.contents().id,
            self.region_requires_2.contents().id,
            self.region_requires_bp.contents().id,
            self.region_requires_rp.contents().id,
            self.borrow_live_at.contents().id,
            self.live_to_dying_regions_r2pq.contents().id,
            self.live_to_dying_regions_1.contents().id,
            self.live_to_dying_regions_2.contents().id,
            self.dying_region_requires.contents().id,
            self.dying_region_requires_1.contents().id,
            self.dying_region_requires_2.contents().id,
            self.dying_can_reach_origins.contents().id,
            self.dying_can_reach_r2q.contents().id,
            self.dying_can_reach_1.contents().id,
            self.dying_can_reach_live.contents().id,
            self.dead_borrow_region_can_reach_root.contents().id,
            self.dead_borrow_region_can_reach_dead.contents().id,
            self.dead_borrow_region_can_reach_dead_1.contents().id,
            self.errors.contents().id,
        ]
    }

    /// The variables are those that the iteration steps, and they are kept distinct as the plan
    /// says.
    pub(crate) closed spec fn well_formed(self) -> bool {
        &&& members(self.iteration) == self.ids()
        &&& self.cfg_edge.contents().distinct
        &&& self.invalidates.contents().distinct
        &&& self.region_live_at.contents().distinct
        &&& self.borrow_region_rp.contents().distinct
        &&& self.subset.contents().distinct
        &&& !self.subset_1.contents().distinct
        &&& !self.subset_2.contents().distinct
        &&& !self.subset_r1p.contents().distinct
        &&& !self.subset_p.contents().distinct
        &&& self.region_requires.contents().distinct
        &&& !self.region_requires_1.contents().distinct
        &&& !self.region_requires_2.contents().distinct
        &&& !self.region_requires_bp.contents().distinct
        &&& !self.region_requires_rp.contents().distinct
        &&& self.borrow_live_at.contents().distinct
        &&& self.live_to_dying_regions_r2pq.contents().distinct
        &&& !self.live_to_dying_regions_1.contents().distinct
        &&& !self.live_to_dying_regions_2.contents().distinct
        &&& self.dying_region_requires.contents().distinct
        &&& !self.dying_region_requires_1.contents().distinct
        &&& !self.dying_region_requires_2.contents().distinct
        &&& self.dying_can_reach_origins.contents().distinct
        &&& self.dying_can_reach_r2q.contents().distinct
        &&& !self.dying_can_reach_1.contents().distinct
        &&& self.dying_can_reach_live.contents().distinct
        &&& self.dead_borrow_region_can_reach_root.contents().distinct
        &&& self.dead_borrow_region_can_reach_dead.contents().distinct
        &&& !self.dead_borrow_region_can_reach_dead_1.contents().distinct
        &&& self.errors.contents().distinct
    }

    /// The stable tuples.
    pub(crate) closed spec fn stable(self) -> Sheet {
        Sheet {
            cfg_edge: self.cfg_edge.contents().stable,
            invalidates: self.invalidates.contents().stable,
            region_live_at: self.region_live_at.contents().stable,
            borrow_region_rp: self.borrow_region_rp.contents().stable,
            subset: self.subset.contents().stable,
            subset_1: self.subset_1.contents().stable,
            subset_2: self.subset_2.contents().stable,
            subset_r1p: self.subset_r1p.contents().stable,
            subset_p: self.subset_p.contents().stable,
            region_requires: self.region_requires.contents().stable,
            region_requires_1: self.region_requires_1.contents().stable,
            region_requires_2: self.region_requires_2.contents().stable,
            region_requires_bp: self.region_requires_bp.contents().stable,
            region_requires_rp: self.region_requires_rp.contents().stable,
            borrow_live_at: self.borrow_live_at.contents().stable,
            live_to_dying_regions_r2pq: self.live_to_dying_regions_r2pq.contents().stable,
            live_to_dying_regions_1: self.live_to_dying_regions_1.contents().stable,
            live_to_dying_regions_2: self.live_to_dying_regions_2.contents().stable,
            dying_region_requires: self.dying_region_requires.contents().stable,
            dying_region_requires_1: self.dying_region_requires_1.contents().stable,
            dying_region_requires_2: self.dying_region_requires_2.contents().stable,
            dying_can_reach_origins: self.dying_can_reach_origins.contents().stable,
            dying_can_reach_r2q: self.dying_can_reach_r2q.contents().stable,
            dying_can_reach_1: self.dying_can_reach_1.contents().stable,
            dying_can_reach_live: self.dying_can_reach_live.contents().stable,
            dead_borrow_region_can_reach_root:
                self.dead_borrow_region_can_reach_root.contents().stable,
            dead_borrow_region_can_reach_dead:
                self.dead_borrow_region_can_reach_dead.contents().stable,
            dead_borrow_region_can_reach_dead_1:
                self.dead_borrow_region_can_reach_dead_1.contents().stable,
            errors: self.errors.contents().stable,
        }
    }

    /// The recent tuples.
    pub(crate) closed spec fn recent(self) -> Sheet {
        Sheet {
            cfg_edge: self.cfg_edge.contents().recent,
            invalidates: self.invalidates.contents().recent,
            region_live_at: self.region_live_at.contents().recent,
            borrow_region_rp: self.borrow_region_rp.contents().recent,
            subset: self.subset.contents().recent,
            subset_1: self.subset_1.contents().recent,
            subset_2: self.subset_2.contents().recent,
            subset_r1p: self.subset_r1p.contents().recent,
            subset_p: self.subset_p.contents().recent,
            region_requires: self.region_requires.contents().recent,
            region_requires_1: self.region_requires_1.contents().recent,
            region_requires_2: self.region_requires_2.contents().recent,
            region_requires_bp: self.region_requires_bp.contents().recent,
            region_requires_rp: self.region_requires_rp.contents().recent,
            borrow_live_at: self.borrow_live_at.contents().recent,
            live_to_dying_regions_r2pq: self.live_to_dying_regions_r2pq.contents().recent,
            live_to_dying_regions_1: self.live_to_dying_regions_1.contents().recent,
            live_to_dying_regions_2: self.live_to_dying_regions_2.contents().recent,
            dying_region_requires: self.dying_region_requires.contents().recent,
            dying_region_requires_1: self.dying_region_requires_1.contents().recent,
            dying_region_requires_2: self.dying_region_requires_2.contents().recent,
            dying_can_reach_origins: self.dying_can_reach_origins.contents().recent,
            dying_can_reach_r2q: self.dying_can_reach_r2q.contents().recent,
            dying_can_reach_1: self.dying_can_reach_1.contents().recent,
            dying_can_reach_live: self.dying_can_reach_live.contents().recent,
            dead_borrow_region_can_reach_root:
                self.dead_borrow_region_can_reach_root.contents().recent,
            dead_borrow_region_can_reach_dead:
                self.dead_borrow_region_can_reach_dead.contents().recent,
            dead_borrow_region_can_reach_dead_1:
                self.dead_borrow_region_can_reach_dead_1.contents().recent,
            errors: self.errors.contents().recent,
        }
    }

    /// The pending tuples.
    pub(crate) closed spec fn pending(self) -> Sheet {
        Sheet {
            cfg_edge: self.cfg_edge.contents().pending,
            invalidates: self.invalidates.contents().pending,
            region_live_at: self.region_live_at.contents().pending,
            borrow_region_rp: self.borrow_region_rp.contents().pending,
            subset: self.subset.contents().pending,
            subset_1: self.subset_1.contents().pending,
            subset_2: self.subset_2.contents().pending,
            subset_r1p: self.subset_r1p.contents().pending,
            subset_p: self.subset_p.contents().pending,
            region_requires: self.region_requires.contents().pending,
            region_requires_1: self.region_requires_1.contents().pending,
            region_requires_2: self.region_requires_2.contents().pending,
            region_requires_bp: self.region_requires_bp.contents().pending,
            region_requires_rp: self.region_requires_rp.contents().pending,
            borrow_live_at: self.borrow_live_at.contents().pending,
            live_to_dying_regions_r2pq: self.live_to_dying_regions_r2pq.contents().pending,
            live_to_dying_regions_1: self.live_to_dying_regions_1.contents().pending,
            live_to_dying_regions_2: self.live_to_dying_regions_2.contents().pending,
            dying_region_requires: self.dying_region_requires.contents().pending,
            dying_region_requires_1: self.dying_region_requires_1.contents().pending,
            dying_region_requires_2: self.dying_region_requires_2.contents().pending,
            dying_can_reach_origins: self.dying_can_reach_origins.contents().pending,
            dying_can_reach_r2q: self.dying_can_reach_r2q.contents().pending,
            dying_can_reach_1: self.dying_can_reach_1.contents().pending,
            dying_can_reach_live: self.dying_can_reach_live.contents().pending,
            dead_borrow_region_can_reach_root:
                self.dead_borrow_region_can_reach_root.contents().pending,
            dead_borrow_region_can_reach_dead:
                self.dead_borrow_region_can_reach_dead.contents().pending,
            dead_borrow_region_can_reach_dead_1:
                self.dead_borrow_region_can_reach_dead_1.contents().pending,
            errors: self.errors.contents().pending,
        }
    }

    /// How far the evaluation has come.
    pub(crate) closed spec fn state(self) -> State {
        State { stable: self.stable(), recent: self.recent(), pending: self.pending() }
    }

    /// Empty variables.
    pub(crate) fn new() -> (tables: Tables)
        ensures
            tables.well_formed(),
            tables.state() == (State {
                stable: Sheet::empty(),
                recent: Sheet::empty(),
                pending: Sheet::empty(),
            }),
    {
        let mut iteration = Iteration::new();
        let cfg_edge = variable(&mut iteration, "cfg_edge");
        let invalidates = variable(&mut iteration, "invalidates");
        let region_live_at = variable(&mut iteration, "region_live_at");
        let borrow_region_rp = variable(&mut iteration, "borrow_region_rp");
        let subset = variable(&mut iteration, "subset");
        let subset_1 = variable_indistinct(&mut iteration, "subset_1");
        let subset_2 = variable_indistinct(&mut iteration, "subset_2");
        let subset_r1p = variable_indistinct(&mut iteration, "subset_r1p");
        let subset_p = variable_indistinct(&mut iteration, "subset_p");
        let region_requires = variable(&mut iteration, "region_requires");
        let region_requires_1 = variable_indistinct(&mut iteration, "region_requires_1");
        let region_requires_2 = variable_indistinct(&mut iteration, "region_requires_2");
        let region_requires_bp = variable_indistinct(&mut iteration, "region_requires_bp");
        let region_requires_rp = variable_indistinct(&mut iteration, "region_requires_rp");
        let borrow_live_at = variable(&mut iteration, "borrow_live_at");
        let live_to_dying_regions_r2pq = variable(&mut iteration, "live_to_dying_regions_r2pq");
        let live_to_dying_regions_1 = variable_indistinct(
            &mut iteration,
            "live_to_dying_regions_1",
        );
        let live_to_dying_regions_2 = variable_indistinct(
            &mut iteration,
            "live_to_dying_regions_2",
        );
        let dying_region_requires = variable(&mut iteration, "dying_region_requires");
        let dying_region_requires_1 = variable_indistinct(
            &mut iteration,
            "dying_region_requires_1",
        );
        let dying_region_requires_2 = variable_indistinct(
            &mut iteration,
            "dying_region_requires_2",
        );
        let dying_can_reach_origins = variable(&mut iteration, "dying_can_reach_origins");
        let dying_can_reach_r2q = variable(&mut iteration, "dying_can_reach_r2q");
        let dying_can_reach_1 = variable_indistinct(&mut iteration, "dying_can_reach_1");
        let dying_can_reach_live = variable(&mut iteration, "dying_can_reach_live");
        let dead_borrow_region_can_reach_root = variable(
            &mut iteration,
            "dead_borrow_region_can_reach_root",
        );
        let dead_borrow_region_can_reach_dead = variable(
            &mut iteration,
            "dead_borrow_region_can_reach_dead",
        );
        let dead_borrow_region_can_reach_dead_1 = variable_indistinct(
            &mut iteration,
            "dead_borrow_region_can_reach_dead_1",
        );
        let errors = variable(&mut iteration, "errors");
        let tables = Tables {
            iteration,
            cfg_edge,
            invalidates,
            region_live_at,
            borrow_region_rp,
            subset,
            subset_1,
            subset_2,
            subset_r1p,
            subset_p,
            region_requires,
            region_requires_1,
            region_requires_2,
            region_requires_bp,
            region_requires_rp,
            borrow_live_at,
            live_to_dying_regions_r2pq,
            live_to_dying_regions_1,
            live_to_dying_regions_2,
            dying_region_requires,
            dying_region_requires_1,
            dying_region_requires_2,
            dying_can_reach_origins,
            dying_can_reach_r2q,
            dying_can_reach_1,
            dying_can_reach_live,
            dead_borrow_region_can_reach_root,
            dead_borrow_region_can_reach_dead,
            dead_borrow_region_can_reach_dead_1,
            errors,
        };
        assert(members(tables.iteration) =~= tables.ids());
        tables
    }

    /// Makes the facts pending.
    pub(crate) fn load(
        &mut self,
        cfg_edge: Vec<(Point, Point)>,
        invalidates: Vec<((Loan, Point), ())>,
        region_live_at: Vec<((Region, Point), ())>,
        borrow_region_rp: Vec<((Region, Point), Loan)>,
        outlives: Vec<(Region, Region, Point)>,
        borrow_region: Vec<(Region, Loan, Point)>,
    )
        requires
            old(self).well_formed(),
            old(self).state().pending.is_empty(),
        ensures
            final(self).well_formed(),
            final(self).state() == (State {
                pending: Sheet {
                    cfg_edge: cfg_edge@.to_set(),
                    invalidates: invalidates@.to_set(),
                    region_live_at: region_live_at@.to_set(),
                    borrow_region_rp: borrow_region_rp@.to_set(),
                    subset: outlives@.to_set(),
                    region_requires: borrow_region@.to_set(),
                    ..Sheet::empty()
                },
                ..old(self).state()
            }),
    {
        insert(&mut self.cfg_edge, cfg_edge);
        insert(&mut self.borrow_region_rp, borrow_region_rp);
        insert(&mut self.invalidates, invalidates);
        insert(&mut self.region_live_at, region_live_at);
        insert(&mut self.subset, outlives);
        insert(&mut self.region_requires, borrow_region);
    }

    /// Takes the recent tuples of `subset` that relate a region to itself away.
    pub(crate) fn remove_reflexive(&mut self)
        requires
            old(self).well_formed(),
        ensures
            final(self).well_formed(),
            final(self).state() == old(self).state().without_reflexive(),
    {
        retain_recent(
            &mut self.subset,
            |t: &(Region, Region, Point)| -> (keep: bool)
                ensures
                    keep == (t.0 != t.1)
                { t.0 != t.1 },
        );
        assert(self.state().recent.subset =~= old(self).state().without_reflexive().recent.subset);
    }

    /// The indices by which the rules find `subset` and `region_requires`.
    pub(crate) fn add_indices(&mut self)
        requires
            old(self).well_formed(),
        ensures
            final(self).well_formed(),
            final(self).state() == old(self).state().with_indices(),
    {
        remap(
            &mut self.subset_r1p,
            &self.subset,
            |r1r2p: &(Region, Region, Point)| -> (row: ((Region, Point), Region))
                ensures
                    row == ((r1r2p.0, r1r2p.2), r1r2p.1)
                { ((r1r2p.0, r1r2p.2), r1r2p.1) },
            Ghost(by_region_and_point()),
        );
        remap(
            &mut self.subset_p,
            &self.subset,
            |r1r2p: &(Region, Region, Point)| -> (row: (Point, (Region, Region)))
                ensures
                    row == (r1r2p.2, (r1r2p.0, r1r2p.1))
                { (r1r2p.2, (r1r2p.0, r1r2p.1)) },
            Ghost(by_point()),
        );
        remap(
            &mut self.region_requires_bp,
            &self.region_requires,
            |rbp: &(Region, Loan, Point)| -> (row: ((Loan, Point), Region))
                ensures
                    row == ((rbp.1, rbp.2), rbp.0)
                { ((rbp.1, rbp.2), rbp.0) },
            Ghost(required_by_loan()),
        );
        remap(
            &mut self.region_requires_rp,
            &self.region_requires,
            |rbp: &(Region, Loan, Point)| -> (row: ((Region, Point), Loan))
                ensures
                    row == ((rbp.0, rbp.2), rbp.1)
                { ((rbp.0, rbp.2), rbp.1) },
            Ghost(required_by_region()),
        );
    }

    /// `live_to_dying_regions(r1, r2, p, q) :- subset(r1, r2, p), cfg_edge(p, q), live(r1, q),
    /// !live(r2, q).`
    pub(crate) fn add_live_to_dying_regions(&mut self, live: &Relation<(Region, Point)>)
        requires
            old(self).well_formed(),
            ascending(relation_rows(*live)),
        ensures
            final(self).well_formed(),
            final(self).state()
                == old(self).state().with_live_to_dying_regions(relation_rows(*live).to_set()),
    {
        join(
            &mut self.live_to_dying_regions_1,
            &self.subset_p,
            &self.cfg_edge,
            |p: &Point, r1r2: &(Region, Region), q: &Point| -> (
                row: ((Region, Point), (Region, Point))
            )
                ensures
                    row == ((r1r2.0, *q), (r1r2.1, *p))
                { ((r1r2.0, *q), (r1r2.1, *p)) },
            Ghost(live_to_dying_along()),
        );
        join(
            &mut self.live_to_dying_regions_2,
            &self.live_to_dying_regions_1,
            &self.region_live_at,
            |r1q: &(Region, Point), r2p: &(Region, Point), _live: &()| -> (
                row: ((Region, Point), (Region, Point))
            )
                ensures
                    row == ((r2p.0, r1q.1), (r1q.0, r2p.1))
                { ((r2p.0, r1q.1), (r1q.0, r2p.1)) },
            Ghost(live_to_dying_from_live()),
        );
        antijoin(
            &mut self.live_to_dying_regions_r2pq,
            &self.live_to_dying_regions_2,
            live,
            |r2q: &(Region, Point), r1p: &(Region, Point)| -> (
                row: ((Region, Point, Point), Region)
            )
                ensures
                    row == ((r2q.0, r1p.1, r2q.1), r1p.0)
                { ((r2q.0, r1p.1, r2q.1), r1p.0) },
            Ghost(live_to_dying()),
        );
    }

    /// `dying_region_requires(r, p, q, b) :- region_requires(r, b, p), !killed(b, p),
    /// cfg_edge(p, q), !live(r, q).`
    pub(crate) fn add_dying_region_requires(
        &mut self,
        live: &Relation<(Region, Point)>,
        killed: &Relation<(Loan, Point)>,
    )
        requires
            old(self).well_formed(),
            ascending(relation_rows(*live)),
            ascending(relation_rows(*killed)),
        ensures
            final(self).well_formed(),
            final(self).state()
                == old(self).state().with_dying_region_requires(
                    relation_rows(*live).to_set(),
                    relation_rows(*killed).to_set(),
                ),
    {
        antijoin(
            &mut self.dying_region_requires_1,
            &self.region_requires_bp,
            killed,
            |bp: &(Loan, Point), r: &Region| -> (row: (Point, (Loan, Region)))
                ensures
                    row == (bp.1, (bp.0, *r))
                { (bp.1, (bp.0, *r)) },
            Ghost(dying_requires_unkilled()),
        );
        join(
            &mut self.dying_region_requires_2,
            &self.dying_region_requires_1,
            &self.cfg_edge,
            |p: &Point, br: &(Loan, Region), q: &Point| -> (row: ((Region, Point), (Loan, Point)))
                ensures
                    row == ((br.1, *q), (br.0, *p))
                { ((br.1, *q), (br.0, *p)) },
            Ghost(dying_requires_along()),
        );
        antijoin(
            &mut self.dying_region_requires,
            &self.dying_region_requires_2,
            live,
            |rq: &(Region, Point), bp: &(Loan, Point)| -> (row: ((Region, Point, Point), Loan))
                ensures
                    row == ((rq.0, bp.1, rq.1), bp.0)
                { ((rq.0, bp.1, rq.1), bp.0) },
            Ghost(dying_requires()),
        );
    }

    /// `dying_can_reach_origins(r, p, q) :- live_to_dying_regions(_, r, p, q).`
    ///
    /// `dying_can_reach_origins(r, p, q) :- dying_region_requires(r, p, q, _).`
    pub(crate) fn add_dying_can_reach_origins(&mut self)
        requires
            old(self).well_formed(),
        ensures
            final(self).well_formed(),
            final(self).state() == old(self).state().with_dying_can_reach_origins(),
    {
        remap(
            &mut self.dying_can_reach_origins,
            &self.live_to_dying_regions_r2pq,
            |rpq: &((Region, Point, Point), Region)| -> (row: ((Region, Point), Point))
                ensures
                    row == ((rpq.0.0, rpq.0.1), rpq.0.2)
                { ((rpq.0.0, rpq.0.1), rpq.0.2) },
            Ghost(origin()),
        );
        remap(
            &mut self.dying_can_reach_origins,
            &self.dying_region_requires,
            |rpq: &((Region, Point, Point), Loan)| -> (row: ((Region, Point), Point))
                ensures
                    row == ((rpq.0.0, rpq.0.1), rpq.0.2)
                { ((rpq.0.0, rpq.0.1), rpq.0.2) },
            Ghost(origin()),
        );
    }

    /// `dying_can_reach(r1, r2, p, q) :- dying_can_reach_origins(r1, p, q), subset(r1, r2, p).`
    ///
    /// `dying_can_reach(r1, r3, p, q) :- dying_can_reach(r1, r2, p, q), !live(r2, q),
    /// subset(r2, r3, p).`
    ///
    /// `dying_can_reach_live(r1, r2, p, q) :- dying_can_reach(r1, r2, p, q), live(r2, q).`
    pub(crate) fn add_dying_can_reach(&mut self, live: &Relation<(Region, Point)>)
        requires
            old(self).well_formed(),
            ascending(relation_rows(*live)),
        ensures
            final(self).well_formed(),
            final(self).state()
                == old(self).state().with_dying_can_reach(relation_rows(*live).to_set()),
    {
        join(
            &mut self.dying_can_reach_r2q,
            &self.dying_can_reach_origins,
            &self.subset_r1p,
            |r1p: &(Region, Point), q: &Point, r2: &Region| -> (
                row: ((Region, Point), (Region, Point))
            )
                ensures
                    row == ((*r2, *q), *r1p)
                { ((*r2, *q), *r1p) },
            Ghost(reach_first()),
        );
        antijoin(
            &mut self.dying_can_reach_1,
            &self.dying_can_reach_r2q,
            live,
            |r2q: &(Region, Point), r1p: &(Region, Point)| -> (
                row: ((Region, Point), (Region, Point))
            )
                ensures
                    row == ((r2q.0, r1p.1), (r1p.0, r2q.1))
                { ((r2q.0, r1p.1), (r1p.0, r2q.1)) },
            Ghost(reach_through_dead()),
        );
        join(
            &mut self.dying_can_reach_r2q,
            &self.dying_can_reach_1,
            &self.subset_r1p,
            |r2p: &(Region, Point), r1q: &(Region, Point), r3: &Region| -> (
                row: ((Region, Point), (Region, Point))
            )
                ensures
                    row == ((*r3, r1q.1), (r1q.0, r2p.1))
                { ((*r3, r1q.1), (r1q.0, r2p.1)) },
            Ghost(reach_next()),
        );
        join(
            &mut self.dying_can_reach_live,
            &self.dying_can_reach_r2q,
            &self.region_live_at,
            |r2q: &(Region, Point), r1p: &(Region, Point), _live: &()| -> (
                row: ((Region, Point, Point), Region)
            )
                ensures
                    row == ((r1p.0, r1p.1, r2q.1), r2q.0)
                { ((r1p.0, r1p.1, r2q.1), r2q.0) },
            Ghost(reach_live()),
        );
    }

    /// `subset(r1, r2, q) :- subset(r1, r2, p), cfg_edge(p, q), live(r1, q), live(r2, q).`
    ///
    /// `subset(r1, r3, q) :- live_to_dying_regions(r1, r2, p, q),
    /// dying_can_reach_live(r2, r3, p, q).`
    pub(crate) fn add_subset(&mut self)
        requires
            old(self).well_formed(),
        ensures
            final(self).well_formed(),
            final(self).state() == old(self).state().with_subset(),
    {
        join(
            &mut self.subset_1,
            &self.subset_p,
            &self.cfg_edge,
            |p: &Point, r1r2: &(Region, Region), q: &Point| -> (row: ((Region, Point), Region))
                ensures
                    row == ((r1r2.0, *q), r1r2.1)
                { ((r1r2.0, *q), r1r2.1) },
            Ghost(subset_along()),
        );
        join(
            &mut self.subset_2,
            &self.subset_1,
            &self.region_live_at,
            |r1q: &(Region, Point), r2: &Region, _live: &()| -> (row: ((Region, Point), Region))
                ensures
                    row == ((*r2, r1q.1), r1q.0)
                { ((*r2, r1q.1), r1q.0) },
            Ghost(subset_from_live()),
        );
        join(
            &mut self.subset,
            &self.subset_2,
            &self.region_live_at,
            |r2q: &(Region, Point), r1: &Region, _live: &()| -> (row: (Region, Region, Point))
                ensures
                    row == (*r1, r2q.0, r2q.1)
                { (*r1, r2q.0, r2q.1) },
            Ghost(subset_carried()),
        );
        join(
            &mut self.subset,
            &self.live_to_dying_regions_r2pq,
            &self.dying_can_reach_live,
            |r2pq: &(Region, Point, Point), r1: &Region, r3: &Region| -> (
                row: (Region, Region, Point)
            )
                ensures
                    row == (*r1, *r3, r2pq.2)
                { (*r1, *r3, r2pq.2) },
            Ghost(subset_dying()),
        );
    }

    /// `region_requires(r2, b, q) :- dying_region_requires(r1, p, q, b),
    /// dying_can_reach_live(r1, r2, p, q).`
    ///
    /// `region_requires(r, b, q) :- region_requires(r, b, p), !killed(b, p), cfg_edge(p, q),
    /// live(r, q).`
    pub(crate) fn add_region_requires(&mut self, killed: &Relation<(Loan, Point)>)
        requires
            old(self).well_formed(),
            ascending(relation_rows(*killed)),
        ensures
            final(self).well_formed(),
            final(self).state()
                == old(self).state().with_region_requires(relation_rows(*killed).to_set()),
    {
        join(
            &mut self.region_requires,
            &self.dying_region_requires,
            &self.dying_can_reach_live,
            |r1pq: &(Region, Point, Point), b: &Loan, r2: &Region| -> (row: (Region, Loan, Point))
                ensures
                    row == (*r2, *b, r1pq.2)
                { (*r2, *b, r1pq.2) },
            Ghost(requires_dying()),
        );
        antijoin(
            &mut self.region_requires_1,
            &self.region_requires_bp,
            killed,
            |bp: &(Loan, Point), r: &Region| -> (row: (Point, (Region, Loan)))
                ensures
                    row == (bp.1, (*r, bp.0))
                { (bp.1, (*r, bp.0)) },
            Ghost(requires_unkilled()),
        );
        join(
            &mut self.region_requires_2,
            &self.region_requires_1,
            &self.cfg_edge,
            |p: &Point, rb: &(Region, Loan), q: &Point| -> (row: ((Region, Point), Loan))
                ensures
                    row == ((rb.0, *q), rb.1)
                { ((rb.0, *q), rb.1) },
            Ghost(requires_along()),
        );
        join(
            &mut self.region_requires,
            &self.region_requires_2,
            &self.region_live_at,
            |rq: &(Region, Point), b: &Loan, _live: &()| -> (row: (Region, Loan, Point))
                ensures
                    row == (rq.0, *b, rq.1)
                { (rq.0, *b, rq.1) },
            Ghost(requires_carried()),
        );
    }

    /// `dead_borrow_region_can_reach_root(r, p, b) :- borrow_region(r, b, p), !live(r, p).`
    ///
    /// `dead_borrow_region_can_reach_dead(r, p, b) :-
    /// dead_borrow_region_can_reach_root(r, p, b).`
    ///
    /// `dead_borrow_region_can_reach_dead(r2, p, b) :-
    /// dead_borrow_region_can_reach_dead(r1, p, b), subset(r1, r2, p), !live(r2, p).`
    pub(crate) fn add_dead_borrow_region_can_reach(&mut self, live: &Relation<(Region, Point)>)
        requires
            old(self).well_formed(),
            ascending(relation_rows(*live)),
        ensures
            final(self).well_formed(),
            final(self).state()
                == old(self).state().with_dead_borrow_region_can_reach(
                    relation_rows(*live).to_set(),
                ),
    {
        antijoin(
            &mut self.dead_borrow_region_can_reach_root,
            &self.borrow_region_rp,
            live,
            |rp: &(Region, Point), b: &Loan| -> (row: ((Region, Point), Loan))
                ensures
                    row == (*rp, *b)
                { (*rp, *b) },
            Ghost(dead_root()),
        );
        remap(
            &mut self.dead_borrow_region_can_reach_dead,
            &self.dead_borrow_region_can_reach_root,
            |rpb: &((Region, Point), Loan)| -> (row: ((Region, Point), Loan))
                ensures
                    row == *rpb
                { *rpb },
            Ghost(dead_first()),
        );
        join(
            &mut self.dead_borrow_region_can_reach_dead_1,
            &self.dead_borrow_region_can_reach_dead,
            &self.subset_r1p,
            |r1p: &(Region, Point), b: &Loan, r2: &Region| -> (row: ((Region, Point), Loan))
                ensures
                    row == ((*r2, r1p.1), *b)
                { ((*r2, r1p.1), *b) },
            Ghost(dead_reached()),
        );
        antijoin(
            &mut self.dead_borrow_region_can_reach_dead,
            &self.dead_borrow_region_can_reach_dead_1,
            live,
            |r2p: &(Region, Point), b: &Loan| -> (row: ((Region, Point), Loan))
                ensures
                    row == (*r2p, *b)
                { (*r2p, *b) },
            Ghost(dead_next()),
        );
    }

    /// `borrow_live_at(b, p) :- region_requires(r, b, p), live(r, p).`
    ///
    /// `borrow_live_at(b, p) :- dead_borrow_region_can_reach_dead(r1, p, b), subset(r1, r2, p),
    /// live(r2, p).`
    pub(crate) fn add_borrow_live_at(&mut self)
        requires
            old(self).well_formed(),
        ensures
            final(self).well_formed(),
            final(self).state() == old(self).state().with_borrow_live_at(),
    {
        join(
            &mut self.borrow_live_at,
            &self.region_requires_rp,
            &self.region_live_at,
            |rp: &(Region, Point), b: &Loan, _live: &()| -> (row: ((Loan, Point), ()))
                ensures
                    row == ((*b, rp.1), ())
                { ((*b, rp.1), ()) },
            Ghost(loan_live()),
        );
        join(
            &mut self.borrow_live_at,
            &self.dead_borrow_region_can_reach_dead_1,
            &self.region_live_at,
            |rp: &(Region, Point), b: &Loan, _live: &()| -> (row: ((Loan, Point), ()))
                ensures
                    row == ((*b, rp.1), ())
                { ((*b, rp.1), ()) },
            Ghost(loan_live()),
        );
    }

    /// `errors(b, p) :- invalidates(p, b), borrow_live_at(b, p).`
    pub(crate) fn add_errors(&mut self)
        requires
            old(self).well_formed(),
        ensures
            final(self).well_formed(),
            final(self).state() == old(self).state().with_errors(),
    {
        join(
            &mut self.errors,
            &self.invalidates,
            &self.borrow_live_at,
            |bp: &(Loan, Point), _invalid: &(), _live: &()| -> (row: (Loan, Point))
                ensures
                    row == (bp.0, bp.1)
                { (bp.0, bp.1) },
            Ghost(error()),
        );
    }

    /// Applies every rule once.
    pub(crate) fn apply_rules(
        &mut self,
        live: &Relation<(Region, Point)>,
        killed: &Relation<(Loan, Point)>,
    )
        requires
            old(self).well_formed(),
            ascending(relation_rows(*live)),
            ascending(relation_rows(*killed)),
        ensures
            final(self).well_formed(),
            final(self).state() == old(self).state().with_rules(
                relation_rows(*live).to_set(),
                relation_rows(*killed).to_set(),
            ),
    {
        self.add_indices();
        self.add_live_to_dying_regions(live);
        self.add_dying_region_requires(live, killed);
        self.add_dying_can_reach_origins();
        self.add_dying_can_reach(live);
        self.add_subset();
        self.add_region_requires(killed);
        self.add_dead_borrow_region_can_reach(live);
        self.add_borrow_live_at();
        self.add_errors();
    }

    /// Steps the iteration; says whether any tuple has become recent.
    pub(crate) fn step(&mut self) -> (more: bool)
        requires
            old(self).well_formed(),
        ensures
            final(self).well_formed(),
            final(self).state() == old(self).state().advanced(),
            more == !final(self).state().recent.is_empty(),
    {
        let ghost before = *self;
        let more = changed(self);
        assert(self.state() =~~= before.state().advanced());
        more
    }

    /// The errors, in ascending order, when the evaluation is over.
    pub(crate) fn errors(self) -> (rows: Vec<(Loan, Point)>)
        requires
            self.state().recent.is_empty(),
            self.state().pending.is_empty(),
        ensures
            ascending(rows@),
            rows@.to_set() == self.state().stable.errors,
    {
        complete(self.errors)
    }

    /// The relations of interest, in ascending order, when the evaluation is over.
    pub(crate) fn results(self) -> (results: Results)
        requires
            self.state().recent.is_empty(),
            self.state().pending.is_empty(),
        ensures
            ascending(results.subset@),
            results.subset@.to_set() == self.state().stable.subset,
            ascending(results.region_requires@),
            results.region_requires@.to_set() == self.state().stable.region_requires,
            ascending(results.borrow_live_at@),
            results.borrow_live_at@.to_set() == self.state().stable.borrow_live_at,
            ascending(results.errors@),
            results.errors@.to_set() == self.state().stable.errors,
    {
        Results {
            subset: complete(self.subset),
            region_requires: complete(self.region_requires),
            borrow_live_at: complete(self.borrow_live_at),
            errors: complete(self.errors),
        }
    }
}

/// What a finished evaluation hands out.
pub(crate) struct Results {
    pub(crate) subset: Vec<(Region, Region, Point)>,
    pub(crate) region_requires: Vec<(Region, Loan, Point)>,
    pub(crate) borrow_live_at: Vec<((Loan, Point), ())>,
    pub(crate) errors: Vec<(Loan, Point)>,
}

/// `datafrog::Iteration::changed` steps every variable that the iteration has made: what is
/// recent becomes stable, and what is pending becomes recent, except, in a distinct variable,
/// what is stable already. It says whether any of the variables has a recent tuple then.
#[verifier::external_body]
fn changed(tables: &mut Tables) -> (more: bool)
    requires
        members(old(tables).iteration) == old(tables).ids(),
    ensures
        members(final(tables).iteration) == members(old(tables).iteration),
        pair_contents(final(tables).cfg_edge) == pair_contents(old(tables).cfg_edge).advanced(),
        pair_to_unit_contents(final(tables).invalidates)
            == pair_to_unit_contents(old(tables).invalidates).advanced(),
        pair_to_unit_contents(final(tables).region_live_at)
            == pair_to_unit_contents(old(tables).region_live_at).advanced(),
        pair_to_one_contents(final(tables).borrow_region_rp)
            == pair_to_one_contents(old(tables).borrow_region_rp).advanced(),
        triple_contents(final(tables).subset) == triple_contents(old(tables).subset).advanced(),
        pair_to_one_contents(final(tables).subset_1)
            == pair_to_one_contents(old(tables).subset_1).advanced(),
        pair_to_one_contents(final(tables).subset_2)
            == pair_to_one_contents(old(tables).subset_2).advanced(),
        pair_to_one_contents(final(tables).subset_r1p)
            == pair_to_one_contents(old(tables).subset_r1p).advanced(),
        one_to_pair_contents(final(tables).subset_p)
            == one_to_pair_contents(old(tables).subset_p).advanced(),
        triple_contents(final(tables).region_requires)
            == triple_contents(old(tables).region_requires).advanced(),
        one_to_pair_contents(final(tables).region_requires_1)
            == one_to_pair_contents(old(tables).region_requires_1).advanced(),
        pair_to_one_contents(final(tables).region_requires_2)
            == pair_to_one_contents(old(tables).region_requires_2).advanced(),
        pair_to_one_contents(final(tables).region_requires_bp)
            == pair_to_one_contents(old(tables).region_requires_bp).advanced(),
        pair_to_one_contents(final(tables).region_requires_rp)
            == pair_to_one_contents(old(tables).region_requires_rp).advanced(),
        pair_to_unit_contents(final(tables).borrow_live_at)
            == pair_to_unit_contents(old(tables).borrow_live_at).advanced(),
        triple_to_one_contents(final(tables).live_to_dying_regions_r2pq)
            == triple_to_one_contents(old(tables).live_to_dying_regions_r2pq).advanced(),
        pair_to_pair_contents(final(tables).live_to_dying_regions_1)
            == pair_to_pair_contents(old(tables).live_to_dying_regions_1).advanced(),
        pair_to_pair_contents(final(tables).live_to_dying_regions_2)
            == pair_to_pair_contents(old(tables).live_to_dying_regions_2).advanced(),
        triple_to_one_contents(final(tables).dying_region_requires)
            == triple_to_one_contents(old(tables).dying_region_requires).advanced(),
        one_to_pair_contents(final(tables).dying_region_requires_1)
            == one_to_pair_contents(old(tables).dying_region_requires_1).advanced(),
        pair_to_pair_contents(final(tables).dying_region_requires_2)
            == pair_to_pair_contents(old(tables).dying_region_requires_2).advanced(),
        pair_to_one_contents(final(tables).dying_can_reach_origins)
            == pair_to_one_contents(old(tables).dying_can_reach_origins).advanced(),
        pair_to_pair_contents(final(tables).dying_can_reach_r2q)
            == pair_to_pair_contents(old(tables).dying_can_reach_r2q).advanced(),
        pair_to_pair_contents(final(tables).dying_can_reach_1)
            == pair_to_pair_contents(old(tables).dying_can_reach_1).advanced(),
        triple_to_one_contents(final(tables).dying_can_reach_live)
            == triple_to_one_contents(old(tables).dying_can_reach_live).advanced(),
        pair_to_one_contents(final(tables).dead_borrow_region_can_reach_root)
            == pair_to_one_contents(old(tables).dead_borrow_region_can_reach_root).advanced(),
        pair_to_one_contents(final(tables).dead_borrow_region_can_reach_dead)
            == pair_to_one_contents(old(tables).dead_borrow_region_can_reach_dead).advanced(),
        pair_to_one_contents(final(tables).dead_borrow_region_can_reach_dead_1)
            == pair_to_one_contents(old(tables).dead_borrow_region_can_reach_dead_1).advanced(),
        pair_contents(final(tables).errors) == pair_contents(old(tables).errors).advanced(),
        more == !final(tables).recent().is_empty(),
{
    tables.iteration.changed()
}

} // verus!
