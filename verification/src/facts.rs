//! The input of the analysis: the facts that a compiler front end states about one function.
use crate::lists::take_one_more;
use crate::paths::listing_adds_the_universal_regions;
use std::collections::BTreeSet;
use vstd::prelude::*;

verus! {

broadcast use vstd::laws_cmp::group_laws_cmp;

/// A region, that is the set of loans that a reference may come from.
pub type Region = usize;

/// A loan, that is one borrow expression of the program.
pub type Loan = usize;

/// A point of the control-flow graph.
pub type Point = usize;

/// The facts of one function, as lists. The order within a list, and whether an entry
/// occurs more than once, make no difference.
#[derive(Clone, Debug)]
pub struct AllFacts {
    /// `(r, b, p)`: the loan `b` is created at `p`, with region `r`.
    pub borrow_region: Vec<(Region, Loan, Point)>,
    /// `r`: the region `r` is a parameter of the function.
    pub universal_region: Vec<Region>,
    /// `(p, q)`: control may flow from `p` to `q`.
    pub cfg_edge: Vec<(Point, Point)>,
    /// `(b, p)`: the path that the loan `b` borrows is overwritten at `p`.
    pub killed: Vec<(Loan, Point)>,
    /// `(r1, r2, p)`: `r1 <= r2` holds from `p` on.
    pub outlives: Vec<(Region, Region, Point)>,
    /// `(r, p)`: the region `r` may be used later than `p`.
    pub region_live_at: Vec<(Region, Point)>,
    /// `(p, b)`: what happens at `p` invalidates the loan `b`.
    pub invalidates: Vec<(Point, Loan)>,
}

/// The facts of one function, as sets.
#[verifier::ext_equal]
pub struct Facts {
    pub borrow_region: Set<(Region, Loan, Point)>,
    pub universal_region: Set<Region>,
    pub cfg_edge: Set<(Point, Point)>,
    pub killed: Set<(Loan, Point)>,
    pub outlives: Set<(Region, Region, Point)>,
    pub region_live_at: Set<(Region, Point)>,
    pub invalidates: Set<(Point, Loan)>,
}

impl View for AllFacts {
    type V = Facts;

    open spec fn view(&self) -> Facts {
        Facts {
            borrow_region: self.borrow_region@.to_set(),
            universal_region: self.universal_region@.to_set(),
            cfg_edge: self.cfg_edge@.to_set(),
            killed: self.killed@.to_set(),
            outlives: self.outlives@.to_set(),
            region_live_at: self.region_live_at@.to_set(),
            invalidates: self.invalidates@.to_set(),
        }
    }
}

impl Facts {
    /// The points are the two ends of the edges of the control-flow graph.
    pub open spec fn is_point(self, p: Point) -> bool {
        exists|q: Point|
            #![trigger self.cfg_edge.contains((p, q))]
            #![trigger self.cfg_edge.contains((q, p))]
            self.cfg_edge.contains((p, q)) || self.cfg_edge.contains((q, p))
    }

    /// A region is live where a fact says so; a universal region is live at every point.
    pub open spec fn live(self, r: Region, p: Point) -> bool {
        self.region_live_at.contains((r, p)) || (self.universal_region.contains(r)
            && self.is_point(p))
    }

    /// The pairs of a region and a point at which it is live.
    pub open spec fn live_set(self) -> Set<(Region, Point)> {
        Set::new(|t: (Region, Point)| self.live(t.0, t.1))
    }
}

impl AllFacts {
    /// The points of the control-flow graph.
    pub fn points(&self) -> (points: BTreeSet<Point>)
        ensures
            forall|p: Point| #[trigger] points@.contains(p) <==> self@.is_point(p),
            forall|p: Point| #[trigger]
                points@.contains(p) <==> exists|i: int|
                    0 <= i < self.cfg_edge@.len() && ((#[trigger] self.cfg_edge@[i]).0 == p
                        || self.cfg_edge@[i].1 == p),
    {
        let mut points: BTreeSet<Point> = BTreeSet::new();
        let mut i: usize = 0;
        while i < self.cfg_edge.len()
            invariant
                i <= self.cfg_edge.len(),
                forall|j: int| #![trigger self.cfg_edge@[j]] 0 <= j < i ==> points@.contains(
                    self.cfg_edge@[j].0,
                ) && points@.contains(self.cfg_edge@[j].1),
                forall|p: Point| #[trigger] points@.contains(p) ==> self@.is_point(p),
                forall|p: Point| #[trigger]
                    points@.contains(p) ==> exists|j: int|
                        0 <= j < i && ((#[trigger] self.cfg_edge@[j]).0 == p
                            || self.cfg_edge@[j].1 == p),
            decreases self.cfg_edge.len() - i,
        {
            let (p, q) = self.cfg_edge[i];
            points.insert(p);
            points.insert(q);
            assert(self@.cfg_edge.contains(self.cfg_edge@[i as int]));
            i = i + 1;
        }
        points
    }

    /// Declares that each universal region is live at every point.
    pub fn extend_region_live_at(&mut self)
        ensures
            final(self)@ == (Facts { region_live_at: old(self)@.live_set(), ..old(self)@ }),
            forall|r: Region, p: Point| #[trigger]
                final(self).region_live_at@.contains((r, p)) <==> old(
                    self,
                ).region_live_at@.contains((r, p)) || (old(self).universal_region@.contains(r)
                    && exists|q: Point|
                    #![trigger old(self).cfg_edge@.contains((p, q))]
                    #![trigger old(self).cfg_edge@.contains((q, p))]
                    old(self).cfg_edge@.contains((p, q)) || old(self).cfg_edge@.contains((q, p))),
            final(self).borrow_region@ == old(self).borrow_region@,
            final(self).universal_region@ == old(self).universal_region@,
            final(self).cfg_edge@ == old(self).cfg_edge@,
            final(self).killed@ == old(self).killed@,
            final(self).outlives@ == old(self).outlives@,
            final(self).invalidates@ == old(self).invalidates@,
    {
        let points = self.points();
        let ghost facts = self@;
        let mut i: usize = 0;
        while i < self.universal_region.len()
            invariant
                i <= self.universal_region.len(),
                facts == old(self)@,
                self.borrow_region@ == old(self).borrow_region@,
                self.universal_region@ == old(self).universal_region@,
                self.cfg_edge@ == old(self).cfg_edge@,
                self.killed@ == old(self).killed@,
                self.outlives@ == old(self).outlives@,
                self.invalidates@ == old(self).invalidates@,
                self@ == (Facts { region_live_at: self@.region_live_at, ..facts }),
                forall|p: Point| #[trigger] points@.contains(p) <==> facts.is_point(p),
                forall|r: Region, p: Point| #[trigger]
                    self@.region_live_at.contains((r, p)) <==> facts.region_live_at.contains((r, p))
                        || (self.universal_region@.take(i as int).to_set().contains(r)
                        && facts.is_point(p)),
            decreases self.universal_region.len() - i,
        {
            let r = self.universal_region[i];
            let ghost before = self@.region_live_at;
            let ghost universal = self.universal_region@;
            for p in it: points.iter()
                invariant
                    self.universal_region@ == universal,
                    self.borrow_region@ == old(self).borrow_region@,
                    self.universal_region@ == old(self).universal_region@,
                    self.cfg_edge@ == old(self).cfg_edge@,
                    self.killed@ == old(self).killed@,
                    self.outlives@ == old(self).outlives@,
                    self.invalidates@ == old(self).invalidates@,
                    self@ == (Facts { region_live_at: self@.region_live_at, ..facts }),
                    it.seq().unref().to_set() == points@,
                    it.seq().unref().take(it.seq().len() as int) == it.seq().unref(),
                    forall|s: Region, q: Point| #[trigger]
                        self@.region_live_at.contains((s, q))
                            <==> before.contains((s, q)) || (s == r
                            && it.seq().unref().take(it.index()).to_set().contains(q)),
            {
                let ghost pushed = self.region_live_at@;
                self.region_live_at.push((r, *p));
                proof {
                    pushed.lemma_push_to_set_commute((r, *p));
                    take_one_more(it.seq().unref(), it.index());
                }
            }
            proof {
                take_one_more(universal, i as int);
            }
            i = i + 1;
        }
        proof {
            assert(self.universal_region@.take(i as int) =~= self.universal_region@);
            assert(self@.region_live_at =~= facts.live_set());
            listing_adds_the_universal_regions(*old(self), *self);
        }
    }
}

} // verus!
