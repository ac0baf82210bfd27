//! The output of the analysis, by point.
use crate::engine::{ascending, Row};
use crate::facts::{Loan, Point, Region};
use crate::lists::take_one_more;
use std::collections::{BTreeMap, BTreeSet};
use vstd::prelude::*;

verus! {

broadcast use vstd::laws_cmp::group_laws_cmp;

/// What the analysis finds.
#[derive(Clone, Debug)]
pub struct Output {
    /// Whether more than the errors was asked for.
    pub dump_enabled: bool,
    /// For each point, the loans that are invalidated there while they are live.
    pub errors: BTreeMap<Point, Vec<Loan>>,
    /// For each point, the loans that are live there.
    pub borrow_live_at: BTreeMap<Point, Vec<Loan>>,
    /// For each point and region, the loans that the region requires there.
    pub restricts: BTreeMap<Point, BTreeMap<Region, BTreeSet<Loan>>>,
    /// For each point, the regions that are live there.
    pub region_live_at: BTreeMap<Point, Vec<Region>>,
    /// For each point and region, the other regions of which it is a subset there.
    pub subset: BTreeMap<Point, BTreeMap<Region, BTreeSet<Region>>>,
}

impl Output {
    /// An output that holds nothing.
    pub fn new(dump_enabled: bool) -> (output: Output)
        ensures
            output.dump_enabled == dump_enabled,
            output.errors@.is_empty(),
            output.borrow_live_at@.is_empty(),
            output.restricts@.is_empty(),
            output.region_live_at@.is_empty(),
            output.subset@.is_empty(),
    {
        Output {
            dump_enabled,
            errors: BTreeMap::new(),
            borrow_live_at: BTreeMap::new(),
            restricts: BTreeMap::new(),
            region_live_at: BTreeMap::new(),
            subset: BTreeMap::new(),
        }
    }
}

/// The numbers rise.
pub open spec fn increasing(list: Seq<usize>) -> bool {
    forall|i: int, j: int| 0 <= i < j < list.len() ==> list[i] < list[j]
}

/// The lists hold the pairs of the relation, each pair in the list of its point. The lists rise,
/// and none is empty.
pub open spec fn groups(lists: Map<Point, Vec<usize>>, relation: Set<(usize, Point)>) -> bool {
    &&& forall|p: Point| #[trigger]
        lists.contains_key(p) ==> lists[p]@.len() > 0 && increasing(lists[p]@)
    &&& forall|x: usize, p: Point| #[trigger]
        relation.contains((x, p)) <==> lists.contains_key(p) && lists[p]@.contains(x)
}

/// The trees hold the triples of the relation, each triple at its point, its second number under
/// its first. No tree and no set is empty.
pub open spec fn groups_nested(
    trees: Map<Point, BTreeMap<usize, BTreeSet<usize>>>,
    relation: Set<(usize, usize, Point)>,
) -> bool {
    &&& forall|p: Point| #[trigger]
        trees.contains_key(p) ==> exists|x: usize| #[trigger] trees[p]@.contains_key(x)
    &&& forall|p: Point, x: usize|
        trees.contains_key(p) && #[trigger] trees[p]@.contains_key(x) ==> exists|y: usize|
            #[trigger] trees[p]@[x]@.contains(y)
    &&& forall|x: usize, y: usize, p: Point| #[trigger]
        relation.contains((x, y, p)) <==> trees.contains_key(p) && trees[p]@.contains_key(x)
            && trees[p]@[x]@.contains(y)
}

/// One more pair lengthens the list of its point.
proof fn groups_one_more(
    before: Map<Point, Vec<usize>>,
    relation: Set<(usize, Point)>,
    x: usize,
    p: Point,
    list: Vec<usize>,
)
    requires
        groups(before, relation),
        before.contains_key(p) ==> list@ == before[p]@.push(x),
        !before.contains_key(p) ==> list@ == seq![x],
        forall|y: usize| #[trigger] relation.contains((y, p)) ==> y < x,
    ensures
        groups(before.insert(p, list), relation.insert((x, p))),
{
    let after = before.insert(p, list);
    assert(list@[list@.len() - 1] == x);
    if before.contains_key(p) {
        assert forall|i: int| 0 <= i < before[p]@.len() implies before[p]@[i] < x by {
            assert(before[p]@.contains(before[p]@[i]));
            assert(relation.contains((before[p]@[i], p)));
        }
    }
    assert forall|y: usize, q: Point| #[trigger]
        relation.insert((x, p)).contains((y, q)) <==> after.contains_key(q)
            && after[q]@.contains(y) by {
        if q == p && before.contains_key(p) {
            if before[p]@.contains(y) {
                let i = choose|i: int| 0 <= i < before[p]@.len() && before[p]@[i] == y;
                assert(list@[i] == y);
            }
            if list@.contains(y) && y != x {
                let i = choose|i: int| 0 <= i < list@.len() && list@[i] == y;
                assert(before[p]@[i] == y);
            }
        }
        assert(relation.contains((y, q)) <==> before.contains_key(q) && before[q]@.contains(y));
    }
}

/// Sorts ascending pairs by their point.
pub(crate) fn group(rows: &Vec<(usize, Point)>) -> (lists: BTreeMap<Point, Vec<usize>>)
    requires
        ascending(rows@),
    ensures
        groups(lists@, rows@.to_set()),
{
    let mut lists: BTreeMap<Point, Vec<usize>> = BTreeMap::new();
    let mut i: usize = 0;
    while i < rows.len()
        invariant
            i <= rows.len(),
            ascending(rows@),
            groups(lists@, rows@.take(i as int).to_set()),
        decreases rows.len() - i,
    {
        let (x, p) = rows[i];
        let ghost before = lists@;
        let mut list: Vec<usize> = match lists.remove(&p) {
            Some(list) => list,
            None => Vec::new(),
        };
        list.push(x);
        proof {
            let seen = rows@.take(i as int);
            assert forall|y: usize| #[trigger] seen.to_set().contains((y, p)) implies y < x by {
                let j = choose|j: int| 0 <= j < i && seen[j] == (y, p);
                assert(rows@[j].before(rows@[i as int]));
            }
            groups_one_more(before, seen.to_set(), x, p, list);
            take_one_more(rows@, i as int);
            assert(before.remove(p).insert(p, list) =~= before.insert(p, list));
        }
        lists.insert(p, list);
        i = i + 1;
    }
    assert(rows@.take(rows.len() as int) =~= rows@);
    lists
}

/// One more triple enlarges the set of its first number in the tree of its point.
proof fn groups_nested_one_more(
    before: Map<Point, BTreeMap<usize, BTreeSet<usize>>>,
    relation: Set<(usize, usize, Point)>,
    x: usize,
    y: usize,
    p: Point,
    tree: BTreeMap<usize, BTreeSet<usize>>,
    under: Map<usize, BTreeSet<usize>>,
    set: BTreeSet<usize>,
)
    requires
        groups_nested(before, relation),
        before.contains_key(p) ==> under == before[p]@,
        !before.contains_key(p) ==> under == Map::<usize, BTreeSet<usize>>::empty(),
        under.contains_key(x) ==> set@ == under[x]@.insert(y),
        !under.contains_key(x) ==> set@ == Set::<usize>::empty().insert(y),
        tree@ == under.insert(x, set),
    ensures
        groups_nested(before.insert(p, tree), relation.insert((x, y, p))),
{
    let after = before.insert(p, tree);
    assert(after[p]@.contains_key(x));
    assert(after[p]@[x]@.contains(y));
    assert forall|q: Point| #[trigger] after.contains_key(q) implies exists|a: usize| #[trigger]
        after[q]@.contains_key(a) by {
        if q == p {
            assert(after[q]@.contains_key(x));
        } else {
            assert(before.contains_key(q));
            let a = choose|a: usize| #[trigger] before[q]@.contains_key(a);
            assert(after[q]@.contains_key(a));
        }
    }
    assert forall|q: Point, a: usize|
        after.contains_key(q) && #[trigger] after[q]@.contains_key(a) implies exists|b: usize|
        #[trigger] after[q]@[a]@.contains(b) by {
        if q == p && a == x {
            assert(after[q]@[a]@.contains(y));
        } else {
            assert(before.contains_key(q) && before[q]@.contains_key(a));
            let b = choose|b: usize| #[trigger] before[q]@[a]@.contains(b);
            assert(after[q]@[a]@.contains(b));
        }
    }
    assert forall|a: usize, b: usize, q: Point| #[trigger]
        relation.insert((x, y, p)).contains((a, b, q)) <==> after.contains_key(q)
            && after[q]@.contains_key(a) && after[q]@[a]@.contains(b) by {
        assert(relation.contains((a, b, q)) <==> before.contains_key(q)
            && before[q]@.contains_key(a) && before[q]@[a]@.contains(b));
    }
}

/// Sorts triples by their point, and by their first number there.
pub(crate) fn group_nested(rows: &Vec<(usize, usize, Point)>) -> (trees: BTreeMap<
    Point,
    BTreeMap<usize, BTreeSet<usize>>,
>)
    ensures
        groups_nested(trees@, rows@.to_set()),
{
    let mut trees: BTreeMap<Point, BTreeMap<usize, BTreeSet<usize>>> = BTreeMap::new();
    let mut i: usize = 0;
    while i < rows.len()
        invariant
            i <= rows.len(),
            groups_nested(trees@, rows@.take(i as int).to_set()),
        decreases rows.len() - i,
    {
        let (x, y, p) = rows[i];
        let ghost before = trees@;
        let mut tree: BTreeMap<usize, BTreeSet<usize>> = match trees.remove(&p) {
            Some(tree) => tree,
            None => BTreeMap::new(),
        };
        let ghost under = tree@;
        let mut set: BTreeSet<usize> = match tree.remove(&x) {
            Some(set) => set,
            None => BTreeSet::new(),
        };
        set.insert(y);
        let ghost enlarged = set;
        tree.insert(x, set);
        proof {
            assert(tree@ =~= under.insert(x, enlarged));
            groups_nested_one_more(
                before,
                rows@.take(i as int).to_set(),
                x,
                y,
                p,
                tree,
                under,
                enlarged,
            );
            take_one_more(rows@, i as int);
            assert(before.remove(p).insert(p, tree) =~= before.insert(p, tree));
        }
        trees.insert(p, tree);
        i = i + 1;
    }
    assert(rows@.take(rows.len() as int) =~= rows@);
    trees
}

} // verus!
