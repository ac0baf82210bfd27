use borrow_analysis::analysis::compute;
use borrow_analysis::facts::{AllFacts, Loan, Point, Region};
use borrow_analysis::output::Output;
use std::collections::{BTreeMap, BTreeSet};

fn no_facts() -> AllFacts {
    AllFacts {
        borrow_region: vec![],
        universal_region: vec![],
        cfg_edge: vec![],
        killed: vec![],
        outlives: vec![],
        region_live_at: vec![],
        invalidates: vec![],
    }
}

/// A loan 7 with region 1, made at point 10, and invalidated at point 12.
fn straight_line() -> AllFacts {
    AllFacts {
        borrow_region: vec![(1, 7, 10)],
        cfg_edge: vec![(10, 11), (11, 12), (12, 13)],
        invalidates: vec![(12, 7)],
        ..no_facts()
    }
}

fn pairs(lists: &BTreeMap<Point, Vec<usize>>) -> BTreeSet<(usize, Point)> {
    let mut all = BTreeSet::new();
    for (p, list) in lists {
        assert!(!list.is_empty());
        for window in list.windows(2) {
            assert!(window[0] < window[1]);
        }
        for x in list {
            all.insert((*x, *p));
        }
    }
    all
}

fn triples(
    trees: &BTreeMap<Point, BTreeMap<usize, BTreeSet<usize>>>,
) -> BTreeSet<(usize, usize, Point)> {
    let mut all = BTreeSet::new();
    for (p, tree) in trees {
        assert!(!tree.is_empty());
        for (x, set) in tree {
            assert!(!set.is_empty());
            for y in set {
                all.insert((*x, *y, *p));
            }
        }
    }
    all
}

fn set<T: Ord + Copy>(list: &[T]) -> BTreeSet<T> {
    list.iter().copied().collect()
}

/// The rules, applied to everything over and over until nothing is new.
#[derive(Default, PartialEq)]
struct Naive {
    subset: BTreeSet<(Region, Region, Point)>,
    live_to_dying: BTreeSet<(Region, Region, Point, Point)>,
    dying_requires: BTreeSet<(Region, Point, Point, Loan)>,
    origins: BTreeSet<(Region, Point, Point)>,
    reach: BTreeSet<(Region, Region, Point, Point)>,
    requires: BTreeSet<(Region, Loan, Point)>,
    dead: BTreeSet<(Region, Point, Loan)>,
    live_loans: BTreeSet<(Loan, Point)>,
    errors: BTreeSet<(Loan, Point)>,
    live: BTreeSet<(Region, Point)>,
}

fn naive(f: &AllFacts) -> Naive {
    let mut n = Naive::default();
    n.live.extend(f.region_live_at.iter().copied());
    for r in &f.universal_region {
        for (p, q) in &f.cfg_edge {
            n.live.insert((*r, *p));
            n.live.insert((*r, *q));
        }
    }
    let killed = set(&f.killed);
    n.subset.extend(f.outlives.iter().copied());
    n.requires.extend(f.borrow_region.iter().copied());
    for (r, b, p) in &f.borrow_region {
        if !n.live.contains(&(*r, *p)) {
            n.dead.insert((*r, *p, *b));
        }
    }
    loop {
        let size = n.subset.len()
            + n.live_to_dying.len()
            + n.dying_requires.len()
            + n.origins.len()
            + n.reach.len()
            + n.requires.len()
            + n.dead.len();
        for (r1, r2, p) in n.subset.clone() {
            for (e, q) in &f.cfg_edge {
                if *e != p || !n.live.contains(&(r1, *q)) {
                    continue;
                }
                if n.live.contains(&(r2, *q)) {
                    n.subset.insert((r1, r2, *q));
                } else {
                    n.live_to_dying.insert((r1, r2, p, *q));
                }
            }
            for (s, e, q) in n.origins.clone() {
                if s == r1 && e == p {
                    n.reach.insert((r1, r2, p, q));
                }
            }
            for (s, t, e, q) in n.reach.clone() {
                if t == r1 && e == p && !n.live.contains(&(t, q)) {
                    n.reach.insert((s, r2, p, q));
                }
            }
            for (s, e, b) in n.dead.clone() {
                if s == r1 && e == p && !n.live.contains(&(r2, p)) {
                    n.dead.insert((r2, p, b));
                }
            }
        }
        for (r1, r2, p, q) in &n.live_to_dying {
            n.origins.insert((*r2, *p, *q));
            for (s, r3, e, t) in &n.reach {
                if s == r2 && e == p && t == q && n.live.contains(&(*r3, *q)) {
                    n.subset.insert((*r1, *r3, *q));
                }
            }
        }
        for (r, b, p) in n.requires.clone() {
            for (e, q) in &f.cfg_edge {
                if *e != p || killed.contains(&(b, p)) {
                    continue;
                }
                if n.live.contains(&(r, *q)) {
                    n.requires.insert((r, b, *q));
                } else {
                    n.dying_requires.insert((r, p, *q, b));
                }
            }
        }
        for (r, p, q, b) in &n.dying_requires {
            n.origins.insert((*r, *p, *q));
            for (s, r2, e, t) in &n.reach {
                if s == r && e == p && t == q && n.live.contains(&(*r2, *q)) {
                    n.requires.insert((*r2, *b, *q));
                }
            }
        }
        if size
            == n.subset.len()
                + n.live_to_dying.len()
                + n.dying_requires.len()
                + n.origins.len()
                + n.reach.len()
                + n.requires.len()
                + n.dead.len()
        {
            break;
        }
    }
    for (r, b, p) in &n.requires {
        if n.live.contains(&(*r, *p)) {
            n.live_loans.insert((*b, *p));
        }
    }
    for (r, p, b) in &n.dead {
        for (r1, r2, e) in &n.subset {
            if r1 == r && e == p && n.live.contains(&(*r2, *p)) {
                n.live_loans.insert((*b, *p));
            }
        }
    }
    for (p, b) in &f.invalidates {
        if n.live_loans.contains(&(*b, *p)) {
            n.errors.insert((*b, *p));
        }
    }
    n
}

fn check_against_naive(f: AllFacts) -> Output {
    let expected = naive(&f);
    let bare = compute(false, f.clone());
    assert!(bare.region_live_at.is_empty());
    assert!(bare.subset.is_empty());
    assert!(bare.restricts.is_empty());
    assert!(bare.borrow_live_at.is_empty());
    let dump = compute(true, f);
    assert_eq!(bare.errors, dump.errors);
    assert_eq!(pairs(&dump.errors), expected.errors);
    assert_eq!(pairs(&dump.region_live_at), expected.live);
    assert_eq!(pairs(&dump.borrow_live_at), expected.live_loans);
    assert_eq!(triples(&dump.restricts), expected.requires);
    let mut proper = expected.subset;
    proper.retain(|(r1, r2, _)| r1 != r2);
    assert_eq!(triples(&dump.subset), proper);
    dump
}

/// A small generator of numbers, for facts that nobody chose.
struct Numbers(u64);

impl Numbers {
    fn below(&mut self, bound: usize) -> usize {
        self.0 = self
            .0
            .wrapping_mul(6364136223846793005)
            .wrapping_add(1442695040888963407);
        ((self.0 >> 33) as usize) % bound
    }
}

fn some_facts(n: &mut Numbers) -> AllFacts {
    let (regions, loans, points) = (2 + n.below(5), 1 + n.below(3), 2 + n.below(5));
    let mut f = no_facts();
    for _ in 0..1 + n.below(4) {
        let row = (n.below(regions), n.below(loans), n.below(points));
        f.borrow_region.push(row);
    }
    if n.below(3) == 0 {
        f.universal_region.push(n.below(regions));
    }
    for _ in 0..1 + n.below(8) {
        let row = (n.below(points), n.below(points));
        f.cfg_edge.push(row);
    }
    for _ in 0..n.below(3) {
        let row = (n.below(loans), n.below(points));
        f.killed.push(row);
    }
    for _ in 0..n.below(12) {
        let row = (n.below(regions), n.below(regions), n.below(points));
        f.outlives.push(row);
    }
    for _ in 0..n.below(14) {
        let row = (n.below(regions), n.below(points));
        f.region_live_at.push(row);
    }
    for _ in 0..1 + n.below(8) {
        let row = (n.below(points), n.below(loans));
        f.invalidates.push(row);
    }
    f
}

#[test]
fn no_facts_give_no_output() {
    let output = compute(true, no_facts());
    assert!(output.dump_enabled);
    assert!(output.errors.is_empty());
    assert!(output.region_live_at.is_empty());
    assert!(output.subset.is_empty());
    assert!(output.restricts.is_empty());
    assert!(output.borrow_live_at.is_empty());
}

#[test]
fn a_live_loan_that_is_invalidated_is_an_error() {
    let mut f = straight_line();
    f.region_live_at = vec![(1, 10), (1, 11), (1, 12)];
    let output = compute(false, f.clone());
    assert!(!output.dump_enabled);
    assert_eq!(output.errors.len(), 1);
    assert_eq!(output.errors.get(&12), Some(&vec![7]));
    check_against_naive(f);
}

#[test]
fn a_loan_whose_region_is_dead_is_no_error() {
    let mut f = straight_line();
    f.region_live_at = vec![(1, 10), (1, 11)];
    assert!(compute(false, f.clone()).errors.is_empty());
    let output = check_against_naive(f);
    assert_eq!(output.borrow_live_at.get(&10), Some(&vec![7]));
    assert_eq!(output.borrow_live_at.get(&11), Some(&vec![7]));
    assert_eq!(output.borrow_live_at.get(&12), None);
}

#[test]
fn a_killed_loan_is_not_carried_on() {
    let mut f = straight_line();
    f.region_live_at = vec![(1, 10), (1, 11), (1, 12)];
    f.killed = vec![(7, 10)];
    assert!(compute(false, f.clone()).errors.is_empty());
    f.killed = vec![(7, 12)];
    assert_eq!(compute(false, f).errors.get(&12), Some(&vec![7]));
}

#[test]
fn a_loan_without_invalidation_is_no_error() {
    let mut f = straight_line();
    f.region_live_at = vec![(1, 10), (1, 11), (1, 12)];
    f.invalidates = vec![(13, 7), (12, 8)];
    assert!(compute(false, f).errors.is_empty());
}

#[test]
fn a_universal_region_is_live_at_every_point() {
    let mut f = straight_line();
    f.universal_region = vec![1];
    let output = check_against_naive(f);
    assert_eq!(output.errors.get(&12), Some(&vec![7]));
    let live: Vec<Point> = output.region_live_at.keys().copied().collect();
    assert_eq!(live, vec![10, 11, 12, 13]);
    assert_eq!(output.region_live_at.get(&13), Some(&vec![1]));
}

#[test]
fn points_are_the_ends_of_edges() {
    let mut f = straight_line();
    f.region_live_at = vec![(1, 99)];
    let points: Vec<Point> = f.points().iter().copied().collect();
    assert_eq!(points, vec![10, 11, 12, 13]);
}

#[test]
fn listing_live_regions_adds_the_universal_ones() {
    let mut f = straight_line();
    f.universal_region = vec![3];
    f.region_live_at = vec![(1, 99)];
    f.extend_region_live_at();
    assert_eq!(
        set(&f.region_live_at),
        set(&[(1, 99), (3, 10), (3, 11), (3, 12), (3, 13)])
    );
    let once = compute(true, f.clone());
    f.extend_region_live_at();
    assert_eq!(compute(true, f).errors, once.errors);
}

#[test]
fn a_dying_region_hands_its_loans_on() {
    // Region 1 dies along 10 -> 11; region 2, of which it is a subset at 10, lives on.
    let mut f = straight_line();
    f.outlives = vec![(1, 2, 10)];
    f.region_live_at = vec![(1, 10), (2, 11), (2, 12)];
    let output = check_against_naive(f);
    assert_eq!(output.errors.get(&12), Some(&vec![7]));
    assert_eq!(triples(&output.restricts), set(&[(1, 7, 10), (2, 7, 11), (2, 7, 12)]));
    assert_eq!(triples(&output.subset), set(&[(1, 2, 10)]));
}

#[test]
fn a_dying_region_reaches_through_dead_regions() {
    let mut f = straight_line();
    f.outlives = vec![(1, 3, 10), (3, 4, 10), (4, 2, 10)];
    f.region_live_at = vec![(2, 11), (2, 12)];
    let output = check_against_naive(f);
    assert_eq!(output.errors.get(&12), Some(&vec![7]));
}

#[test]
fn a_dying_region_does_not_reach_through_live_regions() {
    // Region 3 is live at 11, so the loan goes to region 3 there and not on to region 2.
    let mut f = straight_line();
    f.outlives = vec![(1, 3, 10), (3, 2, 10)];
    f.region_live_at = vec![(2, 11), (3, 11)];
    let output = check_against_naive(f);
    assert_eq!(triples(&output.restricts), set(&[(1, 7, 10), (3, 7, 11)]));
    assert_eq!(triples(&output.subset), set(&[(1, 3, 10), (3, 2, 10), (3, 2, 11)]));
}

#[test]
fn a_live_region_takes_over_what_a_dying_one_reaches() {
    let mut f = no_facts();
    f.cfg_edge = vec![(10, 11)];
    f.outlives = vec![(1, 2, 10), (2, 3, 10)];
    f.region_live_at = vec![(1, 11), (3, 11)];
    let output = check_against_naive(f);
    assert_eq!(triples(&output.subset), set(&[(1, 2, 10), (2, 3, 10), (1, 3, 11)]));
}

#[test]
fn a_loan_that_is_created_dead_is_live_through_a_live_region() {
    let mut f = no_facts();
    f.borrow_region = vec![(1, 7, 10)];
    f.outlives = vec![(1, 2, 10), (2, 3, 10)];
    f.region_live_at = vec![(3, 10)];
    f.invalidates = vec![(10, 7)];
    let output = check_against_naive(f.clone());
    assert_eq!(output.errors.get(&10), Some(&vec![7]));
    f.region_live_at = vec![];
    assert!(compute(false, f).errors.is_empty());
}

#[test]
fn self_subsets_are_not_reported_and_change_nothing() {
    let mut f = straight_line();
    f.outlives = vec![(1, 2, 10)];
    f.region_live_at = vec![(1, 10), (2, 11), (2, 12)];
    let without = check_against_naive(f.clone());
    f.outlives.push((1, 1, 10));
    f.outlives.push((2, 2, 10));
    f.outlives.push((3, 3, 10));
    let with = check_against_naive(f);
    assert_eq!(with.errors, without.errors);
    assert_eq!(with.restricts, without.restricts);
    assert_eq!(with.borrow_live_at, without.borrow_live_at);
    assert_eq!(with.subset, without.subset);
}

#[test]
fn only_self_subsets_come_to_an_end() {
    let mut f = no_facts();
    f.cfg_edge = vec![(10, 10)];
    f.outlives = vec![(1, 1, 10)];
    f.region_live_at = vec![(1, 10)];
    assert!(compute(true, f).subset.is_empty());
}

#[test]
fn order_and_repetition_of_facts_change_nothing() {
    let mut f = straight_line();
    f.outlives = vec![(1, 2, 10)];
    f.region_live_at = vec![(1, 10), (2, 11), (2, 12)];
    let once = compute(true, f.clone());
    f.cfg_edge.reverse();
    f.region_live_at.reverse();
    f.cfg_edge.push((10, 11));
    f.outlives.push((1, 2, 10));
    f.invalidates.push((12, 7));
    f.borrow_region.push((1, 7, 10));
    let again = compute(true, f);
    assert_eq!(again.errors, once.errors);
    assert_eq!(again.subset, once.subset);
    assert_eq!(again.restricts, once.restricts);
    assert_eq!(again.borrow_live_at, once.borrow_live_at);
    assert_eq!(again.region_live_at, once.region_live_at);
}

#[test]
fn lists_by_point_rise() {
    let mut f = no_facts();
    f.borrow_region = vec![(1, 9, 10), (1, 2, 10), (1, 5, 10)];
    f.region_live_at = vec![(4, 10), (1, 10), (3, 10)];
    f.invalidates = vec![(10, 5), (10, 9), (10, 2)];
    let output = compute(true, f);
    assert_eq!(output.errors.get(&10), Some(&vec![2, 5, 9]));
    assert_eq!(output.borrow_live_at.get(&10), Some(&vec![2, 5, 9]));
    assert_eq!(output.region_live_at.get(&10), Some(&vec![1, 3, 4]));
    assert_eq!(
        output.restricts.get(&10).and_then(|tree| tree.get(&1)),
        Some(&set(&[2, 5, 9]))
    );
}

#[test]
fn a_loop_carries_a_loan_round() {
    let mut f = no_facts();
    f.borrow_region = vec![(1, 7, 11)];
    f.cfg_edge = vec![(10, 11), (11, 12), (12, 10)];
    f.region_live_at = vec![(1, 10), (1, 11), (1, 12)];
    f.invalidates = vec![(10, 7)];
    assert_eq!(compute(false, f.clone()).errors.get(&10), Some(&vec![7]));
    check_against_naive(f);
}

#[test]
fn more_facts_give_no_fewer_errors() {
    let mut n = Numbers(11);
    for _ in 0..100 {
        let f = some_facts(&mut n);
        let fewer = pairs(&compute(false, f.clone()).errors);
        let mut g = f.clone();
        g.outlives.push((n.below(6), n.below(6), n.below(6)));
        g.borrow_region.push((n.below(6), n.below(3), n.below(6)));
        g.invalidates.push((n.below(6), n.below(3)));
        g.killed.clear();
        let more = pairs(&compute(false, g).errors);
        assert!(fewer.is_subset(&more));
    }
}

#[test]
fn only_created_loans_are_reported() {
    let mut n = Numbers(12);
    for _ in 0..100 {
        let f = some_facts(&mut n);
        let created: BTreeSet<Loan> = f.borrow_region.iter().map(|(_, b, _)| *b).collect();
        for (b, p) in pairs(&compute(false, f.clone()).errors) {
            assert!(created.contains(&b));
            assert!(f.invalidates.contains(&(p, b)));
        }
    }
}

#[test]
fn many_facts_agree_with_the_rules_applied_naively() {
    let mut n = Numbers(1);
    let mut reported = 0;
    for _ in 0..1500 {
        let output = check_against_naive(some_facts(&mut n));
        reported += output.errors.len();
    }
    assert!(reported > 300);
}

#[test]
fn large_numbers_are_fine() {
    let top = usize::MAX;
    let mut f = no_facts();
    f.borrow_region = vec![(top, top, top - 1)];
    f.cfg_edge = vec![(top - 1, top)];
    f.universal_region = vec![top];
    f.invalidates = vec![(top, top)];
    assert_eq!(compute(false, f).errors.get(&top), Some(&vec![top]));
}

/// The errors of the plain analysis, in which `subset` is transitive at every point.
fn plain_errors(f: &AllFacts) -> BTreeSet<(Loan, Point)> {
    let live = naive(f).live;
    let killed = set(&f.killed);
    let mut subset = set(&f.outlives);
    let mut requires = set(&f.borrow_region);
    loop {
        let size = subset.len() + requires.len();
        for (r1, r2, p) in subset.clone() {
            for (s, r3, q) in subset.clone() {
                if s == r2 && q == p {
                    subset.insert((r1, r3, p));
                }
            }
            for (s, b, q) in requires.clone() {
                if s == r1 && q == p {
                    requires.insert((r2, b, p));
                }
            }
            for (e, q) in &f.cfg_edge {
                if *e == p && live.contains(&(r1, *q)) && live.contains(&(r2, *q)) {
                    subset.insert((r1, r2, *q));
                }
            }
        }
        for (r, b, p) in requires.clone() {
            for (e, q) in &f.cfg_edge {
                if *e == p && !killed.contains(&(b, p)) && live.contains(&(r, *q)) {
                    requires.insert((r, b, *q));
                }
            }
        }
        if size == subset.len() + requires.len() {
            break;
        }
    }
    let invalidates = set(&f.invalidates);
    requires
        .into_iter()
        .filter(|(r, b, p)| live.contains(&(*r, *p)) && invalidates.contains(&(*p, *b)))
        .map(|(_, b, p)| (b, p))
        .collect()
}

#[test]
fn the_errors_are_those_of_the_transitive_analysis() {
    // Region 1 holds the loan and flows into 3 through 2, which is dead where the loan is
    // invalidated.
    let mut f = no_facts();
    f.borrow_region = vec![(1, 7, 10)];
    f.cfg_edge = vec![(10, 11)];
    f.outlives = vec![(1, 2, 10), (2, 3, 10)];
    f.region_live_at = vec![(3, 11)];
    f.invalidates = vec![(11, 7)];
    assert_eq!(plain_errors(&f), set(&[(7, 11)]));
    assert_eq!(pairs(&compute(false, f).errors), set(&[(7, 11)]));

    let mut n = Numbers(21);
    let mut reported = 0;
    for _ in 0..300 {
        let f = some_facts(&mut n);
        let errors = pairs(&compute(false, f.clone()).errors);
        assert_eq!(errors, plain_errors(&f));
        reported += errors.len();
    }
    assert!(reported > 60);
}

#[test]
fn more_edges_and_more_live_regions_give_no_fewer_errors() {
    // Once region 1 is live at 11, it carries the loan on by itself.
    let mut f = straight_line();
    f.outlives = vec![(1, 2, 10)];
    f.region_live_at = vec![(2, 11), (2, 12)];
    let mut g = f.clone();
    g.region_live_at.push((1, 11));
    assert_eq!(pairs(&compute(false, f).errors), set(&[(7, 12)]));
    assert_eq!(pairs(&compute(false, g).errors), set(&[(7, 12)]));

    let mut n = Numbers(22);
    for _ in 0..300 {
        let f = some_facts(&mut n);
        let mut g = f.clone();
        for _ in 0..3 {
            g.region_live_at.push((n.below(6), n.below(6)));
        }
        g.cfg_edge.push((n.below(6), n.below(6)));
        g.universal_region.push(n.below(6));
        g.outlives.push((n.below(6), n.below(6), n.below(6)));
        g.borrow_region.push((n.below(6), n.below(3), n.below(6)));
        g.invalidates.push((n.below(6), n.below(3)));
        g.killed.pop();
        let (fewer, more) = (compute(true, f), compute(true, g));
        assert!(pairs(&fewer.errors).is_subset(&pairs(&more.errors)));
        assert!(pairs(&fewer.borrow_live_at).is_subset(&pairs(&more.borrow_live_at)));
    }
}

#[test]
fn other_names_give_the_same_output_under_those_names() {
    let region = |r: Region| 1000 - 3 * r;
    let loan = |b: Loan| b + 50;
    let point = |p: Point| usize::MAX - p;
    let mut n = Numbers(23);
    for _ in 0..100 {
        let f = some_facts(&mut n);
        let g = AllFacts {
            borrow_region: f
                .borrow_region
                .iter()
                .map(|t| (region(t.0), loan(t.1), point(t.2)))
                .collect(),
            universal_region: f.universal_region.iter().map(|r| region(*r)).collect(),
            cfg_edge: f.cfg_edge.iter().map(|t| (point(t.0), point(t.1))).collect(),
            killed: f.killed.iter().map(|t| (loan(t.0), point(t.1))).collect(),
            outlives: f
                .outlives
                .iter()
                .map(|t| (region(t.0), region(t.1), point(t.2)))
                .collect(),
            region_live_at: f
                .region_live_at
                .iter()
                .map(|t| (region(t.0), point(t.1)))
                .collect(),
            invalidates: f.invalidates.iter().map(|t| (point(t.0), loan(t.1))).collect(),
        };
        let (a, b) = (compute(true, f), compute(true, g));
        let loans = |s: BTreeSet<(Loan, Point)>| -> BTreeSet<(Loan, Point)> {
            s.into_iter().map(|t| (loan(t.0), point(t.1))).collect()
        };
        assert_eq!(loans(pairs(&a.errors)), pairs(&b.errors));
        assert_eq!(loans(pairs(&a.borrow_live_at)), pairs(&b.borrow_live_at));
        let live: BTreeSet<(Region, Point)> = pairs(&a.region_live_at)
            .into_iter()
            .map(|t| (region(t.0), point(t.1)))
            .collect();
        assert_eq!(live, pairs(&b.region_live_at));
        let subset: BTreeSet<(Region, Region, Point)> = triples(&a.subset)
            .into_iter()
            .map(|t| (region(t.0), region(t.1), point(t.2)))
            .collect();
        assert_eq!(subset, triples(&b.subset));
        let restricts: BTreeSet<(Region, Loan, Point)> = triples(&a.restricts)
            .into_iter()
            .map(|t| (region(t.0), loan(t.1), point(t.2)))
            .collect();
        assert_eq!(restricts, triples(&b.restricts));
    }
}
