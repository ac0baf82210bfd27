//! The analysis: from the facts of a function to the loans that it violates.
use crate::engine::{ascending, elements, relation, relation_rows};
use crate::evaluation::{
    finished, finished_is_derived, initial, initial_step_establishes, invariant_holds, round_keeps,
};
use crate::facts::{AllFacts, Facts, Loan, Point, Region};
use crate::lists::{convert, converted_contains};
use crate::output::{group, group_nested, groups, groups_nested, Output};
use crate::paths::{errors_are_listed_as_invalidated, live_output_is_what_is_listed};
use crate::plan::Sheet;
use crate::rules::{derived, proper_subset};
use crate::tables::Tables;
use crate::termination::{height, round_makes_progress, total_room};
use datafrog::Relation;
use vstd::prelude::*;

verus! {

/// Makes the facts `f` pending, where `region_live_at` lists all that is live.
fn load(
    tables: &mut Tables,
    cfg_edge: Vec<(Point, Point)>,
    invalidates: &Vec<(Point, Loan)>,
    region_live_at: &Vec<(Region, Point)>,
    outlives: Vec<(Region, Region, Point)>,
    borrow_region: Vec<(Region, Loan, Point)>,
    Ghost(f): Ghost<Facts>,
)
    requires
        old(tables).well_formed(),
        old(tables).state().stable == Sheet::empty(),
        old(tables).state().recent == Sheet::empty(),
        old(tables).state().pending == Sheet::empty(),
        cfg_edge@.to_set() == f.cfg_edge,
        invalidates@.to_set() == f.invalidates,
        region_live_at@.to_set() == f.live_set(),
        outlives@.to_set() == f.outlives,
        borrow_region@.to_set() == f.borrow_region,
    ensures
        final(tables).well_formed(),
        final(tables).state() == initial(f),
{
    let ghost by_loan = |t: (Point, Loan)| ((t.1, t.0), ());
    let invalidates_bp = convert(
        invalidates,
        |t: &(Point, Loan)| -> (row: ((Loan, Point), ()))
            ensures
                row == ((t.1, t.0), ())
            { ((t.1, t.0), ()) },
        Ghost(by_loan),
    );
    let ghost as_key = |t: (Region, Point)| (t, ());
    let region_live_at_rp = convert(
        region_live_at,
        |t: &(Region, Point)| -> (row: ((Region, Point), ()))
            ensures
                row == (*t, ())
            { (*t, ()) },
        Ghost(as_key),
    );
    let ghost by_region = |t: (Region, Loan, Point)| ((t.0, t.2), t.1);
    let borrow_region_rp = convert(
        &borrow_region,
        |t: &(Region, Loan, Point)| -> (row: ((Region, Point), Loan))
            ensures
                row == ((t.0, t.2), t.1)
            { ((t.0, t.2), t.1) },
        Ghost(by_region),
    );
    proof {
        let wanted = initial(f).pending;
        assert forall|t: ((Loan, Point), ())| #[trigger]
            invalidates_bp@.to_set().contains(t) <==> wanted.invalidates.contains(t) by {
            let source = (t.0.1, t.0.0);
            converted_contains(invalidates@, by_loan, t);
            assert(f.invalidates.contains(source) <==> invalidates@.contains(source));
            assert(by_loan(source) == t);
        }
        assert forall|t: ((Region, Point), ())| #[trigger]
            region_live_at_rp@.to_set().contains(t) <==> wanted.region_live_at.contains(t) by {
            converted_contains(region_live_at@, as_key, t);
            assert(f.live_set().contains(t.0) <==> region_live_at@.contains(t.0));
            assert(as_key(t.0) == t);
        }
        assert forall|t: ((Region, Point), Loan)| #[trigger]
            borrow_region_rp@.to_set().contains(t) <==> wanted.borrow_region_rp.contains(t) by {
            let source = (t.0.0, t.1, t.0.1);
            converted_contains(borrow_region@, by_region, t);
            assert(f.borrow_region.contains(source) <==> borrow_region@.contains(source));
            assert(by_region(source) == t);
        }
        assert(invalidates_bp@.to_set() =~= wanted.invalidates);
        assert(region_live_at_rp@.to_set() =~= wanted.region_live_at);
        assert(borrow_region_rp@.to_set() =~= wanted.borrow_region_rp);
    }
    tables.load(
        cfg_edge,
        invalidates_bp,
        region_live_at_rp,
        borrow_region_rp,
        outlives,
        borrow_region,
    );
}

/// Applies the rules until they add nothing.
fn saturate(
    tables: &mut Tables,
    live: &Relation<(Region, Point)>,
    killed: &Relation<(Loan, Point)>,
    Ghost(f): Ghost<Facts>,
)
    requires
        old(tables).well_formed(),
        old(tables).state() == initial(f),
        ascending(relation_rows(*live)),
        ascending(relation_rows(*killed)),
        relation_rows(*live).to_set() == f.live_set(),
        relation_rows(*killed).to_set() == f.killed,
    ensures
        finished(f, final(tables).state().stable),
        final(tables).state().recent.is_empty(),
        final(tables).state().pending.is_empty(),
{
    proof {
        initial_step_establishes(f);
    }
    let mut more = tables.step();
    while more
        invariant
            tables.well_formed(),
            invariant_holds(f, tables.state()),
            more == !tables.state().recent.is_empty(),
            ascending(relation_rows(*live)),
            ascending(relation_rows(*killed)),
            relation_rows(*live).to_set() == f.live_set(),
            relation_rows(*killed).to_set() == f.killed,
        decreases total_room(tables.state().stable), height(tables.state().recent),
    {
        proof {
            round_keeps(f, tables.state());
            round_makes_progress(f, tables.state());
        }
        tables.remove_reflexive();
        tables.apply_rules(live, killed);
        more = tables.step();
    }
    assert(tables.state().stable.union(tables.state().recent) =~~= tables.state().stable);
}

/// Finds the loans that are invalidated while they are live. Where `dump_enabled` is set, the
/// output tells the relations behind the errors too.
pub fn compute(dump_enabled: bool, all_facts: AllFacts) -> (output: Output)
    ensures
        output.dump_enabled == dump_enabled,
        groups(output.errors@, derived(all_facts@).errors),
        dump_enabled ==> groups(output.region_live_at@, all_facts@.live_set()),
        dump_enabled ==> groups_nested(output.subset@, proper_subset(derived(all_facts@))),
        dump_enabled ==> groups_nested(output.restricts@, derived(all_facts@).region_requires),
        dump_enabled ==> groups(output.borrow_live_at@, derived(all_facts@).borrow_live_at),
        dump_enabled ==> forall|r: Region, p: Point|
            output.region_live_at@.contains_key(p)
                && #[trigger] output.region_live_at@[p]@.contains(r)
                ==> all_facts.region_live_at@.contains((r, p))
                || (all_facts.universal_region@.contains(r) && exists|q: Point|
                #![trigger all_facts.cfg_edge@.contains((p, q))]
                #![trigger all_facts.cfg_edge@.contains((q, p))]
                all_facts.cfg_edge@.contains((p, q)) || all_facts.cfg_edge@.contains((q, p))),
        dump_enabled ==> forall|r: Region, p: Point| #[trigger]
            all_facts.region_live_at@.contains((r, p))
                ==> output.region_live_at@.contains_key(p)
                    && output.region_live_at@[p]@.contains(r),
        dump_enabled ==> forall|r: Region, p: Point, q: Point| #[trigger]
            all_facts.universal_region@.contains(r)
                && #[trigger] all_facts.cfg_edge@.contains((p, q))
                ==> output.region_live_at@.contains_key(p)
                    && output.region_live_at@[p]@.contains(r)
                    && output.region_live_at@.contains_key(q)
                && output.region_live_at@[q]@.contains(r),
        dump_enabled ==> forall|b: Loan, p: Point|
            output.errors@.contains_key(p) && #[trigger] output.errors@[p]@.contains(b)
                ==> all_facts.invalidates@.contains((p, b)) && output.borrow_live_at@.contains_key(
                p,
            ) && output.borrow_live_at@[p]@.contains(b),
        dump_enabled ==> forall|b: Loan, p: Point| #[trigger]
            all_facts.invalidates@.contains((p, b)) && output.borrow_live_at@.contains_key(p)
                && output.borrow_live_at@[p]@.contains(b) ==> output.errors@.contains_key(p)
                && output.errors@[p]@.contains(b),
        !dump_enabled ==> output.region_live_at@.is_empty(),
        !dump_enabled ==> output.subset@.is_empty(),
        !dump_enabled ==> output.restricts@.is_empty(),
        !dump_enabled ==> output.borrow_live_at@.is_empty(),
{
    let ghost f = all_facts@;
    let ghost given = all_facts;
    let mut all_facts = all_facts;
    all_facts.extend_region_live_at();

    let mut tables = Tables::new();
    load(
        &mut tables,
        all_facts.cfg_edge,
        &all_facts.invalidates,
        &all_facts.region_live_at,
        all_facts.outlives,
        all_facts.borrow_region,
        Ghost(f),
    );
    let live = relation(all_facts.region_live_at);
    let killed = relation(all_facts.killed);
    saturate(&mut tables, &live, &killed, Ghost(f));
    proof {
        finished_is_derived(f, tables.state().stable);
    }

    let mut result = Output::new(dump_enabled);
    if dump_enabled {
        let results = tables.results();
        let ghost as_pair = |t: ((Loan, Point), ())| t.0;
        let borrow_live_at = convert(
            &results.borrow_live_at,
            |t: &((Loan, Point), ())| -> (row: (Loan, Point))
                ensures
                    row == t.0
                { t.0 },
            Ghost(as_pair),
        );
        proof {
            assert forall|t: (Loan, Point)| #[trigger]
                borrow_live_at@.to_set().contains(t) <==> derived(f).borrow_live_at.contains(t) by {
                converted_contains(results.borrow_live_at@, as_pair, t);
                let rows = results.borrow_live_at@;
                assert(rows.to_set().contains((t, ())) <==> rows.contains((t, ())));
                assert(as_pair((t, ())) == t);
                if exists|s: ((Loan, Point), ())| #[trigger] rows.contains(s) && as_pair(s) == t {
                    let s = choose|s: ((Loan, Point), ())| #[trigger]
                        rows.contains(s) && as_pair(s) == t;
                    assert(s == (t, ()));
                }
            }
            assert(borrow_live_at@.to_set() =~= derived(f).borrow_live_at);
        }
        result.region_live_at = group(&elements(live));
        result.subset = group_nested(&results.subset);
        result.restricts = group_nested(&results.region_requires);
        result.borrow_live_at = group(&borrow_live_at);
        result.errors = group(&results.errors);
        proof {
            live_output_is_what_is_listed(given, result.region_live_at@);
            assert forall|b: Loan, p: Point|
                result.errors@.contains_key(p) && #[trigger] result.errors@[p]@.contains(b)
                implies given.invalidates@.contains((p, b)) && result.borrow_live_at@.contains_key(
                p,
            ) && result.borrow_live_at@[p]@.contains(b) by {
                errors_are_listed_as_invalidated(given, b, p);
                assert(derived(f).errors.contains((b, p)));
                assert(derived(f).borrow_live_at.contains((b, p)));
            }
            assert forall|b: Loan, p: Point| #[trigger]
                given.invalidates@.contains((p, b)) && result.borrow_live_at@.contains_key(p)
                    && result.borrow_live_at@[p]@.contains(b)
                implies result.errors@.contains_key(p) && result.errors@[p]@.contains(b) by {
                errors_are_listed_as_invalidated(given, b, p);
                assert(derived(f).borrow_live_at.contains((b, p)));
                assert(derived(f).errors.contains((b, p)));
            }
        }
    } else {
        result.errors = group(&tables.errors());
    }
    result
}

} // verus!
