//! Lists as sets.
use vstd::prelude::*;

verus! {

/// A prefix that is longer by one holds one more element.
pub proof fn take_one_more<T>(rows: Seq<T>, i: int)
    requires
        0 <= i < rows.len(),
    ensures
        rows.take(i + 1).to_set() == rows.take(i).to_set().insert(rows[i]),
{
    let longer = rows.take(i + 1);
    let more = longer.to_set();
    let fewer = rows.take(i).to_set().insert(rows[i]);
    assert forall|t: T| fewer.contains(t) implies more.contains(t) by {
        let j = if t == rows[i] {
            i
        } else {
            choose|j: int| 0 <= j < i && rows.take(i)[j] == t
        };
        assert(longer[j] == t);
    }
    assert forall|t: T| more.contains(t) implies fewer.contains(t) by {
        let j = choose|j: int| 0 <= j < longer.len() && longer[j] == t;
        if j < i {
            assert(rows.take(i)[j] == t);
        }
    }
    assert(more =~= fewer);
}

/// The list of what `logic` makes of each element, where it computes `f`.
pub(crate) fn convert<S, T>(
    rows: &Vec<S>,
    logic: impl Fn(&S) -> T,
    Ghost(f): Ghost<spec_fn(S) -> T>,
) -> (converted: Vec<T>)
    requires
        forall|s: S| #[trigger] call_requires(logic, (&s,)),
        forall|s: S, t: T| #[trigger] call_ensures(logic, (&s,), t) ==> t == f(s),
    ensures
        converted@ == rows@.map_values(f),
{
    let mut converted: Vec<T> = Vec::new();
    let mut i: usize = 0;
    while i < rows.len()
        invariant
            i <= rows.len(),
            forall|s: S| #[trigger] call_requires(logic, (&s,)),
            forall|s: S, t: T| #[trigger] call_ensures(logic, (&s,), t) ==> t == f(s),
            converted@ == rows@.take(i as int).map_values(f),
        decreases rows.len() - i,
    {
        converted.push(logic(&rows[i]));
        i = i + 1;
    }
    converted
}

/// A converted list holds just what the conversion makes of the elements.
pub proof fn converted_contains<S, T>(rows: Seq<S>, f: spec_fn(S) -> T, t: T)
    ensures
        rows.map_values(f).contains(t) <==> exists|s: S| #[trigger] rows.contains(s) && f(s) == t,
{
    if rows.map_values(f).contains(t) {
        let i = choose|i: int| 0 <= i < rows.len() && rows.map_values(f)[i] == t;
        assert(rows.contains(rows[i]));
    }
    if exists|s: S| #[trigger] rows.contains(s) && f(s) == t {
        let s = choose|s: S| #[trigger] rows.contains(s) && f(s) == t;
        let i = choose|i: int| 0 <= i < rows.len() && rows[i] == s;
        assert(rows.map_values(f)[i] == t);
    }
}

} // verus!
