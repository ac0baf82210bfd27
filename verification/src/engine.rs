//! The Datalog engine, as far as the analysis uses it: variables of the `datafrog` crate, which
//! hold tuples of integers, and the rules that fill them.
//!
//! A `datafrog` variable is a handle to state that it shares with the iteration that made it,
//! and its methods change that state through a shared reference. Here each function takes what
//! it changes by `&mut`. No function of this crate clones a variable, so a variable is reached
//! through one owner and through its iteration only, and [`Contents`] says what it holds.
use datafrog::{Iteration, Relation, Variable};
use vstd::prelude::*;

verus! {

/// What a variable holds. A tuple that is added is `pending` at first, where no rule sees it.
/// The next step of the iteration makes it `recent`, so that rules see it as new, and the step
/// after that makes it `stable`.
#[verifier::ext_equal]
#[verifier::reject_recursive_types(T)]
pub struct Contents<T> {
    /// Tells this variable from every other one.
    pub id: int,
    /// Whether a tuple that is already stable is kept from becoming recent again.
    pub distinct: bool,
    pub stable: Set<T>,
    pub recent: Set<T>,
    pub pending: Set<T>,
}

impl<T> Contents<T> {
    /// A new variable.
    pub open spec fn fresh(id: int, distinct: bool) -> Self {
        Contents { id, distinct, stable: Set::empty(), recent: Set::empty(), pending: Set::empty() }
    }

    /// With `tuples` pending besides.
    pub open spec fn adding(self, tuples: Set<T>) -> Self {
        Contents { pending: self.pending.union(tuples), ..self }
    }

    /// One step of the iteration later.
    pub open spec fn advanced(self) -> Self {
        let stable = self.stable.union(self.recent);
        Contents {
            stable,
            recent: if self.distinct {
                self.pending.difference(stable)
            } else {
                self.pending
            },
            pending: Set::empty(),
            ..self
        }
    }
}

/// `datafrog::Iteration`: the variables of one evaluation, which it steps together.
#[verifier::external_type_specification]
#[verifier::external_body]
pub struct ExIteration(Iteration);

/// `datafrog::Relation`: a list of distinct tuples in ascending order, which does not change.
#[verifier::external_type_specification]
#[verifier::external_body]
#[verifier::reject_recursive_types(Tuple)]
pub struct ExRelation<Tuple: Ord>(Relation<Tuple>);

/// `datafrog::Variable`: a set of tuples that grows.
#[verifier::external_type_specification]
#[verifier::external_body]
#[verifier::reject_recursive_types(Tuple)]
pub struct ExVariable<Tuple: Ord>(Variable<Tuple>);

/// The variables that an iteration steps, by their `id`, in the order in which it made them.
pub uninterp spec fn members(iteration: Iteration) -> Seq<int>;

/// The tuples of a relation, in its order.
pub uninterp spec fn relation_rows(relation: Relation<(usize, usize)>) -> Seq<(usize, usize)>;

/// What a variable with tuples of this shape holds: pairs.
pub uninterp spec fn pair_contents(variable: Variable<(usize, usize)>) -> Contents<(usize, usize)>;

/// What a variable with tuples of this shape holds: triples.
pub uninterp spec fn triple_contents(
    variable: Variable<(usize, usize, usize)>,
) -> Contents<(usize, usize, usize)>;

/// What a variable with tuples of this shape holds: pairs that are keys without a value.
pub uninterp spec fn pair_to_unit_contents(
    variable: Variable<((usize, usize), ())>,
) -> Contents<((usize, usize), ())>;

/// What a variable with tuples of this shape holds: a pair as key and one value.
pub uninterp spec fn pair_to_one_contents(
    variable: Variable<((usize, usize), usize)>,
) -> Contents<((usize, usize), usize)>;

/// What a variable with tuples of this shape holds: one key and a pair as value.
pub uninterp spec fn one_to_pair_contents(
    variable: Variable<(usize, (usize, usize))>,
) -> Contents<(usize, (usize, usize))>;

/// What a variable with tuples of this shape holds: a triple as key and one value.
pub uninterp spec fn triple_to_one_contents(
    variable: Variable<((usize, usize, usize), usize)>,
) -> Contents<((usize, usize, usize), usize)>;

/// What a variable with tuples of this shape holds: a pair as key and a pair as value.
pub uninterp spec fn pair_to_pair_contents(
    variable: Variable<((usize, usize), (usize, usize))>,
) -> Contents<((usize, usize), (usize, usize))>;

/// A variable whose contents have a name.
pub trait Tuples<T>: Sized {
    spec fn contents(self) -> Contents<T>;
}

impl Tuples<(usize, usize)> for Variable<(usize, usize)> {
    open spec fn contents(self) -> Contents<(usize, usize)> {
        pair_contents(self)
    }
}

impl Tuples<(usize, usize, usize)> for Variable<(usize, usize, usize)> {
    open spec fn contents(self) -> Contents<(usize, usize, usize)> {
        triple_contents(self)
    }
}

impl Tuples<((usize, usize), ())> for Variable<((usize, usize), ())> {
    open spec fn contents(self) -> Contents<((usize, usize), ())> {
        pair_to_unit_contents(self)
    }
}

impl Tuples<((usize, usize), usize)> for Variable<((usize, usize), usize)> {
    open spec fn contents(self) -> Contents<((usize, usize), usize)> {
        pair_to_one_contents(self)
    }
}

impl Tuples<(usize, (usize, usize))> for Variable<(usize, (usize, usize))> {
    open spec fn contents(self) -> Contents<(usize, (usize, usize))> {
        one_to_pair_contents(self)
    }
}

impl Tuples<((usize, usize, usize), usize)> for Variable<((usize, usize, usize), usize)> {
    open spec fn contents(self) -> Contents<((usize, usize, usize), usize)> {
        triple_to_one_contents(self)
    }
}

impl Tuples<((usize, usize), (usize, usize))> for Variable<((usize, usize), (usize, usize))> {
    open spec fn contents(self) -> Contents<((usize, usize), (usize, usize))> {
        pair_to_pair_contents(self)
    }
}

/// Tuples that come in order.
pub trait Row: Sized {
    /// The lexicographic order.
    spec fn before(self, other: Self) -> bool;
}

impl Row for (usize, usize) {
    open spec fn before(self, other: Self) -> bool {
        self.0 < other.0 || (self.0 == other.0 && self.1 < other.1)
    }
}

impl Row for ((usize, usize), ()) {
    open spec fn before(self, other: Self) -> bool {
        self.0.before(other.0)
    }
}

impl Row for (usize, usize, usize) {
    open spec fn before(self, other: Self) -> bool {
        self.0 < other.0 || (self.0 == other.0 && (self.1, self.2).before((other.1, other.2)))
    }
}

/// Each row comes before those that follow it; so none occurs twice.
pub open spec fn ascending<T: Row>(rows: Seq<T>) -> bool {
    forall|i: int, j: int| 0 <= i < j < rows.len()
        ==> (#[trigger] rows[i]).before(#[trigger] rows[j])
}

/// `datafrog::Iteration::new` makes an iteration without variables.
pub assume_specification[ Iteration::new ]() -> (iteration: Iteration)
    ensures
        members(iteration) == Seq::<int>::empty(),
;

/// `datafrog::Iteration::variable` makes an empty variable, whose tuples are kept distinct, as
/// the last member of the iteration. The name serves for debugging alone.
#[verifier::external_body]
pub(crate) fn variable<T: Ord + 'static>(
    iteration: &mut Iteration,
    name: &str,
) -> (variable: Variable<T>) where Variable<T>: Tuples<T>
    ensures
        variable.contents() == Contents::<T>::fresh(variable.contents().id, true),
        members(*final(iteration)) == members(*old(iteration)).push(variable.contents().id),
{
    iteration.variable(name)
}

/// `datafrog::Iteration::variable_indistinct` makes an empty variable, whose tuples may become
/// recent again, as the last member of the iteration. The name serves for debugging alone.
#[verifier::external_body]
pub(crate) fn variable_indistinct<T: Ord + 'static>(
    iteration: &mut Iteration,
    name: &str,
) -> (variable: Variable<T>) where Variable<T>: Tuples<T>
    ensures
        variable.contents() == Contents::<T>::fresh(variable.contents().id, false),
        members(*final(iteration)) == members(*old(iteration)).push(variable.contents().id),
{
    iteration.variable_indistinct(name)
}

/// `datafrog::Variable::insert`, on a `datafrog::Relation` made of `rows`, makes the rows
/// pending.
#[verifier::external_body]
pub(crate) fn insert<T: Ord>(variable: &mut Variable<T>, rows: Vec<T>) where Variable<T>: Tuples<T>
    ensures
        final(variable).contents() == old(variable).contents().adding(rows@.to_set()),
{
    variable.insert(Relation::from(rows))
}

/// `datafrog::Relation::from` puts the rows in ascending order and drops those that occur
/// again.
#[verifier::external_body]
pub(crate) fn relation(rows: Vec<(usize, usize)>) -> (relation: Relation<(usize, usize)>)
    ensures
        ascending(relation_rows(relation)),
        relation_rows(relation).to_set() == rows@.to_set(),
{
    Relation::from(rows)
}

/// The field `elements` of a `datafrog::Relation` is the list of its tuples.
#[verifier::external_body]
pub(crate) fn elements(relation: Relation<(usize, usize)>) -> (rows: Vec<(usize, usize)>)
    ensures
        rows@ == relation_rows(relation),
{
    relation.elements
}

/// `datafrog::Variable::complete` hands out the stable tuples in ascending order, each once. It
/// panics where a tuple is still recent or pending.
#[verifier::external_body]
pub(crate) fn complete<T: Ord + Row>(variable: Variable<T>) -> (rows: Vec<T>) where
    Variable<T>: Tuples<T>

    requires
        variable.contents().recent.is_empty(),
        variable.contents().pending.is_empty(),
    ensures
        ascending(rows@),
        rows@.to_set() == variable.contents().stable,
{
    variable.complete().elements
}

/// `after` is `before` without those recent tuples that `keep` rejects.
pub open spec fn retained<T, F: Fn(&T) -> bool>(
    before: Contents<T>,
    after: Contents<T>,
    keep: F,
) -> bool {
    &&& after == Contents { recent: after.recent, ..before }
    &&& after.recent.subset_of(before.recent)
    &&& forall|t: T| #[trigger]
        before.recent.contains(t) ==> call_ensures(keep, (&t,), after.recent.contains(t))
}

/// `Vec::retain`, on the field `elements` of the field `recent` of a `datafrog::Variable`, asks
/// `keep` about each recent tuple, once, and drops those for which it returns `false`.
#[verifier::external_body]
pub(crate) fn retain_recent<T: Ord>(variable: &mut Variable<T>, keep: impl Fn(&T) -> bool) where
    Variable<T>: Tuples<T>

    requires
        forall|t: T| #[trigger]
            old(variable).contents().recent.contains(t) ==> call_requires(keep, (&t,)),
    ensures
        retained(old(variable).contents(), final(variable).contents(), keep),
{
    variable.recent.borrow_mut().elements.retain(keep)
}

/// `(k, a)` and `(k, b)` are two tuples with one key, of which one at least is recent.
pub open spec fn meet<K, A, B>(
    left: Set<(K, A)>,
    left_recent: Set<(K, A)>,
    right: Set<(K, B)>,
    right_recent: Set<(K, B)>,
    k: K,
    a: A,
    b: B,
) -> bool {
    ||| left_recent.contains((k, a)) && right.contains((k, b))
    ||| left.contains((k, a)) && right_recent.contains((k, b))
    ||| left_recent.contains((k, a)) && right_recent.contains((k, b))
}

/// `after` is `before` with, pending besides, what `logic` makes of the tuples that meet:
/// something of each two, and nothing else.
pub open spec fn joined<K, A, B, T, F: Fn(&K, &A, &B) -> T>(
    before: Contents<T>,
    after: Contents<T>,
    left: Contents<(K, A)>,
    right: Contents<(K, B)>,
    logic: F,
) -> bool {
    &&& after == Contents { pending: after.pending, ..before }
    &&& before.pending.subset_of(after.pending)
    &&& forall|t: T| #[trigger]
        after.pending.contains(t) && !before.pending.contains(t) ==> exists|k: K, a: A, b: B|
            #[trigger]
            meet(left.stable, left.recent, right.stable, right.recent, k, a, b) && call_ensures(
                logic,
                (&k, &a, &b),
                t,
            )
    &&& forall|k: K, a: A, b: B| #[trigger]
        meet(left.stable, left.recent, right.stable, right.recent, k, a, b) ==> exists|t: T|
            #[trigger] after.pending.contains(t) && call_ensures(logic, (&k, &a, &b), t)
}

/// `datafrog::Variable::from_join` calls `logic` for each two tuples of `left` and `right` that
/// have one key and of which one at least is recent, and makes what it returns pending.
#[verifier::external_body]
pub(crate) fn from_join<K: Ord, A: Ord, B: Ord, T: Ord>(
    output: &mut Variable<T>,
    left: &Variable<(K, A)>,
    right: &Variable<(K, B)>,
    logic: impl Fn(&K, &A, &B) -> T,
) where
    Variable<T>: Tuples<T>,
    Variable<(K, A)>: Tuples<(K, A)>,
    Variable<(K, B)>: Tuples<(K, B)>,

    requires
        forall|k: K, a: A, b: B| #[trigger]
            meet(
                left.contents().stable,
                left.contents().recent,
                right.contents().stable,
                right.contents().recent,
                k,
                a,
                b,
            ) ==> call_requires(logic, (&k, &a, &b)),
    ensures
        joined(
            old(output).contents(),
            final(output).contents(),
            left.contents(),
            right.contents(),
            logic,
        ),
{
    output.from_join(left, right, logic)
}

/// `(k, a)` is a recent tuple whose key is not excluded.
pub open spec fn passes<K, A>(recent: Set<(K, A)>, excluded: Set<K>, k: K, a: A) -> bool {
    recent.contains((k, a)) && !excluded.contains(k)
}

/// `after` is `before` with, pending besides, what `logic` makes of the tuples that pass:
/// something of each, and nothing else.
pub open spec fn antijoined<K, A, T, F: Fn(&K, &A) -> T>(
    before: Contents<T>,
    after: Contents<T>,
    input: Contents<(K, A)>,
    excluded: Set<K>,
    logic: F,
) -> bool {
    &&& after == Contents { pending: after.pending, ..before }
    &&& before.pending.subset_of(after.pending)
    &&& forall|t: T| #[trigger]
        after.pending.contains(t) && !before.pending.contains(t) ==> exists|k: K, a: A| #[trigger]
            passes(input.recent, excluded, k, a) && call_ensures(logic, (&k, &a), t)
    &&& forall|k: K, a: A| #[trigger]
        passes(input.recent, excluded, k, a) ==> exists|t: T| #[trigger]
            after.pending.contains(t) && call_ensures(logic, (&k, &a), t)
}

/// `datafrog::Variable::from_antijoin` calls `logic` for each recent tuple of `input` whose key
/// is not in the relation, and makes what it returns pending. It searches the relation by its
/// order.
#[verifier::external_body]
pub(crate) fn from_antijoin<A: Ord, T: Ord>(
    output: &mut Variable<T>,
    input: &Variable<((usize, usize), A)>,
    excluded: &Relation<(usize, usize)>,
    logic: impl Fn(&(usize, usize), &A) -> T,
) where Variable<T>: Tuples<T>, Variable<((usize, usize), A)>: Tuples<((usize, usize), A)>
    requires
        ascending(relation_rows(*excluded)),
        forall|k: (usize, usize), a: A| #[trigger]
            passes(input.contents().recent, relation_rows(*excluded).to_set(), k, a)
                ==> call_requires(logic, (&k, &a)),
    ensures
        antijoined(
            old(output).contents(),
            final(output).contents(),
            input.contents(),
            relation_rows(*excluded).to_set(),
            logic,
        ),
{
    output.from_antijoin(input, excluded, logic)
}

/// `after` is `before` with, pending besides, what `logic` makes of the recent tuples of
/// `input`: something of each, and nothing else.
pub open spec fn mapped<S, T, F: Fn(&S) -> T>(
    before: Contents<T>,
    after: Contents<T>,
    input: Contents<S>,
    logic: F,
) -> bool {
    &&& after == Contents { pending: after.pending, ..before }
    &&& before.pending.subset_of(after.pending)
    &&& forall|t: T| #[trigger]
        after.pending.contains(t) && !before.pending.contains(t) ==> exists|s: S| #[trigger]
            input.recent.contains(s) && call_ensures(logic, (&s,), t)
    &&& forall|s: S| #[trigger]
        input.recent.contains(s) ==> exists|t: T| #[trigger]
            after.pending.contains(t) && call_ensures(logic, (&s,), t)
}

/// `datafrog::Variable::from_map` calls `logic` for each recent tuple of `input`, and makes what
/// it returns pending.
#[verifier::external_body]
pub(crate) fn from_map<S: Ord, T: Ord>(
    output: &mut Variable<T>,
    input: &Variable<S>,
    logic: impl Fn(&S) -> T,
) where Variable<T>: Tuples<T>, Variable<S>: Tuples<S>
    requires
        forall|s: S| #[trigger]
            input.contents().recent.contains(s) ==> call_requires(logic, (&s,)),
    ensures
        mapped(old(output).contents(), final(output).contents(), input.contents(), logic),
{
    output.from_map(input, logic)
}

/// What a join adds, where the tuples become what `f` says.
pub open spec fn join_rows<K, A, B, T>(
    left: Set<(K, A)>,
    left_recent: Set<(K, A)>,
    right: Set<(K, B)>,
    right_recent: Set<(K, B)>,
    f: spec_fn(K, A, B) -> T,
) -> Set<T> {
    Set::new(
        |t: T|
            exists|k: K, a: A, b: B| #[trigger]
                meet(left, left_recent, right, right_recent, k, a, b) && t == f(k, a, b),
    )
}

/// What an antijoin adds.
pub open spec fn antijoin_rows<K, A, T>(
    recent: Set<(K, A)>,
    excluded: Set<K>,
    f: spec_fn(K, A) -> T,
) -> Set<T> {
    Set::new(|t: T| exists|k: K, a: A| #[trigger] passes(recent, excluded, k, a) && t == f(k, a))
}

/// What a map adds.
pub open spec fn map_rows<S, T>(recent: Set<S>, f: spec_fn(S) -> T) -> Set<T> {
    Set::new(|t: T| exists|s: S| #[trigger] recent.contains(s) && t == f(s))
}

/// A join whose `logic` computes `f`.
pub(crate) fn join<K: Ord, A: Ord, B: Ord, T: Ord>(
    output: &mut Variable<T>,
    left: &Variable<(K, A)>,
    right: &Variable<(K, B)>,
    logic: impl Fn(&K, &A, &B) -> T,
    Ghost(f): Ghost<spec_fn(K, A, B) -> T>,
) where
    Variable<T>: Tuples<T>,
    Variable<(K, A)>: Tuples<(K, A)>,
    Variable<(K, B)>: Tuples<(K, B)>,

    requires
        forall|k: K, a: A, b: B| #[trigger] call_requires(logic, (&k, &a, &b)),
        forall|k: K, a: A, b: B, t: T| #[trigger]
            call_ensures(logic, (&k, &a, &b), t) ==> t == f(k, a, b),
    ensures
        final(output).contents() == old(output).contents().adding(
            join_rows(
                left.contents().stable,
                left.contents().recent,
                right.contents().stable,
                right.contents().recent,
                f,
            ),
        ),
{
    from_join(output, left, right, logic);
    assert(output.contents().pending =~= old(output).contents().pending.union(
        join_rows(
            left.contents().stable,
            left.contents().recent,
            right.contents().stable,
            right.contents().recent,
            f,
        ),
    ));
}

/// An antijoin whose `logic` computes `f`.
pub(crate) fn antijoin<A: Ord, T: Ord>(
    output: &mut Variable<T>,
    input: &Variable<((usize, usize), A)>,
    excluded: &Relation<(usize, usize)>,
    logic: impl Fn(&(usize, usize), &A) -> T,
    Ghost(f): Ghost<spec_fn((usize, usize), A) -> T>,
) where Variable<T>: Tuples<T>, Variable<((usize, usize), A)>: Tuples<((usize, usize), A)>
    requires
        ascending(relation_rows(*excluded)),
        forall|k: (usize, usize), a: A| #[trigger] call_requires(logic, (&k, &a)),
        forall|k: (usize, usize), a: A, t: T| #[trigger]
            call_ensures(logic, (&k, &a), t) ==> t == f(k, a),
    ensures
        final(output).contents() == old(output).contents().adding(
            antijoin_rows(input.contents().recent, relation_rows(*excluded).to_set(), f),
        ),
{
    from_antijoin(output, input, excluded, logic);
    assert(output.contents().pending =~= old(output).contents().pending.union(
        antijoin_rows(input.contents().recent, relation_rows(*excluded).to_set(), f),
    ));
}

/// A map whose `logic` computes `f`.
pub(crate) fn remap<S: Ord, T: Ord>(
    output: &mut Variable<T>,
    input: &Variable<S>,
    logic: impl Fn(&S) -> T,
    Ghost(f): Ghost<spec_fn(S) -> T>,
) where Variable<T>: Tuples<T>, Variable<S>: Tuples<S>
    requires
        forall|s: S| #[trigger] call_requires(logic, (&s,)),
        forall|s: S, t: T| #[trigger] call_ensures(logic, (&s,), t) ==> t == f(s),
    ensures
        final(output).contents() == old(output).contents().adding(
            map_rows(input.contents().recent, f),
        ),
{
    from_map(output, input, logic);
    assert(output.contents().pending =~= old(output).contents().pending.union(
        map_rows(input.contents().recent, f),
    ));
}

} // verus!
