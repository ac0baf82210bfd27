# borrow_analysis

A verified borrow-check analysis. It takes the facts of one function (its control-flow graph, its
regions, its loans, and where loans are invalidated) and finds the loans that are invalidated
while they are live.

The analysis is a set of Datalog rules, which the `datafrog` crate evaluates. `rules::derived` is
what the rules derive: the least model that is closed under them. `analysis::compute` is proved to
return exactly that, on every input, and to terminate.

- `src/facts.rs`: the input, and where regions are live
- `src/rules.rs`: the rules, and the model that they derive
- `src/output.rs`: the output, and how it lists a relation by point
- `src/analysis.rs`: the analysis
- `src/laws.rs`: what holds of the analysis as a whole
- `src/transitive.rs`: the plain analysis, with a transitive `subset`, which finds the same errors
- `src/renaming.rs`: that other names for the atoms give the same output under those names
- `src/engine.rs`: what is believed of `datafrog`
- `src/plan.rs`, `src/tables.rs`: the relations that the evaluation keeps, and its rules on them
- `src/soundness.rs`, `src/saturation.rs`, `src/evaluation.rs`, `src/termination.rs`: that the
  evaluation derives nothing else, derives everything, and ends
- `src/lists.rs`: lists turned into others, row by row
- `app/`: the analysis for atoms of any ordered type, with timing
- `tests/`: examples, and a comparison with a naive evaluation of the rules
