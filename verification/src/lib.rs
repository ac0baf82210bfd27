//! A borrow checker's analysis of one function: from facts about its control-flow graph, its
//! regions and its loans to the points at which a loan is violated.
//!
//! [`facts`] holds the input, [`rules`] the Datalog rules that say what is derived from it,
//! [`output`] what comes out, and [`analysis`] the function that computes it. What holds of the
//! analysis as a whole is in [`laws`]. [`paths`] says what each relation of the output is, over
//! the lists of the input. [`transitive`] is the plain form of the analysis, which finds the same
//! errors, and [`renaming`] shows that names do not matter.
pub mod analysis;
mod engine;
mod evaluation;
pub mod facts;
pub mod laws;
mod lists;
pub mod output;
pub mod paths;
mod plan;
pub mod renaming;
pub mod rules;
mod saturation;
mod soundness;
mod tables;
mod termination;
pub mod transitive;
