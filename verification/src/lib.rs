//! Sequent-calculus proof search over first-order formulas written as text.
//!
//! [`proposition`] holds the formulas: the data type, the parser that reads
//! a formula from text, and the queries and the substitution that the proof
//! search needs. [`sequent`] holds the proof goals, two lists of formulas
//! each, and the rules that reduce a goal to simpler goals. [`text`] holds
//! what both need to take texts apart and to put them together.
//!
//! Every function states what it computes over a mathematical model of its
//! arguments: a [`proposition::Formula`] for a formula, a
//! [`sequent::Judgment`] for a sequent, a sequence of characters for a text.

pub mod proposition;
pub mod sequent;
pub mod text;
