//! Finds return type annotations that are wider than what a function returns.
//!
//! [`rule::run`] checks one function, method or getter of a syntax tree, and
//! [`rule::diagnostic`] says what is wrong with it. What holds of the rule as a
//! whole is proved in [`laws`].
pub mod classify;
pub mod describe;
pub mod laws;
pub mod match_laws;
pub mod matching;
pub mod part_laws;
pub mod property;
pub mod returned;
pub mod rule;
pub mod rule_laws;
pub mod syntax;
pub mod text;
pub mod traversal;
pub mod tree_laws;
pub mod type_laws;
pub mod types;
pub mod union;
pub mod widening;
pub mod wording_laws;
