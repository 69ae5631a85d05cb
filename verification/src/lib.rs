//! Rule-driven removal of declarations from a syntax tree.
//!
//! A rule such as `and(test(), fn())` is read by [`rule::parse`] into an
//! expression tree, compiled by [`compile::expr_to_filter`] into a
//! [`filter::CompiledPredicate`], and applied by [`prune::modify_ast`] to a
//! tree of [`node::Node`]s: every node below the root that the predicate
//! holds of goes, with all that is nested in it.
//!
//! [`rule::env_to_filter`] does the first two steps for a rule that may be
//! absent, and keeps the result from ever selecting the root.

pub mod compile;
pub mod expr;
pub mod filter;
pub mod node;
pub mod parser;
pub mod pattern;
pub mod prune;
pub mod render;
pub mod rule;
pub mod text;
