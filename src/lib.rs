//! A parser for a small expression language of `let` declarations,
//! arithmetic, comparisons, conditionals, calls and groupings, which
//! recovers locally from malformed input instead of aborting.
//!
//! `syntax` states, rule by rule, the tree and end position that the
//! grammar gives; `grammar` computes them and is proved to agree.

pub mod ast;
pub mod lexical;
pub mod grammar;
pub mod parser;
pub mod syntax;
pub mod laws;
