//! A macro preprocessor for a Lua-like scripting language: directive
//! comments define value and parameterised text macros, which are expanded
//! with lexical scoping and shadowing; files that require each other share
//! their global macros; a build cache and the require graph decide which
//! files must be processed again.
//!
//! - `token`, `text`: token kinds and text helpers.
//! - `macros`, `scope`: macros, their substitution, and scope frames.
//! - `directive`: the grammar of macro directives.
//! - `expansion`: what the expansion of a file is, step by step.
//! - `file`, `processor`: the expansion engine, per file and per project.
//! - `graph`, `project`: the require graph, the affected set, the cache.
//! - `rewrite`: rewriting of compound assignments.
//! - `laws`: properties of the whole, proved.
use vstd::prelude::*;

pub mod directive;
pub mod error;
pub mod expansion;
pub mod file;
pub mod graph;
pub mod laws;
pub mod macros;
pub mod processor;
pub mod project;
pub mod rewrite;
pub mod scope;
pub mod text;
pub mod token;

verus! {

} // verus!
