//! The verified core of hotcarpet, which finds the "hot" spots of a codebase
//! from its git history.
use vstd::prelude::*;

pub mod analyzer;
pub mod cli;
pub mod cli_laws;
pub mod config;
pub mod dates;
pub mod engine;
pub mod git_history;
pub mod git_laws;
pub mod globs;
pub mod lists;
pub mod output;
pub mod output_laws;
pub mod sorting;
pub mod text;

verus! {

} // verus!
