//! Finding things across collections of Git repositories: the verified library behind the
//! `gfind` command.
use vstd::prelude::*;

pub mod branch;
pub mod commands;
pub mod config;
pub mod error;
pub mod help;
pub mod lookup;
pub mod options;
pub mod paths;
pub mod pattern;
pub mod query;
pub mod report;
pub mod stash;
pub mod style;
pub mod text;

verus! {

} // verus!
