//! A minimal dependency-manager library: a per-user repository cache
//! (`<home>/.mp`) whose immediate subdirectories are tracked repositories,
//! a JSON manifest pairing each tracked folder with its install command,
//! and the decision logic of the five commands (`init`, `add`, `list`,
//! `rinstall`, `runAll`) that operate on them.
//!
//! All filesystem, environment, subprocess and network work is performed by
//! a thin unverified shell around this library; the library computes, from
//! plain values the shell observed, what each command does and proves that
//! it does exactly that.

pub mod cache;
pub mod dispatch;
pub mod json;
pub mod manifest;
pub mod runner;
pub mod text;
pub mod url;

use vstd::prelude::*;

verus! {

} // verus!
