//! Enumerate the source files the TypeScript compiler consumes when building
//! one or more projects of a multi-package repository, grouped by package.
//!
//! Two strategies are offered: a fast local estimate that expands the
//! `include` globs of each project configuration against the filesystem, and
//! an exact method that interprets the file list reported by the compiler
//! itself.  Both return paths relative to the monorepo root, sorted and
//! deduplicated per package.

pub mod closure;
pub mod config;
pub mod estimate;
pub mod exact;
pub mod file_set;
pub mod manifest;
pub mod order;
pub mod path;
pub mod typescript_package;

use vstd::prelude::*;

verus! {

/// Which enumeration strategy to run for every resolved package: the fast
/// local estimate from include globs, or the authoritative file list of the
/// compiler itself.
#[derive(Debug, Clone, Copy, PartialEq, Eq)]
pub enum Calculation {
    Estimate,
    Exact,
}

} // verus!
