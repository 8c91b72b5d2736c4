//! Core state engine of a terminal dashboard for continuous-integration jobs.
//!
//! The library owns the data model (jobs, snapshots, the bounded job store),
//! the categorization and grouping engine that turns a flat job list into a
//! presentation model, the navigation engine, and the event reducer. All I/O
//! (terminal, subprocess fetches, rendering) lives outside the library and
//! talks to it through plain values.

use vstd::prelude::*;

pub mod app;
pub mod engine;
pub mod event;
pub mod gh_cli;
pub mod groups;
pub mod text;
pub mod ui;

verus! {

/// Upper bound on how many jobs the store retains; older entries are evicted
/// first once a snapshot would push the store past this size.
pub const MAX_DISPLAYED_JOBS: usize = 300;

/// Startup configuration: three boolean filters resolved once before the
/// event engine starts and held immutable thereafter.
#[derive(Clone, Copy, Debug)]
pub struct Args {
    /// Restrict to jobs on the current branch.
    pub branch: bool,
    /// Restrict to jobs started by the current user.
    pub user: bool,
    /// Look at the latest run only, instead of the latest three.
    pub latest: bool,
}

impl Args {
    pub fn new(branch: bool, user: bool, latest: bool) -> (a: Args)
        ensures
            a.branch == branch,
            a.user == user,
            a.latest == latest,
    {
        Args { branch, user, latest }
    }
}

} // verus!
