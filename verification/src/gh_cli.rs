//! Data model for the remote CI collaborator: workflow runs, jobs, snapshots,
//! and the immutable fetch configuration. The blocking fetch itself (issuing
//! CLI calls, paginating, parsing raw JSON) lives outside the library and
//! hands the library complete `WorkflowData` snapshots.

use vstd::prelude::*;

verus! {

/// One workflow run, the parent context of a set of jobs.
#[derive(Clone, Debug)]
pub struct GithubWorkflowRun {
    pub id: u64,
    pub actor_login: String,
    pub head_branch: String,
    pub repo: String,
}

/// The owner of a repository.
#[derive(Clone, Debug)]
pub struct Owner {
    pub login: String,
}

/// Identifies the repository the dashboard watches.
#[derive(Clone, Debug)]
pub struct RepoInfo {
    pub name: String,
    pub owner: Owner,
}

/// One CI execution unit with a lifecycle status and an optional outcome.
/// Immutable once received; a fetch replaces the whole set of jobs.
#[derive(Clone, Debug)]
pub struct GithubJob {
    pub id: u64,
    pub name: String,
    pub run_id: u64,
    pub repo: String,
    pub run_url: String,
    pub actor_login: String,
    pub head_branch: String,
    pub status: String,
    pub conclusion: Option<String>,
    pub started_at: String,
    pub completed_at: Option<String>,
    pub html_url: String,
}

/// The complete result of one fetch cycle.
#[derive(Clone, Debug)]
pub struct WorkflowData {
    pub runs: Vec<GithubWorkflowRun>,
    pub jobs: Vec<GithubJob>,
}

/// Immutable fetch configuration, resolved once at startup: the repository,
/// the three boolean filters, and the user and branch the filters refer to.
#[derive(Clone, Debug)]
pub struct GhCli {
    pub repo_info: RepoInfo,
    pub branch: bool,
    pub user: bool,
    pub latest: bool,
    pub current_user: String,
    pub current_branch: String,
}

impl GhCli {
    /// Binds the fetch configuration from values resolved at startup.
    pub fn new(
        repo_info: RepoInfo,
        branch: bool,
        user: bool,
        latest: bool,
        current_user: String,
        current_branch: String,
    ) -> (c: GhCli)
        ensures
            c.repo_info == repo_info,
            c.branch == branch,
            c.user == user,
            c.latest == latest,
            c.current_user == current_user,
            c.current_branch == current_branch,
    {
        GhCli { repo_info, branch, user, latest, current_user, current_branch }
    }

    /// How many of the most recent runs a fetch covers: the latest run only,
    /// or the latest three.
    pub fn run_limit(&self) -> (n: usize)
        ensures
            n == if self.latest { 1usize } else { 3usize },
    {
        if self.latest {
            1
        } else {
            3
        }
    }
}

} // verus!
