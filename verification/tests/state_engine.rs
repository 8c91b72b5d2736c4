use lazyactions::app::App;
use lazyactions::engine::categorize;
use lazyactions::engine::Category;
use lazyactions::event::Event;
use lazyactions::gh_cli::GithubJob;
use lazyactions::gh_cli::WorkflowData;

fn job(id: u64, name: &str, status: &str, conclusion: Option<&str>, started_at: &str) -> GithubJob {
    GithubJob {
        id,
        name: name.to_string(),
        run_id: 10 * id,
        repo: "acme/widgets".to_string(),
        run_url: format!("https://api.example.com/runs/{}", 10 * id),
        actor_login: "octo".to_string(),
        head_branch: "main".to_string(),
        status: status.to_string(),
        conclusion: conclusion.map(|c| c.to_string()),
        started_at: started_at.to_string(),
        completed_at: None,
        html_url: format!("https://example.com/jobs/{}", id),
    }
}

fn snapshot(jobs: Vec<GithubJob>) -> Event {
    Event::GitHubDataFetched(Ok(WorkflowData { runs: vec![], jobs }))
}

#[test]
fn categorize_completed_success() {
    let j = job(1, "Build / Test", "completed", Some("success"), "2024-01-01T00:00:00Z");
    assert_eq!(categorize(&j), Some(Category::Success));
}

#[test]
fn categorize_completed_failure() {
    let j = job(1, "Deploy / Push", "completed", Some("failure"), "2024-01-01T00:00:00Z");
    assert_eq!(categorize(&j), Some(Category::Failure));
}

#[test]
fn categorize_in_progress_statuses() {
    for status in ["in_progress", "queued", "waiting"] {
        let j = job(1, "Build / Compile", status, None, "2024-01-01T00:00:00Z");
        assert_eq!(categorize(&j), Some(Category::InProgress));
    }
}

#[test]
fn categorize_dropped_conclusions() {
    for conclusion in [Some("cancelled"), Some("skipped"), None] {
        let j = job(1, "Build / Test", "completed", conclusion, "2024-01-01T00:00:00Z");
        assert_eq!(categorize(&j), None);
    }
}

#[test]
fn categorize_unknown_status() {
    let j = job(1, "Build / Test", "pending", None, "2024-01-01T00:00:00Z");
    assert_eq!(categorize(&j), None);
}

#[test]
fn tool_parsing_takes_first_segment() {
    let app = App::new();
    assert_eq!(app.parse_job_name_for_tool("Build / Compile"), "Build");
    assert_eq!(app.parse_job_name_for_tool("Build / Test / Unit"), "Build");
    assert_eq!(app.parse_job_name_for_tool("Standalone"), "Standalone");
    assert_eq!(app.parse_job_name_for_tool(""), "");
}

#[test]
fn tool_parsing_handles_short_and_wide_names() {
    let app = App::new();
    assert_eq!(app.parse_job_name_for_tool("a"), "a");
    assert_eq!(app.parse_job_name_for_tool(" / tail"), "");
    assert_eq!(app.parse_job_name_for_tool("Bäu / Test"), "Bäu");
    assert_eq!(app.parse_job_name_for_tool("日本語 / ジョブ"), "日本語");
    assert_eq!(app.parse_job_name_for_tool("a/b"), "a/b");
}

#[test]
fn three_jobs_fill_three_categories() {
    let mut app = App::new();
    let jobs = vec![
        job(1, "Build / Compile", "in_progress", None, "2024-01-01T03:00:00Z"),
        job(2, "Build / Test", "completed", Some("success"), "2024-01-01T02:00:00Z"),
        job(3, "Deploy / Push", "completed", Some("failure"), "2024-01-01T01:00:00Z"),
    ];
    app.handle_events(snapshot(jobs));

    let ip = &app.app_state.in_progress_jobs.groups;
    assert_eq!(ip.len(), 1);
    assert_eq!(ip[0].tool, "Build");
    assert_eq!(ip[0].indices, vec![0]);

    let su = &app.app_state.success_jobs.groups;
    assert_eq!(su.len(), 1);
    assert_eq!(su[0].tool, "Build");
    assert_eq!(su[0].indices, vec![1]);

    let fa = &app.app_state.failure_jobs.groups;
    assert_eq!(fa.len(), 1);
    assert_eq!(fa[0].tool, "Deploy");
    assert_eq!(fa[0].indices, vec![2]);

    assert_eq!(app.app_state.loading_status, "Data updated.");
}

#[test]
fn skipped_job_is_stored_but_invisible() {
    let mut app = App::new();
    let jobs = vec![job(7, "Build / Lint", "completed", Some("skipped"), "2024-01-01T00:00:00Z")];
    app.handle_events(snapshot(jobs));

    assert_eq!(app.job_details.len(), 1);
    assert!(app.app_state.in_progress_jobs.groups.is_empty());
    assert!(app.app_state.success_jobs.groups.is_empty());
    assert!(app.app_state.failure_jobs.groups.is_empty());
    assert_eq!(app.get_selected_job_original_index(), None);
}

#[test]
fn store_caps_at_capacity_and_evicts_oldest() {
    let mut app = App::new();
    let mut jobs = Vec::new();
    for id in 1..=301u64 {
        jobs.push(job(id, "Build / Step", "completed", Some("success"), "2024-01-01T00:00:00Z"));
    }
    app.handle_events(snapshot(jobs));

    assert_eq!(app.job_details.len(), 300);
    assert_eq!(app.job_details[0].id, 2);
    assert_eq!(app.job_details[299].id, 301);
    assert!(app.job_details.iter().all(|j| j.id != 1));
}

#[test]
fn fetch_replaces_store_wholesale() {
    let mut app = App::new();
    app.handle_events(snapshot(vec![
        job(1, "Build / A", "completed", Some("success"), "2024-01-01T00:00:00Z"),
        job(2, "Build / B", "completed", Some("success"), "2024-01-01T00:00:00Z"),
    ]));
    assert_eq!(app.job_details.len(), 2);

    app.handle_events(snapshot(vec![job(
        9,
        "Deploy / C",
        "completed",
        Some("failure"),
        "2024-01-01T00:00:00Z",
    )]));
    assert_eq!(app.job_details.len(), 1);
    assert_eq!(app.job_details[0].id, 9);
}

#[test]
fn groups_are_sorted_by_tool_name() {
    let mut app = App::new();
    app.handle_events(snapshot(vec![
        job(1, "Zeta / A", "completed", Some("success"), "2024-01-01T00:00:00Z"),
        job(2, "Alpha / B", "completed", Some("success"), "2024-01-01T00:00:00Z"),
        job(3, "Mid / C", "completed", Some("success"), "2024-01-01T00:00:00Z"),
    ]));
    let su = &app.app_state.success_jobs.groups;
    assert_eq!(su.len(), 3);
    assert_eq!(su[0].tool, "Alpha");
    assert_eq!(su[1].tool, "Mid");
    assert_eq!(su[2].tool, "Zeta");
}

#[test]
fn jobs_within_group_sorted_most_recent_first() {
    let mut app = App::new();
    app.handle_events(snapshot(vec![
        job(1, "Build / Old", "completed", Some("success"), "2024-01-01T01:00:00Z"),
        job(2, "Build / New", "completed", Some("success"), "2024-01-03T01:00:00Z"),
        job(3, "Build / Mid", "completed", Some("success"), "2024-01-02T01:00:00Z"),
    ]));
    let su = &app.app_state.success_jobs.groups;
    assert_eq!(su.len(), 1);
    // store positions ordered by started_at descending: job 2, job 3, job 1
    assert_eq!(su[0].indices, vec![1, 2, 0]);
}

#[test]
fn equal_timestamps_keep_store_order() {
    let mut app = App::new();
    app.handle_events(snapshot(vec![
        job(1, "Build / A", "completed", Some("success"), "2024-01-01T00:00:00Z"),
        job(2, "Build / B", "completed", Some("success"), "2024-01-01T00:00:00Z"),
        job(3, "Build / C", "completed", Some("success"), "2024-01-01T00:00:00Z"),
    ]));
    let su = &app.app_state.success_jobs.groups;
    assert_eq!(su[0].indices, vec![0, 1, 2]);
}

#[test]
fn fetch_error_keeps_state_and_reports() {
    let mut app = App::new();
    app.handle_events(snapshot(vec![job(
        1,
        "Build / A",
        "completed",
        Some("success"),
        "2024-01-01T00:00:00Z",
    )]));
    app.handle_events(Event::GitHubDataFetched(Err("boom".to_string())));
    assert_eq!(app.job_details.len(), 1);
    assert_eq!(app.app_state.success_jobs.groups.len(), 1);
    assert_eq!(app.app_state.loading_status, "Error: boom");
}

fn groups_content(g: &lazyactions::groups::JobGroups) -> Vec<(String, Vec<usize>)> {
    g.groups.iter().map(|grp| (grp.tool.clone(), grp.indices.clone())).collect()
}

#[test]
fn rebuilding_from_same_store_is_idempotent() {
    let jobs = || {
        vec![
            job(1, "Build / Compile", "in_progress", None, "2024-01-01T03:00:00Z"),
            job(2, "Build / Test", "completed", Some("success"), "2024-01-01T02:00:00Z"),
            job(3, "Deploy / Push", "completed", Some("failure"), "2024-01-01T02:00:00Z"),
            job(4, "Deploy / Tag", "completed", Some("failure"), "2024-01-01T04:00:00Z"),
        ]
    };
    let mut app = App::new();
    app.handle_events(snapshot(jobs()));
    let first = (
        groups_content(&app.app_state.in_progress_jobs),
        groups_content(&app.app_state.success_jobs),
        groups_content(&app.app_state.failure_jobs),
    );
    app.handle_events(snapshot(jobs()));
    let second = (
        groups_content(&app.app_state.in_progress_jobs),
        groups_content(&app.app_state.success_jobs),
        groups_content(&app.app_state.failure_jobs),
    );
    assert_eq!(first, second);
}

#[test]
fn action_event_sets_fetching_status() {
    let mut app = App::new();
    assert_eq!(app.app_state.loading_status, "Initializing...");
    app.handle_events(Event::Action);
    assert_eq!(app.app_state.loading_status, "Fetching data...");
}
