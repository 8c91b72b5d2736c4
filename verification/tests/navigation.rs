use lazyactions::app::App;
use lazyactions::event::AppEvent;
use lazyactions::event::Effect;
use lazyactions::event::Event;
use lazyactions::event::KeyCode;
use lazyactions::event::KeyMods;
use lazyactions::event::KeyPress;
use lazyactions::event::Ticker;
use lazyactions::gh_cli::GithubJob;
use lazyactions::gh_cli::WorkflowData;
use lazyactions::text::str_cmp;
use lazyactions::text::str_eq;
use lazyactions::text::StrOrder;

fn job(id: u64, name: &str, status: &str, conclusion: Option<&str>, started_at: &str) -> GithubJob {
    GithubJob {
        id,
        name: name.to_string(),
        run_id: 10 * id,
        repo: "acme/widgets".to_string(),
        run_url: format!("https://api.example.com/runs/{}", 10 * id),
        actor_login: "octo".to_string(),
        head_branch: "main".to_string(),
        status: status.to_string(),
        conclusion: conclusion.map(|c| c.to_string()),
        started_at: started_at.to_string(),
        completed_at: None,
        html_url: format!("https://example.com/jobs/{}", id),
    }
}

fn app_with_three_in_progress() -> App {
    let mut app = App::new();
    app.handle_events(Event::GitHubDataFetched(Ok(WorkflowData {
        runs: vec![],
        jobs: vec![
            job(1, "Build / A", "in_progress", None, "2024-01-01T03:00:00Z"),
            job(2, "Build / B", "in_progress", None, "2024-01-01T02:00:00Z"),
            job(3, "Build / C", "in_progress", None, "2024-01-01T01:00:00Z"),
        ],
    })));
    app
}

fn plain(code: KeyCode) -> KeyPress {
    KeyPress { code, mods: KeyMods { ctrl: false, alt: false, shift: false } }
}

#[test]
fn change_row_clamps_at_zero() {
    let mut app = app_with_three_in_progress();
    app.change_row_index(1);
    app.change_row_index(1);
    assert_eq!(app.app_state.row_index, 2);
    app.change_row_index(-5);
    assert_eq!(app.app_state.row_index, 0);
}

#[test]
fn change_row_clamps_at_last_entry() {
    let mut app = app_with_three_in_progress();
    app.change_row_index(99);
    assert_eq!(app.app_state.row_index, 2);
}

#[test]
fn change_row_in_empty_column_collapses_to_zero() {
    let mut app = App::new();
    app.change_row_index(1);
    assert_eq!(app.app_state.row_index, 0);
    assert_eq!(app.current_job_index, 0);
    assert_eq!(app.get_selected_job_original_index(), None);
}

#[test]
fn category_round_trip_after_three_steps() {
    let mut app = app_with_three_in_progress();
    let start = app.app_state.column_index;
    app.change_column_index(1);
    app.change_column_index(1);
    app.change_column_index(1);
    assert_eq!(app.app_state.column_index, start);
}

#[test]
fn category_wraps_left_from_zero() {
    let mut app = App::new();
    assert_eq!(app.app_state.column_index, 0);
    app.change_column_index(-1);
    assert_eq!(app.app_state.column_index, 2);
    app.change_column_index(1);
    assert_eq!(app.app_state.column_index, 0);
}

#[test]
fn change_category_resets_row_and_scroll() {
    let mut app = app_with_three_in_progress();
    app.change_row_index(2);
    app.change_scroll_offset(25);
    assert_eq!(app.app_state.row_index, 2);
    assert_eq!(app.app_state.scroll_offset, 25);
    app.change_column_index(1);
    assert_eq!(app.app_state.row_index, 0);
    assert_eq!(app.app_state.scroll_offset, 0);
}

#[test]
fn navigation_ignored_while_details_open() {
    let mut app = app_with_three_in_progress();
    app.change_row_index(1);
    app.toggle_details_panel();
    app.change_row_index(1);
    app.change_column_index(1);
    assert_eq!(app.app_state.row_index, 1);
    assert_eq!(app.app_state.column_index, 0);
    app.toggle_details_panel();
    app.change_row_index(1);
    assert_eq!(app.app_state.row_index, 2);
}

#[test]
fn scroll_clamps_at_zero_and_moves_by_pages() {
    let mut app = App::new();
    app.handle_events(Event::App(AppEvent::PageDown));
    assert_eq!(app.app_state.scroll_offset, 25);
    app.handle_events(Event::App(AppEvent::PageDown));
    assert_eq!(app.app_state.scroll_offset, 50);
    app.handle_events(Event::App(AppEvent::PageUp));
    app.handle_events(Event::App(AppEvent::PageUp));
    app.handle_events(Event::App(AppEvent::PageUp));
    assert_eq!(app.app_state.scroll_offset, 0);
}

#[test]
fn selected_job_follows_row() {
    let mut app = app_with_three_in_progress();
    // most recent first: store positions 0, 1, 2 sorted by started_at desc
    assert_eq!(app.get_selected_job_original_index(), Some(0));
    app.change_row_index(1);
    assert_eq!(app.get_selected_job_original_index(), Some(1));
    assert_eq!(app.current_job_index, 1);
}

#[test]
fn open_github_yields_selected_url() {
    let mut app = app_with_three_in_progress();
    app.change_row_index(1);
    match app.handle_events(Event::App(AppEvent::OpenGitHub)) {
        Effect::OpenUrl(url) => assert_eq!(url, "https://example.com/jobs/2"),
        other => panic!("expected an url, got {:?}", other),
    }
}

#[test]
fn quit_event_stops_the_loop() {
    let mut app = App::new();
    assert!(app.running);
    app.handle_events(Event::App(AppEvent::Quit));
    assert!(!app.running);
}

#[test]
fn key_bindings_decode_as_documented() {
    let app = App::new();
    assert_eq!(app.handle_key_event(plain(KeyCode::Esc)), Some(AppEvent::Quit));
    assert_eq!(app.handle_key_event(plain(KeyCode::Char('q'))), Some(AppEvent::Quit));
    assert_eq!(app.handle_key_event(plain(KeyCode::Right)), Some(AppEvent::NavigateRight));
    assert_eq!(app.handle_key_event(plain(KeyCode::Left)), Some(AppEvent::NavigateLeft));
    assert_eq!(app.handle_key_event(plain(KeyCode::Up)), Some(AppEvent::NavigateUp));
    assert_eq!(app.handle_key_event(plain(KeyCode::Down)), Some(AppEvent::NavigateDown));
    assert_eq!(app.handle_key_event(plain(KeyCode::Enter)), Some(AppEvent::ToggleDetails));
    assert_eq!(app.handle_key_event(plain(KeyCode::PageDown)), Some(AppEvent::PageDown));
    assert_eq!(app.handle_key_event(plain(KeyCode::PageUp)), Some(AppEvent::PageUp));
    assert_eq!(app.handle_key_event(plain(KeyCode::Backspace)), Some(AppEvent::OpenGitHub));
    assert_eq!(app.handle_key_event(plain(KeyCode::Char('x'))), None);
    assert_eq!(app.handle_key_event(plain(KeyCode::Other)), None);
}

#[test]
fn ctrl_c_quits_but_only_with_control_alone() {
    let app = App::new();
    let ctrl = KeyMods { ctrl: true, alt: false, shift: false };
    let ctrl_shift = KeyMods { ctrl: true, alt: false, shift: true };
    assert_eq!(
        app.handle_key_event(KeyPress { code: KeyCode::Char('c'), mods: ctrl }),
        Some(AppEvent::Quit)
    );
    assert_eq!(
        app.handle_key_event(KeyPress { code: KeyCode::Char('C'), mods: ctrl }),
        Some(AppEvent::Quit)
    );
    assert_eq!(app.handle_key_event(plain(KeyCode::Char('c'))), None);
    assert_eq!(
        app.handle_key_event(KeyPress { code: KeyCode::Char('c'), mods: ctrl_shift }),
        None
    );
}

#[test]
fn key_events_are_forwarded_as_intents() {
    let mut app = App::new();
    match app.handle_events(Event::Key(plain(KeyCode::Down))) {
        Effect::Emit(ev) => assert_eq!(ev, AppEvent::NavigateDown),
        other => panic!("expected an intent, got {:?}", other),
    }
    match app.handle_events(Event::Key(plain(KeyCode::Char('x')))) {
        Effect::Nothing => {}
        other => panic!("expected nothing, got {:?}", other),
    }
}

#[test]
fn row_clamped_after_shrinking_fetch() {
    let mut app = app_with_three_in_progress();
    app.change_row_index(2);
    assert_eq!(app.app_state.row_index, 2);
    app.handle_events(Event::GitHubDataFetched(Ok(WorkflowData {
        runs: vec![],
        jobs: vec![job(9, "Build / Only", "in_progress", None, "2024-01-01T00:00:00Z")],
    })));
    assert_eq!(app.app_state.row_index, 0);
    assert_eq!(app.get_selected_job_original_index(), Some(0));
}

#[test]
fn ticker_fires_first_then_on_zero_remaining() {
    let mut t = Ticker::new();
    assert!(t.should_fire(5_000_000));
    assert!(!t.should_fire(3_000_000));
    assert!(t.should_fire(0));
    assert!(!t.should_fire(1));
}

#[test]
fn scroll_saturates_at_the_machine_limit() {
    let mut app = App::new();
    app.change_scroll_offset(isize::MAX);
    app.change_scroll_offset(isize::MAX);
    app.change_scroll_offset(25);
    assert_eq!(app.app_state.scroll_offset, usize::MAX);
    app.change_scroll_offset(isize::MIN);
    app.change_scroll_offset(isize::MIN);
    assert_eq!(app.app_state.scroll_offset, 0);
}

#[test]
fn string_order_is_lexicographic() {
    assert!(matches!(str_cmp("abc", "abd"), StrOrder::Less));
    assert!(matches!(str_cmp("abc", "abc"), StrOrder::Equal));
    assert!(matches!(str_cmp("abd", "abc"), StrOrder::Greater));
    assert!(matches!(str_cmp("ab", "abc"), StrOrder::Less));
    assert!(matches!(str_cmp("abc", "ab"), StrOrder::Greater));
    assert!(matches!(str_cmp("", ""), StrOrder::Equal));
    assert!(str_eq("same", "same"));
    assert!(!str_eq("same", "other"));
}
