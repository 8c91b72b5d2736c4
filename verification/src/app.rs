//! The state reducer: the single owner of all mutable application state. It
//! drains the event bus one event at a time; data-arrival events rebuild the
//! presentation model through the grouping engine, navigation intents move
//! the selection through the navigation transitions. No transition blocks,
//! none panics, and every one keeps the state well-formed.

use vstd::prelude::*;
use std::collections::VecDeque;
use crate::MAX_DISPLAYED_JOBS;
use crate::engine::Category;
use crate::engine::build_groups;
use crate::engine::groups_ok;
use crate::engine::sorted_positions;
use crate::engine::valid_order;
use crate::event::AppEvent;
use crate::event::Effect;
use crate::event::Event;
use crate::event::KeyCode;
use crate::event::KeyPress;
use crate::event::decode_key_spec;
use crate::gh_cli::GithubJob;
use crate::gh_cli::WorkflowData;
use crate::groups::JobGroups;
use crate::text::tool_of;
use crate::text::tool_of_name;
use vstd::arithmetic::div_mod::lemma_fundamental_div_mod;
use vstd::arithmetic::div_mod::lemma_fundamental_div_mod_converse;
use vstd::arithmetic::div_mod::lemma_mod_multiples_vanish;

verus! {

/// Navigation and presentation state: the selected column, row and scroll
/// position, the details-view flag, the grouped structures of the three
/// categories, and the status line.
#[derive(Debug)]
pub struct AppState {
    pub column_index: usize,
    pub row_index: usize,
    pub show_details: bool,
    pub in_progress_jobs: JobGroups,
    pub success_jobs: JobGroups,
    pub failure_jobs: JobGroups,
    pub loading_status: String,
    pub scroll_offset: usize,
    pub selected_job: Option<GithubJob>,
}

impl AppState {
    /// The grouped structure of the selected column.
    pub open spec fn current_groups(self) -> JobGroups {
        if self.column_index == 0 {
            self.in_progress_jobs
        } else if self.column_index == 1 {
            self.success_jobs
        } else {
            self.failure_jobs
        }
    }
}

/// The application state the reducer owns: the bounded job store, the
/// derived presentation model inside `AppState`, the position of the
/// currently selected job, and the running flag.
#[derive(Debug)]
pub struct App {
    pub running: bool,
    pub job_details: VecDeque<GithubJob>,
    pub current_job_index: usize,
    pub app_state: AppState,
}

/// Start of the window a snapshot keeps: everything before it is evicted,
/// oldest first.
pub open spec fn evict_lo(n: int) -> int {
    if n > MAX_DISPLAYED_JOBS {
        n - MAX_DISPLAYED_JOBS
    } else {
        0
    }
}

/// The store contents after a snapshot replaces it: the newest entries, up
/// to capacity.
pub open spec fn store_after(jobs: Seq<GithubJob>) -> Seq<GithubJob> {
    jobs.subrange(evict_lo(jobs.len() as int), jobs.len() as int)
}

/// The store position of the selected job: the entry of the flattened column
/// at `row`, the first entry when `row` runs past the end of a non-empty
/// column, or position zero in an empty column.
pub open spec fn cji_of(g: JobGroups, row: int) -> usize {
    if row < g.flat().len() {
        g.flat()[row]
    } else if g.flat().len() > 0 {
        g.flat()[0]
    } else {
        0
    }
}

/// A row index clamped against a column of `count` entries.
pub open spec fn clamped_row(row: int, count: int) -> int {
    if count == 0 {
        0
    } else if row > count - 1 {
        count - 1
    } else {
        row
    }
}

/// A row moved by `delta` in a non-empty column of `count` entries:
/// saturating at zero, clamped to the last entry.
pub open spec fn moved_row(row: int, delta: int, count: int) -> int {
    if row + delta < 0 {
        0
    } else if row + delta > count - 1 {
        count - 1
    } else {
        row + delta
    }
}

/// A scroll offset moved by `delta`: clamped at zero, saturating at the
/// machine limit.
pub open spec fn moved_scroll(offset: int, delta: int) -> int {
    if offset + delta < 0 {
        0
    } else if offset + delta > usize::MAX {
        usize::MAX as int
    } else {
        offset + delta
    }
}

/// Quitting only clears the running flag.
pub open spec fn quit_post(pre: App, post: App) -> bool {
    post == (App { running: false, ..pre })
}

/// Toggling the details view flips its flag and nothing else.
pub open spec fn toggle_post(pre: App, post: App) -> bool {
    post == (App {
        app_state: (AppState { show_details: !pre.app_state.show_details, ..pre.app_state }),
        ..pre
    })
}

/// Changing the column wraps modulo three, resets row and scroll, and
/// recomputes the selected job; it is ignored while the details view is open.
pub open spec fn column_post(pre: App, post: App, delta: int) -> bool {
    if pre.app_state.show_details {
        post == pre
    } else {
        &&& post.app_state.column_index as int == (pre.app_state.column_index + delta) % 3
        &&& post.current_job_index == cji_of(post.app_state.current_groups(), 0)
        &&& post == (App {
            current_job_index: post.current_job_index,
            app_state: (AppState {
                column_index: post.app_state.column_index,
                row_index: 0,
                scroll_offset: 0,
                ..pre.app_state
            }),
            ..pre
        })
    }
}

/// Changing the row clamps into the column's bounds and recomputes the
/// selected job; an empty column collapses both to zero; it is ignored while
/// the details view is open.
pub open spec fn row_post(pre: App, post: App, delta: int) -> bool {
    if pre.app_state.show_details {
        post == pre
    } else {
        let count = pre.app_state.current_groups().flat().len() as int;
        if count == 0 {
            post == (App {
                current_job_index: 0,
                app_state: (AppState { row_index: 0, ..pre.app_state }),
                ..pre
            })
        } else {
            &&& post.app_state.row_index as int == moved_row(
                pre.app_state.row_index as int,
                delta,
                count,
            )
            &&& post.current_job_index == cji_of(
                pre.app_state.current_groups(),
                post.app_state.row_index as int,
            )
            &&& post == (App {
                current_job_index: post.current_job_index,
                app_state: (AppState { row_index: post.app_state.row_index, ..pre.app_state }),
                ..pre
            })
        }
    }
}

/// Scrolling moves the offset by `delta`, clamped at zero.
pub open spec fn scroll_post(pre: App, post: App, delta: int) -> bool {
    &&& post.app_state.scroll_offset as int == moved_scroll(
        pre.app_state.scroll_offset as int,
        delta,
    )
    &&& post == (App {
        app_state: (AppState { scroll_offset: post.app_state.scroll_offset, ..pre.app_state }),
        ..pre
    })
}

/// Only the status line changed, and it now reads `text`.
pub open spec fn status_set(pre: App, post: App, text: Seq<char>) -> bool {
    &&& post.app_state.loading_status@ == text
    &&& post == (App {
        app_state: (AppState {
            loading_status: post.app_state.loading_status,
            ..pre.app_state
        }),
        ..pre
    })
}

/// A successful fetch replaced the store with the snapshot's newest entries,
/// rebuilt the three grouped structures over the store's unique display
/// order, clamped the row against the rebuilt column, and recomputed the
/// selected job. The status line is left to the caller.
pub open spec fn update_post(pre: App, post: App, jobs: Seq<GithubJob>) -> bool {
    &&& post.job_details@ == store_after(jobs)
    &&& (exists|order: Seq<usize>|
        #![trigger valid_order(post.job_details@, order)]
        valid_order(post.job_details@, order) && groups_ok(
            post.job_details@,
            order,
            Category::InProgress,
            post.app_state.in_progress_jobs,
        ) && groups_ok(post.job_details@, order, Category::Success, post.app_state.success_jobs)
            && groups_ok(post.job_details@, order, Category::Failure, post.app_state.failure_jobs))
    &&& post.app_state.row_index as int == clamped_row(
        pre.app_state.row_index as int,
        post.app_state.current_groups().flat().len() as int,
    )
    &&& post.current_job_index == cji_of(
        post.app_state.current_groups(),
        post.app_state.row_index as int,
    )
    &&& post == (App {
        job_details: post.job_details,
        current_job_index: post.current_job_index,
        app_state: (AppState {
            in_progress_jobs: post.app_state.in_progress_jobs,
            success_jobs: post.app_state.success_jobs,
            failure_jobs: post.app_state.failure_jobs,
            row_index: post.app_state.row_index,
            loading_status: post.app_state.loading_status,
            ..pre.app_state
        }),
        ..pre
    })
}

/// What opening the selected job's page yields: its URL when the selected
/// position is in the store, nothing otherwise.
pub open spec fn open_post(s: App, e: Effect) -> bool {
    if s.current_job_index < s.job_details@.len() {
        e matches Effect::OpenUrl(u) && u@ == s.job_details@[
            s.current_job_index as int
        ].html_url@
    } else {
        e == Effect::Nothing
    }
}

impl App {
    /// The grouped structures are exactly the categorization of the store
    /// over its display order.
    pub open spec fn model_ok(self) -> bool {
        exists|order: Seq<usize>|
            #![trigger valid_order(self.job_details@, order)]
            valid_order(self.job_details@, order) && groups_ok(
                self.job_details@,
                order,
                Category::InProgress,
                self.app_state.in_progress_jobs,
            ) && groups_ok(
                self.job_details@,
                order,
                Category::Success,
                self.app_state.success_jobs,
            ) && groups_ok(
                self.job_details@,
                order,
                Category::Failure,
                self.app_state.failure_jobs,
            )
    }

    /// Well-formed state: a valid column, a store within capacity, grouped
    /// structures that are exactly the categorization of the store over its
    /// display order, columns no larger than the store, and a row index
    /// within the active column's bounds.
    pub open spec fn wf(self) -> bool {
        &&& self.app_state.column_index < 3
        &&& self.job_details@.len() <= MAX_DISPLAYED_JOBS
        &&& self.app_state.in_progress_jobs.flat().len() <= self.job_details@.len()
        &&& self.app_state.success_jobs.flat().len() <= self.job_details@.len()
        &&& self.app_state.failure_jobs.flat().len() <= self.job_details@.len()
        &&& self.model_ok()
        &&& (if self.app_state.current_groups().flat().len() == 0 {
            self.app_state.row_index == 0
        } else {
            (self.app_state.row_index as int) < self.app_state.current_groups().flat().len()
        })
    }

    /// The initial state: running, an empty store, empty structures, the
    /// selection at the origin.
    pub fn new() -> (app: App)
        ensures
            app.wf(),
            app.running,
            app.job_details@.len() == 0,
            app.current_job_index == 0,
            app.app_state.column_index == 0,
            app.app_state.row_index == 0,
            !app.app_state.show_details,
            app.app_state.in_progress_jobs.groups@.len() == 0,
            app.app_state.success_jobs.groups@.len() == 0,
            app.app_state.failure_jobs.groups@.len() == 0,
            app.app_state.loading_status@ == "Initializing..."@,
            app.app_state.scroll_offset == 0,
            app.app_state.selected_job is None,
    {
        let app = App {
            running: true,
            job_details: VecDeque::new(),
            current_job_index: 0,
            app_state: AppState {
                column_index: 0,
                row_index: 0,
                show_details: false,
                in_progress_jobs: JobGroups::new(),
                success_jobs: JobGroups::new(),
                failure_jobs: JobGroups::new(),
                loading_status: "Initializing...".to_owned(),
                scroll_offset: 0,
                selected_job: None,
            },
        };
        proof {
            let order = Seq::<usize>::empty();
            assert(valid_order(app.job_details@, order));
            assert forall|c: Category, t: Seq<char>|
                (#[trigger] order.filter(crate::engine::grp_pred(app.job_details@, c, t))).len()
                    == 0 by {
                order.filter_lemma(crate::engine::grp_pred(app.job_details@, c, t));
            }
            assert(groups_ok(
                app.job_details@,
                order,
                Category::InProgress,
                app.app_state.in_progress_jobs,
            ));
            assert(groups_ok(
                app.job_details@,
                order,
                Category::Success,
                app.app_state.success_jobs,
            ));
            assert(groups_ok(
                app.job_details@,
                order,
                Category::Failure,
                app.app_state.failure_jobs,
            ));
        }
        app
    }

    /// A hook for work at a fixed frame rate; the dashboard needs none.
    pub fn tick(&self) {
    }

    /// Stops the main loop: the next iteration observes the cleared flag.
    pub fn quit(&mut self)
        ensures
            quit_post(*old(self), *final(self)),
    {
        self.running = false;
    }

    /// Shows or hides the details panel.
    pub fn toggle_details_panel(&mut self)
        ensures
            toggle_post(*old(self), *final(self)),
    {
        self.app_state.show_details = !self.app_state.show_details;
    }

    /// The grouped structure of the selected column.
    pub fn get_jobs_for_current_column(&self) -> (g: &JobGroups)
        ensures
            *g == self.app_state.current_groups(),
    {
        if self.app_state.column_index == 0 {
            &self.app_state.in_progress_jobs
        } else if self.app_state.column_index == 1 {
            &self.app_state.success_jobs
        } else {
            &self.app_state.failure_jobs
        }
    }

    /// Re-derives the selected job's store position from the selected column
    /// and row.
    fn update_current_job_index_from_state(&mut self)
        requires
            old(self).app_state.current_groups().flat().len() <= usize::MAX,
        ensures
            final(self).current_job_index == cji_of(
                old(self).app_state.current_groups(),
                old(self).app_state.row_index as int,
            ),
            *final(self) == (App { current_job_index: final(self).current_job_index, ..*old(self) }),
    {
        let count = self.get_jobs_for_current_column().total();
        if self.app_state.row_index < count {
            let idx = self.get_jobs_for_current_column().flat_get(self.app_state.row_index);
            self.current_job_index = idx;
        } else if count > 0 {
            let idx = self.get_jobs_for_current_column().flat_get(0);
            self.current_job_index = idx;
        } else {
            self.current_job_index = 0;
        }
    }

    /// Moves the selected column by `delta`, wrapping modulo three.
    pub fn change_column_index(&mut self, delta: isize)
        requires
            old(self).wf(),
        ensures
            final(self).wf(),
            column_post(*old(self), *final(self), delta as int),
    {
        if self.app_state.show_details {
            return ;
        }
        let c = self.app_state.column_index;
        let d: usize = if delta >= 0 {
            (delta as usize) % 3
        } else {
            let mag: usize = ((-(delta + 1)) as usize) + 1;
            proof {
                assert(mag == -(delta as int));
            }
            let m: usize = mag % 3;
            proof {
                lemma_fundamental_div_mod(mag as int, 3);
                if m != 0 {
                    lemma_fundamental_div_mod_converse(
                        delta as int,
                        3,
                        -((mag as int) / 3) - 1,
                        3 - m,
                    );
                } else {
                    lemma_fundamental_div_mod_converse(delta as int, 3, -((mag as int) / 3), 0);
                }
            }
            if m == 0 {
                0
            } else {
                3 - m
            }
        };
        proof {
            assert(d == (delta as int) % 3);
            let k = (delta as int) / 3;
            lemma_fundamental_div_mod(delta as int, 3);
            lemma_mod_multiples_vanish(k, c as int + d, 3);
            assert((c as int + delta as int) % 3 == (c as int + d) % 3);
        }
        self.app_state.column_index = (c + d) % 3;
        self.app_state.row_index = 0;
        self.app_state.scroll_offset = 0;
        proof {
            lemma_model_transfer(*old(self), *self);
        }
        self.update_current_job_index_from_state();
        proof {
            lemma_model_transfer(*old(self), *self);
        }
    }

    /// Moves the selected row by `delta`, clamped to the column's bounds.
    pub fn change_row_index(&mut self, delta: isize)
        requires
            old(self).wf(),
        ensures
            final(self).wf(),
            row_post(*old(self), *final(self), delta as int),
    {
        if self.app_state.show_details {
            return ;
        }
        let count = self.get_jobs_for_current_column().total();
        if count == 0 {
            self.app_state.row_index = 0;
            self.current_job_index = 0;
            return ;
        }
        let row = self.app_state.row_index;
        let new_row: usize = if delta >= 0 {
            let d = delta as usize;
            match row.checked_add(d) {
                Some(s) => if s > count - 1 {
                    count - 1
                } else {
                    s
                },
                None => count - 1,
            }
        } else {
            let mag: usize = ((-(delta + 1)) as usize) + 1;
            proof {
                assert(mag == -(delta as int));
            }
            if row >= mag {
                row - mag
            } else {
                0
            }
        };
        self.app_state.row_index = new_row;
        self.update_current_job_index_from_state();
        proof {
            lemma_model_transfer(*old(self), *self);
        }
    }

    /// Moves the scroll offset by `delta`, clamped at zero. There is no
    /// upper clamp; the renderer enforces one against the line count it
    /// knows.
    pub fn change_scroll_offset(&mut self, delta: isize)
        ensures
            scroll_post(*old(self), *final(self), delta as int),
    {
        let offset = self.app_state.scroll_offset;
        if delta >= 0 {
            self.app_state.scroll_offset = offset.saturating_add(delta as usize);
        } else {
            let mag: usize = ((-(delta + 1)) as usize) + 1;
            proof {
                assert(mag == -(delta as int));
            }
            if offset >= mag {
                self.app_state.scroll_offset = offset - mag;
            } else {
                self.app_state.scroll_offset = 0;
            }
        }
    }

    /// The URL to open for the selected job, if one is selected.
    pub fn open_github(&self) -> (e: Effect)
        ensures
            open_post(*self, e),
    {
        if self.current_job_index < self.job_details.len() {
            Effect::OpenUrl(self.job_details[self.current_job_index].html_url.clone())
        } else {
            Effect::Nothing
        }
    }

    /// The group key of a job display name: the segment before the first
    /// ` / ` separator, or the whole name.
    pub fn parse_job_name_for_tool(&self, job_name: &str) -> (r: String)
        ensures
            r@ == tool_of(job_name@),
    {
        tool_of_name(job_name)
    }

    /// The key-binding table: turns a key press into an intent, or nothing.
    pub fn handle_key_event(&self, key: KeyPress) -> (r: Option<AppEvent>)
        ensures
            r == decode_key_spec(key),
    {
        match key.code {
            KeyCode::Esc => Some(AppEvent::Quit),
            KeyCode::Char(ch) => {
                if ch == 'q' {
                    Some(AppEvent::Quit)
                } else if (ch == 'c' || ch == 'C') && key.mods.ctrl && !key.mods.alt
                    && !key.mods.shift {
                    Some(AppEvent::Quit)
                } else {
                    None
                }
            },
            KeyCode::Right => Some(AppEvent::NavigateRight),
            KeyCode::Left => Some(AppEvent::NavigateLeft),
            KeyCode::Up => Some(AppEvent::NavigateUp),
            KeyCode::Down => Some(AppEvent::NavigateDown),
            KeyCode::Enter => Some(AppEvent::ToggleDetails),
            KeyCode::PageDown => Some(AppEvent::PageDown),
            KeyCode::PageUp => Some(AppEvent::PageUp),
            KeyCode::Backspace => Some(AppEvent::OpenGitHub),
            KeyCode::Other => None,
        }
    }

    /// Replaces the job store with a snapshot (evicting the oldest entries
    /// past capacity), rebuilds the presentation model, clamps the row, and
    /// recomputes the selected job.
    pub fn update_github_data(&mut self, workflow_data: WorkflowData)
        requires
            old(self).wf(),
        ensures
            final(self).wf(),
            update_post(*old(self), *final(self), workflow_data.jobs@),
    {
        let WorkflowData { runs: _, jobs } = workflow_data;
        let mut jobs = jobs;
        let ghost all = jobs@;
        let total_jobs = jobs.len();
        self.job_details.clear();
        let mut i: usize = 0;
        while jobs.len() > 0
            invariant
                total_jobs == all.len(),
                i + jobs@.len() == all.len(),
                jobs@ == all.skip(i as int),
                self.job_details@ == all.subrange(evict_lo(i as int), i as int),
                self.job_details@.len() <= MAX_DISPLAYED_JOBS,
                self.app_state == old(self).app_state,
                self.running == old(self).running,
                self.current_job_index == old(self).current_job_index,
            decreases jobs@.len(),
        {
            let job = jobs.remove(0);
            proof {
                assert(job == all[i as int]);
                assert(jobs@ =~= all.skip(i as int + 1));
            }
            if self.job_details.len() >= MAX_DISPLAYED_JOBS {
                self.job_details.pop_front();
            }
            self.job_details.push_back(job);
            proof {
                assert(self.job_details@ =~= all.subrange(evict_lo(i as int + 1), i as int + 1));
            }
            i = i + 1;
        }
        proof {
            assert(self.job_details@ == store_after(all));
            assert(self.job_details@.len() <= MAX_DISPLAYED_JOBS);
        }
        let order = sorted_positions(&self.job_details);
        let (in_progress, success, failure) = build_groups(&self.job_details, &order);
        self.app_state.in_progress_jobs = in_progress;
        self.app_state.success_jobs = success;
        self.app_state.failure_jobs = failure;
        proof {
            assert(order@.len() == self.job_details@.len());
            assert(self.app_state.in_progress_jobs.flat().len() <= self.job_details@.len());
            assert(self.app_state.success_jobs.flat().len() <= self.job_details@.len());
            assert(self.app_state.failure_jobs.flat().len() <= self.job_details@.len());
            assert(self.app_state.current_groups().flat().len() <= usize::MAX);
            assert(valid_order(self.job_details@, order@) && groups_ok(
                self.job_details@,
                order@,
                Category::InProgress,
                self.app_state.in_progress_jobs,
            ) && groups_ok(
                self.job_details@,
                order@,
                Category::Success,
                self.app_state.success_jobs,
            ) && groups_ok(
                self.job_details@,
                order@,
                Category::Failure,
                self.app_state.failure_jobs,
            ));
        }
        let count = self.get_jobs_for_current_column().total();
        if count == 0 {
            self.app_state.row_index = 0;
        } else if self.app_state.row_index > count - 1 {
            self.app_state.row_index = count - 1;
        }
        self.update_current_job_index_from_state();
        proof {
            assert(valid_order(self.job_details@, order@) && groups_ok(
                self.job_details@,
                order@,
                Category::InProgress,
                self.app_state.in_progress_jobs,
            ) && groups_ok(
                self.job_details@,
                order@,
                Category::Success,
                self.app_state.success_jobs,
            ) && groups_ok(
                self.job_details@,
                order@,
                Category::Failure,
                self.app_state.failure_jobs,
            ));
            assert(self.model_ok());
            assert(self.wf());
        }
    }

    /// The reducer: applies one event to the state, in arrival order, and
    /// reports what the caller should do with the outside world.
    pub fn handle_events(&mut self, event: Event) -> (eff: Effect)
        requires
            old(self).wf(),
        ensures
            final(self).wf(),
            match event {
                Event::Action => eff == Effect::Nothing && status_set(
                    *old(self),
                    *final(self),
                    "Fetching data..."@,
                ),
                Event::GitHubDataFetched(r) => match r {
                    Ok(d) => eff == Effect::Nothing && update_post(*old(self), *final(self), d.jobs@)
                        && final(self).app_state.loading_status@ == "Data updated."@,
                    Err(m) => eff == Effect::Nothing && status_set(
                        *old(self),
                        *final(self),
                        "Error: "@ + m@,
                    ),
                },
                Event::Key(k) => *final(self) == *old(self) && eff == (match decode_key_spec(k) {
                    Some(ev) => Effect::Emit(ev),
                    None => Effect::Nothing,
                }),
                Event::App(ae) => match ae {
                    AppEvent::Quit => eff == Effect::Nothing && quit_post(*old(self), *final(self)),
                    AppEvent::NavigateRight => eff == Effect::Nothing && column_post(
                        *old(self),
                        *final(self),
                        1,
                    ),
                    AppEvent::NavigateLeft => eff == Effect::Nothing && column_post(
                        *old(self),
                        *final(self),
                        -1,
                    ),
                    AppEvent::NavigateUp => eff == Effect::Nothing && row_post(
                        *old(self),
                        *final(self),
                        -1,
                    ),
                    AppEvent::NavigateDown => eff == Effect::Nothing && row_post(
                        *old(self),
                        *final(self),
                        1,
                    ),
                    AppEvent::ToggleDetails => eff == Effect::Nothing && toggle_post(
                        *old(self),
                        *final(self),
                    ),
                    AppEvent::PageDown => eff == Effect::Nothing && scroll_post(
                        *old(self),
                        *final(self),
                        25,
                    ),
                    AppEvent::PageUp => eff == Effect::Nothing && scroll_post(
                        *old(self),
                        *final(self),
                        -25,
                    ),
                    AppEvent::OpenGitHub => *final(self) == *old(self) && open_post(
                        *old(self),
                        eff,
                    ),
                },
            },
    {
        match event {
            Event::Action => {
                self.app_state.loading_status = "Fetching data...".to_owned();
                proof {
                    lemma_wf_nav_unchanged(*old(self), *self);
                }
                Effect::Nothing
            },
            Event::GitHubDataFetched(result) => {
                match result {
                    Ok(workflow_data) => {
                        self.update_github_data(workflow_data);
                        self.app_state.loading_status = "Data updated.".to_owned();
                    },
                    Err(e) => {
                        let mut msg = "Error: ".to_owned();
                        msg.append(e.as_str());
                        self.app_state.loading_status = msg;
                        proof {
                            lemma_wf_nav_unchanged(*old(self), *self);
                        }
                    },
                }
                Effect::Nothing
            },
            Event::Key(key_press) => {
                match self.handle_key_event(key_press) {
                    Some(app_event) => Effect::Emit(app_event),
                    None => Effect::Nothing,
                }
            },
            Event::App(app_event) => {
                match app_event {
                    AppEvent::Quit => {
                        self.quit();
                        proof {
                            lemma_wf_nav_unchanged(*old(self), *self);
                        }
                        Effect::Nothing
                    },
                    AppEvent::NavigateRight => {
                        self.change_column_index(1);
                        Effect::Nothing
                    },
                    AppEvent::NavigateLeft => {
                        self.change_column_index(-1);
                        Effect::Nothing
                    },
                    AppEvent::NavigateUp => {
                        self.change_row_index(-1);
                        Effect::Nothing
                    },
                    AppEvent::NavigateDown => {
                        self.change_row_index(1);
                        Effect::Nothing
                    },
                    AppEvent::ToggleDetails => {
                        self.toggle_details_panel();
                        proof {
                            lemma_wf_nav_unchanged(*old(self), *self);
                        }
                        Effect::Nothing
                    },
                    AppEvent::PageDown => {
                        self.change_scroll_offset(25);
                        proof {
                            lemma_wf_nav_unchanged(*old(self), *self);
                        }
                        Effect::Nothing
                    },
                    AppEvent::PageUp => {
                        self.change_scroll_offset(-25);
                        proof {
                            lemma_wf_nav_unchanged(*old(self), *self);
                        }
                        Effect::Nothing
                    },
                    AppEvent::OpenGitHub => self.open_github(),
                }
            },
        }
    }
}

/// A transition that leaves the store and the three grouped structures in
/// place carries the model relation over.
pub proof fn lemma_model_transfer(pre: App, post: App)
    requires
        pre.model_ok(),
        post.job_details == pre.job_details,
        post.app_state.in_progress_jobs == pre.app_state.in_progress_jobs,
        post.app_state.success_jobs == pre.app_state.success_jobs,
        post.app_state.failure_jobs == pre.app_state.failure_jobs,
    ensures
        post.model_ok(),
{
    let order = choose|order: Seq<usize>|
        #![trigger valid_order(pre.job_details@, order)]
        valid_order(pre.job_details@, order) && groups_ok(
            pre.job_details@,
            order,
            Category::InProgress,
            pre.app_state.in_progress_jobs,
        ) && groups_ok(pre.job_details@, order, Category::Success, pre.app_state.success_jobs)
            && groups_ok(pre.job_details@, order, Category::Failure, pre.app_state.failure_jobs);
    assert(valid_order(post.job_details@, order));
}

/// A transition that leaves the navigation-relevant state in place keeps the
/// state well-formed.
pub proof fn lemma_wf_nav_unchanged(pre: App, post: App)
    requires
        pre.wf(),
        post.job_details == pre.job_details,
        post.app_state.column_index == pre.app_state.column_index,
        post.app_state.row_index == pre.app_state.row_index,
        post.app_state.in_progress_jobs == pre.app_state.in_progress_jobs,
        post.app_state.success_jobs == pre.app_state.success_jobs,
        post.app_state.failure_jobs == pre.app_state.failure_jobs,
    ensures
        post.wf(),
{
    lemma_model_transfer(pre, post);
    assert(post.app_state.current_groups() == pre.app_state.current_groups());
}

/// A well-formed store never outgrows its capacity.
pub proof fn lemma_store_capacity(s: App)
    requires
        s.wf(),
    ensures
        s.job_details@.len() <= MAX_DISPLAYED_JOBS,
{
}

/// What replacing the store with a snapshot keeps: at most the capacity,
/// exactly the newest entries — eviction removes the oldest-inserted first.
pub proof fn lemma_eviction_oldest_first(jobs: Seq<GithubJob>)
    ensures
        store_after(jobs).len() <= MAX_DISPLAYED_JOBS,
        jobs.len() <= MAX_DISPLAYED_JOBS ==> store_after(jobs) == jobs,
        jobs.len() > MAX_DISPLAYED_JOBS ==> store_after(jobs).len() == MAX_DISPLAYED_JOBS,
        forall|i: int|
            0 <= i < store_after(jobs).len() ==> #[trigger] store_after(jobs)[i] == jobs[evict_lo(
                jobs.len() as int,
            ) + i],
{
    if jobs.len() <= MAX_DISPLAYED_JOBS {
        assert(store_after(jobs) =~= jobs);
    }
}

/// In a well-formed state the row index lies within the active column:
/// strictly below the column's entry count, or zero when it is empty.
pub proof fn lemma_row_in_bounds(s: App)
    requires
        s.wf(),
    ensures
        ({
            let count = s.app_state.current_groups().flat().len();
            if count == 0 {
                s.app_state.row_index == 0
            } else {
                (s.app_state.row_index as int) < count
            }
        }),
{
}

/// Moving one column to the right three times returns to the starting
/// column: the column index wraps modulo three.
pub proof fn lemma_change_category_round_trip(s0: App, s1: App, s2: App, s3: App)
    requires
        s0.app_state.column_index < 3,
        !s0.app_state.show_details,
        column_post(s0, s1, 1),
        column_post(s1, s2, 1),
        column_post(s2, s3, 1),
    ensures
        s3.app_state.column_index == s0.app_state.column_index,
        s3.app_state.row_index == 0,
        s3.app_state.scroll_offset == 0,
{
    let c = s0.app_state.column_index as int;
    assert(s1.app_state.column_index as int == (c + 1) % 3);
    assert((1int) % 3 == 1 && (2int) % 3 == 2 && (3int) % 3 == 0);
}

} // verus!
