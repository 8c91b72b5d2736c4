//! Read model for the rendering collaborator: the single source of truth for
//! which job is selected. The renderer reads the navigation state, the
//! grouped structures and the job store, and never mutates them.

use vstd::prelude::*;
use crate::app::App;
use crate::engine::Category;
use crate::engine::groups_ok;
use crate::engine::job_category;
use crate::engine::lemma_flat_categorized;
use crate::engine::valid_order;
use crate::groups::JobGroups;

verus! {

/// The category each column displays.
pub open spec fn column_category(column_index: int) -> Category {
    if column_index == 0 {
        Category::InProgress
    } else if column_index == 1 {
        Category::Success
    } else {
        Category::Failure
    }
}

/// The store position of the job at the selected row of the selected column,
/// or nothing when the row points past the column's jobs.
pub open spec fn selected_index_spec(s: App) -> Option<usize> {
    let g = s.app_state.current_groups();
    if (s.app_state.row_index as int) < g.flat().len() {
        Some(g.flat()[s.app_state.row_index as int])
    } else {
        None
    }
}

/// In a well-formed state, a selected job is always a store entry, and
/// its job belongs to the active column's category: navigation can only
/// reach categorized jobs.
pub proof fn lemma_selected_job_categorized(s: App, i: usize)
    requires
        s.wf(),
        selected_index_spec(s) == Some(i),
    ensures
        (i as int) < s.job_details@.len(),
        job_category(s.job_details@[i as int]) == Some(
            column_category(s.app_state.column_index as int),
        ),
{
    let order = choose|order: Seq<usize>|
        #![trigger valid_order(s.job_details@, order)]
        valid_order(s.job_details@, order) && groups_ok(
            s.job_details@,
            order,
            Category::InProgress,
            s.app_state.in_progress_jobs,
        ) && groups_ok(s.job_details@, order, Category::Success, s.app_state.success_jobs)
            && groups_ok(s.job_details@, order, Category::Failure, s.app_state.failure_jobs);
    let c = column_category(s.app_state.column_index as int);
    let g = s.app_state.current_groups();
    assert(groups_ok(s.job_details@, order, c, g));
    lemma_flat_categorized(s.job_details@, order, c, g, s.app_state.row_index as int);
}

impl App {
    /// The store position of the currently selected job, or `None` when no
    /// job is selected. The renderer and the open-page action both consult
    /// this.
    pub fn get_selected_job_original_index(&self) -> (r: Option<usize>)
        requires
            self.wf(),
        ensures
            r == selected_index_spec(*self),
    {
        let groups = self.get_jobs_for_current_column();
        let count = groups.total();
        if self.app_state.row_index < count {
            Some(groups.flat_get(self.app_state.row_index))
        } else {
            None
        }
    }

    /// The grouped structure of the selected column, for the renderer.
    pub fn get_current_column_data(&self) -> (g: &JobGroups)
        ensures
            *g == self.app_state.current_groups(),
    {
        self.get_jobs_for_current_column()
    }
}

} // verus!
