//! Categorization and grouping engine: a pure function from the job store to
//! the presentation model. Each job is assigned to one of three categories
//! (or dropped), jobs are ordered by start timestamp descending, and within
//! each category grouped by tool name.

use vstd::prelude::*;
use std::collections::VecDeque;
use crate::gh_cli::GithubJob;
use crate::groups::Group;
use crate::groups::JobGroups;
use crate::groups::lemma_flat_elem;
use crate::text::lex_lt;
use crate::text::lemma_lex_lt_asymmetric;
use crate::text::lemma_lex_lt_irreflexive;
use crate::text::lemma_lex_lt_transitive;
use crate::text::lemma_lex_lt_trichotomy;
use crate::text::str_eq;
use crate::text::tool_of;
use crate::text::tool_of_name;
use crate::text::StrOrder;
use crate::text::str_cmp;

verus! {

/// The three displayed buckets.
#[derive(Clone, Copy, Debug, PartialEq, Eq, Structural)]
pub enum Category {
    InProgress,
    Success,
    Failure,
}

/// View of an optional string.
pub open spec fn opt_view(c: Option<String>) -> Option<Seq<char>> {
    match c {
        Some(s) => Some(s@),
        None => None,
    }
}

/// Category assignment: a pure function of lifecycle status and conclusion.
/// Completed jobs conclude in Success or Failure; queued, waiting and running
/// jobs are in progress; everything else (including completed jobs that were
/// cancelled or skipped, or lack a conclusion) belongs to no category.
pub open spec fn category_of(status: Seq<char>, conclusion: Option<Seq<char>>) -> Option<
    Category,
> {
    if status == "completed"@ {
        match conclusion {
            Some(c) => if c == "success"@ {
                Some(Category::Success)
            } else if c == "failure"@ {
                Some(Category::Failure)
            } else {
                None
            },
            None => None,
        }
    } else if status == "in_progress"@ || status == "queued"@ || status == "waiting"@ {
        Some(Category::InProgress)
    } else {
        None
    }
}

/// The category of a job record.
pub open spec fn job_category(job: GithubJob) -> Option<Category> {
    category_of(job.status@, opt_view(job.conclusion))
}

/// Computes a job's category.
pub fn categorize(job: &GithubJob) -> (c: Option<Category>)
    ensures
        c == job_category(*job),
{
    if str_eq(job.status.as_str(), "completed") {
        match &job.conclusion {
            Some(con) => {
                if str_eq(con.as_str(), "success") {
                    Some(Category::Success)
                } else if str_eq(con.as_str(), "failure") {
                    Some(Category::Failure)
                } else {
                    None
                }
            },
            None => None,
        }
    } else if str_eq(job.status.as_str(), "in_progress") || str_eq(job.status.as_str(), "queued")
        || str_eq(job.status.as_str(), "waiting") {
        Some(Category::InProgress)
    } else {
        None
    }
}

/// A completed job whose conclusion is not success or failure (cancelled,
/// skipped, anything else, or missing) belongs to no category.
pub proof fn lemma_completed_without_outcome_uncategorized(
    status: Seq<char>,
    conclusion: Option<Seq<char>>,
)
    requires
        status == "completed"@,
        match conclusion {
            Some(c) => c != "success"@ && c != "failure"@,
            None => true,
        },
    ensures
        category_of(status, conclusion) == None::<Category>,
{
}

/// Display order of two store positions: the more recently started job comes
/// first; equal timestamps keep store order.
pub open spec fn pos_before(jobs: Seq<GithubJob>, i: int, j: int) -> bool {
    ||| lex_lt(jobs[j].started_at@, jobs[i].started_at@)
    ||| (jobs[i].started_at@ == jobs[j].started_at@ && i < j)
}

pub proof fn lemma_pos_before_asymmetric(jobs: Seq<GithubJob>, i: int, j: int)
    ensures
        !(pos_before(jobs, i, j) && pos_before(jobs, j, i)),
{
    lemma_lex_lt_asymmetric(jobs[i].started_at@, jobs[j].started_at@);
    lemma_lex_lt_irreflexive(jobs[i].started_at@);
    lemma_lex_lt_irreflexive(jobs[j].started_at@);
}

pub proof fn lemma_pos_before_total(jobs: Seq<GithubJob>, i: int, j: int)
    requires
        i != j,
    ensures
        pos_before(jobs, i, j) || pos_before(jobs, j, i),
{
    lemma_lex_lt_trichotomy(jobs[i].started_at@, jobs[j].started_at@);
}

pub proof fn lemma_pos_before_transitive(jobs: Seq<GithubJob>, i: int, j: int, k: int)
    requires
        pos_before(jobs, i, j),
        pos_before(jobs, j, k),
    ensures
        pos_before(jobs, i, k),
{
    let si = jobs[i].started_at@;
    let sj = jobs[j].started_at@;
    let sk = jobs[k].started_at@;
    if lex_lt(sj, si) && lex_lt(sk, sj) {
        lemma_lex_lt_transitive(sk, sj, si);
    }
}

/// A valid display order: a permutation of all store positions, strictly
/// sorted by `pos_before`.
pub open spec fn valid_order(jobs: Seq<GithubJob>, order: Seq<usize>) -> bool {
    &&& order.len() == jobs.len()
    &&& forall|a: int| 0 <= a < order.len() ==> (#[trigger] order[a]) < jobs.len()
    &&& forall|a: int, b: int|
        #![trigger order[a], order[b]]
        0 <= a < b < order.len() ==> pos_before(jobs, order[a] as int, order[b] as int)
    &&& forall|i: usize| i < jobs.len() ==> #[trigger] order.contains(i)
}

/// A job store has exactly one valid display order.
pub proof fn lemma_valid_order_unique(jobs: Seq<GithubJob>, o1: Seq<usize>, o2: Seq<usize>)
    requires
        valid_order(jobs, o1),
        valid_order(jobs, o2),
    ensures
        o1 == o2,
{
    assert forall|x: usize| o1.contains(x) <==> o2.contains(x) by {
        if o1.contains(x) {
            let a = choose|a: int| 0 <= a < o1.len() && o1[a] == x;
            assert(o1[a] < jobs.len());
            assert(x < jobs.len());
            assert(o2.contains(x));
        }
        if o2.contains(x) {
            let a = choose|a: int| 0 <= a < o2.len() && o2[a] == x;
            assert(o2[a] < jobs.len());
            assert(x < jobs.len());
            assert(o1.contains(x));
        }
    }
    let lt = |i: usize, j: usize| pos_before(jobs, i as int, j as int);
    assert forall|x: usize, y: usize| #![trigger lt(x, y), lt(y, x)] !(lt(x, y) && lt(y, x)) by {
        lemma_pos_before_asymmetric(jobs, x as int, y as int);
    }
    assert forall|a: int, b: int|
        #![trigger o1[a], o1[b]]
        0 <= a < b < o1.len() implies lt(o1[a], o1[b]) by {}
    assert forall|a: int, b: int|
        #![trigger o2[a], o2[b]]
        0 <= a < b < o2.len() implies lt(o2[a], o2[b]) by {}
    crate::groups::lemma_strict_sorted_unique(lt, o1, o2);
}

/// Membership test for one group: the job at a store position belongs to
/// category `c` and carries tool name `t`.
pub open spec fn grp_pred(jobs: Seq<GithubJob>, c: Category, t: Seq<char>) -> spec_fn(
    usize,
) -> bool {
    |i: usize| job_category(jobs[i as int]) == Some(c) && tool_of(jobs[i as int].name@) == t
}

/// The grouped positions of one category: one group per tool that occurs in
/// the category, each holding exactly the display-ordered positions of its
/// jobs.
pub open spec fn groups_ok(
    jobs: Seq<GithubJob>,
    order: Seq<usize>,
    c: Category,
    g: JobGroups,
) -> bool {
    &&& g.wf()
    &&& forall|t: Seq<char>|
        #[trigger] g.has_tool(t) <==> order.filter(grp_pred(jobs, c, t)).len() > 0
    &&& forall|t: Seq<char>|
        #[trigger] g.has_tool(t) ==> g.indices_of(t) == order.filter(grp_pred(jobs, c, t))
}

/// Computes the display order of the store positions: by start timestamp
/// descending, ties kept in store order.
pub fn sorted_positions(jobs: &VecDeque<GithubJob>) -> (order: Vec<usize>)
    ensures
        valid_order(jobs@, order@),
{
    let n = jobs.len();
    let mut order: Vec<usize> = Vec::new();
    let mut k: usize = 0;
    while k < n
        invariant
            k <= n,
            n == jobs@.len(),
            order@.len() == k,
            forall|a: int| 0 <= a < order@.len() ==> (#[trigger] order@[a]) < k,
            forall|a: int, b: int|
                #![trigger order@[a], order@[b]]
                0 <= a < b < order@.len() ==> pos_before(jobs@, order@[a] as int, order@[b] as int),
            forall|i: usize| i < k ==> #[trigger] order@.contains(i),
        decreases n - k,
    {
        let ghost pre = order@;
        let p = find_pos(jobs, &order, k);
        order.insert(p, k);
        proof {
            let pi = p as int;
            assert forall|i: int| 0 <= i < order@.len() implies (#[trigger] order@[i]) == (if i
                < pi {
                pre[i]
            } else if i == pi {
                k as usize
            } else {
                pre[i - 1]
            }) by {}
            assert forall|a: int, b: int|
                #![trigger order@[a], order@[b]]
                0 <= a < b < order@.len() implies pos_before(
                jobs@,
                order@[a] as int,
                order@[b] as int,
            ) by {}
            assert forall|i: usize| i < k + 1 implies #[trigger] order@.contains(i) by {
                if i == k {
                    assert(order@[pi] == i);
                } else {
                    assert(pre.contains(i));
                    let a = choose|a: int| 0 <= a < pre.len() && pre[a] == i;
                    if a < pi {
                        assert(order@[a] == i);
                    } else {
                        assert(order@[a + 1] == i);
                    }
                }
            }
        }
        k = k + 1;
    }
    proof {
        assert(valid_order(jobs@, order@));
    }
    order
}

/// Whether the job at store position `i` displays before the one at `j`.
fn pos_before_at(jobs: &VecDeque<GithubJob>, i: usize, j: usize) -> (r: bool)
    requires
        i < jobs@.len(),
        j < jobs@.len(),
    ensures
        r == pos_before(jobs@, i as int, j as int),
{
    proof {
        lemma_lex_lt_asymmetric(jobs@[i as int].started_at@, jobs@[j as int].started_at@);
    }
    match str_cmp(jobs[i].started_at.as_str(), jobs[j].started_at.as_str()) {
        StrOrder::Greater => true,
        StrOrder::Equal => i < j,
        StrOrder::Less => false,
    }
}

/// Finds where a new store position belongs in the display order so far.
fn find_pos(jobs: &VecDeque<GithubJob>, order: &Vec<usize>, k: usize) -> (p: usize)
    requires
        k < jobs@.len(),
        forall|a: int| 0 <= a < order@.len() ==> (#[trigger] order@[a]) < jobs@.len(),
        forall|a: int| 0 <= a < order@.len() ==> (#[trigger] order@[a]) != k,
        forall|a: int, b: int|
            #![trigger order@[a], order@[b]]
            0 <= a < b < order@.len() ==> pos_before(jobs@, order@[a] as int, order@[b] as int),
    ensures
        p <= order@.len(),
        forall|a: int| 0 <= a < p ==> pos_before(jobs@, (#[trigger] order@[a]) as int, k as int),
        forall|a: int|
            p <= a < order@.len() ==> pos_before(jobs@, k as int, (#[trigger] order@[a]) as int),
    decreases order@.len(),
{
    let mut p: usize = 0;
    while p < order.len()
        invariant
            p <= order@.len(),
            k < jobs@.len(),
            forall|a: int| 0 <= a < order@.len() ==> (#[trigger] order@[a]) < jobs@.len(),
            forall|a: int| 0 <= a < order@.len() ==> (#[trigger] order@[a]) != k,
            forall|a: int, b: int|
                #![trigger order@[a], order@[b]]
                0 <= a < b < order@.len() ==> pos_before(jobs@, order@[a] as int, order@[b] as int),
            forall|a: int|
                0 <= a < p ==> pos_before(jobs@, (#[trigger] order@[a]) as int, k as int),
        decreases order@.len() - p,
    {
        if pos_before_at(jobs, order[p], k) {
            p = p + 1;
        } else {
            proof {
                lemma_pos_before_total(jobs@, k as int, order@[p as int] as int);
                assert(pos_before(jobs@, k as int, order@[p as int] as int));
                assert forall|a: int|
                    p <= a < order@.len() implies pos_before(
                    jobs@,
                    k as int,
                    (#[trigger] order@[a]) as int,
                ) by {
                    if a > p {
                        lemma_pos_before_transitive(
                            jobs@,
                            k as int,
                            order@[p as int] as int,
                            order@[a] as int,
                        );
                    }
                }
            }
            return p;
        }
    }
    p
}

/// Builds the presentation model for the three categories from the job store
/// and its display order.
pub fn build_groups(jobs: &VecDeque<GithubJob>, order: &Vec<usize>) -> (res: (
    JobGroups,
    JobGroups,
    JobGroups,
))
    requires
        valid_order(jobs@, order@),
    ensures
        groups_ok(jobs@, order@, Category::InProgress, res.0),
        groups_ok(jobs@, order@, Category::Success, res.1),
        groups_ok(jobs@, order@, Category::Failure, res.2),
        res.0.flat().len() + res.1.flat().len() + res.2.flat().len() <= order@.len(),
{
    broadcast use vstd::prelude::Seq::lemma_filter_push;

    let mut in_progress = JobGroups::new();
    let mut success = JobGroups::new();
    let mut failure = JobGroups::new();
    proof {
        assert forall|c: Category, t: Seq<char>|
            (#[trigger] order@.take(0).filter(grp_pred(jobs@, c, t))).len() == 0 by {
            assert(order@.take(0) =~= Seq::<usize>::empty());
            assert(order@.take(0).filter(grp_pred(jobs@, c, t)) =~= Seq::<usize>::empty());
        }
    }
    let mut k: usize = 0;
    while k < order.len()
        invariant
            k <= order@.len(),
            valid_order(jobs@, order@),
            groups_ok(jobs@, order@.take(k as int), Category::InProgress, in_progress),
            groups_ok(jobs@, order@.take(k as int), Category::Success, success),
            groups_ok(jobs@, order@.take(k as int), Category::Failure, failure),
            in_progress.flat().len() + success.flat().len() + failure.flat().len() <= k,
        decreases order@.len() - k,
    {
        broadcast use vstd::prelude::Seq::lemma_filter_push;

        let ghost prefix = order@.take(k as int);
        let idx = order[k];
        let ghost job = jobs@[idx as int];
        proof {
            assert(order@.take(k as int + 1) =~= prefix.push(idx));
        }
        let cat = categorize(&jobs[idx]);
        match cat {
            Some(c) => {
                let tool = tool_of_name(jobs[idx].name.as_str());
                let ghost t0 = tool@;
                let ghost pre_ip = in_progress;
                let ghost pre_su = success;
                let ghost pre_fa = failure;
                match c {
                    Category::InProgress => {
                        in_progress.push_index(tool, idx);
                    },
                    Category::Success => {
                        success.push_index(tool, idx);
                    },
                    Category::Failure => {
                        failure.push_index(tool, idx);
                    },
                }
                proof {
                    lemma_step_matched(
                        jobs@,
                        prefix,
                        idx,
                        c,
                        t0,
                        if c == Category::InProgress {
                            pre_ip
                        } else if c == Category::Success {
                            pre_su
                        } else {
                            pre_fa
                        },
                        if c == Category::InProgress {
                            in_progress
                        } else if c == Category::Success {
                            success
                        } else {
                            failure
                        },
                    );
                    if c != Category::InProgress {
                        lemma_step_other(jobs@, prefix, idx, Category::InProgress, in_progress, c);
                    }
                    if c != Category::Success {
                        lemma_step_other(jobs@, prefix, idx, Category::Success, success, c);
                    }
                    if c != Category::Failure {
                        lemma_step_other(jobs@, prefix, idx, Category::Failure, failure, c);
                    }
                }
            },
            None => {
                proof {
                    lemma_step_none(jobs@, prefix, idx, Category::InProgress, in_progress);
                    lemma_step_none(jobs@, prefix, idx, Category::Success, success);
                    lemma_step_none(jobs@, prefix, idx, Category::Failure, failure);
                }
            },
        }
        k = k + 1;
    }
    proof {
        assert(order@.take(order@.len() as int) =~= order@);
    }
    (in_progress, success, failure)
}

/// Pushing a position of category `c` and tool `t0` extends exactly the
/// group of `t0` in `c`'s structure.
proof fn lemma_step_matched(
    jobs: Seq<GithubJob>,
    prefix: Seq<usize>,
    idx: usize,
    c: Category,
    t0: Seq<char>,
    pre: JobGroups,
    post: JobGroups,
)
    requires
        groups_ok(jobs, prefix, c, pre),
        job_category(jobs[idx as int]) == Some(c),
        tool_of(jobs[idx as int].name@) == t0,
        post.wf(),
        post.has_tool(t0),
        forall|t: Seq<char>| #[trigger] post.has_tool(t) == (pre.has_tool(t) || t == t0),
        post.indices_of(t0) == (if pre.has_tool(t0) {
            pre.indices_of(t0).push(idx)
        } else {
            seq![idx]
        }),
        forall|t: Seq<char>|
            pre.has_tool(t) && t != t0 ==> #[trigger] post.indices_of(t) == pre.indices_of(t),
    ensures
        groups_ok(jobs, prefix.push(idx), c, post),
{
    broadcast use vstd::prelude::Seq::lemma_filter_push;

    let ext = prefix.push(idx);
    assert forall|t: Seq<char>|
        #[trigger] post.has_tool(t) <==> ext.filter(grp_pred(jobs, c, t)).len() > 0 by {
        assert(grp_pred(jobs, c, t)(idx) == (t == t0));
        assert(ext.filter(grp_pred(jobs, c, t)) == if grp_pred(jobs, c, t)(idx) {
            prefix.filter(grp_pred(jobs, c, t)).push(idx)
        } else {
            prefix.filter(grp_pred(jobs, c, t))
        });
    }
    assert forall|t: Seq<char>| #[trigger] post.has_tool(t) implies post.indices_of(t)
        == ext.filter(grp_pred(jobs, c, t)) by {
        assert(grp_pred(jobs, c, t)(idx) == (t == t0));
        assert(ext.filter(grp_pred(jobs, c, t)) == if grp_pred(jobs, c, t)(idx) {
            prefix.filter(grp_pred(jobs, c, t)).push(idx)
        } else {
            prefix.filter(grp_pred(jobs, c, t))
        });
        if t == t0 {
            if pre.has_tool(t0) {
                assert(pre.indices_of(t0) == prefix.filter(grp_pred(jobs, c, t0)));
            } else {
                assert(prefix.filter(grp_pred(jobs, c, t0)).len() == 0);
                assert(prefix.filter(grp_pred(jobs, c, t0)) =~= Seq::<usize>::empty());
                assert(ext.filter(grp_pred(jobs, c, t0)) =~= seq![idx]);
            }
        }
    }
}

/// A pushed position of another category leaves a structure's contract over
/// the extended prefix intact.
proof fn lemma_step_other(
    jobs: Seq<GithubJob>,
    prefix: Seq<usize>,
    idx: usize,
    c: Category,
    g: JobGroups,
    matched: Category,
)
    requires
        groups_ok(jobs, prefix, c, g),
        job_category(jobs[idx as int]) == Some(matched),
        matched != c,
    ensures
        groups_ok(jobs, prefix.push(idx), c, g),
{
    broadcast use vstd::prelude::Seq::lemma_filter_push;

    let ext = prefix.push(idx);
    assert forall|t: Seq<char>|
        #[trigger] ext.filter(grp_pred(jobs, c, t)) == prefix.filter(grp_pred(jobs, c, t)) by {
        assert(!grp_pred(jobs, c, t)(idx));
    }
}

/// Over one display order, the grouped structure of a category is unique:
/// any two structures meeting its contract are identical.
pub proof fn lemma_groups_unique(
    jobs: Seq<GithubJob>,
    order: Seq<usize>,
    c: Category,
    g1: JobGroups,
    g2: JobGroups,
)
    requires
        groups_ok(jobs, order, c, g1),
        groups_ok(jobs, order, c, g2),
    ensures
        g1@ == g2@,
{
    let key_of = |g: Group| g.tool@;
    let k1 = g1.groups@.map_values(key_of);
    let k2 = g2.groups@.map_values(key_of);
    let lt = |a: Seq<char>, b: Seq<char>| lex_lt(a, b);
    assert forall|x: Seq<char>, y: Seq<char>|
        #![trigger lt(x, y), lt(y, x)]
        !(lt(x, y) && lt(y, x)) by {
        lemma_lex_lt_asymmetric(x, y);
    }
    assert forall|a: int, b: int|
        #![trigger k1[a], k1[b]]
        0 <= a < b < k1.len() implies lt(k1[a], k1[b]) by {
        assert(k1[a] == g1.groups@[a].tool@);
        assert(k1[b] == g1.groups@[b].tool@);
    }
    assert forall|a: int, b: int|
        #![trigger k2[a], k2[b]]
        0 <= a < b < k2.len() implies lt(k2[a], k2[b]) by {
        assert(k2[a] == g2.groups@[a].tool@);
        assert(k2[b] == g2.groups@[b].tool@);
    }
    assert forall|t: Seq<char>| k1.contains(t) <==> g1.has_tool(t) by {
        if k1.contains(t) {
            let i = choose|i: int| 0 <= i < k1.len() && k1[i] == t;
            assert(g1.groups@[i].tool@ == t);
            assert(g1.has_tool(t));
        }
        if g1.has_tool(t) {
            let k = choose|k: int|
                0 <= k < g1.groups@.len() && (#[trigger] g1.groups@[k]).tool@ == t;
            assert(k1[k] == t);
            assert(k1.contains(t));
        }
    }
    assert forall|t: Seq<char>| k2.contains(t) <==> g2.has_tool(t) by {
        if k2.contains(t) {
            let i = choose|i: int| 0 <= i < k2.len() && k2[i] == t;
            assert(g2.groups@[i].tool@ == t);
            assert(g2.has_tool(t));
        }
        if g2.has_tool(t) {
            let k = choose|k: int|
                0 <= k < g2.groups@.len() && (#[trigger] g2.groups@[k]).tool@ == t;
            assert(k2[k] == t);
            assert(k2.contains(t));
        }
    }
    assert forall|t: Seq<char>| k1.contains(t) <==> k2.contains(t) by {
        assert(g1.has_tool(t) <==> order.filter(grp_pred(jobs, c, t)).len() > 0);
        assert(g2.has_tool(t) <==> order.filter(grp_pred(jobs, c, t)).len() > 0);
    }
    crate::groups::lemma_strict_sorted_unique(lt, k1, k2);
    assert(g1.groups@.len() == g2.groups@.len());
    assert forall|i: int| 0 <= i < g1.groups@.len() implies g1@[i] == g2@[i] by {
        assert(k1[i] == k2[i]);
        let t = g1.groups@[i].tool@;
        assert(g2.groups@[i].tool@ == t);
        g1.lemma_group_pos(i);
        g2.lemma_group_pos(i);
        assert(g1.indices_of(t) == order.filter(grp_pred(jobs, c, t)));
        assert(g2.indices_of(t) == order.filter(grp_pred(jobs, c, t)));
        assert(g1.groups@[i].indices@ == g2.groups@[i].indices@);
    }
    assert(g1@ =~= g2@);
}

/// Rebuilding the presentation model from the same job store yields
/// identical structures: the display order is unique, and over it so is the
/// grouped structure of each category.
pub proof fn lemma_rebuild_idempotent(
    jobs: Seq<GithubJob>,
    o1: Seq<usize>,
    o2: Seq<usize>,
    ip1: JobGroups,
    su1: JobGroups,
    fa1: JobGroups,
    ip2: JobGroups,
    su2: JobGroups,
    fa2: JobGroups,
)
    requires
        valid_order(jobs, o1),
        valid_order(jobs, o2),
        groups_ok(jobs, o1, Category::InProgress, ip1),
        groups_ok(jobs, o1, Category::Success, su1),
        groups_ok(jobs, o1, Category::Failure, fa1),
        groups_ok(jobs, o2, Category::InProgress, ip2),
        groups_ok(jobs, o2, Category::Success, su2),
        groups_ok(jobs, o2, Category::Failure, fa2),
    ensures
        o1 == o2,
        ip1@ == ip2@,
        su1@ == su2@,
        fa1@ == fa2@,
{
    lemma_valid_order_unique(jobs, o1, o2);
    lemma_groups_unique(jobs, o1, Category::InProgress, ip1, ip2);
    lemma_groups_unique(jobs, o1, Category::Success, su1, su2);
    lemma_groups_unique(jobs, o1, Category::Failure, fa1, fa2);
}

/// A store position whose job does not belong to category `c` appears
/// nowhere in `c`'s grouped structure: such jobs sit in the store but are
/// invisible to navigation.
pub proof fn lemma_uncategorized_invisible(
    jobs: Seq<GithubJob>,
    order: Seq<usize>,
    c: Category,
    g: JobGroups,
    i: usize,
)
    requires
        groups_ok(jobs, order, c, g),
        job_category(jobs[i as int]) != Some(c),
    ensures
        !g.flat().contains(i),
{
    if g.flat().contains(i) {
        let r = choose|r: int| 0 <= r < g.flat().len() && g.flat()[r] == i;
        lemma_flat_elem(g.groups@, r);
        let (gi, o) = choose|gi: int, o: int|
            0 <= gi < g.groups@.len() && 0 <= o < (#[trigger] g.groups@[gi]).indices@.len()
                && g.flat()[r] == g.groups@[gi].indices@[#[trigger] (o + 0)];
        g.lemma_group_pos(gi);
        let t = g.groups@[gi].tool@;
        assert(g.has_tool(t));
        assert(g.indices_of(t) == order.filter(grp_pred(jobs, c, t)));
        assert(order.filter(grp_pred(jobs, c, t))[o] == i);
        order.filter_lemma(grp_pred(jobs, c, t));
        assert(grp_pred(jobs, c, t)(i));
        assert(false);
    }
}

/// Every position a category's grouped structure displays is a store
/// position, and the job there belongs to that category.
pub proof fn lemma_flat_categorized(
    jobs: Seq<GithubJob>,
    order: Seq<usize>,
    c: Category,
    g: JobGroups,
    r: int,
)
    requires
        valid_order(jobs, order),
        groups_ok(jobs, order, c, g),
        0 <= r < g.flat().len(),
    ensures
        g.flat()[r] < jobs.len(),
        job_category(jobs[g.flat()[r] as int]) == Some(c),
{
    lemma_flat_elem(g.groups@, r);
    let (gi, o) = choose|gi: int, o: int|
        0 <= gi < g.groups@.len() && 0 <= o < (#[trigger] g.groups@[gi]).indices@.len()
            && g.flat()[r] == g.groups@[gi].indices@[#[trigger] (o + 0)];
    g.lemma_group_pos(gi);
    let t = g.groups@[gi].tool@;
    assert(g.has_tool(t));
    assert(g.indices_of(t) == order.filter(grp_pred(jobs, c, t)));
    let flt = order.filter(grp_pred(jobs, c, t));
    assert(flt[o] == g.flat()[r]);
    order.filter_lemma(grp_pred(jobs, c, t));
    assert(grp_pred(jobs, c, t)(flt[o]));
    assert(flt.contains(flt[o]));
    order.lemma_filter_contains_rev(grp_pred(jobs, c, t), flt[o]);
    assert(order.contains(flt[o]));
    let a = choose|a: int| 0 <= a < order.len() && order[a] == flt[o];
    assert(order[a] < jobs.len());
}

/// A pushed position of no category leaves every structure's contract over
/// the extended prefix intact.
proof fn lemma_step_none(
    jobs: Seq<GithubJob>,
    prefix: Seq<usize>,
    idx: usize,
    c: Category,
    g: JobGroups,
)
    requires
        groups_ok(jobs, prefix, c, g),
        job_category(jobs[idx as int]) == None::<Category>,
    ensures
        groups_ok(jobs, prefix.push(idx), c, g),
{
    broadcast use vstd::prelude::Seq::lemma_filter_push;

    let ext = prefix.push(idx);
    assert forall|t: Seq<char>|
        #[trigger] ext.filter(grp_pred(jobs, c, t)) == prefix.filter(grp_pred(jobs, c, t)) by {
        assert(!grp_pred(jobs, c, t)(idx));
    }
}

} // verus!
