//! Grouped store positions for one category: a list of groups, one per tool,
//! kept sorted by tool name, each holding the positions of its jobs in the
//! job store in the order they were assigned.

use vstd::prelude::*;
use crate::text::lex_lt;
use crate::text::lemma_lex_lt_irreflexive;
use crate::text::lemma_lex_lt_transitive;
use crate::text::lemma_lex_lt_trichotomy;
use crate::text::str_cmp;
use crate::text::StrOrder;

verus! {

/// One display group: a tool name and the store positions of its jobs.
#[derive(Clone, Debug)]
pub struct Group {
    pub tool: String,
    pub indices: Vec<usize>,
}

/// Selects the store positions a group holds; named so that every statement
/// about flattened groups speaks of one and the same function.
pub open spec fn grp_indices() -> spec_fn(Group) -> Seq<usize> {
    |g: Group| g.indices@
}

/// Tool names strictly ascending: sorted, and no tool occurs twice.
pub open spec fn keys_sorted(gs: Seq<Group>) -> bool {
    forall|i: int, j: int|
        #![trigger gs[i], gs[j]]
        0 <= i < j < gs.len() ==> lex_lt(gs[i].tool@, gs[j].tool@)
}

/// The groups of one category, ordered by tool name.
#[derive(Clone, Debug)]
pub struct JobGroups {
    pub groups: Vec<Group>,
}

impl View for JobGroups {
    type V = Seq<(Seq<char>, Seq<usize>)>;

    open spec fn view(&self) -> Seq<(Seq<char>, Seq<usize>)> {
        self.groups@.map_values(|g: Group| (g.tool@, g.indices@))
    }
}

impl JobGroups {
    /// Well-formed: tools strictly sorted and no group empty.
    pub open spec fn wf(self) -> bool {
        &&& keys_sorted(self.groups@)
        &&& forall|i: int| 0 <= i < self.groups@.len() ==> (#[trigger] self.groups@[i]).indices@.len() > 0
    }

    /// Whether some group carries this tool name.
    pub open spec fn has_tool(self, tool: Seq<char>) -> bool {
        exists|k: int| 0 <= k < self.groups@.len() && (#[trigger] self.groups@[k]).tool@ == tool
    }

    /// The position of the group carrying this tool name.
    pub open spec fn group_pos(self, tool: Seq<char>) -> int {
        choose|k: int| 0 <= k < self.groups@.len() && (#[trigger] self.groups@[k]).tool@ == tool
    }

    /// The store positions recorded under this tool name.
    pub open spec fn indices_of(self, tool: Seq<char>) -> Seq<usize> {
        self.groups@[self.group_pos(tool)].indices@
    }

    /// All store positions, flattened in group order.
    pub open spec fn flat(self) -> Seq<usize> {
        self.groups@.flat_map(grp_indices())
    }

    /// No two well-formed groups carry the same tool name.
    pub proof fn lemma_tool_unique(self, k1: int, k2: int)
        requires
            self.wf(),
            0 <= k1 < self.groups@.len(),
            0 <= k2 < self.groups@.len(),
            self.groups@[k1].tool@ == self.groups@[k2].tool@,
        ensures
            k1 == k2,
    {
        if k1 != k2 {
            lemma_lex_lt_irreflexive(self.groups@[k1].tool@);
        }
    }

    /// The group at position `k` is the one `group_pos` finds for its tool.
    pub proof fn lemma_group_pos(self, k: int)
        requires
            self.wf(),
            0 <= k < self.groups@.len(),
        ensures
            self.has_tool(self.groups@[k].tool@),
            self.group_pos(self.groups@[k].tool@) == k,
            self.indices_of(self.groups@[k].tool@) == self.groups@[k].indices@,
    {
        let tool = self.groups@[k].tool@;
        assert(self.has_tool(tool));
        let k2 = self.group_pos(tool);
        self.lemma_tool_unique(k, k2);
    }

    /// An empty collection of groups.
    pub fn new() -> (g: JobGroups)
        ensures
            g.wf(),
            g.groups@.len() == 0,
            g.flat().len() == 0,
            forall|t: Seq<char>| !g.has_tool(t),
    {
        let g = JobGroups { groups: Vec::new() };
        proof {
            assert(g.groups@.map_values(grp_indices()) =~= Seq::<Seq<usize>>::empty());
            assert(g.flat() =~= Seq::<usize>::empty());
        }
        g
    }

    /// Records one more store position under the given tool name, appending
    /// to the tool's group or opening a new group at its sorted position.
    pub fn push_index(&mut self, tool: String, idx: usize)
        requires
            old(self).wf(),
        ensures
            final(self).wf(),
            final(self).has_tool(tool@),
            forall|t: Seq<char>|
                #[trigger] final(self).has_tool(t) == (old(self).has_tool(t) || t == tool@),
            final(self).indices_of(tool@) == (if old(self).has_tool(tool@) {
                old(self).indices_of(tool@).push(idx)
            } else {
                seq![idx]
            }),
            forall|t: Seq<char>|
                old(self).has_tool(t) && t != tool@ ==> #[trigger] final(self).indices_of(t)
                    == old(self).indices_of(t),
            final(self).flat().len() == old(self).flat().len() + 1,
    {
        let ghost pre = *old(self);
        let (lo, found) = find_slot(&self.groups, tool.as_str());
        if found {
            let mut grp = self.groups.remove(lo);
            grp.indices.push(idx);
            self.groups.insert(lo, grp);
            proof {
                let li = lo as int;
                assert(self.groups@ =~= pre.groups@.update(li, self.groups@[li]));
                assert(self.groups@[li].tool@ == tool@);
                assert(self.groups@[li].indices@ == pre.groups@[li].indices@.push(idx));
                assert forall|i: int, j: int|
                    #![trigger self.groups@[i], self.groups@[j]]
                    0 <= i < j < self.groups@.len() implies lex_lt(
                    self.groups@[i].tool@,
                    self.groups@[j].tool@,
                ) by {
                    assert(pre.groups@[i].tool@ == self.groups@[i].tool@);
                    assert(pre.groups@[j].tool@ == self.groups@[j].tool@);
                }
                assert(self.wf());
                assert forall|t: Seq<char>|
                    #[trigger] self.has_tool(t) == (pre.has_tool(t) || t == tool@) by {
                    if self.has_tool(t) {
                        let k = choose|k: int|
                            0 <= k < self.groups@.len() && (#[trigger] self.groups@[k]).tool@
                                == t;
                        assert(pre.groups@[k].tool@ == t);
                        assert(pre.has_tool(t));
                    }
                    if pre.has_tool(t) {
                        let k = choose|k: int|
                            0 <= k < pre.groups@.len() && (#[trigger] pre.groups@[k]).tool@ == t;
                        assert(self.groups@[k].tool@ == t);
                        assert(self.has_tool(t));
                    }
                }
                pre.lemma_group_pos(li);
                self.lemma_group_pos(li);
                assert(final(self).indices_of(tool@) == pre.indices_of(tool@).push(idx));
                assert forall|t: Seq<char>|
                    pre.has_tool(t) && t != tool@ implies #[trigger] self.indices_of(t)
                    == pre.indices_of(t) by {
                    let k = choose|k: int|
                        0 <= k < pre.groups@.len() && (#[trigger] pre.groups@[k]).tool@ == t;
                    pre.lemma_group_pos(k);
                    self.lemma_group_pos(k);
                    assert(k != li);
                }
                lemma_flat_update_len_upto(
                    pre.groups@,
                    li,
                    self.groups@[li],
                    pre.groups@.len() as int,
                );
                assert(pre.groups@.take(pre.groups@.len() as int) =~= pre.groups@);
                assert(pre.groups@.update(li, self.groups@[li]).take(pre.groups@.len() as int)
                    =~= self.groups@);
            }
        } else {
            let ghost tview = tool@;
            let mut indices: Vec<usize> = Vec::new();
            indices.push(idx);
            let grp = Group { tool, indices };
            self.groups.insert(lo, grp);
            proof {
                let li = lo as int;
                let n0 = pre.groups@.len() as int;
                assert(self.groups@ == pre.groups@.insert(li, grp));
                // the new tool is strictly between its neighbours
                assert forall|k: int| 0 <= k < n0 && k >= li implies lex_lt(
                    tview,
                    pre.groups@[k].tool@,
                ) by {
                    lemma_lex_lt_trichotomy(tview, pre.groups@[li].tool@);
                    if k > li {
                        lemma_lex_lt_transitive(tview, pre.groups@[li].tool@, pre.groups@[k].tool@);
                    }
                }
                // no old group carries the new tool
                assert forall|k: int| 0 <= k < n0 implies pre.groups@[k].tool@ != tview by {
                    if k < li {
                        if pre.groups@[k].tool@ == tview {
                            lemma_lex_lt_irreflexive(tview);
                        }
                    } else {
                        if pre.groups@[k].tool@ == tview {
                            lemma_lex_lt_irreflexive(tview);
                        }
                    }
                }
                assert(!pre.has_tool(tview));
                // indexing through the insertion
                assert forall|i: int| 0 <= i < self.groups@.len() implies (#[trigger] self.groups@[i])
                    == (if i < li {
                    pre.groups@[i]
                } else if i == li {
                    grp
                } else {
                    pre.groups@[i - 1]
                }) by {}
                assert forall|i: int, j: int|
                    #![trigger self.groups@[i], self.groups@[j]]
                    0 <= i < j < self.groups@.len() implies lex_lt(
                    self.groups@[i].tool@,
                    self.groups@[j].tool@,
                ) by {}
                assert(self.wf());
                assert(self.groups@[li].tool@ == tview);
                assert(self.has_tool(tview));
                assert forall|t: Seq<char>|
                    #[trigger] self.has_tool(t) == (pre.has_tool(t) || t == tview) by {
                    if self.has_tool(t) && t != tview {
                        let k = choose|k: int|
                            0 <= k < self.groups@.len() && (#[trigger] self.groups@[k]).tool@
                                == t;
                        if k < li {
                            assert(pre.groups@[k].tool@ == t);
                        } else {
                            assert(k > li);
                            assert(pre.groups@[k - 1].tool@ == t);
                        }
                        assert(pre.has_tool(t));
                    }
                    if pre.has_tool(t) {
                        let k = choose|k: int|
                            0 <= k < pre.groups@.len() && (#[trigger] pre.groups@[k]).tool@ == t;
                        if k < li {
                            assert(self.groups@[k].tool@ == t);
                        } else {
                            assert(self.groups@[k + 1].tool@ == t);
                        }
                        assert(self.has_tool(t));
                    }
                }
                self.lemma_group_pos(li);
                assert(self.indices_of(tview) =~= seq![idx]);
                assert forall|t: Seq<char>|
                    pre.has_tool(t) && t != tview implies #[trigger] self.indices_of(t)
                    == pre.indices_of(t) by {
                    let k = choose|k: int|
                        0 <= k < pre.groups@.len() && (#[trigger] pre.groups@[k]).tool@ == t;
                    pre.lemma_group_pos(k);
                    if k < li {
                        self.lemma_group_pos(k);
                    } else {
                        self.lemma_group_pos(k + 1);
                    }
                }
                lemma_flat_insert_len_upto(pre.groups@, li, grp, pre.groups@.len() as int + 1);
                assert(pre.groups@.take(pre.groups@.len() as int) =~= pre.groups@);
                assert(pre.groups@.insert(li, grp).take(pre.groups@.len() as int + 1)
                    =~= self.groups@);
            }
        }
    }

    /// How many store positions all groups hold together.
    pub fn total(&self) -> (n: usize)
        requires
            self.flat().len() <= usize::MAX,
        ensures
            n == self.flat().len(),
    {
        let mut n: usize = 0;
        let mut i: usize = 0;
        proof {
            assert(self.groups@.take(0).map_values(grp_indices()) =~= Seq::<Seq<usize>>::empty());
            assert(self.groups@.take(0).flat_map(grp_indices()) =~= Seq::<usize>::empty());
        }
        while i < self.groups.len()
            invariant
                i <= self.groups@.len(),
                n == self.groups@.take(i as int).flat_map(grp_indices()).len(),
                self.flat().len() <= usize::MAX,
            decreases self.groups@.len() - i,
        {
            proof {
                self.groups@.lemma_flat_map_take_append(grp_indices(), i as int);
                lemma_flat_prefix_le(self.groups@, i as int + 1);
            }
            n = n + self.groups[i].indices.len();
            i = i + 1;
        }
        proof {
            assert(self.groups@.take(self.groups@.len() as int) =~= self.groups@);
        }
        n
    }

    /// The store position at `row` in the flattened group order.
    pub fn flat_get(&self, row: usize) -> (idx: usize)
        requires
            row < self.flat().len(),
        ensures
            idx == self.flat()[row as int],
    {
        let mut i: usize = 0;
        let mut skipped: usize = 0;
        proof {
            assert(self.groups@.take(0).map_values(grp_indices()) =~= Seq::<Seq<usize>>::empty());
            assert(self.groups@.take(0).flat_map(grp_indices()) =~= Seq::<usize>::empty());
        }
        while i < self.groups.len()
            invariant
                i <= self.groups@.len(),
                skipped <= row < self.flat().len(),
                skipped == self.groups@.take(i as int).flat_map(grp_indices()).len(),
            decreases self.groups@.len() - i,
        {
            let glen = self.groups[i].indices.len();
            if row - skipped < glen {
                let idx = self.groups[i].indices[row - skipped];
                proof {
                    lemma_flat_index(self.groups@, i as int, row - skipped);
                }
                return idx;
            }
            proof {
                self.groups@.lemma_flat_map_take_append(grp_indices(), i as int);
                lemma_flat_prefix_le(self.groups@, i as int + 1);
                assert(skipped + glen <= self.flat().len());
            }
            skipped = skipped + glen;
            i = i + 1;
        }
        proof {
            assert(self.groups@.take(self.groups@.len() as int) =~= self.groups@);
            assert(false);
        }
        vstd::pervasive::unreached()
    }
}

proof fn lemma_flat_update_len_upto(gs: Seq<Group>, lo: int, g2: Group, k: int)
    requires
        0 <= lo < gs.len(),
        0 <= k <= gs.len(),
        g2.indices@.len() == gs[lo].indices@.len() + 1,
    ensures
        gs.update(lo, g2).take(k).flat_map(grp_indices()).len() == gs.take(k).flat_map(
            grp_indices(),
        ).len() + (if k > lo {
            1int
        } else {
            0int
        }),
    decreases k,
{
    let gs2 = gs.update(lo, g2);
    if k == 0 {
        assert(gs.take(0).map_values(grp_indices()) =~= Seq::<Seq<usize>>::empty());
        assert(gs.take(0).flat_map(grp_indices()) =~= Seq::<usize>::empty());
        assert(gs2.take(0).map_values(grp_indices()) =~= Seq::<Seq<usize>>::empty());
        assert(gs2.take(0).flat_map(grp_indices()) =~= Seq::<usize>::empty());
    } else {
        lemma_flat_update_len_upto(gs, lo, g2, k - 1);
        gs.lemma_flat_map_take_append(grp_indices(), k - 1);
        gs2.lemma_flat_map_take_append(grp_indices(), k - 1);
    }
}

proof fn lemma_flat_insert_len_upto(gs: Seq<Group>, lo: int, g2: Group, k: int)
    requires
        0 <= lo <= gs.len(),
        0 <= k <= gs.len() + 1,
    ensures
        k <= lo ==> gs.insert(lo, g2).take(k).flat_map(grp_indices()).len() == gs.take(
            k,
        ).flat_map(grp_indices()).len(),
        k > lo ==> gs.insert(lo, g2).take(k).flat_map(grp_indices()).len() == gs.take(
            k - 1,
        ).flat_map(grp_indices()).len() + g2.indices@.len(),
    decreases k,
{
    let gs2 = gs.insert(lo, g2);
    if k == 0 {
        assert(gs.take(0).map_values(grp_indices()) =~= Seq::<Seq<usize>>::empty());
        assert(gs.take(0).flat_map(grp_indices()) =~= Seq::<usize>::empty());
        assert(gs2.take(0).map_values(grp_indices()) =~= Seq::<Seq<usize>>::empty());
        assert(gs2.take(0).flat_map(grp_indices()) =~= Seq::<usize>::empty());
    } else {
        lemma_flat_insert_len_upto(gs, lo, g2, k - 1);
        gs2.lemma_flat_map_take_append(grp_indices(), k - 1);
        if k - 1 < lo {
            gs.lemma_flat_map_take_append(grp_indices(), k - 1);
            assert(gs2[k - 1] == gs[k - 1]);
        } else if k - 1 == lo {
            assert(gs2[k - 1] == g2);
        } else {
            gs.lemma_flat_map_take_append(grp_indices(), k - 2);
            assert(gs2[k - 1] == gs[k - 2]);
        }
    }
}

/// A flattened prefix is no longer than the whole flattening.
proof fn lemma_flat_prefix_le(gs: Seq<Group>, k: int)
    requires
        0 <= k <= gs.len(),
    ensures
        gs.take(k).flat_map(grp_indices()).len() <= gs.flat_map(grp_indices()).len(),
    decreases gs.len() - k,
{
    if k < gs.len() {
        gs.lemma_flat_map_take_append(grp_indices(), k);
        lemma_flat_prefix_le(gs, k + 1);
    } else {
        assert(gs.take(k) =~= gs);
    }
}

proof fn lemma_flat_index_upto(gs: Seq<Group>, i: int, o: int, k: int)
    requires
        0 <= i < k <= gs.len(),
        0 <= o < gs[i].indices@.len(),
    ensures
        gs.take(i).flat_map(grp_indices()).len() + o < gs.take(k).flat_map(grp_indices()).len(),
        gs.take(k).flat_map(grp_indices())[gs.take(i).flat_map(grp_indices()).len() + o]
            == gs[i].indices@[o],
    decreases k,
{
    let pos = gs.take(i).flat_map(grp_indices()).len() + o;
    if k == i + 1 {
        gs.lemma_flat_map_take_append(grp_indices(), i);
    } else {
        lemma_flat_index_upto(gs, i, o, k - 1);
        gs.lemma_flat_map_take_append(grp_indices(), k - 1);
    }
}

/// Where an element of one group sits in the flattened whole.
proof fn lemma_flat_index(gs: Seq<Group>, i: int, o: int)
    requires
        0 <= i < gs.len(),
        0 <= o < gs[i].indices@.len(),
    ensures
        gs.take(i).flat_map(grp_indices()).len() + o < gs.flat_map(grp_indices()).len(),
        gs.flat_map(grp_indices())[gs.take(i).flat_map(grp_indices()).len() + o]
            == gs[i].indices@[o],
{
    lemma_flat_index_upto(gs, i, o, gs.len() as int);
    assert(gs.take(gs.len() as int) =~= gs);
}

/// Every element of the flattened whole comes from some group.
pub proof fn lemma_flat_elem(gs: Seq<Group>, r: int)
    requires
        0 <= r < gs.flat_map(grp_indices()).len(),
    ensures
        exists|i: int, o: int|
            0 <= i < gs.len() && 0 <= o < (#[trigger] gs[i]).indices@.len()
                && gs.flat_map(grp_indices())[r] == gs[i].indices@[#[trigger] (o + 0)],
    decreases gs.len(),
{
    assert(gs.take(gs.len() as int) =~= gs);
    if gs.len() == 0 {
        assert(gs.map_values(grp_indices()) =~= Seq::<Seq<usize>>::empty());
        assert(gs.flat_map(grp_indices()) =~= Seq::<usize>::empty());
    } else {
        let n = gs.len() as int;
        gs.lemma_flat_map_take_append(grp_indices(), n - 1);
        let front = gs.take(n - 1);
        if r < front.flat_map(grp_indices()).len() {
            lemma_flat_elem(front, r);
            let (i, o) = choose|i: int, o: int|
                0 <= i < front.len() && 0 <= o < (#[trigger] front[i]).indices@.len()
                    && front.flat_map(grp_indices())[r] == front[i].indices@[#[trigger] (o + 0)];
            assert(gs[i] == front[i]);
            assert(gs.flat_map(grp_indices())[r] == gs[i].indices@[o + 0]);
        } else {
            let o = r - front.flat_map(grp_indices()).len();
            assert(gs.flat_map(grp_indices())[r] == gs[n - 1].indices@[o + 0]);
        }
    }
}

proof fn lemma_strict_tail_contains<T>(lt: spec_fn(T, T) -> bool, o: Seq<T>, z: T)
    requires
        o.len() > 0,
        forall|x: T, y: T| #![trigger lt(x, y), lt(y, x)] !(lt(x, y) && lt(y, x)),
        forall|a: int, b: int| #![trigger o[a], o[b]] 0 <= a < b < o.len() ==> lt(o[a], o[b]),
    ensures
        o.drop_first().contains(z) <==> o.contains(z) && z != o[0],
{
    let t = o.drop_first();
    if t.contains(z) {
        let a = choose|a: int| 0 <= a < t.len() && t[a] == z;
        assert(t[a] == o[a + 1]);
        assert(o.contains(z));
        if z == o[0] {
            assert(lt(o[0], o[a + 1]));
            assert(false);
        }
    }
    if o.contains(z) && z != o[0] {
        let a = choose|a: int| 0 <= a < o.len() && o[a] == z;
        assert(a > 0);
        assert(t[a - 1] == o[a]);
        assert(t.contains(z));
    }
}

/// Two sequences that are strictly sorted by the same asymmetric order and
/// hold the same elements are equal: a sorted structure is unique.
pub proof fn lemma_strict_sorted_unique<T>(lt: spec_fn(T, T) -> bool, s1: Seq<T>, s2: Seq<T>)
    requires
        forall|x: T, y: T| #![trigger lt(x, y), lt(y, x)] !(lt(x, y) && lt(y, x)),
        forall|a: int, b: int| #![trigger s1[a], s1[b]] 0 <= a < b < s1.len() ==> lt(s1[a], s1[b]),
        forall|a: int, b: int| #![trigger s2[a], s2[b]] 0 <= a < b < s2.len() ==> lt(s2[a], s2[b]),
        forall|x: T| s1.contains(x) <==> s2.contains(x),
    ensures
        s1 == s2,
    decreases s1.len(),
{
    if s1.len() == 0 {
        if s2.len() > 0 {
            assert(s2.contains(s2[0]));
            assert(false);
        }
        assert(s1 =~= s2);
    } else {
        assert(s1.contains(s1[0]));
        assert(s2.contains(s1[0]));
        assert(s2.len() > 0);
        let x = s1[0];
        let y = s2[0];
        if x != y {
            assert(s2.contains(y));
            assert(s1.contains(y));
            let a = choose|a: int| 0 <= a < s1.len() && s1[a] == y;
            assert(a > 0);
            assert(lt(x, y));
            assert(s2.contains(x));
            let b = choose|b: int| 0 <= b < s2.len() && s2[b] == x;
            assert(b > 0);
            assert(lt(y, x));
            assert(false);
        }
        let t1 = s1.drop_first();
        let t2 = s2.drop_first();
        assert forall|a: int, b: int|
            #![trigger t1[a], t1[b]]
            0 <= a < b < t1.len() implies lt(t1[a], t1[b]) by {
            assert(t1[a] == s1[a + 1]);
            assert(t1[b] == s1[b + 1]);
        }
        assert forall|a: int, b: int|
            #![trigger t2[a], t2[b]]
            0 <= a < b < t2.len() implies lt(t2[a], t2[b]) by {
            assert(t2[a] == s2[a + 1]);
            assert(t2[b] == s2[b + 1]);
        }
        assert forall|z: T| t1.contains(z) <==> s1.contains(z) && z != x by {
            lemma_strict_tail_contains(lt, s1, z);
        }
        assert forall|z: T| t2.contains(z) <==> s2.contains(z) && z != y by {
            lemma_strict_tail_contains(lt, s2, z);
        }
        lemma_strict_sorted_unique(lt, t1, t2);
        assert forall|i: int| 0 <= i < s1.len() implies s1[i] == s2[i] by {
            if i > 0 {
                assert(t1[i - 1] == s1[i]);
                assert(t2[i - 1] == s2[i]);
            }
        }
        assert(s1 =~= s2);
    }
}

/// Locates the first group whose tool is not below `tool`: returns its
/// position and whether it carries `tool` itself.
fn find_slot(groups: &Vec<Group>, tool: &str) -> (r: (usize, bool))
    requires
        keys_sorted(groups@),
    ensures
        r.0 <= groups@.len(),
        forall|k: int| 0 <= k < r.0 ==> lex_lt((#[trigger] groups@[k]).tool@, tool@),
        r.1 ==> r.0 < groups@.len() && groups@[r.0 as int].tool@ == tool@,
        !r.1 && r.0 < groups@.len() ==> lex_lt(tool@, groups@[r.0 as int].tool@),
    decreases groups@.len(),
{
    let mut lo: usize = 0;
    while lo < groups.len()
        invariant
            lo <= groups@.len(),
            forall|k: int| 0 <= k < lo ==> lex_lt((#[trigger] groups@[k]).tool@, tool@),
        decreases groups@.len() - lo,
    {
        match str_cmp(groups[lo].tool.as_str(), tool) {
            StrOrder::Less => {
                lo = lo + 1;
            },
            StrOrder::Equal => {
                return (lo, true);
            },
            StrOrder::Greater => {
                return (lo, false);
            },
        }
    }
    (lo, false)
}

} // verus!
