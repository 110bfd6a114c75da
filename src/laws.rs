//! Properties that relate several operations of the task list, or hold of
//! every state of it.

use vstd::prelude::*;
use vstd::set_lib::{lemma_int_range, set_int_range};
use crate::forest::{children, has_sub, is_forest, lemma_child_list, lemma_level, lemma_run_stop, subtree_end};
use crate::task::Task;
use crate::task_list::{inserted_at, rebuilt, removed_range, TaskList, DEPTH_LEVELS};

verus! {

/// The positions after `p` that belong to its subtree: every entry from `p`'s
/// successor up to and including them is deeper than `p`.
pub open spec fn descendants(ts: Seq<Task>, p: int) -> Set<int> {
    Set::new(|q: int| p < q < ts.len() && forall|x: int| p < x <= q ==> #[trigger] ts[x].depth > ts[p].depth)
}

/// In a forest, a task with subtasks has at least one direct subtask, and every
/// direct subtask lies after it and within its subtree.
pub proof fn lemma_subtasks_lie_in_subtree(list: TaskList, p: int)
    requires
        list.wf(),
        is_forest(list.tasks_seq()),
        0 <= p < list.tasks_seq().len(),
        has_sub(list.tasks_seq(), p),
    ensures
        children(list.tasks_seq(), p).len() > 0,
        forall|i: int|
            0 <= i < children(list.tasks_seq(), p).len() ==> p < #[trigger] children(list.tasks_seq(), p)[i]
                <= subtree_end(list.tasks_seq(), p),
{
    let ts = list.tasks_seq();
    list.lemma_len_fits();
    lemma_child_list(ts, p, p + 1);
    lemma_run_stop(ts, ts[p].depth as int, p + 1);
    assert(ts[p + 1].depth == ts[p].depth + 1);
    assert(children(ts, p).contains((p + 1) as usize));
}

/// The depth index partitions the positions by depth: each position is listed
/// under its own depth, every listed entry is a position at the depth it is
/// listed under (so at no other), and no list repeats an entry.
pub proof fn lemma_depth_index_partitions(list: TaskList)
    requires
        list.wf(),
    ensures
        list.levels().len() == DEPTH_LEVELS,
        forall|q: int|
            0 <= q < list.tasks_seq().len() ==> list.levels()[list.tasks_seq()[q].depth as int].contains(
                q as usize,
            ),
        forall|d: int, i: int|
            0 <= d < DEPTH_LEVELS && 0 <= i < list.levels()[d].len() ==> {
                let q = #[trigger] list.levels()[d][i] as int;
                &&& 0 <= q < list.tasks_seq().len()
                &&& list.tasks_seq()[q].depth == d
            },
        forall|d: int, i: int, j: int|
            0 <= d < DEPTH_LEVELS && 0 <= i < j < list.levels()[d].len() ==> list.levels()[d][i]
                != list.levels()[d][j],
{
    let ts = list.tasks_seq();
    list.lemma_len_fits();
    assert forall|d: int| 0 <= d < DEPTH_LEVELS implies #[trigger] list.levels()[d] == crate::forest::level(
        ts,
        d,
        ts.len() as int,
    ) && crate::forest::strictly_increasing(list.levels()[d]) && (forall|i: int|
        0 <= i < list.levels()[d].len() ==> {
            let q = #[trigger] list.levels()[d][i] as int;
            &&& 0 <= q < ts.len()
            &&& ts[q].depth == d
        }) && (forall|q: int| 0 <= q < ts.len() && ts[q].depth == d ==> list.levels()[d].contains(q as usize)) by {
        lemma_level(ts, d, ts.len() as int);
    }
    assert forall|q: int| 0 <= q < ts.len() implies list.levels()[ts[q].depth as int].contains(q as usize) by {
        assert(0 <= ts[q].depth < DEPTH_LEVELS);
        let d = ts[q].depth as int;
        assert(list.levels()[d] == crate::forest::level(ts, d, ts.len() as int));
    }
}

/// Starting from an empty list, inserting one root task per title leaves as many
/// tasks as titles.
pub proof fn lemma_root_inserts_count(states: Seq<TaskList>, titles: Seq<Seq<char>>)
    requires
        states.len() == titles.len() + 1,
        states[0].tasks_seq().len() == 0,
        forall|i: int|
            0 <= i < titles.len() ==> inserted_at(
                #[trigger] states[i].tasks_seq(),
                states[i + 1].tasks_seq(),
                states[i].tasks_seq().len() as int,
                titles[i],
                0,
            ),
    ensures
        states.last().tasks_seq().len() == titles.len(),
{
    lemma_root_inserts_prefix(states, titles, titles.len() as int);
}

/// After the first `k` root insertions from an empty list, `k` tasks are held.
proof fn lemma_root_inserts_prefix(states: Seq<TaskList>, titles: Seq<Seq<char>>, k: int)
    requires
        0 <= k <= titles.len(),
        states.len() == titles.len() + 1,
        states[0].tasks_seq().len() == 0,
        forall|i: int|
            0 <= i < titles.len() ==> inserted_at(
                #[trigger] states[i].tasks_seq(),
                states[i + 1].tasks_seq(),
                states[i].tasks_seq().len() as int,
                titles[i],
                0,
            ),
    ensures
        states[k].tasks_seq().len() == k,
    decreases k,
{
    if k > 0 {
        lemma_root_inserts_prefix(states, titles, k - 1);
        assert(inserted_at(states[k - 1].tasks_seq(), states[k].tasks_seq(), k - 1, titles[k - 1], 0));
    }
}

/// Deleting a root task removes exactly the task and its descendants.
pub proof fn lemma_delete_root_count(before: TaskList, after: Seq<Task>, p: int)
    requires
        before.wf(),
        0 <= p < before.tasks_seq().len(),
        before.tasks_seq()[p].depth == 0,
        removed_range(before.tasks_seq(), after, p, subtree_end(before.tasks_seq(), p)),
    ensures
        descendants(before.tasks_seq(), p).finite(),
        after.len() == before.tasks_seq().len() - 1 - descendants(before.tasks_seq(), p).len(),
{
    let ts = before.tasks_seq();
    let end = subtree_end(ts, p);
    lemma_run_stop(ts, ts[p].depth as int, p + 1);
    let ds = descendants(ts, p);
    assert(ds =~= set_int_range(p + 1, end + 1)) by {
        assert forall|q: int| ds.contains(q) implies p + 1 <= q < end + 1 by {
            if q > end {
                assert(ts[end + 1].depth > ts[p].depth);
            }
        }
    }
    lemma_int_range(p + 1, end + 1);
}

/// Rebuilding the indices a second time, with no change in between, yields the
/// same index contents as the first time.
pub proof fn lemma_rebuild_idempotent(before: TaskList, once: TaskList, twice: TaskList)
    requires
        rebuilt(before, once),
        rebuilt(once, twice),
    ensures
        twice.levels() == once.levels(),
        twice.titles() == once.titles(),
        twice.next_seq() == once.next_seq(),
{
}

} // verus!
