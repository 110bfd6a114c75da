//! The tree store: tasks in one pre-order sequence with a depth each, and the
//! indices derived from it, rebuilt in full after every mutation.

use vstd::prelude::*;
use crate::forest::{
    active_from, active_list, active_seq, children, chosen_children, depths_valid, duration, duration_after,
    duration_max, duration_sum, has_sub, lemma_child_list, lemma_increasing_unique, lemma_last_at,
    lemma_level, lemma_run_stop, last_at, level, parent, run_stop, strictly_increasing, subtree_end,
};
use crate::task::{flipped, is_fresh_task, status_stepped, ExecutionOrder, Task};

verus! {

/// The ways a task list operation can fail.
#[derive(Clone, Copy, Debug, PartialEq, Eq, Structural)]
pub enum TaskListError {
    /// The position is not that of a task.
    TaskOutOfBoundsError,
    /// Nothing matches the key that was looked up.
    TaskNotFoundError,
}

/// A direction relative to a position.
#[derive(Clone, Copy, Debug, PartialEq, Eq, Structural)]
pub enum Direction {
    /// The position itself.
    Stay,
    Up,
    Down,
    Value(isize),
}

/// The number of depths a task can have: 0 through `i8::MAX`.
pub const DEPTH_LEVELS: usize = 128;

/// The offset that a direction stands for.
pub open spec fn offset_of(dir: Direction) -> int {
    match dir {
        Direction::Stay => 0,
        Direction::Up => -1,
        Direction::Down => 1,
        Direction::Value(v) => v as int,
    }
}

/// `target` clamped to the positions of a sequence of `len` entries (`len > 0`).
pub open spec fn clamped(len: int, target: int) -> int {
    if target < 0 {
        0
    } else if target >= len {
        len - 1
    } else {
        target
    }
}

/// The depth of the entry `dir` away from `pos`, clamped to the sequence; 0 when
/// the sequence is empty.
pub open spec fn neighbour_depth_of(ts: Seq<Task>, pos: int, dir: Direction) -> i8 {
    if ts.len() == 0 {
        0
    } else {
        ts[clamped(ts.len() as int, pos + offset_of(dir))].depth
    }
}

/// The depth index of `ts`: for each depth, the ascending positions at that depth.
pub open spec fn depth_levels(ts: Seq<Task>) -> Seq<Seq<usize>> {
    Seq::new(DEPTH_LEVELS as nat, |d: int| level(ts, d, ts.len() as int))
}

/// No entry after `i` has the title of `i`.
pub open spec fn is_last_title(ts: Seq<Task>, i: int) -> bool {
    forall|j: int| i < j < ts.len() ==> #[trigger] ts[j].title@ != ts[i].title@
}

/// The title index of the entries before `n`: each title with the last position
/// that holds it, in the order of those positions.
pub open spec fn title_entries_upto(ts: Seq<Task>, n: int) -> Seq<(Seq<char>, usize)>
    decreases n,
{
    if n <= 0 {
        Seq::empty()
    } else if is_last_title(ts, n - 1) {
        title_entries_upto(ts, n - 1).push((ts[n - 1].title@, (n - 1) as usize))
    } else {
        title_entries_upto(ts, n - 1)
    }
}

/// The title index of `ts`.
pub open spec fn title_entries(ts: Seq<Task>) -> Seq<(Seq<char>, usize)> {
    title_entries_upto(ts, ts.len() as int)
}

/// A list of tasks: the store of the tree and its indices.
#[derive(Debug)]
pub struct TaskList {
    /// The name of the task list.
    name: String,
    /// The tasks, in pre-order.
    tasks: Vec<Task>,
    /// Each title with the most recent position holding it.
    title_index: Vec<(String, usize)>,
    /// For each depth, the ascending positions of the tasks at that depth.
    depth_index: Vec<Vec<usize>>,
    /// The positions of the tasks that are up next.
    next_tasks: Vec<usize>,
}

impl TaskList {
    /// The tasks, in order.
    pub closed spec fn tasks_seq(&self) -> Seq<Task> {
        self.tasks@
    }

    /// The name of the list.
    pub closed spec fn name_seq(&self) -> Seq<char> {
        self.name@
    }

    /// The depth index as held.
    pub closed spec fn levels(&self) -> Seq<Seq<usize>> {
        self.depth_index@.map_values(|v: Vec<usize>| v@)
    }

    /// The title index as held.
    pub closed spec fn titles(&self) -> Seq<(Seq<char>, usize)> {
        self.title_index@.map_values(|e: (String, usize)| (e.0@, e.1))
    }

    /// The active index as held.
    pub closed spec fn next_seq(&self) -> Seq<usize> {
        self.next_tasks@
    }

    /// Depths are valid and the depth index matches the tasks.
    pub open spec fn depth_index_ok(&self) -> bool {
        &&& depths_valid(self.tasks_seq())
        &&& self.levels() == depth_levels(self.tasks_seq())
    }

    /// Depths are valid and every index matches the tasks.
    pub open spec fn wf(&self) -> bool {
        &&& self.depth_index_ok()
        &&& self.titles() == title_entries(self.tasks_seq())
        &&& self.next_seq() == active_list(self.tasks_seq())
    }

    /// Gets the number of tasks.
    pub fn len(&self) -> (r: usize)
        ensures
            r == self.tasks_seq().len(),
    {
        self.tasks.len()
    }

    /// The offset that a direction stands for.
    fn get_rel_pos(dir: &Direction) -> (r: isize)
        ensures
            r as int == offset_of(*dir),
    {
        match *dir {
            Direction::Stay => 0,
            Direction::Up => -1,
            Direction::Down => 1,
            Direction::Value(value) => value,
        }
    }

    /// The position `dir` away from `pos`, clamped to the list.
    fn get_pos(&self, pos: usize, dir: &Direction) -> (r: usize)
        requires
            self.tasks_seq().len() > 0,
        ensures
            r as int == clamped(self.tasks_seq().len() as int, pos + offset_of(*dir)),
    {
        let target: i128 = pos as i128 + TaskList::get_rel_pos(dir) as i128;
        if target < 0 {
            0
        } else if target >= self.tasks.len() as i128 {
            self.tasks.len() - 1
        } else {
            target as usize
        }
    }

    /// Gets the task at a position.
    pub fn get_task(&self, pos: usize) -> (r: Result<&Task, TaskListError>)
        ensures
            pos < self.tasks_seq().len() ==> r == Ok::<&Task, TaskListError>(&self.tasks_seq()[pos as int]),
            pos >= self.tasks_seq().len() ==> r == Err::<&Task, TaskListError>(TaskListError::TaskOutOfBoundsError),
    {
        if pos >= self.tasks.len() {
            return Err(TaskListError::TaskOutOfBoundsError);
        }
        Ok(&self.tasks[pos])
    }

    /// Gets the depth of the task `dir` away from `pos`, clamped to the list; 0
    /// when the list is empty.
    pub fn neighbour_depth(&self, pos: usize, dir: &Direction) -> (r: i8)
        ensures
            r == neighbour_depth_of(self.tasks_seq(), pos as int, *dir),
    {
        if self.tasks.len() == 0 {
            return 0;
        }
        let neighbour_pos = self.get_pos(pos, dir);
        self.tasks[neighbour_pos].depth
    }

    /// Whether the task at `pos` has subtasks: the task after it is deeper.
    pub fn has_subtasks(&self, pos: usize) -> (r: bool)
        ensures
            r == has_sub(self.tasks_seq(), pos as int),
    {
        if pos >= self.tasks.len() || pos + 1 >= self.tasks.len() {
            return false;
        }
        self.tasks[pos + 1].depth > self.tasks[pos].depth
    }
}

impl TaskList {
    /// The number of tasks fits a `usize`.
    pub proof fn lemma_len_fits(&self)
        ensures
            self.tasks_seq().len() <= usize::MAX,
    {
        assert(self.tasks.len() == self.tasks@.len());
    }

    /// What a valid depth index holds, entry by entry.
    proof fn lemma_depth_index(&self)
        requires
            self.depth_index_ok(),
        ensures
            self.depth_index@.len() == DEPTH_LEVELS,
            forall|d: int|
                0 <= d < DEPTH_LEVELS ==> (#[trigger] self.depth_index@[d])@ == level(
                    self.tasks@,
                    d,
                    self.tasks@.len() as int,
                ),
            self.tasks@.len() <= usize::MAX,
    {
        assert(self.tasks.len() == self.tasks@.len());
        assert(self.levels().len() == self.depth_index@.len());
        assert(depth_levels(self.tasks@).len() == DEPTH_LEVELS);
        assert forall|d: int| 0 <= d < DEPTH_LEVELS implies (#[trigger] self.depth_index@[d])@ == level(
            self.tasks@,
            d,
            self.tasks@.len() as int,
        ) by {
            assert(self.levels()[d] == depth_levels(self.tasks@)[d]);
        }
    }

    /// Rebuilds the depth index from the tasks.
    fn rebuild_depth_index(&mut self)
        requires
            depths_valid(old(self).tasks_seq()),
        ensures
            *final(self) == (TaskList { depth_index: final(self).depth_index, ..*old(self) }),
            final(self).levels() == depth_levels(old(self).tasks_seq()),
    {
        let ghost ts = self.tasks@;
        let mut index: Vec<Vec<usize>> = Vec::new();
        let mut d: usize = 0;
        while d < DEPTH_LEVELS
            invariant
                d <= DEPTH_LEVELS,
                index@.len() == d,
                forall|k: int| 0 <= k < d ==> (#[trigger] index@[k])@ == Seq::<usize>::empty(),
            decreases DEPTH_LEVELS - d,
        {
            index.push(Vec::new());
            d += 1;
        }
        let mut i: usize = 0;
        while i < self.tasks.len()
            invariant
                self.tasks@ == ts,
                depths_valid(ts),
                i <= ts.len(),
                index@.len() == DEPTH_LEVELS,
                forall|k: int| 0 <= k < DEPTH_LEVELS ==> (#[trigger] index@[k])@ == level(ts, k, i as int),
            decreases ts.len() - i,
        {
            let dep = self.tasks[i].depth as usize;
            index[dep].push(i);
            proof {
                assert forall|k: int| 0 <= k < DEPTH_LEVELS implies (#[trigger] index@[k])@ == level(
                    ts,
                    k,
                    i + 1,
                ) by {}
            }
            i += 1;
        }
        self.depth_index = index;
        proof {
            assert(self.levels() =~= depth_levels(ts));
        }
    }

    /// Rebuilds the title index from the tasks.
    fn rebuild_title_index(&mut self)
        ensures
            *final(self) == (TaskList { title_index: final(self).title_index, ..*old(self) }),
            final(self).titles() == title_entries(old(self).tasks_seq()),
    {
        let ghost ts = self.tasks@;
        let mut entries: Vec<(String, usize)> = Vec::new();
        let mut i: usize = 0;
        while i < self.tasks.len()
            invariant
                self.tasks@ == ts,
                i <= ts.len(),
                entries@.map_values(|e: (String, usize)| (e.0@, e.1)) == title_entries_upto(ts, i as int),
            decreases ts.len() - i,
        {
            let mut last = true;
            let mut j: usize = i + 1;
            while j < self.tasks.len()
                invariant
                    self.tasks@ == ts,
                    i < ts.len(),
                    i < j <= ts.len(),
                    last == (forall|k: int| i < k < j ==> #[trigger] ts[k].title@ != ts[i as int].title@),
                decreases ts.len() - j,
            {
                if self.tasks[j].title == self.tasks[i].title {
                    last = false;
                }
                j += 1;
            }
            let ghost before = entries@;
            if last {
                entries.push((self.tasks[i].title.clone(), i));
                proof {
                    assert(entries@.map_values(|e: (String, usize)| (e.0@, e.1)) =~= before.map_values(
                        |e: (String, usize)| (e.0@, e.1),
                    ).push((ts[i as int].title@, i)));
                }
            }
            i += 1;
        }
        self.title_index = entries;
    }

    /// Rebuilds the active index from the tasks and the depth index.
    fn rebuild_next_tasks(&mut self)
        requires
            old(self).depth_index_ok(),
        ensures
            *final(self) == (TaskList { next_tasks: final(self).next_tasks, ..*old(self) }),
            final(self).next_seq() == active_list(old(self).tasks_seq()),
    {
        let ghost ts = self.tasks@;
        let mut next: Vec<usize> = Vec::new();
        proof {
            self.lemma_depth_index();
        }
        let roots = &self.depth_index[0];
        proof {
            lemma_level(ts, 0, ts.len() as int);
        }
        let mut i: usize = 0;
        while i < roots.len()
            invariant
                self.depth_index_ok(),
                self.tasks@ == ts,
                roots@ == level(ts, 0, ts.len() as int),
                i <= roots@.len(),
                next@ == active_seq(ts, -1, roots@.take(i as int)),
                forall|k: int| 0 <= k < roots@.len() ==> (#[trigger] roots@[k]) < ts.len(),
            decreases roots@.len() - i,
        {
            let mut sub = self.get_active_subtasks(roots[i]);
            next.append(&mut sub);
            proof {
                assert(roots@.take(i + 1).drop_last() =~= roots@.take(i as int));
            }
            i += 1;
        }
        proof {
            assert(roots@.take(i as int) =~= roots@);
        }
        self.next_tasks = next;
    }

    /// Rebuilds every index from the tasks.
    pub fn rebuild_all_indices(&mut self)
        requires
            depths_valid(old(self).tasks_seq()),
        ensures
            rebuilt(*old(self), *final(self)),
    {
        self.rebuild_depth_index();
        self.rebuild_title_index();
        self.rebuild_next_tasks();
    }

    /// The last position of the subtree of the task at `pos`; `pos` itself when it
    /// has no subtasks or is out of range.
    pub fn get_last_subtask_pos(&self, pos: usize) -> (r: usize)
        requires
            self.depth_index_ok(),
        ensures
            pos < self.tasks_seq().len() ==> r == subtree_end(self.tasks_seq(), pos as int),
            pos >= self.tasks_seq().len() ==> r == pos,
    {
        let ghost ts = self.tasks@;
        if !self.has_subtasks(pos) {
            return pos;
        }
        let d = self.tasks[pos].depth;
        proof {
            lemma_run_stop(ts, d as int, pos + 1);
        }
        // Every level up to the task's own may end the subtree; the nearest hit wins.
        let mut best: usize = self.tasks.len();
        let mut lvl: usize = 0;
        while lvl <= d as usize
            invariant
                self.depth_index_ok(),
                self.tasks@ == ts,
                pos + 1 < ts.len(),
                d == ts[pos as int].depth,
                d >= 0,
                lvl <= d + 1,
                pos < best <= ts.len(),
                forall|x: int| pos < x < best ==> ts[x].depth >= lvl,
                best < ts.len() ==> ts[best as int].depth < lvl,
            decreases d + 1 - lvl,
        {
            proof {
                self.lemma_depth_index();
            }
            let list = &self.depth_index[lvl];
            proof {
                lemma_level(ts, lvl as int, ts.len() as int);
            }
            let k = first_after(list, pos);
            proof {
                assert forall|x: int| pos < x < ts.len() && ts[x].depth == lvl && (k < list@.len() ==> x
                    < list@[k as int]) implies false by {
                    assert(list@.contains(x as usize));
                    let j = choose|j: int| 0 <= j < list@.len() && list@[j] == x as usize;
                    if j < k {
                    } else if k < j {
                        assert(list@[k as int] < list@[j]);
                    }
                }
            }
            if k < list.len() && list[k] < best {
                best = list[k];
            }
            lvl += 1;
        }
        proof {
            let r = run_stop(ts, d as int, pos + 1);
            if best < r {
            } else if r < best {
            }
        }
        best - 1
    }

    /// The direct subtasks of the task at `pos`, in ascending order; empty when it
    /// has none or is out of range.
    pub fn get_direct_subtasks(&self, pos: usize) -> (r: Vec<usize>)
        requires
            self.depth_index_ok(),
        ensures
            pos < self.tasks_seq().len() ==> r@ == children(self.tasks_seq(), pos as int),
            pos >= self.tasks_seq().len() ==> r@.len() == 0,
    {
        let ghost ts = self.tasks@;
        if !self.has_subtasks(pos) {
            return Vec::new();
        }
        let subtask_end = self.get_last_subtask_pos(pos);
        let depth = self.tasks[pos].depth;
        proof {
            self.lemma_depth_index();
            lemma_child_list(ts, pos as int, pos + 1);
            lemma_run_stop(ts, depth as int, pos + 1);
        }
        if depth as usize + 1 >= DEPTH_LEVELS {
            proof {
                let cs = children(ts, pos as int);
                if cs.len() > 0 {
                    assert(ts[cs[0] as int].depth == depth + 1);
                }
                assert(cs =~= Seq::<usize>::empty());
            }
            return Vec::new();
        }
        proof {
            self.lemma_depth_index();
        }
        let list = &self.depth_index[depth as usize + 1];
        proof {
            lemma_level(ts, depth + 1, ts.len() as int);
        }
        let mut subtasks: Vec<usize> = Vec::new();
        let mut i: usize = 0;
        while i < list.len()
            invariant
                self.depth_index_ok(),
                self.tasks@ == ts,
                pos < subtask_end < ts.len(),
                list@ == level(ts, depth + 1, ts.len() as int),
                strictly_increasing(list@),
                forall|k: int|
                    0 <= k < list@.len() ==> (#[trigger] list@[k]) < ts.len() && ts[list@[k] as int].depth
                        == depth + 1,
                i <= list@.len(),
                strictly_increasing(subtasks@),
                forall|m: int|
                    0 <= m < subtasks@.len() ==> {
                        let x = #[trigger] subtasks@[m];
                        &&& pos < x <= subtask_end
                        &&& ts[x as int].depth == depth + 1
                        &&& i < list@.len() ==> x < list@[i as int]
                    },
                forall|j: int|
                    0 <= j < i && pos < #[trigger] list@[j] <= subtask_end ==> subtasks@.contains(list@[j]),
            decreases list@.len() - i,
        {
            let x = list[i];
            let ghost before = subtasks@;
            if pos < x && x <= subtask_end {
                subtasks.push(x);
                proof {
                    assert(subtasks@[before.len() as int] == x);
                    assert forall|j: int|
                        0 <= j < i && pos < #[trigger] list@[j] <= subtask_end implies subtasks@.contains(
                            list@[j],
                        ) by {
                        let m = choose|m: int| 0 <= m < before.len() && before[m] == list@[j];
                        assert(subtasks@[m] == list@[j]);
                    }
                }
            }
            i += 1;
        }
        proof {
            let cs = children(ts, pos as int);
            assert forall|x: usize| subtasks@.contains(x) <==> cs.contains(x) by {
                if subtasks@.contains(x) {
                    let m = choose|m: int| 0 <= m < subtasks@.len() && subtasks@[m] == x;
                    assert(subtasks@[m] == x);
                }
                if cs.contains(x) {
                    let m = choose|m: int| 0 <= m < cs.len() && cs[m] == x;
                    assert(cs[m] == x);
                    assert(list@.contains(x));
                    let j = choose|j: int| 0 <= j < list@.len() && list@[j] == x;
                    assert(list@[j] == x);
                }
            }
            lemma_increasing_unique(subtasks@, cs);
        }
        subtasks
    }

    /// The parent of the task at `pos`: the nearest earlier task one level
    /// shallower; `None` for a root task or a position out of range.
    pub fn get_parent(&self, pos: usize) -> (r: Option<usize>)
        requires
            self.depth_index_ok(),
        ensures
            r == parent(self.tasks_seq(), pos as int),
    {
        let ghost ts = self.tasks@;
        if pos >= self.tasks.len() {
            return None;
        }
        let depth = self.tasks[pos].depth;
        if depth == 0 {
            return None;
        }
        proof {
            self.lemma_depth_index();
        }
        let list = &self.depth_index[(depth - 1) as usize];
        proof {
            lemma_level(ts, depth - 1, ts.len() as int);
            lemma_last_at(ts, depth - 1, pos as int);
        }
        let k = first_after(list, pos);
        proof {
            let a = last_at(ts, depth - 1, pos as int);
            if a >= 0 {
                assert(list@.contains(a as usize));
                let j = choose|j: int| 0 <= j < list@.len() && list@[j] == a as usize;
                assert(j < k);
                if k > 0 && list@[k - 1] as int != a {
                    let b = list@[k - 1] as int;
                    assert(ts[b].depth == depth - 1);
                    assert(b != pos);
                    if b < a {
                        assert(list@[k - 1] < list@[j]);
                    }
                }
            } else if k > 0 {
                assert(ts[list@[k - 1] as int].depth == depth - 1);
            }
        }
        if k == 0 {
            return None;
        }
        Some(list[k - 1])
    }

    /// The active chain from `pos`: the task itself, then the chains of its first
    /// subtask (series) or of every subtask (parallel).
    fn get_active_subtasks(&self, pos: usize) -> (r: Vec<usize>)
        requires
            self.depth_index_ok(),
            pos < self.tasks_seq().len(),
        ensures
            r@ == active_from(self.tasks_seq(), pos as int),
        decreases self.tasks_seq().len() - pos,
    {
        let ghost ts = self.tasks@;
        let mut active_subtasks: Vec<usize> = vec![pos];
        if !self.has_subtasks(pos) {
            proof {
                assert(children(ts, pos as int) =~= Seq::<usize>::empty());
                assert(active_subtasks@ =~= seq![pos] + Seq::<usize>::empty());
            }
            return active_subtasks;
        }
        let subtasks = self.get_direct_subtasks(pos);
        proof {
            self.lemma_depth_index();
            lemma_child_list(ts, pos as int, pos + 1);
            lemma_run_stop(ts, ts[pos as int].depth as int, pos + 1);
        }
        match self.tasks[pos].execution_order {
            ExecutionOrder::Series => {
                if subtasks.len() > 0 {
                    let mut sub = self.get_active_subtasks(subtasks[0]);
                    active_subtasks.append(&mut sub);
                    proof {
                        let chosen = chosen_children(ts, pos as int);
                        assert(chosen =~= seq![subtasks@[0]]);
                        assert(chosen.drop_last() =~= Seq::<usize>::empty());
                        assert(active_seq(ts, pos as int, chosen.drop_last()) =~= Seq::<usize>::empty());
                        assert(active_seq(ts, pos as int, chosen) =~= active_from(ts, subtasks@[0] as int));
                        assert(active_subtasks@ =~= seq![pos] + active_seq(ts, pos as int, chosen));
                    }
                } else {
                    proof {
                        assert(active_subtasks@ =~= seq![pos] + Seq::<usize>::empty());
                    }
                }
            },
            ExecutionOrder::Parallel => {
                let mut i: usize = 0;
                proof {
                    assert(active_subtasks@ =~= seq![pos] + active_seq(ts, pos as int, subtasks@.take(0)));
                }
                while i < subtasks.len()
                    invariant
                        self.depth_index_ok(),
                        self.tasks@ == ts,
                        pos < ts.len(),
                        subtasks@ == children(ts, pos as int),
                        forall|k: int| 0 <= k < subtasks@.len() ==> pos < (#[trigger] subtasks@[k]) < ts.len(),
                        i <= subtasks@.len(),
                        active_subtasks@ == seq![pos] + active_seq(ts, pos as int, subtasks@.take(i as int)),
                    decreases subtasks@.len() - i,
                {
                    let mut sub = self.get_active_subtasks(subtasks[i]);
                    active_subtasks.append(&mut sub);
                    proof {
                        assert(subtasks@.take(i + 1).drop_last() =~= subtasks@.take(i as int));
                    }
                    i += 1;
                }
                proof {
                    assert(subtasks@.take(i as int) =~= subtasks@);
                    assert(chosen_children(ts, pos as int) == subtasks@);
                }
            },
        }
        active_subtasks
    }
}

/// `after` holds the tasks and name of `before` with every index rebuilt from them.
pub open spec fn rebuilt(before: TaskList, after: TaskList) -> bool {
    &&& after.wf()
    &&& after.tasks_seq() == before.tasks_seq()
    &&& after.name_seq() == before.name_seq()
}

/// `after` is `before` with a task made by `Task::new(title, depth)` inserted at `pos`.
pub open spec fn inserted_at(before: Seq<Task>, after: Seq<Task>, pos: int, title: Seq<char>, depth: i8) -> bool {
    &&& 0 <= pos <= before.len()
    &&& after == before.insert(pos, after[pos])
    &&& is_fresh_task(after[pos], title, depth)
}

/// `after` is `before` without the entries `from` through `to`.
pub open spec fn removed_range(before: Seq<Task>, after: Seq<Task>, from: int, to: int) -> bool {
    after == before.subrange(0, from) + before.subrange(to + 1, before.len() as int)
}

/// `ts` with the entries at `i` and `j` exchanged.
pub open spec fn swapped(ts: Seq<Task>, i: int, j: int) -> Seq<Task> {
    ts.update(i, ts[j]).update(j, ts[i])
}

/// The tasks after moving the task at `pos` (in range) toward `dir`: exchanged with
/// the clamped neighbour when their depths are equal, else unchanged.
pub open spec fn moved(ts: Seq<Task>, pos: int, dir: Direction) -> Seq<Task> {
    let j = clamped(ts.len() as int, pos + offset_of(dir));
    if ts[pos].depth == ts[j].depth {
        swapped(ts, pos, j)
    } else {
        ts
    }
}

/// The tasks after changing the depth of the task at `pos` by `change`: unchanged
/// when `pos` is out of range or the new depth would leave `0..=i8::MAX`.
pub open spec fn depth_changed(ts: Seq<Task>, pos: int, change: int) -> Seq<Task> {
    if 0 <= pos < ts.len() && 0 <= ts[pos].depth + change <= i8::MAX {
        ts.update(pos, Task { depth: (ts[pos].depth + change) as i8, ..ts[pos] })
    } else {
        ts
    }
}

/// The text of `n` copies of `c`.
pub open spec fn repeated(c: char, n: nat) -> Seq<char> {
    Seq::new(n, |i: int| c)
}

/// The debugging text of the first `n` tasks: one line each, the title after one
/// `>` per level of depth.
pub open spec fn debug_text(ts: Seq<Task>, n: int) -> Seq<char>
    decreases n,
{
    if n <= 0 {
        Seq::empty()
    } else {
        debug_text(ts, n - 1) + repeated('>', ts[n - 1].depth as nat) + ts[n - 1].title@ + "\r\n"@
    }
}

/// An entry of `ts` holds the title `t`.
pub open spec fn holds_title(ts: Seq<Task>, t: Seq<char>) -> bool {
    exists|i: int| 0 <= i < ts.len() && #[trigger] ts[i].title@ == t
}

/// What the title index of the first `n` entries holds: each entry names a last
/// occurrence, and every last occurrence has an entry.
proof fn lemma_title_entries(ts: Seq<Task>, n: int)
    requires
        0 <= n <= ts.len(),
        ts.len() <= usize::MAX,
    ensures
        forall|k: int|
            0 <= k < title_entries_upto(ts, n).len() ==> {
                let e = #[trigger] title_entries_upto(ts, n)[k];
                &&& e.1 < n
                &&& ts[e.1 as int].title@ == e.0
                &&& is_last_title(ts, e.1 as int)
            },
        forall|i: int|
            0 <= i < n && is_last_title(ts, i) ==> title_entries_upto(ts, n).contains(
                (ts[i].title@, i as usize),
            ),
    decreases n,
{
    if n > 0 {
        lemma_title_entries(ts, n - 1);
        let prev = title_entries_upto(ts, n - 1);
        if is_last_title(ts, n - 1) {
            let all = prev.push((ts[n - 1].title@, (n - 1) as usize));
            assert forall|i: int| 0 <= i < n && is_last_title(ts, i) implies all.contains(
                (ts[i].title@, i as usize),
            ) by {
                if i == n - 1 {
                    assert(all[prev.len() as int] == (ts[i].title@, i as usize));
                } else {
                    let k = choose|k: int| 0 <= k < prev.len() && prev[k] == (ts[i].title@, i as usize);
                    assert(all[k] == prev[k]);
                }
            }
        }
    }
}

/// A title held at `i` has a last occurrence at or after `i`.
proof fn lemma_last_occurrence(ts: Seq<Task>, i: int)
    requires
        0 <= i < ts.len(),
    ensures
        exists|j: int| i <= j < ts.len() && ts[j].title@ == ts[i].title@ && is_last_title(ts, j),
    decreases ts.len() - i,
{
    if !is_last_title(ts, i) {
        let j = choose|j: int| i < j < ts.len() && #[trigger] ts[j].title@ == ts[i].title@;
        lemma_last_occurrence(ts, j);
    }
}

/// The first position at or after `q` with depth at most `d` lies no later than
/// `y`, when `y` itself has depth at most `d` or is the end.
proof fn lemma_run_stop_le(ts: Seq<Task>, d: int, q: int, y: int)
    requires
        0 <= q <= y <= ts.len(),
        y < ts.len() ==> ts[y].depth <= d,
    ensures
        run_stop(ts, d, q) <= y,
{
    lemma_run_stop(ts, d, q);
}

/// One past the subtree of `p`.
pub open spec fn subtree_stop(ts: Seq<Task>, p: int) -> int {
    run_stop(ts, ts[p].depth as int, p + 1)
}

impl TaskList {
    /// Creates an empty task list.
    pub fn new(name: &str) -> (r: TaskList)
        ensures
            r.wf(),
            r.tasks_seq().len() == 0,
            r.name_seq() == name@,
    {
        let mut list = TaskList {
            name: name.to_owned(),
            tasks: Vec::new(),
            title_index: Vec::new(),
            depth_index: Vec::new(),
            next_tasks: Vec::new(),
        };
        list.rebuild_all_indices();
        list
    }

    /// Adds a new root task to the end of the list.
    pub fn add_new_root_task_at_end(&mut self, title: &str) -> (r: &mut Self)
        requires
            old(self).wf(),
        ensures
            r.wf(),
            inserted_at(old(self).tasks_seq(), r.tasks_seq(), old(self).tasks_seq().len() as int, title@, 0),
            r.name_seq() == old(self).name_seq(),
            *final(self) == *final(r),
    {
        let task = Task::new(title, 0);
        self.tasks.push(task);
        proof {
            assert(self.tasks@ =~= old(self).tasks@.insert(old(self).tasks@.len() as int, task));
        }
        self.rebuild_all_indices();
        self
    }

    /// Adds a new task at `pos`, at the depth of the task above it (of the task
    /// at `pos` when `pos` is 0; 0 in an empty list). Does nothing when `pos` is
    /// past the end.
    pub fn add_new_task(&mut self, title: &str, pos: usize) -> (r: &mut Self)
        requires
            old(self).wf(),
        ensures
            r.wf(),
            r.name_seq() == old(self).name_seq(),
            pos <= old(self).tasks_seq().len() ==> inserted_at(
                old(self).tasks_seq(),
                r.tasks_seq(),
                pos as int,
                title@,
                neighbour_depth_of(old(self).tasks_seq(), pos as int, Direction::Up),
            ),
            pos > old(self).tasks_seq().len() ==> r.tasks_seq() == old(self).tasks_seq(),
            *final(self) == *final(r),
    {
        if pos > self.tasks.len() {
            return self;
        }
        let depth = self.neighbour_depth(pos, &Direction::Up);
        proof {
            if self.tasks@.len() > 0 {
                let j = clamped(self.tasks@.len() as int, pos - 1);
                assert(self.tasks@[j].depth >= 0);
            }
        }
        let task = Task::new(title, depth);
        self.tasks.insert(pos, task);
        proof {
            assert(self.tasks@[pos as int] == task);
            assert forall|i: int| 0 <= i < self.tasks@.len() implies self.tasks@[i].depth >= 0 by {
                if i < pos {
                    assert(self.tasks@[i] == old(self).tasks@[i]);
                } else if i > pos {
                    assert(self.tasks@[i] == old(self).tasks@[i - 1]);
                }
            }
        }
        self.rebuild_all_indices();
        self
    }

    /// Adds a new task as the first subtask of the task at `pos`, one level deeper.
    /// Does nothing when `pos` is out of range or that task is at the deepest level.
    pub fn add_new_subtask(&mut self, title: &str, pos: usize) -> (r: &mut Self)
        requires
            old(self).wf(),
        ensures
            r.wf(),
            r.name_seq() == old(self).name_seq(),
            pos < old(self).tasks_seq().len() && old(self).tasks_seq()[pos as int].depth < i8::MAX ==> inserted_at(
                old(self).tasks_seq(),
                r.tasks_seq(),
                pos + 1,
                title@,
                (old(self).tasks_seq()[pos as int].depth + 1) as i8,
            ),
            !(pos < old(self).tasks_seq().len() && old(self).tasks_seq()[pos as int].depth < i8::MAX)
                ==> r.tasks_seq() == old(self).tasks_seq(),
            *final(self) == *final(r),
    {
        if pos >= self.tasks.len() {
            return self;
        }
        let depth = self.neighbour_depth(pos, &Direction::Stay);
        if depth == i8::MAX {
            return self;
        }
        let task = Task::new(title, depth + 1);
        self.tasks.insert(pos + 1, task);
        proof {
            assert(self.tasks@[pos + 1] == task);
            assert forall|i: int| 0 <= i < self.tasks@.len() implies self.tasks@[i].depth >= 0 by {
                if i < pos + 1 {
                    assert(self.tasks@[i] == old(self).tasks@[i]);
                } else if i > pos + 1 {
                    assert(self.tasks@[i] == old(self).tasks@[i - 1]);
                }
            }
        }
        self.rebuild_all_indices();
        self
    }

    /// Deletes the task at `pos` together with its whole subtree. Does nothing when
    /// `pos` is out of range.
    pub fn delete_task(&mut self, pos: usize) -> (r: &mut Self)
        requires
            old(self).wf(),
        ensures
            r.wf(),
            r.name_seq() == old(self).name_seq(),
            pos < old(self).tasks_seq().len() ==> removed_range(
                old(self).tasks_seq(),
                r.tasks_seq(),
                pos as int,
                subtree_end(old(self).tasks_seq(), pos as int),
            ),
            pos >= old(self).tasks_seq().len() ==> r.tasks_seq() == old(self).tasks_seq(),
            *final(self) == *final(r),
    {
        let ghost ts = self.tasks@;
        if pos >= self.tasks.len() {
            return self;
        }
        let end = self.get_last_subtask_pos(pos);
        proof {
            lemma_run_stop(ts, ts[pos as int].depth as int, pos + 1);
        }
        let count = end - pos + 1;
        let mut removed: usize = 0;
        let ghost name = self.name@;
        while removed < count
            invariant
                self.name@ == name,
                pos <= end < ts.len(),
                count == end - pos + 1,
                removed <= count,
                self.tasks@ == ts.subrange(0, pos as int) + ts.subrange(pos + removed, ts.len() as int),
            decreases count - removed,
        {
            self.tasks.remove(pos);
            proof {
                assert(self.tasks@ =~= ts.subrange(0, pos as int) + ts.subrange(
                    pos + removed + 1,
                    ts.len() as int,
                ));
            }
            removed += 1;
        }
        proof {
            assert forall|i: int| 0 <= i < self.tasks@.len() implies self.tasks@[i].depth >= 0 by {
                if i < pos {
                    assert(self.tasks@[i] == ts[i]);
                } else {
                    assert(self.tasks@[i] == ts[i + count]);
                }
            }
        }
        self.rebuild_all_indices();
        self
    }

    /// Moves the status of the task at `pos` one step along its cycle, stamped with
    /// the current time. Does nothing when `pos` is out of range.
    pub fn toggle_task_status(&mut self, pos: usize)
        requires
            old(self).wf(),
        ensures
            final(self).wf(),
            final(self).name_seq() == old(self).name_seq(),
            pos < old(self).tasks_seq().len() ==> {
                &&& final(self).tasks_seq() == old(self).tasks_seq().update(
                    pos as int,
                    Task {
                        task_status: final(self).tasks_seq()[pos as int].task_status,
                        ..old(self).tasks_seq()[pos as int]
                    },
                )
                &&& status_stepped(
                    old(self).tasks_seq()[pos as int].task_status,
                    final(self).tasks_seq()[pos as int].task_status,
                )
            },
            pos >= old(self).tasks_seq().len() ==> final(self).tasks_seq() == old(self).tasks_seq(),
    {
        if pos >= self.tasks.len() {
            return;
        }
        self.tasks[pos].toggle_status();
        proof {
            assert forall|i: int| 0 <= i < self.tasks@.len() implies self.tasks@[i].depth >= 0 by {
                assert(self.tasks@[i].depth == old(self).tasks@[i].depth);
            }
        }
        self.rebuild_all_indices();
    }

    /// Flips the execution order of the task at `pos` between series and parallel.
    /// Does nothing when `pos` is out of range.
    pub fn toggle_execution_order(&mut self, pos: usize) -> (r: &mut Self)
        requires
            old(self).wf(),
        ensures
            r.wf(),
            r.name_seq() == old(self).name_seq(),
            pos < old(self).tasks_seq().len() ==> r.tasks_seq() == old(self).tasks_seq().update(
                pos as int,
                Task {
                    execution_order: flipped(old(self).tasks_seq()[pos as int].execution_order),
                    ..old(self).tasks_seq()[pos as int]
                },
            ),
            pos >= old(self).tasks_seq().len() ==> r.tasks_seq() == old(self).tasks_seq(),
            *final(self) == *final(r),
    {
        if pos >= self.tasks.len() {
            return self;
        }
        let order = match self.tasks[pos].execution_order {
            ExecutionOrder::Series => ExecutionOrder::Parallel,
            ExecutionOrder::Parallel => ExecutionOrder::Series,
        };
        self.tasks[pos].set_execution_order(order);
        proof {
            assert forall|i: int| 0 <= i < self.tasks@.len() implies self.tasks@[i].depth >= 0 by {
                assert(self.tasks@[i].depth == old(self).tasks@[i].depth);
            }
        }
        self.rebuild_all_indices();
        self
    }

    /// Sets the expected duration, in minutes, of the task at `pos`. Does nothing
    /// when `pos` is out of range.
    pub fn set_expected_duration(&mut self, pos: usize, minutes: Option<i32>) -> (r: &mut Self)
        requires
            old(self).wf(),
        ensures
            r.wf(),
            r.name_seq() == old(self).name_seq(),
            pos < old(self).tasks_seq().len() ==> r.tasks_seq() == old(self).tasks_seq().update(
                pos as int,
                Task { expected_duration: minutes, ..old(self).tasks_seq()[pos as int] },
            ),
            pos >= old(self).tasks_seq().len() ==> r.tasks_seq() == old(self).tasks_seq(),
            *final(self) == *final(r),
    {
        if pos >= self.tasks.len() {
            return self;
        }
        self.tasks[pos].expected_duration = minutes;
        proof {
            assert forall|i: int| 0 <= i < self.tasks@.len() implies self.tasks@[i].depth >= 0 by {
                assert(self.tasks@[i].depth == old(self).tasks@[i].depth);
            }
        }
        self.rebuild_all_indices();
        self
    }

    /// Moves the task at `pos` one step toward `dir` (clamped to the list) by
    /// exchanging it with that neighbour, when their depths are equal; else leaves
    /// the list as it is. Fails when `pos` is out of range.
    pub fn move_task(&mut self, pos: usize, dir: &Direction) -> (r: Result<&mut Self, TaskListError>)
        requires
            old(self).wf(),
        ensures
            pos >= old(self).tasks_seq().len() <==> r is Err,
            match r {
                Ok(l) => {
                    &&& l.wf()
                    &&& l.name_seq() == old(self).name_seq()
                    &&& l.tasks_seq() == moved(old(self).tasks_seq(), pos as int, *dir)
                },
                Err(e) => {
                    &&& e == TaskListError::TaskOutOfBoundsError
                    &&& *final(self) == *old(self)
                },
            },
    {
        let ghost ts = self.tasks@;
        if pos >= self.tasks.len() {
            return Err(TaskListError::TaskOutOfBoundsError);
        }
        let swap_pos = self.get_pos(pos, dir);
        let neighbour_depth = self.neighbour_depth(pos, dir);
        if self.tasks[pos].depth != neighbour_depth {
            return Ok(self);
        }
        if swap_pos != pos {
            let (a, b) = if pos < swap_pos {
                (pos, swap_pos)
            } else {
                (swap_pos, pos)
            };
            let task_b = self.tasks.remove(b);
            let task_a = self.tasks.remove(a);
            self.tasks.insert(a, task_b);
            self.tasks.insert(b, task_a);
            proof {
                assert(self.tasks@ =~= swapped(ts, pos as int, swap_pos as int));
            }
        } else {
            proof {
                assert(swapped(ts, pos as int, pos as int) =~= ts);
            }
        }
        proof {
            assert forall|i: int| 0 <= i < self.tasks@.len() implies self.tasks@[i].depth >= 0 by {
                if i == pos {
                    assert(self.tasks@[i] == ts[swap_pos as int]);
                } else if i == swap_pos {
                    assert(self.tasks@[i] == ts[pos as int]);
                } else {
                    assert(self.tasks@[i] == ts[i]);
                }
            }
        }
        self.rebuild_all_indices();
        Ok(self)
    }

    /// Changes the depth of the task at `pos` by `depth_change`, leaving its
    /// subtasks where they are. Does nothing when `pos` is out of range or the new
    /// depth would leave `0..=i8::MAX`.
    fn change_task_depth(&mut self, pos: usize, depth_change: i8) -> (r: &mut Self)
        requires
            old(self).wf(),
        ensures
            r.wf(),
            r.name_seq() == old(self).name_seq(),
            r.tasks_seq() == depth_changed(old(self).tasks_seq(), pos as int, depth_change as int),
            *final(self) == *final(r),
    {
        if pos >= self.tasks.len() {
            return self;
        }
        let depth: i16 = self.tasks[pos].depth as i16 + depth_change as i16;
        if depth < 0 || depth > i8::MAX as i16 {
            return self;
        }
        self.tasks[pos].depth = depth as i8;
        proof {
            assert(self.tasks@ =~= depth_changed(old(self).tasks@, pos as int, depth_change as int));
            assert forall|i: int| 0 <= i < self.tasks@.len() implies self.tasks@[i].depth >= 0 by {
                if i != pos {
                    assert(self.tasks@[i] == old(self).tasks@[i]);
                }
            }
        }
        self.rebuild_all_indices();
        self
    }

    /// Promotes the task at `pos` one level up (depth − 1), leaving its subtasks
    /// where they are. Does nothing for a root task or a position out of range.
    pub fn promote_task(&mut self, pos: usize) -> (r: &mut Self)
        requires
            old(self).wf(),
        ensures
            r.wf(),
            r.name_seq() == old(self).name_seq(),
            r.tasks_seq() == depth_changed(old(self).tasks_seq(), pos as int, -1),
            *final(self) == *final(r),
    {
        self.change_task_depth(pos, -1)
    }

    /// Demotes the task at `pos` one level down (depth + 1), leaving its subtasks
    /// where they are. Does nothing at the deepest level or for a position out of range.
    pub fn demote_task(&mut self, pos: usize) -> (r: &mut Self)
        requires
            old(self).wf(),
        ensures
            r.wf(),
            r.name_seq() == old(self).name_seq(),
            r.tasks_seq() == depth_changed(old(self).tasks_seq(), pos as int, 1),
            *final(self) == *final(r),
    {
        self.change_task_depth(pos, 1)
    }

    /// The total duration, in minutes, of the task at `pos`: its own expected
    /// duration (0 if none) when it has no subtasks, else the sum (series) or the
    /// maximum (parallel) of its subtasks' totals; 0 for a position out of range.
    pub fn calculate_task_duration(&self, pos: usize) -> (r: i128)
        requires
            self.depth_index_ok(),
        ensures
            r as int == duration(self.tasks_seq(), pos as int),
            pos < self.tasks_seq().len() ==> -0x8000_0000 * (subtree_stop(self.tasks_seq(), pos as int) - pos)
                <= r <= 0x8000_0000 * (subtree_stop(self.tasks_seq(), pos as int) - pos),
        decreases self.tasks_seq().len() - pos,
    {
        let ghost ts = self.tasks@;
        if pos >= self.tasks.len() {
            return 0;
        }
        proof {
            self.lemma_depth_index();
            lemma_run_stop(ts, ts[pos as int].depth as int, pos + 1);
            lemma_child_list(ts, pos as int, pos + 1);
        }
        let ghost stop = subtree_stop(ts, pos as int);
        let ghost d = ts[pos as int].depth as int;
        let subtasks = self.get_direct_subtasks(pos);
        if subtasks.len() == 0 {
            return match self.tasks[pos].expected_duration {
                Some(minutes) => minutes as i128,
                None => 0,
            };
        }
        proof {
            assert forall|k: int| 0 <= k < subtasks@.len() implies subtree_stop(ts, #[trigger] subtasks@[k] as int)
                <= stop by {
                let c = subtasks@[k] as int;
                lemma_run_stop_le(ts, d + 1, c + 1, stop);
            }
            assert forall|k: int| 0 <= k < subtasks@.len() - 1 implies subtree_stop(ts, #[trigger] subtasks@[k] as int)
                <= subtasks@[k + 1] by {
                let c = subtasks@[k] as int;
                lemma_run_stop_le(ts, d + 1, c + 1, subtasks@[k + 1] as int);
            }
        }
        match self.tasks[pos].execution_order {
            ExecutionOrder::Series => {
                let mut total: i128 = 0;
                let mut i: usize = 0;
                let ghost mut reached: int = pos + 1;
                while i < subtasks.len()
                    invariant
                        self.depth_index_ok(),
                        self.tasks@ == ts,
                        pos < ts.len(),
                        ts.len() <= usize::MAX,
                        stop == subtree_stop(ts, pos as int),
                        d == ts[pos as int].depth,
                        subtasks@ == children(ts, pos as int),
                        forall|k: int|
                            0 <= k < subtasks@.len() ==> pos < (#[trigger] subtasks@[k]) < stop && stop <= ts.len(),
                        forall|k: int|
                            0 <= k < subtasks@.len() ==> subtree_stop(ts, #[trigger] subtasks@[k] as int) <= stop,
                        forall|k: int|
                            0 <= k < subtasks@.len() - 1 ==> subtree_stop(ts, #[trigger] subtasks@[k] as int)
                                <= subtasks@[k + 1],
                        i <= subtasks@.len(),
                        total == duration_sum(ts, pos as int, subtasks@.take(i as int)),
                        pos + 1 <= reached <= stop,
                        i < subtasks@.len() ==> reached <= subtasks@[i as int],
                        -0x8000_0000 * (reached - pos - 1) <= total <= 0x8000_0000 * (reached - pos - 1),
                    decreases subtasks@.len() - i,
                {
                    let child = subtasks[i];
                    let minutes = self.calculate_task_duration(child);
                    proof {
                        let t1 = subtasks@.take(i + 1);
                        assert(t1.drop_last() =~= subtasks@.take(i as int));
                        assert(t1.last() == child);
                        assert(duration_after(ts, pos as int, child as int) == duration(ts, child as int));
                        assert(duration_sum(ts, pos as int, t1) == duration_sum(ts, pos as int, t1.drop_last())
                            + duration_after(ts, pos as int, t1.last() as int));
                        reached = subtree_stop(ts, child as int);
                    }
                    total = total + minutes;
                    i += 1;
                }
                proof {
                    assert(subtasks@.take(i as int) =~= subtasks@);
                }
                total
            },
            ExecutionOrder::Parallel => {
                let mut longest: i128 = 0;
                let mut i: usize = 0;
                assert(pos + 1 <= stop);
                while i < subtasks.len()
                    invariant
                        self.depth_index_ok(),
                        self.tasks@ == ts,
                        pos < ts.len(),
                        ts.len() <= usize::MAX,
                        stop == subtree_stop(ts, pos as int),
                        subtasks@ == children(ts, pos as int),
                        forall|k: int|
                            0 <= k < subtasks@.len() ==> pos < (#[trigger] subtasks@[k]) < stop && stop <= ts.len(),
                        forall|k: int|
                            0 <= k < subtasks@.len() ==> subtree_stop(ts, #[trigger] subtasks@[k] as int) <= stop,
                        i <= subtasks@.len(),
                        longest == duration_max(ts, pos as int, subtasks@.take(i as int)),
                        -0x8000_0000 * (stop - pos) <= longest <= 0x8000_0000 * (stop - pos),
                    decreases subtasks@.len() - i,
                {
                    let child = subtasks[i];
                    let minutes = self.calculate_task_duration(child);
                    proof {
                        let t1 = subtasks@.take(i + 1);
                        assert(t1.drop_last() =~= subtasks@.take(i as int));
                        assert(t1[0] == subtasks@[0]);
                        assert(t1.last() == child);
                        assert(duration_after(ts, pos as int, child as int) == duration(ts, child as int));
                        if i == 0 {
                            assert(duration_max(ts, pos as int, t1) == duration_after(ts, pos as int, child as int));
                        } else {
                            assert(duration_max(ts, pos as int, t1) == if duration_max(ts, pos as int, t1.drop_last())
                                >= duration_after(ts, pos as int, child as int) {
                                duration_max(ts, pos as int, t1.drop_last())
                            } else {
                                duration_after(ts, pos as int, child as int)
                            });
                        }
                    }
                    if i == 0 || minutes > longest {
                        longest = minutes;
                    }
                    i += 1;
                }
                proof {
                    assert(subtasks@.take(i as int) =~= subtasks@);
                }
                longest
            },
        }
    }

    /// A debugging text of the list: one line per task, its title after one `>`
    /// per level of depth, each line ended by a carriage return and line feed.
    pub fn print_debug(&self) -> (r: String)
        requires
            depths_valid(self.tasks_seq()),
        ensures
            r@ == debug_text(self.tasks_seq(), self.tasks_seq().len() as int),
    {
        let ghost ts = self.tasks@;
        let mut result = String::new();
        let mut i: usize = 0;
        proof {
            reveal_strlit(">");
            reveal_strlit("\r\n");
        }
        while i < self.tasks.len()
            invariant
                self.tasks@ == ts,
                depths_valid(ts),
                i <= ts.len(),
                result@ == debug_text(ts, i as int),
            decreases ts.len() - i,
        {
            let depth = self.tasks[i].depth;
            let ghost base = result@;
            let mut k: i8 = 0;
            while k < depth
                invariant
                    0 <= k <= depth,
                    result@ == base + repeated('>', k as nat),
                decreases depth - k,
            {
                result.append(">");
                proof {
                    reveal_strlit(">");
                    assert(result@ =~= base + repeated('>', (k + 1) as nat));
                }
                k += 1;
            }
            result.append(self.tasks[i].title.as_str());
            result.append("\r\n");
            proof {
                assert(result@ =~= debug_text(ts, i + 1));
            }
            i += 1;
        }
        result
    }

    /// The active index: for each root task in order, the chain of positions that
    /// are up next below it.
    pub fn next_tasks(&self) -> (r: &Vec<usize>)
        requires
            self.wf(),
        ensures
            r@ == active_list(self.tasks_seq()),
    {
        &self.next_tasks
    }

    /// Whether the task at `pos` is in the active index.
    pub fn is_next_task(&self, pos: usize) -> (r: bool)
        requires
            self.wf(),
        ensures
            r == active_list(self.tasks_seq()).contains(pos),
    {
        let mut i: usize = 0;
        while i < self.next_tasks.len()
            invariant
                self.wf(),
                i <= self.next_tasks@.len(),
                forall|k: int| 0 <= k < i ==> self.next_tasks@[k] != pos,
            decreases self.next_tasks@.len() - i,
        {
            if self.next_tasks[i] == pos {
                return true;
            }
            i += 1;
        }
        false
    }

    /// The ascending positions of the tasks at `depth`; `None` when no task is at
    /// that depth.
    pub fn depth_positions(&self, depth: i8) -> (r: Option<&Vec<usize>>)
        requires
            self.wf(),
        ensures
            match r {
                Some(v) => depth >= 0 && v@ == level(self.tasks_seq(), depth as int, self.tasks_seq().len() as int)
                    && v@.len() > 0,
                None => depth < 0 || level(self.tasks_seq(), depth as int, self.tasks_seq().len() as int).len() == 0,
            },
    {
        proof {
            self.lemma_depth_index();
        }
        if depth < 0 || self.depth_index[depth as usize].len() == 0 {
            return None;
        }
        Some(&self.depth_index[depth as usize])
    }

    /// The position most recently holding `title`; fails when no task has it.
    pub fn position_of_title(&self, title: &str) -> (r: Result<usize, TaskListError>)
        requires
            self.wf(),
        ensures
            r is Ok <==> holds_title(self.tasks_seq(), title@),
            match r {
                Ok(i) => {
                    &&& i < self.tasks_seq().len()
                    &&& self.tasks_seq()[i as int].title@ == title@
                    &&& forall|j: int| i < j < self.tasks_seq().len() ==> #[trigger] self.tasks_seq()[j].title@ != title@
                },
                Err(e) => e == TaskListError::TaskNotFoundError,
            },
    {
        let ghost ts = self.tasks@;
        let wanted = title.to_owned();
        proof {
            assert(self.tasks.len() == ts.len());
            lemma_title_entries(ts, ts.len() as int);
        }
        let mut k: usize = 0;
        while k < self.title_index.len()
            invariant
                self.wf(),
                self.tasks@ == ts,
                wanted@ == title@,
                k <= self.title_index@.len(),
                forall|m: int| 0 <= m < k ==> (#[trigger] self.title_index@[m]).0@ != title@,
            decreases self.title_index@.len() - k,
        {
            if self.title_index[k].0 == wanted {
                let i = self.title_index[k].1;
                proof {
                    assert(self.titles()[k as int] == (self.title_index@[k as int].0@, i));
                    assert(self.titles().len() == self.title_index@.len());
                    assert(self.tasks.len() == ts.len());
                    lemma_title_entries(ts, ts.len() as int);
                    let e = title_entries_upto(ts, ts.len() as int)[k as int];
                    assert(e.0 == title@ && e.1 == i);
                    assert(is_last_title(ts, i as int));
                    assert(ts[i as int].title@ == title@);
                    assert(holds_title(ts, title@));
                }
                return Ok(i);
            }
            proof {
                assert(self.titles()[k as int] == (self.title_index@[k as int].0@, self.title_index@[k as int].1));
            }
            k += 1;
        }
        proof {
            if holds_title(ts, title@) {
                assert(self.tasks.len() == ts.len());
                lemma_title_entries(ts, ts.len() as int);
                let i = choose|i: int| 0 <= i < ts.len() && #[trigger] ts[i].title@ == title@;
                lemma_last_occurrence(ts, i);
                let j = choose|j: int| i <= j < ts.len() && ts[j].title@ == ts[i].title@ && is_last_title(ts, j);
                let entries = title_entries(ts);
                assert(entries.contains((ts[j].title@, j as usize)));
                let m = choose|m: int| 0 <= m < entries.len() && entries[m] == (ts[j].title@, j as usize);
                assert(self.titles()[m] == (self.title_index@[m].0@, self.title_index@[m].1));
                assert(self.title_index@[m].0@ == title@);
            }
        }
        Err(TaskListError::TaskNotFoundError)
    }
}

/// The number of leading entries of the ascending `v` that are at most `x`.
fn first_after(v: &Vec<usize>, x: usize) -> (k: usize)
    requires
        strictly_increasing(v@),
    ensures
        k <= v@.len(),
        forall|i: int| 0 <= i < k ==> v@[i] <= x,
        forall|i: int| k <= i < v@.len() ==> v@[i] > x,
{
    let mut lo: usize = 0;
    let mut hi: usize = v.len();
    while lo < hi
        invariant
            strictly_increasing(v@),
            lo <= hi <= v@.len(),
            forall|i: int| 0 <= i < lo ==> v@[i] <= x,
            forall|i: int| hi <= i < v@.len() ==> v@[i] > x,
        decreases hi - lo,
    {
        let mid = lo + (hi - lo) / 2;
        if v[mid] <= x {
            lo = mid + 1;
        } else {
            hi = mid;
        }
    }
    lo
}

} // verus!
