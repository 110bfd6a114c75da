//! The tree shape that a flat, depth-annotated task sequence stands for, stated
//! over the sequence itself: subtree ranges, children, parents, the per-depth
//! position lists, and the roll-ups defined on them.

use vstd::prelude::*;
use crate::task::{ExecutionOrder, Task};

verus! {

/// The elements of `s` are strictly increasing.
pub open spec fn strictly_increasing(s: Seq<usize>) -> bool {
    forall|i: int, j: int| 0 <= i < j < s.len() ==> s[i] < s[j]
}

/// Every depth in `ts` is non-negative.
pub open spec fn depths_valid(ts: Seq<Task>) -> bool {
    forall|i: int| 0 <= i < ts.len() ==> ts[i].depth >= 0
}

/// `ts` is a pre-order flattening of a forest: it starts at depth 0 and each entry
/// is at most one level deeper than the one before it.
pub open spec fn is_forest(ts: Seq<Task>) -> bool {
    &&& depths_valid(ts)
    &&& ts.len() > 0 ==> ts[0].depth == 0
    &&& forall|i: int| 1 <= i < ts.len() ==> #[trigger] ts[i].depth <= ts[i - 1].depth + 1
}

/// The task at `p` has subtasks: the entry after it is deeper.
pub open spec fn has_sub(ts: Seq<Task>, p: int) -> bool {
    0 <= p && p + 1 < ts.len() && ts[p + 1].depth > ts[p].depth
}

/// The first position at or after `q` whose depth is at most `d`, or the length
/// of `ts` when there is none.
pub open spec fn run_stop(ts: Seq<Task>, d: int, q: int) -> int
    decreases ts.len() - q,
{
    if q >= ts.len() {
        ts.len() as int
    } else if ts[q].depth <= d {
        q
    } else {
        run_stop(ts, d, q + 1)
    }
}

/// The last position of the subtree rooted at `p`: the end of the run of deeper
/// entries that follows it.
pub open spec fn subtree_end(ts: Seq<Task>, p: int) -> int {
    run_stop(ts, ts[p].depth as int, p + 1) - 1
}

/// The direct children of `p` at positions `q` and after, in ascending order.
pub open spec fn child_list(ts: Seq<Task>, p: int, q: int) -> Seq<usize>
    decreases ts.len() - q,
{
    if q >= ts.len() || ts[q].depth <= ts[p].depth {
        Seq::empty()
    } else if ts[q].depth == ts[p].depth + 1 {
        seq![q as usize] + child_list(ts, p, q + 1)
    } else {
        child_list(ts, p, q + 1)
    }
}

/// The direct children of `p`: the entries one level deeper within its subtree.
pub open spec fn children(ts: Seq<Task>, p: int) -> Seq<usize> {
    child_list(ts, p, p + 1)
}

/// The positions before `n` whose depth is `d`, in ascending order.
pub open spec fn level(ts: Seq<Task>, d: int, n: int) -> Seq<usize>
    decreases n,
{
    if n <= 0 {
        Seq::empty()
    } else if ts[n - 1].depth == d {
        level(ts, d, n - 1).push((n - 1) as usize)
    } else {
        level(ts, d, n - 1)
    }
}

/// The last position before `q` whose depth is `d`, or -1 when there is none.
pub open spec fn last_at(ts: Seq<Task>, d: int, q: int) -> int
    decreases q,
{
    if q <= 0 {
        -1
    } else if ts[q - 1].depth == d {
        q - 1
    } else {
        last_at(ts, d, q - 1)
    }
}

/// The parent of `p`: the nearest earlier entry one level shallower.
pub open spec fn parent(ts: Seq<Task>, p: int) -> Option<usize> {
    if 0 <= p < ts.len() && ts[p].depth > 0 && last_at(ts, ts[p].depth - 1, p) >= 0 {
        Some(last_at(ts, ts[p].depth - 1, p) as usize)
    } else {
        None
    }
}

/// The children of `p` that its execution order makes active: the first one
/// under series, all of them under parallel.
pub open spec fn chosen_children(ts: Seq<Task>, p: int) -> Seq<usize> {
    let cs = children(ts, p);
    if ts[p].execution_order == ExecutionOrder::Series && cs.len() > 0 {
        seq![cs[0]]
    } else {
        cs
    }
}

/// The active chain from `p`: `p` itself, then the active chains of its chosen children.
pub open spec fn active_from(ts: Seq<Task>, p: int) -> Seq<usize>
    decreases ts.len() - p, 1int, 0int,
{
    if p < 0 || p >= ts.len() {
        Seq::empty()
    } else {
        seq![p as usize] + active_seq(ts, p, chosen_children(ts, p))
    }
}

/// The active chains of the positions `cs` (each after `p`), one after another.
pub open spec fn active_seq(ts: Seq<Task>, p: int, cs: Seq<usize>) -> Seq<usize>
    decreases ts.len() - p, 0int, cs.len(),
{
    if cs.len() == 0 {
        Seq::empty()
    } else {
        let c = cs.last() as int;
        active_seq(ts, p, cs.drop_last()) + if p < c && c < ts.len() {
            active_from(ts, c)
        } else {
            Seq::empty()
        }
    }
}

/// The active index: the active chains of all root tasks, in root order.
pub open spec fn active_list(ts: Seq<Task>) -> Seq<usize> {
    active_seq(ts, -1, level(ts, 0, ts.len() as int))
}

/// The expected duration of a task on its own, 0 when it has none.
pub open spec fn own_duration(t: Task) -> int {
    match t.expected_duration {
        Some(m) => m as int,
        None => 0,
    }
}

/// The rolled-up duration of `p`: its own for a leaf, else the sum (series) or
/// the maximum (parallel) of its children's.
pub open spec fn duration(ts: Seq<Task>, p: int) -> int
    decreases ts.len() - p, 1int, 0int,
{
    if p < 0 || p >= ts.len() {
        0
    } else if children(ts, p).len() == 0 {
        own_duration(ts[p])
    } else if ts[p].execution_order == ExecutionOrder::Series {
        duration_sum(ts, p, children(ts, p))
    } else {
        duration_max(ts, p, children(ts, p))
    }
}

/// The rolled-up duration of `c` when it lies after `p`, else 0.
pub open spec fn duration_after(ts: Seq<Task>, p: int, c: int) -> int
    decreases ts.len() - p, 0int, 0int,
{
    if p < c && c < ts.len() {
        duration(ts, c)
    } else {
        0
    }
}

/// The sum of the rolled-up durations of the positions `cs` (each after `p`).
pub open spec fn duration_sum(ts: Seq<Task>, p: int, cs: Seq<usize>) -> int
    decreases ts.len() - p, 0int, cs.len() + 1,
{
    if cs.len() == 0 {
        0
    } else {
        duration_sum(ts, p, cs.drop_last()) + duration_after(ts, p, cs.last() as int)
    }
}

/// The maximum of the rolled-up durations of the positions `cs` (each after
/// `p`); 0 for none.
pub open spec fn duration_max(ts: Seq<Task>, p: int, cs: Seq<usize>) -> int
    decreases ts.len() - p, 0int, cs.len() + 1,
{
    if cs.len() == 0 {
        0
    } else if cs.len() == 1 {
        duration_after(ts, p, cs[0] as int)
    } else {
        let a = duration_max(ts, p, cs.drop_last());
        let b = duration_after(ts, p, cs.last() as int);
        if a >= b {
            a
        } else {
            b
        }
    }
}

/// What `run_stop` is: the first position from `q` on with depth at most `d`.
pub proof fn lemma_run_stop(ts: Seq<Task>, d: int, q: int)
    requires
        0 <= q <= ts.len(),
    ensures
        q <= run_stop(ts, d, q) <= ts.len(),
        forall|x: int| q <= x < run_stop(ts, d, q) ==> ts[x].depth > d,
        run_stop(ts, d, q) < ts.len() ==> ts[run_stop(ts, d, q)].depth <= d,
    decreases ts.len() - q,
{
    if q < ts.len() && ts[q].depth > d {
        lemma_run_stop(ts, d, q + 1);
    }
}

/// What `child_list` holds: exactly the entries one level below `p` in the run
/// from `q`, in ascending order.
pub proof fn lemma_child_list(ts: Seq<Task>, p: int, q: int)
    requires
        0 <= p < q <= ts.len(),
        ts.len() <= usize::MAX,
    ensures
        strictly_increasing(child_list(ts, p, q)),
        forall|i: int|
            0 <= i < child_list(ts, p, q).len() ==> {
                let c = #[trigger] child_list(ts, p, q)[i] as int;
                &&& q <= c < run_stop(ts, ts[p].depth as int, q)
                &&& ts[c].depth == ts[p].depth + 1
            },
        forall|x: int|
            q <= x < run_stop(ts, ts[p].depth as int, q) && ts[x].depth == ts[p].depth + 1
                ==> child_list(ts, p, q).contains(x as usize),
    decreases ts.len() - q,
{
    lemma_run_stop(ts, ts[p].depth as int, q);
    if q < ts.len() && ts[q].depth > ts[p].depth {
        lemma_child_list(ts, p, q + 1);
        let rest = child_list(ts, p, q + 1);
        if ts[q].depth == ts[p].depth + 1 {
            let all = seq![q as usize] + rest;
            assert forall|x: int|
                q <= x < run_stop(ts, ts[p].depth as int, q) && ts[x].depth == ts[p].depth + 1
                implies all.contains(x as usize) by {
                if x == q {
                    assert(all[0] == x as usize);
                } else {
                    let k = choose|k: int| 0 <= k < rest.len() && rest[k] == x as usize;
                    assert(all[k + 1] == x as usize);
                }
            }
        }
    }
}

/// What `level` holds: exactly the positions before `n` at depth `d`, in ascending order.
pub proof fn lemma_level(ts: Seq<Task>, d: int, n: int)
    requires
        0 <= n <= ts.len(),
        ts.len() <= usize::MAX,
    ensures
        strictly_increasing(level(ts, d, n)),
        forall|i: int|
            0 <= i < level(ts, d, n).len() ==> {
                let c = #[trigger] level(ts, d, n)[i] as int;
                &&& 0 <= c < n
                &&& ts[c].depth == d
            },
        forall|x: int| 0 <= x < n && ts[x].depth == d ==> level(ts, d, n).contains(x as usize),
    decreases n,
{
    if n > 0 {
        lemma_level(ts, d, n - 1);
        let prev = level(ts, d, n - 1);
        if ts[n - 1].depth == d {
            let all = prev.push((n - 1) as usize);
            assert forall|x: int| 0 <= x < n && ts[x].depth == d implies all.contains(x as usize) by {
                if x == n - 1 {
                    assert(all[prev.len() as int] == x as usize);
                } else {
                    let k = choose|k: int| 0 <= k < prev.len() && prev[k] == x as usize;
                    assert(all[k] == x as usize);
                }
            }
        }
    }
}

/// What `last_at` is: the last position before `q` at depth `d`, or -1.
pub proof fn lemma_last_at(ts: Seq<Task>, d: int, q: int)
    requires
        0 <= q <= ts.len(),
    ensures
        -1 <= last_at(ts, d, q) < q,
        last_at(ts, d, q) >= 0 ==> ts[last_at(ts, d, q)].depth == d,
        forall|x: int| last_at(ts, d, q) < x < q ==> ts[x].depth != d,
    decreases q,
{
    if q > 0 && ts[q - 1].depth != d {
        lemma_last_at(ts, d, q - 1);
    }
}

/// Two strictly increasing sequences with the same elements are equal.
pub proof fn lemma_increasing_unique(a: Seq<usize>, b: Seq<usize>)
    requires
        strictly_increasing(a),
        strictly_increasing(b),
        forall|x: usize| a.contains(x) <==> b.contains(x),
    ensures
        a == b,
    decreases a.len(),
{
    if a.len() == 0 {
        if b.len() > 0 {
            assert(b.contains(b[0]));
        }
        assert(a =~= b);
    } else {
        assert(a.contains(a[0]));
        assert(b.len() > 0);
        assert(b.contains(b[0]));
        let ka = choose|k: int| 0 <= k < a.len() && a[k] == b[0];
        let kb = choose|k: int| 0 <= k < b.len() && b[k] == a[0];
        assert(a[0] <= a[ka]);
        assert(b[0] <= b[kb]);
        assert(a[0] == b[0]);
        let a1 = a.drop_first();
        let b1 = b.drop_first();
        assert forall|x: usize| a1.contains(x) implies b1.contains(x) by {
            let i = choose|i: int| 0 <= i < a1.len() && a1[i] == x;
            assert(a.contains(x) && a[i + 1] == x);
            let j = choose|j: int| 0 <= j < b.len() && b[j] == x;
            assert(j != 0);
            assert(b1[j - 1] == x);
        }
        assert forall|x: usize| b1.contains(x) implies a1.contains(x) by {
            let i = choose|i: int| 0 <= i < b1.len() && b1[i] == x;
            assert(b.contains(x) && b[i + 1] == x);
            let j = choose|j: int| 0 <= j < a.len() && a[j] == x;
            assert(j != 0);
            assert(a1[j - 1] == x);
        }
        lemma_increasing_unique(a1, b1);
        assert(a =~= seq![a[0]] + a1);
        assert(b =~= seq![b[0]] + b1);
    }
}

} // verus!
