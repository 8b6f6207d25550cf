use crate::operation::Operation;
use crate::renderer::Renderer;
use crate::task::Task;
use crate::task_manager::TaskData;
use crate::task_state::TaskState;
use vstd::prelude::*;

verus! {

/// The column for state ordinal `k`, as a sequence of global task indices.
pub open spec fn col_of(cols: Seq<Vec<usize>>, k: int) -> Seq<usize> {
    cols[k]@
}

/// Global index `i` occurs somewhere in column `k`.
pub open spec fn col_contains(cols: Seq<Vec<usize>>, k: int, i: int) -> bool {
    exists|j: int| 0 <= j < col_of(cols, k).len() && col_of(cols, k)[j] == i
}

/// The grouping is a faithful projection of the first `upto` tasks: one
/// column per state in state order, each column listing exactly the global
/// indices of the tasks in that state, in increasing order.
pub open spec fn grouping_wf(cols: Seq<Vec<usize>>, tasks: Seq<Task>, upto: int) -> bool {
    &&& cols.len() == 4
    &&& forall|k: int, j: int|
        0 <= k < 4 && 0 <= j < col_of(cols, k).len() ==> (#[trigger] col_of(cols, k)[j]) < upto
            && 0 <= col_of(cols, k)[j] < tasks.len() && tasks[col_of(
            cols,
            k,
        )[j] as int].state.ord() == k
    &&& forall|k: int, j1: int, j2: int|
        0 <= k < 4 && 0 <= j1 < j2 < col_of(cols, k).len() ==> (#[trigger] col_of(cols, k)[j1])
            < (#[trigger] col_of(cols, k)[j2])
    &&& forall|i: int| 0 <= i < upto ==> col_contains(cols, tasks[i].state.ord(), i)
}

/// The cached focus position agrees with the grouping: when the focus is a
/// valid index among the first `upto` tasks, `focus_col` is the focused
/// task's state and the focused row of that column holds the focus.
pub open spec fn focus_cached(
    cols: Seq<Vec<usize>>,
    focus_col: TaskState,
    focus_list_idx: usize,
    tasks: Seq<Task>,
    focus: int,
    upto: int,
) -> bool {
    0 <= focus < upto ==> {
        &&& focus_col == tasks[focus].state
        &&& (focus_list_idx as int) < col_of(cols, focus_col.ord()).len()
        &&& col_of(cols, focus_col.ord())[focus_list_idx as int] == focus
    }
}

/// The next row below `row` in a column of length `len`, wrapping to the top
/// after the last row.
pub open spec fn next_row(row: int, len: int) -> int {
    if row >= len - 1 {
        0
    } else {
        row + 1
    }
}

/// The next row above `row` in a column of length `len`, wrapping to the
/// bottom before the first row.
pub open spec fn prev_row(row: int, len: int) -> int {
    if row == 0 {
        len - 1
    } else {
        row - 1
    }
}

/// Law: a well-formed grouping partitions the task indices — flattening the
/// columns and re-sorting by global index reproduces the full index set
/// exactly once each.  Every task index occurs in the column of its state,
/// and no position in any column repeats an index held elsewhere.
pub proof fn lemma_grouping_partition(cols: Seq<Vec<usize>>, tasks: Seq<Task>)
    requires
        grouping_wf(cols, tasks, tasks.len() as int),
    ensures
        forall|i: int| 0 <= i < tasks.len() ==> col_contains(cols, tasks[i].state.ord(), i),
        forall|k1: int, j1: int, k2: int, j2: int|
            0 <= k1 < 4 && 0 <= j1 < col_of(cols, k1).len() && 0 <= k2 < 4 && 0 <= j2 < col_of(
                cols,
                k2,
            ).len() && (#[trigger] col_of(cols, k1)[j1]) == (#[trigger] col_of(cols, k2)[j2])
                ==> k1 == k2 && j1 == j2,
{
    assert forall|k1: int, j1: int, k2: int, j2: int|
        0 <= k1 < 4 && 0 <= j1 < col_of(cols, k1).len() && 0 <= k2 < 4 && 0 <= j2 < col_of(
            cols,
            k2,
        ).len() && (#[trigger] col_of(cols, k1)[j1]) == (#[trigger] col_of(cols, k2)[j2]) implies k1
        == k2 && j1 == j2 by {
        assert(tasks[col_of(cols, k1)[j1] as int].state.ord() == k1);
        assert(tasks[col_of(cols, k2)[j2] as int].state.ord() == k2);
        if j1 < j2 {
            assert(col_of(cols, k1)[j1] < col_of(cols, k1)[j2]);
        }
        if j2 < j1 {
            assert(col_of(cols, k1)[j2] < col_of(cols, k1)[j1]);
        }
    }
}

/// Two strictly increasing sequences holding the same values are equal.
proof fn lemma_sorted_same_membership_equal(u: Seq<usize>, v: Seq<usize>)
    requires
        forall|j1: int, j2: int| 0 <= j1 < j2 < u.len() ==> (#[trigger] u[j1]) < (#[trigger] u[j2]),
        forall|j1: int, j2: int| 0 <= j1 < j2 < v.len() ==> (#[trigger] v[j1]) < (#[trigger] v[j2]),
        forall|x: usize| u.contains(x) <==> v.contains(x),
    ensures
        u == v,
    decreases u.len(),
{
    if u.len() == 0 {
        if v.len() > 0 {
            assert(v.contains(v[0]));
            assert(u.contains(v[0]));
            assert(false);
        }
        assert(u =~= v);
    } else {
        assert(u.contains(u.last()));
        assert(v.len() > 0) by {
            assert(v.contains(u.last()));
        }
        let lu = u.last();
        let lv = v.last();
        assert(lu <= lv) by {
            assert(v.contains(lu));
            let j = choose|j: int| 0 <= j < v.len() && v[j] == lu;
            if j < v.len() - 1 {
                assert(v[j] < v[v.len() - 1]);
            }
        }
        assert(lv <= lu) by {
            assert(u.contains(lv));
            let j = choose|j: int| 0 <= j < u.len() && u[j] == lv;
            if j < u.len() - 1 {
                assert(u[j] < u[u.len() - 1]);
            }
        }
        let u1 = u.drop_last();
        let v1 = v.drop_last();
        assert forall|x: usize| u1.contains(x) <==> v1.contains(x) by {
            if u1.contains(x) {
                let j = choose|j: int| 0 <= j < u1.len() && u1[j] == x;
                assert(u[j] == x);
                assert(u.contains(x));
                assert(x < lu);
                assert(v.contains(x));
                let j2 = choose|j2: int| 0 <= j2 < v.len() && v[j2] == x;
                assert(j2 < v.len() - 1);
                assert(v1[j2] == x);
                assert(v1.contains(x));
            }
            if v1.contains(x) {
                let j = choose|j: int| 0 <= j < v1.len() && v1[j] == x;
                assert(v[j] == x);
                assert(v.contains(x));
                assert(x < lv);
                assert(u.contains(x));
                let j2 = choose|j2: int| 0 <= j2 < u.len() && u[j2] == x;
                assert(j2 < u.len() - 1);
                assert(u1[j2] == x);
                assert(u1.contains(x));
            }
        }
        lemma_sorted_same_membership_equal(u1, v1);
        assert(u.len() == v.len());
        assert forall|i: int| 0 <= i < u.len() implies u[i] == v[i] by {
            if i < u.len() - 1 {
                assert(u[i] == u1[i]);
                assert(v[i] == v1[i]);
            }
        }
        assert(u =~= v);
    }
}

/// Law: the grouping of a task sequence is unique — any two well-formed
/// groupings of the same tasks hold the same columns.  In particular, a
/// rebuild after a mutation that left the tasks unchanged reproduces the
/// grouping exactly.
pub proof fn lemma_grouping_unique(c1: Seq<Vec<usize>>, c2: Seq<Vec<usize>>, tasks: Seq<Task>)
    requires
        grouping_wf(c1, tasks, tasks.len() as int),
        grouping_wf(c2, tasks, tasks.len() as int),
    ensures
        forall|k: int| 0 <= k < 4 ==> col_of(c1, k) == col_of(c2, k),
{
    assert forall|k: int| 0 <= k < 4 implies col_of(c1, k) == col_of(c2, k) by {
        assert forall|x: usize| col_of(c1, k).contains(x) <==> col_of(c2, k).contains(x) by {
            if col_of(c1, k).contains(x) {
                let j = choose|j: int| 0 <= j < col_of(c1, k).len() && col_of(c1, k)[j] == x;
                assert(tasks[x as int].state.ord() == k);
                assert(col_contains(c2, k, x as int));
                let j2 = choose|j2: int|
                    0 <= j2 < col_of(c2, k).len() && col_of(c2, k)[j2] == x as int;
                assert(col_of(c2, k)[j2] == x);
            }
            if col_of(c2, k).contains(x) {
                let j = choose|j: int| 0 <= j < col_of(c2, k).len() && col_of(c2, k)[j] == x;
                assert(tasks[x as int].state.ord() == k);
                assert(col_contains(c1, k, x as int));
                let j2 = choose|j2: int|
                    0 <= j2 < col_of(c1, k).len() && col_of(c1, k)[j2] == x as int;
                assert(col_of(c1, k)[j2] == x);
            }
        }
        lemma_sorted_same_membership_equal(col_of(c1, k), col_of(c2, k));
    }
}

/// The cached row after `n` presses of `j`, starting from `row` in a column
/// of length `len`.
pub open spec fn rows_after_down(row: int, len: int, n: nat) -> int
    decreases n,
{
    if n == 0 {
        row
    } else {
        next_row(rows_after_down(row, len, (n - 1) as nat), len)
    }
}

/// The cached row after `n` presses of `k`, starting from `row` in a column
/// of length `len`.
pub open spec fn rows_after_up(row: int, len: int, n: nat) -> int
    decreases n,
{
    if n == 0 {
        row
    } else {
        prev_row(rows_after_up(row, len, (n - 1) as nat), len)
    }
}

proof fn lemma_rows_after_down_value(row: int, len: int, n: nat)
    requires
        0 <= row < len,
        n <= len,
    ensures
        rows_after_down(row, len, n) == if row + n < len {
            row + n
        } else {
            row + n - len
        },
    decreases n,
{
    if n > 0 {
        lemma_rows_after_down_value(row, len, (n - 1) as nat);
    }
}

proof fn lemma_rows_after_up_value(row: int, len: int, n: nat)
    requires
        0 <= row < len,
        n <= len,
    ensures
        rows_after_up(row, len, n) == if row - n >= 0 {
            row - n
        } else {
            row - n + len
        },
    decreases n,
{
    if n > 0 {
        lemma_rows_after_up_value(row, len, (n - 1) as nat);
    }
}

/// Law: wraparound closure of the vertical navigation.  From any starting
/// row, as many `j` presses as the column has rows return the focus to the
/// starting row, and likewise for `k`.
pub proof fn lemma_vertical_wraparound(row: int, len: int)
    requires
        0 <= row < len,
    ensures
        rows_after_down(row, len, len as nat) == row,
        rows_after_up(row, len, len as nat) == row,
{
    lemma_rows_after_down_value(row, len, len as nat);
    lemma_rows_after_up_value(row, len, len as nat);
}

/// Law: stepping one column left and then one column right (or vice versa)
/// across the ordered key set returns to the original column position, for
/// any number of columns.
pub proof fn lemma_horizontal_inverse(pos: int, m: int)
    requires
        0 <= pos < m,
    ensures
        next_row(prev_row(pos, m), m) == pos,
        prev_row(next_row(pos, m), m) == pos,
{
}

/// The reference board view: tasks grouped into one column per lifecycle
/// state, with a cached focus position, rebuilt in full on every accepted
/// mutation.
pub struct BoardRenderer {
    /// One list of global task indices per state, in state order.
    pub tasks_idxs_by_state: Vec<Vec<usize>>,
    /// State of the focused task, i.e. the column holding the focus.
    pub focus_col: TaskState,
    /// Row of the focused task within its column's index list.
    pub focus_list_idx: usize,
}

impl BoardRenderer {
    /// The grouping cache is a faithful projection of `tasks` and the focus
    /// cache points at `focus`.
    pub open spec fn wf_for(&self, tasks: Seq<Task>, focus: int) -> bool {
        &&& grouping_wf(self.tasks_idxs_by_state@, tasks, tasks.len() as int)
        &&& focus_cached(
            self.tasks_idxs_by_state@,
            self.focus_col,
            self.focus_list_idx,
            tasks,
            focus,
            tasks.len() as int,
        )
    }

    /// Ordinals of the non-empty columns, in state order: the key set the
    /// horizontal navigation moves across.
    pub open spec fn present_cols(&self) -> Seq<usize> {
        let cols = self.tasks_idxs_by_state@;
        let s = Seq::<usize>::empty();
        let s = if col_of(cols, 0).len() > 0 {
            s.push(0usize)
        } else {
            s
        };
        let s = if col_of(cols, 1).len() > 0 {
            s.push(1usize)
        } else {
            s
        };
        let s = if col_of(cols, 2).len() > 0 {
            s.push(2usize)
        } else {
            s
        };
        if col_of(cols, 3).len() > 0 {
            s.push(3usize)
        } else {
            s
        }
    }

    /// What pressing `j` produces: `Focus` of the next row of the focused
    /// column with wraparound, or `NoOp` when that column is empty.
    pub open spec fn nav_down(&self) -> Operation {
        let col = col_of(self.tasks_idxs_by_state@, self.focus_col.ord());
        if col.len() == 0 {
            Operation::NoOp
        } else {
            Operation::Focus(col[next_row(self.focus_list_idx as int, col.len() as int)])
        }
    }

    /// What pressing `k` produces: `Focus` of the previous row of the
    /// focused column with wraparound, or `NoOp` when that column is empty.
    pub open spec fn nav_up(&self) -> Operation {
        let col = col_of(self.tasks_idxs_by_state@, self.focus_col.ord());
        if col.len() == 0 {
            Operation::NoOp
        } else {
            Operation::Focus(col[prev_row(self.focus_list_idx as int, col.len() as int)])
        }
    }

    /// What pressing `h` produces: among the non-empty columns, move one
    /// column to the left with wraparound, carrying the row over clamped to
    /// the new column's length; `NoOp` when the focused column is absent.
    pub open spec fn nav_left(&self) -> Operation {
        let keys = self.present_cols();
        let fk = self.focus_col.ord() as usize;
        if !keys.contains(fk) {
            Operation::NoOp
        } else {
            let pos = keys.index_of(fk);
            let nk = keys[prev_row(pos, keys.len() as int)];
            let ncol = col_of(self.tasks_idxs_by_state@, nk as int);
            let row = if (self.focus_list_idx as int) < ncol.len() {
                self.focus_list_idx as int
            } else {
                ncol.len() - 1
            };
            Operation::Focus(ncol[row])
        }
    }

    /// What pressing `l` produces: among the non-empty columns, move one
    /// column to the right with wraparound, carrying the row over clamped to
    /// the new column's length; `NoOp` when the focused column is absent.
    pub open spec fn nav_right(&self) -> Operation {
        let keys = self.present_cols();
        let fk = self.focus_col.ord() as usize;
        if !keys.contains(fk) {
            Operation::NoOp
        } else {
            let pos = keys.index_of(fk);
            let nk = keys[next_row(pos, keys.len() as int)];
            let ncol = col_of(self.tasks_idxs_by_state@, nk as int);
            let row = if (self.focus_list_idx as int) < ncol.len() {
                self.focus_list_idx as int
            } else {
                ncol.len() - 1
            };
            Operation::Focus(ncol[row])
        }
    }

    /// Facts about the non-empty key set: its entries are ordinals of
    /// non-empty columns, it is strictly sorted, and it holds exactly the
    /// ordinals whose columns are non-empty.
    pub proof fn lemma_present_cols(&self)
        requires
            self.tasks_idxs_by_state@.len() == 4,
        ensures
            forall|j: int|
                0 <= j < self.present_cols().len() ==> (#[trigger] self.present_cols()[j]) < 4
                    && col_of(self.tasks_idxs_by_state@, self.present_cols()[j] as int).len() > 0,
            forall|j1: int, j2: int|
                0 <= j1 < j2 < self.present_cols().len() ==> (#[trigger] self.present_cols()[j1])
                    < (#[trigger] self.present_cols()[j2]),
            forall|k: usize|
                k < 4 ==> (col_of(self.tasks_idxs_by_state@, k as int).len() > 0
                    <==> self.present_cols().contains(k)),
    {
        let cols = self.tasks_idxs_by_state@;
        let a = col_of(cols, 0).len() > 0;
        let b = col_of(cols, 1).len() > 0;
        let c = col_of(cols, 2).len() > 0;
        assert forall|k: usize|
            k < 4 && col_of(self.tasks_idxs_by_state@, k as int).len() > 0 implies self
            .present_cols()
            .contains(k) by {
            let p = self.present_cols();
            if k == 0 {
                assert(p[0] == 0usize);
            } else if k == 1 {
                if a {
                    assert(p[1] == 1usize);
                } else {
                    assert(p[0] == 1usize);
                }
            } else if k == 2 {
                let i = (if a {
                    1int
                } else {
                    0int
                }) + (if b {
                    1int
                } else {
                    0int
                });
                assert(p[i] == 2usize);
            } else {
                let i = (if a {
                    1int
                } else {
                    0int
                }) + (if b {
                    1int
                } else {
                    0int
                }) + (if c {
                    1int
                } else {
                    0int
                });
                assert(p[i] == 3usize);
            }
        }
    }
}

/// After an accepted `Focus` mutation the rebuilt cache holds the same
/// grouping as before (the tasks did not change) and caches the new focus at
/// its row in its column.
pub proof fn lemma_refocus_preserves_grouping(
    a: BoardRenderer,
    b: BoardRenderer,
    tasks: Seq<Task>,
    f1: int,
    f2: int,
)
    requires
        a.wf_for(tasks, f1),
        b.wf_for(tasks, f2),
        0 <= f2 < tasks.len(),
    ensures
        forall|k: int|
            0 <= k < 4 ==> col_of(b.tasks_idxs_by_state@, k) == col_of(a.tasks_idxs_by_state@, k),
        b.present_cols() == a.present_cols(),
        b.focus_col == tasks[f2].state,
        (b.focus_list_idx as int) < col_of(a.tasks_idxs_by_state@, tasks[f2].state.ord()).len(),
        col_of(a.tasks_idxs_by_state@, tasks[f2].state.ord())[b.focus_list_idx as int] == f2,
{
    lemma_grouping_unique(a.tasks_idxs_by_state@, b.tasks_idxs_by_state@, tasks);
    assert(col_of(b.tasks_idxs_by_state@, 0) == col_of(a.tasks_idxs_by_state@, 0));
    assert(col_of(b.tasks_idxs_by_state@, 1) == col_of(a.tasks_idxs_by_state@, 1));
    assert(col_of(b.tasks_idxs_by_state@, 2) == col_of(a.tasks_idxs_by_state@, 2));
    assert(col_of(b.tasks_idxs_by_state@, 3) == col_of(a.tasks_idxs_by_state@, 3));
}

/// Law: one `j` press from a valid focus, once the produced `Focus` is
/// accepted and the view rebuilt, leaves the focus in the same column with
/// the cached row advanced by exactly one, wrapping past the last row.
/// Together with [`lemma_vertical_wraparound`], as many presses as the
/// column has rows return the focus to its starting row.
pub proof fn lemma_down_step(
    a: BoardRenderer,
    b: BoardRenderer,
    tasks: Seq<Task>,
    focus: int,
    nf: usize,
)
    requires
        0 <= focus < tasks.len(),
        a.wf_for(tasks, focus),
        a.nav_down() == Operation::Focus(nf),
        b.wf_for(tasks, nf as int),
    ensures
        b.focus_col == a.focus_col,
        forall|k: int|
            0 <= k < 4 ==> col_of(b.tasks_idxs_by_state@, k) == col_of(a.tasks_idxs_by_state@, k),
        b.focus_list_idx as int == next_row(
            a.focus_list_idx as int,
            col_of(a.tasks_idxs_by_state@, a.focus_col.ord()).len() as int,
        ),
{
    let fk = a.focus_col.ord();
    let cola = col_of(a.tasks_idxs_by_state@, fk);
    assert(cola.len() > 0);
    let nr = next_row(a.focus_list_idx as int, cola.len() as int);
    assert(0 <= nr < cola.len());
    assert(nf == cola[nr]);
    assert(tasks[nf as int].state.ord() == fk);
    assert(tasks[nf as int].state == a.focus_col);
    lemma_refocus_preserves_grouping(a, b, tasks, focus, nf as int);
    if b.focus_list_idx as int != nr {
        if (b.focus_list_idx as int) < nr {
            assert(cola[b.focus_list_idx as int] < cola[nr]);
        } else {
            assert(cola[nr] < cola[b.focus_list_idx as int]);
        }
        assert(false);
    }
}

/// Law: one `k` press from a valid focus, once the produced `Focus` is
/// accepted and the view rebuilt, leaves the focus in the same column with
/// the cached row moved back by exactly one, wrapping before the first row.
pub proof fn lemma_up_step(
    a: BoardRenderer,
    b: BoardRenderer,
    tasks: Seq<Task>,
    focus: int,
    nf: usize,
)
    requires
        0 <= focus < tasks.len(),
        a.wf_for(tasks, focus),
        a.nav_up() == Operation::Focus(nf),
        b.wf_for(tasks, nf as int),
    ensures
        b.focus_col == a.focus_col,
        forall|k: int|
            0 <= k < 4 ==> col_of(b.tasks_idxs_by_state@, k) == col_of(a.tasks_idxs_by_state@, k),
        b.focus_list_idx as int == prev_row(
            a.focus_list_idx as int,
            col_of(a.tasks_idxs_by_state@, a.focus_col.ord()).len() as int,
        ),
{
    let fk = a.focus_col.ord();
    let cola = col_of(a.tasks_idxs_by_state@, fk);
    assert(cola.len() > 0);
    let nr = prev_row(a.focus_list_idx as int, cola.len() as int);
    assert(0 <= nr < cola.len());
    assert(nf == cola[nr]);
    assert(tasks[nf as int].state.ord() == fk);
    assert(tasks[nf as int].state == a.focus_col);
    lemma_refocus_preserves_grouping(a, b, tasks, focus, nf as int);
    if b.focus_list_idx as int != nr {
        if (b.focus_list_idx as int) < nr {
            assert(cola[b.focus_list_idx as int] < cola[nr]);
        } else {
            assert(cola[nr] < cola[b.focus_list_idx as int]);
        }
        assert(false);
    }
}

proof fn lemma_down_chain_rows(
    views: Seq<BoardRenderer>,
    tasks: Seq<Task>,
    focuses: Seq<usize>,
    n: int,
)
    requires
        views.len() == focuses.len(),
        views.len() >= 1,
        forall|i: int|
            0 <= i < views.len() ==> (#[trigger] views[i]).wf_for(tasks, focuses[i] as int),
        forall|i: int| 0 <= i < focuses.len() ==> (#[trigger] focuses[i] as int) < tasks.len(),
        forall|i: int|
            0 <= i < views.len() - 1 ==> (#[trigger] views[i]).nav_down() == Operation::Focus(
                focuses[i + 1],
            ),
        0 <= n < views.len(),
    ensures
        views[n].focus_col == views[0].focus_col,
        forall|k: int|
            0 <= k < 4 ==> col_of((#[trigger] views[n]).tasks_idxs_by_state@, k) == col_of(
                views[0].tasks_idxs_by_state@,
                k,
            ),
        views[n].focus_list_idx as int == rows_after_down(
            views[0].focus_list_idx as int,
            col_of(views[0].tasks_idxs_by_state@, views[0].focus_col.ord()).len() as int,
            n as nat,
        ),
    decreases n,
{
    if n > 0 {
        lemma_down_chain_rows(views, tasks, focuses, n - 1);
        lemma_down_step(views[n - 1], views[n], tasks, focuses[n - 1] as int, focuses[n]);
    }
}

/// Law: wraparound closure of `j` on the board itself.  Take any run of
/// `j` presses from a valid focus, each one accepted and followed by a
/// rebuild, with as many presses as the focused column has rows: the final
/// view focuses the starting task again, in the same column and row.
/// `views[i]` is the view before the `i`-th press and `focuses[i]` its
/// focused task.
pub proof fn lemma_down_cycle(views: Seq<BoardRenderer>, tasks: Seq<Task>, focuses: Seq<usize>)
    requires
        views.len() == focuses.len(),
        views.len() >= 1,
        forall|i: int|
            0 <= i < views.len() ==> (#[trigger] views[i]).wf_for(tasks, focuses[i] as int),
        forall|i: int| 0 <= i < focuses.len() ==> (#[trigger] focuses[i] as int) < tasks.len(),
        forall|i: int|
            0 <= i < views.len() - 1 ==> (#[trigger] views[i]).nav_down() == Operation::Focus(
                focuses[i + 1],
            ),
        views.len() as int == 1 + col_of(
            views[0].tasks_idxs_by_state@,
            views[0].focus_col.ord(),
        ).len(),
    ensures
        focuses.last() == focuses.first(),
        views.last().focus_col == views[0].focus_col,
        views.last().focus_list_idx == views[0].focus_list_idx,
{
    let n = views.len() - 1;
    let fk = views[0].focus_col.ord();
    let cola = col_of(views[0].tasks_idxs_by_state@, fk);
    let row0 = views[0].focus_list_idx as int;
    assert(0 <= row0 < cola.len());
    lemma_down_chain_rows(views, tasks, focuses, n as int);
    lemma_vertical_wraparound(row0, cola.len() as int);
    assert(cola[views.last().focus_list_idx as int] == focuses.last());
    assert(cola[row0] == focuses.first());
}

proof fn lemma_up_chain_rows(
    views: Seq<BoardRenderer>,
    tasks: Seq<Task>,
    focuses: Seq<usize>,
    n: int,
)
    requires
        views.len() == focuses.len(),
        views.len() >= 1,
        forall|i: int|
            0 <= i < views.len() ==> (#[trigger] views[i]).wf_for(tasks, focuses[i] as int),
        forall|i: int| 0 <= i < focuses.len() ==> (#[trigger] focuses[i] as int) < tasks.len(),
        forall|i: int|
            0 <= i < views.len() - 1 ==> (#[trigger] views[i]).nav_up() == Operation::Focus(
                focuses[i + 1],
            ),
        0 <= n < views.len(),
    ensures
        views[n].focus_col == views[0].focus_col,
        forall|k: int|
            0 <= k < 4 ==> col_of((#[trigger] views[n]).tasks_idxs_by_state@, k) == col_of(
                views[0].tasks_idxs_by_state@,
                k,
            ),
        views[n].focus_list_idx as int == rows_after_up(
            views[0].focus_list_idx as int,
            col_of(views[0].tasks_idxs_by_state@, views[0].focus_col.ord()).len() as int,
            n as nat,
        ),
    decreases n,
{
    if n > 0 {
        lemma_up_chain_rows(views, tasks, focuses, n - 1);
        lemma_up_step(views[n - 1], views[n], tasks, focuses[n - 1] as int, focuses[n]);
    }
}

/// Law: wraparound closure of `k` on the board itself.  Take any run of
/// `k` presses from a valid focus, each one accepted and followed by a
/// rebuild, with as many presses as the focused column has rows: the final
/// view focuses the starting task again, in the same column and row.
/// `views[i]` is the view before the `i`-th press and `focuses[i]` its
/// focused task.
pub proof fn lemma_up_cycle(views: Seq<BoardRenderer>, tasks: Seq<Task>, focuses: Seq<usize>)
    requires
        views.len() == focuses.len(),
        views.len() >= 1,
        forall|i: int|
            0 <= i < views.len() ==> (#[trigger] views[i]).wf_for(tasks, focuses[i] as int),
        forall|i: int| 0 <= i < focuses.len() ==> (#[trigger] focuses[i] as int) < tasks.len(),
        forall|i: int|
            0 <= i < views.len() - 1 ==> (#[trigger] views[i]).nav_up() == Operation::Focus(
                focuses[i + 1],
            ),
        views.len() as int == 1 + col_of(
            views[0].tasks_idxs_by_state@,
            views[0].focus_col.ord(),
        ).len(),
    ensures
        focuses.last() == focuses.first(),
        views.last().focus_col == views[0].focus_col,
        views.last().focus_list_idx == views[0].focus_list_idx,
{
    let n = views.len() - 1;
    let fk = views[0].focus_col.ord();
    let cola = col_of(views[0].tasks_idxs_by_state@, fk);
    let row0 = views[0].focus_list_idx as int;
    assert(0 <= row0 < cola.len());
    lemma_up_chain_rows(views, tasks, focuses, n as int);
    lemma_vertical_wraparound(row0, cola.len() as int);
    assert(cola[views.last().focus_list_idx as int] == focuses.last());
    assert(cola[row0] == focuses.first());
}

/// Law: `h` then `l` from a valid focus returns the focus to exactly where
/// it was, provided no mutation other than the accepted refocus happened in
/// between and the carried row is not clamped by a shorter neighbouring
/// column.
pub proof fn lemma_left_then_right_refocus(
    a: BoardRenderer,
    b: BoardRenderer,
    tasks: Seq<Task>,
    focus: usize,
    nf: usize,
)
    requires
        (focus as int) < tasks.len(),
        a.wf_for(tasks, focus as int),
        a.nav_left() == Operation::Focus(nf),
        b.wf_for(tasks, nf as int),
        ({
            let keys = a.present_cols();
            let fk = a.focus_col.ord() as usize;
            let nk = keys[prev_row(keys.index_of(fk), keys.len() as int)];
            (a.focus_list_idx as int) < col_of(a.tasks_idxs_by_state@, nk as int).len()
        }),
    ensures
        b.nav_right() == Operation::Focus(focus),
{
    let cols = a.tasks_idxs_by_state@;
    a.lemma_present_cols();
    let keys = a.present_cols();
    let fk_int = a.focus_col.ord();
    let fk = fk_int as usize;
    assert(col_of(cols, fk_int).len() > 0);
    assert(keys.contains(fk));
    let pos = keys.index_of(fk);
    assert(0 <= pos < keys.len() && keys[pos] == fk);
    let m = keys.len() as int;
    let ppos = prev_row(pos, m);
    assert(0 <= ppos < m);
    let nk = keys[ppos];
    assert(nk < 4 && col_of(cols, nk as int).len() > 0);
    let ncol = col_of(cols, nk as int);
    let row = a.focus_list_idx as int;
    assert(row < ncol.len());
    assert(nf == ncol[row]);
    assert(tasks[nf as int].state.ord() == nk as int);
    lemma_refocus_preserves_grouping(a, b, tasks, focus as int, nf as int);
    assert(col_of(b.tasks_idxs_by_state@, nk as int) == ncol);
    if b.focus_list_idx as int != row {
        if (b.focus_list_idx as int) < row {
            assert(ncol[b.focus_list_idx as int] < ncol[row]);
        } else {
            assert(ncol[row] < ncol[b.focus_list_idx as int]);
        }
        assert(false);
    }
    assert(b.present_cols() == keys);
    assert(b.focus_col.ord() == nk as int);
    assert(b.focus_col.ord() as usize == nk);
    assert(keys.contains(nk));
    let pos2 = keys.index_of(nk);
    assert(0 <= pos2 < keys.len() && keys[pos2] == nk);
    if pos2 != ppos {
        if pos2 < ppos {
            assert(keys[pos2] < keys[ppos]);
        } else {
            assert(keys[ppos] < keys[pos2]);
        }
        assert(false);
    }
    lemma_horizontal_inverse(pos, m);
    assert(next_row(ppos, m) == pos);
    let fcol = col_of(cols, fk_int);
    assert(row < fcol.len());
    assert(fcol[row] == focus);
    assert(b.nav_right() == Operation::Focus(fcol[row]));
}

/// Law: `l` then `h` from a valid focus returns the focus to exactly where
/// it was, provided no mutation other than the accepted refocus happened in
/// between and the carried row is not clamped by a shorter neighbouring
/// column.
pub proof fn lemma_right_then_left_refocus(
    a: BoardRenderer,
    b: BoardRenderer,
    tasks: Seq<Task>,
    focus: usize,
    nf: usize,
)
    requires
        (focus as int) < tasks.len(),
        a.wf_for(tasks, focus as int),
        a.nav_right() == Operation::Focus(nf),
        b.wf_for(tasks, nf as int),
        ({
            let keys = a.present_cols();
            let fk = a.focus_col.ord() as usize;
            let nk = keys[next_row(keys.index_of(fk), keys.len() as int)];
            (a.focus_list_idx as int) < col_of(a.tasks_idxs_by_state@, nk as int).len()
        }),
    ensures
        b.nav_left() == Operation::Focus(focus),
{
    let cols = a.tasks_idxs_by_state@;
    a.lemma_present_cols();
    let keys = a.present_cols();
    let fk_int = a.focus_col.ord();
    let fk = fk_int as usize;
    assert(col_of(cols, fk_int).len() > 0);
    assert(keys.contains(fk));
    let pos = keys.index_of(fk);
    assert(0 <= pos < keys.len() && keys[pos] == fk);
    let m = keys.len() as int;
    let ppos = next_row(pos, m);
    assert(0 <= ppos < m);
    let nk = keys[ppos];
    assert(nk < 4 && col_of(cols, nk as int).len() > 0);
    let ncol = col_of(cols, nk as int);
    let row = a.focus_list_idx as int;
    assert(row < ncol.len());
    assert(nf == ncol[row]);
    assert(tasks[nf as int].state.ord() == nk as int);
    lemma_refocus_preserves_grouping(a, b, tasks, focus as int, nf as int);
    assert(col_of(b.tasks_idxs_by_state@, nk as int) == ncol);
    if b.focus_list_idx as int != row {
        if (b.focus_list_idx as int) < row {
            assert(ncol[b.focus_list_idx as int] < ncol[row]);
        } else {
            assert(ncol[row] < ncol[b.focus_list_idx as int]);
        }
        assert(false);
    }
    assert(b.present_cols() == keys);
    assert(b.focus_col.ord() == nk as int);
    assert(b.focus_col.ord() as usize == nk);
    assert(keys.contains(nk));
    let pos2 = keys.index_of(nk);
    assert(0 <= pos2 < keys.len() && keys[pos2] == nk);
    if pos2 != ppos {
        if pos2 < ppos {
            assert(keys[pos2] < keys[ppos]);
        } else {
            assert(keys[ppos] < keys[pos2]);
        }
        assert(false);
    }
    lemma_horizontal_inverse(pos, m);
    assert(prev_row(ppos, m) == pos);
    let fcol = col_of(cols, fk_int);
    assert(row < fcol.len());
    assert(fcol[row] == focus);
    assert(b.nav_left() == Operation::Focus(fcol[row]));
}

impl Default for BoardRenderer {
    /// An empty cache; `updated` must run before navigation is meaningful.
    fn default() -> (b: Self)
        ensures
            b.tasks_idxs_by_state@.len() == 0,
            b.focus_col == TaskState::Todo,
            b.focus_list_idx == 0,
    {
        BoardRenderer { tasks_idxs_by_state: Vec::new(), focus_col: TaskState::Todo, focus_list_idx: 0 }
    }
}

impl Renderer for BoardRenderer {
    open spec fn inv(&self, tasks: Seq<Task>, focus: int) -> bool {
        self.wf_for(tasks, focus)
    }

    open spec fn pressed_ens(
        &self,
        tasks: Seq<Task>,
        focus: int,
        key: char,
        op: Operation,
    ) -> bool {
        if key == 'j' {
            op == self.nav_down()
        } else if key == 'k' {
            op == self.nav_up()
        } else if key == 'h' {
            op == self.nav_left()
        } else if key == 'l' {
            op == self.nav_right()
        } else {
            op == Operation::NoOp
        }
    }

    /// Rebuilds the grouping by one pass over the tasks, appending each
    /// task's global index to its state's column and recording where the
    /// focused task lands.
    fn updated(&mut self, data: &TaskData, _operation: Operation) {
        let mut cols: Vec<Vec<usize>> = Vec::new();
        cols.push(Vec::new());
        cols.push(Vec::new());
        cols.push(Vec::new());
        cols.push(Vec::new());
        let mut idx: usize = 0;
        while idx < data.tasks.len()
            invariant
                idx <= data.tasks@.len(),
                grouping_wf(cols@, data.tasks@, idx as int),
                focus_cached(
                    cols@,
                    self.focus_col,
                    self.focus_list_idx,
                    data.tasks@,
                    data.focus as int,
                    idx as int,
                ),
            decreases data.tasks@.len() - idx,
        {
            let ghost cols0 = cols@;
            let state = data.tasks[idx].state;
            let k = state.ordinal();
            cols[k].push(idx);
            if data.focus == idx {
                self.focus_col = state;
                self.focus_list_idx = cols[k].len() - 1;
            }
            proof {
                assert(col_of(cols@, k as int) == col_of(cols0, k as int).push(idx));
                assert forall|k2: int| 0 <= k2 < 4 && k2 != k as int implies col_of(cols@, k2)
                    == col_of(cols0, k2) by {}
                assert forall|k2: int, j: int|
                    0 <= k2 < 4 && 0 <= j < col_of(cols@, k2).len() implies (#[trigger] col_of(
                    cols@,
                    k2,
                )[j]) < idx + 1 && 0 <= col_of(cols@, k2)[j] < data.tasks@.len() && data.tasks@[
                    col_of(cols@, k2)[j] as int
                ].state.ord() == k2 by {
                    if k2 == k as int && j == col_of(cols0, k2).len() {
                        assert(col_of(cols@, k2)[j] == idx);
                    } else {
                        assert(col_of(cols@, k2)[j] == col_of(cols0, k2)[j]);
                    }
                }
                assert forall|k2: int, j1: int, j2: int|
                    0 <= k2 < 4 && 0 <= j1 < j2 < col_of(cols@, k2).len() implies (
                #[trigger] col_of(cols@, k2)[j1]) < (#[trigger] col_of(cols@, k2)[j2]) by {
                    if k2 == k as int && j2 == col_of(cols0, k2).len() {
                        assert(col_of(cols0, k2)[j1] < idx);
                    } else {
                        assert(col_of(cols@, k2)[j1] == col_of(cols0, k2)[j1]);
                        assert(col_of(cols@, k2)[j2] == col_of(cols0, k2)[j2]);
                    }
                }
                assert forall|i: int|
                    0 <= i < idx + 1 implies col_contains(
                    cols@,
                    data.tasks@[i].state.ord(),
                    i,
                ) by {
                    let ki = data.tasks@[i].state.ord();
                    if i < idx {
                        let j = choose|j: int|
                            0 <= j < col_of(cols0, ki).len() && col_of(cols0, ki)[j] == i;
                        assert(col_of(cols@, ki)[j] == i);
                    } else {
                        assert(col_of(cols@, k as int)[col_of(cols0, k as int).len() as int]
                            == idx);
                    }
                }
            }
            idx += 1;
        }
        self.tasks_idxs_by_state = cols;
    }

    fn pressed_j(&self, _data: &TaskData) -> (op: Operation) {
        let k = self.focus_col.ordinal();
        let col = &self.tasks_idxs_by_state[k];
        if col.len() == 0 {
            Operation::NoOp
        } else if self.focus_list_idx >= col.len() - 1 {
            Operation::Focus(col[0])
        } else {
            Operation::Focus(col[self.focus_list_idx + 1])
        }
    }

    fn pressed_k(&self, _data: &TaskData) -> (op: Operation) {
        let k = self.focus_col.ordinal();
        let col = &self.tasks_idxs_by_state[k];
        proof {
            let cseq = col_of(self.tasks_idxs_by_state@, self.focus_col.ord());
            if cseq.len() > 0 {
                assert(cseq[0] < _data.tasks@.len());
                assert((self.focus_list_idx as int) < cseq.len());
            }
        }
        if col.len() == 0 {
            Operation::NoOp
        } else if self.focus_list_idx == 0 {
            Operation::Focus(col[col.len() - 1])
        } else {
            Operation::Focus(col[self.focus_list_idx - 1])
        }
    }

    fn pressed_h(&self, _data: &TaskData) -> (op: Operation) {
        proof {
            self.lemma_present_cols();
        }
        let ghost pcols = self.present_cols();
        let mut keys: Vec<usize> = Vec::new();
        if self.tasks_idxs_by_state[0].len() > 0 {
            keys.push(0);
        }
        if self.tasks_idxs_by_state[1].len() > 0 {
            keys.push(1);
        }
        if self.tasks_idxs_by_state[2].len() > 0 {
            keys.push(2);
        }
        if self.tasks_idxs_by_state[3].len() > 0 {
            keys.push(3);
        }
        proof {
            assert(keys@ =~= pcols);
        }
        let fk = self.focus_col.ordinal();
        let mut pos: usize = 0;
        let mut found: bool = false;
        let mut i: usize = 0;
        while i < keys.len()
            invariant
                i <= keys@.len(),
                keys@ == pcols,
                fk as int == self.focus_col.ord(),
                found <==> exists|j: int| 0 <= j < i && keys@[j] == fk,
                found ==> pos < i && keys@[pos as int] == fk,
            decreases keys@.len() - i,
        {
            if keys[i] == fk {
                pos = i;
                found = true;
            }
            i += 1;
        }
        if !found {
            return Operation::NoOp;
        }
        proof {
            self.lemma_present_cols();
            let ci = pcols.index_of(fk);
            assert(pcols.contains(fk));
            assert(0 <= ci < pcols.len() && pcols[ci] == fk);
            assert(ci == pos as int);
        }
        let m = keys.len();
        let npos = if pos == 0 {
            m - 1
        } else {
            pos - 1
        };
        let nk = keys[npos];
        let ncol = &self.tasks_idxs_by_state[nk];
        let row = if self.focus_list_idx < ncol.len() {
            self.focus_list_idx
        } else {
            ncol.len() - 1
        };
        Operation::Focus(ncol[row])
    }

    fn pressed_l(&self, _data: &TaskData) -> (op: Operation) {
        proof {
            self.lemma_present_cols();
        }
        let ghost pcols = self.present_cols();
        let mut keys: Vec<usize> = Vec::new();
        if self.tasks_idxs_by_state[0].len() > 0 {
            keys.push(0);
        }
        if self.tasks_idxs_by_state[1].len() > 0 {
            keys.push(1);
        }
        if self.tasks_idxs_by_state[2].len() > 0 {
            keys.push(2);
        }
        if self.tasks_idxs_by_state[3].len() > 0 {
            keys.push(3);
        }
        proof {
            assert(keys@ =~= pcols);
        }
        let fk = self.focus_col.ordinal();
        let mut pos: usize = 0;
        let mut found: bool = false;
        let mut i: usize = 0;
        while i < keys.len()
            invariant
                i <= keys@.len(),
                keys@ == pcols,
                fk as int == self.focus_col.ord(),
                found <==> exists|j: int| 0 <= j < i && keys@[j] == fk,
                found ==> pos < i && keys@[pos as int] == fk,
            decreases keys@.len() - i,
        {
            if keys[i] == fk {
                pos = i;
                found = true;
            }
            i += 1;
        }
        if !found {
            return Operation::NoOp;
        }
        proof {
            self.lemma_present_cols();
            let ci = pcols.index_of(fk);
            assert(pcols.contains(fk));
            assert(0 <= ci < pcols.len() && pcols[ci] == fk);
            assert(ci == pos as int);
        }
        let m = keys.len();
        let npos = if pos >= m - 1 {
            0
        } else {
            pos + 1
        };
        let nk = keys[npos];
        let ncol = &self.tasks_idxs_by_state[nk];
        let row = if self.focus_list_idx < ncol.len() {
            self.focus_list_idx
        } else {
            ncol.len() - 1
        };
        Operation::Focus(ncol[row])
    }

    #[allow(non_snake_case)]
    fn pressed_H(&self, _data: &TaskData) -> (op: Operation) {
        Operation::NoOp
    }

    #[allow(non_snake_case)]
    fn pressed_J(&self, _data: &TaskData) -> (op: Operation) {
        Operation::NoOp
    }

    #[allow(non_snake_case)]
    fn pressed_K(&self, _data: &TaskData) -> (op: Operation) {
        Operation::NoOp
    }

    #[allow(non_snake_case)]
    fn pressed_L(&self, _data: &TaskData) -> (op: Operation) {
        Operation::NoOp
    }
}

} // verus!
