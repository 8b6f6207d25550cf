use crate::operation::Operation;
use crate::operation::OperationError;
use crate::renderer::Renderer;
use crate::task::Task;
use crate::undo_tree::UndoTree;
use crate::writer::Writer;
use vstd::prelude::*;

verus! {

/// The single source of truth: the ordered task collection plus the focused
/// index.
///
/// Whenever `tasks` is non-empty, `focus` is a valid index into it (see
/// [`TaskData::wf`]); an empty collection enforces nothing about `focus`.
pub struct TaskData {
    pub tasks: Vec<Task>,
    pub focus: usize,
}

impl TaskData {
    /// The collection invariant: the focus points at an existing task
    /// whenever there is one.
    pub open spec fn wf(&self) -> bool {
        self.tasks@.len() > 0 ==> (self.focus as int) < self.tasks@.len()
    }
}

impl Default for TaskData {
    /// An empty board with the focus at the origin.
    fn default() -> (d: Self)
        ensures
            d.tasks@ == Seq::<Task>::empty(),
            d.focus == 0,
    {
        TaskData { tasks: Vec::new(), focus: 0 }
    }
}

/// Where a moved task is reinserted after its removal: removing the task at
/// `from` shifts everything after `from` left by one, so a target beyond
/// `from` is adjusted down by one.
pub open spec fn moved_to(from: int, to: int) -> int {
    if from > to {
        to
    } else {
        to - 1
    }
}

/// The task sequence after `Move { from, to }` is accepted: the task at
/// `from` is removed and reinserted at the adjusted target.
pub open spec fn move_applied(s: Seq<Task>, from: int, to: int) -> Seq<Task> {
    s.remove(from).insert(moved_to(from, to), s[from])
}

/// The task sequence after `Swap(x, y)` is accepted: the two positions are
/// exchanged in place.
pub open spec fn swap_applied(s: Seq<Task>, x: int, y: int) -> Seq<Task> {
    s.update(x, s[y]).update(y, s[x])
}

/// Law: a forward move followed by the inverse move the manager records for
/// it restores the original order exactly.
///
/// The recorded inverse of an accepted `Move { from, to }` is
/// `Move { from: moved_to(from, to), to: from }`.  For a forward move
/// (`from < to`) applying that inverse restores the original sequence; when
/// the adjusted target coincides with `from` the move itself already changed
/// nothing and the recorded inverse is a no-op.
pub proof fn lemma_move_inverse_round_trip(s: Seq<Task>, from: int, to: int)
    requires
        0 <= from < to < s.len(),
    ensures
        moved_to(from, to) == from ==> move_applied(s, from, to) == s,
        moved_to(from, to) != from ==> move_applied(
            move_applied(s, from, to),
            moved_to(from, to),
            from,
        ) == s,
{
    let t = s[from];
    let m = move_applied(s, from, to);
    if moved_to(from, to) == from {
        assert(m =~= s);
    } else {
        assert(m.len() == s.len());
        assert(m[to - 1] == t);
        assert(m.remove(to - 1) =~= s.remove(from));
        assert(move_applied(m, to - 1, from) =~= s);
    }
}

/// Law: swapping two in-bounds positions twice is the identity permutation.
pub proof fn lemma_swap_twice_identity(s: Seq<Task>, x: int, y: int)
    requires
        0 <= x < s.len(),
        0 <= y < s.len(),
    ensures
        swap_applied(swap_applied(s, x, y), x, y) == s,
{
    assert(swap_applied(swap_applied(s, x, y), x, y) =~= s);
}

/// The keys the manager forwards to the view's navigation and reorder
/// producers.
pub open spec fn is_nav_key(c: char) -> bool {
    c == 'h' || c == 'j' || c == 'k' || c == 'l' || c == 'H' || c == 'J' || c == 'K' || c == 'L'
}

/// Owns the task collection and the board view; validates and applies
/// operations and notifies the view after every accepted mutation.
pub struct TaskManager<R: Renderer, W: Writer> {
    pub data: TaskData,

    pub renderer: R,
    pub writer: W,

    pub undo_tree_move: UndoTree,
    pub undo_tree_op: UndoTree,

    pub quit: bool,
}

/// Builds a manager around `data` and notifies the view once, so its
/// grouping cache exists before the first key press or render.
pub fn create_task_manager<R: Renderer, W: Writer>(data: TaskData, renderer: R, writer: W) -> (m:
    TaskManager<R, W>)
    requires
        data.wf(),
    ensures
        m.wf(),
        m.data == data,
        m.undo_tree_move@ == Seq::<Operation>::empty(),
        m.undo_tree_op@ == Seq::<Operation>::empty(),
        !m.quit,
{
    let mut m = TaskManager {
        data,
        renderer,
        writer,
        undo_tree_move: UndoTree::new(),
        undo_tree_op: UndoTree::new(),
        quit: false,
    };
    m.renderer.updated(&m.data, Operation::NoOp);
    m
}

impl<R: Renderer, W: Writer> TaskManager<R, W> {
    /// The manager's invariant: the focus is valid and the view's cache is
    /// consistent with the collection.
    pub open spec fn wf(&self) -> bool {
        &&& self.data.wf()
        &&& self.renderer.inv(self.data.tasks@, self.data.focus as int)
    }

    /// Everything [`TaskManager::perform_operation`] promises, case by case.
    ///
    /// Rejected or no-op operations leave the whole manager untouched; an
    /// accepted operation mutates exactly what it names, records its inverse
    /// where one is defined, and leaves the quit flag alone.  Nothing is
    /// promised about the writer after an accepted mutation, since a writer
    /// carries no contract.
    pub open spec fn perform_ens(
        pre: Self,
        post: Self,
        operation: Operation,
        r: Result<bool, OperationError>,
    ) -> bool {
        match operation {
            Operation::NoOp => r == Ok::<bool, OperationError>(false) && post == pre,
            Operation::Invalid => r == Err::<bool, OperationError>(
                OperationError::InvalidOperation,
            ) && post == pre,
            Operation::Move { from, to } => {
                if from == to {
                    r == Ok::<bool, OperationError>(false) && post == pre
                } else if from as int >= pre.data.tasks@.len() || to as int
                    >= pre.data.tasks@.len() {
                    r == Err::<bool, OperationError>(OperationError::IndexOutOfBounds) && post
                        == pre
                } else {
                    &&& r == Ok::<bool, OperationError>(true)
                    &&& post.data.tasks@ == move_applied(pre.data.tasks@, from as int, to as int)
                    &&& post.data.focus == pre.data.focus
                    &&& post.undo_tree_move@ == pre.undo_tree_move@.push(
                        Operation::Move {
                            from: moved_to(from as int, to as int) as usize,
                            to: from,
                        },
                    )
                    &&& post.undo_tree_op == pre.undo_tree_op
                    &&& post.quit == pre.quit
                }
            },
            Operation::Swap(x, y) => {
                if x == y {
                    r == Ok::<bool, OperationError>(false) && post == pre
                } else if x as int >= pre.data.tasks@.len() || y as int >= pre.data.tasks@.len() {
                    r == Err::<bool, OperationError>(OperationError::IndexOutOfBounds) && post
                        == pre
                } else {
                    &&& r == Ok::<bool, OperationError>(true)
                    &&& post.data.tasks@ == swap_applied(pre.data.tasks@, x as int, y as int)
                    &&& post.data.focus == pre.data.focus
                    &&& post.undo_tree_move@ == pre.undo_tree_move@.push(Operation::Swap(x, y))
                    &&& post.undo_tree_op == pre.undo_tree_op
                    &&& post.quit == pre.quit
                }
            },
            Operation::Focus(idx) => {
                if idx == pre.data.focus {
                    r == Ok::<bool, OperationError>(false) && post == pre
                } else if idx as int >= pre.data.tasks@.len() {
                    r == Err::<bool, OperationError>(OperationError::IndexOutOfBounds) && post
                        == pre
                } else {
                    &&& r == Ok::<bool, OperationError>(true)
                    &&& post.data.tasks@ == pre.data.tasks@
                    &&& post.data.focus == idx
                    &&& post.undo_tree_move == pre.undo_tree_move
                    &&& post.undo_tree_op == pre.undo_tree_op
                    &&& post.quit == pre.quit
                }
            },
        }
    }

    /// Validates `operation` against the collection and applies it.
    ///
    /// Returns whether a mutation occurred.  Validation happens entirely
    /// before any mutation: a rejected operation leaves the collection
    /// byte-for-byte unchanged.  On an accepted mutation the view is
    /// notified with the applied operation and the writer is handed it to
    /// persist.
    pub fn perform_operation(&mut self, operation: Operation) -> (r: Result<bool, OperationError>)
        requires
            old(self).wf(),
        ensures
            final(self).wf(),
            Self::perform_ens(*old(self), *final(self), operation, r),
    {
        match operation {
            Operation::NoOp => Ok(false),
            Operation::Invalid => Err(OperationError::InvalidOperation),
            Operation::Move { from, to } => {
                if from == to {
                    return Ok(false);
                }
                if from >= self.data.tasks.len() {
                    return Err(OperationError::IndexOutOfBounds);
                }
                if to >= self.data.tasks.len() {
                    return Err(OperationError::IndexOutOfBounds);
                }
                let task = self.data.tasks.remove(from);
                let move_to = if from > to {
                    to
                } else {
                    to - 1
                };
                self.data.tasks.insert(move_to, task);
                self.undo_tree_move.add_operation(Operation::Move { from: move_to, to: from });
                self.renderer.updated(&self.data, operation);
                self.writer.write(operation);
                Ok(true)
            },
            Operation::Swap(x, y) => {
                if x == y {
                    return Ok(false);
                }
                if x >= self.data.tasks.len() {
                    return Err(OperationError::IndexOutOfBounds);
                }
                if y >= self.data.tasks.len() {
                    return Err(OperationError::IndexOutOfBounds);
                }
                let lo = if x < y {
                    x
                } else {
                    y
                };
                let hi = if x < y {
                    y
                } else {
                    x
                };
                let hi_task = self.data.tasks.remove(hi);
                let lo_task = self.data.tasks.remove(lo);
                self.data.tasks.insert(lo, hi_task);
                self.data.tasks.insert(hi, lo_task);
                proof {
                    assert(self.data.tasks@ =~= swap_applied(
                        old(self).data.tasks@,
                        x as int,
                        y as int,
                    ));
                }
                self.undo_tree_move.add_operation(Operation::Swap(x, y));
                self.renderer.updated(&self.data, operation);
                self.writer.write(operation);
                Ok(true)
            },
            Operation::Focus(idx) => {
                if idx == self.data.focus {
                    return Ok(false);
                }
                if idx >= self.data.tasks.len() {
                    return Err(OperationError::IndexOutOfBounds);
                }
                self.data.focus = idx;
                self.renderer.updated(&self.data, operation);
                self.writer.write(operation);
                Ok(true)
            },
        }
    }

    /// Forwards one key press: the eight directional keys go to the view's
    /// producers, `q` raises the quit flag, and any other key is a no-op.
    /// The produced operation is validated and applied; a rejected one is
    /// reported to the caller and the loop is expected to continue.
    pub fn handle_char_event(&mut self, c: char) -> (r: Result<bool, OperationError>)
        requires
            old(self).wf(),
        ensures
            final(self).wf(),
            final(self).quit == (old(self).quit || c == 'q'),
            c == 'q' ==> r == Ok::<bool, OperationError>(false)
                && final(self).data == old(self).data
                && final(self).renderer == old(self).renderer
                && final(self).writer == old(self).writer
                && final(self).undo_tree_move == old(self).undo_tree_move
                && final(self).undo_tree_op == old(self).undo_tree_op,
            !is_nav_key(c) && c != 'q' ==> r == Ok::<bool, OperationError>(false) && *final(self)
                == *old(self),
            is_nav_key(c) ==> exists|op: Operation|
                #[trigger] old(self).renderer.pressed_ens(
                    old(self).data.tasks@,
                    old(self).data.focus as int,
                    c,
                    op,
                ) && Self::perform_ens(*old(self), *final(self), op, r),
    {
        let operation = match c {
            'h' => self.renderer.pressed_h(&self.data),
            'j' => self.renderer.pressed_j(&self.data),
            'k' => self.renderer.pressed_k(&self.data),
            'l' => self.renderer.pressed_l(&self.data),
            'H' => self.renderer.pressed_H(&self.data),
            'J' => self.renderer.pressed_J(&self.data),
            'K' => self.renderer.pressed_K(&self.data),
            'L' => self.renderer.pressed_L(&self.data),
            'q' => {
                self.quit = true;
                Operation::NoOp
            },
            _ => Operation::NoOp,
        };
        self.perform_operation(operation)
    }
}

} // verus!
