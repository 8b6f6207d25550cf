use crate::operation::Operation;
use crate::task::Task;
use crate::task_manager::TaskData;
use vstd::prelude::*;

verus! {

/// The board-navigation contract consumed by the manager.
///
/// A renderer derives whatever layout cache it needs from the task collection
/// when notified via [`Renderer::updated`], and translates key presses into
/// [`Operation`] values using only that cache — it never mutates the
/// collection itself.  Drawing the layout on a concrete surface is left to
/// the embedding application, which reads the cache through the concrete
/// type's accessors.
///
/// Each implementation publishes its own meaning for the two spec members:
/// `inv` is the consistency of its cache with the data it was last notified
/// of, and `pressed_ens` pins down which operation each key produces.
pub trait Renderer: Sized {
    /// The renderer's cache is consistent with a collection holding `tasks`
    /// and focused on `focus`.
    spec fn inv(&self, tasks: Seq<Task>, focus: int) -> bool;

    /// What the operation produced for `key` looks like, given the data the
    /// cache was built from.
    spec fn pressed_ens(&self, tasks: Seq<Task>, focus: int, key: char, op: Operation) -> bool;

    /// Notification that `data` changed by `operation` (or that the loop is
    /// starting, with `Operation::NoOp`): rebuilds the cache.
    fn updated(&mut self, data: &TaskData, operation: Operation)
        ensures
            final(self).inv(data.tasks@, data.focus as int),
    ;

    /// Move the focus down within its column.
    fn pressed_j(&self, data: &TaskData) -> (op: Operation)
        requires
            data.wf(),
            self.inv(data.tasks@, data.focus as int),
        ensures
            self.pressed_ens(data.tasks@, data.focus as int, 'j', op),
    ;

    /// Move the focus up within its column.
    fn pressed_k(&self, data: &TaskData) -> (op: Operation)
        requires
            data.wf(),
            self.inv(data.tasks@, data.focus as int),
        ensures
            self.pressed_ens(data.tasks@, data.focus as int, 'k', op),
    ;

    /// Move the focus one column to the left.
    fn pressed_h(&self, data: &TaskData) -> (op: Operation)
        requires
            data.wf(),
            self.inv(data.tasks@, data.focus as int),
        ensures
            self.pressed_ens(data.tasks@, data.focus as int, 'h', op),
    ;

    /// Move the focus one column to the right.
    fn pressed_l(&self, data: &TaskData) -> (op: Operation)
        requires
            data.wf(),
            self.inv(data.tasks@, data.focus as int),
        ensures
            self.pressed_ens(data.tasks@, data.focus as int, 'l', op),
    ;

    /// Reserved for moving the focused task one column to the left.
    #[allow(non_snake_case)]
    fn pressed_H(&self, data: &TaskData) -> (op: Operation)
        requires
            data.wf(),
            self.inv(data.tasks@, data.focus as int),
        ensures
            self.pressed_ens(data.tasks@, data.focus as int, 'H', op),
    ;

    /// Reserved for moving the focused task down within its column.
    #[allow(non_snake_case)]
    fn pressed_J(&self, data: &TaskData) -> (op: Operation)
        requires
            data.wf(),
            self.inv(data.tasks@, data.focus as int),
        ensures
            self.pressed_ens(data.tasks@, data.focus as int, 'J', op),
    ;

    /// Reserved for moving the focused task up within its column.
    #[allow(non_snake_case)]
    fn pressed_K(&self, data: &TaskData) -> (op: Operation)
        requires
            data.wf(),
            self.inv(data.tasks@, data.focus as int),
        ensures
            self.pressed_ens(data.tasks@, data.focus as int, 'K', op),
    ;

    /// Reserved for moving the focused task one column to the right.
    #[allow(non_snake_case)]
    fn pressed_L(&self, data: &TaskData) -> (op: Operation)
        requires
            data.wf(),
            self.inv(data.tasks@, data.focus as int),
        ensures
            self.pressed_ens(data.tasks@, data.focus as int, 'L', op),
    ;
}

} // verus!
