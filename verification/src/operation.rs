use vstd::prelude::*;

verus! {

/// An intent to mutate or refocus the task collection.
///
/// Operations are pure data: the board view constructs them from key presses
/// and the manager alone interprets them.  `Invalid` signals a request that
/// cannot be fulfilled and always fails the apply step; `NoOp` is an explicit
/// no-op and always succeeds without mutating anything.
#[derive(Clone, Copy, Debug, PartialEq, Eq, Structural)]
pub enum Operation {
    Invalid,

    NoOp,
    Move { from: usize, to: usize },
    Swap(usize, usize),
    Focus(usize),
}

/// Why the manager rejected an operation.
#[derive(Clone, Copy, Debug, PartialEq, Eq, Structural)]
pub enum OperationError {
    /// The operation is structurally nonsensical (`Operation::Invalid`).
    InvalidOperation,
    /// An index named by the operation exceeds the current task count.
    IndexOutOfBounds,
}

} // verus!
