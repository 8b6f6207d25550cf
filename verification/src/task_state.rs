use vstd::prelude::*;

verus! {

/// Lifecycle state of a task.
///
/// The states carry a total order, used as the left-to-right order of the
/// board columns: `Todo < InProgress < Completed < Outdated`.
#[derive(Clone, Copy, Debug, PartialEq, Eq, Hash, Structural)]
pub enum TaskState {
    Todo,
    InProgress,
    Completed,
    Outdated,
}

impl TaskState {
    /// Position of this state in the total order; also the index of its
    /// board column.
    pub open spec fn ord(self) -> int {
        match self {
            TaskState::Todo => 0,
            TaskState::InProgress => 1,
            TaskState::Completed => 2,
            TaskState::Outdated => 3,
        }
    }

    /// Executable counterpart of [`TaskState::ord`].
    pub fn ordinal(&self) -> (i: usize)
        ensures
            i as int == self.ord(),
            i < 4,
    {
        match self {
            TaskState::Todo => 0,
            TaskState::InProgress => 1,
            TaskState::Completed => 2,
            TaskState::Outdated => 3,
        }
    }
}

impl Default for TaskState {
    /// A fresh task starts in `Todo`.
    fn default() -> (s: Self)
        ensures
            s == TaskState::Todo,
    {
        TaskState::Todo
    }
}

} // verus!
