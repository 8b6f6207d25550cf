use crate::task_state::TaskState;
use vstd::prelude::*;

verus! {

/// A single task on the board: plain data, no behaviour.
///
/// The `state` field decides which board column the task is shown in; the
/// task's position among its peers is given by its index in the owning
/// collection.
#[derive(Clone, Debug)]
pub struct Task {
    pub title: String,
    pub description: String,
    pub state: TaskState,
}

} // verus!
