use crate::operation::Operation;
use vstd::prelude::*;

verus! {

/// Records inverse operations for a future undo facility.
///
/// Only the recording contract is provided: every accepted `Move` or `Swap`
/// appends one inverse operation here.  How the records would be traversed to
/// roll mutations back is deliberately left open.
pub struct UndoTree {
    pub operations: Vec<Operation>,
}

impl View for UndoTree {
    type V = Seq<Operation>;

    open spec fn view(&self) -> Seq<Operation> {
        self.operations@
    }
}

impl UndoTree {
    /// An empty record.
    pub fn new() -> (t: Self)
        ensures
            t@ == Seq::<Operation>::empty(),
    {
        UndoTree { operations: Vec::new() }
    }

    /// Appends one recorded operation.
    pub fn add_operation(&mut self, operation: Operation)
        ensures
            final(self)@ == old(self)@.push(operation),
    {
        self.operations.push(operation);
    }
}

} // verus!
