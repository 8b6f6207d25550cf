use crate::operation::Operation;
use vstd::prelude::*;

verus! {

/// Persistence sink: accepts a description of an applied operation and
/// persists it, or does nothing.  Failures of a real sink are its own
/// concern; the manager never depends on what a writer does.
pub trait Writer: Sized {
    fn write(&mut self, operation: Operation);
}

/// The no-op persistence sink.
pub struct EmptyWriter {}

impl Writer for EmptyWriter {
    fn write(&mut self, _operation: Operation) {
    }
}

} // verus!
