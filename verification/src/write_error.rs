//! The error type surfaced by the writer.

use vstd::prelude::*;
use crate::writer_state_error::WriteStateErrorType;
use crate::writer_state_error::WriterStateError;
use crate::write_event::WriteEvent;

verus! {

/// An error when writing YAML.
#[derive(Clone, PartialEq, Eq, Debug)]
pub enum WriteError {
    /// A formatting failure: the output sink rejected a write.  The in-memory
    /// buffer this writer owns never raises it; the variant stands for sinks
    /// that can.
    FmtError,
    /// The writer was in the wrong state for the event provided.
    StateError(WriterStateError),
}

impl WriteError {
    pub fn new_state_error(state_type: WriteStateErrorType, event: WriteEvent) -> (r: WriteError)
        ensures
            r == WriteError::StateError(WriterStateError { state_type, event }),
    {
        WriteError::StateError(WriterStateError { state_type, event })
    }
}

} // verus!
