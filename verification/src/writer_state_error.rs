//! State failures: the event classes each writer state is prepared to accept.

use vstd::prelude::*;
use crate::write_event::WriteEvent;

verus! {

/// Which state the writer was in when it received an event it could not
/// accept; each variant names the event class that was expected.
#[derive(Clone, Copy, PartialEq, Eq, Structural, Debug)]
pub enum WriteStateErrorType {
    /// The writer has been initialized.
    /// Waiting for: StreamStart.
    Start,
    /// The writer has finished.
    /// Expecting no more events.
    End,
    /// In the middle of a list of documents.
    /// Waiting for: DocumentStart, StreamEnd.
    DocumentList,
    /// Waiting for the end of the document.
    /// Waiting for: DocumentEnd.
    DocumentEnd,
    /// Waiting for a document's value.
    /// Waiting for: SequenceStart, MappingStart, Scalar.
    Document,
    /// In the middle of a sequence.
    /// Expecting: SequenceStart, MappingStart, Scalar, SequenceEnd.
    Sequence,
    /// In the middle of a map.
    /// Waiting for: SequenceStart, MappingStart, Scalar, MappingEnd.
    Mapping,
    /// In the middle of a map entry.  Waiting for the entry's value.
    /// Waiting for: SequenceStart, MappingStart, Scalar.
    MappingEntryValue,
    /// An error already occurred.  Cannot continue.
    ExistingError,
}

/// A state failure: the state's expected event class and the offending event.
#[derive(Clone, PartialEq, Eq, Debug)]
pub struct WriterStateError {
    pub state_type: WriteStateErrorType,
    pub event: WriteEvent,
}

impl WriterStateError {
    pub fn new(state_type: WriteStateErrorType, event: WriteEvent) -> (r: WriterStateError)
        ensures
            r == (WriterStateError { state_type, event }),
    {
        WriterStateError { state_type, event }
    }
}

} // verus!
