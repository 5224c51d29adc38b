//! The structural events that drive the writer.

use vstd::prelude::*;
use crate::scalar::ScalarValue;

verus! {

/// Contains information for the next node to write to the YAML document.
#[derive(Clone, PartialEq, Eq, Debug)]
pub enum WriteEvent {
    /// Reserved for internal use.
    Nothing,
    /// Event generated at the very beginning of parsing.
    StreamStart,
    /// Last event that will be generated by the parser.  Signals the end of
    /// the stream.
    StreamEnd,
    /// The YAML start document directive (`---`).
    DocumentStart,
    /// The YAML end document directive (`...`).
    DocumentEnd,
    /// The start of a YAML sequence (array).
    SequenceStart,
    /// The end of a YAML sequence (array).
    SequenceEnd,
    /// The start of a YAML mapping (object, hash).
    MappingStart,
    /// The end of a YAML mapping (object, hash).
    MappingEnd,
    /// A value.
    Scalar(ScalarValue),
}

} // verus!
