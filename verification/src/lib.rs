//! A streaming YAML emitter: structural events in, document text out.
//!
//! The writer is driven one event at a time (stream/document boundaries,
//! sequence and mapping delimiters, scalar values) and appends the block-style
//! rendering of those events to an output buffer.  Illegal event sequences are
//! rejected with a state error and leave the writer permanently failed.

pub mod chars;
pub mod strnum;
pub mod quoting;
pub mod scalar;
pub mod write_event;
pub mod writer_state_error;
pub mod write_error;
pub mod write_stack;
pub mod writer;

pub use scalar::ScalarValue;
pub use scalar::TScalarStyle;
pub use scalar::Tag;
pub use write_event::WriteEvent;
pub use write_error::WriteError;
pub use writer::YamlWriter;
pub use writer_state_error::WriteStateErrorType;
pub use writer_state_error::WriterStateError;
