//! The emission stack automaton: one frame per nesting level or pending
//! decision, each knowing which events it accepts and what text they emit.
//!
//! The behaviour of every transition is stated over [`ModelState`], the
//! mathematical shadow of a writer: `frame_step` says what one legal event
//! does to the state, `frame_err` which events are illegal, and `model_step`
//! composes them with the pop-and-clear discipline of the writer itself.

use vstd::prelude::*;
use crate::chars::contains_char;
use crate::chars::push_str_chars;
use crate::chars::str_contains_char;
use crate::quoting::char_forces_quote;
use crate::quoting::escaped_text;
use crate::quoting::indent_text;
use crate::quoting::is_valid_literal_block_scalar;
use crate::quoting::literal_block_text;
use crate::quoting::need_quotes;
use crate::quoting::need_quotes_text;
use crate::quoting::push_escaped;
use crate::quoting::push_literal_block;
use crate::quoting::valid_literal_block;
use crate::scalar::canonical_scalar_text;
use crate::scalar::ScalarModel;
use crate::scalar::ScalarValue;
use crate::strnum::push_i64_dec;
use crate::write_error::WriteError;
use crate::write_event::WriteEvent;
use crate::writer::WriteResult;
use crate::writer::YamlWriter;
use crate::writer_state_error::WriteStateErrorType;
use crate::writer_state_error::WriterStateError;

verus! {

/// Waiting for the stream to open.
#[derive(Clone, Copy)]
pub struct StartFrame {}

/// The stream has closed; nothing more is accepted.
#[derive(Clone, Copy)]
pub struct EndFrame {}

/// Between documents; `first` until a document has been written.
#[derive(Clone, Copy)]
pub struct DocsFrame {
    pub first: bool,
}

/// Waiting for a document's root node.
#[derive(Clone, Copy)]
pub struct DocFrame {}

/// Waiting for the close of a non-empty document.
#[derive(Clone, Copy)]
pub struct DocEndFrame {}

/// Inside a sequence; `first` until an item has been written.
#[derive(Clone, Copy)]
pub struct SequenceFrame {
    pub first: bool,
}

/// Inside a mapping, at a key slot; `first` until an entry has been written.
#[derive(Clone, Copy)]
pub struct MappingFrame {
    pub first: bool,
}

/// Inside a mapping, at the value slot of one entry.
#[derive(Clone, Copy)]
pub struct MappingItemValueFrame {
    pub complex_key: bool,
}

/// A sequence arriving at a value slot, its placement not yet decided.
#[derive(Clone, Copy)]
pub struct ValSequenceFrame {
    pub inline: bool,
}

/// A mapping arriving at a value slot, its placement not yet decided.
#[derive(Clone, Copy)]
pub struct ValMappingFrame {
    pub inline: bool,
}

/// One pending continuation of the writer.
#[derive(Clone, Copy)]
pub enum StackFrame {
    Start(StartFrame),
    End(EndFrame),
    Docs(DocsFrame),
    Doc(DocFrame),
    DocEnd(DocEndFrame),
    Sequence(SequenceFrame),
    Mapping(MappingFrame),
    MappingItemValue(MappingItemValueFrame),
    ValSequence(ValSequenceFrame),
    ValMapping(ValMappingFrame),
}

/// The abstract state of a writer: the text emitted so far, the pending
/// frames, the indentation level, and the configuration.
#[verifier::ext_equal]
pub struct ModelState {
    pub out: Seq<char>,
    pub stack: Seq<StackFrame>,
    pub level: int,
    pub width: nat,
    pub compact: bool,
    pub multiline: bool,
    pub omit_first: bool,
}

impl ModelState {
    /// The state with `t` appended to the output.
    pub open spec fn app(self, t: Seq<char>) -> ModelState {
        ModelState { out: self.out + t, ..self }
    }

    /// The state with one more pending frame.
    pub open spec fn pushed(self, f: StackFrame) -> ModelState {
        ModelState { stack: self.stack.push(f), ..self }
    }

    /// The state one indentation level deeper.
    pub open spec fn inc_level(self) -> ModelState {
        ModelState { level: self.level + 1, ..self }
    }

    /// The state one indentation level shallower.
    pub open spec fn dec_level(self) -> ModelState {
        ModelState { level: self.level - 1, ..self }
    }
}

/// The events that open or carry a node.
pub open spec fn is_node_event(ev: WriteEvent) -> bool {
    ev is SequenceStart || ev is MappingStart || ev is Scalar
}

/// Which events each frame refuses, and with which expected-event class.
pub open spec fn frame_err(f: StackFrame, ev: WriteEvent) -> Option<WriteStateErrorType> {
    match f {
        StackFrame::Start(_) => if ev is StreamStart {
            None
        } else {
            Some(WriteStateErrorType::Start)
        },
        StackFrame::End(_) => Some(WriteStateErrorType::End),
        StackFrame::Docs(_) => if ev is DocumentStart || ev is StreamEnd {
            None
        } else {
            Some(WriteStateErrorType::DocumentList)
        },
        StackFrame::Doc(_) => if is_node_event(ev) || ev is DocumentEnd {
            None
        } else {
            Some(WriteStateErrorType::Document)
        },
        StackFrame::DocEnd(_) => if ev is DocumentEnd {
            None
        } else {
            Some(WriteStateErrorType::DocumentEnd)
        },
        StackFrame::Sequence(_) => if is_node_event(ev) || ev is SequenceEnd {
            None
        } else {
            Some(WriteStateErrorType::Sequence)
        },
        StackFrame::Mapping(_) => if is_node_event(ev) || ev is MappingEnd {
            None
        } else {
            Some(WriteStateErrorType::Mapping)
        },
        StackFrame::MappingItemValue(_) => if is_node_event(ev) {
            None
        } else {
            Some(WriteStateErrorType::MappingEntryValue)
        },
        StackFrame::ValSequence(_) => if is_node_event(ev) || ev is SequenceEnd {
            None
        } else {
            Some(WriteStateErrorType::Sequence)
        },
        StackFrame::ValMapping(_) => if is_node_event(ev) || ev is MappingEnd {
            None
        } else {
            Some(WriteStateErrorType::Mapping)
        },
    }
}

/// The text a string scalar renders to: a literal block when eligible and
/// enabled, else double-quoted when the quoting policy demands it, else bare.
pub open spec fn string_scalar_text(s: Seq<char>, multiline: bool, level: int, width: nat) -> Seq<
    char,
> {
    if multiline && contains_char(s, '\n') && valid_literal_block(s) {
        literal_block_text(s, level, width)
    } else if need_quotes_text(s) {
        escaped_text(s)
    } else {
        s
    }
}

/// The text any scalar renders to at the given position.
pub open spec fn scalar_text(m: ScalarModel, multiline: bool, level: int, width: nat) -> Seq<
    char,
> {
    match m {
        ScalarModel::String(s) => string_scalar_text(s, multiline, level, width),
        _ => canonical_scalar_text(m),
    }
}

pub open spec fn nl() -> Seq<char> {
    seq!['\n']
}

/// A node event arriving at a document or key slot: collections push a
/// fresh frame, a scalar is rendered in place.
pub open spec fn node_step(m: ModelState, ev: WriteEvent) -> ModelState {
    match ev {
        WriteEvent::SequenceStart => m.pushed(StackFrame::Sequence(SequenceFrame { first: true })),
        WriteEvent::MappingStart => m.pushed(StackFrame::Mapping(MappingFrame { first: true })),
        WriteEvent::Scalar(v) => m.app(scalar_text(v@, m.multiline, m.level, m.width)),
        _ => m,
    }
}

/// A node event arriving at a value slot: collections keep the inline hint,
/// a scalar is preceded by one space.
pub open spec fn val_step(m: ModelState, ev: WriteEvent, inline: bool) -> ModelState {
    match ev {
        WriteEvent::SequenceStart => m.pushed(
            StackFrame::ValSequence(ValSequenceFrame { inline }),
        ),
        WriteEvent::MappingStart => m.pushed(StackFrame::ValMapping(ValMappingFrame { inline })),
        WriteEvent::Scalar(v) => m.app(seq![' '] + scalar_text(v@, m.multiline, m.level, m.width)),
        _ => m,
    }
}

/// One sequence transition: an item is introduced by `-` (on a fresh line
/// past the first), the close of an empty sequence writes `[]`, the close of
/// a populated one steps back out.
pub open spec fn sequence_step(m: ModelState, first: bool, ev: WriteEvent) -> ModelState {
    if ev is SequenceEnd {
        if first {
            m.app(seq!['[', ']'])
        } else {
            m.dec_level()
        }
    } else {
        let m1 = if first {
            m.inc_level()
        } else {
            m.app(nl() + indent_text(m.level, m.width))
        };
        let m2 = m1.app(seq!['-']).pushed(StackFrame::Sequence(SequenceFrame { first: false }));
        val_step(m2, ev, true)
    }
}

/// One mapping transition at a key slot: a complex key is announced by `?`,
/// the close of an empty mapping writes `{}`.
pub open spec fn mapping_step(m: ModelState, first: bool, ev: WriteEvent) -> ModelState {
    if ev is MappingEnd {
        if first {
            m.app(seq!['{', '}'])
        } else {
            m.dec_level()
        }
    } else {
        let m1 = if first {
            m.inc_level()
        } else {
            m.app(nl() + indent_text(m.level, m.width))
        };
        let complex = ev is SequenceStart || ev is MappingStart;
        let m2 = m1.pushed(
            StackFrame::MappingItemValue(MappingItemValueFrame { complex_key: complex }),
        );
        if complex {
            val_step(m2.app(seq!['?']), ev, true)
        } else {
            node_step(m2, ev)
        }
    }
}

/// The value slot of a mapping entry: `: ` and the value, on its own line
/// after a complex key.
pub open spec fn mapping_value_step(m: ModelState, complex_key: bool, ev: WriteEvent) -> ModelState {
    let m1 = if complex_key {
        m.app(nl() + indent_text(m.level, m.width))
    } else {
        m
    };
    let m2 = m1.app(seq![':']).pushed(StackFrame::Mapping(MappingFrame { first: false }));
    val_step(m2, ev, complex_key)
}

/// A sequence at a value slot decides its placement once its first event
/// arrives: on the same line when inline and compact (or empty), else on a
/// fresh line one level deeper.
pub open spec fn val_sequence_step(m: ModelState, inline: bool, ev: WriteEvent) -> ModelState {
    let is_empty = ev is SequenceEnd;
    let m1 = if (inline && m.compact) || is_empty {
        m.app(seq![' '])
    } else {
        m.app(nl() + indent_text(m.level + 1, m.width))
    };
    sequence_step(m1, true, ev)
}

/// A mapping at a value slot, placed like a sequence at a value slot.
pub open spec fn val_mapping_step(m: ModelState, inline: bool, ev: WriteEvent) -> ModelState {
    let is_empty = ev is MappingEnd;
    let m1 = if (inline && m.compact) || is_empty {
        m.app(seq![' '])
    } else {
        m.app(nl() + indent_text(m.level + 1, m.width))
    };
    mapping_step(m1, true, ev)
}

/// Between documents: a separator line before every document but an omitted
/// first one, or the terminal frame at stream end.
pub open spec fn docs_step(m: ModelState, first: bool, ev: WriteEvent) -> ModelState {
    if ev is StreamEnd {
        m.pushed(StackFrame::End(EndFrame {}))
    } else {
        let sep = (if !first {
            nl()
        } else {
            Seq::<char>::empty()
        }) + (if !first || !m.omit_first {
            seq!['-', '-', '-'] + nl()
        } else {
            Seq::<char>::empty()
        });
        m.app(sep).pushed(StackFrame::Docs(DocsFrame { first: false })).pushed(
            StackFrame::Doc(DocFrame {}),
        )
    }
}

/// A document's root: a node begins the document body, a bare document end
/// writes nothing.
pub open spec fn doc_step(m: ModelState, ev: WriteEvent) -> ModelState {
    if ev is DocumentEnd {
        m
    } else {
        node_step(m.pushed(StackFrame::DocEnd(DocEndFrame {})), ev)
    }
}

/// What one legal event does to the state, given the frame that was popped.
pub open spec fn frame_step(m: ModelState, f: StackFrame, ev: WriteEvent) -> ModelState {
    match f {
        StackFrame::Start(_) => m.pushed(StackFrame::Docs(DocsFrame { first: true })),
        StackFrame::End(_) => m,
        StackFrame::Docs(fr) => docs_step(m, fr.first, ev),
        StackFrame::Doc(_) => doc_step(m, ev),
        StackFrame::DocEnd(_) => m,
        StackFrame::Sequence(fr) => sequence_step(m, fr.first, ev),
        StackFrame::Mapping(fr) => mapping_step(m, fr.first, ev),
        StackFrame::MappingItemValue(fr) => mapping_value_step(m, fr.complex_key, ev),
        StackFrame::ValSequence(fr) => val_sequence_step(m, fr.inline, ev),
        StackFrame::ValMapping(fr) => val_mapping_step(m, fr.inline, ev),
    }
}

/// How much a pending frame contributes to the open nesting depth.
pub open spec fn frame_weight(f: StackFrame) -> int {
    match f {
        StackFrame::Sequence(fr) => if fr.first {
            0
        } else {
            1
        },
        StackFrame::Mapping(fr) => if fr.first {
            0
        } else {
            1
        },
        StackFrame::MappingItemValue(_) => 1,
        _ => 0,
    }
}

pub open spec fn stack_weight(s: Seq<StackFrame>) -> int
    decreases s.len(),
{
    if s.len() == 0 {
        0
    } else {
        stack_weight(s.drop_last()) + frame_weight(s.last())
    }
}

/// The structural accounting a live writer maintains: the indentation level
/// is one less than the number of open, already-populated nesting frames.
pub open spec fn level_ok(m: ModelState) -> bool {
    m.level == stack_weight(m.stack) - 1
}

/// What a frame's `run` may assume: the accounting above, with the popped
/// frame still counted.
pub open spec fn run_pre(m: ModelState, f: StackFrame) -> bool {
    m.level == stack_weight(m.stack) + frame_weight(f) - 1
}

/// What a frame's `run` guarantees: a legal event performs exactly one
/// `frame_step` and keeps the accounting; an illegal one changes nothing and
/// reports the expected-event class together with the offending event.
pub open spec fn run_post(
    pre: ModelState,
    post: ModelState,
    f: StackFrame,
    event: WriteEvent,
    r: WriteResult,
) -> bool {
    match frame_err(f, event) {
        None => r is Ok && post == frame_step(pre, f, event) && level_ok(post),
        Some(t) => r == Err::<(), WriteError>(
            WriteError::StateError(WriterStateError { state_type: t, event }),
        ) && post == pre,
    }
}

pub proof fn lemma_stack_weight_push(s: Seq<StackFrame>, f: StackFrame)
    ensures
        stack_weight(s.push(f)) == stack_weight(s) + frame_weight(f),
{
    assert(s.push(f).drop_last() =~= s);
    assert(s.push(f).last() == f);
}

pub proof fn lemma_stack_weight_bounds(s: Seq<StackFrame>)
    ensures
        0 <= stack_weight(s) <= s.len(),
    decreases s.len(),
{
    if s.len() > 0 {
        lemma_stack_weight_bounds(s.drop_last());
    }
}

/// What one event does to a writer: the top frame is popped and run; with no
/// frame left the writer is failed or finished and nothing changes; an
/// illegal event clears the stack for good.
pub open spec fn model_step(m: ModelState, ev: WriteEvent) -> ModelState {
    if m.stack.len() == 0 {
        m
    } else {
        let f = m.stack.last();
        let m1 = ModelState { stack: m.stack.drop_last(), ..m };
        match frame_err(f, ev) {
            None => frame_step(m1, f, ev),
            Some(_) => ModelState { stack: Seq::<StackFrame>::empty(), ..m1 },
        }
    }
}

/// The state-failure class one event draws, if any.
pub open spec fn model_step_err(m: ModelState, ev: WriteEvent) -> Option<WriteStateErrorType> {
    if m.stack.len() == 0 {
        Some(WriteStateErrorType::ExistingError)
    } else {
        frame_err(m.stack.last(), ev)
    }
}

/// Renders one scalar at the writer's current position.
pub(crate) fn run_scalar(parent: &mut YamlWriter, scalar_value: ScalarValue)
    ensures
        final(parent)@ == old(parent)@.app(
            scalar_text(
                scalar_value@,
                old(parent)@.multiline,
                old(parent)@.level,
                old(parent)@.width,
            ),
        ),
{
    match scalar_value {
        ScalarValue::String(v) => {
            if parent.multiline_strings && str_contains_char(v.as_str(), '\n')
                && is_valid_literal_block_scalar(v.as_str()) {
                push_literal_block(&mut parent.out, v.as_str(), parent.level, parent.ident_size);
            } else if need_quotes(v.as_str()) {
                push_escaped(&mut parent.out, v.as_str());
            } else {
                push_str_chars(&mut parent.out, v.as_str());
            }
        },
        ScalarValue::Boolean(v) => {
            if v {
                parent.out.push('t');
                parent.out.push('r');
                parent.out.push('u');
                parent.out.push('e');
            } else {
                parent.out.push('f');
                parent.out.push('a');
                parent.out.push('l');
                parent.out.push('s');
                parent.out.push('e');
            }
        },
        ScalarValue::Integer(v) => {
            push_i64_dec(&mut parent.out, v);
        },
        ScalarValue::Real(v) => {
            push_str_chars(&mut parent.out, v.as_str());
        },
        ScalarValue::Null => {
            parent.out.push('~');
        },
        ScalarValue::BadValue => {
            parent.out.push('~');
        },
    }
    proof {
        assert(parent@ =~= old(parent)@.app(
            scalar_text(
                scalar_value@,
                old(parent)@.multiline,
                old(parent)@.level,
                old(parent)@.width,
            ),
        ));
    }
}

/// Dispatches a node event at a document or key slot.
pub(crate) fn run_node(parent: &mut YamlWriter, event: WriteEvent)
    requires
        is_node_event(event),
    ensures
        final(parent)@ == node_step(old(parent)@, event),
{
    match event {
        WriteEvent::SequenceStart => {
            parent.stack.push(StackFrame::Sequence(SequenceFrame::new(true)));
            proof {
                assert(parent@ =~= node_step(old(parent)@, event));
            }
        },
        WriteEvent::MappingStart => {
            parent.stack.push(StackFrame::Mapping(MappingFrame::new(true)));
            proof {
                assert(parent@ =~= node_step(old(parent)@, event));
            }
        },
        WriteEvent::Scalar(scalar_value) => {
            run_scalar(parent, scalar_value);
        },
        _ => {
        },
    }
}

/// Dispatches a node event at a value slot.
pub(crate) fn run_val(parent: &mut YamlWriter, event: WriteEvent, inline: bool)
    requires
        is_node_event(event),
    ensures
        final(parent)@ == val_step(old(parent)@, event, inline),
{
    match event {
        WriteEvent::SequenceStart => {
            parent.stack.push(StackFrame::ValSequence(ValSequenceFrame::new(inline)));
            proof {
                assert(parent@ =~= val_step(old(parent)@, event, inline));
            }
        },
        WriteEvent::MappingStart => {
            parent.stack.push(StackFrame::ValMapping(ValMappingFrame::new(inline)));
            proof {
                assert(parent@ =~= val_step(old(parent)@, event, inline));
            }
        },
        WriteEvent::Scalar(scalar_value) => {
            parent.out.push(' ');
            run_scalar(parent, scalar_value);
            proof {
                assert(parent@ =~= val_step(old(parent)@, event, inline));
            }
        },
        _ => {
        },
    }
}

/// The transition of one frame kind.  `frame` names the frame in the model;
/// `run` performs one legal event as a `frame_step` (keeping the level
/// accounting) or reports the expected-event class, changing nothing.
pub trait StackFrameRun: Sized {
    spec fn frame(&self) -> StackFrame;

    fn run(&self, parent: &mut YamlWriter, event: WriteEvent) -> (r: WriteResult)
        requires
            run_pre(old(parent)@, self.frame()),
        ensures
            run_post(old(parent)@, final(parent)@, self.frame(), event, r),
    ;
}

impl StartFrame {
    pub fn new() -> (r: StartFrame)
        ensures
            r == (StartFrame {  }),
    {
        StartFrame {  }
    }
}

impl StackFrameRun for StartFrame {
    open spec fn frame(&self) -> StackFrame {
        StackFrame::Start(*self)
    }

    fn run(&self, parent: &mut YamlWriter, event: WriteEvent) -> (r: WriteResult) {
        match event {
            WriteEvent::StreamStart => {
                parent.stack.push(StackFrame::Docs(DocsFrame::new(true)));
                proof {
                    assert(parent@ =~= frame_step(old(parent)@, StackFrame::Start(*self), event));
                    lemma_stack_weight_push(old(parent)@.stack, StackFrame::Docs(DocsFrame { first: true }));
                }
                Ok(())
            },
            _ => Err(WriteError::new_state_error(WriteStateErrorType::Start, event)),
        }
    }
}

impl EndFrame {
    pub fn new() -> (r: EndFrame)
        ensures
            r == (EndFrame {  }),
    {
        EndFrame {  }
    }
}

impl StackFrameRun for EndFrame {
    open spec fn frame(&self) -> StackFrame {
        StackFrame::End(*self)
    }

    fn run(&self, parent: &mut YamlWriter, event: WriteEvent) -> (r: WriteResult) {
        Err(WriteError::new_state_error(WriteStateErrorType::End, event))
    }
}

impl DocsFrame {
    pub fn new(first: bool) -> (r: DocsFrame)
        ensures
            r == (DocsFrame { first }),
    {
        DocsFrame { first }
    }
}

impl StackFrameRun for DocsFrame {
    open spec fn frame(&self) -> StackFrame {
        StackFrame::Docs(*self)
    }

    fn run(&self, parent: &mut YamlWriter, event: WriteEvent) -> (r: WriteResult) {
        match event {
            WriteEvent::DocumentStart => {
                if !self.first {
                    parent.out.push('\n');
                }
                if !self.first || !parent.omit_first_doc_separator {
                    parent.out.push('-');
                    parent.out.push('-');
                    parent.out.push('-');
                    parent.out.push('\n');
                }
                parent.stack.push(StackFrame::Docs(DocsFrame::new(false)));
                parent.stack.push(StackFrame::Doc(DocFrame::new()));
                proof {
                    assert(parent@ =~= frame_step(old(parent)@, StackFrame::Docs(*self), event));
                    lemma_stack_weight_push(old(parent)@.stack, StackFrame::Docs(DocsFrame { first: false }));
                    lemma_stack_weight_push(
                        old(parent)@.stack.push(StackFrame::Docs(DocsFrame { first: false })),
                        StackFrame::Doc(DocFrame {  }),
                    );
                }
                Ok(())
            },
            WriteEvent::StreamEnd => {
                parent.stack.push(StackFrame::End(EndFrame::new()));
                proof {
                    assert(parent@ =~= frame_step(old(parent)@, StackFrame::Docs(*self), event));
                    lemma_stack_weight_push(old(parent)@.stack, StackFrame::End(EndFrame {  }));
                }
                Ok(())
            },
            _ => Err(WriteError::new_state_error(WriteStateErrorType::DocumentList, event)),
        }
    }
}

impl DocFrame {
    pub fn new() -> (r: DocFrame)
        ensures
            r == (DocFrame {  }),
    {
        DocFrame {  }
    }
}

impl StackFrameRun for DocFrame {
    open spec fn frame(&self) -> StackFrame {
        StackFrame::Doc(*self)
    }

    fn run(&self, parent: &mut YamlWriter, event: WriteEvent) -> (r: WriteResult) {
        match event {
            WriteEvent::SequenceStart | WriteEvent::MappingStart | WriteEvent::Scalar(_) => {
                parent.stack.push(StackFrame::DocEnd(DocEndFrame::new()));
                run_node(parent, event);
                proof {
                    assert(parent@ =~= frame_step(old(parent)@, StackFrame::Doc(*self), event));
                    lemma_stack_weight_push(old(parent)@.stack, StackFrame::DocEnd(DocEndFrame {  }));
                    if event is SequenceStart {
                        lemma_stack_weight_push(
                            old(parent)@.stack.push(StackFrame::DocEnd(DocEndFrame {  })),
                            StackFrame::Sequence(SequenceFrame { first: true }),
                        );
                    }
                    if event is MappingStart {
                        lemma_stack_weight_push(
                            old(parent)@.stack.push(StackFrame::DocEnd(DocEndFrame {  })),
                            StackFrame::Mapping(MappingFrame { first: true }),
                        );
                    }
                }
                Ok(())
            },
            WriteEvent::DocumentEnd => Ok(()),
            _ => Err(WriteError::new_state_error(WriteStateErrorType::Document, event)),
        }
    }
}

impl DocEndFrame {
    pub fn new() -> (r: DocEndFrame)
        ensures
            r == (DocEndFrame {  }),
    {
        DocEndFrame {  }
    }
}

impl StackFrameRun for DocEndFrame {
    open spec fn frame(&self) -> StackFrame {
        StackFrame::DocEnd(*self)
    }

    fn run(&self, parent: &mut YamlWriter, event: WriteEvent) -> (r: WriteResult) {
        match event {
            WriteEvent::DocumentEnd => Ok(()),
            _ => Err(WriteError::new_state_error(WriteStateErrorType::DocumentEnd, event)),
        }
    }
}

impl SequenceFrame {
    pub fn new(first: bool) -> (r: SequenceFrame)
        ensures
            r == (SequenceFrame { first }),
    {
        SequenceFrame { first }
    }
}

impl StackFrameRun for SequenceFrame {
    open spec fn frame(&self) -> StackFrame {
        StackFrame::Sequence(*self)
    }

    fn run(&self, parent: &mut YamlWriter, event: WriteEvent) -> (r: WriteResult) {
        match event {
            WriteEvent::SequenceStart | WriteEvent::MappingStart | WriteEvent::Scalar(_) => {
                proof {
                    lemma_stack_weight_bounds(old(parent)@.stack);
                }
                let stack_len: usize = parent.stack.len();
                proof {
                    assert(old(parent)@.stack.len() == stack_len as int);
                }
                if self.first {
                    parent.level = parent.level + 1;
                } else {
                    parent.out.push('\n');
                    parent.write_indent();
                }
                parent.out.push('-');
                parent.stack.push(StackFrame::Sequence(SequenceFrame::new(false)));
                let ghost mid: ModelState = parent@;
                run_val(parent, event, true);
                proof {
                    assert(parent@ =~= frame_step(old(parent)@, StackFrame::Sequence(*self), event));
                    lemma_stack_weight_push(
                        old(parent)@.stack,
                        StackFrame::Sequence(SequenceFrame { first: false }),
                    );
                    if event is SequenceStart {
                        lemma_stack_weight_push(
                            mid.stack,
                            StackFrame::ValSequence(ValSequenceFrame { inline: true }),
                        );
                    }
                    if event is MappingStart {
                        lemma_stack_weight_push(
                            mid.stack,
                            StackFrame::ValMapping(ValMappingFrame { inline: true }),
                        );
                    }
                }
                Ok(())
            },
            WriteEvent::SequenceEnd => {
                if self.first {
                    parent.out.push('[');
                    parent.out.push(']');
                } else {
                    proof {
                        lemma_stack_weight_bounds(old(parent)@.stack);
                    }
                    parent.level = parent.level - 1;
                }
                proof {
                    assert(parent@ =~= frame_step(old(parent)@, StackFrame::Sequence(*self), event));
                }
                Ok(())
            },
            _ => Err(WriteError::new_state_error(WriteStateErrorType::Sequence, event)),
        }
    }
}

impl MappingFrame {
    pub fn new(first: bool) -> (r: MappingFrame)
        ensures
            r == (MappingFrame { first }),
    {
        MappingFrame { first }
    }
}

impl StackFrameRun for MappingFrame {
    open spec fn frame(&self) -> StackFrame {
        StackFrame::Mapping(*self)
    }

    fn run(&self, parent: &mut YamlWriter, event: WriteEvent) -> (r: WriteResult) {
        match event {
            WriteEvent::SequenceStart | WriteEvent::MappingStart | WriteEvent::Scalar(_) => {
                proof {
                    lemma_stack_weight_bounds(old(parent)@.stack);
                }
                let stack_len: usize = parent.stack.len();
                proof {
                    assert(old(parent)@.stack.len() == stack_len as int);
                }
                if self.first {
                    parent.level = parent.level + 1;
                } else {
                    parent.out.push('\n');
                    parent.write_indent();
                }
                let complex_key = matches!(event, WriteEvent::SequenceStart | WriteEvent::MappingStart);
                parent.stack.push(
                    StackFrame::MappingItemValue(MappingItemValueFrame::new(complex_key)),
                );
                let ghost mid: ModelState = parent@;
                if complex_key {
                    parent.out.push('?');
                    run_val(parent, event, true);
                } else {
                    run_node(parent, event);
                }
                proof {
                    assert(parent@ =~= frame_step(old(parent)@, StackFrame::Mapping(*self), event));
                    lemma_stack_weight_push(
                        old(parent)@.stack,
                        StackFrame::MappingItemValue(MappingItemValueFrame { complex_key }),
                    );
                    if event is SequenceStart {
                        lemma_stack_weight_push(
                            mid.stack,
                            StackFrame::ValSequence(ValSequenceFrame { inline: true }),
                        );
                    }
                    if event is MappingStart {
                        lemma_stack_weight_push(
                            mid.stack,
                            StackFrame::ValMapping(ValMappingFrame { inline: true }),
                        );
                    }
                }
                Ok(())
            },
            WriteEvent::MappingEnd => {
                if self.first {
                    parent.out.push('{');
                    parent.out.push('}');
                } else {
                    proof {
                        lemma_stack_weight_bounds(old(parent)@.stack);
                    }
                    parent.level = parent.level - 1;
                }
                proof {
                    assert(parent@ =~= frame_step(old(parent)@, StackFrame::Mapping(*self), event));
                }
                Ok(())
            },
            _ => Err(WriteError::new_state_error(WriteStateErrorType::Mapping, event)),
        }
    }
}

impl MappingItemValueFrame {
    pub fn new(complex_key: bool) -> (r: MappingItemValueFrame)
        ensures
            r == (MappingItemValueFrame { complex_key }),
    {
        MappingItemValueFrame { complex_key }
    }
}

impl StackFrameRun for MappingItemValueFrame {
    open spec fn frame(&self) -> StackFrame {
        StackFrame::MappingItemValue(*self)
    }

    fn run(&self, parent: &mut YamlWriter, event: WriteEvent) -> (r: WriteResult) {
        match event {
            WriteEvent::SequenceStart | WriteEvent::MappingStart | WriteEvent::Scalar(_) => {
                if self.complex_key {
                    parent.out.push('\n');
                    parent.write_indent();
                }
                parent.out.push(':');
                parent.stack.push(StackFrame::Mapping(MappingFrame::new(false)));
                let ghost mid: ModelState = parent@;
                run_val(parent, event, self.complex_key);
                proof {
                    assert(parent@ =~= frame_step(
                        old(parent)@,
                        StackFrame::MappingItemValue(*self),
                        event,
                    ));
                    lemma_stack_weight_push(
                        old(parent)@.stack,
                        StackFrame::Mapping(MappingFrame { first: false }),
                    );
                    if event is SequenceStart {
                        lemma_stack_weight_push(
                            mid.stack,
                            StackFrame::ValSequence(ValSequenceFrame { inline: self.complex_key }),
                        );
                    }
                    if event is MappingStart {
                        lemma_stack_weight_push(
                            mid.stack,
                            StackFrame::ValMapping(ValMappingFrame { inline: self.complex_key }),
                        );
                    }
                }
                Ok(())
            },
            _ => Err(WriteError::new_state_error(WriteStateErrorType::MappingEntryValue, event)),
        }
    }
}

impl ValSequenceFrame {
    pub fn new(inline: bool) -> (r: ValSequenceFrame)
        ensures
            r == (ValSequenceFrame { inline }),
    {
        ValSequenceFrame { inline }
    }
}

impl StackFrameRun for ValSequenceFrame {
    open spec fn frame(&self) -> StackFrame {
        StackFrame::ValSequence(*self)
    }

    fn run(&self, parent: &mut YamlWriter, event: WriteEvent) -> (r: WriteResult) {
        let is_empty = match event {
            WriteEvent::SequenceStart | WriteEvent::MappingStart | WriteEvent::Scalar(_) => false,
            WriteEvent::SequenceEnd => true,
            _ => {
                return Err(WriteError::new_state_error(WriteStateErrorType::Sequence, event));
            },
        };
        if (self.inline && parent.compact) || is_empty {
            parent.out.push(' ');
        } else {
            parent.out.push('\n');
            parent.write_indent_deeper();
        }
        let inner = SequenceFrame::new(true);
        let result = inner.run(parent, event);
        proof {
            assert(parent@ =~= frame_step(old(parent)@, StackFrame::ValSequence(*self), event));
        }
        result
    }
}

impl ValMappingFrame {
    pub fn new(inline: bool) -> (r: ValMappingFrame)
        ensures
            r == (ValMappingFrame { inline }),
    {
        ValMappingFrame { inline }
    }
}

impl StackFrameRun for ValMappingFrame {
    open spec fn frame(&self) -> StackFrame {
        StackFrame::ValMapping(*self)
    }

    fn run(&self, parent: &mut YamlWriter, event: WriteEvent) -> (r: WriteResult) {
        let is_empty = match event {
            WriteEvent::SequenceStart | WriteEvent::MappingStart | WriteEvent::Scalar(_) => false,
            WriteEvent::MappingEnd => true,
            _ => {
                return Err(WriteError::new_state_error(WriteStateErrorType::Mapping, event));
            },
        };
        if (self.inline && parent.compact) || is_empty {
            parent.out.push(' ');
        } else {
            parent.out.push('\n');
            parent.write_indent_deeper();
        }
        let inner = MappingFrame::new(true);
        let result = inner.run(parent, event);
        proof {
            assert(parent@ =~= frame_step(old(parent)@, StackFrame::ValMapping(*self), event));
        }
        result
    }
}

/// An empty collection collapses to its inline marker: closing a sequence
/// before any item appends exactly `[]`, and a mapping `{}`, whatever the
/// state, its depth and its compact setting; at a value slot one separating
/// space precedes the marker.
pub proof fn lemma_empty_collections_inline(m: ModelState, inline: bool)
    ensures
        frame_step(m, StackFrame::Sequence(SequenceFrame { first: true }), WriteEvent::SequenceEnd)
            == m.app(seq!['[', ']']),
        frame_step(m, StackFrame::Mapping(MappingFrame { first: true }), WriteEvent::MappingEnd)
            == m.app(seq!['{', '}']),
        frame_step(
            m,
            StackFrame::ValSequence(ValSequenceFrame { inline }),
            WriteEvent::SequenceEnd,
        ) == m.app(seq![' ', '[', ']']),
        frame_step(m, StackFrame::ValMapping(ValMappingFrame { inline }), WriteEvent::MappingEnd)
            == m.app(seq![' ', '{', '}']),
{
    assert(frame_step(
        m,
        StackFrame::ValSequence(ValSequenceFrame { inline }),
        WriteEvent::SequenceEnd,
    ) =~= m.app(seq![' ', '[', ']']));
    assert(frame_step(m, StackFrame::ValMapping(ValMappingFrame { inline }), WriteEvent::MappingEnd)
        =~= m.app(seq![' ', '{', '}']));
}

/// Opening and at once closing a collection at a document slot emits exactly
/// the inline marker and returns the writer to the level it was at.
pub proof fn lemma_empty_collapse_in_document(m: ModelState)
    requires
        m.stack.len() > 0,
        m.stack.last() is Doc,
    ensures
        ({
            let m2 = model_step(model_step(m, WriteEvent::SequenceStart), WriteEvent::SequenceEnd);
            m2.out == m.out + seq!['[', ']'] && m2.level == m.level
        }),
        ({
            let m2 = model_step(model_step(m, WriteEvent::MappingStart), WriteEvent::MappingEnd);
            m2.out == m.out + seq!['{', '}'] && m2.level == m.level
        }),
{
    let m1 = model_step(m, WriteEvent::SequenceStart);
    assert(m1.stack.last() == StackFrame::Sequence(SequenceFrame { first: true }));
    let n1 = model_step(m, WriteEvent::MappingStart);
    assert(n1.stack.last() == StackFrame::Mapping(MappingFrame { first: true }));
}

/// The separator between documents: every document after the first is
/// preceded by a fresh line and a `---` line; the very first document gets
/// the marker exactly when the configuration does not omit it.
pub proof fn lemma_document_separator(m: ModelState, first: bool)
    ensures
        frame_step(m, StackFrame::Docs(DocsFrame { first }), WriteEvent::DocumentStart).out
            == m.out + (if !first {
            seq!['\n', '-', '-', '-', '\n']
        } else if !m.omit_first {
            seq!['-', '-', '-', '\n']
        } else {
            Seq::<char>::empty()
        }),
{
    if !first {
        assert(nl() + (seq!['-', '-', '-'] + nl()) =~= seq!['\n', '-', '-', '-', '\n']);
    } else if !m.omit_first {
        assert(Seq::<char>::empty() + (seq!['-', '-', '-'] + nl()) =~= seq!['-', '-', '-', '\n']);
    } else {
        assert(Seq::<char>::empty() + Seq::<char>::empty() =~= Seq::<char>::empty());
    }
}

/// A string that begins or ends with a space is never written bare.
pub proof fn lemma_space_edges_force_quoting(s: Seq<char>)
    requires
        s.len() > 0,
        s[0] == ' ' || s.last() == ' ',
    ensures
        need_quotes_text(s),
{
}

/// A string the quoting policy flags renders double-quoted whenever it does
/// not take the literal-block path; without an embedded newline that path is
/// closed, so the quoted form is certain.
pub proof fn lemma_forced_quoting(s: Seq<char>, multiline: bool, level: int, width: nat)
    requires
        need_quotes_text(s),
        !contains_char(s, '\n'),
    ensures
        string_scalar_text(s, multiline, level, width) == escaped_text(s),
{
}

/// A string the quoting policy does not flag is emitted verbatim.
pub proof fn lemma_bare_strings_unchanged(s: Seq<char>, multiline: bool, level: int, width: nat)
    requires
        !need_quotes_text(s),
    ensures
        string_scalar_text(s, multiline, level, width) == s,
{
    if contains_char(s, '\n') {
        let i = choose|i: int| 0 <= i < s.len() && s[i] == '\n';
        assert(char_forces_quote(s[i]));
        assert(need_quotes_text(s));
    }
}

/// The multiline switch decides the rendering of a block-eligible string
/// with an embedded newline: literal block style when on, double-quoted when
/// off (the newline itself forces quoting).
pub proof fn lemma_multiline_switch(s: Seq<char>, level: int, width: nat)
    requires
        contains_char(s, '\n'),
        valid_literal_block(s),
    ensures
        string_scalar_text(s, true, level, width) == literal_block_text(s, level, width),
        string_scalar_text(s, false, level, width) == escaped_text(s),
{
    let i = choose|i: int| 0 <= i < s.len() && s[i] == '\n';
    assert(char_forces_quote(s[i]));
    assert(need_quotes_text(s));
}

/// Failure is permanent: an illegal event empties the stack, and a writer
/// with an empty stack refuses every further event with the existing-error
/// failure, changing nothing.
pub proof fn lemma_failure_is_permanent(m: ModelState, ev: WriteEvent, later: WriteEvent)
    requires
        model_step_err(m, ev) is Some,
    ensures
        model_step(m, ev).stack.len() == 0,
        model_step_err(model_step(m, ev), later) == Some(WriteStateErrorType::ExistingError),
        model_step(model_step(m, ev), later) == model_step(m, ev),
{
}

impl StackFrame {
    /// Runs the popped frame against one event.
    pub fn run(self, parent: &mut YamlWriter, event: WriteEvent) -> (r: WriteResult)
        requires
            run_pre(old(parent)@, self),
        ensures
            run_post(old(parent)@, final(parent)@, self, event, r),
    {
        match self {
            StackFrame::Start(frame) => frame.run(parent, event),
            StackFrame::End(frame) => frame.run(parent, event),
            StackFrame::Docs(frame) => frame.run(parent, event),
            StackFrame::Doc(frame) => frame.run(parent, event),
            StackFrame::DocEnd(frame) => frame.run(parent, event),
            StackFrame::Sequence(frame) => frame.run(parent, event),
            StackFrame::Mapping(frame) => frame.run(parent, event),
            StackFrame::MappingItemValue(frame) => frame.run(parent, event),
            StackFrame::ValSequence(frame) => frame.run(parent, event),
            StackFrame::ValMapping(frame) => frame.run(parent, event),
        }
    }
}

} // verus!
