//! The writer facade: owns the output buffer, the configuration, the
//! indentation level and the frame stack, and feeds one event at a time to
//! the stack automaton.

use vstd::prelude::*;
use crate::chars::chars_to_string;
use crate::quoting::indent_text;
use crate::quoting::push_indent;
use crate::quoting::push_indent_deeper;
use crate::write_error::WriteError;
use crate::scalar::ScalarValue;
use crate::write_event::WriteEvent;
use crate::write_stack::frame_step;
use crate::write_stack::scalar_text;
use crate::write_stack::DocEndFrame;
use crate::write_stack::DocFrame;
use crate::write_stack::DocsFrame;
use crate::write_stack::EndFrame;
use crate::write_stack::level_ok;
use crate::write_stack::model_step;
use crate::write_stack::model_step_err;
use crate::write_stack::run_pre;
use crate::write_stack::stack_weight;
use crate::write_stack::ModelState;
use crate::write_stack::StackFrame;
use crate::write_stack::StartFrame;
use crate::writer_state_error::WriteStateErrorType;
use crate::writer_state_error::WriterStateError;

verus! {

/// A convenience alias for writer operations that may fail without
/// returning a value.
pub type WriteResult = Result<(), WriteError>;

/// A YAML writer.  It accumulates the document text in an owned buffer;
/// [`YamlWriter::output`] hands the text out.
pub struct YamlWriter {
    /// The emitted text.  A wide level type keeps the depth arithmetic total.
    pub out: Vec<char>,
    pub ident_size: usize,
    pub compact: bool,
    pub multiline_strings: bool,
    pub omit_first_doc_separator: bool,
    pub level: i128,
    pub stack: Vec<StackFrame>,
}

impl View for YamlWriter {
    type V = ModelState;

    open spec fn view(&self) -> ModelState {
        ModelState {
            out: self.out@,
            stack: self.stack@,
            level: self.level as int,
            width: self.ident_size as nat,
            compact: self.compact,
            multiline: self.multiline_strings,
            omit_first: self.omit_first_doc_separator,
        }
    }
}

/// The state of a freshly created writer: defaults on, one frame waiting
/// for the stream to open, no indentation yet.
pub open spec fn initial_model() -> ModelState {
    ModelState {
        out: Seq::<char>::empty(),
        stack: seq![StackFrame::Start(StartFrame {  })],
        level: -1,
        width: 2,
        compact: true,
        multiline: true,
        omit_first: true,
    }
}

/// With the default configuration, two scalar documents are laid out as the
/// first document's text, a separator line `---`, and the second document's
/// text: no leading separator and no leading blank line.
pub proof fn lemma_two_documents_layout(va: ScalarValue, vb: ScalarValue)
    ensures
        ({
            let m1 = model_step(initial_model(), WriteEvent::StreamStart);
            let m2 = model_step(m1, WriteEvent::DocumentStart);
            let m3 = model_step(m2, WriteEvent::Scalar(va));
            let m4 = model_step(m3, WriteEvent::DocumentEnd);
            let m5 = model_step(m4, WriteEvent::DocumentStart);
            let m6 = model_step(m5, WriteEvent::Scalar(vb));
            let m7 = model_step(m6, WriteEvent::DocumentEnd);
            let m8 = model_step(m7, WriteEvent::StreamEnd);
            m8.out == scalar_text(va@, true, -1, 2) + seq!['\n', '-', '-', '-', '\n']
                + scalar_text(vb@, true, -1, 2) && m8.stack =~= seq![
                StackFrame::End(EndFrame {  }),
            ]
        }),
{
    let m0 = initial_model();
    let m1 = model_step(m0, WriteEvent::StreamStart);
    assert(m0.stack.last() == StackFrame::Start(StartFrame {  }));
    assert(m0.stack.drop_last() =~= Seq::<StackFrame>::empty());
    assert(m1.stack =~= seq![StackFrame::Docs(DocsFrame { first: true })]);
    assert(m1.out =~= Seq::<char>::empty());
    let m2 = model_step(m1, WriteEvent::DocumentStart);
    assert(m1.stack.drop_last() =~= Seq::<StackFrame>::empty());
    assert(m2.stack =~= seq![
        StackFrame::Docs(DocsFrame { first: false }),
        StackFrame::Doc(DocFrame {  }),
    ]);
    assert(m2.out =~= Seq::<char>::empty());
    let a = scalar_text(va@, true, -1, 2);
    let m3 = model_step(m2, WriteEvent::Scalar(va));
    assert(m3.stack =~= seq![
        StackFrame::Docs(DocsFrame { first: false }),
        StackFrame::DocEnd(DocEndFrame {  }),
    ]);
    assert(m3.out =~= a);
    let m4 = model_step(m3, WriteEvent::DocumentEnd);
    assert(m4.stack =~= seq![StackFrame::Docs(DocsFrame { first: false })]);
    assert(m4.out == a);
    let m5 = model_step(m4, WriteEvent::DocumentStart);
    assert(m5.stack =~= seq![
        StackFrame::Docs(DocsFrame { first: false }),
        StackFrame::Doc(DocFrame {  }),
    ]);
    let sep = seq!['\n', '-', '-', '-', '\n'];
    assert(m5.out =~= a + sep);
    assert(m5.level == -1 && m5.multiline && m5.width == 2);
    let b = scalar_text(vb@, true, -1, 2);
    let m6 = model_step(m5, WriteEvent::Scalar(vb));
    assert(m6.stack =~= seq![
        StackFrame::Docs(DocsFrame { first: false }),
        StackFrame::DocEnd(DocEndFrame {  }),
    ]);
    assert(m6.out =~= (a + sep) + b);
    let m7 = model_step(m6, WriteEvent::DocumentEnd);
    assert(m7.stack =~= seq![StackFrame::Docs(DocsFrame { first: false })]);
    let m8 = model_step(m7, WriteEvent::StreamEnd);
    assert(m8.stack =~= seq![StackFrame::End(EndFrame {  })]);
    assert(m8.out =~= a + sep + b);
}

impl YamlWriter {
    /// A live writer: either already failed or finished (no frames), or its
    /// indentation level agrees with its open frames.
    pub open spec fn wf(&self) -> bool {
        self@.stack.len() == 0 || level_ok(self@)
    }

    /// Create a new writer emitting into an owned buffer.
    pub fn new() -> (r: YamlWriter)
        ensures
            r@ == initial_model(),
            r.wf(),
    {
        let mut stack: Vec<StackFrame> = Vec::new();
        stack.push(StackFrame::Start(StartFrame::new()));
        let r = YamlWriter {
            out: Vec::new(),
            ident_size: 2,
            compact: true,
            multiline_strings: true,
            omit_first_doc_separator: true,
            level: -1,
            stack,
        };
        proof {
            assert(r@ =~= initial_model());
            assert(r@.stack.drop_last() =~= Seq::<StackFrame>::empty());
            assert(stack_weight(Seq::<StackFrame>::empty()) == 0);
            assert(stack_weight(r@.stack) == 0);
        }
        r
    }

    /// The text emitted so far.
    pub fn output(&self) -> (r: String)
        ensures
            r@ == self@.out,
    {
        chars_to_string(&self.out)
    }

    /// Set 'compact inline notation' on or off: whether the first child of a
    /// collection nested directly as a value starts on the same line.
    pub fn compact(&mut self, compact: bool)
        ensures
            final(self)@ == (ModelState { compact, ..old(self)@ }),
            final(self).wf() == old(self).wf(),
    {
        self.compact = compact;
        proof {
            assert(self@ =~= (ModelState { compact, ..old(self)@ }));
        }
    }

    /// Determine if this writer is using 'compact inline notation'.
    #[must_use]
    pub fn is_compact(&self) -> (r: bool)
        ensures
            r == self@.compact,
    {
        self.compact
    }

    /// Render strings containing multiple lines in literal style.
    pub fn multiline_strings(&mut self, multiline_strings: bool)
        ensures
            final(self)@ == (ModelState { multiline: multiline_strings, ..old(self)@ }),
            final(self).wf() == old(self).wf(),
    {
        self.multiline_strings = multiline_strings;
        proof {
            assert(self@ =~= (ModelState { multiline: multiline_strings, ..old(self)@ }));
        }
    }

    /// Determine if this writer will emit multiline strings when appropriate.
    #[must_use]
    pub fn is_multiline_strings(&self) -> (r: bool)
        ensures
            r == self@.multiline,
    {
        self.multiline_strings
    }

    /// Don't write the YAML start document directive (`---`) for the first
    /// document.
    pub fn omit_first_doc_separator(&mut self, omit_first_doc_separator: bool)
        ensures
            final(self)@ == (ModelState { omit_first: omit_first_doc_separator, ..old(self)@ }),
            final(self).wf() == old(self).wf(),
    {
        self.omit_first_doc_separator = omit_first_doc_separator;
        proof {
            assert(self@ =~= (ModelState {
                omit_first: omit_first_doc_separator,
                ..old(self)@
            }));
        }
    }

    /// Determine if this writer will write the YAML start document directive
    /// (`---`) for the first document.
    #[must_use]
    pub fn is_omit_first_doc_separator(&self) -> (r: bool)
        ensures
            r == self@.omit_first,
    {
        self.omit_first_doc_separator
    }

    /// Writes an event.  A legal event performs exactly one step of the
    /// model; an illegal one reports the expected-event class and leaves the
    /// writer permanently failed.
    pub fn event(&mut self, event: WriteEvent) -> (r: WriteResult)
        requires
            old(self).wf(),
        ensures
            final(self).wf(),
            final(self)@ == model_step(old(self)@, event),
            match model_step_err(old(self)@, event) {
                None => r is Ok,
                Some(t) => r == Err::<(), WriteError>(
                    WriteError::StateError(WriterStateError { state_type: t, event }),
                ),
            },
    {
        let stack_frame = self.stack.pop();
        match stack_frame {
            Some(stack_frame) => {
                proof {
                    assert(self@.stack =~= old(self)@.stack.drop_last());
                    assert(run_pre(self@, stack_frame));
                }
                let ghost popped: ModelState = self@;
                let result = stack_frame.run(self, event);
                if result.is_err() {
                    // Recovery isn't supported, so the stack is cleared to
                    // make every later submission fail.
                    self.stack.truncate(0);
                    proof {
                        assert(self@.stack =~= Seq::<StackFrame>::empty());
                        assert(self@ =~= model_step(old(self)@, event));
                    }
                } else {
                    proof {
                        assert(self@ == frame_step(popped, stack_frame, event));
                        assert(self@ =~= model_step(old(self)@, event));
                    }
                }
                result
            },
            None => {
                proof {
                    assert(self@ =~= old(self)@);
                    assert(self@ =~= model_step(old(self)@, event));
                }
                Err(WriteError::new_state_error(WriteStateErrorType::ExistingError, event))
            },
        }
    }

    /// Writes the indentation for the current level.
    pub(crate) fn write_indent(&mut self)
        ensures
            final(self)@ == old(self)@.app(indent_text(old(self)@.level, old(self)@.width)),
    {
        push_indent(&mut self.out, self.level, self.ident_size);
        proof {
            assert(self@ =~= old(self)@.app(indent_text(old(self)@.level, old(self)@.width)));
        }
    }

    /// Writes the indentation for one level deeper than the current level.
    pub(crate) fn write_indent_deeper(&mut self)
        ensures
            final(self)@ == old(self)@.app(indent_text(old(self)@.level + 1, old(self)@.width)),
    {
        push_indent_deeper(&mut self.out, self.level, self.ident_size);
        proof {
            assert(self@ =~= old(self)@.app(
                indent_text(old(self)@.level + 1, old(self)@.width),
            ));
        }
    }
}

} // verus!

