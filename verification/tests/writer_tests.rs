use yaml_writer::ScalarValue;
use yaml_writer::WriteError;
use yaml_writer::WriteEvent;
use yaml_writer::WriteStateErrorType;
use yaml_writer::YamlWriter;

fn emit(events: Vec<WriteEvent>) -> String {
    let mut writer = YamlWriter::new();
    for event in events {
        writer.event(event).expect("no write error");
    }
    writer.output()
}

fn scalar(text: &str) -> WriteEvent {
    WriteEvent::Scalar(ScalarValue::from_str(text))
}

fn string_scalar(text: &str) -> WriteEvent {
    WriteEvent::Scalar(ScalarValue::String(String::from(text)))
}

fn emit_doc(event: WriteEvent) -> String {
    emit(vec![
        WriteEvent::StreamStart,
        WriteEvent::DocumentStart,
        event,
        WriteEvent::DocumentEnd,
        WriteEvent::StreamEnd,
    ])
}

fn state_error_type(result: Result<(), WriteError>) -> WriteStateErrorType {
    match result {
        Err(WriteError::StateError(e)) => e.state_type,
        other => panic!("expected a state error, got {other:?}"),
    }
}

#[test]
fn test_empty_sequence_renders_inline_marker() {
    let output = emit(vec![
        WriteEvent::StreamStart,
        WriteEvent::DocumentStart,
        WriteEvent::SequenceStart,
        WriteEvent::SequenceEnd,
        WriteEvent::DocumentEnd,
        WriteEvent::StreamEnd,
    ]);
    assert_eq!(output, "[]");
}

#[test]
fn test_empty_mapping_renders_inline_marker() {
    let output = emit(vec![
        WriteEvent::StreamStart,
        WriteEvent::DocumentStart,
        WriteEvent::MappingStart,
        WriteEvent::MappingEnd,
        WriteEvent::DocumentEnd,
        WriteEvent::StreamEnd,
    ]);
    assert_eq!(output, "{}");
}

#[test]
fn test_nested_empty_collections_collapse() {
    let events = vec![
        WriteEvent::StreamStart,
        WriteEvent::DocumentStart,
        WriteEvent::MappingStart,
        scalar("a"),
        WriteEvent::SequenceStart,
        WriteEvent::SequenceEnd,
        scalar("b"),
        WriteEvent::MappingStart,
        WriteEvent::MappingEnd,
        WriteEvent::MappingEnd,
        WriteEvent::DocumentEnd,
        WriteEvent::StreamEnd,
    ];
    assert_eq!(emit(events), "a: []\nb: {}");
}

#[test]
fn test_nested_empty_collections_collapse_without_compact() {
    let mut writer = YamlWriter::new();
    writer.compact(false);
    for event in [
        WriteEvent::StreamStart,
        WriteEvent::DocumentStart,
        WriteEvent::MappingStart,
        scalar("a"),
        WriteEvent::SequenceStart,
        WriteEvent::SequenceEnd,
        scalar("b"),
        WriteEvent::MappingStart,
        WriteEvent::MappingEnd,
        WriteEvent::MappingEnd,
        WriteEvent::DocumentEnd,
        WriteEvent::StreamEnd,
    ] {
        writer.event(event).expect("no write error");
    }
    assert_eq!(writer.output(), "a: []\nb: {}");
}

#[test]
fn test_three_documents_omit_first_separator() {
    let output = emit(vec![
        WriteEvent::StreamStart,
        WriteEvent::DocumentStart,
        scalar("a"),
        WriteEvent::DocumentEnd,
        WriteEvent::DocumentStart,
        scalar("b"),
        WriteEvent::DocumentEnd,
        WriteEvent::DocumentStart,
        scalar("c"),
        WriteEvent::DocumentEnd,
        WriteEvent::StreamEnd,
    ]);
    assert_eq!(output, "a\n---\nb\n---\nc");
}

#[test]
fn test_three_documents_with_leading_separator() {
    let mut writer = YamlWriter::new();
    writer.omit_first_doc_separator(false);
    for event in [
        WriteEvent::StreamStart,
        WriteEvent::DocumentStart,
        scalar("a"),
        WriteEvent::DocumentEnd,
        WriteEvent::DocumentStart,
        scalar("b"),
        WriteEvent::DocumentEnd,
        WriteEvent::StreamEnd,
    ] {
        writer.event(event).expect("no write error");
    }
    assert_eq!(writer.output(), "---\na\n---\nb");
}

#[test]
fn test_integer_list() {
    let output = emit(vec![
        WriteEvent::StreamStart,
        WriteEvent::DocumentStart,
        WriteEvent::SequenceStart,
        scalar("1"),
        scalar("2"),
        scalar("3"),
        WriteEvent::SequenceEnd,
        WriteEvent::DocumentEnd,
        WriteEvent::StreamEnd,
    ]);
    assert_eq!(output, "- 1\n- 2\n- 3");
}

#[test]
fn test_nested_mapping() {
    let output = emit(vec![
        WriteEvent::StreamStart,
        WriteEvent::DocumentStart,
        WriteEvent::MappingStart,
        scalar("a"),
        scalar("b"),
        scalar("c"),
        WriteEvent::MappingStart,
        scalar("d"),
        scalar("e"),
        WriteEvent::MappingEnd,
        WriteEvent::MappingEnd,
        WriteEvent::DocumentEnd,
        WriteEvent::StreamEnd,
    ]);
    assert_eq!(output, "a: b\nc:\n  d: e");
}

#[test]
fn test_mapping_value_list() {
    let output = emit(vec![
        WriteEvent::StreamStart,
        WriteEvent::DocumentStart,
        WriteEvent::MappingStart,
        scalar("a"),
        WriteEvent::SequenceStart,
        scalar("1"),
        scalar("2"),
        WriteEvent::SequenceEnd,
        WriteEvent::MappingEnd,
        WriteEvent::DocumentEnd,
        WriteEvent::StreamEnd,
    ]);
    assert_eq!(output, "a:\n  - 1\n  - 2");
}

#[test]
fn test_objects_and_lists() {
    let output = emit(vec![
        WriteEvent::StreamStart,
        WriteEvent::DocumentStart,
        WriteEvent::MappingStart,
        scalar("a"),
        WriteEvent::SequenceStart,
        WriteEvent::MappingStart,
        scalar("b"),
        scalar("c"),
        scalar("d"),
        WriteEvent::SequenceStart,
        scalar("e"),
        WriteEvent::MappingStart,
        scalar("f"),
        scalar("g"),
        scalar("h"),
        WriteEvent::MappingStart,
        scalar("i"),
        scalar("j"),
        scalar("k"),
        WriteEvent::SequenceStart,
        scalar("l"),
        WriteEvent::MappingStart,
        scalar("m"),
        scalar("~"),
        scalar("n"),
        scalar("o"),
        WriteEvent::MappingEnd,
        WriteEvent::SequenceEnd,
        WriteEvent::MappingEnd,
        WriteEvent::MappingEnd,
        WriteEvent::SequenceEnd,
        WriteEvent::MappingEnd,
        WriteEvent::SequenceEnd,
        WriteEvent::MappingEnd,
        WriteEvent::DocumentEnd,
        WriteEvent::StreamEnd,
    ]);
    let expected = "a:\n  - b: c\n    d:\n      - e\n      - f: g\n        h:\n          i: j\n          k:\n            - l\n            - m: ~\n              n: o";
    assert_eq!(output, expected);
}

#[test]
fn test_sequence_in_sequence_compact() {
    let events = vec![
        WriteEvent::StreamStart,
        WriteEvent::DocumentStart,
        WriteEvent::SequenceStart,
        WriteEvent::SequenceStart,
        scalar("1"),
        WriteEvent::SequenceEnd,
        WriteEvent::SequenceEnd,
        WriteEvent::DocumentEnd,
        WriteEvent::StreamEnd,
    ];
    assert_eq!(emit(events), "- - 1");
}

#[test]
fn test_sequence_in_sequence_not_compact() {
    let mut writer = YamlWriter::new();
    writer.compact(false);
    for event in [
        WriteEvent::StreamStart,
        WriteEvent::DocumentStart,
        WriteEvent::SequenceStart,
        WriteEvent::SequenceStart,
        scalar("1"),
        WriteEvent::SequenceEnd,
        WriteEvent::SequenceEnd,
        WriteEvent::DocumentEnd,
        WriteEvent::StreamEnd,
    ] {
        writer.event(event).expect("no write error");
    }
    assert_eq!(writer.output(), "-\n  - 1");
}

#[test]
fn test_reserved_and_numeric_strings_are_quoted() {
    assert_eq!(emit_doc(string_scalar("true")), "\"true\"");
    assert_eq!(emit_doc(string_scalar("null")), "\"null\"");
    assert_eq!(emit_doc(string_scalar("123")), "\"123\"");
    assert_eq!(emit_doc(string_scalar("3.14")), "\"3.14\"");
}

#[test]
fn test_space_edged_strings_are_quoted() {
    assert_eq!(emit_doc(string_scalar(" a")), "\" a\"");
    assert_eq!(emit_doc(string_scalar("a ")), "\"a \"");
}

#[test]
fn test_plain_string_stays_bare() {
    assert_eq!(emit_doc(string_scalar("hello")), "hello");
    assert_eq!(emit_doc(string_scalar("y")), "y");
    assert_eq!(emit_doc(string_scalar("n")), "n");
}

#[test]
fn test_escaped_string_contents() {
    assert_eq!(emit_doc(string_scalar("he\"llo\\x")), "\"he\\\"llo\\\\x\"");
    assert_eq!(emit_doc(string_scalar("a\tb")), "\"a\\tb\"");
    assert_eq!(emit_doc(string_scalar("a\u{1}b")), "\"a\\u0001b\"");
}

#[test]
fn test_single_quote_forces_quoting_without_escape() {
    assert_eq!(emit_doc(string_scalar("it's")), "\"it's\"");
}

#[test]
fn test_unicode_text_stays_bare() {
    assert_eq!(emit_doc(string_scalar("héllo")), "héllo");
}

#[test]
fn test_delete_character_is_escaped_when_quoted() {
    // The delete character does not itself force quoting, but once the
    // trailing space does, it is escaped.
    assert_eq!(emit_doc(string_scalar("a\u{7f}b ")), "\"a\\u007fb \"");
}

#[test]
fn test_multiline_literal_block_at_root() {
    assert_eq!(emit_doc(string_scalar("line1\nline2\n")), "|\nline1\nline2");
}

#[test]
fn test_multiline_literal_block_as_value() {
    let output = emit(vec![
        WriteEvent::StreamStart,
        WriteEvent::DocumentStart,
        WriteEvent::MappingStart,
        scalar("k"),
        string_scalar("line1\nline2\n"),
        WriteEvent::MappingEnd,
        WriteEvent::DocumentEnd,
        WriteEvent::StreamEnd,
    ]);
    assert_eq!(output, "k: |\n  line1\n  line2");
}

#[test]
fn test_multiline_block_without_trailing_newline() {
    assert_eq!(emit_doc(string_scalar("line1\nline2")), "|-\nline1\nline2");
}

#[test]
fn test_multiline_disabled_escapes_newlines() {
    let mut writer = YamlWriter::new();
    writer.multiline_strings(false);
    for event in [
        WriteEvent::StreamStart,
        WriteEvent::DocumentStart,
        string_scalar("line1\nline2\n"),
        WriteEvent::DocumentEnd,
        WriteEvent::StreamEnd,
    ] {
        writer.event(event).expect("no write error");
    }
    assert_eq!(writer.output(), "\"line1\\nline2\\n\"");
}

#[test]
fn test_block_ineligible_string_is_quoted() {
    // An empty interior line keeps the text out of literal block style.
    assert_eq!(emit_doc(string_scalar("a\n\nb")), "\"a\\n\\nb\"");
}

#[test]
fn test_complex_key_uses_question_mark() {
    let output = emit(vec![
        WriteEvent::StreamStart,
        WriteEvent::DocumentStart,
        WriteEvent::MappingStart,
        WriteEvent::SequenceStart,
        scalar("k1"),
        WriteEvent::SequenceEnd,
        scalar("v"),
        WriteEvent::MappingEnd,
        WriteEvent::DocumentEnd,
        WriteEvent::StreamEnd,
    ]);
    assert_eq!(output, "? - k1\n: v");
}

#[test]
fn test_illegal_event_fails_and_failure_is_permanent() {
    let mut writer = YamlWriter::new();
    writer.event(WriteEvent::StreamStart).expect("stream start is legal");
    let first = writer.event(WriteEvent::MappingEnd);
    assert_eq!(state_error_type(first), WriteStateErrorType::DocumentList);
    let second = writer.event(WriteEvent::DocumentStart);
    assert_eq!(state_error_type(second), WriteStateErrorType::ExistingError);
    let third = writer.event(WriteEvent::StreamStart);
    assert_eq!(state_error_type(third), WriteStateErrorType::ExistingError);
}

#[test]
fn test_error_before_stream_start() {
    let mut writer = YamlWriter::new();
    let result = writer.event(WriteEvent::DocumentStart);
    assert_eq!(state_error_type(result), WriteStateErrorType::Start);
}

#[test]
fn test_error_after_stream_end() {
    let mut writer = YamlWriter::new();
    writer.event(WriteEvent::StreamStart).expect("legal");
    writer.event(WriteEvent::StreamEnd).expect("legal");
    let result = writer.event(WriteEvent::StreamStart);
    assert_eq!(state_error_type(result), WriteStateErrorType::End);
}

#[test]
fn test_error_in_document_slot() {
    let mut writer = YamlWriter::new();
    writer.event(WriteEvent::StreamStart).expect("legal");
    writer.event(WriteEvent::DocumentStart).expect("legal");
    let result = writer.event(WriteEvent::SequenceEnd);
    assert_eq!(state_error_type(result), WriteStateErrorType::Document);
}

#[test]
fn test_error_at_document_end_slot() {
    let mut writer = YamlWriter::new();
    writer.event(WriteEvent::StreamStart).expect("legal");
    writer.event(WriteEvent::DocumentStart).expect("legal");
    writer.event(scalar("a")).expect("legal");
    let result = writer.event(scalar("b"));
    assert_eq!(state_error_type(result), WriteStateErrorType::DocumentEnd);
}

#[test]
fn test_error_inside_sequence() {
    let mut writer = YamlWriter::new();
    writer.event(WriteEvent::StreamStart).expect("legal");
    writer.event(WriteEvent::DocumentStart).expect("legal");
    writer.event(WriteEvent::SequenceStart).expect("legal");
    let result = writer.event(WriteEvent::DocumentEnd);
    assert_eq!(state_error_type(result), WriteStateErrorType::Sequence);
}

#[test]
fn test_error_inside_mapping() {
    let mut writer = YamlWriter::new();
    writer.event(WriteEvent::StreamStart).expect("legal");
    writer.event(WriteEvent::DocumentStart).expect("legal");
    writer.event(WriteEvent::MappingStart).expect("legal");
    let result = writer.event(WriteEvent::DocumentStart);
    assert_eq!(state_error_type(result), WriteStateErrorType::Mapping);
}

#[test]
fn test_error_at_mapping_value_slot() {
    let mut writer = YamlWriter::new();
    writer.event(WriteEvent::StreamStart).expect("legal");
    writer.event(WriteEvent::DocumentStart).expect("legal");
    writer.event(WriteEvent::MappingStart).expect("legal");
    writer.event(scalar("k")).expect("legal");
    let result = writer.event(WriteEvent::MappingEnd);
    assert_eq!(state_error_type(result), WriteStateErrorType::MappingEntryValue);
}

#[test]
fn test_nothing_event_is_always_illegal() {
    let mut writer = YamlWriter::new();
    let result = writer.event(WriteEvent::Nothing);
    assert_eq!(state_error_type(result), WriteStateErrorType::Start);
}

#[test]
fn test_empty_document_writes_nothing() {
    let output = emit(vec![
        WriteEvent::StreamStart,
        WriteEvent::DocumentStart,
        WriteEvent::DocumentEnd,
        WriteEvent::StreamEnd,
    ]);
    assert_eq!(output, "");
}

#[test]
fn test_partial_output_remains_available() {
    let mut writer = YamlWriter::new();
    writer.event(WriteEvent::StreamStart).expect("legal");
    writer.event(WriteEvent::DocumentStart).expect("legal");
    writer.event(WriteEvent::SequenceStart).expect("legal");
    writer.event(scalar("1")).expect("legal");
    assert_eq!(writer.output(), "- 1");
}

#[test]
fn test_configuration_surface() {
    let mut writer = YamlWriter::new();
    assert!(writer.is_compact());
    assert!(writer.is_multiline_strings());
    assert!(writer.is_omit_first_doc_separator());
    writer.compact(false);
    writer.multiline_strings(false);
    writer.omit_first_doc_separator(false);
    assert!(!writer.is_compact());
    assert!(!writer.is_multiline_strings());
    assert!(!writer.is_omit_first_doc_separator());
}

#[test]
fn test_typed_scalars_render_canonically() {
    assert_eq!(emit_doc(WriteEvent::Scalar(ScalarValue::Boolean(true))), "true");
    assert_eq!(emit_doc(WriteEvent::Scalar(ScalarValue::Boolean(false))), "false");
    assert_eq!(emit_doc(WriteEvent::Scalar(ScalarValue::Integer(-7))), "-7");
    assert_eq!(emit_doc(WriteEvent::Scalar(ScalarValue::Integer(i64::MIN))), "-9223372036854775808");
    assert_eq!(emit_doc(WriteEvent::Scalar(ScalarValue::Real(String::from("1.5")))), "1.5");
    assert_eq!(emit_doc(WriteEvent::Scalar(ScalarValue::Null)), "~");
    assert_eq!(emit_doc(WriteEvent::Scalar(ScalarValue::BadValue)), "~");
}
