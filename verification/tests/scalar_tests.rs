use yaml_writer::ScalarValue;
use yaml_writer::TScalarStyle;
use yaml_writer::Tag;
use yaml_writer::WriteEvent;
use yaml_writer::YamlWriter;

fn core_tag(suffix: &str) -> Option<Tag> {
    Some(Tag { handle: String::from("tag:yaml.org,2002:"), suffix: String::from(suffix) })
}

fn render(value: ScalarValue) -> String {
    let mut writer = YamlWriter::new();
    for event in [
        WriteEvent::StreamStart,
        WriteEvent::DocumentStart,
        WriteEvent::Scalar(value),
        WriteEvent::DocumentEnd,
        WriteEvent::StreamEnd,
    ] {
        writer.event(event).expect("no write error");
    }
    writer.output()
}

#[test]
fn test_from_str_integers() {
    assert!(matches!(ScalarValue::from_str("42"), ScalarValue::Integer(42)));
    assert!(matches!(ScalarValue::from_str("0x2A"), ScalarValue::Integer(42)));
    assert!(matches!(ScalarValue::from_str("0o52"), ScalarValue::Integer(42)));
    assert!(matches!(ScalarValue::from_str("+3"), ScalarValue::Integer(3)));
    assert!(matches!(ScalarValue::from_str("-5"), ScalarValue::Integer(-5)));
    assert!(matches!(
        ScalarValue::from_str("9223372036854775807"),
        ScalarValue::Integer(i64::MAX)
    ));
    assert!(matches!(
        ScalarValue::from_str("-9223372036854775808"),
        ScalarValue::Integer(i64::MIN)
    ));
}

#[test]
fn test_from_str_signed_prefixed_integers() {
    // The sign belongs after the radix prefix, as the integer parser has it.
    assert!(matches!(ScalarValue::from_str("0x-10"), ScalarValue::Integer(-16)));
    // A sign before the prefix keeps the text a string: neither the integer
    // nor the float grammar accepts it.
    assert!(matches!(ScalarValue::from_str("-0x10"), ScalarValue::String(_)));
    assert!(matches!(ScalarValue::from_str("0o777"), ScalarValue::Integer(511)));
}

#[test]
fn test_from_str_nulls_and_booleans() {
    assert!(matches!(ScalarValue::from_str("~"), ScalarValue::Null));
    assert!(matches!(ScalarValue::from_str("null"), ScalarValue::Null));
    assert!(matches!(ScalarValue::from_str("true"), ScalarValue::Boolean(true)));
    assert!(matches!(ScalarValue::from_str("false"), ScalarValue::Boolean(false)));
    // Only the lowercase words are inferred.
    assert!(matches!(ScalarValue::from_str("True"), ScalarValue::String(_)));
    assert!(matches!(ScalarValue::from_str("NULL"), ScalarValue::String(_)));
}

#[test]
fn test_from_str_floats() {
    assert!(matches!(ScalarValue::from_str("3.14"), ScalarValue::Real(_)));
    assert!(matches!(ScalarValue::from_str(".inf"), ScalarValue::Real(_)));
    assert!(matches!(ScalarValue::from_str("-.INF"), ScalarValue::Real(_)));
    assert!(matches!(ScalarValue::from_str(".nan"), ScalarValue::Real(_)));
    assert!(matches!(ScalarValue::from_str("12e7"), ScalarValue::Real(_)));
    // An integer too large for 64 bits still reads as a float.
    assert!(matches!(
        ScalarValue::from_str("9223372036854775808"),
        ScalarValue::Real(_)
    ));
    if let ScalarValue::Real(text) = ScalarValue::from_str("3.14") {
        assert_eq!(text, "3.14");
    } else {
        panic!("expected a real value");
    }
}

#[test]
fn test_from_str_strings() {
    assert!(matches!(ScalarValue::from_str("foo"), ScalarValue::String(_)));
    assert!(matches!(ScalarValue::from_str(""), ScalarValue::String(_)));
    assert!(matches!(ScalarValue::from_str("0x"), ScalarValue::String(_)));
    assert!(matches!(ScalarValue::from_str("0xZZ"), ScalarValue::String(_)));
    assert!(matches!(ScalarValue::from_str("+"), ScalarValue::String(_)));
    assert!(matches!(ScalarValue::from_str("yes"), ScalarValue::String(_)));
    assert!(matches!(ScalarValue::from_str("y"), ScalarValue::String(_)));
}

#[test]
fn test_from_string_matches_from_str() {
    assert!(matches!(ScalarValue::from_string(String::from("42")), ScalarValue::Integer(42)));
    assert!(matches!(ScalarValue::from_cow_str(String::from("true")), ScalarValue::Boolean(true)));
}

#[test]
fn test_quoted_style_suppresses_inference() {
    let v = ScalarValue::from_scalar_event(String::from("true"), TScalarStyle::DoubleQuoted, 0, None);
    assert!(matches!(v, ScalarValue::String(_)));
    let v = ScalarValue::from_scalar_event(String::from("42"), TScalarStyle::SingleQuoted, 0, None);
    assert!(matches!(v, ScalarValue::String(_)));
    let v = ScalarValue::from_scalar_event(String::from("42"), TScalarStyle::Plain, 0, None);
    assert!(matches!(v, ScalarValue::Integer(42)));
}

#[test]
fn test_bool_tag_coercion() {
    let v = ScalarValue::from_scalar_event(String::from("true"), TScalarStyle::Plain, 0, core_tag("bool"));
    assert!(matches!(v, ScalarValue::Boolean(true)));
    let v = ScalarValue::from_scalar_event(String::from("false"), TScalarStyle::Plain, 0, core_tag("bool"));
    assert!(matches!(v, ScalarValue::Boolean(false)));
}

#[test]
fn test_bool_tag_mismatch_renders_null_marker() {
    // The boolean grammar rejects "yes": the result is the invalid-value
    // sentinel, which renders as `~`, not as the literal text.
    let v = ScalarValue::from_scalar_event(String::from("yes"), TScalarStyle::Plain, 0, core_tag("bool"));
    assert!(matches!(v, ScalarValue::BadValue));
    assert_eq!(render(v), "~");
}

#[test]
fn test_int_tag_coercion() {
    let v = ScalarValue::from_scalar_event(String::from("42"), TScalarStyle::Plain, 0, core_tag("int"));
    assert!(matches!(v, ScalarValue::Integer(42)));
    let v = ScalarValue::from_scalar_event(String::from("4x"), TScalarStyle::Plain, 0, core_tag("int"));
    assert!(matches!(v, ScalarValue::BadValue));
}

#[test]
fn test_float_tag_coercion() {
    let v = ScalarValue::from_scalar_event(String::from("3.5"), TScalarStyle::Plain, 0, core_tag("float"));
    if let ScalarValue::Real(text) = v {
        assert_eq!(text, "3.5");
    } else {
        panic!("expected a real value");
    }
    let v = ScalarValue::from_scalar_event(String::from("abc"), TScalarStyle::Plain, 0, core_tag("float"));
    assert!(matches!(v, ScalarValue::BadValue));
}

#[test]
fn test_null_tag_coercion() {
    let v = ScalarValue::from_scalar_event(String::from("~"), TScalarStyle::Plain, 0, core_tag("null"));
    assert!(matches!(v, ScalarValue::Null));
    let v = ScalarValue::from_scalar_event(String::from("null"), TScalarStyle::Plain, 0, core_tag("null"));
    assert!(matches!(v, ScalarValue::Null));
    let v = ScalarValue::from_scalar_event(String::from("x"), TScalarStyle::Plain, 0, core_tag("null"));
    assert!(matches!(v, ScalarValue::BadValue));
}

#[test]
fn test_unrecognized_tag_suffix_keeps_string() {
    let v = ScalarValue::from_scalar_event(String::from("42"), TScalarStyle::Plain, 0, core_tag("str"));
    assert!(matches!(v, ScalarValue::String(_)));
}

#[test]
fn test_foreign_tag_handle_keeps_string() {
    let tag = Some(Tag { handle: String::from("!my!"), suffix: String::from("int") });
    let v = ScalarValue::from_scalar_event(String::from("42"), TScalarStyle::Plain, 0, tag);
    assert!(matches!(v, ScalarValue::String(_)));
}

#[test]
fn test_untagged_plain_event_falls_back_to_inference() {
    let v = ScalarValue::from_scalar_event(String::from("0x10"), TScalarStyle::Plain, 0, None);
    assert!(matches!(v, ScalarValue::Integer(16)));
}
