//! The scalar value model: typed scalar variants, type inference for plain
//! text under the core schema, tag-driven coercion, and canonical rendering.

use vstd::prelude::*;
use crate::chars::str_eq_str;
use crate::strnum::is_f64_text;
use crate::strnum::is_f64_literal;
use crate::strnum::parse_int_text;
use crate::strnum::parse_i64_radix;
use crate::strnum::i64_dec_text;

verus! {

/// The style a scalar was written in at its source.
#[derive(Clone, Copy, PartialEq, Eq, Debug)]
pub enum TScalarStyle {
    /// Bare text, subject to type inference.
    Plain,
    /// Single-quoted text.
    SingleQuoted,
    /// Double-quoted text.
    DoubleQuoted,
    /// A literal block scalar.
    Literal,
    /// A folded block scalar.
    Folded,
}

/// An explicit type tag attached to a scalar.
#[derive(Clone, PartialEq, Eq, Debug)]
pub struct Tag {
    /// The tag handle, e.g. the core-schema namespace.
    pub handle: String,
    /// The tag suffix naming the type.
    pub suffix: String,
}

/// Contains information for YAML scalar values.
#[derive(Clone, PartialEq, Eq, Debug)]
pub enum ScalarValue {
    /// A number value, kept as its source text.
    Real(String),
    /// A string value.
    String(String),
    /// A boolean value.
    Boolean(bool),
    /// An integer value.
    Integer(i64),
    /// The null value.
    Null,
    /// Invalid type conversion returns `BadValue`.
    BadValue,
}

/// The mathematical shadow of a scalar value: text payloads as sequences.
pub enum ScalarModel {
    Real(Seq<char>),
    String(Seq<char>),
    Boolean(bool),
    Integer(int),
    Null,
    BadValue,
}

impl View for ScalarValue {
    type V = ScalarModel;

    open spec fn view(&self) -> ScalarModel {
        match self {
            ScalarValue::Real(s) => ScalarModel::Real(s@),
            ScalarValue::String(s) => ScalarModel::String(s@),
            ScalarValue::Boolean(b) => ScalarModel::Boolean(*b),
            ScalarValue::Integer(i) => ScalarModel::Integer(*i as int),
            ScalarValue::Null => ScalarModel::Null,
            ScalarValue::BadValue => ScalarModel::BadValue,
        }
    }
}

/// The float forms the core schema accepts: the dotted infinity and
/// not-a-number words, or anything the standard float grammar accepts.
pub open spec fn is_core_float_text(s: Seq<char>) -> bool {
    s == ".inf"@ || s == ".Inf"@ || s == ".INF"@ || s == "+.inf"@ || s == "+.Inf"@ || s == "+.INF"@
        || s == "-.inf"@ || s == "-.Inf"@ || s == "-.INF"@ || s == ".nan"@ || s == "NaN"@
        || s == ".NAN"@ || is_f64_text(s)
}

/// The classification the untyped match arm applies, after the prefixed
/// integer forms have been ruled out.
pub open spec fn scalar_from_tail_text(s: Seq<char>) -> ScalarModel {
    if s == "~"@ || s == "null"@ {
        ScalarModel::Null
    } else if s == "true"@ {
        ScalarModel::Boolean(true)
    } else if s == "false"@ {
        ScalarModel::Boolean(false)
    } else if parse_int_text(s, 10) is Some {
        ScalarModel::Integer(parse_int_text(s, 10).unwrap())
    } else if is_core_float_text(s) {
        ScalarModel::Real(s)
    } else {
        ScalarModel::String(s)
    }
}

/// Type inference for untyped plain text: hexadecimal, octal and
/// explicitly-signed integers first, then nulls, booleans, decimal
/// integers, floats, and finally plain strings.
pub open spec fn scalar_from_text(s: Seq<char>) -> ScalarModel {
    if s.len() >= 2 && s[0] == '0' && s[1] == 'x' {
        if parse_int_text(s.skip(2), 16) is Some {
            ScalarModel::Integer(parse_int_text(s.skip(2), 16).unwrap())
        } else {
            scalar_from_tail_text(s)
        }
    } else if s.len() >= 2 && s[0] == '0' && s[1] == 'o' {
        if parse_int_text(s.skip(2), 8) is Some {
            ScalarModel::Integer(parse_int_text(s.skip(2), 8).unwrap())
        } else {
            scalar_from_tail_text(s)
        }
    } else if s.len() >= 1 && s[0] == '+' {
        if parse_int_text(s.skip(1), 10) is Some {
            ScalarModel::Integer(parse_int_text(s.skip(1), 10).unwrap())
        } else {
            scalar_from_tail_text(s)
        }
    } else {
        scalar_from_tail_text(s)
    }
}

/// The conversion applied to a parsed scalar event: quoting suppresses
/// inference, a core-schema tag coerces (yielding `BadValue` on mismatch),
/// and untagged plain text falls back to inference.
pub open spec fn scalar_from_event_text(
    v: Seq<char>,
    style: TScalarStyle,
    tag: Option<Tag>,
) -> ScalarModel {
    if style != TScalarStyle::Plain {
        ScalarModel::String(v)
    } else {
        match tag {
            Option::Some(t) => {
                if t.handle@ == "tag:yaml.org,2002:"@ {
                    if t.suffix@ == "bool"@ {
                        if v == "true"@ {
                            ScalarModel::Boolean(true)
                        } else if v == "false"@ {
                            ScalarModel::Boolean(false)
                        } else {
                            ScalarModel::BadValue
                        }
                    } else if t.suffix@ == "int"@ {
                        if parse_int_text(v, 10) is Some {
                            ScalarModel::Integer(parse_int_text(v, 10).unwrap())
                        } else {
                            ScalarModel::BadValue
                        }
                    } else if t.suffix@ == "float"@ {
                        if is_core_float_text(v) {
                            ScalarModel::Real(v)
                        } else {
                            ScalarModel::BadValue
                        }
                    } else if t.suffix@ == "null"@ {
                        if v == "~"@ || v == "null"@ {
                            ScalarModel::Null
                        } else {
                            ScalarModel::BadValue
                        }
                    } else {
                        ScalarModel::String(v)
                    }
                } else {
                    ScalarModel::String(v)
                }
            },
            Option::None => scalar_from_text(v),
        }
    }
}

/// The canonical text a scalar renders to when written bare: `Real` and
/// `String` keep their text, booleans and integers their canonical forms,
/// and both `Null` and `BadValue` render as `~`.
pub open spec fn canonical_scalar_text(m: ScalarModel) -> Seq<char> {
    match m {
        ScalarModel::Real(s) => s,
        ScalarModel::String(s) => s,
        ScalarModel::Boolean(b) => if b {
            seq!['t', 'r', 'u', 'e']
        } else {
            seq!['f', 'a', 'l', 's', 'e']
        },
        ScalarModel::Integer(i) => i64_dec_text(i),
        ScalarModel::Null => seq!['~'],
        ScalarModel::BadValue => seq!['~'],
    }
}

fn is_core_float_str(s: &str) -> (r: bool)
    ensures
        r == is_core_float_text(s@),
{
    str_eq_str(s, ".inf") || str_eq_str(s, ".Inf") || str_eq_str(s, ".INF") || str_eq_str(
        s,
        "+.inf",
    ) || str_eq_str(s, "+.Inf") || str_eq_str(s, "+.INF") || str_eq_str(s, "-.inf") || str_eq_str(
        s,
        "-.Inf",
    ) || str_eq_str(s, "-.INF") || str_eq_str(s, ".nan") || str_eq_str(s, "NaN") || str_eq_str(
        s,
        ".NAN",
    ) || is_f64_literal(s)
}

fn scalar_from_tail(v: String) -> (r: ScalarValue)
    ensures
        r@ == scalar_from_tail_text(v@),
{
    if str_eq_str(v.as_str(), "~") || str_eq_str(v.as_str(), "null") {
        ScalarValue::Null
    } else if str_eq_str(v.as_str(), "true") {
        ScalarValue::Boolean(true)
    } else if str_eq_str(v.as_str(), "false") {
        ScalarValue::Boolean(false)
    } else if let Some(i) = parse_i64_radix(v.as_str(), 10) {
        ScalarValue::Integer(i)
    } else if is_core_float_str(v.as_str()) {
        ScalarValue::Real(v)
    } else {
        ScalarValue::String(v)
    }
}

impl ScalarValue {
    /// Converts scalar event data into a scalar value.  A non-plain style
    /// yields a string unconditionally; a core-schema tag coerces the text
    /// or yields `BadValue`; otherwise the text is inferred.
    pub fn from_scalar_event(
        value: String,
        style: TScalarStyle,
        _anchor_id: usize,
        tag: Option<Tag>,
    ) -> (r: ScalarValue)
        ensures
            r@ == scalar_from_event_text(value@, style, tag),
    {
        if !matches!(style, TScalarStyle::Plain) {
            ScalarValue::String(value)
        } else if let Some(ref t) = tag {
            if str_eq_str(t.handle.as_str(), "tag:yaml.org,2002:") {
                if str_eq_str(t.suffix.as_str(), "bool") {
                    if str_eq_str(value.as_str(), "true") {
                        ScalarValue::Boolean(true)
                    } else if str_eq_str(value.as_str(), "false") {
                        ScalarValue::Boolean(false)
                    } else {
                        ScalarValue::BadValue
                    }
                } else if str_eq_str(t.suffix.as_str(), "int") {
                    match parse_i64_radix(value.as_str(), 10) {
                        Some(i) => ScalarValue::Integer(i),
                        None => ScalarValue::BadValue,
                    }
                } else if str_eq_str(t.suffix.as_str(), "float") {
                    if is_core_float_str(value.as_str()) {
                        ScalarValue::Real(value)
                    } else {
                        ScalarValue::BadValue
                    }
                } else if str_eq_str(t.suffix.as_str(), "null") {
                    if str_eq_str(value.as_str(), "~") || str_eq_str(value.as_str(), "null") {
                        ScalarValue::Null
                    } else {
                        ScalarValue::BadValue
                    }
                } else {
                    ScalarValue::String(value)
                }
            } else {
                ScalarValue::String(value)
            }
        } else {
            Self::from_string(value)
        }
    }

    /// Convert a reference string to a scalar value, inferring its type.
    #[must_use]
    pub fn from_str(v: &str) -> (r: ScalarValue)
        ensures
            r@ == scalar_from_text(v@),
    {
        Self::from_cow_str(String::from_str(v))
    }

    /// Convert a string to a scalar value, inferring its type.
    pub fn from_string(v: String) -> (r: ScalarValue)
        ensures
            r@ == scalar_from_text(v@),
    {
        Self::from_cow_str(v)
    }

    /// Convert an owned string to a scalar value, inferring its type under
    /// the core schema.
    pub fn from_cow_str(v: String) -> (r: ScalarValue)
        ensures
            r@ == scalar_from_text(v@),
    {
        let s = v.as_str();
        let n: usize = s.unicode_len();
        if n >= 2 && s.get_char(0) == '0' && s.get_char(1) == 'x' {
            let rest = s.substring_char(2, n);
            proof {
                assert(rest@ =~= v@.skip(2));
            }
            match parse_i64_radix(rest, 16) {
                Some(i) => ScalarValue::Integer(i),
                None => scalar_from_tail(v),
            }
        } else if n >= 2 && s.get_char(0) == '0' && s.get_char(1) == 'o' {
            let rest = s.substring_char(2, n);
            proof {
                assert(rest@ =~= v@.skip(2));
            }
            match parse_i64_radix(rest, 8) {
                Some(i) => ScalarValue::Integer(i),
                None => scalar_from_tail(v),
            }
        } else if n >= 1 && s.get_char(0) == '+' {
            let rest = s.substring_char(1, n);
            proof {
                assert(rest@ =~= v@.skip(1));
            }
            match parse_i64_radix(rest, 10) {
                Some(i) => ScalarValue::Integer(i),
                None => scalar_from_tail(v),
            }
        } else {
            scalar_from_tail(v)
        }
    }
}

} // verus!
