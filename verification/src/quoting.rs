//! The lexical policy: when a string must be double-quoted, how it is
//! escaped, when it qualifies for literal block style, and how indentation
//! is laid out.

use vstd::prelude::*;
use crate::chars::contains_char;
use crate::strnum::dec_digit_char;
use crate::strnum::is_f64_text;
use crate::strnum::is_f64_literal;
use crate::strnum::parse_int_text;
use crate::strnum::parse_i64_radix;
use crate::chars::str_eq_str;

verus! {

/// Characters that force quoting when they open a string.
pub open spec fn first_char_forces_quote(c: char) -> bool {
    c == '&' || c == '*' || c == '?' || c == '|' || c == '-' || c == '<' || c == '>' || c == '='
        || c == '!' || c == '%' || c == '@'
}

/// Characters that force quoting wherever they occur: syntax characters,
/// quotes, the backslash, and the control ranges.
pub open spec fn char_forces_quote(c: char) -> bool {
    c == ':' || c == '{' || c == '}' || c == '[' || c == ']' || c == ',' || c == '#' || c == '`'
        || c == '"' || c == '\'' || c == '\\' || c as int <= 0x06 || c == '\t' || c == '\n'
        || c == '\r' || (0x0e <= c as int && c as int <= 0x1a) || (0x1c <= c as int && c as int
        <= 0x1f)
}

/// The reserved boolean and null words that would change meaning if left
/// bare.  The single letters y/Y/n/N are deliberately not reserved.
pub open spec fn is_reserved_word(s: Seq<char>) -> bool {
    s == "yes"@ || s == "Yes"@ || s == "YES"@ || s == "no"@ || s == "No"@ || s == "NO"@
        || s == "True"@ || s == "TRUE"@ || s == "true"@ || s == "False"@ || s == "FALSE"@
        || s == "false"@ || s == "on"@ || s == "On"@ || s == "ON"@ || s == "off"@ || s == "Off"@
        || s == "OFF"@ || s == "null"@ || s == "Null"@ || s == "NULL"@ || s == "~"@
}

/// When a string scalar cannot be written bare and must be double-quoted.
pub open spec fn need_quotes_text(s: Seq<char>) -> bool {
    s.len() == 0 || s[0] == ' ' || s.last() == ' ' || first_char_forces_quote(s[0]) || (exists|
        i: int,
    | 0 <= i < s.len() && char_forces_quote(#[trigger] s[i])) || is_reserved_word(s) || s[0] == '.'
        || (s.len() >= 2 && s[0] == '0' && s[1] == 'x') || parse_int_text(s, 10) is Some
        || is_f64_text(s)
}

fn char_forces_quote_exec(c: char) -> (r: bool)
    ensures
        r == char_forces_quote(c),
{
    let u: u32 = c as u32;
    c == ':' || c == '{' || c == '}' || c == '[' || c == ']' || c == ',' || c == '#' || c == '`'
        || c == '"' || c == '\'' || c == '\\' || u <= 0x06 || c == '\t' || c == '\n' || c == '\r'
        || (0x0e <= u && u <= 0x1a) || (0x1c <= u && u <= 0x1f)
}

fn contains_forcing_char(s: &str) -> (r: bool)
    ensures
        r == exists|i: int| 0 <= i < s@.len() && char_forces_quote(#[trigger] s@[i]),
{
    let n: usize = s.unicode_len();
    let mut i: usize = 0;
    while i < n
        invariant
            i <= n,
            n as int == s@.len(),
            forall|j: int| 0 <= j < i as int ==> !char_forces_quote(#[trigger] s@[j]),
        decreases n - i,
    {
        if char_forces_quote_exec(s.get_char(i)) {
            return true;
        }
        i = i + 1;
    }
    false
}

fn is_reserved_word_exec(s: &str) -> (r: bool)
    ensures
        r == is_reserved_word(s@),
{
    str_eq_str(s, "yes") || str_eq_str(s, "Yes") || str_eq_str(s, "YES") || str_eq_str(s, "no")
        || str_eq_str(s, "No") || str_eq_str(s, "NO") || str_eq_str(s, "True") || str_eq_str(
        s,
        "TRUE",
    ) || str_eq_str(s, "true") || str_eq_str(s, "False") || str_eq_str(s, "FALSE") || str_eq_str(
        s,
        "false",
    ) || str_eq_str(s, "on") || str_eq_str(s, "On") || str_eq_str(s, "ON") || str_eq_str(s, "off")
        || str_eq_str(s, "Off") || str_eq_str(s, "OFF") || str_eq_str(s, "null") || str_eq_str(
        s,
        "Null",
    ) || str_eq_str(s, "NULL") || str_eq_str(s, "~")
}

/// Whether the string requires double-quoted rendering.
pub fn need_quotes(s: &str) -> (r: bool)
    ensures
        r == need_quotes_text(s@),
{
    let n: usize = s.unicode_len();
    if n == 0 {
        return true;
    }
    let c0 = s.get_char(0);
    let cl = s.get_char(n - 1);
    if c0 == ' ' || cl == ' ' {
        return true;
    }
    if c0 == '&' || c0 == '*' || c0 == '?' || c0 == '|' || c0 == '-' || c0 == '<' || c0 == '>'
        || c0 == '=' || c0 == '!' || c0 == '%' || c0 == '@' {
        return true;
    }
    if contains_forcing_char(s) {
        return true;
    }
    if is_reserved_word_exec(s) {
        return true;
    }
    if c0 == '.' {
        return true;
    }
    if n >= 2 && c0 == '0' && s.get_char(1) == 'x' {
        return true;
    }
    if parse_i64_radix(s, 10).is_some() {
        return true;
    }
    if is_f64_literal(s) {
        return true;
    }
    false
}

pub open spec fn hex_digit_char(d: int) -> char {
    if d < 10 {
        dec_digit_char(d)
    } else if d == 10 {
        'a'
    } else if d == 11 {
        'b'
    } else if d == 12 {
        'c'
    } else if d == 13 {
        'd'
    } else if d == 14 {
        'e'
    } else {
        'f'
    }
}

/// The double-quoted rendering of one character: quotes, backslashes and
/// control characters are escaped, everything else passes through.
pub open spec fn escape_char_text(c: char) -> Seq<char> {
    let u = c as int;
    if c == '"' {
        seq!['\\', '"']
    } else if c == '\\' {
        seq!['\\', '\\']
    } else if u == 0x08 {
        seq!['\\', 'b']
    } else if c == '\t' {
        seq!['\\', 't']
    } else if c == '\n' {
        seq!['\\', 'n']
    } else if u == 0x0c {
        seq!['\\', 'f']
    } else if c == '\r' {
        seq!['\\', 'r']
    } else if u < 0x20 || u == 0x7f {
        seq!['\\', 'u', '0', '0', hex_digit_char(u / 16), hex_digit_char(u % 16)]
    } else {
        seq![c]
    }
}

pub open spec fn escaped_body(s: Seq<char>) -> Seq<char>
    decreases s.len(),
{
    if s.len() == 0 {
        Seq::empty()
    } else {
        escaped_body(s.drop_last()) + escape_char_text(s.last())
    }
}

/// The full double-quoted form of a string.
pub open spec fn escaped_text(s: Seq<char>) -> Seq<char> {
    seq!['"'] + escaped_body(s) + seq!['"']
}

fn hex_digit(d: u32) -> (c: char)
    requires
        d < 16,
    ensures
        c == hex_digit_char(d as int),
{
    match d {
        0 => '0',
        1 => '1',
        2 => '2',
        3 => '3',
        4 => '4',
        5 => '5',
        6 => '6',
        7 => '7',
        8 => '8',
        9 => '9',
        10 => 'a',
        11 => 'b',
        12 => 'c',
        13 => 'd',
        14 => 'e',
        _ => 'f',
    }
}

fn push_escaped_char(out: &mut Vec<char>, c: char)
    ensures
        final(out)@ == old(out)@ + escape_char_text(c),
{
    let u: u32 = c as u32;
    if c == '"' {
        out.push('\\');
        out.push('"');
    } else if c == '\\' {
        out.push('\\');
        out.push('\\');
    } else if u == 0x08 {
        out.push('\\');
        out.push('b');
    } else if c == '\t' {
        out.push('\\');
        out.push('t');
    } else if c == '\n' {
        out.push('\\');
        out.push('n');
    } else if u == 0x0c {
        out.push('\\');
        out.push('f');
    } else if c == '\r' {
        out.push('\\');
        out.push('r');
    } else if u < 0x20 || u == 0x7f {
        out.push('\\');
        out.push('u');
        out.push('0');
        out.push('0');
        out.push(hex_digit(u / 16));
        out.push(hex_digit(u % 16));
    } else {
        out.push(c);
    }
    proof {
        assert(out@ =~= old(out)@ + escape_char_text(c));
    }
}

/// Appends the double-quoted escaped form of `s` to `out`.
pub fn push_escaped(out: &mut Vec<char>, s: &str)
    ensures
        final(out)@ == old(out)@ + escaped_text(s@),
{
    out.push('"');
    let n: usize = s.unicode_len();
    let mut i: usize = 0;
    while i < n
        invariant
            i <= n,
            n as int == s@.len(),
            out@ == old(out)@ + seq!['"'] + escaped_body(s@.take(i as int)),
        decreases n - i,
    {
        let c = s.get_char(i);
        push_escaped_char(out, c);
        proof {
            assert(s@.take(i as int + 1).drop_last() =~= s@.take(i as int));
            assert(s@.take(i as int + 1).last() == s@[i as int]);
            assert(out@ =~= old(out)@ + seq!['"'] + escaped_body(s@.take(i as int + 1)));
        }
        i = i + 1;
    }
    out.push('"');
    proof {
        assert(s@.take(n as int) =~= s@);
        assert(out@ =~= old(out)@ + escaped_text(s@));
    }
}

/// Characters a literal block can carry: newlines, tabs, and anything
/// printable.
pub open spec fn block_char_ok(c: char) -> bool {
    c == '\n' || c == '\t' || (0x20 <= c as int && c as int != 0x7f)
}

/// The block-eligibility rule of this emitter: the text must be non-empty,
/// must not open with a space or an empty first line, may hold no control
/// characters besides newline and tab, may hold no empty line (other than a
/// single final newline), and no line may end in trailing whitespace.  These
/// are exactly the shapes a literal block scalar reproduces unambiguously.
pub open spec fn valid_literal_block(s: Seq<char>) -> bool {
    s.len() > 0 && s[0] != ' ' && s[0] != '\n' && (forall|i: int|
        0 <= i < s.len() ==> block_char_ok(#[trigger] s[i])) && (forall|i: int|
        0 <= i < s.len() - 1 && #[trigger] s[i] == '\n' ==> s[i + 1] != '\n') && (forall|i: int|
        0 < i < s.len() && #[trigger] s[i] == '\n' ==> s[i - 1] != ' ' && s[i - 1] != '\t') && (
    s.last() == '\n' || (s.last() != ' ' && s.last() != '\t'))
}

fn block_char_ok_exec(c: char) -> (r: bool)
    ensures
        r == block_char_ok(c),
{
    let u: u32 = c as u32;
    c == '\n' || c == '\t' || (0x20 <= u && u != 0x7f)
}

/// Whether `s` is representable as a literal block scalar.
pub fn is_valid_literal_block_scalar(s: &str) -> (r: bool)
    ensures
        r == valid_literal_block(s@),
{
    let n: usize = s.unicode_len();
    if n == 0 {
        return false;
    }
    let c0 = s.get_char(0);
    if c0 == ' ' || c0 == '\n' {
        return false;
    }
    let mut i: usize = 0;
    while i < n
        invariant
            i <= n,
            n as int == s@.len(),
            forall|j: int| 0 <= j < i as int ==> block_char_ok(#[trigger] s@[j]),
            forall|j: int|
                0 < j < i as int && #[trigger] s@[j] == '\n' ==> s@[j - 1] != '\n' && s@[j - 1]
                    != ' ' && s@[j - 1] != '\t',
        decreases n - i,
    {
        let c = s.get_char(i);
        if !block_char_ok_exec(c) {
            return false;
        }
        if i > 0 && c == '\n' {
            let p = s.get_char(i - 1);
            if p == '\n' || p == ' ' || p == '\t' {
                return false;
            }
        }
        i = i + 1;
    }
    let cl = s.get_char(n - 1);
    if cl != '\n' && (cl == ' ' || cl == '\t') {
        return false;
    }
    proof {
        assert forall|k: int| 0 <= k < s@.len() - 1 && #[trigger] s@[k] == '\n' implies s@[k + 1]
            != '\n' by {
            if s@[k + 1] == '\n' {
                assert(s@[(k + 1) - 1] != '\n');
            }
        }
    }
    true
}

pub open spec fn spaces(n: nat) -> Seq<char>
    decreases n,
{
    if n == 0 {
        Seq::empty()
    } else {
        spaces((n - 1) as nat) + seq![' ']
    }
}

pub proof fn lemma_spaces_add(a: nat, b: nat)
    ensures
        spaces(a + b) == spaces(a) + spaces(b),
    decreases b,
{
    if b == 0 {
        assert(spaces(a + 0) =~= spaces(a) + spaces(0));
    } else {
        lemma_spaces_add(a, (b - 1) as nat);
        assert(spaces(a + b) =~= spaces(a) + spaces(b));
    }
}

/// The indentation written before a nested line: nothing at or above the
/// root, otherwise `level * width` spaces.
pub open spec fn indent_text(level: int, width: nat) -> Seq<char> {
    if level <= 0 {
        Seq::empty()
    } else {
        spaces((level * width) as nat)
    }
}

/// Appends the indentation for `level` to `out`.
pub fn push_indent(out: &mut Vec<char>, level: i128, width: usize)
    ensures
        final(out)@ == old(out)@ + indent_text(level as int, width as nat),
{
    if level <= 0 {
        proof {
            assert(out@ =~= old(out)@ + indent_text(level as int, width as nat));
        }
        return ;
    }
    let mut lv: i128 = 0;
    while lv < level
        invariant
            0 <= lv <= level,
            out@ == old(out)@ + spaces((lv * width) as nat),
        decreases level - lv,
    {
        let mut j: usize = 0;
        while j < width
            invariant
                j <= width,
                0 <= lv < level,
                out@ == old(out)@ + spaces((lv * width) as nat) + spaces(j as nat),
            decreases width - j,
        {
            out.push(' ');
            proof {
                assert(out@ =~= old(out)@ + spaces((lv * width) as nat) + spaces(j as nat + 1));
            }
            j = j + 1;
        }
        proof {
            assert((lv + 1) * width == lv * width + width) by (nonlinear_arith);
            assert(lv * width >= 0) by (nonlinear_arith)
                requires
                    lv >= 0,
            ;
            lemma_spaces_add((lv * width) as nat, width as nat);
        }
        lv = lv + 1;
    }
    proof {
        assert(level * width > 0 ==> indent_text(level as int, width as nat) == spaces(
            (level * width) as nat,
        ));
        assert(level * width >= 0) by (nonlinear_arith)
            requires
                level >= 1,
        ;
        assert(out@ =~= old(out)@ + indent_text(level as int, width as nat));
    }
}

/// `s` with every newline followed by the given indentation.
pub open spec fn nl_replaced(s: Seq<char>, ind: Seq<char>) -> Seq<char>
    decreases s.len(),
{
    if s.len() == 0 {
        Seq::empty()
    } else {
        nl_replaced(s.drop_last(), ind) + (if s.last() == '\n' {
            seq!['\n'] + ind
        } else {
            seq![s.last()]
        })
    }
}

/// The literal block form: a `|` header (`|-` when no trailing newline is to
/// be reproduced), then every line on its own row, one level deeper.
pub open spec fn literal_block_text(s: Seq<char>, level: int, width: nat) -> Seq<char> {
    let header = if s.last() == '\n' {
        seq!['|']
    } else {
        seq!['|', '-']
    };
    let body = if s.last() == '\n' {
        s.drop_last()
    } else {
        s
    };
    let ind = indent_text(level + 1, width);
    header + seq!['\n'] + ind + nl_replaced(body, ind)
}

/// Appends the indentation for one level deeper than `level`, without ever
/// stepping the level itself past its type's range.
pub fn push_indent_deeper(out: &mut Vec<char>, level: i128, width: usize)
    ensures
        final(out)@ == old(out)@ + indent_text(level as int + 1, width as nat),
{
    if level >= 0 {
        let mut j: usize = 0;
        while j < width
            invariant
                j <= width,
                out@ == old(out)@ + spaces(j as nat),
            decreases width - j,
        {
            out.push(' ');
            proof {
                assert(out@ =~= old(out)@ + spaces(j as nat + 1));
            }
            j = j + 1;
        }
        push_indent(out, level, width);
        proof {
            if level > 0 {
                assert((level + 1) * width == width + level * width) by (nonlinear_arith);
                assert(level * width >= 0) by (nonlinear_arith)
                    requires
                        level >= 1,
                ;
                lemma_spaces_add(width as nat, (level * width) as nat);
                assert(out@ =~= old(out)@ + indent_text(level as int + 1, width as nat));
            } else {
                assert(out@ =~= old(out)@ + indent_text(level as int + 1, width as nat));
            }
        }
    } else {
        proof {
            assert(out@ =~= old(out)@ + indent_text(level as int + 1, width as nat));
        }
    }
}

/// Appends the literal block rendering of `s` to `out`.
pub fn push_literal_block(out: &mut Vec<char>, s: &str, level: i128, width: usize)
    requires
        s@.len() > 0,
    ensures
        final(out)@ == old(out)@ + literal_block_text(s@, level as int, width as nat),
{
    let n: usize = s.unicode_len();
    let last = s.get_char(n - 1);
    let m: usize = if last == '\n' {
        out.push('|');
        n - 1
    } else {
        out.push('|');
        out.push('-');
        n
    };
    let ghost body: Seq<char> = if last == '\n' {
        s@.drop_last()
    } else {
        s@
    };
    let ghost header: Seq<char> = if last == '\n' {
        seq!['|']
    } else {
        seq!['|', '-']
    };
    let ghost ind: Seq<char> = indent_text(level as int + 1, width as nat);
    out.push('\n');
    push_indent_deeper(out, level, width);
    proof {
        assert(out@ =~= old(out)@ + header + seq!['\n'] + ind);
        assert(body =~= s@.take(m as int));
    }
    let ghost base: Seq<char> = out@;
    let mut i: usize = 0;
    while i < m
        invariant
            i <= m,
            m as int == body.len(),
            n as int == s@.len(),
            m <= n,
            body == s@.take(m as int),
            ind == indent_text(level as int + 1, width as nat),
            base == old(out)@ + header + seq!['\n'] + ind,
            out@ == base + nl_replaced(body.take(i as int), ind),
        decreases m - i,
    {
        let c = s.get_char(i);
        if c == '\n' {
            out.push('\n');
            push_indent_deeper(out, level, width);
        } else {
            out.push(c);
        }
        proof {
            assert(body.take(i as int + 1).drop_last() =~= body.take(i as int));
            assert(body.take(i as int + 1).last() == body[i as int]);
            assert(body[i as int] == s@[i as int]);
            assert(out@ =~= base + nl_replaced(body.take(i as int + 1), ind));
        }
        i = i + 1;
    }
    proof {
        assert(body.take(m as int) =~= body);
        assert(out@ =~= old(out)@ + literal_block_text(s@, level as int, width as nat));
    }
}

} // verus!
