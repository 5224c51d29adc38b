//! Recognizing and rendering the numeric lexical forms of the core schema:
//! signed integers in base 8, 10 and 16, and the decimal float grammar.

use vstd::prelude::*;

verus! {

/// Numeric value of a digit character, or 16 when `c` is no digit at all.
/// A character is a digit in base `radix` exactly when `digit_val(c) < radix`.
pub open spec fn digit_val(c: char) -> int {
    if '0' as int <= c as int && c as int <= '9' as int {
        c as int - '0' as int
    } else if 'a' as int <= c as int && c as int <= 'f' as int {
        10 + (c as int - 'a' as int)
    } else if 'A' as int <= c as int && c as int <= 'F' as int {
        10 + (c as int - 'A' as int)
    } else {
        16
    }
}

pub open spec fn all_digits(s: Seq<char>, radix: int) -> bool {
    forall|i: int| 0 <= i < s.len() ==> digit_val(#[trigger] s[i]) < radix
}

/// Value of a digit string read most-significant first.
pub open spec fn digits_val(s: Seq<char>, radix: int) -> int
    decreases s.len(),
{
    if s.len() == 0 {
        0
    } else {
        digits_val(s.drop_last(), radix) * radix + digit_val(s.last())
    }
}

/// What `i64::from_str_radix` (and, for base 10, `str::parse::<i64>`) accepts:
/// an optional sign, then one or more digits, with the value in range.
pub open spec fn parse_int_text(s: Seq<char>, radix: int) -> Option<int> {
    let neg = s.len() > 0 && s[0] == '-';
    let t = if s.len() > 0 && (s[0] == '-' || s[0] == '+') {
        s.drop_first()
    } else {
        s
    };
    if t.len() == 0 || !all_digits(t, radix) {
        None
    } else {
        let v = digits_val(t, radix);
        if neg && v <= 0x8000_0000_0000_0000 {
            Some(-v)
        } else if !neg && v < 0x8000_0000_0000_0000 {
            Some(v)
        } else {
            None
        }
    }
}

pub proof fn lemma_digits_val_nonneg(s: Seq<char>, radix: int)
    requires
        radix >= 2,
        all_digits(s, radix),
    ensures
        digits_val(s, radix) >= 0,
    decreases s.len(),
{
    if s.len() > 0 {
        assert(all_digits(s.drop_last(), radix));
        lemma_digits_val_nonneg(s.drop_last(), radix);
        assert(digit_val(s.last()) >= 0);
        assert(digits_val(s.drop_last(), radix) * radix >= 0) by (nonlinear_arith)
            requires
                digits_val(s.drop_last(), radix) >= 0,
                radix >= 2,
        ;
    }
}

/// Extending a digit string never shrinks its value.
pub proof fn lemma_digits_val_grows(s: Seq<char>, k: int, radix: int)
    requires
        radix >= 2,
        0 <= k <= s.len(),
        all_digits(s, radix),
    ensures
        digits_val(s, radix) >= digits_val(s.take(k), radix),
    decreases s.len(),
{
    if k < s.len() {
        let d = s.drop_last();
        assert(all_digits(d, radix));
        lemma_digits_val_grows(d, k, radix);
        assert(d.take(k) =~= s.take(k));
        lemma_digits_val_nonneg(d, radix);
        assert(digits_val(d, radix) * radix >= digits_val(d, radix)) by (nonlinear_arith)
            requires
                digits_val(d, radix) >= 0,
                radix >= 2,
        ;
        assert(digit_val(s.last()) >= 0);
    } else {
        assert(s.take(k) =~= s);
    }
}

/// Digit lookup used by the verified integer parser.
pub fn digit_in_radix(c: char, radix: u32) -> (r: Option<u32>)
    requires
        2 <= radix <= 16,
    ensures
        match r {
            Some(d) => digit_val(c) < radix && d as int == digit_val(c),
            None => digit_val(c) >= radix,
        },
{
    let u: u32 = c as u32;
    let v: u32 = if 0x30 <= u && u <= 0x39 {
        u - 0x30
    } else if 0x61 <= u && u <= 0x66 {
        10 + (u - 0x61)
    } else if 0x41 <= u && u <= 0x46 {
        10 + (u - 0x41)
    } else {
        16
    };
    if v < radix {
        Some(v)
    } else {
        None
    }
}

/// Signed 64-bit integer parsing in base 8, 10 or 16, matching
/// `parse_int_text`: sign, digits, and overflow are all accounted for.
pub fn parse_i64_radix(s: &str, radix: u32) -> (r: Option<i64>)
    requires
        radix == 8 || radix == 10 || radix == 16,
    ensures
        match r {
            Some(x) => parse_int_text(s@, radix as int) == Some(x as int),
            None => parse_int_text(s@, radix as int) is None,
        },
{
    let n: usize = s.unicode_len();
    let mut i: usize = 0;
    let mut neg: bool = false;
    if n > 0 {
        let c0 = s.get_char(0);
        if c0 == '-' {
            neg = true;
            i = 1;
        } else if c0 == '+' {
            i = 1;
        }
    }
    let ghost start: int = i as int;
    let ghost t: Seq<char> = s@.subrange(start, n as int);
    proof {
        if start == 1 {
            assert(t =~= s@.drop_first());
        } else {
            assert(t =~= s@);
        }
    }
    if i >= n {
        return None;
    }
    let bound: u128 = if neg {
        0x8000_0000_0000_0000
    } else {
        0x7fff_ffff_ffff_ffff
    };
    let mut acc: u128 = 0;
    while i < n
        invariant
            start <= i as int <= n as int,
            n as int == s@.len(),
            t == s@.subrange(start, n as int),
            0 <= start <= 1,
            start == 1 ==> s@[0] == '-' || s@[0] == '+',
            start == 0 ==> !(s@.len() > 0 && (s@[0] == '-' || s@[0] == '+')),
            neg <==> (s@.len() > 0 && s@[0] == '-'),
            bound == if neg { 0x8000_0000_0000_0000u128 } else { 0x7fff_ffff_ffff_ffff_u128 },
            radix == 8 || radix == 10 || radix == 16,
            all_digits(t.take(i as int - start), radix as int),
            acc as int == digits_val(t.take(i as int - start), radix as int),
            acc <= bound,
        decreases n as int - i as int,
    {
        let c = s.get_char(i);
        let ghost k: int = i as int - start;
        assert(t[k] == c);
        match digit_in_radix(c, radix) {
            None => {
                assert(!all_digits(t, radix as int));
                return None;
            },
            Some(d) => {
                assert(acc * (radix as u128) <= 0x8000_0000_0000_0000u128 * 16) by (nonlinear_arith)
                    requires
                        acc <= 0x8000_0000_0000_0000u128,
                        radix <= 16,
                ;
                let next: u128 = acc * (radix as u128) + (d as u128);
                proof {
                    assert(t.take(k + 1).drop_last() =~= t.take(k));
                    assert(t.take(k + 1).last() == t[k]);
                    assert(all_digits(t.take(k + 1), radix as int));
                    assert(next as int == digits_val(t.take(k + 1), radix as int));
                }
                if next > bound {
                    // The value of the whole digit string can only exceed
                    // `next`, so it is out of range whatever follows.
                    proof {
                        let ghost spec_t = if s@.len() > 0 && (s@[0] == '-' || s@[0] == '+') {
                            s@.drop_first()
                        } else {
                            s@
                        };
                        assert(t == spec_t);
                        if all_digits(t, radix as int) {
                            lemma_digits_val_grows(t, k + 1, radix as int);
                            assert(digits_val(t, radix as int) >= next as int);
                        }
                    }
                    return None;
                }
                acc = next;
                i = i + 1;
            },
        }
    }
    proof {
        assert(t.take(n as int - start) =~= t);
    }
    if neg {
        if acc == 0x8000_0000_0000_0000 {
            Some(i64::MIN)
        } else {
            Some(-(acc as i64))
        }
    } else {
        Some(acc as i64)
    }
}

pub open spec fn is_dec_digit(c: char) -> bool {
    '0' as int <= c as int && c as int <= '9' as int
}

/// First position at or after `i` that does not hold a decimal digit.
pub open spec fn skip_digits(s: Seq<char>, i: int) -> int
    decreases s.len() - i when 0 <= i <= s.len()
{
    if 0 <= i < s.len() && is_dec_digit(s[i]) {
        skip_digits(s, i + 1)
    } else {
        i
    }
}

/// Case-insensitive match of `c` against a lowercase letter.
pub open spec fn ci_eq(c: char, lower: char) -> bool {
    c == lower || c as int == lower as int - 32
}

pub open spec fn is_ci_inf(t: Seq<char>) -> bool {
    t.len() == 3 && ci_eq(t[0], 'i') && ci_eq(t[1], 'n') && ci_eq(t[2], 'f')
}

pub open spec fn is_ci_infinity(t: Seq<char>) -> bool {
    t.len() == 8 && ci_eq(t[0], 'i') && ci_eq(t[1], 'n') && ci_eq(t[2], 'f') && ci_eq(t[3], 'i')
        && ci_eq(t[4], 'n') && ci_eq(t[5], 'i') && ci_eq(t[6], 't') && ci_eq(t[7], 'y')
}

pub open spec fn is_ci_nan(t: Seq<char>) -> bool {
    t.len() == 3 && ci_eq(t[0], 'n') && ci_eq(t[1], 'a') && ci_eq(t[2], 'n')
}

/// The decimal part of the float grammar: digits, an optional dot with
/// digits, and an optional exponent, with at least one mantissa digit.
pub open spec fn is_f64_number(t: Seq<char>) -> bool {
    let j = skip_digits(t, 0);
    let has_dot = j < t.len() && t[j] == '.';
    let k = if has_dot {
        skip_digits(t, j + 1)
    } else {
        j
    };
    let mant_ok = j > 0 || (has_dot && k > j + 1);
    if !mant_ok {
        false
    } else if k == t.len() {
        true
    } else if t[k] == 'e' || t[k] == 'E' {
        let p = if k + 1 < t.len() && (t[k + 1] == '+' || t[k + 1] == '-') {
            k + 2
        } else {
            k + 1
        };
        p < t.len() && skip_digits(t, p) == t.len()
    } else {
        false
    }
}

/// The grammar accepted by `str::parse::<f64>`: an optional sign, then a
/// case-insensitive infinity or not-a-number word, or a decimal number.
pub open spec fn is_f64_text(s: Seq<char>) -> bool {
    let t = if s.len() > 0 && (s[0] == '+' || s[0] == '-') {
        s.drop_first()
    } else {
        s
    };
    is_ci_inf(t) || is_ci_infinity(t) || is_ci_nan(t) || is_f64_number(t)
}

/// Scan decimal digits starting at `i`; returns the first non-digit position.
pub fn scan_digits(s: &str, i: usize) -> (j: usize)
    requires
        i <= s@.len(),
    ensures
        j as int == skip_digits(s@, i as int),
        i <= j <= s@.len(),
    decreases s@.len() - i as int,
{
    let n: usize = s.unicode_len();
    if i < n {
        let c = s.get_char(i);
        if '0' <= c && c <= '9' {
            return scan_digits(s, i + 1);
        }
    }
    i
}

fn char_ci_eq(c: char, lower: char) -> (r: bool)
    ensures
        r == ci_eq(c, lower),
{
    let cu: u32 = c as u32;
    let lu: u32 = lower as u32;
    cu == lu || cu + 32 == lu
}

fn str_ci_eq3(s: &str, i: usize, a: char, b: char, c: char) -> (r: bool)
    requires
        i <= s@.len(),
    ensures
        r == (s@.len() - i == 3 && ci_eq(s@[i as int], a) && ci_eq(s@[i as int + 1], b) && ci_eq(
            s@[i as int + 2],
            c,
        )),
{
    let n: usize = s.unicode_len();
    n - i == 3 && char_ci_eq(s.get_char(i), a) && char_ci_eq(s.get_char(i + 1), b) && char_ci_eq(
        s.get_char(i + 2),
        c,
    )
}

/// Recognizer for the float grammar of `str::parse::<f64>`.
pub fn is_f64_literal(s: &str) -> (r: bool)
    ensures
        r == is_f64_text(s@),
{
    let n: usize = s.unicode_len();
    let mut i: usize = 0;
    if n > 0 {
        let c0 = s.get_char(0);
        if c0 == '+' || c0 == '-' {
            i = 1;
        }
    }
    let ghost t: Seq<char> = s@.subrange(i as int, n as int);
    proof {
        if i == 1 {
            assert(t =~= s@.drop_first());
        } else {
            assert(t =~= s@);
        }
    }
    if str_ci_eq3(s, i, 'i', 'n', 'f') {
        return true;
    }
    if n - i == 8 && char_ci_eq(s.get_char(i), 'i') && char_ci_eq(s.get_char(i + 1), 'n')
        && char_ci_eq(s.get_char(i + 2), 'f') && char_ci_eq(s.get_char(i + 3), 'i') && char_ci_eq(
        s.get_char(i + 4),
        'n',
    ) && char_ci_eq(s.get_char(i + 5), 'i') && char_ci_eq(s.get_char(i + 6), 't') && char_ci_eq(
        s.get_char(i + 7),
        'y',
    ) {
        return true;
    }
    if str_ci_eq3(s, i, 'n', 'a', 'n') {
        return true;
    }
    // The decimal number grammar, scanned left to right.
    let start = i;
    let j = scan_digits(s, start);
    proof {
        assert(skip_digits(t, 0) == skip_digits(s@, start as int) - start) by {
            lemma_skip_digits_shift(s@, start as int, 0, t);
        }
    }
    let has_dot = j < n && s.get_char(j) == '.';
    let k = if has_dot {
        scan_digits(s, j + 1)
    } else {
        j
    };
    proof {
        if has_dot {
            lemma_skip_digits_shift(s@, start as int, j as int + 1 - start, t);
        }
    }
    let mant_ok = j > start || (has_dot && k > j + 1);
    if !mant_ok {
        return false;
    }
    if k == n {
        return true;
    }
    let ce = s.get_char(k);
    if ce == 'e' || ce == 'E' {
        let p = if k + 1 < n && (s.get_char(k + 1) == '+' || s.get_char(k + 1) == '-') {
            k + 2
        } else {
            k + 1
        };
        if p < n {
            let q = scan_digits(s, p);
            proof {
                lemma_skip_digits_shift(s@, start as int, p as int - start, t);
            }
            q == n
        } else {
            false
        }
    } else {
        false
    }
}

/// Digit scanning is unchanged by cutting a prefix off the string.
proof fn lemma_skip_digits_shift(s: Seq<char>, start: int, i: int, t: Seq<char>)
    requires
        0 <= start <= s.len(),
        t == s.subrange(start, s.len() as int),
        0 <= i <= t.len(),
    ensures
        skip_digits(t, i) == skip_digits(s, i + start) - start,
    decreases t.len() - i,
{
    if 0 <= i < t.len() && is_dec_digit(t[i]) {
        lemma_skip_digits_shift(s, start, i + 1, t);
    }
}

pub open spec fn dec_digit_char(d: int) -> char {
    if d == 0 {
        '0'
    } else if d == 1 {
        '1'
    } else if d == 2 {
        '2'
    } else if d == 3 {
        '3'
    } else if d == 4 {
        '4'
    } else if d == 5 {
        '5'
    } else if d == 6 {
        '6'
    } else if d == 7 {
        '7'
    } else if d == 8 {
        '8'
    } else {
        '9'
    }
}

/// Decimal rendering of a nonnegative value, most-significant digit first.
pub open spec fn u64_dec_text(n: int) -> Seq<char>
    decreases n,
{
    if n < 10 {
        seq![dec_digit_char(n)]
    } else {
        u64_dec_text(n / 10) + seq![dec_digit_char(n % 10)]
    }
}

/// Canonical base-10 rendering of a signed integer.
pub open spec fn i64_dec_text(i: int) -> Seq<char> {
    if i < 0 {
        seq!['-'] + u64_dec_text(-i)
    } else {
        u64_dec_text(i)
    }
}

fn dec_digit(d: u64) -> (c: char)
    requires
        d < 10,
    ensures
        c == dec_digit_char(d as int),
{
    match d {
        0 => '0',
        1 => '1',
        2 => '2',
        3 => '3',
        4 => '4',
        5 => '5',
        6 => '6',
        7 => '7',
        8 => '8',
        _ => '9',
    }
}

pub fn push_u64_dec(out: &mut Vec<char>, n: u64)
    ensures
        final(out)@ == old(out)@ + u64_dec_text(n as int),
    decreases n,
{
    if n < 10 {
        out.push(dec_digit(n));
    } else {
        push_u64_dec(out, n / 10);
        out.push(dec_digit(n % 10));
    }
}

/// Appends the canonical decimal form of `i` to `out`.
pub fn push_i64_dec(out: &mut Vec<char>, i: i64)
    ensures
        final(out)@ == old(out)@ + i64_dec_text(i as int),
{
    if i >= 0 {
        push_u64_dec(out, i as u64);
    } else {
        out.push('-');
        let m: i128 = -(i as i128);
        push_u64_dec(out, m as u64);
        proof {
            assert(out@ =~= old(out)@ + i64_dec_text(i as int));
        }
    }
}

} // verus!
