//! Type inference for leaf text: ordered, first-match trial over integer,
//! float, three timestamp layouts, URL, and the universal text fallback.

use vstd::prelude::*;
use vstd::string::StrSliceExecFns;
use crate::kinds::{TsKind, ValueKind, ValueTypeOption};

verus! {

/// Whether `c` is an ASCII decimal digit.
pub open spec fn is_digit(c: char) -> bool {
    48 <= c as u32 <= 57
}

/// Whether every character of `s` is an ASCII decimal digit.
pub open spec fn all_digits(s: Seq<char>) -> bool {
    forall|i: int| 0 <= i < s.len() ==> is_digit(#[trigger] s[i])
}

/// The numeric value of a digit string.
pub open spec fn digits_val(s: Seq<char>) -> int
    decreases s.len(),
{
    if s.len() == 0 {
        0
    } else {
        digits_val(s.subrange(0, s.len() - 1)) * 10 + (s[s.len() - 1] as u32 - 48)
    }
}

/// Whether `s` is a decimal signed 64-bit integer: an optional sign, one or
/// more digits, and a magnitude within the type's range.
pub open spec fn is_i64_str(s: Seq<char>) -> bool {
    let signed = s.len() > 0 && (s[0] == '+' || s[0] == '-');
    let mag = if signed {
        s.subrange(1, s.len() as int)
    } else {
        s
    };
    let bound: int = if s.len() > 0 && s[0] == '-' {
        0x8000000000000000
    } else {
        0x7fffffffffffffff
    };
    mag.len() > 0 && all_digits(mag) && digits_val(mag) <= bound
}

proof fn lemma_digits_val_nonneg(d: Seq<char>)
    requires
        all_digits(d),
    ensures
        digits_val(d) >= 0,
    decreases d.len(),
{
    if d.len() > 0 {
        let front = d.subrange(0, d.len() - 1);
        assert(all_digits(front)) by {
            assert forall|i: int| 0 <= i < front.len() implies is_digit(#[trigger] front[i]) by {
                assert(front[i] == d[i]);
            }
        }
        lemma_digits_val_nonneg(front);
    }
}

/// Appending digits never lowers the value: the value of a digit string is
/// at least the value of any of its prefixes.
proof fn lemma_digits_val_prefix(d: Seq<char>, m: int)
    requires
        0 <= m <= d.len(),
        all_digits(d),
    ensures
        digits_val(d) >= digits_val(d.subrange(0, m)),
    decreases d.len() - m,
{
    if m == d.len() {
        assert(d.subrange(0, d.len() as int) =~= d);
    } else {
        let front = d.subrange(0, d.len() - 1);
        assert(all_digits(front)) by {
            assert forall|i: int| 0 <= i < front.len() implies is_digit(#[trigger] front[i]) by {
                assert(front[i] == d[i]);
            }
        }
        lemma_digits_val_nonneg(front);
        assert(is_digit(d[d.len() - 1]));
        assert(digits_val(d) >= digits_val(front));
        lemma_digits_val_prefix(front, m);
        assert(front.subrange(0, m) =~= d.subrange(0, m));
    }
}

/// Whether the text is a decimal signed 64-bit integer: an optional sign,
/// one or more digits, magnitude in range (`i64`'s negative bound is one
/// larger than its positive one).
pub fn is_integer_text(s: &str) -> (r: bool)
    ensures
        r == is_i64_str(s@),
{
    let n = s.unicode_len();
    if n == 0 {
        return false;
    }
    let c0 = s.get_char(0);
    let signed = c0 == '+' || c0 == '-';
    let neg = c0 == '-';
    let start: usize = if signed {
        1
    } else {
        0
    };
    let ghost mag = if signed {
        s@.subrange(1, s@.len() as int)
    } else {
        s@
    };
    let bound: u128 = if neg {
        0x8000000000000000
    } else {
        0x7fffffffffffffff
    };
    if start == n {
        return false;
    }
    let mut acc: u128 = 0;
    let mut i: usize = start;
    while i < n
        invariant
            n == s@.len(),
            start <= i <= n,
            start <= 1,
            n > start,
            mag == s@.subrange(start as int, n as int),
            mag.len() == n - start,
            s@.len() > 0 && s@[0] == '-' ==> bound == 0x8000000000000000,
            !(s@.len() > 0 && s@[0] == '-') ==> bound == 0x7fffffffffffffff,
            (start == 1) == (s@.len() > 0 && (s@[0] == '+' || s@[0] == '-')),
            all_digits(mag.subrange(0, i - start)),
            acc == digits_val(mag.subrange(0, i - start)),
            acc <= bound,
        decreases n - i,
    {
        let c = s.get_char(i);
        let u = c as u32;
        let ghost pre = mag.subrange(0, i - start);
        let ghost cur = mag.subrange(0, i + 1 - start);
        proof {
            assert(cur.subrange(0, cur.len() - 1) =~= pre);
            assert(cur[cur.len() - 1] == s@[i as int]);
        }
        if !(48 <= u && u <= 57) {
            proof {
                assert(!is_digit(mag[i - start]));
            }
            return false;
        }
        acc = acc * 10 + ((u - 48) as u128);
        proof {
            assert(all_digits(cur)) by {
                assert forall|j: int| 0 <= j < cur.len() implies is_digit(#[trigger] cur[j]) by {
                    if j < cur.len() - 1 {
                        assert(cur[j] == pre[j]);
                    }
                }
            }
            assert(acc == digits_val(cur));
        }
        if acc > bound {
            proof {
                assert(s@.subrange(0, s@.len() as int) =~= s@);
                if all_digits(mag) {
                    lemma_digits_val_prefix(mag, i + 1 - start);
                    assert(digits_val(mag) >= digits_val(cur) > bound);
                }
            }
            return false;
        }
        i += 1;
    }
    proof {
        assert(mag.subrange(0, mag.len() as int) =~= mag);
    }
    true
}

/// The scanner state while checking a float literal: sign and word prefixes
/// (`inf`, `infinity`, `nan`, case-insensitive), integer part, fractional
/// part, exponent. `Dead` swallows every rejected input.
#[derive(Debug, Clone, Copy, PartialEq, Eq, Structural)]
pub enum FloatScan {
    Start,
    Signed,
    IntPart,
    DotOnly,
    FracPart,
    ExpStart,
    ExpSigned,
    ExpDigits,
    WordI,
    WordIn,
    WordInf,
    WordInfi,
    WordInfin,
    WordInfini,
    WordInfinit,
    WordInfinity,
    WordN,
    WordNa,
    WordNan,
    Dead,
}

/// Whether `c` is one of the two letters, in either case.
pub open spec fn is_letter(c: char, lower: char, upper: char) -> bool {
    c == lower || c == upper
}

/// One step of the float-literal scanner. The accepted language is that of
/// `f64`'s decimal grammar: an optional sign, then `inf`, `infinity` or
/// `nan` in any letter case, or digits with an optional point and an
/// optional exponent, with at least one digit around the point.
pub open spec fn float_step(st: FloatScan, c: char) -> FloatScan {
    match st {
        FloatScan::Start => {
            if c == '+' || c == '-' {
                FloatScan::Signed
            } else if is_digit(c) {
                FloatScan::IntPart
            } else if c == '.' {
                FloatScan::DotOnly
            } else if is_letter(c, 'i', 'I') {
                FloatScan::WordI
            } else if is_letter(c, 'n', 'N') {
                FloatScan::WordN
            } else {
                FloatScan::Dead
            }
        },
        FloatScan::Signed => {
            if is_digit(c) {
                FloatScan::IntPart
            } else if c == '.' {
                FloatScan::DotOnly
            } else if is_letter(c, 'i', 'I') {
                FloatScan::WordI
            } else if is_letter(c, 'n', 'N') {
                FloatScan::WordN
            } else {
                FloatScan::Dead
            }
        },
        FloatScan::IntPart => {
            if is_digit(c) {
                FloatScan::IntPart
            } else if c == '.' {
                FloatScan::FracPart
            } else if is_letter(c, 'e', 'E') {
                FloatScan::ExpStart
            } else {
                FloatScan::Dead
            }
        },
        FloatScan::DotOnly => {
            if is_digit(c) {
                FloatScan::FracPart
            } else {
                FloatScan::Dead
            }
        },
        FloatScan::FracPart => {
            if is_digit(c) {
                FloatScan::FracPart
            } else if is_letter(c, 'e', 'E') {
                FloatScan::ExpStart
            } else {
                FloatScan::Dead
            }
        },
        FloatScan::ExpStart => {
            if c == '+' || c == '-' {
                FloatScan::ExpSigned
            } else if is_digit(c) {
                FloatScan::ExpDigits
            } else {
                FloatScan::Dead
            }
        },
        FloatScan::ExpSigned => {
            if is_digit(c) {
                FloatScan::ExpDigits
            } else {
                FloatScan::Dead
            }
        },
        FloatScan::ExpDigits => {
            if is_digit(c) {
                FloatScan::ExpDigits
            } else {
                FloatScan::Dead
            }
        },
        FloatScan::WordI => {
            if is_letter(c, 'n', 'N') {
                FloatScan::WordIn
            } else {
                FloatScan::Dead
            }
        },
        FloatScan::WordIn => {
            if is_letter(c, 'f', 'F') {
                FloatScan::WordInf
            } else {
                FloatScan::Dead
            }
        },
        FloatScan::WordInf => {
            if is_letter(c, 'i', 'I') {
                FloatScan::WordInfi
            } else {
                FloatScan::Dead
            }
        },
        FloatScan::WordInfi => {
            if is_letter(c, 'n', 'N') {
                FloatScan::WordInfin
            } else {
                FloatScan::Dead
            }
        },
        FloatScan::WordInfin => {
            if is_letter(c, 'i', 'I') {
                FloatScan::WordInfini
            } else {
                FloatScan::Dead
            }
        },
        FloatScan::WordInfini => {
            if is_letter(c, 't', 'T') {
                FloatScan::WordInfinit
            } else {
                FloatScan::Dead
            }
        },
        FloatScan::WordInfinit => {
            if is_letter(c, 'y', 'Y') {
                FloatScan::WordInfinity
            } else {
                FloatScan::Dead
            }
        },
        FloatScan::WordInfinity => FloatScan::Dead,
        FloatScan::WordN => {
            if is_letter(c, 'a', 'A') {
                FloatScan::WordNa
            } else {
                FloatScan::Dead
            }
        },
        FloatScan::WordNa => {
            if is_letter(c, 'n', 'N') {
                FloatScan::WordNan
            } else {
                FloatScan::Dead
            }
        },
        FloatScan::WordNan => FloatScan::Dead,
        FloatScan::Dead => FloatScan::Dead,
    }
}

/// The scanner state after reading all of `s`.
pub open spec fn float_run(s: Seq<char>) -> FloatScan
    decreases s.len(),
{
    if s.len() == 0 {
        FloatScan::Start
    } else {
        float_step(float_run(s.subrange(0, s.len() - 1)), s[s.len() - 1])
    }
}

/// The states in which a whole input is a valid float literal.
pub open spec fn float_accepts(st: FloatScan) -> bool {
    match st {
        FloatScan::IntPart => true,
        FloatScan::FracPart => true,
        FloatScan::ExpDigits => true,
        FloatScan::WordInf => true,
        FloatScan::WordInfinity => true,
        FloatScan::WordNan => true,
        _ => false,
    }
}

/// Whether `s` is a decimal `f64` literal.
pub open spec fn is_f64_str(s: Seq<char>) -> bool {
    float_accepts(float_run(s))
}

/// One exec step of the float scanner.
fn float_step_x(st: FloatScan, c: char) -> (r: FloatScan)
    ensures
        r == float_step(st, c),
{
    let u = c as u32;
    let digit = 48 <= u && u <= 57;
    match st {
        FloatScan::Start => {
            if c == '+' || c == '-' {
                FloatScan::Signed
            } else if digit {
                FloatScan::IntPart
            } else if c == '.' {
                FloatScan::DotOnly
            } else if c == 'i' || c == 'I' {
                FloatScan::WordI
            } else if c == 'n' || c == 'N' {
                FloatScan::WordN
            } else {
                FloatScan::Dead
            }
        },
        FloatScan::Signed => {
            if digit {
                FloatScan::IntPart
            } else if c == '.' {
                FloatScan::DotOnly
            } else if c == 'i' || c == 'I' {
                FloatScan::WordI
            } else if c == 'n' || c == 'N' {
                FloatScan::WordN
            } else {
                FloatScan::Dead
            }
        },
        FloatScan::IntPart => {
            if digit {
                FloatScan::IntPart
            } else if c == '.' {
                FloatScan::FracPart
            } else if c == 'e' || c == 'E' {
                FloatScan::ExpStart
            } else {
                FloatScan::Dead
            }
        },
        FloatScan::DotOnly => {
            if digit {
                FloatScan::FracPart
            } else {
                FloatScan::Dead
            }
        },
        FloatScan::FracPart => {
            if digit {
                FloatScan::FracPart
            } else if c == 'e' || c == 'E' {
                FloatScan::ExpStart
            } else {
                FloatScan::Dead
            }
        },
        FloatScan::ExpStart => {
            if c == '+' || c == '-' {
                FloatScan::ExpSigned
            } else if digit {
                FloatScan::ExpDigits
            } else {
                FloatScan::Dead
            }
        },
        FloatScan::ExpSigned => {
            if digit {
                FloatScan::ExpDigits
            } else {
                FloatScan::Dead
            }
        },
        FloatScan::ExpDigits => {
            if digit {
                FloatScan::ExpDigits
            } else {
                FloatScan::Dead
            }
        },
        FloatScan::WordI => {
            if c == 'n' || c == 'N' {
                FloatScan::WordIn
            } else {
                FloatScan::Dead
            }
        },
        FloatScan::WordIn => {
            if c == 'f' || c == 'F' {
                FloatScan::WordInf
            } else {
                FloatScan::Dead
            }
        },
        FloatScan::WordInf => {
            if c == 'i' || c == 'I' {
                FloatScan::WordInfi
            } else {
                FloatScan::Dead
            }
        },
        FloatScan::WordInfi => {
            if c == 'n' || c == 'N' {
                FloatScan::WordInfin
            } else {
                FloatScan::Dead
            }
        },
        FloatScan::WordInfin => {
            if c == 'i' || c == 'I' {
                FloatScan::WordInfini
            } else {
                FloatScan::Dead
            }
        },
        FloatScan::WordInfini => {
            if c == 't' || c == 'T' {
                FloatScan::WordInfinit
            } else {
                FloatScan::Dead
            }
        },
        FloatScan::WordInfinit => {
            if c == 'y' || c == 'Y' {
                FloatScan::WordInfinity
            } else {
                FloatScan::Dead
            }
        },
        FloatScan::WordInfinity => FloatScan::Dead,
        FloatScan::WordN => {
            if c == 'a' || c == 'A' {
                FloatScan::WordNa
            } else {
                FloatScan::Dead
            }
        },
        FloatScan::WordNa => {
            if c == 'n' || c == 'N' {
                FloatScan::WordNan
            } else {
                FloatScan::Dead
            }
        },
        FloatScan::WordNan => FloatScan::Dead,
        FloatScan::Dead => FloatScan::Dead,
    }
}

/// Whether the text parses as a decimal `f64` literal.
pub fn is_float_text(s: &str) -> (r: bool)
    ensures
        r == is_f64_str(s@),
{
    let n = s.unicode_len();
    let mut st = FloatScan::Start;
    let mut i: usize = 0;
    while i < n
        invariant
            n == s@.len(),
            i <= n,
            st == float_run(s@.subrange(0, i as int)),
        decreases n - i,
    {
        let c = s.get_char(i);
        st = float_step_x(st, c);
        proof {
            let pre = s@.subrange(0, i as int);
            let cur = s@.subrange(0, i + 1);
            assert(cur.subrange(0, cur.len() - 1) =~= pre);
            assert(cur[cur.len() - 1] == s@[i as int]);
        }
        i += 1;
    }
    proof {
        assert(s@.subrange(0, s@.len() as int) =~= s@);
    }
    float_accepts_x(st)
}

/// Whether a final scanner state accepts.
fn float_accepts_x(st: FloatScan) -> (r: bool)
    ensures
        r == float_accepts(st),
{
    match st {
        FloatScan::IntPart => true,
        FloatScan::FracPart => true,
        FloatScan::ExpDigits => true,
        FloatScan::WordInf => true,
        FloatScan::WordInfinity => true,
        FloatScan::WordNan => true,
        _ => false,
    }
}

/// Whether chrono accepts the text against the fixed naive layout
/// `%Y-%m-%d %H:%M:%S`; a function of the characters alone.
pub uninterp spec fn naive_timestamp_ok(s: Seq<char>) -> bool;

/// Whether chrono accepts the text as an RFC 3339 date-time; a function of
/// the characters alone.
pub uninterp spec fn rfc3339_ok(s: Seq<char>) -> bool;

/// Whether chrono accepts the text as an RFC 2822 date-time; a function of
/// the characters alone.
pub uninterp spec fn rfc2822_ok(s: Seq<char>) -> bool;

/// Whether the url crate accepts the text as an absolute URL; a function of
/// the characters alone.
pub uninterp spec fn url_ok(s: Seq<char>) -> bool;

/// Relies on `chrono::NaiveDateTime::parse_from_str` with the fixed format
/// `%Y-%m-%d %H:%M:%S`: acceptance depends on the input characters alone.
#[verifier::external_body]
fn parses_as_naive_timestamp(s: &str) -> (r: bool)
    ensures
        r == naive_timestamp_ok(s@),
{
    chrono::NaiveDateTime::parse_from_str(s, "%Y-%m-%d %H:%M:%S").is_ok()
}

/// Relies on `chrono::DateTime::parse_from_rfc3339`: acceptance depends on
/// the input characters alone.
#[verifier::external_body]
fn parses_as_rfc3339(s: &str) -> (r: bool)
    ensures
        r == rfc3339_ok(s@),
{
    chrono::DateTime::parse_from_rfc3339(s).is_ok()
}

/// Relies on `chrono::DateTime::parse_from_rfc2822`: acceptance depends on
/// the input characters alone.
#[verifier::external_body]
fn parses_as_rfc2822(s: &str) -> (r: bool)
    ensures
        r == rfc2822_ok(s@),
{
    chrono::DateTime::parse_from_rfc2822(s).is_ok()
}

/// Relies on `url::Url::parse`: acceptance depends on the input characters
/// alone (relative references without a base are rejected).
#[verifier::external_body]
fn parses_as_url(s: &str) -> (r: bool)
    ensures
        r == url_ok(s@),
{
    url::Url::parse(s).is_ok()
}

/// The kind a text classifies to: ordered, first-match trial — integer,
/// else float, else naive timestamp, else RFC 3339, else RFC 2822, else
/// URL, else plain text. The order is part of the contract: `"123"` is an
/// integer even though it also parses as a float.
pub open spec fn spec_classify(s: Seq<char>) -> ValueKind {
    if is_i64_str(s) {
        ValueKind::Integer
    } else if is_f64_str(s) {
        ValueKind::Float
    } else if naive_timestamp_ok(s) {
        ValueKind::Timestamp(TsKind::Naive)
    } else if rfc3339_ok(s) {
        ValueKind::Timestamp(TsKind::Rfc3339)
    } else if rfc2822_ok(s) {
        ValueKind::Timestamp(TsKind::Rfc2822)
    } else if url_ok(s) {
        ValueKind::Url
    } else {
        ValueKind::Text
    }
}

/// Classifies a leaf's text into its primitive kind by ordered trial; the
/// result always starts `Required`, optionality being applied only during
/// merge.
pub fn guess_type(input: &str) -> (r: ValueTypeOption)
    ensures
        r == ValueTypeOption::Required(spec_classify(input@)),
{
    let kind = if is_integer_text(input) {
        ValueKind::Integer
    } else if is_float_text(input) {
        ValueKind::Float
    } else if parses_as_naive_timestamp(input) {
        ValueKind::Timestamp(TsKind::Naive)
    } else if parses_as_rfc3339(input) {
        ValueKind::Timestamp(TsKind::Rfc3339)
    } else if parses_as_rfc2822(input) {
        ValueKind::Timestamp(TsKind::Rfc2822)
    } else if parses_as_url(input) {
        ValueKind::Url
    } else {
        ValueKind::Text
    };
    ValueTypeOption::Required(kind)
}

} // verus!
