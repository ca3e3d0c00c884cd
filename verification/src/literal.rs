//! Which texts are literals of which data type.
//!
//! An unsigned integer is a run of decimal digits, without a sign, whose
//! value fits the type. A signed integer may start with one `+` or `-`. A
//! boolean is `true` or `false`. A floating-point number is an optional sign
//! followed by `inf`, `infinity` or `nan` in any case, or by digits with an
//! optional fraction and an optional exponent. Any text is a string.

use vstd::prelude::*;
use vstd::string::*;
use vstd::slice::slice_subrange;
use vstd::utf8::{is_ascii_chars, is_ascii_chars_encode_utf8};
use crate::data_type::DataType;
use crate::text::ascii_text;

verus! {

pub open spec fn is_digit_char(c: char) -> bool {
    '0' <= c <= '9'
}

pub open spec fn is_sign_char(c: char) -> bool {
    c == '+' || c == '-'
}

pub open spec fn all_digits(s: Seq<char>) -> bool {
    forall|i: int| 0 <= i < s.len() ==> is_digit_char(#[trigger] s[i])
}

/// The number that a run of decimal digits writes.
pub open spec fn decimal_value(s: Seq<char>) -> nat
    decreases s.len(),
{
    if s.len() == 0 {
        0
    } else {
        decimal_value(s.drop_last()) * 10 + ((s.last() as nat) - 48) as nat
    }
}

/// A run of one or more digits whose value is at most `max`.
pub open spec fn is_magnitude(s: Seq<char>, max: nat) -> bool {
    s.len() > 0 && all_digits(s) && decimal_value(s) <= max
}

/// An integer between `-(max + 1)` and `max`, with an optional sign.
pub open spec fn is_signed_literal(s: Seq<char>, max: nat) -> bool {
    if s.len() > 0 && s[0] == '-' {
        is_magnitude(s.skip(1), max + 1)
    } else if s.len() > 0 && s[0] == '+' {
        is_magnitude(s.skip(1), max)
    } else {
        is_magnitude(s, max)
    }
}

/// The first offset from `i` on that holds no digit, or the end of `s`.
pub open spec fn digits_end(s: Seq<char>, i: int) -> int
    decreases s.len() - i,
{
    if 0 <= i < s.len() && is_digit_char(s[i]) {
        digits_end(s, i + 1)
    } else {
        i
    }
}

/// The lower-case form of an ASCII letter; any other character is itself.
pub open spec fn lower(c: char) -> char {
    if 'A' <= c <= 'Z' {
        ((c as u8) + 32) as char
    } else {
        c
    }
}

/// `s` spells `word`, in any case.
pub open spec fn spells(s: Seq<char>, word: Seq<char>) -> bool {
    s.len() == word.len() && forall|i: int| 0 <= i < s.len() ==> lower(#[trigger] s[i]) == word[i]
}

/// `inf`, `infinity` or `nan`, in any case.
pub open spec fn is_special_float(s: Seq<char>) -> bool {
    spells(s, seq!['i', 'n', 'f']) || spells(s, seq!['i', 'n', 'f', 'i', 'n', 'i', 't', 'y'])
        || spells(s, seq!['n', 'a', 'n'])
}

/// Digits with an optional fraction, at least one digit in the two, and an
/// optional exponent: `e` or `E`, an optional sign, one or more digits.
pub open spec fn is_number(s: Seq<char>) -> bool {
    let a = digits_end(s, 0);
    let dot = a < s.len() && s[a] == '.';
    let b = if dot {
        digits_end(s, a + 1)
    } else {
        a
    };
    let mantissa = a > 0 || (dot && b > a + 1);
    if b >= s.len() {
        mantissa
    } else if s[b] == 'e' || s[b] == 'E' {
        let c = if b + 1 < s.len() && is_sign_char(s[b + 1]) {
            b + 2
        } else {
            b + 1
        };
        let d = digits_end(s, c);
        mantissa && d > c && d == s.len()
    } else {
        false
    }
}

/// A floating-point literal: an optional sign before a special value or a
/// number.
pub open spec fn is_float_literal(s: Seq<char>) -> bool {
    let body = if s.len() > 0 && is_sign_char(s[0]) {
        s.skip(1)
    } else {
        s
    };
    is_special_float(body) || is_number(body)
}

pub open spec fn is_bool_literal(s: Seq<char>) -> bool {
    s == seq!['t', 'r', 'u', 'e'] || s == seq!['f', 'a', 'l', 's', 'e']
}

/// The text `s` is a literal of the type `dt`.
pub open spec fn is_literal_of(dt: DataType, s: Seq<char>) -> bool {
    match dt {
        DataType::U8 => is_magnitude(s, 0xff),
        DataType::U16 => is_magnitude(s, 0xffff),
        DataType::U32 => is_magnitude(s, 0xffff_ffff),
        DataType::U64 => is_magnitude(s, 0xffff_ffff_ffff_ffff),
        DataType::I8 => is_signed_literal(s, 0x7f),
        DataType::I16 => is_signed_literal(s, 0x7fff),
        DataType::I32 => is_signed_literal(s, 0x7fff_ffff),
        DataType::I64 => is_signed_literal(s, 0x7fff_ffff_ffff_ffff),
        DataType::F32 | DataType::F64 => is_float_literal(s),
        DataType::Bool => is_bool_literal(s),
        DataType::Str => true,
    }
}

/// The value of a run of digits is at least that of each of its heads.
pub proof fn lemma_decimal_value_grows(s: Seq<char>, k: int)
    requires
        0 <= k <= s.len(),
    ensures
        decimal_value(s.take(k)) <= decimal_value(s),
    decreases s.len() - k,
{
    if k == s.len() {
        assert(s.take(k) =~= s);
    } else {
        lemma_decimal_value_grows(s.drop_last(), k);
        assert(s.drop_last().take(k) =~= s.take(k));
    }
}

/// Tests the bytes of `b` from `from` on for a run of one or more digits
/// whose value is at most `max`.
pub fn magnitude_at_most(b: &[u8], from: usize, max: u64) -> (r: bool)
    requires
        from <= b@.len(),
    ensures
        r == is_magnitude(ascii_text(b@).skip(from as int), max as nat),
{
    let n = b.len();
    let ghost s = ascii_text(b@).skip(from as int);
    if from == n {
        return false;
    }
    let mut acc: u128 = 0;
    let mut i: usize = from;
    while i < n
        invariant
            n == b@.len(),
            from <= i <= n,
            s == ascii_text(b@).skip(from as int),
            all_digits(s.take(i - from)),
            acc == decimal_value(s.take(i - from)),
            acc <= max,
        decreases n - i,
    {
        let c = b[i];
        if !(48 <= c && c <= 57) {
            assert(!is_digit_char(s[i - from]));
            return false;
        }
        proof {
            assert(s.take(i - from + 1).drop_last() =~= s.take(i - from));
            assert(s.take(i - from + 1).last() == s[i - from]);
            assert(s[i - from] == c as char);
        }
        acc = acc * 10 + (c - 48) as u128;
        i += 1;
        if acc > max as u128 {
            proof {
                if all_digits(s) {
                    lemma_decimal_value_grows(s, i - from);
                }
            }
            return false;
        }
    }
    proof {
        assert(s.take(i - from) =~= s);
    }
    true
}

/// Tests the bytes of `b` for an integer between `-(max + 1)` and `max`.
pub fn signed_at_most(b: &[u8], max: u64) -> (r: bool)
    requires
        max < u64::MAX,
    ensures
        r == is_signed_literal(ascii_text(b@), max as nat),
{
    if b.len() > 0 && b[0] == 45 {
        magnitude_at_most(b, 1, max + 1)
    } else if b.len() > 0 && b[0] == 43 {
        magnitude_at_most(b, 1, max)
    } else {
        assert(ascii_text(b@).skip(0) =~= ascii_text(b@));
        magnitude_at_most(b, 0, max)
    }
}

/// Skips the digits of `b` from `i` on.
pub fn after_digits(b: &[u8], i: usize) -> (j: usize)
    requires
        i <= b@.len(),
    ensures
        j == digits_end(ascii_text(b@), i as int),
        i <= j <= b@.len(),
{
    let mut j: usize = i;
    while j < b.len() && 48 <= b[j] && b[j] <= 57
        invariant
            i <= j <= b@.len(),
            digits_end(ascii_text(b@), i as int) == digits_end(ascii_text(b@), j as int),
        decreases b@.len() - j,
    {
        j += 1;
    }
    j
}

/// The lower-case form of the byte at `i`.
pub fn lower_at(b: &[u8], i: usize) -> (c: u8)
    requires
        i < b@.len(),
    ensures
        c as char == lower(ascii_text(b@)[i as int]),
{
    let c = b[i];
    if 65 <= c && c <= 90 {
        c + 32
    } else {
        c
    }
}

/// Tests the bytes of `b` for `inf`, `infinity` or `nan`, in any case.
pub fn special_float(b: &[u8]) -> (r: bool)
    ensures
        r == is_special_float(ascii_text(b@)),
{
    let n = b.len();
    let ghost s = ascii_text(b@);
    if n == 3 {
        let c0 = lower_at(b, 0);
        let c1 = lower_at(b, 1);
        let c2 = lower_at(b, 2);
        let inf = c0 == 105 && c1 == 110 && c2 == 102;
        let nan = c0 == 110 && c1 == 97 && c2 == 110;
        proof {
            let w_inf = seq!['i', 'n', 'f'];
            let w_nan = seq!['n', 'a', 'n'];
            assert(spells(s, w_inf) ==> lower(s[0]) == w_inf[0] && lower(s[1]) == w_inf[1]
                && lower(s[2]) == w_inf[2]);
            assert(spells(s, w_nan) ==> lower(s[0]) == w_nan[0] && lower(s[1]) == w_nan[1]
                && lower(s[2]) == w_nan[2]);
            assert(inf == spells(s, w_inf));
            assert(nan == spells(s, w_nan));
        }
        inf || nan
    } else if n == 8 {
        let c0 = lower_at(b, 0);
        let c1 = lower_at(b, 1);
        let c2 = lower_at(b, 2);
        let c3 = lower_at(b, 3);
        let c4 = lower_at(b, 4);
        let c5 = lower_at(b, 5);
        let c6 = lower_at(b, 6);
        let c7 = lower_at(b, 7);
        let infinity = c0 == 105 && c1 == 110 && c2 == 102 && c3 == 105 && c4 == 110 && c5 == 105
            && c6 == 116 && c7 == 121;
        proof {
            let w = seq!['i', 'n', 'f', 'i', 'n', 'i', 't', 'y'];
            assert(spells(s, w) ==> lower(s[0]) == w[0] && lower(s[1]) == w[1] && lower(s[2])
                == w[2] && lower(s[3]) == w[3] && lower(s[4]) == w[4] && lower(s[5]) == w[5]
                && lower(s[6]) == w[6] && lower(s[7]) == w[7]);
            assert(infinity == spells(s, w));
        }
        infinity
    } else {
        false
    }
}

/// Tests the bytes of `b` for digits with an optional fraction and an
/// optional exponent.
pub fn number(b: &[u8]) -> (r: bool)
    ensures
        r == is_number(ascii_text(b@)),
{
    let n = b.len();
    let a = after_digits(b, 0);
    let dot = a < n && b[a] == 46;
    let e: usize = if dot {
        after_digits(b, a + 1)
    } else {
        a
    };
    let mantissa = a > 0 || (dot && e > a + 1);
    if e >= n {
        mantissa
    } else if b[e] == 101 || b[e] == 69 {
        let c: usize = if e + 1 < n && (b[e + 1] == 43 || b[e + 1] == 45) {
            e + 2
        } else {
            e + 1
        };
        let d = after_digits(b, c);
        mantissa && d > c && d == n
    } else {
        false
    }
}

/// Tests the bytes of `b` for a floating-point literal.
pub fn float_literal(b: &[u8]) -> (r: bool)
    ensures
        r == is_float_literal(ascii_text(b@)),
{
    if b.len() > 0 && (b[0] == 43 || b[0] == 45) {
        let body = slice_subrange(b, 1, b.len());
        assert(ascii_text(body@) =~= ascii_text(b@).skip(1));
        special_float(body) || number(body)
    } else {
        special_float(b) || number(b)
    }
}

/// Tests the bytes of `b` for `true` or `false`.
pub fn bool_literal(b: &[u8]) -> (r: bool)
    ensures
        r == is_bool_literal(ascii_text(b@)),
{
    let ghost s = ascii_text(b@);
    proof {
        assert(seq!['t', 'r', 'u', 'e'].len() == 4);
        assert(seq!['f', 'a', 'l', 's', 'e'].len() == 5);
    }
    if b.len() == 4 {
        let r = b[0] == 116 && b[1] == 114 && b[2] == 117 && b[3] == 101;
        proof {
            let w = seq!['t', 'r', 'u', 'e'];
            assert(s == w ==> s[0] == w[0] && s[1] == w[1] && s[2] == w[2] && s[3] == w[3]);
            assert(r ==> s =~= w);
        }
        r
    } else if b.len() == 5 {
        let r = b[0] == 102 && b[1] == 97 && b[2] == 108 && b[3] == 115 && b[4] == 101;
        proof {
            let w = seq!['f', 'a', 'l', 's', 'e'];
            assert(s == w ==> s[0] == w[0] && s[1] == w[1] && s[2] == w[2] && s[3] == w[3] && s[4]
                == w[4]);
            assert(r ==> s =~= w);
        }
        r
    } else {
        false
    }
}

pub proof fn lemma_digits_end(s: Seq<char>, i: int)
    requires
        0 <= i <= s.len(),
    ensures
        i <= digits_end(s, i) <= s.len(),
        forall|k: int| i <= k < digits_end(s, i) ==> is_digit_char(#[trigger] s[k]),
    decreases s.len() - i,
{
    if i < s.len() && is_digit_char(s[i]) {
        lemma_digits_end(s, i + 1);
    }
}

/// A text that spells a word of ASCII letters is written in ASCII.
pub proof fn lemma_spelled_is_ascii(s: Seq<char>, word: Seq<char>)
    requires
        spells(s, word),
        is_ascii_chars(word),
    ensures
        is_ascii_chars(s),
{
    assert forall|i: int| 0 <= i < s.len() implies '\0' <= #[trigger] s[i] <= '\u{7f}' by {
        assert(lower(s[i]) == word[i]);
    }
}

pub proof fn lemma_number_is_ascii(s: Seq<char>)
    requires
        is_number(s),
    ensures
        is_ascii_chars(s),
{
    let a = digits_end(s, 0);
    lemma_digits_end(s, 0);
    let dot = a < s.len() && s[a] == '.';
    let b = if dot {
        digits_end(s, a + 1)
    } else {
        a
    };
    if dot {
        lemma_digits_end(s, a + 1);
    }
    if b < s.len() {
        let c = if b + 1 < s.len() && is_sign_char(s[b + 1]) {
            b + 2
        } else {
            b + 1
        };
        lemma_digits_end(s, c);
    }
    assert forall|i: int| 0 <= i < s.len() implies '\0' <= #[trigger] s[i] <= '\u{7f}' by {
        if i < a {
            assert(is_digit_char(s[i]));
        } else if dot && i == a {
        } else if i < b {
            assert(is_digit_char(s[i]));
        } else if i == b {
        } else if i == b + 1 && is_sign_char(s[b + 1]) {
        } else {
            assert(is_digit_char(s[i]));
        }
    }
}

pub proof fn lemma_magnitude_is_ascii(s: Seq<char>, max: nat)
    requires
        is_magnitude(s, max),
    ensures
        is_ascii_chars(s),
{
    assert forall|i: int| 0 <= i < s.len() implies '\0' <= #[trigger] s[i] <= '\u{7f}' by {
        assert(is_digit_char(s[i]));
    }
}

/// A text whose first character is ASCII and whose rest is ASCII is ASCII.
pub proof fn lemma_ascii_after_first(s: Seq<char>)
    requires
        s.len() > 0,
        '\0' <= s[0] <= '\u{7f}',
        is_ascii_chars(s.skip(1)),
    ensures
        is_ascii_chars(s),
{
    assert forall|i: int| 0 <= i < s.len() implies '\0' <= #[trigger] s[i] <= '\u{7f}' by {
        if i > 0 {
            assert(s[i] == s.skip(1)[i - 1]);
        }
    }
}

/// A literal of any type but the string is written in ASCII.
pub proof fn lemma_literal_is_ascii(dt: DataType, s: Seq<char>)
    requires
        dt != DataType::Str,
        is_literal_of(dt, s),
    ensures
        is_ascii_chars(s),
{
    match dt {
        DataType::U8 => lemma_magnitude_is_ascii(s, 0xff),
        DataType::U16 => lemma_magnitude_is_ascii(s, 0xffff),
        DataType::U32 => lemma_magnitude_is_ascii(s, 0xffff_ffff),
        DataType::U64 => lemma_magnitude_is_ascii(s, 0xffff_ffff_ffff_ffff),
        DataType::I8 => lemma_signed_is_ascii(s, 0x7f),
        DataType::I16 => lemma_signed_is_ascii(s, 0x7fff),
        DataType::I32 => lemma_signed_is_ascii(s, 0x7fff_ffff),
        DataType::I64 => lemma_signed_is_ascii(s, 0x7fff_ffff_ffff_ffff),
        DataType::F32 | DataType::F64 => {
            let signed = s.len() > 0 && is_sign_char(s[0]);
            let body = if signed {
                s.skip(1)
            } else {
                s
            };
            if is_number(body) {
                lemma_number_is_ascii(body);
            } else if spells(body, seq!['i', 'n', 'f']) {
                lemma_spelled_is_ascii(body, seq!['i', 'n', 'f']);
            } else if spells(body, seq!['n', 'a', 'n']) {
                lemma_spelled_is_ascii(body, seq!['n', 'a', 'n']);
            } else {
                lemma_spelled_is_ascii(body, seq!['i', 'n', 'f', 'i', 'n', 'i', 't', 'y']);
            }
            if signed {
                lemma_ascii_after_first(s);
            }
        },
        DataType::Bool => {
            assert(is_ascii_chars(seq!['t', 'r', 'u', 'e']));
            assert(is_ascii_chars(seq!['f', 'a', 'l', 's', 'e']));
        },
        DataType::Str => {},
    }
}

pub proof fn lemma_signed_is_ascii(s: Seq<char>, max: nat)
    requires
        is_signed_literal(s, max),
    ensures
        is_ascii_chars(s),
{
    if s.len() > 0 && s[0] == '-' {
        lemma_magnitude_is_ascii(s.skip(1), max + 1);
        lemma_ascii_after_first(s);
    } else if s.len() > 0 && s[0] == '+' {
        lemma_magnitude_is_ascii(s.skip(1), max);
        lemma_ascii_after_first(s);
    } else {
        lemma_magnitude_is_ascii(s, max);
    }
}

/// Tests whether `value` is a literal of the type `dt`.
pub fn is_literal(dt: DataType, value: &str) -> (r: bool)
    ensures
        r == is_literal_of(dt, value@),
{
    if dt == DataType::Str {
        return true;
    }
    if !value.is_ascii() {
        proof {
            if is_literal_of(dt, value@) {
                lemma_literal_is_ascii(dt, value@);
            }
        }
        return false;
    }
    let b = value.as_bytes();
    proof {
        is_ascii_chars_encode_utf8(value@);
        assert(ascii_text(b@) =~= value@);
        assert(ascii_text(b@).skip(0) =~= ascii_text(b@));
    }
    match dt {
        DataType::U8 => magnitude_at_most(b, 0, 0xff),
        DataType::U16 => magnitude_at_most(b, 0, 0xffff),
        DataType::U32 => magnitude_at_most(b, 0, 0xffff_ffff),
        DataType::U64 => magnitude_at_most(b, 0, 0xffff_ffff_ffff_ffff),
        DataType::I8 => signed_at_most(b, 0x7f),
        DataType::I16 => signed_at_most(b, 0x7fff),
        DataType::I32 => signed_at_most(b, 0x7fff_ffff),
        DataType::I64 => signed_at_most(b, 0x7fff_ffff_ffff_ffff),
        DataType::F32 | DataType::F64 => float_literal(b),
        DataType::Bool => bool_literal(b),
        DataType::Str => true,
    }
}

} // verus!
