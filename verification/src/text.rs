//! Byte classes of the placeholder grammar and conversion of ASCII bytes to
//! text.

use vstd::prelude::*;
use vstd::string::*;
use vstd::utf8::{
    encode_utf8, is_ascii_chars, is_ascii_chars_encode_utf8, is_char_boundary, pop_first_scalar,
    valid_utf8,
};

verus! {

/// `String::push` of std appends the one character to the string.
pub assume_specification[ String::push ](s: &mut String, c: char)
    ensures
        final(s)@ == old(s)@.push(c),
;

/// Blank, tab, line feed or carriage return.
pub open spec fn is_space(b: u8) -> bool {
    b == 32 || b == 9 || b == 10 || b == 13
}

pub open spec fn is_digit(b: u8) -> bool {
    48 <= b <= 57
}

/// A letter or an underscore: what an identifier starts with.
pub open spec fn is_ident_start(b: u8) -> bool {
    (65 <= b <= 90) || (97 <= b <= 122) || b == 95
}

/// A letter, a digit or an underscore.
pub open spec fn is_ident_part(b: u8) -> bool {
    is_ident_start(b) || is_digit(b)
}

pub fn space(b: u8) -> (r: bool)
    ensures
        r == is_space(b),
{
    b == 32 || b == 9 || b == 10 || b == 13
}

pub fn ident_start(b: u8) -> (r: bool)
    ensures
        r == is_ident_start(b),
{
    (65 <= b && b <= 90) || (97 <= b && b <= 122) || b == 95
}

pub fn ident_part(b: u8) -> (r: bool)
    ensures
        r == is_ident_part(b),
{
    ident_start(b) || (48 <= b && b <= 57)
}

/// The characters that the bytes stand for, each byte taken as one character.
pub open spec fn ascii_text(bytes: Seq<u8>) -> Seq<char> {
    Seq::new(bytes.len(), |i: int| bytes[i] as char)
}

/// The text of the bytes `[start, end)` of `s`.
pub open spec fn slice_text(s: Seq<u8>, start: int, end: int) -> Seq<char> {
    ascii_text(s.subrange(start, end))
}

/// The text of ASCII bytes is the text that the bytes encode.
pub proof fn lemma_slice_text_encodes(s: Seq<u8>, start: int, end: int)
    requires
        0 <= start <= end <= s.len(),
        forall|k: int| start <= k < end ==> #[trigger] s[k] < 128,
    ensures
        is_ascii_chars(slice_text(s, start, end)),
        encode_utf8(slice_text(s, start, end)) == s.subrange(start, end),
{
    let chars = slice_text(s, start, end);
    assert forall|i: int| 0 <= i < chars.len() implies '\0' <= #[trigger] chars[i] <= '\u{7f}' by {
        assert(s[start + i] < 128);
    }
    is_ascii_chars_encode_utf8(chars);
    assert forall|i: int| 0 <= i < chars.len() implies encode_utf8(chars)[i] == s.subrange(
        start,
        end,
    )[i] by {
        assert(s[start + i] < 128);
        assert(chars[i] as u8 == encode_utf8(chars)[i]);
    }
    assert(encode_utf8(chars) =~= s.subrange(start, end));
}

/// In valid UTF-8 that starts with `n` ASCII bytes, a character starts at
/// the offset `n`, or the text ends there.
pub proof fn lemma_ascii_prefix_boundary(bytes: Seq<u8>, n: int)
    requires
        valid_utf8(bytes),
        0 <= n <= bytes.len(),
        forall|k: int| 0 <= k < n ==> #[trigger] bytes[k] < 128,
    ensures
        is_char_boundary(bytes, n),
    decreases n,
{
    if n > 0 {
        assert(bytes[0] < 128);
        let tail = pop_first_scalar(bytes);
        assert(tail =~= bytes.subrange(1, bytes.len() as int));
        assert forall|k: int| 0 <= k < n - 1 implies #[trigger] tail[k] < 128 by {
            assert(bytes[k + 1] < 128);
        }
        lemma_ascii_prefix_boundary(tail, n - 1);
    }
}

/// Copies the bytes `[start, end)` of `s` into a string, one character each.
pub fn text_of(s: &[u8], start: usize, end: usize) -> (r: String)
    requires
        start <= end <= s@.len(),
    ensures
        r@ == slice_text(s@, start as int, end as int),
{
    let mut r = String::new();
    let mut i: usize = start;
    while i < end
        invariant
            start <= i <= end <= s@.len(),
            r@ == slice_text(s@, start as int, i as int),
        decreases end - i,
    {
        r.push(s[i] as char);
        i += 1;
        assert(r@ =~= slice_text(s@, start as int, i as int));
    }
    r
}

} // verus!
