//! Byte ranges into a template, and the line and column of a byte offset.

use vstd::prelude::*;

verus! {

/// A half-open byte range `[start, end)` into a template.
#[derive(Clone, Copy, Debug, PartialEq, Eq, Structural)]
pub struct Span {
    pub start: usize,
    pub end: usize,
}

impl View for Span {
    type V = (int, int);

    open spec fn view(&self) -> (int, int) {
        (self.start as int, self.end as int)
    }
}

/// A UTF-8 continuation byte (`10xxxxxx`): it starts no character.
pub open spec fn is_continuation(b: u8) -> bool {
    128 <= b < 192
}

/// Number of line feeds among the first `pos` bytes of `s`.
pub open spec fn newlines_before(s: Seq<u8>, pos: int) -> nat
    decreases pos,
{
    if pos <= 0 || pos > s.len() {
        0
    } else if s[pos - 1] == 10u8 {
        newlines_before(s, pos - 1) + 1
    } else {
        newlines_before(s, pos - 1)
    }
}

/// Number of characters between the last line feed before `pos` (or the start
/// of the text) and `pos`: the bytes there that are no continuation bytes.
pub open spec fn chars_since_newline(s: Seq<u8>, pos: int) -> nat
    decreases pos,
{
    if pos <= 0 || pos > s.len() {
        0
    } else if s[pos - 1] == 10u8 {
        0
    } else if is_continuation(s[pos - 1]) {
        chars_since_newline(s, pos - 1)
    } else {
        chars_since_newline(s, pos - 1) + 1
    }
}

/// One-based line and column of the byte offset `pos` in `s`. Lines end at a
/// line feed; a column counts characters, not bytes. The offset must leave
/// room for the count that starts at one.
pub fn line_col(s: &[u8], pos: usize) -> (lc: (usize, usize))
    requires
        pos <= s@.len(),
        pos < usize::MAX,
    ensures
        lc.0 == newlines_before(s@, pos as int) + 1,
        lc.1 == chars_since_newline(s@, pos as int) + 1,
{
    let mut line: usize = 1;
    let mut col: usize = 1;
    let mut i: usize = 0;
    while i < pos
        invariant
            i <= pos <= s@.len(),
            pos < usize::MAX,
            line == newlines_before(s@, i as int) + 1,
            col == chars_since_newline(s@, i as int) + 1,
            line <= i + 1,
            col <= i + 1,
        decreases pos - i,
    {
        let b = s[i];
        if b == 10u8 {
            line += 1;
            col = 1;
        } else if !(b >= 128u8 && b < 192u8) {
            col += 1;
        }
        i += 1;
    }
    (line, col)
}

} // verus!
