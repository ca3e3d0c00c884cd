//! The placeholder grammar: a single left-to-right pass over the bytes of a
//! template that finds every `{{ ... }}` occurrence with its byte ranges.
//!
//! ```text
//! {{ <ws>* <name> [?] [ : <type> ] ( <pipe> <function> )* <ws>* }}
//! ```
//!
//! Names are identifiers, `<pipe>` is `|` or `|>`, and blanks between the
//! tokens mean nothing. Every `{{` in the text opens a placeholder; one that
//! does not fit the grammar is a fault at the byte where it stops fitting.

use vstd::prelude::*;
use crate::span::Span;
use crate::text::{ident_part, ident_start, is_ident_part, is_ident_start, is_space, space};

verus! {

/// What the recognizer missed where a placeholder stopped fitting.
#[derive(Clone, Copy, Debug, PartialEq, Eq, Structural)]
pub enum Fault {
    /// No identifier after `{{`.
    ExpectedName,
    /// No identifier after a pipe.
    ExpectedFunctionName,
    /// Something other than a pipe or `}}` after the variable.
    ExpectedClose,
}

/// A fault with the byte offset at which it was found.
#[derive(Clone, Copy, Debug, PartialEq, Eq, Structural)]
pub struct SyntaxError {
    pub fault: Fault,
    pub at: usize,
}

/// One occurrence of a placeholder, as byte ranges into the template.
pub struct PlaceholderModel {
    /// The whole occurrence, from `{{` to `}}`.
    pub span: (int, int),
    pub name: (int, int),
    pub nullable: bool,
    /// A `:` was seen.
    pub typed: bool,
    /// The type identifier after the `:`, if one follows.
    pub data_type: Option<(int, int)>,
    /// The function names of the pipeline, in order.
    pub functions: Seq<(int, int)>,
}

/// One occurrence of a placeholder, as byte ranges into the template.
#[derive(Debug)]
pub struct Placeholder {
    pub span: Span,
    pub name: Span,
    pub nullable: bool,
    pub typed: bool,
    pub data_type: Option<Span>,
    pub functions: Vec<Span>,
}

/// The ranges of a list of spans.
pub open spec fn span_views(spans: Seq<Span>) -> Seq<(int, int)> {
    Seq::new(spans.len(), |i: int| spans[i]@)
}

impl View for Placeholder {
    type V = PlaceholderModel;

    open spec fn view(&self) -> PlaceholderModel {
        PlaceholderModel {
            span: self.span@,
            name: self.name@,
            nullable: self.nullable,
            typed: self.typed,
            data_type: match self.data_type {
                Some(s) => Some(s@),
                None => None,
            },
            functions: span_views(self.functions@),
        }
    }
}

/// The views of a list of placeholders.
pub open spec fn placeholder_views(ps: Seq<Placeholder>) -> Seq<PlaceholderModel> {
    Seq::new(ps.len(), |i: int| ps[i]@)
}

pub open spec fn range_within(r: (int, int), lo: int, hi: int) -> bool {
    lo <= r.0 <= r.1 <= hi
}

impl PlaceholderModel {
    /// Every byte of the occurrence is ASCII.
    pub open spec fn written_in_ascii(&self, s: Seq<u8>) -> bool {
        ascii_between(s, self.span.0, self.span.1)
    }

    /// The occurrence starts with `{{` and ends with `}}`.
    pub open spec fn delimited(&self, s: Seq<u8>) -> bool {
        opens_at(s, self.span.0) && closes_at(s, self.span.1 - 2)
    }

    /// Every range is ordered and lies inside the occurrence, which lies
    /// inside a text of `len` bytes; the name is not empty.
    pub open spec fn fits(&self, len: int) -> bool {
        &&& 0 <= self.span.0
        &&& self.span.0 + 4 <= self.span.1 <= len
        &&& range_within(self.name, self.span.0 + 2, self.span.1 - 2)
        &&& self.name.0 < self.name.1
        &&& match self.data_type {
            Some(t) => self.typed && range_within(t, self.name.1, self.span.1 - 2) && t.0 < t.1,
            None => true,
        }
        &&& forall|i: int|
            0 <= i < self.functions.len() ==> range_within(
                #[trigger] self.functions[i],
                self.name.1,
                self.span.1 - 2,
            ) && self.functions[i].0 < self.functions[i].1
    }
}

/// The first offset from `i` on that holds no blank, or the end of `s`.
pub open spec fn skip_spaces(s: Seq<u8>, i: int) -> int
    decreases s.len() - i,
{
    if 0 <= i < s.len() && is_space(s[i]) {
        skip_spaces(s, i + 1)
    } else {
        i
    }
}

/// The first offset from `i` on that holds no identifier byte, or the end of
/// `s`.
pub open spec fn ident_end(s: Seq<u8>, i: int) -> int
    decreases s.len() - i,
{
    if 0 <= i < s.len() && is_ident_part(s[i]) {
        ident_end(s, i + 1)
    } else {
        i
    }
}

/// An identifier starts at `i`.
pub open spec fn ident_at(s: Seq<u8>, i: int) -> bool {
    0 <= i < s.len() && is_ident_start(s[i])
}

/// The byte `b` stands at `i`.
pub open spec fn byte_at(s: Seq<u8>, i: int, b: u8) -> bool {
    0 <= i < s.len() && s[i] == b
}

/// `{{` stands at `i`.
pub open spec fn opens_at(s: Seq<u8>, i: int) -> bool {
    byte_at(s, i, 123) && byte_at(s, i + 1, 123)
}

/// `}}` stands at `i`.
pub open spec fn closes_at(s: Seq<u8>, i: int) -> bool {
    byte_at(s, i, 125) && byte_at(s, i + 1, 125)
}

/// The bytes from `lo` up to `hi` are ASCII.
pub open spec fn ascii_between(s: Seq<u8>, lo: int, hi: int) -> bool {
    forall|k: int| lo <= k < hi ==> 0 <= k < s.len() && #[trigger] s[k] < 128
}

pub proof fn lemma_skip_spaces(s: Seq<u8>, i: int)
    requires
        0 <= i <= s.len(),
    ensures
        i <= skip_spaces(s, i) <= s.len(),
        skip_spaces(s, i) < s.len() ==> !is_space(s[skip_spaces(s, i)]),
        forall|k: int| i <= k < skip_spaces(s, i) ==> is_space(#[trigger] s[k]),
        skip_spaces(s, skip_spaces(s, i)) == skip_spaces(s, i),
    decreases s.len() - i,
{
    if i < s.len() && is_space(s[i]) {
        lemma_skip_spaces(s, i + 1);
    }
}

pub proof fn lemma_ident_end(s: Seq<u8>, i: int)
    requires
        0 <= i <= s.len(),
    ensures
        i <= ident_end(s, i) <= s.len(),
        ident_at(s, i) ==> i < ident_end(s, i),
        ident_end(s, i) < s.len() ==> !is_ident_part(s[ident_end(s, i)]),
        forall|k: int| i <= k < ident_end(s, i) ==> is_ident_part(#[trigger] s[k]),
    decreases s.len() - i,
{
    if i < s.len() && is_ident_part(s[i]) {
        lemma_ident_end(s, i + 1);
    }
}

/// The offset behind the pipe at `pos`: behind `|>` if a `>` follows, else
/// behind `|`.
pub open spec fn pipe_end(s: Seq<u8>, pos: int) -> int {
    if byte_at(s, pos + 1, 62) {
        pos + 2
    } else {
        pos + 1
    }
}

/// The pipeline from `pos` on, where `pos` is behind the variable and its
/// blanks: the function names found after `acc`, and the offset behind `}}`.
pub open spec fn scan_stages(s: Seq<u8>, pos: int, acc: Seq<(int, int)>) -> Result<
    (Seq<(int, int)>, int),
    (Fault, int),
>
    decreases s.len() - pos,
    via scan_stages_decreases
{
    if byte_at(s, pos, 124) {
        let fs = skip_spaces(s, pipe_end(s, pos));
        if ident_at(s, fs) {
            let fe = ident_end(s, fs);
            scan_stages(s, skip_spaces(s, fe), acc.push((fs, fe)))
        } else {
            Err((Fault::ExpectedFunctionName, fs))
        }
    } else if closes_at(s, pos) {
        Ok((acc, pos + 2))
    } else {
        Err((Fault::ExpectedClose, pos))
    }
}

#[via_fn]
proof fn scan_stages_decreases(s: Seq<u8>, pos: int, acc: Seq<(int, int)>) {
    if byte_at(s, pos, 124) {
        let fs = skip_spaces(s, pipe_end(s, pos));
        lemma_skip_spaces(s, pipe_end(s, pos));
        if ident_at(s, fs) {
            lemma_ident_end(s, fs);
            lemma_skip_spaces(s, ident_end(s, fs));
        }
    }
}

/// The pipeline found from `pos` on keeps `acc` as its head, and each name
/// added to it lies between `pos` and the `}}` that ends it.
pub proof fn lemma_scan_stages(s: Seq<u8>, pos: int, acc: Seq<(int, int)>)
    requires
        0 <= pos <= s.len(),
    ensures
        match scan_stages(s, pos, acc) {
            Ok((functions, end)) => {
                &&& pos + 2 <= end <= s.len()
                &&& closes_at(s, end - 2)
                &&& ascii_between(s, pos, end)
                &&& functions.len() >= acc.len()
                &&& functions.subrange(0, acc.len() as int) == acc
                &&& forall|i: int|
                    acc.len() <= i < functions.len() ==> range_within(
                        #[trigger] functions[i],
                        pos,
                        end - 2,
                    ) && functions[i].0 < functions[i].1
            },
            Err((_, at)) => pos <= at <= s.len(),
        },
    decreases s.len() - pos,
{
    if byte_at(s, pos, 124) {
        let fs = skip_spaces(s, pipe_end(s, pos));
        lemma_skip_spaces(s, pipe_end(s, pos));
        if ident_at(s, fs) {
            let fe = ident_end(s, fs);
            lemma_ident_end(s, fs);
            lemma_skip_spaces(s, fe);
            let next = skip_spaces(s, fe);
            let acc2 = acc.push((fs, fe));
            lemma_scan_stages(s, next, acc2);
            match scan_stages(s, next, acc2) {
                Ok((functions, end)) => {
                    assert(functions.subrange(0, acc.len() as int) =~= acc) by {
                        assert(functions.subrange(0, acc2.len() as int) == acc2);
                        assert forall|i: int| 0 <= i < acc.len() implies functions[i] == acc[i] by {
                            assert(functions.subrange(0, acc2.len() as int)[i] == acc2[i]);
                        }
                    }
                    assert(functions[acc.len() as int] == (fs, fe)) by {
                        assert(functions.subrange(0, acc2.len() as int)[acc.len() as int]
                            == acc2[acc.len() as int]);
                    }
                    assert forall|k: int| pos <= k < end implies 0 <= k < s.len() && #[trigger] s[k]
                        < 128 by {
                        if k < pipe_end(s, pos) {
                        } else if k < fs {
                            assert(is_space(s[k]));
                        } else if k < fe {
                            assert(is_ident_part(s[k]));
                        } else if k < next {
                            assert(is_space(s[k]));
                        } else {
                            assert(ascii_between(s, next, end));
                        }
                    }
                },
                Err(_) => {},
            }
        }
    } else if closes_at(s, pos) {
        assert(acc.subrange(0, acc.len() as int) =~= acc);
        assert forall|k: int| pos <= k < pos + 2 implies 0 <= k < s.len() && #[trigger] s[k]
            < 128 by {
            if k != pos {
                assert(k == pos + 1);
            }
        }
    }
}

/// A placeholder that was recognized lies inside the text, and so does every
/// part of it, and it is written in ASCII; a fault lies behind the `{{`.
pub proof fn lemma_scan_placeholder(s: Seq<u8>, start: int)
    requires
        opens_at(s, start),
    ensures
        match scan_placeholder(s, start) {
            Ok(p) => p.fits(s.len() as int) && p.span.0 == start && closes_at(s, p.span.1 - 2)
                && ascii_between(s, p.span.0, p.span.1),
            Err((_, at)) => start + 2 <= at <= s.len(),
        },
{
    let ns = skip_spaces(s, start + 2);
    lemma_skip_spaces(s, start + 2);
    if ident_at(s, ns) {
        let ne = ident_end(s, ns);
        lemma_ident_end(s, ns);
        let a = skip_spaces(s, ne);
        lemma_skip_spaces(s, ne);
        let nullable = byte_at(s, a, 63);
        let b = if nullable {
            skip_spaces(s, a + 1)
        } else {
            a
        };
        if nullable {
            lemma_skip_spaces(s, a + 1);
        }
        let typed = byte_at(s, b, 58);
        let ts = if typed {
            skip_spaces(s, b + 1)
        } else {
            b
        };
        if typed {
            lemma_skip_spaces(s, b + 1);
        }
        let has_type = typed && ident_at(s, ts);
        let te = if has_type {
            ident_end(s, ts)
        } else {
            ts
        };
        if has_type {
            lemma_ident_end(s, ts);
        }
        lemma_skip_spaces(s, te);
        let c = skip_spaces(s, te);
        lemma_scan_stages(s, c, Seq::empty());
        match scan_stages(s, c, Seq::empty()) {
            Ok((_, end)) => {
                assert forall|k: int| start <= k < end implies 0 <= k < s.len() && #[trigger] s[k]
                    < 128 by {
                    if k < start + 2 {
                    } else if k < ns {
                        assert(is_space(s[k]));
                    } else if k < ne {
                        assert(is_ident_part(s[k]));
                    } else if k < a {
                        assert(is_space(s[k]));
                    } else if k < b {
                        if k > a {
                            assert(is_space(s[k]));
                        }
                    } else if k < ts {
                        if k > b {
                            assert(is_space(s[k]));
                        }
                    } else if k < te {
                        assert(is_ident_part(s[k]));
                    } else if k < c {
                        assert(is_space(s[k]));
                    } else {
                        assert(ascii_between(s, c, end));
                    }
                }
                assert(ascii_between(s, start, end));
            },
            Err(_) => {},
        }
    }
}

/// The placeholder that opens at `start`, where `{{` stands.
pub open spec fn scan_placeholder(s: Seq<u8>, start: int) -> Result<PlaceholderModel, (Fault, int)> {
    let ns = skip_spaces(s, start + 2);
    if !ident_at(s, ns) {
        Err((Fault::ExpectedName, ns))
    } else {
        let ne = ident_end(s, ns);
        let a = skip_spaces(s, ne);
        let nullable = byte_at(s, a, 63);
        let b = if nullable {
            skip_spaces(s, a + 1)
        } else {
            a
        };
        let typed = byte_at(s, b, 58);
        let ts = if typed {
            skip_spaces(s, b + 1)
        } else {
            b
        };
        let has_type = typed && ident_at(s, ts);
        let te = if has_type {
            ident_end(s, ts)
        } else {
            ts
        };
        match scan_stages(s, skip_spaces(s, te), Seq::empty()) {
            Ok((functions, end)) => Ok(
                PlaceholderModel {
                    span: (start, end),
                    name: (ns, ne),
                    nullable,
                    typed,
                    data_type: if has_type {
                        Some((ts, te))
                    } else {
                        None
                    },
                    functions,
                },
            ),
            Err(e) => Err(e),
        }
    }
}

/// The placeholders of `s` from `pos` on, after those in `acc`: every `{{`
/// outside a placeholder opens one, every other byte is literal text.
pub open spec fn scan_template(s: Seq<u8>, pos: int, acc: Seq<PlaceholderModel>) -> Result<
    Seq<PlaceholderModel>,
    (Fault, int),
>
    decreases s.len() - pos,
    via scan_template_decreases
{
    if pos < 0 || pos >= s.len() {
        Ok(acc)
    } else if opens_at(s, pos) {
        match scan_placeholder(s, pos) {
            Ok(p) => scan_template(s, p.span.1, acc.push(p)),
            Err(e) => Err(e),
        }
    } else {
        scan_template(s, pos + 1, acc)
    }
}

#[via_fn]
proof fn scan_template_decreases(s: Seq<u8>, pos: int, acc: Seq<PlaceholderModel>) {
    if 0 <= pos < s.len() && opens_at(s, pos) {
        lemma_scan_placeholder(s, pos);
    }
}

/// The placeholders of the template `s`, left to right, or the first fault.
pub open spec fn placeholders(s: Seq<u8>) -> Result<Seq<PlaceholderModel>, (Fault, int)> {
    scan_template(s, 0, Seq::empty())
}

/// Text in which no `{{` stands from `pos` on holds no placeholder there.
pub proof fn lemma_scan_plain(s: Seq<u8>, pos: int, acc: Seq<PlaceholderModel>)
    requires
        forall|i: int| pos <= i < s.len() ==> !opens_at(s, i),
    ensures
        scan_template(s, pos, acc) == Ok::<Seq<PlaceholderModel>, (Fault, int)>(acc),
    decreases s.len() - pos,
{
    if 0 <= pos < s.len() {
        lemma_scan_plain(s, pos + 1, acc);
    }
}

/// A template in which no `{{` stands holds no placeholder, and no fault.
pub proof fn lemma_plain_text(s: Seq<u8>)
    requires
        forall|i: int| 0 <= i < s.len() ==> !opens_at(s, i),
    ensures
        placeholders(s) == Ok::<Seq<PlaceholderModel>, (Fault, int)>(Seq::empty()),
{
    lemma_scan_plain(s, 0, Seq::empty());
}

/// Every placeholder found from `pos` on lies inside the text and behind
/// the one before it; a fault lies inside the text too.
pub proof fn lemma_scan_template(s: Seq<u8>, pos: int, acc: Seq<PlaceholderModel>)
    requires
        0 <= pos <= s.len(),
        forall|i: int| 0 <= i < acc.len() ==> (#[trigger] acc[i]).fits(s.len() as int),
        forall|i: int| 0 <= i < acc.len() ==> (#[trigger] acc[i]).delimited(s),
        forall|i: int| 0 <= i < acc.len() ==> (#[trigger] acc[i]).written_in_ascii(s),
        forall|i: int| 0 <= i < acc.len() ==> (#[trigger] acc[i]).span.1 <= pos,
        forall|i: int, j: int|
            0 <= i < j < acc.len() ==> (#[trigger] acc[i]).span.1 <= (#[trigger] acc[j]).span.0,
    ensures
        match scan_template(s, pos, acc) {
            Ok(ps) => {
                &&& forall|i: int| 0 <= i < ps.len() ==> (#[trigger] ps[i]).fits(s.len() as int)
                &&& forall|i: int, j: int|
                    0 <= i < j < ps.len() ==> (#[trigger] ps[i]).span.1 <= (#[trigger] ps[j]).span.0
                &&& forall|i: int| 0 <= i < ps.len() ==> (#[trigger] ps[i]).delimited(s)
                &&& forall|i: int| 0 <= i < ps.len() ==> (#[trigger] ps[i]).written_in_ascii(s)
            },
            Err((_, at)) => 0 <= at <= s.len(),
        },
    decreases s.len() - pos,
{
    if pos < s.len() {
        if opens_at(s, pos) {
            lemma_scan_placeholder(s, pos);
            match scan_placeholder(s, pos) {
                Ok(p) => {
                    lemma_scan_template(s, p.span.1, acc.push(p));
                },
                Err(_) => {},
            }
        } else {
            lemma_scan_template(s, pos + 1, acc);
        }
    }
}

/// The placeholders of a template lie inside it, one behind the other, each
/// from a `{{` to a `}}` and written in ASCII; a fault lies inside it too.
pub proof fn lemma_placeholders(s: Seq<u8>)
    ensures
        match placeholders(s) {
            Ok(ps) => {
                &&& forall|i: int| 0 <= i < ps.len() ==> (#[trigger] ps[i]).fits(s.len() as int)
                &&& forall|i: int, j: int|
                    0 <= i < j < ps.len() ==> (#[trigger] ps[i]).span.1 <= (#[trigger] ps[j]).span.0
                &&& forall|i: int| 0 <= i < ps.len() ==> (#[trigger] ps[i]).delimited(s)
                &&& forall|i: int| 0 <= i < ps.len() ==> (#[trigger] ps[i]).written_in_ascii(s)
            },
            Err((_, at)) => 0 <= at <= s.len(),
        },
{
    lemma_scan_template(s, 0, Seq::empty());
}

/// Skips the blanks from `i` on.
pub fn after_spaces(s: &[u8], i: usize) -> (j: usize)
    requires
        i <= s@.len(),
    ensures
        j == skip_spaces(s@, i as int),
        i <= j <= s@.len(),
{
    let mut j: usize = i;
    while j < s.len() && space(s[j])
        invariant
            i <= j <= s@.len(),
            skip_spaces(s@, i as int) == skip_spaces(s@, j as int),
        decreases s@.len() - j,
    {
        j += 1;
    }
    j
}

/// Skips the identifier bytes from `i` on.
pub fn after_ident(s: &[u8], i: usize) -> (j: usize)
    requires
        i <= s@.len(),
    ensures
        j == ident_end(s@, i as int),
        i <= j <= s@.len(),
{
    let mut j: usize = i;
    while j < s.len() && ident_part(s[j])
        invariant
            i <= j <= s@.len(),
            ident_end(s@, i as int) == ident_end(s@, j as int),
        decreases s@.len() - j,
    {
        j += 1;
    }
    j
}

/// Tells whether the byte `b` stands at `i`.
pub fn has_byte(s: &[u8], i: usize, b: u8) -> (r: bool)
    ensures
        r == byte_at(s@, i as int, b),
{
    i < s.len() && s[i] == b
}

/// Tells whether an identifier starts at `i`.
pub fn has_ident(s: &[u8], i: usize) -> (r: bool)
    ensures
        r == ident_at(s@, i as int),
{
    i < s.len() && ident_start(s[i])
}

/// Reads the pipeline that starts at `pos`, up to and with the closing `}}`.
pub fn read_stages(s: &[u8], pos: usize) -> (r: Result<(Vec<Span>, usize), SyntaxError>)
    requires
        pos <= s@.len(),
    ensures
        match r {
            Ok((functions, end)) => scan_stages(s@, pos as int, Seq::empty()) == Ok::<
                (Seq<(int, int)>, int),
                (Fault, int),
            >((span_views(functions@), end as int)),
            Err(e) => scan_stages(s@, pos as int, Seq::empty()) == Err::<
                (Seq<(int, int)>, int),
                (Fault, int),
            >((e.fault, e.at as int)),
        },
{
    let n = s.len();
    let mut functions: Vec<Span> = Vec::new();
    let mut at: usize = pos;
    assert(span_views(functions@) =~= Seq::empty());
    loop
        invariant
            n == s@.len(),
            at <= s@.len(),
            scan_stages(s@, pos as int, Seq::empty()) == scan_stages(
                s@,
                at as int,
                span_views(functions@),
            ),
        decreases s@.len() - at,
    {
        if has_byte(s, at, 124) {
            let behind: usize = if at + 1 < n && s[at + 1] == 62 {
                at + 2
            } else {
                at + 1
            };
            let fs = after_spaces(s, behind);
            if !has_ident(s, fs) {
                return Err(SyntaxError { fault: Fault::ExpectedFunctionName, at: fs });
            }
            let fe = after_ident(s, fs);
            let next = after_spaces(s, fe);
            proof {
                lemma_ident_end(s@, fs as int);
                assert(span_views(functions@.push(Span { start: fs, end: fe })) =~= span_views(
                    functions@,
                ).push((fs as int, fe as int)));
            }
            functions.push(Span { start: fs, end: fe });
            at = next;
        } else if has_byte(s, at, 125) && at + 1 < n && s[at + 1] == 125 {
            return Ok((functions, at + 2));
        } else {
            return Err(SyntaxError { fault: Fault::ExpectedClose, at });
        }
    }
}

/// Reads the placeholder that opens at `start`.
pub fn read_placeholder(s: &[u8], start: usize) -> (r: Result<Placeholder, SyntaxError>)
    requires
        opens_at(s@, start as int),
    ensures
        match r {
            Ok(p) => scan_placeholder(s@, start as int) == Ok::<PlaceholderModel, (Fault, int)>(p@)
                && p@.fits(s@.len() as int) && p.span.start == start,
            Err(e) => scan_placeholder(s@, start as int) == Err::<PlaceholderModel, (Fault, int)>(
                (e.fault, e.at as int),
            ) && e.at <= s@.len(),
        },
{
    proof {
        lemma_scan_placeholder(s@, start as int);
    }
    let n = s.len();
    let ns = after_spaces(s, start + 2);
    if !has_ident(s, ns) {
        return Err(SyntaxError { fault: Fault::ExpectedName, at: ns });
    }
    let ne = after_ident(s, ns);
    let a = after_spaces(s, ne);
    let nullable = has_byte(s, a, 63);
    let b: usize = if nullable {
        after_spaces(s, a + 1)
    } else {
        a
    };
    let typed = has_byte(s, b, 58);
    let ts: usize = if typed {
        after_spaces(s, b + 1)
    } else {
        b
    };
    let has_type = typed && has_ident(s, ts);
    let te: usize = if has_type {
        after_ident(s, ts)
    } else {
        ts
    };
    let c = after_spaces(s, te);
    match read_stages(s, c) {
        Ok((functions, end)) => {
            let data_type = if has_type {
                Some(Span { start: ts, end: te })
            } else {
                None
            };
            let p = Placeholder {
                span: Span { start, end },
                name: Span { start: ns, end: ne },
                nullable,
                typed,
                data_type,
                functions,
            };
            Ok(p)
        },
        Err(e) => Err(e),
    }
}

/// Finds every placeholder of the template `s`, left to right, in one pass,
/// or the first place where one does not fit the grammar.
pub fn recognize(s: &[u8]) -> (r: Result<Vec<Placeholder>, SyntaxError>)
    ensures
        match r {
            Ok(ps) => placeholders(s@) == Ok::<Seq<PlaceholderModel>, (Fault, int)>(
                placeholder_views(ps@),
            ) && forall|i: int| 0 <= i < ps@.len() ==> (#[trigger] ps@[i])@.fits(s@.len() as int),
            Err(e) => placeholders(s@) == Err::<Seq<PlaceholderModel>, (Fault, int)>(
                (e.fault, e.at as int),
            ) && e.at <= s@.len(),
        },
{
    let mut found: Vec<Placeholder> = Vec::new();
    let mut pos: usize = 0;
    assert(placeholder_views(found@) =~= Seq::empty());
    while pos < s.len()
        invariant
            pos <= s@.len(),
            placeholders(s@) == scan_template(s@, pos as int, placeholder_views(found@)),
            forall|i: int| 0 <= i < found@.len() ==> (#[trigger] found@[i])@.fits(s@.len() as int),
        decreases s@.len() - pos,
    {
        if s[pos] == 123 && pos + 1 < s.len() && s[pos + 1] == 123 {
            match read_placeholder(s, pos) {
                Ok(p) => {
                    proof {
                        assert(placeholder_views(found@.push(p)) =~= placeholder_views(
                            found@,
                        ).push(p@));
                    }
                    pos = p.span.end;
                    found.push(p);
                },
                Err(e) => {
                    return Err(e);
                },
            }
        } else {
            pos += 1;
        }
    }
    Ok(found)
}

} // verus!
