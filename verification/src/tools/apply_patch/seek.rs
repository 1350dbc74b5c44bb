//! Locating a block of lines in a file, with graduated tolerance.
//!
//! A model writing a patch reproduces context from memory, so it drifts: trailing whitespace goes
//! missing, indentation shifts, an em dash becomes a hyphen. Rather than reject the patch, the
//! search is retried with progressively looser comparisons: exact, ignoring trailing whitespace,
//! ignoring all surrounding whitespace, then with typographic punctuation read as ASCII.

use crate::text;
use vstd::prelude::*;

verus! {

/// The ASCII character that typographic punctuation stands for.
pub open spec fn plain(c: char) -> char {
    if '\u{2010}' <= c <= '\u{2015}' || c == '\u{2212}' {
        '-'
    } else if '\u{2018}' <= c <= '\u{201b}' {
        '\''
    } else if '\u{201c}' <= c <= '\u{201f}' {
        '"'
    } else if c == '\u{a0}' || '\u{2002}' <= c <= '\u{200a}' || c == '\u{202f}' || c == '\u{205f}'
        || c == '\u{3000}' {
        ' '
    } else {
        c
    }
}

/// `s` with typographic punctuation read as ASCII.
pub open spec fn plainly(s: Seq<char>) -> Seq<char> {
    s.map_values(|c: char| plain(c))
}

/// How strictly lines are compared, from the strictest on.
pub enum Pass {
    Exact,
    TrailingSpace,
    SurroundingSpace,
    Punctuation,
}

/// What a pass sees of a line.
pub open spec fn seen(pass: Pass, line: Seq<char>) -> Seq<char> {
    match pass {
        Pass::Exact => line,
        Pass::TrailingSpace => text::trimmed_end(line),
        Pass::SurroundingSpace => text::trimmed(line),
        Pass::Punctuation => plainly(text::trimmed(line)),
    }
}

/// In the eyes of `pass`, `pattern` stands in `lines` at `i`.
pub open spec fn fits(lines: Seq<Seq<char>>, pattern: Seq<Seq<char>>, i: int, pass: Pass) -> bool {
    &&& 0 <= i
    &&& i + pattern.len() <= lines.len()
    &&& forall|p: int|
        0 <= p < pattern.len() ==> seen(pass, #[trigger] lines[i + p]) == seen(pass, pattern[p])
}

/// The first index at or after `i` where `pattern` fits in the eyes of `pass`.
pub open spec fn first_fit(
    lines: Seq<Seq<char>>,
    pattern: Seq<Seq<char>>,
    i: int,
    pass: Pass,
) -> Option<int>
    decreases lines.len() + 1 - i,
{
    if i < 0 || i + pattern.len() > lines.len() {
        None
    } else if fits(lines, pattern, i, pass) {
        Some(i)
    } else {
        first_fit(lines, pattern, i + 1, pass)
    }
}

/// Where the search begins: at `start`, or as late as the pattern fits when it is anchored at the
/// end of the file, whichever is later.
pub open spec fn search_start(
    lines: Seq<Seq<char>>,
    pattern: Seq<Seq<char>>,
    start: int,
    eof: bool,
) -> int {
    if eof && start < lines.len() - pattern.len() {
        lines.len() - pattern.len()
    } else {
        start
    }
}

/// Where `pattern` is found: the first fit of the strictest pass that has one.
pub open spec fn sought(
    lines: Seq<Seq<char>>,
    pattern: Seq<Seq<char>>,
    start: int,
    eof: bool,
) -> Option<int> {
    let from = search_start(lines, pattern, start, eof);
    if pattern.len() == 0 {
        Some(start)
    } else if pattern.len() > lines.len() {
        None
    } else if first_fit(lines, pattern, from, Pass::Exact) is Some {
        first_fit(lines, pattern, from, Pass::Exact)
    } else if first_fit(lines, pattern, from, Pass::TrailingSpace) is Some {
        first_fit(lines, pattern, from, Pass::TrailingSpace)
    } else if first_fit(lines, pattern, from, Pass::SurroundingSpace) is Some {
        first_fit(lines, pattern, from, Pass::SurroundingSpace)
    } else {
        first_fit(lines, pattern, from, Pass::Punctuation)
    }
}

proof fn lemma_first_fit(lines: Seq<Seq<char>>, pattern: Seq<Seq<char>>, i: int, pass: Pass)
    requires
        0 <= i,
    ensures
        first_fit(lines, pattern, i, pass) matches Some(k) ==> i <= k && fits(
            lines,
            pattern,
            k,
            pass,
        ) && forall|j: int| i <= j < k ==> !fits(lines, pattern, j, pass),
        first_fit(lines, pattern, i, pass) is None ==> forall|j: int|
            i <= j ==> !fits(lines, pattern, j, pass),
    decreases lines.len() + 1 - i,
{
    if i + pattern.len() <= lines.len() && !fits(lines, pattern, i, pass) {
        lemma_first_fit(lines, pattern, i + 1, pass);
    }
}

/// What is found fits within the lines, at or after `start`, and matches at least loosely. With the
/// end-of-file mark it stands at the very end. The pattern of no lines is found at the start, whatever that is.
pub proof fn found_lines_match(
    lines: Seq<Seq<char>>,
    pattern: Seq<Seq<char>>,
    start: int,
    eof: bool,
    at: int,
)
    requires
        0 <= start,
        pattern.len() > 0,
        sought(lines, pattern, start, eof) == Some(at),
    ensures
        start <= at,
        at + pattern.len() <= lines.len(),
        eof ==> at + pattern.len() == lines.len(),
        fits(lines, pattern, at, Pass::Punctuation),
{
    let from = search_start(lines, pattern, start, eof);
    lemma_first_fit(lines, pattern, from, Pass::Exact);
    lemma_first_fit(lines, pattern, from, Pass::TrailingSpace);
    lemma_first_fit(lines, pattern, from, Pass::SurroundingSpace);
    lemma_first_fit(lines, pattern, from, Pass::Punctuation);
    assert forall|p: int| 0 <= p < pattern.len() implies seen(
        Pass::Punctuation,
        #[trigger] lines[at + p],
    ) == seen(Pass::Punctuation, pattern[p]) by {
        if fits(lines, pattern, at, Pass::TrailingSpace) {
            lemma_trim_absorbs_trim_end(lines[at + p]);
            lemma_trim_absorbs_trim_end(pattern[p]);
        }
    }
}

/// Trimming the end first changes nothing about trimming both ends.
proof fn lemma_trim_absorbs_trim_end(s: Seq<char>)
    ensures
        text::trimmed(text::trimmed_end(s)) == text::trimmed(s),
    decreases s.len(),
{
    if s.len() > 0 && text::is_ws(s.last()) {
        let t = s.subrange(0, s.len() - 1);
        lemma_trim_absorbs_trim_end(t);
        lemma_trim_drops_last(s);
    }
}

/// A trailing white space character is trimmed away.
proof fn lemma_trim_drops_last(s: Seq<char>)
    requires
        s.len() > 0,
        text::is_ws(s.last()),
    ensures
        text::trimmed(s.subrange(0, s.len() - 1)) == text::trimmed(s),
    decreases s.len(),
{
    let t = s.subrange(0, s.len() - 1);
    if text::is_ws(s[0]) {
        let u = s.subrange(1, s.len() as int);
        if s.len() == 1 {
            assert(u =~= Seq::<char>::empty());
            assert(t =~= Seq::<char>::empty());
        } else {
            lemma_trim_drops_last(u);
            assert(u.subrange(0, u.len() - 1) =~= t.subrange(1, t.len() as int));
        }
    }
}

/// `pattern` stands literally in `lines` at `i`.
pub open spec fn stands_at(lines: Seq<Seq<char>>, pattern: Seq<Seq<char>>, i: int) -> bool {
    0 <= i && i + pattern.len() <= lines.len() && lines.subrange(i, i + pattern.len()) == pattern
}

/// An exact match is never passed over for a looser one: where the pattern stands literally at or
/// after the start, the first such place is found.
pub proof fn exact_match_wins(
    lines: Seq<Seq<char>>,
    pattern: Seq<Seq<char>>,
    start: int,
    at: int,
)
    requires
        0 <= start <= at,
        pattern.len() > 0,
        stands_at(lines, pattern, at),
        forall|j: int| start <= j < at ==> !stands_at(lines, pattern, j),
    ensures
        sought(lines, pattern, start, false) == Some(at),
{
    lemma_first_fit(lines, pattern, start, Pass::Exact);
    assert forall|p: int| 0 <= p < pattern.len() implies #[trigger] lines[at + p] == pattern[p] by {
        assert(lines.subrange(at, at + pattern.len())[p] == pattern[p]);
    }
    assert(fits(lines, pattern, at, Pass::Exact));
    assert forall|j: int| start <= j < at implies !fits(lines, pattern, j, Pass::Exact) by {
        if fits(lines, pattern, j, Pass::Exact) {
            assert forall|p: int| 0 <= p < pattern.len() implies lines.subrange(
                j,
                j + pattern.len(),
            )[p] == pattern[p] by {
                assert(seen(Pass::Exact, lines[j + p]) == seen(Pass::Exact, pattern[p]));
            }
            assert(lines.subrange(j, j + pattern.len()) =~= pattern);
            assert(stands_at(lines, pattern, j));
        }
    }
}

/// With the end-of-file mark, a pattern that stands literally at the end of the lines is found there,
/// whatever else matches before.
pub proof fn an_anchored_match_is_found(
    lines: Seq<Seq<char>>,
    pattern: Seq<Seq<char>>,
    start: int,
)
    requires
        0 <= start <= lines.len() - pattern.len(),
        pattern.len() > 0,
        stands_at(lines, pattern, lines.len() - pattern.len()),
    ensures
        sought(lines, pattern, start, true) == Some(lines.len() - pattern.len()),
{
    let at = lines.len() - pattern.len();
    assert forall|p: int| 0 <= p < pattern.len() implies #[trigger] lines[at + p] == pattern[p] by {
        assert(lines.subrange(at, at + pattern.len())[p] == pattern[p]);
    }
    assert(fits(lines, pattern, at, Pass::Exact));
}

/// The ASCII character that typographic punctuation stands for.
fn plain_char(c: char) -> (r: char)
    ensures
        r == plain(c),
{
    if ('\u{2010}' <= c && c <= '\u{2015}') || c == '\u{2212}' {
        '-'
    } else if '\u{2018}' <= c && c <= '\u{201b}' {
        '\''
    } else if '\u{201c}' <= c && c <= '\u{201f}' {
        '"'
    } else if c == '\u{a0}' || ('\u{2002}' <= c && c <= '\u{200a}') || c == '\u{202f}' || c
        == '\u{205f}' || c == '\u{3000}' {
        ' '
    } else {
        c
    }
}

/// Map typographic punctuation to its ASCII equivalent, so that a patch written in plain ASCII
/// still matches source that contains smart quotes or en dashes.
fn normalize_punctuation(s: &str) -> (r: String)
    ensures
        r@ == plainly(s@),
{
    let v = text::chars_of(s);
    let mut out = String::new();
    let mut i: usize = 0;
    while i < v.len()
        invariant
            0 <= i <= v@.len(),
            v@ == s@,
            out@ == plainly(s@.take(i as int)),
        decreases v@.len() - i,
    {
        out.push(plain_char(v[i]));
        i += 1;
        assert(plainly(s@.take(i as int)) =~= plainly(s@.take(i - 1)).push(plain(s@[i - 1])));
    }
    assert(s@.take(i as int) =~= s@);
    out
}

/// What a pass sees of a line.
fn compare_form(pass: &Pass, line: &str) -> (r: String)
    ensures
        r@ == seen(*pass, line@),
{
    match pass {
        Pass::Exact => line.to_string(),
        Pass::TrailingSpace => text::trim_end(line).to_string(),
        Pass::SurroundingSpace => text::trim(line).to_string(),
        Pass::Punctuation => normalize_punctuation(text::trim(line)),
    }
}

/// The lines as a pass sees them.
fn compare_forms(pass: &Pass, lines: &[String]) -> (r: Vec<String>)
    ensures
        r@.len() == lines@.len(),
        forall|i: int| 0 <= i < r@.len() ==> (#[trigger] r@[i])@ == seen(*pass, lines@[i]@),
{
    let mut out: Vec<String> = Vec::new();
    let mut i: usize = 0;
    while i < lines.len()
        invariant
            0 <= i <= lines@.len(),
            out@.len() == i,
            forall|k: int| 0 <= k < i ==> (#[trigger] out@[k])@ == seen(*pass, lines@[k]@),
        decreases lines@.len() - i,
    {
        out.push(compare_form(pass, lines[i].as_str()));
        i += 1;
    }
    out
}

/// The first index at or after `from` where `pattern` fits in the eyes of `pass`.
fn seek_pass(lines: &[String], pattern: &[String], from: usize, pass: Pass) -> (r: Option<usize>)
    requires
        0 < pattern@.len() <= lines@.len(),
    ensures
        r matches Some(k) ==> first_fit(
            text::views(lines@),
            text::views(pattern@),
            from as int,
            pass,
        ) == Some(k as int),
        r is None ==> first_fit(
            text::views(lines@),
            text::views(pattern@),
            from as int,
            pass,
        ) is None,
{
    let ghost ls = text::views(lines@);
    let ghost ps = text::views(pattern@);
    let left = compare_forms(&pass, lines);
    let right = compare_forms(&pass, pattern);
    let last = lines.len() - pattern.len();
    let mut i: usize = from;
    while i <= last
        invariant
            from <= i,
            i <= last + 1 || i == from,
            last == lines@.len() - pattern@.len(),
            last < usize::MAX,
            lines.len() == lines@.len(),
            0 < pattern@.len() <= lines@.len(),
            ls == text::views(lines@),
            ps == text::views(pattern@),
            left@.len() == lines@.len(),
            right@.len() == pattern@.len(),
            forall|k: int| 0 <= k < left@.len() ==> (#[trigger] left@[k])@ == seen(pass, ls[k]),
            forall|k: int| 0 <= k < right@.len() ==> (#[trigger] right@[k])@ == seen(pass, ps[k]),
            first_fit(ls, ps, i as int, pass) == first_fit(ls, ps, from as int, pass),
        decreases last + 1 - i,
    {
        let mut p: usize = 0;
        let mut all = true;
        while p < right.len() && all
            invariant
                0 <= p <= right@.len(),
                i <= last,
                last == lines@.len() - pattern@.len(),
                lines.len() == lines@.len(),
                ls == text::views(lines@),
                ps == text::views(pattern@),
                left@.len() == lines@.len(),
                right@.len() == pattern@.len(),
                forall|k: int| 0 <= k < left@.len() ==> (#[trigger] left@[k])@ == seen(pass, ls[k]),
                forall|k: int|
                    0 <= k < right@.len() ==> (#[trigger] right@[k])@ == seen(pass, ps[k]),
                all ==> forall|k: int| 0 <= k < p ==> seen(pass, #[trigger] ls[i + k]) == seen(pass, ps[k]),
                !all ==> !fits(ls, ps, i as int, pass),
            decreases right@.len() - p,
        {
            assert(left@[i + p]@ == seen(pass, ls[i + p]));
            if left[i + p] != right[p] {
                all = false;
            }
            p += 1;
        }
        if all {
            assert(fits(ls, ps, i as int, pass));
            return Some(i);
        }
        i += 1;
    }
    None
}

/// Find `pattern` in `lines` at or after `start`, returning its start index.
///
/// With `eof` set, the search starts at the end of the file first, so a chunk meant to change the
/// tail of a file is anchored there: it is found at the end or not at all.
pub fn seek_sequence(lines: &[String], pattern: &[String], start: usize, eof: bool) -> (r: Option<
    usize,
>)
    ensures
        r matches Some(k) ==> sought(
            text::views(lines@),
            text::views(pattern@),
            start as int,
            eof,
        ) == Some(k as int),
        r is None ==> sought(
            text::views(lines@),
            text::views(pattern@),
            start as int,
            eof,
        ) is None,
{
    if pattern.len() == 0 {
        return Some(start);
    }
    // A pattern longer than the file can never match.
    if pattern.len() > lines.len() {
        return None;
    }
    let from: usize = if eof && start < lines.len() - pattern.len() {
        lines.len() - pattern.len()
    } else {
        start
    };
    match seek_pass(lines, pattern, from, Pass::Exact) {
        Some(i) => Some(i),
        None => match seek_pass(lines, pattern, from, Pass::TrailingSpace) {
            Some(i) => Some(i),
            None => match seek_pass(lines, pattern, from, Pass::SurroundingSpace) {
                Some(i) => Some(i),
                None => seek_pass(lines, pattern, from, Pass::Punctuation),
            },
        },
    }
}

// ---- what is forgiven -----------------------------------------------------------------------

/// Two characters that are taken for each other: the same, two dashes, two single or two double
/// quotes, or two blanks.
pub open spec fn alike(a: char, b: char) -> bool {
    ||| a == b
    ||| dash(a) && dash(b)
    ||| single_quote(a) && single_quote(b)
    ||| double_quote(a) && double_quote(b)
    ||| blank(a) && blank(b)
}

pub open spec fn dash(c: char) -> bool {
    c == '-' || '\u{2010}' <= c <= '\u{2015}' || c == '\u{2212}'
}

pub open spec fn single_quote(c: char) -> bool {
    c == '\'' || '\u{2018}' <= c <= '\u{201b}'
}

pub open spec fn double_quote(c: char) -> bool {
    c == '"' || '\u{201c}' <= c <= '\u{201f}'
}

pub open spec fn blank(c: char) -> bool {
    c == ' ' || c == '\u{a0}' || '\u{2002}' <= c <= '\u{200a}' || c == '\u{202f}' || c
        == '\u{205f}' || c == '\u{3000}'
}

/// Lines that differ from the pattern in the space around them, and in typographic punctuation for
/// plain, are found all the same, at or before that place.
pub proof fn space_and_punctuation_are_forgiven(
    lines: Seq<Seq<char>>,
    pattern: Seq<Seq<char>>,
    start: int,
    at: int,
)
    requires
        0 <= start <= at,
        pattern.len() > 0,
        at + pattern.len() <= lines.len(),
        forall|p: int|
            0 <= p < pattern.len() ==> {
                let there = text::trimmed(#[trigger] lines[at + p]);
                let meant = text::trimmed(pattern[p]);
                &&& there.len() == meant.len()
                &&& forall|c: int| 0 <= c < there.len() ==> alike(#[trigger] there[c], meant[c])
            },
    ensures
        sought(lines, pattern, start, false) is Some,
{
    assert forall|p: int| 0 <= p < pattern.len() implies seen(
        Pass::Punctuation,
        #[trigger] lines[at + p],
    ) == seen(Pass::Punctuation, pattern[p]) by {
        let there = text::trimmed(lines[at + p]);
        let meant = text::trimmed(pattern[p]);
        assert forall|c: int| 0 <= c < there.len() implies plain(there[c]) == plain(meant[c]) by {
            assert(alike(there[c], meant[c]));
        }
        assert(plainly(there) =~= plainly(meant));
    }
    assert(fits(lines, pattern, at, Pass::Punctuation));
    lemma_first_fit(lines, pattern, start, Pass::Exact);
    lemma_first_fit(lines, pattern, start, Pass::TrailingSpace);
    lemma_first_fit(lines, pattern, start, Pass::SurroundingSpace);
    lemma_first_fit(lines, pattern, start, Pass::Punctuation);
}

/// Nothing else is forgiven: where a line of the pattern holds a character that is not taken for the
/// one that stands there, it is not found at that place.
pub proof fn another_character_is_not_forgiven(
    lines: Seq<Seq<char>>,
    pattern: Seq<Seq<char>>,
    start: int,
    eof: bool,
    at: int,
    p: int,
    c: int,
)
    requires
        0 <= start,
        0 <= p < pattern.len(),
        sought(lines, pattern, start, eof) == Some(at),
        0 <= c < text::trimmed(pattern[p]).len(),
    ensures
        text::trimmed(lines[at + p]).len() == text::trimmed(pattern[p]).len(),
        alike(text::trimmed(lines[at + p])[c], text::trimmed(pattern[p])[c]),
{
    found_lines_match(lines, pattern, start, eof, at);
    let there = text::trimmed(lines[at + p]);
    let meant = text::trimmed(pattern[p]);
    assert(seen(Pass::Punctuation, lines[at + p]) == seen(Pass::Punctuation, pattern[p]));
    assert(plainly(there).len() == plainly(meant).len());
    assert(plainly(there)[c] == plain(there[c]));
    assert(plainly(meant)[c] == plain(meant[c]));
}

} // verus!
