//! Text as a sequence of characters.
//!
//! A string is modelled by its characters (`s@`, a `Seq<char>`). This module says in spec
//! functions what trimming, searching, splitting, joining, replacing and number printing give, and
//! offers executable functions proved to compute exactly that. Positions are character positions.

use vstd::prelude::*;
use vstd::string::*;

verus! {

// ---- trusted: the one std function that vstd leaves unspecified ----------------------------

/// `String::push` appends one character to the end of the string.
pub assume_specification[ std::string::String::push ](s: &mut std::string::String, c: char)
    ensures
        final(s)@ == old(s)@.push(c),
;

// ---- what the operations mean ---------------------------------------------------------------

/// The mathematical values of a sequence: of strings, their texts.
pub open spec fn views<T: View>(v: Seq<T>) -> Seq<T::V> {
    Seq::new(v.len(), |i: int| v[i]@)
}

/// Appending to a sequence appends to its values.
pub broadcast proof fn views_push<T: View>(v: Seq<T>, x: T)
    ensures
        #[trigger] views(v.push(x)) == views(v).push(x@),
{
    assert(views(v.push(x)) =~= views(v).push(x@));
}

/// The empty sequence has no values.
pub proof fn views_empty<T: View>(v: Seq<T>)
    requires
        v.len() == 0,
    ensures
        views(v) == Seq::<T::V>::empty(),
{
    assert(views(v) =~= Seq::<T::V>::empty());
}

/// The text of an optional string.
pub open spec fn opt_view(v: Option<String>) -> Option<Seq<char>> {
    match v {
        Some(s) => Some(s@),
        None => None,
    }
}

/// The Unicode `White_Space` property.
pub open spec fn is_ws(c: char) -> bool {
    ||| '\u{9}' <= c <= '\u{d}'
    ||| c == ' '
    ||| c == '\u{85}'
    ||| c == '\u{a0}'
    ||| c == '\u{1680}'
    ||| '\u{2000}' <= c <= '\u{200a}'
    ||| c == '\u{2028}'
    ||| c == '\u{2029}'
    ||| c == '\u{202f}'
    ||| c == '\u{205f}'
    ||| c == '\u{3000}'
}

/// `s` without its leading white space.
pub open spec fn trimmed_start(s: Seq<char>) -> Seq<char>
    decreases s.len(),
{
    if s.len() > 0 && is_ws(s[0]) {
        trimmed_start(s.subrange(1, s.len() as int))
    } else {
        s
    }
}

/// `s` without its trailing white space.
pub open spec fn trimmed_end(s: Seq<char>) -> Seq<char>
    decreases s.len(),
{
    if s.len() > 0 && is_ws(s.last()) {
        trimmed_end(s.subrange(0, s.len() - 1))
    } else {
        s
    }
}

/// `s` without leading and trailing white space.
pub open spec fn trimmed(s: Seq<char>) -> Seq<char> {
    trimmed_end(trimmed_start(s))
}

/// `s` without its leading run of `c`.
pub open spec fn without_leading(s: Seq<char>, c: char) -> Seq<char>
    decreases s.len(),
{
    if s.len() > 0 && s[0] == c {
        without_leading(s.subrange(1, s.len() as int), c)
    } else {
        s
    }
}

/// `s` without its trailing run of `c`.
pub open spec fn without_trailing(s: Seq<char>, c: char) -> Seq<char>
    decreases s.len(),
{
    if s.len() > 0 && s.last() == c {
        without_trailing(s.subrange(0, s.len() - 1), c)
    } else {
        s
    }
}

/// `p` occurs in `s` at position `i`.
pub open spec fn occurs_at(s: Seq<char>, p: Seq<char>, i: int) -> bool {
    0 <= i && i + p.len() <= s.len() && s.subrange(i, i + p.len()) == p
}

/// `s` begins with `p`.
pub open spec fn begins(s: Seq<char>, p: Seq<char>) -> bool {
    occurs_at(s, p, 0)
}

/// `s` ends with `p`.
pub open spec fn ends(s: Seq<char>, p: Seq<char>) -> bool {
    occurs_at(s, p, s.len() - p.len())
}

/// What follows the first `n` characters of `s`.
pub open spec fn after(s: Seq<char>, n: int) -> Seq<char> {
    s.subrange(n, s.len() as int)
}

/// The first `n` characters of `s`, or all of it when it is shorter.
pub open spec fn first_chars(s: Seq<char>, n: int) -> Seq<char> {
    if s.len() <= n {
        s
    } else {
        s.subrange(0, n)
    }
}

/// The first position at or after `i` at which `p` occurs in `s`.
pub open spec fn found_from(s: Seq<char>, p: Seq<char>, i: int) -> Option<int>
    decreases s.len() + 1 - i,
{
    if i < 0 || i + p.len() > s.len() {
        None
    } else if occurs_at(s, p, i) {
        Some(i)
    } else {
        found_from(s, p, i + 1)
    }
}

/// The first position at which `p` occurs in `s`.
pub open spec fn found(s: Seq<char>, p: Seq<char>) -> Option<int> {
    found_from(s, p, 0)
}

/// `p` occurs somewhere in `s`.
pub open spec fn holds(s: Seq<char>, p: Seq<char>) -> bool {
    found(s, p) is Some
}

/// The first position of `c` at or after `i`, or the length of `s` when there is none.
pub open spec fn next_char(s: Seq<char>, c: char, i: int) -> int
    decreases s.len() - i,
{
    if i < 0 || i >= s.len() {
        s.len() as int
    } else if s[i] == c {
        i
    } else {
        next_char(s, c, i + 1)
    }
}

/// The last position of `c` before `n`, or `-1` when there is none.
pub open spec fn last_char(s: Seq<char>, c: char, n: int) -> int
    decreases n,
{
    if n <= 0 {
        -1
    } else if s[n - 1] == c {
        n - 1
    } else {
        last_char(s, c, n - 1)
    }
}

pub proof fn lemma_next_char(s: Seq<char>, c: char, i: int)
    requires
        0 <= i <= s.len(),
    ensures
        i <= next_char(s, c, i) <= s.len(),
        next_char(s, c, i) < s.len() ==> s[next_char(s, c, i)] == c,
        forall|k: int| i <= k < next_char(s, c, i) ==> s[k] != c,
    decreases s.len() - i,
{
    if i < s.len() && s[i] != c {
        lemma_next_char(s, c, i + 1);
    }
}

pub proof fn lemma_found_from(s: Seq<char>, p: Seq<char>, i: int)
    requires
        0 <= i,
    ensures
        found_from(s, p, i) matches Some(k) ==> {
            &&& i <= k
            &&& occurs_at(s, p, k)
            &&& forall|j: int| i <= j < k ==> !occurs_at(s, p, j)
        },
        found_from(s, p, i) is None ==> forall|j: int| i <= j ==> !occurs_at(s, p, j),
    decreases s.len() + 1 - i,
{
    if i + p.len() <= s.len() && !occurs_at(s, p, i) {
        lemma_found_from(s, p, i + 1);
    }
}

/// The pieces of `s` from `i` on between occurrences of `c`.
pub open spec fn split_from(s: Seq<char>, c: char, i: int) -> Seq<Seq<char>>
    decreases s.len() - i,
{
    if i < 0 || i > s.len() {
        seq![]
    } else {
        proof {
            lemma_next_char(s, c, i);
        }
        let j = next_char(s, c, i);
        if j >= s.len() {
            seq![after(s, i)]
        } else {
            seq![s.subrange(i, j)] + split_from(s, c, j + 1)
        }
    }
}

/// The pieces of `s` between occurrences of `c`: one more than there are occurrences.
pub open spec fn split(s: Seq<char>, c: char) -> Seq<Seq<char>> {
    split_from(s, c, 0)
}

/// The pieces of `s` from `i` on between non-overlapping occurrences of the non-empty `p`.
pub open spec fn pieces_from(s: Seq<char>, p: Seq<char>, i: int) -> Seq<Seq<char>>
    decreases s.len() - i,
{
    if i < 0 || i > s.len() || p.len() == 0 {
        seq![]
    } else {
        proof {
            lemma_found_from(s, p, i);
        }
        match found_from(s, p, i) {
            None => seq![after(s, i)],
            Some(k) => seq![s.subrange(i, k)] + pieces_from(s, p, k + p.len()),
        }
    }
}

/// `s` without one trailing carriage return.
pub open spec fn chomped(s: Seq<char>) -> Seq<char> {
    if s.len() > 0 && s.last() == '\r' {
        s.subrange(0, s.len() - 1)
    } else {
        s
    }
}

/// The lines of `s` from `i` on.
pub open spec fn lines_from(s: Seq<char>, i: int) -> Seq<Seq<char>>
    decreases s.len() - i,
{
    if i < 0 || i >= s.len() {
        seq![]
    } else {
        proof {
            lemma_next_char(s, '\n', i);
        }
        let j = next_char(s, '\n', i);
        if j >= s.len() {
            seq![after(s, i)]
        } else {
            seq![chomped(s.subrange(i, j))] + lines_from(s, j + 1)
        }
    }
}

/// The lines of `s`: `\n` or `\r\n` ends a line, and a final line ending opens no further line.
pub open spec fn lines_of(s: Seq<char>) -> Seq<Seq<char>> {
    lines_from(s, 0)
}

proof fn lemma_next_char_in_prefix(a: Seq<char>, b: Seq<char>, c: char, i: int)
    requires
        0 <= i <= a.len(),
    ensures
        next_char(a, c, i) < a.len() ==> next_char(a + b, c, i) == next_char(a, c, i),
        next_char(a, c, i) >= a.len() ==> next_char(a + b, c, i) == next_char(a + b, c, a.len() as int),
    decreases a.len() - i,
{
    if i < a.len() && a[i] != c {
        lemma_next_char_in_prefix(a, b, c, i + 1);
    }
}

/// Without a `c` in `tail`, appending `tail` extends the last piece of a split.
pub proof fn lemma_split_extend(a: Seq<char>, tail: Seq<char>, c: char, i: int)
    requires
        0 <= i <= a.len(),
        forall|k: int| 0 <= k < tail.len() ==> tail[k] != c,
    ensures
        split_from(a, c, i).len() > 0,
        split_from(a + tail, c, i) == split_from(a, c, i).drop_last().push(
            split_from(a, c, i).last() + tail,
        ),
    decreases a.len() - i,
{
    let b = a + tail;
    lemma_next_char(a, c, i);
    lemma_next_char(b, c, i);
    lemma_next_char_in_prefix(a, tail, c, i);
    let j = next_char(a, c, i);
    if j < a.len() {
        lemma_split_extend(a, tail, c, j + 1);
        assert(b.subrange(i, j) =~= a.subrange(i, j));
        let rest = split_from(a, c, j + 1);
        let head = seq![a.subrange(i, j)];
        assert((head + rest).drop_last() =~= head + rest.drop_last());
        assert(split_from(b, c, i) =~= split_from(a, c, i).drop_last().push(
            split_from(a, c, i).last() + tail,
        ));
    } else {
        let k = next_char(b, c, a.len() as int);
        lemma_next_char(b, c, a.len() as int);
        if k < b.len() {
            assert(b[k] == tail[k - a.len()]);
        }
        assert(after(b, i) =~= after(a, i) + tail);
        assert(split_from(b, c, i) =~= seq![after(a, i) + tail]);
        assert(split_from(a, c, i).drop_last() =~= seq![]);
    }
}

/// Appending a `c` opens an empty last piece.
pub proof fn lemma_split_open(a: Seq<char>, c: char, i: int)
    requires
        0 <= i <= a.len(),
    ensures
        split_from(a.push(c), c, i) == split_from(a, c, i).push(seq![]),
    decreases a.len() - i,
{
    let b = a.push(c);
    assert(b =~= a + seq![c]);
    lemma_next_char(a, c, i);
    lemma_next_char(b, c, i);
    lemma_next_char_in_prefix(a, seq![c], c, i);
    let j = next_char(a, c, i);
    if j < a.len() {
        lemma_split_open(a, c, j + 1);
        assert(b.subrange(i, j) =~= a.subrange(i, j));
        assert(split_from(b, c, i) =~= split_from(a, c, i).push(seq![]));
    } else {
        assert(next_char(b, c, a.len() as int) == a.len());
        assert(b.subrange(i, a.len() as int) =~= after(a, i));
        assert(next_char(b, c, b.len() as int) == b.len());
        assert(after(b, b.len() as int) =~= seq![]);
        assert(split_from(b, c, b.len() as int) =~= seq![Seq::<char>::empty()]);
        assert(split_from(b, c, i) =~= split_from(a, c, i).push(seq![]));
    }
}

proof fn lemma_split_bounds_lines(s: Seq<char>, i: int)
    requires
        0 <= i <= s.len(),
    ensures
        lines_from(s, i).len() <= split_from(s, '\n', i).len(),
    decreases s.len() - i,
{
    if i < s.len() {
        lemma_next_char(s, '\n', i);
        let j = next_char(s, '\n', i);
        if j < s.len() {
            lemma_split_bounds_lines(s, j + 1);
        }
    }
}

/// Splitting at a character takes apart what was joined with it, where no part holds it.
pub proof fn joined_parts_split_again(parts: Seq<Seq<char>>, c: char)
    requires
        parts.len() > 0,
        forall|i: int, k: int|
            0 <= i < parts.len() && 0 <= k < parts[i].len() ==> #[trigger] parts[i][k] != c,
    ensures
        split(joined(parts, seq![c]), c) == parts,
    decreases parts.len(),
{
    let last = parts.last();
    if parts.len() == 1 {
        lemma_next_char(last, c, 0);
        let j = next_char(last, c, 0);
        if j < last.len() {
            assert(parts[0][j] == last[j]);
        }
        assert(after(last, 0) =~= last);
        assert(split(last, c) =~= parts);
    } else {
        let before = parts.drop_last();
        assert forall|i: int, k: int|
            0 <= i < before.len() && 0 <= k < before[i].len() implies #[trigger] before[i][k] != c by {
            assert(before[i][k] == parts[i][k]);
        }
        joined_parts_split_again(before, c);
        let s = joined(before, seq![c]);
        assert(s + seq![c] =~= s.push(c));
        lemma_split_open(s, c, 0);
        assert forall|k: int| 0 <= k < last.len() implies last[k] != c by {
            assert(parts[parts.len() - 1][k] == last[k]);
        }
        lemma_split_extend(s.push(c), last, c, 0);
        let open = split(s.push(c), c);
        assert(open == before.push(seq![]));
        assert(open.drop_last() =~= before);
        assert(open.last() + last =~= last);
        assert(before.push(last) =~= parts);
    }
}

/// Joining lines gives no more lines than there were, where none of them holds a line feed.
pub proof fn lemma_joined_lines(lines: Seq<Seq<char>>)
    requires
        forall|i: int, k: int|
            0 <= i < lines.len() && 0 <= k < lines[i].len() ==> #[trigger] lines[i][k] != '\n',
    ensures
        lines_of(joined(lines, seq!['\n'])).len() <= lines.len(),
{
    if lines.len() > 0 {
        joined_parts_split_again(lines, '\n');
        lemma_split_bounds_lines(joined(lines, seq!['\n']), 0);
    }
}

proof fn lemma_lines_are_pieces(s: Seq<char>, i: int)
    requires
        0 <= i <= s.len(),
        ({
            let pieces = split_from(s, '\n', i);
            &&& pieces.last().len() > 0
            &&& forall|k: int|
                0 <= k < pieces.len() - 1 ==> chomped(#[trigger] pieces[k]) == pieces[k]
        }),
    ensures
        lines_from(s, i) == split_from(s, '\n', i),
    decreases s.len() - i,
{
    lemma_next_char(s, '\n', i);
    let j = next_char(s, '\n', i);
    let pieces = split_from(s, '\n', i);
    if j < s.len() {
        let rest = split_from(s, '\n', j + 1);
        lemma_split_some(s, '\n', j + 1);
        assert(pieces == seq![s.subrange(i, j)] + rest);
        assert(pieces.last() == rest.last());
        assert(chomped(pieces[0]) == pieces[0]);
        assert forall|k: int| 0 <= k < rest.len() - 1 implies chomped(#[trigger] rest[k])
            == rest[k] by {
            assert(rest[k] == pieces[k + 1]);
        }
        lemma_lines_are_pieces(s, j + 1);
    } else {
        assert(pieces == seq![after(s, i)]);
        assert(after(s, i).len() > 0);
    }
}

proof fn lemma_split_some(s: Seq<char>, c: char, i: int)
    requires
        0 <= i <= s.len(),
    ensures
        split_from(s, c, i).len() > 0,
{
    lemma_next_char(s, c, i);
}

/// Lines joined by line feeds are the lines of what comes out, where none of them holds a line feed or
/// ends in a carriage return and the last one is not empty.
pub proof fn joined_lines_read_again(lines: Seq<Seq<char>>)
    requires
        lines.len() > 0,
        lines.last().len() > 0,
        forall|i: int, k: int|
            0 <= i < lines.len() && 0 <= k < lines[i].len() ==> #[trigger] lines[i][k] != '\n',
        forall|i: int|
            0 <= i < lines.len() && (#[trigger] lines[i]).len() > 0 ==> lines[i].last() != '\r',
    ensures
        lines_of(joined(lines, "\n"@)) == lines,
{
    reveal_strlit("\n");
    assert("\n"@ =~= seq!['\n']);
    joined_parts_split_again(lines, '\n');
    lemma_lines_are_pieces(joined(lines, seq!['\n']), 0);
}

/// No line of a text holds a line feed.
pub proof fn lemma_lines_hold_no_feed(s: Seq<char>, i: int)
    requires
        0 <= i,
    ensures
        forall|n: int, k: int|
            0 <= n < lines_from(s, i).len() && 0 <= k < lines_from(s, i)[n].len()
                ==> #[trigger] lines_from(s, i)[n][k] != '\n',
    decreases s.len() - i,
{
    if i < s.len() {
        lemma_next_char(s, '\n', i);
        let j = next_char(s, '\n', i);
        if j < s.len() {
            lemma_lines_hold_no_feed(s, j + 1);
            let head = chomped(s.subrange(i, j));
            let rest = lines_from(s, j + 1);
            assert forall|n: int, k: int|
                0 <= n < lines_from(s, i).len() && 0 <= k < lines_from(s, i)[n].len() implies
                #[trigger] lines_from(s, i)[n][k] != '\n' by {
                if n == 0 {
                    assert(head[k] == s[i + k]);
                } else {
                    assert(lines_from(s, i)[n] == rest[n - 1]);
                    assert(rest[n - 1][k] != '\n');
                }
            }
        } else {
            assert forall|n: int, k: int|
                0 <= n < lines_from(s, i).len() && 0 <= k < lines_from(s, i)[n].len() implies
                #[trigger] lines_from(s, i)[n][k] != '\n' by {
                assert(after(s, i)[k] == s[i + k]);
            }
        }
    }
}

/// Appending a line to whole lines adds that line to the lines.
pub proof fn appended_line_is_last(s: Seq<char>, line: Seq<char>)
    requires
        s.len() == 0 || s.last() == '\n',
        forall|k: int| 0 <= k < line.len() ==> line[k] != '\n',
        line.len() == 0 || line.last() != '\r',
    ensures
        lines_of(s + line + seq!['\n']) == lines_of(s).push(line),
{
    lemma_appended_line(s, line, 0);
}

proof fn lemma_appended_line(s: Seq<char>, line: Seq<char>, i: int)
    requires
        0 <= i <= s.len(),
        s.len() == 0 || s.last() == '\n',
        forall|k: int| 0 <= k < line.len() ==> line[k] != '\n',
        line.len() == 0 || line.last() != '\r',
    ensures
        lines_from(s + line + seq!['\n'], i) == lines_from(s, i).push(line),
    decreases s.len() - i,
{
    let all = s + line + seq!['\n'];
    lemma_next_char(all, '\n', i);
    let j = next_char(all, '\n', i);
    if i < s.len() {
        lemma_next_char(s, '\n', i);
        let k = next_char(s, '\n', i);
        assert(s[s.len() - 1] == '\n');
        assert(k < s.len());
        assert(all[k] == s[k]);
        if j < k {
            assert(all[j] == s[j]);
        }
        assert(j == k);
        lemma_appended_line(s, line, k + 1);
        assert(all.subrange(i, k) =~= s.subrange(i, k));
        assert(lines_from(all, i) =~= lines_from(s, i).push(line));
    } else {
        let end = s.len() + line.len();
        assert(all[end as int] == '\n');
        if j < end {
            assert(all[j] == line[j - s.len()]);
        }
        assert(j == end);
        assert(all.subrange(i, j) =~= line);
        assert(lines_from(all, j + 1) =~= seq![]);
        assert(lines_from(s, i) =~= seq![]);
        assert(lines_from(all, i) =~= seq![line]);
    }
}

/// The first position at or after `i` where white space stops (`ws`) or starts (`!ws`).
pub open spec fn run_end(s: Seq<char>, i: int, ws: bool) -> int
    decreases s.len() - i,
{
    if i < 0 || i >= s.len() {
        s.len() as int
    } else if is_ws(s[i]) != ws {
        i
    } else {
        run_end(s, i + 1, ws)
    }
}

pub proof fn lemma_run_end(s: Seq<char>, i: int, ws: bool)
    requires
        0 <= i <= s.len(),
    ensures
        i <= run_end(s, i, ws) <= s.len(),
        run_end(s, i, ws) < s.len() ==> is_ws(s[run_end(s, i, ws)]) != ws,
        forall|k: int| i <= k < run_end(s, i, ws) ==> is_ws(s[k]) == ws,
    decreases s.len() - i,
{
    if i < s.len() && is_ws(s[i]) == ws {
        lemma_run_end(s, i + 1, ws);
    }
}

/// The words of `s` from `i` on.
pub open spec fn words_from(s: Seq<char>, i: int) -> Seq<Seq<char>>
    decreases s.len() - i,
{
    if i < 0 || i > s.len() {
        seq![]
    } else {
        let a = run_end(s, i, true);
        let b = run_end(s, a, false);
        proof {
            lemma_run_end(s, i, true);
            lemma_run_end(s, a, false);
        }
        if a >= s.len() {
            seq![]
        } else {
            seq![s.subrange(a, b)] + words_from(s, b)
        }
    }
}

/// The maximal runs of `s` without white space.
pub open spec fn words_of(s: Seq<char>) -> Seq<Seq<char>> {
    words_from(s, 0)
}

/// The parts one after the other with `sep` between neighbours.
pub open spec fn joined(parts: Seq<Seq<char>>, sep: Seq<char>) -> Seq<char>
    decreases parts.len(),
{
    if parts.len() == 0 {
        seq![]
    } else if parts.len() == 1 {
        parts[0]
    } else {
        joined(parts.drop_last(), sep) + sep + parts.last()
    }
}

/// `s` from `i` on with every non-overlapping occurrence of the non-empty `p` replaced by `w`.
pub open spec fn replaced_from(s: Seq<char>, p: Seq<char>, w: Seq<char>, i: int) -> Seq<char>
    decreases s.len() - i,
{
    if i < 0 || i > s.len() || p.len() == 0 {
        seq![]
    } else {
        proof {
            lemma_found_from(s, p, i);
        }
        match found_from(s, p, i) {
            None => after(s, i),
            Some(k) => s.subrange(i, k) + w + replaced_from(s, p, w, k + p.len()),
        }
    }
}

/// `s` with every occurrence of the non-empty `p` replaced by `w`, left to right.
pub open spec fn replaced(s: Seq<char>, p: Seq<char>, w: Seq<char>) -> Seq<char> {
    replaced_from(s, p, w, 0)
}

/// How often the non-empty `p` occurs in `s` from `i` on, without overlaps.
pub open spec fn count_from(s: Seq<char>, p: Seq<char>, i: int) -> nat
    decreases s.len() - i,
{
    if i < 0 || i > s.len() || p.len() == 0 {
        0
    } else {
        proof {
            lemma_found_from(s, p, i);
        }
        match found_from(s, p, i) {
            None => 0,
            Some(k) => 1 + count_from(s, p, k + p.len()),
        }
    }
}

/// How often `p` occurs in `s` without overlaps. The empty text occurs around every character.
pub open spec fn count_of(s: Seq<char>, p: Seq<char>) -> nat {
    if p.len() == 0 {
        s.len() + 1
    } else {
        count_from(s, p, 0)
    }
}

/// `s` with the first occurrence of `p`, if any, replaced by `w`.
pub open spec fn replaced_once(s: Seq<char>, p: Seq<char>, w: Seq<char>) -> Seq<char> {
    match found(s, p) {
        None => s,
        Some(k) => s.subrange(0, k) + w + after(s, k + p.len()),
    }
}

/// The decimal digit `d`.
pub open spec fn digit(d: nat) -> char {
    (48 + d) as char
}

/// `n` in decimal.
pub open spec fn decimal(n: nat) -> Seq<char>
    decreases n,
{
    if n < 10 {
        seq![digit(n)]
    } else {
        decimal(n / 10).push(digit(n % 10))
    }
}

/// The digit `d` of base 36: the ten decimal digits, then the letters from `a` on.
pub open spec fn digit36(d: nat) -> char {
    if d < 10 {
        digit(d)
    } else {
        (87 + d) as char
    }
}

/// `n` in base 36.
pub open spec fn base36(n: nat) -> Seq<char>
    decreases n,
{
    if n < 36 {
        seq![digit36(n)]
    } else {
        base36(n / 36).push(digit36(n % 36))
    }
}

/// Two numbers differ in base 36.
pub proof fn lemma_base36_differs(m: nat, n: nat)
    requires
        m != n,
    ensures
        base36(m) != base36(n),
    decreases m + n,
{
    let a = base36(m);
    let b = base36(n);
    assert(a.last() == digit36(m % 36));
    assert(b.last() == digit36(n % 36));
    if m % 36 == n % 36 {
        if m < 36 {
            lemma_base36_nonempty(n / 36);
        } else if n < 36 {
            lemma_base36_nonempty(m / 36);
        } else {
            lemma_base36_differs(m / 36, n / 36);
            assert(a.drop_last() =~= base36(m / 36));
            assert(b.drop_last() =~= base36(n / 36));
        }
    }
}

proof fn lemma_base36_nonempty(n: nat)
    ensures
        base36(n).len() > 0,
{
}

/// Two numbers differ in decimal.
pub proof fn lemma_decimal_differs(m: nat, n: nat)
    requires
        m != n,
    ensures
        decimal(m) != decimal(n),
    decreases m + n,
{
    let a = decimal(m);
    let b = decimal(n);
    assert(a.last() == digit(m % 10));
    assert(b.last() == digit(n % 10));
    if m % 10 == n % 10 {
        if m < 10 {
            lemma_decimal_nonempty(n / 10);
        } else if n < 10 {
            lemma_decimal_nonempty(m / 10);
        } else {
            lemma_decimal_differs(m / 10, n / 10);
            assert(a.drop_last() =~= decimal(m / 10));
            assert(b.drop_last() =~= decimal(n / 10));
        }
    }
}

/// A number in decimal is written in digits.
pub proof fn lemma_decimal_digits(n: nat)
    ensures
        forall|i: int| 0 <= i < decimal(n).len() ==> '0' <= (#[trigger] decimal(n)[i]) <= '9',
    decreases n,
{
    if n >= 10 {
        lemma_decimal_digits(n / 10);
        let before = decimal(n / 10);
        assert forall|i: int| 0 <= i < decimal(n).len() implies '0' <= (#[trigger] decimal(n)[i])
            <= '9' by {
            if i < before.len() {
                assert(decimal(n)[i] == before[i]);
            }
        }
    }
}

proof fn lemma_decimal_nonempty(n: nat)
    ensures
        decimal(n).len() > 0,
{
}

/// `n` in decimal, with a minus sign when it is negative.
pub open spec fn signed_decimal(n: int) -> Seq<char> {
    if n < 0 {
        seq!['-'] + decimal((-n) as nat)
    } else {
        decimal(n as nat)
    }
}

/// `n` copies of `c`.
pub open spec fn run_of(c: char, n: int) -> Seq<char> {
    Seq::new((if n < 0 { 0 } else { n }) as nat, |i: int| c)
}

/// `s` padded on the left with blanks to at least `width` characters.
pub open spec fn right_aligned(s: Seq<char>, width: int) -> Seq<char> {
    run_of(' ', width - s.len()) + s
}

// ---- the executable functions ---------------------------------------------------------------

/// The characters of `s`.
pub fn chars_of(s: &str) -> (r: Vec<char>)
    ensures
        r@ == s@,
{
    let mut v: Vec<char> = Vec::new();
    for c in it: s.chars()
        invariant
            v@ == it.seq().take(it.index()),
            it.seq() == s@,
    {
        v.push(c);
    }
    v
}

/// The string with the characters `v[from..to]`.
pub fn string_of(v: &Vec<char>, from: usize, to: usize) -> (r: String)
    requires
        from <= to <= v@.len(),
    ensures
        r@ == v@.subrange(from as int, to as int),
{
    let mut r = String::new();
    let mut i: usize = from;
    while i < to
        invariant
            from <= i <= to <= v@.len(),
            r@ == v@.subrange(from as int, i as int),
        decreases to - i,
    {
        r.push(v[i]);
        i += 1;
        assert(v@.subrange(from as int, i as int) =~= v@.subrange(from as int, i - 1).push(v@[i - 1]));
    }
    r
}

/// Whether two texts are equal.
pub fn same(a: &str, b: &str) -> (r: bool)
    ensures
        r == (a@ == b@),
{
    a.to_string() == b.to_string()
}

/// Whether `c` is white space.
pub fn is_white_space(c: char) -> (r: bool)
    ensures
        r == is_ws(c),
{
    ('\u{9}' <= c && c <= '\u{d}') || c == ' ' || c == '\u{85}' || c == '\u{a0}' || c == '\u{1680}'
        || ('\u{2000}' <= c && c <= '\u{200a}') || c == '\u{2028}' || c == '\u{2029}' || c
        == '\u{202f}' || c == '\u{205f}' || c == '\u{3000}'
}

/// `s` without its leading white space.
pub fn trim_start<'a>(s: &'a str) -> (r: &'a str)
    ensures
        r@ == trimmed_start(s@),
{
    let v = chars_of(s);
    let mut i: usize = 0;
    proof {
        assert(after(s@, 0) =~= s@);
    }
    while i < v.len() && is_white_space(v[i])
        invariant
            0 <= i <= v@.len(),
            v@ == s@,
            trimmed_start(after(s@, i as int)) == trimmed_start(s@),
        decreases v@.len() - i,
    {
        proof {
            let t = after(s@, i as int);
            assert(t.subrange(1, t.len() as int) =~= after(s@, i + 1));
        }
        i += 1;
    }
    s.substring_char(i, v.len())
}

/// `s` without its trailing white space.
pub fn trim_end<'a>(s: &'a str) -> (r: &'a str)
    ensures
        r@ == trimmed_end(s@),
{
    let v = chars_of(s);
    let mut n: usize = v.len();
    proof {
        assert(s@.subrange(0, n as int) =~= s@);
    }
    while n > 0 && is_white_space(v[n - 1])
        invariant
            0 <= n <= v@.len(),
            v@ == s@,
            trimmed_end(s@.subrange(0, n as int)) == trimmed_end(s@),
        decreases n,
    {
        proof {
            let t = s@.subrange(0, n as int);
            assert(t.subrange(0, t.len() - 1) =~= s@.subrange(0, n - 1));
        }
        n -= 1;
    }
    s.substring_char(0, n)
}

/// `s` without leading and trailing white space.
pub fn trim<'a>(s: &'a str) -> (r: &'a str)
    ensures
        r@ == trimmed(s@),
{
    trim_end(trim_start(s))
}

/// `s` without its leading run of `c`.
pub fn trim_start_matches<'a>(s: &'a str, c: char) -> (r: &'a str)
    ensures
        r@ == without_leading(s@, c),
{
    let v = chars_of(s);
    let mut i: usize = 0;
    proof {
        assert(after(s@, 0) =~= s@);
    }
    while i < v.len() && v[i] == c
        invariant
            0 <= i <= v@.len(),
            v@ == s@,
            without_leading(after(s@, i as int), c) == without_leading(s@, c),
        decreases v@.len() - i,
    {
        proof {
            let t = after(s@, i as int);
            assert(t.subrange(1, t.len() as int) =~= after(s@, i + 1));
        }
        i += 1;
    }
    s.substring_char(i, v.len())
}

/// `s` without its trailing run of `c`.
pub fn trim_end_matches<'a>(s: &'a str, c: char) -> (r: &'a str)
    ensures
        r@ == without_trailing(s@, c),
{
    let v = chars_of(s);
    let mut n: usize = v.len();
    proof {
        assert(s@.subrange(0, n as int) =~= s@);
    }
    while n > 0 && v[n - 1] == c
        invariant
            0 <= n <= v@.len(),
            v@ == s@,
            without_trailing(s@.subrange(0, n as int), c) == without_trailing(s@, c),
        decreases n,
    {
        proof {
            let t = s@.subrange(0, n as int);
            assert(t.subrange(0, t.len() - 1) =~= s@.subrange(0, n - 1));
        }
        n -= 1;
    }
    s.substring_char(0, n)
}

/// Whether `p` occurs in `v` at `i`.
fn matches_at(v: &Vec<char>, p: &Vec<char>, i: usize) -> (r: bool)
    requires
        i <= v@.len(),
    ensures
        r == occurs_at(v@, p@, i as int),
{
    if p.len() > v.len() - i {
        return false;
    }
    let mut k: usize = 0;
    while k < p.len()
        invariant
            i + p@.len() <= v.len(),
            0 <= k <= p@.len(),
            forall|j: int| 0 <= j < k ==> v@[i + j] == p@[j],
        decreases p@.len() - k,
    {
        if v[i + k] != p[k] {
            assert(v@.subrange(i as int, i + p@.len())[k as int] != p@[k as int]);
            return false;
        }
        k += 1;
    }
    assert(v@.subrange(i as int, i + p@.len()) =~= p@);
    true
}

/// The first position at or after `from` at which `p` occurs in `v`.
pub fn find_from(v: &Vec<char>, p: &Vec<char>, from: usize) -> (r: Option<usize>)
    requires
        from <= v@.len(),
    ensures
        r matches Some(k) ==> found_from(v@, p@, from as int) == Some(k as int),
        r is None ==> found_from(v@, p@, from as int) is None,
{
    let mut i: usize = from;
    while i <= v.len() && p.len() <= v.len() - i
        invariant
            from <= i <= v@.len() + 1,
            i <= v@.len() || p@.len() == 0,
            found_from(v@, p@, i as int) == found_from(v@, p@, from as int),
        decreases v@.len() + 1 - i,
    {
        if matches_at(v, p, i) {
            return Some(i);
        }
        if i == v.len() {
            assert(found_from(v@, p@, i + 1) is None);
            return None;
        }
        i += 1;
    }
    None
}

/// The first position at which `p` occurs in `s`.
pub fn find(s: &str, p: &str) -> (r: Option<usize>)
    ensures
        r matches Some(k) ==> found(s@, p@) == Some(k as int) && k + p@.len() <= s@.len(),
        r is None ==> found(s@, p@) is None,
{
    let r = find_from(&chars_of(s), &chars_of(p), 0);
    proof {
        lemma_found_from(s@, p@, 0);
    }
    r
}

/// Whether `p` occurs in `s`.
pub fn contains(s: &str, p: &str) -> (r: bool)
    ensures
        r == holds(s@, p@),
{
    find(s, p).is_some()
}

/// Whether `s` begins with `p`.
pub fn starts_with(s: &str, p: &str) -> (r: bool)
    ensures
        r == begins(s@, p@),
{
    matches_at(&chars_of(s), &chars_of(p), 0)
}

/// Whether `s` ends with `p`.
pub fn ends_with(s: &str, p: &str) -> (r: bool)
    ensures
        r == ends(s@, p@),
{
    let v = chars_of(s);
    let w = chars_of(p);
    if w.len() > v.len() {
        return false;
    }
    matches_at(&v, &w, v.len() - w.len())
}

/// What follows `p` in `s`, when `s` begins with `p`.
pub fn strip_prefix<'a>(s: &'a str, p: &str) -> (r: Option<&'a str>)
    ensures
        r matches Some(t) ==> begins(s@, p@) && t@ == after(s@, p@.len() as int),
        r is None ==> !begins(s@, p@),
{
    if starts_with(s, p) {
        let n = p.unicode_len();
        Some(s.substring_char(n, s.unicode_len()))
    } else {
        None
    }
}

/// The first position of `c` in `s`.
pub fn find_char(s: &str, c: char) -> (r: Option<usize>)
    ensures
        r matches Some(k) ==> k == next_char(s@, c, 0) && k < s@.len(),
        r is None ==> next_char(s@, c, 0) == s@.len(),
{
    let v = chars_of(s);
    let j = next_char_at(&v, c, 0);
    if j < v.len() {
        Some(j)
    } else {
        None
    }
}

/// The first position of `c` at or after `from`, or the length of `v`.
pub fn next_char_at(v: &Vec<char>, c: char, from: usize) -> (r: usize)
    requires
        from <= v@.len(),
    ensures
        r == next_char(v@, c, from as int),
        from <= r <= v@.len(),
{
    let mut i: usize = from;
    while i < v.len() && v[i] != c
        invariant
            from <= i <= v@.len(),
            next_char(v@, c, i as int) == next_char(v@, c, from as int),
        decreases v@.len() - i,
    {
        i += 1;
    }
    i
}

/// The last position of `c` in `s`.
pub fn rfind_char(s: &str, c: char) -> (r: Option<usize>)
    ensures
        r matches Some(k) ==> k == last_char(s@, c, s@.len() as int) && k < s@.len(),
        r is None ==> last_char(s@, c, s@.len() as int) == -1,
{
    let v = chars_of(s);
    let mut n: usize = v.len();
    while n > 0
        invariant
            0 <= n <= v@.len(),
            v@ == s@,
            last_char(s@, c, n as int) == last_char(s@, c, s@.len() as int),
        decreases n,
    {
        if v[n - 1] == c {
            return Some(n - 1);
        }
        n -= 1;
    }
    None
}

/// The pieces of `s` between occurrences of `c`.
pub fn split_char<'a>(s: &'a str, c: char) -> (r: Vec<&'a str>)
    ensures
        views(r@) == split(s@, c),
{
    let v = chars_of(s);
    let mut out: Vec<&'a str> = Vec::new();
    let mut i: usize = 0;
    assert(views(out@) + split_from(s@, c, 0) =~= split_from(s@, c, 0));
    loop
        invariant_except_break
            views(out@) + split_from(s@, c, i as int) == split(s@, c),
        invariant
            0 <= i <= v@.len(),
            v@ == s@,
        ensures
            views(out@) == split(s@, c),
        decreases v@.len() + 1 - i,
    {
        let j = next_char_at(&v, c, i);
        let ghost before = out@;
        out.push(s.substring_char(i, j));
        proof {
            lemma_next_char(s@, c, i as int);
            assert(views(out@) =~= views(before).push(s@.subrange(i as int, j as int)));
        }
        if j >= v.len() {
            proof {
                assert(views(before) + seq![after(s@, i as int)] =~= views(out@));
            }
            break;
        }
        proof {
            assert(views(before) + (seq![s@.subrange(i as int, j as int)] + split_from(s@, c, j + 1))
                =~= views(out@) + split_from(s@, c, j + 1));
        }
        i = j + 1;
    }
    out
}

/// The pieces of `s` between non-overlapping occurrences of `p`.
pub fn split_str<'a>(s: &'a str, p: &str) -> (r: Vec<&'a str>)
    requires
        p@.len() > 0,
    ensures
        views(r@) == pieces_from(s@, p@, 0),
{
    let v = chars_of(s);
    let w = chars_of(p);
    let mut out: Vec<&'a str> = Vec::new();
    let mut i: usize = 0;
    assert(views(out@) + pieces_from(s@, p@, 0) =~= pieces_from(s@, p@, 0));
    loop
        invariant_except_break
            views(out@) + pieces_from(s@, p@, i as int) == pieces_from(s@, p@, 0),
        invariant
            0 <= i <= v.len(),
            v@ == s@,
            w@ == p@,
            p@.len() > 0,
        ensures
            views(out@) == pieces_from(s@, p@, 0),
        decreases v@.len() + 1 - i,
    {
        let hit = find_from(&v, &w, i);
        let ghost before = out@;
        proof {
            lemma_found_from(s@, p@, i as int);
        }
        match hit {
            None => {
                out.push(s.substring_char(i, v.len()));
                proof {
                    assert(views(out@) =~= views(before) + seq![after(s@, i as int)]);
                }
                break;
            },
            Some(k) => {
                out.push(s.substring_char(i, k));
                proof {
                    let rest = pieces_from(s@, p@, k + p@.len());
                    assert(views(before) + (seq![s@.subrange(i as int, k as int)] + rest)
                        =~= views(out@) + rest);
                }
                i = k + w.len();
            },
        }
    }
    out
}

/// The lines of `s`.
pub fn lines<'a>(s: &'a str) -> (r: Vec<&'a str>)
    ensures
        views(r@) == lines_of(s@),
{
    let v = chars_of(s);
    let mut out: Vec<&'a str> = Vec::new();
    let mut i: usize = 0;
    assert(views(out@) + lines_from(s@, 0) =~= lines_from(s@, 0));
    while i < v.len()
        invariant
            0 <= i <= v@.len(),
            v@ == s@,
            views(out@) + lines_from(s@, i as int) == lines_of(s@),
        decreases v@.len() - i,
    {
        let j = next_char_at(&v, '\n', i);
        let ghost before = out@;
        if j >= v.len() {
            out.push(s.substring_char(i, j));
            proof {
                assert(views(out@) =~= views(before) + seq![after(s@, i as int)]);
                assert(lines_from(s@, j as int) =~= Seq::<Seq<char>>::empty());
                assert(views(out@) + lines_from(s@, j as int) =~= views(out@));
            }
            i = j;
        } else {
            let end: usize = if j > i && v[j - 1] == '\r' {
                j - 1
            } else {
                j
            };
            out.push(s.substring_char(i, end));
            proof {
                let line = s@.subrange(i as int, j as int);
                assert(chomped(line) =~= s@.subrange(i as int, end as int));
                let rest = lines_from(s@, j + 1);
                assert(views(before) + (seq![chomped(line)] + rest) =~= views(out@) + rest);
            }
            i = j + 1;
        }
    }
    proof {
        assert(lines_from(s@, i as int) =~= Seq::<Seq<char>>::empty());
        assert(views(out@) + lines_from(s@, i as int) =~= views(out@));
    }
    out
}

/// The words of `s`.
pub fn words<'a>(s: &'a str) -> (r: Vec<&'a str>)
    ensures
        views(r@) == words_of(s@),
{
    let v = chars_of(s);
    let mut out: Vec<&'a str> = Vec::new();
    let mut i: usize = 0;
    assert(views(out@) + words_from(s@, 0) =~= words_from(s@, 0));
    loop
        invariant
            0 <= i <= v@.len(),
            v@ == s@,
            views(out@) + words_from(s@, i as int) == words_of(s@),
        ensures
            views(out@) == words_of(s@),
        decreases v@.len() + 1 - i,
    {
        let a = run_end_at(&v, i, true);
        if a >= v.len() {
            proof {
                assert(views(out@) + Seq::<Seq<char>>::empty() =~= views(out@));
            }
            break;
        }
        let b = run_end_at(&v, a, false);
        let ghost before = out@;
        out.push(s.substring_char(a, b));
        proof {
            lemma_run_end(s@, i as int, true);
            let rest = words_from(s@, b as int);
            assert(views(before) + (seq![s@.subrange(a as int, b as int)] + rest) =~= views(out@)
                + rest);
        }
        i = b;
    }
    out
}

fn run_end_at(v: &Vec<char>, from: usize, ws: bool) -> (r: usize)
    requires
        from <= v@.len(),
    ensures
        r == run_end(v@, from as int, ws),
        from <= r <= v@.len(),
        from < v@.len() && is_ws(v@[from as int]) == ws ==> r > from,
{
    let mut i: usize = from;
    while i < v.len() && is_white_space(v[i]) == ws
        invariant
            from <= i <= v@.len(),
            from < v@.len() && is_ws(v@[from as int]) == ws ==> i > from || i == from,
            run_end(v@, i as int, ws) == run_end(v@, from as int, ws),
        decreases v@.len() - i,
    {
        i += 1;
    }
    i
}

/// The parts with `sep` between neighbours.
pub fn join(parts: &Vec<String>, sep: &str) -> (r: String)
    ensures
        r@ == joined(views(parts@), sep@),
{
    let mut out = String::new();
    let mut i: usize = 0;
    while i < parts.len()
        invariant
            0 <= i <= parts@.len(),
            out@ == joined(views(parts@).take(i as int), sep@),
        decreases parts@.len() - i,
    {
        if i > 0 {
            out.append(sep);
        }
        out.append(parts[i].as_str());
        proof {
            let all = views(parts@);
            assert(all.take(i + 1).drop_last() =~= all.take(i as int));
            assert(all.take(i + 1).last() == parts@[i as int]@);
            if i == 0 {
                assert(out@ =~= parts@[0]@);
            }
        }
        i += 1;
    }
    assert(views(parts@).take(i as int) =~= views(parts@));
    out
}

/// The parts with `sep` between neighbours, for borrowed parts.
pub fn join_strs(parts: &Vec<&str>, sep: &str) -> (r: String)
    ensures
        r@ == joined(views(parts@), sep@),
{
    let mut out = String::new();
    let mut i: usize = 0;
    while i < parts.len()
        invariant
            0 <= i <= parts@.len(),
            out@ == joined(views(parts@).take(i as int), sep@),
        decreases parts@.len() - i,
    {
        if i > 0 {
            out.append(sep);
        }
        out.append(parts[i]);
        proof {
            let all = views(parts@);
            assert(all.take(i + 1).drop_last() =~= all.take(i as int));
            assert(all.take(i + 1).last() == parts@[i as int]@);
            if i == 0 {
                assert(out@ =~= parts@[0]@);
            }
        }
        i += 1;
    }
    assert(views(parts@).take(i as int) =~= views(parts@));
    out
}

/// `s` with every occurrence of `p` replaced by `w`.
pub fn replace(s: &str, p: &str, w: &str) -> (r: String)
    requires
        p@.len() > 0,
    ensures
        r@ == replaced(s@, p@, w@),
{
    let v = chars_of(s);
    let pat = chars_of(p);
    let mut out = String::new();
    let mut i: usize = 0;
    assert(out@ + replaced_from(s@, p@, w@, 0) =~= replaced_from(s@, p@, w@, 0));
    loop
        invariant_except_break
            out@ + replaced_from(s@, p@, w@, i as int) == replaced(s@, p@, w@),
        invariant
            0 <= i <= v.len(),
            v@ == s@,
            pat@ == p@,
            p@.len() > 0,
        ensures
            out@ == replaced(s@, p@, w@),
        decreases v@.len() + 1 - i,
    {
        let hit = find_from(&v, &pat, i);
        proof {
            lemma_found_from(s@, p@, i as int);
        }
        let ghost before = out@;
        match hit {
            None => {
                out.append(s.substring_char(i, v.len()));
                break;
            },
            Some(k) => {
                out.append(s.substring_char(i, k));
                out.append(w);
                proof {
                    let rest = replaced_from(s@, p@, w@, k + p@.len());
                    assert(before + (s@.subrange(i as int, k as int) + w@ + rest) =~= out@ + rest);
                }
                i = k + pat.len();
            },
        }
    }
    out
}

/// How often `p` occurs in `s` without overlaps.
pub fn count_matches(s: &str, p: &str) -> (r: u128)
    ensures
        r == count_of(s@, p@),
{
    let v = chars_of(s);
    let pat = chars_of(p);
    if pat.len() == 0 {
        return v.len() as u128 + 1;
    }
    let mut n: u128 = 0;
    let mut i: usize = 0;
    loop
        invariant
            0 <= i <= v.len(),
            v@ == s@,
            pat@ == p@,
            p@.len() > 0,
            n <= i,
            n + count_from(s@, p@, i as int) == count_from(s@, p@, 0),
        ensures
            n == count_from(s@, p@, 0),
        decreases v@.len() + 1 - i,
    {
        let hit = find_from(&v, &pat, i);
        proof {
            lemma_found_from(s@, p@, i as int);
        }
        match hit {
            None => {
                break;
            },
            Some(k) => {
                n += 1;
                i = k + pat.len();
            },
        }
    }
    n
}

/// `s` with the first occurrence of `p` replaced by `w`.
pub fn replace_once(s: &str, p: &str, w: &str) -> (r: String)
    ensures
        r@ == replaced_once(s@, p@, w@),
{
    match find(s, p) {
        None => s.to_string(),
        Some(k) => {
            let n = p.unicode_len();
            let len = s.unicode_len();
            let mut out = s.substring_char(0, k).to_string();
            out.append(w);
            out.append(s.substring_char(k + n, len));
            out
        },
    }
}

/// The first `n` characters of `s`.
pub fn take_chars<'a>(s: &'a str, n: usize) -> (r: &'a str)
    ensures
        r@ == first_chars(s@, n as int),
{
    let len = s.unicode_len();
    if len <= n {
        s
    } else {
        s.substring_char(0, n)
    }
}

/// `n` in decimal.
pub fn wide_decimal_of(n: u128) -> (r: String)
    ensures
        r@ == decimal(n as nat),
    decreases n,
{
    if n < 10 {
        let mut s = String::new();
        s.push((48u8 + n as u8) as char);
        assert(s@ =~= seq![digit(n as nat)]);
        s
    } else {
        let mut s = wide_decimal_of(n / 10);
        s.push((48u8 + (n % 10) as u8) as char);
        s
    }
}

/// The digit `d` of base 36.
fn base36_digit(d: u64) -> (r: char)
    requires
        d < 36,
    ensures
        r == digit36(d as nat),
{
    if d < 10 {
        (48u8 + d as u8) as char
    } else {
        (87u8 + d as u8) as char
    }
}

/// `n` in base 36.
pub fn base36_of(n: u64) -> (r: String)
    ensures
        r@ == base36(n as nat),
    decreases n,
{
    if n < 36 {
        let mut s = String::new();
        s.push(base36_digit(n));
        assert(s@ =~= seq![digit36(n as nat)]);
        s
    } else {
        let mut s = base36_of(n / 36);
        s.push(base36_digit(n % 36));
        s
    }
}

/// `n` in decimal.
pub fn decimal_of(n: u64) -> (r: String)
    ensures
        r@ == decimal(n as nat),
{
    wide_decimal_of(n as u128)
}

/// `n` in decimal.
pub fn signed_decimal_of(n: i64) -> (r: String)
    ensures
        r@ == signed_decimal(n as int),
{
    if n >= 0 {
        decimal_of(n as u64)
    } else {
        let m: u64 = if n == i64::MIN {
            0x8000_0000_0000_0000u64
        } else {
            (-n) as u64
        };
        let mut s = "-".to_string();
        s.append(decimal_of(m).as_str());
        proof {
            reveal_strlit("-");
            assert("-"@ =~= seq!['-']);
        }
        s
    }
}

/// `s` padded on the left with blanks to at least `width` characters.
pub fn right_align(s: &str, width: usize) -> (r: String)
    ensures
        r@ == right_aligned(s@, width as int),
{
    let len = s.unicode_len();
    let mut out = String::new();
    let mut i: usize = len;
    while i < width
        invariant
            len <= i,
            i <= width || i == len,
            out@ == run_of(' ', i - len),
        decreases width - i,
    {
        out.push(' ');
        i += 1;
        assert(out@ =~= run_of(' ', i - len));
    }
    out.append(s);
    assert(run_of(' ', i - len) =~= run_of(' ', width - s@.len()));
    out
}

/// One string after the other.
pub fn concat2(a: &str, b: &str) -> (r: String)
    ensures
        r@ == a@ + b@,
{
    let mut out = a.to_string();
    out.append(b);
    out
}

/// Three strings one after the other.
pub fn concat3(a: &str, b: &str, c: &str) -> (r: String)
    ensures
        r@ == a@ + b@ + c@,
{
    let mut out = a.to_string();
    out.append(b);
    out.append(c);
    out
}

/// Whether `x` is one of `names`.
pub fn is_among(names: &Vec<String>, x: &str) -> (r: bool)
    ensures
        r == views(names@).contains(x@),
{
    let ghost all = views(names@);
    let mut i: usize = 0;
    while i < names.len()
        invariant
            0 <= i <= names@.len(),
            all == views(names@),
            forall|k: int| 0 <= k < i ==> #[trigger] all[k] != x@,
        decreases names@.len() - i,
    {
        assert(all[i as int] == names@[i as int]@);
        if same(names[i].as_str(), x) {
            return true;
        }
        i += 1;
    }
    false
}

/// The strings again.
pub fn copy_strings(v: &[String]) -> (r: Vec<String>)
    ensures
        views(r@) == views(v@),
        r@.len() == v@.len(),
{
    let mut out: Vec<String> = Vec::new();
    let mut i: usize = 0;
    while i < v.len()
        invariant
            0 <= i <= v@.len(),
            out@.len() == i,
            forall|k: int| 0 <= k < i ==> (#[trigger] out@[k])@ == v@[k]@,
        decreases v@.len() - i,
    {
        out.push(v[i].clone());
        i += 1;
    }
    assert(views(out@) =~= views(v@));
    out
}

/// The slices as strings of their own.
pub fn to_strings(v: &Vec<&str>) -> (r: Vec<String>)
    ensures
        views(r@) == views(v@),
{
    let mut out: Vec<String> = Vec::new();
    let mut i: usize = 0;
    while i < v.len()
        invariant
            0 <= i <= v@.len(),
            out@.len() == i,
            forall|k: int| 0 <= k < i ==> (#[trigger] out@[k])@ == v@[k]@,
        decreases v@.len() - i,
    {
        out.push(v[i].to_string());
        i += 1;
    }
    assert(views(out@) =~= views(v@));
    out
}

// ---- numbers in text ------------------------------------------------------------------------

pub open spec fn is_digit(c: char) -> bool {
    '0' <= c <= '9'
}

/// The value of the decimal digits `s[..n]`.
pub open spec fn digits_value(s: Seq<char>, n: int) -> int
    decreases n,
{
    if n <= 0 {
        0
    } else {
        10 * digits_value(s, n - 1) + (s[n - 1] as int - 48)
    }
}

/// At least one digit and nothing else.
pub open spec fn all_digits(s: Seq<char>) -> bool {
    s.len() > 0 && forall|i: int| 0 <= i < s.len() ==> is_digit(#[trigger] s[i])
}

/// The `i64` that a text spells: an optional sign and decimal digits.
pub open spec fn i64_spelled(s: Seq<char>) -> Option<int> {
    let signed = s.len() > 0 && (s[0] == '-' || s[0] == '+');
    let digits = if signed {
        after(s, 1)
    } else {
        s
    };
    let value = if signed && s[0] == '-' {
        -digits_value(digits, digits.len() as int)
    } else {
        digits_value(digits, digits.len() as int)
    };
    if all_digits(digits) && i64::MIN <= value <= i64::MAX {
        Some(value)
    } else {
        None
    }
}

proof fn lemma_digits_grow(s: Seq<char>, m: int, n: int)
    requires
        0 <= m <= n <= s.len(),
        all_digits(s),
    ensures
        0 <= digits_value(s, m) <= digits_value(s, n),
    decreases n,
{
    if m < n {
        lemma_digits_grow(s, m, n - 1);
        assert(is_digit(s[n - 1]));
    } else if n > 0 {
        lemma_digits_grow(s, m - 1, n - 1);
        assert(is_digit(s[n - 1]));
    }
}

/// The `i64` that a text spells.
pub fn parse_i64(s: &str) -> (r: Option<i64>)
    ensures
        match r {
            Some(n) => i64_spelled(s@) == Some(n as int),
            None => i64_spelled(s@) is None,
        },
{
    let v = chars_of(s);
    let signed = v.len() > 0 && (v[0] == '-' || v[0] == '+');
    let negative = signed && v[0] == '-';
    let start: usize = if signed {
        1
    } else {
        0
    };
    let ghost digits = if signed {
        after(s@, 1)
    } else {
        s@
    };
    if start >= v.len() {
        return None;
    }
    let mut k: usize = start;
    while k < v.len()
        invariant
            start <= k <= v@.len(),
            v@ == s@,
            digits == after(s@, start as int) || (start == 0 && digits == s@),
            start <= 1,
            digits.len() == v@.len() - start,
            forall|i: int| 0 <= i < k - start ==> is_digit(#[trigger] digits[i]),
            i64_spelled(s@) is Some ==> all_digits(digits),
        decreases v@.len() - k,
    {
        assert(digits[k - start] == v@[k as int]);
        if v[k] < '0' || v[k] > '9' {
            assert(!is_digit(digits[k - start]));
            return None;
        }
        k += 1;
    }
    assert(all_digits(digits));
    let mut total: i128 = 0;
    let mut i: usize = start;
    while i < v.len()
        invariant
            start <= i <= v@.len(),
            v@ == s@,
            start <= 1,
            digits.len() == v@.len() - start,
            forall|j: int| 0 <= j < digits.len() ==> #[trigger] digits[j] == v@[start + j],
            all_digits(digits),
            0 <= total == digits_value(digits, i - start),
            total <= 0x8000_0000_0000_0000i128,
            negative ==> signed,
            signed ==> start == 1 && negative == (s@[0] == '-') && digits == after(s@, 1) && (s@[0]
                == '-' || s@[0] == '+'),
            !signed ==> start == 0 && digits == s@ && s@[0] != '-' && s@[0] != '+',
            s@.len() > 0,
        decreases v@.len() - i,
    {
        assert(digits[i - start] == v@[i as int]);
        assert(is_digit(digits[i - start]));
        total = total * 10 + (v[i] as u32 as i128 - 48);
        proof {
            lemma_digits_grow(digits, i - start + 1, digits.len() as int);
        }
        if total > 0x8000_0000_0000_0000i128 {
            return None;
        }
        i += 1;
    }
    if negative {
        Some((-total) as i64)
    } else if total <= 0x7fff_ffff_ffff_ffffi128 {
        Some(total as i64)
    } else {
        None
    }
}

// ---- order ----------------------------------------------------------------------------------

/// From position `i` on, `a` comes before `b` in dictionary order.
pub open spec fn precedes_from(a: Seq<char>, b: Seq<char>, i: int) -> bool
    decreases b.len() - i,
{
    if i < 0 || i >= b.len() {
        false
    } else if i >= a.len() {
        true
    } else if a[i] != b[i] {
        a[i] < b[i]
    } else {
        precedes_from(a, b, i + 1)
    }
}

/// `a` comes before `b` in dictionary order.
pub open spec fn precedes(a: Seq<char>, b: Seq<char>) -> bool {
    precedes_from(a, b, 0)
}

proof fn lemma_precedes_total(a: Seq<char>, b: Seq<char>, i: int)
    requires
        0 <= i,
        forall|k: int| 0 <= k < i ==> k < a.len() && k < b.len() && a[k] == b[k],
        !precedes_from(a, b, i),
        !precedes_from(b, a, i),
    ensures
        a == b,
    decreases b.len() - i,
{
    if i < a.len() && i < b.len() {
        lemma_precedes_total(a, b, i + 1);
    } else {
        if i > 0 {
            assert(a[i - 1] == b[i - 1]);
        }
        assert(a.len() == i && b.len() == i);
        assert(a =~= b);
    }
}

proof fn lemma_precedes_transitive(a: Seq<char>, b: Seq<char>, c: Seq<char>, i: int)
    requires
        0 <= i,
        precedes_from(a, b, i),
        precedes_from(b, c, i),
    ensures
        precedes_from(a, c, i),
    decreases c.len() - i,
{
    if i < a.len() && i < b.len() && i < c.len() && a[i] == b[i] && b[i] == c[i] {
        lemma_precedes_transitive(a, b, c, i + 1);
    }
}

proof fn lemma_precedes_irreflexive(a: Seq<char>, i: int)
    ensures
        !precedes_from(a, a, i),
    decreases a.len() - i,
{
    if 0 <= i < a.len() {
        lemma_precedes_irreflexive(a, i + 1);
    }
}

/// A text that comes before another differs from it.
pub proof fn lemma_precedes_differ(a: Seq<char>, b: Seq<char>)
    requires
        precedes(a, b),
    ensures
        a != b,
{
    lemma_precedes_irreflexive(a, 0);
}

/// Of two texts one comes first, or they are the same.
pub proof fn lemma_precedes_cases(a: Seq<char>, b: Seq<char>)
    ensures
        precedes(a, b) || precedes(b, a) || a == b,
{
    if !precedes(a, b) && !precedes(b, a) {
        lemma_precedes_total(a, b, 0);
    }
}

/// Dictionary order is transitive.
pub proof fn lemma_precedes_chain(a: Seq<char>, b: Seq<char>, c: Seq<char>)
    requires
        precedes(a, b),
        precedes(b, c),
    ensures
        precedes(a, c),
{
    lemma_precedes_transitive(a, b, c, 0);
}

/// Each text comes before all that follow it.
pub open spec fn is_increasing(v: Seq<Seq<char>>) -> bool {
    forall|i: int, j: int| 0 <= i < j < v.len() ==> precedes(v[i], v[j])
}

/// Whether `a` comes before `b` in dictionary order.
pub fn less(a: &str, b: &str) -> (r: bool)
    ensures
        r == precedes(a@, b@),
{
    let x = chars_of(a);
    let y = chars_of(b);
    let mut i: usize = 0;
    while i < x.len() && i < y.len() && x[i] == y[i]
        invariant
            0 <= i <= x@.len(),
            i <= y@.len(),
            x@ == a@,
            y@ == b@,
            precedes_from(a@, b@, 0) == precedes_from(a@, b@, i as int),
        decreases x@.len() - i,
    {
        i += 1;
    }
    if i >= y.len() {
        false
    } else if i >= x.len() {
        true
    } else {
        x[i] < y[i]
    }
}

/// Puts a text where it belongs, unless it is there already.
fn insert_in_order(v: &mut Vec<String>, s: String)
    requires
        is_increasing(views(old(v)@)),
    ensures
        is_increasing(views(final(v)@)),
        forall|t: Seq<char>|
            views(final(v)@).contains(t) <==> views(old(v)@).contains(t) || t == s@,
{
    let ghost before = views(v@);
    let ghost was = v@;
    let mut i: usize = 0;
    while i < v.len() && less(v[i].as_str(), s.as_str())
        invariant
            0 <= i <= v@.len(),
            v@ == was,
            before == views(was),
            forall|k: int| 0 <= k < i ==> precedes(#[trigger] before[k], s@),
        decreases v@.len() - i,
    {
        assert(before[i as int] == v@[i as int]@);
        i += 1;
    }
    if i < v.len() {
        assert(before[i as int] == v@[i as int]@);
        if same(v[i].as_str(), s.as_str()) {
            assert(before.contains(s@));
            return;
        }
        proof {
            if !precedes(s@, before[i as int]) {
                lemma_precedes_total(before[i as int], s@, 0);
            }
            assert forall|k: int| i < k < before.len() implies precedes(s@, #[trigger] before[k]) by {
                assert(precedes(before[i as int], before[k]));
                lemma_precedes_transitive(s@, before[i as int], before[k], 0);
            }
        }
    }
    v.insert(i, s);
    proof {
        let after = views(v@);
        assert(after =~= before.insert(i as int, s@));
        assert forall|a: int, b: int| 0 <= a < b < after.len() implies precedes(
            after[a],
            after[b],
        ) by {
            if a < i && b > i {
                assert(precedes(before[a], before[b - 1]));
            } else if a < i && b < i {
                assert(precedes(before[a], before[b]));
            } else if a > i {
                assert(precedes(before[a - 1], before[b - 1]));
            } else if a == i {
                assert(after[b] == before[b - 1]);
            }
        }
        assert forall|t: Seq<char>| after.contains(t) <==> before.contains(t) || t == s@ by {
            if before.contains(t) {
                let k = choose|k: int| 0 <= k < before.len() && before[k] == t;
                if k < i {
                    assert(after[k] == t);
                } else {
                    assert(after[k + 1] == t);
                }
            }
            if t == s@ {
                assert(after[i as int] == t);
            }
            if after.contains(t) && t != s@ {
                let k = choose|k: int| 0 <= k < after.len() && after[k] == t;
                if k < i {
                    assert(before[k] == t);
                } else {
                    assert(before[k - 1] == t);
                }
            }
        }
    }
}

/// The texts in dictionary order, each of them once.
pub fn sort_dedup(v: &Vec<String>) -> (r: Vec<String>)
    ensures
        is_increasing(views(r@)),
        forall|t: Seq<char>| views(r@).contains(t) <==> views(v@).contains(t),
{
    let mut out: Vec<String> = Vec::new();
    let ghost all = views(v@);
    let mut i: usize = 0;
    while i < v.len()
        invariant
            0 <= i <= v@.len(),
            all == views(v@),
            is_increasing(views(out@)),
            forall|t: Seq<char>| views(out@).contains(t) <==> all.take(i as int).contains(t),
        decreases v@.len() - i,
    {
        insert_in_order(&mut out, v[i].clone());
        proof {
            let next = all.take(i + 1);
            assert forall|t: Seq<char>| views(out@).contains(t) <==> next.contains(t) by {
                if next.contains(t) {
                    let k = choose|k: int| 0 <= k < next.len() && next[k] == t;
                    if k < i {
                        assert(all.take(i as int)[k] == t);
                    }
                }
                if all.take(i as int).contains(t) {
                    let k = choose|k: int| 0 <= k < i && all.take(i as int)[k] == t;
                    assert(next[k] == t);
                }
                if t == v@[i as int]@ {
                    assert(next[i as int] == t);
                }
            }
        }
        i += 1;
    }
    assert(all.take(i as int) =~= all);
    out
}

/// The same texts, each as often, none before one that precedes it in dictionary order.
pub open spec fn is_sorting(sorted: Seq<Seq<char>>, v: Seq<Seq<char>>) -> bool {
    &&& sorted.to_multiset() == v.to_multiset()
    &&& forall|i: int, j: int|
        0 <= i < j < sorted.len() ==> !precedes(#[trigger] sorted[j], #[trigger] sorted[i])
}

/// The texts in dictionary order.
pub fn sort(v: &Vec<String>) -> (r: Vec<String>)
    ensures
        is_sorting(views(r@), views(v@)),
{
    let ghost all = views(v@);
    let mut out: Vec<String> = Vec::new();
    proof {
        assert(views(out@) =~= all.take(0));
    }
    let mut n: usize = 0;
    while n < v.len()
        invariant
            0 <= n <= v@.len(),
            all == views(v@),
            views(out@).to_multiset() == all.take(n as int).to_multiset(),
            forall|i: int, j: int|
                0 <= i < j < views(out@).len() ==> !precedes(
                    #[trigger] views(out@)[j],
                    #[trigger] views(out@)[i],
                ),
        decreases v@.len() - n,
    {
        let ghost before = views(out@);
        let ghost x = v@[n as int]@;
        let mut at: usize = 0;
        while at < out.len() && !less(v[n].as_str(), out[at].as_str())
            invariant
                0 <= at <= out@.len(),
                n < v@.len(),
                x == v@[n as int]@,
                before == views(out@),
                forall|i: int| 0 <= i < at ==> !precedes(x, #[trigger] before[i]),
            decreases out@.len() - at,
        {
            assert(before[at as int] == out@[at as int]@);
            at += 1;
        }
        proof {
            if at < before.len() {
                assert(before[at as int] == out@[at as int]@);
                assert(precedes(x, before[at as int]));
                assert forall|j: int| at <= j < before.len() implies !precedes(
                    #[trigger] before[j],
                    x,
                ) by {
                    if precedes(before[j], x) {
                        lemma_precedes_transitive(before[j], x, before[at as int], 0);
                        if j == at {
                            lemma_precedes_irreflexive(before[j], 0);
                        }
                    }
                }
            }
        }
        out.insert(at, v[n].clone());
        proof {
            let after = views(out@);
            assert(after =~= before.insert(at as int, x));
            assert(all.take(n + 1) =~= all.take(n as int).push(x));
            vstd::seq_lib::to_multiset_build(all.take(n as int), x);
            vstd::seq_lib::to_multiset_insert(before, at as int, x);
            assert forall|i: int, j: int| 0 <= i < j < after.len() implies !precedes(
                #[trigger] after[j],
                #[trigger] after[i],
            ) by {
                if j < at {
                    assert(after[i] == before[i] && after[j] == before[j]);
                } else if j == at {
                    assert(after[i] == before[i]);
                } else if i < at {
                    assert(after[i] == before[i] && after[j] == before[j - 1]);
                } else if i == at {
                    assert(after[j] == before[j - 1]);
                } else {
                    assert(after[i] == before[i - 1] && after[j] == before[j - 1]);
                }
            }
        }
        n += 1;
    }
    assert(all.take(n as int) =~= all);
    out
}

/// Two sequences in strict dictionary order that hold the same texts are the same: sorting without
/// duplicates has one result.
pub proof fn increasing_is_unique(a: Seq<Seq<char>>, b: Seq<Seq<char>>)
    requires
        is_increasing(a),
        is_increasing(b),
        forall|t: Seq<char>| a.contains(t) <==> b.contains(t),
    ensures
        a == b,
    decreases a.len(),
{
    if a.len() == 0 {
        if b.len() > 0 {
            assert(b.contains(b[0]));
        }
        assert(a =~= b);
    } else {
        assert(a.contains(a.last()));
        assert(b.contains(a.last()));
        assert(b.contains(b.last()));
        let j = choose|j: int| 0 <= j < b.len() && b[j] == a.last();
        let k = choose|k: int| 0 <= k < a.len() && a[k] == b.last();
        if j < b.len() - 1 {
            assert(precedes(a.last(), b.last()));
            if k < a.len() - 1 {
                assert(precedes(b.last(), a.last()));
                lemma_precedes_transitive(a.last(), b.last(), a.last(), 0);
            }
            lemma_precedes_irreflexive(a.last(), 0);
        }
        assert(a.last() == b.last());
        let x = a.drop_last();
        let y = b.drop_last();
        assert forall|t: Seq<char>| x.contains(t) <==> y.contains(t) by {
            lemma_precedes_irreflexive(a.last(), 0);
            if x.contains(t) {
                let m = choose|m: int| 0 <= m < x.len() && x[m] == t;
                assert(a[m] == t);
                assert(precedes(a[m], a.last()));
                assert(b.contains(t));
                let n = choose|n: int| 0 <= n < b.len() && b[n] == t;
                assert(y[n] == t);
            }
            if y.contains(t) {
                let m = choose|m: int| 0 <= m < y.len() && y[m] == t;
                assert(b[m] == t);
                assert(precedes(b[m], b.last()));
                assert(a.contains(t));
                let n = choose|n: int| 0 <= n < a.len() && a[n] == t;
                assert(x[n] == t);
            }
        }
        increasing_is_unique(x, y);
        assert(a =~= x.push(a.last()));
        assert(b =~= y.push(b.last()));
    }
}

// ---- letter case ----------------------------------------------------------------------------

/// A letter of the ASCII alphabet in lower case; any other character as it is.
pub open spec fn ascii_lower(c: char) -> char {
    if 'A' <= c <= 'Z' {
        (c as u32 + 32) as char
    } else {
        c
    }
}

/// Two texts are the same but for the case of ASCII letters.
pub open spec fn same_but_case(a: Seq<char>, b: Seq<char>) -> bool {
    &&& a.len() == b.len()
    &&& forall|i: int| 0 <= i < a.len() ==> ascii_lower(#[trigger] a[i]) == ascii_lower(b[i])
}

fn to_ascii_lower(c: char) -> (r: char)
    ensures
        r == ascii_lower(c),
{
    if 'A' <= c && c <= 'Z' {
        (c as u8 + 32) as char
    } else {
        c
    }
}

/// Whether two texts are the same but for the case of ASCII letters.
pub fn eq_ignore_case(a: &str, b: &str) -> (r: bool)
    ensures
        r == same_but_case(a@, b@),
{
    let x = chars_of(a);
    let y = chars_of(b);
    if x.len() != y.len() {
        return false;
    }
    let mut i: usize = 0;
    while i < x.len()
        invariant
            0 <= i <= x@.len(),
            x@ == a@,
            y@ == b@,
            x@.len() == y@.len(),
            forall|k: int| 0 <= k < i ==> ascii_lower(#[trigger] a@[k]) == ascii_lower(b@[k]),
        decreases x@.len() - i,
    {
        if to_ascii_lower(x[i]) != to_ascii_lower(y[i]) {
            assert(ascii_lower(a@[i as int]) != ascii_lower(b@[i as int]));
            return false;
        }
        i += 1;
    }
    true
}

/// A text in lower case, as std has it.
pub uninterp spec fn lowercased(s: Seq<char>) -> Seq<char>;

/// `str::to_lowercase`: the text in lower case by the Unicode rules.
#[verifier::external_body]
pub(crate) fn to_lowercase(s: &str) -> (r: String)
    ensures
        r@ == lowercased(s@),
{
    s.to_lowercase()
}

/// A letter or a number, as std has it.
pub uninterp spec fn alphanumeric(c: char) -> bool;

/// `char::is_alphanumeric`: a letter or a number by the Unicode rules. Of the ASCII characters
/// these are the letters and the digits.
#[verifier::external_body]
pub(crate) fn is_alphanumeric(c: char) -> (r: bool)
    ensures
        r == alphanumeric(c),
        c <= '\u{7f}' ==> r == ('0' <= c <= '9' || 'a' <= c <= 'z' || 'A' <= c <= 'Z'),
{
    c.is_alphanumeric()
}

} // verus!
