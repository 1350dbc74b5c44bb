//! What holds of the functions on texts.

use crate::text;
use vstd::prelude::*;

verus! {

/// The text is white space.
pub open spec fn blank(s: Seq<char>) -> bool {
    forall|i: int| 0 <= i < s.len() ==> text::is_ws(#[trigger] s[i])
}

proof fn lemma_trimmed_start(s: Seq<char>) -> (k: int)
    ensures
        0 <= k <= s.len(),
        text::trimmed_start(s) == s.subrange(k, s.len() as int),
        blank(s.subrange(0, k)),
        k < s.len() ==> !text::is_ws(s[k]),
    decreases s.len(),
{
    if s.len() > 0 && text::is_ws(s[0]) {
        let rest = s.subrange(1, s.len() as int);
        let k = lemma_trimmed_start(rest);
        assert(rest.subrange(k, rest.len() as int) =~= s.subrange(k + 1, s.len() as int));
        assert forall|i: int| 0 <= i < k + 1 implies text::is_ws(
            #[trigger] s.subrange(0, k + 1)[i],
        ) by {
            if i > 0 {
                assert(rest.subrange(0, k)[i - 1] == s[i]);
            }
        }
        if k + 1 < s.len() {
            assert(rest[k] == s[k + 1]);
        }
        k + 1
    } else {
        assert(s.subrange(0, s.len() as int) =~= s);
        0
    }
}

proof fn lemma_trimmed_end(s: Seq<char>) -> (k: int)
    ensures
        0 <= k <= s.len(),
        text::trimmed_end(s) == s.subrange(0, k),
        blank(s.subrange(k, s.len() as int)),
        k > 0 ==> !text::is_ws(s[k - 1]),
    decreases s.len(),
{
    if s.len() > 0 && text::is_ws(s.last()) {
        let rest = s.subrange(0, s.len() - 1);
        let k = lemma_trimmed_end(rest);
        assert(rest.subrange(0, k) =~= s.subrange(0, k));
        assert forall|i: int| 0 <= i < s.len() - k implies text::is_ws(
            #[trigger] s.subrange(k, s.len() as int)[i],
        ) by {
            if i < rest.len() - k {
                assert(rest.subrange(k, rest.len() as int)[i] == s[k + i]);
            }
        }
        k
    } else {
        assert(s.subrange(0, s.len() as int) =~= s);
        s.len() as int
    }
}

/// Trimming takes the white space off both ends, all of it and nothing else.
pub proof fn trimming_takes_space_alone(s: Seq<char>)
    ensures
        exists|lead: Seq<char>, trail: Seq<char>|
            blank(lead) && blank(trail) && s == #[trigger] (lead + text::trimmed(s) + trail),
        text::trimmed(s).len() > 0 ==> !text::is_ws(text::trimmed(s)[0]) && !text::is_ws(
            text::trimmed(s).last(),
        ),
{
    let k = lemma_trimmed_start(s);
    let rest = text::trimmed_start(s);
    let m = lemma_trimmed_end(rest);
    let lead = s.subrange(0, k);
    let trail = rest.subrange(m, rest.len() as int);
    assert(s =~= lead + text::trimmed(s) + trail);
    if m > 0 {
        assert(text::trimmed(s)[0] == s[k]);
        assert(text::trimmed(s).last() == rest[m - 1]);
    }
}

/// Trimming the end takes the white space off there, and only there.
pub proof fn trimming_the_end_keeps_the_start(s: Seq<char>)
    ensures
        exists|trail: Seq<char>|
            blank(trail) && s == #[trigger] (text::trimmed_end(s) + trail),
        text::trimmed_end(s).len() > 0 ==> !text::is_ws(text::trimmed_end(s).last()),
{
    let m = lemma_trimmed_end(s);
    let trail = s.subrange(m, s.len() as int);
    assert(s =~= text::trimmed_end(s) + trail);
}

proof fn lemma_joined_front(first: Seq<char>, rest: Seq<Seq<char>>, sep: Seq<char>)
    requires
        rest.len() > 0,
    ensures
        text::joined(seq![first] + rest, sep) == first + sep + text::joined(rest, sep),
    decreases rest.len(),
{
    let all = seq![first] + rest;
    assert(all.last() == rest.last());
    if rest.len() == 1 {
        assert(all.drop_last() =~= seq![first]);
        assert(text::joined(all.drop_last(), sep) == first);
    } else {
        assert(all.drop_last() =~= seq![first] + rest.drop_last());
        lemma_joined_front(first, rest.drop_last(), sep);
        assert(text::joined(all, sep) =~= first + sep + text::joined(rest, sep));
    }
}

/// `p` occurs nowhere in the text.
pub open spec fn free_of(s: Seq<char>, p: Seq<char>) -> bool {
    forall|i: int| !text::occurs_at(s, p, i)
}

proof fn lemma_pieces(s: Seq<char>, p: Seq<char>, w: Seq<char>, i: int)
    requires
        p.len() > 0,
        0 <= i <= s.len(),
    ensures
        text::pieces_from(s, p, i).len() == text::count_from(s, p, i) + 1,
        text::joined(text::pieces_from(s, p, i), p) == s.subrange(i, s.len() as int),
        text::joined(text::pieces_from(s, p, i), w) == text::replaced_from(s, p, w, i),
        forall|k: int|
            0 <= k < text::pieces_from(s, p, i).len() ==> free_of(
                #[trigger] text::pieces_from(s, p, i)[k],
                p,
            ),
    decreases s.len() - i,
{
    text::lemma_found_from(s, p, i);
    let pieces = text::pieces_from(s, p, i);
    match text::found_from(s, p, i) {
        None => {
            let tail = text::after(s, i);
            assert(pieces =~= seq![tail]);
            assert forall|j: int| !text::occurs_at(tail, p, j) by {
                if text::occurs_at(tail, p, j) {
                    assert(s.subrange(i + j, i + j + p.len()) =~= tail.subrange(j, j + p.len()));
                    assert(text::occurs_at(s, p, i + j));
                }
            }
        },
        Some(k) => {
            let head = s.subrange(i, k);
            let rest = text::pieces_from(s, p, k + p.len());
            lemma_pieces(s, p, w, k + p.len());
            lemma_joined_front(head, rest, p);
            lemma_joined_front(head, rest, w);
            assert(pieces == seq![head] + rest);
            assert(s.subrange(i, s.len() as int) =~= head + p + s.subrange(
                k + p.len(),
                s.len() as int,
            ));
            assert forall|j: int| !text::occurs_at(head, p, j) by {
                if text::occurs_at(head, p, j) {
                    assert(s.subrange(i + j, i + j + p.len()) =~= head.subrange(j, j + p.len()));
                    assert(text::occurs_at(s, p, i + j));
                }
            }
            assert forall|m: int| 0 <= m < pieces.len() implies free_of(#[trigger] pieces[m], p) by {
                if m > 0 {
                    assert(pieces[m] == rest[m - 1]);
                }
            }
        },
    }
}

/// Replacing puts the one text in the place of the other wherever it stands, and keeps all that is in
/// between: the text is pieces joined with the one, and becomes the same pieces joined with the other.
/// There is one piece more than there are occurrences, and none holds another.
pub proof fn replacing_changes_the_occurrences(s: Seq<char>, p: Seq<char>, w: Seq<char>)
    requires
        p.len() > 0,
    ensures
        exists|pieces: Seq<Seq<char>>|
            {
                &&& s == #[trigger] text::joined(pieces, p)
                &&& text::replaced(s, p, w) == text::joined(pieces, w)
                &&& pieces.len() == text::count_of(s, p) + 1
                &&& forall|k: int| 0 <= k < pieces.len() ==> free_of(#[trigger] pieces[k], p)
            },
{
    lemma_pieces(s, p, w, 0);
    assert(s.subrange(0, s.len() as int) =~= s);
    let pieces = text::pieces_from(s, p, 0);
    assert(s == text::joined(pieces, p));
}

/// A text is held exactly where it occurs somewhere.
pub proof fn holding_is_occurring(s: Seq<char>, p: Seq<char>)
    ensures
        text::holds(s, p) <==> exists|i: int| text::occurs_at(s, p, i),
        p.len() > 0 ==> (text::count_of(s, p) == 0 <==> !text::holds(s, p)),
{
    text::lemma_found_from(s, p, 0);
    if text::holds(s, p) {
        assert(text::occurs_at(s, p, text::found(s, p)->0));
    }
}

proof fn lemma_digits_of_prefix(a: Seq<char>, c: char, n: int)
    requires
        0 <= n <= a.len(),
    ensures
        text::digits_value(a.push(c), n) == text::digits_value(a, n),
    decreases n,
{
    if n > 0 {
        lemma_digits_of_prefix(a, c, n - 1);
    }
}

/// A number written in decimal is digits, without a leading zero unless it is zero, and their value is
/// the number.
pub proof fn a_number_reads_back(n: nat)
    ensures
        text::all_digits(text::decimal(n)),
        text::digits_value(text::decimal(n), text::decimal(n).len() as int) == n,
        n > 0 ==> text::decimal(n)[0] != '0',
    decreases n,
{
    text::lemma_decimal_digits(n);
    let s = text::decimal(n);
    assert forall|i: int| 0 <= i < s.len() implies text::is_digit(#[trigger] s[i]) by {
        assert('0' <= text::decimal(n)[i] <= '9');
    }
    if n < 10 {
        assert(s[0] as int == 48 + n);
        assert(text::digits_value(s, 0) == 0);
        assert(text::digits_value(s, 1) == n);
    } else {
        a_number_reads_back(n / 10);
        let before = text::decimal(n / 10);
        let c = text::digit(n % 10);
        assert(c as int == 48 + n % 10);
        lemma_digits_of_prefix(before, c, before.len() as int);
        assert(s == before.push(c));
        assert(s[before.len() as int] == c);
        assert(text::digits_value(s, s.len() as int) == 10 * (n / 10) + n % 10);
        assert(s[0] == before[0]);
    }
}

proof fn lemma_precedes_at(a: Seq<char>, b: Seq<char>, k: int, i: int)
    requires
        0 <= i <= k <= a.len(),
        k <= b.len(),
        forall|j: int| 0 <= j < k ==> a[j] == b[j],
    ensures
        text::precedes_from(a, b, i) == text::precedes_from(a, b, k),
    decreases k - i,
{
    if i < k {
        lemma_precedes_at(a, b, k, i + 1);
    }
}

/// Dictionary order: where two texts first differ, the one with the lower character comes first; a
/// text comes before each longer one that begins with it.
pub proof fn the_first_difference_decides(a: Seq<char>, b: Seq<char>, k: int)
    requires
        0 <= k <= a.len(),
        k < b.len(),
        forall|j: int| 0 <= j < k ==> a[j] == b[j],
        k == a.len() || a[k] < b[k],
    ensures
        text::precedes(a, b),
        !text::precedes(b, a),
{
    lemma_precedes_at(a, b, k, 0);
    lemma_precedes_at(b, a, k, 0);
}

proof fn lemma_joined_append(a: Seq<Seq<char>>, b: Seq<Seq<char>>, sep: Seq<char>)
    requires
        a.len() > 0,
        b.len() > 0,
    ensures
        text::joined(a + b, sep) == text::joined(a, sep) + sep + text::joined(b, sep),
    decreases a.len(),
{
    if a.len() == 1 {
        assert(a =~= seq![a[0]]);
        lemma_joined_front(a[0], b, sep);
    } else {
        let rest = a.drop_first();
        lemma_joined_append(rest, b, sep);
        assert(a + b =~= seq![a[0]] + (rest + b));
        assert(a =~= seq![a[0]] + rest);
        lemma_joined_front(a[0], rest + b, sep);
        lemma_joined_front(a[0], rest, sep);
        assert(text::joined(a + b, sep) =~= text::joined(a, sep) + sep + text::joined(b, sep));
    }
}

/// Joining two lists joins each and puts the separator between them.
pub proof fn joined_lists_join(a: Seq<Seq<char>>, b: Seq<Seq<char>>, sep: Seq<char>)
    requires
        a.len() > 0,
        b.len() > 0,
    ensures
        text::joined(a + b, sep) == text::joined(a, sep) + sep + text::joined(b, sep),
{
    lemma_joined_append(a, b, sep);
}

proof fn lemma_split_joins(s: Seq<char>, c: char, i: int)
    requires
        0 <= i <= s.len(),
    ensures
        text::split_from(s, c, i).len() > 0,
        text::joined(text::split_from(s, c, i), seq![c]) == s.subrange(i, s.len() as int),
        forall|k: int, m: int|
            0 <= k < text::split_from(s, c, i).len() && 0 <= m < text::split_from(s, c, i)[k].len()
                ==> #[trigger] text::split_from(s, c, i)[k][m] != c,
    decreases s.len() - i,
{
    text::lemma_next_char(s, c, i);
    let j = text::next_char(s, c, i);
    let parts = text::split_from(s, c, i);
    if j < s.len() {
        lemma_split_joins(s, c, j + 1);
        let head = s.subrange(i, j);
        let rest = text::split_from(s, c, j + 1);
        lemma_joined_front(head, rest, seq![c]);
        assert(s.subrange(i, s.len() as int) =~= head + seq![c] + s.subrange(j + 1, s.len() as int));
        assert forall|k: int, m: int|
            0 <= k < parts.len() && 0 <= m < parts[k].len() implies #[trigger] parts[k][m] != c by {
            if k > 0 {
                assert(parts[k] == rest[k - 1]);
                assert(rest[k - 1][m] != c);
            }
        }
    } else {
        assert(parts =~= seq![s.subrange(i, s.len() as int)]);
    }
}

/// Splitting at a character loses nothing: the parts hold none of it, and joined with it they are the
/// text again.
pub proof fn split_parts_join_again(s: Seq<char>, c: char)
    ensures
        text::split(s, c).len() > 0,
        text::joined(text::split(s, c), seq![c]) == s,
        forall|k: int, m: int|
            0 <= k < text::split(s, c).len() && 0 <= m < text::split(s, c)[k].len()
                ==> #[trigger] text::split(s, c)[k][m] != c,
{
    lemma_split_joins(s, c, 0);
    assert(s.subrange(0, s.len() as int) =~= s);
}

/// A text that does not begin or end with white space is trimmed already, and space around it is taken
/// off.
pub proof fn trimming_finds_the_text(lead: Seq<char>, s: Seq<char>, trail: Seq<char>)
    requires
        blank(lead),
        blank(trail),
        s.len() > 0 ==> !text::is_ws(s[0]) && !text::is_ws(s.last()),
    ensures
        text::trimmed(lead + s + trail) == s,
{
    let all = lead + s + trail;
    let k = lemma_trimmed_start(all);
    let rest = text::trimmed_start(all);
    let m = lemma_trimmed_end(rest);
    if s.len() > 0 {
        assert(all[lead.len() as int] == s[0]);
        if k < lead.len() {
            assert(all[k] == lead[k]);
        }
        if k > lead.len() {
            assert(all.subrange(0, k)[lead.len() as int] == s[0]);
        }
        assert(k == lead.len());
        assert(rest =~= s + trail);
        if m > s.len() {
            assert(rest[m - 1] == trail[m - 1 - s.len()]);
        }
        if m < s.len() {
            assert(rest.subrange(m, rest.len() as int)[s.len() - 1 - m] == s.last());
        }
        assert(rest.subrange(0, m) =~= s);
    } else {
        if k < all.len() {
            if k < lead.len() {
                assert(all[k] == lead[k]);
            } else {
                assert(all[k] == trail[k - lead.len()]);
            }
        }
        assert(rest.len() == 0);
        assert(rest.subrange(0, m) =~= s);
    }
}

proof fn lemma_found_shift(h: Seq<char>, s: Seq<char>, p: Seq<char>, i: int)
    requires
        0 <= i <= s.len() + 1,
    ensures
        text::found_from(h + s, p, h.len() + i) == (match text::found_from(s, p, i) {
            Some(k) => Some(h.len() + k),
            None => None,
        }),
    decreases s.len() + 1 - i,
{
    let all = h + s;
    if i + p.len() <= s.len() {
        assert(all.subrange(h.len() + i, h.len() + i + p.len()) =~= s.subrange(i, i + p.len()));
        if !text::occurs_at(s, p, i) {
            lemma_found_shift(h, s, p, i + 1);
        }
    }
}

proof fn lemma_pieces_shift(h: Seq<char>, s: Seq<char>, p: Seq<char>, i: int)
    requires
        0 <= i <= s.len(),
        p.len() > 0,
    ensures
        text::pieces_from(h + s, p, h.len() + i) == text::pieces_from(s, p, i),
    decreases s.len() - i,
{
    let all = h + s;
    lemma_found_shift(h, s, p, i);
    text::lemma_found_from(s, p, i);
    match text::found_from(s, p, i) {
        None => {
            assert(text::after(all, h.len() + i) =~= text::after(s, i));
        },
        Some(k) => {
            lemma_pieces_shift(h, s, p, k + p.len());
            assert(all.subrange(h.len() + i, h.len() + k) =~= s.subrange(i, k));
        },
    }
}

/// Texts that are joined by a mark are found again between the marks, where none of them holds the
/// mark's first character.
pub proof fn marked_texts_are_found_again(texts: Seq<Seq<char>>, p: Seq<char>)
    requires
        texts.len() > 0,
        p.len() > 0,
        forall|i: int, j: int|
            0 <= i < texts.len() && 0 <= j < texts[i].len() ==> #[trigger] texts[i][j] != p[0],
    ensures
        text::pieces_from(text::joined(texts, p), p, 0) == texts,
    decreases texts.len(),
{
    let s = text::joined(texts, p);
    let t = texts[0];
    text::lemma_found_from(s, p, 0);
    if texts.len() == 1 {
        if let Some(k) = text::found_from(s, p, 0) {
            assert(s.subrange(k, k + p.len())[0] == texts[0][k]);
        }
        assert(text::after(s, 0) =~= t);
        assert(seq![t] =~= texts);
    } else {
        let rest = texts.drop_first();
        assert forall|i: int, j: int|
            0 <= i < rest.len() && 0 <= j < rest[i].len() implies #[trigger] rest[i][j] != p[0] by {
            assert(rest[i] == texts[i + 1]);
            assert(texts[i + 1][j] != p[0]);
        }
        marked_texts_are_found_again(rest, p);
        joined_lists_join(seq![t], rest, p);
        assert(seq![t] + rest =~= texts);
        assert(text::joined(seq![t], p) == t);
        let n = t.len() as int;
        let h = t + p;
        assert(s =~= h + text::joined(rest, p));
        assert(s.subrange(n, n + p.len()) =~= p);
        assert(text::occurs_at(s, p, n));
        let k = text::found_from(s, p, 0)->0;
        assert(text::found_from(s, p, 0) is Some && k <= n);
        if k < n {
            assert(s.subrange(k, k + p.len())[0] == texts[0][k]);
        }
        lemma_pieces_shift(h, text::joined(rest, p), p, 0);
        assert(s.subrange(0, n) =~= t);
    }
}

} // verus!
