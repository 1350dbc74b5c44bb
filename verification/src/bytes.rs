//! Lengths and cuts of texts, counted in bytes of their UTF-8 form.

use crate::text;
use vstd::prelude::*;
use vstd::string::*;

verus! {

/// The number of bytes of a text.
pub open spec fn byte_len(s: Seq<char>) -> nat {
    vstd::utf8::encode_utf8(s).len()
}

/// The number of bytes of a character.
pub open spec fn width(c: char) -> nat {
    if c <= '\u{7f}' {
        1
    } else if c <= '\u{7ff}' {
        2
    } else if c <= '\u{ffff}' {
        3
    } else {
        4
    }
}

/// The longest end of `s` that begins at or after the `k`th character and has at most `cap` bytes.
pub open spec fn tail_from(s: Seq<char>, cap: nat, k: int) -> Seq<char>
    decreases s.len() - k,
{
    if k < 0 || k >= s.len() {
        seq![]
    } else if byte_len(s.skip(k)) <= cap {
        s.skip(k)
    } else {
        tail_from(s, cap, k + 1)
    }
}

/// The longest end of `s` with at most `cap` bytes.
pub open spec fn tail(s: Seq<char>, cap: nat) -> Seq<char> {
    tail_from(s, cap, 0)
}

/// What follows the first `n` bytes of `s`, looked for from the `k`th character on. A character that
/// the `n`th byte lies in goes with what comes before.
pub open spec fn behind_from(s: Seq<char>, n: nat, k: int) -> Seq<char>
    decreases s.len() - k,
{
    if k < 0 || k >= s.len() {
        seq![]
    } else if byte_len(s.take(k)) >= n {
        s.skip(k)
    } else {
        behind_from(s, n, k + 1)
    }
}

/// What follows the first `n` bytes of `s`.
pub open spec fn behind(s: Seq<char>, n: nat) -> Seq<char> {
    behind_from(s, n, 0)
}

proof fn lemma_width(c: char)
    ensures
        vstd::utf8::encode_scalar(c as u32).len() == width(c),
{
}

/// The bytes of a text are those of its first character and those of the rest.
pub proof fn lemma_byte_len_first(s: Seq<char>)
    requires
        s.len() > 0,
    ensures
        byte_len(s) == width(s[0]) + byte_len(s.drop_first()),
{
    lemma_width(s[0]);
}

/// The bytes of two texts one after the other are those of both.
pub proof fn lemma_byte_len_add(a: Seq<char>, b: Seq<char>)
    ensures
        byte_len(a + b) == byte_len(a) + byte_len(b),
    decreases a.len(),
{
    if a.len() == 0 {
        assert(a + b =~= b);
        assert(byte_len(a) == 0);
    } else {
        lemma_byte_len_first(a);
        lemma_byte_len_first(a + b);
        assert((a + b).drop_first() =~= a.drop_first() + b);
        lemma_byte_len_add(a.drop_first(), b);
    }
}

proof fn lemma_byte_len_one(c: char)
    ensures
        byte_len(seq![c]) == width(c),
{
    lemma_byte_len_first(seq![c]);
    assert(seq![c].drop_first() =~= seq![]);
    assert(byte_len(Seq::<char>::empty()) == 0);
}

/// A text kept within so many bytes has no more, and is the end of what it was cut from.
pub proof fn a_tail_stays_within(s: Seq<char>, cap: nat)
    ensures
        byte_len(tail(s, cap)) <= cap,
        text::ends(s, tail(s, cap)),
        byte_len(s) <= cap ==> tail(s, cap) == s,
{
    lemma_tail_from(s, cap, 0);
    if byte_len(s) <= cap {
        assert(s.skip(0) =~= s);
        if s.len() == 0 {
            assert(tail(s, cap) =~= s);
        }
    }
}

proof fn lemma_tail_from(s: Seq<char>, cap: nat, k: int)
    requires
        0 <= k <= s.len(),
    ensures
        byte_len(tail_from(s, cap, k)) <= cap,
        text::ends(s, tail_from(s, cap, k)),
    decreases s.len() - k,
{
    if k < s.len() {
        if byte_len(s.skip(k)) <= cap {
            let t = s.skip(k);
            assert(s.subrange(s.len() - t.len(), s.len() as int) =~= t);
        } else {
            lemma_tail_from(s, cap, k + 1);
        }
    } else {
        assert(byte_len(Seq::<char>::empty()) == 0);
        assert(s.subrange(s.len() as int, s.len() as int) =~= seq![]);
    }
}

/// The end of a text that begins at the first place from `k` on where what is left fits.
pub proof fn lemma_tail_at(s: Seq<char>, cap: nat, k: int, d: int)
    requires
        0 <= k <= d <= s.len(),
        byte_len(s.skip(d)) <= cap,
        forall|j: int| k <= j < d ==> byte_len(#[trigger] s.skip(j)) > cap,
    ensures
        tail_from(s, cap, k) == s.skip(d),
    decreases d - k,
{
    if k < d {
        assert(byte_len(s.skip(k)) > cap);
        lemma_tail_at(s, cap, k + 1, d);
    } else if k == s.len() {
        assert(s.skip(d) =~= seq![]);
    }
}

/// Where the kept end of a text begins.
pub proof fn lemma_tail_begins(s: Seq<char>, cap: nat, k: int) -> (d: int)
    requires
        0 <= k <= s.len(),
    ensures
        k <= d <= s.len(),
        tail_from(s, cap, k) == s.skip(d),
        byte_len(s.skip(d)) <= cap,
        forall|j: int| k <= j < d ==> byte_len(#[trigger] s.skip(j)) > cap,
    decreases s.len() - k,
{
    if k == s.len() {
        assert(s.skip(k) =~= seq![]);
        assert(byte_len(Seq::<char>::empty()) == 0);
        k
    } else if byte_len(s.skip(k)) <= cap {
        k
    } else {
        lemma_tail_begins(s, cap, k + 1)
    }
}

/// The bytes of the first characters and those of the rest make up the bytes of a text. More
/// characters have more bytes.
pub proof fn lemma_byte_len_cut(s: Seq<char>, i: int, k: int)
    requires
        0 <= i <= k <= s.len(),
    ensures
        byte_len(s.take(k)) + byte_len(s.skip(k)) == byte_len(s),
        byte_len(s.take(i)) + byte_len(s.skip(i).take(k - i)) == byte_len(s.take(k)),
        i < k ==> byte_len(s.take(i)) < byte_len(s.take(k)),
{
    assert(s =~= s.take(k) + s.skip(k));
    lemma_byte_len_add(s.take(k), s.skip(k));
    assert(s.take(k) =~= s.take(i) + s.skip(i).take(k - i));
    lemma_byte_len_add(s.take(i), s.skip(i).take(k - i));
    if i < k {
        lemma_byte_len_first(s.skip(i).take(k - i));
    }
}

/// What follows the bytes of the first `k` characters are the other characters.
pub proof fn lemma_behind_at(s: Seq<char>, k: int)
    requires
        0 <= k <= s.len(),
    ensures
        behind(s, byte_len(s.take(k))) == s.skip(k),
{
    lemma_behind_from_at(s, k, 0);
}

proof fn lemma_behind_from_at(s: Seq<char>, k: int, i: int)
    requires
        0 <= i <= k <= s.len(),
    ensures
        behind_from(s, byte_len(s.take(k)), i) == s.skip(k),
    decreases k - i,
{
    if i < k {
        lemma_byte_len_cut(s, i, k);
        lemma_behind_from_at(s, k, i + 1);
    } else if k == s.len() {
        assert(s.skip(k) =~= seq![]);
    }
}

/// The number of bytes of a character.
pub fn width_of(c: char) -> (r: usize)
    ensures
        r == width(c),
{
    if c <= '\u{7f}' {
        1
    } else if c <= '\u{7ff}' {
        2
    } else if c <= '\u{ffff}' {
        3
    } else {
        4
    }
}

/// The longest end of `s` with at most `cap` bytes.
pub fn tail_of<'a>(s: &'a str, cap: usize) -> (r: &'a str)
    ensures
        r@ == tail(s@, cap as nat),
{
    let v = text::chars_of(s);
    let mut left: usize = s.as_bytes().len();
    let mut k: usize = 0;
    assert(s@.skip(0) =~= s@);
    while k < v.len() && left > cap
        invariant
            0 <= k <= v@.len(),
            v@ == s@,
            left == byte_len(s@.skip(k as int)),
            tail(s@, cap as nat) == tail_from(s@, cap as nat, k as int),
        decreases v@.len() - k,
    {
        proof {
            let rest = s@.skip(k as int);
            lemma_byte_len_first(rest);
            assert(rest.drop_first() =~= s@.skip(k + 1));
            assert(rest[0] == s@[k as int]);
        }
        left -= width_of(v[k]);
        k += 1;
    }
    let n = s.unicode_len();
    assert(s@.subrange(k as int, n as int) =~= s@.skip(k as int));
    s.substring_char(k, n)
}

/// What follows the first `n` bytes of `s`.
pub fn behind_of<'a>(s: &'a str, n: usize) -> (r: &'a str)
    ensures
        r@ == behind(s@, n as nat),
{
    let v = text::chars_of(s);
    let total = s.as_bytes().len();
    let mut used: usize = 0;
    let mut k: usize = 0;
    assert(s@.take(0) =~= seq![]);
    assert(byte_len(Seq::<char>::empty()) == 0);
    while k < v.len() && used < n
        invariant
            0 <= k <= v@.len(),
            v@ == s@,
            total == byte_len(s@),
            used == byte_len(s@.take(k as int)),
            behind(s@, n as nat) == behind_from(s@, n as nat, k as int),
        decreases v@.len() - k,
    {
        proof {
            let c = s@[k as int];
            assert(s@.take(k + 1) =~= s@.take(k as int) + seq![c]);
            lemma_byte_len_add(s@.take(k as int), seq![c]);
            lemma_byte_len_one(c);
            assert(s@ =~= s@.take(k + 1) + s@.skip(k + 1));
            lemma_byte_len_add(s@.take(k + 1), s@.skip(k + 1));
        }
        used += width_of(v[k]);
        k += 1;
    }
    let len = s.unicode_len();
    assert(s@.subrange(k as int, len as int) =~= s@.skip(k as int));
    s.substring_char(k, len)
}

} // verus!
