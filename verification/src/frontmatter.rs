//! Markdown files with a frontmatter: `key: value` lines behind opening dashes, up to a line of `---`,
//! then the body.

use crate::pairs;
use crate::pairs::Pair;
use crate::text;
use crate::text_laws;
use vstd::prelude::*;
use vstd::string::*;

verus! {

/// The lines of a file behind its opening dashes.
pub open spec fn lines_behind(content: Seq<char>) -> Seq<Seq<char>> {
    text::split(text::after(content, 3), '\n')
}

/// The position at or after `j` of the first line of `---`, white space at its end aside.
pub open spec fn closing_line(lines: Seq<Seq<char>>, j: int) -> Option<int>
    decreases lines.len() - j,
{
    if j < 0 || j >= lines.len() {
        None
    } else if text::trimmed_end(lines[j]) == "---"@ {
        Some(j)
    } else {
        closing_line(lines, j + 1)
    }
}

/// Which of the lines behind the opening dashes ends the frontmatter. The one that the dashes stand
/// on does not.
pub open spec fn front_end(content: Seq<char>) -> Option<int> {
    if text::begins(content, "---"@) {
        closing_line(lines_behind(content), 1)
    } else {
        None
    }
}

/// The body of a file: what follows the frontmatter, or the whole where there is none. Without white
/// space around it.
pub open spec fn body_of(content: Seq<char>) -> Seq<char> {
    match front_end(content) {
        Some(end) => {
            let lines = lines_behind(content);
            text::trimmed(text::joined(lines.subrange(end + 1, lines.len() as int), "\n"@))
        },
        None => text::trimmed(content),
    }
}

/// The key and the value that a line sets, if it does.
pub open spec fn field_in(line: Seq<char>) -> Option<Pair> {
    let k = text::next_char(line, ':', 0);
    if k < line.len() {
        Some((text::trimmed(line.subrange(0, k)), text::trimmed(text::after(line, k + 1))))
    } else {
        None
    }
}

/// The keys and values that the first `n` lines set.
pub open spec fn fields_to(lines: Seq<Seq<char>>, n: int) -> Seq<Pair>
    decreases n,
{
    if n <= 0 {
        seq![]
    } else {
        match field_in(lines[n - 1]) {
            Some(field) => fields_to(lines, n - 1).push(field),
            None => fields_to(lines, n - 1),
        }
    }
}

/// The keys and values of a file's frontmatter.
pub open spec fn fields_of(content: Seq<char>) -> Seq<Pair> {
    match front_end(content) {
        Some(end) => fields_to(lines_behind(content), end),
        None => seq![],
    }
}

/// What a file sets a key to; the last line that sets it counts.
pub open spec fn field(content: Seq<char>, key: Seq<char>) -> Option<Seq<char>> {
    let fields = fields_of(content);
    pairs::last_value(fields, key, fields.len() as int)
}

/// The position of the line of `---` that ends the frontmatter.
fn find_closing_line(lines: &Vec<&str>) -> (r: Option<usize>)
    ensures
        match r {
            Some(j) => closing_line(text::views(lines@), 1) == Some(j as int) && 1 <= j
                < lines@.len() <= usize::MAX,
            None => closing_line(text::views(lines@), 1) is None,
        },
{
    let ghost all = text::views(lines@);
    let mut j: usize = 1;
    while j < lines.len()
        invariant
            1 <= j,
            all == text::views(lines@),
            closing_line(all, 1) == closing_line(all, j as int),
        decreases lines@.len() - j,
    {
        assert(all[j as int] == lines@[j as int]@);
        if text::same(text::trim_end(lines[j]), "---") {
            return Some(j);
        }
        j += 1;
    }
    None
}

/// The keys and values of a file's frontmatter, and its body.
pub fn split_file(content: &str) -> (r: (Vec<(String, String)>, String))
    ensures
        pairs::pair_views(r.0@) == fields_of(content@),
        r.1@ == body_of(content@),
{
    let mut fields: Vec<(String, String)> = Vec::new();
    assert(pairs::pair_views(fields@) =~= seq![]);
    proof {
        reveal_strlit("---");
    }
    let rest = match text::strip_prefix(content, "---") {
        Some(rest) => rest,
        None => return (fields, text::trim(content).to_string()),
    };
    assert("---"@.len() == 3);
    let mut lines = text::split_char(rest, '\n');
    let end = match find_closing_line(&lines) {
        Some(end) => end,
        None => return (fields, text::trim(content).to_string()),
    };
    let ghost all = text::views(lines@);
    let behind = lines.split_off(end + 1);
    assert(text::views(behind@) =~= all.subrange(end + 1, all.len() as int));
    let body = text::join_strs(&behind, "\n");
    let mut i: usize = 0;
    while i < end
        invariant
            0 <= i <= end < lines@.len(),
            forall|k: int| 0 <= k < lines@.len() ==> all[k] == (#[trigger] lines@[k])@,
            pairs::pair_views(fields@) == fields_to(all, i as int),
        decreases end - i,
    {
        let line = lines[i];
        assert(all[i as int] == line@);
        proof {
            text::lemma_next_char(line@, ':', 0);
        }
        if let Some(k) = text::find_char(line, ':') {
            let len = line.unicode_len();
            let key = text::trim(line.substring_char(0, k)).to_string();
            let value = text::trim(line.substring_char(k + 1, len)).to_string();
            let ghost before = pairs::pair_views(fields@);
            fields.push((key, value));
            assert(pairs::pair_views(fields@) =~= before.push((key@, value@)));
        }
        i += 1;
    }
    (fields, text::trim(body.as_str()).to_string())
}

// ---- what holds of them ---------------------------------------------------------------------

/// The text stands on one line, without white space around it.
pub open spec fn plain(s: Seq<char>) -> bool {
    &&& s.len() > 0 ==> !text::is_ws(s[0]) && !text::is_ws(s.last())
    &&& forall|i: int| 0 <= i < s.len() ==> #[trigger] s[i] != '\n'
}

/// The fields can be written: a name holds no colon.
pub open spec fn writable(fields: Seq<Pair>) -> bool {
    forall|i: int|
        0 <= i < fields.len() ==> {
            &&& plain((#[trigger] fields[i]).0)
            &&& plain(fields[i].1)
            &&& forall|k: int| 0 <= k < fields[i].0.len() ==> #[trigger] fields[i].0[k] != ':'
        }
}

/// A field as it is written.
pub open spec fn field_line(field: Pair) -> Seq<char> {
    field.0 + seq![':', ' '] + field.1
}

/// A file with the fields in front of the body, between two lines of dashes.
pub open spec fn written(fields: Seq<Pair>, body: Seq<char>) -> Seq<char> {
    text::joined(
        seq!["---"@] + fields.map_values(|f: Pair| field_line(f)) + seq!["---"@, body],
        seq!['\n'],
    )
}

proof fn lemma_field_line(field: Pair)
    requires
        writable(seq![field]),
    ensures
        field_in(field_line(field)) == Some(field),
        text::trimmed_end(field_line(field)) != "---"@,
        forall|i: int| 0 <= i < field_line(field).len() ==> #[trigger] field_line(field)[i] != '\n',
{
    let line = field_line(field);
    let k = field.0.len() as int;
    assert(seq![field][0] == field);
    text::lemma_next_char(line, ':', 0);
    assert(line[k] == ':');
    let j = text::next_char(line, ':', 0);
    if j < k {
        assert(line[j] == seq![field][0].0[j]);
    }
    assert(j == k);
    assert(line.subrange(0, k) =~= seq![] + field.0 + seq![]);
    text_laws::trimming_finds_the_text(seq![], field.0, seq![]);
    assert(text::after(line, k + 1) =~= seq![' '] + field.1 + seq![]);
    text_laws::trimming_finds_the_text(seq![' '], field.1, seq![]);
    text_laws::trimming_the_end_keeps_the_start(line);
    reveal_strlit("---");
    if text::trimmed_end(line) == "---"@ {
        let trail = choose|trail: Seq<char>|
            text_laws::blank(trail) && line == #[trigger] (text::trimmed_end(line) + trail);
        if k < 3 {
            assert(line[k] == "---"@[k]);
        } else {
            assert(line[k] == trail[k - 3]);
        }
    }
    assert forall|i: int| 0 <= i < line.len() implies #[trigger] line[i] != '\n' by {
        if i < k {
            assert(line[i] == field.0[i]);
        } else if i >= k + 2 {
            assert(line[i] == field.1[i - k - 2]);
        }
    }
}

proof fn lemma_lines_behind(fields: Seq<Pair>, body: Seq<char>)
    requires
        writable(fields),
    ensures
        text::begins(written(fields, body), "---"@),
        lines_behind(written(fields, body)) == seq![Seq::<char>::empty()] + fields.map_values(
            |f: Pair| field_line(f),
        ) + seq!["---"@] + text::split(body, '\n'),
{
    let sep = seq!['\n'];
    let mid = fields.map_values(|f: Pair| field_line(f));
    let file = written(fields, body);
    let head = seq!["---"@];
    let rest = mid + seq!["---"@, body];
    assert(head + mid + seq!["---"@, body] =~= head + rest);
    text_laws::joined_lists_join(head, rest, sep);
    assert(text::joined(head, sep) == "---"@);
    reveal_strlit("---");
    assert(file == "---"@ + sep + text::joined(rest, sep));
    assert(file.subrange(0, 3) =~= "---"@);
    let parts = text::split(body, '\n');
    text_laws::split_parts_join_again(body, '\n');
    let empty = Seq::<char>::empty();
    let front = seq![empty] + mid + seq!["---"@];
    let all = front + parts;
    // What follows the first dashes is these lines joined.
    text_laws::joined_lists_join(front, parts, sep);
    text_laws::joined_lists_join(seq![empty] + mid, seq!["---"@], sep);
    assert(mid + seq!["---"@, body] =~= (mid + seq!["---"@]) + seq![body]);
    text_laws::joined_lists_join(mid + seq!["---"@], seq![body], sep);
    assert(text::joined(seq![body], sep) == body);
    assert(text::joined(seq!["---"@], sep) == "---"@);
    assert(text::joined(seq![empty], sep) == empty);
    if mid.len() > 0 {
        text_laws::joined_lists_join(seq![empty], mid, sep);
        text_laws::joined_lists_join(mid, seq!["---"@], sep);
        assert(text::joined(seq![empty] + mid, sep) =~= sep + text::joined(mid, sep));
    } else {
        assert(seq![empty] + mid =~= seq![empty]);
        assert(mid + seq!["---"@] =~= seq!["---"@]);
    }
    assert(text::joined(all, sep) =~= sep + text::joined(rest, sep));
    assert(text::after(file, 3) =~= text::joined(all, sep));
    assert forall|i: int, k: int| 0 <= i < all.len() && 0 <= k < all[i].len() implies #[trigger]
        all[i][k] != '\n' by {
        let n = mid.len() as int;
        if 1 <= i < 1 + n {
            assert(all[i] == field_line(fields[i - 1]));
            lemma_one_writable(fields, i - 1);
            lemma_field_line(fields[i - 1]);
        } else if i == 1 + n {
            assert(all[i] == "---"@);
        } else if i > 1 + n {
            assert(all[i] == parts[i - 2 - n]);
        }
    }
    text::joined_parts_split_again(all, '\n');
}

proof fn lemma_one_writable(fields: Seq<Pair>, i: int)
    requires
        writable(fields),
        0 <= i < fields.len(),
    ensures
        writable(seq![fields[i]]),
{
    assert forall|k: int| 0 <= k < fields[i].0.len() implies #[trigger] seq![fields[i]][0].0[k]
        != ':' by {
        assert(fields[i].0[k] != ':');
    }
}

proof fn lemma_closing(lines: Seq<Seq<char>>, end: int, j: int)
    requires
        0 <= j <= end < lines.len(),
        text::trimmed_end(lines[end]) == "---"@,
        forall|k: int| j <= k < end ==> text::trimmed_end(#[trigger] lines[k]) != "---"@,
    ensures
        closing_line(lines, j) == Some(end),
    decreases end - j,
{
    if j < end {
        lemma_closing(lines, end, j + 1);
    }
}

proof fn lemma_fields(lines: Seq<Seq<char>>, fields: Seq<Pair>, n: int)
    requires
        0 <= n <= fields.len(),
        writable(fields),
        lines.len() > n,
        lines[0].len() == 0,
        forall|k: int| 0 <= k < n ==> #[trigger] lines[k + 1] == field_line(fields[k]),
    ensures
        fields_to(lines, n + 1) == fields.take(n),
    decreases n,
{
    if n > 0 {
        lemma_fields(lines, fields, n - 1);
        assert(lines[n - 1 + 1] == field_line(fields[n - 1]));
        lemma_one_writable(fields, n - 1);
        lemma_field_line(fields[n - 1]);
        assert(fields.take(n) =~= fields.take(n - 1).push(fields[n - 1]));
    } else {
        text::lemma_next_char(lines[0], ':', 0);
        assert(field_in(lines[0]) is None);
        reveal_with_fuel(fields_to, 2);
        assert(fields.take(0) =~= seq![]);
    }
}

/// A file with fields in front reads back: each field in order, with its name and its value, and behind
/// them the body, without the space around it.
pub proof fn a_written_front_reads_back(fields: Seq<Pair>, body: Seq<char>)
    requires
        writable(fields),
    ensures
        fields_of(written(fields, body)) == fields,
        body_of(written(fields, body)) == text::trimmed(body),
{
    let file = written(fields, body);
    let lines = lines_behind(file);
    let n = fields.len() as int;
    let parts = text::split(body, '\n');
    lemma_lines_behind(fields, body);
    text_laws::split_parts_join_again(body, '\n');
    assert forall|k: int| 0 <= k < n implies #[trigger] lines[k + 1] == field_line(fields[k]) by {}
    assert(lines[n + 1] == "---"@);
    assert forall|k: int| 1 <= k < n + 1 implies text::trimmed_end(#[trigger] lines[k]) != "---"@ by {
        assert(lines[k - 1 + 1] == field_line(fields[k - 1]));
        lemma_one_writable(fields, k - 1);
        lemma_field_line(fields[k - 1]);
    }
    reveal_strlit("---");
    assert(text::trimmed_end("---"@) == "---"@) by {
        assert("---"@.last() == '-');
    }
    lemma_closing(lines, n + 1, 1);
    lemma_fields(lines, fields, n);
    assert(fields.take(n) =~= fields);
    assert(lines.subrange(n + 2, lines.len() as int) =~= parts);
    reveal_strlit("\n");
    assert("\n"@ =~= seq!['\n']);
}

/// A file that does not begin with dashes is all body.
pub proof fn a_file_without_a_front_is_all_body(content: Seq<char>)
    requires
        !text::begins(content, "---"@),
    ensures
        fields_of(content).len() == 0,
        body_of(content) == text::trimmed(content),
{
}

} // verus!
