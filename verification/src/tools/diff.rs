//! Line differences between two texts, as the `similar` crate finds them.

use crate::text;
use vstd::prelude::*;
use vstd::string::*;

verus! {

/// What became of a line between two texts.
#[derive(Debug, Clone, Copy, PartialEq, Eq, Structural)]
pub enum LineTag {
    Equal,
    Insert,
    Delete,
}

/// A line of one of two texts with what became of it.
pub struct LineChange {
    pub tag: LineTag,
    /// The line with its line end, where it has one.
    pub text: String,
}

impl View for LineChange {
    type V = (LineTag, Seq<char>);

    open spec fn view(&self) -> (LineTag, Seq<char>) {
        (self.tag, self.text@)
    }
}

/// The lines of the two texts, each with what became of it, as `similar` lines them up.
pub uninterp spec fn line_changes(before: Seq<char>, after: Seq<char>) -> Seq<
    (LineTag, Seq<char>),
>;

/// `similar::TextDiff::from_lines` on the two texts, then `iter_all_changes`: the tags and values of
/// the changes in order. Which lines are matched up is left to the crate; it depends on the two texts
/// alone.
#[verifier::external_body]
pub(crate) fn changes(before: &str, after: &str) -> (r: Vec<LineChange>)
    ensures
        text::views(r@) == line_changes(before@, after@),
{
    let diff = similar::TextDiff::from_lines(before, after);
    diff.iter_all_changes().map(|change| LineChange {
        tag: match change.tag() {
            similar::ChangeTag::Equal => LineTag::Equal,
            similar::ChangeTag::Insert => LineTag::Insert,
            similar::ChangeTag::Delete => LineTag::Delete,
        },
        text: change.value().to_string(),
    }).collect()
}

/// The unified diff of two texts with so many lines of context and these names in its header, as
/// `similar` prints it.
pub uninterp spec fn unified_text(
    before: Seq<char>,
    after: Seq<char>,
    radius: nat,
    old_name: Seq<char>,
    new_name: Seq<char>,
) -> Seq<char>;

/// `similar::TextDiff::from_lines` on the two texts, printed by `unified_diff` with the given
/// `context_radius` and `header`. The text depends on these five arguments alone.
#[verifier::external_body]
pub(crate) fn unified_diff(
    before: &str,
    after: &str,
    radius: usize,
    old_name: &str,
    new_name: &str,
) -> (r: String)
    requires
        2 * radius <= usize::MAX,
    ensures
        r@ == unified_text(before@, after@, radius as nat, old_name@, new_name@),
{
    let diff = similar::TextDiff::from_lines(before, after);
    diff.unified_diff().context_radius(radius).header(old_name, new_name).to_string()
}

/// What became of the lines of the two texts.
pub open spec fn tags_of(before: Seq<char>, after: Seq<char>) -> Seq<LineTag> {
    line_changes(before, after).map_values(|c: (LineTag, Seq<char>)| c.0)
}

/// How many of the tags are `Insert` (`added`) or `Delete`.
pub open spec fn tag_count(tags: Seq<LineTag>, added: bool) -> nat
    decreases tags.len(),
{
    if tags.len() == 0 {
        0
    } else {
        let one: nat = if added && tags.last() is Insert || !added && tags.last() is Delete {
            1
        } else {
            0
        };
        tag_count(tags.drop_last(), added) + one
    }
}

/// The lines added and removed, for a list of changes.
pub fn count_tags(changes: &Vec<LineChange>) -> (r: (usize, usize))
    ensures
        ({
            let tags = text::views(changes@).map_values(|c: (LineTag, Seq<char>)| c.0);
            r.0 == tag_count(tags, true) && r.1 == tag_count(tags, false)
        }),
{
    let ghost tags = text::views(changes@).map_values(|c: (LineTag, Seq<char>)| c.0);
    let mut added: usize = 0;
    let mut removed: usize = 0;
    let mut i: usize = 0;
    while i < changes.len()
        invariant
            0 <= i <= changes.len(),
            tags == text::views(changes@).map_values(|c: (LineTag, Seq<char>)| c.0),
            added == tag_count(tags.take(i as int), true),
            removed == tag_count(tags.take(i as int), false),
            added <= i,
            removed <= i,
        decreases changes@.len() - i,
    {
        assert(tags[i as int] == changes@[i as int].tag);
        match changes[i].tag {
            LineTag::Insert => {
                added += 1;
            },
            LineTag::Delete => {
                removed += 1;
            },
            LineTag::Equal => {},
        }
        i += 1;
        assert(tags.take(i as int).drop_last() =~= tags.take(i - 1));
    }
    assert(tags.take(i as int) =~= tags);
    (added, removed)
}

/// A change on a line of its own: its sign, then its text.
pub open spec fn signed(change: (LineTag, Seq<char>)) -> Seq<char> {
    let line = (match change.0 {
        LineTag::Delete => "-"@,
        LineTag::Insert => "+"@,
        LineTag::Equal => " "@,
    }) + change.1;
    if change.1.len() > 0 && change.1.last() == '\n' {
        line
    } else {
        line + "\n"@
    }
}

/// The first `n` changes, one to a line.
pub open spec fn signed_to(changes: Seq<(LineTag, Seq<char>)>, n: int) -> Seq<char>
    decreases n,
{
    if n <= 0 {
        seq![]
    } else {
        signed_to(changes, n - 1) + signed(changes[n - 1])
    }
}

/// The changes one to a line: its sign, then its text.
pub fn signed_lines(changes: &Vec<LineChange>) -> (r: String)
    ensures
        r@ == signed_to(text::views(changes@), changes@.len() as int),
{
    let ghost all = text::views(changes@);
    let mut out = String::new();
    assert(out@ =~= seq![]);
    let mut i: usize = 0;
    while i < changes.len()
        invariant
            0 <= i <= changes@.len(),
            all == text::views(changes@),
            out@ == signed_to(all, i as int),
        decreases changes@.len() - i,
    {
        assert(all[i as int] == changes@[i as int]@);
        let ghost before = out@;
        out.append(
            match changes[i].tag {
                LineTag::Delete => "-",
                LineTag::Insert => "+",
                LineTag::Equal => " ",
            },
        );
        let line = changes[i].text.as_str();
        out.append(line);
        let n = line.unicode_len();
        if n == 0 || line.get_char(n - 1) != '\n' {
            out.append("\n");
        }
        assert(out@ =~= before + signed(all[i as int]));
        i += 1;
    }
    out
}

// ---- what holds of them ---------------------------------------------------------------------

/// The lines added are those tagged so, and the lines removed those tagged so.
pub proof fn the_tags_are_counted(tags: Seq<LineTag>)
    ensures
        tag_count(tags, true) == tags.filter(|t: LineTag| t is Insert).len(),
        tag_count(tags, false) == tags.filter(|t: LineTag| t is Delete).len(),
    decreases tags.len(),
{
    reveal(Seq::filter);
    if tags.len() > 0 {
        the_tags_are_counted(tags.drop_last());
    }
}

/// Each change stands on a line of its own: behind a minus what was removed, behind a plus what was
/// added, behind a blank what stayed.
pub proof fn each_change_has_its_sign(changes: Seq<(LineTag, Seq<char>)>, n: int)
    requires
        0 <= n <= changes.len(),
    ensures
        signed_to(changes, n) == changes.take(n).map_values(
            |c: (LineTag, Seq<char>)|
                seq![
                    match c.0 {
                        LineTag::Delete => '-',
                        LineTag::Insert => '+',
                        LineTag::Equal => ' ',
                    },
                ] + (if c.1.len() > 0 && c.1.last() == '\n' {
                    c.1
                } else {
                    c.1.push('\n')
                }),
        ).flatten(),
    decreases n,
{
    let write = |c: (LineTag, Seq<char>)|
        seq![
            match c.0 {
                LineTag::Delete => '-',
                LineTag::Insert => '+',
                LineTag::Equal => ' ',
            },
        ] + (if c.1.len() > 0 && c.1.last() == '\n' {
            c.1
        } else {
            c.1.push('\n')
        });
    reveal_strlit("-");
    reveal_strlit("+");
    reveal_strlit(" ");
    reveal_strlit("\n");
    let some = changes.take(n).map_values(write);
    if n <= 0 {
        assert(some =~= Seq::empty());
    } else {
        each_change_has_its_sign(changes, n - 1);
        let fewer = changes.take(n - 1).map_values(write);
        let last = write(changes[n - 1]);
        assert(some =~= fewer.push(last));
        fewer.lemma_flatten_push(last);
        assert(signed(changes[n - 1]) =~= last);
    }
}

} // verus!
