//! What a patch that is written after the grammar says.
//!
//! A [`HunkSource`] is a hunk as its author means it. `written` puts it down line by line, `said` is
//! what it asks for; the laws tie the two together through the parser.

use crate::text;
use crate::tools::apply_patch::parser;
use crate::tools::apply_patch::parser::{ChunkView, HunkView, Mode, Progress};
use vstd::prelude::*;
use vstd::string::*;

verus! {

/// Which side of a change a diff line stands on.
pub enum Mark {
    Context,
    Added,
    Removed,
}

/// One line of a chunk.
pub struct DiffLine {
    pub mark: Mark,
    pub text: Seq<char>,
}

/// A chunk as its author means it.
pub struct ChunkSource {
    pub context: Option<Seq<char>>,
    pub lines: Seq<DiffLine>,
    pub at_end: bool,
}

/// A hunk as its author means it.
pub enum HunkSource {
    Add { path: Seq<char>, lines: Seq<Seq<char>> },
    Delete { path: Seq<char> },
    Update { path: Seq<char>, dest: Option<Seq<char>>, chunks: Seq<ChunkSource> },
}

/// The texts of the lines that the file has before the change, in the order written: all but the
/// added ones.
pub open spec fn texts_before(lines: Seq<DiffLine>) -> Seq<Seq<char>> {
    lines.filter(|d: DiffLine| !(d.mark is Added)).map_values(|d: DiffLine| d.text)
}

/// The texts of the lines that the file has after the change, in the order written: all but the
/// removed ones.
pub open spec fn texts_after(lines: Seq<DiffLine>) -> Seq<Seq<char>> {
    lines.filter(|d: DiffLine| !(d.mark is Removed)).map_values(|d: DiffLine| d.text)
}

/// A diff line as it is written.
pub open spec fn written_line(d: DiffLine) -> Seq<char> {
    match d.mark {
        Mark::Context => seq![' '] + d.text,
        Mark::Added => seq!['+'] + d.text,
        Mark::Removed => seq!['-'] + d.text,
    }
}

/// The lines of a chunk as they are written.
pub open spec fn written_chunk(c: ChunkSource) -> Seq<Seq<char>> {
    let opened = match c.context {
        Some(context) => seq!["@@ "@ + context],
        None => seq!["@@"@],
    };
    let body = c.lines.map_values(|d: DiffLine| written_line(d));
    if c.at_end {
        opened + body + seq!["*** End of File"@]
    } else {
        opened + body
    }
}

/// The lines of the first `n` chunks as they are written.
pub open spec fn written_chunks(chunks: Seq<ChunkSource>, n: int) -> Seq<Seq<char>>
    decreases n,
{
    if n <= 0 {
        seq![]
    } else {
        written_chunks(chunks, n - 1) + written_chunk(chunks[n - 1])
    }
}

/// The lines of a hunk as they are written.
pub open spec fn written_hunk(h: HunkSource) -> Seq<Seq<char>> {
    match h {
        HunkSource::Add { path, lines } => seq!["*** Add File: "@ + path] + lines.map_values(
            |l: Seq<char>| seq!['+'] + l,
        ),
        HunkSource::Delete { path } => seq!["*** Delete File: "@ + path],
        HunkSource::Update { path, dest, chunks } => {
            let head = match dest {
                Some(d) => seq!["*** Update File: "@ + path, "*** Move to: "@ + d],
                None => seq!["*** Update File: "@ + path],
            };
            head + written_chunks(chunks, chunks.len() as int)
        },
    }
}

/// The lines of the first `n` hunks as they are written.
pub open spec fn written_hunks(hunks: Seq<HunkSource>, n: int) -> Seq<Seq<char>>
    decreases n,
{
    if n <= 0 {
        seq![]
    } else {
        written_hunks(hunks, n - 1) + written_hunk(hunks[n - 1])
    }
}

/// The lines of a whole patch.
pub open spec fn written(hunks: Seq<HunkSource>) -> Seq<Seq<char>> {
    seq!["*** Begin Patch"@] + written_hunks(hunks, hunks.len() as int) + seq!["*** End Patch"@]
}

/// What a chunk asks for.
pub open spec fn said_chunk(c: ChunkSource) -> ChunkView {
    ChunkView {
        change_context: c.context,
        old_lines: texts_before(c.lines),
        new_lines: texts_after(c.lines),
        is_end_of_file: c.at_end,
    }
}

/// Lines put down one below the other, each with its line feed.
pub open spec fn lines_ended(lines: Seq<Seq<char>>) -> Seq<char>
    decreases lines.len(),
{
    if lines.len() == 0 {
        seq![]
    } else {
        lines_ended(lines.drop_last()) + lines.last() + seq!['\n']
    }
}

/// What a hunk asks for.
pub open spec fn said_hunk(h: HunkSource) -> HunkView {
    match h {
        HunkSource::Add { path, lines } => HunkView::AddFile { path, contents: lines_ended(lines) },
        HunkSource::Delete { path } => HunkView::DeleteFile { path },
        HunkSource::Update { path, dest, chunks } => HunkView::UpdateFile {
            path,
            move_path: dest,
            chunks: chunks.map_values(|c: ChunkSource| said_chunk(c)),
        },
    }
}

/// A name that a marker can carry: not empty, and without white space at its end.
pub open spec fn nameable(s: Seq<char>) -> bool {
    s.len() > 0 && !text::is_ws(s.last())
}

/// A chunk that the grammar has: one line or more, and a context that can be named.
pub open spec fn fit_chunk(c: ChunkSource) -> bool {
    c.lines.len() > 0 && (c.context matches Some(context) ==> nameable(context))
}

/// A hunk that the grammar has.
pub open spec fn fit_hunk(h: HunkSource) -> bool {
    match h {
        HunkSource::Add { path, .. } => nameable(path),
        HunkSource::Delete { path } => nameable(path),
        HunkSource::Update { path, dest, chunks } => {
            &&& nameable(path)
            &&& dest matches Some(d) ==> nameable(d)
            &&& chunks.len() > 0
            &&& forall|i: int| 0 <= i < chunks.len() ==> fit_chunk(#[trigger] chunks[i])
        },
    }
}

// ---- single lines ---------------------------------------------------------------------------

proof fn lemma_trimmed_end_kept(s: Seq<char>)
    ensures
        s.len() > 0 && !text::is_ws(s.last()) ==> text::trimmed_end(s) == s,
        s.len() > 0 && !text::is_ws(s[0]) ==> text::trimmed_start(s) == s,
{
}

proof fn lemma_trimmed_end_first(s: Seq<char>)
    ensures
        text::trimmed_end(s).len() > 0 ==> text::trimmed_end(s)[0] == s[0],
        text::trimmed_end(s).len() <= s.len(),
    decreases s.len(),
{
    if s.len() > 0 && text::is_ws(s.last()) {
        lemma_trimmed_end_first(s.subrange(0, s.len() - 1));
    }
}

/// A line that stands as it is, trimmed or not.
proof fn lemma_plain(s: Seq<char>)
    requires
        s.len() > 0,
        !text::is_ws(s[0]),
        !text::is_ws(s.last()),
    ensures
        text::trimmed(s) == s,
        text::trimmed_end(s) == s,
{
    lemma_trimmed_end_kept(s);
}

proof fn lemma_markers()
    ensures
        "*** Begin Patch"@.len() == 15,
        "*** End Patch"@.len() == 13,
        "*** Add File: "@.len() == 14,
        "*** Delete File: "@.len() == 17,
        "*** Update File: "@.len() == 17,
        "*** Move to: "@.len() == 13,
        "*** End of File"@.len() == 15,
        "@@ "@.len() == 3,
        "@@"@.len() == 2,
        "*** Begin Patch"@[0] == '*' && "*** Begin Patch"@.last() == 'h',
        "*** End Patch"@[0] == '*' && "*** End Patch"@[4] == 'E' && "*** End Patch"@.last() == 'h',
        "*** Add File: "@[0] == '*' && "*** Add File: "@[4] == 'A',
        "*** Delete File: "@[0] == '*' && "*** Delete File: "@[4] == 'D',
        "*** Update File: "@[0] == '*' && "*** Update File: "@[4] == 'U',
        "*** Move to: "@[0] == '*' && "*** Move to: "@[4] == 'M',
        "*** End of File"@[0] == '*' && "*** End of File"@[4] == 'E' && "*** End of File"@.last()
            == 'e',
        "@@ "@[0] == '@' && "@@ "@[2] == ' ',
        "@@"@[0] == '@' && "@@"@.last() == '@',
        !text::is_ws('*') && !text::is_ws('@') && !text::is_ws('h') && !text::is_ws('e'),
{
    reveal_strlit("*** Begin Patch");
    reveal_strlit("*** End Patch");
    reveal_strlit("*** Add File: ");
    reveal_strlit("*** Delete File: ");
    reveal_strlit("*** Update File: ");
    reveal_strlit("*** Move to: ");
    reveal_strlit("*** End of File");
    reveal_strlit("@@ ");
    reveal_strlit("@@");
}

/// A marker with a name behind it is what it is by its fifth character.
proof fn lemma_named(marker: Seq<char>, name: Seq<char>)
    requires
        marker.len() > 4,
        marker[0] == '*',
        nameable(name),
    ensures
        text::trimmed(marker + name) == marker + name,
        text::trimmed_end(marker + name) == marker + name,
        text::begins(marker + name, marker),
        text::after(marker + name, marker.len() as int) == name,
{
    lemma_markers();
    let s = marker + name;
    assert(s.last() == name.last());
    lemma_plain(s);
    assert(s.subrange(0, marker.len() as int) =~= marker);
    assert(text::after(s, marker.len() as int) =~= name);
}


/// A diff line is no marker, whatever its text.
proof fn lemma_diff_line(d: DiffLine)
    ensures
        ({
            let line = written_line(d);
            let t = text::trimmed_end(line);
            &&& parser::header(t) is None
            &&& !parser::is_context_marker(t)
            &&& !text::begins(t, parser::MOVE_TO_MARKER@)
            &&& t != parser::EOF_MARKER@
            &&& parser::diff_line(line) == Some(
                (
                    if d.mark is Added {
                        None
                    } else {
                        Some(d.text)
                    },
                    if d.mark is Removed {
                        None
                    } else {
                        Some(d.text)
                    },
                ),
            )
        }),
{
    lemma_markers();
    let line = written_line(d);
    let t = text::trimmed_end(line);
    lemma_trimmed_end_first(line);
    assert(line[0] == ' ' || line[0] == '+' || line[0] == '-');
    assert(text::after(line, 1) =~= d.text);
    assert(t.len() > 0 ==> t[0] != '*' && t[0] != '@');
    lemma_begins_first(t, "*** Add File: "@);
    lemma_begins_first(t, "*** Delete File: "@);
    lemma_begins_first(t, "*** Update File: "@);
    lemma_begins_first(t, "*** Move to: "@);
    lemma_begins_first(t, "@@ "@);
}

/// What begins with a text begins with its characters.
proof fn lemma_begins_first(s: Seq<char>, p: Seq<char>)
    requires
        p.len() > 0,
    ensures
        text::begins(s, p) ==> s.len() >= p.len() && s[0] == p[0] && (p.len() > 4 ==> s[4] == p[4]),
{
    if text::begins(s, p) {
        let head = s.subrange(0, p.len() as int);
        assert(head == p);
        assert(head[0] == s[0]);
        if p.len() > 4 {
            assert(head[4] == s[4]);
        }
    }
}

proof fn lemma_texts_push(lines: Seq<DiffLine>, d: DiffLine)
    ensures
        texts_before(lines.push(d)) == (if d.mark is Added {
            texts_before(lines)
        } else {
            texts_before(lines).push(d.text)
        }),
        texts_after(lines.push(d)) == (if d.mark is Removed {
            texts_after(lines)
        } else {
            texts_after(lines).push(d.text)
        }),
{
    reveal(Seq::filter);
    let all = lines.push(d);
    assert(all.drop_last() =~= lines);
    assert(texts_before(all) =~= (if d.mark is Added {
        texts_before(lines)
    } else {
        texts_before(lines).push(d.text)
    }));
    assert(texts_after(all) =~= (if d.mark is Removed {
        texts_after(lines)
    } else {
        texts_after(lines).push(d.text)
    }));
}

// ---- runs of lines --------------------------------------------------------------------------

/// Reading two runs of lines is reading the one, then the other.
proof fn lemma_runs(p: Progress, a: Seq<Seq<char>>, b: Seq<Seq<char>>)
    ensures
        parser::after_lines(p, a + b) == (match parser::after_lines(p, a) {
            Ok(q) => parser::after_lines(q, b),
            Err(e) => Err(e),
        }),
    decreases a.len(),
{
    if a.len() == 0 {
        assert(a + b =~= b);
    } else {
        let rest = a.subrange(1, a.len() as int);
        assert((a + b)[0] == a[0]);
        assert((a + b).subrange(1, (a + b).len() as int) =~= rest + b);
        match parser::after_line(Progress { line_number: p.line_number + 1, ..p }, a[0]) {
            Ok(q) => {
                lemma_runs(q, rest, b);
            },
            Err(_) => {},
        }
    }
}

proof fn lemma_one_line(p: Progress, line: Seq<char>)
    ensures
        parser::after_lines(p, seq![line]) == parser::after_line(
            Progress { line_number: p.line_number + 1, ..p },
            line,
        ),
{
    reveal_with_fuel(parser::after_lines, 2);
    let none = seq![line].subrange(1, 1);
    assert(none =~= seq![]);
}

/// The hunks with more lines at the end of the last one's last chunk.
pub open spec fn with_lines(
    hunks: Seq<HunkView>,
    before: Seq<Seq<char>>,
    after: Seq<Seq<char>>,
) -> Seq<HunkView> {
    match hunks.last() {
        HunkView::UpdateFile { path, move_path, chunks } => hunks.drop_last().push(
            HunkView::UpdateFile {
                path,
                move_path,
                chunks: chunks.drop_last().push(
                    ChunkView {
                        old_lines: chunks.last().old_lines + before,
                        new_lines: chunks.last().new_lines + after,
                        ..chunks.last()
                    },
                ),
            },
        ),
        _ => hunks,
    }
}

/// The parser stands in an open chunk.
pub open spec fn in_open_chunk(p: Progress) -> bool {
    &&& p.mode is UpdateFile
    &&& p.hunks.len() > 0
    &&& p.hunks.last() is UpdateFile
    &&& p.hunks.last()->chunks.len() > 0
    &&& !p.hunks.last()->chunks.last().is_end_of_file
}

/// A run of diff lines puts its lines, in the order written, behind those that the open chunk has:
/// the removed and the context lines on the old side, the added and the context lines on the new
/// side. Nothing else that was read changes.
pub proof fn diff_lines_are_read_in_order(p: Progress, lines: Seq<DiffLine>)
    requires
        in_open_chunk(p),
    ensures
        parser::after_lines(p, lines.map_values(|d: DiffLine| written_line(d))) matches Ok(q)
            && q.mode == p.mode && q.hunks == with_lines(
            p.hunks,
            texts_before(lines),
            texts_after(lines),
        ) && q.line_number == p.line_number + lines.len(),
    decreases lines.len(),
{
    let f = |d: DiffLine| written_line(d);
    if lines.len() == 0 {
        reveal(Seq::filter);
        assert(texts_before(lines) =~= seq![]);
        assert(texts_after(lines) =~= seq![]);
        assert(lines.map_values(f) =~= seq![]);
        let chunks = p.hunks.last()->chunks;
        assert(chunks.last().old_lines + seq![] =~= chunks.last().old_lines);
        assert(chunks.last().new_lines + seq![] =~= chunks.last().new_lines);
        assert(chunks.drop_last().push(chunks.last()) =~= chunks);
        assert(p.hunks.drop_last().push(p.hunks.last()) =~= p.hunks);
    } else {
        let d = lines.last();
        let before = lines.drop_last();
        assert(before.push(d) =~= lines);
        diff_lines_are_read_in_order(p, before);
        let q = parser::after_lines(p, before.map_values(f))->Ok_0;
        assert(lines.map_values(f) =~= before.map_values(f) + seq![written_line(d)]);
        lemma_runs(p, before.map_values(f), seq![written_line(d)]);
        lemma_one_line(q, written_line(d));
        lemma_texts_push(before, d);
        lemma_diff_line(d);
        let was = p.hunks.last()->chunks.last();
        let chunks = q.hunks.last()->chunks;
        let r = parser::after_lines(q, seq![written_line(d)])->Ok_0;
        let grown = r.hunks.last()->chunks;
        assert(grown.last().old_lines =~= was.old_lines + texts_before(lines));
        assert(grown.last().new_lines =~= was.new_lines + texts_after(lines));
        assert(grown.drop_last() =~= p.hunks.last()->chunks.drop_last());
        let want = with_lines(p.hunks, texts_before(lines), texts_after(lines));
        assert(grown =~= want.last()->chunks);
        assert(r.hunks.last() == want.last());
        assert(r.hunks.drop_last() =~= want.drop_last());
        assert(r.hunks =~= r.hunks.drop_last().push(r.hunks.last()));
        assert(want =~= want.drop_last().push(want.last()));
    }
}


/// Another hunk may follow what was read.
spec fn is_ready(p: Progress) -> bool {
    &&& !(p.mode is NotStarted) && !(p.mode is Ended)
    &&& p.hunks.len() > 0 && p.hunks.last() is UpdateFile ==> p.hunks.last()->chunks.len() > 0
        && !parser::has_no_lines(p.hunks.last()->chunks.last())
}

/// The parser stands in an update hunk with these chunks, and another chunk may follow.
spec fn is_updating(
    p: Progress,
    before: Seq<HunkView>,
    path: Seq<char>,
    dest: Option<Seq<char>>,
    chunks: Seq<ChunkView>,
) -> bool {
    &&& p.mode is UpdateFile
    &&& p.hunks == before.push(HunkView::UpdateFile { path, move_path: dest, chunks })
    &&& chunks.len() > 0 ==> !parser::has_no_lines(chunks.last())
}

/// A chunk with a line has one on one of its sides.
proof fn lemma_some_side(lines: Seq<DiffLine>)
    requires
        lines.len() > 0,
    ensures
        texts_before(lines).len() > 0 || texts_after(lines).len() > 0,
{
    let d = lines.last();
    assert(lines.drop_last().push(d) =~= lines);
    lemma_texts_push(lines.drop_last(), d);
}

proof fn lemma_chunk(
    p: Progress,
    before: Seq<HunkView>,
    path: Seq<char>,
    dest: Option<Seq<char>>,
    chunks: Seq<ChunkView>,
    c: ChunkSource,
)
    requires
        is_updating(p, before, path, dest, chunks),
        fit_chunk(c),
    ensures
        parser::after_lines(p, written_chunk(c)) matches Ok(q) && is_updating(
            q,
            before,
            path,
            dest,
            chunks.push(said_chunk(c)),
        ),
{
    lemma_markers();
    let opening = match c.context {
        Some(context) => "@@ "@ + context,
        None => "@@"@,
    };
    let body = c.lines.map_values(|d: DiffLine| written_line(d));
    let closing = if c.at_end {
        seq!["*** End of File"@]
    } else {
        Seq::<Seq<char>>::empty()
    };
    assert(written_chunk(c) =~= (seq![opening] + body) + closing);
    lemma_runs(p, seq![opening] + body, closing);
    lemma_runs(p, seq![opening], body);
    // the opening line
    lemma_one_line(p, opening);
    match c.context {
        Some(context) => {
            assert(opening.last() == context.last());
            assert(opening[0] == "@@ "@[0]);
            assert(opening.subrange(0, 3) =~= "@@ "@);
            assert(text::after(opening, 3) =~= context);
            assert(opening.len() > 2);
        },
        None => {},
    }
    lemma_plain(opening);
    lemma_begins_first(opening, "*** Add File: "@);
    lemma_begins_first(opening, "*** Delete File: "@);
    lemma_begins_first(opening, "*** Update File: "@);
    lemma_begins_first(opening, "*** Move to: "@);
    let q = parser::after_lines(p, seq![opening])->Ok_0;
    let bare = ChunkView {
        change_context: c.context,
        old_lines: seq![],
        new_lines: seq![],
        is_end_of_file: false,
    };
    assert(p.hunks.drop_last() =~= before);
    assert(q.hunks =~= before.push(
        HunkView::UpdateFile { path, move_path: dest, chunks: chunks.push(bare) },
    ));
    // the diff lines
    diff_lines_are_read_in_order(q, c.lines);
    let r = parser::after_lines(q, body)->Ok_0;
    let full = ChunkView {
        change_context: c.context,
        old_lines: texts_before(c.lines),
        new_lines: texts_after(c.lines),
        is_end_of_file: false,
    };
    lemma_some_side(c.lines);
    assert(chunks.push(bare).drop_last() =~= chunks);
    assert(q.hunks.drop_last() =~= before);
    assert(bare.old_lines + texts_before(c.lines) =~= texts_before(c.lines));
    assert(bare.new_lines + texts_after(c.lines) =~= texts_after(c.lines));
    assert(r.hunks =~= before.push(
        HunkView::UpdateFile { path, move_path: dest, chunks: chunks.push(full) },
    ));
    // the closing line
    if c.at_end {
        let line = "*** End of File"@;
        lemma_one_line(r, line);
        lemma_plain(line);
        lemma_begins_first(line, "*** Add File: "@);
        lemma_begins_first(line, "*** Delete File: "@);
        lemma_begins_first(line, "*** Update File: "@);
        lemma_begins_first(line, "*** Move to: "@);
        lemma_begins_first(line, "@@ "@);
        let s = parser::after_lines(r, closing)->Ok_0;
        assert(r.hunks.drop_last() =~= before);
        assert(chunks.push(full).drop_last() =~= chunks);
        assert(s.hunks =~= before.push(
            HunkView::UpdateFile { path, move_path: dest, chunks: chunks.push(said_chunk(c)) },
        ));
    } else {
        assert(said_chunk(c) == full);
    }
}

proof fn lemma_chunks(
    p: Progress,
    before: Seq<HunkView>,
    path: Seq<char>,
    dest: Option<Seq<char>>,
    chunks: Seq<ChunkSource>,
    n: int,
)
    requires
        is_updating(p, before, path, dest, seq![]),
        0 <= n <= chunks.len(),
        forall|i: int| 0 <= i < chunks.len() ==> fit_chunk(#[trigger] chunks[i]),
    ensures
        parser::after_lines(p, written_chunks(chunks, n)) matches Ok(q) && is_updating(
            q,
            before,
            path,
            dest,
            chunks.take(n).map_values(|c: ChunkSource| said_chunk(c)),
        ),
    decreases n,
{
    let f = |c: ChunkSource| said_chunk(c);
    if n > 0 {
        lemma_chunks(p, before, path, dest, chunks, n - 1);
        let q = parser::after_lines(p, written_chunks(chunks, n - 1))->Ok_0;
        let read = chunks.take(n - 1).map_values(f);
        lemma_runs(p, written_chunks(chunks, n - 1), written_chunk(chunks[n - 1]));
        lemma_chunk(q, before, path, dest, read, chunks[n - 1]);
        assert(read.push(said_chunk(chunks[n - 1])) =~= chunks.take(n).map_values(f));
    } else {
        assert(chunks.take(0).map_values(f) =~= seq![]);
    }
}

proof fn lemma_added(p: Progress, before: Seq<HunkView>, path: Seq<char>, lines: Seq<Seq<char>>)
    requires
        p.mode is AddFile,
        p.hunks == before.push(HunkView::AddFile { path, contents: seq![] }),
    ensures
        parser::after_lines(p, lines.map_values(|l: Seq<char>| seq!['+'] + l)) matches Ok(q)
            && q.mode is AddFile && q.hunks == before.push(
            HunkView::AddFile { path, contents: lines_ended(lines) },
        ),
    decreases lines.len(),
{
    let f = |l: Seq<char>| seq!['+'] + l;
    if lines.len() == 0 {
        assert(lines.map_values(f) =~= seq![]);
    } else {
        let init = lines.drop_last();
        let line = seq!['+'] + lines.last();
        lemma_added(p, before, path, init);
        let q = parser::after_lines(p, init.map_values(f))->Ok_0;
        assert(lines.map_values(f) =~= init.map_values(f) + seq![line]);
        lemma_runs(p, init.map_values(f), seq![line]);
        lemma_one_line(q, line);
        lemma_markers();
        assert(line[0] == '+');
        let t = text::trimmed(line);
        lemma_trimmed_end_kept(line);
        lemma_trimmed_end_first(line);
        lemma_begins_first(t, "*** Add File: "@);
        lemma_begins_first(t, "*** Delete File: "@);
        lemma_begins_first(t, "*** Update File: "@);
        assert(text::after(line, 1) =~= lines.last());
        assert(q.hunks.drop_last() =~= before);
        assert(lines_ended(lines) =~= lines_ended(init) + lines.last() + seq!['\n']);
        let r = parser::after_lines(q, seq![line])->Ok_0;
        assert(r.hunks =~= before.push(HunkView::AddFile { path, contents: lines_ended(lines) }));
    }
}

proof fn lemma_hunk(p: Progress, h: HunkSource)
    requires
        is_ready(p),
        fit_hunk(h),
    ensures
        parser::after_lines(p, written_hunk(h)) matches Ok(q) && is_ready(q) && q.hunks
            == p.hunks.push(said_hunk(h)),
{
    lemma_markers();
    match h {
        HunkSource::Add { path, lines } => {
            let head = "*** Add File: "@ + path;
            lemma_named("*** Add File: "@, path);
            lemma_runs(p, seq![head], lines.map_values(|l: Seq<char>| seq!['+'] + l));
            lemma_one_line(p, head);
            assert(head.len() >= 14 && head[4] == "*** Add File: "@[4]);
            let q = parser::after_lines(p, seq![head])->Ok_0;
            assert(q.hunks == p.hunks.push(HunkView::AddFile { path, contents: seq![] }));
            lemma_added(q, p.hunks, path, lines);
        },
        HunkSource::Delete { path } => {
            let head = "*** Delete File: "@ + path;
            lemma_named("*** Delete File: "@, path);
            lemma_one_line(p, head);
            lemma_begins_first(head, "*** Add File: "@);
            assert(head.len() >= 17 && head[4] == "*** Delete File: "@[4]);
        },
        HunkSource::Update { path, dest, chunks } => {
            let head = "*** Update File: "@ + path;
            let all = written_chunks(chunks, chunks.len() as int);
            lemma_named("*** Update File: "@, path);
            lemma_one_line(p, head);
            lemma_begins_first(head, "*** Add File: "@);
            lemma_begins_first(head, "*** Delete File: "@);
            assert(head.len() >= 17 && head[4] == "*** Update File: "@[4]);
            let q = parser::after_lines(p, seq![head])->Ok_0;
            match dest {
                Some(d) => {
                    let line = "*** Move to: "@ + d;
                    lemma_named("*** Move to: "@, d);
                    assert(line.len() >= 13 && line[4] == "*** Move to: "@[4]);
                    assert(line[0] == "*** Move to: "@[0]);
                    lemma_begins_first(line, "*** Add File: "@);
                    lemma_begins_first(line, "*** Delete File: "@);
                    lemma_begins_first(line, "*** Update File: "@);
                    lemma_begins_first(line, "@@ "@);
                    assert(seq![head, line] =~= seq![head] + seq![line]);
                    lemma_runs(p, seq![head] + seq![line], all);
                    lemma_runs(p, seq![head], seq![line]);
                    lemma_one_line(q, line);
                    let r = parser::after_lines(q, seq![line])->Ok_0;
                    assert(q.hunks.drop_last() =~= p.hunks);
                    assert(is_updating(r, p.hunks, path, dest, seq![]));
                    lemma_chunks(r, p.hunks, path, dest, chunks, chunks.len() as int);
                },
                None => {
                    lemma_runs(p, seq![head], all);
                    assert(is_updating(q, p.hunks, path, dest, seq![]));
                    lemma_chunks(q, p.hunks, path, dest, chunks, chunks.len() as int);
                },
            }
            assert(chunks.take(chunks.len() as int) =~= chunks);
        },
    }
}

proof fn lemma_hunks(p: Progress, hunks: Seq<HunkSource>, n: int)
    requires
        p.mode is Started,
        p.hunks.len() == 0,
        0 <= n <= hunks.len(),
        forall|i: int| 0 <= i < hunks.len() ==> fit_hunk(#[trigger] hunks[i]),
    ensures
        parser::after_lines(p, written_hunks(hunks, n)) matches Ok(q) && is_ready(q) && q.hunks
            == hunks.take(n).map_values(|h: HunkSource| said_hunk(h)),
    decreases n,
{
    let f = |h: HunkSource| said_hunk(h);
    if n > 0 {
        lemma_hunks(p, hunks, n - 1);
        let q = parser::after_lines(p, written_hunks(hunks, n - 1))->Ok_0;
        lemma_runs(p, written_hunks(hunks, n - 1), written_hunk(hunks[n - 1]));
        lemma_hunk(q, hunks[n - 1]);
        assert(hunks.take(n - 1).map_values(f).push(said_hunk(hunks[n - 1])) =~= hunks.take(
            n,
        ).map_values(f));
    } else {
        assert(hunks.take(0).map_values(f) =~= seq![]);
        assert(p.hunks =~= seq![]);
    }
}

/// The lines of a patch that is written after the grammar say what its author means: each hunk in
/// order, each with its path, an added file with its lines, an update with its destination and its
/// chunks, and each chunk with its lines on the side or sides where they stand, in the order written.
pub proof fn written_lines_read_back(hunks: Seq<HunkSource>)
    requires
        forall|i: int| 0 <= i < hunks.len() ==> fit_hunk(#[trigger] hunks[i]),
    ensures
        parser::hunks_of(written(hunks)) == Ok::<Seq<HunkView>, parser::ParseErrorView>(
            hunks.map_values(|h: HunkSource| said_hunk(h)),
        ),
{
    lemma_markers();
    let lines = written(hunks);
    let begin = "*** Begin Patch"@;
    let end = "*** End Patch"@;
    let body = written_hunks(hunks, hunks.len() as int);
    lemma_plain(begin);
    lemma_plain(end);
    assert(lines.last() == end);
    assert(lines.drop_last().push(end) =~= lines);
    assert(parser::end_unindented(lines) == lines);
    let p = parser::unstarted();
    lemma_runs(p, seq![begin] + body, seq![end]);
    lemma_runs(p, seq![begin], body);
    lemma_one_line(p, begin);
    let q = parser::after_lines(p, seq![begin])->Ok_0;
    lemma_hunks(q, hunks, hunks.len() as int);
    let r = parser::after_lines(q, body)->Ok_0;
    lemma_one_line(r, end);
    assert(hunks.take(hunks.len() as int) =~= hunks);
}

/// The same of the patch as one text, where no line holds a line feed or ends in a carriage return.
pub proof fn a_written_patch_reads_back(hunks: Seq<HunkSource>)
    requires
        forall|i: int| 0 <= i < hunks.len() ==> fit_hunk(#[trigger] hunks[i]),
        forall|i: int, k: int|
            0 <= i < written(hunks).len() && 0 <= k < written(hunks)[i].len()
                ==> #[trigger] written(hunks)[i][k] != '\n',
        forall|i: int|
            0 <= i < written(hunks).len() && (#[trigger] written(hunks)[i]).len() > 0
                ==> written(hunks)[i].last() != '\r',
    ensures
        parser::patch_meaning(text::joined(written(hunks), "\n"@)) == Ok::<
            Seq<HunkView>,
            parser::ParseErrorView,
        >(hunks.map_values(|h: HunkSource| said_hunk(h))),
{
    lemma_markers();
    let lines = written(hunks);
    let patch = text::joined(lines, "\n"@);
    assert(lines[0] == "*** Begin Patch"@);
    assert(lines.last() == "*** End Patch"@);
    lemma_joined_ends(lines, "\n"@);
    lemma_plain(patch);
    lemma_plain(lines[0]);
    lemma_plain(lines.last());
    text::joined_lines_read_again(lines);
    written_lines_read_back(hunks);
}

proof fn lemma_joined_ends(lines: Seq<Seq<char>>, sep: Seq<char>)
    requires
        lines.len() > 0,
        lines[0].len() > 0,
        lines.last().len() > 0,
    ensures
        text::joined(lines, sep).len() > 0,
        text::joined(lines, sep)[0] == lines[0][0],
        text::joined(lines, sep).last() == lines.last().last(),
    decreases lines.len(),
{
    lemma_joined_begins(lines, sep);
    if lines.len() > 1 {
        assert(text::joined(lines, sep) == text::joined(lines.drop_last(), sep) + sep
            + lines.last());
    }
}

proof fn lemma_joined_begins(lines: Seq<Seq<char>>, sep: Seq<char>)
    requires
        lines.len() > 0,
        lines[0].len() > 0,
    ensures
        text::joined(lines, sep).len() > 0,
        text::joined(lines, sep)[0] == lines[0][0],
    decreases lines.len(),
{
    if lines.len() > 1 {
        assert(lines.drop_last()[0] == lines[0]);
        lemma_joined_begins(lines.drop_last(), sep);
    }
}

} // verus!
