//! The `apply_patch` engine: turn a patch into a set of file writes.
//!
//! Work happens in two steps. [`plan`] takes the patch and the state of every file it names,
//! locates each chunk (tolerantly, see [`seek`]) and produces the exact new contents; the caller
//! then performs [`FileChange::operations`]. Splitting it this way means a patch is either fully
//! valid before anything is touched, or it fails with nothing half-written, and the preview shown
//! to the user for approval is the same content that will land.

use crate::paths;
use crate::text;
use crate::tools::diff;
use vstd::prelude::*;
use vstd::string::*;

pub mod effects;
pub mod grammar;
pub mod parser;
pub mod seek;

pub use parser::{parse_patch, Hunk, ParseError, UpdateFileChunk};

verus! {

// ---- the plan -------------------------------------------------------------------------------

/// Why a patch could not be turned into file writes.
#[derive(Debug, Clone, PartialEq)]
pub enum PatchError {
    Parse(ParseError),
    /// The patch is fine but doesn't fit the files on disk.
    Mismatch(String),
    Io(String),
    /// A path escaped the working directory.
    Path(String),
}

/// The mathematical value of a [`PatchError`].
pub enum PatchErrorView {
    Parse(parser::ParseErrorView),
    Mismatch(Seq<char>),
    Io(Seq<char>),
    Path(Seq<char>),
}

impl View for PatchError {
    type V = PatchErrorView;

    open spec fn view(&self) -> PatchErrorView {
        match self {
            PatchError::Parse(e) => PatchErrorView::Parse(e@),
            PatchError::Mismatch(m) => PatchErrorView::Mismatch(m@),
            PatchError::Io(m) => PatchErrorView::Io(m@),
            PatchError::Path(m) => PatchErrorView::Path(m@),
        }
    }
}

/// An error in words.
pub open spec fn error_text(e: PatchErrorView) -> Seq<char> {
    match e {
        PatchErrorView::Parse(e) => ParseError::message(e),
        PatchErrorView::Mismatch(m) => m,
        PatchErrorView::Io(m) => m,
        PatchErrorView::Path(m) => m,
    }
}

impl PatchError {
    /// The error in words.
    pub fn to_text(&self) -> (r: String)
        ensures
            r@ == error_text(self@),
    {
        match self {
            PatchError::Parse(e) => e.to_text(),
            PatchError::Mismatch(m) => m.clone(),
            PatchError::Io(m) => m.clone(),
            PatchError::Path(m) => m.clone(),
        }
    }
}

/// One resolved file operation, with its final contents already computed.
#[derive(Debug, Clone, PartialEq)]
pub enum FileChange {
    Add { path: String, contents: String },
    Delete { path: String, original: String },
    Update {
        path: String,
        /// Set when the file is also renamed; `path` is where the content is read from.
        move_to: Option<String>,
        original: String,
        contents: String,
    },
}

/// The mathematical value of a [`FileChange`].
pub enum ChangeView {
    Add { path: Seq<char>, contents: Seq<char> },
    Delete { path: Seq<char>, original: Seq<char> },
    Update {
        path: Seq<char>,
        move_to: Option<Seq<char>>,
        original: Seq<char>,
        contents: Seq<char>,
    },
}

impl View for FileChange {
    type V = ChangeView;

    open spec fn view(&self) -> ChangeView {
        match self {
            FileChange::Add { path, contents } => ChangeView::Add {
                path: path@,
                contents: contents@,
            },
            FileChange::Delete { path, original } => ChangeView::Delete {
                path: path@,
                original: original@,
            },
            FileChange::Update { path, move_to, original, contents } => ChangeView::Update {
                path: path@,
                move_to: text::opt_view(*move_to),
                original: original@,
                contents: contents@,
            },
        }
    }
}

pub open spec fn change_views(v: Seq<FileChange>) -> Seq<ChangeView> {
    Seq::new(v.len(), |i: int| v[i]@)
}

/// What is on disk under a path: whether anything exists there, and its text, or why the text
/// could not be read.
#[derive(Debug, PartialEq)]
pub struct FileState {
    pub exists: bool,
    pub text: Result<String, String>,
}

/// A validated patch: every change resolved against the current files, nothing written yet.
#[derive(Debug, Clone, PartialEq)]
pub struct Plan {
    pub changes: Vec<FileChange>,
}

// ---- locating chunks ------------------------------------------------------------------------

/// One edit of a file's lines: at `start`, `old_len` lines give way to `new_lines`.
pub struct Edit {
    pub start: int,
    pub old_len: nat,
    pub new_lines: Seq<Seq<char>>,
}

/// The last line exists and is empty.
pub open spec fn ends_blank(lines: Seq<Seq<char>>) -> bool {
    lines.len() > 0 && lines.last().len() == 0
}

/// `lines` without an empty last line.
pub open spec fn without_blank_end(lines: Seq<Seq<char>>) -> Seq<Seq<char>> {
    if ends_blank(lines) {
        lines.drop_last()
    } else {
        lines
    }
}

/// Where the search for a chunk begins: after its context line, when it has one.
pub open spec fn after_context(
    lines: Seq<Seq<char>>,
    context: Option<Seq<char>>,
    from: int,
) -> Option<int> {
    match context {
        None => Some(from),
        Some(c) => match seek::sought(lines, seq![c], from, false) {
            Some(i) => Some(i + 1),
            None => None,
        },
    }
}

/// The edit that a chunk says, searched from `from` on. A chunk with nothing to find goes to the
/// end of the file, before a trailing blank line. A chunk that reaches the end of the file often
/// carries a trailing empty line that stands for the final newline: it is searched without that
/// line when it is not found with it.
pub open spec fn chunk_edit(
    lines: Seq<Seq<char>>,
    chunk: parser::ChunkView,
    from: int,
) -> Option<Edit> {
    let eof = chunk.is_end_of_file;
    if chunk.old_lines.len() == 0 {
        Some(
            Edit {
                start: without_blank_end(lines).len() as int,
                old_len: 0,
                new_lines: chunk.new_lines,
            },
        )
    } else {
        match seek::sought(lines, chunk.old_lines, from, eof) {
            Some(at) => Some(
                Edit { start: at, old_len: chunk.old_lines.len(), new_lines: chunk.new_lines },
            ),
            None => if ends_blank(chunk.old_lines) {
                let old = chunk.old_lines.drop_last();
                match seek::sought(lines, old, from, eof) {
                    Some(at) => Some(
                        Edit {
                            start: at,
                            old_len: old.len(),
                            new_lines: without_blank_end(chunk.new_lines),
                        },
                    ),
                    None => None,
                }
            } else {
                None
            },
        }
    }
}

pub open spec fn context_missing(context: Seq<char>, path: Seq<char>) -> PatchErrorView {
    PatchErrorView::Mismatch("failed to find context '"@ + context + "' in "@ + path)
}

pub open spec fn lines_missing(old_lines: Seq<Seq<char>>, path: Seq<char>) -> PatchErrorView {
    PatchErrorView::Mismatch(
        "failed to find these lines in "@ + path + ":\n"@ + text::joined(old_lines, "\n"@),
    )
}

/// The edits of the chunks `chunks[k..]`, each searched after the one before it. A chunk that only
/// adds lines does not move the search.
pub open spec fn edits_from(
    lines: Seq<Seq<char>>,
    chunks: Seq<parser::ChunkView>,
    k: int,
    from: int,
    path: Seq<char>,
) -> Result<Seq<Edit>, PatchErrorView>
    decreases chunks.len() - k,
{
    if k < 0 || k >= chunks.len() {
        Ok(seq![])
    } else {
        match after_context(lines, chunks[k].change_context, from) {
            None => Err(context_missing(chunks[k].change_context->0, path)),
            Some(begin) => match chunk_edit(lines, chunks[k], begin) {
                None => Err(lines_missing(chunks[k].old_lines, path)),
                Some(edit) => {
                    let next = if chunks[k].old_lines.len() == 0 {
                        begin
                    } else {
                        edit.start + edit.old_len
                    };
                    match edits_from(lines, chunks, k + 1, next, path) {
                        Ok(rest) => Ok(seq![edit] + rest),
                        Err(e) => Err(e),
                    }
                },
            },
        }
    }
}

/// `edit` put into `sorted` behind every edit that starts no later.
pub open spec fn placed(sorted: Seq<Edit>, edit: Edit) -> Seq<Edit>
    decreases sorted.len(),
{
    if sorted.len() == 0 || sorted.last().start <= edit.start {
        sorted.push(edit)
    } else {
        placed(sorted.drop_last(), edit).push(sorted.last())
    }
}

/// The edits by where they start; those that start together keep their order.
pub open spec fn in_order(edits: Seq<Edit>) -> Seq<Edit>
    decreases edits.len(),
{
    if edits.len() == 0 {
        edits
    } else {
        placed(in_order(edits.drop_last()), edits.last())
    }
}

/// The lines after one edit. An edit that reaches past the end removes what is there.
pub open spec fn spliced(lines: Seq<Seq<char>>, edit: Edit) -> Seq<Seq<char>> {
    let end = edit.start + edit.old_len;
    lines.subrange(0, edit.start) + edit.new_lines + lines.subrange(
        if end <= lines.len() {
            end
        } else {
            lines.len() as int
        },
        lines.len() as int,
    )
}

/// The lines after all the edits, the last one made first so that earlier positions stay valid.
pub open spec fn edited(lines: Seq<Seq<char>>, edits: Seq<Edit>) -> Seq<Seq<char>>
    decreases edits.len(),
{
    if edits.len() == 0 {
        lines
    } else {
        edited(spliced(lines, edits.last()), edits.drop_last())
    }
}

/// The contents of a file after an update hunk's chunks. The final newline is left out of the lines
/// and added again; a file that had none gets one, unless its last line has become empty.
pub open spec fn patched(
    original: Seq<char>,
    chunks: Seq<parser::ChunkView>,
    path: Seq<char>,
) -> Result<Seq<char>, PatchErrorView> {
    let split = text::split(original, '\n');
    let lines = without_blank_end(split);
    match edits_from(lines, chunks, 0, 0, path) {
        Err(e) => Err(e),
        Ok(edits) => {
            let new_lines = edited(lines, in_order(edits));
            Ok(
                text::joined(
                    if ends_blank(split) || !ends_blank(new_lines) {
                        new_lines.push(seq![])
                    } else {
                        new_lines
                    },
                    "\n"@,
                ),
            )
        },
    }
}

/// One edit of a file's lines.
struct Replacement {
    start: usize,
    old_len: usize,
    new_lines: Vec<String>,
}

impl Replacement {
    spec fn edit(self) -> Edit {
        Edit {
            start: self.start as int,
            old_len: self.old_len as nat,
            new_lines: text::views(self.new_lines@),
        }
    }
}

spec fn edit_views(v: Seq<Replacement>) -> Seq<Edit> {
    Seq::new(v.len(), |i: int| v[i].edit())
}

/// Every edit starts inside the lines or right behind them.
pub open spec fn edits_fit(edits: Seq<Edit>, len: nat) -> bool {
    forall|i: int| 0 <= i < edits.len() ==> 0 <= (#[trigger] edits[i]).start <= len
}

/// The edits stand by where they start.
pub open spec fn is_ordered(edits: Seq<Edit>) -> bool {
    forall|i: int, j: int| 0 <= i <= j < edits.len() ==> edits[i].start <= edits[j].start
}

proof fn lemma_placed_fits(sorted: Seq<Edit>, edit: Edit, len: nat)
    requires
        edits_fit(sorted, len),
        0 <= edit.start <= len,
    ensures
        edits_fit(placed(sorted, edit), len),
    decreases sorted.len(),
{
    if sorted.len() > 0 && sorted.last().start > edit.start {
        lemma_placed_fits(sorted.drop_last(), edit, len);
    }
}

proof fn lemma_placed(sorted: Seq<Edit>, edit: Edit, len: nat)
    requires
        is_ordered(sorted),
        edits_fit(sorted, len),
        0 <= edit.start <= len,
    ensures
        is_ordered(placed(sorted, edit)),
        edits_fit(placed(sorted, edit), len),
        placed(sorted, edit).len() == sorted.len() + 1,
    decreases sorted.len(),
{
    if sorted.len() > 0 && sorted.last().start > edit.start {
        lemma_placed(sorted.drop_last(), edit, len);
        let inner = placed(sorted.drop_last(), edit);
        assert(placed(sorted, edit) =~= inner.push(sorted.last()));
        assert(edits_fit(sorted.drop_last(), sorted.last().start as nat));
        lemma_placed_fits(sorted.drop_last(), edit, sorted.last().start as nat);
    }
}

proof fn lemma_in_order(edits: Seq<Edit>, len: nat)
    requires
        edits_fit(edits, len),
    ensures
        is_ordered(in_order(edits)),
        edits_fit(in_order(edits), len),
        in_order(edits).len() == edits.len(),
    decreases edits.len(),
{
    if edits.len() > 0 {
        lemma_in_order(edits.drop_last(), len);
        lemma_placed(in_order(edits.drop_last()), edits.last(), len);
    }
}

/// Puts an edit behind every edit that starts no later.
fn place(sorted: &mut Vec<Replacement>, edit: Replacement)
    ensures
        edit_views(final(sorted)@) == placed(edit_views(old(sorted)@), edit.edit()),
{
    let ghost before = edit_views(sorted@);
    let ghost all = sorted@;
    let mut i: usize = sorted.len();
    proof {
        assert(before.take(i as int) =~= before);
        assert(placed(before, edit.edit()) + before.subrange(i as int, before.len() as int)
            =~= placed(before, edit.edit()));
    }
    while i > 0 && sorted[i - 1].start > edit.start
        invariant
            0 <= i <= sorted@.len(),
            sorted@ == all,
            before == edit_views(all),
            placed(before, edit.edit()) == placed(before.take(i as int), edit.edit())
                + before.subrange(i as int, before.len() as int),
        decreases i,
    {
        proof {
            let t = before.take(i as int);
            assert(t.drop_last() =~= before.take(i - 1));
            assert(t.last() == before[i - 1]);
            assert(placed(t.drop_last(), edit.edit()).push(t.last()) + before.subrange(
                i as int,
                before.len() as int,
            ) =~= placed(before.take(i - 1), edit.edit()) + before.subrange(
                i - 1,
                before.len() as int,
            ));
        }
        i -= 1;
    }
    sorted.insert(i, edit);
    proof {
        if i > 0 {
            assert(before.take(i as int).last() == before[i - 1]);
        }
        assert(placed(before.take(i as int), edit.edit()) == before.take(i as int).push(
            edit.edit(),
        ));
        assert(edit_views(sorted@) =~= before.take(i as int).push(edit.edit()) + before.subrange(
            i as int,
            before.len() as int,
        ));
    }
}

/// Locate each chunk, producing its edits in file order.
fn compute_replacements(
    original_lines: &Vec<String>,
    chunks: &Vec<UpdateFileChunk>,
    path: &str,
) -> (r: Result<Vec<Replacement>, PatchError>)
    ensures
        ({
            let lines = text::views(original_lines@);
            let meant = edits_from(lines, parser::chunk_views(chunks@), 0, 0, path@);
            match r {
                Ok(edits) => meant is Ok && edit_views(edits@) == in_order(meant->Ok_0)
                    && edits_fit(meant->Ok_0, lines.len()),
                Err(e) => meant == Err::<Seq<Edit>, _>(e@),
            }
        }),
{
    let ghost lines = text::views(original_lines@);
    let ghost cs = parser::chunk_views(chunks@);
    let ghost meant = edits_from(lines, cs, 0, 0, path@);
    let ghost mut done: Seq<Edit> = seq![];
    let mut replacements: Vec<Replacement> = Vec::new();
    let mut line_index: usize = 0;
    let mut k: usize = 0;
    proof {
        assert(edit_views(replacements@) =~= in_order(done));
        if meant is Ok {
            assert(done + meant->Ok_0 =~= meant->Ok_0);
        }
    }
    while k < chunks.len()
        invariant
            0 <= k <= chunks@.len(),
            lines == text::views(original_lines@),
            lines.len() == original_lines.len(),
            cs == parser::chunk_views(chunks@),
            meant == edits_from(lines, cs, 0, 0, path@),
            line_index <= lines.len(),
            edits_fit(done, lines.len()),
            edit_views(replacements@) == in_order(done),
            meant == (match edits_from(lines, cs, k as int, line_index as int, path@) {
                Ok(rest) => Ok::<_, PatchErrorView>(done + rest),
                Err(e) => Err(e),
            }),
        decreases chunks@.len() - k,
    {
        let chunk = &chunks[k];
        let ghost from = line_index as int;
        assert(cs[k as int] == chunk@);
        // `@@ context` narrows the search window before matching the chunk itself.
        if let Some(ctx) = &chunk.change_context {
            let mut one: Vec<String> = Vec::new();
            one.push(ctx.clone());
            assert(text::views(one@) =~= seq![ctx@]);
            match seek::seek_sequence(
                original_lines.as_slice(),
                one.as_slice(),
                line_index,  /*eof*/
                false,
            ) {
                Some(idx) => {
                    proof {
                        seek::found_lines_match(lines, seq![ctx@], from, false, idx as int);
                    }
                    line_index = idx + 1;
                },
                None => {
                    let mut m = "failed to find context '".to_string();
                    m.append(ctx.as_str());
                    m.append("' in ");
                    m.append(path);
                    return Err(PatchError::Mismatch(m));
                },
            }
        }
        let ghost begin = line_index as int;
        assert(after_context(lines, chunk@.change_context, from) == Some(begin));
        let edit: Replacement;
        if chunk.old_lines.len() == 0 {
            // A pure insertion goes at the end of the file (before a trailing blank line).
            let n = original_lines.len();
            let at: usize = if n > 0 && original_lines[n - 1].as_str().unicode_len() == 0 {
                n - 1
            } else {
                n
            };
            proof {
                if n > 0 {
                    assert(lines.last() == original_lines@.last()@);
                }
            }
            edit =
            Replacement {
                start: at,
                old_len: 0,
                new_lines: text::copy_strings(chunk.new_lines.as_slice()),
            };
        } else {
            match locate(original_lines, chunk, line_index) {
                Some(found) => {
                    line_index = found.start + found.old_len;
                    edit = found;
                },
                None => {
                    let mut m = "failed to find these lines in ".to_string();
                    m.append(path);
                    m.append(":\n");
                    m.append(text::join(&chunk.old_lines, "\n").as_str());
                    return Err(PatchError::Mismatch(m));
                },
            }
        }
        let ghost e = edit.edit();
        proof {
            assert(chunk_edit(lines, chunk@, begin) == Some(e));
            let rest = edits_from(lines, cs, k + 1, line_index as int, path@);
            if rest is Ok {
                assert(done + (seq![e] + rest->Ok_0) =~= done.push(e) + rest->Ok_0);
            }
            assert(done.push(e).drop_last() =~= done);
            done = done.push(e);
        }
        place(&mut replacements, edit);
        k += 1;
    }
    proof {
        assert(done + Seq::<Edit>::empty() =~= done);
    }
    Ok(replacements)
}

/// Searches a chunk that has lines to find.
fn locate(original_lines: &Vec<String>, chunk: &UpdateFileChunk, from: usize) -> (r: Option<
    Replacement,
>)
    requires
        chunk.old_lines@.len() > 0,
        from <= original_lines@.len(),
    ensures
        ({
            let lines = text::views(original_lines@);
            match r {
                Some(edit) => chunk_edit(lines, chunk@, from as int) == Some(edit.edit())
                    && edit.start + edit.old_len <= original_lines.len(),
                None => chunk_edit(lines, chunk@, from as int) is None,
            }
        }),
{
    let ghost lines = text::views(original_lines@);
    let n = chunk.old_lines.len();
    let eof = chunk.is_end_of_file;
    let all = original_lines.as_slice();
    match seek::seek_sequence(all, chunk.old_lines.as_slice(), from, eof) {
        Some(start) => {
            proof {
                seek::found_lines_match(lines, chunk@.old_lines, from as int, eof, start as int);
            }
            Some(
                Replacement {
                    start,
                    old_len: n,
                    new_lines: text::copy_strings(chunk.new_lines.as_slice()),
                },
            )
        },
        None => {
            // A chunk that reaches the end of the file often carries a trailing empty line standing
            // in for the final newline, which isn't in `original_lines`. Retry without it.
            assert(chunk@.old_lines.last() == chunk.old_lines@.last()@);
            if chunk.old_lines[n - 1].as_str().unicode_len() > 0 {
                return None;
            }
            let pattern = vstd::slice::slice_subrange(chunk.old_lines.as_slice(), 0, n - 1);
            assert(text::views(pattern@) =~= chunk@.old_lines.drop_last());
            let m = chunk.new_lines.len();
            let kept: usize = if m > 0 && chunk.new_lines[m - 1].as_str().unicode_len() == 0 {
                m - 1
            } else {
                m
            };
            proof {
                if m > 0 {
                    assert(chunk@.new_lines.last() == chunk.new_lines@.last()@);
                }
            }
            let new_slice = vstd::slice::slice_subrange(chunk.new_lines.as_slice(), 0, kept);
            assert(text::views(new_slice@) =~= without_blank_end(chunk@.new_lines));
            match seek::seek_sequence(all, pattern, from, eof) {
                Some(start) => {
                    proof {
                        if n > 1 {
                            seek::found_lines_match(
                                lines,
                                chunk@.old_lines.drop_last(),
                                from as int,
                                eof,
                                start as int,
                            );
                        }
                    }
                    Some(
                        Replacement {
                            start,
                            old_len: n - 1,
                            new_lines: text::copy_strings(new_slice),
                        },
                    )
                },
                None => None,
            }
        },
    }
}

/// Splice the edits in, back to front so earlier indexes stay valid.
fn apply_replacements(lines: Vec<String>, replacements: &Vec<Replacement>) -> (r: Vec<String>)
    requires
        is_ordered(edit_views(replacements@)),
        edits_fit(edit_views(replacements@), lines@.len()),
    ensures
        text::views(r@) == edited(text::views(lines@), edit_views(replacements@)),
{
    let ghost edits = edit_views(replacements@);
    let ghost meant = edited(text::views(lines@), edits);
    let mut out = lines;
    let mut i: usize = replacements.len();
    assert(edits.take(i as int) =~= edits);
    while i > 0
        invariant
            0 <= i <= replacements@.len(),
            edits == edit_views(replacements@),
            is_ordered(edits),
            edits_fit(edits, usize::MAX as nat),
            i > 0 ==> edits[i - 1].start <= out@.len(),
            edited(text::views(out@), edits.take(i as int)) == meant,
        decreases i,
    {
        i -= 1;
        let edit = &replacements[i];
        let ghost e = edits[i as int];
        let ghost before = text::views(out@);
        assert(e == edit.edit());
        let mut tail = out.split_off(edit.start);
        let cut: usize = if edit.old_len <= tail.len() {
            edit.old_len
        } else {
            tail.len()
        };
        let mut rest = tail.split_off(cut);
        let mut added = text::copy_strings(edit.new_lines.as_slice());
        out.append(&mut added);
        out.append(&mut rest);
        proof {
            assert(text::views(out@) =~= spliced(before, e));
            let t = edits.take(i + 1);
            assert(t.last() == e);
            assert(t.drop_last() =~= edits.take(i as int));
        }
    }
    out
}

/// Apply an update hunk's chunks to a file's contents.
fn apply_chunks(original: &str, chunks: &Vec<UpdateFileChunk>, path: &str) -> (r: Result<
    String,
    PatchError,
>)
    ensures
        ({
            let meant = patched(original@, parser::chunk_views(chunks@), path@);
            match r {
                Ok(contents) => meant == Ok::<_, PatchErrorView>(contents@),
                Err(e) => meant == Err::<Seq<char>, _>(e@),
            }
        }),
{
    let mut lines = text::to_strings(&text::split_char(original, '\n'));
    let ghost all = text::views(lines@);
    // The split leaves a trailing empty element for the final newline; drop it so line indexes
    // match what a diff tool would report, and re-add it at the end.
    let n = lines.len();
    let dropped = n > 0 && lines[n - 1].as_str().unicode_len() == 0;
    if dropped {
        assert(all.last() == lines@.last()@);
        lines.truncate(n - 1);
        assert(text::views(lines@) =~= all.drop_last());
    } else if n > 0 {
        assert(all.last() == lines@.last()@);
    }
    assert(text::views(lines@) == without_blank_end(all));
    let replacements = compute_replacements(&lines, chunks, path)?;
    proof {
        lemma_in_order(
            edits_from(text::views(lines@), parser::chunk_views(chunks@), 0, 0, path@)->Ok_0,
            lines@.len(),
        );
    }
    let mut new_lines = apply_replacements(lines, &replacements);
    let ghost made = text::views(new_lines@);
    let m = new_lines.len();
    if dropped || !(m > 0 && new_lines[m - 1].as_str().unicode_len() == 0) {
        new_lines.push(String::new());
        assert(text::views(new_lines@) =~= made.push(new_lines@.last()@));
        assert(new_lines@.last()@ =~= Seq::<char>::empty());
    }
    Ok(text::join(&new_lines, "\n"))
}

// ---- resolving paths ------------------------------------------------------------------------

/// The names that the parts `parts[i..]` lead to from `names`, unless they leave the start.
pub open spec fn settled(parts: Seq<paths::Part>, i: int, names: Seq<Seq<char>>) -> Option<
    Seq<Seq<char>>,
>
    decreases parts.len() - i,
{
    if i < 0 || i >= parts.len() {
        Some(names)
    } else {
        match parts[i] {
            paths::Part::Normal(name) => settled(parts, i + 1, names.push(name)),
            paths::Part::Current => settled(parts, i + 1, names),
            paths::Part::Parent => if names.len() == 0 {
                None
            } else {
                settled(parts, i + 1, names.drop_last())
            },
            paths::Part::Root => None,
        }
    }
}

/// The path that leads from `base` through `names`.
pub open spec fn descended(base: Seq<char>, names: Seq<Seq<char>>) -> Seq<char>
    decreases names.len(),
{
    if names.len() == 0 {
        base
    } else {
        paths::pushed(descended(base, names.drop_last()), names.last())
    }
}

/// A patch path resolved against `cwd`. Anything that leaves it is refused.
pub open spec fn resolved(cwd: Seq<char>, path: Seq<char>) -> Result<Seq<char>, PatchErrorView> {
    if paths::absolute(path) {
        Err(
            PatchErrorView::Path(
                path + ": patch paths must be relative to the working directory"@,
            ),
        )
    } else {
        match settled(paths::parts(path), 0, seq![]) {
            Some(names) => Ok(descended(cwd, names)),
            None => Err(
                PatchErrorView::Path(
                    path + ": patch paths must stay inside the working directory"@,
                ),
            ),
        }
    }
}

proof fn lemma_pieces_are_names(s: Seq<char>, i: int)
    requires
        0 <= i <= s.len(),
    ensures
        forall|k: int, j: int|
            0 <= k < text::split_from(s, '/', i).len() && 0 <= j < text::split_from(
                s,
                '/',
                i,
            )[k].len() ==> #[trigger] text::split_from(s, '/', i)[k][j] != '/',
    decreases s.len() - i,
{
    text::lemma_next_char(s, '/', i);
    let n = text::next_char(s, '/', i);
    if n < s.len() {
        lemma_pieces_are_names(s, n + 1);
        let rest = text::split_from(s, '/', n + 1);
        let all = text::split_from(s, '/', i);
        assert forall|k: int, j: int| 0 <= k < all.len() && 0 <= j < all[k].len() implies
            #[trigger] all[k][j] != '/' by {
            if k > 0 {
                assert(all[k] == rest[k - 1]);
            }
        }
    }
}

proof fn lemma_parts_are_names(pieces: Seq<Seq<char>>, i: int)
    requires
        0 <= i <= pieces.len(),
        forall|k: int, j: int|
            0 <= k < pieces.len() && 0 <= j < pieces[k].len() ==> #[trigger] pieces[k][j] != '/',
    ensures
        forall|k: int|
            0 <= k < paths::parts_from(pieces, i).len() ==> ((#[trigger] paths::parts_from(
                pieces,
                i,
            )[k]) matches paths::Part::Normal(name) ==> paths::is_name(name)),
    decreases pieces.len() - i,
{
    if i < pieces.len() {
        lemma_parts_are_names(pieces, i + 1);
        let rest = paths::parts_from(pieces, i + 1);
        let all = paths::parts_from(pieces, i);
        assert forall|k: int| 0 <= k < all.len() implies ((#[trigger] all[k]) matches
            paths::Part::Normal(name) ==> paths::is_name(name)) by {
            if all.len() == rest.len() + 1 && k > 0 {
                assert(all[k] == rest[k - 1]);
            }
        }
    }
}

/// Every text in the sequence names one normal part.
pub open spec fn all_names(names: Seq<Seq<char>>) -> bool {
    forall|k: int| 0 <= k < names.len() ==> paths::is_name(#[trigger] names[k])
}

proof fn lemma_settled_names(parts: Seq<paths::Part>, i: int, names: Seq<Seq<char>>)
    requires
        0 <= i <= parts.len(),
        all_names(names),
        forall|k: int|
            0 <= k < parts.len() ==> ((#[trigger] parts[k]) matches paths::Part::Normal(name)
                ==> paths::is_name(name)),
    ensures
        settled(parts, i, names) matches Some(r) ==> all_names(r),
    decreases parts.len() - i,
{
    if i < parts.len() {
        match parts[i] {
            paths::Part::Normal(name) => {
                lemma_settled_names(parts, i + 1, names.push(name));
            },
            paths::Part::Current => {
                lemma_settled_names(parts, i + 1, names);
            },
            paths::Part::Parent => {
                if names.len() > 0 {
                    lemma_settled_names(parts, i + 1, names.drop_last());
                }
            },
            paths::Part::Root => {},
        }
    }
}

proof fn lemma_descended_parts(base: Seq<char>, names: Seq<Seq<char>>)
    requires
        all_names(names),
    ensures
        paths::parts(descended(base, names)) == paths::parts(base) + names.map_values(
            |n: Seq<char>| paths::Part::Normal(n),
        ),
    decreases names.len(),
{
    let f = |n: Seq<char>| paths::Part::Normal(n);
    if names.len() == 0 {
        assert(names.map_values(f) =~= seq![]);
        assert(paths::parts(base) + names.map_values(f) =~= paths::parts(base));
    } else {
        let inner = names.drop_last();
        lemma_descended_parts(base, inner);
        paths::push_adds_one_part(descended(base, inner), names.last());
        assert(names.map_values(f) =~= inner.map_values(f).push(
            paths::Part::Normal(names.last()),
        ));
        assert(paths::parts(descended(base, names)) =~= paths::parts(base) + names.map_values(f));
    }
}

/// A patch path never leads out of the working directory: what it resolves to is the directory
/// itself followed by normal parts only, with no `..` among them.
pub proof fn resolved_stays_inside(cwd: Seq<char>, path: Seq<char>)
    ensures
        resolved(cwd, path) matches Ok(p) ==> {
            &&& paths::within(p, cwd)
            &&& forall|k: int|
                paths::parts(cwd).len() <= k < paths::parts(p).len() ==> (#[trigger] paths::parts(
                    p,
                )[k]) is Normal
        },
{
    if let Ok(p) = resolved(cwd, path) {
        let pieces = text::split(path, '/');
        lemma_pieces_are_names(path, 0);
        lemma_parts_are_names(pieces, 0);
        lemma_settled_names(paths::parts(path), 0, seq![]);
        let names = settled(paths::parts(path), 0, seq![])->0;
        lemma_descended_parts(cwd, names);
        assert(paths::parts(p).subrange(0, paths::parts(cwd).len() as int) =~= paths::parts(cwd));
    }
}

/// Resolve a patch path against `cwd`, refusing anything that leaves it.
fn resolve(cwd: &str, path: &str) -> (r: Result<String, PatchError>)
    ensures
        match r {
            Ok(p) => resolved(cwd@, path@) == Ok::<_, PatchErrorView>(p@),
            Err(e) => resolved(cwd@, path@) == Err::<Seq<char>, _>(e@),
        },
{
    if paths::is_absolute(path) {
        return Err(
            PatchError::Path(
                text::concat2(path, ": patch paths must be relative to the working directory"),
            ),
        );
    }
    let parts = paths::parts_of(path);
    let ghost pv = paths::parts(path@);
    let mut names: Vec<String> = Vec::new();
    let mut i: usize = 0;
    assert(text::views(names@) =~= seq![]);
    while i < parts.len()
        invariant
            0 <= i <= parts@.len(),
            !paths::absolute(path@),
            pv == paths::parts(path@),
            pv == paths::part_views(parts@),
            settled(pv, i as int, text::views(names@)) == settled(pv, 0, seq![]),
        decreases parts@.len() - i,
    {
        let ghost before = text::views(names@);
        assert(pv[i as int] == parts@[i as int]@);
        match &parts[i] {
            paths::PathPart::Normal(name) => {
                names.push(name.clone());
                assert(text::views(names@) =~= before.push(name@));
            },
            paths::PathPart::Current => {},
            paths::PathPart::Parent => {
                if names.len() == 0 {
                    return Err(
                        PatchError::Path(
                            text::concat2(
                                path,
                                ": patch paths must stay inside the working directory",
                            ),
                        ),
                    );
                }
                let n = names.len();
                names.truncate(n - 1);
                assert(text::views(names@) =~= before.drop_last());
            },
            paths::PathPart::Root => {
                return Err(
                    PatchError::Path(
                        text::concat2(path, ": patch paths must stay inside the working directory"),
                    ),
                );
            },
        }
        i += 1;
    }
    let ghost all = text::views(names@);
    let mut out = cwd.to_string();
    let mut k: usize = 0;
    while k < names.len()
        invariant
            0 <= k <= names@.len(),
            all == text::views(names@),
            out@ == descended(cwd@, all.take(k as int)),
        decreases names@.len() - k,
    {
        out = paths::push(out.as_str(), names[k].as_str());
        proof {
            assert(all.take(k + 1).drop_last() =~= all.take(k as int));
            assert(all.take(k + 1).last() == names@[k as int]@);
        }
        k += 1;
    }
    assert(all.take(k as int) =~= all);
    Ok(out)
}

// ---- planning -------------------------------------------------------------------------------

/// The path, relative to the working directory, of the file that a hunk reads.
pub open spec fn source_of(hunk: parser::HunkView) -> Seq<char> {
    match hunk {
        parser::HunkView::AddFile { path, .. } => path,
        parser::HunkView::DeleteFile { path } => path,
        parser::HunkView::UpdateFile { path, .. } => path,
    }
}

/// The text of a file, or the error for a file that cannot be read.
pub open spec fn text_of(path: Seq<char>, state: FileState) -> Result<Seq<char>, PatchErrorView> {
    match state.text {
        Ok(t) => Ok(t@),
        Err(e) => Err(PatchErrorView::Io("failed to read "@ + path + " to patch it: "@ + e@)),
    }
}

/// What one hunk does, given what is on disk under its path.
pub open spec fn hunk_change(cwd: Seq<char>, hunk: parser::HunkView, state: FileState) -> Result<
    ChangeView,
    PatchErrorView,
> {
    match resolved(cwd, source_of(hunk)) {
        Err(e) => Err(e),
        Ok(path) => match hunk {
            parser::HunkView::AddFile { contents, .. } => if state.exists {
                Err(
                    PatchErrorView::Mismatch(
                        path + " already exists — use '*** Update File:' to change it"@,
                    ),
                )
            } else {
                Ok(ChangeView::Add { path, contents })
            },
            parser::HunkView::DeleteFile { .. } => match text_of(path, state) {
                Ok(original) => Ok(ChangeView::Delete { path, original }),
                Err(e) => Err(e),
            },
            parser::HunkView::UpdateFile { move_path, chunks, .. } => {
                let dest = match move_path {
                    None => Ok(None),
                    Some(m) => match resolved(cwd, m) {
                        Ok(d) => Ok(Some(d)),
                        Err(e) => Err(e),
                    },
                };
                match dest {
                    Err(e) => Err(e),
                    Ok(move_to) => match text_of(path, state) {
                        Err(e) => Err(e),
                        Ok(original) => match patched(original, chunks, path) {
                            Ok(contents) => Ok(
                                ChangeView::Update { path, move_to, original, contents },
                            ),
                            Err(e) => Err(e),
                        },
                    },
                }
            },
        },
    }
}

/// What the hunks `hunks[i..]` do; the first one that fails decides.
pub open spec fn changes_from(
    cwd: Seq<char>,
    hunks: Seq<parser::HunkView>,
    files: Seq<FileState>,
    i: int,
) -> Result<Seq<ChangeView>, PatchErrorView>
    decreases hunks.len() - i,
{
    if i < 0 || i >= hunks.len() {
        Ok(seq![])
    } else {
        match hunk_change(cwd, hunks[i], files[i]) {
            Err(e) => Err(e),
            Ok(change) => match changes_from(cwd, hunks, files, i + 1) {
                Err(e) => Err(e),
                Ok(rest) => Ok(seq![change] + rest),
            },
        }
    }
}

/// What a patch does to the files under `cwd`.
pub open spec fn planned(patch: Seq<char>, cwd: Seq<char>, files: Seq<FileState>) -> Result<
    Seq<ChangeView>,
    PatchErrorView,
> {
    match parser::patch_meaning(patch) {
        Err(e) => Err(PatchErrorView::Parse(e)),
        Ok(hunks) => changes_from(cwd, hunks, files, 0),
    }
}

/// The path of the file that a hunk reads, resolved against `cwd`.
pub fn source_path(cwd: &str, hunk: &Hunk) -> (r: Result<String, PatchError>)
    ensures
        match r {
            Ok(p) => resolved(cwd@, source_of(hunk@)) == Ok::<_, PatchErrorView>(p@),
            Err(e) => resolved(cwd@, source_of(hunk@)) == Err::<Seq<char>, _>(e@),
        },
{
    match hunk {
        Hunk::AddFile { path, .. } => resolve(cwd, path.as_str()),
        Hunk::DeleteFile { path } => resolve(cwd, path.as_str()),
        Hunk::UpdateFile { path, .. } => resolve(cwd, path.as_str()),
    }
}

fn read(path: &str, state: &FileState) -> (r: Result<String, PatchError>)
    ensures
        match r {
            Ok(t) => text_of(path@, *state) == Ok::<_, PatchErrorView>(t@),
            Err(e) => text_of(path@, *state) == Err::<Seq<char>, _>(e@),
        },
{
    match &state.text {
        Ok(t) => Ok(t.clone()),
        Err(e) => {
            let mut m = "failed to read ".to_string();
            m.append(path);
            m.append(" to patch it: ");
            m.append(e.as_str());
            Err(PatchError::Io(m))
        },
    }
}

/// What one hunk does, given what is on disk under its path.
pub fn plan_hunk(cwd: &str, hunk: &Hunk, state: &FileState) -> (r: Result<FileChange, PatchError>)
    ensures
        match r {
            Ok(c) => hunk_change(cwd@, hunk@, *state) == Ok::<_, PatchErrorView>(c@),
            Err(e) => hunk_change(cwd@, hunk@, *state) == Err::<ChangeView, _>(e@),
        },
{
    let path = match source_path(cwd, hunk) {
        Ok(p) => p,
        Err(e) => {
            return Err(e);
        },
    };
    match hunk {
        Hunk::AddFile { contents, .. } => {
            if state.exists {
                return Err(
                    PatchError::Mismatch(
                        text::concat2(
                            path.as_str(),
                            " already exists — use '*** Update File:' to change it",
                        ),
                    ),
                );
            }
            Ok(FileChange::Add { path, contents: contents.clone() })
        },
        Hunk::DeleteFile { .. } => match read(path.as_str(), state) {
            Ok(original) => Ok(FileChange::Delete { path, original }),
            Err(e) => Err(e),
        },
        Hunk::UpdateFile { move_path, chunks, .. } => {
            let move_to = match move_path {
                None => None,
                Some(m) => match resolve(cwd, m.as_str()) {
                    Ok(d) => Some(d),
                    Err(e) => {
                        return Err(e);
                    },
                },
            };
            let original = match read(path.as_str(), state) {
                Ok(t) => t,
                Err(e) => {
                    return Err(e);
                },
            };
            match apply_chunks(original.as_str(), chunks, path.as_str()) {
                Ok(contents) => Ok(FileChange::Update { path, move_to, original, contents }),
                Err(e) => Err(e),
            }
        },
    }
}

/// Resolve `patch` against the files under `cwd`, where `files[i]` says what is on disk under the
/// path of the `i`th hunk.
///
/// Paths are resolved relative to `cwd` and must stay inside it: a patch is a bulk edit, and one
/// stray `../` would put it outside everything the permission prompt described.
pub fn plan(patch: &str, cwd: &str, files: &Vec<FileState>) -> (r: Result<Plan, PatchError>)
    requires
        parser::patch_meaning(patch@) matches Ok(hunks) ==> hunks.len() <= files@.len(),
    ensures
        match r {
            Ok(p) => planned(patch@, cwd@, files@) == Ok::<_, PatchErrorView>(
                change_views(p.changes@),
            ),
            Err(e) => planned(patch@, cwd@, files@) == Err::<Seq<ChangeView>, _>(e@),
        },
{
    let hunks = match parse_patch(patch) {
        Ok(h) => h,
        Err(e) => {
            return Err(PatchError::Parse(e));
        },
    };
    let ghost hv = parser::hunk_views(hunks@);
    let ghost meant = changes_from(cwd@, hv, files@, 0);
    let mut changes: Vec<FileChange> = Vec::new();
    let mut i: usize = 0;
    proof {
        if meant is Ok {
            assert(change_views(changes@) + meant->Ok_0 =~= meant->Ok_0);
        }
    }
    while i < hunks.len()
        invariant
            0 <= i <= hunks@.len() <= files@.len(),
            hv == parser::hunk_views(hunks@),
            meant == changes_from(cwd@, hv, files@, 0),
            meant == (match changes_from(cwd@, hv, files@, i as int) {
                Ok(rest) => Ok::<_, PatchErrorView>(change_views(changes@) + rest),
                Err(e) => Err(e),
            }),
            planned(patch@, cwd@, files@) == meant,
        decreases hunks@.len() - i,
    {
        assert(hv[i as int] == hunks@[i as int]@);
        let ghost before = change_views(changes@);
        match plan_hunk(cwd, &hunks[i], &files[i]) {
            Ok(change) => {
                changes.push(change);
                proof {
                    let rest = changes_from(cwd@, hv, files@, i + 1);
                    if rest is Ok {
                        assert(before + (seq![change@] + rest->Ok_0) =~= change_views(changes@)
                            + rest->Ok_0);
                    }
                }
            },
            Err(e) => {
                return Err(e);
            },
        }
        i += 1;
    }
    assert(change_views(changes@) + Seq::<ChangeView>::empty() =~= change_views(changes@));
    Ok(Plan { changes })
}

proof fn lemma_changes_from(
    cwd: Seq<char>,
    hunks: Seq<parser::HunkView>,
    files: Seq<FileState>,
    i: int,
)
    requires
        0 <= i <= hunks.len(),
    ensures
        changes_from(cwd, hunks, files, i) matches Ok(changes) ==> {
            &&& changes.len() == hunks.len() - i
            &&& forall|k: int|
                i <= k < hunks.len() ==> hunk_change(cwd, #[trigger] hunks[k], files[k]) == Ok::<
                    _,
                    PatchErrorView,
                >(changes[k - i])
        },
        changes_from(cwd, hunks, files, i) matches Err(e) ==> exists|k: int|
            i <= k < hunks.len() && hunk_change(cwd, #[trigger] hunks[k], files[k]) == Err::<
                ChangeView,
                _,
            >(e),
    decreases hunks.len() - i,
{
    if i < hunks.len() {
        lemma_changes_from(cwd, hunks, files, i + 1);
        if hunk_change(cwd, hunks[i], files[i]) is Ok {
            match changes_from(cwd, hunks, files, i + 1) {
                Err(e) => {
                    let k = choose|k: int|
                        i + 1 <= k < hunks.len() && hunk_change(
                            cwd,
                            #[trigger] hunks[k],
                            files[k],
                        ) == Err::<ChangeView, _>(e);
                    assert(hunk_change(cwd, hunks[k], files[k]) is Err);
                },
                Ok(rest) => {
                    let all = changes_from(cwd, hunks, files, i)->Ok_0;
                    assert forall|k: int| i <= k < hunks.len() implies hunk_change(
                        cwd,
                        #[trigger] hunks[k],
                        files[k],
                    ) == Ok::<_, PatchErrorView>(all[k - i]) by {
                        if k > i {
                            assert(all[k - i] == rest[k - (i + 1)]);
                        }
                    }
                },
            }
        }
    }
}

/// A patch is planned whole or not at all: there is a plan exactly when every hunk fits, and then
/// it holds one change for each hunk, in order.
pub proof fn plan_is_all_or_nothing(
    cwd: Seq<char>,
    hunks: Seq<parser::HunkView>,
    files: Seq<FileState>,
)
    ensures
        changes_from(cwd, hunks, files, 0) is Ok <==> forall|k: int|
            0 <= k < hunks.len() ==> hunk_change(cwd, #[trigger] hunks[k], files[k]) is Ok,
        changes_from(cwd, hunks, files, 0) matches Ok(changes) ==> {
            &&& changes.len() == hunks.len()
            &&& forall|k: int|
                0 <= k < hunks.len() ==> hunk_change(cwd, #[trigger] hunks[k], files[k]) == Ok::<
                    _,
                    PatchErrorView,
                >(changes[k])
        },
{
    lemma_changes_from(cwd, hunks, files, 0);
}

/// The path that a change writes to.
pub open spec fn target_of(c: ChangeView) -> Seq<char> {
    match c {
        ChangeView::Add { path, .. } => path,
        ChangeView::Delete { path, .. } => path,
        ChangeView::Update { path, move_to, .. } => match move_to {
            Some(dest) => dest,
            None => path,
        },
    }
}

/// Every path that a change reads or writes.
pub open spec fn touched_by(c: ChangeView) -> Seq<Seq<char>> {
    match c {
        ChangeView::Add { path, .. } => seq![path],
        ChangeView::Delete { path, .. } => seq![path],
        ChangeView::Update { path, move_to, .. } => match move_to {
            Some(dest) => seq![path, dest],
            None => seq![path],
        },
    }
}

/// Nothing that a planned hunk reads or writes lies outside the working directory.
pub proof fn planned_paths_stay_inside(
    cwd: Seq<char>,
    hunk: parser::HunkView,
    state: FileState,
    k: int,
)
    ensures
        hunk_change(cwd, hunk, state) matches Ok(c) ==> (0 <= k < touched_by(c).len()
            ==> paths::within(touched_by(c)[k], cwd)),
{
    resolved_stays_inside(cwd, source_of(hunk));
    if let parser::HunkView::UpdateFile { move_path: Some(m), .. } = hunk {
        resolved_stays_inside(cwd, m);
    }
}

// ---- what the edits leave alone -------------------------------------------------------------

/// Each edit ends before the next one starts, and the last one within the lines.
pub open spec fn edits_apart(edits: Seq<Edit>, len: nat) -> bool {
    &&& forall|i: int|
        0 <= i < edits.len() ==> 0 <= (#[trigger] edits[i]).start && edits[i].start
            + edits[i].old_len <= len
    &&& forall|i: int, j: int|
        0 <= i < j < edits.len() ==> (#[trigger] edits[i]).start + edits[i].old_len <= (
        #[trigger] edits[j]).start
}

/// The lines from `from` on with the edits `edits[i..]` woven in, front to back.
pub open spec fn woven(lines: Seq<Seq<char>>, edits: Seq<Edit>, i: int, from: int) -> Seq<Seq<char>>
    decreases edits.len() - i,
{
    if i < 0 || i >= edits.len() {
        lines.subrange(from, lines.len() as int)
    } else {
        lines.subrange(from, edits[i].start) + edits[i].new_lines + woven(
            lines,
            edits,
            i + 1,
            edits[i].start + edits[i].old_len,
        )
    }
}

proof fn lemma_woven_last(lines: Seq<Seq<char>>, edits: Seq<Edit>, last: Edit, i: int, from: int)
    requires
        edits_apart(edits.push(last), lines.len()),
        0 <= i <= edits.len(),
        0 <= from,
        i < edits.len() ==> from <= edits[i].start,
        i == edits.len() ==> from <= last.start,
    ensures
        woven(spliced(lines, last), edits, i, from) == woven(lines, edits.push(last), i, from),
    decreases edits.len() - i,
{
    let all = edits.push(last);
    assert(all[edits.len() as int] == last);
    let cut = spliced(lines, last);
    if i < edits.len() {
        assert(all[i] == edits[i]);
        if i + 1 < edits.len() {
            assert(all[i + 1] == edits[i + 1]);
        }
        lemma_woven_last(lines, edits, last, i + 1, edits[i].start + edits[i].old_len);
        assert(edits[i].start <= last.start);
        assert(cut.subrange(from, edits[i].start) =~= lines.subrange(from, edits[i].start));
    } else {
        assert(woven(lines, all, i + 1, last.start + last.old_len) == lines.subrange(
            last.start + last.old_len,
            lines.len() as int,
        ));
        assert(cut.subrange(from, cut.len() as int) =~= lines.subrange(from, last.start)
            + last.new_lines + lines.subrange(last.start + last.old_len, lines.len() as int));
    }
}

/// Edits that do not overlap change just the lines that they name: the result is the old lines with
/// each edit's lines in the place of those that it removes, and every other line kept in order.
pub proof fn separate_edits_change_nothing_else(lines: Seq<Seq<char>>, edits: Seq<Edit>)
    requires
        edits_apart(edits, lines.len()),
    ensures
        edited(lines, edits) == woven(lines, edits, 0, 0),
    decreases edits.len(),
{
    if edits.len() == 0 {
        assert(lines.subrange(0, lines.len() as int) =~= lines);
    } else {
        let last = edits.last();
        let init = edits.drop_last();
        assert(init.push(last) =~= edits);
        assert forall|i: int| 0 <= i < init.len() implies 0 <= (#[trigger] init[i]).start
            && init[i].start + init[i].old_len <= spliced(lines, last).len() by {
            assert(edits[i].start + edits[i].old_len <= edits[edits.len() - 1].start);
        }
        assert forall|i: int, j: int| 0 <= i < j < init.len() implies (#[trigger] init[i]).start
            + init[i].old_len <= (#[trigger] init[j]).start by {
            assert(edits[i].start + edits[i].old_len <= edits[j].start);
        }
        separate_edits_change_nothing_else(spliced(lines, last), init);
        lemma_woven_last(lines, init, last, 0, 0);
    }
}

/// Chunks that have lines to find apply in file order: each one's edit starts where the one before
/// it ended, or later.
pub proof fn chunks_apply_in_file_order(
    lines: Seq<Seq<char>>,
    chunks: Seq<parser::ChunkView>,
    k: int,
    from: int,
    path: Seq<char>,
)
    requires
        0 <= k <= chunks.len(),
        0 <= from <= lines.len(),
        forall|i: int|
            k <= i < chunks.len() ==> (#[trigger] chunks[i]).old_lines.len() > 0,
    ensures
        edits_from(lines, chunks, k, from, path) matches Ok(edits) ==> {
            &&& edits.len() == chunks.len() - k
            &&& edits_apart(edits, lines.len())
            &&& edits.len() > 0 ==> from <= edits[0].start
        },
    decreases chunks.len() - k,
{
    if k < chunks.len() && edits_from(lines, chunks, k, from, path) is Ok {
        let chunk = chunks[k];
        let begin = after_context(lines, chunk.change_context, from)->0;
        if let Some(c) = chunk.change_context {
            seek::found_lines_match(lines, seq![c], from, false, begin - 1);
        }
        let edit = chunk_edit(lines, chunk, begin)->0;
        let eof = chunk.is_end_of_file;
        match seek::sought(lines, chunk.old_lines, begin, eof) {
            Some(at) => {
                seek::found_lines_match(lines, chunk.old_lines, begin, eof, at);
            },
            None => {
                let old = chunk.old_lines.drop_last();
                if old.len() > 0 {
                    seek::found_lines_match(lines, old, begin, eof, edit.start);
                }
            },
        }
        let next = edit.start + edit.old_len;
        chunks_apply_in_file_order(lines, chunks, k + 1, next, path);
        let rest = edits_from(lines, chunks, k + 1, next, path)->Ok_0;
        let all = seq![edit] + rest;
        assert forall|i: int, j: int| 0 <= i < j < all.len() implies (#[trigger] all[i]).start
            + all[i].old_len <= (#[trigger] all[j]).start by {
            assert(all[j] == rest[j - 1]);
            if i > 0 {
                assert(all[i] == rest[i - 1]);
            } else if j > 1 {
                assert(rest[0].start + rest[0].old_len <= rest[j - 1].start);
            }
        }
        assert forall|i: int| 0 <= i < all.len() implies 0 <= (#[trigger] all[i]).start
            && all[i].start + all[i].old_len <= lines.len() by {
            if i > 0 {
                assert(all[i] == rest[i - 1]);
            }
        }
    }
}

// ---- showing and writing a plan -------------------------------------------------------------

/// A step of carrying a change out. A failure is reported for the path `blame`.
#[derive(Debug, PartialEq)]
pub enum FileOp {
    /// Make the directory and its parents.
    MakeDir { dir: String, blame: String },
    Write { path: String, contents: String },
    Remove { path: String },
}

/// The mathematical value of a [`FileOp`].
pub enum OpView {
    MakeDir { dir: Seq<char>, blame: Seq<char> },
    Write { path: Seq<char>, contents: Seq<char> },
    Remove { path: Seq<char> },
}

impl View for FileOp {
    type V = OpView;

    open spec fn view(&self) -> OpView {
        match self {
            FileOp::MakeDir { dir, blame } => OpView::MakeDir { dir: dir@, blame: blame@ },
            FileOp::Write { path, contents } => OpView::Write {
                path: path@,
                contents: contents@,
            },
            FileOp::Remove { path } => OpView::Remove { path: path@ },
        }
    }
}

pub open spec fn op_views(v: Seq<FileOp>) -> Seq<OpView> {
    Seq::new(v.len(), |i: int| v[i]@)
}

/// Writing a file: its directory first, when it has one.
pub open spec fn writing(path: Seq<char>, contents: Seq<char>) -> Seq<OpView> {
    let write = OpView::Write { path, contents };
    match paths::parent_of(path) {
        Some(dir) => seq![OpView::MakeDir { dir, blame: path }, write],
        None => seq![write],
    }
}

/// The steps of carrying a change out.
pub open spec fn steps_of(c: ChangeView) -> Seq<OpView> {
    match c {
        ChangeView::Add { path, contents } => writing(path, contents),
        ChangeView::Delete { path, .. } => seq![OpView::Remove { path }],
        ChangeView::Update { path, move_to, contents, .. } => match move_to {
            Some(dest) => writing(dest, contents).push(OpView::Remove { path }),
            None => writing(path, contents),
        },
    }
}

/// The text of a change's file before it, and after it.
pub open spec fn sides(c: ChangeView) -> (Seq<char>, Seq<char>) {
    match c {
        ChangeView::Add { contents, .. } => (seq![], contents),
        ChangeView::Delete { original, .. } => (original, seq![]),
        ChangeView::Update { original, contents, .. } => (original, contents),
    }
}

/// The one-line name of a change.
pub open spec fn label_of(c: ChangeView) -> Seq<char> {
    match c {
        ChangeView::Add { path, .. } => "A "@ + path,
        ChangeView::Delete { path, .. } => "D "@ + path,
        ChangeView::Update { path, move_to, .. } => match move_to {
            Some(dest) => "M "@ + path + " → "@ + dest,
            None => "M "@ + path,
        },
    }
}

/// The result line of a change: its name, and how many lines it added and removed.
pub open spec fn summary_of(c: ChangeView) -> Seq<char> {
    let tags = diff::tags_of(sides(c).0, sides(c).1);
    label_of(c) + " (+"@ + text::decimal(diff::tag_count(tags, true)) + " -"@ + text::decimal(
        diff::tag_count(tags, false),
    ) + ")"@
}

/// `s` ended by a newline.
pub open spec fn line_ended(s: Seq<char>) -> Seq<char> {
    if s.len() > 0 && s.last() == '\n' {
        s
    } else {
        s.push('\n')
    }
}

/// The preview of the changes `changes[..n]`: the name of each and its unified diff.
pub open spec fn preview(changes: Seq<ChangeView>, n: int) -> Seq<char>
    decreases n,
{
    if n <= 0 {
        seq![]
    } else {
        let c = changes[n - 1];
        line_ended(
            preview(changes, n - 1) + label_of(c) + "\n"@ + diff::unified_text(
                sides(c).0,
                sides(c).1,
                3,
                "before"@,
                "after"@,
            ),
        )
    }
}

pub open spec fn summaries(changes: Seq<ChangeView>) -> Seq<Seq<char>> {
    Seq::new(changes.len(), |i: int| summary_of(changes[i]))
}

fn write_steps(path: &str, contents: &str) -> (r: Vec<FileOp>)
    ensures
        op_views(r@) == writing(path@, contents@),
{
    let mut out: Vec<FileOp> = Vec::new();
    if let Some(dir) = paths::parent(path) {
        out.push(FileOp::MakeDir { dir, blame: path.to_string() });
    }
    out.push(FileOp::Write { path: path.to_string(), contents: contents.to_string() });
    assert(op_views(out@) =~= writing(path@, contents@));
    out
}

impl FileChange {
    /// The path the change writes to.
    pub fn target(&self) -> (r: &str)
        ensures
            r@ == target_of(self@),
    {
        match self {
            FileChange::Add { path, .. } => path.as_str(),
            FileChange::Delete { path, .. } => path.as_str(),
            FileChange::Update { path, move_to, .. } => match move_to {
                Some(dest) => dest.as_str(),
                None => path.as_str(),
            },
        }
    }

    /// Every path the change reads or writes: what to snapshot before applying.
    pub fn touched(&self) -> (r: Vec<String>)
        ensures
            text::views(r@) == touched_by(self@),
    {
        let mut out: Vec<String> = Vec::new();
        match self {
            FileChange::Add { path, .. } => {
                out.push(path.clone());
            },
            FileChange::Delete { path, .. } => {
                out.push(path.clone());
            },
            FileChange::Update { path, move_to, .. } => {
                out.push(path.clone());
                if let Some(dest) = move_to {
                    out.push(dest.clone());
                }
            },
        }
        assert(text::views(out@) =~= touched_by(self@));
        out
    }

    fn label(&self) -> (r: String)
        ensures
            r@ == label_of(self@),
    {
        match self {
            FileChange::Add { path, .. } => text::concat2("A ", path.as_str()),
            FileChange::Delete { path, .. } => text::concat2("D ", path.as_str()),
            FileChange::Update { path, move_to, .. } => match move_to {
                Some(dest) => {
                    let mut out = text::concat3("M ", path.as_str(), " → ");
                    out.append(dest.as_str());
                    out
                },
                None => text::concat2("M ", path.as_str()),
            },
        }
    }

    fn before_and_after(&self) -> (r: (&str, &str))
        ensures
            (r.0@, r.1@) == sides(self@),
    {
        proof {
            reveal_strlit("");
            assert(""@ =~= Seq::<char>::empty());
        }
        match self {
            FileChange::Add { contents, .. } => ("", contents.as_str()),
            FileChange::Delete { original, .. } => (original.as_str(), ""),
            FileChange::Update { original, contents, .. } => (original.as_str(), contents.as_str()),
        }
    }

    /// Lines added and removed, for the one-line result summary.
    fn line_delta(&self) -> (r: (usize, usize))
        ensures
            ({
                let tags = diff::tags_of(sides(self@).0, sides(self@).1);
                r.0 == diff::tag_count(tags, true) && r.1 == diff::tag_count(tags, false)
            }),
    {
        let (before, after) = self.before_and_after();
        diff::count_tags(&diff::changes(before, after))
    }

    /// The result line of the change.
    pub fn summary(&self) -> (r: String)
        ensures
            r@ == summary_of(self@),
    {
        let (added, removed) = self.line_delta();
        let mut out = self.label();
        out.append(" (+");
        out.append(text::decimal_of(added as u64).as_str());
        out.append(" -");
        out.append(text::decimal_of(removed as u64).as_str());
        out.append(")");
        out
    }

    /// The steps of carrying the change out, in order.
    pub fn operations(&self) -> (r: Vec<FileOp>)
        ensures
            op_views(r@) == steps_of(self@),
    {
        match self {
            FileChange::Add { path, contents } => write_steps(path.as_str(), contents.as_str()),
            FileChange::Delete { path, .. } => {
                let mut out: Vec<FileOp> = Vec::new();
                out.push(FileOp::Remove { path: path.clone() });
                assert(op_views(out@) =~= steps_of(self@));
                out
            },
            FileChange::Update { path, move_to, contents, .. } => match move_to {
                Some(dest) => {
                    let mut out = write_steps(dest.as_str(), contents.as_str());
                    let ghost before = out@;
                    out.push(FileOp::Remove { path: path.clone() });
                    assert(op_views(out@) =~= op_views(before).push(
                        OpView::Remove { path: path@ },
                    ));
                    out
                },
                None => write_steps(path.as_str(), contents.as_str()),
            },
        }
    }
}

/// The error of a step that failed for `path`.
pub fn io_err(path: &str, cause: &str) -> (r: PatchError)
    ensures
        r@ == PatchErrorView::Io(path@ + ": "@ + cause@),
{
    PatchError::Io(text::concat3(path, ": ", cause))
}

impl Plan {
    pub fn is_empty(&self) -> (r: bool)
        ensures
            r == (self.changes@.len() == 0),
    {
        self.changes.len() == 0
    }

    /// A unified diff of the whole patch, for the approval prompt.
    pub fn diff(&self) -> (r: String)
        ensures
            r@ == preview(change_views(self.changes@), self.changes@.len() as int),
    {
        let ghost cs = change_views(self.changes@);
        let mut out = String::new();
        let mut i: usize = 0;
        assert(out@ =~= preview(cs, 0));
        while i < self.changes.len()
            invariant
                0 <= i <= self.changes@.len(),
                cs == change_views(self.changes@),
                out@ == preview(cs, i as int),
            decreases self.changes@.len() - i,
        {
            let change = &self.changes[i];
            assert(cs[i as int] == change@);
            out.append(change.label().as_str());
            out.append("\n");
            let (before, after) = change.before_and_after();
            out.append(diff::unified_diff(before, after, 3, "before", "after").as_str());
            let n = out.as_str().unicode_len();
            if n == 0 || out.as_str().get_char(n - 1) != '\n' {
                out.push('\n');
            }
            i += 1;
        }
        out
    }

    /// What was done, one line for each change.
    pub fn summary(&self) -> (r: String)
        ensures
            r@ == text::joined(summaries(change_views(self.changes@)), "\n"@),
    {
        let ghost cs = change_views(self.changes@);
        let mut lines: Vec<String> = Vec::new();
        let mut i: usize = 0;
        while i < self.changes.len()
            invariant
                0 <= i <= self.changes@.len(),
                cs == change_views(self.changes@),
                text::views(lines@) == summaries(cs).take(i as int),
            decreases self.changes@.len() - i,
        {
            let ghost before = lines@;
            lines.push(self.changes[i].summary());
            assert(summaries(cs).take(i + 1) =~= summaries(cs).take(i as int).push(
                summaries(cs)[i as int],
            ));
            assert(text::views(lines@) =~= text::views(before).push(lines@.last()@));
            i += 1;
        }
        assert(summaries(cs).take(i as int) =~= summaries(cs));
        text::join(&lines, "\n")
    }
}

} // verus!
