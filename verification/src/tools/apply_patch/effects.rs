//! What a patch does to the files.

use crate::paths;
use crate::text;
use crate::tools::apply_patch as patching;
use crate::tools::apply_patch::grammar;
use crate::tools::apply_patch::parser::{ChunkView, HunkView};
use crate::tools::apply_patch::seek;
use crate::tools::apply_patch::{ChangeView, Edit, FileState, OpView, PatchErrorView};
use vstd::prelude::*;
use vstd::string::*;

verus! {

// ---- one file -------------------------------------------------------------------------------

/// The search for a chunk begins at `begin`: right behind the first line at or after `from` that is
/// the chunk's context, or at `from` where it has none.
pub open spec fn begins_at(
    lines: Seq<Seq<char>>,
    context: Option<Seq<char>>,
    from: int,
    begin: int,
) -> bool {
    match context {
        None => begin == from,
        Some(c) => {
            &&& from < begin <= lines.len()
            &&& lines[begin - 1] == c
            &&& forall|j: int| from <= j < begin - 1 ==> #[trigger] lines[j] != c
        },
    }
}

/// The chunk, searched at or after `from`, means the place `at`: its old lines stand there word for
/// word, at the very end where it is marked so, and else in no place before.
pub open spec fn means(lines: Seq<Seq<char>>, chunk: ChunkView, from: int, at: int) -> bool {
    &&& chunk.old_lines.len() > 0
    &&& seek::stands_at(lines, chunk.old_lines, at)
    &&& exists|begin: int| #[trigger]
        begins_at(lines, chunk.change_context, from, begin) && begin <= at && if chunk.is_end_of_file {
            at + chunk.old_lines.len() == lines.len()
        } else {
            forall|j: int| begin <= j < at ==> !seek::stands_at(lines, chunk.old_lines, j)
        }
}

/// Each of the chunks `chunks[k..]` means its place, searched behind the one before it.
pub open spec fn all_mean(
    lines: Seq<Seq<char>>,
    chunks: Seq<ChunkView>,
    at: Seq<int>,
    k: int,
    from: int,
) -> bool
    decreases chunks.len() - k,
{
    k < 0 || k >= chunks.len() || (means(lines, chunks[k], from, at[k]) && all_mean(
        lines,
        chunks,
        at,
        k + 1,
        at[k] + chunks[k].old_lines.len(),
    ))
}

/// The lines from `from` on with each of the chunks `chunks[k..]` carried out: what stands before its
/// place is kept, its new lines come in the place of its old ones.
pub open spec fn rewritten(
    lines: Seq<Seq<char>>,
    chunks: Seq<ChunkView>,
    at: Seq<int>,
    k: int,
    from: int,
) -> Seq<Seq<char>>
    decreases chunks.len() - k,
{
    if k < 0 || k >= chunks.len() {
        lines.skip(from)
    } else {
        lines.subrange(from, at[k]) + chunks[k].new_lines + rewritten(
            lines,
            chunks,
            at,
            k + 1,
            at[k] + chunks[k].old_lines.len(),
        )
    }
}

spec fn meant_edit(chunk: ChunkView, at: int) -> Edit {
    Edit { start: at, old_len: chunk.old_lines.len(), new_lines: chunk.new_lines }
}

spec fn meant_edits(chunks: Seq<ChunkView>, at: Seq<int>, k: int) -> Seq<Edit>
    decreases chunks.len() - k,
{
    if k < 0 || k >= chunks.len() {
        seq![]
    } else {
        seq![meant_edit(chunks[k], at[k])] + meant_edits(chunks, at, k + 1)
    }
}

proof fn lemma_found(lines: Seq<Seq<char>>, chunk: ChunkView, from: int, at: int)
    requires
        0 <= from,
        means(lines, chunk, from, at),
    ensures
        patching::after_context(lines, chunk.change_context, from) matches Some(begin)
            && patching::chunk_edit(lines, chunk, begin) == Some(meant_edit(chunk, at)),
        from <= at,
{
    let begin = choose|begin: int| #[trigger]
        begins_at(lines, chunk.change_context, from, begin) && begin <= at && if chunk.is_end_of_file {
            at + chunk.old_lines.len() == lines.len()
        } else {
            forall|j: int| begin <= j < at ==> !seek::stands_at(lines, chunk.old_lines, j)
        };
    if let Some(c) = chunk.change_context {
        assert(lines.subrange(begin - 1, begin) =~= seq![c]);
        assert forall|j: int| from <= j < begin - 1 implies !seek::stands_at(lines, seq![c], j) by {
            if seek::stands_at(lines, seq![c], j) {
                assert(lines.subrange(j, j + 1)[0] == lines[j]);
            }
        }
        seek::exact_match_wins(lines, seq![c], from, begin - 1);
    }
    if chunk.is_end_of_file {
        seek::an_anchored_match_is_found(lines, chunk.old_lines, begin);
    } else {
        seek::exact_match_wins(lines, chunk.old_lines, begin, at);
    }
}

proof fn lemma_edits(
    lines: Seq<Seq<char>>,
    chunks: Seq<ChunkView>,
    at: Seq<int>,
    k: int,
    from: int,
    path: Seq<char>,
)
    requires
        0 <= k <= chunks.len(),
        0 <= from <= lines.len(),
        all_mean(lines, chunks, at, k, from),
    ensures
        patching::edits_from(lines, chunks, k, from, path) == Ok::<Seq<Edit>, PatchErrorView>(
            meant_edits(chunks, at, k),
        ),
        patching::edits_apart(meant_edits(chunks, at, k), lines.len()),
        meant_edits(chunks, at, k).len() == chunks.len() - k,
        forall|i: int|
            0 <= i < chunks.len() - k ==> #[trigger] meant_edits(chunks, at, k)[i] == meant_edit(
                chunks[k + i],
                at[k + i],
            ),
        k < chunks.len() ==> from <= at[k],
        patching::woven(lines, meant_edits(chunks, at, k), 0, from) == rewritten(
            lines,
            chunks,
            at,
            k,
            from,
        ),
    decreases chunks.len() - k,
{
    if k < chunks.len() {
        lemma_found(lines, chunks[k], from, at[k]);
        let next = at[k] + chunks[k].old_lines.len();
        lemma_edits(lines, chunks, at, k + 1, next, path);
        let edit = meant_edit(chunks[k], at[k]);
        let rest = meant_edits(chunks, at, k + 1);
        let all = seq![edit] + rest;
        assert forall|i: int, j: int| 0 <= i < j < all.len() implies (#[trigger] all[i]).start
            + all[i].old_len <= (#[trigger] all[j]).start by {
            assert(all[j] == rest[j - 1]);
            if i > 0 {
                assert(all[i] == rest[i - 1]);
            } else if j > 1 {
                assert(rest[0].start + rest[0].old_len <= rest[j - 1].start);
            }
        }
        assert forall|i: int| 0 <= i < all.len() implies 0 <= (#[trigger] all[i]).start
            && all[i].start + all[i].old_len <= lines.len() by {
            if i > 0 {
                assert(all[i] == rest[i - 1]);
            }
        }
        lemma_woven_shift(lines, rest, edit, 0, next);
    }
}

/// Weaving from the second edit on does not see the first.
proof fn lemma_woven_shift(lines: Seq<Seq<char>>, rest: Seq<Edit>, first: Edit, i: int, from: int)
    requires
        0 <= i <= rest.len(),
    ensures
        patching::woven(lines, seq![first] + rest, i + 1, from) == patching::woven(
            lines,
            rest,
            i,
            from,
        ),
    decreases rest.len() - i,
{
    if i < rest.len() {
        assert((seq![first] + rest)[i + 1] == rest[i]);
        lemma_woven_shift(lines, rest, first, i + 1, rest[i].start + rest[i].old_len);
    }
}

/// Edits that do not overlap are in order already.
proof fn lemma_in_order(edits: Seq<Edit>, len: nat)
    requires
        patching::edits_apart(edits, len),
    ensures
        patching::in_order(edits) == edits,
    decreases edits.len(),
{
    if edits.len() > 0 {
        let init = edits.drop_last();
        assert forall|i: int, j: int| 0 <= i < j < init.len() implies (#[trigger] init[i]).start
            + init[i].old_len <= (#[trigger] init[j]).start by {
            assert(edits[i].start + edits[i].old_len <= edits[j].start);
        }
        assert forall|i: int| 0 <= i < init.len() implies 0 <= (#[trigger] init[i]).start
            && init[i].start + init[i].old_len <= len by {
            assert(init[i] == edits[i]);
        }
        lemma_in_order(init, len);
        if init.len() > 0 {
            assert(init.last() == edits[edits.len() - 2]);
            assert(edits[edits.len() - 2].start + edits[edits.len() - 2].old_len
                <= edits[edits.len() - 1].start);
        }
        assert(init.push(edits.last()) =~= edits);
    }
}

proof fn lemma_lines_ended(lines: Seq<Seq<char>>)
    ensures
        grammar::lines_ended(lines) == text::joined(lines.push(seq![]), "\n"@),
    decreases lines.len(),
{
    reveal_strlit("\n");
    assert("\n"@ =~= seq!['\n']);
    let all = lines.push(seq![]);
    assert(all.drop_last() =~= lines);
    if lines.len() > 0 {
        let init = lines.drop_last();
        lemma_lines_ended(init);
        if init.len() == 0 {
            assert(grammar::lines_ended(init) =~= seq![]);
            assert(text::joined(lines, "\n"@) =~= lines.last());
        } else {
            assert(init.push(seq![]).drop_last() =~= init);
            assert(text::joined(init.push(seq![]), "\n"@) =~= text::joined(init, "\n"@) + "\n"@);
        }
        assert(grammar::lines_ended(lines) =~= text::joined(lines, "\n"@) + "\n"@ + seq![]);
    }
}

/// The lines of a file whose every line is ended.
proof fn lemma_split_ended(lines: Seq<Seq<char>>)
    requires
        forall|i: int, k: int|
            0 <= i < lines.len() && 0 <= k < lines[i].len() ==> #[trigger] lines[i][k] != '\n',
    ensures
        text::split(grammar::lines_ended(lines), '\n') == lines.push(seq![]),
{
    reveal_strlit("\n");
    assert("\n"@ =~= seq!['\n']);
    let all = lines.push(seq![]);
    lemma_lines_ended(lines);
    assert forall|i: int, k: int| 0 <= i < all.len() && 0 <= k < all[i].len() implies #[trigger]
        all[i][k] != '\n' by {
        assert(all[i][k] == lines[i][k]);
    }
    text::joined_parts_split_again(all, '\n');
}

/// An update does to a file what its chunks say: where the old lines of each chunk stand in the file,
/// in order, its new lines come in their place, and every other line stays as it is, where it is.
pub proof fn chunks_replace_what_they_name(
    lines: Seq<Seq<char>>,
    chunks: Seq<ChunkView>,
    at: Seq<int>,
    path: Seq<char>,
)
    requires
        forall|i: int, k: int|
            0 <= i < lines.len() && 0 <= k < lines[i].len() ==> #[trigger] lines[i][k] != '\n',
        all_mean(lines, chunks, at, 0, 0),
    ensures
        patching::patched(grammar::lines_ended(lines), chunks, path) == Ok::<
            Seq<char>,
            PatchErrorView,
        >(grammar::lines_ended(rewritten(lines, chunks, at, 0, 0))),
{
    let original = grammar::lines_ended(lines);
    lemma_split_ended(lines);
    let split = text::split(original, '\n');
    assert(split.drop_last() =~= lines);
    assert(patching::without_blank_end(split) == lines);
    lemma_edits(lines, chunks, at, 0, 0, path);
    let edits = meant_edits(chunks, at, 0);
    lemma_in_order(edits, lines.len());
    patching::separate_edits_change_nothing_else(lines, edits);
    lemma_lines_ended(rewritten(lines, chunks, at, 0, 0));
}

proof fn lemma_rewritten_same(
    lines: Seq<Seq<char>>,
    chunks: Seq<ChunkView>,
    at: Seq<int>,
    k: int,
    from: int,
)
    requires
        0 <= k,
        0 <= from <= lines.len(),
        all_mean(lines, chunks, at, k, from),
        forall|i: int| k <= i < chunks.len() ==> (#[trigger] chunks[i]).new_lines
            == chunks[i].old_lines,
    ensures
        rewritten(lines, chunks, at, k, from) == lines.skip(from),
    decreases chunks.len() - k,
{
    if k < chunks.len() {
        lemma_found(lines, chunks[k], from, at[k]);
        let next = at[k] + chunks[k].old_lines.len();
        lemma_rewritten_same(lines, chunks, at, k + 1, next);
        assert(lines.subrange(from, at[k]) + lines.subrange(at[k], next) + lines.skip(next)
            =~= lines.skip(from));
    }
}

/// Chunks of context lines alone leave the file as it is.
pub proof fn context_alone_changes_nothing(
    lines: Seq<Seq<char>>,
    chunks: Seq<ChunkView>,
    at: Seq<int>,
    path: Seq<char>,
)
    requires
        forall|i: int, k: int|
            0 <= i < lines.len() && 0 <= k < lines[i].len() ==> #[trigger] lines[i][k] != '\n',
        all_mean(lines, chunks, at, 0, 0),
        forall|i: int| 0 <= i < chunks.len() ==> (#[trigger] chunks[i]).new_lines
            == chunks[i].old_lines,
    ensures
        patching::patched(grammar::lines_ended(lines), chunks, path) == Ok::<
            Seq<char>,
            PatchErrorView,
        >(grammar::lines_ended(lines)),
{
    chunks_replace_what_they_name(lines, chunks, at, path);
    lemma_rewritten_same(lines, chunks, at, 0, 0);
    assert(lines.skip(0) =~= lines);
}

/// A chunk that only adds puts its lines at the end of the file, before a blank last line.
pub proof fn additions_go_to_the_end(
    lines: Seq<Seq<char>>,
    added: Seq<Seq<char>>,
    path: Seq<char>,
)
    requires
        forall|i: int, k: int|
            0 <= i < lines.len() && 0 <= k < lines[i].len() ==> #[trigger] lines[i][k] != '\n',
    ensures
        ({
            let chunk = ChunkView {
                change_context: None,
                old_lines: seq![],
                new_lines: added,
                is_end_of_file: false,
            };
            patching::patched(grammar::lines_ended(lines), seq![chunk], path) == Ok::<
                Seq<char>,
                PatchErrorView,
            >(
                grammar::lines_ended(
                    if lines.len() > 0 && lines.last().len() == 0 {
                        lines.drop_last() + added + seq![lines.last()]
                    } else {
                        lines + added
                    },
                ),
            )
        }),
{
    let chunk = ChunkView {
        change_context: None,
        old_lines: seq![],
        new_lines: added,
        is_end_of_file: false,
    };
    let chunks = seq![chunk];
    let original = grammar::lines_ended(lines);
    lemma_split_ended(lines);
    assert(text::split(original, '\n').drop_last() =~= lines);
    let blank = lines.len() > 0 && lines.last().len() == 0;
    let at = if blank {
        lines.len() - 1
    } else {
        lines.len() as int
    };
    let edit = Edit { start: at, old_len: 0, new_lines: added };
    reveal_with_fuel(patching::edits_from, 2);
    assert(patching::edits_from(lines, chunks, 0, 0, path) == Ok::<Seq<Edit>, PatchErrorView>(
        seq![edit] + seq![],
    ));
    assert(seq![edit] + seq![] =~= seq![edit]);
    lemma_in_order(seq![edit], lines.len());
    reveal_with_fuel(patching::edited, 2);
    assert(seq![edit].drop_last() =~= seq![]);
    let all = if blank {
        lines.drop_last() + added + seq![lines.last()]
    } else {
        lines + added
    };
    assert(patching::spliced(lines, edit) =~= all);
    lemma_lines_ended(all);
}


// ---- the files of a patch -------------------------------------------------------------------

/// The files after a step.
pub open spec fn after_step(files: Map<Seq<char>, Seq<char>>, step: OpView) -> Map<
    Seq<char>,
    Seq<char>,
> {
    match step {
        OpView::MakeDir { .. } => files,
        OpView::Write { path, contents } => files.insert(path, contents),
        OpView::Remove { path } => files.remove(path),
    }
}

/// The files after the first `n` steps.
pub open spec fn after_steps(
    files: Map<Seq<char>, Seq<char>>,
    steps: Seq<OpView>,
    n: int,
) -> Map<Seq<char>, Seq<char>>
    decreases n,
{
    if n <= 0 {
        files
    } else {
        after_step(after_steps(files, steps, n - 1), steps[n - 1])
    }
}

/// Carrying a change out leaves a new file with its contents, no file where one is deleted, and an
/// updated file with its new contents, under its destination alone where it has one. Every other file
/// stays as it is.
pub proof fn carrying_out_a_change(files: Map<Seq<char>, Seq<char>>, c: ChangeView)
    requires
        c matches ChangeView::Update { path, move_to: Some(dest), .. } ==> dest != path,
    ensures
        ({
            let steps = patching::steps_of(c);
            let after = after_steps(files, steps, steps.len() as int);
            match c {
                ChangeView::Add { path, contents } => after == files.insert(path, contents),
                ChangeView::Delete { path, .. } => after == files.remove(path),
                ChangeView::Update { path, move_to: None, contents, .. } => after == files.insert(
                    path,
                    contents,
                ),
                ChangeView::Update { path, move_to: Some(dest), contents, .. } => after
                    == files.remove(path).insert(dest, contents),
            }
        }),
{
    reveal_with_fuel(after_steps, 4);
    let steps = patching::steps_of(c);
    let after = after_steps(files, steps, steps.len() as int);
    if let ChangeView::Update { path, move_to: Some(dest), contents, .. } = c {
        assert(after =~= files.remove(path).insert(dest, contents));
    }
}

/// The directory of a file that is written is made before the file.
pub proof fn a_directory_is_made_first(c: ChangeView, k: int)
    requires
        0 <= k < patching::steps_of(c).len(),
    ensures
        patching::steps_of(c)[k] matches OpView::Write { path, .. } ==> (paths::parent_of(
            path,
        ) matches Some(dir) ==> k > 0 && patching::steps_of(c)[k - 1] == (OpView::MakeDir {
            dir,
            blame: path,
        })),
{
}

proof fn lemma_settled_plain(parts: Seq<paths::Part>, i: int, names: Seq<Seq<char>>)
    requires
        0 <= i <= parts.len(),
        forall|k: int| 0 <= k < parts.len() ==> (#[trigger] parts[k]) is Normal,
    ensures
        patching::settled(parts, i, names) matches Some(r) && r.map_values(
            |n: Seq<char>| paths::Part::Normal(n),
        ) == names.map_values(|n: Seq<char>| paths::Part::Normal(n)) + parts.skip(i),
    decreases parts.len() - i,
{
    let f = |n: Seq<char>| paths::Part::Normal(n);
    if i < parts.len() {
        assert(parts[i] is Normal);
        let name = parts[i]->Normal_0;
        lemma_settled_plain(parts, i + 1, names.push(name));
        assert(names.push(name).map_values(f) + parts.skip(i + 1) =~= names.map_values(f)
            + parts.skip(i));
    } else {
        assert(names.map_values(f) + parts.skip(i) =~= names.map_values(f));
    }
}

/// A relative path of plain names resolves to the working directory followed by those names.
pub proof fn a_plain_path_resolves_below(cwd: Seq<char>, path: Seq<char>)
    requires
        !paths::absolute(path),
        forall|k: int| 0 <= k < paths::parts(path).len() ==> (#[trigger] paths::parts(path)[k]) is Normal,
    ensures
        patching::resolved(cwd, path) matches Ok(p) && paths::parts(p) == paths::parts(cwd)
            + paths::parts(path),
{
    let parts = paths::parts(path);
    lemma_settled_plain(parts, 0, seq![]);
    let names = patching::settled(parts, 0, seq![])->0;
    let f = |n: Seq<char>| paths::Part::Normal(n);
    patching::lemma_pieces_are_names(path, 0);
    patching::lemma_parts_are_names(text::split(path, '/'), 0);
    patching::lemma_settled_names(parts, 0, seq![]);
    patching::lemma_descended_parts(cwd, names);
    assert(Seq::<Seq<char>>::empty().map_values(f) + parts.skip(0) =~= parts);
    assert(names.map_values(f) == parts);
}

/// A hunk becomes the change that it names: an added file with the hunk's contents where none is yet,
/// a deletion, or an update of what the file holds, each at the hunk's own path.
pub proof fn a_change_does_what_its_hunk_says(cwd: Seq<char>, hunk: HunkView, state: FileState)
    ensures
        patching::hunk_change(cwd, hunk, state) matches Ok(c) ==> match hunk {
            HunkView::AddFile { path, contents } => {
                &&& !state.exists
                &&& c matches ChangeView::Add { path: at, contents: made }
                &&& made == contents
                &&& patching::resolved(cwd, path) == Ok::<Seq<char>, PatchErrorView>(at)
            },
            HunkView::DeleteFile { path } => {
                &&& c matches ChangeView::Delete { path: at, original }
                &&& state.text matches Ok(t)
                &&& original == t@
                &&& patching::resolved(cwd, path) == Ok::<Seq<char>, PatchErrorView>(at)
            },
            HunkView::UpdateFile { path, move_path, chunks } => {
                &&& c matches ChangeView::Update { path: at, move_to, original, contents }
                &&& state.text matches Ok(t)
                &&& original == t@
                &&& patching::resolved(cwd, path) == Ok::<Seq<char>, PatchErrorView>(at)
                &&& patching::patched(t@, chunks, at) == Ok::<Seq<char>, PatchErrorView>(contents)
                &&& move_to is Some <==> move_path is Some
                &&& move_path matches Some(m) ==> patching::resolved(cwd, m) == Ok::<
                    Seq<char>,
                    PatchErrorView,
                >(move_to->0)
            },
        },
{
}

/// A file that exists is not added again, and none is read where there is none.
pub proof fn a_hunk_that_does_not_fit_is_refused(
    cwd: Seq<char>,
    hunk: HunkView,
    state: FileState,
)
    ensures
        hunk is AddFile && state.exists ==> patching::hunk_change(cwd, hunk, state) is Err,
        !(hunk is AddFile) && state.text is Err ==> patching::hunk_change(cwd, hunk, state) is Err,
{
}

/// A patch that does not fit is refused with the file and with what was not found in it.
pub proof fn a_mismatch_is_told_exactly(
    path: Seq<char>,
    context: Seq<char>,
    lines: Seq<Seq<char>>,
)
    ensures
        patching::error_text(patching::context_missing(context, path))
            == "failed to find context '"@ + context + "' in "@ + path,
        patching::error_text(patching::lines_missing(lines, path))
            == "failed to find these lines in "@ + path + ":\n"@ + text::joined(lines, "\n"@),
{
}

} // verus!
