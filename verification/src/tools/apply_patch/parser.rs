//! Parses the `apply_patch` envelope into hunks. It validates the format only: whether the patch
//! *fits* the files on disk is decided later, in [`super::plan`].
//!
//! The grammar:
//!
//! ```text
//! patch      := "*** Begin Patch" LF hunk* "*** End Patch" LF?
//! hunk       := add | delete | update
//! add        := "*** Add File: " path LF ("+" line LF)*
//! delete     := "*** Delete File: " path LF
//! update     := "*** Update File: " path LF ("*** Move to: " path LF)? chunk*
//! chunk      := ("@@" | "@@ " context) LF ((" " | "+" | "-") line LF)* ("*** End of File" LF)?
//! ```
//!
//! Two deliberate leniencies: markers may carry surrounding whitespace, and an update hunk may omit
//! the leading `@@` for its first chunk (models routinely do).

use crate::text;
use vstd::prelude::*;
use vstd::string::*;

verus! {

pub const BEGIN_PATCH_MARKER: &'static str = "*** Begin Patch";

pub const END_PATCH_MARKER: &'static str = "*** End Patch";

pub const ADD_FILE_MARKER: &'static str = "*** Add File: ";

pub const DELETE_FILE_MARKER: &'static str = "*** Delete File: ";

pub const UPDATE_FILE_MARKER: &'static str = "*** Update File: ";

pub const MOVE_TO_MARKER: &'static str = "*** Move to: ";

pub const EOF_MARKER: &'static str = "*** End of File";

pub const CHANGE_CONTEXT_MARKER: &'static str = "@@ ";

pub const EMPTY_CHANGE_CONTEXT_MARKER: &'static str = "@@";

pub const HUNK_HEADER_HELP: &'static str =
    "is not a valid hunk header. Valid hunk headers: '*** Add File: {path}', '*** Delete File: {path}', '*** Update File: {path}'";

pub const DIFF_LINE_HELP: &'static str =
    "Every line should start with ' ' (context line), '+' (added line), or '-' (removed line)";

// ---- the parsed patch -----------------------------------------------------------------------

/// Why a patch could not be parsed. The messages are written for the model: they name the offending
/// line and what was expected, so the next attempt can be correct.
#[derive(Debug, Clone, PartialEq)]
pub enum ParseError {
    InvalidPatch(String),
    InvalidHunk { message: String, line_number: usize },
}

/// The mathematical value of a [`ParseError`].
pub enum ParseErrorView {
    InvalidPatch(Seq<char>),
    InvalidHunk { message: Seq<char>, line_number: nat },
}

impl View for ParseError {
    type V = ParseErrorView;

    open spec fn view(&self) -> ParseErrorView {
        match self {
            ParseError::InvalidPatch(m) => ParseErrorView::InvalidPatch(m@),
            ParseError::InvalidHunk { message, line_number } => ParseErrorView::InvalidHunk {
                message: message@,
                line_number: *line_number as nat,
            },
        }
    }
}

/// One file operation from the patch.
#[derive(Debug, Clone, PartialEq)]
pub enum Hunk {
    AddFile { path: String, contents: String },
    DeleteFile { path: String },
    UpdateFile {
        path: String,
        move_path: Option<String>,
        /// In file order: each chunk's context must appear after the previous chunk's.
        chunks: Vec<UpdateFileChunk>,
    },
}

/// The mathematical value of a [`Hunk`].
pub enum HunkView {
    AddFile { path: Seq<char>, contents: Seq<char> },
    DeleteFile { path: Seq<char> },
    UpdateFile { path: Seq<char>, move_path: Option<Seq<char>>, chunks: Seq<ChunkView> },
}

/// A contiguous edit inside an update hunk.
#[derive(Debug, Clone, PartialEq)]
pub struct UpdateFileChunk {
    /// A `@@`-marked line (usually a function or class header) used to narrow where to search.
    pub change_context: Option<String>,
    /// Lines to find, and what to put in their place.
    pub old_lines: Vec<String>,
    pub new_lines: Vec<String>,
    /// The chunk must match at the end of the file.
    pub is_end_of_file: bool,
}

/// The mathematical value of an [`UpdateFileChunk`].
#[verifier::ext_equal]
pub struct ChunkView {
    pub change_context: Option<Seq<char>>,
    pub old_lines: Seq<Seq<char>>,
    pub new_lines: Seq<Seq<char>>,
    pub is_end_of_file: bool,
}

impl View for UpdateFileChunk {
    type V = ChunkView;

    open spec fn view(&self) -> ChunkView {
        ChunkView {
            change_context: text::opt_view(self.change_context),
            old_lines: text::views(self.old_lines@),
            new_lines: text::views(self.new_lines@),
            is_end_of_file: self.is_end_of_file,
        }
    }
}

/// The values of a sequence of chunks.
pub open spec fn chunk_views(chunks: Seq<UpdateFileChunk>) -> Seq<ChunkView> {
    Seq::new(chunks.len(), |i: int| chunks[i]@)
}

impl View for Hunk {
    type V = HunkView;

    open spec fn view(&self) -> HunkView {
        match self {
            Hunk::AddFile { path, contents } => HunkView::AddFile {
                path: path@,
                contents: contents@,
            },
            Hunk::DeleteFile { path } => HunkView::DeleteFile { path: path@ },
            Hunk::UpdateFile { path, move_path, chunks } => HunkView::UpdateFile {
                path: path@,
                move_path: text::opt_view(*move_path),
                chunks: chunk_views(chunks@),
            },
        }
    }
}

/// The values of a sequence of hunks.
pub open spec fn hunk_views(hunks: Seq<Hunk>) -> Seq<HunkView> {
    Seq::new(hunks.len(), |i: int| hunks[i]@)
}

impl ParseError {
    /// The message shown to the model.
    pub open spec fn message(e: ParseErrorView) -> Seq<char> {
        match e {
            ParseErrorView::InvalidPatch(m) => "invalid patch: "@ + m,
            ParseErrorView::InvalidHunk { message, line_number } => "invalid hunk at line "@
                + text::decimal(line_number) + ", "@ + message,
        }
    }

    /// The error in words.
    pub fn to_text(&self) -> (r: String)
        ensures
            r@ == ParseError::message(self@),
    {
        match self {
            ParseError::InvalidPatch(m) => text::concat2("invalid patch: ", m.as_str()),
            ParseError::InvalidHunk { message, line_number } => {
                let mut out = "invalid hunk at line ".to_string();
                out.append(text::decimal_of(*line_number as u64).as_str());
                out.append(", ");
                out.append(message.as_str());
                out
            },
        }
    }
}

impl Hunk {
    /// The path the hunk ends up affecting (the move destination for a rename).
    pub fn path(&self) -> (r: &str)
        ensures
            r@ == (match self@ {
                HunkView::AddFile { path, .. } => path,
                HunkView::DeleteFile { path } => path,
                HunkView::UpdateFile { path, move_path, .. } => match move_path {
                    Some(dest) => dest,
                    None => path,
                },
            }),
    {
        match self {
            Hunk::AddFile { path, .. } => path.as_str(),
            Hunk::DeleteFile { path } => path.as_str(),
            Hunk::UpdateFile { path, move_path, .. } => match move_path {
                Some(dest) => dest.as_str(),
                None => path.as_str(),
            },
        }
    }
}

// ---- what a patch means ---------------------------------------------------------------------

/// Where in the patch the parser stands.
#[derive(Clone, Copy)]
pub enum Mode {
    NotStarted,
    Started,
    AddFile,
    DeleteFile,
    UpdateFile { hunk_line_number: usize },
    Ended,
}

/// What has been read so far.
pub struct Progress {
    pub mode: Mode,
    pub hunks: Seq<HunkView>,
    /// The number of the line being read, counted from one.
    pub line_number: nat,
}

/// What a line can say between hunks.
pub enum Header {
    End,
    Add(Seq<char>),
    Delete(Seq<char>),
    Update(Seq<char>),
}

/// The header that the (trimmed) line `t` is, if it is one.
pub open spec fn header(t: Seq<char>) -> Option<Header> {
    if t == END_PATCH_MARKER@ {
        Some(Header::End)
    } else if text::begins(t, ADD_FILE_MARKER@) {
        Some(Header::Add(text::after(t, ADD_FILE_MARKER@.len() as int)))
    } else if text::begins(t, DELETE_FILE_MARKER@) {
        Some(Header::Delete(text::after(t, DELETE_FILE_MARKER@.len() as int)))
    } else if text::begins(t, UPDATE_FILE_MARKER@) {
        Some(Header::Update(text::after(t, UPDATE_FILE_MARKER@.len() as int)))
    } else {
        None
    }
}

pub open spec fn blank_chunk(change_context: Option<Seq<char>>) -> ChunkView {
    ChunkView {
        change_context,
        old_lines: seq![],
        new_lines: seq![],
        is_end_of_file: false,
    }
}

/// A chunk that holds no line yet.
pub open spec fn has_no_lines(c: ChunkView) -> bool {
    c.old_lines.len() == 0 && c.new_lines.len() == 0
}

/// The last chunk exists and holds no line yet.
pub open spec fn last_is_bare(chunks: Seq<ChunkView>) -> bool {
    chunks.len() > 0 && has_no_lines(chunks.last())
}

/// An update hunk's last chunk has been closed by the end-of-file marker.
pub open spec fn last_is_closed(chunks: Seq<ChunkView>) -> bool {
    chunks.len() > 0 && chunks.last().is_end_of_file
}

pub open spec fn hunk_error(message: Seq<char>, line_number: nat) -> ParseErrorView {
    ParseErrorView::InvalidHunk { message, line_number }
}

pub open spec fn unexpected_line(line: Seq<char>) -> Seq<char> {
    "Unexpected line found in update hunk: '"@ + line + "'. "@ + DIFF_LINE_HELP@
}

pub open spec fn context_expected(line: Seq<char>) -> Seq<char> {
    "Expected update hunk to start with a @@ context marker, got: '"@ + line + "'"@
}

pub open spec fn bad_header(t: Seq<char>, line_number: nat) -> ParseErrorView {
    hunk_error("'"@ + t + "' "@ + HUNK_HEADER_HELP@, line_number)
}

pub open spec fn missing_begin() -> ParseErrorView {
    ParseErrorView::InvalidPatch("The first line of the patch must be '*** Begin Patch'"@)
}

pub open spec fn missing_end() -> ParseErrorView {
    ParseErrorView::InvalidPatch("The last line of the patch must be '*** End Patch'"@)
}

/// Why the header line `t` may not follow here: an update hunk must have got a line by now.
pub open spec fn unfinished_update(p: Progress, t: Seq<char>) -> Option<ParseErrorView> {
    if p.hunks.len() == 0 {
        None
    } else {
        match p.hunks.last() {
            HunkView::UpdateFile { path, chunks, .. } => {
                if chunks.len() == 0 && p.mode is UpdateFile {
                    Some(
                        hunk_error(
                            "Update file hunk for path '"@ + path + "' is empty"@,
                            p.mode->hunk_line_number as nat,
                        ),
                    )
                } else if last_is_bare(chunks) {
                    Some(
                        hunk_error(
                            if t == END_PATCH_MARKER@ {
                                "Update hunk does not contain any lines"@
                            } else {
                                unexpected_line(t)
                            },
                            p.line_number,
                        ),
                    )
                } else {
                    None
                }
            },
            _ => None,
        }
    }
}

/// What the header `h` does.
pub open spec fn after_header(p: Progress, h: Header) -> Progress {
    match h {
        Header::End => Progress { mode: Mode::Ended, ..p },
        Header::Add(path) => Progress {
            mode: Mode::AddFile,
            hunks: p.hunks.push(HunkView::AddFile { path, contents: seq![] }),
            ..p
        },
        Header::Delete(path) => Progress {
            mode: Mode::DeleteFile,
            hunks: p.hunks.push(HunkView::DeleteFile { path }),
            ..p
        },
        Header::Update(path) => Progress {
            mode: Mode::UpdateFile { hunk_line_number: p.line_number as usize },
            hunks: p.hunks.push(HunkView::UpdateFile { path, move_path: None, chunks: seq![] }),
            ..p
        },
    }
}

/// What a diff line removes and adds: its text without the leading mark, on either side or both.
pub open spec fn diff_line(line: Seq<char>) -> Option<(Option<Seq<char>>, Option<Seq<char>>)> {
    if line.len() == 0 {
        Some((Some(line), Some(line)))
    } else if line[0] == ' ' {
        Some((Some(text::after(line, 1)), Some(text::after(line, 1))))
    } else if line[0] == '+' {
        Some((None, Some(text::after(line, 1))))
    } else if line[0] == '-' {
        Some((Some(text::after(line, 1)), None))
    } else {
        None
    }
}

pub open spec fn with_optional(lines: Seq<Seq<char>>, line: Option<Seq<char>>) -> Seq<Seq<char>> {
    match line {
        Some(l) => lines.push(l),
        None => lines,
    }
}

/// The chunks after a diff line. The first chunk may be implicit.
pub open spec fn with_diff_line(
    chunks: Seq<ChunkView>,
    removed: Option<Seq<char>>,
    added: Option<Seq<char>>,
) -> Seq<ChunkView> {
    let open = if chunks.len() == 0 {
        seq![blank_chunk(None)]
    } else {
        chunks
    };
    let last = open.last();
    open.drop_last().push(
        ChunkView {
            old_lines: with_optional(last.old_lines, removed),
            new_lines: with_optional(last.new_lines, added),
            ..last
        },
    )
}

/// The line opens a chunk.
pub open spec fn is_context_marker(t: Seq<char>) -> bool {
    t == EMPTY_CHANGE_CONTEXT_MARKER@ || text::begins(t, CHANGE_CONTEXT_MARKER@)
}

/// An update hunk's destination and chunks after one of its lines, which is no header.
pub open spec fn after_update_line(
    move_path: Option<Seq<char>>,
    chunks: Seq<ChunkView>,
    line: Seq<char>,
    line_number: nat,
) -> Result<(Option<Seq<char>>, Seq<ChunkView>), ParseErrorView> {
    let t = text::trimmed_end(line);
    if last_is_closed(chunks) && t.len() == 0 {
        Ok((move_path, chunks))
    } else if last_is_closed(chunks) && !is_context_marker(t) {
        Err(hunk_error(context_expected(line), line_number))
    } else if chunks.len() == 0 && move_path is None && text::begins(t, MOVE_TO_MARKER@) {
        Ok((Some(text::after(t, MOVE_TO_MARKER@.len() as int)), chunks))
    } else if is_context_marker(t) && last_is_bare(chunks) {
        Err(hunk_error(unexpected_line(line), line_number))
    } else if t == EMPTY_CHANGE_CONTEXT_MARKER@ {
        Ok((move_path, chunks.push(blank_chunk(None))))
    } else if text::begins(t, CHANGE_CONTEXT_MARKER@) {
        Ok(
            (
                move_path,
                chunks.push(blank_chunk(Some(text::after(t, CHANGE_CONTEXT_MARKER@.len() as int)))),
            ),
        )
    } else if t == EOF_MARKER@ {
        if chunks.len() == 0 || last_is_bare(chunks) {
            Err(hunk_error("Update hunk does not contain any lines"@, line_number))
        } else {
            Ok(
                (
                    move_path,
                    chunks.drop_last().push(ChunkView { is_end_of_file: true, ..chunks.last() }),
                ),
            )
        }
    } else {
        match diff_line(line) {
            Some((removed, added)) => Ok((move_path, with_diff_line(chunks, removed, added))),
            None => Err(
                hunk_error(
                    if chunks.len() > 0 && !has_no_lines(chunks.last()) {
                        context_expected(line)
                    } else {
                        unexpected_line(line)
                    },
                    line_number,
                ),
            ),
        }
    }
}

/// A line inside an update hunk.
pub open spec fn in_update(p: Progress, line: Seq<char>) -> Result<Progress, ParseErrorView> {
    if p.hunks.len() == 0 {
        Err(hunk_error(unexpected_line(line), p.line_number))
    } else {
        match p.hunks.last() {
            HunkView::UpdateFile { path, move_path, chunks } => match after_update_line(
                move_path,
                chunks,
                line,
                p.line_number,
            ) {
                Ok((dest, new_chunks)) => Ok(
                    Progress {
                        hunks: p.hunks.drop_last().push(
                            HunkView::UpdateFile { path, move_path: dest, chunks: new_chunks },
                        ),
                        ..p
                    },
                ),
                Err(e) => Err(e),
            },
            _ => Err(hunk_error(unexpected_line(line), p.line_number)),
        }
    }
}

/// A line inside an added file.
pub open spec fn in_add(p: Progress, line: Seq<char>) -> Result<Progress, ParseErrorView> {
    if line.len() > 0 && line[0] == '+' && p.hunks.len() > 0 && p.hunks.last() is AddFile {
        let path = p.hunks.last()->AddFile_path;
        let contents = p.hunks.last()->contents + text::after(line, 1) + seq!['\n'];
        Ok(Progress { hunks: p.hunks.drop_last().push(HunkView::AddFile { path, contents }), ..p })
    } else {
        Err(bad_header(text::trimmed(line), p.line_number))
    }
}

/// What the parser tests for a marker. Inside an update hunk an indented line is a context line, so
/// only its end is trimmed there.
pub open spec fn marker_text(mode: Mode, line: Seq<char>) -> Seq<char> {
    if mode is UpdateFile {
        text::trimmed_end(line)
    } else {
        text::trimmed(line)
    }
}

/// What one line does.
pub open spec fn after_line(p: Progress, line: Seq<char>) -> Result<Progress, ParseErrorView> {
    let t = marker_text(p.mode, line);
    match p.mode {
        Mode::NotStarted => if t == BEGIN_PATCH_MARKER@ {
            Ok(Progress { mode: Mode::Started, ..p })
        } else {
            Err(missing_begin())
        },
        Mode::Ended => if t.len() == 0 {
            Ok(p)
        } else {
            Err(
                ParseErrorView::InvalidPatch(
                    "Unexpected line after the end of the patch: '"@ + t + "'"@,
                ),
            )
        },
        _ => match header(t) {
            Some(h) => match unfinished_update(p, t) {
                Some(e) => Err(e),
                None => Ok(after_header(p, h)),
            },
            None => match p.mode {
                Mode::AddFile => in_add(p, line),
                Mode::UpdateFile { .. } => in_update(p, line),
                _ => Err(bad_header(t, p.line_number)),
            },
        },
    }
}

/// What the lines from the next one on do.
pub open spec fn after_lines(p: Progress, lines: Seq<Seq<char>>) -> Result<Progress, ParseErrorView>
    decreases lines.len(),
{
    if lines.len() == 0 {
        Ok(p)
    } else {
        match after_line(Progress { line_number: p.line_number + 1, ..p }, lines[0]) {
            Ok(q) => after_lines(q, lines.subrange(1, lines.len() as int)),
            Err(e) => Err(e),
        }
    }
}

pub open spec fn unstarted() -> Progress {
    Progress { mode: Mode::NotStarted, hunks: seq![], line_number: 0 }
}

/// The lines with the last one, the end of the patch, trimmed: it ends the patch though it is
/// indented.
pub open spec fn end_unindented(lines: Seq<Seq<char>>) -> Seq<Seq<char>> {
    if lines.len() > 0 {
        lines.drop_last().push(text::trimmed(lines.last()))
    } else {
        lines
    }
}

/// The hunks that the lines of a patch say.
pub open spec fn hunks_of(lines: Seq<Seq<char>>) -> Result<Seq<HunkView>, ParseErrorView> {
    match after_lines(unstarted(), end_unindented(lines)) {
        Ok(p) => if p.mode is Ended {
            Ok(p.hunks)
        } else {
            Err(missing_end())
        },
        Err(e) => Err(e),
    }
}

/// Why the lines are not delimited as a patch.
pub open spec fn boundary_error(lines: Seq<Seq<char>>) -> Option<ParseErrorView> {
    if lines.len() > 0 && text::trimmed(lines[0]) != BEGIN_PATCH_MARKER@ {
        Some(missing_begin())
    } else if lines.len() > 0 && text::trimmed(lines.last()) == END_PATCH_MARKER@ {
        None
    } else {
        Some(missing_end())
    }
}

/// The lines are a shell here-document with the delimiter `EOF`.
pub open spec fn is_heredoc(lines: Seq<Seq<char>>) -> bool {
    &&& lines.len() >= 4
    &&& lines[0] == "<<EOF"@ || lines[0] == "<<'EOF'"@ || lines[0] == "<<\"EOF\""@
    &&& text::ends(lines.last(), "EOF"@)
}

/// The lines between the delimiters of a here-document, or all of them.
pub open spec fn unwrapped(lines: Seq<Seq<char>>) -> Result<Seq<Seq<char>>, ParseErrorView> {
    match boundary_error(lines) {
        None => Ok(lines),
        Some(outer) => if is_heredoc(lines) {
            let inner = lines.subrange(1, lines.len() - 1);
            match boundary_error(inner) {
                None => Ok(inner),
                Some(e) => Err(e),
            }
        } else {
            Err(outer)
        },
    }
}

/// What a whole patch says.
pub open spec fn patch_meaning(patch: Seq<char>) -> Result<Seq<HunkView>, ParseErrorView> {
    match unwrapped(text::lines_of(text::trimmed(patch))) {
        Ok(lines) => hunks_of(lines),
        Err(e) => Err(e),
    }
}

// ---- the parser -----------------------------------------------------------------------------

struct Parser {
    mode: Mode,
    hunks: Vec<Hunk>,
    line_number: usize,
}

fn new_chunk(change_context: Option<String>) -> (r: UpdateFileChunk)
    ensures
        r@ == blank_chunk(text::opt_view(change_context)),
{
    let chunk = UpdateFileChunk {
        change_context,
        old_lines: Vec::new(),
        new_lines: Vec::new(),
        is_end_of_file: false,
    };
    assert(chunk@ =~~= blank_chunk(text::opt_view(change_context)));
    chunk
}

fn unexpected_line_text(line: &str) -> (r: String)
    ensures
        r@ == unexpected_line(line@),
{
    let mut m = "Unexpected line found in update hunk: '".to_string();
    m.append(line);
    m.append("'. ");
    m.append(DIFF_LINE_HELP);
    m
}

fn context_expected_text(line: &str) -> (r: String)
    ensures
        r@ == context_expected(line@),
{
    text::concat3("Expected update hunk to start with a @@ context marker, got: '", line, "'")
}

fn missing_begin_error() -> (r: ParseError)
    ensures
        r@ == missing_begin(),
{
    ParseError::InvalidPatch("The first line of the patch must be '*** Begin Patch'".to_string())
}

fn missing_end_error() -> (r: ParseError)
    ensures
        r@ == missing_end(),
{
    ParseError::InvalidPatch("The last line of the patch must be '*** End Patch'".to_string())
}

/// Whether the line opens a chunk.
fn opens_chunk(t: &str) -> (r: bool)
    ensures
        r == is_context_marker(t@),
{
    text::same(t, EMPTY_CHANGE_CONTEXT_MARKER) || text::starts_with(t, CHANGE_CONTEXT_MARKER)
}

/// What a diff line removes and adds.
fn split_diff_line(line: &str) -> (r: Option<(Option<String>, Option<String>)>)
    ensures
        r matches Some((removed, added)) ==> diff_line(line@) == Some(
            (text::opt_view(removed), text::opt_view(added)),
        ),
        r is None ==> diff_line(line@) is None,
{
    let n = line.unicode_len();
    if n == 0 {
        assert(line@ =~= Seq::<char>::empty());
        let r = (Some(String::new()), Some(String::new()));
        return Some(r);
    }
    let mark = line.get_char(0);
    let rest = line.substring_char(1, n).to_string();
    if mark == ' ' {
        Some((Some(rest.clone()), Some(rest)))
    } else if mark == '+' {
        Some((None, Some(rest)))
    } else if mark == '-' {
        Some((Some(rest), None))
    } else {
        None
    }
}

/// Appends a diff line to the last chunk, opening the first one when there is none.
fn push_diff_line(chunks: &mut Vec<UpdateFileChunk>, removed: Option<String>, added: Option<String>)
    ensures
        chunk_views(final(chunks)@) == with_diff_line(
            chunk_views(old(chunks)@),
            text::opt_view(removed),
            text::opt_view(added),
        ),
{
    if chunks.len() == 0 {
        chunks.push(new_chunk(None));
        assert(chunk_views(chunks@) =~= seq![blank_chunk(None)]);
    }
    let ghost opened = chunk_views(chunks@);
    let n = chunks.len();
    let mut chunk = chunks.remove(n - 1);
    let ghost last = chunk@;
    assert(chunk_views(chunks@) =~= opened.drop_last());
    assert(last == opened.last());
    if let Some(line) = removed {
        let ghost lines = chunk.old_lines@;
        chunk.old_lines.push(line);
        assert(text::views(chunk.old_lines@) =~= text::views(lines).push(line@));
    }
    if let Some(line) = added {
        let ghost lines = chunk.new_lines@;
        chunk.new_lines.push(line);
        assert(text::views(chunk.new_lines@) =~= text::views(lines).push(line@));
    }
    let ghost kept = chunks@;
    chunks.push(chunk);
    proof {
        assert(chunk_views(chunks@) =~= chunk_views(kept).push(chunk@));
    }
}

/// One line of an update hunk that is no header.
fn update_line(
    move_path: &mut Option<String>,
    chunks: &mut Vec<UpdateFileChunk>,
    line: &str,
    line_number: usize,
) -> (r: Result<(), ParseError>)
    ensures
        ({
            let meant = after_update_line(
                text::opt_view(*old(move_path)),
                chunk_views(old(chunks)@),
                line@,
                line_number as nat,
            );
            match r {
                Ok(_) => meant == Ok::<_, ParseErrorView>(
                    (text::opt_view(*final(move_path)), chunk_views(final(chunks)@)),
                ),
                Err(e) => meant == Err::<(Option<Seq<char>>, Seq<ChunkView>), _>(e@),
            }
        }),
        r is Err ==> *final(move_path) == *old(move_path) && final(chunks)@ == old(chunks)@,
{
    let t = text::trim_end(line);
    let n = chunks.len();
    let ghost before = chunk_views(chunks@);

    // After `*** End of File`, only a new `@@` chunk (or a blank line) may follow.
    if n > 0 && chunks[n - 1].is_end_of_file {
        if t.unicode_len() == 0 {
            return Ok(());
        }
        if !opens_chunk(t) {
            return Err(
                ParseError::InvalidHunk { message: context_expected_text(line), line_number },
            );
        }
    }
    // `*** Move to:` must come before any chunk.
    if n == 0 && move_path.is_none() {
        if let Some(dest) = text::strip_prefix(t, MOVE_TO_MARKER) {
            *move_path = Some(dest.to_string());
            return Ok(());
        }
    }
    let last_chunk_is_empty = n > 0 && chunks[n - 1].old_lines.len() == 0 && chunks[n
        - 1].new_lines.len() == 0;
    if opens_chunk(t) && last_chunk_is_empty {
        return Err(ParseError::InvalidHunk { message: unexpected_line_text(line), line_number });
    }
    if text::same(t, EMPTY_CHANGE_CONTEXT_MARKER) {
        let ghost kept = chunks@;
        chunks.push(new_chunk(None));
        assert(chunk_views(chunks@) =~= before.push(blank_chunk(None)));
        return Ok(());
    }
    if let Some(context) = text::strip_prefix(t, CHANGE_CONTEXT_MARKER) {
        chunks.push(new_chunk(Some(context.to_string())));
        assert(chunk_views(chunks@) =~= before.push(blank_chunk(Some(context@))));
        return Ok(());
    }
    if text::same(t, EOF_MARKER) {
        if n == 0 || last_chunk_is_empty {
            return Err(
                ParseError::InvalidHunk {
                    message: "Update hunk does not contain any lines".to_string(),
                    line_number,
                },
            );
        }
        let mut chunk = chunks.remove(n - 1);
        assert(chunk_views(chunks@) =~= before.drop_last());
        chunk.is_end_of_file = true;
        let ghost kept = chunks@;
        chunks.push(chunk);
        assert(chunk_views(chunks@) =~= chunk_views(kept).push(chunk@));
        return Ok(());
    }
    // Diff lines.
    match split_diff_line(line) {
        Some((removed, added)) => {
            push_diff_line(chunks, removed, added);
            Ok(())
        },
        None => {
            let message = if n > 0 && !last_chunk_is_empty {
                context_expected_text(line)
            } else {
                unexpected_line_text(line)
            };
            Err(ParseError::InvalidHunk { message, line_number })
        },
    }
}

impl Parser {
    spec fn progress(self) -> Progress {
        Progress {
            mode: self.mode,
            hunks: hunk_views(self.hunks@),
            line_number: self.line_number as nat,
        }
    }

    /// An update hunk that never got any lines is a mistake worth reporting precisely; otherwise it
    /// would silently apply as a no-op.
    fn ensure_update_hunk_is_not_empty(&self, line: &str) -> (r: Result<(), ParseError>)
        ensures
            r is Ok ==> unfinished_update(self.progress(), line@) is None,
            r matches Err(e) ==> unfinished_update(self.progress(), line@) == Some(e@),
    {
        let n = self.hunks.len();
        if n == 0 {
            return Ok(());
        }
        assert(self.progress().hunks.last() == self.hunks@.last()@);
        match &self.hunks[n - 1] {
            Hunk::UpdateFile { path, chunks, .. } => {
                let k = chunks.len();
                if k == 0 {
                    if let Mode::UpdateFile { hunk_line_number } = self.mode {
                        return Err(
                            ParseError::InvalidHunk {
                                message: text::concat3(
                                    "Update file hunk for path '",
                                    path.as_str(),
                                    "' is empty",
                                ),
                                line_number: hunk_line_number,
                            },
                        );
                    }
                    return Ok(());
                }
                assert(chunk_views(chunks@).last() == chunks@.last()@);
                if chunks[k - 1].old_lines.len() == 0 && chunks[k - 1].new_lines.len() == 0 {
                    let message = if text::same(line, END_PATCH_MARKER) {
                        "Update hunk does not contain any lines".to_string()
                    } else {
                        unexpected_line_text(line)
                    };
                    return Err(
                        ParseError::InvalidHunk { message, line_number: self.line_number },
                    );
                }
                Ok(())
            },
            _ => Ok(()),
        }
    }

    fn push_hunk(&mut self, hunk: Hunk, mode: Mode)
        ensures
            final(self).progress() == (Progress {
                mode,
                hunks: old(self).progress().hunks.push(hunk@),
                line_number: old(self).progress().line_number,
            }),
    {
        let ghost before = self.hunks@;
        self.hunks.push(hunk);
        self.mode = mode;
        assert(hunk_views(self.hunks@) =~= hunk_views(before).push(hunk@));
    }

    /// Handle the markers that can appear between hunks. Returns true when the line was consumed.
    fn handle_header(&mut self, trimmed: &str) -> (r: Result<bool, ParseError>)
        ensures
            ({
                let before = old(self).progress();
                match header(trimmed@) {
                    None => r == Ok::<bool, ParseError>(false) && *final(self) == *old(self),
                    Some(h) => match unfinished_update(before, trimmed@) {
                        Some(e) => r is Err && r->Err_0@ == e && *final(self) == *old(self),
                        None => r == Ok::<bool, ParseError>(true) && final(self).progress()
                            == after_header(before, h),
                    },
                }
            }),
    {
        if text::same(trimmed, END_PATCH_MARKER) {
            self.ensure_update_hunk_is_not_empty(trimmed)?;
            self.mode = Mode::Ended;
            return Ok(true);
        }
        if let Some(path) = text::strip_prefix(trimmed, ADD_FILE_MARKER) {
            self.ensure_update_hunk_is_not_empty(trimmed)?;
            let hunk = Hunk::AddFile { path: path.to_string(), contents: String::new() };
            assert(hunk@->contents =~= Seq::<char>::empty());
            self.push_hunk(hunk, Mode::AddFile);
            return Ok(true);
        }
        if let Some(path) = text::strip_prefix(trimmed, DELETE_FILE_MARKER) {
            self.ensure_update_hunk_is_not_empty(trimmed)?;
            self.push_hunk(Hunk::DeleteFile { path: path.to_string() }, Mode::DeleteFile);
            return Ok(true);
        }
        if let Some(path) = text::strip_prefix(trimmed, UPDATE_FILE_MARKER) {
            self.ensure_update_hunk_is_not_empty(trimmed)?;
            let hunk = Hunk::UpdateFile {
                path: path.to_string(),
                move_path: None,
                chunks: Vec::new(),
            };
            assert(hunk@->chunks =~= Seq::<ChunkView>::empty());
            let mode = Mode::UpdateFile { hunk_line_number: self.line_number };
            self.push_hunk(hunk, mode);
            return Ok(true);
        }
        Ok(false)
    }

    fn bad_header(&self, trimmed: &str) -> (r: ParseError)
        ensures
            r@ == bad_header(trimmed@, self.line_number as nat),
    {
        let mut message = "'".to_string();
        message.append(trimmed);
        message.append("' ");
        message.append(HUNK_HEADER_HELP);
        ParseError::InvalidHunk { message, line_number: self.line_number }
    }

    fn process_line(&mut self, line: &str) -> (r: Result<(), ParseError>)
        ensures
            ({
                let meant = after_line(old(self).progress(), line@);
                match r {
                    Ok(_) => meant == Ok::<_, ParseErrorView>(final(self).progress()),
                    Err(e) => meant == Err::<Progress, _>(e@) && final(self).progress() == old(
                        self,
                    ).progress(),
                }
            }),
    {
        match self.mode {
            Mode::NotStarted => {
                if text::same(text::trim(line), BEGIN_PATCH_MARKER) {
                    self.mode = Mode::Started;
                    return Ok(());
                }
                Err(missing_begin_error())
            },
            Mode::Started => {
                let trimmed = text::trim(line);
                if self.handle_header(trimmed)? {
                    return Ok(());
                }
                Err(self.bad_header(trimmed))
            },
            Mode::DeleteFile => {
                let trimmed = text::trim(line);
                if self.handle_header(trimmed)? {
                    return Ok(());
                }
                Err(self.bad_header(trimmed))
            },
            Mode::AddFile => {
                let trimmed = text::trim(line);
                if self.handle_header(trimmed)? {
                    return Ok(());
                }
                self.process_add_line(line)
            },
            Mode::UpdateFile { .. } => {
                let trimmed = text::trim_end(line);
                if self.handle_header(trimmed)? {
                    return Ok(());
                }
                self.process_update_line(line)
            },
            Mode::Ended => {
                let trimmed = text::trim(line);
                if trimmed.unicode_len() == 0 {
                    Ok(())
                } else {
                    Err(
                        ParseError::InvalidPatch(
                            text::concat3(
                                "Unexpected line after the end of the patch: '",
                                trimmed,
                                "'",
                            ),
                        ),
                    )
                }
            },
        }
    }

    fn process_add_line(&mut self, line: &str) -> (r: Result<(), ParseError>)
        ensures
            ({
                let meant = in_add(old(self).progress(), line@);
                match r {
                    Ok(_) => meant == Ok::<_, ParseErrorView>(final(self).progress()),
                    Err(e) => meant == Err::<Progress, _>(e@) && final(self).progress() == old(
                        self,
                    ).progress(),
                }
            }),
    {
        let n = line.unicode_len();
        let k = self.hunks.len();
        let ghost before = hunk_views(self.hunks@);
        if n > 0 && line.get_char(0) == '+' && k > 0 {
            assert(before.last() == self.hunks@.last()@);
            let hunk = self.hunks.remove(k - 1);
            assert(hunk_views(self.hunks@) =~= before.drop_last());
            let ghost kept = self.hunks@;
            match hunk {
                Hunk::AddFile { path, mut contents } => {
                    contents.append(line.substring_char(1, n));
                    contents.push('\n');
                    let grown = Hunk::AddFile { path, contents };
                    proof {
                        assert(grown@->contents =~= before.last()->contents + text::after(line@, 1)
                            + seq!['\n']);
                    }
                    self.hunks.push(grown);
                    assert(hunk_views(self.hunks@) =~= hunk_views(kept).push(grown@));
                    return Ok(());
                },
                other => {
                    self.hunks.push(other);
                    assert(hunk_views(self.hunks@) =~= before);
                },
            }
        }
        Err(self.bad_header(text::trim(line)))
    }

    fn process_update_line(&mut self, line: &str) -> (r: Result<(), ParseError>)
        ensures
            ({
                let meant = in_update(old(self).progress(), line@);
                match r {
                    Ok(_) => meant == Ok::<_, ParseErrorView>(final(self).progress()),
                    Err(e) => meant == Err::<Progress, _>(e@) && final(self).progress() == old(
                        self,
                    ).progress(),
                }
            }),
    {
        let line_number = self.line_number;
        let k = self.hunks.len();
        let ghost before = hunk_views(self.hunks@);
        if k > 0 {
            assert(before.last() == self.hunks@.last()@);
            let hunk = self.hunks.remove(k - 1);
            assert(hunk_views(self.hunks@) =~= before.drop_last());
            let ghost kept = self.hunks@;
            match hunk {
                Hunk::UpdateFile { path, mut move_path, mut chunks } => {
                    let r = update_line(&mut move_path, &mut chunks, line, line_number);
                    let grown = Hunk::UpdateFile { path, move_path, chunks };
                    self.hunks.push(grown);
                    proof {
                        assert(hunk_views(self.hunks@) =~= hunk_views(kept).push(grown@));
                        if r is Err {
                            assert(hunk_views(self.hunks@) =~= before);
                        }
                    }
                    return r;
                },
                other => {
                    self.hunks.push(other);
                    assert(hunk_views(self.hunks@) =~= before);
                },
            }
        }
        Err(ParseError::InvalidHunk { message: unexpected_line_text(line), line_number })
    }
}

/// Runs the parser over the lines `lines[from..to]`.
fn run(lines: &Vec<&str>, from: usize, to: usize) -> (r: Result<Vec<Hunk>, ParseError>)
    requires
        from <= to <= lines@.len(),
    ensures
        ({
            let meant = hunks_of(text::views(lines@).subrange(from as int, to as int));
            match r {
                Ok(hunks) => meant == Ok::<_, ParseErrorView>(hunk_views(hunks@)),
                Err(e) => meant == Err::<Seq<HunkView>, _>(e@),
            }
        }),
{
    let ghost fed = end_unindented(text::views(lines@).subrange(from as int, to as int));
    let mut parser = Parser { mode: Mode::NotStarted, hunks: Vec::new(), line_number: 0 };
    assert(parser.progress().hunks =~= unstarted().hunks);
    let mut i: usize = from;
    assert(fed.skip(0) =~= fed);
    while i < to
        invariant
            from <= i <= to <= lines@.len(),
            fed == end_unindented(text::views(lines@).subrange(from as int, to as int)),
            parser.line_number == i - from,
            after_lines(unstarted(), fed) == after_lines(parser.progress(), fed.skip(i - from)),
        decreases to - i,
    {
        let ghost rest = fed.skip(i - from);
        parser.line_number += 1;
        let ghost here = parser.progress();
        let line = if i + 1 == to {
            text::trim(lines[i])
        } else {
            lines[i]
        };
        assert(rest[0] == line@);
        match parser.process_line(line) {
            Ok(_) => {},
            Err(e) => {
                return Err(e);
            },
        }
        proof {
            lemma_line_number_kept(here, line@);
            assert(rest.subrange(1, rest.len() as int) =~= fed.skip(i + 1 - from));
        }
        i += 1;
    }
    match parser.mode {
        Mode::Ended => Ok(parser.hunks),
        _ => Err(missing_end_error()),
    }
}

proof fn lemma_line_number_kept(p: Progress, line: Seq<char>)
    ensures
        after_line(p, line) matches Ok(q) ==> q.line_number == p.line_number,
{
}

/// Whether the lines `lines[from..to]` are delimited as a patch.
fn check_boundaries(lines: &Vec<&str>, from: usize, to: usize) -> (r: Result<(), ParseError>)
    requires
        from <= to <= lines@.len(),
    ensures
        ({
            let e = boundary_error(text::views(lines@).subrange(from as int, to as int));
            match r {
                Ok(_) => e is None,
                Err(x) => e == Some(x@),
            }
        }),
{
    if from < to && !text::same(text::trim(lines[from]), BEGIN_PATCH_MARKER) {
        return Err(missing_begin_error());
    }
    if from < to && text::same(text::trim(lines[to - 1]), END_PATCH_MARKER) {
        return Ok(());
    }
    Err(missing_end_error())
}

/// Parse a whole patch.
///
/// A patch wrapped in a heredoc (`<<'EOF' … EOF`) is unwrapped first: some models emit the shell
/// form even when the argument is passed directly.
pub fn parse_patch(patch: &str) -> (r: Result<Vec<Hunk>, ParseError>)
    ensures
        match r {
            Ok(hunks) => patch_meaning(patch@) == Ok::<_, ParseErrorView>(hunk_views(hunks@)),
            Err(e) => patch_meaning(patch@) == Err::<Seq<HunkView>, _>(e@),
        },
{
    let lines = text::lines(text::trim(patch));
    let n = lines.len();
    let ghost all = text::views(lines@);
    assert(all.subrange(0, n as int) =~= all);
    let outer = match check_boundaries(&lines, 0, n) {
        Ok(_) => {
            return run(&lines, 0, n);
        },
        Err(e) => e,
    };
    if n >= 4 && (text::same(lines[0], "<<EOF") || text::same(lines[0], "<<'EOF'") || text::same(
        lines[0],
        "<<\"EOF\"",
    )) && text::ends_with(lines[n - 1], "EOF") {
        match check_boundaries(&lines, 1, n - 1) {
            Ok(_) => run(&lines, 1, n - 1),
            Err(e) => Err(e),
        }
    } else {
        Err(outer)
    }
}

} // verus!
