//! `read` — read a file, optionally a line window, returned with line numbers.

use crate::engine::types;
use crate::engine::types::{ToolOutput, ToolSpec, ToolView};
use crate::json;
use crate::json::{Json, JsonSpec};
use crate::paths;
use crate::text;
use crate::tools;
use crate::tools::Risk;
use vstd::prelude::*;
use vstd::string::*;

verus! {

pub struct Read;

/// What the tool is advertised as.
pub open spec fn read_spec() -> ToolView {
    ToolView {
        name: "read"@,
        description: "Read a file's contents (optionally a line range), with line numbers."@,
        input_schema: tools::object_spec(
            json::pairs3(
                "path"@,
                tools::described_spec("string"@, "File path, absolute or relative to cwd."@),
                "offset"@,
                tools::described_spec("integer"@, "1-based first line to read."@),
                "limit"@,
                tools::described_spec("integer"@, "Max lines to read."@),
            ),
            Seq::empty().push("path"@),
        ),
    }
}

/// A line with its number, as the model sees it.
pub open spec fn numbered_line(n: int, line: Seq<char>) -> Seq<char> {
    text::right_aligned(text::decimal(n as nat), 6) + "\t"@ + line + "\n"@
}

/// The line number lies in the window that starts at `offset`.
pub open spec fn in_window(n: int, offset: int, limit: Option<u64>) -> bool {
    n >= offset && match limit {
        Some(lim) => n < offset + lim,
        None => true,
    }
}

/// Those of the first `n` lines that lie in the window, with their numbers.
pub open spec fn window_to(
    lines: Seq<Seq<char>>,
    offset: int,
    limit: Option<u64>,
    n: int,
) -> Seq<char>
    decreases n,
{
    if n <= 0 {
        seq![]
    } else if in_window(n, offset, limit) {
        window_to(lines, offset, limit, n - 1) + numbered_line(n, lines[n - 1])
    } else {
        window_to(lines, offset, limit, n - 1)
    }
}

/// The first line that the input asks for: the first of the file where it says nothing.
pub open spec fn offset_in(input: JsonSpec) -> int {
    match json::u64_in(json::field_or_null(input, "offset"@)) {
        Some(n) => if n >= 1 {
            n as int
        } else {
            1
        },
        None => 1,
    }
}

/// What the model is told of a file's content.
pub open spec fn shown(content: Seq<char>, input: JsonSpec) -> Seq<char> {
    let lines = text::lines_of(content);
    window_to(
        lines,
        offset_in(input),
        json::u64_in(json::field_or_null(input, "limit"@)),
        lines.len() as int,
    )
}

// ---- what holds of it -----------------------------------------------------------------------

/// How many of a file's `total` lines are shown from line `first` on, counted from one: as many as are
/// left, but no more than the limit where there is one.
pub open spec fn lines_shown(total: nat, first: int, limit: Option<u64>) -> nat {
    let left: nat = if first > total {
        0
    } else {
        (total - first + 1) as nat
    };
    match limit {
        Some(n) => if n < left {
            n as nat
        } else {
            left
        },
        None => left,
    }
}

/// The lines from line `first` on, so many of them, each written with its number.
pub open spec fn lines_numbered(lines: Seq<Seq<char>>, first: int, count: nat) -> Seq<Seq<char>> {
    Seq::new(
        count,
        |i: int|
            text::run_of(' ', 6 - text::decimal((first + i) as nat).len()) + text::decimal(
                (first + i) as nat,
            ) + seq!['\t'] + lines[first + i - 1] + seq!['\n'],
    )
}

proof fn lemma_window(lines: Seq<Seq<char>>, first: int, limit: Option<u64>, n: int)
    requires
        first >= 1,
        0 <= n <= lines.len(),
    ensures
        window_to(lines, first, limit, n) == lines_numbered(
            lines,
            first,
            lines_shown(n as nat, first, limit),
        ).flatten(),
    decreases n,
{
    reveal_strlit("\t");
    reveal_strlit("\n");
    let count = lines_shown(n as nat, first, limit);
    let shown = lines_numbered(lines, first, count);
    if n <= 0 {
        assert(shown =~= Seq::empty());
        assert(shown.flatten() =~= Seq::<char>::empty());
    } else {
        lemma_window(lines, first, limit, n - 1);
        let fewer = lines_numbered(lines, first, lines_shown((n - 1) as nat, first, limit));
        if in_window(n, first, limit) {
            let last = numbered_line(n, lines[n - 1]);
            assert("\t"@ =~= seq!['\t']);
            assert("\n"@ =~= seq!['\n']);
            assert(first + (count - 1) == n);
            assert(shown[count - 1] =~= last);
            assert(shown =~= fewer.push(last));
            fewer.lemma_flatten_push(last);
        } else {
            assert(shown =~= fewer);
        }
    }
}

/// Every line asked for is shown once, in order, with its number in front. The first is the one that
/// `offset` names, counted from one, or the first of the file; without a limit the last is the last of
/// the file, so that the whole file is shown where neither is given.
pub proof fn every_line_asked_for_is_shown(content: Seq<char>, input: JsonSpec)
    ensures
        ({
            let lines = text::lines_of(content);
            let limit = json::u64_in(json::field_or_null(input, "limit"@));
            let offset = json::u64_in(json::field_or_null(input, "offset"@));
            let first: int = if offset is Some && offset->0 > 0 {
                offset->0 as int
            } else {
                1
            };
            &&& shown(content, input) == lines_numbered(
                lines,
                first,
                lines_shown(lines.len(), first, limit),
            ).flatten()
            &&& offset is None && limit is None ==> lines_numbered(
                lines,
                first,
                lines_shown(lines.len(), first, limit),
            ).len() == lines.len()
        }),
{
    let lines = text::lines_of(content);
    lemma_window(
        lines,
        offset_in(input),
        json::u64_in(json::field_or_null(input, "limit"@)),
        lines.len() as int,
    );
}

/// Two windows that meet show what one window over both shows.
pub proof fn windows_join(lines: Seq<Seq<char>>, first: int, a: u64, b: u64)
    requires
        first >= 1,
        a + b <= u64::MAX,
        first + a <= u64::MAX,
    ensures
        window_to(lines, first, Some(a), lines.len() as int) + window_to(
            lines,
            first + a,
            Some(b),
            lines.len() as int,
        ) == window_to(lines, first, Some((a + b) as u64), lines.len() as int),
{
    let n = lines.len();
    lemma_window(lines, first, Some(a), n as int);
    lemma_window(lines, first + a, Some(b), n as int);
    lemma_window(lines, first, Some((a + b) as u64), n as int);
    let one = lines_numbered(lines, first, lines_shown(n, first, Some(a)));
    let two = lines_numbered(lines, first + a, lines_shown(n, first + a, Some(b)));
    let both = lines_numbered(lines, first, lines_shown(n, first, Some((a + b) as u64)));
    assert forall|i: int| 0 <= i < both.len() implies #[trigger] both[i] == (one + two)[i] by {
        if i >= one.len() {
            assert(first + i == first + a + (i - one.len()));
        }
    }
    assert(both =~= one + two);
    vstd::seq_lib::lemma_flatten_concat(one, two);
}

impl Read {
    pub fn spec(&self) -> (r: ToolSpec)
        ensures
            r@ == read_spec(),
    {
        let mut p = json::members();
        json::put(
            &mut p,
            "path",
            tools::described("string", "File path, absolute or relative to cwd."),
        );
        json::put(&mut p, "offset", tools::described("integer", "1-based first line to read."));
        json::put(&mut p, "limit", tools::described("integer", "Max lines to read."));
        tools::advertise(
            "read",
            "Read a file's contents (optionally a line range), with line numbers.",
            tools::object_schema(p, &tools::one_name("path")),
        )
    }

    pub fn risk(&self) -> (r: Risk)
        ensures
            r == Risk::ReadOnly,
    {
        Risk::ReadOnly
    }

    /// The file that the input names, or what the model is told where it names none.
    pub fn target(input: &Json, cwd: &str) -> (r: Result<String, ToolOutput>)
        ensures
            match (json::string_field(input.model(), "path"@), r) {
                (Some(path), Ok(full)) => full@ == paths::joined_path(cwd@, path),
                (None, Err(out)) => out@ == types::output_error("read: missing `path`"@),
                _ => false,
            },
    {
        match input.str_field("path") {
            Some(path) => Ok(paths::join(cwd, path)),
            None => Err(ToolOutput::error("read: missing `path`")),
        }
    }

    /// What the model is told of the file: the lines that the input asks for, with their numbers, or
    /// why it could not be read.
    pub fn finish(input: &Json, path: &str, content: Result<String, String>) -> (r: ToolOutput)
        ensures
            r@ == (match content {
                Ok(c) => types::output_ok(shown(c@, input.model())),
                Err(e) => types::output_error("read: "@ + path@ + ": "@ + e@),
            }),
    {
        let content = match content {
            Ok(c) => c,
            Err(e) => {
                let mut msg = text::concat3("read: ", path, ": ");
                msg.append(e.as_str());
                return ToolOutput::error(msg.as_str());
            },
        };
        let offset: u64 = match input.u64_field("offset") {
            Some(n) => if n >= 1 {
                n
            } else {
                1
            },
            None => 1,
        };
        let limit = input.u64_field("limit");
        let lines = text::lines(content.as_str());
        let ghost all = text::views(lines@);
        let mut out = String::new();
        assert(out@ =~= seq![]);
        let mut i: usize = 0;
        while i < lines.len()
            invariant
                0 <= i <= lines.len(),
                all == text::views(lines@),
                offset >= 1,
                out@ == window_to(all, offset as int, limit, i as int),
            decreases lines@.len() - i,
        {
            let n = i as u64 + 1;
            assert(all[i as int] == lines@[i as int]@);
            let wanted = n >= offset && match limit {
                Some(lim) => n - offset < lim,
                None => true,
            };
            if wanted {
                let ghost before = out@;
                let number = text::decimal_of(n);
                out.append(text::right_align(number.as_str(), 6).as_str());
                out.append("\t");
                out.append(lines[i]);
                out.append("\n");
                assert(out@ =~= before + numbered_line(i + 1, all[i as int]));
            }
            i += 1;
        }
        ToolOutput::ok(out.as_str())
    }
}

} // verus!
