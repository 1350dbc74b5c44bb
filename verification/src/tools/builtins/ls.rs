//! `ls` — list a directory's entries.

use crate::engine::types;
use crate::engine::types::{ToolOutput, ToolSpec, ToolView};
use crate::json;
use crate::json::Json;
use crate::paths;
use crate::text;
use crate::tools;
use crate::tools::Risk;
use vstd::prelude::*;
use vstd::string::*;

verus! {

broadcast use crate::text::views_push;

pub struct Ls;

/// What the tool is advertised as.
pub open spec fn ls_spec() -> ToolView {
    ToolView {
        name: "ls"@,
        description: "List the entries of a directory (defaults to cwd). Directories end with `/`."@,
        input_schema: tools::open_object_spec(
            json::pairs1(
                "path"@,
                tools::described_spec("string"@, "Directory; defaults to cwd."@),
            ),
        ),
    }
}

/// An entry of a directory.
pub struct DirEntry {
    pub name: String,
    pub is_dir: bool,
}

impl View for DirEntry {
    type V = Seq<char>;

    /// How the entry is listed: a directory's name ends with a slash.
    open spec fn view(&self) -> Seq<char> {
        if self.is_dir {
            self.name@ + "/"@
        } else {
            self.name@
        }
    }
}

/// The directory that an input names: the working directory where it names none.
pub open spec fn dir_in(input: crate::json::JsonSpec, cwd: Seq<char>) -> Seq<char> {
    match json::string_field(input, "path"@) {
        Some(path) => paths::joined_path(cwd, path),
        None => cwd,
    }
}

/// The directory that an input names: the working directory where it names none.
pub fn dir_of(input: &Json, cwd: &str) -> (r: String)
    ensures
        r@ == dir_in(input.model(), cwd@),
{
    match input.str_field("path") {
        Some(path) => paths::join(cwd, path),
        None => cwd.to_string(),
    }
}

impl Ls {
    pub fn spec(&self) -> (r: ToolSpec)
        ensures
            r@ == ls_spec(),
    {
        let mut p = json::members();
        json::put(&mut p, "path", tools::described("string", "Directory; defaults to cwd."));
        tools::advertise(
            "ls",
            "List the entries of a directory (defaults to cwd). Directories end with `/`.",
            tools::open_object(p),
        )
    }

    pub fn risk(&self) -> (r: Risk)
        ensures
            r == Risk::ReadOnly,
    {
        Risk::ReadOnly
    }

    /// What the model is told where the directory could not be read.
    pub fn unreadable(dir: &str, error: &str) -> (r: ToolOutput)
        ensures
            r@ == types::output_error("ls: "@ + dir@ + ": "@ + error@),
    {
        let mut msg = text::concat3("ls: ", dir, ": ");
        msg.append(error);
        ToolOutput::error(msg.as_str())
    }

    /// The listing: one entry to a line, in dictionary order.
    pub fn finish(entries: &Vec<DirEntry>) -> (r: ToolOutput)
        ensures
            if entries@.len() == 0 {
                r@ == types::output_ok("(empty)"@)
            } else {
                exists|listed: Seq<Seq<char>>| #[trigger]
                    text::is_sorting(listed, text::views(entries@)) && r@ == types::output_ok(
                        text::joined(listed, "\n"@),
                    )
            },
    {
        let ghost all = text::views(entries@);
        if entries.len() == 0 {
            return ToolOutput::ok("(empty)");
        }
        let mut names: Vec<String> = Vec::new();
        let mut i: usize = 0;
        while i < entries.len()
            invariant
                0 <= i <= entries@.len(),
                names@.len() == i,
                forall|k: int| 0 <= k < i ==> (#[trigger] names@[k])@ == entries@[k]@,
            decreases entries@.len() - i,
        {
            if entries[i].is_dir {
                names.push(text::concat2(entries[i].name.as_str(), "/"));
            } else {
                names.push(entries[i].name.clone());
            }
            i += 1;
        }
        assert(text::views(names@) =~= all);
        let listed = text::sort(&names);
        let out = text::join(&listed, "\n");
        assert(text::is_sorting(text::views(listed@), all));
        ToolOutput::ok(out.as_str())
    }
}

/// A directory is listed with a slash behind its name, any other entry with its name alone. The
/// working directory is listed unless a path is given, which is taken from there.
pub proof fn an_entry_is_listed_by_its_name(
    entry: DirEntry,
    input: crate::json::JsonSpec,
    cwd: Seq<char>,
)
    ensures
        entry.is_dir ==> entry@ == entry.name@.push('/'),
        !entry.is_dir ==> entry@ == entry.name@,
        json::field_or_null(input, "path"@) is Null ==> dir_in(input, cwd) == cwd,
{
    reveal_strlit("/");
    assert(entry.name@ + "/"@ =~= entry.name@.push('/'));
}

} // verus!
