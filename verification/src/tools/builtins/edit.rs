//! `edit` — exact single-occurrence string replacement in a file.
//!
//! The search string must match exactly once: zero matches or multiple matches are errors with
//! guidance, which forces the model to supply enough surrounding context to be unambiguous.

use crate::engine::types;
use crate::engine::types::{OutputView, ToolOutput, ToolSpec, ToolView};
use crate::json;
use crate::json::Json;
use crate::paths;
use crate::text;
use crate::tools;
use crate::tools::diff;
use crate::tools::{Ask, AskView, Risk};
use vstd::prelude::*;
use vstd::string::*;

verus! {

pub struct Edit;

/// What the tool is advertised as.
pub open spec fn edit_spec() -> ToolView {
    ToolView {
        name: "edit"@,
        description: "Replace an exact, unique string in a file with a new string. `old` must occur exactly once."@,
        input_schema: tools::object_spec(
            json::pairs3(
                "path"@,
                tools::typed_spec("string"@),
                "old"@,
                tools::described_spec(
                    "string"@,
                    "Exact text to replace; must be unique in the file."@,
                ),
                "new"@,
                tools::described_spec("string"@, "Replacement text."@),
            ),
            Seq::empty().push("path"@).push("old"@).push("new"@),
        ),
    }
}

/// A replacement that is to be made in a file.
pub struct EditPlan {
    pub path: String,
    pub old_text: String,
    pub new_text: String,
}

/// A file's content with the replacement made, and what is put to the permission gate for it.
pub struct Edited {
    pub updated: String,
    pub ask: Ask,
}

/// A compact diff between two texts for the permission preview.
pub open spec fn preview(before: Seq<char>, after: Seq<char>) -> Seq<char> {
    let changes = diff::line_changes(before, after);
    diff::signed_to(changes, changes.len() as int)
}

/// Why the replacement cannot be made: the text occurs nowhere, or more than once.
pub open spec fn refusal(path: Seq<char>, count: nat) -> OutputView {
    types::output_error(
        if count == 0 {
            "edit: `old` not found in "@ + path + ". Provide the exact existing text."@
        } else {
            "edit: `old` occurs "@ + text::decimal(count) + " times in "@ + path
                + "; add surrounding context to make it unique."@
        },
    )
}

/// Replacing the one occurrence changes that place and nothing else of the content.
pub proof fn an_edit_changes_one_place(content: Seq<char>, before: Seq<char>, after: Seq<char>)
    requires
        text::count_of(content, before) == 1,
    ensures
        exists|head: Seq<char>, tail: Seq<char>|
            content == #[trigger] (head + before + tail) && text::replaced_once(
                content,
                before,
                after,
            ) == head + after + tail,
{
    text::lemma_found_from(content, before, 0);
    if before.len() == 0 {
        assert(content.len() == 0);
        assert(content.subrange(0, 0) =~= before);
        assert(text::occurs_at(content, before, 0));
    } else {
        assert(text::count_from(content, before, 0) == 1);
    }
    assert(text::found(content, before) is Some);
    let k = text::found(content, before)->0;
    let head = content.subrange(0, k);
    let tail = text::after(content, k + before.len());
    assert(content =~= head + before + tail);
}

/// A number with its sign.
pub open spec fn with_sign(n: int) -> Seq<char> {
    if n >= 0 {
        "+"@ + text::decimal(n as nat)
    } else {
        "-"@ + text::decimal((-n) as nat)
    }
}

impl Edit {
    pub fn spec(&self) -> (r: ToolSpec)
        ensures
            r@ == edit_spec(),
    {
        let mut p = json::members();
        json::put(&mut p, "path", tools::typed("string"));
        json::put(
            &mut p,
            "old",
            tools::described("string", "Exact text to replace; must be unique in the file."),
        );
        json::put(&mut p, "new", tools::described("string", "Replacement text."));
        tools::advertise(
            "edit",
            "Replace an exact, unique string in a file with a new string. `old` must occur exactly once.",
            tools::object_schema(p, &tools::three_names("path", "old", "new")),
        )
    }

    pub fn risk(&self) -> (r: Risk)
        ensures
            r == Risk::Write,
    {
        Risk::Write
    }

    /// What the input asks to replace, or what the model is told where it asks for nothing.
    pub fn plan(input: &Json, cwd: &str) -> (r: Result<EditPlan, ToolOutput>)
        ensures
            match (
                json::string_field(input.model(), "path"@),
                json::string_field(input.model(), "old"@),
                json::string_field(input.model(), "new"@),
                r,
            ) {
                (Some(path), Some(before), Some(after), Ok(plan)) => {
                    &&& plan.path@ == paths::joined_path(cwd@, path)
                    &&& plan.old_text@ == before
                    &&& plan.new_text@ == after
                },
                (Some(_), Some(_), Some(_), Err(_)) => false,
                (_, _, _, Err(out)) => out@ == types::output_error(
                    "edit: requires `path`, `old`, `new`"@,
                ),
                _ => false,
            },
    {
        match (input.str_field("path"), input.str_field("old"), input.str_field("new")) {
            (Some(path), Some(before), Some(after)) => Ok(
                EditPlan {
                    path: paths::join(cwd, path),
                    old_text: before.to_string(),
                    new_text: after.to_string(),
                },
            ),
            _ => Err(ToolOutput::error("edit: requires `path`, `old`, `new`")),
        }
    }

    /// What the model is told where the edit is not allowed.
    pub fn denied() -> (r: ToolOutput)
        ensures
            r@ == types::output_error("edit: denied"@),
    {
        ToolOutput::error("edit: denied")
    }
}

impl EditPlan {
    /// The content with the one occurrence replaced, or what the model is told where there is none or
    /// more than one.
    pub fn apply(&self, content: &str) -> (r: Result<Edited, ToolOutput>)
        ensures
            match r {
                Ok(e) => {
                    &&& text::count_of(content@, self.old_text@) == 1
                    &&& e.updated@ == text::replaced_once(
                        content@,
                        self.old_text@,
                        self.new_text@,
                    )
                    &&& e.ask@ == (AskView {
                        risk: Risk::Write,
                        tool: "edit"@,
                        key: self.path@,
                        summary: "edit "@ + self.path@ + "\n"@ + preview(
                            self.old_text@,
                            self.new_text@,
                        ),
                    })
                },
                Err(out) => {
                    &&& text::count_of(content@, self.old_text@) != 1
                    &&& out@ == refusal(self.path@, text::count_of(content@, self.old_text@))
                },
            },
    {
        let count = text::count_matches(content, self.old_text.as_str());
        if count == 0 {
            let msg = text::concat3(
                "edit: `old` not found in ",
                self.path.as_str(),
                ". Provide the exact existing text.",
            );
            return Err(ToolOutput::error(msg.as_str()));
        }
        if count > 1 {
            let mut msg = "edit: `old` occurs ".to_string();
            msg.append(text::wide_decimal_of(count).as_str());
            msg.append(" times in ");
            msg.append(self.path.as_str());
            msg.append("; add surrounding context to make it unique.");
            return Err(ToolOutput::error(msg.as_str()));
        }
        let updated = text::replace_once(
            content,
            self.old_text.as_str(),
            self.new_text.as_str(),
        );
        let changes = diff::changes(self.old_text.as_str(), self.new_text.as_str());
        let shown = diff::signed_lines(&changes);
        let mut summary = text::concat3("edit ", self.path.as_str(), "\n");
        summary.append(shown.as_str());
        assert(text::views(changes@).len() == changes@.len());
        Ok(
            Edited {
                updated,
                ask: Ask { risk: Risk::Write, tool: "edit", key: self.path.clone(), summary },
            },
        )
    }

    /// What the model is told where the file could not be read.
    pub fn unreadable(&self, error: &str) -> (r: ToolOutput)
        ensures
            r@ == types::output_error("edit: "@ + self.path@ + ": "@ + error@),
    {
        let mut msg = text::concat3("edit: ", self.path.as_str(), ": ");
        msg.append(error);
        ToolOutput::error(msg.as_str())
    }

    /// What the model is told once the file is written, or why it could not be.
    pub fn finish(&self, written: Result<(), String>) -> (r: ToolOutput)
        ensures
            r@ == (match written {
                Ok(_) => types::output_ok(
                    "edited "@ + self.path@ + " (1 replacement, "@ + with_sign(
                        text::lines_of(self.new_text@).len() - text::lines_of(
                            self.old_text@,
                        ).len(),
                    ) + " lines)"@,
                ),
                Err(e) => types::output_error("edit: write "@ + self.path@ + ": "@ + e@),
            }),
    {
        match written {
            Err(e) => {
                let mut msg = text::concat3("edit: write ", self.path.as_str(), ": ");
                msg.append(e.as_str());
                ToolOutput::error(msg.as_str())
            },
            Ok(_) => {
                let new_lines = text::lines(self.new_text.as_str());
                let old_lines = text::lines(self.old_text.as_str());
                assert(text::views(new_lines@).len() == new_lines@.len());
                assert(text::views(old_lines@).len() == old_lines@.len());
                let after = new_lines.len() as u64;
                let before = old_lines.len() as u64;
                let mut msg = text::concat3(
                    "edited ",
                    self.path.as_str(),
                    " (1 replacement, ",
                );
                let delta = if after >= before {
                    text::concat2("+", text::decimal_of(after - before).as_str())
                } else {
                    text::concat2("-", text::decimal_of(before - after).as_str())
                };
                msg.append(delta.as_str());
                msg.append(" lines)");
                ToolOutput::ok(msg.as_str())
            },
        }
    }
}

/// The change in lines is told with its sign, and going one way is told as the reverse of the other.
pub proof fn a_change_in_lines_is_told_with_its_sign(n: nat)
    ensures
        with_sign(n as int) == "+"@ + text::decimal(n),
        n > 0 ==> with_sign(-n) == "-"@ + text::decimal(n),
{
}

/// A refused edit is an error that names the file, and says how often the text occurs where that is
/// more than once.
pub proof fn a_refused_edit_is_told_why(path: Seq<char>, count: nat)
    ensures
        refusal(path, count).is_error,
        count == 0 ==> exists|a: Seq<char>, b: Seq<char>|
            refusal(path, count).text == #[trigger] (a + path + b),
        count > 0 ==> exists|a: Seq<char>, b: Seq<char>, c: Seq<char>|
            refusal(path, count).text == #[trigger] (a + text::decimal(count) + b + path + c),
{
    let told = refusal(path, count).text;
    if count == 0 {
        assert(told == "edit: `old` not found in "@ + path
            + ". Provide the exact existing text."@);
    } else {
        assert(told == "edit: `old` occurs "@ + text::decimal(count) + " times in "@ + path
            + "; add surrounding context to make it unique."@);
    }
}

} // verus!
