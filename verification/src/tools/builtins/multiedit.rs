//! `multiedit` — apply several exact replacements to one file atomically.
//!
//! Each edit's `old` must match exactly once against the file as progressively edited. If any edit
//! fails to match uniquely, nothing is written.

use crate::engine::types;
use crate::engine::types::{ToolOutput, ToolSpec, ToolView};
use crate::json;
use crate::json::{Json, JsonSpec};
use crate::paths;
use crate::text;
use crate::tools;
use crate::tools::{Ask, AskView, Risk};
use vstd::prelude::*;
use vstd::string::*;

verus! {

pub struct MultiEdit;

/// What the tool is advertised as.
pub open spec fn multiedit_spec() -> ToolView {
    ToolView {
        name: "multiedit"@,
        description: DESCRIPTION@,
        input_schema: tools::object_spec(
            json::pairs2(
                "path"@,
                tools::typed_spec("string"@),
                "edits"@,
                JsonSpec::Object(
                    json::pairs2(
                        "type"@,
                        JsonSpec::Str("array"@),
                        "items"@,
                        tools::object_spec(
                            json::pairs2(
                                "old"@,
                                tools::typed_spec("string"@),
                                "new"@,
                                tools::typed_spec("string"@),
                            ),
                            Seq::empty().push("old"@).push("new"@),
                        ),
                    ),
                ),
            ),
            Seq::empty().push("path"@).push("edits"@),
        ),
    }
}

pub const DESCRIPTION: &'static str =
    "Apply a sequence of exact `old`->`new` replacements to a file atomically. Each `old` must be unique at the point it is applied.";

/// The content after the first `n` edits, or why one of them cannot be made.
pub open spec fn edited_to(content: Seq<char>, edits: Seq<JsonSpec>, n: int) -> Result<
    Seq<char>,
    Seq<char>,
>
    decreases n,
{
    if n <= 0 {
        Ok(content)
    } else {
        match edited_to(content, edits, n - 1) {
            Err(e) => Err(e),
            Ok(so_far) => one_edit(so_far, edits[n - 1], n - 1),
        }
    }
}

/// The content after the edit at position `i`, or why it cannot be made.
pub open spec fn one_edit(content: Seq<char>, edit: JsonSpec, i: int) -> Result<
    Seq<char>,
    Seq<char>,
> {
    let label = "multiedit: edit "@ + text::decimal(i as nat);
    match (json::string_field(edit, "old"@), json::string_field(edit, "new"@)) {
        (Some(before), Some(after)) => {
            let count = text::count_of(content, before);
            if count == 1 {
                Ok(text::replaced_once(content, before, after))
            } else if count == 0 {
                Err(label + ": `old` not found"@)
            } else {
                Err(label + ": `old` occurs "@ + text::decimal(count) + " times (not unique)"@)
            }
        },
        _ => Err(label + " needs `old` and `new`"@),
    }
}

/// The edits that are to be made in a file.
pub struct MultiPlan<'a> {
    pub path: String,
    pub edits: &'a Vec<Json>,
}

/// What the input asks for: a file and its edits, or what the model is told.
pub open spec fn request_in(input: JsonSpec) -> Result<(Seq<char>, Seq<JsonSpec>), Seq<char>> {
    match json::string_field(input, "path"@) {
        None => Err("multiedit: missing `path`"@),
        Some(path) => match json::items_in(json::field_or_null(input, "edits"@)) {
            None => Err("multiedit: `edits` must be an array"@),
            Some(edits) => Ok((path, edits)),
        },
    }
}

/// When one edit cannot be made, none is: the whole gives an error, whatever the other edits are.
pub proof fn edits_are_all_or_nothing(content: Seq<char>, edits: Seq<JsonSpec>, bad: int)
    requires
        0 <= bad < edits.len(),
        edited_to(content, edits, bad) matches Ok(so_far) ==> one_edit(
            so_far,
            edits[bad],
            bad,
        ) is Err,
    ensures
        edited_to(content, edits, edits.len() as int) is Err,
{
    lemma_error_stays(content, edits, bad + 1, edits.len() as int);
}

proof fn lemma_error_stays(content: Seq<char>, edits: Seq<JsonSpec>, at: int, n: int)
    requires
        0 < at <= n <= edits.len(),
        edited_to(content, edits, at) is Err,
    ensures
        edited_to(content, edits, n) == edited_to(content, edits, at),
    decreases n,
{
    if at < n {
        lemma_error_stays(content, edits, at, n - 1);
    }
}

fn edit_once(content: &str, edit: &Json, i: usize) -> (r: Result<String, String>)
    ensures
        match r {
            Ok(s) => one_edit(content@, edit.model(), i as int) == Ok::<Seq<char>, Seq<char>>(s@),
            Err(e) => one_edit(content@, edit.model(), i as int) == Err::<Seq<char>, Seq<char>>(
                e@,
            ),
        },
{
    let mut label = "multiedit: edit ".to_string();
    label.append(text::decimal_of(i as u64).as_str());
    match (edit.str_field("old"), edit.str_field("new")) {
        (Some(before), Some(after)) => {
            let count = text::count_matches(content, before);
            if count == 1 {
                Ok(text::replace_once(content, before, after))
            } else if count == 0 {
                label.append(": `old` not found");
                Err(label)
            } else {
                label.append(": `old` occurs ");
                label.append(text::wide_decimal_of(count).as_str());
                label.append(" times (not unique)");
                Err(label)
            }
        },
        _ => {
            label.append(" needs `old` and `new`");
            Err(label)
        },
    }
}

impl MultiEdit {
    pub fn spec(&self) -> (r: ToolSpec)
        ensures
            r@ == multiedit_spec(),
    {
        let mut item = json::members();
        json::put(&mut item, "old", tools::typed("string"));
        json::put(&mut item, "new", tools::typed("string"));
        let item = tools::object_schema(item, &tools::two_names("old", "new"));
        let mut edits = json::members();
        json::put(&mut edits, "type", json::string("array"));
        json::put(&mut edits, "items", item);
        let mut p = json::members();
        json::put(&mut p, "path", tools::typed("string"));
        json::put(&mut p, "edits", json::object(edits));
        tools::advertise(
            "multiedit",
            DESCRIPTION,
            tools::object_schema(p, &tools::two_names("path", "edits")),
        )
    }

    pub fn risk(&self) -> (r: Risk)
        ensures
            r == Risk::Write,
    {
        Risk::Write
    }

    /// What the input asks for, or what the model is told where it asks for nothing.
    pub fn plan<'a>(input: &'a Json, cwd: &str) -> (r: Result<MultiPlan<'a>, ToolOutput>)
        ensures
            match (request_in(input.model()), r) {
                (Ok((path, edits)), Ok(plan)) => plan.path@ == paths::joined_path(cwd@, path)
                    && json::items_model(plan.edits@) == edits,
                (Err(e), Err(out)) => out@ == types::output_error(e),
                _ => false,
            },
    {
        let path = match input.str_field("path") {
            Some(p) => p,
            None => return Err(ToolOutput::error("multiedit: missing `path`")),
        };
        match input.array_field("edits") {
            Some(edits) => Ok(MultiPlan { path: paths::join(cwd, path), edits }),
            None => Err(ToolOutput::error("multiedit: `edits` must be an array")),
        }
    }

    /// What the model is told where the edits are not allowed.
    pub fn denied() -> (r: ToolOutput)
        ensures
            r@ == types::output_error("multiedit: denied"@),
    {
        ToolOutput::error("multiedit: denied")
    }
}

impl<'a> MultiPlan<'a> {
    /// The content with all edits made, or what the model is told where one of them cannot be.
    pub fn apply(&self, content: &str) -> (r: Result<String, ToolOutput>)
        ensures
            ({
                let edits = json::items_model(self.edits@);
                match (edited_to(content@, edits, edits.len() as int), r) {
                    (Ok(a), Ok(b)) => a == b@,
                    (Err(e), Err(out)) => out@ == types::output_error(e),
                    _ => false,
                }
            }),
    {
        let ghost edits = json::items_model(self.edits@);
        let mut now = content.to_string();
        let mut i: usize = 0;
        while i < self.edits.len()
            invariant
                0 <= i <= self.edits@.len(),
                edits == json::items_model(self.edits@),
                edited_to(content@, edits, i as int) == Ok::<Seq<char>, Seq<char>>(now@),
            decreases self.edits@.len() - i,
        {
            assert(edits[i as int] == self.edits@[i as int].model());
            match edit_once(now.as_str(), &self.edits[i], i) {
                Ok(s) => {
                    now = s;
                },
                Err(e) => {
                    proof {
                        lemma_error_stays(content@, edits, i + 1, edits.len() as int);
                    }
                    return Err(ToolOutput::error(e.as_str()));
                },
            }
            i += 1;
        }
        Ok(now)
    }

    /// What is put to the permission gate.
    pub fn ask(&self) -> (r: Ask)
        ensures
            r@ == (AskView {
                risk: Risk::Write,
                tool: "multiedit"@,
                key: self.path@,
                summary: "multiedit "@ + self.path@ + " ("@ + text::decimal(
                    self.edits@.len() as nat,
                ) + " edits)"@,
            }),
    {
        let mut summary = text::concat3("multiedit ", self.path.as_str(), " (");
        summary.append(text::decimal_of(self.edits.len() as u64).as_str());
        summary.append(" edits)");
        Ask { risk: Risk::Write, tool: "multiedit", key: self.path.clone(), summary }
    }

    /// What the model is told where the file could not be read.
    pub fn unreadable(&self, error: &str) -> (r: ToolOutput)
        ensures
            r@ == types::output_error("multiedit: "@ + self.path@ + ": "@ + error@),
    {
        let mut msg = text::concat3("multiedit: ", self.path.as_str(), ": ");
        msg.append(error);
        ToolOutput::error(msg.as_str())
    }

    /// What the model is told once the file is written, or why it could not be.
    pub fn finish(&self, written: Result<(), String>) -> (r: ToolOutput)
        ensures
            r@ == (match written {
                Ok(_) => types::output_ok(
                    "applied "@ + text::decimal(self.edits@.len() as nat) + " edits to "@
                        + self.path@,
                ),
                Err(e) => types::output_error("multiedit: write "@ + self.path@ + ": "@ + e@),
            }),
    {
        match written {
            Err(e) => {
                let mut msg = text::concat3("multiedit: write ", self.path.as_str(), ": ");
                msg.append(e.as_str());
                ToolOutput::error(msg.as_str())
            },
            Ok(_) => {
                let mut msg = text::concat3(
                    "applied ",
                    text::decimal_of(self.edits.len() as u64).as_str(),
                    " edits to ",
                );
                msg.append(self.path.as_str());
                ToolOutput::ok(msg.as_str())
            },
        }
    }
}

/// The edits are made one after the other, each on what the ones before it left: where all can be made,
/// the first begins with the content, and each puts its new text in the place of its old one, which
/// stands there once, and keeps all else.
pub proof fn each_edit_follows_the_last(content: Seq<char>, edits: Seq<JsonSpec>, k: int)
    requires
        0 <= k < edits.len(),
        edited_to(content, edits, edits.len() as int) is Ok,
    ensures
        edited_to(content, edits, 0) == Ok::<Seq<char>, Seq<char>>(content),
        edited_to(content, edits, k) is Ok,
        edited_to(content, edits, k + 1) is Ok,
        json::string_field(edits[k], "old"@) is Some,
        json::string_field(edits[k], "new"@) is Some,
        exists|head: Seq<char>, tail: Seq<char>|
            {
                &&& edited_to(content, edits, k)->Ok_0 == #[trigger] (head + json::string_field(
                    edits[k],
                    "old"@,
                )->0 + tail)
                &&& edited_to(content, edits, k + 1)->Ok_0 == head + json::string_field(
                    edits[k],
                    "new"@,
                )->0 + tail
            },
        text::count_of(
            edited_to(content, edits, k)->Ok_0,
            json::string_field(edits[k], "old"@)->0,
        ) == 1,
{
    if edited_to(content, edits, k + 1) is Err {
        lemma_error_stays(content, edits, k + 1, edits.len() as int);
    }
    let before = json::string_field(edits[k], "old"@)->0;
    let after = json::string_field(edits[k], "new"@)->0;
    super::edit::an_edit_changes_one_place(edited_to(content, edits, k)->Ok_0, before, after);
}

} // verus!
