//! `write` — create or overwrite a file (permission-gated).

use crate::bytes;
use crate::engine::types;
use crate::engine::types::{ToolOutput, ToolSpec, ToolView};
use crate::json;
use crate::json::Json;
use crate::paths;
use crate::text;
use crate::tools;
use crate::tools::{Ask, AskView, Risk};
use vstd::prelude::*;
use vstd::string::*;

verus! {

pub struct Write;

/// What the tool is advertised as.
pub open spec fn write_spec() -> ToolView {
    ToolView {
        name: "write"@,
        description: "Create or overwrite a file with the given contents."@,
        input_schema: tools::object_spec(
            json::pairs2(
                "path"@,
                tools::typed_spec("string"@),
                "content"@,
                tools::typed_spec("string"@),
            ),
            Seq::empty().push("path"@).push("content"@),
        ),
    }
}

/// A file that is to be written.
pub struct WritePlan {
    pub path: String,
    pub content: String,
}

/// How a write ended.
pub enum WriteEnd {
    Written,
    /// The directory could not be made.
    NoDir { dir: String, error: String },
    Failed { error: String },
}

impl Write {
    pub fn spec(&self) -> (r: ToolSpec)
        ensures
            r@ == write_spec(),
    {
        let mut p = json::members();
        json::put(&mut p, "path", tools::typed("string"));
        json::put(&mut p, "content", tools::typed("string"));
        tools::advertise(
            "write",
            "Create or overwrite a file with the given contents.",
            tools::object_schema(p, &tools::two_names("path", "content")),
        )
    }

    pub fn risk(&self) -> (r: Risk)
        ensures
            r == Risk::Write,
    {
        Risk::Write
    }

    /// What the input asks to write, or what the model is told where it asks for nothing.
    pub fn plan(input: &Json, cwd: &str) -> (r: Result<WritePlan, ToolOutput>)
        ensures
            match (
                json::string_field(input.model(), "path"@),
                json::string_field(input.model(), "content"@),
                r,
            ) {
                (Some(path), Some(content), Ok(plan)) => plan.path@ == paths::joined_path(
                    cwd@,
                    path,
                ) && plan.content@ == content,
                (Some(_), Some(_), Err(_)) => false,
                (_, _, Err(out)) => out@ == types::output_error(
                    "write: requires `path` and `content`"@,
                ),
                _ => false,
            },
    {
        match (input.str_field("path"), input.str_field("content")) {
            (Some(path), Some(content)) => Ok(
                WritePlan { path: paths::join(cwd, path), content: content.to_string() },
            ),
            _ => Err(ToolOutput::error("write: requires `path` and `content`")),
        }
    }

    /// What the model is told where the write is not allowed.
    pub fn denied() -> (r: ToolOutput)
        ensures
            r@ == types::output_error("write: denied"@),
    {
        ToolOutput::error("write: denied")
    }
}

impl WritePlan {
    /// What is put to the permission gate.
    pub fn ask(&self) -> (r: Ask)
        ensures
            r@ == (AskView {
                risk: Risk::Write,
                tool: "write"@,
                key: self.path@,
                summary: "write "@ + self.path@ + " ("@ + text::decimal(
                    bytes::byte_len(self.content@),
                ) + " bytes)"@,
            }),
    {
        let mut summary = text::concat3("write ", self.path.as_str(), " (");
        let bytes = self.content.as_str().as_bytes().len();
        summary.append(text::decimal_of(bytes as u64).as_str());
        summary.append(" bytes)");
        Ask { risk: Risk::Write, tool: "write", key: self.path.clone(), summary }
    }

    /// What the model is told of how the write ended.
    pub fn finish(&self, end: WriteEnd) -> (r: ToolOutput)
        ensures
            r@ == (match end {
                WriteEnd::Written => types::output_ok("wrote "@ + self.path@),
                WriteEnd::NoDir { dir, error } => types::output_error(
                    "write: mkdir "@ + dir@ + ": "@ + error@,
                ),
                WriteEnd::Failed { error } => types::output_error(
                    "write: "@ + self.path@ + ": "@ + error@,
                ),
            }),
    {
        match end {
            WriteEnd::Written => {
                let msg = text::concat2("wrote ", self.path.as_str());
                ToolOutput::ok(msg.as_str())
            },
            WriteEnd::NoDir { dir, error } => {
                let mut msg = text::concat3("write: mkdir ", dir.as_str(), ": ");
                msg.append(error.as_str());
                ToolOutput::error(msg.as_str())
            },
            WriteEnd::Failed { error } => {
                let mut msg = text::concat3("write: ", self.path.as_str(), ": ");
                msg.append(error.as_str());
                ToolOutput::error(msg.as_str())
            },
        }
    }
}

} // verus!
