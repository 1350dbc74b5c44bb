//! `rewind` — undo recent file edits by restoring workspace checkpoints.

use crate::engine::types;
use crate::engine::types::{ToolOutput, ToolSpec, ToolView};
use crate::json;
use crate::json::{Json, JsonSpec, NumberSpec};
use crate::text;
use crate::tools;
use crate::tools::{Ask, AskView, Risk};
use vstd::prelude::*;
use vstd::string::*;

verus! {

pub struct Rewind;

/// What the tool is advertised as.
pub open spec fn rewind_spec() -> ToolView {
    ToolView {
        name: "rewind"@,
        description: "Undo the last N file edits by restoring workspace checkpoints (default 1)."@,
        input_schema: tools::open_object_spec(
            json::pairs1(
                "steps"@,
                JsonSpec::Object(
                    json::pairs3(
                        "type"@,
                        JsonSpec::Str("integer"@),
                        "minimum"@,
                        JsonSpec::Number(NumberSpec::PosInt(1)),
                        "description"@,
                        JsonSpec::Str("How many edits to undo."@),
                    ),
                ),
            ),
        ),
    }
}

/// How many edits an input asks to undo: at least one.
pub open spec fn steps_in(input: JsonSpec) -> u64 {
    match json::u64_in(json::field_or_null(input, "steps"@)) {
        Some(n) => if n >= 1 {
            n
        } else {
            1
        },
        None => 1,
    }
}

impl Rewind {
    pub fn spec(&self) -> (r: ToolSpec)
        ensures
            r@ == rewind_spec(),
    {
        let mut steps = json::members();
        json::put(&mut steps, "type", json::string("integer"));
        json::put(&mut steps, "minimum", json::uint(1));
        json::put(&mut steps, "description", json::string("How many edits to undo."));
        let mut p = json::members();
        json::put(&mut p, "steps", json::object(steps));
        tools::advertise(
            "rewind",
            "Undo the last N file edits by restoring workspace checkpoints (default 1).",
            tools::open_object(p),
        )
    }

    pub fn risk(&self) -> (r: Risk)
        ensures
            r == Risk::Write,
    {
        Risk::Write
    }

    /// How many edits an input asks to undo. No checkpoint store holds more than a `usize` counts.
    pub fn steps(input: &Json) -> (r: usize)
        ensures
            r == (if steps_in(input.model()) <= usize::MAX {
                steps_in(input.model()) as int
            } else {
                usize::MAX as int
            }),
    {
        let n: u64 = match input.u64_field("steps") {
            Some(n) => if n >= 1 {
                n
            } else {
                1
            },
            None => 1,
        };
        if n <= usize::MAX as u64 {
            n as usize
        } else {
            usize::MAX
        }
    }

    /// What is put to the permission gate.
    pub fn ask(steps: usize) -> (r: Ask)
        ensures
            r@ == (AskView {
                risk: Risk::Write,
                tool: "rewind"@,
                key: "rewind"@,
                summary: "rewind "@ + text::decimal(steps as nat) + " edit(s)"@,
            }),
    {
        let summary = text::concat3(
            "rewind ",
            text::decimal_of(steps as u64).as_str(),
            " edit(s)",
        );
        Ask { risk: Risk::Write, tool: "rewind", key: "rewind".to_string(), summary }
    }

    /// What the model is told where the rewind is not allowed.
    pub fn denied() -> (r: ToolOutput)
        ensures
            r@ == types::output_error("rewind: denied"@),
    {
        ToolOutput::error("rewind: denied")
    }

    /// What the model is told of a rewind: how many files were restored, or why not.
    pub fn finish(restored: Result<usize, String>) -> (r: ToolOutput)
        ensures
            r@ == (match restored {
                Ok(n) => types::output_ok("rewound "@ + text::decimal(n as nat) + " file(s)"@),
                Err(e) => types::output_error("rewind: "@ + e@),
            }),
    {
        match restored {
            Ok(n) => {
                let msg = text::concat3(
                    "rewound ",
                    text::decimal_of(n as u64).as_str(),
                    " file(s)",
                );
                ToolOutput::ok(msg.as_str())
            },
            Err(e) => {
                let msg = text::concat2("rewind: ", e.as_str());
                ToolOutput::error(msg.as_str())
            },
        }
    }
}

/// An input undoes as many edits as it says, and one where it says nothing.
pub proof fn as_many_edits_are_undone(input: JsonSpec, n: u64)
    ensures
        n > 0 && json::field(input, "steps"@) == Some(JsonSpec::Number(NumberSpec::PosInt(n)))
            ==> steps_in(input) == n,
        json::field(input, "steps"@) is None ==> steps_in(input) == 1,
        steps_in(input) >= 1,
{
}

} // verus!
