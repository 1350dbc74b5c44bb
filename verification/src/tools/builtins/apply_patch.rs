//! `apply_patch` — multi-file edits in one call.
//!
//! `edit` replaces one unique string in one file. `apply_patch` takes a whole patch: several files,
//! several hunks each, adds, deletes and renames, matched tolerantly against the current contents.
//!
//! The patch is fully resolved before anything is written, so the diff shown for approval is exactly
//! what lands, and a patch that doesn't fit leaves the worktree untouched.

use crate::engine::types;
use crate::engine::types::{ToolOutput, ToolSpec, ToolView};
use crate::json;
use crate::json::Json;
use crate::text;
use crate::text_laws;
use crate::tools;
use crate::tools::apply_patch;
use crate::tools::apply_patch::{ChangeView, PatchError, Plan};
use crate::tools::diff;
use crate::tools::{Ask, AskView, Risk};
use vstd::prelude::*;
use vstd::string::*;

verus! {

pub struct ApplyPatch;

pub const DESCRIPTION: &'static str =
    "Edit files with a patch: add, update (optionally renaming), and delete several files in one call. Prefer this over `edit` for multi-hunk or multi-file changes. The patch body goes in `input`, wrapped in `*** Begin Patch` / `*** End Patch`.";

pub const INPUT_DESCRIPTION: &'static str =
    "The patch text, starting with '*** Begin Patch' and ending with '*** End Patch'. File paths are relative to the working directory.";

/// What the tool is advertised as.
pub open spec fn apply_patch_spec() -> ToolView {
    ToolView {
        name: "apply_patch"@,
        description: DESCRIPTION@,
        input_schema: tools::closed_object_spec(
            json::pairs1("input"@, tools::described_spec("string"@, INPUT_DESCRIPTION@)),
            Seq::empty().push("input"@),
        ),
    }
}

/// The files that the changes end up in.
pub open spec fn targets(changes: Seq<ChangeView>) -> Seq<Seq<char>> {
    changes.map_values(|c: ChangeView| apply_patch::target_of(c))
}

/// What is put to the permission gate for a whole patch: it is applied as a unit, so it is approved
/// as a unit.
pub open spec fn asked(changes: Seq<ChangeView>) -> AskView {
    let key = text::joined(targets(changes), ", "@);
    AskView {
        risk: Risk::Write,
        tool: "apply_patch"@,
        key,
        summary: "apply_patch "@ + key + "\n"@ + apply_patch::preview(
            changes,
            changes.len() as int,
        ),
    }
}

impl ApplyPatch {
    pub fn spec(&self) -> (r: ToolSpec)
        ensures
            r@ == apply_patch_spec(),
    {
        let mut p = json::members();
        json::put(&mut p, "input", tools::described("string", INPUT_DESCRIPTION));
        tools::advertise(
            "apply_patch",
            DESCRIPTION,
            tools::closed_object(p, &tools::one_name("input")),
        )
    }

    pub fn risk(&self) -> (r: Risk)
        ensures
            r == Risk::Write,
    {
        Risk::Write
    }

    /// The patch that an input holds, or what the model is told where it holds none.
    pub fn patch_of<'a>(input: &'a Json) -> (r: Result<&'a str, ToolOutput>)
        ensures
            match (json::string_field(input.model(), "input"@), r) {
                (Some(a), Ok(b)) => a == b@,
                (None, Err(out)) => out@ == types::output_error(
                    "apply_patch: requires `input` (the patch text)"@,
                ),
                _ => false,
            },
    {
        match input.str_field("input") {
            Some(patch) => Ok(patch),
            None => Err(ToolOutput::error("apply_patch: requires `input` (the patch text)")),
        }
    }

    /// What the model is told of a patch that cannot be carried out.
    pub fn refused(error: &PatchError) -> (r: ToolOutput)
        ensures
            r@ == types::output_error("apply_patch: "@ + apply_patch::error_text(error@)),
    {
        let msg = text::concat2("apply_patch: ", error.to_text().as_str());
        ToolOutput::error(msg.as_str())
    }

    /// What is put to the permission gate, or what the model is told of a patch without changes.
    pub fn review(plan: &Plan) -> (r: Result<Ask, ToolOutput>)
        ensures
            match r {
                Ok(ask) => plan.changes@.len() > 0 && ask@ == asked(
                    apply_patch::change_views(plan.changes@),
                ),
                Err(out) => plan.changes@.len() == 0 && out@ == types::output_ok(
                    "apply_patch: the patch contained no changes"@,
                ),
            },
    {
        if plan.is_empty() {
            return Err(ToolOutput::ok("apply_patch: the patch contained no changes"));
        }
        let ghost all = apply_patch::change_views(plan.changes@);
        let mut names: Vec<&str> = Vec::new();
        let mut i: usize = 0;
        while i < plan.changes.len()
            invariant
                0 <= i <= plan.changes@.len(),
                all == apply_patch::change_views(plan.changes@),
                names@.len() == i,
                forall|k: int| 0 <= k < i ==> (#[trigger] names@[k])@ == apply_patch::target_of(all[k]),
            decreases plan.changes@.len() - i,
        {
            assert(all[i as int] == plan.changes@[i as int]@);
            names.push(plan.changes[i].target());
            i += 1;
        }
        assert(text::views(names@) =~= targets(all));
        let key = text::join_strs(&names, ", ");
        let mut summary = text::concat3("apply_patch ", key.as_str(), "\n");
        summary.append(plan.diff().as_str());
        Ok(Ask { risk: Risk::Write, tool: "apply_patch", key, summary })
    }

    /// What the model is told where the patch is not allowed.
    pub fn denied() -> (r: ToolOutput)
        ensures
            r@ == types::output_error("apply_patch: denied"@),
    {
        ToolOutput::error("apply_patch: denied")
    }

    /// What the model is told once the patch is carried out.
    pub fn applied(plan: &Plan) -> (r: ToolOutput)
        ensures
            r@ == types::output_ok(
                "applied patch to "@ + text::decimal(plan.changes@.len() as nat) + " file(s)\n"@
                    + text::joined(
                    apply_patch::summaries(apply_patch::change_views(plan.changes@)),
                    "\n"@,
                ),
            ),
    {
        let mut msg = text::concat3(
            "applied patch to ",
            text::decimal_of(plan.changes.len() as u64).as_str(),
            " file(s)\n",
        );
        msg.append(plan.summary().as_str());
        ToolOutput::ok(msg.as_str())
    }
}

/// What is asked for a patch names the file that each of its changes ends up in.
pub proof fn every_target_is_asked_for(a: Seq<ChangeView>, c: ChangeView)
    ensures
        asked(seq![c]).key == apply_patch::target_of(c),
        a.len() > 0 ==> asked(a.push(c)).key == asked(a).key + ", "@ + apply_patch::target_of(c),
{
    assert(targets(seq![c]) =~= seq![apply_patch::target_of(c)]);
    if a.len() > 0 {
        assert(targets(a.push(c)) =~= targets(a) + seq![apply_patch::target_of(c)]);
        text_laws::joined_lists_join(targets(a), seq![apply_patch::target_of(c)], ", "@);
    }
}

/// What is asked for a patch shows, for each of its changes in order, the change's name and its diff.
pub proof fn every_change_is_shown(a: Seq<ChangeView>, c: ChangeView)
    ensures
        ({
            let shown = apply_patch::preview(a.push(c), a.len() as int + 1);
            let head = apply_patch::preview(a, a.len() as int) + apply_patch::label_of(c) + "\n"@
                + diff::unified_text(
                apply_patch::sides(c).0,
                apply_patch::sides(c).1,
                3,
                "before"@,
                "after"@,
            );
            &&& shown == head || shown == head.push('\n')
            &&& shown.last() == '\n'
            &&& text::ends(asked(a.push(c)).summary, shown)
        }),
{
    let n = a.len() as int;
    lemma_preview_prefix(a, c, n);
    let all = a.push(c);
    let shown = apply_patch::preview(all, n + 1);
    let summary = asked(all).summary;
    assert(summary.subrange(summary.len() - shown.len(), summary.len() as int) =~= shown);
}

proof fn lemma_preview_prefix(a: Seq<ChangeView>, c: ChangeView, n: int)
    requires
        0 <= n <= a.len(),
    ensures
        apply_patch::preview(a.push(c), n) == apply_patch::preview(a, n),
    decreases n,
{
    if n > 0 {
        lemma_preview_prefix(a, c, n - 1);
    }
}

/// A change is named by its file and by what becomes of it, and its diff goes from the text that the
/// file had to the text that it gets.
pub proof fn a_change_is_told_as_it_is(
    path: Seq<char>,
    dest: Seq<char>,
    before: Seq<char>,
    after: Seq<char>,
)
    ensures
        ({
            let c = ChangeView::Add { path, contents: after };
            apply_patch::label_of(c) == "A "@ + path && apply_patch::sides(c) == (
                Seq::<char>::empty(),
                after,
            )
        }),
        ({
            let c = ChangeView::Delete { path, original: before };
            apply_patch::label_of(c) == "D "@ + path && apply_patch::sides(c) == (
                before,
                Seq::<char>::empty(),
            )
        }),
        ({
            let c = ChangeView::Update { path, move_to: None, original: before, contents: after };
            apply_patch::label_of(c) == "M "@ + path && apply_patch::sides(c) == (before, after)
        }),
        ({
            let c = ChangeView::Update {
                path,
                move_to: Some(dest),
                original: before,
                contents: after,
            };
            &&& apply_patch::label_of(c) == "M "@ + path + " → "@ + dest
            &&& apply_patch::sides(c) == (before, after)
            &&& apply_patch::target_of(c) == dest
        }),
{
}

} // verus!
