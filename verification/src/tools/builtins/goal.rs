//! The model's view of the session goal: `get_goal`, `create_goal`, `update_goal`.
//!
//! These are deliberately narrow. The model may start a goal when asked to and may declare one
//! complete or genuinely blocked; everything else (pausing, resuming, raising a budget, clearing)
//! belongs to the user, because those are the levers that decide how much unattended work happens.

use crate::engine::goal;
use crate::engine::goal::lifecycle;
use crate::engine::goal::runtime;
use crate::engine::goal::runtime::{Charge, GoalRuntime, Moment, RuntimeView};
use crate::engine::goal::{Goal, GoalLimits, GoalStatus, GoalUpdate, GoalView};
use crate::engine::types;
use crate::engine::types::{OutputView, ToolOutput, ToolSpec, ToolView};
use crate::json;
use crate::json::{Json, JsonSpec, NumberSpec};
use crate::text;
use crate::tools;
use crate::tools::Risk;
use vstd::prelude::*;
use vstd::string::*;

verus! {

// ---- what the model is told -----------------------------------------------------------------

/// An optional integer.
pub open spec fn opt_int(n: Option<i64>) -> JsonSpec {
    match n {
        Some(n) => json::int_spec(n),
        None => JsonSpec::Null,
    }
}

/// A goal the way the model sees it (camelCase, budget figures included).
pub open spec fn goal_json(g: GoalView) -> JsonSpec {
    JsonSpec::Object(
        json::pairs6(
            "objective"@,
            JsonSpec::Str(g.objective),
            "status"@,
            JsonSpec::Str(goal::status_name(g.status)),
            "tokenBudget"@,
            opt_int(g.limits.token_budget),
            "tokensUsed"@,
            json::int_spec(g.tokens_used),
            "timeUsedSeconds"@,
            json::int_spec(g.time_used_seconds),
            "createdAt"@,
            JsonSpec::Number(NumberSpec::PosInt(g.created_at)),
        ).push(("updatedAt"@, JsonSpec::Number(NumberSpec::PosInt(g.updated_at)))),
    )
}

/// Asks for the final spend once a budgeted goal lands.
pub const REPORT: &'static str =
    "Goal achieved. Report final usage from this tool result's structured goal fields. If `goal.tokenBudget` is present, include token usage from `goal.tokensUsed` and `goal.tokenBudget`. If `goal.timeUsedSeconds` is greater than 0, summarize elapsed time in a concise, human-friendly form appropriate to the response language.";

/// The final spend is to be reported: the goal is complete and had a cap or took time.
pub open spec fn wants_report(g: GoalView) -> bool {
    g.status == GoalStatus::Complete && !(g.limits == goal::no_limits() && g.time_used_seconds <= 0)
}

/// The answer about a goal.
pub open spec fn answer_json(g: Option<GoalView>, completion_report: bool) -> JsonSpec {
    JsonSpec::Object(
        json::pairs3(
            "goal"@,
            match g {
                Some(g) => goal_json(g),
                None => JsonSpec::Null,
            },
            "remainingTokens"@,
            match g {
                Some(g) => match goal::tokens_left(g) {
                    Some(n) => json::int_spec(n as i64),
                    None => JsonSpec::Null,
                },
                None => JsonSpec::Null,
            },
            "completionBudgetReport"@,
            match g {
                Some(g) => if completion_report && wants_report(g) {
                    JsonSpec::Str(REPORT@)
                } else {
                    JsonSpec::Null
                },
                None => JsonSpec::Null,
            },
        ),
    )
}

/// What the model is told about a goal.
pub open spec fn answer(g: Option<GoalView>, completion_report: bool) -> OutputView {
    types::output_ok(json::json_printed(answer_json(g, completion_report)))
}

fn int_or_null(n: Option<i64>) -> (r: Json)
    ensures
        r.model() == opt_int(n),
{
    match n {
        Some(n) => json::sint(n),
        None => Json::Null,
    }
}

fn goal_to_json(g: &Goal) -> (r: Json)
    ensures
        r.model() == goal_json(g@),
{
    let mut m = json::members();
    json::put(&mut m, "objective", json::string(g.objective.as_str()));
    json::put(&mut m, "status", json::string(g.status.as_str()));
    json::put(&mut m, "tokenBudget", int_or_null(g.limits.token_budget));
    json::put(&mut m, "tokensUsed", json::sint(g.tokens_used));
    json::put(&mut m, "timeUsedSeconds", json::sint(g.time_used_seconds));
    json::put(&mut m, "createdAt", json::uint(g.created_at));
    json::put(&mut m, "updatedAt", json::uint(g.updated_at));
    json::object(m)
}

/// The answer about a goal, as a value.
pub fn answer_value(g: &Option<Goal>, completion_report: bool) -> (r: Json)
    ensures
        r.model() == answer_json(goal::opt_goal(*g), completion_report),
{
    let mut m = json::members();
    let shown = match g {
        Some(g) => goal_to_json(g),
        None => Json::Null,
    };
    json::put(&mut m, "goal", shown);
    let left = match g {
        Some(g) => int_or_null(g.remaining_tokens()),
        None => Json::Null,
    };
    json::put(&mut m, "remainingTokens", left);
    let report = match g {
        Some(g) => if completion_report && g.status == GoalStatus::Complete && !(
        g.limits.is_unbounded() && g.time_used_seconds <= 0) {
            json::string(REPORT)
        } else {
            Json::Null
        },
        None => Json::Null,
    };
    json::put(&mut m, "completionBudgetReport", report);
    json::object(m)
}

fn respond(g: &Option<Goal>, completion_report: bool) -> (r: ToolOutput)
    ensures
        r@ == answer(goal::opt_goal(*g), completion_report),
{
    let value = answer_value(g, completion_report);
    let body = json::print(&value);
    ToolOutput::ok(body.as_str())
}

// ---- reading the goal -----------------------------------------------------------------------

/// Read the current goal.
pub struct GetGoal;

pub const GET_DESCRIPTION: &'static str =
    "Get the current goal for this session, including status, budgets, token and elapsed-time usage, and remaining token budget.";

/// What `get_goal` is advertised as.
pub open spec fn get_spec() -> ToolView {
    ToolView {
        name: "get_goal"@,
        description: GET_DESCRIPTION@,
        input_schema: JsonSpec::Object(
            json::pairs3(
                "type"@,
                JsonSpec::Str("object"@),
                "properties"@,
                JsonSpec::Object(Seq::empty()),
                "additionalProperties"@,
                JsonSpec::Bool(false),
            ),
        ),
    }
}

impl GetGoal {
    pub fn spec(&self) -> (r: ToolSpec)
        ensures
            r@ == get_spec(),
    {
        let mut m = json::members();
        json::put(&mut m, "type", json::string("object"));
        json::put(&mut m, "properties", json::object(json::members()));
        json::put(&mut m, "additionalProperties", json::boolean(false));
        tools::advertise("get_goal", GET_DESCRIPTION, json::object(m))
    }

    pub fn risk(&self) -> (r: Risk)
        ensures
            r == Risk::ReadOnly,
    {
        Risk::ReadOnly
    }

    pub fn run(&self, runtime: &GoalRuntime) -> (r: ToolOutput)
        ensures
            r@ == answer(runtime@.goal, false),
    {
        respond(&runtime.goal(), false)
    }
}

// ---- starting a goal ------------------------------------------------------------------------

/// Start a new goal.
pub struct CreateGoal;

pub const CREATE_DESCRIPTION: &'static str =
    "Create a goal only when explicitly requested by the user or system/developer instructions; do not infer goals from ordinary tasks.\nSet token_budget only when an explicit token budget is requested. Fails if an unfinished goal exists; use update_goal only for status.";

pub const OBJECTIVE_DESCRIPTION: &'static str =
    "Required. The concrete objective to start pursuing. This starts a new active goal when no goal exists or replaces the current goal when it is complete.";

pub const BUDGET_DESCRIPTION: &'static str =
    "Positive token budget for the new goal. Omit unless explicitly requested.";

/// What `create_goal` is advertised as.
pub open spec fn create_spec() -> ToolView {
    ToolView {
        name: "create_goal"@,
        description: CREATE_DESCRIPTION@,
        input_schema: tools::closed_object_spec(
            json::pairs2(
                "objective"@,
                tools::described_spec("string"@, OBJECTIVE_DESCRIPTION@),
                "token_budget"@,
                tools::described_spec("integer"@, BUDGET_DESCRIPTION@),
            ),
            Seq::empty().push("objective"@),
        ),
    }
}

/// The goals after `create_goal`, and what the model is told.
pub open spec fn created(
    r: RuntimeView,
    input: JsonSpec,
    goal_id: Seq<char>,
    charge: Charge,
    now: Moment,
) -> (RuntimeView, OutputView) {
    match json::string_field(input, "objective"@) {
        None => (r, types::output_error("create_goal: requires `objective`"@)),
        Some(objective) => {
            let limits = GoalLimits {
                token_budget: json::i64_in(json::field_or_null(input, "token_budget"@)),
                ..goal::no_limits()
            };
            let (after, made) = runtime::goal_created(r, objective, limits, goal_id, charge, now);
            match made {
                Ok(g) => (after, answer(Some(g), false)),
                Err(e) => (after, types::output_error(e)),
            }
        },
    }
}

impl CreateGoal {
    pub fn spec(&self) -> (r: ToolSpec)
        ensures
            r@ == create_spec(),
    {
        let mut p = json::members();
        json::put(&mut p, "objective", tools::described("string", OBJECTIVE_DESCRIPTION));
        json::put(&mut p, "token_budget", tools::described("integer", BUDGET_DESCRIPTION));
        tools::advertise(
            "create_goal",
            CREATE_DESCRIPTION,
            tools::closed_object(p, &tools::one_name("objective")),
        )
    }

    pub fn risk(&self) -> (r: Risk)
        ensures
            r == Risk::ReadOnly,
    {
        Risk::ReadOnly
    }

    pub fn run(
        &self,
        runtime: &mut GoalRuntime,
        input: &Json,
        goal_id: String,
        charge: Charge,
        now: Moment,
    ) -> (r: ToolOutput)
        ensures
            (final(runtime)@, r@) == created(
                old(runtime)@,
                input.model(),
                goal_id@,
                charge,
                now,
            ),
    {
        let objective = match input.str_field("objective") {
            Some(o) => o,
            None => return ToolOutput::error("create_goal: requires `objective`"),
        };
        let budget = match input.get("token_budget") {
            Some(v) => v.as_i64(),
            None => None,
        };
        match runtime.create_goal(objective, GoalLimits::tokens(budget), goal_id, charge, now) {
            Ok(g) => respond(&Some(g), false),
            Err(e) => ToolOutput::error(e.as_str()),
        }
    }
}

// ---- ending a goal --------------------------------------------------------------------------

/// Mark the goal complete or blocked.
pub struct UpdateGoal;

pub const UPDATE_DESCRIPTION: &'static str =
    "Update the existing goal.\nUse this tool only to mark the goal achieved or genuinely blocked.\nSet status to `complete` only when the objective has actually been achieved and no required work remains.\nSet status to `blocked` only when the same blocking condition has repeated for at least three consecutive goal turns, counting the original/user-triggered turn and any automatic continuations, and the agent cannot make meaningful progress without user input or an external-state change.\nIf the user resumes a goal that was previously marked `blocked`, treat the resumed run as a fresh blocked audit. If the same blocking condition then repeats for at least three consecutive resumed goal turns, set status to `blocked` again.\nOnce the blocked threshold is satisfied, do not keep reporting that you are still blocked while leaving the goal active; set status to `blocked`.\nDo not use `blocked` merely because the work is hard, slow, uncertain, incomplete, or would benefit from clarification.\nDo not mark a goal complete merely because its budget is nearly exhausted or because you are stopping work.\nYou cannot use this tool to pause, resume, budget-limit, or usage-limit a goal; those status changes are controlled by the user or system.\nWhen marking a budgeted goal achieved with status `complete`, report the final token usage from the tool result to the user.";

pub const STATUS_DESCRIPTION: &'static str =
    "Required. Set to `complete` only when the objective is achieved and no required work remains. Set to `blocked` only after the same blocking condition has recurred for at least three consecutive goal turns and the agent is at an impasse. After a previously blocked goal is resumed, the resumed run starts a fresh blocked audit.";

pub const REFUSAL: &'static str =
    "update_goal can only mark the existing goal complete or blocked; pause, resume, budget-limited, and usage-limited status changes are controlled by the user or system";

/// What `update_goal` is advertised as.
pub open spec fn update_spec() -> ToolView {
    ToolView {
        name: "update_goal"@,
        description: UPDATE_DESCRIPTION@,
        input_schema: tools::closed_object_spec(
            json::pairs1(
                "status"@,
                JsonSpec::Object(
                    json::pairs3(
                        "type"@,
                        JsonSpec::Str("string"@),
                        "enum"@,
                        json::strings_spec(Seq::empty().push("complete"@).push("blocked"@)),
                        "description"@,
                        JsonSpec::Str(STATUS_DESCRIPTION@),
                    ),
                ),
            ),
            Seq::empty().push("status"@),
        ),
    }
}

/// The status that an input asks for. Only two can be asked for.
pub open spec fn status_asked(input: JsonSpec) -> Option<GoalStatus> {
    match json::string_field(input, "status"@) {
        Some(s) => if s == "complete"@ {
            Some(GoalStatus::Complete)
        } else if s == "blocked"@ {
            Some(GoalStatus::Blocked)
        } else {
            None
        },
        None => None,
    }
}

/// The goals after `update_goal`, and what the model is told. The work done so far is charged before
/// the goal leaves the statuses that can be charged.
pub open spec fn updated(r: RuntimeView, input: JsonSpec, charge: Charge, now: Moment) -> (
    RuntimeView,
    OutputView,
) {
    match status_asked(input) {
        None => (r, types::output_error(REFUSAL@)),
        Some(status) => {
            let charged = runtime::goal_tool_charged(r, status, charge, now);
            let edit = runtime::status_update(status, None);
            let edited = RuntimeView {
                goal: goal::slot_edited(charged.goal, edit, now.unix),
                ..charged
            };
            match goal::edit_answer(charged.goal, edit, now.unix) {
                None => (
                    edited,
                    types::output_error("cannot update goal because this session has no goal"@),
                ),
                Some(g) => (
                    runtime::goal_detached(edited, now),
                    answer(Some(g), status == GoalStatus::Complete),
                ),
            }
        },
    }
}

/// The model cannot pause, resume or limit a goal: any status but complete and blocked changes
/// nothing.
pub proof fn only_complete_and_blocked_are_accepted(
    r: RuntimeView,
    input: JsonSpec,
    charge: Charge,
    now: Moment,
)
    requires
        json::string_field(input, "status"@) != Some("complete"@),
        json::string_field(input, "status"@) != Some("blocked"@),
    ensures
        updated(r, input, charge, now) == (r, types::output_error(REFUSAL@)),
{
}

impl UpdateGoal {
    pub fn spec(&self) -> (r: ToolSpec)
        ensures
            r@ == update_spec(),
    {
        let names = text::to_strings(&tools::two_names("complete", "blocked"));
        let mut status = json::members();
        json::put(&mut status, "type", json::string("string"));
        json::put(&mut status, "enum", json::strings(&names));
        json::put(&mut status, "description", json::string(STATUS_DESCRIPTION));
        let mut p = json::members();
        json::put(&mut p, "status", json::object(status));
        tools::advertise(
            "update_goal",
            UPDATE_DESCRIPTION,
            tools::closed_object(p, &tools::one_name("status")),
        )
    }

    pub fn risk(&self) -> (r: Risk)
        ensures
            r == Risk::ReadOnly,
    {
        Risk::ReadOnly
    }

    pub fn run(
        &self,
        runtime: &mut GoalRuntime,
        input: &Json,
        charge: Charge,
        now: Moment,
    ) -> (r: ToolOutput)
        ensures
            (final(runtime)@, r@) == updated(old(runtime)@, input.model(), charge, now),
    {
        let status = match input.str_field("status") {
            Some(s) => if text::same(s, "complete") {
                GoalStatus::Complete
            } else if text::same(s, "blocked") {
                GoalStatus::Blocked
            } else {
                return ToolOutput::error(REFUSAL);
            },
            None => return ToolOutput::error(REFUSAL),
        };
        runtime.account_for_goal_tool(status, charge, now);
        let edit = GoalUpdate {
            objective: None,
            status: Some(status),
            limits: None,
            expected_goal_id: None,
        };
        match runtime.update(edit, now) {
            None => ToolOutput::error("cannot update goal because this session has no goal"),
            Some(g) => {
                runtime.clear_current_turn_goal(now);
                respond(&Some(g), status == GoalStatus::Complete)
            },
        }
    }
}

// ---- what holds of the tools ----------------------------------------------------------------

/// The model sees the goal as it stands: its objective, its status by name, its budget, what was used
/// of it, and what is left.
pub proof fn the_answer_tells_the_goal(g: GoalView, report: bool)
    ensures
        ({
            let told = answer_json(Some(g), report);
            let shown = json::field_or_null(told, "goal"@);
            &&& json::field_or_null(shown, "objective"@) == JsonSpec::Str(g.objective)
            &&& json::field_or_null(shown, "status"@) == JsonSpec::Str(goal::status_name(g.status))
            &&& json::field_or_null(shown, "tokensUsed"@) == json::int_spec(g.tokens_used)
            &&& json::field_or_null(shown, "timeUsedSeconds"@) == json::int_spec(
                g.time_used_seconds,
            )
            &&& json::field_or_null(shown, "createdAt"@) == JsonSpec::Number(
                NumberSpec::PosInt(g.created_at),
            )
            &&& json::field_or_null(shown, "updatedAt"@) == JsonSpec::Number(
                NumberSpec::PosInt(g.updated_at),
            )
            &&& g.limits.token_budget is None ==> {
                &&& json::field_or_null(shown, "tokenBudget"@) is Null
                &&& json::field_or_null(told, "remainingTokens"@) is Null
            }
            &&& g.limits.token_budget matches Some(n) ==> {
                &&& json::field_or_null(shown, "tokenBudget"@) == json::int_spec(n)
                &&& g.tokens_used <= n && n - g.tokens_used <= i64::MAX ==> json::field_or_null(
                    told,
                    "remainingTokens"@,
                ) == json::int_spec((n - g.tokens_used) as i64)
                &&& g.tokens_used > n ==> json::field_or_null(told, "remainingTokens"@)
                    == json::int_spec(0)
            }
            &&& g.status != GoalStatus::Complete || !report ==> json::field_or_null(
                told,
                "completionBudgetReport"@,
            ) is Null
        }),
        json::field_or_null(answer_json(None, report), "goal"@) is Null,
{
    reveal_strlit("goal");
    reveal_strlit("remainingTokens");
    reveal_strlit("completionBudgetReport");
    reveal_strlit("objective");
    reveal_strlit("status");
    reveal_strlit("tokenBudget");
    reveal_strlit("tokensUsed");
    reveal_strlit("timeUsedSeconds");
    reveal_strlit("createdAt");
    reveal_strlit("updatedAt");
    assert("goal"@.len() == 4 && "remainingTokens"@.len() == 15);
    assert("completionBudgetReport"@.len() == 22 && "status"@.len() == 6);
    assert("tokenBudget"@.len() == 11 && "tokensUsed"@.len() == 10);
    assert("timeUsedSeconds"@.len() == 15);
    assert("objective"@[0] == 'o' && "createdAt"@[0] == 'c' && "updatedAt"@[0] == 'u');
    assert("objective"@.len() == 9 && "createdAt"@.len() == 9 && "updatedAt"@.len() == 9);
    reveal_with_fuel(json::member_from, 8);
}

/// A goal that the model calls complete is complete, whatever it was: nothing continues, the model is
/// told so, and a new goal may start.
pub proof fn a_goal_called_complete_is_complete(
    r: RuntimeView,
    input: JsonSpec,
    charge: Charge,
    now: Moment,
    later: Moment,
    objective: Seq<char>,
    limits: GoalLimits,
    id: Seq<char>,
    next: Charge,
)
    requires
        r.goal is Some,
        json::string_field(input, "status"@) == Some("complete"@),
        lifecycle::objective_usable(objective),
        lifecycle::limits_positive(limits),
    ensures
        ({
            let (after, told) = updated(r, input, charge, now);
            &&& after.goal matches Some(g) && g.status == GoalStatus::Complete
                && lifecycle::same_goal(r.goal->0, g)
            &&& !told.is_error
            &&& runtime::idle_looked(after, later).1 is None
            &&& runtime::goal_created(after, objective, limits, id, next, later).1 is Ok
        }),
{
    let after = updated(r, input, charge, now).0;
    lifecycle::settling_keeps_the_goal(after, next, later);
}

/// An active goal that the model calls blocked is stopped: blocked, or out of budget where that came
/// first. Nothing continues before it is resumed.
pub proof fn a_goal_called_blocked_stops(
    r: RuntimeView,
    input: JsonSpec,
    charge: Charge,
    now: Moment,
    later: Moment,
)
    requires
        r.goal matches Some(g) && g.status == GoalStatus::Active,
        json::string_field(input, "status"@) == Some("blocked"@),
    ensures
        ({
            let (after, told) = updated(r, input, charge, now);
            &&& after.goal matches Some(g) && (g.status == GoalStatus::Blocked || g.status
                == GoalStatus::BudgetLimited) && lifecycle::same_goal(r.goal->0, g)
            &&& !told.is_error
            &&& runtime::idle_looked(after, later).1 is None
        }),
{
    reveal_strlit("complete");
    reveal_strlit("blocked");
    assert("complete"@[0] == 'c' && "blocked"@[0] == 'b');
}

/// A goal that the model starts is the one it asks for, with the token budget that it gives and no
/// other cap, and the model is shown that goal.
pub proof fn a_goal_asked_for_is_started(
    r: RuntimeView,
    input: JsonSpec,
    objective: Seq<char>,
    id: Seq<char>,
    charge: Charge,
    now: Moment,
)
    requires
        r.goal is None,
        json::string_field(input, "objective"@) == Some(objective),
        lifecycle::objective_usable(objective),
        json::i64_in(json::field_or_null(input, "token_budget"@)) matches Some(n) ==> n > 0,
    ensures
        ({
            let (after, told) = created(r, input, id, charge, now);
            let budget = json::i64_in(json::field_or_null(input, "token_budget"@));
            &&& after.goal matches Some(g) && {
                &&& g.objective == text::trimmed(objective)
                &&& g.goal_id == id
                &&& g.status == GoalStatus::Active
                &&& g.limits.token_budget == budget
                &&& g.limits.cost_cap_usd is None && g.limits.max_iterations is None
                &&& told == answer(Some(g), false)
            }
            &&& !told.is_error
        }),
{
    let limits = GoalLimits {
        token_budget: json::i64_in(json::field_or_null(input, "token_budget"@)),
        ..goal::no_limits()
    };
    lifecycle::a_new_goal_is_the_one_asked_for(r, objective, limits, id, charge, now, now);
}

/// The report is asked for of a goal that is complete and had caps or took time, and of no other.
pub proof fn a_report_is_wanted_of_a_measured_goal(g: GoalView)
    ensures
        g.status != GoalStatus::Complete ==> !wants_report(g),
        g.status == GoalStatus::Complete && g.limits.token_budget is Some ==> wants_report(g),
        g.status == GoalStatus::Complete && g.time_used_seconds > 0 ==> wants_report(g),
        g.limits == goal::no_limits() && g.time_used_seconds == 0 ==> !wants_report(g),
{
}

} // verus!
