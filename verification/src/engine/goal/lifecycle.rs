//! What a goal goes through, from one operation of the runtime to the next.

use crate::engine::goal;
use crate::engine::goal::accounting;
use crate::engine::goal::accounting::{Accounts, TurnLedger};
use crate::engine::goal::prompts::{SteeringKind, SteeringView};
use crate::engine::goal::runtime;
use crate::engine::goal::runtime::{Charge, Moment, RuntimeView, StopReason};
use crate::engine::goal::{GoalAccountingMode, GoalLimits, GoalStatus, GoalView, UpdateView, Usd};
use crate::engine::types::Usage;
use crate::text;
use vstd::prelude::*;

verus! {

/// Work is charged to nothing: no clock runs for a goal, and the live turn has none.
pub open spec fn charges_nothing(a: Accounts) -> bool {
    &&& a.clock.goal is None
    &&& a.current matches Some(turn) ==> a.turns.dom().contains(turn) ==> a.turns[turn].goal is None
}

/// The two are one goal: what the user asked for is the same, whatever was charged in between.
pub open spec fn same_goal(a: GoalView, b: GoalView) -> bool {
    &&& a.goal_id == b.goal_id
    &&& a.objective == b.objective
    &&& a.limits == b.limits
    &&& a.created_at == b.created_at
    &&& a.continuation_deferred == b.continuation_deferred
}

/// The caps may be set: each that is there is above zero.
pub open spec fn limits_positive(l: GoalLimits) -> bool {
    &&& l.token_budget matches Some(n) ==> n > 0
    &&& l.cost_cap_usd matches Some(c) ==> !goal::at_least(goal::no_money(), c)
    &&& l.max_iterations matches Some(n) ==> n > 0
}

/// The text may be an objective: it says something, and is not too long to send with every turn.
pub open spec fn objective_usable(objective: Seq<char>) -> bool {
    0 < text::trimmed(text::trimmed(objective)).len() && text::trimmed(objective).len() <= 12_000
}

/// Settling what is outstanding keeps the goal. Only what was used of it may grow, and only an active
/// one may have run out of budget by it. Nothing else about the runtime changes but the accounts, and
/// the live turn stays the same.
pub proof fn settling_keeps_the_goal(r: RuntimeView, charge: Charge, now: Moment)
    ensures
        ({
            let f = runtime::flushed(r, charge, now);
            &&& f.enabled == r.enabled && f.steering == r.steering
            &&& f.accounts.current == r.accounts.current
            &&& match (r.goal, f.goal) {
                (Some(g), Some(h)) => same_goal(g, h) && (h.status == g.status || (g.status
                    == GoalStatus::Active && h.status == GoalStatus::BudgetLimited)),
                (None, None) => true,
                _ => false,
            }
            &&& r.enabled || f == r
        }),
{
}

/// Where work is charged to nothing, there is nothing to settle.
proof fn lemma_nothing_to_settle(r: RuntimeView, charge: Charge, now: Moment)
    requires
        charges_nothing(r.accounts),
    ensures
        runtime::flushed(r, charge, now) == r,
{
}

/// A cleared goal is gone. The runtime holds none, nothing continues on its own, later work is charged
/// to nothing, there is nothing to pause, resume or edit, and a new goal may start at once.
pub proof fn a_cleared_goal_is_gone(
    r: RuntimeView,
    charge: Charge,
    now: Moment,
    objective: Seq<char>,
    limits: GoalLimits,
    id: Seq<char>,
    next: Charge,
    later: Moment,
)
    requires
        objective_usable(objective),
        limits_positive(limits),
    ensures
        ({
            let after = runtime::cleared(r, charge, now);
            &&& after.goal is None
            &&& after.enabled == r.enabled && after.steering == r.steering
            &&& charges_nothing(after.accounts)
            &&& runtime::idle_looked(after, later).1 is None
            &&& runtime::paused(after, next, later).1 is Err
            &&& runtime::resumed(after, next, later).1 is Err
            &&& runtime::objective_set(after, objective, next, later).1 is Err
            &&& runtime::limits_set(after, limits, next, later).1 is Err
            &&& runtime::goal_created(after, objective, limits, id, next, later).1 is Ok
        }),
{
    let after = runtime::cleared(r, charge, now);
    lemma_nothing_to_settle(after, next, later);
}

/// A new goal is the one asked for: its objective is the text without the space around it, its caps
/// are those given, nothing has been used of it, it is active and it continues on its own.
pub proof fn a_new_goal_is_the_one_asked_for(
    r: RuntimeView,
    objective: Seq<char>,
    limits: GoalLimits,
    id: Seq<char>,
    charge: Charge,
    now: Moment,
    later: Moment,
)
    requires
        r.goal matches Some(g) ==> g.status == GoalStatus::Complete,
        objective_usable(objective),
        limits_positive(limits),
    ensures
        ({
            let (after, answer) = runtime::goal_created(r, objective, limits, id, charge, now);
            &&& answer is Ok
            &&& after.goal == Some(answer->Ok_0)
            &&& after.steering == r.steering && after.enabled == r.enabled
            &&& answer->Ok_0.goal_id == id
            &&& answer->Ok_0.objective == text::trimmed(objective)
            &&& answer->Ok_0.limits == limits
            &&& answer->Ok_0.status == GoalStatus::Active
            &&& answer->Ok_0.tokens_used == 0 && answer->Ok_0.time_used_seconds == 0
            &&& answer->Ok_0.iterations_used == 0 && answer->Ok_0.cost_used_usd == goal::no_money()
            &&& answer->Ok_0.created_at == now.unix && answer->Ok_0.updated_at == now.unix
            &&& r.enabled ==> runtime::idle_looked(after, later).1 == Some(
                SteeringView { kind: SteeringKind::Continuation, goal: answer->Ok_0 },
            )
        }),
{
    settling_keeps_the_goal(r, charge, now);
}

/// An unfinished goal is not replaced: another one is refused, and the goal stays what it was.
pub proof fn an_unfinished_goal_is_not_replaced(
    r: RuntimeView,
    objective: Seq<char>,
    limits: GoalLimits,
    id: Seq<char>,
    charge: Charge,
    now: Moment,
)
    requires
        r.goal matches Some(g) && g.status != GoalStatus::Complete,
    ensures
        ({
            let (after, answer) = runtime::goal_created(r, objective, limits, id, charge, now);
            &&& answer is Err
            &&& after.goal is Some && same_goal(r.goal->0, after.goal->0)
            &&& after.steering == r.steering
        }),
{
    settling_keeps_the_goal(r, charge, now);
}

/// A goal is not taken on an empty or overlong objective, nor with a cap that is not above zero. The
/// runtime is then left as it was.
pub proof fn a_faulty_goal_is_refused(
    r: RuntimeView,
    objective: Seq<char>,
    limits: GoalLimits,
    id: Seq<char>,
    charge: Charge,
    now: Moment,
)
    requires
        !objective_usable(objective) || !limits_positive(limits),
    ensures
        runtime::goal_created(r, objective, limits, id, charge, now).0 == r,
        runtime::goal_created(r, objective, limits, id, charge, now).1 is Err,
        !objective_usable(objective) ==> runtime::objective_set(r, objective, charge, now).0 == r
            && runtime::objective_set(r, objective, charge, now).1 is Err,
        !limits_positive(limits) ==> runtime::limits_set(r, limits, charge, now).0 == r
            && runtime::limits_set(r, limits, charge, now).1 is Err,
{
}

/// Pausing stops an active goal and keeps it: nothing continues, and later work is charged to nothing.
/// Whatever is not active after settling is not paused.
pub proof fn a_paused_goal_waits(r: RuntimeView, charge: Charge, now: Moment, later: Moment)
    ensures
        ({
            let settled = runtime::flushed(r, charge, now).goal;
            let (after, answer) = runtime::paused(r, charge, now);
            if settled is Some && settled->0.status == GoalStatus::Active {
                &&& answer == Ok::<GoalView, Seq<char>>(after.goal->0)
                &&& after.goal is Some && r.goal is Some && same_goal(r.goal->0, after.goal->0)
                &&& after.goal->0.status == GoalStatus::Paused
                &&& after.goal->0.tokens_used == settled->0.tokens_used
                &&& after.goal->0.updated_at == now.unix
                &&& charges_nothing(after.accounts)
                &&& runtime::idle_looked(after, later).1 is None
            } else {
                answer is Err && after.goal == settled
            }
        }),
{
    settling_keeps_the_goal(r, charge, now);
}

/// A paused goal takes up where it stopped: pausing and resuming leave it active, with all that it was
/// and all that had been charged, and it continues on its own again. While it is stopped, nothing is
/// charged for the time that passes.
pub proof fn resuming_undoes_pausing(
    r: RuntimeView,
    charge: Charge,
    now: Moment,
    next: Charge,
    later: Moment,
)
    requires
        r.enabled,
        runtime::flushed(r, charge, now).goal matches Some(g) && g.status == GoalStatus::Active
            && !goal::spent(g),
    ensures
        ({
            let g = runtime::flushed(r, charge, now).goal->0;
            let (after, answer) = runtime::resumed(
                runtime::paused(r, charge, now).0,
                next,
                later,
            );
            &&& answer == Ok::<GoalView, Seq<char>>(GoalView { updated_at: later.unix, ..g })
            &&& after.goal == Some(GoalView { updated_at: later.unix, ..g })
            &&& !g.continuation_deferred ==> runtime::idle_looked(after, later).1 == Some(
                SteeringView { kind: SteeringKind::Continuation, goal: after.goal->0 },
            )
        }),
{
    let paused = runtime::paused(r, charge, now).0;
    lemma_nothing_to_settle(paused, next, later);
}

/// A complete goal is not resumed, and one whose budget is spent is not either before it has a bigger
/// one: neither continues.
pub proof fn a_finished_goal_is_not_resumed(r: RuntimeView, charge: Charge, now: Moment, later: Moment)
    requires
        charges_nothing(r.accounts),
        r.goal matches Some(g) && (g.status == GoalStatus::Complete || (g.status
            != GoalStatus::Active && goal::spent(g))),
    ensures
        ({
            let (after, answer) = runtime::resumed(r, charge, now);
            &&& answer is Err
            &&& after.goal is Some && same_goal(r.goal->0, after.goal->0)
            &&& runtime::idle_looked(after, later).1 is None
        }),
{
    lemma_nothing_to_settle(r, charge, now);
}

/// An edited objective is the one asked for, of the same goal, which is back at work unless its budget
/// is spent. A turn that is running is told when the objective is another one; otherwise nobody is.
pub proof fn an_edited_objective_is_taken(
    r: RuntimeView,
    objective: Seq<char>,
    charge: Charge,
    now: Moment,
)
    requires
        r.goal is Some,
        objective_usable(objective),
    ensures
        ({
            let (after, answer) = runtime::objective_set(r, objective, charge, now);
            let was = r.goal->0;
            &&& answer is Ok && after.goal == Some(answer->Ok_0)
            &&& answer->Ok_0.objective == text::trimmed(objective)
            &&& answer->Ok_0.goal_id == was.goal_id && answer->Ok_0.limits == was.limits
            &&& answer->Ok_0.created_at == was.created_at
            &&& answer->Ok_0.status == (if goal::spent(answer->Ok_0) {
                GoalStatus::BudgetLimited
            } else {
                GoalStatus::Active
            })
            &&& if r.accounts.current is Some && was.objective != text::trimmed(objective) {
                after.steering == r.steering.push(
                    SteeringView { kind: SteeringKind::ObjectiveUpdated, goal: answer->Ok_0 },
                )
            } else {
                after.steering == r.steering
            }
        }),
{
    settling_keeps_the_goal(r, charge, now);
}

/// Changed caps are the ones asked for, of the same goal. A goal that goes on is within them; one that
/// was stopped stays stopped.
pub proof fn changed_caps_are_taken(r: RuntimeView, limits: GoalLimits, charge: Charge, now: Moment)
    requires
        r.goal is Some,
        limits_positive(limits),
    ensures
        ({
            let (after, answer) = runtime::limits_set(r, limits, charge, now);
            let was = r.goal->0;
            &&& answer is Ok && after.goal == Some(answer->Ok_0)
            &&& answer->Ok_0.limits == limits
            &&& answer->Ok_0.goal_id == was.goal_id && answer->Ok_0.objective == was.objective
            &&& answer->Ok_0.status == GoalStatus::Active ==> !goal::spent(answer->Ok_0)
            &&& was.status != GoalStatus::Active ==> answer->Ok_0.status == was.status
            &&& was.status == GoalStatus::Active ==> (answer->Ok_0.status == GoalStatus::Active
                || answer->Ok_0.status == GoalStatus::BudgetLimited)
            &&& after.steering == r.steering
        }),
{
    settling_keeps_the_goal(r, charge, now);
}

/// The runtime once a turn has told what it has used so far.
pub open spec fn used(r: RuntimeView, turn: Seq<char>, usage: Usage, cost: Usd) -> RuntimeView {
    RuntimeView {
        accounts: accounting::with_turn(
            r.accounts,
            turn,
            TurnLedger {
                current_usage: usage,
                current_cost: cost,
                ..r.accounts.turns[turn]
            },
        ),
        ..r
    }
}

/// A turn is charged to the active goal with what it used: the tokens sent and received since it
/// started, without those read from the cache, the whole seconds that the goal was worked on, and the
/// cost. The goal of a turn that only starts and stops at once is charged nothing. After it the turn
/// is over, and the goal is active still or out of budget.
pub proof fn a_turn_is_charged_what_it_used(
    r: RuntimeView,
    turn: Seq<char>,
    start: Usage,
    end: Usage,
    before: Usd,
    cost: Usd,
    charge: Charge,
    begin: Moment,
    now: Moment,
)
    requires
        r.enabled,
        r.goal matches Some(g) && g.status == GoalStatus::Active && r.accounts.clock.goal != Some(
            g.goal_id,
        ),
        start.input_tokens <= end.input_tokens <= i32::MAX,
        start.output_tokens <= end.output_tokens <= i32::MAX,
        start.cache_read <= end.cache_read,
        end.cache_read - start.cache_read <= end.input_tokens - start.input_tokens,
        r.goal->0.tokens_used <= i32::MAX,
        r.goal->0.time_used_seconds <= i32::MAX,
        begin.nanos <= now.nanos,
        charge.delta == goal::no_money(),
    ensures
        ({
            let g = r.goal->0;
            let fresh = (end.input_tokens - start.input_tokens) - (end.cache_read - start.cache_read)
                + (end.output_tokens - start.output_tokens);
            let seconds = (now.nanos - begin.nanos) / 1_000_000_000;
            let running = used(
                runtime::turn_started(r, turn, start, before, begin),
                turn,
                end,
                cost,
            );
            let after = runtime::turn_stopped(running, turn, charge, now);
            &&& after.goal is Some
            &&& after.goal->0.tokens_used == g.tokens_used + fresh
            &&& after.goal->0.time_used_seconds == g.time_used_seconds + seconds
            &&& after.goal->0.iterations_used == g.iterations_used
            &&& after.goal->0.goal_id == g.goal_id && after.goal->0.objective == g.objective
            &&& after.goal->0.limits == g.limits
            &&& !after.goal->0.continuation_deferred
            &&& fresh > 0 || seconds > 0 ==> {
                &&& after.goal->0.cost_used_usd == charge.total
                &&& after.goal->0.status == (if goal::spent(after.goal->0) {
                    GoalStatus::BudgetLimited
                } else {
                    GoalStatus::Active
                })
            }
            &&& fresh == 0 && seconds == 0 ==> after.goal == goal::undeferred(r.goal)
            &&& after.accounts.current is None
            &&& !after.accounts.turns.dom().contains(turn)
            &&& after.steering == r.steering
        }),
{
    let running = used(runtime::turn_started(r, turn, start, before, begin), turn, end, cost);
    let t = running.accounts.turns[turn];
    assert(t.last_usage == start && t.current_usage == end);
    assert(t.goal == Some(r.goal->0.goal_id));
    assert(running.accounts.clock.last == begin.nanos);
    assert(accounting::seconds_since(running.accounts.clock, now.nanos) <= i64::MAX);
    let d = accounting::delta_of(running.accounts, t, charge.delta, now.nanos);
    assert(goal::cost_clamped(goal::no_money()) == goal::no_money());
    assert(goal::at_least(goal::no_money(), goal::no_money()));
}

/// The turn that spends the last of a goal's budget is asked to wrap up, with the goal as it stands.
pub proof fn reaching_a_cap_asks_for_a_wrap_up(
    r: RuntimeView,
    turn: Seq<char>,
    tool: Seq<char>,
    charge: Charge,
    now: Moment,
)
    requires
        r.enabled,
        tool != "update_goal"@,
        r.goal matches Some(g) && g.status == GoalStatus::Active && r.accounts.reported is None,
        runtime::tool_finished(r, turn, tool, charge, now).goal matches Some(h) && h.status
            == GoalStatus::BudgetLimited,
    ensures
        ({
            let after = runtime::tool_finished(r, turn, tool, charge, now);
            after.steering == r.steering.push(
                SteeringView { kind: SteeringKind::BudgetLimit, goal: after.goal->0 },
            )
        }),
{
}

/// A turn that fails says in the goal why it stopped: an error blocks it, a usage limit of the provider
/// marks it so. A goal that was stopped already keeps its status.
pub proof fn a_failed_turn_marks_the_goal(
    r: RuntimeView,
    turn: Seq<char>,
    reason: StopReason,
    charge: Charge,
    now: Moment,
)
    requires
        r.enabled,
        r.accounts.current == Some(turn),
        r.accounts.turns.dom().contains(turn),
        r.accounts.turns[turn].account_tokens,
        r.accounts.turns[turn].goal is Some,
        r.goal is Some,
    ensures
        ({
            let after = runtime::turn_failed(r, turn, reason, charge, now);
            let was = r.goal->0.status;
            &&& after.goal is Some && same_goal(r.goal->0, after.goal->0)
            &&& was == GoalStatus::Active ==> after.goal->0.status == (match reason {
                StopReason::UsageLimit => GoalStatus::UsageLimited,
                StopReason::TurnError => if after.goal->0.status == GoalStatus::BudgetLimited {
                    GoalStatus::BudgetLimited
                } else {
                    GoalStatus::Blocked
                },
            })
            &&& was != GoalStatus::Active && was != GoalStatus::BudgetLimited
                ==> after.goal->0.status == was
            &&& after.accounts.current is None
            &&& after.accounts.clock.goal is None
            &&& !after.accounts.turns.dom().contains(turn)
        }),
{
}

/// The status of the goal, and that alone, is what the model's own verdict changes.
pub proof fn a_verdict_changes_the_status_alone(g: GoalView, status: GoalStatus, now: u64)
    requires
        status == GoalStatus::Complete || (status == GoalStatus::Blocked && g.status
            == GoalStatus::Active),
    ensures
        goal::slot_edited(
            Some(g),
            UpdateView { status: Some(status), ..goal::no_update() },
            now,
        ) == Some(GoalView { status, updated_at: now, ..g }),
        goal::edit_answer(
            Some(g),
            UpdateView { status: Some(status), ..goal::no_update() },
            now,
        ) == Some(GoalView { status, updated_at: now, ..g }),
{
}

/// An edit changes what it names, of the goal that it is meant for, and nothing else.
pub proof fn an_edit_changes_what_it_names(g: GoalView, u: UpdateView, now: u64)
    ensures
        ({
            let after = goal::slot_edited(Some(g), u, now);
            &&& after is Some
            &&& (u.expected_goal_id is Some && u.expected_goal_id->0 != g.goal_id) ==> after == Some(g)
            &&& (u.expected_goal_id is None || u.expected_goal_id->0 == g.goal_id) ==> {
                &&& after->0.objective == (if u.objective is Some {
                    u.objective->0
                } else {
                    g.objective
                })
                &&& after->0.limits == (if u.limits is Some {
                    u.limits->0
                } else {
                    g.limits
                })
                &&& u.status is None && g.status != GoalStatus::Active ==> after->0.status
                    == g.status
                &&& after->0.updated_at == now
            }
            &&& after->0.goal_id == g.goal_id && after->0.created_at == g.created_at
            &&& after->0.tokens_used == g.tokens_used
            &&& after->0.time_used_seconds == g.time_used_seconds
            &&& after->0.cost_used_usd == g.cost_used_usd
            &&& after->0.iterations_used == g.iterations_used
            &&& after->0.continuation_deferred == g.continuation_deferred
        }),
{
}

/// A charge adds up: tokens, seconds and turns are added to what was used, and the goal is out of
/// budget once one of its caps is reached.
pub proof fn a_charge_is_added(
    g: GoalView,
    seconds: i64,
    tokens: i64,
    turns: u32,
    cost: Usd,
    total: Usd,
    now: u64,
)
    requires
        g.status == GoalStatus::Active,
        seconds >= 0,
        tokens >= 0,
        seconds + tokens + turns > 0,
        g.tokens_used + tokens <= i64::MAX,
        g.time_used_seconds + seconds <= i64::MAX,
        g.iterations_used + turns <= u32::MAX,
    ensures
        ({
            let after = goal::slot_charged(
                Some(g),
                goal::UsageDelta { seconds, tokens, cost_usd: cost, iterations: turns },
                GoalAccountingMode::ActiveOnly,
                Some(g.goal_id),
                total,
                now,
            );
            &&& after is Some && same_goal(g, after->0)
            &&& after->0.tokens_used == g.tokens_used + tokens
            &&& after->0.time_used_seconds == g.time_used_seconds + seconds
            &&& after->0.iterations_used == g.iterations_used + turns
            &&& after->0.cost_used_usd == total
            &&& after->0.status == GoalStatus::BudgetLimited <==> {
                ||| g.limits.token_budget matches Some(n) && g.tokens_used + tokens >= n
                ||| g.limits.max_iterations matches Some(n) && g.iterations_used + turns >= n
                ||| g.limits.cost_cap_usd matches Some(c) && goal::at_least(total, c)
            }
            &&& after->0.status == GoalStatus::BudgetLimited || after->0.status == GoalStatus::Active
        }),
{
}

} // verus!
