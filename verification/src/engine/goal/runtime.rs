//! Drives a goal through the turn life cycle.
//!
//! [`GoalRuntime`] is the single object the agent loop and the UI talk to. It owns the store and the
//! accounting state, charges usage at the points a turn passes through, and produces the hidden
//! steering messages the loop injects. Nothing here starts a turn: `continue_if_idle` hands back a
//! prompt and the caller decides whether to run it, which keeps the automatic loop interruptible.

use crate::engine::goal;
use crate::engine::goal::accounting;
use crate::engine::goal::accounting::{Accounts, BudgetDisposition, GoalAccountingState};
use crate::engine::goal::prompts::{Steering, SteeringKind, SteeringView};
use crate::engine::goal::{
    AccountingOutcomeView, Goal, GoalAccountingMode, GoalAccountingOutcome, GoalLimits, GoalStatus,
    GoalStore, GoalUpdate, GoalView, UpdateView, Usd,
};
use crate::engine::types::Usage;
use crate::text;
use vstd::prelude::*;
use vstd::string::*;

verus! {

broadcast use crate::text::views_push;

/// Why an in-flight turn stopped a goal.
#[derive(Debug, Clone, Copy, PartialEq, Eq, Structural)]
pub enum StopReason {
    /// The turn ended on a non-retryable error. Block the goal so the automatic loop can't spin on
    /// the same failure and burn the budget.
    TurnError,
    /// The provider reported a usage/quota limit.
    UsageLimit,
}

/// A moment: seconds since the Unix epoch, and the monotonic clock in nanoseconds.
#[derive(Debug, Clone, Copy, PartialEq, Eq, Structural)]
pub struct Moment {
    pub unix: u64,
    pub nanos: u64,
}

/// What to charge in money: what the cost of a turn grew by, and the goal's cost with that added.
/// [`GoalRuntime::cost_operands`] gives what it is computed from.
#[derive(Debug, Clone, Copy, PartialEq, Eq, Structural)]
pub struct Charge {
    pub delta: Usd,
    pub total: Usd,
}

/// What a [`Charge`] is computed from: the delta is `current` less `last`, but not below zero; the
/// total is `charged` plus the delta.
#[derive(Debug, Clone, Copy, PartialEq, Eq, Structural)]
pub struct CostOperands {
    pub current: Usd,
    pub last: Usd,
    pub charged: Usd,
}

/// Goal state machine plus the steering queue the agent loop drains.
pub struct GoalRuntime {
    store: GoalStore,
    accounting: GoalAccountingState,
    enabled: bool,
    /// Hidden messages waiting to be injected before the next model request.
    pending_steering: Vec<Steering>,
}

/// The mathematical value of a [`GoalRuntime`].
pub struct RuntimeView {
    pub goal: Option<GoalView>,
    pub accounts: Accounts,
    pub enabled: bool,
    pub steering: Seq<SteeringView>,
}

impl View for GoalRuntime {
    type V = RuntimeView;

    closed spec fn view(&self) -> RuntimeView {
        RuntimeView {
            goal: self.store@,
            accounts: self.accounting@,
            enabled: self.enabled,
            steering: text::views(self.pending_steering@),
        }
    }
}

// ---- what the operations do -----------------------------------------------------------------

/// Charging what is outstanding on a turn: the runtime after it, and the goal that was charged.
pub open spec fn progress_charged(
    r: RuntimeView,
    turn: Seq<char>,
    mode: GoalAccountingMode,
    disposition: BudgetDisposition,
    charge: Charge,
    now: Moment,
) -> (RuntimeView, Option<GoalView>) {
    match accounting::snapshot_of(r.accounts, turn, charge.delta, now.nanos) {
        None => (r, None),
        Some(s) => match goal::charge_answer(
            r.goal,
            s.delta,
            mode,
            Some(s.expected_goal_id),
            charge.total,
            now.unix,
        ) {
            AccountingOutcomeView::Updated(g) => (
                RuntimeView {
                    goal: Some(g),
                    accounts: accounting::progress_marked(
                        r.accounts,
                        turn,
                        s,
                        g.status,
                        disposition,
                        now.nanos,
                    ),
                    ..r
                },
                Some(g),
            ),
            AccountingOutcomeView::Unchanged(_) => (r, None),
        },
    }
}

/// Charging the time that passed while idle.
pub open spec fn idle_charged(r: RuntimeView, total: Usd, now: Moment) -> RuntimeView {
    let seconds = accounting::seconds_since(r.accounts.clock, now.nanos);
    if r.accounts.clock.goal is None || seconds == 0 {
        r
    } else {
        match goal::charge_answer(
            r.goal,
            goal::UsageDelta { seconds: seconds as i64, ..goal::no_delta() },
            GoalAccountingMode::ActiveOnly,
            r.accounts.clock.goal,
            total,
            now.unix,
        ) {
            AccountingOutcomeView::Updated(g) => RuntimeView {
                goal: Some(g),
                accounts: accounting::idle_marked(
                    r.accounts,
                    seconds as i64,
                    g.status,
                    BudgetDisposition::ClearActive,
                    now.nanos,
                ),
                ..r
            },
            AccountingOutcomeView::Unchanged(_) => RuntimeView {
                accounts: Accounts {
                    clock: accounting::clock_cleared(now.nanos),
                    reported: None,
                    ..r.accounts
                },
                ..r
            },
        }
    }
}

/// Charging everything outstanding before the goal changes underneath the accounting.
pub open spec fn flushed(r: RuntimeView, charge: Charge, now: Moment) -> RuntimeView {
    if !r.enabled {
        r
    } else {
        match r.accounts.current {
            Some(turn) => progress_charged(
                r,
                turn,
                GoalAccountingMode::ActiveOnly,
                BudgetDisposition::ClearActive,
                charge,
                now,
            ).0,
            None => idle_charged(r, charge.total, now),
        }
    }
}

/// The accounting with a goal attached: to the live turn, or to the idle clock.
pub open spec fn goal_attached(a: Accounts, id: Seq<char>, nanos: u64) -> Accounts {
    let b = accounting::current_attached(a, id, nanos);
    if accounting::live_turn(a) is Some {
        b
    } else {
        accounting::idle_attached(b, id, nanos)
    }
}

/// The accounting after the user changed a goal.
pub open spec fn reattached(a: Accounts, g: GoalView, nanos: u64) -> Accounts {
    if g.status == GoalStatus::Active {
        goal_attached(a, g.goal_id, nanos)
    } else {
        accounting::goal_cleared(a, nanos)
    }
}

/// A turn begins.
pub open spec fn turn_started(
    r: RuntimeView,
    turn: Seq<char>,
    usage: Usage,
    cost: Usd,
    now: Moment,
) -> RuntimeView {
    if !r.enabled {
        r
    } else {
        let goal = goal::undeferred(r.goal);
        let begun = Accounts {
            current: Some(turn),
            turns: r.accounts.turns.insert(turn, accounting::turn_begun(usage, cost, true)),
            ..r.accounts
        };
        RuntimeView {
            goal,
            accounts: match goal {
                Some(g) => if g.status == GoalStatus::Active || g.status
                    == GoalStatus::BudgetLimited {
                    accounting::turn_attached(begun, turn, g.goal_id, now.nanos)
                } else {
                    begun
                },
                None => begun,
            },
            ..r
        }
    }
}

/// A tool has finished. When this is what pushes the goal over a cap, the wrap-up prompt is queued,
/// once for a goal. `update_goal` is bookkeeping about the goal, not progress on it.
pub open spec fn tool_finished(
    r: RuntimeView,
    turn: Seq<char>,
    tool: Seq<char>,
    charge: Charge,
    now: Moment,
) -> RuntimeView {
    if !r.enabled || tool == "update_goal"@ {
        r
    } else {
        let (after, charged) = progress_charged(
            r,
            turn,
            GoalAccountingMode::ActiveOnly,
            BudgetDisposition::KeepActive,
            charge,
            now,
        );
        match charged {
            Some(g) => if g.status != GoalStatus::BudgetLimited {
                after
            } else {
                RuntimeView {
                    accounts: Accounts { reported: Some(g.goal_id), ..after.accounts },
                    steering: if after.accounts.reported == Some(g.goal_id) {
                        after.steering
                    } else {
                        after.steering.push(
                            SteeringView { kind: SteeringKind::BudgetLimit, goal: g },
                        )
                    },
                    ..after
                }
            },
            None => after,
        }
    }
}

pub open spec fn turn_dropped(a: Accounts, turn: Seq<char>) -> Accounts {
    Accounts {
        current: if a.current == Some(turn) {
            None
        } else {
            a.current
        },
        turns: a.turns.remove(turn),
        ..a
    }
}

/// A turn ends: what is left is charged, and the goal is detached.
pub open spec fn turn_stopped(
    r: RuntimeView,
    turn: Seq<char>,
    charge: Charge,
    now: Moment,
) -> RuntimeView {
    if !r.enabled {
        r
    } else {
        let after = progress_charged(
            r,
            turn,
            GoalAccountingMode::ActiveOnly,
            BudgetDisposition::ClearActive,
            charge,
            now,
        ).0;
        RuntimeView { accounts: turn_dropped(after.accounts, turn), ..after }
    }
}

/// The live turn is this one, and it charges a goal.
pub open spec fn turn_charges_goal(a: Accounts, turn: Seq<char>) -> bool {
    a.current == Some(turn) && a.turns.dom().contains(turn) && a.turns[turn].account_tokens
        && a.turns[turn].goal is Some
}

/// The status that a failed turn leaves a goal in.
pub open spec fn stop_status(reason: StopReason) -> GoalStatus {
    match reason {
        StopReason::TurnError => GoalStatus::Blocked,
        StopReason::UsageLimit => GoalStatus::UsageLimited,
    }
}

pub open spec fn status_update(status: GoalStatus, id: Option<Seq<char>>) -> UpdateView {
    UpdateView { status: Some(status), expected_goal_id: id, ..goal::no_update() }
}

/// A goal after its turn failed.
pub open spec fn goal_failed(slot: Option<GoalView>, status: GoalStatus, unix: u64) -> Option<
    GoalView,
> {
    match slot {
        Some(g) => if g.status == GoalStatus::Active || (g.status == GoalStatus::BudgetLimited
            && status == GoalStatus::UsageLimited) {
            goal::slot_edited(slot, status_update(status, Some(g.goal_id)), unix)
        } else {
            slot
        },
        None => None,
    }
}

/// A turn fails: the goal stops, so that the automatic loop doesn't retry forever.
pub open spec fn turn_failed(
    r: RuntimeView,
    turn: Seq<char>,
    reason: StopReason,
    charge: Charge,
    now: Moment,
) -> RuntimeView {
    if !r.enabled {
        r
    } else if !turn_charges_goal(r.accounts, turn) {
        RuntimeView { accounts: turn_dropped(r.accounts, turn), ..r }
    } else {
        let after = progress_charged(
            r,
            turn,
            GoalAccountingMode::ActiveOnly,
            BudgetDisposition::ClearActive,
            charge,
            now,
        ).0;
        RuntimeView {
            goal: goal_failed(after.goal, stop_status(reason), now.unix),
            accounts: turn_dropped(accounting::goal_cleared(after.accounts, now.nanos), turn),
            ..after
        }
    }
}

/// The session is idle: the runtime after looking, and the prompt that carries the goal on.
pub open spec fn idle_looked(r: RuntimeView, now: Moment) -> (RuntimeView, Option<SteeringView>) {
    let cleared = RuntimeView {
        accounts: accounting::goal_cleared(r.accounts, now.nanos),
        ..r
    };
    if !r.enabled {
        (cleared, None)
    } else {
        match r.goal {
            None => (r, None),
            Some(g) => if g.continuation_deferred {
                (r, None)
            } else if g.status != GoalStatus::Active {
                (cleared, None)
            } else {
                (
                    RuntimeView {
                        accounts: accounting::idle_attached(r.accounts, g.goal_id, now.nanos),
                        ..r
                    },
                    Some(SteeringView { kind: SteeringKind::Continuation, goal: g }),
                )
            },
        }
    }
}

/// The session was resumed.
pub open spec fn resumed_session(r: RuntimeView, now: Moment) -> RuntimeView {
    if !r.enabled {
        r
    } else {
        RuntimeView {
            accounts: match r.goal {
                Some(g) => if g.status == GoalStatus::Active {
                    accounting::idle_attached(r.accounts, g.goal_id, now.nanos)
                } else {
                    accounting::goal_cleared(r.accounts, now.nanos)
                },
                None => accounting::goal_cleared(r.accounts, now.nanos),
            },
            ..r
        }
    }
}

/// Creating a goal: the runtime after it, and the goal or the reason why not.
pub open spec fn goal_created(
    r: RuntimeView,
    objective: Seq<char>,
    limits: GoalLimits,
    id: Seq<char>,
    charge: Charge,
    now: Moment,
) -> (RuntimeView, Result<GoalView, Seq<char>>) {
    let objective = text::trimmed(objective);
    match goal::objective_fault(objective) {
        Some(e) => (r, Err(e)),
        None => match goal::limits_fault(limits) {
            Some(e) => (r, Err(e)),
            None => {
                let f = flushed(r, charge, now);
                let g = goal::new_goal(id, objective, GoalStatus::Active, limits, now.unix);
                if goal::may_insert(f.goal) {
                    (
                        RuntimeView {
                            goal: Some(g),
                            accounts: goal_attached(f.accounts, id, now.nanos),
                            ..f
                        },
                        Ok(g),
                    )
                } else {
                    (
                        f,
                        Err(
                            "cannot create a new goal because this session has an unfinished goal; complete the existing goal first"@,
                        ),
                    )
                }
            },
        },
    }
}

/// Editing the objective: the goal is put back to work, and a running turn is told.
pub open spec fn objective_set(
    r: RuntimeView,
    objective: Seq<char>,
    charge: Charge,
    now: Moment,
) -> (RuntimeView, Result<GoalView, Seq<char>>) {
    let objective = text::trimmed(objective);
    match goal::objective_fault(objective) {
        Some(e) => (r, Err(e)),
        None => match r.goal {
            None => (r, Err("no goal to edit"@)),
            Some(existing) => {
                let f = flushed(r, charge, now);
                let u = UpdateView {
                    objective: Some(objective),
                    ..status_update(GoalStatus::Active, Some(existing.goal_id))
                };
                match goal::edit_answer(f.goal, u, now.unix) {
                    None => (f, Err("no goal to edit"@)),
                    Some(g) => {
                        let accounts = reattached(f.accounts, g, now.nanos);
                        (
                            RuntimeView {
                                goal: Some(g),
                                accounts,
                                steering: if existing.objective != objective && accounts.current
                                    is Some {
                                    f.steering.push(
                                        SteeringView {
                                            kind: SteeringKind::ObjectiveUpdated,
                                            goal: g,
                                        },
                                    )
                                } else {
                                    f.steering
                                },
                                ..f
                            },
                            Ok(g),
                        )
                    },
                }
            },
        },
    }
}

/// Changing the caps.
pub open spec fn limits_set(r: RuntimeView, limits: GoalLimits, charge: Charge, now: Moment) -> (
    RuntimeView,
    Result<GoalView, Seq<char>>,
) {
    match goal::limits_fault(limits) {
        Some(e) => (r, Err(e)),
        None => {
            let f = flushed(r, charge, now);
            let u = UpdateView { limits: Some(limits), ..goal::no_update() };
            match goal::edit_answer(f.goal, u, now.unix) {
                None => (f, Err("no goal to update"@)),
                Some(g) => (
                    RuntimeView {
                        goal: Some(g),
                        accounts: reattached(f.accounts, g, now.nanos),
                        ..f
                    },
                    Ok(g),
                ),
            }
        },
    }
}

/// Pausing.
pub open spec fn paused(r: RuntimeView, charge: Charge, now: Moment) -> (
    RuntimeView,
    Result<GoalView, Seq<char>>,
) {
    let f = flushed(r, charge, now);
    match goal::stop_answer(f.goal, GoalStatus::Paused, now.unix) {
        None => (f, Err("no active goal to pause"@)),
        Some(g) => (
            RuntimeView {
                goal: Some(g),
                accounts: accounting::goal_cleared(f.accounts, now.nanos),
                ..f
            },
            Ok(g),
        ),
    }
}

/// Resuming: a goal stopped by its own budget needs a bigger budget first.
pub open spec fn resumed(r: RuntimeView, charge: Charge, now: Moment) -> (
    RuntimeView,
    Result<GoalView, Seq<char>>,
) {
    match r.goal {
        None => (r, Err("no goal to resume"@)),
        Some(existing) => if existing.status == GoalStatus::Complete {
            (r, Err("the goal is already complete"@))
        } else if existing.status == GoalStatus::Active {
            (
                RuntimeView { accounts: reattached(r.accounts, existing, now.nanos), ..r },
                Ok(existing),
            )
        } else {
            let f = flushed(r, charge, now);
            let u = status_update(GoalStatus::Active, Some(existing.goal_id));
            match goal::edit_answer(f.goal, u, now.unix) {
                None => (f, Err("no goal to resume"@)),
                Some(g) => if g.status == GoalStatus::BudgetLimited {
                    (
                        RuntimeView { goal: Some(g), ..f },
                        Err(
                            "the goal is out of "@ + crate::engine::goal::prompts::cause_named(g)
                                + " — raise the budget before resuming"@,
                        ),
                    )
                } else {
                    (
                        RuntimeView {
                            goal: Some(g),
                            accounts: reattached(f.accounts, g, now.nanos),
                            ..f
                        },
                        Ok(g),
                    )
                },
            }
        },
    }
}

/// Dropping the goal.
pub open spec fn cleared(r: RuntimeView, charge: Charge, now: Moment) -> RuntimeView {
    let f = flushed(r, charge, now);
    RuntimeView { goal: None, accounts: accounting::goal_cleared(f.accounts, now.nanos), ..f }
}

/// The live turn no longer works on the goal.
pub open spec fn goal_detached(r: RuntimeView, now: Moment) -> RuntimeView {
    RuntimeView {
        accounts: if r.accounts.current is Some {
            accounting::goal_cleared(r.accounts, now.nanos)
        } else {
            r.accounts
        },
        ..r
    }
}

/// The mode in which the model's own `update_goal` call is charged: it must be able to bill the goal
/// that it is about to finish.
pub open spec fn goal_tool_mode(status: GoalStatus) -> GoalAccountingMode {
    if status == GoalStatus::Complete {
        GoalAccountingMode::ActiveOrComplete
    } else {
        GoalAccountingMode::ActiveOrStopped
    }
}

/// The charge of an `update_goal` call.
pub open spec fn goal_tool_charged(
    r: RuntimeView,
    status: GoalStatus,
    charge: Charge,
    now: Moment,
) -> RuntimeView {
    match r.accounts.current {
        Some(turn) => progress_charged(
            r,
            turn,
            goal_tool_mode(status),
            BudgetDisposition::ClearActive,
            charge,
            now,
        ).0,
        None => r,
    }
}

// ---- what holds of them ---------------------------------------------------------------------

/// The wrap-up prompt of a goal is queued once: while it is the goal whose spent budget was last
/// reported, finishing another tool queues nothing more for it.
pub proof fn wrap_up_is_queued_once(
    r: RuntimeView,
    turn: Seq<char>,
    tool: Seq<char>,
    charge: Charge,
    now: Moment,
)
    requires
        r.goal matches Some(g) && r.accounts.reported == Some(g.goal_id),
    ensures
        tool_finished(r, turn, tool, charge, now).steering == r.steering,
{
}

/// Nothing runs on its own but an active goal: a prompt comes back only for a goal that is active and
/// whose continuation is not deferred, and only while goals are enabled.
pub proof fn only_an_active_goal_continues(r: RuntimeView, now: Moment)
    ensures
        idle_looked(r, now).1 is Some <==> r.enabled && (r.goal matches Some(g)
            && g.status == GoalStatus::Active && !g.continuation_deferred),
{
}

/// A turn that fails while it charges a goal stops that goal: nothing continues on its own afterwards.
pub proof fn a_failed_turn_stops_the_loop(
    r: RuntimeView,
    turn: Seq<char>,
    reason: StopReason,
    charge: Charge,
    now: Moment,
    later: Moment,
)
    requires
        r.enabled,
        turn_charges_goal(r.accounts, turn),
    ensures
        idle_looked(turn_failed(r, turn, reason, charge, now), later).1 is None,
{
}

/// A goal restored from disk waits for the user: nothing continues before a turn has started.
pub proof fn a_restored_goal_waits(r: RuntimeView, saved: Option<GoalView>, now: Moment)
    requires
        r.goal == goal::deferred(saved),
    ensures
        idle_looked(resumed_session(r, now), now).1 is None,
{
}

/// A disabled runtime leaves the goal alone through the whole life of a turn.
pub proof fn a_disabled_runtime_charges_nothing(
    r: RuntimeView,
    turn: Seq<char>,
    tool: Seq<char>,
    usage: Usage,
    cost: Usd,
    reason: StopReason,
    charge: Charge,
    now: Moment,
)
    requires
        !r.enabled,
    ensures
        turn_started(r, turn, usage, cost, now) == r,
        tool_finished(r, turn, tool, charge, now) == r,
        turn_stopped(r, turn, charge, now) == r,
        turn_failed(r, turn, reason, charge, now) == r,
{
}

// ---- the operations -------------------------------------------------------------------------

pub open spec fn goal_result(r: Result<Goal, String>) -> Result<GoalView, Seq<char>> {
    match r {
        Ok(g) => Ok(g@),
        Err(e) => Err(e@),
    }
}

impl GoalRuntime {
    pub fn new(store: GoalStore, enabled: bool, now: Moment) -> (r: GoalRuntime)
        ensures
            r@ == (RuntimeView {
                goal: store@,
                accounts: Accounts {
                    current: None,
                    turns: Map::empty(),
                    clock: accounting::clock_cleared(now.nanos),
                    reported: None,
                },
                enabled,
                steering: seq![],
            }),
    {
        let pending_steering: Vec<Steering> = Vec::new();
        proof {
            text::views_empty(pending_steering@);
        }
        GoalRuntime {
            store,
            accounting: GoalAccountingState::new(now.nanos),
            enabled,
            pending_steering,
        }
    }

    /// A disabled runtime without a goal (tests, `goal.enabled = false`).
    pub fn disabled(now: Moment) -> (r: GoalRuntime)
        ensures
            r@ == (RuntimeView {
                goal: None,
                accounts: Accounts {
                    current: None,
                    turns: Map::empty(),
                    clock: accounting::clock_cleared(now.nanos),
                    reported: None,
                },
                enabled: false,
                steering: seq![],
            }),
    {
        GoalRuntime::new(GoalStore::ephemeral(), false, now)
    }

    /// Point the runtime at a different session's goal (new session, resume, fork).
    pub fn rebind(&mut self, store: GoalStore, now: Moment)
        ensures
            final(self)@ == (RuntimeView {
                goal: store@,
                accounts: accounting::goal_cleared(old(self)@.accounts, now.nanos),
                enabled: old(self)@.enabled,
                steering: seq![],
            }),
    {
        self.store = store;
        self.accounting.clear_active_goal(now.nanos);
        self.pending_steering = Vec::new();
        proof {
            text::views_empty(self.pending_steering@);
        }
    }

    pub fn goal(&self) -> (r: Option<Goal>)
        ensures
            goal::opt_goal(r) == self@.goal,
    {
        self.store.get()
    }

    pub fn is_enabled(&self) -> (r: bool)
        ensures
            r == self@.enabled,
    {
        self.enabled
    }

    pub fn set_enabled(&mut self, enabled: bool)
        ensures
            final(self)@ == (RuntimeView { enabled, ..old(self)@ }),
    {
        self.enabled = enabled;
    }

    /// Hidden messages to inject before the next model request, if any.
    pub fn take_pending_steering(&mut self) -> (r: Vec<Steering>)
        ensures
            text::views(r@) == old(self)@.steering,
            final(self)@ == (RuntimeView { steering: seq![], ..old(self)@ }),
    {
        let mut taken: Vec<Steering> = Vec::new();
        std::mem::swap(&mut taken, &mut self.pending_steering);
        proof {
            text::views_empty(self.pending_steering@);
        }
        taken
    }

    /// The live turn.
    pub fn current_turn_id(&self) -> (r: Option<String>)
        ensures
            text::opt_view(r) == self@.accounts.current,
    {
        self.accounting.current_turn_id()
    }

    /// What the charge for a turn is computed from. A turn that is not known costs nothing.
    pub fn cost_operands(&self, turn_id: &str) -> (r: CostOperands)
        ensures
            ({
                let turns = self@.accounts.turns;
                let (current, last) = if turns.dom().contains(turn_id@) {
                    (turns[turn_id@].current_cost, turns[turn_id@].last_cost)
                } else {
                    (goal::no_money(), goal::no_money())
                };
                r == (CostOperands {
                    current,
                    last,
                    charged: match self@.goal {
                        Some(g) => g.cost_used_usd,
                        None => goal::no_money(),
                    },
                })
            }),
    {
        let (current, last) = match self.accounting.cost_operands(turn_id) {
            Some(p) => p,
            None => (Usd::zero(), Usd::zero()),
        };
        let charged = match self.store.get() {
            Some(g) => g.cost_used_usd,
            None => Usd::zero(),
        };
        CostOperands { current, last, charged }
    }

    // -- turn life cycle ----------------------------------------------------------------------

    /// Begin a turn: clear a deferred continuation and attach the goal so its work is charged.
    /// `cost` is the cost of the usage so far.
    pub fn on_turn_start(&mut self, turn_id: &str, usage_at_start: Usage, cost: Usd, now: Moment)
        ensures
            final(self)@ == turn_started(old(self)@, turn_id@, usage_at_start, cost, now),
    {
        if !self.enabled {
            return;
        }
        self.store.clear_continuation_deferral();
        self.accounting.start_turn(turn_id, usage_at_start, cost);
        if let Some(goal) = self.store.get() {
            if goal.status == GoalStatus::Active || goal.status == GoalStatus::BudgetLimited {
                self.accounting.mark_turn_goal_active(turn_id, goal.goal_id.as_str(), now.nanos);
            }
        }
    }

    /// Record the running usage totals for a turn, and what they cost.
    pub fn on_token_usage(&mut self, turn_id: &str, total_usage: Usage, cost: Usd)
        ensures
            final(self)@ == (if old(self)@.enabled {
                RuntimeView {
                    accounts: accounting::with_turn(
                        old(self)@.accounts,
                        turn_id@,
                        accounting::TurnLedger {
                            current_usage: total_usage,
                            current_cost: cost,
                            ..old(self)@.accounts.turns[turn_id@]
                        },
                    ),
                    ..old(self)@
                }
            } else {
                old(self)@
            }),
    {
        if !self.enabled {
            return;
        }
        self.accounting.record_usage(turn_id, total_usage, cost);
    }

    /// Count one completed model round-trip toward the goal's turn cap.
    pub fn on_iteration(&mut self, turn_id: &str)
        ensures
            final(self)@ == (if old(self)@.enabled {
                RuntimeView {
                    accounts: accounting::with_turn(
                        old(self)@.accounts,
                        turn_id@,
                        accounting::TurnLedger {
                            pending_iterations: goal::count_within(
                                old(self)@.accounts.turns[turn_id@].pending_iterations,
                                1,
                            ),
                            ..old(self)@.accounts.turns[turn_id@]
                        },
                    ),
                    ..old(self)@
                }
            } else {
                old(self)@
            }),
    {
        if self.enabled {
            self.accounting.record_iteration(turn_id);
        }
    }

    /// Charge a finished tool call. When this is what pushes the goal over a cap, the wrap-up prompt
    /// is queued once so the model is told to land the plane before the turn ends.
    pub fn on_tool_finish(&mut self, turn_id: &str, tool_name: &str, charge: Charge, now: Moment)
        ensures
            final(self)@ == tool_finished(old(self)@, turn_id@, tool_name@, charge, now),
    {
        if !self.enabled || text::same(tool_name, "update_goal") {
            return;
        }
        let charged = self.account_progress(
            turn_id,
            GoalAccountingMode::ActiveOnly,
            BudgetDisposition::KeepActive,
            charge,
            now,
        );
        if let Some(goal) = charged {
            if goal.status == GoalStatus::BudgetLimited {
                if self.accounting.mark_budget_limit_reported_if_new(goal.goal_id.as_str()) {
                    self.pending_steering.push(
                        Steering { kind: SteeringKind::BudgetLimit, goal },
                    );
                }
            }
        }
    }

    /// End a turn normally: charge what is left and detach the goal.
    pub fn on_turn_stop(&mut self, turn_id: &str, charge: Charge, now: Moment)
        ensures
            final(self)@ == turn_stopped(old(self)@, turn_id@, charge, now),
    {
        if !self.enabled {
            return;
        }
        self.account_progress(
            turn_id,
            GoalAccountingMode::ActiveOnly,
            BudgetDisposition::ClearActive,
            charge,
            now,
        );
        self.accounting.finish_turn(turn_id);
    }

    /// End an interrupted turn. Same accounting as a normal stop: the work still happened.
    pub fn on_turn_abort(&mut self, turn_id: &str, charge: Charge, now: Moment)
        ensures
            final(self)@ == turn_stopped(old(self)@, turn_id@, charge, now),
    {
        self.on_turn_stop(turn_id, charge, now);
    }

    /// End a failed turn and stop the goal so the automatic loop doesn't retry forever.
    pub fn on_turn_error(&mut self, turn_id: &str, reason: StopReason, charge: Charge, now: Moment)
        ensures
            final(self)@ == turn_failed(old(self)@, turn_id@, reason, charge, now),
    {
        if !self.enabled {
            return;
        }
        if !self.accounting.turn_is_current_active_goal(turn_id) {
            self.accounting.finish_turn(turn_id);
            return;
        }
        self.account_progress(
            turn_id,
            GoalAccountingMode::ActiveOnly,
            BudgetDisposition::ClearActive,
            charge,
            now,
        );
        let status = match reason {
            StopReason::TurnError => GoalStatus::Blocked,
            StopReason::UsageLimit => GoalStatus::UsageLimited,
        };
        if let Some(goal) = self.store.get() {
            let stoppable = goal.status == GoalStatus::Active || (goal.status
                == GoalStatus::BudgetLimited && status == GoalStatus::UsageLimited);
            if stoppable {
                self.store.update(
                    GoalUpdate {
                        objective: None,
                        status: Some(status),
                        limits: None,
                        expected_goal_id: Some(goal.goal_id),
                    },
                    now.unix,
                );
            }
        }
        self.accounting.clear_active_goal(now.nanos);
        self.accounting.finish_turn(turn_id);
    }

    /// The hidden continuation prompt when the session is idle with an active goal, or `None` when
    /// nothing should run on its own.
    pub fn continue_if_idle(&mut self, now: Moment) -> (r: Option<Steering>)
        ensures
            ({
                let (after, prompt) = idle_looked(old(self)@, now);
                &&& final(self)@ == after
                &&& match r {
                    Some(s) => prompt == Some(s@),
                    None => prompt is None,
                }
            }),
    {
        if !self.enabled {
            self.accounting.clear_active_goal(now.nanos);
            return None;
        }
        // A goal restored from disk waits for the user before spending anything.
        if self.store.has_continuation_deferral() {
            return None;
        }
        let goal = match self.store.get() {
            Some(g) => g,
            None => {
                return None;
            },
        };
        if goal.status != GoalStatus::Active {
            self.accounting.clear_active_goal(now.nanos);
            return None;
        }
        self.accounting.mark_idle_goal_active(goal.goal_id.as_str(), now.nanos);
        Some(Steering { kind: SteeringKind::Continuation, goal })
    }

    /// Re-attach idle wall-clock accounting after a session is resumed.
    pub fn restore_after_resume(&mut self, now: Moment)
        ensures
            final(self)@ == resumed_session(old(self)@, now),
    {
        if !self.enabled {
            return;
        }
        if let Some(goal) = self.store.get() {
            if goal.status == GoalStatus::Active {
                self.accounting.mark_idle_goal_active(goal.goal_id.as_str(), now.nanos);
                return;
            }
        }
        self.accounting.clear_active_goal(now.nanos);
    }

    // -- user-driven changes ------------------------------------------------------------------

    /// Start (or replace a completed) goal, under the given id.
    pub fn create_goal(
        &mut self,
        objective: &str,
        limits: GoalLimits,
        goal_id: String,
        charge: Charge,
        now: Moment,
    ) -> (r: Result<Goal, String>)
        ensures
            (final(self)@, goal_result(r)) == goal_created(
                old(self)@,
                objective@,
                limits,
                goal_id@,
                charge,
                now,
            ),
    {
        let objective = text::trim(objective);
        if let Err(e) = goal::validate_objective(objective) {
            return Err(e);
        }
        if let Err(e) = goal::validate_limits(&limits) {
            return Err(e);
        }
        self.flush_outstanding_progress(charge, now);
        match self.store.insert(objective, GoalStatus::Active, limits, goal_id, now.unix) {
            Some(goal) => {
                self.attach_goal(goal.goal_id.as_str(), now);
                Ok(goal)
            },
            None => Err(
                "cannot create a new goal because this session has an unfinished goal; complete the existing goal first".to_string(),
            ),
        }
    }

    /// Replace the objective of the existing goal, steering a running turn onto it.
    pub fn set_objective(&mut self, objective: &str, charge: Charge, now: Moment) -> (r: Result<
        Goal,
        String,
    >)
        ensures
            (final(self)@, goal_result(r)) == objective_set(old(self)@, objective@, charge, now),
    {
        let objective = text::trim(objective);
        if let Err(e) = goal::validate_objective(objective) {
            return Err(e);
        }
        let existing = match self.store.get() {
            Some(g) => g,
            None => {
                return Err("no goal to edit".to_string());
            },
        };
        self.flush_outstanding_progress(charge, now);
        let changed = !text::same(existing.objective.as_str(), objective);
        let edited = self.store.update(
            GoalUpdate {
                objective: Some(objective.to_string()),
                status: Some(GoalStatus::Active),
                limits: None,
                expected_goal_id: Some(existing.goal_id),
            },
            now.unix,
        );
        match edited {
            Some(goal) => {
                self.attach_after_external_change(&goal, now);
                if changed && self.accounting.current_turn_id().is_some() {
                    self.pending_steering.push(
                        Steering { kind: SteeringKind::ObjectiveUpdated, goal: goal.copy() },
                    );
                }
                Ok(goal)
            },
            None => Err("no goal to edit".to_string()),
        }
    }

    /// Change the caps on the existing goal.
    pub fn set_limits(&mut self, limits: GoalLimits, charge: Charge, now: Moment) -> (r: Result<
        Goal,
        String,
    >)
        ensures
            (final(self)@, goal_result(r)) == limits_set(old(self)@, limits, charge, now),
    {
        if let Err(e) = goal::validate_limits(&limits) {
            return Err(e);
        }
        self.flush_outstanding_progress(charge, now);
        let edited = self.store.update(
            GoalUpdate {
                objective: None,
                status: None,
                limits: Some(limits),
                expected_goal_id: None,
            },
            now.unix,
        );
        match edited {
            Some(goal) => {
                self.attach_after_external_change(&goal, now);
                Ok(goal)
            },
            None => Err("no goal to update".to_string()),
        }
    }

    /// Stop the automatic loop, keeping the goal for later.
    pub fn pause(&mut self, charge: Charge, now: Moment) -> (r: Result<Goal, String>)
        ensures
            (final(self)@, goal_result(r)) == paused(old(self)@, charge, now),
    {
        self.flush_outstanding_progress(charge, now);
        match self.store.pause_active(now.unix) {
            Some(goal) => {
                self.accounting.clear_active_goal(now.nanos);
                Ok(goal)
            },
            None => Err("no active goal to pause".to_string()),
        }
    }

    /// Put a paused/blocked/limited goal back to work.
    ///
    /// A goal stopped by its own budget needs a bigger budget first, otherwise it would land right
    /// back on `budget_limited`.
    pub fn resume(&mut self, charge: Charge, now: Moment) -> (r: Result<Goal, String>)
        ensures
            (final(self)@, goal_result(r)) == resumed(old(self)@, charge, now),
    {
        let existing = match self.store.get() {
            Some(g) => g,
            None => {
                return Err("no goal to resume".to_string());
            },
        };
        if existing.status == GoalStatus::Complete {
            return Err("the goal is already complete".to_string());
        }
        if existing.status == GoalStatus::Active {
            self.attach_after_external_change(&existing, now);
            return Ok(existing);
        }
        self.flush_outstanding_progress(charge, now);
        let edited = self.store.update(
            GoalUpdate {
                objective: None,
                status: Some(GoalStatus::Active),
                limits: None,
                expected_goal_id: Some(existing.goal_id),
            },
            now.unix,
        );
        match edited {
            Some(goal) => {
                if goal.status == GoalStatus::BudgetLimited {
                    let cause = match goal.budget_cause() {
                        Some(c) => c,
                        None => "budget",
                    };
                    return Err(
                        text::concat3(
                            "the goal is out of ",
                            cause,
                            " — raise the budget before resuming",
                        ),
                    );
                }
                self.attach_after_external_change(&goal, now);
                Ok(goal)
            },
            None => Err("no goal to resume".to_string()),
        }
    }

    /// Drop the goal entirely.
    pub fn clear(&mut self, charge: Charge, now: Moment) -> (r: Option<Goal>)
        ensures
            final(self)@ == cleared(old(self)@, charge, now),
            final(self)@.goal is None,
            goal::opt_goal(r) == flushed(old(self)@, charge, now).goal,
    {
        self.flush_outstanding_progress(charge, now);
        let previous = self.store.delete();
        self.accounting.clear_active_goal(now.nanos);
        previous
    }

    fn attach_goal(&mut self, goal_id: &str, now: Moment)
        ensures
            final(self)@ == (RuntimeView {
                accounts: goal_attached(old(self)@.accounts, goal_id@, now.nanos),
                ..old(self)@
            }),
    {
        if self.accounting.mark_current_turn_goal_active(goal_id, now.nanos).is_none() {
            self.accounting.mark_idle_goal_active(goal_id, now.nanos);
        }
    }

    fn attach_after_external_change(&mut self, goal: &Goal, now: Moment)
        ensures
            final(self)@ == (RuntimeView {
                accounts: reattached(old(self)@.accounts, goal@, now.nanos),
                ..old(self)@
            }),
    {
        if goal.status == GoalStatus::Active {
            self.attach_goal(goal.goal_id.as_str(), now);
        } else {
            self.accounting.clear_active_goal(now.nanos);
        }
    }

    // -- accounting plumbing ------------------------------------------------------------------

    /// Charge everything outstanding before the goal changes underneath the accounting state.
    fn flush_outstanding_progress(&mut self, charge: Charge, now: Moment)
        ensures
            final(self)@ == flushed(old(self)@, charge, now),
    {
        if !self.enabled {
            return;
        }
        match self.accounting.current_turn_id() {
            Some(turn_id) => {
                self.account_progress(
                    turn_id.as_str(),
                    GoalAccountingMode::ActiveOnly,
                    BudgetDisposition::ClearActive,
                    charge,
                    now,
                );
            },
            None => {
                self.account_idle_progress(charge.total, now);
            },
        }
    }

    /// Snapshot → store write → watermark.
    fn account_progress(
        &mut self,
        turn_id: &str,
        mode: GoalAccountingMode,
        disposition: BudgetDisposition,
        charge: Charge,
        now: Moment,
    ) -> (r: Option<Goal>)
        ensures
            (final(self)@, goal::opt_goal(r)) == progress_charged(
                old(self)@,
                turn_id@,
                mode,
                disposition,
                charge,
                now,
            ),
    {
        let snapshot = match self.accounting.progress_snapshot(turn_id, charge.delta, now.nanos) {
            Some(s) => s,
            None => {
                return None;
            },
        };
        let outcome = self.store.account_usage(
            snapshot.delta,
            mode,
            Some(snapshot.expected_goal_id.as_str()),
            charge.total,
            now.unix,
        );
        match outcome {
            GoalAccountingOutcome::Updated(goal) => {
                self.accounting.mark_progress_accounted(
                    turn_id,
                    &snapshot,
                    goal.status,
                    disposition,
                    now.nanos,
                );
                Some(goal)
            },
            GoalAccountingOutcome::Unchanged(_) => None,
        }
    }

    fn account_idle_progress(&mut self, total: Usd, now: Moment)
        ensures
            final(self)@ == idle_charged(old(self)@, total, now),
    {
        let snapshot = match self.accounting.idle_progress_snapshot(now.nanos) {
            Some(s) => s,
            None => {
                return;
            },
        };
        let outcome = self.store.account_usage(
            snapshot.delta,
            GoalAccountingMode::ActiveOnly,
            Some(snapshot.expected_goal_id.as_str()),
            total,
            now.unix,
        );
        match outcome {
            GoalAccountingOutcome::Updated(goal) => {
                self.accounting.mark_idle_progress_accounted(
                    &snapshot,
                    goal.status,
                    BudgetDisposition::ClearActive,
                    now.nanos,
                );
            },
            GoalAccountingOutcome::Unchanged(_) => {
                self.accounting.reset_idle_baseline_and_clear_active_goal(now.nanos);
            },
        }
    }

    /// Charge usage from the model's own `update_goal` call, which must be able to bill the goal it is
    /// about to finish.
    pub fn account_for_goal_tool(&mut self, status: GoalStatus, charge: Charge, now: Moment)
        ensures
            final(self)@ == goal_tool_charged(old(self)@, status, charge, now),
    {
        if let Some(turn_id) = self.accounting.current_turn_id() {
            let mode = match status {
                GoalStatus::Complete => GoalAccountingMode::ActiveOrComplete,
                _ => GoalAccountingMode::ActiveOrStopped,
            };
            self.account_progress(
                turn_id.as_str(),
                mode,
                BudgetDisposition::ClearActive,
                charge,
                now,
            );
        }
    }

    /// Apply a partial edit to the stored goal.
    pub fn update(&mut self, update: GoalUpdate, now: Moment) -> (r: Option<Goal>)
        ensures
            goal::opt_goal(r) == goal::edit_answer(old(self)@.goal, update@, now.unix),
            final(self)@ == (RuntimeView {
                goal: goal::slot_edited(old(self)@.goal, update@, now.unix),
                ..old(self)@
            }),
    {
        self.store.update(update, now.unix)
    }

    /// Detach the goal from the live turn after the model finished or blocked it.
    pub fn clear_current_turn_goal(&mut self, now: Moment)
        ensures
            final(self)@ == goal_detached(old(self)@, now),
    {
        self.accounting.clear_current_turn_goal(now.nanos);
    }
}

/// A turn that is dropped is gone from the books, and the others stay.
pub proof fn a_dropped_turn_is_gone(a: Accounts, turn: Seq<char>, other: Seq<char>)
    ensures
        !turn_dropped(a, turn).turns.dom().contains(turn),
        turn_dropped(a, turn).current != Some(turn),
        other != turn ==> {
            &&& turn_dropped(a, turn).turns.dom().contains(other) == a.turns.dom().contains(other)
            &&& a.turns.dom().contains(other) ==> turn_dropped(a, turn).turns[other]
                == a.turns[other]
            &&& a.current == Some(other) ==> turn_dropped(a, turn).current == Some(other)
        },
        turn_dropped(a, turn).clock == a.clock,
        turn_dropped(a, turn).reported == a.reported,
{
}

/// A goal that stops has the status of what stopped it: an error blocks it, and a limit of the
/// provider's is told as one.
pub proof fn what_stops_a_goal_is_its_status(reason: StopReason, status: GoalStatus)
    ensures
        reason is TurnError <==> stop_status(reason) == GoalStatus::Blocked,
        reason is UsageLimit <==> stop_status(reason) == GoalStatus::UsageLimited,
        status == GoalStatus::Complete <==> goal_tool_mode(status)
            == GoalAccountingMode::ActiveOrComplete,
        status != GoalStatus::Complete <==> goal_tool_mode(status)
            == GoalAccountingMode::ActiveOrStopped,
{
}

} // verus!
