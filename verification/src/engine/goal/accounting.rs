//! Turn-local bookkeeping that turns raw usage counters into goal deltas.
//!
//! The provider reports *cumulative* usage, and several places in a turn want to charge "whatever has
//! been spent since the last time we charged": after every tool call, at turn end, and while the
//! thread sits idle with a goal still active. This module keeps the last-accounted watermark per turn
//! so those callers can run without double-charging the same tokens.
//!
//! The rule that makes it safe: take a [`ProgressSnapshot`], write it to the store, and only then call
//! [`GoalAccountingState::mark_progress_accounted`].
//!
//! Times are readings of a monotonic clock in nanoseconds.

use crate::engine::goal;
use crate::engine::goal::{GoalStatus, UsageDelta, Usd};
use crate::engine::types::Usage;
use crate::table::Table;
use crate::text;
use vstd::prelude::*;
use vstd::string::*;

verus! {

// ---- tokens ---------------------------------------------------------------------------------

/// `a - b`, but not below zero.
pub open spec fn minus(a: u64, b: u64) -> u64 {
    if a >= b {
        (a - b) as u64
    } else {
        0
    }
}

/// Fresh input plus output, held within the range of `u64`.
pub open spec fn fresh_tokens(u: Usage) -> u64 {
    let sum = minus(u.input_tokens, u.cache_read) + u.output_tokens;
    if sum > u64::MAX {
        u64::MAX
    } else {
        sum as u64
    }
}

/// The number read as signed, in two's complement.
pub open spec fn as_signed(n: u64) -> int {
    if n <= i64::MAX {
        n as int
    } else {
        n - 0x1_0000_0000_0000_0000
    }
}

/// Tokens a usage counter contributes to a goal: fresh input plus output. Cache reads are excluded
/// because replaying a cached prefix is not new work toward the objective.
pub open spec fn tokens_of(u: Usage) -> int {
    as_signed(fresh_tokens(u))
}

/// What was used between two readings of the counters.
pub open spec fn usage_since(last: Usage, current: Usage) -> Usage {
    Usage {
        input_tokens: minus(current.input_tokens, last.input_tokens),
        output_tokens: minus(current.output_tokens, last.output_tokens),
        cache_read: minus(current.cache_read, last.cache_read),
        cache_write: minus(current.cache_write, last.cache_write),
    }
}

/// Tokens a usage counter contributes to a goal.
pub fn goal_tokens(usage: &Usage) -> (r: i64)
    ensures
        r == tokens_of(*usage),
{
    let input = usage.input_tokens.saturating_sub(usage.cache_read);
    let total = input.saturating_add(usage.output_tokens);
    if total <= i64::MAX as u64 {
        total as i64
    } else {
        -((u64::MAX - total) as i64) - 1
    }
}

/// Tokens used between two readings of the counters.
pub fn usage_delta_tokens(last: &Usage, current: &Usage) -> (r: i64)
    ensures
        r == tokens_of(usage_since(*last, *current)),
{
    let delta = Usage {
        input_tokens: current.input_tokens.saturating_sub(last.input_tokens),
        output_tokens: current.output_tokens.saturating_sub(last.output_tokens),
        cache_read: current.cache_read.saturating_sub(last.cache_read),
        cache_write: current.cache_write.saturating_sub(last.cache_write),
    };
    goal_tokens(&delta)
}

/// The counters only grew, and no more was read from the cache than was sent.
pub open spec fn usage_grows(a: Usage, b: Usage) -> bool {
    &&& a.input_tokens <= b.input_tokens
    &&& a.output_tokens <= b.output_tokens
    &&& a.cache_read <= b.cache_read
    &&& b.cache_read - a.cache_read <= b.input_tokens - a.input_tokens
}

/// Charging in two steps charges what charging once would have, as long as the counters grow and the
/// total is in range.
pub proof fn charges_add_up(first: Usage, second: Usage, third: Usage)
    requires
        usage_grows(first, second),
        usage_grows(second, third),
        third.input_tokens + third.output_tokens <= i64::MAX,
    ensures
        tokens_of(usage_since(first, second)) + tokens_of(usage_since(second, third)) == tokens_of(
            usage_since(first, third),
        ),
{
}

// ---- the state ------------------------------------------------------------------------------

/// Whether a budget-limited goal stays attached to the turn after usage is charged.
///
/// A tool finishing mid-turn keeps it attached ([`KeepActive`](BudgetDisposition::KeepActive)) so the
/// wrap-up steering still lands; the end of a turn detaches it.
#[derive(Debug, Clone, Copy, PartialEq, Eq, Structural)]
pub enum BudgetDisposition {
    KeepActive,
    ClearActive,
}

/// Usage to charge, plus the watermark to store once the write succeeds.
#[derive(Debug)]
pub struct ProgressSnapshot {
    pub expected_goal_id: String,
    pub delta: UsageDelta,
    pub current_usage: Usage,
    pub current_cost_usd: Usd,
}

/// The mathematical value of a [`ProgressSnapshot`].
pub struct SnapshotView {
    pub expected_goal_id: Seq<char>,
    pub delta: UsageDelta,
    pub current_usage: Usage,
    pub current_cost_usd: Usd,
}

impl View for ProgressSnapshot {
    type V = SnapshotView;

    open spec fn view(&self) -> SnapshotView {
        SnapshotView {
            expected_goal_id: self.expected_goal_id@,
            delta: self.delta,
            current_usage: self.current_usage,
            current_cost_usd: self.current_cost_usd,
        }
    }
}

/// Wall-clock-only progress for a thread that is idle with an active goal.
#[derive(Debug)]
pub struct IdleProgressSnapshot {
    pub expected_goal_id: String,
    pub delta: UsageDelta,
}

struct TurnAccounting {
    current_usage: Usage,
    last_accounted_usage: Usage,
    current_cost_usd: Usd,
    last_accounted_cost_usd: Usd,
    pending_iterations: u32,
    active_goal_id: Option<String>,
    account_tokens: bool,
}

/// What is known of a turn: the counters now and when they were last charged.
pub struct TurnLedger {
    pub current_usage: Usage,
    pub last_usage: Usage,
    pub current_cost: Usd,
    pub last_cost: Usd,
    pub pending_iterations: u32,
    pub goal: Option<Seq<char>>,
    pub account_tokens: bool,
}

impl View for TurnAccounting {
    type V = TurnLedger;

    closed spec fn view(&self) -> TurnLedger {
        TurnLedger {
            current_usage: self.current_usage,
            last_usage: self.last_accounted_usage,
            current_cost: self.current_cost_usd,
            last_cost: self.last_accounted_cost_usd,
            pending_iterations: self.pending_iterations,
            goal: text::opt_view(self.active_goal_id),
            account_tokens: self.account_tokens,
        }
    }
}

impl TurnAccounting {
    fn copy(&self) -> (r: TurnAccounting)
        ensures
            r@ == self@,
    {
        TurnAccounting {
            current_usage: self.current_usage,
            last_accounted_usage: self.last_accounted_usage,
            current_cost_usd: self.current_cost_usd,
            last_accounted_cost_usd: self.last_accounted_cost_usd,
            pending_iterations: self.pending_iterations,
            active_goal_id: match &self.active_goal_id {
                Some(g) => Some(g.clone()),
                None => None,
            },
            account_tokens: self.account_tokens,
        }
    }
}

struct WallClock {
    last_accounted_at: u64,
    active_goal_id: Option<String>,
}

/// The clock of an active goal: when its time was last charged, and the goal.
pub struct ClockView {
    pub last: u64,
    pub goal: Option<Seq<char>>,
}

impl View for WallClock {
    type V = ClockView;

    closed spec fn view(&self) -> ClockView {
        ClockView { last: self.last_accounted_at, goal: text::opt_view(self.active_goal_id) }
    }
}

pub const NANOS_PER_SECOND: u64 = 1_000_000_000;

/// Whole seconds since time was last charged.
pub open spec fn seconds_since(c: ClockView, now: u64) -> int {
    minus(now, c.last) as int / 1_000_000_000
}

/// The clock once so many seconds were charged.
pub open spec fn clock_advanced(c: ClockView, seconds: i64, now: u64) -> ClockView {
    if seconds <= 0 {
        c
    } else if c.last + seconds * 1_000_000_000 <= u64::MAX {
        ClockView { last: (c.last + seconds * 1_000_000_000) as u64, ..c }
    } else {
        ClockView { last: now, ..c }
    }
}

/// The clock with this goal attached. A goal that was not attached starts at zero.
pub open spec fn clock_attached(c: ClockView, goal: Seq<char>, now: u64) -> ClockView {
    if c.goal == Some(goal) {
        c
    } else {
        ClockView { last: now, goal: Some(goal) }
    }
}

pub open spec fn clock_cleared(now: u64) -> ClockView {
    ClockView { last: now, goal: None }
}

impl WallClock {
    fn elapsed_seconds(&self, now: u64) -> (r: i64)
        ensures
            r == seconds_since(self@, now),
    {
        (now.saturating_sub(self.last_accounted_at) / NANOS_PER_SECOND) as i64
    }

    fn mark_accounted(&mut self, seconds: i64, now: u64)
        ensures
            final(self)@ == clock_advanced(old(self)@, seconds, now),
    {
        if seconds <= 0 {
            return;
        }
        let next: u128 = self.last_accounted_at as u128 + seconds as u128 * 1_000_000_000u128;
        if next <= u64::MAX as u128 {
            self.last_accounted_at = next as u64;
        } else {
            self.last_accounted_at = now;
        }
    }

    fn mark_active(&mut self, goal_id: &str, now: u64)
        ensures
            final(self)@ == clock_attached(old(self)@, goal_id@, now),
    {
        let attached = match &self.active_goal_id {
            Some(g) => text::same(g.as_str(), goal_id),
            None => false,
        };
        if !attached {
            self.last_accounted_at = now;
            self.active_goal_id = Some(goal_id.to_string());
        }
    }

    fn clear_active(&mut self, now: u64)
        ensures
            final(self)@ == clock_cleared(now),
    {
        self.active_goal_id = None;
        self.last_accounted_at = now;
    }
}

/// Per-session accounting state.
pub struct GoalAccountingState {
    current_turn_id: Option<String>,
    turns: Table<TurnAccounting>,
    wall_clock: WallClock,
    budget_limit_reported_goal_id: Option<String>,
}

/// The mathematical value of a [`GoalAccountingState`].
pub struct Accounts {
    /// The live turn.
    pub current: Option<Seq<char>>,
    pub turns: Map<Seq<char>, TurnLedger>,
    pub clock: ClockView,
    /// The goal whose spent budget has been reported.
    pub reported: Option<Seq<char>>,
}

impl View for GoalAccountingState {
    type V = Accounts;

    closed spec fn view(&self) -> Accounts {
        Accounts {
            current: text::opt_view(self.current_turn_id),
            turns: self.turns@.map_values(|t: TurnAccounting| t@),
            clock: self.wall_clock@,
            reported: text::opt_view(self.budget_limit_reported_goal_id),
        }
    }
}

// ---- what the operations do -----------------------------------------------------------------

pub open spec fn turn_begun(usage: Usage, cost: Usd, account_tokens: bool) -> TurnLedger {
    TurnLedger {
        current_usage: usage,
        last_usage: usage,
        current_cost: cost,
        last_cost: cost,
        pending_iterations: 0,
        goal: None,
        account_tokens,
    }
}

/// A turn's ledger replaced, when there is such a turn.
pub open spec fn with_turn(a: Accounts, id: Seq<char>, t: TurnLedger) -> Accounts {
    if a.turns.dom().contains(id) {
        Accounts { turns: a.turns.insert(id, t), ..a }
    } else {
        a
    }
}

/// The reported goal, forgotten when another goal comes in.
pub open spec fn report_kept(reported: Option<Seq<char>>, goal: Seq<char>) -> Option<Seq<char>> {
    if reported == Some(goal) {
        reported
    } else {
        None
    }
}

pub open spec fn turn_attached(a: Accounts, id: Seq<char>, goal: Seq<char>, now: u64) -> Accounts {
    let b = Accounts { reported: report_kept(a.reported, goal), ..a };
    if a.turns.dom().contains(id) {
        Accounts {
            turns: a.turns.insert(id, TurnLedger { goal: Some(goal), ..a.turns[id] }),
            clock: if a.current == Some(id) {
                clock_attached(a.clock, goal, now)
            } else {
                a.clock
            },
            ..b
        }
    } else {
        b
    }
}

/// The live turn and its ledger.
pub open spec fn live_turn(a: Accounts) -> Option<Seq<char>> {
    match a.current {
        Some(id) => if a.turns.dom().contains(id) {
            Some(id)
        } else {
            None
        },
        None => None,
    }
}

/// Attaching a goal to the live turn: the watermark is rebased, so that work done before the goal
/// existed isn't charged to it.
pub open spec fn current_attached(a: Accounts, goal: Seq<char>, now: u64) -> Accounts {
    match a.current {
        None => a,
        Some(id) => {
            let b = Accounts { reported: report_kept(a.reported, goal), ..a };
            if a.turns.dom().contains(id) {
                let t = a.turns[id];
                Accounts {
                    turns: a.turns.insert(
                        id,
                        TurnLedger {
                            goal: Some(goal),
                            last_usage: t.current_usage,
                            last_cost: t.current_cost,
                            pending_iterations: 0,
                            ..t
                        },
                    ),
                    clock: clock_attached(a.clock, goal, now),
                    ..b
                }
            } else {
                b
            }
        },
    }
}

pub open spec fn idle_attached(a: Accounts, goal: Seq<char>, now: u64) -> Accounts {
    Accounts {
        reported: report_kept(a.reported, goal),
        clock: clock_attached(a.clock, goal, now),
        ..a
    }
}

/// The live turn without its goal.
pub open spec fn current_detached(a: Accounts) -> Accounts {
    match live_turn(a) {
        Some(id) => Accounts {
            turns: a.turns.insert(id, TurnLedger { goal: None, ..a.turns[id] }),
            ..a
        },
        None => a,
    }
}

/// No goal is active any more.
pub open spec fn goal_cleared(a: Accounts, now: u64) -> Accounts {
    Accounts { clock: clock_cleared(now), reported: None, ..current_detached(a) }
}

/// What was spent on a turn since the last charge; `cost` is what its cost grew by.
pub open spec fn delta_of(a: Accounts, t: TurnLedger, cost: Usd, now: u64) -> UsageDelta {
    UsageDelta {
        seconds: if t.goal is Some && a.clock.goal == t.goal {
            seconds_since(a.clock, now) as i64
        } else {
            0
        },
        tokens: tokens_of(usage_since(t.last_usage, t.current_usage)) as i64,
        cost_usd: cost,
        iterations: t.pending_iterations,
    }
}

/// Nothing was spent.
pub open spec fn nothing_spent(d: UsageDelta) -> bool {
    d.seconds == 0 && d.tokens <= 0 && goal::at_least(goal::no_money(), d.cost_usd) && d.iterations
        == 0
}

/// Everything spent on a turn since the last charge, unless there is nothing to charge.
pub open spec fn snapshot_of(a: Accounts, id: Seq<char>, cost: Usd, now: u64) -> Option<
    SnapshotView,
> {
    if !a.turns.dom().contains(id) {
        None
    } else {
        let t = a.turns[id];
        let d = delta_of(a, t, cost, now);
        if !t.account_tokens || t.goal is None || nothing_spent(d) {
            None
        } else {
            Some(
                SnapshotView {
                    expected_goal_id: t.goal->0,
                    delta: d,
                    current_usage: t.current_usage,
                    current_cost_usd: t.current_cost,
                },
            )
        }
    }
}

/// A goal with this status is detached.
pub open spec fn detaches(status: GoalStatus, disposition: BudgetDisposition) -> bool {
    match status {
        GoalStatus::Active => false,
        GoalStatus::BudgetLimited => disposition == BudgetDisposition::ClearActive,
        _ => true,
    }
}

/// The clock after a charge.
pub open spec fn clock_charged(
    c: ClockView,
    seconds: i64,
    status: GoalStatus,
    disposition: BudgetDisposition,
    now: u64,
) -> ClockView {
    if detaches(status, disposition) {
        clock_cleared(now)
    } else {
        clock_advanced(c, seconds, now)
    }
}

pub open spec fn report_after(reported: Option<Seq<char>>, status: GoalStatus) -> Option<
    Seq<char>,
> {
    if status == GoalStatus::BudgetLimited {
        reported
    } else {
        None
    }
}

pub open spec fn count_minus(a: u32, b: u32) -> u32 {
    if a >= b {
        (a - b) as u32
    } else {
        0
    }
}

/// The watermarks after a snapshot has been written to the store.
pub open spec fn progress_marked(
    a: Accounts,
    id: Seq<char>,
    s: SnapshotView,
    status: GoalStatus,
    disposition: BudgetDisposition,
    now: u64,
) -> Accounts {
    let t = a.turns[id];
    let b = with_turn(
        a,
        id,
        TurnLedger {
            last_usage: s.current_usage,
            last_cost: s.current_cost_usd,
            pending_iterations: count_minus(t.pending_iterations, s.delta.iterations),
            goal: if detaches(status, disposition) {
                None
            } else {
                t.goal
            },
            ..t
        },
    );
    Accounts {
        clock: clock_charged(a.clock, s.delta.seconds, status, disposition, now),
        reported: report_after(a.reported, status),
        ..b
    }
}

pub open spec fn idle_marked(
    a: Accounts,
    seconds: i64,
    status: GoalStatus,
    disposition: BudgetDisposition,
    now: u64,
) -> Accounts {
    Accounts {
        clock: clock_charged(a.clock, seconds, status, disposition, now),
        reported: report_after(a.reported, status),
        ..a
    }
}

// ---- what holds of them ---------------------------------------------------------------------

/// The same usage is never charged twice: once a snapshot has been marked, there is nothing to charge
/// at that moment, whatever became of the goal. (The cost has then not grown either: both cost
/// readings of the turn are the same.)
pub proof fn usage_is_charged_once(
    a: Accounts,
    id: Seq<char>,
    cost: Usd,
    status: GoalStatus,
    disposition: BudgetDisposition,
    now: u64,
)
    requires
        snapshot_of(a, id, cost, now) is Some,
    ensures
        ({
            let s = snapshot_of(a, id, cost, now)->0;
            let after = progress_marked(a, id, s, status, disposition, now);
            &&& after.turns[id].current_cost == after.turns[id].last_cost
            &&& snapshot_of(after, id, goal::no_money(), now) is None
        }),
{
    let s = snapshot_of(a, id, cost, now)->0;
    let after = progress_marked(a, id, s, status, disposition, now);
    let t = after.turns[id];
    assert(usage_since(t.last_usage, t.current_usage) == (Usage {
        input_tokens: 0,
        output_tokens: 0,
        cache_read: 0,
        cache_write: 0,
    }));
    if !detaches(status, disposition) {
        assert(seconds_since(after.clock, now) == 0 || after.clock.goal != t.goal);
    }
}

/// Work done before a goal was attached to the live turn is not charged to it.
pub proof fn attaching_a_goal_rebases_the_watermark(a: Accounts, goal: Seq<char>, now: u64)
    requires
        live_turn(a) is Some,
        a.clock.goal != Some(goal),
    ensures
        snapshot_of(
            current_attached(a, goal, now),
            live_turn(a)->0,
            goal::no_money(),
            now,
        ) is None,
{
}

// ---- the operations -------------------------------------------------------------------------

fn same_id(a: &Option<String>, b: &str) -> (r: bool)
    ensures
        r == (text::opt_view(*a) == Some(b@)),
{
    match a {
        Some(s) => text::same(s.as_str(), b),
        None => false,
    }
}

fn copy_id(a: &Option<String>) -> (r: Option<String>)
    ensures
        text::opt_view(r) == text::opt_view(*a),
{
    match a {
        Some(s) => Some(s.clone()),
        None => None,
    }
}

fn should_clear_active_goal(status: GoalStatus, disposition: BudgetDisposition) -> (r: bool)
    ensures
        r == detaches(status, disposition),
{
    match status {
        GoalStatus::Active => false,
        GoalStatus::BudgetLimited => disposition == BudgetDisposition::ClearActive,
        _ => true,
    }
}

impl GoalAccountingState {
    /// No turn, no goal; the clock starts now.
    pub fn new(now: u64) -> (r: GoalAccountingState)
        ensures
            r@ == (Accounts {
                current: None,
                turns: Map::empty(),
                clock: clock_cleared(now),
                reported: None,
            }),
    {
        let r = GoalAccountingState {
            current_turn_id: None,
            turns: Table::new(),
            wall_clock: WallClock { last_accounted_at: now, active_goal_id: None },
            budget_limit_reported_goal_id: None,
        };
        assert(r@.turns =~= Map::empty());
        r
    }

    fn put_turn(&mut self, turn_id: &str, turn: TurnAccounting)
        ensures
            final(self)@ == (Accounts {
                turns: old(self)@.turns.insert(turn_id@, turn@),
                ..old(self)@
            }),
    {
        let ghost before = self@.turns;
        self.turns.insert(turn_id, turn);
        assert(self@.turns =~= before.insert(turn_id@, turn@));
    }

    fn turn(&self, turn_id: &str) -> (r: Option<TurnAccounting>)
        ensures
            match r {
                Some(t) => self@.turns.dom().contains(turn_id@) && t@ == self@.turns[turn_id@],
                None => !self@.turns.dom().contains(turn_id@),
            },
    {
        match self.turns.get(turn_id) {
            Some(t) => Some(t.copy()),
            None => None,
        }
    }

    pub fn start_turn(&mut self, turn_id: &str, usage: Usage, cost_usd: Usd)
        ensures
            final(self)@ == (Accounts {
                current: Some(turn_id@),
                turns: old(self)@.turns.insert(turn_id@, turn_begun(usage, cost_usd, true)),
                ..old(self)@
            }),
    {
        self.start_turn_with(turn_id, usage, cost_usd, true);
    }

    /// `account_tokens = false` records wall time but not tokens (used for turns that shouldn't be
    /// charged against the objective at all).
    pub fn start_turn_with(
        &mut self,
        turn_id: &str,
        usage: Usage,
        cost_usd: Usd,
        account_tokens: bool,
    )
        ensures
            final(self)@ == (Accounts {
                current: Some(turn_id@),
                turns: old(self)@.turns.insert(
                    turn_id@,
                    turn_begun(usage, cost_usd, account_tokens),
                ),
                ..old(self)@
            }),
    {
        self.current_turn_id = Some(turn_id.to_string());
        self.put_turn(
            turn_id,
            TurnAccounting {
                current_usage: usage,
                last_accounted_usage: usage,
                current_cost_usd: cost_usd,
                last_accounted_cost_usd: cost_usd,
                pending_iterations: 0,
                active_goal_id: None,
                account_tokens,
            },
        );
    }

    pub fn finish_turn(&mut self, turn_id: &str)
        ensures
            final(self)@ == (Accounts {
                current: if old(self)@.current == Some(turn_id@) {
                    None
                } else {
                    old(self)@.current
                },
                turns: old(self)@.turns.remove(turn_id@),
                ..old(self)@
            }),
    {
        let ghost before = self@.turns;
        let _ = self.turns.remove(turn_id);
        assert(self@.turns =~= before.remove(turn_id@));
        if same_id(&self.current_turn_id, turn_id) {
            self.current_turn_id = None;
        }
    }

    pub fn current_turn_id(&self) -> (r: Option<String>)
        ensures
            text::opt_view(r) == self@.current,
    {
        copy_id(&self.current_turn_id)
    }

    /// Whether `turn_id` is the live turn and is charging a goal.
    pub fn turn_is_current_active_goal(&self, turn_id: &str) -> (r: bool)
        ensures
            r == (self@.current == Some(turn_id@) && self@.turns.dom().contains(turn_id@)
                && self@.turns[turn_id@].account_tokens && self@.turns[turn_id@].goal is Some),
    {
        if !same_id(&self.current_turn_id, turn_id) {
            return false;
        }
        match self.turn(turn_id) {
            Some(t) => t.account_tokens && t.active_goal_id.is_some(),
            None => false,
        }
    }

    /// Record the latest cumulative counters for a turn.
    pub fn record_usage(&mut self, turn_id: &str, total_usage: Usage, total_cost_usd: Usd)
        ensures
            final(self)@ == with_turn(
                old(self)@,
                turn_id@,
                TurnLedger {
                    current_usage: total_usage,
                    current_cost: total_cost_usd,
                    ..old(self)@.turns[turn_id@]
                },
            ),
    {
        if let Some(t) = self.turn(turn_id) {
            let mut turn = t;
            turn.current_usage = total_usage;
            turn.current_cost_usd = total_cost_usd;
            self.put_turn(turn_id, turn);
        }
    }

    /// Count one completed model turn toward the goal's turn cap.
    pub fn record_iteration(&mut self, turn_id: &str)
        ensures
            final(self)@ == with_turn(
                old(self)@,
                turn_id@,
                TurnLedger {
                    pending_iterations: goal::count_within(
                        old(self)@.turns[turn_id@].pending_iterations,
                        1,
                    ),
                    ..old(self)@.turns[turn_id@]
                },
            ),
    {
        if let Some(t) = self.turn(turn_id) {
            let mut turn = t;
            turn.pending_iterations = turn.pending_iterations.saturating_add(1);
            self.put_turn(turn_id, turn);
        }
    }

    fn keep_report_for(&mut self, goal_id: &str)
        ensures
            final(self)@ == (Accounts {
                reported: report_kept(old(self)@.reported, goal_id@),
                ..old(self)@
            }),
    {
        if !same_id(&self.budget_limit_reported_goal_id, goal_id) {
            self.budget_limit_reported_goal_id = None;
        }
    }

    pub fn mark_turn_goal_active(&mut self, turn_id: &str, goal_id: &str, now: u64)
        ensures
            final(self)@ == turn_attached(old(self)@, turn_id@, goal_id@, now),
    {
        self.keep_report_for(goal_id);
        let is_current = same_id(&self.current_turn_id, turn_id);
        if let Some(t) = self.turn(turn_id) {
            let mut turn = t;
            turn.active_goal_id = Some(goal_id.to_string());
            self.put_turn(turn_id, turn);
            if is_current {
                self.wall_clock.mark_active(goal_id, now);
            }
        }
    }

    /// Attach a goal to the live turn, rebasing the watermark so work done before the goal existed
    /// isn't charged to it. Returns the turn id when there is a live turn.
    pub fn mark_current_turn_goal_active(&mut self, goal_id: &str, now: u64) -> (r: Option<String>)
        ensures
            final(self)@ == current_attached(old(self)@, goal_id@, now),
            text::opt_view(r) == live_turn(old(self)@),
    {
        let turn_id = match copy_id(&self.current_turn_id) {
            Some(id) => id,
            None => {
                return None;
            },
        };
        self.keep_report_for(goal_id);
        match self.turn(turn_id.as_str()) {
            Some(t) => {
                let mut turn = t;
                turn.active_goal_id = Some(goal_id.to_string());
                turn.last_accounted_usage = turn.current_usage;
                turn.last_accounted_cost_usd = turn.current_cost_usd;
                turn.pending_iterations = 0;
                self.put_turn(turn_id.as_str(), turn);
                self.wall_clock.mark_active(goal_id, now);
                Some(turn_id)
            },
            None => None,
        }
    }

    /// Start charging idle wall time to `goal_id` (no turn in flight).
    pub fn mark_idle_goal_active(&mut self, goal_id: &str, now: u64)
        ensures
            final(self)@ == idle_attached(old(self)@, goal_id@, now),
    {
        self.keep_report_for(goal_id);
        self.wall_clock.mark_active(goal_id, now);
    }

    /// Detaches the goal from the live turn; nothing happens without one.
    pub fn clear_current_turn_goal(&mut self, now: u64) -> (r: Option<String>)
        ensures
            text::opt_view(r) == old(self)@.current,
            final(self)@ == (if old(self)@.current is Some {
                goal_cleared(old(self)@, now)
            } else {
                old(self)@
            }),
    {
        if self.current_turn_id.is_some() {
            self.clear_active_goal(now);
        }
        copy_id(&self.current_turn_id)
    }

    pub fn clear_active_goal(&mut self, now: u64)
        ensures
            final(self)@ == goal_cleared(old(self)@, now),
    {
        if let Some(turn_id) = copy_id(&self.current_turn_id) {
            if let Some(t) = self.turn(turn_id.as_str()) {
                let mut turn = t;
                turn.active_goal_id = None;
                self.put_turn(turn_id.as_str(), turn);
            }
        }
        self.wall_clock.clear_active(now);
        self.budget_limit_reported_goal_id = None;
    }

    /// The cost of a turn as last recorded and as last charged: what its cost grew by is the first
    /// less the second, but not below zero.
    pub fn cost_operands(&self, turn_id: &str) -> (r: Option<(Usd, Usd)>)
        ensures
            r == (if self@.turns.dom().contains(turn_id@) {
                Some((self@.turns[turn_id@].current_cost, self@.turns[turn_id@].last_cost))
            } else {
                None
            }),
    {
        match self.turn(turn_id) {
            Some(t) => Some((t.current_cost_usd, t.last_accounted_cost_usd)),
            None => None,
        }
    }

    /// Everything spent on `turn_id` since the last charge, or `None` when there is nothing to charge
    /// (no goal attached, or an empty delta). `cost_delta` is what the turn's cost grew by.
    pub fn progress_snapshot(&self, turn_id: &str, cost_delta: Usd, now: u64) -> (r: Option<
        ProgressSnapshot,
    >)
        ensures
            match r {
                Some(s) => snapshot_of(self@, turn_id@, cost_delta, now) == Some(s@),
                None => snapshot_of(self@, turn_id@, cost_delta, now) is None,
            },
    {
        let turn = match self.turn(turn_id) {
            Some(t) => t,
            None => {
                return None;
            },
        };
        if !turn.account_tokens {
            return None;
        }
        let tokens = usage_delta_tokens(&turn.last_accounted_usage, &turn.current_usage);
        let expected_goal_id = match turn.active_goal_id {
            Some(g) => g,
            None => {
                return None;
            },
        };
        let seconds: i64 = if same_id(&self.wall_clock.active_goal_id, expected_goal_id.as_str()) {
            self.wall_clock.elapsed_seconds(now)
        } else {
            0
        };
        let delta = UsageDelta {
            seconds,
            tokens,
            cost_usd: cost_delta,
            iterations: turn.pending_iterations,
        };
        if delta.seconds == 0 && delta.tokens <= 0 && Usd::zero().at_least(delta.cost_usd)
            && delta.iterations == 0 {
            return None;
        }
        Some(
            ProgressSnapshot {
                expected_goal_id,
                delta,
                current_usage: turn.current_usage,
                current_cost_usd: turn.current_cost_usd,
            },
        )
    }

    /// Wall time accrued while idle with a goal attached.
    pub fn idle_progress_snapshot(&self, now: u64) -> (r: Option<IdleProgressSnapshot>)
        ensures
            match r {
                Some(s) => {
                    &&& self@.clock.goal == Some(s.expected_goal_id@)
                    &&& seconds_since(self@.clock, now) != 0
                    &&& s.delta == (UsageDelta {
                        seconds: seconds_since(self@.clock, now) as i64,
                        ..goal::no_delta()
                    })
                },
                None => self@.clock.goal is None || seconds_since(self@.clock, now) == 0,
            },
    {
        let expected_goal_id = match copy_id(&self.wall_clock.active_goal_id) {
            Some(g) => g,
            None => {
                return None;
            },
        };
        let seconds = self.wall_clock.elapsed_seconds(now);
        if seconds == 0 {
            return None;
        }
        Some(
            IdleProgressSnapshot {
                expected_goal_id,
                delta: UsageDelta { seconds, tokens: 0, cost_usd: Usd::zero(), iterations: 0 },
            },
        )
    }

    fn charge_clock(
        &mut self,
        seconds: i64,
        status: GoalStatus,
        disposition: BudgetDisposition,
        now: u64,
    )
        ensures
            final(self)@ == idle_marked(old(self)@, seconds, status, disposition, now),
    {
        self.wall_clock.mark_accounted(seconds, now);
        if should_clear_active_goal(status, disposition) {
            self.wall_clock.clear_active(now);
        }
        if status != GoalStatus::BudgetLimited {
            self.budget_limit_reported_goal_id = None;
        }
    }

    /// Advance the watermarks after a snapshot has been written to the store.
    pub fn mark_progress_accounted(
        &mut self,
        turn_id: &str,
        snapshot: &ProgressSnapshot,
        status: GoalStatus,
        disposition: BudgetDisposition,
        now: u64,
    )
        ensures
            final(self)@ == progress_marked(
                old(self)@,
                turn_id@,
                snapshot@,
                status,
                disposition,
                now,
            ),
    {
        if let Some(t) = self.turn(turn_id) {
            let mut turn = t;
            turn.last_accounted_usage = snapshot.current_usage;
            turn.last_accounted_cost_usd = snapshot.current_cost_usd;
            turn.pending_iterations = turn.pending_iterations.saturating_sub(
                snapshot.delta.iterations,
            );
            if should_clear_active_goal(status, disposition) {
                turn.active_goal_id = None;
            }
            self.put_turn(turn_id, turn);
        }
        self.charge_clock(snapshot.delta.seconds, status, disposition, now);
    }

    pub fn mark_idle_progress_accounted(
        &mut self,
        snapshot: &IdleProgressSnapshot,
        status: GoalStatus,
        disposition: BudgetDisposition,
        now: u64,
    )
        ensures
            final(self)@ == idle_marked(
                old(self)@,
                snapshot.delta.seconds,
                status,
                disposition,
                now,
            ),
    {
        self.charge_clock(snapshot.delta.seconds, status, disposition, now);
    }

    pub fn reset_idle_baseline_and_clear_active_goal(&mut self, now: u64)
        ensures
            final(self)@ == (Accounts { clock: clock_cleared(now), reported: None, ..old(self)@ }),
    {
        self.wall_clock.clear_active(now);
        self.budget_limit_reported_goal_id = None;
    }

    /// True the first time a given goal hits its budget, so the wrap-up prompt is injected once.
    pub fn mark_budget_limit_reported_if_new(&mut self, goal_id: &str) -> (r: bool)
        ensures
            r == (old(self)@.reported != Some(goal_id@)),
            final(self)@ == (Accounts { reported: Some(goal_id@), ..old(self)@ }),
    {
        if same_id(&self.budget_limit_reported_goal_id, goal_id) {
            return false;
        }
        self.budget_limit_reported_goal_id = Some(goal_id.to_string());
        true
    }
}

/// The clock counts whole seconds since it was last read, and none where it was set back.
pub proof fn whole_seconds_are_counted(c: ClockView, now: u64)
    ensures
        now <= c.last ==> seconds_since(c, now) == 0,
        c.last <= now ==> seconds_since(c, now) * 1_000_000_000 <= now - c.last < (seconds_since(
            c,
            now,
        ) + 1) * 1_000_000_000,
{
}

/// That a spent budget was reported is remembered for the goal it was reported of, while that goal is
/// held back by its budget.
pub proof fn a_report_is_of_one_goal(goal: Seq<char>, other: Seq<char>, status: GoalStatus)
    ensures
        report_kept(Some(goal), goal) == Some(goal),
        other != goal ==> report_kept(Some(goal), other) is None,
        report_after(Some(goal), GoalStatus::BudgetLimited) == Some(goal),
        status != GoalStatus::BudgetLimited ==> report_after(Some(goal), status) is None,
{
}

} // verus!
