//! Thread goals: a persistent objective the agent keeps pursuing across turns.
//!
//! A goal is a durable objective attached to one session. While it is [`GoalStatus::Active`] the
//! agent keeps taking turns toward it on its own; usage (tokens, wall time, cost, turns) is charged
//! against it as work happens, and crossing a cap flips it to [`GoalStatus::BudgetLimited`] so the
//! model is told to wrap up instead of starting new work.
//!
//! The status machine is deliberately strict: only the model's `update_goal` tool can mark a goal
//! `complete` or `blocked`, and only the user or the system can pause, resume, budget-limit, or
//! usage-limit it. A terminal status is never silently overwritten: asking a budget-limited goal to
//! pause leaves it budget-limited, and reactivating a goal that is already over budget lands straight
//! back on budget-limited.

use crate::provider::retry;
use crate::text;
use vstd::prelude::*;
use vstd::string::*;

pub mod accounting;
pub mod lifecycle;
pub mod prompts;
pub mod runtime;
pub mod saved;

verus! {

// ---- money ----------------------------------------------------------------------------------

/// An amount of US dollars: the bits of an IEEE 754 binary64 number. Amounts are compared here;
/// what adds and subtracts them hands the results in.
#[derive(Debug, Clone, Copy, PartialEq, Eq, Structural)]
pub struct Usd {
    pub bits: u64,
}

/// The bits without the sign.
pub open spec fn magnitude(a: Usd) -> int {
    a.bits as int % 0x8000_0000_0000_0000
}

pub open spec fn is_negative(a: Usd) -> bool {
    a.bits >= 0x8000_0000_0000_0000
}

/// Not a number.
pub open spec fn is_nan(a: Usd) -> bool {
    magnitude(a) > 0x7ff0_0000_0000_0000
}

/// Neither infinite nor not a number.
pub open spec fn is_finite(a: Usd) -> bool {
    magnitude(a) < 0x7ff0_0000_0000_0000
}

/// A number that orders the amounts that are numbers. Both zeros have the same.
pub open spec fn rank(a: Usd) -> int {
    if is_negative(a) {
        -magnitude(a)
    } else {
        magnitude(a)
    }
}

/// `a >= b`. Nothing compares with what is not a number.
pub open spec fn at_least(a: Usd, b: Usd) -> bool {
    !is_nan(a) && !is_nan(b) && rank(a) >= rank(b)
}

/// `a < b`. Nothing compares with what is not a number.
pub open spec fn below(a: Usd, b: Usd) -> bool {
    !is_nan(a) && !is_nan(b) && rank(a) < rank(b)
}

pub open spec fn no_money() -> Usd {
    Usd { bits: 0 }
}

impl Usd {
    pub fn zero() -> (r: Usd)
        ensures
            r == no_money(),
    {
        Usd { bits: 0 }
    }

    fn rank(self) -> (r: i128)
        ensures
            r == rank(self),
    {
        if self.bits >= 0x8000_0000_0000_0000 {
            -((self.bits - 0x8000_0000_0000_0000) as i128)
        } else {
            self.bits as i128
        }
    }

    fn magnitude(self) -> (r: u64)
        ensures
            r == magnitude(self),
    {
        self.bits % 0x8000_0000_0000_0000
    }

    pub fn is_finite(self) -> (r: bool)
        ensures
            r == is_finite(self),
    {
        self.magnitude() < 0x7ff0_0000_0000_0000
    }

    /// Whether the amount is less than the other one.
    pub fn below(self, other: Usd) -> (r: bool)
        ensures
            r == below(self, other),
    {
        self.magnitude() <= 0x7ff0_0000_0000_0000 && other.magnitude() <= 0x7ff0_0000_0000_0000
            && self.rank() < other.rank()
    }

    /// Whether the amount is at least the other one.
    pub fn at_least(self, other: Usd) -> (r: bool)
        ensures
            r == at_least(self, other),
    {
        self.magnitude() <= 0x7ff0_0000_0000_0000 && other.magnitude() <= 0x7ff0_0000_0000_0000
            && self.rank() >= other.rank()
    }
}

// ---- the goal -------------------------------------------------------------------------------

/// Where a goal is in its life cycle.
///
/// `Paused`, `UsageLimited` and `BudgetLimited` are all "stopped but resumable"; `Blocked` means the
/// agent hit a real impasse; `Complete` is the only status that lets a new goal replace it.
#[derive(Debug, Clone, Copy, PartialEq, Eq, Structural)]
pub enum GoalStatus {
    Active,
    Paused,
    Blocked,
    UsageLimited,
    BudgetLimited,
    Complete,
}

/// The name of a status.
pub open spec fn status_name(s: GoalStatus) -> Seq<char> {
    match s {
        GoalStatus::Active => "active"@,
        GoalStatus::Paused => "paused"@,
        GoalStatus::Blocked => "blocked"@,
        GoalStatus::UsageLimited => "usage_limited"@,
        GoalStatus::BudgetLimited => "budget_limited"@,
        GoalStatus::Complete => "complete"@,
    }
}

/// The status of a name.
pub open spec fn status_named(s: Seq<char>) -> Option<GoalStatus> {
    if s == "active"@ {
        Some(GoalStatus::Active)
    } else if s == "paused"@ {
        Some(GoalStatus::Paused)
    } else if s == "blocked"@ {
        Some(GoalStatus::Blocked)
    } else if s == "usage_limited"@ {
        Some(GoalStatus::UsageLimited)
    } else if s == "budget_limited"@ {
        Some(GoalStatus::BudgetLimited)
    } else if s == "complete"@ {
        Some(GoalStatus::Complete)
    } else {
        None
    }
}

/// Reading a status's name gives the status back.
pub proof fn status_names_read_back(s: GoalStatus)
    ensures
        status_named(status_name(s)) == Some(s),
{
    reveal_strlit("active");
    reveal_strlit("paused");
    reveal_strlit("blocked");
    reveal_strlit("usage_limited");
    reveal_strlit("budget_limited");
    reveal_strlit("complete");
    assert("paused"@[0] == 'p');
    assert("active"@[0] == 'a');
    assert("blocked"@[1] == 'l');
    assert("budget_limited"@[1] == 'u');
    assert("usage_limited"@[0] == 'u');
    assert("complete"@[0] == 'c');
}

impl GoalStatus {
    pub fn as_str(self) -> (r: &'static str)
        ensures
            r@ == status_name(self),
    {
        match self {
            GoalStatus::Active => "active",
            GoalStatus::Paused => "paused",
            GoalStatus::Blocked => "blocked",
            GoalStatus::UsageLimited => "usage_limited",
            GoalStatus::BudgetLimited => "budget_limited",
            GoalStatus::Complete => "complete",
        }
    }

    /// The status of a name.
    pub fn parse(s: &str) -> (r: Result<GoalStatus, String>)
        ensures
            match r {
                Ok(status) => status_named(s@) == Some(status),
                Err(e) => status_named(s@) is None && e@ == "unknown goal status `"@ + s@ + "`"@,
            },
    {
        if text::same(s, "active") {
            Ok(GoalStatus::Active)
        } else if text::same(s, "paused") {
            Ok(GoalStatus::Paused)
        } else if text::same(s, "blocked") {
            Ok(GoalStatus::Blocked)
        } else if text::same(s, "usage_limited") {
            Ok(GoalStatus::UsageLimited)
        } else if text::same(s, "budget_limited") {
            Ok(GoalStatus::BudgetLimited)
        } else if text::same(s, "complete") {
            Ok(GoalStatus::Complete)
        } else {
            Err(text::concat3("unknown goal status `", s, "`"))
        }
    }

    pub fn is_active(self) -> (r: bool)
        ensures
            r == (self == GoalStatus::Active),
    {
        self == GoalStatus::Active
    }

    /// Whether the goal has stopped in a way that ends the automatic loop.
    pub fn is_terminal(self) -> (r: bool)
        ensures
            r == terminal(self),
    {
        self == GoalStatus::BudgetLimited || self == GoalStatus::Complete
    }
}

/// The caps that stop a goal. All are optional; whichever is reached first wins.
///
/// `token_budget` is the portable one (it is what the model sees and reasons about); `cost_cap_usd`
/// and `max_iterations` are local safety rails for unattended runs.
#[derive(Debug, Clone, Copy, PartialEq)]
pub struct GoalLimits {
    pub token_budget: Option<i64>,
    pub cost_cap_usd: Option<Usd>,
    pub max_iterations: Option<u32>,
}

pub open spec fn no_limits() -> GoalLimits {
    GoalLimits { token_budget: None, cost_cap_usd: None, max_iterations: None }
}

/// The caps that were asked for, and the default of each that was not.
pub open spec fn limits_or(asked: GoalLimits, defaults: GoalLimits) -> GoalLimits {
    GoalLimits {
        token_budget: match asked.token_budget {
            Some(n) => Some(n),
            None => defaults.token_budget,
        },
        cost_cap_usd: match asked.cost_cap_usd {
            Some(c) => Some(c),
            None => defaults.cost_cap_usd,
        },
        max_iterations: match asked.max_iterations {
            Some(n) => Some(n),
            None => defaults.max_iterations,
        },
    }
}

impl Default for GoalLimits {
    fn default() -> (r: GoalLimits)
        ensures
            r == no_limits(),
    {
        GoalLimits { token_budget: None, cost_cap_usd: None, max_iterations: None }
    }
}

impl GoalLimits {
    pub fn tokens(token_budget: Option<i64>) -> (r: GoalLimits)
        ensures
            r == (GoalLimits { token_budget, ..no_limits() }),
    {
        GoalLimits { token_budget, cost_cap_usd: None, max_iterations: None }
    }

    /// These caps, and the default of each that is not set.
    pub fn or_defaults(self, defaults: GoalLimits) -> (r: GoalLimits)
        ensures
            r == limits_or(self, defaults),
    {
        GoalLimits {
            token_budget: match self.token_budget {
                Some(n) => Some(n),
                None => defaults.token_budget,
            },
            cost_cap_usd: match self.cost_cap_usd {
                Some(c) => Some(c),
                None => defaults.cost_cap_usd,
            },
            max_iterations: match self.max_iterations {
                Some(n) => Some(n),
                None => defaults.max_iterations,
            },
        }
    }

    pub fn is_unbounded(&self) -> (r: bool)
        ensures
            r == (*self == no_limits()),
    {
        self.token_budget.is_none() && self.cost_cap_usd.is_none() && self.max_iterations.is_none()
    }
}

/// A goal and everything charged against it so far.
#[derive(Debug, PartialEq)]
pub struct Goal {
    /// Identifies this particular goal; used as a compare-and-swap guard so usage accounted for a
    /// goal that has since been replaced is dropped rather than charged to its successor.
    pub goal_id: String,
    pub objective: String,
    pub status: GoalStatus,
    pub limits: GoalLimits,
    pub tokens_used: i64,
    pub time_used_seconds: i64,
    pub cost_used_usd: Usd,
    pub iterations_used: u32,
    pub created_at: u64,
    pub updated_at: u64,
    /// Suppresses one round of automatic continuation (set when a goal is restored from disk, so
    /// resuming a session doesn't immediately spend tokens before the user has said anything).
    pub continuation_deferred: bool,
}

/// The mathematical value of a [`Goal`].
pub struct GoalView {
    pub goal_id: Seq<char>,
    pub objective: Seq<char>,
    pub status: GoalStatus,
    pub limits: GoalLimits,
    pub tokens_used: i64,
    pub time_used_seconds: i64,
    pub cost_used_usd: Usd,
    pub iterations_used: u32,
    pub created_at: u64,
    pub updated_at: u64,
    pub continuation_deferred: bool,
}

impl View for Goal {
    type V = GoalView;

    open spec fn view(&self) -> GoalView {
        GoalView {
            goal_id: self.goal_id@,
            objective: self.objective@,
            status: self.status,
            limits: self.limits,
            tokens_used: self.tokens_used,
            time_used_seconds: self.time_used_seconds,
            cost_used_usd: self.cost_used_usd,
            iterations_used: self.iterations_used,
            created_at: self.created_at,
            updated_at: self.updated_at,
            continuation_deferred: self.continuation_deferred,
        }
    }
}

pub open spec fn opt_goal(g: Option<Goal>) -> Option<GoalView> {
    match g {
        Some(x) => Some(x@),
        None => None,
    }
}

pub open spec fn tokens_spent(g: GoalView) -> bool {
    g.limits.token_budget matches Some(budget) && g.tokens_used >= budget
}

pub open spec fn money_spent(g: GoalView) -> bool {
    g.limits.cost_cap_usd matches Some(cap) && at_least(g.cost_used_usd, cap)
}

pub open spec fn turns_spent(g: GoalView) -> bool {
    g.limits.max_iterations matches Some(cap) && g.iterations_used >= cap
}

/// Some configured cap has been reached.
pub open spec fn spent(g: GoalView) -> bool {
    tokens_spent(g) || money_spent(g) || turns_spent(g)
}

/// The cap that tripped: the first one reached, in the order tokens, cost, turns.
pub open spec fn cause_of(g: GoalView) -> Option<Seq<char>> {
    if tokens_spent(g) {
        Some("token budget"@)
    } else if money_spent(g) {
        Some("cost cap"@)
    } else if turns_spent(g) {
        Some("turn cap"@)
    } else {
        None
    }
}

/// What is left of the token budget: never below zero, and never more than an `i64` holds.
pub open spec fn tokens_left(g: GoalView) -> Option<int> {
    match g.limits.token_budget {
        Some(budget) => Some(
            if budget - g.tokens_used < 0 {
                0
            } else if budget - g.tokens_used > i64::MAX {
                i64::MAX as int
            } else {
                budget - g.tokens_used
            },
        ),
        None => None,
    }
}

impl Goal {
    /// The goal again.
    pub fn copy(&self) -> (r: Goal)
        ensures
            r@ == self@,
    {
        Goal {
            goal_id: self.goal_id.clone(),
            objective: self.objective.clone(),
            status: self.status,
            limits: self.limits,
            tokens_used: self.tokens_used,
            time_used_seconds: self.time_used_seconds,
            cost_used_usd: self.cost_used_usd,
            iterations_used: self.iterations_used,
            created_at: self.created_at,
            updated_at: self.updated_at,
            continuation_deferred: self.continuation_deferred,
        }
    }

    /// Tokens left before the budget stops the goal; `None` when there is no token budget.
    pub fn remaining_tokens(&self) -> (r: Option<i64>)
        ensures
            match r {
                Some(n) => tokens_left(self@) == Some(n as int),
                None => tokens_left(self@) is None,
            },
    {
        match self.limits.token_budget {
            Some(budget) => {
                let left: i128 = budget as i128 - self.tokens_used as i128;
                if left < 0 {
                    Some(0)
                } else if left > i64::MAX as i128 {
                    Some(i64::MAX)
                } else {
                    Some(left as i64)
                }
            },
            None => None,
        }
    }

    /// Whether any configured cap has been reached.
    pub fn over_budget(&self) -> (r: bool)
        ensures
            r == spent(self@),
    {
        self.budget_cause().is_some()
    }

    /// Which cap tripped, for the wrap-up prompt and the UI.
    pub fn budget_cause(&self) -> (r: Option<&'static str>)
        ensures
            match r {
                Some(s) => cause_of(self@) == Some(s@),
                None => cause_of(self@) is None,
            },
    {
        if let Some(budget) = self.limits.token_budget {
            if self.tokens_used >= budget {
                return Some("token budget");
            }
        }
        if let Some(cap) = self.limits.cost_cap_usd {
            if self.cost_used_usd.at_least(cap) {
                return Some("cost cap");
            }
        }
        if let Some(cap) = self.limits.max_iterations {
            if self.iterations_used >= cap {
                return Some("turn cap");
            }
        }
        None
    }
}

/// A partial edit of the stored goal. `None` fields are left untouched.
#[derive(Debug)]
pub struct GoalUpdate {
    pub objective: Option<String>,
    pub status: Option<GoalStatus>,
    pub limits: Option<GoalLimits>,
    /// When set, the update only applies if the stored goal still has this id.
    pub expected_goal_id: Option<String>,
}

/// The mathematical value of a [`GoalUpdate`].
pub struct UpdateView {
    pub objective: Option<Seq<char>>,
    pub status: Option<GoalStatus>,
    pub limits: Option<GoalLimits>,
    pub expected_goal_id: Option<Seq<char>>,
}

impl View for GoalUpdate {
    type V = UpdateView;

    open spec fn view(&self) -> UpdateView {
        UpdateView {
            objective: text::opt_view(self.objective),
            status: self.status,
            limits: self.limits,
            expected_goal_id: text::opt_view(self.expected_goal_id),
        }
    }
}

pub open spec fn no_update() -> UpdateView {
    UpdateView { objective: None, status: None, limits: None, expected_goal_id: None }
}

impl Default for GoalUpdate {
    fn default() -> (r: GoalUpdate)
        ensures
            r@ == no_update(),
    {
        GoalUpdate { objective: None, status: None, limits: None, expected_goal_id: None }
    }
}

/// Which statuses a usage-accounting write is allowed to touch.
///
/// Accounting runs at several points in a turn and must not resurrect a goal that has already
/// stopped, so each caller picks the narrowest mode that still records its own work: a mid-turn tool
/// completion uses [`GoalAccountingMode::ActiveOnly`], while the `update_goal` call that finishes the
/// goal must also be able to charge the goal it just completed.
#[derive(Debug, Clone, Copy, PartialEq, Eq, Structural)]
pub enum GoalAccountingMode {
    ActiveStatusOnly,
    ActiveOnly,
    ActiveOrComplete,
    ActiveOrStopped,
}

/// The mode records usage of a goal with this status.
pub open spec fn accepts(mode: GoalAccountingMode, status: GoalStatus) -> bool {
    match mode {
        GoalAccountingMode::ActiveStatusOnly => status == GoalStatus::Active,
        GoalAccountingMode::ActiveOnly => status == GoalStatus::Active || status
            == GoalStatus::BudgetLimited,
        GoalAccountingMode::ActiveOrComplete => status == GoalStatus::Active || status
            == GoalStatus::BudgetLimited || status == GoalStatus::Complete,
        GoalAccountingMode::ActiveOrStopped => status != GoalStatus::Complete,
    }
}

/// The mode may promote a goal with this status to budget-limited when a cap is reached.
pub open spec fn may_limit(mode: GoalAccountingMode, status: GoalStatus) -> bool {
    if mode == GoalAccountingMode::ActiveOrStopped {
        status != GoalStatus::Complete
    } else {
        status == GoalStatus::Active
    }
}

impl GoalAccountingMode {
    /// Statuses whose usage this mode records.
    pub fn accepts(self, status: GoalStatus) -> (r: bool)
        ensures
            r == accepts(self, status),
    {
        match self {
            GoalAccountingMode::ActiveStatusOnly => status == GoalStatus::Active,
            GoalAccountingMode::ActiveOnly => status == GoalStatus::Active || status
                == GoalStatus::BudgetLimited,
            GoalAccountingMode::ActiveOrComplete => status == GoalStatus::Active || status
                == GoalStatus::BudgetLimited || status == GoalStatus::Complete,
            GoalAccountingMode::ActiveOrStopped => status != GoalStatus::Complete,
        }
    }

    /// Statuses this mode may promote to [`GoalStatus::BudgetLimited`] when a cap is reached.
    pub fn may_budget_limit(self, status: GoalStatus) -> (r: bool)
        ensures
            r == may_limit(self, status),
    {
        match self {
            GoalAccountingMode::ActiveOrStopped => status != GoalStatus::Complete,
            _ => status == GoalStatus::Active,
        }
    }
}

/// Result of charging usage: `Updated` when the write landed, `Unchanged` when the goal was in a
/// status this mode doesn't touch (or the delta was empty).
#[derive(Debug)]
pub enum GoalAccountingOutcome {
    Unchanged(Option<Goal>),
    Updated(Goal),
}

/// The mathematical value of a [`GoalAccountingOutcome`].
pub enum AccountingOutcomeView {
    Unchanged(Option<GoalView>),
    Updated(GoalView),
}

impl View for GoalAccountingOutcome {
    type V = AccountingOutcomeView;

    open spec fn view(&self) -> AccountingOutcomeView {
        match self {
            GoalAccountingOutcome::Unchanged(g) => AccountingOutcomeView::Unchanged(opt_goal(*g)),
            GoalAccountingOutcome::Updated(g) => AccountingOutcomeView::Updated(g@),
        }
    }
}

/// Work to charge against a goal.
#[derive(Debug, Clone, Copy, PartialEq)]
pub struct UsageDelta {
    pub seconds: i64,
    pub tokens: i64,
    pub cost_usd: Usd,
    pub iterations: u32,
}

pub open spec fn no_delta() -> UsageDelta {
    UsageDelta { seconds: 0, tokens: 0, cost_usd: no_money(), iterations: 0 }
}

/// There is nothing to charge.
pub open spec fn delta_empty(d: UsageDelta) -> bool {
    d.seconds <= 0 && d.tokens <= 0 && at_least(no_money(), d.cost_usd) && d.iterations == 0
}

/// The cost that counts: a negative or non-finite one counts as none.
pub open spec fn cost_clamped(cost: Usd) -> Usd {
    if !is_finite(cost) || !at_least(cost, no_money()) {
        no_money()
    } else {
        cost
    }
}

/// The delta without negative parts.
pub open spec fn delta_clamped(d: UsageDelta) -> UsageDelta {
    UsageDelta {
        seconds: if d.seconds < 0 {
            0
        } else {
            d.seconds
        },
        tokens: if d.tokens < 0 {
            0
        } else {
            d.tokens
        },
        cost_usd: cost_clamped(d.cost_usd),
        iterations: d.iterations,
    }
}

impl Default for UsageDelta {
    fn default() -> (r: UsageDelta)
        ensures
            r == no_delta(),
    {
        UsageDelta { seconds: 0, tokens: 0, cost_usd: Usd { bits: 0 }, iterations: 0 }
    }
}

impl UsageDelta {
    pub fn is_empty(&self) -> (r: bool)
        ensures
            r == delta_empty(*self),
    {
        self.seconds <= 0 && self.tokens <= 0 && Usd::zero().at_least(self.cost_usd)
            && self.iterations == 0
    }

    /// The delta without negative parts.
    pub fn clamped(self) -> (r: UsageDelta)
        ensures
            r == delta_clamped(self),
    {
        UsageDelta {
            seconds: if self.seconds < 0 {
                0
            } else {
                self.seconds
            },
            tokens: if self.tokens < 0 {
                0
            } else {
                self.tokens
            },
            cost_usd: if !self.cost_usd.is_finite() || !self.cost_usd.at_least(Usd::zero()) {
                Usd { bits: 0 }
            } else {
                self.cost_usd
            },
            iterations: self.iterations,
        }
    }
}

pub const MAX_OBJECTIVE_CHARS: usize = 12_000;

/// Why an objective is refused.
pub open spec fn objective_fault(objective: Seq<char>) -> Option<Seq<char>> {
    if text::trimmed(objective).len() == 0 {
        Some("goal objective must not be empty"@)
    } else if objective.len() > MAX_OBJECTIVE_CHARS {
        Some(
            "goal objective is too long: "@ + text::decimal(objective.len())
                + " characters. Limit: "@ + text::decimal(MAX_OBJECTIVE_CHARS as nat)
                + " characters."@,
        )
    } else {
        None
    }
}

/// Reject objectives that are empty or too long to keep re-sending every turn.
pub fn validate_objective(objective: &str) -> (r: Result<(), String>)
    ensures
        match r {
            Ok(_) => objective_fault(objective@) is None,
            Err(e) => objective_fault(objective@) == Some(e@),
        },
{
    if text::trim(objective).unicode_len() == 0 {
        return Err("goal objective must not be empty".to_string());
    }
    let chars = objective.unicode_len();
    if chars > MAX_OBJECTIVE_CHARS {
        let mut m = "goal objective is too long: ".to_string();
        m.append(text::decimal_of(chars as u64).as_str());
        m.append(" characters. Limit: ");
        m.append(text::decimal_of(MAX_OBJECTIVE_CHARS as u64).as_str());
        m.append(" characters.");
        return Err(m);
    }
    Ok(())
}

/// Why limits are refused.
pub open spec fn limits_fault(l: GoalLimits) -> Option<Seq<char>> {
    if l.token_budget matches Some(n) && n <= 0 {
        Some("goal budgets must be positive when provided"@)
    } else if l.cost_cap_usd matches Some(cap) && at_least(no_money(), cap) {
        Some("goal cost caps must be positive when provided"@)
    } else if l.max_iterations == Some(0u32) {
        Some("goal turn caps must be positive when provided"@)
    } else {
        None
    }
}

/// Reject non-positive budgets (a zero budget would stop the goal before it starts).
pub fn validate_limits(limits: &GoalLimits) -> (r: Result<(), String>)
    ensures
        match r {
            Ok(_) => limits_fault(*limits) is None,
            Err(e) => limits_fault(*limits) == Some(e@),
        },
{
    if let Some(n) = limits.token_budget {
        if n <= 0 {
            return Err("goal budgets must be positive when provided".to_string());
        }
    }
    if let Some(cap) = limits.cost_cap_usd {
        if Usd::zero().at_least(cap) {
            return Err("goal cost caps must be positive when provided".to_string());
        }
    }
    if let Some(n) = limits.max_iterations {
        if n == 0 {
            return Err("goal turn caps must be positive when provided".to_string());
        }
    }
    Ok(())
}

// ---- what the operations do -----------------------------------------------------------------

/// An active goal that is already over one of its caps starts (or restarts) budget-limited.
pub open spec fn settled_status(g: GoalView) -> GoalStatus {
    if g.status == GoalStatus::Active && spent(g) {
        GoalStatus::BudgetLimited
    } else {
        g.status
    }
}

pub open spec fn new_goal(
    id: Seq<char>,
    objective: Seq<char>,
    status: GoalStatus,
    limits: GoalLimits,
    now: u64,
) -> GoalView {
    let g = GoalView {
        goal_id: id,
        objective,
        status,
        limits,
        tokens_used: 0,
        time_used_seconds: 0,
        cost_used_usd: no_money(),
        iterations_used: 0,
        created_at: now,
        updated_at: now,
        continuation_deferred: false,
    };
    GoalView { status: settled_status(g), ..g }
}

/// A new goal may start: there is none, or the one there is is complete.
pub open spec fn may_insert(slot: Option<GoalView>) -> bool {
    slot matches Some(g) ==> g.status == GoalStatus::Complete
}

/// A goal with this status has stopped in a way that ends the automatic loop.
pub open spec fn terminal(status: GoalStatus) -> bool {
    status == GoalStatus::BudgetLimited || status == GoalStatus::Complete
}

/// The status that an edit asks for, unless a goal with a terminal status is asked to pause or block.
pub open spec fn status_edited(old_status: GoalStatus, asked: Option<GoalStatus>) -> GoalStatus {
    match asked {
        None => old_status,
        Some(s) => if terminal(old_status) && (s == GoalStatus::Paused || s
            == GoalStatus::Blocked) {
            old_status
        } else {
            s
        },
    }
}

/// A goal after an edit.
pub open spec fn goal_edited(g: GoalView, u: UpdateView, now: u64) -> GoalView {
    let edited = GoalView {
        objective: match u.objective {
            Some(o) => o,
            None => g.objective,
        },
        limits: match u.limits {
            Some(l) => l,
            None => g.limits,
        },
        status: status_edited(g.status, u.status),
        updated_at: now,
        ..g
    };
    GoalView { status: settled_status(edited), ..edited }
}

/// The edit is meant for this goal.
pub open spec fn edit_applies(g: GoalView, u: UpdateView) -> bool {
    u.expected_goal_id matches Some(id) ==> g.goal_id == id
}

/// The stored goal after an edit.
pub open spec fn slot_edited(slot: Option<GoalView>, u: UpdateView, now: u64) -> Option<GoalView> {
    match slot {
        Some(g) => if edit_applies(g, u) {
            Some(goal_edited(g, u, now))
        } else {
            slot
        },
        None => None,
    }
}

/// What an edit answers.
pub open spec fn edit_answer(slot: Option<GoalView>, u: UpdateView, now: u64) -> Option<GoalView> {
    match slot {
        Some(g) => if edit_applies(g, u) {
            Some(goal_edited(g, u, now))
        } else {
            None
        },
        None => None,
    }
}

/// A goal with this status may be stopped with that one: an active one always, a budget-limited one
/// by a provider's usage limit.
pub open spec fn may_stop(status: GoalStatus, with: GoalStatus) -> bool {
    status == GoalStatus::Active || (with == GoalStatus::UsageLimited && status
        == GoalStatus::BudgetLimited)
}

pub open spec fn stop_answer(slot: Option<GoalView>, with: GoalStatus, now: u64) -> Option<GoalView> {
    match slot {
        Some(g) => if may_stop(g.status, with) {
            Some(GoalView { status: with, updated_at: now, ..g })
        } else {
            None
        },
        None => None,
    }
}

pub open spec fn slot_stopped(slot: Option<GoalView>, with: GoalStatus, now: u64) -> Option<
    GoalView,
> {
    match stop_answer(slot, with, now) {
        Some(g) => Some(g),
        None => slot,
    }
}

/// `a + b`, held within the range of `i64`.
pub open spec fn sum_within(a: i64, b: i64) -> i64 {
    if a + b > i64::MAX {
        i64::MAX
    } else if a + b < i64::MIN {
        i64::MIN
    } else {
        (a + b) as i64
    }
}

/// `a + b`, held within the range of `u32`.
pub open spec fn count_within(a: u32, b: u32) -> u32 {
    if a + b > u32::MAX {
        u32::MAX
    } else {
        (a + b) as u32
    }
}

/// The work is to be charged to this goal.
pub open spec fn charge_applies(
    g: GoalView,
    mode: GoalAccountingMode,
    expected: Option<Seq<char>>,
) -> bool {
    (expected matches Some(id) ==> g.goal_id == id) && accepts(mode, g.status)
}

/// A goal after the work `d` was charged to it; `total_cost` is its cost with that of `d`.
pub open spec fn goal_charged(
    g: GoalView,
    d: UsageDelta,
    mode: GoalAccountingMode,
    total_cost: Usd,
    now: u64,
) -> GoalView {
    let charged = GoalView {
        time_used_seconds: sum_within(g.time_used_seconds, d.seconds),
        tokens_used: sum_within(g.tokens_used, d.tokens),
        cost_used_usd: total_cost,
        iterations_used: count_within(g.iterations_used, d.iterations),
        updated_at: now,
        ..g
    };
    GoalView {
        status: if may_limit(mode, g.status) && spent(charged) {
            GoalStatus::BudgetLimited
        } else {
            g.status
        },
        ..charged
    }
}

/// What charging answers.
pub open spec fn charge_answer(
    slot: Option<GoalView>,
    delta: UsageDelta,
    mode: GoalAccountingMode,
    expected: Option<Seq<char>>,
    total_cost: Usd,
    now: u64,
) -> AccountingOutcomeView {
    let d = delta_clamped(delta);
    match slot {
        Some(g) => if !delta_empty(d) && charge_applies(g, mode, expected) {
            AccountingOutcomeView::Updated(goal_charged(g, d, mode, total_cost, now))
        } else {
            AccountingOutcomeView::Unchanged(slot)
        },
        None => AccountingOutcomeView::Unchanged(None),
    }
}

/// The stored goal after charging.
pub open spec fn slot_charged(
    slot: Option<GoalView>,
    delta: UsageDelta,
    mode: GoalAccountingMode,
    expected: Option<Seq<char>>,
    total_cost: Usd,
    now: u64,
) -> Option<GoalView> {
    match charge_answer(slot, delta, mode, expected, total_cost, now) {
        AccountingOutcomeView::Updated(g) => Some(g),
        AccountingOutcomeView::Unchanged(_) => slot,
    }
}

pub open spec fn deferred(slot: Option<GoalView>) -> Option<GoalView> {
    match slot {
        Some(g) => Some(GoalView { continuation_deferred: true, ..g }),
        None => None,
    }
}

pub open spec fn undeferred(slot: Option<GoalView>) -> Option<GoalView> {
    match slot {
        Some(g) => Some(GoalView { continuation_deferred: false, ..g }),
        None => None,
    }
}

// ---- what holds of them ---------------------------------------------------------------------

/// A terminal status is never silently overwritten: a budget-limited or complete goal that is asked
/// to pause or block, on its own or with other changes, keeps its status.
pub proof fn a_terminal_status_survives_pause_and_block(
    g: GoalView,
    u: UpdateView,
    asked: GoalStatus,
    now: u64,
)
    requires
        terminal(g.status),
        u.status == Some(asked),
        asked == GoalStatus::Paused || asked == GoalStatus::Blocked,
    ensures
        goal_edited(g, u, now).status == g.status,
        slot_stopped(Some(g), GoalStatus::Paused, now) == Some(g),
{
}

/// A goal that is over one of its caps cannot be made active: it lands on budget-limited.
pub proof fn an_overspent_goal_is_not_reactivated(g: GoalView, u: UpdateView, now: u64)
    requires
        u.status == Some(GoalStatus::Active),
    ensures
        goal_edited(g, u, now).status == (if spent(goal_edited(g, u, now)) {
            GoalStatus::BudgetLimited
        } else {
            GoalStatus::Active
        }),
{
}

/// No edit leaves an active goal over one of its caps, and neither does any charge.
pub proof fn an_active_goal_is_within_its_caps(
    g: GoalView,
    u: UpdateView,
    d: UsageDelta,
    mode: GoalAccountingMode,
    total_cost: Usd,
    now: u64,
)
    ensures
        goal_edited(g, u, now).status == GoalStatus::Active ==> !spent(goal_edited(g, u, now)),
        goal_charged(g, d, mode, total_cost, now).status == GoalStatus::Active ==> !spent(
            goal_charged(g, d, mode, total_cost, now),
        ),
{
}

/// Usage of a goal that has been replaced is dropped: work charged under another goal's id changes
/// nothing.
pub proof fn a_replaced_goal_is_not_charged(
    g: GoalView,
    d: UsageDelta,
    mode: GoalAccountingMode,
    id: Seq<char>,
    total_cost: Usd,
    now: u64,
)
    requires
        g.goal_id != id,
    ensures
        slot_charged(Some(g), d, mode, Some(id), total_cost, now) == Some(g),
{
}

/// Charging never resurrects a goal: it keeps its status or becomes budget-limited, and a complete
/// goal stays complete.
pub proof fn charging_never_resurrects(
    g: GoalView,
    d: UsageDelta,
    mode: GoalAccountingMode,
    total_cost: Usd,
    now: u64,
)
    ensures
        ({
            let after = goal_charged(g, d, mode, total_cost, now).status;
            &&& after == g.status || after == GoalStatus::BudgetLimited
            &&& g.status == GoalStatus::Complete ==> after == GoalStatus::Complete
        }),
{
}

// ---- the store ------------------------------------------------------------------------------

/// The goal of one session. Its keeper writes it to disk whenever it has changed.
pub struct GoalStore {
    goal: Option<Goal>,
}

impl View for GoalStore {
    type V = Option<GoalView>;

    closed spec fn view(&self) -> Option<GoalView> {
        opt_goal(self.goal)
    }
}

fn status_after_budget_limit(goal: &Goal) -> (r: GoalStatus)
    ensures
        r == settled_status(goal@),
{
    if goal.status == GoalStatus::Active && goal.over_budget() {
        GoalStatus::BudgetLimited
    } else {
        goal.status
    }
}

fn saturating_sum(a: i64, b: i64) -> (r: i64)
    ensures
        r == sum_within(a, b),
{
    let sum: i128 = a as i128 + b as i128;
    if sum > i64::MAX as i128 {
        i64::MAX
    } else if sum < i64::MIN as i128 {
        i64::MIN
    } else {
        sum as i64
    }
}

impl GoalStore {
    /// Open the store on the goal that its file held. A restored goal starts with its continuation
    /// deferred so resuming a session never auto-starts a turn.
    pub fn open(saved: Option<Goal>) -> (r: GoalStore)
        ensures
            r@ == deferred(opt_goal(saved)),
    {
        let mut goal = saved;
        if let Some(g) = goal {
            let mut g = g;
            g.continuation_deferred = true;
            goal = Some(g);
        }
        GoalStore { goal }
    }

    /// A store without a goal.
    pub fn ephemeral() -> (r: GoalStore)
        ensures
            r@ is None,
    {
        GoalStore { goal: None }
    }

    pub fn get(&self) -> (r: Option<Goal>)
        ensures
            opt_goal(r) == self@,
    {
        match &self.goal {
            Some(g) => Some(g.copy()),
            None => None,
        }
    }

    /// Start a new goal under the given id. Returns `None` when an unfinished goal already exists:
    /// only a completed goal may be replaced, which is what keeps one session on one objective at a
    /// time.
    pub fn insert(
        &mut self,
        objective: &str,
        status: GoalStatus,
        limits: GoalLimits,
        goal_id: String,
        now: u64,
    ) -> (r: Option<Goal>)
        ensures
            ({
                let made = new_goal(goal_id@, objective@, status, limits, now);
                if may_insert(old(self)@) {
                    opt_goal(r) == Some(made) && final(self)@ == Some(made)
                } else {
                    r is None && final(self)@ == old(self)@
                }
            }),
    {
        if let Some(existing) = &self.goal {
            if existing.status != GoalStatus::Complete {
                return None;
            }
        }
        let mut goal = Goal {
            goal_id,
            objective: objective.to_string(),
            status,
            limits,
            tokens_used: 0,
            time_used_seconds: 0,
            cost_used_usd: Usd { bits: 0 },
            iterations_used: 0,
            created_at: now,
            updated_at: now,
            continuation_deferred: false,
        };
        goal.status = status_after_budget_limit(&goal);
        self.goal = Some(goal.copy());
        Some(goal)
    }

    /// Overwrite the goal wholesale (session fork / rewind), deferring one continuation.
    pub fn replace_snapshot(&mut self, goal: Option<Goal>)
        ensures
            final(self)@ == deferred(opt_goal(goal)),
    {
        self.goal = GoalStore::open(goal).goal;
    }

    /// Apply a partial edit.
    ///
    /// Terminal statuses win over de-escalations: a budget-limited goal asked to pause or block stays
    /// budget-limited, and reactivating a goal that is already over budget re-lands on budget-limited
    /// rather than burning more tokens.
    pub fn update(&mut self, update: GoalUpdate, now: u64) -> (r: Option<Goal>)
        ensures
            opt_goal(r) == edit_answer(old(self)@, update@, now),
            final(self)@ == slot_edited(old(self)@, update@, now),
    {
        let current = match &self.goal {
            Some(g) => g.copy(),
            None => {
                return None;
            },
        };
        let mut goal = current;
        if let Some(expected) = &update.expected_goal_id {
            if !text::same(goal.goal_id.as_str(), expected.as_str()) {
                return None;
            }
        }
        if let Some(objective) = update.objective {
            goal.objective = objective;
        }
        if let Some(limits) = update.limits {
            goal.limits = limits;
        }
        if let Some(status) = update.status {
            let keep_terminal = goal.status.is_terminal() && (status == GoalStatus::Paused || status
                == GoalStatus::Blocked);
            if !keep_terminal {
                goal.status = status;
            }
        }
        goal.status = status_after_budget_limit(&goal);
        goal.updated_at = now;
        self.goal = Some(goal.copy());
        Some(goal)
    }

    /// Pause the goal. Only an active goal can be paused: a stopped goal keeps its status so the
    /// reason it stopped isn't lost.
    pub fn pause_active(&mut self, now: u64) -> (r: Option<Goal>)
        ensures
            opt_goal(r) == stop_answer(old(self)@, GoalStatus::Paused, now),
            final(self)@ == slot_stopped(old(self)@, GoalStatus::Paused, now),
    {
        self.set_stopped_status(GoalStatus::Paused, now)
    }

    /// Mark the goal usage-limited (provider quota). Applies to active and budget-limited goals.
    pub fn usage_limit_active(&mut self, now: u64) -> (r: Option<Goal>)
        ensures
            opt_goal(r) == stop_answer(old(self)@, GoalStatus::UsageLimited, now),
            final(self)@ == slot_stopped(old(self)@, GoalStatus::UsageLimited, now),
    {
        self.set_stopped_status(GoalStatus::UsageLimited, now)
    }

    fn set_stopped_status(&mut self, status: GoalStatus, now: u64) -> (r: Option<Goal>)
        ensures
            opt_goal(r) == stop_answer(old(self)@, status, now),
            final(self)@ == slot_stopped(old(self)@, status, now),
    {
        let current = match &self.goal {
            Some(g) => g.copy(),
            None => {
                return None;
            },
        };
        let mut goal = current;
        let allowed = goal.status == GoalStatus::Active || (status == GoalStatus::UsageLimited
            && goal.status == GoalStatus::BudgetLimited);
        if !allowed {
            return None;
        }
        goal.status = status;
        goal.updated_at = now;
        self.goal = Some(goal.copy());
        Some(goal)
    }

    /// Drop the goal entirely.
    pub fn delete(&mut self) -> (r: Option<Goal>)
        ensures
            opt_goal(r) == old(self)@,
            final(self)@ is None,
    {
        let mut previous: Option<Goal> = None;
        std::mem::swap(&mut previous, &mut self.goal);
        previous
    }

    pub fn has_continuation_deferral(&self) -> (r: bool)
        ensures
            r == (self@ matches Some(g) && g.continuation_deferred),
    {
        match &self.goal {
            Some(g) => g.continuation_deferred,
            None => false,
        }
    }

    pub fn clear_continuation_deferral(&mut self)
        ensures
            final(self)@ == undeferred(old(self)@),
    {
        let cleared = match &self.goal {
            Some(g) => {
                let mut goal = g.copy();
                goal.continuation_deferred = false;
                Some(goal)
            },
            None => None,
        };
        self.goal = cleared;
    }

    /// Charge `delta` against the goal, promoting it to [`GoalStatus::BudgetLimited`] if that pushes
    /// it over a cap.
    ///
    /// `expected_goal_id` guards against charging work to a goal that was replaced mid-flight.
    /// `total_cost` is the cost charged so far with the (clamped) cost of `delta` added.
    pub fn account_usage(
        &mut self,
        delta: UsageDelta,
        mode: GoalAccountingMode,
        expected_goal_id: Option<&str>,
        total_cost: Usd,
        now: u64,
    ) -> (r: GoalAccountingOutcome)
        ensures
            ({
                let expected = match expected_goal_id {
                    Some(id) => Some(id@),
                    None => None,
                };
                &&& r@ == charge_answer(old(self)@, delta, mode, expected, total_cost, now)
                &&& final(self)@ == slot_charged(old(self)@, delta, mode, expected, total_cost, now)
            }),
    {
        let delta = delta.clamped();
        if delta.is_empty() {
            return GoalAccountingOutcome::Unchanged(self.get());
        }
        let current = match &self.goal {
            Some(g) => g.copy(),
            None => {
                return GoalAccountingOutcome::Unchanged(None);
            },
        };
        let mut goal = current;
        let other = match expected_goal_id {
            Some(expected) => !text::same(goal.goal_id.as_str(), expected),
            None => false,
        };
        if other || !mode.accepts(goal.status) {
            return GoalAccountingOutcome::Unchanged(Some(goal));
        }
        let may_budget_limit = mode.may_budget_limit(goal.status);
        goal.time_used_seconds = saturating_sum(goal.time_used_seconds, delta.seconds);
        goal.tokens_used = saturating_sum(goal.tokens_used, delta.tokens);
        goal.cost_used_usd = total_cost;
        goal.iterations_used = goal.iterations_used.saturating_add(delta.iterations);
        goal.updated_at = now;
        if may_budget_limit && goal.over_budget() {
            goal.status = GoalStatus::BudgetLimited;
        }
        self.goal = Some(goal.copy());
        GoalAccountingOutcome::Updated(goal)
    }
}

// ---- goal ids -------------------------------------------------------------------------------

/// A hexadecimal digit.
pub open spec fn hex_digit(d: int) -> char {
    if d < 10 {
        (48 + d) as char
    } else {
        (87 + d) as char
    }
}

/// The first `n` bytes in hexadecimal, two digits each.
pub open spec fn hex_of(bytes: Seq<u8>, n: int) -> Seq<char>
    decreases n,
{
    if n <= 0 {
        seq![]
    } else {
        hex_of(bytes, n - 1).push(hex_digit(bytes[n - 1] as int / 16)).push(
            hex_digit(bytes[n - 1] as int % 16),
        )
    }
}

fn hex_char(d: u8) -> (r: char)
    requires
        d < 16,
    ensures
        r == hex_digit(d as int),
{
    if d < 10 {
        (48u8 + d) as char
    } else {
        (87u8 + d) as char
    }
}

/// The bytes in hexadecimal, two digits each.
pub fn to_hex(bytes: &Vec<u8>) -> (r: String)
    ensures
        r@ == hex_of(bytes@, bytes@.len() as int),
{
    let mut out = String::new();
    let mut i: usize = 0;
    assert(out@ =~= hex_of(bytes@, 0));
    while i < bytes.len()
        invariant
            0 <= i <= bytes@.len(),
            out@ == hex_of(bytes@, i as int),
        decreases bytes@.len() - i,
    {
        let b = bytes[i];
        out.push(hex_char(b / 16));
        out.push(hex_char(b % 16));
        i += 1;
    }
    out
}

/// The `k` low bytes of a number, the lowest first.
pub open spec fn low_bytes(n: nat, k: nat) -> Seq<u8>
    decreases k,
{
    if k == 0 {
        seq![]
    } else {
        seq![(n % 256) as u8] + low_bytes(n / 256, (k - 1) as nat)
    }
}

/// The sixteen bytes of a number, the lowest first.
fn le_bytes(n: u128) -> (r: Vec<u8>)
    ensures
        r@ == low_bytes(n as nat, 16),
        r@.len() == 16,
{
    let mut out: Vec<u8> = Vec::new();
    let mut rest: u128 = n;
    assert(out@ + low_bytes(n as nat, 16) =~= low_bytes(n as nat, 16));
    while out.len() < 16
        invariant
            out@.len() <= 16,
            out@ + low_bytes(rest as nat, (16 - out@.len()) as nat) == low_bytes(n as nat, 16),
        decreases 16 - out@.len(),
    {
        let ghost before = out@;
        let ghost tail = low_bytes(rest as nat / 256, (15 - out@.len()) as nat);
        out.push((rest % 256) as u8);
        assert(before + (seq![(rest as nat % 256) as u8] + tail) =~= out@ + tail);
        rest = rest / 256;
    }
    assert(out@ + low_bytes(rest as nat, 0) =~= out@);
    out
}

/// The id that random bytes give, or the clock where there are none, in hexadecimal.
pub fn goal_id_of(random: Option<Vec<u8>>, nanos: u128) -> (r: String)
    ensures
        r@ == (match random {
            Some(bytes) => hex_of(bytes@, bytes@.len() as int),
            None => hex_of(low_bytes(nanos as nat, 16), 16),
        }),
{
    match random {
        Some(bytes) => to_hex(&bytes),
        None => to_hex(&le_bytes(nanos)),
    }
}

/// A fresh goal id: sixteen random bytes in hexadecimal, or the clock where there is no randomness.
/// Chance decides the bytes, so nothing is said of the id but its shape.
pub fn new_goal_id(nanos: u128) -> (r: String)
    ensures
        exists|bytes: Seq<u8>| bytes.len() == 16 && r@ == #[trigger] hex_of(bytes, 16),
{
    let random = retry::random_bytes(16);
    proof {
        lemma_low_bytes(nanos as nat, 16);
    }
    goal_id_of(random, nanos)
}

proof fn lemma_low_bytes(n: nat, k: nat)
    ensures
        low_bytes(n, k).len() == k,
    decreases k,
{
    if k > 0 {
        lemma_low_bytes(n / 256, (k - 1) as nat);
    }
}

/// A cap that is asked for counts; one that is not asked for is the default.
pub proof fn an_asked_cap_counts(asked: GoalLimits, defaults: GoalLimits)
    ensures
        limits_or(asked, no_limits()) == asked,
        limits_or(no_limits(), defaults) == defaults,
        asked.token_budget is Some ==> limits_or(asked, defaults).token_budget
            == asked.token_budget,
        asked.cost_cap_usd is Some ==> limits_or(asked, defaults).cost_cap_usd
            == asked.cost_cap_usd,
        asked.max_iterations is Some ==> limits_or(asked, defaults).max_iterations
            == asked.max_iterations,
        asked.token_budget is None ==> limits_or(asked, defaults).token_budget
            == defaults.token_budget,
        asked.cost_cap_usd is None ==> limits_or(asked, defaults).cost_cap_usd
            == defaults.cost_cap_usd,
        asked.max_iterations is None ==> limits_or(asked, defaults).max_iterations
            == defaults.max_iterations,
{
}

/// A goal that has spent what it may is told the cap that it has reached: its tokens, or else its
/// money, or else its turns. One below all its caps is told none.
pub proof fn the_reached_cap_is_named(g: GoalView)
    ensures
        g.limits.token_budget matches Some(n) && n <= g.tokens_used ==> cause_of(g) == Some(
            "token budget"@,
        ),
        g.limits.token_budget is None && (g.limits.cost_cap_usd matches Some(cap) && at_least(
            g.cost_used_usd,
            cap,
        )) ==> cause_of(g) == Some("cost cap"@),
        g.limits.token_budget is None && g.limits.cost_cap_usd is None && (
        g.limits.max_iterations matches Some(n) && n <= g.iterations_used) ==> cause_of(g) == Some(
            "turn cap"@,
        ),
        g.limits == no_limits() ==> cause_of(g) is None,
{
}

/// Caps are accepted exactly where each that is given is above nothing.
pub proof fn caps_are_accepted_where_positive(l: GoalLimits)
    ensures
        limits_fault(l) is None <==> {
            &&& l.token_budget is Some ==> l.token_budget->0 >= 1
            &&& l.cost_cap_usd is Some ==> !at_least(no_money(), l.cost_cap_usd->0)
            &&& l.max_iterations is Some ==> l.max_iterations->0 >= 1
        },
{
}

/// What is left of a budget and what is used of it make the budget, while the use is within it.
pub proof fn the_rest_of_a_budget_is_left(g: GoalView, budget: i64)
    requires
        g.limits.token_budget == Some(budget),
        0 <= g.tokens_used,
    ensures
        g.tokens_used <= budget ==> tokens_left(g) == Some(budget - g.tokens_used),
        g.tokens_used > budget ==> tokens_left(g) == Some(0int),
{
}

} // verus!
