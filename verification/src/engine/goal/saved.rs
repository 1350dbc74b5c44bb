//! The JSON form of a goal: what a session's goal file holds, and how it is read again.
//!
//! The two amounts of money are carried as JSON numbers; whoever opens the file turns them into
//! amounts and back.

use crate::engine::goal;
use crate::engine::goal::{Goal, GoalLimits, GoalStatus, GoalView, Usd};
use crate::engine::records;
use crate::json;
use crate::json::{Json, JsonSpec, Number, NumberSpec};
use vstd::prelude::*;
use vstd::string::*;

verus! {

/// A goal as it is saved.
pub struct SavedGoal {
    pub goal_id: String,
    pub objective: String,
    pub status: GoalStatus,
    pub token_budget: Option<i64>,
    pub cost_cap_usd: Option<Number>,
    pub max_iterations: Option<u32>,
    pub tokens_used: i64,
    pub time_used_seconds: i64,
    pub cost_used_usd: Number,
    pub iterations_used: u32,
    pub created_at: u64,
    pub updated_at: u64,
    pub continuation_deferred: bool,
}

/// The mathematical value of a [`SavedGoal`].
pub struct SavedView {
    pub goal_id: Seq<char>,
    pub objective: Seq<char>,
    pub status: GoalStatus,
    pub limits: SavedLimits,
    pub tokens_used: i64,
    pub time_used_seconds: i64,
    pub cost_used_usd: NumberSpec,
    pub iterations_used: u32,
    pub created_at: u64,
    pub updated_at: u64,
    pub continuation_deferred: bool,
}

/// The caps of a saved goal by their values.
pub struct SavedLimits {
    pub token_budget: Option<i64>,
    pub cost_cap_usd: Option<NumberSpec>,
    pub max_iterations: Option<u32>,
}

/// An optional number by its value.
pub open spec fn opt_number(n: Option<Number>) -> Option<NumberSpec> {
    match n {
        Some(n) => Some(n@),
        None => None,
    }
}

impl View for SavedGoal {
    type V = SavedView;

    open spec fn view(&self) -> SavedView {
        SavedView {
            goal_id: self.goal_id@,
            objective: self.objective@,
            status: self.status,
            limits: SavedLimits {
                token_budget: self.token_budget,
                cost_cap_usd: opt_number(self.cost_cap_usd),
                max_iterations: self.max_iterations,
            },
            tokens_used: self.tokens_used,
            time_used_seconds: self.time_used_seconds,
            cost_used_usd: self.cost_used_usd@,
            iterations_used: self.iterations_used,
            created_at: self.created_at,
            updated_at: self.updated_at,
            continuation_deferred: self.continuation_deferred,
        }
    }
}

// ---- writing --------------------------------------------------------------------------------

/// The JSON form of a goal's caps.
pub open spec fn limits_json(l: SavedLimits) -> JsonSpec {
    JsonSpec::Object(
        json::pairs3(
            "cost_cap_usd"@,
            match l.cost_cap_usd {
                Some(n) => JsonSpec::Number(n),
                None => JsonSpec::Null,
            },
            "max_iterations"@,
            match l.max_iterations {
                Some(n) => JsonSpec::Number(NumberSpec::PosInt(n as u64)),
                None => JsonSpec::Null,
            },
            "token_budget"@,
            match l.token_budget {
                Some(n) => json::int_spec(n),
                None => JsonSpec::Null,
            },
        ),
    )
}

/// The JSON form of a goal.
pub open spec fn goal_json(g: SavedView) -> JsonSpec {
    JsonSpec::Object(
        json::pairs6(
            "continuation_deferred"@,
            JsonSpec::Bool(g.continuation_deferred),
            "cost_used_usd"@,
            JsonSpec::Number(g.cost_used_usd),
            "created_at"@,
            JsonSpec::Number(NumberSpec::PosInt(g.created_at)),
            "goal_id"@,
            JsonSpec::Str(g.goal_id),
            "iterations_used"@,
            JsonSpec::Number(NumberSpec::PosInt(g.iterations_used as u64)),
            "limits"@,
            limits_json(g.limits),
        ).push(("objective"@, JsonSpec::Str(g.objective))).push(
            ("status"@, JsonSpec::Str(goal::status_name(g.status))),
        ).push(("time_used_seconds"@, json::int_spec(g.time_used_seconds))).push(
            ("tokens_used"@, json::int_spec(g.tokens_used)),
        ).push(("updated_at"@, JsonSpec::Number(NumberSpec::PosInt(g.updated_at)))),
    )
}

impl SavedGoal {
    fn limits_to_json(&self) -> (r: Json)
        ensures
            r.model() == limits_json(self@.limits),
    {
        let mut m = json::members();
        json::put(
            &mut m,
            "cost_cap_usd",
            match &self.cost_cap_usd {
                Some(n) => Json::Number(n.copy()),
                None => Json::Null,
            },
        );
        json::put(
            &mut m,
            "max_iterations",
            match self.max_iterations {
                Some(n) => json::uint(n as u64),
                None => Json::Null,
            },
        );
        json::put(
            &mut m,
            "token_budget",
            match self.token_budget {
                Some(n) => json::sint(n),
                None => Json::Null,
            },
        );
        json::object(m)
    }

    /// The JSON form of the goal.
    pub fn to_json(&self) -> (r: Json)
        ensures
            r.model() == goal_json(self@),
    {
        let mut m = json::members();
        json::put(&mut m, "continuation_deferred", json::boolean(self.continuation_deferred));
        json::put(&mut m, "cost_used_usd", Json::Number(self.cost_used_usd.copy()));
        json::put(&mut m, "created_at", json::uint(self.created_at));
        json::put(&mut m, "goal_id", json::string(self.goal_id.as_str()));
        json::put(&mut m, "iterations_used", json::uint(self.iterations_used as u64));
        json::put(&mut m, "limits", self.limits_to_json());
        json::put(&mut m, "objective", json::string(self.objective.as_str()));
        json::put(&mut m, "status", json::string(self.status.as_str()));
        json::put(&mut m, "time_used_seconds", json::sint(self.time_used_seconds));
        json::put(&mut m, "tokens_used", json::sint(self.tokens_used));
        json::put(&mut m, "updated_at", json::uint(self.updated_at));
        json::object(m)
    }
}

// ---- reading --------------------------------------------------------------------------------

/// The status that a value holds: its name, or an object that holds null under its name.
pub open spec fn status_in(j: JsonSpec) -> Option<GoalStatus> {
    match j {
        JsonSpec::Str(name) => goal::status_named(name),
        JsonSpec::Object(members) => if members.len() == 1 && members[0].1 is Null {
            goal::status_named(members[0].0)
        } else {
            None
        },
        _ => None,
    }
}

/// The number that a value holds.
pub open spec fn number_in(j: JsonSpec) -> Option<NumberSpec> {
    match j {
        JsonSpec::Number(n) => Some(n),
        _ => None,
    }
}

/// The natural number below two to the 32 that a value holds.
pub open spec fn u32_in(j: JsonSpec) -> Option<u32> {
    match json::u64_in(j) {
        Some(n) => if n <= u32::MAX {
            Some(n as u32)
        } else {
            None
        },
        None => None,
    }
}

/// The caps that a value holds, any of which may be left out or null.
pub open spec fn limits_in(j: JsonSpec) -> Option<SavedLimits> {
    let token_budget: Option<Option<i64>> = match json::slot(j, "token_budget"@, 0) {
        None => Some(None),
        Some(JsonSpec::Null) => Some(None),
        Some(v) => match json::i64_in(v) {
            Some(n) => Some(Some(n)),
            None => None,
        },
    };
    let cost_cap_usd: Option<Option<NumberSpec>> = match json::slot(j, "cost_cap_usd"@, 1) {
        None => Some(None),
        Some(JsonSpec::Null) => Some(None),
        Some(v) => match number_in(v) {
            Some(n) => Some(Some(n)),
            None => None,
        },
    };
    let max_iterations: Option<Option<u32>> = match json::slot(j, "max_iterations"@, 2) {
        None => Some(None),
        Some(JsonSpec::Null) => Some(None),
        Some(v) => match u32_in(v) {
            Some(n) => Some(Some(n)),
            None => None,
        },
    };
    match (token_budget, cost_cap_usd, max_iterations) {
        (Some(token_budget), Some(cost_cap_usd), Some(max_iterations)) if json::is_record(
            j,
            3,
        ) => Some(SavedLimits { token_budget, cost_cap_usd, max_iterations }),
        _ => None,
    }
}

/// The goal that a value holds. Of what was charged, anything may be left out.
pub open spec fn goal_in(j: JsonSpec) -> Option<SavedView> {
    let limits = match json::slot(j, "limits"@, 3) {
        None => Some(
            SavedLimits { token_budget: None, cost_cap_usd: None, max_iterations: None },
        ),
        Some(v) => limits_in(v),
    };
    let status = match json::slot(j, "status"@, 2) {
        Some(v) => status_in(v),
        None => None,
    };
    let tokens_used = match json::slot(j, "tokens_used"@, 4) {
        None => Some(0i64),
        Some(v) => json::i64_in(v),
    };
    let time_used_seconds = match json::slot(j, "time_used_seconds"@, 5) {
        None => Some(0i64),
        Some(v) => json::i64_in(v),
    };
    let cost_used_usd = match json::slot(j, "cost_used_usd"@, 6) {
        None => Some(NumberSpec::PosInt(0)),
        Some(v) => number_in(v),
    };
    let iterations_used = match json::slot(j, "iterations_used"@, 7) {
        None => Some(0u32),
        Some(v) => u32_in(v),
    };
    let created_at = match json::slot(j, "created_at"@, 8) {
        Some(v) => json::u64_in(v),
        None => None,
    };
    let updated_at = match json::slot(j, "updated_at"@, 9) {
        Some(v) => json::u64_in(v),
        None => None,
    };
    let continuation_deferred = match json::slot(j, "continuation_deferred"@, 10) {
        None => Some(false),
        Some(v) => json::bool_in(v),
    };
    match (
        records::text_slot(j, "goal_id"@, 0),
        records::text_slot(j, "objective"@, 1),
        status,
        limits,
        (tokens_used, time_used_seconds, cost_used_usd, iterations_used),
        (created_at, updated_at, continuation_deferred),
    ) {
        (
            Some(goal_id),
            Some(objective),
            Some(status),
            Some(limits),
            (
                Some(tokens_used),
                Some(time_used_seconds),
                Some(cost_used_usd),
                Some(iterations_used),
            ),
            (Some(created_at), Some(updated_at), Some(continuation_deferred)),
        ) if json::is_record(j, 11) => Some(
            SavedView {
                goal_id,
                objective,
                status,
                limits,
                tokens_used,
                time_used_seconds,
                cost_used_usd,
                iterations_used,
                created_at,
                updated_at,
                continuation_deferred,
            },
        ),
        _ => None,
    }
}

fn status_from_json(j: &Json) -> (r: Option<GoalStatus>)
    ensures
        r == status_in(j.model()),
{
    let name = match j {
        Json::Str(name) => name.as_str(),
        Json::Object(members) => if members.len() == 1 && members[0].1.is_null() {
            members[0].0.as_str()
        } else {
            return None;
        },
        _ => return None,
    };
    match GoalStatus::parse(name) {
        Ok(s) => Some(s),
        Err(_) => None,
    }
}

fn number_from_json(j: &Json) -> (r: Option<Number>)
    ensures
        opt_number(r) == number_in(j.model()),
{
    match j {
        Json::Number(n) => Some(n.copy()),
        _ => None,
    }
}

fn u32_from_json(j: &Json) -> (r: Option<u32>)
    ensures
        r == u32_in(j.model()),
{
    match j.as_u64() {
        Some(n) => if n <= u32::MAX as u64 {
            Some(n as u32)
        } else {
            None
        },
        None => None,
    }
}

impl SavedGoal {
    /// The goal that a value holds.
    pub fn from_json(j: &Json) -> (r: Option<SavedGoal>)
        ensures
            match r {
                Some(g) => goal_in(j.model()) == Some(g@),
                None => goal_in(j.model()) is None,
            },
    {
        if !j.is_record(11) {
            return None;
        }
        let goal_id = records::text_at(j, "goal_id", 0)?;
        let objective = records::text_at(j, "objective", 1)?;
        let status = status_from_json(j.slot("status", 2)?)?;
        let mut token_budget: Option<i64> = None;
        let mut cost_cap_usd: Option<Number> = None;
        let mut max_iterations: Option<u32> = None;
        if let Some(l) = j.slot("limits", 3) {
            if !l.is_record(3) {
                return None;
            }
            match l.slot("token_budget", 0) {
                None => {},
                Some(Json::Null) => {},
                Some(v) => token_budget = Some(v.as_i64()?),
            }
            match l.slot("cost_cap_usd", 1) {
                None => {},
                Some(Json::Null) => {},
                Some(v) => cost_cap_usd = Some(number_from_json(v)?),
            }
            match l.slot("max_iterations", 2) {
                None => {},
                Some(Json::Null) => {},
                Some(v) => max_iterations = Some(u32_from_json(v)?),
            }
        }
        let tokens_used: i64 = match j.slot("tokens_used", 4) {
            None => 0,
            Some(v) => v.as_i64()?,
        };
        let time_used_seconds: i64 = match j.slot("time_used_seconds", 5) {
            None => 0,
            Some(v) => v.as_i64()?,
        };
        let cost_used_usd = match j.slot("cost_used_usd", 6) {
            None => Number::PosInt(0),
            Some(v) => number_from_json(v)?,
        };
        let iterations_used: u32 = match j.slot("iterations_used", 7) {
            None => 0,
            Some(v) => u32_from_json(v)?,
        };
        let created_at = j.slot("created_at", 8)?.as_u64()?;
        let updated_at = j.slot("updated_at", 9)?.as_u64()?;
        let continuation_deferred = match j.slot("continuation_deferred", 10) {
            None => false,
            Some(v) => v.as_bool()?,
        };
        Some(
            SavedGoal {
                goal_id,
                objective,
                status,
                token_budget,
                cost_cap_usd,
                max_iterations,
                tokens_used,
                time_used_seconds,
                cost_used_usd,
                iterations_used,
                created_at,
                updated_at,
                continuation_deferred,
            },
        )
    }
}

proof fn lemma_limit_keys()
    ensures
        "cost_cap_usd"@ != "max_iterations"@,
        "cost_cap_usd"@ != "token_budget"@,
        "max_iterations"@ != "token_budget"@,
{
    reveal_strlit("cost_cap_usd");
    reveal_strlit("max_iterations");
    reveal_strlit("token_budget");
    assert("cost_cap_usd"@[0] == 'c' && "max_iterations"@[0] == 'm' && "token_budget"@[0] == 't');
}

proof fn lemma_limits_read_back(l: SavedLimits)
    ensures
        limits_in(limits_json(l)) == Some(l),
{
    lemma_limit_keys();
    reveal_with_fuel(json::member_from, 4);
    let ms = limits_json(l)->Object_0;
    assert(ms.len() == 3);
    assert(ms[0].0 == "cost_cap_usd"@ && ms[1].0 == "max_iterations"@ && ms[2].0
        == "token_budget"@);
    let j = limits_json(l);
    assert(json::slot(j, "token_budget"@, 0) == Some(ms[2].1));
    assert(json::slot(j, "cost_cap_usd"@, 1) == Some(ms[0].1));
    assert(json::slot(j, "max_iterations"@, 2) == Some(ms[1].1));
}

/// The JSON form of a goal reads back as that goal.
pub proof fn a_saved_goal_reads_back(g: SavedView)
    ensures
        goal_in(goal_json(g)) == Some(g),
{
    reveal_strlit("continuation_deferred");
    reveal_strlit("cost_used_usd");
    reveal_strlit("created_at");
    reveal_strlit("goal_id");
    reveal_strlit("iterations_used");
    reveal_strlit("limits");
    reveal_strlit("objective");
    reveal_strlit("status");
    reveal_strlit("time_used_seconds");
    reveal_strlit("tokens_used");
    reveal_strlit("updated_at");
    assert("continuation_deferred"@[0] == 'c' && "continuation_deferred"@[2] == 'n');
    assert("cost_used_usd"@[0] == 'c' && "cost_used_usd"@[1] == 'o' && "cost_used_usd"@[2] == 's');
    assert("created_at"@[0] == 'c' && "created_at"@[1] == 'r' && "created_at"@[2] == 'e');
    assert("goal_id"@[0] == 'g' && "iterations_used"@[0] == 'i' && "limits"@[0] == 'l');
    assert("objective"@[0] == 'o' && "status"@[0] == 's' && "updated_at"@[0] == 'u');
    assert("time_used_seconds"@[0] == 't' && "time_used_seconds"@[1] == 'i');
    assert("tokens_used"@[0] == 't' && "tokens_used"@[1] == 'o');
    let j = goal_json(g);
    let ms = j->Object_0;
    assert(ms.len() == 11);
    reveal_with_fuel(json::member_from, 12);
    assert(json::slot(j, "continuation_deferred"@, 10) == Some(ms[0].1));
    assert(json::slot(j, "cost_used_usd"@, 6) == Some(ms[1].1));
    assert(json::slot(j, "created_at"@, 8) == Some(ms[2].1));
    assert(json::slot(j, "goal_id"@, 0) == Some(ms[3].1));
    assert(json::slot(j, "iterations_used"@, 7) == Some(ms[4].1));
    assert(json::slot(j, "limits"@, 3) == Some(ms[5].1));
    assert(json::slot(j, "objective"@, 1) == Some(ms[6].1));
    assert(json::slot(j, "status"@, 2) == Some(ms[7].1));
    assert(json::slot(j, "time_used_seconds"@, 5) == Some(ms[8].1));
    assert(json::slot(j, "tokens_used"@, 4) == Some(ms[9].1));
    assert(json::slot(j, "updated_at"@, 9) == Some(ms[10].1));
    lemma_limits_read_back(g.limits);
    goal::status_names_read_back(g.status);
}

// ---- the file -------------------------------------------------------------------------------

/// The goal with its amounts of money as numbers.
pub open spec fn saved_of(
    g: GoalView,
    cost_used: NumberSpec,
    cost_cap: Option<NumberSpec>,
) -> SavedView {
    SavedView {
        goal_id: g.goal_id,
        objective: g.objective,
        status: g.status,
        limits: SavedLimits {
            token_budget: g.limits.token_budget,
            cost_cap_usd: cost_cap,
            max_iterations: g.limits.max_iterations,
        },
        tokens_used: g.tokens_used,
        time_used_seconds: g.time_used_seconds,
        cost_used_usd: cost_used,
        iterations_used: g.iterations_used,
        created_at: g.created_at,
        updated_at: g.updated_at,
        continuation_deferred: g.continuation_deferred,
    }
}

/// Giving a saved goal the amounts that its numbers stand for undoes saving it.
pub proof fn saving_keeps_the_goal(
    g: GoalView,
    cost_used: NumberSpec,
    cost_cap: Option<NumberSpec>,
)
    ensures
        goal_of(
            saved_of(g, cost_used, cost_cap),
            g.cost_used_usd,
            g.limits.cost_cap_usd,
        ) == g,
{
}

/// The goal with the given amounts of money.
pub open spec fn goal_of(s: SavedView, cost_used: Usd, cost_cap: Option<Usd>) -> GoalView {
    GoalView {
        goal_id: s.goal_id,
        objective: s.objective,
        status: s.status,
        limits: GoalLimits {
            token_budget: s.limits.token_budget,
            cost_cap_usd: cost_cap,
            max_iterations: s.limits.max_iterations,
        },
        tokens_used: s.tokens_used,
        time_used_seconds: s.time_used_seconds,
        cost_used_usd: cost_used,
        iterations_used: s.iterations_used,
        created_at: s.created_at,
        updated_at: s.updated_at,
        continuation_deferred: s.continuation_deferred,
    }
}

impl SavedGoal {
    /// The goal with its amounts of money as numbers.
    pub fn of(g: &Goal, cost_used: Number, cost_cap: Option<Number>) -> (r: SavedGoal)
        ensures
            r@ == saved_of(g@, cost_used@, opt_number(cost_cap)),
    {
        SavedGoal {
            goal_id: g.goal_id.clone(),
            objective: g.objective.clone(),
            status: g.status,
            token_budget: g.limits.token_budget,
            cost_cap_usd: cost_cap,
            max_iterations: g.limits.max_iterations,
            tokens_used: g.tokens_used,
            time_used_seconds: g.time_used_seconds,
            cost_used_usd: cost_used,
            iterations_used: g.iterations_used,
            created_at: g.created_at,
            updated_at: g.updated_at,
            continuation_deferred: g.continuation_deferred,
        }
    }

    /// The goal with the given amounts of money.
    pub fn into_goal(self, cost_used: Usd, cost_cap: Option<Usd>) -> (r: Goal)
        ensures
            r@ == goal_of(self@, cost_used, cost_cap),
    {
        Goal {
            goal_id: self.goal_id,
            objective: self.objective,
            status: self.status,
            limits: GoalLimits {
                token_budget: self.token_budget,
                cost_cap_usd: cost_cap,
                max_iterations: self.max_iterations,
            },
            tokens_used: self.tokens_used,
            time_used_seconds: self.time_used_seconds,
            cost_used_usd: cost_used,
            iterations_used: self.iterations_used,
            created_at: self.created_at,
            updated_at: self.updated_at,
            continuation_deferred: self.continuation_deferred,
        }
    }

    /// The text of the goal's file.
    pub fn encode(&self) -> (r: String)
        ensures
            r@ == json::json_pretty(goal_json(self@)),
    {
        json::print_pretty(&self.to_json())
    }

    /// The goal in a file's text, if it holds one.
    pub fn decode(file: &str) -> (r: Option<SavedGoal>)
        ensures
            match (json::json_parsed(file@), r) {
                (Ok(j), Some(g)) => goal_in(j) == Some(g@),
                (Ok(j), None) => goal_in(j) is None,
                (Err(_), r) => r is None,
            },
    {
        match json::parse(file) {
            Ok(j) => SavedGoal::from_json(&j),
            Err(_) => None,
        }
    }
}

} // verus!
