use cordy::engine::goal::accounting::{
    goal_tokens, usage_delta_tokens, BudgetDisposition, GoalAccountingState, ProgressSnapshot,
};
use cordy::engine::goal::prompts::{
    budget_limit_prompt, continuation_prompt, escape_xml_text, objective_updated_prompt, CostText,
    Steering,
};
use cordy::engine::goal::runtime::{Charge, GoalRuntime, Moment, StopReason};
use cordy::engine::goal::saved::SavedGoal;
use cordy::engine::goal::{
    goal_id_of, new_goal_id, to_hex, validate_limits, validate_objective, Goal, GoalAccountingMode,
    GoalAccountingOutcome, GoalLimits, GoalStatus, GoalStore, GoalUpdate, UsageDelta, Usd,
};
use cordy::engine::types::{ToolOutput, Usage};
use cordy::json::{self, Json, Number};
use cordy::tools::builtins::goal::{CreateGoal, GetGoal, UpdateGoal};
use serde_json::Value;

fn usd(amount: f64) -> Usd {
    Usd {
        bits: amount.to_bits(),
    }
}

fn dollars(amount: Usd) -> f64 {
    f64::from_bits(amount.bits)
}

fn usage(input: u64, output: u64, cache_read: u64) -> Usage {
    Usage {
        input_tokens: input,
        output_tokens: output,
        cache_read,
        cache_write: 0,
    }
}

// ---- accounting -----------------------------------------------------------------------------

fn snapshot(state: &GoalAccountingState, turn: &str) -> Option<ProgressSnapshot> {
    let (current, last) = state.cost_operands(turn)?;
    let delta = (dollars(current) - dollars(last)).max(0.0);
    state.progress_snapshot(turn, usd(delta), 0)
}

#[test]
fn token_delta_excludes_cached_input() {
    assert_eq!(goal_tokens(&usage(100, 20, 40)), 80);
    assert_eq!(
        usage_delta_tokens(&usage(100, 20, 40), &usage(180, 50, 60)),
        // fresh input 80-20=60, output 30
        90
    );
}

#[test]
fn snapshot_charges_only_new_usage() {
    let mut state = GoalAccountingState::new(0);
    state.start_turn("t1", usage(10, 0, 0), usd(0.0));
    state.mark_turn_goal_active("t1", "g1", 0);
    state.record_usage("t1", usage(110, 40, 10), usd(0.25));

    let snap = snapshot(&state, "t1").expect("usage to charge");
    assert_eq!(snap.expected_goal_id, "g1");
    assert_eq!(snap.delta.tokens, 130);
    assert!((dollars(snap.delta.cost_usd) - 0.25).abs() < 1e-9);

    state.mark_progress_accounted(
        "t1",
        &snap,
        GoalStatus::Active,
        BudgetDisposition::KeepActive,
        0,
    );
    assert!(
        snapshot(&state, "t1").is_none(),
        "the same usage is never charged twice"
    );

    state.record_usage("t1", usage(110, 60, 10), usd(0.25));
    let snap = snapshot(&state, "t1").unwrap();
    assert_eq!(snap.delta.tokens, 20);
}

#[test]
fn iterations_are_charged_once() {
    let mut state = GoalAccountingState::new(0);
    state.start_turn("t1", Usage::default(), usd(0.0));
    state.mark_turn_goal_active("t1", "g1", 0);
    state.record_iteration("t1");

    let snap = snapshot(&state, "t1").unwrap();
    assert_eq!(snap.delta.iterations, 1);
    state.mark_progress_accounted(
        "t1",
        &snap,
        GoalStatus::Active,
        BudgetDisposition::KeepActive,
        0,
    );
    assert!(snapshot(&state, "t1").is_none());
}

#[test]
fn terminal_status_detaches_the_goal_from_the_turn() {
    let mut state = GoalAccountingState::new(0);
    state.start_turn("t1", Usage::default(), usd(0.0));
    state.mark_turn_goal_active("t1", "g1", 0);
    state.record_usage("t1", usage(50, 0, 0), usd(0.0));
    let snap = snapshot(&state, "t1").unwrap();

    state.mark_progress_accounted(
        "t1",
        &snap,
        GoalStatus::BudgetLimited,
        BudgetDisposition::KeepActive,
        0,
    );
    assert!(
        state.turn_is_current_active_goal("t1"),
        "a mid-turn budget stop keeps the goal attached for the wrap-up"
    );

    state.record_usage("t1", usage(80, 0, 0), usd(0.0));
    let snap = snapshot(&state, "t1").unwrap();
    state.mark_progress_accounted(
        "t1",
        &snap,
        GoalStatus::BudgetLimited,
        BudgetDisposition::ClearActive,
        0,
    );
    assert!(!state.turn_is_current_active_goal("t1"));
}

#[test]
fn budget_limit_is_reported_once_per_goal() {
    let mut state = GoalAccountingState::new(0);
    assert!(state.mark_budget_limit_reported_if_new("g1"));
    assert!(!state.mark_budget_limit_reported_if_new("g1"));
    assert!(state.mark_budget_limit_reported_if_new("g2"));
}

#[test]
fn attaching_a_goal_mid_turn_rebases_the_watermark() {
    let mut state = GoalAccountingState::new(0);
    state.start_turn("t1", Usage::default(), usd(0.0));
    state.record_usage("t1", usage(500, 100, 0), usd(1.0));
    // Work done before the goal existed must not be charged to it.
    state.mark_current_turn_goal_active("g1", 0);
    assert!(snapshot(&state, "t1").is_none());

    state.record_usage("t1", usage(520, 100, 0), usd(1.0));
    assert_eq!(snapshot(&state, "t1").unwrap().delta.tokens, 20);
}

#[test]
fn time_is_charged_in_whole_seconds() {
    let mut state = GoalAccountingState::new(0);
    state.start_turn("t1", Usage::default(), usd(0.0));
    state.mark_turn_goal_active("t1", "g1", 0);
    assert!(state.progress_snapshot("t1", usd(0.0), 999_999_999).is_none());
    let snap = state
        .progress_snapshot("t1", usd(0.0), 2_500_000_000)
        .unwrap();
    assert_eq!(snap.delta.seconds, 2);
}

// ---- the store ------------------------------------------------------------------------------

fn insert(store: &mut GoalStore, objective: &str, limits: GoalLimits) -> Option<Goal> {
    let id = new_goal_id(1);
    store.insert(objective, GoalStatus::Active, limits, id, 10)
}

fn active(store: &mut GoalStore, limits: GoalLimits) -> Goal {
    insert(store, "ship the parser", limits).unwrap()
}

fn to_status(status: GoalStatus) -> GoalUpdate {
    GoalUpdate {
        status: Some(status),
        ..GoalUpdate::default()
    }
}

fn account(
    store: &mut GoalStore,
    delta: UsageDelta,
    mode: GoalAccountingMode,
    id: &str,
) -> GoalAccountingOutcome {
    let charged = store.get().map_or(0.0, |g| dollars(g.cost_used_usd));
    let total = usd(charged + dollars(delta.clamped().cost_usd));
    store.account_usage(delta, mode, Some(id), total, 20)
}

fn tokens(n: i64) -> UsageDelta {
    UsageDelta {
        tokens: n,
        ..UsageDelta::default()
    }
}

#[test]
fn insert_refuses_to_replace_an_unfinished_goal() {
    let mut s = GoalStore::ephemeral();
    active(&mut s, GoalLimits::default());
    assert!(insert(&mut s, "something else", GoalLimits::default()).is_none());

    s.update(to_status(GoalStatus::Complete), 11);
    let replaced = insert(&mut s, "something else", GoalLimits::default())
        .expect("a completed goal may be replaced");
    assert_eq!(replaced.objective, "something else");
    assert_eq!(replaced.tokens_used, 0, "usage resets with the new goal");
}

#[test]
fn new_goal_already_over_budget_starts_budget_limited() {
    let mut s = GoalStore::ephemeral();
    // A zero-iteration cap is rejected up front, so use the accounting path for the "already
    // over" case: create with a tiny budget, spend it, then reactivate.
    let goal = active(&mut s, GoalLimits::tokens(Some(10)));
    account(&mut s, tokens(25), GoalAccountingMode::ActiveOnly, &goal.goal_id);
    let after = s.get().unwrap();
    assert_eq!(after.status, GoalStatus::BudgetLimited);

    let reactivated = s.update(to_status(GoalStatus::Active), 30).unwrap();
    assert_eq!(
        reactivated.status,
        GoalStatus::BudgetLimited,
        "reactivating an over-budget goal stays budget-limited"
    );
}

#[test]
fn budget_limited_survives_pause_and_block() {
    let mut s = GoalStore::ephemeral();
    let goal = active(&mut s, GoalLimits::tokens(Some(10)));
    account(&mut s, tokens(10), GoalAccountingMode::ActiveOnly, &goal.goal_id);
    assert_eq!(s.get().unwrap().status, GoalStatus::BudgetLimited);

    assert!(
        s.pause_active(30).is_none(),
        "pause only applies to active goals"
    );
    let blocked = s.update(to_status(GoalStatus::Blocked), 31).unwrap();
    assert_eq!(blocked.status, GoalStatus::BudgetLimited);

    let usage_limited = s.usage_limit_active(32).unwrap();
    assert_eq!(
        usage_limited.status,
        GoalStatus::UsageLimited,
        "a provider quota outranks the local budget stop"
    );
}

#[test]
fn accounting_modes_gate_which_statuses_are_charged() {
    let mut s = GoalStore::ephemeral();
    let goal = active(&mut s, GoalLimits::default());
    s.update(to_status(GoalStatus::Paused), 11);

    assert!(matches!(
        account(&mut s, tokens(5), GoalAccountingMode::ActiveOnly, &goal.goal_id),
        GoalAccountingOutcome::Unchanged(_)
    ));
    assert!(matches!(
        account(&mut s, tokens(5), GoalAccountingMode::ActiveOrStopped, &goal.goal_id),
        GoalAccountingOutcome::Updated(_)
    ));
    assert_eq!(s.get().unwrap().tokens_used, 5);
}

#[test]
fn accounting_ignores_a_replaced_goal() {
    let mut s = GoalStore::ephemeral();
    let first = active(&mut s, GoalLimits::default());
    s.update(to_status(GoalStatus::Complete), 11);
    insert(&mut s, "next objective", GoalLimits::default());

    // The ids are random; a goal that was replaced has another one.
    assert_ne!(s.get().unwrap().goal_id, first.goal_id);
    let outcome = account(
        &mut s,
        tokens(100),
        GoalAccountingMode::ActiveOnly,
        &first.goal_id,
    );
    assert!(matches!(outcome, GoalAccountingOutcome::Unchanged(_)));
    assert_eq!(s.get().unwrap().tokens_used, 0);
}

#[test]
fn each_cap_can_trip_the_budget_limit() {
    for (limits, delta, cause) in [
        (GoalLimits::tokens(Some(100)), tokens(100), "token budget"),
        (
            GoalLimits {
                cost_cap_usd: Some(usd(1.0)),
                ..GoalLimits::default()
            },
            UsageDelta {
                cost_usd: usd(1.5),
                ..UsageDelta::default()
            },
            "cost cap",
        ),
        (
            GoalLimits {
                max_iterations: Some(3),
                ..GoalLimits::default()
            },
            UsageDelta {
                iterations: 3,
                ..UsageDelta::default()
            },
            "turn cap",
        ),
    ] {
        let mut s = GoalStore::ephemeral();
        let goal = active(&mut s, limits);
        account(&mut s, delta, GoalAccountingMode::ActiveOnly, &goal.goal_id);
        let after = s.get().unwrap();
        assert_eq!(after.status, GoalStatus::BudgetLimited, "{cause}");
        assert_eq!(after.budget_cause(), Some(cause));
    }
}

#[test]
fn empty_delta_leaves_the_goal_untouched() {
    let mut s = GoalStore::ephemeral();
    let goal = active(&mut s, GoalLimits::default());
    let outcome = account(
        &mut s,
        UsageDelta::default(),
        GoalAccountingMode::ActiveOnly,
        &goal.goal_id,
    );
    assert!(matches!(outcome, GoalAccountingOutcome::Unchanged(Some(_))));
}

/// What a goal's file holds, its amounts written as JSON numbers.
fn file_of(goal: &Goal) -> String {
    let number = |a: Usd| Number::Float(serde_json::Number::from_f64(dollars(a)).unwrap().to_string());
    SavedGoal::of(
        goal,
        number(goal.cost_used_usd),
        goal.limits.cost_cap_usd.map(number),
    )
    .encode()
}

fn amount(n: &Number) -> Usd {
    match n {
        Number::PosInt(n) => usd(*n as f64),
        Number::NegInt(n) => usd(*n as f64),
        Number::Float(t) => usd(t.parse().unwrap()),
    }
}

fn goal_in(file: &str) -> Option<Goal> {
    let saved = SavedGoal::decode(file)?;
    let used = amount(&saved.cost_used_usd);
    let cap = saved.cost_cap_usd.as_ref().map(amount);
    Some(saved.into_goal(used, cap))
}

#[test]
fn round_trips_through_disk_with_a_deferred_continuation() {
    let mut s = GoalStore::open(None);
    let goal = insert(&mut s, "ship it", GoalLimits::tokens(Some(50))).unwrap();
    assert!(!s.has_continuation_deferral());
    let file = file_of(&s.get().unwrap());

    let mut reopened = GoalStore::open(goal_in(&file));
    let loaded = reopened.get().unwrap();
    assert_eq!(loaded.goal_id, goal.goal_id);
    assert_eq!(loaded.objective, "ship it");
    assert_eq!(loaded.limits.token_budget, Some(50));
    assert!(
        reopened.has_continuation_deferral(),
        "a restored goal waits for the user before continuing"
    );
    reopened.clear_continuation_deferral();
    assert!(!reopened.has_continuation_deferral());

    reopened.delete();
    assert!(reopened.get().is_none());
}

#[test]
fn a_saved_goal_keeps_everything() {
    let goal = Goal {
        goal_id: "g".into(),
        objective: "o \"quoted\"".into(),
        status: GoalStatus::UsageLimited,
        limits: GoalLimits {
            token_budget: Some(-3),
            cost_cap_usd: Some(usd(2.5)),
            max_iterations: Some(7),
        },
        tokens_used: -1,
        time_used_seconds: 60,
        cost_used_usd: usd(0.125),
        iterations_used: 4,
        created_at: 1,
        updated_at: u64::MAX,
        continuation_deferred: true,
    };
    assert_eq!(goal_in(&file_of(&goal)), Some(goal));
}

#[test]
fn a_goal_file_may_leave_out_what_was_charged() {
    let goal = goal_in(
        r#"{"goal_id":"g","objective":"o","status":"paused","created_at":1,"updated_at":2}"#,
    )
    .unwrap();
    assert_eq!(goal.status, GoalStatus::Paused);
    assert_eq!(goal.limits, GoalLimits::default());
    assert_eq!(goal.cost_used_usd, Usd::zero());
    assert!(goal_in(r#"{"goal_id":"g","objective":"o","status":"off","created_at":1,"updated_at":2}"#).is_none());
    assert!(goal_in("nonsense").is_none());
}

#[test]
fn validation_rejects_empty_objectives_and_non_positive_budgets() {
    assert!(validate_objective("  ").is_err());
    assert!(validate_objective("do the thing").is_ok());
    assert!(validate_limits(&GoalLimits::tokens(Some(0))).is_err());
    assert!(validate_limits(&GoalLimits::tokens(Some(1))).is_ok());
    assert!(validate_limits(&GoalLimits {
        cost_cap_usd: Some(usd(-1.0)),
        ..GoalLimits::default()
    })
    .is_err());
}

#[test]
fn statuses_are_read_by_their_names() {
    for status in [
        GoalStatus::Active,
        GoalStatus::Paused,
        GoalStatus::Blocked,
        GoalStatus::UsageLimited,
        GoalStatus::BudgetLimited,
        GoalStatus::Complete,
    ] {
        assert_eq!(GoalStatus::parse(status.as_str()), Ok(status));
    }
    assert_eq!(
        GoalStatus::parse("off"),
        Err("unknown goal status `off`".to_string())
    );
}

#[test]
fn ids_are_hexadecimal_and_random() {
    assert_eq!(to_hex(&vec![0, 15, 255]), "000fff");
    let a = new_goal_id(7);
    assert_eq!(a.len(), 32);
    assert_ne!(a, new_goal_id(7));
}

// ---- prompts --------------------------------------------------------------------------------

fn cost_text(goal: &Goal) -> CostText {
    CostText {
        used: format!("{:.2}", dollars(goal.cost_used_usd)),
        cap: format!("{:.2}", goal.limits.cost_cap_usd.map_or(0.0, dollars)),
    }
}

fn goal_with(limits: GoalLimits) -> Goal {
    let mut store = GoalStore::ephemeral();
    insert(&mut store, "make <it> work & ship", limits).unwrap()
}

#[test]
fn continuation_escapes_the_objective_and_reports_the_budget() {
    let mut goal = goal_with(GoalLimits::tokens(Some(1000)));
    goal.tokens_used = 250;
    let p = continuation_prompt(&goal, &cost_text(&goal));
    assert!(p.contains("make &lt;it&gt; work &amp; ship"));
    assert!(p.contains("- Tokens used: 250"));
    assert!(p.contains("- Token budget: 1000"));
    assert!(p.contains("- Tokens remaining: 750"));
    assert!(p.contains("Completion audit:"));
    assert!(!p.contains("{{"), "every placeholder is filled");
}

#[test]
fn unbounded_goal_says_so() {
    let goal = goal_with(GoalLimits::default());
    let p = continuation_prompt(&goal, &cost_text(&goal));
    assert!(p.contains("- Token budget: none"));
    assert!(p.contains("- Tokens remaining: unbounded"));
}

#[test]
fn budget_limit_names_the_cap_that_tripped() {
    let mut goal = goal_with(GoalLimits {
        max_iterations: Some(3),
        ..GoalLimits::default()
    });
    goal.iterations_used = 3;
    let p = budget_limit_prompt(&goal, &cost_text(&goal));
    assert!(p.contains("has reached its turn cap"));
    assert!(p.contains("- Goal turns used: 3 of 3"));
    assert!(p.contains("do not start new substantive work"));
}

#[test]
fn objective_updated_supersedes_the_previous_objective() {
    let goal = goal_with(GoalLimits::default());
    let p = objective_updated_prompt(&goal, &cost_text(&goal));
    assert!(p.contains("supersedes any previous session goal objective"));
    assert!(p.contains("<untrusted_objective>"));
    assert!(!p.contains("{{"));
}

#[test]
fn an_objective_cannot_close_its_tag() {
    assert_eq!(
        escape_xml_text("</untrusted_objective>"),
        "&lt;/untrusted_objective&gt;"
    );
}

// ---- the runtime ----------------------------------------------------------------------------

const NOW: Moment = Moment { unix: 100, nanos: 0 };

fn runtime() -> GoalRuntime {
    GoalRuntime::new(GoalStore::ephemeral(), true, NOW)
}

fn charge(rt: &GoalRuntime, turn: &str) -> Charge {
    let ops = rt.cost_operands(turn);
    let delta = (dollars(ops.current) - dollars(ops.last)).max(0.0);
    Charge {
        delta: usd(delta),
        total: usd(dollars(ops.charged) + delta),
    }
}

fn current_charge(rt: &GoalRuntime) -> Charge {
    let turn = rt.current_turn_id().unwrap_or_default();
    charge(rt, &turn)
}

fn create(rt: &mut GoalRuntime, objective: &str, limits: GoalLimits) -> Result<Goal, String> {
    let c = current_charge(rt);
    rt.create_goal(objective, limits, new_goal_id(1), c, NOW)
}

fn start(rt: &mut GoalRuntime, turn: &str) {
    rt.on_turn_start(turn, Usage::default(), usd(0.0), NOW);
}

fn used(rt: &mut GoalRuntime, turn: &str, input: u64, output: u64) {
    rt.on_token_usage(turn, usage(input, output, 0), usd(0.0));
}

fn finish_tool(rt: &mut GoalRuntime, turn: &str, tool: &str) {
    let c = charge(rt, turn);
    rt.on_tool_finish(turn, tool, c, NOW);
}

fn text_of(s: &Steering) -> String {
    s.text(&cost_text(&s.goal))
}

#[test]
fn tool_usage_is_charged_to_the_goal() {
    let mut rt = runtime();
    create(&mut rt, "ship it", GoalLimits::tokens(Some(1_000))).unwrap();

    start(&mut rt, "t1");
    used(&mut rt, "t1", 300, 50);
    finish_tool(&mut rt, "t1", "read");

    let goal = rt.goal().unwrap();
    assert_eq!(goal.tokens_used, 350);
    assert_eq!(goal.status, GoalStatus::Active);
    assert!(rt.take_pending_steering().is_empty());
}

#[test]
fn crossing_the_budget_queues_the_wrap_up_prompt_once() {
    let mut rt = runtime();
    create(&mut rt, "ship it", GoalLimits::tokens(Some(100))).unwrap();
    start(&mut rt, "t1");

    used(&mut rt, "t1", 200, 0);
    finish_tool(&mut rt, "t1", "read");
    let steering = rt.take_pending_steering();
    assert_eq!(steering.len(), 1);
    assert!(text_of(&steering[0]).contains("do not start new substantive work"));
    assert_eq!(rt.goal().unwrap().status, GoalStatus::BudgetLimited);

    used(&mut rt, "t1", 400, 0);
    finish_tool(&mut rt, "t1", "read");
    assert!(
        rt.take_pending_steering().is_empty(),
        "the wrap-up prompt is not repeated for the same goal"
    );
}

#[test]
fn update_goal_calls_do_not_count_as_progress() {
    let mut rt = runtime();
    create(&mut rt, "ship it", GoalLimits::default()).unwrap();
    start(&mut rt, "t1");
    used(&mut rt, "t1", 500, 0);
    finish_tool(&mut rt, "t1", "update_goal");
    assert_eq!(rt.goal().unwrap().tokens_used, 0);
}

#[test]
fn idle_continuation_only_fires_for_an_active_goal() {
    let mut rt = runtime();
    assert!(rt.continue_if_idle(NOW).is_none(), "no goal, no loop");

    create(&mut rt, "ship it", GoalLimits::default()).unwrap();
    let prompt = rt.continue_if_idle(NOW).expect("active goal continues");
    assert!(text_of(&prompt).contains("Continue working toward the active session goal."));

    let c = current_charge(&rt);
    rt.pause(c, NOW).unwrap();
    assert!(rt.continue_if_idle(NOW).is_none());

    let c = current_charge(&rt);
    rt.resume(c, NOW).unwrap();
    assert!(rt.continue_if_idle(NOW).is_some());
}

#[test]
fn a_restored_goal_waits_for_the_user() {
    let file = {
        let mut rt = GoalRuntime::new(GoalStore::open(None), true, NOW);
        create(&mut rt, "ship it", GoalLimits::default()).unwrap();
        file_of(&rt.goal().unwrap())
    };
    let mut resumed = GoalRuntime::new(GoalStore::open(goal_in(&file)), true, NOW);
    resumed.restore_after_resume(NOW);
    assert!(
        resumed.continue_if_idle(NOW).is_none(),
        "resuming a session must not auto-start a turn"
    );

    start(&mut resumed, "t1");
    assert!(
        resumed.continue_if_idle(NOW).is_some(),
        "the deferral clears once the user runs a turn"
    );
}

fn fail(rt: &mut GoalRuntime, turn: &str, reason: StopReason) {
    let c = charge(rt, turn);
    rt.on_turn_error(turn, reason, c, NOW);
}

#[test]
fn a_turn_error_blocks_the_goal_and_stops_the_loop() {
    let mut rt = runtime();
    create(&mut rt, "ship it", GoalLimits::default()).unwrap();
    start(&mut rt, "t1");
    fail(&mut rt, "t1", StopReason::TurnError);

    assert_eq!(rt.goal().unwrap().status, GoalStatus::Blocked);
    assert!(rt.continue_if_idle(NOW).is_none());
}

#[test]
fn a_usage_limit_marks_the_goal_usage_limited() {
    let mut rt = runtime();
    create(&mut rt, "ship it", GoalLimits::default()).unwrap();
    start(&mut rt, "t1");
    fail(&mut rt, "t1", StopReason::UsageLimit);
    assert_eq!(rt.goal().unwrap().status, GoalStatus::UsageLimited);
}

#[test]
fn editing_the_objective_steers_a_running_turn() {
    let mut rt = runtime();
    create(&mut rt, "ship it", GoalLimits::default()).unwrap();
    start(&mut rt, "t1");
    let c = current_charge(&rt);
    rt.set_objective("ship it, but with tests", c, NOW).unwrap();

    let steering = rt.take_pending_steering();
    assert_eq!(steering.len(), 1);
    let text = text_of(&steering[0]);
    assert!(text.contains("ship it, but with tests"));
    assert!(text.contains("supersedes any previous session goal objective"));
}

#[test]
fn a_second_goal_needs_the_first_one_finished() {
    let mut rt = runtime();
    create(&mut rt, "first", GoalLimits::default()).unwrap();
    let err = create(&mut rt, "second", GoalLimits::default()).unwrap_err();
    assert!(err.contains("unfinished goal"));
}

#[test]
fn a_budget_limited_goal_cannot_resume_without_a_bigger_budget() {
    let mut rt = runtime();
    create(&mut rt, "ship it", GoalLimits::tokens(Some(100))).unwrap();
    start(&mut rt, "t1");
    used(&mut rt, "t1", 500, 0);
    finish_tool(&mut rt, "t1", "read");
    let c = charge(&rt, "t1");
    rt.on_turn_stop("t1", c, NOW);

    let c = current_charge(&rt);
    assert!(rt.resume(c, NOW).is_err());
    let c = current_charge(&rt);
    rt.set_limits(GoalLimits::tokens(Some(10_000)), c, NOW).unwrap();
    let c = current_charge(&rt);
    let resumed = rt.resume(c, NOW).unwrap();
    assert_eq!(resumed.status, GoalStatus::Active);
}

#[test]
fn turn_caps_stop_the_loop() {
    let mut rt = runtime();
    create(
        &mut rt,
        "ship it",
        GoalLimits {
            max_iterations: Some(2),
            ..GoalLimits::default()
        },
    )
    .unwrap();

    for turn in ["t1", "t2"] {
        start(&mut rt, turn);
        rt.on_iteration(turn);
        let c = charge(&rt, turn);
        rt.on_turn_stop(turn, c, NOW);
    }
    let goal = rt.goal().unwrap();
    assert_eq!(goal.iterations_used, 2);
    assert_eq!(goal.status, GoalStatus::BudgetLimited);
    assert!(rt.continue_if_idle(NOW).is_none());
}

#[test]
fn money_is_charged_once() {
    let mut rt = runtime();
    create(
        &mut rt,
        "ship it",
        GoalLimits {
            cost_cap_usd: Some(usd(1.0)),
            ..GoalLimits::default()
        },
    )
    .unwrap();
    start(&mut rt, "t1");
    rt.on_token_usage("t1", Usage::default(), usd(0.75));
    finish_tool(&mut rt, "t1", "read");
    finish_tool(&mut rt, "t1", "read");
    assert_eq!(dollars(rt.goal().unwrap().cost_used_usd), 0.75);
    assert_eq!(rt.goal().unwrap().status, GoalStatus::Active);
    rt.on_token_usage("t1", Usage::default(), usd(1.5));
    finish_tool(&mut rt, "t1", "read");
    assert_eq!(rt.goal().unwrap().status, GoalStatus::BudgetLimited);
}

#[test]
fn a_disabled_runtime_charges_nothing() {
    let mut rt = GoalRuntime::disabled(NOW);
    assert!(!rt.is_enabled());
    create(&mut rt, "x", GoalLimits::tokens(Some(100))).unwrap();
    start(&mut rt, "t1");
    used(&mut rt, "t1", 500, 0);
    finish_tool(&mut rt, "t1", "read");
    assert_eq!(rt.goal().unwrap().tokens_used, 0);
    assert!(rt.continue_if_idle(NOW).is_none());
}

// ---- the tools ------------------------------------------------------------------------------

fn body(out: &ToolOutput) -> Value {
    serde_json::from_str(&out.text).expect("tool output is JSON")
}

fn object(members: Vec<(&str, Json)>) -> Json {
    let mut m = json::members();
    for (k, v) in members {
        json::put(&mut m, k, v);
    }
    json::object(m)
}

fn create_by_tool(rt: &mut GoalRuntime, input: &Json) -> ToolOutput {
    let c = current_charge(rt);
    CreateGoal.run(rt, input, new_goal_id(1), c, NOW)
}

fn update_by_tool(rt: &mut GoalRuntime, status: &str) -> ToolOutput {
    let c = current_charge(rt);
    UpdateGoal.run(rt, &object(vec![("status", json::string(status))]), c, NOW)
}

#[test]
fn create_then_get_then_complete() {
    let mut rt = runtime();
    let out = create_by_tool(
        &mut rt,
        &object(vec![
            ("objective", json::string("ship it")),
            ("token_budget", json::uint(500)),
        ]),
    );
    assert!(!out.is_error);
    assert_eq!(body(&out)["goal"]["status"], "active");
    assert_eq!(body(&out)["remainingTokens"], 500);

    let out = GetGoal.run(&rt);
    assert_eq!(body(&out)["goal"]["objective"], "ship it");

    start(&mut rt, "t1");
    let out = update_by_tool(&mut rt, "complete");
    assert_eq!(body(&out)["goal"]["status"], "complete");
    assert!(
        body(&out)["completionBudgetReport"].is_string(),
        "a budgeted goal reports its final spend"
    );
}

#[test]
fn update_goal_rejects_statuses_the_user_owns() {
    let mut rt = runtime();
    create_by_tool(&mut rt, &object(vec![("objective", json::string("ship it"))]));

    let out = update_by_tool(&mut rt, "paused");
    assert!(out.is_error);
    assert!(out.text.contains("controlled by the user or system"));
    assert_eq!(rt.goal().unwrap().status, GoalStatus::Active);
}

#[test]
fn create_goal_rejects_a_non_positive_budget() {
    let mut rt = runtime();
    let out = create_by_tool(
        &mut rt,
        &object(vec![
            ("objective", json::string("ship it")),
            ("token_budget", json::uint(0)),
        ]),
    );
    assert!(out.is_error);
    assert!(out.text.contains("must be positive"));
}

#[test]
fn get_goal_with_no_goal_returns_null() {
    let out = GetGoal.run(&runtime());
    assert!(body(&out)["goal"].is_null());
}

#[test]
fn a_goal_id_without_randomness_is_the_clock() {
    assert_eq!(
        goal_id_of(None, 0x0102),
        "02010000000000000000000000000000"
    );
    assert_eq!(
        goal_id_of(None, u128::MAX),
        "ffffffffffffffffffffffffffffffff"
    );
    assert_eq!(goal_id_of(Some(vec![0x0f, 0xa0]), 7), "0fa0");
}

#[test]
fn a_complete_goal_survives_pause_and_block() {
    let mut s = GoalStore::ephemeral();
    active(&mut s, GoalLimits::default());
    assert_eq!(
        s.update(to_status(GoalStatus::Complete), 5).unwrap().status,
        GoalStatus::Complete
    );
    for asked in [GoalStatus::Paused, GoalStatus::Blocked] {
        let after = s.update(to_status(asked), 6).unwrap();
        assert_eq!(after.status, GoalStatus::Complete);
        assert_eq!(s.get().unwrap().status, GoalStatus::Complete);
    }
    assert_eq!(
        s.update(to_status(GoalStatus::Active), 7).unwrap().status,
        GoalStatus::Active
    );
}

#[test]
fn unset_caps_take_their_defaults() {
    let defaults = GoalLimits {
        token_budget: Some(200_000),
        cost_cap_usd: Some(Usd { bits: 5.0f64.to_bits() }),
        max_iterations: Some(20),
    };
    let asked = GoalLimits::tokens(Some(10));
    let limits = asked.or_defaults(defaults);
    assert_eq!(limits.token_budget, Some(10));
    assert_eq!(limits.cost_cap_usd, defaults.cost_cap_usd);
    assert_eq!(limits.max_iterations, Some(20));
    assert_eq!(GoalLimits::default().or_defaults(defaults), defaults);
}
