use kod_core::goals::{Goal, GoalRuntime, GoalStatus, TokenUsage};

fn usage(prompt: usize, cache_read: u64, cache_write: u64, completion: usize) -> TokenUsage {
    TokenUsage {
        prompt_tokens: prompt,
        completion_tokens: completion,
        total_tokens: prompt + completion,
        cache_read_tokens: Some(cache_read),
        cache_creation_tokens: Some(cache_write),
    }
}

#[test]
fn delta_is_new_input_plus_output() {
    let u = usage(1000, 800, 0, 50);
    assert_eq!(Goal::delta_tokens(&u), 250);
}

#[test]
fn delta_excludes_cache_read_volume() {
    let a = usage(1000, 0, 0, 50);
    let b = usage(1900, 900, 0, 50);
    assert_eq!(Goal::delta_tokens(&a), Goal::delta_tokens(&b));
}

#[test]
fn delta_does_not_add_a_cache_write_premium() {
    let unwritten = usage(1000, 0, 0, 50);
    let written = usage(1000, 0, 500, 50);
    assert_eq!(Goal::delta_tokens(&unwritten), Goal::delta_tokens(&written));
}

#[test]
fn delta_floors_new_input_at_zero() {
    let u = usage(100, 500, 0, 7);
    assert_eq!(Goal::delta_tokens(&u), 7);
    let none = TokenUsage {
        prompt_tokens: 30,
        completion_tokens: 5,
        total_tokens: 35,
        cache_read_tokens: None,
        cache_creation_tokens: None,
    };
    assert_eq!(Goal::delta_tokens(&none), 35);
}

#[test]
fn tokens_accumulate_across_turns() {
    let mut g = Goal::new(1, "do the thing");
    g.observe_usage(&usage(100, 0, 0, 10));
    g.observe_usage(&usage(100, 0, 0, 10));
    assert_eq!(g.tokens_used, 220);
}

#[test]
fn a_token_budget_flips_to_budget_limited() {
    let mut g = Goal::new(1, "x").with_token_budget(200);
    g.observe_usage(&usage(100, 0, 0, 10));
    assert_eq!(g.status, GoalStatus::Active);
    g.observe_usage(&usage(100, 0, 0, 10));
    assert_eq!(g.status, GoalStatus::BudgetLimited);
}

#[test]
fn a_time_budget_flips_to_budget_limited() {
    let mut g = Goal::new(1, "x").with_time_budget(10);
    g.observe_time(5);
    assert_eq!(g.status, GoalStatus::Active);
    g.observe_time(5);
    assert_eq!(g.status, GoalStatus::BudgetLimited);
}

#[test]
fn no_budget_means_never_budget_limited() {
    let mut g = Goal::new(1, "x");
    for _ in 0..100 {
        g.observe_usage(&usage(1_000_000, 0, 0, 1000));
    }
    assert_eq!(g.status, GoalStatus::Active);
}

#[test]
fn a_terminal_goal_ignores_observations() {
    let mut g = Goal::new(1, "x").with_token_budget(100);
    g.status = GoalStatus::Complete;
    g.observe_usage(&usage(1000, 0, 0, 100));
    assert_eq!(g.tokens_used, 0, "a complete goal does not accumulate");
    g.observe_time(50);
    assert_eq!(g.time_used_seconds, 0);
    assert_eq!(g.status, GoalStatus::Complete);
}

#[test]
fn the_budget_steer_fires_once() {
    let mut g = Goal::new(1, "x").with_token_budget(100);
    g.observe_usage(&usage(200, 0, 0, 0));
    assert!(g.take_budget_steer());
    assert!(!g.take_budget_steer(), "the steer is once per goal");
}

#[test]
fn the_budget_steer_does_not_fire_when_active() {
    let mut g = Goal::new(1, "x").with_token_budget(1000);
    g.observe_usage(&usage(100, 0, 0, 0));
    assert!(!g.take_budget_steer());
}

#[test]
fn wants_continuation_only_while_active() {
    let mut g = Goal::new(1, "x");
    assert!(g.wants_continuation());
    g.status = GoalStatus::Paused;
    assert!(!g.wants_continuation());
    g.status = GoalStatus::BudgetLimited;
    assert!(!g.wants_continuation());
}

#[test]
fn a_paused_goal_is_not_budget_limited() {
    let mut g = Goal::new(1, "x").with_token_budget(10);
    g.status = GoalStatus::Paused;
    g.observe_usage(&usage(100, 0, 0, 0));
    assert_eq!(g.tokens_used, 100);
    assert_eq!(g.status, GoalStatus::Paused);
}

#[test]
fn usage_saturates_at_the_top() {
    let mut g = Goal::new(1, "x");
    g.tokens_used = u64::MAX - 3;
    g.observe_usage(&usage(100, 0, 0, 0));
    assert_eq!(g.tokens_used, u64::MAX);
}

#[test]
fn starting_a_second_goal_drops_the_first() {
    let mut rt = GoalRuntime::new();
    let id1 = rt.start("first");
    let id2 = rt.start("second");
    assert_ne!(id1, id2);
    assert_eq!(rt.current().unwrap().id, id2);
    assert_eq!(rt.current().unwrap().objective, "second");
}

#[test]
fn ids_start_at_one_and_increase() {
    let mut rt = GoalRuntime::new();
    assert_eq!(rt.start("a"), 1);
    assert_eq!(rt.start("b"), 2);
    let mut d = GoalRuntime::default();
    assert!(d.current().is_none());
    assert_eq!(d.start("c"), 0);
}

#[test]
fn pause_and_resume() {
    let mut rt = GoalRuntime::new();
    rt.start("x");
    rt.pause();
    assert_eq!(rt.current().unwrap().status, GoalStatus::Paused);
    rt.resume();
    assert_eq!(rt.current().unwrap().status, GoalStatus::Active);
}

#[test]
fn resume_is_a_no_op_on_an_active_goal() {
    let mut rt = GoalRuntime::new();
    rt.start("x");
    rt.resume();
    assert_eq!(rt.current().unwrap().status, GoalStatus::Active);
}

#[test]
fn complete_marks_the_goal() {
    let mut rt = GoalRuntime::new();
    rt.start("x");
    rt.complete();
    assert_eq!(rt.current().unwrap().status, GoalStatus::Complete);
}

#[test]
fn a_completed_goal_cannot_be_paused_or_resumed() {
    let mut rt = GoalRuntime::new();
    rt.start("x");
    rt.complete();
    rt.pause();
    rt.resume();
    assert_eq!(rt.current().unwrap().status, GoalStatus::Complete);
    rt.drop_current();
    assert_eq!(rt.current().unwrap().status, GoalStatus::Dropped);
    rt.complete();
    assert_eq!(rt.current().unwrap().status, GoalStatus::Dropped);
}

#[test]
fn the_runtime_accumulates_usage() {
    let mut rt = GoalRuntime::new();
    rt.start("x");
    rt.observe_usage(&usage(100, 0, 0, 10));
    rt.observe_usage(&usage(100, 0, 0, 10));
    assert_eq!(rt.current().unwrap().tokens_used, 220);
}

#[test]
fn the_runtime_without_a_goal_ignores_observations() {
    let mut rt = GoalRuntime::new();
    rt.observe_usage(&usage(100, 0, 0, 10));
    rt.observe_time(3);
    rt.pause();
    assert!(rt.current().is_none());
    rt.start("x");
    rt.observe_time(3);
    assert_eq!(rt.current_mut().unwrap().time_used_seconds, 3);
}

#[test]
fn wants_continuation_reflects_the_goal() {
    let mut rt = GoalRuntime::new();
    assert!(!rt.wants_continuation(), "no goal, no continuation");
    rt.start("x");
    assert!(rt.wants_continuation());
    rt.pause();
    assert!(!rt.wants_continuation());
}

#[test]
fn a_report_names_the_status_and_totals() {
    let mut g = Goal::new(1, "x").with_token_budget(1000);
    g.observe_usage(&usage(500, 0, 0, 100));
    g.status = GoalStatus::Complete;
    let r = g.report();
    assert!(r.contains("Complete"), "got: {r}");
    assert!(r.contains("600 / 1000 tokens"), "got: {r}");
}

#[test]
fn a_report_without_budgets_is_exact() {
    let mut g = Goal::new(3, "y").with_time_budget(60);
    g.observe_time(7);
    assert_eq!(g.report(), "goal Active: 0 tokens, 7 / 60 s");
    let b = Goal::new(4, "z");
    assert_eq!(b.report(), "goal Active: 0 tokens, 0 s");
    assert_eq!(GoalStatus::BudgetLimited.name(), format!("{:?}", GoalStatus::BudgetLimited));
}

#[test]
fn terminal_and_running_statuses() {
    assert!(GoalStatus::Complete.is_terminal());
    assert!(GoalStatus::Dropped.is_terminal());
    assert!(!GoalStatus::Paused.is_terminal());
    assert!(GoalStatus::Active.is_running());
    assert!(!GoalStatus::BudgetLimited.is_running());
}
