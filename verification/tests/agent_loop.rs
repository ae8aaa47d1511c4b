use kod_core::agent_loop::{
    RoundStart, CANCELLED_BY_USER, chain_failure, NO_PROVIDER_MESSAGE,
    goal_prompt_block, next_in_chain, Attempt, ChainStep, GoalLoop, RoundStep, ToolLoop,
    MAX_GOAL_TURNS, MAX_TOOL_ROUNDS, TOOL_ROUNDS_EXHAUSTED_NOTE,
};

#[test]
fn a_text_only_round_finishes_the_reply() {
    let mut l = ToolLoop::new();
    assert!(l.may_stream());
    assert_eq!(l.round_streamed("Let me check.", 2, false), RoundStep::RunTools);
    assert!(l.tools_ran());
    assert_eq!(l.round_streamed("Here is the answer.", 0, false), RoundStep::Finish);
    assert!(!l.may_stream());
    assert_eq!(l.reply_text(), "Let me check.\n\nHere is the answer.");
    assert!(l.exhausted_notice().is_none());
}

#[test]
fn an_off_track_first_round_resets() {
    let mut l = ToolLoop::new();
    assert_eq!(l.round_streamed("nonsense", 3, true), RoundStep::Reset);
    assert_eq!(l.reply_text(), "");
    assert!(!l.may_stream());
    let mut l2 = ToolLoop::new();
    assert_eq!(l2.round_streamed("", 1, false), RoundStep::RunTools);
    assert_eq!(l2.round_streamed("x", 1, true), RoundStep::RunTools);
}

#[test]
fn running_out_of_rounds_without_text_asks_for_a_summary() {
    let mut l = ToolLoop::new();
    let mut rounds = 0;
    while l.may_stream() {
        assert_eq!(l.round_streamed("", 1, false), RoundStep::RunTools);
        assert!(!l.tools_ran());
        rounds += 1;
    }
    assert_eq!(rounds, MAX_TOOL_ROUNDS);
    let (note, line) = l.exhausted_notice().unwrap();
    assert_eq!(note, TOOL_ROUNDS_EXHAUSTED_NOTE);
    assert_eq!(line, "\n\n[tool-round limit (40) reached — summarising progress]\n");
}

#[test]
fn the_goal_loop_stops_when_the_goal_is_met() {
    let mut g = GoalLoop::new();
    let first = g.open_turn().unwrap();
    assert_eq!(first.turn, 1);
    assert!(first.separator.is_none() && first.nudge.is_none());
    assert!(!g.turn_ended("worked on it"));
    let second = g.open_turn().unwrap();
    assert_eq!(second.separator.as_deref(), Some("\n\n—— turn 2 ——\n"));
    assert!(second.nudge.unwrap().starts_with("Continue working toward the goal above."));
    assert!(g.turn_ended("done\nGOAL MET"));
    assert!(g.open_turn().is_none());
    assert_eq!(g.text(), "worked on it\n\ndone\nGOAL MET");
}

#[test]
fn the_goal_loop_stops_after_its_turns() {
    let mut g = GoalLoop::new();
    let mut turns = 0;
    while let Some(_) = g.open_turn() {
        turns += 1;
        let stop = g.turn_ended("still going");
        assert_eq!(stop, turns == MAX_GOAL_TURNS);
    }
    assert_eq!(turns, MAX_GOAL_TURNS);
    assert!(g.text().ends_with(
        "still going\n\n(Goal loop stopped after maximum turns — progress above. Refine with /goal or /steer.)"
    ));
}

#[test]
fn blank_turns_add_no_separator() {
    let mut g = GoalLoop::new();
    g.open_turn();
    g.turn_ended("");
    g.open_turn();
    g.turn_ended("a");
    g.open_turn();
    g.turn_ended("  ");
    assert_eq!(g.text(), "a  ");
}

#[test]
fn the_goal_block_carries_the_instructions() {
    let b = goal_prompt_block("ship it");
    assert!(b.starts_with("\n## Goal\n\nship it\n\nWork turn by turn"));
    assert!(b.contains("exactly GOAL MET"));
}

#[test]
fn the_endpoint_chain_falls_back_on_transient_errors() {
    assert_eq!(next_in_chain(0, 2, Attempt::Answered), ChainStep::Done);
    assert_eq!(next_in_chain(0, 2, Attempt::Unresolved), ChainStep::Next);
    assert_eq!(next_in_chain(0, 2, Attempt::Failed { retryable: true }), ChainStep::Next);
    assert_eq!(next_in_chain(1, 2, Attempt::Failed { retryable: true }), ChainStep::Fail);
    assert_eq!(next_in_chain(0, 2, Attempt::Failed { retryable: false }), ChainStep::Fail);
}

#[test]
fn a_cancel_stops_the_tool_loop_between_rounds() {
    let mut l = ToolLoop::new();
    assert_eq!(l.before_round(false), RoundStart::Stream);
    assert_eq!(l.round_streamed("working", 1, false), RoundStep::RunTools);
    assert_eq!(l.before_round(true), RoundStart::Cancelled);
    assert!(!l.may_stream());
    assert_eq!(l.before_round(false), RoundStart::Stop);
    assert_eq!(l.reply_text(), "working");
    assert_eq!(CANCELLED_BY_USER, "cancelled by user");
}

#[test]
fn a_finished_tool_loop_ignores_a_late_cancel() {
    let mut l = ToolLoop::new();
    assert_eq!(l.round_streamed("done", 0, false), RoundStep::Finish);
    assert_eq!(l.before_round(true), RoundStart::Stop);
}

#[test]
fn a_cancelled_goal_turn_stops_the_goal_loop() {
    let mut g = GoalLoop::new();
    assert!(g.open_turn().is_some());
    g.turn_cancelled();
    assert!(g.open_turn().is_none());
    assert_eq!(g.text(), "");
}

#[test]
fn a_chain_without_a_provider_names_the_missing_provider() {
    let msg = chain_failure(None);
    assert!(msg.contains("No LLM provider"), "{msg}");
    assert_eq!(msg, NO_PROVIDER_MESSAGE);
    assert_eq!(chain_failure(Some("rate limited".to_string())), "rate limited");
}
