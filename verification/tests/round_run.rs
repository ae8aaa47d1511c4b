use kod_core::round_run::{round_runs_serially, RoundAction, RoundRun};
use kod_core::summary::ToolResult;

fn ran(i: usize) -> ToolResult {
    ToolResult::Error(format!("ran {i}"))
}

fn text(r: &ToolResult) -> String {
    match r {
        ToolResult::Error(e) => e.clone(),
        _ => String::new(),
    }
}

#[test]
fn a_mutating_call_or_a_pre_hook_makes_the_round_serial() {
    assert!(round_runs_serially(&vec![false, true, false], false));
    assert!(round_runs_serially(&vec![false, false], true));
    assert!(!round_runs_serially(&vec![false, false], false));
    assert!(!round_runs_serially(&Vec::new(), false));
    assert!(round_runs_serially(&Vec::new(), true));
}

#[test]
fn a_serial_round_runs_one_call_at_a_time_in_call_order() {
    let mut run = RoundRun::new(vec![None, Some(ToolResult::Error("denied".into())), None], true);
    let mut order = Vec::new();
    loop {
        match run.next_action() {
            RoundAction::Run(v) => {
                assert_eq!(v.len(), 1);
                assert!(run.is_running(v[0]));
                order.push(v[0]);
                run.record(v[0], ran(v[0]));
                assert!(!run.is_running(v[0]));
            }
            RoundAction::Finished => break,
        }
    }
    assert_eq!(order, vec![0, 2]);
    let results: Vec<String> = run.into_results().iter().map(text).collect();
    assert_eq!(results, vec!["ran 0", "denied", "ran 2"]);
}

#[test]
fn a_read_only_round_hands_out_every_waiting_call_at_once() {
    let mut run = RoundRun::new(vec![None, None, Some(ToolResult::Error("refused".into())), None], false);
    let batch = match run.next_action() {
        RoundAction::Run(v) => v,
        RoundAction::Finished => panic!("nothing handed out"),
    };
    assert_eq!(batch, vec![0, 1, 3]);
    for &i in batch.iter().rev() {
        run.record(i, ran(i));
    }
    assert!(matches!(run.next_action(), RoundAction::Finished));
    let results: Vec<String> = run.into_results().iter().map(text).collect();
    assert_eq!(results, vec!["ran 0", "ran 1", "refused", "ran 3"]);
}

#[test]
fn a_round_with_every_result_settled_is_finished_at_once() {
    let mut run = RoundRun::new(vec![Some(ToolResult::Error("x".into()))], true);
    assert!(matches!(run.next_action(), RoundAction::Finished));
    let mut empty = RoundRun::new(Vec::new(), false);
    assert!(matches!(empty.next_action(), RoundAction::Finished));
    assert!(empty.into_results().is_empty());
}
