use kod_core::history::Role;
use kod_core::hooks::ToolCall;
use kod_core::json::{JsonNumber, JsonValue};
use kod_core::markers::ApprovalDecision;
use kod_core::round::{
    answer_result, approval_log_text, approval_refusal_text, call_id, deny_rule_for,
    effective_holder, is_file_write, is_high_impact, memory_write_of, no_consumer_refusal,
    question_answer_text, question_of, refusal_text, render_for_prompt, result_heading,
    result_log_json, round_messages, tool_message_text, written_paths_of, ApprovalOutcome,
    QuestionOutcome, quota_for, ToolQuota, approval_request, approval_diff_source, DiffSource,
    gate_round, policy_outcome_label, taint_decision, taint_requires_approval, PolicyDecision, PolicyOutcome,
};
use kod_core::summary::ToolResult;

fn j(v: serde_json::Value) -> JsonValue {
    match v {
        serde_json::Value::Null => JsonValue::Null,
        serde_json::Value::Bool(b) => JsonValue::Bool(b),
        serde_json::Value::Number(n) => JsonValue::Number(JsonNumber {
            text: n.to_string(),
            as_u64: n.as_u64(),
            as_i64: n.as_i64(),
        }),
        serde_json::Value::String(s) => JsonValue::String(s),
        serde_json::Value::Array(a) => JsonValue::Array(a.into_iter().map(j).collect()),
        serde_json::Value::Object(m) => {
            JsonValue::Object(m.into_iter().map(|(k, v)| (k, j(v))).collect())
        }
    }
}

fn parse(text: &str) -> JsonValue {
    j(serde_json::from_str(text).unwrap())
}

fn call(id: Option<&str>, name: &str, args: &str) -> ToolCall {
    ToolCall { id: id.map(|s| s.to_string()), tool_name: name.to_string(), arguments: parse(args) }
}

#[test]
fn the_interactive_transcript_runs_as_session() {
    assert_eq!(effective_holder(""), "session");
    assert_eq!(effective_holder("swarm:a"), "swarm:a");
}

#[test]
fn tool_classes() {
    assert!(is_file_write("write_file") && is_file_write("patch_file"));
    assert!(!is_file_write("read_file"));
    for t in ["execute_command", "write_file", "patch_file", "git_commit", "git_branch_create"] {
        assert!(is_high_impact(t));
    }
    assert!(!is_high_impact("read_file"));
}

#[test]
fn a_hook_refusal_wins_over_a_policy_refusal() {
    assert_eq!(
        refusal_text(Some("exit 1"), Some("nope")),
        Some("pre_tool_use hook denied this call: exit 1".to_string())
    );
    assert_eq!(refusal_text(None, Some("nope")), Some("write denied: nope".to_string()));
    assert_eq!(refusal_text(None, None), None);
}

#[test]
fn approval_outcomes_map_to_log_and_refusal() {
    let cases = [
        (ApprovalOutcome::Answered(ApprovalDecision::Approve), "approve", None),
        (ApprovalOutcome::Answered(ApprovalDecision::Deny), "deny", Some("denied by user")),
        (ApprovalOutcome::Answered(ApprovalDecision::DenyAlways), "deny-always", Some("denied by user")),
        (ApprovalOutcome::Cancelled, "cancelled", Some("approval cancelled")),
        (ApprovalOutcome::TimedOut, "timeout", Some("no approval answer within timeout — denied")),
    ];
    for (o, log, refusal) in cases {
        assert_eq!(approval_log_text(&o), log);
        assert_eq!(approval_refusal_text(&o), refusal.map(|s| s.to_string()));
    }
    assert!(no_consumer_refusal().starts_with("policy requires approval"));
}

#[test]
fn deny_always_remembers_the_tool_and_path() {
    let r = deny_rule_for(&call(None, "write_file", r#"{"path": "src/a.rs", "content": "x"}"#));
    assert_eq!(r.tool, "write_file");
    assert_eq!(r.path_pattern.as_deref(), Some("src/a.rs"));
    let r2 = deny_rule_for(&call(None, "execute_command", r#"{"command": "rm -rf /"}"#));
    assert_eq!(r2.path_pattern, None);
}

#[test]
fn question_outcomes_become_answers() {
    assert_eq!(question_answer_text(QuestionOutcome::Answered("yes".into())), "yes");
    assert_eq!(question_answer_text(QuestionOutcome::Cancelled), "(question cancelled)");
    assert_eq!(
        question_answer_text(QuestionOutcome::TimedOut),
        "(no answer within 120s — the user is away)"
    );
    assert!(question_answer_text(QuestionOutcome::NoConsumer).starts_with("(ask_user requires"));
    assert_eq!(question_of(&call(None, "ask_user", r#"{"question": "Which?"}"#)), "Which?");
    assert_eq!(question_of(&call(None, "ask_user", r#"{}"#)), "(no question)");
}

#[test]
fn an_answer_becomes_a_success_result() {
    match answer_result("blue") {
        ToolResult::Success(v) => assert_eq!(tool_message_text(&ToolResult::Success(v)), r#"{"answer":"blue"}"#),
        other => panic!("unexpected {other:?}"),
    }
}

#[test]
fn results_render_for_the_prompt() {
    let listing = ToolResult::Success(parse(r#"{"path": "src", "files": ["a.rs", "b.rs"]}"#));
    assert!(render_for_prompt("list_files", &listing).starts_with("2 entries in src:"));
    let ok = ToolResult::Success(parse(r#"{"a": 1}"#));
    assert_eq!(render_for_prompt("read_file", &ok), r#"{"a":1}"#);
    assert_eq!(render_for_prompt("x", &ToolResult::Error("boom".into())), "error: boom");
    assert_eq!(
        render_for_prompt("x", &ToolResult::RequiresConfirmation { description: "d".into() }),
        "requires confirmation (auto-skipped in TUI): d"
    );
    assert_eq!(
        result_heading(&call(None, "grep", r#"{"pattern": "fn"}"#)),
        "\n### grep {\"pattern\":\"fn\"}\n"
    );
}

fn clone_args(c: &ToolCall) -> JsonValue {
    kod_core::json::clone_json(&c.arguments)
}

#[test]
fn round_messages_link_results_to_calls() {
    let calls = vec![call(Some("abc"), "read_file", r#"{"path": "a"}"#), call(None, "grep", r#"{}"#)];
    let results = vec![ToolResult::Error("missing".into()), ToolResult::Success(parse("[1]"))];
    let msgs = round_messages(&calls, &results);
    assert_eq!(msgs.len(), 3);
    assert_eq!(msgs[0].role, Role::Assistant);
    assert_eq!(msgs[0].tool_calls.len(), 2);
    assert_eq!(msgs[0].tool_calls[0].id.as_deref(), Some("abc"));
    assert_eq!(msgs[0].tool_calls[0].tool_name, "read_file");
    assert_eq!(tool_message_text(&ToolResult::Success(clone_args(&msgs[0].tool_calls[0]))), r#"{"path":"a"}"#);
    assert_eq!(msgs[0].tool_calls[1].id.as_deref(), Some("call_1"));
    assert_eq!(msgs[0].tool_calls[1].tool_name, "grep");
    assert_eq!(msgs[1].role, Role::Tool);
    assert_eq!(msgs[1].content, "error: missing");
    assert_eq!(msgs[1].tool_call_id.as_deref(), Some("abc"));
    assert_eq!(msgs[2].content, "[1]");
    assert_eq!(msgs[2].tool_call_id.as_deref(), Some("call_1"));
    assert_eq!(call_id(&calls[1], 7), "call_7");
    assert!(round_messages(&Vec::new(), &Vec::new()).is_empty());
}

#[test]
fn results_are_logged_as_tagged_json() {
    let logged = result_log_json(&ToolResult::Error("e".into()));
    assert_eq!(tool_message_text(&ToolResult::Success(logged)), r#"{"error":"e"}"#);
    let logged = result_log_json(&ToolResult::Success(parse("true")));
    assert_eq!(tool_message_text(&ToolResult::Success(logged)), r#"{"success":true}"#);
}

#[test]
fn memory_saves_are_audited() {
    let ok = ToolResult::Success(parse(r#"{"id": "m1", "tags": ["a", 3, "b"]}"#));
    assert_eq!(
        memory_write_of("memory_save", &ok),
        Some(("m1".to_string(), vec!["a".to_string(), "b".to_string()]))
    );
    assert_eq!(memory_write_of("read_file", &ok), None);
    let no_id = ToolResult::Success(parse(r#"{"tags": []}"#));
    assert_eq!(memory_write_of("memory_save", &no_id), None);
    let no_tags = ToolResult::Success(parse(r#"{"id": "m2"}"#));
    assert_eq!(memory_write_of("memory_save", &no_tags), Some(("m2".to_string(), Vec::new())));
}

#[test]
fn written_paths_are_the_successful_writes() {
    let calls = vec![
        call(None, "write_file", r#"{"path": "a.rs"}"#),
        call(None, "read_file", r#"{"path": "b.rs"}"#),
        call(None, "patch_file", r#"{"path": "c.rs"}"#),
        call(None, "patch_file", r#"{}"#),
    ];
    let results = vec![
        ToolResult::Success(parse("{}")),
        ToolResult::Success(parse("{}")),
        ToolResult::Error("bad".into()),
        ToolResult::Success(parse("{}")),
    ];
    assert_eq!(written_paths_of(&calls, &results), vec!["a.rs".to_string()]);
}

#[test]
fn a_tools_quota_falls_back_to_the_default() {
    let q = |t, s, c| ToolQuota { per_turn: t, per_session: s, per_command: c };
    let quotas = vec![
        ("execute_command".to_string(), q(3, 0, 0)),
        ("web_fetch".to_string(), q(0, 0, 0)),
        ("default".to_string(), q(0, 50, 0)),
    ];
    assert_eq!(quota_for(&quotas, "execute_command"), Some(q(3, 0, 0)));
    assert_eq!(quota_for(&quotas, "read_file"), Some(q(0, 50, 0)));
    assert_eq!(quota_for(&quotas, "web_fetch"), None);
    assert_eq!(quota_for(&vec![], "read_file"), None);
}

#[test]
fn an_approval_request_carries_the_call_and_its_summary() {
    let c = call(None, "execute_command", r#"{"command":"cargo test\nmore"}"#);
    let r = approval_request(&c, Some("diff".to_string()), 7);
    assert_eq!(r.tool_name, "execute_command");
    assert_eq!(r.diff.as_deref(), Some("diff"));
    assert_eq!(r.id, Some(7));
    assert_eq!(r.summary, kod_core::summary::format_call_brief("execute_command", &c.arguments));
}

#[test]
fn the_approval_diff_comes_from_the_patch_or_the_new_content() {
    let p = call(None, "patch_file", r#"{"patch":"@@ -1 +1 @@"}"#);
    assert!(matches!(approval_diff_source(&p), DiffSource::Patch(s) if s == "@@ -1 +1 @@"));
    let w = call(None, "write_file", r#"{"path":"a","content":"new"}"#);
    assert!(matches!(approval_diff_source(&w), DiffSource::Rewrite(s) if s == "new"));
    let w0 = call(None, "write_file", r#"{"path":"a"}"#);
    assert!(matches!(approval_diff_source(&w0), DiffSource::Rewrite(s) if s.is_empty()));
    let r = call(None, "read_file", r#"{"path":"a"}"#);
    assert!(matches!(approval_diff_source(&r), DiffSource::Nothing));
}

#[test]
fn the_gate_sorts_denials_and_asks() {
    let d = |o, r: &str| PolicyDecision { outcome: o, rule: r.to_string() };
    let ds = vec![
        d(PolicyOutcome::Allow, "preset"),
        d(PolicyOutcome::Deny, "no writes to /etc"),
        d(PolicyOutcome::Ask, "confirm writes"),
        d(PolicyOutcome::Deny, "session deny"),
    ];
    let (denied, asked) = gate_round(&ds);
    assert_eq!(denied, vec![(1, "no writes to /etc".to_string()), (3, "session deny".to_string())]);
    assert_eq!(asked, vec![2]);
    assert_eq!(policy_outcome_label(PolicyOutcome::Ask), "ask");
}

#[test]
fn taint_forces_an_ask_on_high_impact_tools() {
    assert!(taint_requires_approval(true, "execute_command"));
    assert!(!taint_requires_approval(true, "read_file"));
    assert!(!taint_requires_approval(false, "write_file"));
    let t = taint_decision("write_file", "ExternalUntrusted");
    assert_eq!(t.outcome, PolicyOutcome::Ask);
    assert_eq!(t.rule, "taint escalation: write_file under ExternalUntrusted");
}

#[test]
fn a_single_write_round_carries_its_call_with_a_linked_id() {
    let calls = vec![call(None, "write_file", r#"{"path": "notes.txt", "content": "hi"}"#)];
    let results = vec![ToolResult::Success(parse(r#"{"path": "notes.txt"}"#))];
    let msgs = round_messages(&calls, &results);
    assert_eq!(msgs.len(), 2);
    assert_eq!(msgs[0].role, Role::Assistant);
    assert_eq!(msgs[0].tool_calls.len(), 1);
    assert_eq!(msgs[0].tool_calls[0].id.as_deref(), Some("call_0"));
    assert_eq!(msgs[0].tool_calls[0].tool_name, "write_file");
    assert_eq!(msgs[1].role, Role::Tool);
    assert_eq!(msgs[1].tool_call_id.as_deref(), Some("call_0"));
}
