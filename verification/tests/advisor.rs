use kod_core::advisor::{
    ambiguity_check_wanted, ambiguity_question, approval_state_text, auto_approved, chunk_state_text,
    citation_excerpt, citation_question, citation_report, clarified_input, colliding_pairs,
    context_answer_text, decision_check_wanted, decision_kind, decision_text, diag_questions,
    early_check_due, early_verdict, earlier_half_text, ends_a_sentence, exchange_state_text,
    globs_state_text, group_approvals, grouping_question, handoff_facts, handoff_paragraphs,
    handoff_questions, heuristic_outcome, hit_questions, hunk_questions, kept_memory_entries,
    line_questions, memory_question, memory_questions, merge_skills, offered_tool_indices,
    outcome_state_text, outcome_worth_classifying, overlap_questions, overlap_state_text,
    pending_state_text, phase_change_of, phase_transcript, progress_state_text, quality_check_wanted,
    quality_note_text, quality_state_text, question_id, question_state_text, round_state_value,
    sandbox_mode_for, skill_question, skill_questions, still_new_diagnostics, triage_state_text,
    unconfirmed_citations, verdict_label, DecisionKind, EarlyTermination, SandboxMode, SandboxSetting,
    memory_context_pairs, memory_context_worth_filtering, plugin_tool_order, retain_memory_context,
    MemoryEntry,
};
use kod_core::diagnostics::Diagnostic;
use kod_core::history::{Role, Turn};
use kod_core::hooks::ToolCall;
use kod_core::json::{JsonNumber, JsonValue};
use kod_core::summary::ToolResult;
use kod_core::triage::split_diff;

fn j(v: serde_json::Value) -> JsonValue {
    match v {
        serde_json::Value::Null => JsonValue::Null,
        serde_json::Value::Bool(b) => JsonValue::Bool(b),
        serde_json::Value::Number(n) => JsonValue::Number(JsonNumber {
            text: n.to_string(),
            as_u64: n.as_u64(),
            as_i64: n.as_i64(),
        }),
        serde_json::Value::String(s) => JsonValue::String(s),
        serde_json::Value::Array(a) => JsonValue::Array(a.into_iter().map(j).collect()),
        serde_json::Value::Object(m) => {
            JsonValue::Object(m.into_iter().map(|(k, v)| (k, j(v))).collect())
        }
    }
}

fn parse(text: &str) -> JsonValue {
    j(serde_json::from_str(text).unwrap())
}

fn strs(v: &[&str]) -> Vec<String> {
    v.iter().map(|s| s.to_string()).collect()
}

fn answers(v: &[(&str, bool)]) -> Vec<(String, bool)> {
    v.iter().map(|(s, b)| (s.to_string(), *b)).collect()
}

fn diag(file: &str, line: usize, code: Option<&str>, message: &str) -> Diagnostic {
    Diagnostic {
        file: file.to_string(),
        line,
        column: 1,
        severity: "error".to_string(),
        code: code.map(|c| c.to_string()),
        message: message.to_string(),
    }
}

fn turn(role: Role, content: &str) -> Turn {
    Turn { role, content: content.to_string(), pinned: false, tool_calls: Vec::new(), tool_call_id: None }
}

#[test]
fn gates_on_length_and_duration() {
    let thirty = "x".repeat(30);
    assert!(decision_check_wanted(&thirty, &thirty));
    assert!(!decision_check_wanted(&thirty, "short reply"));
    assert!(outcome_worth_classifying(100, false));
    assert!(!outcome_worth_classifying(99, false));
    assert!(outcome_worth_classifying(0, true));
    assert!(quality_check_wanted(&"y".repeat(200)));
    assert!(!quality_check_wanted(&"y".repeat(199)));
    assert!(ambiguity_check_wanted("0123456789"));
    assert!(!ambiguity_check_wanted("fix it"));
    assert!(early_check_due(10, 400));
    assert!(!early_check_due(11, 400));
    assert!(!early_check_due(10, 399));
}

#[test]
fn heuristic_outcome_follows_the_result() {
    assert_eq!(heuristic_outcome(true), ("failure", "minor"));
    assert_eq!(heuristic_outcome(false), ("success", "minor"));
}

#[test]
fn risky_calls_are_never_approved_alone() {
    assert!(auto_approved(true, Some("read_only")));
    assert!(auto_approved(true, Some("reversible")));
    assert!(auto_approved(true, None));
    assert!(!auto_approved(true, Some("destructive")));
    assert!(!auto_approved(true, Some("irreversible")));
    assert!(!auto_approved(false, Some("read_only")));
}

#[test]
fn only_auto_sandbox_is_negotiable() {
    assert_eq!(sandbox_mode_for(SandboxMode::Auto, Some("safe")), SandboxMode::Disabled);
    assert_eq!(sandbox_mode_for(SandboxMode::Auto, Some("network_risk")), SandboxMode::Disabled);
    assert_eq!(sandbox_mode_for(SandboxMode::Auto, Some("destructive")), SandboxMode::Auto);
    assert_eq!(sandbox_mode_for(SandboxMode::Auto, None), SandboxMode::Auto);
    assert_eq!(sandbox_mode_for(SandboxMode::Require, Some("safe")), SandboxMode::Require);
    assert_eq!(sandbox_mode_for(SandboxMode::Disabled, Some("destructive")), SandboxMode::Disabled);
}

#[test]
fn off_track_beats_complete() {
    assert_eq!(early_verdict(true, true), EarlyTermination::OffTrack);
    assert_eq!(early_verdict(true, false), EarlyTermination::Complete);
    assert_eq!(early_verdict(false, false), EarlyTermination::Continue);
    assert_eq!(verdict_label(EarlyTermination::Continue), "none");
    assert_eq!(verdict_label(EarlyTermination::OffTrack), "off_track");
    assert!(ends_a_sentence("Let me check. Then"));
    assert!(ends_a_sentence("line\nbreak"));
    assert!(!ends_a_sentence("Let me"));
}

#[test]
fn a_phase_change_needs_two_phases_and_confidence() {
    assert_eq!(
        phase_change_of("coding".to_string(), "testing".to_string(), true),
        Some(("coding".to_string(), "testing".to_string()))
    );
    assert_eq!(phase_change_of("coding".to_string(), "coding".to_string(), true), None);
    assert_eq!(phase_change_of("coding".to_string(), "testing".to_string(), false), None);
}

#[test]
fn state_texts() {
    assert_eq!(chunk_state_text("fix", "abc"), "User request: fix\n\nRecent buffer: abc");
    assert_eq!(exchange_state_text("q", "a"), "User request: q\n\nAssistant reply: a");
    assert_eq!(quality_state_text("q", "a"), "User request: q\n\nAssistant response: a");
    assert_eq!(progress_state_text("q", "so far"), "User request: q\nResponse so far: so far");
    assert_eq!(approval_state_text("q", "read_file", "{}"), "User request: q\nTool: read_file\nArguments: {}");
    assert_eq!(pending_state_text(3), "Pending approvals: 3 items");
    assert_eq!(context_answer_text("use main.rs"), "(Jev answered from context — the request already specified this.) use main.rs");
    let long = "z".repeat(600);
    let st = chunk_state_text("r", &long);
    assert!(st.ends_with(&format!("{}…", "z".repeat(500))));
}

#[test]
fn decision_record_and_kind() {
    assert_eq!(decision_text("use tabs", "ok, tabs"), "use tabs → ok, tabs");
    assert_eq!(decision_kind(Some("approach")), DecisionKind::Approach);
    assert_eq!(decision_kind(Some("user_preference")), DecisionKind::UserPreference);
    assert_eq!(decision_kind(Some("file_change")), DecisionKind::FileChange);
    assert_eq!(decision_kind(Some("constraint")), DecisionKind::Constraint);
    assert_eq!(decision_kind(Some("whatever")), DecisionKind::Other);
    assert_eq!(decision_kind(None), DecisionKind::Other);
}

#[test]
fn quality_note_and_clarification() {
    let note = quality_note_text(42);
    assert_eq!(
        note,
        format!(
            "\n\n---\n\n*Note: Jev flagged this reply as possibly off-track{}(confidence the response answers the request: 42%). If it missed{}the point, /regenerate to try again.*",
            " ".repeat(18),
            " ".repeat(18)
        )
    );
    assert_eq!(
        ambiguity_question("do it"),
        "Your request may be ambiguous. Add any missing context, or press Enter to continue as-is:\n\n> do it"
    );
    assert_eq!(clarified_input("do it", Some("the parser")), "do it\n\nAdditional clarification from user: the parser");
    assert_eq!(clarified_input("do it", Some("")), "do it");
    assert_eq!(clarified_input("do it", Some("(cancelled)")), "do it");
    assert_eq!(clarified_input("do it", Some("(question cancelled)")), "do it");
    assert_eq!(clarified_input("do it", None), "do it");
}

#[test]
fn unanswered_diagnostics_stay_new() {
    assert_eq!(still_new_diagnostics(3, &vec![]), vec![0, 1, 2]);
    let a = answers(&[("diag_1", true), ("diag_2", false), ("diag_9", true), ("other", true)]);
    assert_eq!(still_new_diagnostics(3, &a), vec![0, 2]);
    let b = answers(&[("diag_+0", true)]);
    assert_eq!(still_new_diagnostics(2, &b), vec![1]);
}

#[test]
fn colliding_pairs_parse_their_ids() {
    let a = answers(&[("pair_0_1", true), ("pair_0_2", false), ("pair_1_2", true), ("pair_x_1", true), ("pair_3", true)]);
    assert_eq!(colliding_pairs(&a), vec![(0, 1), (1, 2)]);
}

#[test]
fn memory_filter_keeps_something() {
    let entries = vec![
        ("a".to_string(), "alpha".to_string()),
        ("b".to_string(), "beta".to_string()),
        ("c".to_string(), "gamma".to_string()),
    ];
    let a = answers(&[("a", false), ("b", true), ("c", false)]);
    assert_eq!(kept_memory_entries(entries.clone(), Some(&a)), vec![("b".to_string(), "beta".to_string())]);
    let none = answers(&[("a", false), ("b", false)]);
    assert_eq!(kept_memory_entries(entries.clone(), Some(&none)), entries);
    assert_eq!(kept_memory_entries(entries.clone(), None), entries);
}

#[test]
fn skills_merge_after_the_router_match() {
    let router = strs(&["rust"]);
    let names = strs(&["docs", "rust", "ui"]);
    assert_eq!(merge_skills(&router, &names, &vec![true, true, false]), strs(&["rust", "docs"]));
    assert_eq!(merge_skills(&router, &names, &vec![false, false, true]), strs(&["rust", "ui"]));
    assert_eq!(merge_skills(&router, &names, &vec![]), strs(&["rust"]));
}

#[test]
fn approvals_group_by_label_in_first_seen_order() {
    let labels = strs(&["change_a", "change_b", "change_a", "standalone"]);
    let g = group_approvals(4, &labels);
    assert_eq!(
        g,
        vec![
            ("change_a".to_string(), vec![0, 2]),
            ("change_b".to_string(), vec![1]),
            ("standalone".to_string(), vec![3]),
        ]
    );
    assert!(group_approvals(1, &strs(&["change_a"])).is_empty());
}

#[test]
fn question_ids_and_lists() {
    assert_eq!(question_id("skill_", 12), "skill_12");
    let skills = vec![("ui-ux".to_string(), "designs pages".to_string())];
    assert_eq!(
        skill_questions(&skills),
        vec![("skill_0".to_string(), skill_question("ui-ux", "designs pages"))]
    );
    assert_eq!(
        skill_question("ui-ux", "designs pages"),
        "Is this skill relevant to the user's request? Skill: ui-ux — designs pages"
    );
    let many: Vec<(String, String)> = (0..40).map(|i| (format!("s{i}"), String::new())).collect();
    assert_eq!(skill_questions(&many).len(), 30);
    let entries = vec![("w:1".to_string(), "likes tabs".to_string())];
    assert_eq!(
        memory_questions(&entries),
        vec![("w:1".to_string(), "Is this memory entry relevant to the request? Entry: likes tabs".to_string())]
    );
    assert_eq!(memory_question("x"), "Is this memory entry relevant to the request? Entry: x");
    let lq = line_questions("fn main() {\r\n}\n");
    assert_eq!(
        lq,
        vec![
            ("line_0".to_string(), "Is this file line relevant to the request? Line: fn main() {".to_string()),
            ("line_1".to_string(), "Is this file line relevant to the request? Line: }".to_string()),
        ]
    );
    let content: String = (0..250).map(|i| format!("l{i}\n")).collect();
    assert_eq!(line_questions(&content).len(), 200);
}

#[test]
fn hunk_and_hit_questions() {
    let d = split_diff("--- a\n+++ b\n@@ -1 +1 @@\n-x\n+y\n@@ -5 +5 @@\n z");
    let qs = hunk_questions("rename x", &d.hunks);
    assert_eq!(qs.len(), 2);
    assert_eq!(qs[0].0, "hunk_0");
    assert_eq!(
        qs[0].1,
        "Is this diff hunk relevant to the user's request, or context-only? Request: rename x. Hunk:\n@@ -1 +1 @@\n-x\n+y"
    );
    let hits = vec![
        parse(r#"{"file": "src/a.rs", "text": "fn a()"}"#),
        parse(r#"{"path": "b.rs", "line": "let b"}"#),
        parse(r#"{"text": 5}"#),
    ];
    let hq = hit_questions("grep", "find a", &hits);
    assert_eq!(hq[0], ("hit_0".to_string(), "Is this grep result relevant to the request? \"find a\" in src/a.rs: fn a()".to_string()));
    assert_eq!(hq[1].1, "Is this grep result relevant to the request? \"find a\" in b.rs: let b");
    assert_eq!(hq[2].1, "Is this grep result relevant to the request? \"find a\" in : ");
}

#[test]
fn diagnostic_triage_texts() {
    let new = vec![diag("src/a.rs", 3, Some("E0308"), "mismatched types"), diag("src/b.rs", 9, None, "unused")];
    let base = vec![diag("src/a.rs", 2, Some("E0308"), "mismatched types")];
    assert_eq!(
        triage_state_text(&new, &base),
        "Baseline diagnostics (before the write):\nsrc/a.rs:2 [E0308] mismatched types\n\nCurrent diagnostics (after the write):\n[0] src/a.rs:3 [E0308] mismatched types\n[1] src/b.rs:9 [?] unused"
    );
    let qs = diag_questions(&new);
    assert_eq!(qs[1].0, "diag_1");
    assert_eq!(
        qs[1].1,
        "Is diagnostic [1] (src/b.rs:9 [?] unused) genuinely new, or the same as one of the baseline diagnostics just at a different line?"
    );
}

#[test]
fn handoff_paragraphs_and_facts() {
    let t = "short\n\nThis paragraph is long enough to keep.\n\n   tiny   \n\nAnother paragraph that is also long.";
    let ps = handoff_paragraphs(t);
    assert_eq!(ps, strs(&["This paragraph is long enough to keep.", "Another paragraph that is also long."]));
    let facts = handoff_facts(&ps, &vec![(true, false, true), (false, false, false)]);
    assert_eq!(facts, strs(&["[decision,file] This paragraph is long enough to keep."]));
    let facts2 = handoff_facts(&ps, &vec![(false, true, false)]);
    assert_eq!(facts2, strs(&["[unfinished] This paragraph is long enough to keep."]));
    let qs = handoff_questions(&ps);
    assert_eq!(qs.len(), 6);
    assert_eq!(qs[4].0, "unfinished_1");
    assert_eq!(
        qs[5].1,
        "Does this message reference a specific file path? Message: Another paragraph that is also long."
    );
    let many: String = (0..50).map(|i| format!("paragraph number {i} is long enough\n\n")).collect();
    assert_eq!(handoff_paragraphs(&many).len(), 40);
}

#[test]
fn overlap_texts() {
    let subtasks = vec![
        ("write the parser".to_string(), strs(&["src/parse/**", "src/lib.rs"])),
        ("write tests".to_string(), strs(&["tests/**"])),
    ];
    assert_eq!(
        overlap_state_text(&subtasks),
        "Subtasks:\n[0] write the parser :: src/parse/**, src/lib.rs\n[1] write tests :: tests/**\n"
    );
    let qs = overlap_questions(3);
    assert_eq!(
        qs.iter().map(|q| q.0.clone()).collect::<Vec<_>>(),
        strs(&["pair_0_1", "pair_0_2", "pair_1_2"])
    );
    assert_eq!(qs[2].1, "Do subtasks 1 and 2 touch the same conceptual file, even if their declared globs differ?");
    assert_eq!(overlap_questions(10).len(), 15);
    assert!(overlap_questions(1).is_empty());
    assert_eq!(globs_state_text("tests", &strs(&["a", "b"])), Some("Subtask: tests\nWrite-set globs: a, b".to_string()));
    assert_eq!(globs_state_text("tests", &vec![]), None);
}

#[test]
fn phase_transcript_takes_the_last_six() {
    let few = vec![turn(Role::User, "hi"), turn(Role::Assistant, "hello")];
    assert_eq!(phase_transcript(&few), None);
    let turns: Vec<Turn> = (0..8)
        .map(|i| turn(if i % 2 == 0 { Role::User } else { Role::Assistant }, &format!("m{i}")))
        .collect();
    assert_eq!(
        phase_transcript(&turns).unwrap(),
        "user: m2\nassistant: m3\nuser: m4\nassistant: m5\nuser: m6\nassistant: m7"
    );
    let mixed = vec![turn(Role::System, "s"), turn(Role::Tool, "t"), turn(Role::User, "u")];
    assert_eq!(phase_transcript(&mixed).unwrap(), "other: s\nother: t\nuser: u");
    assert_eq!(earlier_half_text("a\nb\nc\nd\ne"), "a\nb");
}

#[test]
fn citation_excerpts_and_report() {
    let content = "one\ntwo\nthree\nfour";
    assert_eq!(citation_excerpt(content, 2, None), "two");
    assert_eq!(citation_excerpt(content, 2, Some(3)), "two\nthree");
    assert_eq!(citation_excerpt(content, 3, Some(9)), "three\nfour");
    assert_eq!(citation_excerpt(content, 0, None), "");
    assert_eq!(citation_excerpt(content, 9, None), "");
    assert_eq!(citation_excerpt(content, 0, Some(1)), "one\ntwo");
    assert_eq!(citation_question(0, "a.rs", 2, "   "), None);
    assert_eq!(
        citation_question(1, "a.rs", 2, "two"),
        Some(("citation_1".to_string(), "Does the code at a.rs:2 support the claim made about it? Code excerpt:\ntwo".to_string()))
    );
    let cited = vec![("a.rs".to_string(), 2), ("b.rs".to_string(), 7)];
    let failing = unconfirmed_citations(&cited, &answers(&[("citation_1", true), ("citation_0", false), ("citation_5", true)]));
    assert_eq!(failing, strs(&["b.rs:7"]));
    assert_eq!(citation_report("Reply.", &vec![]), "Reply.");
    assert_eq!(
        citation_report("Reply.", &failing),
        "Reply.\n\n## Citation semantic check\n\nJev could not confirm that the following cited lines support the claims made about them:\n- b.rs:7\n"
    );
}

#[test]
fn approval_and_outcome_texts() {
    let call = ToolCall { id: None, tool_name: "write_file".to_string(), arguments: parse(r#"{"path":"a.rs"}"#) };
    assert_eq!(grouping_question(&call), "Which logical change does this approval belong to? Call: write_file {\"path\":\"a.rs\"}");
    let ok = ToolResult::Success(parse(r#"{"ok":true}"#));
    assert_eq!(
        outcome_state_text("save it", &call, 150, &ok),
        "User request: save it\nTool: write_file\nArguments: {\"path\":\"a.rs\"}\nDuration: 150ms\nResult: {\"ok\":true}"
    );
    let err = ToolResult::Error("denied".to_string());
    assert!(outcome_state_text("save it", &call, 5, &err).ends_with("Result: ERROR: denied"));
}

#[test]
fn round_state_carries_its_metadata() {
    let v = round_state_value("go", 2, true);
    let JsonValue::Object(es) = v else { panic!("not an object") };
    assert_eq!(es.len(), 2);
    assert_eq!(es[0].0, "text");
    assert!(matches!(&es[0].1, JsonValue::String(s) if s == "User request: go"));
    assert_eq!(es[1].0, "metadata");
    let JsonValue::Object(md) = &es[1].1 else { panic!("no metadata") };
    assert_eq!(md.len(), 2);
    assert_eq!(md[0].0, "round_index");
    assert!(matches!(&md[0].1, JsonValue::String(s) if s == "2"));
    assert_eq!(md[1].0, "tool_ran");
    assert!(matches!(&md[1].1, JsonValue::String(s) if s == "yes"));
}

#[test]
fn question_state_keeps_the_recent_history() {
    let hist = "h".repeat(2500);
    let st = question_state_text("r", &hist, "which file?");
    assert_eq!(
        st,
        format!("User request: r\n\nRecent conversation excerpt:\n{}\n\nQuestion the model wants to ask: which file?", "h".repeat(2000))
    );
}

#[test]
fn tools_of_wanted_categories_or_all() {
    let cats = strs(&["filesystem", "shell", "git"]);
    assert_eq!(offered_tool_indices(&cats, &strs(&["git", "filesystem"])), vec![0, 2]);
    assert_eq!(offered_tool_indices(&cats, &strs(&["web"])), vec![0, 1, 2]);
}

#[test]
fn the_sandbox_setting_reads_back_what_was_set() {
    let mut s = SandboxSetting::new();
    assert_eq!(s.sandbox_setting(), SandboxMode::Auto);
    for m in [SandboxMode::Disabled, SandboxMode::Require, SandboxMode::Auto] {
        s.set_sandbox_mode(m);
        assert_eq!(s.sandbox_setting(), m);
    }
}

#[test]
fn plugin_tools_keep_the_top_ranked_that_pass() {
    let names = strs(&["read_file", "mcp:a.x", "mcp:b.y", "grep", "mcp:c.z", "mcp:d.w", "mcp:e.v"]);
    // Plugin tools are at 1, 2, 4, 5, 6; ranking positions among them.
    let order = vec![3, 0, 4, 1, 2];
    let passes = vec![true, false, true, true, false];
    assert_eq!(plugin_tool_order(&names, "mcp:", Some((&order, &passes))), vec![0, 3, 5, 1]);
    // Nothing passes: every plugin tool stays.
    let none = vec![false; 5];
    assert_eq!(plugin_tool_order(&names, "mcp:", Some((&order, &none))), vec![0, 3, 1, 2, 4, 5, 6]);
    // Not scored: every tool, built-in ones first.
    assert_eq!(plugin_tool_order(&names, "mcp:", None), vec![0, 3, 1, 2, 4, 5, 6]);
    // Too few plugin tools to filter.
    let few = strs(&["mcp:a.x", "read_file"]);
    assert_eq!(plugin_tool_order(&few, "mcp:", Some((&vec![0], &vec![true]))), vec![1, 0]);
}

#[test]
fn memory_context_is_filtered_by_kept_keys() {
    let e = |id: &str, c: &str| MemoryEntry { id: id.to_string(), content: c.to_string() };
    let working = vec![e("1", &"a".repeat(300)), e("2", "short")];
    let long_term = vec![e("1", &"b".repeat(200))];
    assert!(memory_context_worth_filtering(&working, &long_term));
    assert!(!memory_context_worth_filtering(&vec![e("1", "x")], &vec![]));
    let pairs = memory_context_pairs(&working, &long_term);
    assert_eq!(pairs.iter().map(|p| p.0.clone()).collect::<Vec<_>>(), strs(&["w:1", "w:2", "l:1"]));
    let f = retain_memory_context(working, long_term, &strs(&["w:1", "l:1"]));
    assert_eq!(f.working.iter().map(|m| m.id.clone()).collect::<Vec<_>>(), strs(&["1"]));
    assert_eq!(f.long_term.len(), 1);
    assert_eq!(f.total_tokens, 75 + 50);
}
