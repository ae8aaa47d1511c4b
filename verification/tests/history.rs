use kod_core::hooks::ToolCall;
use kod_core::json::JsonValue;
use kod_core::history::{
    History, Role, Turn, DEFAULT_HISTORY_CHAR_BUDGET, MAX_HISTORY_TURNS, MAX_TURN_CHARS,
    MIN_HISTORY_CHAR_BUDGET,
};

#[test]
fn history_budget_clamps_and_applies() {
    let mut h = History::new();
    assert_eq!(h.history_budget(), DEFAULT_HISTORY_CHAR_BUDGET);
    h.set_history_budget(10);
    assert_eq!(h.history_budget(), MIN_HISTORY_CHAR_BUDGET);
    h.set_history_budget(100_000);
    assert_eq!(h.history_budget(), 100_000);
}

#[test]
fn an_unused_transcript_renders_as_the_start() {
    let h = History::new();
    assert_eq!(h.render_history_for(""), "(start of conversation)");
}

#[test]
fn turns_render_oldest_first_with_role_labels() {
    let mut h = History::new();
    h.record_turn_for("", true, "  hello  ");
    h.record_turn_for("", false, "hi there");
    assert_eq!(h.render_history_for(""), "User: hello\nAssistant: hi there\n");
}

#[test]
fn an_empty_turn_is_not_recorded() {
    let mut h = History::new();
    h.record_turn_for("", true, "   \n");
    assert_eq!(h.turn_count_for(""), 0);
    assert_eq!(h.render_history_for(""), "(start of conversation)");
}

#[test]
fn record_turn_does_not_panic_mid_multibyte() {
    let mut h = History::new();
    let mut prompt = "a".repeat(MAX_TURN_CHARS - 1);
    prompt.push('é');
    prompt.push_str(&"x".repeat(100));
    assert!(!prompt.is_char_boundary(MAX_TURN_CHARS));
    h.set_history_budget(100_000);
    h.record_turn_for("", true, &prompt);
    let rendered = h.render_history_for("");
    assert!(rendered.contains("User:"), "history should carry the turn");
    assert!(rendered.contains("[truncated]"), "history should mark truncation");
    assert_eq!(
        rendered,
        format!("User: {}… [truncated]\n", "a".repeat(MAX_TURN_CHARS - 1))
    );
}

#[test]
fn render_history_keeps_pinned_turn() {
    let mut h = History::new();
    h.set_history_budget(MIN_HISTORY_CHAR_BUDGET);
    let first = "PINNED-CONTENT-UNIQUE-MARKER-that-fits";
    h.seed_turn_for("", true, first);
    assert!(h.set_turn_pinned_by_content("", first, true));
    for i in 0..40 {
        h.seed_turn_for("", true, &format!("filler-{i}-{}", "x".repeat(400)));
    }
    let rendered = h.render_history_for("");
    assert!(rendered.contains("PINNED-CONTENT-UNIQUE-MARKER"));
}

#[test]
fn render_history_drops_unpinned_turn_again() {
    let mut h = History::new();
    h.set_history_budget(MIN_HISTORY_CHAR_BUDGET);
    let first = "PINNED-THEN-UNPINNED-MARKER";
    h.seed_turn_for("", true, first);
    h.set_turn_pinned_by_content("", first, true);
    for i in 0..40 {
        h.seed_turn_for("", true, &format!("filler-{i}-{}", "x".repeat(400)));
    }
    h.set_turn_pinned_by_content("", first, false);
    let rendered = h.render_history_for("");
    assert!(!rendered.contains("PINNED-THEN-UNPINNED-MARKER"));
}

#[test]
fn the_budget_drops_the_oldest_turns_first() {
    let mut h = History::new();
    h.set_history_budget(MIN_HISTORY_CHAR_BUDGET);
    for i in 0..30 {
        h.seed_turn_for("", true, &format!("turn-{i}-{}", "x".repeat(500)));
    }
    // Each line costs 6 + 7or8 + 500 + 1 bytes; seven of them fit 4000.
    let rendered = h.render_history_for("");
    assert!(rendered.contains("turn-29-"));
    assert!(rendered.contains("turn-23-"));
    assert!(!rendered.contains("turn-22-"));
    assert_eq!(h.turn_count_for(""), 7);
}

#[test]
fn compact_history_keeps_the_last_turns() {
    let mut h = History::new();
    for i in 0..10 {
        h.record_turn_for("", true, &format!("t{i}"));
    }
    h.compact_history_for("", 5);
    assert_eq!(h.turn_count_for(""), 5);
    h.compact_history_for("", 5);
    assert_eq!(h.turn_count_for(""), 5);
    assert!(h.render_history_for("").starts_with("User: t5\n"));
}

#[test]
fn the_turn_cap_drops_the_oldest_unpinned_turn() {
    let mut h = History::new();
    h.set_history_budget(1_000_000);
    h.record_turn_for("", true, "keep me");
    h.set_turn_pinned_by_content("", "keep me", true);
    for i in 0..MAX_HISTORY_TURNS {
        h.record_turn_for("", true, &format!("n{i}"));
    }
    assert_eq!(h.turn_count_for(""), MAX_HISTORY_TURNS);
    let r = h.render_history_for("");
    assert!(r.starts_with("User: keep me\nUser: n1\n"), "got: {r}");
}

#[test]
fn transcripts_do_not_interleave() {
    let mut h = History::new();
    h.record_turn_for("", true, "main");
    h.record_turn_for("swarm:a", true, "agent");
    assert_eq!(h.render_history_for(""), "User: main\n");
    assert_eq!(h.render_history_for("swarm:a"), "User: agent\n");
    h.clear_history_for("swarm:a");
    assert_eq!(h.render_history_for("swarm:a"), "(start of conversation)");
    assert_eq!(h.render_history_for(""), "User: main\n");
}

#[test]
fn pinning_by_content_finds_the_newest_match() {
    let mut h = History::new();
    assert!(!h.set_turn_pinned_by_content("", "x", true));
    h.record_turn_for("", true, "x");
    h.record_turn_for("", false, "y");
    assert!(h.set_turn_pinned_by_content("", "x", true));
    assert!(!h.set_turn_pinned_by_content("", "z", true));
}

#[test]
fn tool_messages_are_not_rendered() {
    let mut h = History::new();
    h.record_turn_for("", true, "run it");
    h.append_messages_for(
        "",
        vec![
            Turn {
                role: Role::Assistant,
                content: String::new(),
                pinned: false,
                tool_calls: vec![ToolCall {
                    id: Some("call_0".to_string()),
                    tool_name: "list_files".to_string(),
                    arguments: JsonValue::Object(Vec::new()),
                }],
                tool_call_id: None,
            },
            Turn { role: Role::Tool, content: "ok".to_string(), pinned: false, tool_calls: Vec::new(), tool_call_id: Some("call_0".to_string()) },
        ],
    );
    assert_eq!(h.turn_count_for(""), 3);
    assert_eq!(h.render_history_for(""), "User: run it\n");
    h.append_messages_for("", Vec::new());
    assert_eq!(h.turn_count_for(""), 3);
}
