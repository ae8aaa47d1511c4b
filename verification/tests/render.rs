use kod_core::render::{
    append_round_text, cap_lines, ground_prompt, reply_declares_goal_met, shorten_path,
    split_cacheable, strip_conversation_tail, truncate_chars,
};

#[test]
fn test_reply_declares_goal_met() {
    assert!(reply_declares_goal_met("Here is the summary.\nGOAL MET"));
    assert!(reply_declares_goal_met("done\ngoal met"));
    assert!(reply_declares_goal_met("…\nGOAL MET."));
    assert!(reply_declares_goal_met("…\n**GOAL MET**"));
    assert!(reply_declares_goal_met("…\n— GOAL MET"));
    assert!(reply_declares_goal_met("GOAL MET\n\n"));
    assert!(!reply_declares_goal_met("I have not reached GOAL MET yet, but I'm close."));
    assert!(!reply_declares_goal_met(
        "GOAL MET is what I'd say if done.\nBut I need one more turn."
    ));
    assert!(!reply_declares_goal_met("Should I reply GOAL MET now, or keep working?"));
    assert!(!reply_declares_goal_met(""));
    assert!(!reply_declares_goal_met("   \n\n"));
}

#[test]
fn goal_met_tolerates_quote_and_list_markers() {
    assert!(reply_declares_goal_met("work\n> GOAL MET"));
    assert!(reply_declares_goal_met("work\n- GOAL MET!"));
    assert!(reply_declares_goal_met("work\n`GOAL MET`\r\n"));
    assert!(reply_declares_goal_met("work\n: goal MET :"));
    assert!(!reply_declares_goal_met("work\nGOAL  MET"));
    assert!(!reply_declares_goal_met("work\nGOAL MET now"));
}

#[test]
fn test_append_round_text_separates_rounds() {
    let mut buf = String::new();
    append_round_text(&mut buf, "first");
    assert_eq!(buf, "first");
    append_round_text(&mut buf, "second");
    assert_eq!(buf, "first\n\nsecond");
    append_round_text(&mut buf, "");
    assert_eq!(buf, "first\n\nsecond");
    append_round_text(&mut buf, "third");
    assert_eq!(buf, "first\n\nsecond\n\nthird");
    let mut empty = String::new();
    append_round_text(&mut empty, "");
    assert_eq!(empty, "");
    append_round_text(&mut empty, "one");
    assert_eq!(empty, "one");
}

#[test]
fn test_truncate_chars_respects_boundaries() {
    let s = "café au lait";
    assert_eq!(truncate_chars(s, 100), s);
    assert_eq!(truncate_chars(s, 3), "caf");
    assert_eq!(truncate_chars(s, 4), "caf");
    assert_eq!(truncate_chars(s, 5), "café");
    assert_eq!(truncate_chars(s, 0), "");
}

#[test]
fn test_truncate_does_not_panic_mid_multibyte() {
    let mut s = "a".repeat(3999);
    s.push('é');
    s.push_str("tail");
    assert_eq!(s.len(), 3999 + 2 + 4);
    let cut = truncate_chars(&s, 4000);
    assert_eq!(cut.len(), 3999, "rounded down to the boundary before é");
    assert!(cut.is_char_boundary(cut.len()));
}

#[test]
fn truncate_chars_on_a_four_byte_char() {
    let s = "x🦀y";
    assert_eq!(truncate_chars(s, 1), "x");
    assert_eq!(truncate_chars(s, 4), "x");
    assert_eq!(truncate_chars(s, 5), "x🦀");
    assert_eq!(truncate_chars(s, 6), "x🦀y");
}

#[test]
fn cap_lines_keeps_short_text() {
    assert_eq!(cap_lines("a\nb", 3), "a\nb");
    assert_eq!(cap_lines("", 3), "");
}

#[test]
fn cap_lines_counts_the_hidden_lines() {
    assert_eq!(cap_lines("a\nb\nc\nd\ne", 2), "a\nb\n… and 3 more lines");
    assert_eq!(cap_lines("a\nb\nc", 2), "a\nb\n… and 1 more lines");
    assert_eq!(cap_lines("a\r\nb\r\nc\r\n", 1), "a\n… and 2 more lines");
}

#[test]
fn shorten_path_keeps_the_last_two_segments() {
    assert_eq!(shorten_path("/a/b/c/main.rs"), "…/c/main.rs");
    assert_eq!(shorten_path("c/main.rs"), "c/main.rs");
    assert_eq!(shorten_path("main.rs"), "main.rs");
    assert_eq!(shorten_path("/a/b/c"), "…/b/c");
    assert_eq!(shorten_path("//a//b//c//d/"), "…/c/d");
}

#[test]
fn strip_conversation_tail_cuts_at_the_heading() {
    let sys = "You are kod.\n\n## Conversation so far\nuser: hi\n";
    assert_eq!(strip_conversation_tail(sys), "You are kod.");
    assert_eq!(strip_conversation_tail("plain prompt  \n"), "plain prompt  \n");
    assert_eq!(strip_conversation_tail("a\n## Conversation so far\nb\n## Conversation so far"), "a");
}

#[test]
fn the_prompt_head_splits_at_the_volatile_heading() {
    let (c, v) = split_cacheable("Identity\n\n## Volatile suffix\nEnv");
    assert_eq!(c, "Identity");
    assert_eq!(v, "## Volatile suffix\nEnv");
    let (c, v) = split_cacheable("custom prompt");
    assert_eq!(c, "");
    assert_eq!(v, "custom prompt");
}

#[test]
fn grounding_adds_environment_plan_and_tools() {
    let tools = vec![("read_file".to_string(), "Read a file".to_string())];
    let g = ground_prompt("P".to_string(), "/w", "linux", Some("PLAN"), &tools, "TRUST");
    assert_eq!(
        g,
        "P\n## Environment\n\n- Working directory: /w\n- OS: linux\n\n\nPLAN\n## Tool use\n\nYou have these tools (function calls, rooted at the working directory above):\n- read_file: Read a file\nCall them when you need facts from this machine instead of guessing. Tool outputs return as `## Tool results` blocks — then answer the user.\n\n## Trust boundary\n\nTRUST\n"
    );
    let bare = ground_prompt(String::new(), "/w", "linux", None, &vec![], "TRUST");
    assert_eq!(bare, "\n## Environment\n\n- Working directory: /w\n- OS: linux\n");
}
