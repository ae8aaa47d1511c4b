use kod_core::session::{
    session_id_for_holder, session_id_from, steer_message, steer_prompt_block, Cancels,
    DenyRules, SessionDeny, Steers, TranscriptDirs, WriteGlobs, DEFAULT_TRANSCRIPT_KEY,
};

fn rule(tool: &str, pattern: Option<&str>) -> SessionDeny {
    SessionDeny { tool: tool.to_string(), path_pattern: pattern.map(|p| p.to_string()) }
}

fn key_of(r: &SessionDeny) -> (String, Option<String>) {
    (r.tool.clone(), r.path_pattern.clone())
}

#[test]
fn steers_are_trimmed_queued_and_taken_once() {
    let mut s = Steers::new();
    s.steer_for(DEFAULT_TRANSCRIPT_KEY, "  first  ");
    s.steer_for(DEFAULT_TRANSCRIPT_KEY, "   ");
    s.steer_for("swarm:a", "other");
    s.steer_for(DEFAULT_TRANSCRIPT_KEY, "second\n");
    assert_eq!(s.take_steers_for(""), vec!["first".to_string(), "second".to_string()]);
    assert!(s.take_steers_for("").is_empty());
    assert_eq!(s.take_steers_for("swarm:a"), vec!["other".to_string()]);
}

#[test]
fn a_steer_becomes_a_headed_user_message() {
    let heading =
        "## User steer (new instruction — adjust course now, do not restart what already worked)\n";
    assert_eq!(steer_message("go left"), format!("{heading}go left"));
    assert_eq!(steer_prompt_block("go left"), format!("\n\n{heading}go left\n"));
}

#[test]
fn cancels_are_per_transcript() {
    let mut c = Cancels::new();
    assert!(!c.is_cancelled_for(""));
    c.request_cancel_for("swarm:a");
    assert!(c.is_cancelled_for("swarm:a"));
    assert!(!c.is_cancelled_for(""));
    c.request_cancel_for("swarm:a");
    c.clear_cancel_for("swarm:a");
    assert!(!c.is_cancelled_for("swarm:a"));
}

#[test]
fn working_dir_overrides_fall_back_to_the_root() {
    let mut d = TranscriptDirs::new("/repo");
    assert_eq!(d.working_dir_for("swarm:a"), "/repo");
    d.set_transcript_working_dir("swarm:a", Some("/wt/a".to_string()));
    assert_eq!(d.working_dir_for("swarm:a"), "/wt/a");
    assert_eq!(d.working_dir_for(""), "/repo");
    d.set_transcript_working_dir("swarm:a", None);
    assert_eq!(d.working_dir_for("swarm:a"), "/repo");
    d.set_transcript_working_dir("swarm:b", Some("/wt/b".to_string()));
    d.clear_transcript_working_dir("swarm:b");
    assert_eq!(d.working_dir_for("swarm:b"), "/repo");
}

#[test]
fn an_empty_write_set_is_no_claim() {
    let mut w = WriteGlobs::new();
    assert_eq!(w.write_globs_for("k"), None);
    w.set_transcript_write_globs("k", Some(vec!["src/**".to_string()]));
    assert_eq!(w.write_globs_for("k"), Some(vec!["src/**".to_string()]));
    w.set_transcript_write_globs("k", Some(Vec::new()));
    assert_eq!(w.write_globs_for("k"), None);
    w.set_transcript_write_globs("k", Some(vec!["a".to_string()]));
    w.clear_transcript_write_globs("k");
    assert_eq!(w.write_globs_for("k"), None);
}

#[test]
fn deny_rule_at_zero_returns_none() {
    let d = DenyRules::new();
    assert!(d.deny_rule_at(0).is_none());
    assert!(d.deny_rule_at(1).is_none());
}

#[test]
fn deny_rule_at_returns_the_sorted_index() {
    let mut d = DenyRules::new();
    d.add_deny_rule(rule("write_file", Some("src/**")));
    d.add_deny_rule(rule("execute_command", None));
    d.add_deny_rule(rule("write_file", Some("docs/**")));
    let listed = d.deny_rules();
    assert_eq!(listed.len(), 3);
    assert_eq!(
        d.deny_rule_at(1).map(|r| key_of(&r)),
        Some(("execute_command".to_string(), None))
    );
    assert_eq!(
        d.deny_rule_at(2).map(|r| key_of(&r)),
        Some(("write_file".to_string(), Some("docs/**".to_string())))
    );
    assert_eq!(
        d.deny_rule_at(3).map(|r| key_of(&r)),
        Some(("write_file".to_string(), Some("src/**".to_string())))
    );
    assert!(d.deny_rule_at(4).is_none());
}

#[test]
fn remove_deny_rule_is_by_value_and_reports_presence() {
    let mut d = DenyRules::new();
    d.add_deny_rule(rule("write_file", Some("src/**")));
    assert_eq!(d.deny_rules().len(), 1);
    let same_value = rule("write_file", Some("src/**"));
    assert!(d.remove_deny_rule(&same_value));
    assert!(d.deny_rules().is_empty());
    assert!(!d.remove_deny_rule(&same_value));
}

#[test]
fn adding_a_rule_twice_keeps_one() {
    let mut d = DenyRules::new();
    d.add_deny_rule(rule("git_commit", None));
    d.add_deny_rule(rule("git_commit", None));
    d.add_deny_rule(rule("git_commit", Some("")));
    let keys: Vec<_> = d.deny_rules().iter().map(key_of).collect();
    assert_eq!(
        keys,
        vec![("git_commit".to_string(), None), ("git_commit".to_string(), Some(String::new()))]
    );
}

#[test]
fn the_listing_orders_by_character() {
    let mut d = DenyRules::new();
    d.add_deny_rule(rule("b", None));
    d.add_deny_rule(rule("ab", None));
    d.add_deny_rule(rule("a", None));
    d.add_deny_rule(rule("B", None));
    d.add_deny_rule(rule("é", None));
    let tools: Vec<String> = d.deny_rules().into_iter().map(|r| r.tool).collect();
    assert_eq!(tools, vec!["B", "a", "ab", "b", "é"]);
}

#[test]
fn session_id_for_default_transcript_is_the_engine_id() {
    let own = 0x0102_0304_0506_0708_090a_0b0c_0d0e_0f10u128;
    assert_eq!(session_id_for_holder(own, ""), own);
    assert_eq!(session_id_for_holder(own, "swarm:not-a-uuid"), own);
    assert_eq!(session_id_for_holder(own, "agent:a1a2a3a4-b1b2-c1c2-d1d2-d3d4d5d6d7d8"), own);
}

#[test]
fn session_id_for_swarm_key_prefers_the_embedded_uuid() {
    let own = 7u128;
    let agent = uuid::Uuid::from_u128(0xa1a2a3a4_b1b2_c1c2_d1d2_d3d4d5d6d7d8);
    let key = format!("swarm:{agent}");
    let sid = session_id_for_holder(own, &key);
    assert_eq!(sid, agent.as_u128());
    assert_ne!(sid, own);
}

#[test]
fn session_id_from_prefers_the_agent() {
    assert_eq!(session_id_from(1, Some(2)), 2);
    assert_eq!(session_id_from(1, None), 1);
}

#[test]
fn every_uuid_layout_names_the_same_session() {
    let own = 7u128;
    let value = 0xa1a2a3a4_b1b2_c1c2_d1d2_d3d4d5d6d7d8u128;
    for key in [
        "swarm:a1a2a3a4b1b2c1c2d1d2d3d4d5d6d7d8",
        "swarm:A1A2A3A4-B1B2-C1C2-D1D2-D3D4D5D6D7D8",
        "swarm:{a1a2a3a4-b1b2-c1c2-d1d2-d3d4d5d6d7d8}",
        "swarm:URN:uuid:a1a2a3a4-b1b2-c1c2-d1d2-d3d4d5d6d7d8",
    ] {
        assert_eq!(session_id_for_holder(own, key), value, "{key}");
    }
    for key in [
        "swarm:a1a2a3a4b1b2c1c2d1d2d3d4d5d6d7d",
        "swarm:a1a2a3a4_b1b2-c1c2-d1d2-d3d4d5d6d7d8",
        "swarm:(a1a2a3a4-b1b2-c1c2-d1d2-d3d4d5d6d7d8)",
        "swarm:urn:uuid:a1a2a3a4-b1b2-c1c2-d1d2-d3d4d5d6d7dg",
    ] {
        assert_eq!(session_id_for_holder(own, key), own, "{key}");
    }
}
