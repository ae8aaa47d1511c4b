use kod_core::fixture::{
    diff_rounds, query_hash, Fixture, RequestSummary, ResponseFixture, RoundFixture, ENGINE_VERSION,
};

fn summary(system_chars: usize) -> RequestSummary {
    RequestSummary {
        system_chars,
        message_count: 7,
        tool_names: vec!["read_file".into()],
        model: "m".into(),
        endpoint: "e".into(),
    }
}

#[test]
fn summary_hash_is_stable() {
    let s = summary(42);
    assert_eq!(s.hash(), s.hash());
}

#[test]
fn summary_hash_changes_on_field_change() {
    let a = summary(42);
    let mut b = a.clone();
    b.system_chars = 43;
    assert_ne!(a.hash(), b.hash());
}

fn reference_hash(s: &RequestSummary) -> String {
    let mut h: u64 = 0xcbf2_9ce4_8422_2325;
    let mut feed = |b: &[u8]| {
        for x in b {
            h ^= *x as u64;
            h = h.wrapping_mul(0x0000_0100_0000_01b3);
        }
    };
    feed(s.system_chars.to_string().as_bytes());
    feed(&[0]);
    feed(s.message_count.to_string().as_bytes());
    feed(&[0]);
    for n in &s.tool_names {
        feed(n.as_bytes());
        feed(&[0]);
    }
    feed(s.model.as_bytes());
    feed(&[0]);
    feed(s.endpoint.as_bytes());
    format!("{h:016x}")
}

#[test]
fn summary_hash_is_fnv1a_of_the_fields_in_hex() {
    let s = summary(42);
    let h = s.hash();
    assert_eq!(h.len(), 16);
    assert_eq!(h, reference_hash(&s));
    let t = RequestSummary {
        system_chars: 0,
        message_count: 0,
        tool_names: vec!["a_tool".into(), "b_tool".into(), "é".into()],
        model: "".into(),
        endpoint: "local".into(),
    };
    assert_eq!(t.hash(), reference_hash(&t));
}

fn sample(name: &str, n: u32) -> Fixture {
    let mut f = Fixture::new(name);
    for seq in 0..n {
        let summary = RequestSummary {
            system_chars: 100 + seq as usize,
            message_count: 1 + seq as usize,
            tool_names: vec!["read_file".into(), "grep".into()],
            model: "test".into(),
            endpoint: "local".into(),
        };
        let hash = summary.hash();
        f.rounds.push(RoundFixture {
            seq,
            user_prompt: format!("prompt {seq}"),
            request_hash: hash,
            request_summary: summary,
            response: ResponseFixture {
                text: format!("reply {seq}"),
                tool_calls: vec![],
                usage: None,
                tool_results: Vec::new(),
            },
            at_ms: 0,
        });
    }
    f
}

#[test]
fn a_new_fixture_is_empty_and_versioned() {
    let f = Fixture::new("auth");
    assert_eq!(f.name, "auth");
    assert_eq!(f.engine_version, ENGINE_VERSION);
    assert!(f.rounds.is_empty());
}

#[test]
fn identical_fixtures_have_no_divergence() {
    let a = sample("x", 3);
    let b = sample("x", 3);
    assert!(a.first_divergence(&b).is_none());
}

#[test]
fn different_round_count_is_a_divergence() {
    let a = sample("x", 3);
    let b = sample("x", 2);
    assert_eq!(a.first_divergence(&b), Some(2));
    assert_eq!(b.first_divergence(&a), Some(2));
}

#[test]
fn differing_round_hash_is_a_divergence() {
    let a = sample("x", 3);
    let mut b = sample("x", 3);
    b.rounds[1].request_hash = "deadbeef".into();
    assert_eq!(a.first_divergence(&b), Some(1));
    b.rounds[2].request_hash = "deadbeef".into();
    assert_eq!(a.first_divergence(&b), Some(1));
}

#[test]
fn diff_rounds_mentions_all_mismatched_fields() {
    let a = sample("x", 1);
    let mut b = sample("x", 1);
    b.rounds[0].request_summary.system_chars = 999;
    b.rounds[0].request_summary.message_count = 999;
    b.rounds[0].request_summary.model = "different".into();
    let diff = diff_rounds(&a.rounds[0], &b.rounds[0]);
    assert!(diff.contains("system_chars"));
    assert!(diff.contains("message_count"));
    assert!(diff.contains("model"));
    assert!(!diff.contains("tools:"));
}

#[test]
fn diff_rounds_renders_every_line() {
    let a = sample("x", 1);
    let mut b = sample("x", 1);
    b.rounds[0].request_hash = "ffff".into();
    b.rounds[0].request_summary.tool_names = vec!["grep".into()];
    let diff = diff_rounds(&a.rounds[0], &b.rounds[0]);
    let expected = format!(
        "Round 0 request hash: expected {} got ffff\n  system_chars:  100 → 100\n  message_count: 1 → 1\n  model:         test → test\n  tools: read_file, grep → grep\n",
        a.rounds[0].request_hash
    );
    assert_eq!(diff, expected);
}

#[test]
fn from_request_captures_model_and_tool_names() {
    let s = RequestSummary::from_request(
        "hello",
        1,
        &vec!["b_tool".to_string(), "a_tool".to_string()],
        "m",
        "ep",
    );
    assert_eq!(s.model, "m");
    assert_eq!(s.endpoint, "ep");
    assert_eq!(s.message_count, 1);
    assert!(s.system_chars > 0);
    assert_eq!(s.tool_names, vec!["a_tool", "b_tool"]);
}

#[test]
fn from_request_sorts_like_str_and_counts_bytes() {
    let s = RequestSummary::from_request(
        "héllo",
        0,
        &vec!["b".to_string(), "B".to_string(), "a".to_string(), "b".to_string()],
        "",
        "",
    );
    assert_eq!(s.system_chars, 6);
    let mut want = vec!["b".to_string(), "B".to_string(), "a".to_string(), "b".to_string()];
    want.sort();
    assert_eq!(s.tool_names, want);
}

#[test]
fn tool_order_does_not_change_the_request_identity() {
    let a = vec!["read_file".to_string(), "grep".to_string(), "write_file".to_string()];
    let b = vec!["write_file".to_string(), "read_file".to_string(), "grep".to_string()];
    let s1 = RequestSummary::from_request("system prompt", 4, &a, "m", "e");
    let s2 = RequestSummary::from_request("system prompt", 4, &b, "m", "e");
    assert_eq!(s1.tool_names, vec!["grep", "read_file", "write_file"]);
    assert_eq!(s1.hash(), s2.hash());
    let s3 = RequestSummary::from_request("system prompt", 5, &a, "m", "e");
    assert_ne!(s1.hash(), s3.hash());
}

#[test]
fn query_hash_is_fnv1a_in_hex() {
    // FNV-1a 64 of the empty input is its offset basis.
    assert_eq!(query_hash(""), "cbf29ce484222325");
    // FNV-1a 64 of "a".
    assert_eq!(query_hash("a"), "af63dc4c8601ec8c");
    assert_eq!(query_hash("where is main"), query_hash("where is main"));
    assert_ne!(query_hash("a"), query_hash("b"));
}
