use kod_core::hooks::{cap_hook_output, pre_hook_action, pre_hook_failure_reason, env_pairs, MAX_HOOK_OUTPUT_BYTES, matches_key, HookOutcome, HookRunner, HooksConfig, ToolCall};
use kod_core::json::{JsonNumber, JsonValue};
use std::collections::HashMap;

fn j(v: serde_json::Value) -> JsonValue {
    match v {
        serde_json::Value::Null => JsonValue::Null,
        serde_json::Value::Bool(b) => JsonValue::Bool(b),
        serde_json::Value::Number(n) => JsonValue::Number(JsonNumber {
            text: n.to_string(),
            as_u64: n.as_u64(),
            as_i64: n.as_i64(),
        }),
        serde_json::Value::String(s) => JsonValue::String(s),
        serde_json::Value::Array(a) => JsonValue::Array(a.into_iter().map(j).collect()),
        serde_json::Value::Object(m) => JsonValue::Object(m.into_iter().map(|(k, v)| (k, j(v))).collect()),
    }
}

fn call(name: &str, args: &str) -> ToolCall {
    let parsed: serde_json::Value = serde_json::from_str(args).unwrap();
    ToolCall { id: None, tool_name: name.to_string(), arguments: j(parsed) }
}

#[test]
fn matches_key_honors_tool_and_tool_field() {
    assert!(matches_key("write_file", "write_file"));
    assert!(matches_key("write_file.path", "write_file"));
    assert!(!matches_key("read_file", "write_file"));
}

#[test]
fn matches_key_splits_at_the_first_dot() {
    assert!(matches_key("a.b.c", "a"));
    assert!(!matches_key("a.b.c", "a.b"));
    assert!(matches_key("a.b", "a.b"));
    assert!(!matches_key(".x", "x"));
    assert!(matches_key(".x", ""));
}

#[test]
fn hook_outcome_ok_is_exit_zero() {
    let o = HookOutcome { exit_code: 0, stdout: String::new(), stderr: String::new() };
    assert!(o.ok());
    let f = HookOutcome { exit_code: -1, stdout: String::new(), stderr: String::new() };
    assert!(!f.ok());
}

#[test]
fn env_pairs_maps_every_known_argument() {
    let c = call(
        "write_file",
        r#"{"path": "/a.rs", "content": "x", "command": "c", "pattern": "p", "file": "f"}"#,
    );
    let envs: HashMap<_, _> = env_pairs(&c).into_iter().collect();
    assert_eq!(envs.get("KOD_PATH").map(String::as_str), Some("/a.rs"));
    assert_eq!(envs.get("KOD_CONTENT").map(String::as_str), Some("x"));
    assert_eq!(envs.get("KOD_COMMAND").map(String::as_str), Some("c"));
    assert_eq!(envs.get("KOD_PATTERN").map(String::as_str), Some("p"));
    assert_eq!(envs.get("KOD_FILE").map(String::as_str), Some("f"));
}

#[test]
fn env_pairs_skips_absent_arguments() {
    let c = call("write_file", r#"{"path": "/a.rs"}"#);
    let envs: HashMap<_, _> = env_pairs(&c).into_iter().collect();
    assert!(envs.contains_key("KOD_PATH"));
    assert!(!envs.contains_key("KOD_COMMAND"));
}

#[test]
fn env_pairs_ignores_non_string_arguments() {
    let c = call("write_file", r#"{"path": "/a.rs", "content": 42}"#);
    let envs: HashMap<_, _> = env_pairs(&c).into_iter().collect();
    assert!(envs.contains_key("KOD_PATH"));
    assert!(!envs.contains_key("KOD_CONTENT"));
}

#[test]
fn env_pairs_keep_the_fixed_order() {
    let c = call("x", r#"{"file": "f", "path": "p"}"#);
    assert_eq!(
        env_pairs(&c),
        vec![("KOD_PATH", "p".to_string()), ("KOD_FILE", "f".to_string())]
    );
}

fn cfg(enabled: bool, pre: &[(&str, &str)], post: &[(&str, &str)]) -> HooksConfig {
    HooksConfig {
        enabled,
        pre_tool_use: pre.iter().map(|(a, b)| (a.to_string(), b.to_string())).collect(),
        post_tool_use: post.iter().map(|(a, b)| (a.to_string(), b.to_string())).collect(),
    }
}

#[test]
fn disabled_runner_is_a_no_op() {
    let runner = HookRunner::disabled();
    assert!(!runner.is_enabled());
    let c = call("write_file", r#"{"path": "/tmp/x"}"#);
    assert!(runner.pre_hooks_for(&c).is_empty());
    assert!(runner.post_hooks_for(&c).is_empty());
}

#[test]
fn runner_selects_matching_hooks_in_order() {
    let runner = HookRunner::new(cfg(
        true,
        &[("write_file", "a"), ("read_file", "b"), ("write_file.path", "c")],
        &[("write_file", "d")],
    ));
    assert!(runner.is_enabled());
    let c = call("write_file", r#"{}"#);
    assert_eq!(
        runner.pre_hooks_for(&c),
        vec![
            ("write_file".to_string(), "a".to_string()),
            ("write_file.path".to_string(), "c".to_string())
        ]
    );
    assert_eq!(runner.post_hooks_for(&c), vec![("write_file".to_string(), "d".to_string())]);
    let off = HookRunner::new(cfg(false, &[("write_file", "a")], &[]));
    assert!(!off.is_enabled());
    assert!(off.pre_hooks_for(&c).is_empty());
    let empty = HookRunner::new(cfg(true, &[], &[]));
    assert!(!empty.is_enabled());
}

#[test]
fn short_hook_output_is_kept_whole() {
    assert_eq!(cap_hook_output("all good\n"), "all good\n");
    let exact = "x".repeat(MAX_HOOK_OUTPUT_BYTES);
    assert_eq!(cap_hook_output(&exact), exact);
}

#[test]
fn long_hook_output_keeps_its_last_bytes() {
    let mut s = "a".repeat(100);
    s.push_str(&"b".repeat(MAX_HOOK_OUTPUT_BYTES));
    let out = cap_hook_output(&s);
    let expected = format!("[...output truncated; last 8192 bytes follow...]\n{}", "b".repeat(8192));
    assert_eq!(out, expected);
}

#[test]
fn long_multibyte_hook_output_cut_on_a_boundary() {
    // 'é' is two bytes; the cut falls between two of them.
    let s = "é".repeat(MAX_HOOK_OUTPUT_BYTES / 2 + 10);
    let out = cap_hook_output(&s);
    let expected = format!("[...output truncated; last 8192 bytes follow...]\n{}", "é".repeat(4096));
    assert_eq!(out, expected);
}

#[test]
fn a_refusing_pre_hook_is_reported_with_its_output() {
    let o = HookOutcome { exit_code: 1, stdout: String::new(), stderr: "not allowed\n".to_string() };
    assert_eq!(pre_hook_action("write_file"), "pre_tool_use hook for write_file");
    assert_eq!(
        pre_hook_failure_reason("write_file", &o),
        "hook \"write_file\" exited 1\nstdout: \nstderr: not allowed\n"
    );
    let killed = HookOutcome { exit_code: -1, stdout: "x".to_string(), stderr: String::new() };
    assert_eq!(
        pre_hook_failure_reason("a\"b", &killed),
        "hook \"a\\\"b\" exited -1\nstdout: x\nstderr: "
    );
}
