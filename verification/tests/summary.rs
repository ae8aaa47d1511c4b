use kod_core::json::{JsonNumber, JsonValue};
use kod_core::summary::{
    cap_rendered_result, format_call_brief, format_tool_header, summarize_tool_result, ToolResult,
};

fn j(v: serde_json::Value) -> JsonValue {
    match v {
        serde_json::Value::Null => JsonValue::Null,
        serde_json::Value::Bool(b) => JsonValue::Bool(b),
        serde_json::Value::Number(n) => JsonValue::Number(JsonNumber {
            text: n.to_string(),
            as_u64: n.as_u64(),
            as_i64: n.as_i64(),
        }),
        serde_json::Value::String(s) => JsonValue::String(s),
        serde_json::Value::Array(a) => JsonValue::Array(a.into_iter().map(j).collect()),
        serde_json::Value::Object(m) => {
            JsonValue::Object(m.into_iter().map(|(k, v)| (k, j(v))).collect())
        }
    }
}

fn parse(text: &str) -> JsonValue {
    let v: serde_json::Value = serde_json::from_str(text).unwrap();
    j(v)
}

fn ok(text: &str) -> ToolResult {
    ToolResult::Success(parse(text))
}

#[test]
fn test_cap_rendered_result_keeps_json_valid() {
    let big_content = "x".repeat(50_000);
    let result = ok(&format!(
        r#"{{"path": "/a/big.rs", "content": "{}", "truncated": false}}"#,
        big_content
    ));
    let rendered = cap_rendered_result(&result, 8_000);
    assert!(rendered.len() <= 8_000, "rendered {} bytes > cap 8000", rendered.len());
    let parsed: serde_json::Value =
        serde_json::from_str(&rendered).expect("capped result must be valid JSON");
    assert_eq!(parsed["path"], "/a/big.rs");
    assert_eq!(parsed["truncated"], false);
    let content = parsed["content"].as_str().expect("content is a string");
    assert!(content.contains("truncated"), "content should carry a per-field truncation marker");
}

#[test]
fn test_cap_rendered_result_small_is_untouched() {
    let text = r#"{"path": "/a/small.rs", "content": "hello\n", "truncated": false}"#;
    let raw = serde_json::from_str::<serde_json::Value>(text).unwrap().to_string();
    let rendered = cap_rendered_result(&ok(text), 8_000);
    assert_eq!(rendered, raw);
}

#[test]
fn test_cap_rendered_result_trims_both_streams() {
    let result = ok(&format!(
        r#"{{"stdout": "{}", "stderr": "{}", "exit_code": 3, "stdout_truncated": false, "stderr_truncated": false}}"#,
        "a".repeat(20_000),
        "b".repeat(20_000)
    ));
    let rendered = cap_rendered_result(&result, 8_000);
    assert!(rendered.len() <= 8_000);
    let parsed: serde_json::Value =
        serde_json::from_str(&rendered).expect("capped result must be valid JSON");
    assert_eq!(parsed["exit_code"], 3);
    assert_eq!(parsed["stdout_truncated"], false);
    assert_eq!(parsed["stderr_truncated"], false);
    assert!(parsed["stdout"].as_str().unwrap().contains("truncated"));
    assert!(parsed["stderr"].as_str().unwrap().contains("truncated"));
}

#[test]
fn cap_rendered_result_marks_each_trimmed_field_exactly() {
    let result = ok(&format!(r#"{{"content": "{}"}}"#, "x".repeat(2_000)));
    let rendered = cap_rendered_result(&result, 1_512);
    let parsed: serde_json::Value = serde_json::from_str(&rendered).unwrap();
    let expected = format!("{}… [truncated 1500 of 2000 bytes]", "x".repeat(500));
    assert_eq!(parsed["content"].as_str().unwrap(), expected);
}

#[test]
fn cap_rendered_result_cuts_a_non_object_by_bytes() {
    let result = ok(&format!(r#""{}""#, "y".repeat(100)));
    let rendered = cap_rendered_result(&result, 40);
    assert_eq!(rendered, format!("\"{}… [truncated 87 bytes]", "y".repeat(14)));
    assert!(rendered.len() <= 40);
}

#[test]
fn cap_rendered_result_without_room_for_the_note_only_cuts() {
    let result = ok(&format!(r#""{}""#, "x".repeat(100)));
    let rendered = cap_rendered_result(&result, 10);
    assert!(rendered.len() <= 10);
    assert_eq!(rendered, format!("\"{}", "x".repeat(9)));
}

#[test]
fn cap_rendered_result_shows_an_error_by_its_debug_form() {
    let rendered = cap_rendered_result(&ToolResult::Error("boom".to_string()), 10);
    assert_eq!(rendered, "Error(\"boom\")");
}

#[test]
fn test_summarize_reports_truncation() {
    let read = summarize_tool_result(
        "read_file",
        &ok(r#"{"path": "/a/big.rs", "content": "line1\nline2\n", "truncated": true}"#),
    );
    assert!(read.contains("(truncated)"), "read_file truncation not surfaced: {read}");

    let bin = summarize_tool_result(
        "read_file",
        &ok(r#"{"path": "/a/img.png", "binary": true, "size_bytes": 4096, "truncated": false, "preview_hex": "89 50 4e 47 0d 0a 1a 0a"}"#),
    );
    assert!(
        bin.contains("binary (4096 bytes) — not shown as text"),
        "binary summary shape: {bin}"
    );

    let read_ok = summarize_tool_result(
        "read_file",
        &ok(r#"{"path": "/a/small.rs", "content": "hello\n", "truncated": false}"#),
    );
    assert!(!read_ok.contains("(truncated)"), "untruncated read must not carry the marker: {read_ok}");

    let exec = summarize_tool_result(
        "execute_command",
        &ok(r#"{"stdout": "y\ny\n", "stderr": "", "exit_code": 0, "stdout_truncated": true, "stderr_truncated": false}"#),
    );
    assert!(exec.contains("output truncated at cap"), "command truncation not surfaced: {exec}");
    assert!(!exec.contains("killed"), "clean exit must not be labelled killed: {exec}");

    let exec_killed = summarize_tool_result(
        "execute_command",
        &ok(r#"{"stdout": "y\n", "stderr": "", "exit_code": -1, "exit_signal": 9, "stdout_truncated": true, "stderr_truncated": false}"#),
    );
    assert!(exec_killed.contains("killed"), "signalled command must be labelled: {exec_killed}");

    let exec_nonzero_not_killed = summarize_tool_result(
        "execute_command",
        &ok(r#"{"stdout": "x\n", "stderr": "", "exit_code": 1, "exit_signal": null, "stdout_truncated": true, "stderr_truncated": false}"#),
    );
    assert!(
        exec_nonzero_not_killed.contains("output truncated at cap"),
        "truncation must still be reported: {exec_nonzero_not_killed}"
    );
    assert!(
        !exec_nonzero_not_killed.contains("killed"),
        "non-zero exit is not 'killed': {exec_nonzero_not_killed}"
    );

    let exec_timeout = summarize_tool_result(
        "execute_command",
        &ok(r#"{"stdout": "Compiling foo\n", "stderr": "", "exit_code": -1, "exit_signal": 9, "stdout_truncated": false, "stderr_truncated": false, "timed_out": true, "timeout_secs": 30}"#),
    );
    assert!(exec_timeout.contains("timed out after 30s"), "timeout must be named: {exec_timeout}");
    assert!(exec_timeout.contains("killed"), "timeout should say killed: {exec_timeout}");

    let exec_signalled = summarize_tool_result(
        "execute_command",
        &ok(r#"{"stdout": "partial output\n", "stderr": "", "exit_code": -1, "exit_signal": 9, "stdout_truncated": false, "stderr_truncated": false, "timed_out": false, "timeout_secs": 30}"#),
    );
    assert!(
        exec_signalled.contains("killed by a signal"),
        "external signal must be named: {exec_signalled}"
    );
}

#[test]
fn test_summarize_tool_result_shapes() {
    let err = summarize_tool_result("read_file", &ToolResult::Error("boom".to_string()));
    assert!(err.starts_with("Error:"), "got: {err}");
    let okr = summarize_tool_result("execute_command", &ok(r#"{"stdout": "hi\n", "stderr": ""}"#));
    assert_eq!(okr, "hi");
    let hdr = format_tool_header("read_file", &parse(r#"{"path": "/a/b/c/main.rs"}"#));
    assert!(hdr.starts_with("read_file path="), "got: {hdr}");
    let read = summarize_tool_result(
        "read_file",
        &ok(r#"{"path": "/a/main.rs", "content": "one\ntwo\nthree\nfour\n"}"#),
    );
    assert!(read.contains("4 lines"), "got: {read}");
    assert!(read.contains("one\ntwo\nthree"), "got: {read}");
    assert!(!read.contains("four"), "got: {read}");
}

#[test]
fn write_file_summary_renders_diff() {
    let v = parse(
        r#"{"path": "/tmp/greet.txt", "written": 12, "diff": "--- a/greet.txt\n+++ b/greet.txt\n@@ -1 +1,2 @@\n hello\n+world\n"}"#,
    );
    let rendered = summarize_tool_result("write_file", &ToolResult::Success(v));
    assert!(rendered.contains("greet.txt"), "got: {rendered}");
    assert!(rendered.contains("+world"), "got: {rendered}");
    assert!(!rendered.contains("written 12 bytes"), "old placeholder still present: {rendered}");
}

#[test]
fn identical_write_summary_says_no_change() {
    let v = parse(r#"{"path": "/tmp/same.txt", "written": 4, "diff": ""}"#);
    let rendered = summarize_tool_result("write_file", &ToolResult::Success(v));
    assert!(rendered.contains("no change"), "expected a no-change notice: {rendered}");
}

#[test]
fn call_brief_shows_the_first_command_line() {
    let b = format_call_brief("execute_command", &parse(r#"{"command": "  cargo test\necho hi"}"#));
    assert_eq!(b, "execute_command cargo test");
}

#[test]
fn a_confirmation_request_is_summarized() {
    let r = summarize_tool_result(
        "write_file",
        &ToolResult::RequiresConfirmation { description: "overwrite x".to_string() },
    );
    assert!(r.contains("overwrite x"), "got: {r}");
}

#[test]
fn an_unrecognised_result_is_shown_as_indented_json() {
    let s = summarize_tool_result("web_fetch", &ok(r#"{"status": 200}"#));
    assert_eq!(s, "{\n  \"status\": 200\n}");
}
