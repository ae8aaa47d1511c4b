use kod_core::markers::{
    format_duration_ms, is_stream_reset_marker, is_thinking_marker, parse_tool_approval,
    parse_tool_approval_batch, parse_tool_args, parse_tool_done, parse_tool_start,
    stream_reset_marker, thinking_marker, tool_approval_batch_marker, tool_approval_marker,
    tool_args_marker, tool_done_marker, tool_start_marker, ApprovalDecision, STREAM_RESET_MARKER,
    THINKING_MARKER, TOOL_DONE_MARKER,
};

#[test]
fn test_tool_done_marker_roundtrip() {
    let header = "execute_command command=cargo test";
    let summary = "line1\nline2\nline3";
    let chunk = tool_done_marker(header, summary, 1340);
    let (h, s, ms) = parse_tool_done(&chunk).expect("must parse");
    assert_eq!(h, header);
    assert_eq!(s, summary);
    assert_eq!(ms, 1340);
}

#[test]
fn test_tool_done_marker_sanitizes_nul() {
    let chunk = tool_done_marker("a\0b", "c\0d", 7);
    let (h, s, ms) = parse_tool_done(&chunk).expect("must parse");
    assert_eq!((h, s, ms), ("a b", "c d", 7));
}

#[test]
fn test_tool_done_marker_rejects_other_chunks() {
    assert!(parse_tool_done("plain text").is_none());
    assert!(parse_tool_done(&tool_start_marker("read_file")).is_none());
    let raw = format!("{TOOL_DONE_MARKER}h\0s\0abc");
    assert_eq!(parse_tool_done(&raw), Some(("h", "s", 0)));
    let raw = format!("{TOOL_DONE_MARKER}only-header");
    assert!(parse_tool_done(&raw).is_none());
}

#[test]
fn tool_done_duration_follows_u64_parsing() {
    let raw = format!("{TOOL_DONE_MARKER}h\0s\0+42");
    assert_eq!(parse_tool_done(&raw), Some(("h", "s", 42)));
    let raw = format!("{TOOL_DONE_MARKER}h\0s\018446744073709551616");
    assert_eq!(parse_tool_done(&raw), Some(("h", "s", 0)));
    let raw = format!("{TOOL_DONE_MARKER}h\0s\018446744073709551615");
    assert_eq!(parse_tool_done(&raw), Some(("h", "s", u64::MAX)));
    let raw = format!("{TOOL_DONE_MARKER}h\0s\0");
    assert_eq!(parse_tool_done(&raw), Some(("h", "s", 0)));
    let raw = format!("{TOOL_DONE_MARKER}h\0s\01\02");
    assert_eq!(parse_tool_done(&raw), Some(("h", "s", 0)));
    let chunk = tool_done_marker("", "", u64::MAX);
    assert_eq!(parse_tool_done(&chunk), Some(("", "", u64::MAX)));
}

#[test]
fn test_format_duration_ms() {
    assert_eq!(format_duration_ms(0), "0ms");
    assert_eq!(format_duration_ms(999), "999ms");
    assert_eq!(format_duration_ms(1000), "1.0s");
    assert_eq!(format_duration_ms(1500), "1.5s");
    assert_eq!(format_duration_ms(65_000), "1m05s");
}

#[test]
fn format_duration_minutes() {
    assert_eq!(format_duration_ms(60_000), "1m00s");
    assert_eq!(format_duration_ms(61_999), "1m01s");
    assert_eq!(format_duration_ms(3_599_999), "59m59s");
    assert_eq!(format_duration_ms(7_260_000), "121m00s");
}

#[test]
fn format_duration_matches_float_formatting_for_every_sub_minute_value() {
    for ms in 1000u64..60_000 {
        let expected = format!("{:.1}s", ms as f64 / 1000.0);
        assert_eq!(format_duration_ms(ms), expected, "ms = {ms}");
    }
}

#[test]
fn tool_start_and_args_roundtrip() {
    for name in ["read_file", "", "a\0b", "é ü"] {
        let chunk = tool_start_marker(name);
        assert_eq!(parse_tool_start(&chunk), Some(name));
        let chunk = tool_args_marker(name);
        assert_eq!(parse_tool_args(&chunk), Some(name));
    }
    assert_eq!(parse_tool_start("\0kod-tool:x"), None);
    assert_eq!(parse_tool_args(&tool_start_marker("x")), None);
    assert_eq!(tool_start_marker("ls"), "\0kod-tool:ls\0");
    assert_eq!(tool_args_marker("ls -la"), "\0kod-args:ls -la\0");
}

#[test]
fn reset_and_thinking_markers() {
    assert_eq!(stream_reset_marker(), STREAM_RESET_MARKER);
    assert!(is_stream_reset_marker(&stream_reset_marker()));
    assert!(!is_stream_reset_marker("\0kod-stream-reset"));
    assert_eq!(thinking_marker(), THINKING_MARKER);
    assert!(is_thinking_marker("\0kod-thinking\0"));
    assert!(!is_thinking_marker(&stream_reset_marker()));
}

#[test]
fn approval_markers_roundtrip() {
    let chunk = tool_approval_marker(17, "{\"tool_name\":\"write_file\",\"a\":\"x\0y\"}");
    assert_eq!(chunk, "\0kod-approval:17:{\"tool_name\":\"write_file\",\"a\":\"x y\"}\0");
    assert_eq!(
        parse_tool_approval(&chunk),
        Some((17, "{\"tool_name\":\"write_file\",\"a\":\"x y\"}"))
    );
    let batch = tool_approval_batch_marker(3, "{\"items\":[]}");
    assert_eq!(parse_tool_approval_batch(&batch), Some((3, "{\"items\":[]}")));
    assert_eq!(parse_tool_approval(&batch), None);
    assert_eq!(parse_tool_approval("\0kod-approval:x:{}\0"), None);
    assert_eq!(parse_tool_approval("\0kod-approval:5{}\0"), None);
    assert_eq!(parse_tool_approval("\0kod-approval:5:{}"), None);
}

#[test]
fn approval_decisions_compare() {
    assert_eq!(ApprovalDecision::Approve, ApprovalDecision::Approve);
    assert_ne!(ApprovalDecision::Deny, ApprovalDecision::DenyAlways);
}
