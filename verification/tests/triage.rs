use kod_core::json::{JsonNumber, JsonValue};
use kod_core::summary::ToolResult;
use kod_core::round::tool_message_text;
use kod_core::triage::{
    compress_lines, compress_read_result, rank_search_result, reallocate, reshare_budget,
    split_diff, triage_diff, triage_write_result, Allocation,
};

fn j(v: serde_json::Value) -> JsonValue {
    match v {
        serde_json::Value::Null => JsonValue::Null,
        serde_json::Value::Bool(b) => JsonValue::Bool(b),
        serde_json::Value::Number(n) => JsonValue::Number(JsonNumber {
            text: n.to_string(),
            as_u64: n.as_u64(),
            as_i64: n.as_i64(),
        }),
        serde_json::Value::String(s) => JsonValue::String(s),
        serde_json::Value::Array(a) => JsonValue::Array(a.into_iter().map(j).collect()),
        serde_json::Value::Object(m) => {
            JsonValue::Object(m.into_iter().map(|(k, v)| (k, j(v))).collect())
        }
    }
}

fn text_of(v: JsonValue) -> String {
    tool_message_text(&ToolResult::Success(v))
}

fn shares(h: usize, s: usize, m: usize, r: usize) -> Allocation {
    Allocation { request: 7, history: h, skills: s, memory: m, repomap: r }
}

#[test]
fn the_budget_goes_to_the_wanted_sections() {
    let base = shares(10, 10, 10, 11);
    assert_eq!(reshare_budget(base, true, false, true, false), shares(21, 0, 20, 0));
    assert_eq!(reshare_budget(base, true, true, true, true), shares(11, 10, 10, 10));
    assert_eq!(reshare_budget(base, false, false, true, false), shares(0, 0, 41, 0));
    assert_eq!(reshare_budget(base, false, false, false, false), base);
    assert_eq!(reshare_budget(shares(0, 0, 0, 0), true, true, true, true), shares(0, 0, 0, 0));
    let r = reshare_budget(shares(1, 2, 3, 5), true, true, true, true);
    assert_eq!(r.history + r.skills + r.memory + r.repomap, 11);
    assert_eq!(r.request, 7);
}

#[test]
fn short_requests_and_missing_answers_keep_the_base() {
    let base = shares(10, 10, 10, 10);
    assert_eq!(reallocate(base, "short", Some((true, false, true, false))), base);
    assert_eq!(reallocate(base, "a request that is long enough", None), base);
    assert_eq!(
        reallocate(base, "a request that is long enough", Some((true, false, true, false))),
        shares(20, 0, 20, 0)
    );
}

#[test]
fn irrelevant_lines_are_elided_in_runs() {
    let content: String = (0..70).map(|i| format!("line{i}\n")).collect();
    let mut relevant = vec![true; 70];
    for i in 10..25 {
        relevant[i] = false;
    }
    relevant[30] = false;
    let (text, dropped) = compress_lines(&content, &relevant).unwrap();
    assert_eq!(dropped, 16);
    let lines: Vec<&str> = text.lines().collect();
    assert_eq!(lines[9], "line9");
    assert_eq!(lines[10], "… 15 lines elided by Jev");
    assert_eq!(lines[11], "line25");
    assert_eq!(lines[16], "… 1 lines elided by Jev");
    assert_eq!(lines.len(), 70 - 16 + 2);
}

#[test]
fn short_files_and_small_drops_are_left_alone() {
    let short: String = (0..59).map(|i| format!("l{i}\n")).collect();
    assert!(compress_lines(&short, &vec![false; 59]).is_none());
    let long: String = (0..80).map(|i| format!("l{i}\n")).collect();
    let mut relevant = vec![true; 80];
    for i in 0..9 {
        relevant[i] = false;
    }
    assert!(compress_lines(&long, &relevant).is_none());
    relevant[9] = false;
    let (text, d) = compress_lines(&long, &relevant).unwrap();
    assert_eq!(d, 10);
    assert!(text.starts_with("… 10 lines elided by Jev\nl10"));
}

#[test]
fn unanswered_lines_and_lines_past_the_window_are_kept() {
    let content: String = (0..300).map(|i| format!("l{i}\n")).collect();
    let relevant = vec![false; 300];
    let (text, d) = compress_lines(&content, &relevant).unwrap();
    assert_eq!(d, 200);
    assert!(text.starts_with("… 200 lines elided by Jev\nl200\n"));
    let (_, d2) = compress_lines(&content, &vec![false; 50]).unwrap();
    assert_eq!(d2, 50);
}

const DIFF: &str = "--- a/x\n+++ b/x\n@@ -1 +1 @@\n-a\n+b\n@@ -10 +10 @@\n-c\n+d\n@@ -20 +20 @@\n ctx\n";

#[test]
fn a_diff_splits_into_header_and_hunks() {
    let parts = split_diff(DIFF);
    assert_eq!(parts.header.len(), 2);
    assert_eq!(parts.hunks.len(), 3);
    assert_eq!(parts.hunks[1].len(), 3);
}

#[test]
fn context_only_hunks_are_dropped() {
    let out = triage_diff(DIFF, &vec![true, false, true]).unwrap();
    assert_eq!(
        out,
        "--- a/x\n+++ b/x\n@@ -1 +1 @@\n-a\n+b\n@@ -20 +20 @@\n ctx\n… (3 lines of context-only hunks elided by Jev)"
    );
    assert!(triage_diff(DIFF, &vec![true, true, true]).is_none());
    assert!(triage_diff("--- a\n@@ one\n-x\n", &vec![false]).is_none());
    assert!(triage_diff("", &vec![]).is_none());
}

#[test]
fn a_write_result_gets_the_triaged_diff() {
    let v = j(serde_json::from_str(&format!(
        "{{\"path\": \"x\", \"diff\": {}}}",
        serde_json::Value::String(DIFF.to_string()).to_string()
    ))
    .unwrap());
    let out = triage_write_result(&v, &vec![false, true, true]).unwrap();
    let text = text_of(out);
    assert!(text.contains("elided by Jev"));
    assert!(text.contains("\"path\":\"x\""));
}

#[test]
fn a_read_result_gets_the_compressed_content() {
    let content: String = (0..70).map(|i| format!("line{i}\n")).collect();
    let v = j(serde_json::from_str(&format!(
        "{{\"path\": \"f.rs\", \"content\": {}}}",
        serde_json::Value::String(content).to_string()
    ))
    .unwrap());
    let mut relevant = vec![true; 70];
    for i in 0..20 {
        relevant[i] = false;
    }
    let out = text_of(compress_read_result(&v, &relevant).unwrap());
    let parsed: serde_json::Value = serde_json::from_str(&out).unwrap();
    assert_eq!(parsed["lines_elided_by_jev"], 20);
    assert!(parsed["content"].as_str().unwrap().starts_with("… 20 lines elided by Jev\nline20"));
    assert_eq!(parsed["path"], "f.rs");
    assert!(compress_read_result(&j(serde_json::from_str("{}").unwrap()), &relevant).is_none());
}

#[test]
fn irrelevant_search_hits_are_dropped_and_counted() {
    let hits: Vec<String> = (0..25).map(|i| format!("{{\"file\": \"f{i}\", \"line\": {i}}}")).collect();
    let v = j(serde_json::from_str(&format!("{{\"results\": [{}]}}", hits.join(","))).unwrap());
    let mut relevant = vec![true; 25];
    relevant[3] = false;
    relevant[4] = false;
    let out = text_of(rank_search_result(&v, &relevant).unwrap());
    let parsed: serde_json::Value = serde_json::from_str(&out).unwrap();
    assert_eq!(parsed["results"].as_array().unwrap().len(), 23);
    assert_eq!(parsed["ranked_by_jev"]["dropped"], 2);
    assert_eq!(parsed["ranked_by_jev"]["kept"], 23);
    assert!(rank_search_result(&v, &vec![true; 25]).is_none());
    let few = j(serde_json::from_str("{\"results\": [1, 2, 3]}").unwrap());
    assert!(rank_search_result(&few, &vec![false; 3]).is_none());
}
