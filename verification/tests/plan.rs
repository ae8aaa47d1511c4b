use kod_core::plan::{parse_plan_steps, plan_array_text, plan_prompt, plan_steps_from, wants_plan, MIN_PLAN_REQUEST_BYTES};
use kod_core::json::{count_value, JsonValue};

#[test]
fn plan_is_wanted_only_for_long_complex_requests_without_a_plan() {
    let long = "refactor the parser and then update every caller of it";
    assert!(long.len() >= MIN_PLAN_REQUEST_BYTES);
    assert!(wants_plan(true, false, long));
    assert!(!wants_plan(false, false, long));
    assert!(!wants_plan(true, true, long));
    assert!(!wants_plan(true, false, "fix it"));
    // exactly at the threshold
    let edge = "a".repeat(MIN_PLAN_REQUEST_BYTES);
    assert!(wants_plan(true, false, &edge));
    let below = "a".repeat(MIN_PLAN_REQUEST_BYTES - 1);
    assert!(!wants_plan(true, false, &below));
}

#[test]
fn plan_prompt_ends_with_the_request() {
    let p = plan_prompt("add a cache");
    assert!(p.starts_with("Produce a concise, ordered plan for the request below.\n"));
    assert!(p.contains("Output ONLY a JSON array of strings, one per step.\n"));
    assert!(p.ends_with("\n\nRequest: add a cache"));
}

#[test]
fn plan_array_text_spans_first_open_to_last_close() {
    assert_eq!(plan_array_text("Sure! [\"a\", [\"b\"]] done"), Some("[\"a\", [\"b\"]]"));
    assert_eq!(plan_array_text("no array here"), None);
    assert_eq!(plan_array_text("] before ["), None);
    assert_eq!(plan_array_text("[]"), Some("[]"));
    assert_eq!(plan_array_text("é [\"ü\"] ñ"), Some("[\"ü\"]"));
}

#[test]
fn parse_plan_steps_reads_a_bare_array() {
    let steps = parse_plan_steps("[\"Read the file\", \"Edit it\", \"Run tests\"]").unwrap();
    assert_eq!(steps, vec!["Read the file", "Edit it", "Run tests"]);
}

#[test]
fn parse_plan_steps_tolerates_surrounding_prose() {
    let steps = parse_plan_steps("Here is the plan:\n[\"one\", \"two\"]\nGood luck.").unwrap();
    assert_eq!(steps, vec!["one", "two"]);
}

#[test]
fn parse_plan_steps_coerces_items_and_drops_blank_ones() {
    let steps = parse_plan_steps("[\"one\", \"   \", 3, null, \"two\"]").unwrap();
    assert_eq!(steps, vec!["one", "3", "null", "two"]);
    let steps = parse_plan_steps(r#"Plan: ["a", 1, "b"] done"#).unwrap();
    assert_eq!(steps, vec!["a", "1", "b"]);
}

#[test]
fn parse_plan_steps_gives_nothing_without_steps() {
    assert_eq!(parse_plan_steps("no plan"), None);
    assert_eq!(parse_plan_steps("[]"), None);
    assert_eq!(parse_plan_steps("[\"  \", \"\"]"), None);
    assert_eq!(parse_plan_steps("[not json]"), None);
    assert_eq!(parse_plan_steps("] then ["), None);
}

#[test]
fn plan_steps_from_keeps_elements_in_order() {
    let v = JsonValue::Array(vec![
        JsonValue::String("first".to_string()),
        count_value(2),
        JsonValue::String("second".to_string()),
    ]);
    assert_eq!(
        plan_steps_from(&v),
        Some(vec!["first".to_string(), "2".to_string(), "second".to_string()])
    );
    assert_eq!(plan_steps_from(&JsonValue::String("x".to_string())), None);
}
