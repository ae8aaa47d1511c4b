use kod_core::jev::{jev_status_line, DecisionCache, build_state, cache_key, fnv1a_64, preview_chars, DecisionSource, JevError};
use kod_core::json::{get, JsonValue};

#[test]
fn fnv1a_is_deterministic() {
    assert_eq!(fnv1a_64(b"hello"), fnv1a_64(b"hello"));
    assert_ne!(fnv1a_64(b"hello"), fnv1a_64(b"world"));
}

#[test]
fn fnv1a_known_values() {
    assert_eq!(fnv1a_64(b""), 0xcbf2_9ce4_8422_2325);
    assert_eq!(fnv1a_64(b"a"), 0xaf63_dc4c_8601_ec8c);
    assert_eq!(fnv1a_64(b"foobar"), 0x8594_4171_f739_67e8);
}

#[test]
fn cache_key_differs_for_different_states() {
    let a = build_state("hello", &[]);
    let b = build_state("world", &[]);
    assert_ne!(cache_key("noul", &a, "q"), cache_key("noul", &b, "q"));
}

#[test]
fn cache_key_differs_for_different_questions() {
    let s = build_state("hello", &[]);
    assert_ne!(cache_key("noul", &s, "a"), cache_key("noul", &s, "b"));
}

#[test]
fn cache_key_differs_for_different_kinds() {
    let s = build_state("hello", &[]);
    assert_ne!(cache_key("noul", &s, "q"), cache_key("score", &s, "q"));
}

#[test]
fn cache_key_hashes_kind_state_and_question() {
    let s = build_state("hi", &[("k", "v")]);
    let mut buf = b"noul\0".to_vec();
    buf.extend_from_slice(br#"{"metadata":{"k":"v"},"text":"hi"}"#);
    buf.push(0);
    buf.extend_from_slice(b"q");
    assert_eq!(cache_key("noul", &s, "q"), fnv1a_64(&buf));
}

fn s(v: Option<&JsonValue>) -> Option<String> {
    match v {
        Some(JsonValue::String(x)) => Some(x.clone()),
        _ => None,
    }
}

#[test]
fn build_state_has_text_and_metadata() {
    let v = build_state("hi", &[("a", "1"), ("b", "2")]);
    assert_eq!(s(get(&v, "text")).as_deref(), Some("hi"));
    let md = get(&v, "metadata").unwrap();
    assert_eq!(s(get(md, "a")).as_deref(), Some("1"));
    assert_eq!(s(get(md, "b")).as_deref(), Some("2"));
}

#[test]
fn build_state_omits_empty_metadata() {
    let v = build_state("hi", &[]);
    assert!(get(&v, "metadata").is_none());
}

#[test]
fn build_state_keeps_the_last_value_of_a_repeated_key() {
    let v = build_state("hi", &[("a", "1"), ("a", "2")]);
    let md = get(&v, "metadata").unwrap();
    assert_eq!(s(get(md, "a")).as_deref(), Some("2"));
    match md {
        JsonValue::Object(es) => assert_eq!(es.len(), 1),
        _ => panic!("metadata is an object"),
    }
}

#[test]
fn preview_chars_short_input_is_verbatim() {
    assert_eq!(preview_chars("hello", 10), "hello");
}

#[test]
fn preview_chars_appends_ellipsis_when_cut() {
    assert_eq!(preview_chars("hello world", 5), "hello…");
}

#[test]
fn preview_chars_handles_empty_input() {
    assert_eq!(preview_chars("", 5), "");
}

#[test]
fn preview_chars_counts_chars_not_bytes() {
    assert_eq!(preview_chars("éééééé", 3), "ééé…");
}

#[test]
fn preview_chars_at_exact_length_is_verbatim() {
    assert_eq!(preview_chars("hello", 5), "hello");
    assert_eq!(preview_chars("hello", 0), "…");
}

#[test]
fn decision_source_strings_are_stable() {
    assert_eq!(DecisionSource::Jev.as_str(), "jev");
    assert_eq!(DecisionSource::Heuristic.as_str(), "heuristic");
    assert_eq!(DecisionSource::Llm.as_str(), "llm");
}

#[test]
fn jev_error_messages() {
    assert_eq!(JevError::Disabled.message(), "jev is not enabled");
    assert_eq!(JevError::Sdk("boom".into()).message(), "typesafe sdk: boom");
    assert_eq!(
        JevError::Malformed("x".into()).message(),
        "malformed typesafe response: x"
    );
    assert_eq!(JevError::CachePoisoned.message(), "jev cache lock was poisoned");
}

#[test]
fn cached_answers_expire_with_their_ttl() {
    let mut c: DecisionCache<String> = DecisionCache::new();
    assert_eq!(c.len(), 0);
    c.put(7, "yes".to_string(), 1_000, 500);
    assert_eq!(c.len(), 1);
    assert_eq!(c.get(7, 1_000), Some(&"yes".to_string()));
    assert_eq!(c.get(7, 1_499), Some(&"yes".to_string()));
    assert_eq!(c.get(7, 1_500), None);
    assert_eq!(c.get(8, 1_000), None);
    // A clock that reads earlier than the entry counts as no time passed.
    assert_eq!(c.get(7, 900), Some(&"yes".to_string()));
}

#[test]
fn a_zero_ttl_disables_the_cache() {
    let mut c: DecisionCache<u32> = DecisionCache::new();
    c.put(1, 5, 0, 0);
    assert_eq!(c.len(), 0);
    assert_eq!(c.get(1, 0), None);
}

#[test]
fn storing_again_replaces_and_clear_empties() {
    let mut c: DecisionCache<u32> = DecisionCache::new();
    c.put(1, 5, 0, 100);
    c.put(1, 6, 50, 100);
    c.put(2, 9, 50, 100);
    assert_eq!(c.len(), 2);
    assert_eq!(c.get(1, 120), Some(&6));
    c.clear();
    assert_eq!(c.len(), 0);
    assert_eq!(c.get(2, 60), None);
}

#[test]
fn the_status_line_names_every_setting() {
    assert_eq!(
        jev_status_line(true, None, 300, 4, 2500, true, false),
        "enabled=true model=jev-latest cache_ttl=300s cache_entries=4 timeout=2500ms fail_open=true redact_paths=false"
    );
    assert_eq!(
        jev_status_line(false, Some("jev-mini"), 0, 0, 10, false, true),
        "enabled=false model=jev-mini cache_ttl=0s cache_entries=0 timeout=10ms fail_open=false redact_paths=true"
    );
}
