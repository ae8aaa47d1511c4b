use kod_core::routing::{picked_model_ref, resolve_chain, routed_model_ref, streaming_chain, ModelRef, Registry};

fn reg(v: &[(&str, &str)]) -> Registry {
    v.iter().map(|(a, b)| (a.to_string(), b.to_string())).collect()
}

fn names(v: &[&str]) -> Vec<String> {
    v.iter().map(|s| s.to_string()).collect()
}

fn refs(c: &[ModelRef]) -> Vec<(String, String)> {
    c.iter().map(|m| (m.endpoint.clone(), m.model.clone())).collect()
}

fn pairs(v: &[(&str, &str)]) -> Vec<(String, String)> {
    v.iter().map(|(a, b)| (a.to_string(), b.to_string())).collect()
}

#[test]
fn without_a_registry_the_current_model_alone() {
    let cur = ModelRef::new("local", "llama");
    let c = resolve_chain(None, &cur, None, Some("remote"), &names(&["remote"]));
    assert_eq!(refs(&c), pairs(&[("local", "llama")]));
}

#[test]
fn pick_then_primary_then_fallback_each_once() {
    let r = reg(&[("fast", "f-1"), ("smart", "s-1"), ("cheap", "c-1")]);
    let cur = ModelRef::new("fast", "f-1");
    let pick = Some(ModelRef::new("smart", "s-1"));
    let c = resolve_chain(Some(&r), &cur, pick, Some("fast"), &names(&["smart", "gone", "cheap", "fast", "cheap"]));
    assert_eq!(refs(&c), pairs(&[("smart", "s-1"), ("fast", "f-1"), ("cheap", "c-1")]));
}

#[test]
fn unregistered_primary_is_skipped() {
    let r = reg(&[("fast", "f-1")]);
    let cur = ModelRef::new("fast", "f-1");
    let c = resolve_chain(Some(&r), &cur, None, Some("missing"), &names(&["fast"]));
    assert_eq!(refs(&c), pairs(&[("fast", "f-1")]));
}

#[test]
fn an_empty_chain_falls_back_to_the_current_model() {
    let r = reg(&[("fast", "f-1")]);
    let cur = ModelRef::new("default", "d-1");
    let c = resolve_chain(Some(&r), &cur, None, None, &names(&["nowhere"]));
    assert_eq!(refs(&c), pairs(&[("default", "d-1")]));
}

#[test]
fn an_override_keeps_the_fallbacks() {
    let r = reg(&[("fast", "f-1"), ("smart", "s-1")]);
    let p = ModelRef::new("smart", "s-9");
    let c = streaming_chain(&p, Some(&r), Some(&names(&["smart", "fast"])));
    assert_eq!(refs(&c), pairs(&[("smart", "s-9"), ("fast", "f-1")]));
    assert_eq!(refs(&streaming_chain(&p, None, Some(&names(&["fast"])))), pairs(&[("smart", "s-9")]));
    assert_eq!(refs(&streaming_chain(&p, Some(&r), None)), pairs(&[("smart", "s-9")]));
}

#[test]
fn picks_and_tables_resolve_through_the_registry() {
    let r = reg(&[("fast", "f-1"), ("smart", "s-1")]);
    let m = picked_model_ref(&r, "smart").unwrap();
    assert_eq!((m.endpoint.as_str(), m.model.as_str()), ("smart", "s-1"));
    assert!(picked_model_ref(&r, "other").is_none());
    let table = pairs(&[("planning", "smart"), ("summary", "gone")]);
    let m = routed_model_ref(&table, "planning", &r).unwrap();
    assert_eq!((m.endpoint.as_str(), m.model.as_str()), ("smart", "s-1"));
    assert!(routed_model_ref(&table, "summary", &r).is_none());
    assert!(routed_model_ref(&table, "synthesis", &r).is_none());
    assert!(routed_model_ref(&table, "", &r).is_none());
}
