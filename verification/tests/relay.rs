//! The relay: merge strategies, merging pushed values, answering pushes, and ids.
use trmnl_console::json::JsonValue;
use trmnl_console::relay::{
    apply_merge, decide_backend_push, decide_relay_push, loaded_state, StateCache, is_valid_id, parse_u64, state_file_name, MergeStrategy,
    PushOutcome,
};

#[test]
fn merge_strategy_parses_known_values() {
    assert_eq!(
        MergeStrategy::from_request(None, None).unwrap(),
        MergeStrategy::Replace
    );
    assert_eq!(
        MergeStrategy::from_request(Some("replace"), None).unwrap(),
        MergeStrategy::Replace
    );
    assert_eq!(
        MergeStrategy::from_request(Some("deep_merge"), None).unwrap(),
        MergeStrategy::DeepMerge
    );
    assert_eq!(
        MergeStrategy::from_request(Some("stream"), Some(5)).unwrap(),
        MergeStrategy::Stream { limit: 5 }
    );
    assert_eq!(
        MergeStrategy::from_request(Some("stream"), None).unwrap(),
        MergeStrategy::Stream { limit: 10 }
    );
    assert!(MergeStrategy::from_request(Some("bogus"), None).is_err());
}

#[test]
fn id_validation_rejects_traversal_and_empty() {
    assert!(is_valid_id("a1b2c3d4-e5f6-4a5b-8c9d-0123456789ab"));
    assert!(is_valid_id("simple_id-123"));
    assert!(!is_valid_id(""));
    assert!(!is_valid_id("../etc/passwd"));
    assert!(!is_valid_id("has/slash"));
    assert!(!is_valid_id(&"x".repeat(129)));
}

fn num(n: i64) -> JsonValue {
    JsonValue::Number(n.to_string())
}

fn text(s: &str) -> JsonValue {
    JsonValue::Str(s.to_string())
}

fn obj(entries: Vec<(&str, JsonValue)>) -> JsonValue {
    JsonValue::Object(entries.into_iter().map(|(k, v)| (k.to_string(), v)).collect())
}

#[test]
fn replace_overwrites_whole_state() {
    let mut state = obj(vec![("data", obj(vec![("old", num(1))]))]);
    apply_merge(&mut state, obj(vec![("data", obj(vec![("new", num(2))]))]), MergeStrategy::Replace);
    assert_eq!(state, obj(vec![("data", obj(vec![("new", num(2))]))]));
}

#[test]
fn deep_merge_combines_nested_objects() {
    let mut state = obj(vec![(
        "data",
        obj(vec![("bar", obj(vec![("left", text("old"))])), ("keep", JsonValue::Bool(true))]),
    )]);
    apply_merge(
        &mut state,
        obj(vec![("data", obj(vec![("bar", obj(vec![("left", text("new"))]))]))]),
        MergeStrategy::DeepMerge,
    );
    assert_eq!(
        state,
        obj(vec![(
            "data",
            obj(vec![("bar", obj(vec![("left", text("new"))])), ("keep", JsonValue::Bool(true))]),
        )])
    );
}

#[test]
fn deep_merge_replaces_non_object_leaves() {
    let mut state = obj(vec![("count", num(1))]);
    apply_merge(&mut state, obj(vec![("count", num(2))]), MergeStrategy::DeepMerge);
    assert_eq!(state, obj(vec![("count", num(2))]));
}

#[test]
fn stream_appends_and_trims_arrays() {
    let mut state = obj(vec![("temperatures", JsonValue::Array(vec![num(1), num(2), num(3)]))]);
    apply_merge(
        &mut state,
        obj(vec![("temperatures", JsonValue::Array(vec![num(4), num(5)]))]),
        MergeStrategy::Stream { limit: 4 },
    );
    assert_eq!(
        state,
        obj(vec![("temperatures", JsonValue::Array(vec![num(2), num(3), num(4), num(5)]))])
    );
}

#[test]
fn stream_replaces_non_array_keys() {
    let mut state = obj(vec![("label", text("old"))]);
    apply_merge(&mut state, obj(vec![("label", text("new"))]), MergeStrategy::Stream { limit: 10 });
    assert_eq!(state, obj(vec![("label", text("new"))]));
}

#[test]
fn deep_merge_adds_new_keys_after_existing_ones() {
    let mut state = obj(vec![("a", num(1))]);
    apply_merge(&mut state, obj(vec![("b", num(2))]), MergeStrategy::DeepMerge);
    assert_eq!(state, obj(vec![("a", num(1)), ("b", num(2))]));
}

#[test]
fn deep_merge_into_non_object_state_replaces_it() {
    let mut state = num(7);
    apply_merge(&mut state, obj(vec![("a", num(1))]), MergeStrategy::DeepMerge);
    assert_eq!(state, obj(vec![("a", num(1))]));
}

#[test]
fn stream_keeps_state_keys_that_are_not_pushed() {
    let mut state = obj(vec![("keep", text("x")), ("list", JsonValue::Array(vec![num(1)]))]);
    apply_merge(
        &mut state,
        obj(vec![("list", JsonValue::Array(vec![num(2)]))]),
        MergeStrategy::Stream { limit: 10 },
    );
    assert_eq!(
        state,
        obj(vec![("keep", text("x")), ("list", JsonValue::Array(vec![num(1), num(2)]))])
    );
}

#[test]
fn stream_limit_zero_empties_arrays() {
    let mut state = obj(vec![("list", JsonValue::Array(vec![num(1)]))]);
    apply_merge(
        &mut state,
        obj(vec![("list", JsonValue::Array(vec![num(2)]))]),
        MergeStrategy::Stream { limit: 0 },
    );
    assert_eq!(state, obj(vec![("list", JsonValue::Array(vec![]))]));
}

#[test]
fn unknown_strategy_message_names_the_strategy() {
    match MergeStrategy::from_request(Some("bogus"), None) {
        Err(message) => assert!(message.contains("bogus")),
        Ok(_) => panic!("bogus strategy accepted"),
    }
}

#[test]
fn id_length_limit_is_128() {
    assert!(is_valid_id(&"x".repeat(128)));
    assert!(!is_valid_id(&"x".repeat(129)));
    assert!(!is_valid_id("a.b"));
}

#[test]
fn parse_u64_reads_decimal_digits() {
    assert_eq!(parse_u64("0"), Some(0));
    assert_eq!(parse_u64("42"), Some(42));
    assert_eq!(parse_u64("18446744073709551615"), Some(u64::MAX));
    assert_eq!(parse_u64("18446744073709551616"), None);
    assert_eq!(parse_u64(""), None);
    assert_eq!(parse_u64("-1"), None);
    assert_eq!(parse_u64("1.5"), None);
}

#[test]
fn backend_push_outcomes() {
    assert!(matches!(
        decide_backend_push("../x", obj(vec![("merge_variables", obj(vec![]))])),
        PushOutcome::InvalidId
    ));
    assert!(matches!(
        decide_backend_push("id", obj(vec![("other", num(1))])),
        PushOutcome::MissingMergeVariables
    ));
    match decide_backend_push(
        "id",
        obj(vec![
            ("merge_variables", obj(vec![("a", num(1))])),
            ("merge_strategy", text("stream")),
            ("stream_limit", num(3)),
        ]),
    ) {
        PushOutcome::Accepted(v, s) => {
            assert_eq!(v, obj(vec![("a", num(1))]));
            assert_eq!(s, MergeStrategy::Stream { limit: 3 });
        }
        other => panic!("unexpected outcome {:?}", other),
    }
    match decide_backend_push(
        "id",
        obj(vec![("merge_variables", obj(vec![])), ("merge_strategy", text("nope"))]),
    ) {
        PushOutcome::BadStrategy(message) => assert!(message.contains("nope")),
        other => panic!("unexpected outcome {:?}", other),
    }
}

#[test]
fn relay_push_checks_the_bearer_token() {
    let body = || obj(vec![("merge_variables", obj(vec![]))]);
    assert!(matches!(decide_relay_push(None, Some("Bearer t"), body()), PushOutcome::NoTokenConfigured));
    assert!(matches!(decide_relay_push(Some("t"), None, body()), PushOutcome::Unauthorized));
    assert!(matches!(decide_relay_push(Some("t"), Some("Bearer u"), body()), PushOutcome::Unauthorized));
    assert!(matches!(decide_relay_push(Some("t"), Some("bearer t"), body()), PushOutcome::Unauthorized));
    assert!(matches!(
        decide_relay_push(Some("t"), Some("Bearer t"), body()),
        PushOutcome::Accepted(_, MergeStrategy::Replace)
    ));
}

#[test]
fn state_files_are_named_by_id() {
    assert_eq!(state_file_name("my-id"), "my-id.json");
    assert_ne!(state_file_name("a"), state_file_name("b"));
}

#[test]
fn unknown_id_starts_as_empty_object() {
    assert_eq!(loaded_state(None), obj(vec![]));
    assert_eq!(loaded_state(Some(&b"3"[..])), num(3));
    assert_eq!(loaded_state(Some(&b"not json"[..])), obj(vec![]));
    assert_eq!(loaded_state(Some(&b""[..])), obj(vec![]));
}

#[test]
fn state_files_load_the_json_they_hold() {
    let bytes = br#"{"b": [1, 2.5, "x", null, true], "a": {"c": false}}"#;
    assert_eq!(
        loaded_state(Some(&bytes[..])),
        obj(vec![
            ("a", obj(vec![("c", JsonValue::Bool(false))])),
            ("b", JsonValue::Array(vec![num(1), JsonValue::Number("2.5".into()), text("x"), JsonValue::Null, JsonValue::Bool(true)])),
        ])
    );
}

#[test]
fn deeply_nested_state_files_load_in_full() {
    let deep = format!("{}{}", "[".repeat(127), "]".repeat(127));
    let mut v = loaded_state(Some(deep.as_bytes()));
    let mut depth = 0;
    while let JsonValue::Array(mut items) = v {
        depth += 1;
        v = if items.is_empty() { JsonValue::Null } else { items.remove(0) };
    }
    assert_eq!(depth, 127);
    let too_deep = format!("{}{}", "[".repeat(128), "]".repeat(128));
    assert_eq!(loaded_state(Some(too_deep.as_bytes())), obj(vec![]));
}

#[test]
fn state_cache_takes_a_merge_only_once_saved() {
    let mut cache = StateCache::new();
    assert!(!cache.contains("a"));
    cache.load("a", Some(&br#"{"x": 1}"#[..]));
    cache.load("b", None);
    assert_eq!(cache.state_of("a"), Some(obj(vec![("x", num(1))])));
    assert_eq!(cache.state_of("b"), Some(obj(vec![])));
    // An id already held keeps its state.
    cache.load("a", Some(&b"[]"[..]));
    assert_eq!(cache.state_of("a"), Some(obj(vec![("x", num(1))])));
    let merged = cache.merged_state("a", obj(vec![("y", num(2))]), MergeStrategy::DeepMerge);
    assert_eq!(merged, obj(vec![("x", num(1)), ("y", num(2))]));
    // Not saved: nothing changes.
    cache.commit("a", merged, false);
    assert_eq!(cache.state_of("a"), Some(obj(vec![("x", num(1))])));
    let merged = cache.merged_state("a", obj(vec![("y", num(2))]), MergeStrategy::DeepMerge);
    cache.commit("a", merged, true);
    assert_eq!(cache.state_of("a"), Some(obj(vec![("x", num(1)), ("y", num(2))])));
    assert_eq!(cache.state_of("b"), Some(obj(vec![])));
    assert_eq!(cache.state_of("c"), None);
}
