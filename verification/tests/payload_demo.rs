//! The webhook payload bodies and the demo screen.
use trmnl_console::demo::render_terminal_output;
use trmnl_console::json::JsonValue;
use trmnl_console::payload::{make, WebhookPayloadBar, WebhookPayloadDataMulti, WebhookPayloadVariant};
use trmnl_console::sbuffer::SBuffer;

/// The body as a `serde_json` value (object entries as a map, so their order is ignored).
fn as_serde(v: &JsonValue) -> serde_json::Value {
    match v {
        JsonValue::Null => serde_json::Value::Null,
        JsonValue::Bool(b) => serde_json::Value::Bool(*b),
        JsonValue::Number(text) => serde_json::from_str(text).unwrap(),
        JsonValue::Str(s) => serde_json::Value::String(s.clone()),
        JsonValue::Array(items) => serde_json::Value::Array(items.iter().map(as_serde).collect()),
        JsonValue::Object(entries) => {
            serde_json::Value::Object(entries.iter().map(|(k, v)| (k.clone(), as_serde(v))).collect())
        }
    }
}

/// Whether `v` is the JSON that `text` holds.
fn is_json(v: &JsonValue, text: &str) -> bool {
    as_serde(v) == serde_json::from_str::<serde_json::Value>(text).unwrap()
}

/// The keys of an object, in order.
fn keys(v: &JsonValue) -> Vec<String> {
    match v {
        JsonValue::Object(entries) => entries.iter().map(|(k, _)| k.clone()).collect(),
        _ => panic!("not an object"),
    }
}

#[test]
fn bar_is_absent_without_parts() {
    assert!(WebhookPayloadBar::new(None, None, None).is_none());
    let bar = WebhookPayloadBar::new(None, Some("r".into()), None).unwrap();
    assert_eq!(bar.right.as_deref(), Some("r"));
    assert!(bar.left.is_none() && bar.icon.is_none());
}

#[test]
fn whole_payload_body() {
    let payload = make(10, 2, None, SBuffer::new("\u{E000}hi".into(), 10));
    assert_eq!(payload.data.content, "\u{E000}hi");
    assert!(is_json(
        &payload.into_webhook(),
        "{\"merge_variables\":{\"data\":{\"width\":10,\"scale\":2,\"bar\":null,\"content\":\"\u{E000}hi\"}}}"
    ));
}

#[test]
fn split_payload_bodies() {
    let bar = WebhookPayloadBar::new(Some("l".into()), None, Some("i".into()));
    let (meta, content) = make(7, 1, bar, SBuffer::new("\u{E000}x".into(), 7)).into_webhook_parts();
    assert_eq!(keys(&meta), ["merge_variables", "merge_strategy"]);
    assert_eq!(keys(&content), ["merge_variables", "merge_strategy"]);
    assert!(is_json(
        &meta,
        "{\"merge_variables\":{\"data\":{\"width\":7,\"scale\":1,\"bar\":{\"left\":\"l\",\"right\":null,\"icon\":\"i\"}}},\"merge_strategy\":\"deep_merge\"}"
    ));
    assert!(is_json(
        &content,
        "{\"merge_variables\":{\"data\":{\"content\":\"\u{E000}x\"}},\"merge_strategy\":\"deep_merge\"}"
    ));
}

#[test]
fn multi_size_payload_body() {
    let multi = WebhookPayloadDataMulti {
        bar: None,
        variants: vec![
            WebhookPayloadVariant { id: "a".into(), width: 1, scale: 1, content: "x".into() },
            WebhookPayloadVariant { id: "b".into(), width: 2, scale: 3, content: "y".into() },
        ],
    };
    assert!(is_json(
        &multi.into_webhook(),
        "{\"merge_variables\":{\"data\":{\"bar\":null,\"variants\":[{\"id\":\"a\",\"width\":1,\"scale\":1,\"content\":\"x\"},{\"id\":\"b\",\"width\":2,\"scale\":3,\"content\":\"y\"}]}}}"
    ));
    let empty = WebhookPayloadDataMulti { bar: None, variants: vec![] };
    assert!(matches!(empty.into_webhook(), JsonValue::Object(_)));
}

#[test]
fn demo_screen_of_minimal_size() {
    let expected = [
        format!("╭{}╮", "─".repeat(18)),
        "│         .-:.   :=+.     \x1B[1m  TRMNL Console Plugin\x1B[22m│".to_string(),
        "│         -++++=..++=       Output size: 20 x 5│".to_string(),
        "│         ...:--  -++: :.   This is the demo output. Try adding \x1B[3m-- your-command\x1B[23m to \x1B[3mtrmnl-console\x1B[23m.│".to_string(),
        format!("╰{}╯", "─".repeat(18)),
    ]
    .join("\n");
    assert_eq!(render_terminal_output(20, 5), expected);
}

#[test]
fn demo_screen_centres_the_logo() {
    let out = render_terminal_output(60, 20);
    let lines: Vec<&str> = out.split('\n').collect();
    assert_eq!(lines.len(), 20);
    // The logo starts at row 20 / 2 - 10 / 2 = 5.
    assert!(lines[4].trim_matches('│').trim().is_empty());
    assert!(lines[5].starts_with("│         .-:.   :=+.     "));
    assert!(lines[9].contains("TRMNL Console Plugin"));
    assert!(lines[10].contains("Output size: 60 x 20"));
    assert!(lines[14].starts_with(&format!("│{}.==.", " ".repeat(14))));
    assert!(lines.iter().all(|l| l.starts_with('│') || l.starts_with('╭') || l.starts_with('╰')));
}
