use cohere::attr::AttrValue;
use cohere::logcor::{Level, LogLayer};
use cohere::propagate::TraceContext;

fn bv(s: &str) -> Vec<u8> {
    s.as_bytes().to_vec()
}

fn parse(line: &[u8]) -> serde_json::Value {
    serde_json::from_slice(line).expect("log line must be valid JSON")
}

#[test]
fn correlated_event_carries_span_identifiers() {
    let layer = LogLayer {};
    let ctx = TraceContext {
        trace_id: 0x4bf92f3577b34da6a3ce929d0e0e4736,
        span_id: 0x00f067aa0ba902b7,
        sampled: true,
    };
    let line = layer.on_event(bv("handled"), Level::Info, Vec::new(), Some(&ctx), 1700000000123);
    let v = parse(&line);
    assert_eq!(v["message"], "handled");
    assert_eq!(v["level"], "info");
    assert_eq!(v["timestamp"], 1700000000123u64);
    assert_eq!(v["trace_id"], "4bf92f3577b34da6a3ce929d0e0e4736");
    assert_eq!(v["span_id"], "00f067aa0ba902b7");
}

#[test]
fn uncorrelated_event_omits_identifiers() {
    let layer = LogLayer {};
    let line = layer.on_event(bv("quiet"), Level::Warn, Vec::new(), None, 7);
    let v = parse(&line);
    assert_eq!(v["level"], "warn");
    assert!(v.get("trace_id").is_none());
    assert!(v.get("span_id").is_none());
    assert!(v.get("attributes").is_none());
}

#[test]
fn stable_field_order_and_exact_rendering() {
    let layer = LogLayer {};
    let line = layer.on_event(bv("hi"), Level::Info, Vec::new(), None, 1700000000123);
    assert_eq!(
        String::from_utf8(line).unwrap(),
        "{\"message\":\"hi\",\"level\":\"info\",\"timestamp\":1700000000123}"
    );
}

#[test]
fn attributes_serialize_with_their_types() {
    let layer = LogLayer {};
    let attrs = vec![
        (bv("count"), AttrValue::Int(-5)),
        (bv("size"), AttrValue::Uint(7)),
        (bv("ok"), AttrValue::Flag(true)),
        (bv("who"), AttrValue::Text(bv("acme"))),
    ];
    let line = layer.on_event(bv("m"), Level::Debug, attrs, None, 1);
    let v = parse(&line);
    assert_eq!(v["attributes"]["count"], -5);
    assert_eq!(v["attributes"]["size"], 7);
    assert_eq!(v["attributes"]["ok"], true);
    assert_eq!(v["attributes"]["who"], "acme");
}

#[test]
fn messages_are_json_escaped() {
    let layer = LogLayer {};
    let tricky = "a \"quoted\" \\ backslash\nnewline\ttab and émoji ✓";
    let line = layer.on_event(bv(tricky), Level::Error, Vec::new(), None, 2);
    let v = parse(&line);
    assert_eq!(v["message"], tricky);
    assert_eq!(v["level"], "error");
}

#[test]
fn level_names_are_lowercase() {
    let layer = LogLayer {};
    for (level, name) in [
        (Level::Trace, "trace"),
        (Level::Debug, "debug"),
        (Level::Info, "info"),
        (Level::Warn, "warn"),
        (Level::Error, "error"),
    ] {
        let v = parse(&layer.on_event(bv("x"), level, Vec::new(), None, 0));
        assert_eq!(v["level"], name);
    }
}
