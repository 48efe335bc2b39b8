use cohere::propagate::{extract, inject, Carrier, TraceContext};

fn bv(s: &str) -> Vec<u8> {
    s.as_bytes().to_vec()
}

fn pairs(entries: &[(&str, &str)]) -> Vec<(Vec<u8>, Vec<u8>)> {
    entries.iter().map(|(k, v)| (bv(k), bv(v))).collect()
}

#[test]
fn traceparent_wire_format() {
    let ctx = TraceContext {
        trace_id: 0x4bf92f3577b34da6a3ce929d0e0e4736,
        span_id: 0x00f067aa0ba902b7,
        sampled: true,
    };
    let mut carrier = Carrier { entries: Vec::new() };
    inject(&ctx, &Vec::new(), &mut carrier);
    let value = carrier.get(b"traceparent").expect("traceparent written");
    assert_eq!(
        String::from_utf8(value.clone()).unwrap(),
        "00-4bf92f3577b34da6a3ce929d0e0e4736-00f067aa0ba902b7-01"
    );
    assert!(carrier.get(b"baggage").is_none());
}

#[test]
fn round_trip_context_and_baggage() {
    let ctx = TraceContext {
        trace_id: 0x4bf92f3577b34da6a3ce929d0e0e4736,
        span_id: 0x00f067aa0ba902b7,
        sampled: false,
    };
    let baggage = pairs(&[("tenant", "acme"), ("a b", "x=y,z%50"), ("empty", "")]);
    let mut carrier = Carrier { entries: Vec::new() };
    inject(&ctx, &baggage, &mut carrier);
    let (parent, extracted) = extract(&carrier);
    assert_eq!(parent, Some(ctx));
    assert_eq!(extracted, baggage);
}

#[test]
fn malformed_traceparent_yields_no_parent() {
    for bad in [
        "",
        "00-4bf92f3577b34da6a3ce929d0e0e4736-00f067aa0ba902b7",
        "ff-4bf92f3577b34da6a3ce929d0e0e4736-00f067aa0ba902b7-01",
        "00-00000000000000000000000000000000-00f067aa0ba902b7-01",
        "00-4bf92f3577b34da6a3ce929d0e0e4736-0000000000000000-01",
        "00-4bf92f3577b34da6a3ce929d0e0e47zz-00f067aa0ba902b7-01",
    ] {
        let mut carrier = Carrier { entries: Vec::new() };
        carrier.set(bv("traceparent"), bv(bad));
        let (parent, _) = extract(&carrier);
        assert_eq!(parent, None, "carrier value {:?} must give no parent", bad);
    }
}

#[test]
fn empty_carrier_extracts_nothing() {
    let carrier = Carrier { entries: Vec::new() };
    let (parent, baggage) = extract(&carrier);
    assert_eq!(parent, None);
    assert!(baggage.is_empty());
}

#[test]
fn malformed_baggage_entries_are_skipped() {
    let mut carrier = Carrier { entries: Vec::new() };
    carrier.set(bv("baggage"), bv("tenant=acme,bogus,percent=%zz"));
    let (_, baggage) = extract(&carrier);
    assert_eq!(baggage, pairs(&[("tenant", "acme")]));
}

#[test]
fn carrier_keys_are_case_insensitive() {
    let mut carrier = Carrier { entries: Vec::new() };
    carrier.set(bv("TraceParent"), bv("x"));
    assert_eq!(carrier.get(b"TRACEPARENT").map(|v| v.clone()), Some(bv("x")));
    carrier.set(bv("traceparent"), bv("y"));
    assert_eq!(carrier.get(b"TraceParent").map(|v| v.clone()), Some(bv("y")));
    assert_eq!(carrier.entries.len(), 1);
}

#[test]
fn percent_escaping_round_trips_reserved_bytes() {
    let ctx = TraceContext { trace_id: 1, span_id: 1, sampled: true };
    let baggage = pairs(&[("k%,=", " \tv,=%"), ("plain", "value")]);
    let mut carrier = Carrier { entries: Vec::new() };
    inject(&ctx, &baggage, &mut carrier);
    let header = carrier.get(b"baggage").unwrap().clone();
    let text = String::from_utf8(header).unwrap();
    assert!(!text.contains(' '));
    assert_eq!(text.matches(',').count(), 1);
    let (_, extracted) = extract(&carrier);
    assert_eq!(extracted, baggage);
}
