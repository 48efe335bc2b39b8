use cohere::attr::AttrValue;
use cohere::logcor::Level;
use cohere::propagate::{Carrier, TraceContext};
use cohere::span::{apply_baggage, InboundRequest, Outcome, OutboundRequest, SpanKind, SpanStatus, Tracer};

fn bv(s: &str) -> Vec<u8> {
    s.as_bytes().to_vec()
}

fn inbound_get_users() -> InboundRequest {
    InboundRequest {
        method: bv("GET"),
        route: bv("/users/{id}"),
        client_address: bv("203.0.113.9"),
        protocol_version: bv("1.1"),
        scheme: bv("https"),
        path: bv("/users/42"),
        query: bv(""),
        user_agent: bv("test-agent"),
    }
}

fn parent_carrier() -> Carrier {
    let mut carrier = Carrier { entries: Vec::new() };
    carrier.set(
        bv("traceparent"),
        bv("00-4bf92f3577b34da6a3ce929d0e0e4736-00f067aa0ba902b7-01"),
    );
    carrier.set(bv("baggage"), bv("tenant=acme"));
    carrier
}

#[test]
fn inbound_span_is_parented_and_enriched() {
    let mut tracer = Tracer::new(bv("cohere"), 7);
    let carrier = parent_carrier();
    let (span, baggage) = tracer.start_inbound(&inbound_get_users(), &carrier, 1000);
    assert_eq!(span.kind, SpanKind::Server);
    assert_eq!(String::from_utf8(span.name.clone()).unwrap(), "GET /users/{id}");
    assert_eq!(span.context.trace_id, 0x4bf92f3577b34da6a3ce929d0e0e4736);
    assert_ne!(span.context.span_id, 0x00f067aa0ba902b7);
    assert!(span.context.sampled);
    let parent = span.parent.expect("parent context extracted");
    assert_eq!(parent.span_id, 0x00f067aa0ba902b7);
    assert_eq!(baggage, vec![(bv("tenant"), bv("acme"))]);
    assert!(span
        .attributes
        .iter()
        .any(|(k, v)| k == &bv("tenant") && v == &AttrValue::Text(bv("acme"))));
    assert!(span
        .attributes
        .iter()
        .any(|(k, v)| k == &bv("url.path") && v == &AttrValue::Text(bv("/users/42"))));
    assert_eq!(span.status, SpanStatus::Unset);
    assert_eq!(span.start_ms, 1000);
    assert!(span.end_ms.is_none());
}

#[test]
fn inbound_without_parent_roots_a_new_trace() {
    let mut tracer = Tracer::new(bv("cohere"), 7);
    let carrier = Carrier { entries: Vec::new() };
    let (span, baggage) = tracer.start_inbound(&inbound_get_users(), &carrier, 5);
    assert!(span.parent.is_none());
    assert!(baggage.is_empty());
    assert_ne!(span.context.trace_id, 0);
    assert_ne!(span.context.span_id, 0);
    assert!(span.context.sampled);
}

#[test]
fn status_mapping_on_finish() {
    let mut tracer = Tracer::new(bv("cohere"), 1);
    let carrier = Carrier { entries: Vec::new() };

    let (mut span, _) = tracer.start_inbound(&inbound_get_users(), &carrier, 1000);
    let report = span.finish(&Outcome::Status(404), 1250);
    assert_eq!(
        span.status,
        SpanStatus::Error { description: bv("HTTP error: 404") }
    );
    assert_eq!(report.level, Level::Error);
    assert_eq!(report.latency_ms, 250);
    assert_eq!(report.status_code, Some(404));
    assert_eq!(span.end_ms, Some(1250));
    assert!(span
        .attributes
        .iter()
        .any(|(k, v)| k == &bv("http.response.status_code") && v == &AttrValue::Uint(404)));

    let (mut ok_span, _) = tracer.start_inbound(&inbound_get_users(), &carrier, 1000);
    let ok_report = ok_span.finish(&Outcome::Status(200), 1010);
    assert_eq!(ok_span.status, SpanStatus::Okay);
    assert_eq!(ok_report.level, Level::Info);
    assert_eq!(ok_report.status_code, Some(200));

    let (mut failed, _) = tracer.start_inbound(&inbound_get_users(), &carrier, 1000);
    let fail_report = failed.finish(&Outcome::Failure(bv("connection reset")), 1100);
    assert_eq!(
        failed.status,
        SpanStatus::Error { description: bv("connection reset") }
    );
    assert_eq!(fail_report.level, Level::Error);
    assert_eq!(fail_report.status_code, None);
}

#[test]
fn baggage_stamping_is_idempotent() {
    let mut tracer = Tracer::new(bv("cohere"), 3);
    let carrier = parent_carrier();
    let (mut span, baggage) = tracer.start_inbound(&inbound_get_users(), &carrier, 0);
    let before = span.attributes.clone();
    apply_baggage(&mut span, &baggage);
    assert_eq!(span.attributes, before);
    apply_baggage(&mut span, &vec![(bv("other"), bv("late"))]);
    assert_eq!(span.attributes, before);
}

#[test]
fn outbound_span_injects_its_own_context() {
    let mut tracer = Tracer::new(bv("cohere"), 9);
    let current = TraceContext {
        trace_id: 0x4bf92f3577b34da6a3ce929d0e0e4736,
        span_id: 0x00f067aa0ba902b7,
        sampled: true,
    };
    let req = OutboundRequest {
        method: bv("GET"),
        scheme: bv("https"),
        host: bv("example.com"),
        port: Some(8080),
        path: bv("/users/42"),
        query: Some(bv("x=1")),
        route_template: Some(bv("/users/{id}")),
    };
    let baggage = vec![(bv("tenant"), bv("acme"))];
    let (span, carrier) = tracer.start_outbound(&req, Some(&current), &baggage, 50);
    assert_eq!(span.kind, SpanKind::Client);
    assert_eq!(String::from_utf8(span.name.clone()).unwrap(), "GET /users/{id}");
    assert_eq!(span.context.trace_id, current.trace_id);
    assert_ne!(span.context.span_id, current.span_id);
    assert!(span
        .attributes
        .iter()
        .any(|(k, v)| {
            k == &bv("url.full") && v == &AttrValue::Text(bv("https://example.com:8080/users/42?x=1"))
        }));
    assert!(span
        .attributes
        .iter()
        .any(|(k, v)| k == &bv("server.port") && v == &AttrValue::Uint(8080)));
    let header = carrier.get(b"traceparent").unwrap().clone();
    let text = String::from_utf8(header).unwrap();
    assert!(text.starts_with("00-4bf92f3577b34da6a3ce929d0e0e4736-"));
    assert!(text.ends_with("-01"));
    let baggage_header = carrier.get(b"baggage").unwrap().clone();
    assert_eq!(String::from_utf8(baggage_header).unwrap(), "tenant=acme");
}

#[test]
fn latency_never_underflows() {
    let mut tracer = Tracer::new(bv("cohere"), 2);
    let carrier = Carrier { entries: Vec::new() };
    let (mut span, _) = tracer.start_inbound(&inbound_get_users(), &carrier, 500);
    let report = span.finish(&Outcome::Status(204), 400);
    assert_eq!(report.latency_ms, 0);
    assert_eq!(span.end_ms, Some(400));
}

#[test]
fn full_inbound_scenario() {
    // Inbound GET to route template /users/{id} with path /users/42,
    // carried parent 4bf92f3577b34da6a3ce929d0e0e4736/00f067aa0ba902b7
    // and baggage tenant=acme.
    let mut tracer = Tracer::new(bv("cohere"), 11);
    let carrier = parent_carrier();
    let (mut span, _baggage) = tracer.start_inbound(&inbound_get_users(), &carrier, 2000);

    assert_eq!(String::from_utf8(span.name.clone()).unwrap(), "GET /users/{id}");
    assert_eq!(span.context.trace_id, 0x4bf92f3577b34da6a3ce929d0e0e4736);
    assert_ne!(span.context.span_id, 0x00f067aa0ba902b7);
    assert!(span
        .attributes
        .iter()
        .any(|(k, v)| k == &bv("tenant") && v == &AttrValue::Text(bv("acme"))));

    // Any log emitted during handling carries that trace id and the
    // new span id.
    let layer = cohere::logcor::LogLayer {};
    let line = layer.on_event(bv("working"), Level::Info, Vec::new(), Some(&span.context), 2001);
    let v: serde_json::Value = serde_json::from_slice(&line).unwrap();
    assert_eq!(v["trace_id"], "4bf92f3577b34da6a3ce929d0e0e4736");
    let span_hex = v["span_id"].as_str().unwrap().to_string();
    assert_eq!(u64::from_str_radix(&span_hex, 16).unwrap(), span.context.span_id);
    assert_ne!(span_hex, "00f067aa0ba902b7");

    // Successful completion: the span status is Okay.
    let report = span.finish(&Outcome::Status(200), 2050);
    assert_eq!(span.status, SpanStatus::Okay);
    assert_eq!(report.level, Level::Info);
}
