//! Span lifecycle manager: starts spans for inbound and outbound HTTP
//! calls with consistent semantic attributes, parents them from the
//! context the propagator extracted, stamps baggage onto every started
//! span exactly once, and sets the span status from the outcome.
//!
//! Status policy: any response code of 400 or above marks the span
//! status as an error and raises the finish-record log level to error;
//! codes below 400 mark the span as completed successfully.

use vstd::prelude::*;
use vstd::slice::slice_to_vec;
use crate::attr::{AttrValue, AttrView, attrs_view};
use crate::bytes::{spec_dec, u64_dec, vec_extend};
use crate::logcor::Level;
use crate::propagate::{
    Carrier, TraceContext, entries_view, inject, extract, spec_extract_context,
    spec_extract_baggage, spec_traceparent, spec_traceparent_key, spec_baggage_key,
    spec_encode_baggage,
};

verus! {

/// Which side of a call a span describes.
#[derive(Clone, Copy, PartialEq, Eq, Structural, Debug)]
pub enum SpanKind {
    Client,
    Server,
    Internal,
}

/// The outcome a span closed with: untouched, completed successfully,
/// or failed with a description.
#[derive(Debug, Clone, PartialEq, Eq)]
pub enum SpanStatus {
    Unset,
    Okay,
    Error { description: Vec<u8> },
}

/// A timed unit of work: name, kind, start and end times in
/// milliseconds, attributes, status, its own context and the parent
/// context it was started under.  Baggage is stamped onto the
/// attributes exactly once, at start.
pub struct Span {
    pub name: Vec<u8>,
    pub kind: SpanKind,
    pub start_ms: u64,
    pub end_ms: Option<u64>,
    pub attributes: Vec<(Vec<u8>, AttrValue)>,
    pub status: SpanStatus,
    pub context: TraceContext,
    pub parent: Option<TraceContext>,
    pub baggage_applied: bool,
}

/// A span's display name: `{method} {route}`.
pub open spec fn spec_span_name(method: Seq<u8>, route: Seq<u8>) -> Seq<u8> {
    method + seq![0x20u8] + route
}

/// Builds a span name from a method and a route.
pub fn span_name(method: &[u8], route: &[u8]) -> (r: Vec<u8>)
    ensures
        r@ == spec_span_name(method@, route@),
{
    let mut r: Vec<u8> = Vec::new();
    vec_extend(&mut r, method);
    r.push(0x20);
    vec_extend(&mut r, route);
    proof {
        assert(r@ =~= spec_span_name(method@, route@));
    }
    r
}

/// Baggage entries turned into text attributes, in baggage order.
pub open spec fn spec_stamped(bag: Seq<(Seq<u8>, Seq<u8>)>) -> Seq<(Seq<u8>, AttrView)> {
    bag.map_values(|e: (Seq<u8>, Seq<u8>)| (e.0, AttrView::Text(e.1)))
}

/// The attribute key: `service.name`.
pub open spec fn spec_key_service_name() -> Seq<u8> {
    seq![0x73u8, 0x65u8, 0x72u8, 0x76u8, 0x69u8, 0x63u8, 0x65u8, 0x2eu8, 0x6eu8, 0x61u8, 0x6du8, 0x65u8]
}

/// The attribute key, as bytes.
pub fn key_service_name() -> (r: Vec<u8>)
    ensures
        r@ == spec_key_service_name(),
{
    let r: Vec<u8> = vec![0x73, 0x65, 0x72, 0x76, 0x69, 0x63, 0x65, 0x2e, 0x6e, 0x61, 0x6d, 0x65];
    proof {
        assert(r@ =~= spec_key_service_name());
    }
    r
}

/// The attribute key: `client.address`.
pub open spec fn spec_key_client_address() -> Seq<u8> {
    seq![0x63u8, 0x6cu8, 0x69u8, 0x65u8, 0x6eu8, 0x74u8, 0x2eu8, 0x61u8, 0x64u8, 0x64u8, 0x72u8, 0x65u8, 0x73u8, 0x73u8]
}

/// The attribute key, as bytes.
pub fn key_client_address() -> (r: Vec<u8>)
    ensures
        r@ == spec_key_client_address(),
{
    let r: Vec<u8> = vec![0x63, 0x6c, 0x69, 0x65, 0x6e, 0x74, 0x2e, 0x61, 0x64, 0x64, 0x72, 0x65, 0x73, 0x73];
    proof {
        assert(r@ =~= spec_key_client_address());
    }
    r
}

/// The attribute key: `http.request.method`.
pub open spec fn spec_key_http_request_method() -> Seq<u8> {
    seq![0x68u8, 0x74u8, 0x74u8, 0x70u8, 0x2eu8, 0x72u8, 0x65u8, 0x71u8, 0x75u8, 0x65u8, 0x73u8, 0x74u8, 0x2eu8, 0x6du8, 0x65u8, 0x74u8, 0x68u8, 0x6fu8, 0x64u8]
}

/// The attribute key, as bytes.
pub fn key_http_request_method() -> (r: Vec<u8>)
    ensures
        r@ == spec_key_http_request_method(),
{
    let r: Vec<u8> = vec![0x68, 0x74, 0x74, 0x70, 0x2e, 0x72, 0x65, 0x71, 0x75, 0x65, 0x73, 0x74, 0x2e, 0x6d, 0x65, 0x74, 0x68, 0x6f, 0x64];
    proof {
        assert(r@ =~= spec_key_http_request_method());
    }
    r
}

/// The attribute key: `http.route`.
pub open spec fn spec_key_http_route() -> Seq<u8> {
    seq![0x68u8, 0x74u8, 0x74u8, 0x70u8, 0x2eu8, 0x72u8, 0x6fu8, 0x75u8, 0x74u8, 0x65u8]
}

/// The attribute key, as bytes.
pub fn key_http_route() -> (r: Vec<u8>)
    ensures
        r@ == spec_key_http_route(),
{
    let r: Vec<u8> = vec![0x68, 0x74, 0x74, 0x70, 0x2e, 0x72, 0x6f, 0x75, 0x74, 0x65];
    proof {
        assert(r@ =~= spec_key_http_route());
    }
    r
}

/// The attribute key: `network.protocol.version`.
pub open spec fn spec_key_network_protocol_version() -> Seq<u8> {
    seq![0x6eu8, 0x65u8, 0x74u8, 0x77u8, 0x6fu8, 0x72u8, 0x6bu8, 0x2eu8, 0x70u8, 0x72u8, 0x6fu8, 0x74u8, 0x6fu8, 0x63u8, 0x6fu8, 0x6cu8, 0x2eu8, 0x76u8, 0x65u8, 0x72u8, 0x73u8, 0x69u8, 0x6fu8, 0x6eu8]
}

/// The attribute key, as bytes.
pub fn key_network_protocol_version() -> (r: Vec<u8>)
    ensures
        r@ == spec_key_network_protocol_version(),
{
    let r: Vec<u8> = vec![0x6e, 0x65, 0x74, 0x77, 0x6f, 0x72, 0x6b, 0x2e, 0x70, 0x72, 0x6f, 0x74, 0x6f, 0x63, 0x6f, 0x6c, 0x2e, 0x76, 0x65, 0x72, 0x73, 0x69, 0x6f, 0x6e];
    proof {
        assert(r@ =~= spec_key_network_protocol_version());
    }
    r
}

/// The attribute key: `url.path`.
pub open spec fn spec_key_url_path() -> Seq<u8> {
    seq![0x75u8, 0x72u8, 0x6cu8, 0x2eu8, 0x70u8, 0x61u8, 0x74u8, 0x68u8]
}

/// The attribute key, as bytes.
pub fn key_url_path() -> (r: Vec<u8>)
    ensures
        r@ == spec_key_url_path(),
{
    let r: Vec<u8> = vec![0x75, 0x72, 0x6c, 0x2e, 0x70, 0x61, 0x74, 0x68];
    proof {
        assert(r@ =~= spec_key_url_path());
    }
    r
}

/// The attribute key: `url.query`.
pub open spec fn spec_key_url_query() -> Seq<u8> {
    seq![0x75u8, 0x72u8, 0x6cu8, 0x2eu8, 0x71u8, 0x75u8, 0x65u8, 0x72u8, 0x79u8]
}

/// The attribute key, as bytes.
pub fn key_url_query() -> (r: Vec<u8>)
    ensures
        r@ == spec_key_url_query(),
{
    let r: Vec<u8> = vec![0x75, 0x72, 0x6c, 0x2e, 0x71, 0x75, 0x65, 0x72, 0x79];
    proof {
        assert(r@ =~= spec_key_url_query());
    }
    r
}

/// The attribute key: `url.scheme`.
pub open spec fn spec_key_url_scheme() -> Seq<u8> {
    seq![0x75u8, 0x72u8, 0x6cu8, 0x2eu8, 0x73u8, 0x63u8, 0x68u8, 0x65u8, 0x6du8, 0x65u8]
}

/// The attribute key, as bytes.
pub fn key_url_scheme() -> (r: Vec<u8>)
    ensures
        r@ == spec_key_url_scheme(),
{
    let r: Vec<u8> = vec![0x75, 0x72, 0x6c, 0x2e, 0x73, 0x63, 0x68, 0x65, 0x6d, 0x65];
    proof {
        assert(r@ =~= spec_key_url_scheme());
    }
    r
}

/// The attribute key: `user_agent.original`.
pub open spec fn spec_key_user_agent() -> Seq<u8> {
    seq![0x75u8, 0x73u8, 0x65u8, 0x72u8, 0x5fu8, 0x61u8, 0x67u8, 0x65u8, 0x6eu8, 0x74u8, 0x2eu8, 0x6fu8, 0x72u8, 0x69u8, 0x67u8, 0x69u8, 0x6eu8, 0x61u8, 0x6cu8]
}

/// The attribute key, as bytes.
pub fn key_user_agent() -> (r: Vec<u8>)
    ensures
        r@ == spec_key_user_agent(),
{
    let r: Vec<u8> = vec![0x75, 0x73, 0x65, 0x72, 0x5f, 0x61, 0x67, 0x65, 0x6e, 0x74, 0x2e, 0x6f, 0x72, 0x69, 0x67, 0x69, 0x6e, 0x61, 0x6c];
    proof {
        assert(r@ =~= spec_key_user_agent());
    }
    r
}

/// The attribute key: `server.address`.
pub open spec fn spec_key_server_address() -> Seq<u8> {
    seq![0x73u8, 0x65u8, 0x72u8, 0x76u8, 0x65u8, 0x72u8, 0x2eu8, 0x61u8, 0x64u8, 0x64u8, 0x72u8, 0x65u8, 0x73u8, 0x73u8]
}

/// The attribute key, as bytes.
pub fn key_server_address() -> (r: Vec<u8>)
    ensures
        r@ == spec_key_server_address(),
{
    let r: Vec<u8> = vec![0x73, 0x65, 0x72, 0x76, 0x65, 0x72, 0x2e, 0x61, 0x64, 0x64, 0x72, 0x65, 0x73, 0x73];
    proof {
        assert(r@ =~= spec_key_server_address());
    }
    r
}

/// The attribute key: `server.port`.
pub open spec fn spec_key_server_port() -> Seq<u8> {
    seq![0x73u8, 0x65u8, 0x72u8, 0x76u8, 0x65u8, 0x72u8, 0x2eu8, 0x70u8, 0x6fu8, 0x72u8, 0x74u8]
}

/// The attribute key, as bytes.
pub fn key_server_port() -> (r: Vec<u8>)
    ensures
        r@ == spec_key_server_port(),
{
    let r: Vec<u8> = vec![0x73, 0x65, 0x72, 0x76, 0x65, 0x72, 0x2e, 0x70, 0x6f, 0x72, 0x74];
    proof {
        assert(r@ =~= spec_key_server_port());
    }
    r
}

/// The attribute key: `url.full`.
pub open spec fn spec_key_url_full() -> Seq<u8> {
    seq![0x75u8, 0x72u8, 0x6cu8, 0x2eu8, 0x66u8, 0x75u8, 0x6cu8, 0x6cu8]
}

/// The attribute key, as bytes.
pub fn key_url_full() -> (r: Vec<u8>)
    ensures
        r@ == spec_key_url_full(),
{
    let r: Vec<u8> = vec![0x75, 0x72, 0x6c, 0x2e, 0x66, 0x75, 0x6c, 0x6c];
    proof {
        assert(r@ =~= spec_key_url_full());
    }
    r
}

/// The attribute key: `url.template`.
pub open spec fn spec_key_url_template() -> Seq<u8> {
    seq![0x75u8, 0x72u8, 0x6cu8, 0x2eu8, 0x74u8, 0x65u8, 0x6du8, 0x70u8, 0x6cu8, 0x61u8, 0x74u8, 0x65u8]
}

/// The attribute key, as bytes.
pub fn key_url_template() -> (r: Vec<u8>)
    ensures
        r@ == spec_key_url_template(),
{
    let r: Vec<u8> = vec![0x75, 0x72, 0x6c, 0x2e, 0x74, 0x65, 0x6d, 0x70, 0x6c, 0x61, 0x74, 0x65];
    proof {
        assert(r@ =~= spec_key_url_template());
    }
    r
}

/// The attribute key: `http.response.status_code`.
pub open spec fn spec_key_status_code() -> Seq<u8> {
    seq![0x68u8, 0x74u8, 0x74u8, 0x70u8, 0x2eu8, 0x72u8, 0x65u8, 0x73u8, 0x70u8, 0x6fu8, 0x6eu8, 0x73u8, 0x65u8, 0x2eu8, 0x73u8, 0x74u8, 0x61u8, 0x74u8, 0x75u8, 0x73u8, 0x5fu8, 0x63u8, 0x6fu8, 0x64u8, 0x65u8]
}

/// The attribute key, as bytes.
pub fn key_status_code() -> (r: Vec<u8>)
    ensures
        r@ == spec_key_status_code(),
{
    let r: Vec<u8> = vec![0x68, 0x74, 0x74, 0x70, 0x2e, 0x72, 0x65, 0x73, 0x70, 0x6f, 0x6e, 0x73, 0x65, 0x2e, 0x73, 0x74, 0x61, 0x74, 0x75, 0x73, 0x5f, 0x63, 0x6f, 0x64, 0x65];
    proof {
        assert(r@ =~= spec_key_status_code());
    }
    r
}

/// The error-description prefix for failing status codes: `HTTP error: `.
pub open spec fn spec_http_error_prefix() -> Seq<u8> {
    seq![0x48u8, 0x54u8, 0x54u8, 0x50u8, 0x20u8, 0x65u8, 0x72u8, 0x72u8, 0x6fu8, 0x72u8, 0x3au8, 0x20u8]
}

/// The error-description prefix for failing status codes, as bytes.
pub fn http_error_prefix() -> (r: Vec<u8>)
    ensures
        r@ == spec_http_error_prefix(),
{
    let r: Vec<u8> = vec![0x48, 0x54, 0x54, 0x50, 0x20, 0x65, 0x72, 0x72, 0x6f, 0x72, 0x3a, 0x20];
    proof {
        assert(r@ =~= spec_http_error_prefix());
    }
    r
}

/// The full URL of an outbound request: scheme, host, optional port,
/// path, optional query.
pub open spec fn spec_url_full(req: OutboundRequest) -> Seq<u8> {
    req.scheme@ + seq![0x3au8, 0x2fu8, 0x2fu8] + req.host@ + (match req.port {
        Some(p) => seq![0x3au8] + spec_dec(p as nat),
        None => Seq::<u8>::empty(),
    }) + req.path@ + (match req.query {
        Some(q) => seq![0x3fu8] + q@,
        None => Seq::<u8>::empty(),
    })
}

/// The description a failing status code gets: `HTTP error: {code}`.
pub open spec fn spec_http_error_desc(code: u16) -> Seq<u8> {
    spec_http_error_prefix() + spec_dec(code as nat)
}

/// What an inbound call hands the span manager: plain values read off
/// the request at the transport edge.
pub struct InboundRequest {
    pub method: Vec<u8>,
    pub route: Vec<u8>,
    pub client_address: Vec<u8>,
    pub protocol_version: Vec<u8>,
    pub scheme: Vec<u8>,
    pub path: Vec<u8>,
    pub query: Vec<u8>,
    pub user_agent: Vec<u8>,
}

/// What an outbound call hands the span manager.
pub struct OutboundRequest {
    pub method: Vec<u8>,
    pub scheme: Vec<u8>,
    pub host: Vec<u8>,
    pub port: Option<u16>,
    pub path: Vec<u8>,
    pub query: Option<Vec<u8>>,
    pub route_template: Option<Vec<u8>>,
}

/// The semantic attributes of an inbound (server) span, before baggage.
pub open spec fn spec_inbound_attrs(req: InboundRequest, service: Seq<u8>) -> Seq<
    (Seq<u8>, AttrView),
> {
    seq![
        (spec_key_service_name(), AttrView::Text(service)),
        (spec_key_client_address(), AttrView::Text(req.client_address@)),
        (spec_key_http_request_method(), AttrView::Text(req.method@)),
        (spec_key_http_route(), AttrView::Text(req.route@)),
        (spec_key_network_protocol_version(), AttrView::Text(req.protocol_version@)),
        (spec_key_url_path(), AttrView::Text(req.path@)),
        (spec_key_url_query(), AttrView::Text(req.query@)),
        (spec_key_url_scheme(), AttrView::Text(req.scheme@)),
        (spec_key_user_agent(), AttrView::Text(req.user_agent@)),
    ]
}

/// The semantic attributes of an outbound (client) span, before
/// baggage: the route template is the low-cardinality grouping key and
/// stands apart from the literal path inside the full URL.
pub open spec fn spec_outbound_attrs(req: OutboundRequest, service: Seq<u8>) -> Seq<
    (Seq<u8>, AttrView),
> {
    seq![
        (spec_key_service_name(), AttrView::Text(service)),
        (spec_key_http_request_method(), AttrView::Text(req.method@)),
        (spec_key_server_address(), AttrView::Text(req.host@)),
    ] + (match req.port {
        Some(p) => seq![(spec_key_server_port(), AttrView::Uint(p as u64))],
        None => Seq::<(Seq<u8>, AttrView)>::empty(),
    }) + seq![(spec_key_url_full(), AttrView::Text(spec_url_full(req)))] + (match req
        .route_template {
        Some(t) => seq![(spec_key_url_template(), AttrView::Text(t@))],
        None => Seq::<(Seq<u8>, AttrView)>::empty(),
    })
}

/// The baggage enrichment hook: copies every baggage entry onto the
/// span as a text attribute, exactly once per span.  Re-invoking it on
/// a span that was already enriched changes nothing.
pub fn apply_baggage(span: &mut Span, baggage: &Vec<(Vec<u8>, Vec<u8>)>)
    ensures
        old(span).baggage_applied ==> *final(span) == *old(span),
        !old(span).baggage_applied ==> {
            &&& attrs_view(final(span).attributes@) == attrs_view(old(span).attributes@)
                + spec_stamped(entries_view(baggage@))
            &&& final(span).baggage_applied
            &&& final(span).name == old(span).name
            &&& final(span).kind == old(span).kind
            &&& final(span).start_ms == old(span).start_ms
            &&& final(span).end_ms == old(span).end_ms
            &&& final(span).status == old(span).status
            &&& final(span).context == old(span).context
            &&& final(span).parent == old(span).parent
        },
{
    if span.baggage_applied {
        return ;
    }
    let ghost stamped = spec_stamped(entries_view(baggage@));
    let n = baggage.len();
    let mut i: usize = 0;
    proof {
        assert(attrs_view(span.attributes@) =~= attrs_view(old(span).attributes@)
            + stamped.take(0));
    }
    while i < n
        invariant
            i <= n,
            n == baggage@.len(),
            stamped == spec_stamped(entries_view(baggage@)),
            attrs_view(span.attributes@) == attrs_view(old(span).attributes@) + stamped.take(
                i as int,
            ),
            span.name == old(span).name,
            span.kind == old(span).kind,
            span.start_ms == old(span).start_ms,
            span.end_ms == old(span).end_ms,
            span.status == old(span).status,
            span.context == old(span).context,
            span.parent == old(span).parent,
            span.baggage_applied == old(span).baggage_applied,
        decreases n - i,
    {
        let k = slice_to_vec(baggage[i].0.as_slice());
        let v = slice_to_vec(baggage[i].1.as_slice());
        let ghost before = span.attributes@;
        span.attributes.push((k, AttrValue::Text(v)));
        proof {
            assert(stamped[i as int] == (baggage@[i as int].0@, AttrView::Text(
                baggage@[i as int].1@,
            )));
            assert(stamped.take(i + 1) =~= stamped.take(i as int).push(stamped[i as int]));
            assert(attrs_view(span.attributes@) =~= attrs_view(before).push(stamped[i as int]));
            assert(attrs_view(old(span).attributes@) + stamped.take(i as int).push(
                stamped[i as int],
            ) =~= (attrs_view(old(span).attributes@) + stamped.take(i as int)).push(
                stamped[i as int],
            ));
        }
        i = i + 1;
    }
    span.baggage_applied = true;
    proof {
        assert(stamped.take(n as int) =~= stamped);
    }
}

/// The outcome an exchange finished with: a numeric response code, or a
/// transport-level failure with no response at all.
#[derive(Debug, Clone, PartialEq, Eq)]
pub enum Outcome {
    Status(u16),
    Failure(Vec<u8>),
}

/// What finishing a span reports back for the finish log record: the
/// level to log at, the measured latency, and the status code if one
/// was obtained.
#[derive(Debug, Clone, PartialEq, Eq)]
pub struct FinishReport {
    pub level: Level,
    pub latency_ms: u64,
    pub status_code: Option<u16>,
}

impl Span {
    /// Closes the span: records the end time and the elapsed latency,
    /// stores the final status code as an attribute when one exists,
    /// and maps the outcome onto the span status.  A code of 400 or
    /// above, or a transport failure, is an error and raises the
    /// finish-record level to error; otherwise the span completed
    /// successfully and the level stays at info.
    pub fn finish(&mut self, outcome: &Outcome, now_ms: u64) -> (r: FinishReport)
        ensures
            final(self).end_ms == Some(now_ms),
            r.latency_ms == if now_ms >= old(self).start_ms {
                now_ms - old(self).start_ms
            } else {
                0
            },
            final(self).name == old(self).name,
            final(self).kind == old(self).kind,
            final(self).start_ms == old(self).start_ms,
            final(self).context == old(self).context,
            final(self).parent == old(self).parent,
            final(self).baggage_applied == old(self).baggage_applied,
            match *outcome {
                Outcome::Status(code) => {
                    &&& attrs_view(final(self).attributes@) == attrs_view(
                        old(self).attributes@,
                    ).push((spec_key_status_code(), AttrView::Uint(code as u64)))
                    &&& r.status_code == Some(code)
                    &&& code >= 400 ==> (final(self).status matches SpanStatus::Error {
                        description,
                    } && description@ == spec_http_error_desc(code)) && r.level == Level::Error
                    &&& code < 400 ==> final(self).status == SpanStatus::Okay && r.level
                        == Level::Info
                },
                Outcome::Failure(ref msg) => {
                    &&& attrs_view(final(self).attributes@) == attrs_view(old(self).attributes@)
                    &&& (final(self).status matches SpanStatus::Error { description }
                        && description@ == msg@)
                    &&& r.level == Level::Error
                    &&& r.status_code is None
                },
            },
    {
        self.end_ms = Some(now_ms);
        let latency_ms = if now_ms >= self.start_ms {
            now_ms - self.start_ms
        } else {
            0
        };
        match outcome {
            Outcome::Status(code) => {
                let ghost before = self.attributes@;
                self.attributes.push((key_status_code(), AttrValue::Uint(*code as u64)));
                proof {
                    assert(attrs_view(self.attributes@) =~= attrs_view(before).push(
                        (spec_key_status_code(), AttrView::Uint(*code as u64)),
                    ));
                }
                if *code >= 400 {
                    let mut description = http_error_prefix();
                    let digits = u64_dec(*code as u64);
                    vec_extend(&mut description, digits.as_slice());
                    self.status = SpanStatus::Error { description };
                    FinishReport { level: Level::Error, latency_ms, status_code: Some(*code) }
                } else {
                    self.status = SpanStatus::Okay;
                    FinishReport { level: Level::Info, latency_ms, status_code: Some(*code) }
                }
            },
            Outcome::Failure(msg) => {
                let description = slice_to_vec(msg.as_slice());
                self.status = SpanStatus::Error { description };
                FinishReport { level: Level::Error, latency_ms, status_code: None }
            },
        }
    }
}

/// The span lifecycle manager: carries the service identity that labels
/// every span and the state from which fresh identifiers are minted.
/// Constructed once at process start and passed explicitly; it holds no
/// process-wide mutable state.
pub struct Tracer {
    pub service: Vec<u8>,
    pub state: u64,
}

impl Tracer {
    /// A manager for the given service identity, seeded for identifier
    /// minting.
    pub fn new(service: Vec<u8>, seed: u64) -> (t: Tracer)
        ensures
            t.service == service,
    {
        Tracer { service, state: seed }
    }

    /// One step of the identifier stream.
    fn next_raw(&mut self) -> (r: u64)
        ensures
            final(self).service == old(self).service,
    {
        let mut x = self.state;
        x = x ^ (x << 13);
        x = x ^ (x >> 7);
        x = x ^ (x << 17);
        self.state = x.wrapping_add(0x9e3779b97f4a7c15);
        self.state
    }

    /// A fresh non-zero span identifier.
    pub fn mint_span_id(&mut self) -> (r: u64)
        ensures
            r != 0,
            final(self).service == old(self).service,
    {
        let x = self.next_raw();
        if x == 0 {
            1
        } else {
            x
        }
    }

    /// A fresh non-zero trace identifier.
    pub fn mint_trace_id(&mut self) -> (r: u128)
        ensures
            r != 0,
            final(self).service == old(self).service,
    {
        let hi = self.next_raw();
        let lo = self.next_raw();
        proof {
            assert((hi as u128) * 0x10000000000000000u128
                <= 0xffffffffffffffff0000000000000000u128) by (nonlinear_arith)
                requires
                    hi <= 0xffffffffffffffffu64,
            ;
        }
        let wide: u128 = (hi as u128) * 0x10000000000000000u128 + (lo as u128);
        if wide == 0 {
            1
        } else {
            wide
        }
    }

    /// A fresh non-zero span identifier different from `avoid`.
    fn fresh_span_id(&mut self, avoid: Option<u64>) -> (r: u64)
        ensures
            r != 0,
            avoid matches Some(a) ==> r != a,
            final(self).service == old(self).service,
    {
        let candidate = self.mint_span_id();
        match avoid {
            Some(a) => if candidate == a {
                if a == 1 {
                    2
                } else {
                    1
                }
            } else {
                candidate
            },
            None => candidate,
        }
    }

    /// Starts a server span for an inbound call: extracts the parent
    /// context and the baggage from the carrier, names the span
    /// `{method} {route}`, records the semantic attributes, stamps the
    /// baggage, and returns the span together with the extracted
    /// baggage as the unit of work's own context.  A span started under
    /// a parent inherits the parent's trace identifier and gets a span
    /// identifier different from the parent's; without a parent it
    /// roots a new, sampled trace.
    pub fn start_inbound(&mut self, req: &InboundRequest, carrier: &Carrier, now_ms: u64) -> (r: (
        Span,
        Vec<(Vec<u8>, Vec<u8>)>,
    ))
        ensures
            final(self).service == old(self).service,
            entries_view(r.1@) == spec_extract_baggage(carrier.contents()),
            r.0.kind == SpanKind::Server,
            r.0.name@ == spec_span_name(req.method@, req.route@),
            r.0.start_ms == now_ms,
            r.0.end_ms is None,
            r.0.status == SpanStatus::Unset,
            r.0.baggage_applied,
            r.0.parent == spec_extract_context(carrier.contents()),
            r.0.context.is_valid(),
            r.0.parent matches Some(p) ==> r.0.context.trace_id == p.trace_id
                && r.0.context.span_id != p.span_id && r.0.context.sampled == p.sampled,
            r.0.parent is None ==> r.0.context.sampled,
            attrs_view(r.0.attributes@) == spec_inbound_attrs(*req, old(self).service@)
                + spec_stamped(spec_extract_baggage(carrier.contents())),
    {
        let (parent, bag) = extract(carrier);
        let (trace_id, sampled, avoid) = match &parent {
            Some(p) => (p.trace_id, p.sampled, Some(p.span_id)),
            None => (self.mint_trace_id(), true, None),
        };
        let span_id = self.fresh_span_id(avoid);
        let context = TraceContext { trace_id, span_id, sampled };
        let mut attributes: Vec<(Vec<u8>, AttrValue)> = Vec::new();
        attributes.push(
            (key_service_name(), AttrValue::Text(slice_to_vec(self.service.as_slice()))),
        );
        attributes.push(
            (key_client_address(), AttrValue::Text(slice_to_vec(req.client_address.as_slice()))),
        );
        attributes.push(
            (key_http_request_method(), AttrValue::Text(slice_to_vec(req.method.as_slice()))),
        );
        attributes.push((key_http_route(), AttrValue::Text(slice_to_vec(req.route.as_slice()))));
        attributes.push(
            (
                key_network_protocol_version(),
                AttrValue::Text(slice_to_vec(req.protocol_version.as_slice())),
            ),
        );
        attributes.push((key_url_path(), AttrValue::Text(slice_to_vec(req.path.as_slice()))));
        attributes.push((key_url_query(), AttrValue::Text(slice_to_vec(req.query.as_slice()))));
        attributes.push((key_url_scheme(), AttrValue::Text(slice_to_vec(req.scheme.as_slice()))));
        attributes.push(
            (key_user_agent(), AttrValue::Text(slice_to_vec(req.user_agent.as_slice()))),
        );
        proof {
            assert(attrs_view(attributes@) =~~= spec_inbound_attrs(*req, old(self).service@));
        }
        let name = span_name(req.method.as_slice(), req.route.as_slice());
        let mut span = Span {
            name,
            kind: SpanKind::Server,
            start_ms: now_ms,
            end_ms: None,
            attributes,
            status: SpanStatus::Unset,
            context,
            parent,
            baggage_applied: false,
        };
        apply_baggage(&mut span, &bag);
        (span, bag)
    }

    /// Starts a client span for an outbound call as a child of the
    /// current context (or as a new root), names it `{method}
    /// {route_template}` with the literal path as fallback, records the
    /// semantic attributes, stamps the baggage, and returns the span
    /// together with a fresh carrier into which the new span's context
    /// and the baggage have been injected.
    pub fn start_outbound(
        &mut self,
        req: &OutboundRequest,
        current: Option<&TraceContext>,
        baggage: &Vec<(Vec<u8>, Vec<u8>)>,
        now_ms: u64,
    ) -> (r: (Span, Carrier))
        requires
            current matches Some(c) ==> c.is_valid(),
        ensures
            final(self).service == old(self).service,
            r.0.kind == SpanKind::Client,
            r.0.name@ == spec_span_name(
                req.method@,
                match req.route_template {
                    Some(t) => t@,
                    None => req.path@,
                },
            ),
            r.0.start_ms == now_ms,
            r.0.end_ms is None,
            r.0.status == SpanStatus::Unset,
            r.0.baggage_applied,
            r.0.parent == (match current {
                Some(c) => Some(*c),
                None => None::<TraceContext>,
            }),
            r.0.context.is_valid(),
            current matches Some(c) ==> r.0.context.trace_id == c.trace_id
                && r.0.context.span_id != c.span_id && r.0.context.sampled == c.sampled,
            current is None ==> r.0.context.sampled,
            r.1.spec_get(spec_traceparent_key()) == Some(spec_traceparent(r.0.context)),
            baggage@.len() > 0 ==> r.1.spec_get(spec_baggage_key()) == Some(
                spec_encode_baggage(entries_view(baggage@)),
            ),
            baggage@.len() == 0 ==> r.1.spec_get(spec_baggage_key()) is None,
            attrs_view(r.0.attributes@) == spec_outbound_attrs(*req, old(self).service@)
                + spec_stamped(entries_view(baggage@)),
    {
        let (trace_id, sampled, avoid) = match current {
            Some(c) => (c.trace_id, c.sampled, Some(c.span_id)),
            None => (self.mint_trace_id(), true, None),
        };
        let span_id = self.fresh_span_id(avoid);
        let context = TraceContext { trace_id, span_id, sampled };
        let mut attributes: Vec<(Vec<u8>, AttrValue)> = Vec::new();
        attributes.push(
            (key_service_name(), AttrValue::Text(slice_to_vec(self.service.as_slice()))),
        );
        attributes.push(
            (key_http_request_method(), AttrValue::Text(slice_to_vec(req.method.as_slice()))),
        );
        attributes.push(
            (key_server_address(), AttrValue::Text(slice_to_vec(req.host.as_slice()))),
        );
        match &req.port {
            Some(p) => {
                attributes.push((key_server_port(), AttrValue::Uint(*p as u64)));
            },
            None => {},
        }
        let mut url = slice_to_vec(req.scheme.as_slice());
        url.push(0x3a);
        url.push(0x2f);
        url.push(0x2f);
        vec_extend(&mut url, req.host.as_slice());
        match &req.port {
            Some(p) => {
                url.push(0x3a);
                let digits = u64_dec(*p as u64);
                vec_extend(&mut url, digits.as_slice());
            },
            None => {},
        }
        vec_extend(&mut url, req.path.as_slice());
        match &req.query {
            Some(q) => {
                url.push(0x3f);
                vec_extend(&mut url, q.as_slice());
            },
            None => {},
        }
        proof {
            assert(url@ =~= spec_url_full(*req));
        }
        attributes.push((key_url_full(), AttrValue::Text(url)));
        match &req.route_template {
            Some(t) => {
                attributes.push((key_url_template(), AttrValue::Text(slice_to_vec(t.as_slice()))));
            },
            None => {},
        }
        proof {
            assert(attrs_view(attributes@) =~~= spec_outbound_attrs(*req, old(self).service@));
        }
        let name = match &req.route_template {
            Some(t) => span_name(req.method.as_slice(), t.as_slice()),
            None => span_name(req.method.as_slice(), req.path.as_slice()),
        };
        let parent = match current {
            Some(c) => Some(*c),
            None => None,
        };
        let mut span = Span {
            name,
            kind: SpanKind::Client,
            start_ms: now_ms,
            end_ms: None,
            attributes,
            status: SpanStatus::Unset,
            context,
            parent,
            baggage_applied: false,
        };
        apply_baggage(&mut span, baggage);
        let mut carrier = Carrier::new();
        inject(&span.context, baggage, &mut carrier);
        proof {
            if baggage@.len() == 0 {
                assert(crate::propagate::spec_lookup(
                    Seq::<(Seq<u8>, Seq<u8>)>::empty(),
                    spec_baggage_key(),
                ) is None);
            }
        }
        (span, carrier)
    }
}

/// One parent/child step of the span tree as the start functions build
/// it: the child was started under the parent's context and inherited
/// its trace identifier.
pub open spec fn spec_child_of(child: Span, parent: Span) -> bool {
    child.parent == Some(parent.context) && child.context.trace_id == parent.context.trace_id
}

/// Along any chain of spans each started under the one before it,
/// every span carries the root's trace identifier: resolving the
/// nearest active span therefore gives the same trace identifier as
/// walking to the root of its chain.
pub proof fn lemma_chain_shares_trace_id(chain: Seq<Span>)
    requires
        chain.len() > 0,
        forall|i: int| 0 < i < chain.len() ==> spec_child_of(#[trigger] chain[i], chain[i - 1]),
    ensures
        forall|i: int|
            0 <= i < chain.len() ==> #[trigger] chain[i].context.trace_id
                == chain[0].context.trace_id,
    decreases chain.len(),
{
    if chain.len() > 1 {
        let shorter = chain.drop_last();
        assert forall|i: int| 0 < i < shorter.len() implies spec_child_of(
            #[trigger] shorter[i],
            shorter[i - 1],
        ) by {
            assert(shorter[i] == chain[i]);
            assert(shorter[i - 1] == chain[i - 1]);
        }
        lemma_chain_shares_trace_id(shorter);
        assert forall|i: int| 0 <= i < chain.len() implies #[trigger] chain[i].context.trace_id
            == chain[0].context.trace_id by {
            if i < chain.len() - 1 {
                assert(chain[i] == shorter[i]);
            } else {
                assert(spec_child_of(chain[i], chain[i - 1]));
                assert(chain[i - 1] == shorter[i - 1]);
            }
        }
    }
}

} // verus!
