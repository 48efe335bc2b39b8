//! Log correlator: turns every log event into one self-contained JSON
//! record, stamped with the active span's trace and span identifiers
//! when a span is active, and with both fields omitted when none is.
//!
//! One compact JSON object per event, fields in a stable order:
//! message, level, timestamp, trace_id, span_id, attributes; the
//! trace_id, span_id and attributes fields are omitted entirely when
//! empty.

use vstd::prelude::*;
use crate::attr::{AttrValue, AttrView, attrs_view};
use crate::bytes::{
    spec_hex_digit, spec_dec, spec_dec_i64, spec_to_hex, hex_digit, u64_dec, i64_dec, to_hex,
    vec_extend,
};
use crate::propagate::TraceContext;

verus! {

/// The severity of a log event.
#[derive(Clone, Copy, PartialEq, Eq, Structural, Debug)]
pub enum Level {
    Trace,
    Debug,
    Info,
    Warn,
    Error,
}

impl Level {
    /// The lowercase name the serialized record carries.
    pub open spec fn spec_name(self) -> Seq<u8> {
        match self {
            Level::Trace => seq![0x74u8, 0x72u8, 0x61u8, 0x63u8, 0x65u8],
            Level::Debug => seq![0x64u8, 0x65u8, 0x62u8, 0x75u8, 0x67u8],
            Level::Info => seq![0x69u8, 0x6eu8, 0x66u8, 0x6fu8],
            Level::Warn => seq![0x77u8, 0x61u8, 0x72u8, 0x6eu8],
            Level::Error => seq![0x65u8, 0x72u8, 0x72u8, 0x6fu8, 0x72u8],
        }
    }

    /// The lowercase name, as bytes.
    pub fn name(&self) -> (r: Vec<u8>)
        ensures
            r@ == self.spec_name(),
    {
        let r: Vec<u8> = match self {
            Level::Trace => vec![0x74, 0x72, 0x61, 0x63, 0x65],
            Level::Debug => vec![0x64, 0x65, 0x62, 0x75, 0x67],
            Level::Info => vec![0x69, 0x6e, 0x66, 0x6f],
            Level::Warn => vec![0x77, 0x61, 0x72, 0x6e],
            Level::Error => vec![0x65, 0x72, 0x72, 0x6f, 0x72],
        };
        proof {
            assert(r@ =~= self.spec_name());
        }
        r
    }
}

/// Opening of a log record up to the message: `{"message":"`.
pub open spec fn spec_j_open() -> Seq<u8> {
    seq![0x7bu8, 0x22u8, 0x6du8, 0x65u8, 0x73u8, 0x73u8, 0x61u8, 0x67u8, 0x65u8, 0x22u8, 0x3au8, 0x22u8]
}

/// Opening of a log record up to the message, as bytes.
pub fn j_open() -> (r: Vec<u8>)
    ensures
        r@ == spec_j_open(),
{
    let r: Vec<u8> = vec![0x7b, 0x22, 0x6d, 0x65, 0x73, 0x73, 0x61, 0x67, 0x65, 0x22, 0x3a, 0x22];
    proof {
        assert(r@ =~= spec_j_open());
    }
    r
}

/// Separator between message and level: `","level":"`.
pub open spec fn spec_j_level() -> Seq<u8> {
    seq![0x22u8, 0x2cu8, 0x22u8, 0x6cu8, 0x65u8, 0x76u8, 0x65u8, 0x6cu8, 0x22u8, 0x3au8, 0x22u8]
}

/// Separator between message and level, as bytes.
pub fn j_level() -> (r: Vec<u8>)
    ensures
        r@ == spec_j_level(),
{
    let r: Vec<u8> = vec![0x22, 0x2c, 0x22, 0x6c, 0x65, 0x76, 0x65, 0x6c, 0x22, 0x3a, 0x22];
    proof {
        assert(r@ =~= spec_j_level());
    }
    r
}

/// Separator between level and timestamp: `","timestamp":`.
pub open spec fn spec_j_timestamp() -> Seq<u8> {
    seq![0x22u8, 0x2cu8, 0x22u8, 0x74u8, 0x69u8, 0x6du8, 0x65u8, 0x73u8, 0x74u8, 0x61u8, 0x6du8, 0x70u8, 0x22u8, 0x3au8]
}

/// Separator between level and timestamp, as bytes.
pub fn j_timestamp() -> (r: Vec<u8>)
    ensures
        r@ == spec_j_timestamp(),
{
    let r: Vec<u8> = vec![0x22, 0x2c, 0x22, 0x74, 0x69, 0x6d, 0x65, 0x73, 0x74, 0x61, 0x6d, 0x70, 0x22, 0x3a];
    proof {
        assert(r@ =~= spec_j_timestamp());
    }
    r
}

/// Opening of the trace-id field: `,"trace_id":"`.
pub open spec fn spec_j_trace_id() -> Seq<u8> {
    seq![0x2cu8, 0x22u8, 0x74u8, 0x72u8, 0x61u8, 0x63u8, 0x65u8, 0x5fu8, 0x69u8, 0x64u8, 0x22u8, 0x3au8, 0x22u8]
}

/// Opening of the trace-id field, as bytes.
pub fn j_trace_id() -> (r: Vec<u8>)
    ensures
        r@ == spec_j_trace_id(),
{
    let r: Vec<u8> = vec![0x2c, 0x22, 0x74, 0x72, 0x61, 0x63, 0x65, 0x5f, 0x69, 0x64, 0x22, 0x3a, 0x22];
    proof {
        assert(r@ =~= spec_j_trace_id());
    }
    r
}

/// Opening of the span-id field: `,"span_id":"`.
pub open spec fn spec_j_span_id() -> Seq<u8> {
    seq![0x2cu8, 0x22u8, 0x73u8, 0x70u8, 0x61u8, 0x6eu8, 0x5fu8, 0x69u8, 0x64u8, 0x22u8, 0x3au8, 0x22u8]
}

/// Opening of the span-id field, as bytes.
pub fn j_span_id() -> (r: Vec<u8>)
    ensures
        r@ == spec_j_span_id(),
{
    let r: Vec<u8> = vec![0x2c, 0x22, 0x73, 0x70, 0x61, 0x6e, 0x5f, 0x69, 0x64, 0x22, 0x3a, 0x22];
    proof {
        assert(r@ =~= spec_j_span_id());
    }
    r
}

/// Opening of the attributes object: `,"attributes":{`.
pub open spec fn spec_j_attributes() -> Seq<u8> {
    seq![0x2cu8, 0x22u8, 0x61u8, 0x74u8, 0x74u8, 0x72u8, 0x69u8, 0x62u8, 0x75u8, 0x74u8, 0x65u8, 0x73u8, 0x22u8, 0x3au8, 0x7bu8]
}

/// Opening of the attributes object, as bytes.
pub fn j_attributes() -> (r: Vec<u8>)
    ensures
        r@ == spec_j_attributes(),
{
    let r: Vec<u8> = vec![0x2c, 0x22, 0x61, 0x74, 0x74, 0x72, 0x69, 0x62, 0x75, 0x74, 0x65, 0x73, 0x22, 0x3a, 0x7b];
    proof {
        assert(r@ =~= spec_j_attributes());
    }
    r
}

/// The JSON string escaping of a byte string: quote and backslash get a
/// backslash, control bytes become `\u00` escapes, everything else
/// passes through (multi-byte UTF-8 sequences are preserved as-is).
pub open spec fn spec_json_esc(s: Seq<u8>) -> Seq<u8>
    decreases s.len(),
{
    if s.len() == 0 {
        Seq::empty()
    } else {
        (if s[0] == 0x22 {
            seq![0x5cu8, 0x22u8]
        } else if s[0] == 0x5c {
            seq![0x5cu8, 0x5cu8]
        } else if s[0] < 0x20 {
            seq![
                0x5cu8,
                0x75u8,
                0x30u8,
                0x30u8,
                spec_hex_digit((s[0] / 16) as u8),
                spec_hex_digit((s[0] % 16) as u8),
            ]
        } else {
            seq![s[0]]
        }) + spec_json_esc(s.drop_first())
    }
}

/// JSON-escapes a byte string.
pub fn json_escape(s: &[u8]) -> (r: Vec<u8>)
    ensures
        r@ == spec_json_esc(s@),
{
    let n = s.len();
    let mut r: Vec<u8> = Vec::new();
    let mut i: usize = 0;
    proof {
        assert(s@.skip(0) == s@);
    }
    while i < n
        invariant
            i <= n,
            n == s@.len(),
            spec_json_esc(s@) == r@ + spec_json_esc(s@.skip(i as int)),
        decreases n - i,
    {
        let b = s[i];
        let ghost head: Seq<u8> = if b == 0x22 {
            seq![0x5cu8, 0x22u8]
        } else if b == 0x5c {
            seq![0x5cu8, 0x5cu8]
        } else if b < 0x20 {
            seq![
                0x5cu8,
                0x75u8,
                0x30u8,
                0x30u8,
                spec_hex_digit((b / 16) as u8),
                spec_hex_digit((b % 16) as u8),
            ]
        } else {
            seq![b]
        };
        let ghost r0 = r@;
        proof {
            assert(s@.skip(i as int)[0] == s@[i as int]);
            assert(s@.skip(i as int).drop_first() == s@.skip(i + 1));
            assert(spec_json_esc(s@.skip(i as int)) == head + spec_json_esc(s@.skip(i + 1)));
            assert(r0 + (head + spec_json_esc(s@.skip(i + 1))) == (r0 + head) + spec_json_esc(
                s@.skip(i + 1),
            ));
        }
        if b == 0x22 {
            r.push(0x5c);
            r.push(0x22);
        } else if b == 0x5c {
            r.push(0x5c);
            r.push(0x5c);
        } else if b < 0x20 {
            r.push(0x5c);
            r.push(0x75);
            r.push(0x30);
            r.push(0x30);
            r.push(hex_digit(b / 16));
            r.push(hex_digit(b % 16));
        } else {
            r.push(b);
        }
        proof {
            assert(r@ =~= r0 + head);
        }
        i = i + 1;
    }
    proof {
        assert(s@.skip(n as int) =~= Seq::<u8>::empty());
        assert(r@ + Seq::<u8>::empty() == r@);
    }
    r
}

/// The JSON rendering of one attribute value.
pub open spec fn spec_render_value(v: AttrView) -> Seq<u8> {
    match v {
        AttrView::Text(t) => seq![0x22u8] + spec_json_esc(t) + seq![0x22u8],
        AttrView::Int(i) => spec_dec_i64(i as int),
        AttrView::Uint(u) => spec_dec(u as nat),
        AttrView::Flag(b) => if b {
            seq![0x74u8, 0x72u8, 0x75u8, 0x65u8]
        } else {
            seq![0x66u8, 0x61u8, 0x6cu8, 0x73u8, 0x65u8]
        },
    }
}

/// The JSON rendering of the attribute object's members.
pub open spec fn spec_render_attrs(attrs: Seq<(Seq<u8>, AttrView)>) -> Seq<u8>
    decreases attrs.len(),
{
    if attrs.len() == 0 {
        Seq::empty()
    } else if attrs.len() == 1 {
        spec_render_pair(attrs[0])
    } else {
        spec_render_pair(attrs[0]) + seq![0x2cu8] + spec_render_attrs(attrs.drop_first())
    }
}

/// The JSON rendering of one attribute member: `"key":value`.
pub open spec fn spec_render_pair(a: (Seq<u8>, AttrView)) -> Seq<u8> {
    seq![0x22u8] + spec_json_esc(a.0) + seq![0x22u8, 0x3au8] + spec_render_value(a.1)
}

/// A structured log event at the moment of emission: message, severity,
/// wall-clock timestamp in milliseconds, the identifiers of the active
/// span if one was active, and free-form attributes.  Serialized at
/// once and never retained.
pub struct LogEvent {
    pub message: Vec<u8>,
    pub level: Level,
    pub timestamp_ms: u64,
    pub trace_id: Option<Vec<u8>>,
    pub span_id: Option<Vec<u8>>,
    pub attributes: Vec<(Vec<u8>, AttrValue)>,
}

/// The serialized form of a log event: one compact JSON object with the
/// fields in stable order, the identifier and attribute fields omitted
/// entirely when empty.
pub open spec fn spec_render(e: LogEvent) -> Seq<u8> {
    spec_j_open() + spec_json_esc(e.message@) + spec_j_level() + e.level.spec_name()
        + spec_j_timestamp() + spec_dec(e.timestamp_ms as nat) + (match e.trace_id {
        Some(t) => spec_j_trace_id() + spec_json_esc(t@) + seq![0x22u8],
        None => Seq::<u8>::empty(),
    }) + (match e.span_id {
        Some(t) => spec_j_span_id() + spec_json_esc(t@) + seq![0x22u8],
        None => Seq::<u8>::empty(),
    }) + (if e.attributes@.len() == 0 {
        Seq::<u8>::empty()
    } else {
        spec_j_attributes() + spec_render_attrs(attrs_view(e.attributes@)) + seq![0x7du8]
    }) + seq![0x7du8]
}

/// Renders one attribute value as JSON.
pub fn render_value(v: &AttrValue) -> (r: Vec<u8>)
    ensures
        r@ == spec_render_value(v@),
{
    match v {
        AttrValue::Text(t) => {
            let mut r: Vec<u8> = Vec::new();
            r.push(0x22);
            let esc = json_escape(t.as_slice());
            vec_extend(&mut r, esc.as_slice());
            r.push(0x22);
            proof {
                assert(r@ =~= spec_render_value(v@));
            }
            r
        },
        AttrValue::Int(i) => i64_dec(*i),
        AttrValue::Uint(u) => u64_dec(*u),
        AttrValue::Flag(b) => {
            let r: Vec<u8> = if *b {
                vec![0x74, 0x72, 0x75, 0x65]
            } else {
                vec![0x66, 0x61, 0x6c, 0x73, 0x65]
            };
            proof {
                assert(r@ =~= spec_render_value(v@));
            }
            r
        },
    }
}

/// Renders the members of the attributes object.
pub fn render_attrs(attrs: &Vec<(Vec<u8>, AttrValue)>) -> (r: Vec<u8>)
    ensures
        r@ == spec_render_attrs(attrs_view(attrs@)),
{
    let n = attrs.len();
    let view = Ghost(attrs_view(attrs@));
    let mut r: Vec<u8> = Vec::new();
    let mut i: usize = 0;
    proof {
        assert(view@.skip(0) =~= view@);
    }
    while i < n
        invariant
            i <= n,
            n == attrs@.len(),
            view@ == attrs_view(attrs@),
            spec_render_attrs(view@) == r@ + spec_render_attrs(view@.skip(i as int)),
        decreases n - i,
    {
        proof {
            assert(view@.skip(i as int)[0] == view@[i as int]);
            assert(view@.skip(i as int).drop_first() == view@.skip(i + 1));
        }
        r.push(0x22);
        let k = json_escape(attrs[i].0.as_slice());
        vec_extend(&mut r, k.as_slice());
        r.push(0x22);
        r.push(0x3a);
        let v = render_value(&attrs[i].1);
        vec_extend(&mut r, v.as_slice());
        proof {
            assert(spec_render_pair(view@[i as int]) =~= seq![0x22u8] + spec_json_esc(
                attrs@[i as int].0@,
            ) + seq![0x22u8, 0x3au8] + spec_render_value(attrs@[i as int].1@));
        }
        if i + 1 < n {
            r.push(0x2c);
            proof {
                let t = view@.skip(i as int);
                assert(t.len() >= 2);
                assert(spec_render_attrs(t) == spec_render_pair(t[0]) + seq![0x2cu8]
                    + spec_render_attrs(t.drop_first()));
            }
        } else {
            proof {
                let t = view@.skip(i as int);
                assert(t.len() == 1);
                assert(spec_render_attrs(t) == spec_render_pair(t[0]));
            }
        }
        proof {
            assert(spec_render_attrs(view@) =~= r@ + spec_render_attrs(view@.skip(i + 1)));
        }
        i = i + 1;
    }
    proof {
        if n == 0 {
            assert(spec_render_attrs(view@) =~= Seq::<u8>::empty());
        }
        assert(view@.skip(n as int) =~= Seq::<(Seq<u8>, AttrView)>::empty());
        assert(spec_render_attrs(view@.skip(n as int)) =~= Seq::<u8>::empty());
        assert(r@ =~= r@ + Seq::<u8>::empty());
    }
    r
}

/// Builds a log event, stamping it with the active span's identifiers.
/// The event carries trace and span identifiers (as lowercase
/// hexadecimal) exactly when a span is active at emission.
pub fn make_event(
    message: Vec<u8>,
    level: Level,
    attributes: Vec<(Vec<u8>, AttrValue)>,
    active: Option<&TraceContext>,
    now_ms: u64,
) -> (e: LogEvent)
    ensures
        e.message == message,
        e.level == level,
        e.timestamp_ms == now_ms,
        e.attributes == attributes,
        match active {
            Some(c) => {
                &&& e.trace_id matches Some(t) && t@ == spec_to_hex(c.trace_id, 32)
                &&& e.span_id matches Some(si) && si@ == spec_to_hex(c.span_id as u128, 16)
            },
            None => e.trace_id is None && e.span_id is None,
        },
{
    match active {
        Some(c) => LogEvent {
            message,
            level,
            timestamp_ms: now_ms,
            trace_id: Some(to_hex(c.trace_id, 32)),
            span_id: Some(to_hex(c.span_id as u128, 16)),
            attributes,
        },
        None => LogEvent {
            message,
            level,
            timestamp_ms: now_ms,
            trace_id: None,
            span_id: None,
            attributes,
        },
    }
}

/// Serializes a log event as one compact JSON record.
pub fn render_event(e: &LogEvent) -> (r: Vec<u8>)
    ensures
        r@ == spec_render(*e),
{
    let mut r = j_open();
    let msg = json_escape(e.message.as_slice());
    vec_extend(&mut r, msg.as_slice());
    let sep_level = j_level();
    vec_extend(&mut r, sep_level.as_slice());
    let name = e.level.name();
    vec_extend(&mut r, name.as_slice());
    let sep_ts = j_timestamp();
    vec_extend(&mut r, sep_ts.as_slice());
    let ts = u64_dec(e.timestamp_ms);
    vec_extend(&mut r, ts.as_slice());
    match &e.trace_id {
        Some(t) => {
            let open_t = j_trace_id();
            vec_extend(&mut r, open_t.as_slice());
            let esc = json_escape(t.as_slice());
            vec_extend(&mut r, esc.as_slice());
            r.push(0x22);
        },
        None => {},
    }
    match &e.span_id {
        Some(t) => {
            let open_s = j_span_id();
            vec_extend(&mut r, open_s.as_slice());
            let esc = json_escape(t.as_slice());
            vec_extend(&mut r, esc.as_slice());
            r.push(0x22);
        },
        None => {},
    }
    if e.attributes.len() > 0 {
        let open_a = j_attributes();
        vec_extend(&mut r, open_a.as_slice());
        let members = render_attrs(&e.attributes);
        vec_extend(&mut r, members.as_slice());
        r.push(0x7d);
    }
    r.push(0x7d);
    proof {
        assert(r@ =~= spec_render(*e));
    }
    r
}

/// Everything of a serialized record before the optional identifiers.
pub open spec fn spec_line_prefix(message: Seq<u8>, level: Level, ts: u64) -> Seq<u8> {
    spec_j_open() + spec_json_esc(message) + spec_j_level() + level.spec_name()
        + spec_j_timestamp() + spec_dec(ts as nat)
}

/// The two identifier fields a correlated record carries.
pub open spec fn spec_id_fields(c: TraceContext) -> Seq<u8> {
    spec_j_trace_id() + spec_json_esc(spec_to_hex(c.trace_id, 32)) + seq![0x22u8]
        + spec_j_span_id() + spec_json_esc(spec_to_hex(c.span_id as u128, 16)) + seq![0x22u8]
}

/// Everything of a serialized record after the optional identifiers.
pub open spec fn spec_line_suffix(attrs: Seq<(Seq<u8>, AttrView)>) -> Seq<u8> {
    (if attrs.len() == 0 {
        Seq::<u8>::empty()
    } else {
        spec_j_attributes() + spec_render_attrs(attrs) + seq![0x7du8]
    }) + seq![0x7du8]
}

/// The whole record for an event emitted with the given active span:
/// the identifier fields stand in the record exactly when a span was
/// active, and then hold that span's trace and span identifiers.
pub open spec fn spec_correlated_line(
    message: Seq<u8>,
    level: Level,
    ts: u64,
    active: Option<TraceContext>,
    attrs: Seq<(Seq<u8>, AttrView)>,
) -> Seq<u8> {
    spec_line_prefix(message, level, ts) + (match active {
        Some(c) => spec_id_fields(c),
        None => Seq::<u8>::empty(),
    }) + spec_line_suffix(attrs)
}

/// The correlation law: a log event emitted while a span with context
/// `c` is active serializes with that span's trace and span identifiers
/// between the common prefix and suffix; one emitted with no active
/// span serializes with both identifier fields absent and is otherwise
/// identical.
pub proof fn lemma_correlation(
    message: Seq<u8>,
    level: Level,
    ts: u64,
    c: TraceContext,
    attrs: Seq<(Seq<u8>, AttrView)>,
)
    ensures
        spec_correlated_line(message, level, ts, Some(c), attrs) == spec_line_prefix(
            message,
            level,
            ts,
        ) + spec_id_fields(c) + spec_line_suffix(attrs),
        spec_correlated_line(message, level, ts, None, attrs) == spec_line_prefix(
            message,
            level,
            ts,
        ) + spec_line_suffix(attrs),
{
    assert(spec_line_prefix(message, level, ts) + Seq::<u8>::empty() + spec_line_suffix(attrs)
        =~= spec_line_prefix(message, level, ts) + spec_line_suffix(attrs));
}

/// The log correlator: intercepts a structured log event, resolves the
/// active span, stamps the event with its identifiers and serializes it
/// as one JSON record.  The caller writes the returned line (plus a
/// newline) to the sink in a single atomic write.
pub struct LogLayer {
}

impl LogLayer {
    /// Correlates and serializes one log event.
    pub fn on_event(
        &self,
        message: Vec<u8>,
        level: Level,
        attributes: Vec<(Vec<u8>, AttrValue)>,
        active: Option<&TraceContext>,
        now_ms: u64,
    ) -> (line: Vec<u8>)
        ensures
            line@ == spec_correlated_line(
                message@,
                level,
                now_ms,
                match active {
                    Some(c) => Some(*c),
                    None => None,
                },
                attrs_view(attributes@),
            ),
    {
        let ghost message_view = message@;
        let ghost attrs_ghost = attrs_view(attributes@);
        let e = make_event(message, level, attributes, active, now_ms);
        let line = render_event(&e);
        proof {
            assert(line@ =~= spec_correlated_line(
                message_view,
                level,
                now_ms,
                match active {
                    Some(c) => Some(*c),
                    None => None,
                },
                attrs_ghost,
            ));
        }
        line
    }
}

} // verus!
