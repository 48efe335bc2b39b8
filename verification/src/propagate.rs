//! Propagator: serializes and deserializes trace context and baggage to
//! and from a carrier, a case-insensitive textual key/value map such as a
//! set of request headers.
//!
//! The trace context travels in one carrier key as
//! `{version}-{trace_id_hex32}-{span_id_hex16}-{flags_hex2}`; baggage
//! travels in a second key as a comma-separated list of `key=value`
//! pairs whose keys and values are percent-encoded.  Malformed carrier
//! data never fails: it yields "no parent" and the well-formed subset of
//! the baggage.

use vstd::prelude::*;
use vstd::arithmetic::power2::pow2;
use crate::bytes::{
    spec_hex_digit, spec_hex_value, is_hex_digit, all_hex, spec_hex_num, spec_to_hex, spec_find,
    spec_lower, lemma_hex_digit_value, lemma_hex_round_trip, lemma_hex_num_bound,
    lemma_to_hex_len, lemma_find_is_first, lemma_first_is_find, lemma_pow2_128, to_hex,
    all_hex_range, hex_num_range, hex_digit, hex_value, is_hex, find_byte, vec_extend,
    eq_ignore_ascii_case,
};

verus! {

/// The byte `%`, which starts a percent-escape.
pub const PERCENT: u8 = 0x25;

/// The byte `,`, which separates baggage entries.
pub const COMMA: u8 = 0x2c;

/// The byte `-`, which separates the traceparent fields.
pub const DASH: u8 = 0x2d;

/// The byte `=`, which separates a baggage key from its value.
pub const EQUALS: u8 = 0x3d;

/// The identity of one span within one trace: a 128-bit trace identifier
/// shared by every span of the trace, a 64-bit span identifier, and the
/// sampling flag.  A context is valid when neither identifier is zero.
#[derive(Clone, Copy, PartialEq, Eq, Structural, Debug)]
pub struct TraceContext {
    pub trace_id: u128,
    pub span_id: u64,
    pub sampled: bool,
}

impl TraceContext {
    /// Both identifiers are non-zero.
    pub open spec fn is_valid(self) -> bool {
        self.trace_id != 0 && self.span_id != 0
    }
}

/// The carrier key that holds the trace context: "traceparent".
pub open spec fn spec_traceparent_key() -> Seq<u8> {
    seq![0x74u8, 0x72u8, 0x61u8, 0x63u8, 0x65u8, 0x70u8, 0x61u8, 0x72u8, 0x65u8, 0x6eu8, 0x74u8]
}

/// The carrier key that holds the baggage: "baggage".
pub open spec fn spec_baggage_key() -> Seq<u8> {
    seq![0x62u8, 0x61u8, 0x67u8, 0x67u8, 0x61u8, 0x67u8, 0x65u8]
}

/// The carrier key that holds the trace context, as bytes.
pub fn traceparent_key() -> (r: Vec<u8>)
    ensures
        r@ == spec_traceparent_key(),
{
    let r: Vec<u8> = vec![0x74, 0x72, 0x61, 0x63, 0x65, 0x70, 0x61, 0x72, 0x65, 0x6e, 0x74];
    proof {
        assert(r@ =~= spec_traceparent_key());
    }
    r
}

/// The carrier key that holds the baggage, as bytes.
pub fn baggage_key() -> (r: Vec<u8>)
    ensures
        r@ == spec_baggage_key(),
{
    let r: Vec<u8> = vec![0x62, 0x61, 0x67, 0x67, 0x61, 0x67, 0x65];
    proof {
        assert(r@ =~= spec_baggage_key());
    }
    r
}

/// The wire rendering of a trace context: version 00, the two
/// identifiers in lowercase hexadecimal, and the flags byte whose low
/// bit is the sampling flag.
pub open spec fn spec_traceparent(c: TraceContext) -> Seq<u8> {
    seq![0x30u8, 0x30u8, DASH] + spec_to_hex(c.trace_id, 32) + seq![DASH] + spec_to_hex(
        c.span_id as u128,
        16,
    ) + seq![DASH, 0x30u8, if c.sampled { 0x31u8 } else { 0x30u8 }]
}

/// Renders a trace context for the carrier.
pub fn format_traceparent(c: &TraceContext) -> (r: Vec<u8>)
    ensures
        r@ == spec_traceparent(*c),
{
    let mut r: Vec<u8> = Vec::new();
    r.push(0x30);
    r.push(0x30);
    r.push(DASH);
    let t = to_hex(c.trace_id, 32);
    vec_extend(&mut r, t.as_slice());
    r.push(DASH);
    let s = to_hex(c.span_id as u128, 16);
    vec_extend(&mut r, s.as_slice());
    r.push(DASH);
    r.push(0x30);
    if c.sampled {
        r.push(0x31);
    } else {
        r.push(0x30);
    }
    proof {
        lemma_to_hex_len(c.trace_id, 32);
        lemma_to_hex_len(c.span_id as u128, 16);
        assert(r@ =~= spec_traceparent(*c));
    }
    r
}

/// What a carrier's trace-context value denotes: a valid context when the
/// value is well formed, and nothing otherwise.  Well formed means: 55
/// bytes, version exactly 00, dashes in the three separator positions,
/// hexadecimal digits elsewhere, and non-zero identifiers.
pub open spec fn spec_parse_traceparent(s: Seq<u8>) -> Option<TraceContext> {
    if s.len() == 55 && s[0] == 0x30 && s[1] == 0x30 && s[2] == DASH && s[35] == DASH && s[52]
        == DASH && all_hex(s.subrange(3, 35)) && all_hex(s.subrange(36, 52)) && all_hex(
        s.subrange(53, 55),
    ) {
        let trace = spec_hex_num(s.subrange(3, 35));
        let span = spec_hex_num(s.subrange(36, 52));
        let flags = spec_hex_num(s.subrange(53, 55));
        if trace != 0 && span != 0 {
            Some(
                TraceContext {
                    trace_id: trace as u128,
                    span_id: span as u64,
                    sampled: flags % 2 == 1,
                },
            )
        } else {
            None
        }
    } else {
        None
    }
}

/// Parses a carrier's trace-context value; malformed input gives `None`.
pub fn parse_traceparent(s: &[u8]) -> (r: Option<TraceContext>)
    ensures
        r == spec_parse_traceparent(s@),
        r is Some ==> r.unwrap().is_valid(),
{
    if s.len() != 55 {
        return None;
    }
    if s[0] != 0x30 || s[1] != 0x30 || s[2] != DASH || s[35] != DASH || s[52] != DASH {
        return None;
    }
    if !all_hex_range(s, 3, 35) || !all_hex_range(s, 36, 52) || !all_hex_range(s, 53, 55) {
        return None;
    }
    let trace_wide = hex_num_range(s, 3, 35);
    let span_wide = hex_num_range(s, 36, 52);
    let flags_wide = hex_num_range(s, 53, 55);
    proof {
        lemma_hex_num_bound(s@.subrange(36, 52));
        vstd::arithmetic::power2::lemma2_to64();
        lemma_hex_num_bound(s@.subrange(3, 35));
        lemma_pow2_128();
    }
    let span_id = span_wide as u64;
    if trace_wide == 0 || span_id == 0 {
        return None;
    }
    Some(TraceContext { trace_id: trace_wide, span_id, sampled: flags_wide % 2 == 1 })
}

/// Rendering a valid context and parsing it back yields the same context.
pub proof fn lemma_traceparent_round_trip(c: TraceContext)
    requires
        c.is_valid(),
    ensures
        spec_parse_traceparent(spec_traceparent(c)) == Some(c),
{
    let s = spec_traceparent(c);
    lemma_to_hex_len(c.trace_id, 32);
    lemma_to_hex_len(c.span_id as u128, 16);
    assert(s.len() == 55);
    assert(s.subrange(3, 35) =~= spec_to_hex(c.trace_id, 32));
    assert(s.subrange(36, 52) =~= spec_to_hex(c.span_id as u128, 16));
    assert(s.subrange(53, 55) =~= seq![0x30u8, if c.sampled { 0x31u8 } else { 0x30u8 }]);
    lemma_pow2_128();
    assert(c.trace_id < pow2(128));
    vstd::arithmetic::power2::lemma2_to64();
    assert((c.span_id as u128) < pow2(64));
    lemma_hex_round_trip(c.trace_id, 32);
    lemma_hex_round_trip(c.span_id as u128, 16);
    let flags = s.subrange(53, 55);
    assert(flags.drop_last() =~= seq![0x30u8]);
    assert(seq![0x30u8].drop_last() =~= Seq::<u8>::empty());
    assert(spec_hex_num(Seq::<u8>::empty()) == 0);
    assert(spec_hex_num(seq![0x30u8]) == spec_hex_num(Seq::<u8>::empty()) * 16 + spec_hex_value(
        0x30,
    ));
    assert(spec_hex_num(flags) == spec_hex_num(flags.drop_last()) * 16 + spec_hex_value(
        flags.last(),
    ));
    assert(spec_hex_num(flags) == if c.sampled { 1int } else { 0int });
}

/// Bytes that must be percent-escaped inside a baggage key or value: the
/// escape byte itself, the two separators, and non-printing bytes.
pub open spec fn is_reserved(b: u8) -> bool {
    b == PERCENT || b == COMMA || b == EQUALS || b <= 0x20 || b == 0x7f
}

/// The percent-escaped rendering of a byte string: reserved bytes become
/// `%` and two lowercase hexadecimal digits; all others pass unchanged.
pub open spec fn spec_esc(s: Seq<u8>) -> Seq<u8>
    decreases s.len(),
{
    if s.len() == 0 {
        Seq::empty()
    } else {
        (if is_reserved(s[0]) {
            seq![PERCENT, spec_hex_digit((s[0] / 16) as u8), spec_hex_digit((s[0] % 16) as u8)]
        } else {
            seq![s[0]]
        }) + spec_esc(s.drop_first())
    }
}

/// What a percent-escaped string denotes, or nothing when an escape is
/// truncated or holds a non-hexadecimal digit.
pub open spec fn spec_unesc(s: Seq<u8>) -> Option<Seq<u8>>
    decreases s.len(),
{
    if s.len() == 0 {
        Some(Seq::empty())
    } else if s[0] == PERCENT {
        if s.len() >= 3 && is_hex_digit(s[1]) && is_hex_digit(s[2]) {
            match spec_unesc(s.skip(3)) {
                Some(r) => Some(
                    seq![(spec_hex_value(s[1]) * 16 + spec_hex_value(s[2])) as u8] + r,
                ),
                None => None,
            }
        } else {
            None
        }
    } else {
        match spec_unesc(s.drop_first()) {
            Some(r) => Some(seq![s[0]] + r),
            None => None,
        }
    }
}

/// Percent-escapes a byte string.
pub fn escape(s: &[u8]) -> (r: Vec<u8>)
    ensures
        r@ == spec_esc(s@),
{
    let n = s.len();
    let mut r: Vec<u8> = Vec::new();
    let mut i: usize = 0;
    proof {
        assert(s@.skip(0) == s@);
    }
    while i < n
        invariant
            i <= n,
            n == s@.len(),
            spec_esc(s@) == r@ + spec_esc(s@.skip(i as int)),
        decreases n - i,
    {
        let b = s[i];
        proof {
            assert(s@.skip(i as int)[0] == s@[i as int]);
            assert(s@.skip(i as int).drop_first() == s@.skip(i + 1));
        }
        if b == PERCENT || b == COMMA || b == EQUALS || b <= 0x20 || b == 0x7f {
            proof {
                let head = seq![
                    PERCENT,
                    spec_hex_digit((b / 16) as u8),
                    spec_hex_digit((b % 16) as u8),
                ];
                assert(spec_esc(s@.skip(i as int)) == head + spec_esc(s@.skip(i + 1)));
                assert(r@ + (head + spec_esc(s@.skip(i + 1))) == (r@ + head) + spec_esc(
                    s@.skip(i + 1),
                ));
                assert(r@.push(PERCENT).push(spec_hex_digit((b / 16) as u8)).push(
                    spec_hex_digit((b % 16) as u8),
                ) == r@ + head);
            }
            r.push(PERCENT);
            r.push(hex_digit(b / 16));
            r.push(hex_digit(b % 16));
        } else {
            proof {
                assert(spec_esc(s@.skip(i as int)) == seq![b] + spec_esc(s@.skip(i + 1)));
                assert(r@ + (seq![b] + spec_esc(s@.skip(i + 1))) == r@.push(b) + spec_esc(
                    s@.skip(i + 1),
                ));
            }
            r.push(b);
        }
        i = i + 1;
    }
    proof {
        assert(s@.skip(n as int) =~= Seq::<u8>::empty());
        assert(r@ + Seq::<u8>::empty() == r@);
    }
    r
}

/// Undoes percent-escaping; malformed escapes give `None`.
pub fn unescape(s: &[u8]) -> (r: Option<Vec<u8>>)
    ensures
        match r {
            Some(v) => spec_unesc(s@) == Some(v@),
            None => spec_unesc(s@) is None,
        },
{
    let n = s.len();
    let mut out: Vec<u8> = Vec::new();
    let mut i: usize = 0;
    proof {
        assert(s@.skip(0) == s@);
        assert(out@ + spec_unesc(s@).unwrap_or(Seq::empty()) == spec_unesc(s@).unwrap_or(
            Seq::empty(),
        ));
    }
    while i < n
        invariant
            i <= n,
            n == s@.len(),
            spec_unesc(s@) == (match spec_unesc(s@.skip(i as int)) {
                Some(t) => Some(out@ + t),
                None => None::<Seq<u8>>,
            }),
        decreases n - i,
    {
        let b = s[i];
        proof {
            assert(s@.skip(i as int)[0] == s@[i as int]);
        }
        if b == PERCENT {
            if n - i < 3 || !is_hex(s[i + 1]) || !is_hex(s[i + 2]) {
                proof {
                    assert(s@.skip(i as int).len() < 3 || s@.skip(i as int)[1] == s@[i + 1]);
                    assert(s@.skip(i as int).len() >= 3 ==> s@.skip(i as int)[2] == s@[i + 2]);
                    assert(spec_unesc(s@.skip(i as int)) is None);
                }
                return None;
            }
            let decoded = hex_value(s[i + 1]) * 16 + hex_value(s[i + 2]);
            proof {
                assert(s@.skip(i as int)[1] == s@[i + 1]);
                assert(s@.skip(i as int)[2] == s@[i + 2]);
                assert(s@.skip(i as int).skip(3) == s@.skip(i + 3));
                if spec_unesc(s@.skip(i + 3)) is Some {
                    let t = spec_unesc(s@.skip(i + 3)).unwrap();
                    assert(spec_unesc(s@.skip(i as int)) == Some(seq![decoded] + t));
                    assert(out@ + (seq![decoded] + t) == out@.push(decoded) + t);
                }
            }
            out.push(decoded);
            i = i + 3;
        } else {
            proof {
                assert(s@.skip(i as int).drop_first() == s@.skip(i + 1));
                if spec_unesc(s@.skip(i + 1)) is Some {
                    let t = spec_unesc(s@.skip(i + 1)).unwrap();
                    assert(spec_unesc(s@.skip(i as int)) == Some(seq![b] + t));
                    assert(out@ + (seq![b] + t) == out@.push(b) + t);
                }
            }
            out.push(b);
            i = i + 1;
        }
    }
    proof {
        assert(s@.skip(n as int) =~= Seq::<u8>::empty());
        assert(spec_unesc(Seq::<u8>::empty()) == Some(Seq::<u8>::empty()));
        assert(out@ + Seq::<u8>::empty() == out@);
    }
    Some(out)
}

/// Escaping then unescaping returns the original byte string.
pub proof fn lemma_unesc_esc(s: Seq<u8>)
    ensures
        spec_unesc(spec_esc(s)) == Some(s),
    decreases s.len(),
{
    if s.len() == 0 {
        assert(spec_esc(s) =~= Seq::<u8>::empty());
    } else {
        let b = s[0];
        let rest = s.drop_first();
        lemma_unesc_esc(rest);
        let e = spec_esc(s);
        if is_reserved(b) {
            let head = seq![
                PERCENT,
                spec_hex_digit((b / 16) as u8),
                spec_hex_digit((b % 16) as u8),
            ];
            assert(e == head + spec_esc(rest));
            assert(e[0] == PERCENT);
            assert(e[1] == spec_hex_digit((b / 16) as u8));
            assert(e[2] == spec_hex_digit((b % 16) as u8));
            lemma_hex_digit_value((b / 16) as u8);
            lemma_hex_digit_value((b % 16) as u8);
            assert(e.skip(3) =~= spec_esc(rest));
            assert((b / 16) * 16 + (b % 16) == b) by (nonlinear_arith);
            assert(spec_unesc(e) == Some(seq![b] + rest));
            assert(seq![b] + rest =~= s);
        } else {
            assert(e == seq![b] + spec_esc(rest));
            assert(e[0] == b && b != PERCENT);
            assert(e.drop_first() =~= spec_esc(rest));
            assert(spec_unesc(e) == Some(seq![b] + rest));
            assert(seq![b] + rest =~= s);
        }
    }
}

/// No byte of an escaped string is a separator, and escapes are intact:
/// escaped strings can be embedded between separators and recovered.
pub proof fn lemma_esc_no_separator(s: Seq<u8>)
    ensures
        forall|j: int|
            0 <= j < spec_esc(s).len() ==> #[trigger] spec_esc(s)[j] != COMMA && spec_esc(s)[j]
                != EQUALS,
    decreases s.len(),
{
    if s.len() > 0 {
        let b = s[0];
        let rest = s.drop_first();
        lemma_esc_no_separator(rest);
        let head: Seq<u8> = if is_reserved(b) {
            seq![PERCENT, spec_hex_digit((b / 16) as u8), spec_hex_digit((b % 16) as u8)]
        } else {
            seq![b]
        };
        assert(spec_esc(s) == head + spec_esc(rest));
        assert forall|j: int|
            0 <= j < spec_esc(s).len() implies #[trigger] spec_esc(s)[j] != COMMA && spec_esc(
            s,
        )[j] != EQUALS by {
            if j < head.len() {
                assert(spec_esc(s)[j] == head[j]);
            } else {
                assert(spec_esc(s)[j] == spec_esc(rest)[j - head.len()]);
            }
        }
    }
}

/// One baggage entry on the wire: escaped key, `=`, escaped value.
pub open spec fn spec_entry(e: (Seq<u8>, Seq<u8>)) -> Seq<u8> {
    spec_esc(e.0) + seq![EQUALS] + spec_esc(e.1)
}

/// The baggage header value: entries separated by commas; empty baggage
/// renders as the empty string.
pub open spec fn spec_encode_baggage(entries: Seq<(Seq<u8>, Seq<u8>)>) -> Seq<u8>
    decreases entries.len(),
{
    if entries.len() == 0 {
        Seq::empty()
    } else if entries.len() == 1 {
        spec_entry(entries[0])
    } else {
        spec_entry(entries[0]) + seq![COMMA] + spec_encode_baggage(entries.drop_first())
    }
}

/// The pieces of `s` between occurrences of `sep`; always at least one.
pub open spec fn spec_split(s: Seq<u8>, sep: u8) -> Seq<Seq<u8>>
    decreases s.len(),
{
    if s.len() == 0 {
        seq![Seq::<u8>::empty()]
    } else if s[0] == sep {
        seq![Seq::<u8>::empty()] + spec_split(s.drop_first(), sep)
    } else {
        let r = spec_split(s.drop_first(), sep);
        seq![seq![s[0]] + r[0]] + r.drop_first()
    }
}

pub proof fn lemma_split_nonempty(s: Seq<u8>, sep: u8)
    ensures
        spec_split(s, sep).len() >= 1,
    decreases s.len(),
{
    if s.len() > 0 {
        lemma_split_nonempty(s.drop_first(), sep);
    }
}

/// Splitting at the first separator takes the prefix off whole.
pub proof fn lemma_split_at_first(s: Seq<u8>, sep: u8)
    requires
        spec_find(s, sep) is Some,
    ensures
        0 <= spec_find(s, sep).unwrap() < s.len(),
        spec_split(s, sep) == seq![s.take(spec_find(s, sep).unwrap())] + spec_split(
            s.skip(spec_find(s, sep).unwrap() + 1),
            sep,
        ),
    decreases s.len(),
{
    lemma_find_is_first(s, sep);
    let i = spec_find(s, sep).unwrap();
    if i == 0 {
        assert(s.take(0) =~= Seq::<u8>::empty());
        assert(s.skip(1) =~= s.drop_first());
    } else {
        let rest = s.drop_first();
        assert(spec_find(rest, sep) == Some(i - 1));
        lemma_split_at_first(rest, sep);
        lemma_split_nonempty(rest.skip(i), sep);
        assert(seq![rest.take(i - 1)] + spec_split(rest.skip(i), sep) == spec_split(rest, sep));
        assert(spec_split(rest, sep)[0] == rest.take(i - 1));
        assert(seq![s[0]] + rest.take(i - 1) =~= s.take(i));
        assert(rest.skip(i) =~= s.skip(i + 1));
        assert((seq![rest.take(i - 1)] + spec_split(rest.skip(i), sep)).drop_first() =~= spec_split(
            s.skip(i + 1),
            sep,
        ));
        assert(spec_split(s, sep) =~= seq![s.take(i)] + spec_split(s.skip(i + 1), sep));
    }
}

/// A string without the separator splits into itself alone.
pub proof fn lemma_split_no_sep(s: Seq<u8>, sep: u8)
    requires
        spec_find(s, sep) is None,
    ensures
        spec_split(s, sep) == seq![s],
    decreases s.len(),
{
    lemma_find_is_first(s, sep);
    if s.len() == 0 {
        assert(s =~= Seq::<u8>::empty());
        assert(spec_split(s, sep) =~~= seq![s]);
    } else {
        let rest = s.drop_first();
        lemma_find_is_first(rest, sep);
        if spec_find(rest, sep) is Some {
            assert(rest[spec_find(rest, sep).unwrap()] == sep);
            assert(s[spec_find(rest, sep).unwrap() + 1] == sep);
            assert(false);
        }
        lemma_split_no_sep(rest, sep);
        assert(seq![s[0]] + rest =~= s);
        assert(spec_split(s, sep) =~~= seq![s]);
    }
}

/// What one comma-separated piece denotes: the escaped key before the
/// first `=`, and the escaped value after it; pieces without `=` or with
/// broken escapes denote nothing and are skipped.
pub open spec fn spec_parse_entry(p: Seq<u8>) -> Option<(Seq<u8>, Seq<u8>)> {
    match spec_find(p, EQUALS) {
        None => None,
        Some(i) => if 0 <= i < p.len() {
            match (spec_unesc(p.take(i)), spec_unesc(p.skip(i + 1))) {
                (Some(k), Some(v)) => Some((k, v)),
                _ => None,
            }
        } else {
            None
        },
    }
}

/// The well-formed entries among the split pieces, in order.
pub open spec fn spec_decode_pieces(ps: Seq<Seq<u8>>) -> Seq<(Seq<u8>, Seq<u8>)>
    decreases ps.len(),
{
    if ps.len() == 0 {
        Seq::empty()
    } else {
        (match spec_parse_entry(ps[0]) {
            Some(e) => seq![e],
            None => Seq::empty(),
        }) + spec_decode_pieces(ps.drop_first())
    }
}

/// What a baggage header value denotes.
pub open spec fn spec_decode_baggage(s: Seq<u8>) -> Seq<(Seq<u8>, Seq<u8>)> {
    spec_decode_pieces(spec_split(s, COMMA))
}

/// The pairwise views of a list of key/value byte vectors.
pub open spec fn entries_view(v: Seq<(Vec<u8>, Vec<u8>)>) -> Seq<(Seq<u8>, Seq<u8>)> {
    v.map_values(|e: (Vec<u8>, Vec<u8>)| (e.0@, e.1@))
}

/// Renders baggage entries for the carrier.
pub fn encode_baggage(entries: &Vec<(Vec<u8>, Vec<u8>)>) -> (r: Vec<u8>)
    ensures
        r@ == spec_encode_baggage(entries_view(entries@)),
{
    let n = entries.len();
    let view = Ghost(entries_view(entries@));
    let mut r: Vec<u8> = Vec::new();
    let mut i: usize = 0;
    proof {
        assert(view@.skip(0) =~= view@);
    }
    while i < n
        invariant
            i <= n,
            n == entries@.len(),
            view@ == entries_view(entries@),
            spec_encode_baggage(view@) == r@ + spec_encode_baggage(view@.skip(i as int)),
        decreases n - i,
    {
        proof {
            assert(view@.skip(i as int)[0] == view@[i as int]);
            assert(view@.skip(i as int).drop_first() == view@.skip(i + 1));
        }
        let k = escape(entries[i].0.as_slice());
        vec_extend(&mut r, k.as_slice());
        r.push(EQUALS);
        let v = escape(entries[i].1.as_slice());
        vec_extend(&mut r, v.as_slice());
        proof {
            let piece = spec_entry(view@[i as int]);
            assert(piece =~= spec_esc(entries@[i as int].0@) + seq![EQUALS] + spec_esc(
                entries@[i as int].1@,
            ));
        }
        if i + 1 < n {
            r.push(COMMA);
            proof {
                let tail = view@.skip(i as int);
                assert(tail.len() >= 2);
                assert(spec_encode_baggage(tail) == spec_entry(tail[0]) + seq![COMMA]
                    + spec_encode_baggage(tail.drop_first()));
                assert(r@ =~= (r@ + Seq::<u8>::empty()));
            }
        } else {
            proof {
                let tail = view@.skip(i as int);
                assert(tail.len() == 1);
                assert(spec_encode_baggage(tail) == spec_entry(tail[0]));
            }
        }
        proof {
            assert(spec_encode_baggage(view@) =~= r@ + spec_encode_baggage(view@.skip(i + 1)));
        }
        i = i + 1;
    }
    proof {
        if n == 0 {
            assert(spec_encode_baggage(view@) =~= Seq::<u8>::empty());
        }
        assert(view@.skip(n as int) =~= Seq::<(Seq<u8>, Seq<u8>)>::empty());
        assert(spec_encode_baggage(view@.skip(n as int)) =~= Seq::<u8>::empty());
        assert(r@ =~= r@ + Seq::<u8>::empty());
    }
    r
}

/// Parses one comma-separated piece; malformed pieces give `None`.
fn parse_entry(p: &[u8]) -> (r: Option<(Vec<u8>, Vec<u8>)>)
    ensures
        match r {
            Some(e) => spec_parse_entry(p@) == Some((e.0@, e.1@)),
            None => spec_parse_entry(p@) is None,
        },
{
    match find_byte(p, EQUALS) {
        None => None,
        Some(i) => {
            proof {
                lemma_find_is_first(p@, EQUALS);
            }
            let n = p.len();
            let key_part = vstd::slice::slice_subrange(p, 0, i);
            let val_part = vstd::slice::slice_subrange(p, i + 1, n);
            proof {
                assert(key_part@ == p@.take(i as int));
                assert(val_part@ == p@.skip(i + 1));
            }
            match unescape(key_part) {
                None => None,
                Some(k) => match unescape(val_part) {
                    None => None,
                    Some(v) => Some((k, v)),
                },
            }
        },
    }
}

/// Decodes a baggage header value, keeping the well-formed entries in
/// order and skipping the rest.
pub fn decode_baggage(s: &[u8]) -> (r: Vec<(Vec<u8>, Vec<u8>)>)
    ensures
        entries_view(r@) == spec_decode_baggage(s@),
{
    let mut out: Vec<(Vec<u8>, Vec<u8>)> = Vec::new();
    let mut rest: &[u8] = s;
    proof {
        assert(entries_view(out@) =~= Seq::<(Seq<u8>, Seq<u8>)>::empty());
        assert(spec_decode_pieces(spec_split(s@, COMMA)) == entries_view(out@)
            + spec_decode_pieces(spec_split(rest@, COMMA)));
    }
    loop
        invariant_except_break
            spec_decode_pieces(spec_split(s@, COMMA)) == entries_view(out@) + spec_decode_pieces(
                spec_split(rest@, COMMA),
            ),
        ensures
            entries_view(out@) == spec_decode_pieces(spec_split(s@, COMMA)),
        decreases rest@.len(),
    {
        let ghost pre_out = out@;
        let ghost pre_rest = rest@;
        match find_byte(rest, COMMA) {
            Some(i) => {
                proof {
                    lemma_split_at_first(rest@, COMMA);
                }
                let piece = vstd::slice::slice_subrange(rest, 0, i);
                match parse_entry(piece) {
                    Some(e) => {
                        proof {
                            assert(entries_view(pre_out.push(e)) =~= entries_view(pre_out).push(
                                (e.0@, e.1@),
                            ));
                        }
                        out.push(e);
                    },
                    None => {
                    },
                }
                let rest_len = rest.len();
                let next = vstd::slice::slice_subrange(rest, i + 1, rest_len);
                proof {
                    let pieces = spec_split(pre_rest, COMMA);
                    assert(pieces == seq![pre_rest.take(i as int)] + spec_split(
                        pre_rest.skip(i + 1),
                        COMMA,
                    ));
                    assert(pieces[0] == pre_rest.take(i as int));
                    assert(pieces.drop_first() =~= spec_split(pre_rest.skip(i + 1), COMMA));
                    assert(piece@ == pre_rest.take(i as int));
                    assert(next@ == pre_rest.skip(i + 1));
                    match spec_parse_entry(piece@) {
                        Some(e) => {
                            assert(spec_decode_pieces(pieces) == seq![e] + spec_decode_pieces(
                                spec_split(next@, COMMA),
                            ));
                            assert(entries_view(pre_out) + (seq![e] + spec_decode_pieces(
                                spec_split(next@, COMMA),
                            )) =~= (entries_view(pre_out) + seq![e]) + spec_decode_pieces(
                                spec_split(next@, COMMA),
                            ));
                            assert(entries_view(out@) =~= entries_view(pre_out) + seq![e]);
                        },
                        None => {
                            assert(spec_decode_pieces(pieces) =~= Seq::<(
                                Seq<u8>,
                                Seq<u8>,
                            )>::empty() + spec_decode_pieces(spec_split(next@, COMMA)));
                            assert(Seq::<(Seq<u8>, Seq<u8>)>::empty() + spec_decode_pieces(
                                spec_split(next@, COMMA),
                            ) =~= spec_decode_pieces(spec_split(next@, COMMA)));
                        },
                    }
                }
                rest = next;
            },
            None => {
                proof {
                    lemma_split_no_sep(rest@, COMMA);
                }
                match parse_entry(rest) {
                    Some(e) => {
                        proof {
                            assert(entries_view(pre_out.push(e)) =~= entries_view(pre_out).push(
                                (e.0@, e.1@),
                            ));
                        }
                        out.push(e);
                    },
                    None => {
                    },
                }
                proof {
                    let pieces = spec_split(pre_rest, COMMA);
                    assert(pieces == seq![pre_rest]);
                    assert(pieces[0] == pre_rest);
                    assert(pieces.drop_first() =~= Seq::<Seq<u8>>::empty());
                    assert(spec_decode_pieces(Seq::<Seq<u8>>::empty()) =~= Seq::<(
                        Seq<u8>,
                        Seq<u8>,
                    )>::empty());
                    match spec_parse_entry(pre_rest) {
                        Some(e) => {
                            assert(spec_decode_pieces(pieces) =~= seq![e]);
                            assert(entries_view(out@) =~= entries_view(pre_out) + seq![e]);
                        },
                        None => {
                            assert(spec_decode_pieces(pieces) =~= Seq::<(
                                Seq<u8>,
                                Seq<u8>,
                            )>::empty());
                            assert(entries_view(out@) + Seq::<(Seq<u8>, Seq<u8>)>::empty()
                                =~= entries_view(out@));
                        },
                    }
                }
                break ;
            },
        }
    }
    out
}

/// Whether a stored carrier key answers for a looked-up key: keys are
/// compared case-insensitively (ASCII).
pub open spec fn key_matches(stored: Seq<u8>, wanted: Seq<u8>) -> bool {
    spec_lower(stored) == spec_lower(wanted)
}

/// The value of the first entry whose key matches, if any.
pub open spec fn spec_lookup(es: Seq<(Seq<u8>, Seq<u8>)>, k: Seq<u8>) -> Option<Seq<u8>>
    decreases es.len(),
{
    if es.len() == 0 {
        None
    } else if key_matches(es[0].0, k) {
        Some(es[0].1)
    } else {
        spec_lookup(es.drop_first(), k)
    }
}

pub proof fn lemma_lookup_first_match(es: Seq<(Seq<u8>, Seq<u8>)>, k: Seq<u8>, i: int)
    requires
        0 <= i < es.len(),
        key_matches(es[i].0, k),
        forall|j: int| 0 <= j < i ==> !key_matches(#[trigger] es[j].0, k),
    ensures
        spec_lookup(es, k) == Some(es[i].1),
    decreases es.len(),
{
    if i > 0 {
        lemma_lookup_first_match(es.drop_first(), k, i - 1);
    }
}

pub proof fn lemma_lookup_none(es: Seq<(Seq<u8>, Seq<u8>)>, k: Seq<u8>)
    requires
        forall|j: int| 0 <= j < es.len() ==> !key_matches(#[trigger] es[j].0, k),
    ensures
        spec_lookup(es, k) is None,
    decreases es.len(),
{
    if es.len() > 0 {
        lemma_lookup_none(es.drop_first(), k);
    }
}

/// Lookups agree on two entry lists that match the key at the same
/// places with the same values there.
pub proof fn lemma_lookup_same_matches(e1: Seq<(Seq<u8>, Seq<u8>)>, e2: Seq<(Seq<u8>, Seq<u8>)>, k: Seq<u8>)
    requires
        e1.len() == e2.len(),
        forall|j: int|
            0 <= j < e1.len() ==> key_matches(#[trigger] e1[j].0, k) == key_matches(
                #[trigger] e2[j].0,
                k,
            ),
        forall|j: int|
            0 <= j < e1.len() && key_matches(#[trigger] e1[j].0, k) ==> e1[j].1 == e2[j].1,
    ensures
        spec_lookup(e1, k) == spec_lookup(e2, k),
    decreases e1.len(),
{
    if e1.len() > 0 && !key_matches(e1[0].0, k) {
        lemma_lookup_same_matches(e1.drop_first(), e2.drop_first(), k);
    }
}

/// A pushed entry answers a lookup only when nothing before it does.
pub proof fn lemma_lookup_push(es: Seq<(Seq<u8>, Seq<u8>)>, e: (Seq<u8>, Seq<u8>), k: Seq<u8>)
    ensures
        spec_lookup(es.push(e), k) == (if spec_lookup(es, k) is Some {
            spec_lookup(es, k)
        } else if key_matches(e.0, k) {
            Some(e.1)
        } else {
            None
        }),
    decreases es.len(),
{
    if es.len() == 0 {
        assert(es.push(e)[0] == e);
        assert(es.push(e).drop_first() =~= Seq::<(Seq<u8>, Seq<u8>)>::empty());
        assert(spec_lookup(Seq::<(Seq<u8>, Seq<u8>)>::empty(), k) is None);
    } else {
        lemma_lookup_push(es.drop_first(), e, k);
        assert(es.push(e)[0] == es[0]);
        assert(es.push(e).drop_first() =~= es.drop_first().push(e));
        if key_matches(es[0].0, k) {
            assert(spec_lookup(es.push(e), k) == Some(es[0].1));
            assert(spec_lookup(es, k) == Some(es[0].1));
        } else {
            assert(spec_lookup(es.push(e), k) == spec_lookup(es.drop_first().push(e), k));
            assert(spec_lookup(es, k) == spec_lookup(es.drop_first(), k));
        }
    }
}

/// The carrier: a textual key/value map with case-insensitive keys,
/// write-only on the injecting side and read-only on the extracting
/// side.  Entries keep insertion order; a set replaces the first entry
/// with a matching key.
pub struct Carrier {
    pub entries: Vec<(Vec<u8>, Vec<u8>)>,
}

impl Carrier {
    /// The carrier's contents as a sequence of key/value byte strings.
    pub open spec fn contents(self) -> Seq<(Seq<u8>, Seq<u8>)> {
        entries_view(self.entries@)
    }

    /// The value stored under a key, compared case-insensitively.
    pub open spec fn spec_get(self, k: Seq<u8>) -> Option<Seq<u8>> {
        spec_lookup(self.contents(), k)
    }

    /// An empty carrier.
    pub fn new() -> (r: Carrier)
        ensures
            r.contents() == Seq::<(Seq<u8>, Seq<u8>)>::empty(),
    {
        let r = Carrier { entries: Vec::new() };
        proof {
            assert(r.contents() =~= Seq::<(Seq<u8>, Seq<u8>)>::empty());
        }
        r
    }

    /// Reads the value stored under `key`, if any.
    pub fn get(&self, key: &[u8]) -> (r: Option<&Vec<u8>>)
        ensures
            match r {
                Some(v) => self.spec_get(key@) == Some(v@),
                None => self.spec_get(key@) is None,
            },
    {
        let n = self.entries.len();
        let mut i: usize = 0;
        while i < n
            invariant
                i <= n,
                n == self.entries@.len(),
                forall|j: int| 0 <= j < i ==> !key_matches(#[trigger] self.contents()[j].0, key@),
            decreases n - i,
        {
            if eq_ignore_ascii_case(self.entries[i].0.as_slice(), key) {
                proof {
                    lemma_lookup_first_match(self.contents(), key@, i as int);
                }
                return Some(&self.entries[i].1);
            }
            i = i + 1;
        }
        proof {
            lemma_lookup_none(self.contents(), key@);
        }
        None
    }

    /// Stores `value` under `key`, replacing the first matching entry or
    /// appending a new one.  Other keys keep their values.
    pub fn set(&mut self, key: Vec<u8>, value: Vec<u8>)
        ensures
            final(self).spec_get(key@) == Some(value@),
            forall|k2: Seq<u8>|
                !key_matches(key@, k2) ==> final(self).spec_get(k2) == old(self).spec_get(k2),
    {
        let ghost old_contents = self.contents();
        let n = self.entries.len();
        let mut i: usize = 0;
        while i < n
            invariant
                i <= n,
                n == self.entries@.len(),
                self.entries@ == old(self).entries@,
                forall|j: int|
                    0 <= j < i ==> !key_matches(
                        #[trigger] entries_view(old(self).entries@)[j].0,
                        key@,
                    ),
            decreases n - i,
        {
            if eq_ignore_ascii_case(self.entries[i].0.as_slice(), key.as_slice()) {
                let ghost pre = self.entries@;
                let ghost old_contents = entries_view(old(self).entries@);
                self.entries.remove(i);
                let ghost mid = self.entries@;
                self.entries.insert(i, (key, value));
                proof {
                    pre.remove_ensures(i as int);
                    assert(mid == pre.remove(i as int));
                    let elt = self.entries@[i as int];
                    assert(self.entries@ == mid.insert(i as int, elt));
                    mid.insert_ensures(i as int, elt);
                    assert(elt.0@ == key@ && elt.1@ == value@);
                    let new_contents = self.contents();
                    assert(new_contents.len() == old_contents.len());
                    assert forall|j: int|
                        0 <= j < new_contents.len() && j != i implies new_contents[j]
                        == old_contents[j] by {
                        if j < i {
                            assert(self.entries@[j] == mid[j]);
                            assert(mid[j] == pre[j]);
                        } else {
                            assert(self.entries@[j] == mid.insert(i as int, elt)[(j - 1) + 1]);
                            assert(mid.insert(i as int, elt)[(j - 1) + 1] == mid[j - 1]);
                            assert(mid[j - 1] == pre[j]);
                        }
                    }
                    assert(new_contents[i as int].0 == key@);
                    assert(new_contents[i as int].1 == value@);
                    lemma_lookup_first_match(new_contents, key@, i as int);
                    assert forall|k2: Seq<u8>| !key_matches(key@, k2) implies spec_lookup(
                        new_contents,
                        k2,
                    ) == spec_lookup(old_contents, k2) by {
                        assert forall|j: int|
                            0 <= j < old_contents.len() implies key_matches(
                            #[trigger] old_contents[j].0,
                            k2,
                        ) == key_matches(new_contents[j].0, k2) by {
                            if j == i {
                                assert(spec_lower(old_contents[j].0) == spec_lower(key@));
                            }
                        }
                        lemma_lookup_same_matches(old_contents, new_contents, k2);
                    }
                }
                return ;
            }
            i = i + 1;
        }
        proof {
            assert(old_contents == entries_view(old(self).entries@));
            lemma_lookup_none(old_contents, key@);
        }
        let ghost e = (key@, value@);
        self.entries.push((key, value));
        proof {
            assert(self.contents() =~= old_contents.push(e));
            lemma_lookup_push(old_contents, e, key@);
            assert forall|k2: Seq<u8>| !key_matches(key@, k2) implies spec_lookup(
                self.contents(),
                k2,
            ) == spec_lookup(old_contents, k2) by {
                lemma_lookup_push(old_contents, e, k2);
            }
        }
    }
}

/// What extraction finds for the trace context: the parse of the
/// trace-context key's value, and no parent when the key is absent.
pub open spec fn spec_extract_context(contents: Seq<(Seq<u8>, Seq<u8>)>) -> Option<TraceContext> {
    match spec_lookup(contents, spec_traceparent_key()) {
        Some(s) => spec_parse_traceparent(s),
        None => None,
    }
}

/// What extraction finds for the baggage: the decode of the baggage
/// key's value, and no entries when the key is absent.
pub open spec fn spec_extract_baggage(contents: Seq<(Seq<u8>, Seq<u8>)>) -> Seq<(Seq<u8>, Seq<u8>)> {
    match spec_lookup(contents, spec_baggage_key()) {
        Some(s) => spec_decode_baggage(s),
        None => Seq::empty(),
    }
}

/// Writes the trace context and the baggage into the carrier.  Empty
/// baggage is omitted rather than written as an empty value; all other
/// carrier keys are left unchanged.
pub fn inject(context: &TraceContext, baggage: &Vec<(Vec<u8>, Vec<u8>)>, carrier: &mut Carrier)
    ensures
        final(carrier).spec_get(spec_traceparent_key()) == Some(spec_traceparent(*context)),
        baggage@.len() > 0 ==> final(carrier).spec_get(spec_baggage_key()) == Some(
            spec_encode_baggage(entries_view(baggage@)),
        ),
        baggage@.len() == 0 ==> final(carrier).spec_get(spec_baggage_key()) == old(
            carrier,
        ).spec_get(spec_baggage_key()),
        forall|k2: Seq<u8>|
            !key_matches(spec_traceparent_key(), k2) && !key_matches(spec_baggage_key(), k2)
                ==> final(carrier).spec_get(k2) == old(carrier).spec_get(k2),
{
    carrier.set(traceparent_key(), format_traceparent(context));
    if baggage.len() > 0 {
        carrier.set(baggage_key(), encode_baggage(baggage));
        proof {
            assert(spec_lower(spec_baggage_key()).len() == 7);
            assert(spec_lower(spec_traceparent_key()).len() == 11);
        }
    } else {
        proof {
            assert(spec_lower(spec_traceparent_key()).len() == 11);
            assert(spec_lower(spec_baggage_key()).len() == 7);
        }
    }
}

/// Reads the trace context and the baggage out of the carrier.  A
/// missing or malformed trace-context value yields no parent; malformed
/// baggage entries are skipped.
pub fn extract(carrier: &Carrier) -> (r: (Option<TraceContext>, Vec<(Vec<u8>, Vec<u8>)>))
    ensures
        r.0 == spec_extract_context(carrier.contents()),
        entries_view(r.1@) == spec_extract_baggage(carrier.contents()),
        r.0 is Some ==> r.0.unwrap().is_valid(),
{
    let tp_key = traceparent_key();
    let context = match carrier.get(tp_key.as_slice()) {
        Some(v) => parse_traceparent(v.as_slice()),
        None => None,
    };
    let bg_key = baggage_key();
    let baggage = match carrier.get(bg_key.as_slice()) {
        Some(v) => decode_baggage(v.as_slice()),
        None => {
            let empty: Vec<(Vec<u8>, Vec<u8>)> = Vec::new();
            proof {
                assert(entries_view(empty@) =~= Seq::<(Seq<u8>, Seq<u8>)>::empty());
            }
            empty
        },
    };
    (context, baggage)
}

/// Encoding baggage entries and decoding the result returns the same
/// entries, in order, keys and values byte for byte.
pub proof fn lemma_baggage_round_trip(entries: Seq<(Seq<u8>, Seq<u8>)>)
    ensures
        spec_decode_baggage(spec_encode_baggage(entries)) == entries,
    decreases entries.len(),
{
    if entries.len() == 0 {
        let s = spec_encode_baggage(entries);
        assert(s =~= Seq::<u8>::empty());
        let pieces = spec_split(s, COMMA);
        assert(pieces == seq![Seq::<u8>::empty()]);
        assert(spec_find(Seq::<u8>::empty(), EQUALS) is None);
        assert(spec_parse_entry(Seq::<u8>::empty()) is None);
        assert(pieces.drop_first() =~= Seq::<Seq<u8>>::empty());
        assert(spec_decode_pieces(Seq::<Seq<u8>>::empty()) == Seq::<(Seq<u8>, Seq<u8>)>::empty());
        assert(Seq::<(Seq<u8>, Seq<u8>)>::empty() + Seq::<(Seq<u8>, Seq<u8>)>::empty() =~= Seq::<(
            Seq<u8>,
            Seq<u8>,
        )>::empty());
        assert(entries =~= Seq::<(Seq<u8>, Seq<u8>)>::empty());
        assert(spec_decode_baggage(s) =~= entries);
    } else {
        let e0 = entries[0];
        let enc0 = spec_entry(e0);
        let klen = spec_esc(e0.0).len() as int;
        lemma_esc_no_separator(e0.0);
        lemma_esc_no_separator(e0.1);
        // The first `=` in an encoded entry separates key from value.
        assert(enc0[klen] == EQUALS);
        assert forall|j: int| 0 <= j < klen implies enc0[j] != EQUALS by {
            assert(enc0[j] == spec_esc(e0.0)[j]);
        }
        lemma_first_is_find(enc0, EQUALS, klen);
        assert(enc0.take(klen) =~= spec_esc(e0.0));
        assert(enc0.skip(klen + 1) =~= spec_esc(e0.1));
        lemma_unesc_esc(e0.0);
        lemma_unesc_esc(e0.1);
        assert(spec_parse_entry(enc0) == Some(e0));
        // No byte of an encoded entry is a comma.
        assert forall|j: int| 0 <= j < enc0.len() implies enc0[j] != COMMA by {
            if j < klen {
                assert(enc0[j] == spec_esc(e0.0)[j]);
            } else if j > klen {
                assert(enc0[j] == spec_esc(e0.1)[j - klen - 1]);
            }
        }
        if entries.len() == 1 {
            let s = spec_encode_baggage(entries);
            assert(s == enc0);
            lemma_find_is_first(s, COMMA);
            if spec_find(s, COMMA) is Some {
                assert(s[spec_find(s, COMMA).unwrap()] == COMMA);
                assert(false);
            }
            lemma_split_no_sep(s, COMMA);
            let pieces = spec_split(s, COMMA);
            assert(pieces == seq![s]);
            assert(pieces.drop_first() =~= Seq::<Seq<u8>>::empty());
            assert(spec_decode_pieces(Seq::<Seq<u8>>::empty()) == Seq::<(
                Seq<u8>,
                Seq<u8>,
            )>::empty());
            assert(seq![e0] + Seq::<(Seq<u8>, Seq<u8>)>::empty() =~= seq![e0]);
            assert(spec_decode_pieces(pieces) =~= seq![e0]);
            assert(seq![e0] =~= entries);
        } else {
            let rest = entries.drop_first();
            lemma_baggage_round_trip(rest);
            let s = spec_encode_baggage(entries);
            assert(s == enc0 + seq![COMMA] + spec_encode_baggage(rest));
            assert(s[enc0.len() as int] == COMMA);
            assert forall|j: int| 0 <= j < enc0.len() implies s[j] != COMMA by {
                assert(s[j] == enc0[j]);
            }
            lemma_first_is_find(s, COMMA, enc0.len() as int);
            lemma_split_at_first(s, COMMA);
            let pieces = spec_split(s, COMMA);
            assert(s.take(enc0.len() as int) =~= enc0);
            assert(s.skip(enc0.len() as int + 1) =~= spec_encode_baggage(rest));
            assert(pieces == seq![enc0] + spec_split(spec_encode_baggage(rest), COMMA));
            assert(pieces[0] == enc0);
            assert(pieces.drop_first() =~= spec_split(spec_encode_baggage(rest), COMMA));
            assert(spec_decode_pieces(pieces) == seq![e0] + spec_decode_baggage(
                spec_encode_baggage(rest),
            ));
            assert(seq![e0] + rest =~= entries);
        }
    }
}

/// The propagation round-trip law: injecting a valid trace context and
/// any baggage, then extracting, returns the same context (trace id,
/// span id and sampling flag) and the same baggage entries.  Together
/// with the contracts of `inject` and `extract` this covers the carrier
/// itself: after `inject(c, b)` the trace-context key parses back to
/// exactly `c` and the baggage key decodes back to exactly `b`.
pub proof fn lemma_propagation_round_trip(c: TraceContext, entries: Seq<(Seq<u8>, Seq<u8>)>)
    requires
        c.is_valid(),
    ensures
        spec_parse_traceparent(spec_traceparent(c)) == Some(c),
        spec_decode_baggage(spec_encode_baggage(entries)) == entries,
{
    lemma_traceparent_round_trip(c);
    lemma_baggage_round_trip(entries);
}

} // verus!
