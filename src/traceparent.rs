//! The span-identity propagator: a span context written as the `traceparent`
//! header field, `00-<trace id>-<span id>-<flags>` in lower-case hexadecimal.
use vstd::prelude::*;
use crate::carrier::{HeaderCarrier, lower};
use crate::hex::{hex_of, hex_value, is_hex, push_hex, parse_hex, lemma_hex_round_trip, lemma_pow16_32};
use crate::pairs::{PairSeq, lookup, put, lemma_lookup_put, lemma_put_twice};
use crate::span_context::SpanContext;

verus! {

/// The header field name `traceparent`.
pub open spec fn traceparent_name() -> Seq<u8> {
    seq![116u8, 114, 97, 99, 101, 112, 97, 114, 101, 110, 116]
}

const DIGIT_ZERO: u8 = 48;

const DASH: u8 = 45;

/// The length of a version 00 `traceparent` value.
pub const TRACEPARENT_LEN: usize = 55;

/// The `traceparent` value that encodes `c`.
pub open spec fn traceparent_value(c: SpanContext) -> Seq<u8> {
    seq![48u8, 48, 45] + hex_of(c.trace_id as nat, 32) + seq![45u8] + hex_of(c.span_id as nat, 16)
        + seq![45u8] + hex_of(c.trace_flags as nat, 2)
}

/// The span context that a `traceparent` value denotes: the empty context when
/// the value is not a well-formed version 00 field with non-zero ids.
pub open spec fn parse_traceparent(h: Seq<u8>) -> SpanContext {
    let t = h.subrange(3, 35);
    let s = h.subrange(36, 52);
    let f = h.subrange(53, 55);
    if h.len() == 55 && h[0] == 48 && h[1] == 48 && h[2] == 45 && h[35] == 45 && h[52] == 45
        && is_hex(t) && is_hex(s) && is_hex(f) && hex_value(t) != 0 && hex_value(s) != 0 {
        SpanContext {
            trace_id: hex_value(t) as u128,
            span_id: hex_value(s) as u64,
            trace_flags: hex_value(f) as u8,
            is_remote: true,
        }
    } else {
        SpanContext::empty_spec()
    }
}

/// A carrier after the span-identity propagator has written `c` into it.
pub open spec fn inject_span_spec(c: SpanContext, s: PairSeq) -> PairSeq {
    if c.valid() {
        put(s, traceparent_name(), traceparent_value(c))
    } else {
        s
    }
}

/// What the span-identity propagator reads from a carrier.
pub open spec fn extract_span_spec(s: PairSeq) -> SpanContext {
    match lookup(s, traceparent_name()) {
        Some(v) => parse_traceparent(v),
        None => SpanContext::empty_spec(),
    }
}

/// The field name `traceparent`.
pub fn traceparent_key() -> (r: Vec<u8>)
    ensures
        r@ == traceparent_name(),
{
    // "traceparent"
    let r: Vec<u8> = vec![116u8, 114, 97, 99, 101, 112, 97, 114, 101, 110, 116];
    assert(r@ =~= traceparent_name());
    r
}

/// The field name is already in lower case.
pub proof fn lemma_traceparent_name_lower()
    ensures
        lower(traceparent_name()) == traceparent_name(),
{
    assert(lower(traceparent_name()) =~= traceparent_name());
}

/// Writes `c` as a `traceparent` value.
pub fn encode_traceparent(c: &SpanContext) -> (r: Vec<u8>)
    ensures
        r@ == traceparent_value(*c),
        r@.len() == TRACEPARENT_LEN,
{
    let mut r: Vec<u8> = vec![DIGIT_ZERO, DIGIT_ZERO, DASH];
    push_hex(&mut r, c.trace_id, 32);
    r.push(DASH);
    push_hex(&mut r, c.span_id as u128, 16);
    r.push(DASH);
    push_hex(&mut r, c.trace_flags as u128, 2);
    proof {
        lemma_pow16_32();
        lemma_hex_round_trip(c.trace_id as nat, 32);
        lemma_hex_round_trip(c.span_id as nat, 16);
        lemma_hex_round_trip(c.trace_flags as nat, 2);
    }
    assert(r@ =~= traceparent_value(*c));
    r
}

/// Reads a `traceparent` value; anything malformed gives the empty context.
pub fn decode_traceparent(h: &[u8]) -> (r: SpanContext)
    ensures
        r == parse_traceparent(h@),
{
    if h.len() != TRACEPARENT_LEN || h[0] != DIGIT_ZERO || h[1] != DIGIT_ZERO || h[2] != DASH || h[35] != DASH
        || h[52] != DASH {
        return SpanContext::empty();
    }
    let t = parse_hex(h, 3, 32);
    let s = parse_hex(h, 36, 16);
    let f = parse_hex(h, 53, 2);
    match (t, s, f) {
        (Some(t), Some(s), Some(f)) => {
            proof {
                lemma_pow16_32();
                crate::hex::lemma_hex_value_bound(h@.subrange(3, 35));
                crate::hex::lemma_hex_value_bound(h@.subrange(36, 52));
                crate::hex::lemma_hex_value_bound(h@.subrange(53, 55));
            }
            if t == 0 || s == 0 {
                SpanContext::empty()
            } else {
                SpanContext { trace_id: t, span_id: s as u64, trace_flags: f as u8, is_remote: true }
            }
        },
        _ => SpanContext::empty(),
    }
}

/// Writes `traceparent` for `c` into the carrier; an invalid context writes nothing.
pub fn inject_span(c: &SpanContext, carrier: &mut HeaderCarrier)
    ensures
        final(carrier)@ == inject_span_spec(*c, old(carrier)@),
{
    if c.is_valid() {
        let v = encode_traceparent(c);
        let k = traceparent_key();
        proof {
            lemma_traceparent_name_lower();
        }
        carrier.set(k.as_slice(), v.as_slice());
    }
}

/// Reads the span context from the carrier's `traceparent` field; a missing or
/// malformed field gives the empty context.
pub fn extract_span(carrier: &HeaderCarrier) -> (r: SpanContext)
    ensures
        r == extract_span_spec(carrier@),
{
    let k = traceparent_key();
    proof {
        lemma_traceparent_name_lower();
    }
    match carrier.get(k.as_slice()) {
        Some(v) => decode_traceparent(v.as_slice()),
        None => SpanContext::empty(),
    }
}

/// Reading back what was written for a valid context gives the same trace id,
/// span id and flags, now marked remote.
pub proof fn lemma_traceparent_round_trip(c: SpanContext)
    requires
        c.valid(),
    ensures
        parse_traceparent(traceparent_value(c)) == c.as_remote(),
{
    let h = traceparent_value(c);
    lemma_pow16_32();
    lemma_hex_round_trip(c.trace_id as nat, 32);
    lemma_hex_round_trip(c.span_id as nat, 16);
    lemma_hex_round_trip(c.trace_flags as nat, 2);
    assert(h.subrange(3, 35) =~= hex_of(c.trace_id as nat, 32));
    assert(h.subrange(36, 52) =~= hex_of(c.span_id as nat, 16));
    assert(h.subrange(53, 55) =~= hex_of(c.trace_flags as nat, 2));
}

/// Whatever the carrier held before, extracting after injecting a valid
/// context gives back its trace id, span id and flags.
pub proof fn law_span_round_trip(c: SpanContext, s: PairSeq)
    requires
        c.valid(),
    ensures
        extract_span_spec(inject_span_spec(c, s)) == c.as_remote(),
{
    lemma_lookup_put(s, traceparent_name(), traceparent_value(c), traceparent_name());
    lemma_traceparent_round_trip(c);
}

/// Injecting the same context a second time changes nothing: the carrier, and
/// so its `traceparent` value, is the same as after the first time.
pub proof fn law_span_inject_idempotent(c: SpanContext, s: PairSeq)
    ensures
        inject_span_spec(c, inject_span_spec(c, s)) == inject_span_spec(c, s),
{
    if c.valid() {
        lemma_put_twice(s, traceparent_name(), traceparent_value(c));
    }
}

} // verus!
