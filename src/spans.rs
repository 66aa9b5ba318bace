//! Starting spans: a root span gets fresh trace and span ids, a child span
//! keeps its parent's trace id and flags and gets a span id of its own.
use vstd::prelude::*;
use opentelemetry_sdk::trace::{IdGenerator, RandomIdGenerator};
use crate::span_context::{SpanContext, SAMPLED};

verus! {

/// Relies on opentelemetry_sdk's `RandomIdGenerator::new_trace_id`: a random
/// 128-bit trace id, which may be any value.
#[verifier::external_body]
fn random_trace_id() -> (r: u128) {
    u128::from_be_bytes(RandomIdGenerator::default().new_trace_id().to_bytes())
}

/// Relies on opentelemetry_sdk's `RandomIdGenerator::new_span_id`: a random
/// 64-bit span id, which may be any value.
#[verifier::external_body]
fn random_span_id() -> (r: u64) {
    u64::from_be_bytes(RandomIdGenerator::default().new_span_id().to_bytes())
}

/// The span id used for a drawn `candidate` that must be neither zero nor `avoid`.
pub open spec fn fresh_span_id(candidate: u64, avoid: u64) -> u64 {
    if candidate != 0 && candidate != avoid {
        candidate
    } else if avoid < u64::MAX {
        (avoid + 1) as u64
    } else {
        1
    }
}

/// The context of a child of `parent` whose drawn span id was `candidate`.
pub open spec fn child_spec(parent: SpanContext, candidate: u64) -> SpanContext {
    SpanContext {
        trace_id: parent.trace_id,
        span_id: fresh_span_id(candidate, parent.span_id),
        trace_flags: parent.trace_flags,
        is_remote: false,
    }
}

/// The context of a new root span from drawn ids.
pub open spec fn root_spec(trace_candidate: u128, span_candidate: u64) -> SpanContext {
    SpanContext {
        trace_id: if trace_candidate != 0 { trace_candidate } else { 1 },
        span_id: fresh_span_id(span_candidate, 0),
        trace_flags: SAMPLED,
        is_remote: false,
    }
}

/// Picks the span id for a drawn `candidate`, away from zero and from `avoid`.
pub fn pick_span_id(candidate: u64, avoid: u64) -> (r: u64)
    ensures
        r == fresh_span_id(candidate, avoid),
        r != 0,
        r != avoid,
{
    if candidate != 0 && candidate != avoid {
        candidate
    } else if avoid < u64::MAX {
        avoid + 1
    } else {
        1
    }
}

/// A child of `parent`, given the drawn span id.
pub fn child_context(parent: &SpanContext, candidate: u64) -> (r: SpanContext)
    ensures
        r == child_spec(*parent, candidate),
{
    SpanContext {
        trace_id: parent.trace_id,
        span_id: pick_span_id(candidate, parent.span_id),
        trace_flags: parent.trace_flags,
        is_remote: false,
    }
}

/// A root span, given the drawn ids.
pub fn root_context(trace_candidate: u128, span_candidate: u64) -> (r: SpanContext)
    ensures
        r == root_spec(trace_candidate, span_candidate),
        r.valid(),
{
    SpanContext {
        trace_id: if trace_candidate != 0 { trace_candidate } else { 1 },
        span_id: pick_span_id(span_candidate, 0),
        trace_flags: SAMPLED,
        is_remote: false,
    }
}

/// Starts a span under `parent`: a child when `parent` is valid, else a root.
pub fn start_span(parent: &SpanContext) -> (r: SpanContext)
    ensures
        r.valid(),
        !r.is_remote,
        parent.valid() ==> r.trace_id == parent.trace_id && r.span_id != parent.span_id
            && r.trace_flags == parent.trace_flags,
        !parent.valid() ==> r.trace_flags == SAMPLED,
{
    if parent.is_valid() {
        let candidate = random_span_id();
        child_context(parent, candidate)
    } else {
        let t = random_trace_id();
        let s = random_span_id();
        root_context(t, s)
    }
}

/// A span started under a valid parent stays in the parent's trace, keeps
/// its flags, and has a valid span id of its own, whatever id was drawn.
pub proof fn law_child_keeps_trace(parent: SpanContext, candidate: u64)
    requires
        parent.valid(),
    ensures
        child_spec(parent, candidate).trace_id == parent.trace_id,
        child_spec(parent, candidate).trace_flags == parent.trace_flags,
        child_spec(parent, candidate).span_id != parent.span_id,
        child_spec(parent, candidate).valid(),
{
}

} // verus!
