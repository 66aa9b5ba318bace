//! The identity of one span, as it travels between processes.
use vstd::prelude::*;

verus! {

/// A span's identity: the trace it belongs to, its own id, and its flags.
/// A context whose trace id or span id is zero is the invalid one.
#[derive(Clone, Copy, PartialEq, Eq, Structural, Debug)]
pub struct SpanContext {
    pub trace_id: u128,
    pub span_id: u64,
    pub trace_flags: u8,
    /// Set when the context was read from incoming headers.
    pub is_remote: bool,
}

/// The flag bit that marks a trace as sampled.
pub const SAMPLED: u8 = 1;

impl SpanContext {
    pub open spec fn valid(self) -> bool {
        self.trace_id != 0 && self.span_id != 0
    }

    /// The empty context: no trace at all.
    pub open spec fn empty_spec() -> SpanContext {
        SpanContext { trace_id: 0, span_id: 0, trace_flags: 0, is_remote: false }
    }

    /// The same identity, marked as read from incoming headers.
    pub open spec fn as_remote(self) -> SpanContext {
        SpanContext { is_remote: true, ..self }
    }

    /// The empty context.
    pub fn empty() -> (r: SpanContext)
        ensures
            r == SpanContext::empty_spec(),
    {
        SpanContext { trace_id: 0, span_id: 0, trace_flags: 0, is_remote: false }
    }

    /// A context from its parts.
    pub fn new(trace_id: u128, span_id: u64, trace_flags: u8, is_remote: bool) -> (r: SpanContext)
        ensures
            r == (SpanContext { trace_id, span_id, trace_flags, is_remote }),
    {
        SpanContext { trace_id, span_id, trace_flags, is_remote }
    }

    /// Whether both ids are set.
    pub fn is_valid(&self) -> (r: bool)
        ensures
            r == self.valid(),
    {
        self.trace_id != 0 && self.span_id != 0
    }

    /// Whether the sampled bit is set.
    pub fn is_sampled(&self) -> (r: bool)
        ensures
            r == (self.trace_flags & SAMPLED != 0),
    {
        self.trace_flags & SAMPLED != 0
    }
}

} // verus!
