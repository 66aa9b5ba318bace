//! The request-handling rules of the greeting services built on propagation:
//! the formatter picks its greeting word from the baggage and answers with a
//! greeting; both services continue the caller's trace; the client writes its
//! context into each outgoing request.
use vstd::prelude::*;
use crate::baggage::Baggage;
use crate::carrier::HeaderCarrier;
use crate::composite::{Context, CompositePropagator, inject_all, extract_all};
use crate::pairs::lookup;
use crate::span_context::SpanContext;
use crate::spans::start_span;

verus! {

/// The baggage name `greeting`.
pub open spec fn greeting_name() -> Seq<u8> {
    seq![103u8, 114, 101, 101, 116, 105, 110, 103]
}

/// `Hello`, the greeting word used when the baggage sets none.
pub open spec fn default_greeting() -> Seq<u8> {
    seq![72u8, 101, 108, 108, 111]
}

/// The greeting word that baggage `bag` selects.
pub open spec fn greeting_of(bag: Seq<(Seq<u8>, Seq<u8>)>) -> Seq<u8> {
    match lookup(bag, greeting_name()) {
        Some(g) => g,
        None => default_greeting(),
    }
}

/// The formatter's answer: `<greeting>, <name>!`, or `<greeting> there!` without a name.
pub open spec fn greeting_text(greeting: Seq<u8>, hello_to: Option<Seq<u8>>) -> Seq<u8> {
    match hello_to {
        Some(n) => greeting + seq![44u8, 32] + n + seq![33u8],
        None => greeting + seq![32u8, 116, 104, 101, 114, 101, 33],
    }
}

fn extend_bytes(out: &mut Vec<u8>, s: &[u8])
    ensures
        final(out)@ == old(out)@ + s@,
{
    let mut i: usize = 0;
    while i < s.len()
        invariant
            0 <= i <= s@.len(),
            out@ == old(out)@ + s@.take(i as int),
        decreases s@.len() - i,
    {
        out.push(s[i]);
        i = i + 1;
        assert(out@ =~= old(out)@ + s@.take(i as int));
    }
    assert(s@.take(s@.len() as int) =~= s@);
}

/// The greeting word that the baggage selects: its `greeting` entry, or `Hello`.
pub fn greeting_from(bag: &Baggage) -> (r: Vec<u8>)
    ensures
        r@ == greeting_of(bag@),
{
    // "greeting"
    let name: Vec<u8> = vec![103u8, 114, 101, 101, 116, 105, 110, 103];
    assert(name@ =~= greeting_name());
    match bag.get(name.as_slice()) {
        Some(g) => g,
        None => {
            // "Hello"
            let d: Vec<u8> = vec![72u8, 101, 108, 108, 111];
            assert(d@ =~= default_greeting());
            d
        },
    }
}

/// Formats the answer for `greeting` and the optional name.
pub fn format_greeting(greeting: &[u8], hello_to: Option<&[u8]>) -> (r: Vec<u8>)
    ensures
        r@ == greeting_text(greeting@, match hello_to {
            Some(n) => Some(n@),
            None => None,
        }),
{
    let mut r: Vec<u8> = Vec::new();
    extend_bytes(&mut r, greeting);
    match hello_to {
        Some(n) => {
            r.push(44);
            r.push(32);
            extend_bytes(&mut r, n);
            r.push(33);
        },
        None => {
            // " there!"
            let tail: Vec<u8> = vec![32u8, 116, 104, 101, 114, 101, 33];
            extend_bytes(&mut r, tail.as_slice());
        },
    }
    assert(r@ =~= greeting_text(greeting@, match hello_to {
        Some(n) => Some(n@),
        None => None,
    }));
    r
}

/// What the formatter does with one request: its answer, the caller's span
/// read from the headers, and the span it opened for the work.
pub struct FormatReply {
    pub response: Vec<u8>,
    pub parent: SpanContext,
    pub span: SpanContext,
}

/// Handles one formatter request: reads the caller's context from the
/// headers, answers with the greeting that its baggage selects, and opens a
/// span that continues the caller's trace when there is one.
pub fn handle_format(prop: &CompositePropagator, headers: &HeaderCarrier, hello_to: Option<&[u8]>) -> (r: FormatReply)
    ensures
        r.response@ == greeting_text(greeting_of(extract_all(prop@, headers@).1), match hello_to {
            Some(n) => Some(n@),
            None => None,
        }),
        r.parent == extract_all(prop@, headers@).0,
        r.span.valid(),
        !r.span.is_remote,
        extract_all(prop@, headers@).0.valid() ==> r.span.trace_id == extract_all(prop@, headers@).0.trace_id
            && r.span.span_id != extract_all(prop@, headers@).0.span_id,
{
    let cx = prop.extract(headers);
    let greeting = greeting_from(&cx.baggage);
    let span = start_span(&cx.span);
    let response = format_greeting(greeting.as_slice(), hello_to);
    FormatReply { response, parent: cx.span, span }
}

/// The caller's span read from a request's headers, and the span opened under it.
pub struct ContinuedSpan {
    pub parent: SpanContext,
    pub span: SpanContext,
}

/// Handles one publisher request: reads the caller's context from the headers
/// and opens a span that continues its trace when there is one.
pub fn handle_publish(prop: &CompositePropagator, headers: &HeaderCarrier) -> (r: ContinuedSpan)
    ensures
        r.parent == extract_all(prop@, headers@).0,
        r.span.valid(),
        !r.span.is_remote,
        r.parent.valid() ==> r.span.trace_id == r.parent.trace_id && r.span.span_id != r.parent.span_id,
{
    let cx = prop.extract(headers);
    let span = start_span(&cx.span);
    ContinuedSpan { parent: cx.span, span }
}

/// The header fields of an outgoing request that carries `cx`.
pub fn outbound_headers(prop: &CompositePropagator, cx: &Context) -> (r: HeaderCarrier)
    ensures
        r@ == inject_all(prop@, cx.span, cx.baggage@, Seq::empty()),
{
    let mut carrier = HeaderCarrier::new();
    prop.inject(cx, &mut carrier);
    carrier
}

} // verus!
