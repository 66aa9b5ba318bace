//! The propagation context and the composite propagator, which runs an ordered
//! list of single-concern propagators against one header carrier.
use vstd::prelude::*;
use crate::baggage::{
    Baggage, baggage_name, baggage_value, inject_baggage, extract_baggage, inject_baggage_spec,
    extract_baggage_spec, join_entries, law_baggage_round_trip, lemma_kept_all, lemma_join_take_le,
    lemma_join_step, BAGGAGE_MAX_LEN,
};
use crate::carrier::HeaderCarrier;
use crate::pairs::{PairSeq, lookup, names_unique, lemma_lookup_put};
use crate::span_context::SpanContext;
use crate::traceparent::{
    traceparent_name, traceparent_value, inject_span, extract_span, inject_span_spec,
    extract_span_spec, lemma_traceparent_round_trip,
};

verus! {

/// What travels with a request: the current span's identity and the baggage.
pub struct Context {
    pub span: SpanContext,
    pub baggage: Baggage,
}

impl Context {
    /// No span and no baggage.
    pub fn new() -> (r: Context)
        ensures
            r.span == SpanContext::empty_spec(),
            r.baggage@ == Seq::<(Seq<u8>, Seq<u8>)>::empty(),
            r.baggage.wf(),
    {
        Context { span: SpanContext::empty(), baggage: Baggage::new() }
    }

    /// A context from a span and its baggage.
    pub fn from_parts(span: SpanContext, baggage: Baggage) -> (r: Context)
        ensures
            r.span == span,
            r.baggage == baggage,
    {
        Context { span, baggage }
    }
}

/// The concern of one propagator.
#[derive(Clone, Copy, PartialEq, Eq, Structural, Debug)]
pub enum PropagatorKind {
    /// Span identity, in the `traceparent` field.
    TraceContext,
    /// Baggage, in the `baggage` field.
    Baggage,
}

/// A carrier after propagator `k` has written the context into it.
pub open spec fn inject_one(k: PropagatorKind, span: SpanContext, bag: PairSeq, s: PairSeq) -> PairSeq {
    match k {
        PropagatorKind::TraceContext => inject_span_spec(span, s),
        PropagatorKind::Baggage => inject_baggage_spec(bag, s),
    }
}

/// A carrier after each propagator of `ks`, in order, has written the context.
pub open spec fn inject_all(ks: Seq<PropagatorKind>, span: SpanContext, bag: PairSeq, s: PairSeq) -> PairSeq
    decreases ks.len(),
{
    if ks.len() == 0 {
        s
    } else {
        inject_one(ks.last(), span, bag, inject_all(ks.drop_last(), span, bag, s))
    }
}

/// The context that the propagators of `ks`, in order, read from a carrier.
/// Each one that finds nothing for its concern leaves the context as it was.
pub open spec fn extract_all(ks: Seq<PropagatorKind>, s: PairSeq) -> (SpanContext, PairSeq)
    decreases ks.len(),
{
    if ks.len() == 0 {
        (SpanContext::empty_spec(), Seq::empty())
    } else {
        let acc = extract_all(ks.drop_last(), s);
        match ks.last() {
            PropagatorKind::TraceContext => if extract_span_spec(s).valid() {
                (extract_span_spec(s), acc.1)
            } else {
                acc
            },
            PropagatorKind::Baggage => if lookup(s, baggage_name()) is Some {
                (acc.0, extract_baggage_spec(s))
            } else {
                acc
            },
        }
    }
}

/// An ordered list of propagators, each for one concern.
pub struct CompositePropagator {
    propagators: Vec<PropagatorKind>,
}

impl View for CompositePropagator {
    type V = Seq<PropagatorKind>;

    closed spec fn view(&self) -> Seq<PropagatorKind> {
        self.propagators@
    }
}

impl CompositePropagator {
    /// Runs `propagators` in the order given.
    pub fn new(propagators: Vec<PropagatorKind>) -> (r: CompositePropagator)
        ensures
            r@ == propagators@,
    {
        CompositePropagator { propagators }
    }

    /// Baggage first, then span identity.
    pub fn baggage_and_trace_context() -> (r: CompositePropagator)
        ensures
            r@ == seq![PropagatorKind::Baggage, PropagatorKind::TraceContext],
    {
        let r = CompositePropagator { propagators: vec![PropagatorKind::Baggage, PropagatorKind::TraceContext] };
        assert(r@ =~= seq![PropagatorKind::Baggage, PropagatorKind::TraceContext]);
        r
    }

    /// Span identity alone.
    pub fn trace_context() -> (r: CompositePropagator)
        ensures
            r@ == seq![PropagatorKind::TraceContext],
    {
        let r = CompositePropagator { propagators: vec![PropagatorKind::TraceContext] };
        assert(r@ =~= seq![PropagatorKind::TraceContext]);
        r
    }

    /// Each propagator writes its part of `cx` into the carrier, in order.
    pub fn inject(&self, cx: &Context, carrier: &mut HeaderCarrier)
        ensures
            final(carrier)@ == inject_all(self@, cx.span, cx.baggage@, old(carrier)@),
    {
        let mut i: usize = 0;
        assert(self@.take(0) =~= Seq::<PropagatorKind>::empty());
        while i < self.propagators.len()
            invariant
                0 <= i <= self@.len(),
                carrier@ == inject_all(self@.take(i as int), cx.span, cx.baggage@, old(carrier)@),
            decreases self@.len() - i,
        {
            assert(self@.take(i + 1).drop_last() =~= self@.take(i as int));
            assert(self@.take(i + 1).last() == self@[i as int]);
            match self.propagators[i] {
                PropagatorKind::TraceContext => inject_span(&cx.span, carrier),
                PropagatorKind::Baggage => inject_baggage(&cx.baggage, carrier),
            }
            i = i + 1;
        }
        assert(self@.take(self@.len() as int) =~= self@);
    }

    /// Each propagator reads its part from the carrier, in order, into one context.
    pub fn extract(&self, carrier: &HeaderCarrier) -> (r: Context)
        ensures
            (r.span, r.baggage@) == extract_all(self@, carrier@),
            r.baggage.wf(),
    {
        let mut cx = Context::new();
        let mut i: usize = 0;
        assert(self@.take(0) =~= Seq::<PropagatorKind>::empty());
        while i < self.propagators.len()
            invariant
                0 <= i <= self@.len(),
                (cx.span, cx.baggage@) == extract_all(self@.take(i as int), carrier@),
                cx.baggage.wf(),
            decreases self@.len() - i,
        {
            assert(self@.take(i + 1).drop_last() =~= self@.take(i as int));
            assert(self@.take(i + 1).last() == self@[i as int]);
            match self.propagators[i] {
                PropagatorKind::TraceContext => {
                    let sc = extract_span(carrier);
                    if sc.is_valid() {
                        cx.span = sc;
                    }
                },
                PropagatorKind::Baggage => {
                    let k = crate::baggage::baggage_key();
                    if carrier.get(k.as_slice()).is_some() {
                        cx.baggage = extract_baggage(carrier);
                    }
                },
            }
            i = i + 1;
        }
        assert(self@.take(self@.len() as int) =~= self@);
        cx
    }
}

/// Extraction reads nothing but the `traceparent` and `baggage` fields: two
/// carriers that agree on those give the same context, however their fields
/// are ordered and whatever else they hold.
pub proof fn law_extract_reads_only_its_fields(ks: Seq<PropagatorKind>, s1: PairSeq, s2: PairSeq)
    requires
        lookup(s1, traceparent_name()) == lookup(s2, traceparent_name()),
        lookup(s1, baggage_name()) == lookup(s2, baggage_name()),
    ensures
        extract_all(ks, s1) == extract_all(ks, s2),
    decreases ks.len(),
{
    if ks.len() > 0 {
        law_extract_reads_only_its_fields(ks.drop_last(), s1, s2);
    }
}

proof fn lemma_extract_two(ks: Seq<PropagatorKind>, s: PairSeq, span: SpanContext, bag: PairSeq)
    requires
        ks == seq![PropagatorKind::TraceContext, PropagatorKind::Baggage] || ks == seq![
            PropagatorKind::Baggage,
            PropagatorKind::TraceContext,
        ],
        span.valid(),
        extract_span_spec(s) == span.as_remote(),
        lookup(s, baggage_name()) is Some,
        extract_baggage_spec(s) == bag,
    ensures
        extract_all(ks, s) == (span.as_remote(), bag),
{
    let one = seq![ks[0]];
    assert(ks.drop_last() =~= one);
    assert(one.drop_last() =~= Seq::<PropagatorKind>::empty());
    assert(ks.last() == ks[1]);
    assert(one.last() == ks[0]);
    let z = Seq::<PropagatorKind>::empty();
    assert(extract_all(z, s) == (SpanContext::empty_spec(), Seq::<(Seq<u8>, Seq<u8>)>::empty()));
    let a1 = extract_all(one, s);
    if ks[0] == PropagatorKind::TraceContext {
        assert(a1 == (span.as_remote(), Seq::<(Seq<u8>, Seq<u8>)>::empty()));
    } else {
        assert(a1 == (SpanContext::empty_spec(), bag));
    }
}

proof fn lemma_inject_two(ks: Seq<PropagatorKind>, span: SpanContext, bag: PairSeq)
    requires
        ks == seq![PropagatorKind::TraceContext, PropagatorKind::Baggage] || ks == seq![
            PropagatorKind::Baggage,
            PropagatorKind::TraceContext,
        ],
        span.valid(),
        baggage_value(bag).len() > 0,
    ensures
        lookup(inject_all(ks, span, bag, Seq::empty()), traceparent_name()) == Some(traceparent_value(span)),
        lookup(inject_all(ks, span, bag, Seq::empty()), baggage_name()) == Some(baggage_value(bag)),
{
    let e = Seq::<(Seq<u8>, Seq<u8>)>::empty();
    let tn = traceparent_name();
    let bn = baggage_name();
    let tv = traceparent_value(span);
    let bv = baggage_value(bag);
    assert(tn != bn) by {
        assert(tn.len() != bn.len());
    }
    let one = seq![ks[0]];
    assert(ks.drop_last() =~= one);
    assert(one.drop_last() =~= Seq::<PropagatorKind>::empty());
    assert(ks.last() == ks[1]);
    assert(one.last() == ks[0]);
    assert(inject_all(Seq::<PropagatorKind>::empty(), span, bag, e) == e);
    if ks[0] == PropagatorKind::TraceContext {
        let s1 = crate::pairs::put(e, tn, tv);
        assert(inject_all(one, span, bag, e) == s1);
        lemma_lookup_put(e, tn, tv, tn);
        lemma_lookup_put(s1, bn, bv, tn);
        lemma_lookup_put(s1, bn, bv, bn);
    } else {
        let s1 = crate::pairs::put(e, bn, bv);
        assert(inject_all(one, span, bag, e) == s1);
        lemma_lookup_put(e, bn, bv, bn);
        lemma_lookup_put(s1, tn, tv, bn);
        lemma_lookup_put(s1, tn, tv, tn);
    }
}

/// With a span-identity and a baggage propagator registered, in either order,
/// injecting a context with a valid span and non-empty baggage (that fits, with
/// non-empty names) into an empty carrier writes two separate fields, one per
/// concern, and extracting from it gives back both parts.
pub proof fn law_disjoint_propagators(ks: Seq<PropagatorKind>, span: SpanContext, bag: PairSeq)
    requires
        ks == seq![PropagatorKind::TraceContext, PropagatorKind::Baggage] || ks == seq![
            PropagatorKind::Baggage,
            PropagatorKind::TraceContext,
        ],
        span.valid(),
        bag.len() > 0,
        names_unique(bag),
        forall|i: int| 0 <= i < bag.len() ==> (#[trigger] bag[i]).0.len() > 0,
        join_entries(bag).len() <= BAGGAGE_MAX_LEN,
    ensures
        lookup(inject_all(ks, span, bag, Seq::empty()), traceparent_name()) == Some(traceparent_value(span)),
        lookup(inject_all(ks, span, bag, Seq::empty()), baggage_name()) == Some(baggage_value(bag)),
        extract_all(ks, inject_all(ks, span, bag, Seq::empty())) == (span.as_remote(), bag),
{
    law_baggage_round_trip(bag);
    lemma_traceparent_round_trip(span);
    lemma_kept_all(bag, BAGGAGE_MAX_LEN as nat, 0);
    assert(bag.take(bag.len() as int) =~= bag);
    lemma_join_take_le(bag, 1);
    lemma_join_step(bag, 0);
    lemma_inject_two(ks, span, bag);
    lemma_extract_two(ks, inject_all(ks, span, bag, Seq::empty()), span, bag);
}

/// The value that propagator `k` writes under field name `n`, if any.
pub open spec fn written_by(k: PropagatorKind, span: SpanContext, bag: PairSeq, n: Seq<u8>) -> Option<Seq<u8>> {
    match k {
        PropagatorKind::TraceContext => if span.valid() && n == traceparent_name() {
            Some(traceparent_value(span))
        } else {
            None
        },
        PropagatorKind::Baggage => if baggage_value(bag).len() > 0 && n == baggage_name() {
            Some(baggage_value(bag))
        } else {
            None
        },
    }
}

/// The value that the last of the propagators `ks` to write field `n` writes.
pub open spec fn last_written(ks: Seq<PropagatorKind>, span: SpanContext, bag: PairSeq, n: Seq<u8>) -> Option<Seq<u8>>
    decreases ks.len(),
{
    if ks.len() == 0 {
        None
    } else {
        match written_by(ks.last(), span, bag, n) {
            Some(v) => Some(v),
            None => last_written(ks.drop_last(), span, bag, n),
        }
    }
}

/// After injection, a field holds what the last propagator to write it wrote,
/// or what it held before if none did.
pub proof fn lemma_inject_all_lookup(ks: Seq<PropagatorKind>, span: SpanContext, bag: PairSeq, s: PairSeq, n: Seq<u8>)
    ensures
        lookup(inject_all(ks, span, bag, s), n) == match last_written(ks, span, bag, n) {
            Some(v) => Some(v),
            None => lookup(s, n),
        },
    decreases ks.len(),
{
    if ks.len() > 0 {
        let prev = inject_all(ks.drop_last(), span, bag, s);
        lemma_inject_all_lookup(ks.drop_last(), span, bag, s, n);
        match ks.last() {
            PropagatorKind::TraceContext => if span.valid() {
                lemma_lookup_put(prev, traceparent_name(), traceparent_value(span), n);
            },
            PropagatorKind::Baggage => if baggage_value(bag).len() > 0 {
                lemma_lookup_put(prev, baggage_name(), baggage_value(bag), n);
            },
        }
    }
}

/// Injecting the same context twice leaves every header field with the value
/// that injecting it once gave.
pub proof fn law_inject_idempotent(ks: Seq<PropagatorKind>, span: SpanContext, bag: PairSeq, s: PairSeq, n: Seq<u8>)
    ensures
        lookup(inject_all(ks, span, bag, inject_all(ks, span, bag, s)), n) == lookup(
            inject_all(ks, span, bag, s),
            n,
        ),
{
    lemma_inject_all_lookup(ks, span, bag, s, n);
    lemma_inject_all_lookup(ks, span, bag, inject_all(ks, span, bag, s), n);
}

} // verus!
