use trace_propagation::baggage::{decode_baggage, encode_baggage, extract_baggage, inject_baggage, Baggage, BAGGAGE_MAX_LEN};
use trace_propagation::carrier::HeaderCarrier;
use trace_propagation::composite::{CompositePropagator, Context, PropagatorKind};
use trace_propagation::percent::{percent_decode_bytes, push_percent_encoded};
use trace_propagation::service::{format_greeting, greeting_from, handle_format, handle_publish, outbound_headers};
use trace_propagation::span_context::SpanContext;
use trace_propagation::spans::{child_context, pick_span_id, root_context, start_span};
use trace_propagation::traceparent::{decode_traceparent, encode_traceparent, extract_span, inject_span};

const EXAMPLE: &str = "00-4bf92f3577b34da6a3ce929d0e0e4736-00f067aa0ba902b7-01";
const EXAMPLE_TRACE: u128 = 0x4bf92f3577b34da6a3ce929d0e0e4736;
const EXAMPLE_SPAN: u64 = 0x00f067aa0ba902b7;

fn example() -> SpanContext {
    SpanContext::new(EXAMPLE_TRACE, EXAMPLE_SPAN, 1, false)
}

fn bag(entries: &[(&str, &str)]) -> Baggage {
    let mut b = Baggage::new();
    for (k, v) in entries {
        b.insert(k.as_bytes(), v.as_bytes());
    }
    b
}

fn entries_of(b: &Baggage) -> Vec<(String, String)> {
    b.entries()
        .iter()
        .map(|(k, v)| (String::from_utf8(k.clone()).unwrap(), String::from_utf8(v.clone()).unwrap()))
        .collect()
}

fn header(c: &HeaderCarrier, name: &str) -> Option<String> {
    c.get(name.as_bytes()).map(|v| String::from_utf8(v).unwrap())
}

#[test]
fn traceparent_encodes_the_wire_format() {
    assert_eq!(encode_traceparent(&example()), EXAMPLE.as_bytes().to_vec());
    let c = SpanContext::new(1, 2, 0, true);
    assert_eq!(
        String::from_utf8(encode_traceparent(&c)).unwrap(),
        "00-00000000000000000000000000000001-0000000000000002-00"
    );
}

#[test]
fn traceparent_decodes_the_example() {
    let c = decode_traceparent(EXAMPLE.as_bytes());
    assert_eq!(c.trace_id, EXAMPLE_TRACE);
    assert_eq!(c.span_id, EXAMPLE_SPAN);
    assert_eq!(c.trace_flags, 1);
    assert!(c.is_remote);
    assert!(c.is_sampled());
}

#[test]
fn round_trip_keeps_ids_and_flags() {
    for (t, s, f) in [(EXAMPLE_TRACE, EXAMPLE_SPAN, 1u8), (1, 1, 0), (u128::MAX, u64::MAX, 0xff), (0xabc, 0xdef, 2)] {
        let c = SpanContext::new(t, s, f, false);
        let mut carrier = HeaderCarrier::new();
        inject_span(&c, &mut carrier);
        let back = extract_span(&carrier);
        assert_eq!((back.trace_id, back.span_id, back.trace_flags), (t, s, f));
        assert!(back.is_remote);
    }
}

#[test]
fn inject_twice_gives_identical_values() {
    let mut first = HeaderCarrier::new();
    inject_span(&example(), &mut first);
    let mut second = HeaderCarrier::new();
    inject_span(&example(), &mut second);
    assert_eq!(header(&first, "traceparent"), header(&second, "traceparent"));
    let once = header(&first, "traceparent");
    inject_span(&example(), &mut first);
    assert_eq!(header(&first, "traceparent"), once);
    assert_eq!(first.fields().len(), 1);
}

#[test]
fn invalid_context_writes_nothing() {
    let mut carrier = HeaderCarrier::new();
    inject_span(&SpanContext::empty(), &mut carrier);
    inject_span(&SpanContext::new(5, 0, 1, false), &mut carrier);
    assert!(carrier.fields().is_empty());
}

#[test]
fn garbage_traceparent_gives_empty_context() {
    let mut carrier = HeaderCarrier::new();
    carrier.set(b"traceparent", b"garbage");
    let c = extract_span(&carrier);
    assert_eq!(c, SpanContext::empty());
    assert!(!c.is_valid());
}

#[test]
fn malformed_traceparents_are_rejected() {
    let bad = [
        "",
        "01-4bf92f3577b34da6a3ce929d0e0e4736-00f067aa0ba902b7-01",
        "00-4BF92F3577B34DA6A3CE929D0E0E4736-00f067aa0ba902b7-01",
        "00-00000000000000000000000000000000-00f067aa0ba902b7-01",
        "00-4bf92f3577b34da6a3ce929d0e0e4736-0000000000000000-01",
        "00-4bf92f3577b34da6a3ce929d0e0e4736-00f067aa0ba902b7",
        "00-4bf92f3577b34da6a3ce929d0e0e4736-00f067aa0ba902b7-0g",
        "00_4bf92f3577b34da6a3ce929d0e0e4736-00f067aa0ba902b7-01",
        "00-4bf92f3577b34da6a3ce929d0e0e4736-00f067aa0ba902b7-01-",
    ];
    for h in bad {
        assert_eq!(decode_traceparent(h.as_bytes()), SpanContext::empty(), "{}", h);
    }
}

#[test]
fn missing_traceparent_gives_empty_context() {
    assert_eq!(extract_span(&HeaderCarrier::new()), SpanContext::empty());
}

#[test]
fn header_names_ignore_case() {
    let mut carrier = HeaderCarrier::new();
    carrier.set(b"TraceParent", EXAMPLE.as_bytes());
    assert_eq!(header(&carrier, "traceparent").as_deref(), Some(EXAMPLE));
    assert_eq!(extract_span(&carrier).trace_id, EXAMPLE_TRACE);
    carrier.set(b"TRACEPARENT", b"x");
    assert_eq!(carrier.fields().len(), 1);
    assert_eq!(header(&carrier, "Traceparent").as_deref(), Some("x"));
}

#[test]
fn percent_encoding_escapes_reserved_bytes() {
    let mut out = Vec::new();
    push_percent_encoded(&mut out, b"a,b=c d%;");
    assert_eq!(String::from_utf8(out.clone()).unwrap(), "a%2Cb%3Dc%20d%25%3B");
    assert_eq!(percent_decode_bytes(&out), Some(b"a,b=c d%;".to_vec()));
    assert_eq!(percent_decode_bytes(b"%2c%3d"), Some(b",=".to_vec()));
    assert_eq!(percent_decode_bytes(b"%zz"), None);
    assert_eq!(percent_decode_bytes(b"ab%2"), None);
}

#[test]
fn baggage_encodes_entries_in_order() {
    let b = bag(&[("greeting", "Howdy"), ("userId", "alice")]);
    assert_eq!(String::from_utf8(encode_baggage(&b)).unwrap(), "greeting=Howdy,userId=alice");
}

#[test]
fn baggage_value_with_comma_and_equals_round_trips() {
    let b = bag(&[("note", "a,b=c"), ("k", "x y")]);
    let mut carrier = HeaderCarrier::new();
    inject_baggage(&b, &mut carrier);
    assert_eq!(header(&carrier, "baggage").as_deref(), Some("note=a%2Cb%3Dc,k=x%20y"));
    let back = extract_baggage(&carrier);
    assert_eq!(entries_of(&back), vec![("note".to_string(), "a,b=c".to_string()), ("k".to_string(), "x y".to_string())]);
}

#[test]
fn baggage_skips_malformed_entries() {
    let b = decode_baggage(b"a=1,bad,b=%zz,=4, c = 3 ;meta=x");
    assert_eq!(entries_of(&b), vec![("a".to_string(), "1".to_string()), ("c".to_string(), "3".to_string())]);
}

#[test]
fn baggage_later_entry_replaces_earlier() {
    let b = decode_baggage(b"a=1,b=2,a=3");
    assert_eq!(entries_of(&b), vec![("b".to_string(), "2".to_string()), ("a".to_string(), "3".to_string())]);
    let mut c = bag(&[("x", "1"), ("y", "2")]);
    c.insert(b"x", b"9");
    assert_eq!(entries_of(&c), vec![("y".to_string(), "2".to_string()), ("x".to_string(), "9".to_string())]);
    assert_eq!(c.len(), 2);
}

#[test]
fn empty_baggage_writes_no_header() {
    let mut carrier = HeaderCarrier::new();
    inject_baggage(&Baggage::new(), &mut carrier);
    assert!(carrier.fields().is_empty());
    assert_eq!(extract_baggage(&carrier).len(), 0);
    assert_eq!(decode_baggage(b"").len(), 0);
}

#[test]
fn oversized_baggage_drops_trailing_entries() {
    let mut b = Baggage::new();
    let value = "v".repeat(1000);
    for i in 0..10 {
        b.insert(format!("k{}", i).as_bytes(), value.as_bytes());
    }
    let encoded = encode_baggage(&b);
    assert!(encoded.len() <= BAGGAGE_MAX_LEN);
    // each entry is 1003 bytes and each separator one more: eight fit in 8192
    assert_eq!(encoded.len(), 8 * 1003 + 7);
    let back = decode_baggage(&encoded);
    assert_eq!(back.len(), 8);
    assert_eq!(back.entries()[7].0, b"k7".to_vec());
    let mut huge = Baggage::new();
    huge.insert(b"k", "v".repeat(9000).as_bytes());
    assert!(encode_baggage(&huge).is_empty());
    let mut carrier = HeaderCarrier::new();
    inject_baggage(&huge, &mut carrier);
    assert!(carrier.fields().is_empty());
}

#[test]
fn composite_writes_two_independent_headers() {
    let prop = CompositePropagator::baggage_and_trace_context();
    let cx = Context::from_parts(example(), bag(&[("greeting", "Howdy")]));
    let carrier = outbound_headers(&prop, &cx);
    assert_eq!(carrier.fields().len(), 2);
    assert_eq!(header(&carrier, "traceparent").as_deref(), Some(EXAMPLE));
    assert_eq!(header(&carrier, "baggage").as_deref(), Some("greeting=Howdy"));
    let mut again = carrier;
    prop.inject(&cx, &mut again);
    assert_eq!(again.fields().len(), 2);
    assert_eq!(header(&again, "traceparent").as_deref(), Some(EXAMPLE));
    assert_eq!(header(&again, "baggage").as_deref(), Some("greeting=Howdy"));
}

#[test]
fn composite_extracts_both_parts_in_any_field_order() {
    for order in [[0usize, 1], [1, 0]] {
        let fields = [("traceparent", EXAMPLE), ("baggage", "greeting=Howdy,userId=alice")];
        let mut carrier = HeaderCarrier::new();
        carrier.set(b"content-type", b"text/plain");
        for i in order {
            carrier.set(fields[i].0.as_bytes(), fields[i].1.as_bytes());
        }
        for kinds in [
            vec![PropagatorKind::TraceContext, PropagatorKind::Baggage],
            vec![PropagatorKind::Baggage, PropagatorKind::TraceContext],
        ] {
            let cx = CompositePropagator::new(kinds).extract(&carrier);
            assert_eq!(cx.span.trace_id, EXAMPLE_TRACE);
            assert_eq!(cx.span.span_id, EXAMPLE_SPAN);
            assert_eq!(
                entries_of(&cx.baggage),
                vec![("greeting".to_string(), "Howdy".to_string()), ("userId".to_string(), "alice".to_string())]
            );
        }
    }
}

#[test]
fn composite_missing_header_leaves_other_part() {
    let prop = CompositePropagator::baggage_and_trace_context();
    let mut carrier = HeaderCarrier::new();
    carrier.set(b"baggage", b"greeting=Howdy");
    let cx = prop.extract(&carrier);
    assert_eq!(cx.span, SpanContext::empty());
    assert_eq!(cx.baggage.len(), 1);
    let mut only_span = HeaderCarrier::new();
    only_span.set(b"traceparent", EXAMPLE.as_bytes());
    let cx = prop.extract(&only_span);
    assert_eq!(cx.span.trace_id, EXAMPLE_TRACE);
    assert_eq!(cx.baggage.len(), 0);
}

#[test]
fn trace_context_only_ignores_baggage() {
    let prop = CompositePropagator::trace_context();
    let cx = Context::from_parts(example(), bag(&[("greeting", "Howdy")]));
    let carrier = outbound_headers(&prop, &cx);
    assert_eq!(carrier.fields().len(), 1);
    assert_eq!(header(&carrier, "baggage"), None);
}

#[test]
fn server_continues_the_callers_trace() {
    let prop = CompositePropagator::baggage_and_trace_context();
    let mut headers = HeaderCarrier::new();
    headers.set(b"traceparent", EXAMPLE.as_bytes());
    let reply = handle_format(&prop, &headers, Some(b"Bob"));
    assert_eq!(reply.span.trace_id, EXAMPLE_TRACE);
    assert_ne!(reply.span.span_id, EXAMPLE_SPAN);
    assert_ne!(reply.span.span_id, 0);
    assert!(!reply.span.is_remote);
    assert_eq!(reply.parent.span_id, EXAMPLE_SPAN);
    assert!(reply.parent.is_remote);
    assert_eq!(String::from_utf8(reply.response).unwrap(), "Hello, Bob!");
    let published = handle_publish(&prop, &headers);
    assert_eq!(published.parent.span_id, EXAMPLE_SPAN);
    assert_eq!(published.span.trace_id, EXAMPLE_TRACE);
    assert_ne!(published.span.span_id, EXAMPLE_SPAN);
}

#[test]
fn formatter_greeting_defaults_to_hello() {
    let prop = CompositePropagator::baggage_and_trace_context();
    let reply = handle_format(&prop, &HeaderCarrier::new(), Some(b"Bob"));
    assert_eq!(String::from_utf8(reply.response).unwrap(), "Hello, Bob!");
    assert!(reply.span.is_valid());
    assert_eq!(greeting_from(&Baggage::new()), b"Hello".to_vec());
}

#[test]
fn formatter_uses_greeting_from_baggage() {
    let prop = CompositePropagator::baggage_and_trace_context();
    let mut headers = HeaderCarrier::new();
    headers.set(b"baggage", b"greeting=Howdy");
    let reply = handle_format(&prop, &headers, Some(b"Bob"));
    assert_eq!(String::from_utf8(reply.response).unwrap(), "Howdy, Bob!");
    let reply = handle_format(&prop, &headers, None);
    assert_eq!(String::from_utf8(reply.response).unwrap(), "Howdy there!");
}

#[test]
fn format_greeting_shapes() {
    assert_eq!(format_greeting(b"Hello", Some(b"Bob")), b"Hello, Bob!".to_vec());
    assert_eq!(format_greeting(b"Hi", None), b"Hi there!".to_vec());
    assert_eq!(format_greeting(b"Hi", Some(b"")), b"Hi, !".to_vec());
}

#[test]
fn span_ids_avoid_zero_and_the_parent() {
    assert_eq!(pick_span_id(7, 3), 7);
    assert_eq!(pick_span_id(3, 3), 4);
    assert_eq!(pick_span_id(0, 3), 4);
    assert_eq!(pick_span_id(u64::MAX, u64::MAX), 1);
    let child = child_context(&example(), EXAMPLE_SPAN);
    assert_eq!(child.trace_id, EXAMPLE_TRACE);
    assert_eq!(child.span_id, EXAMPLE_SPAN + 1);
    assert_eq!(child.trace_flags, 1);
    let root = root_context(0, 0);
    assert_eq!((root.trace_id, root.span_id, root.trace_flags), (1, 1, 1));
    assert_eq!(root_context(42, 9).trace_id, 42);
}

#[test]
fn started_spans_have_fresh_valid_ids() {
    let root = start_span(&SpanContext::empty());
    assert!(root.is_valid());
    assert!(root.is_sampled());
    let child = start_span(&root);
    assert_eq!(child.trace_id, root.trace_id);
    assert_ne!(child.span_id, root.span_id);
    let other = start_span(&SpanContext::empty());
    assert_ne!((other.trace_id, other.span_id), (root.trace_id, root.span_id));
}
