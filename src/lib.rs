//! Distributed trace-context propagation: a span's identity and its baggage
//! written into HTTP header fields by one process and read back by another.
//!
//! - `span_context`: the identity of a span.
//! - `traceparent`: the span-identity propagator and its wire format.
//! - `baggage`: baggage and the baggage propagator.
//! - `composite`: the propagation context and the composite propagator.
//! - `spans`: starting root and child spans.
//! - `service`: the greeting services' request handling.
//! - `carrier`, `pairs`, `hex`, `percent`, `text`: the byte-level pieces.

pub mod baggage;
pub mod carrier;
pub mod composite;
pub mod hex;
pub mod pairs;
pub mod percent;
pub mod service;
pub mod span_context;
pub mod spans;
pub mod text;
pub mod traceparent;
