//! W3C-style trace-context propagation: a verified SpanContext model, a
//! carrier abstraction over header maps, and propagators that encode and
//! decode the `traceparent`, `tracestate` and `traceresponse` headers.

pub mod hex;
pub mod carrier;
pub mod tracestate;
pub mod context;
pub mod propagator;
pub mod process;
