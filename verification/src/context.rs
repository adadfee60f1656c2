//! The SpanContext model: the immutable trace identity (trace id, span id,
//! flags, vendor state) that propagators serialize and deserialize, and the
//! context value that carries it.

use vstd::prelude::*;
use crate::tracestate::{TraceState, state_wf};

verus! {

/// The sampled bit of the trace flags.
pub const FLAG_SAMPLED: u8 = 1;

/// A 16-byte trace identifier; all-zero values are invalid.
#[derive(Clone, Copy, PartialEq, Eq, Structural, Debug)]
pub struct TraceId(pub u128);

/// An 8-byte span identifier; all-zero values are invalid.
#[derive(Clone, Copy, PartialEq, Eq, Structural, Debug)]
pub struct SpanId(pub u64);

/// A 1-byte bitfield; bit 0 is "sampled", the rest is reserved and passed
/// through unchanged.
#[derive(Clone, Copy, PartialEq, Eq, Structural, Debug)]
pub struct TraceFlags(pub u8);

impl TraceId {
    /// A trace id is valid when it is not all-zero.
    pub fn is_valid(&self) -> (r: bool)
        ensures
            r == (self.0 != 0),
    {
        self.0 != 0
    }
}

impl SpanId {
    /// A span id is valid when it is not all-zero.
    pub fn is_valid(&self) -> (r: bool)
        ensures
            r == (self.0 != 0),
    {
        self.0 != 0
    }
}

impl TraceFlags {
    /// Whether the sampled bit is set.
    pub fn is_sampled(&self) -> (r: bool)
        ensures
            r == ((self.0 & FLAG_SAMPLED) == FLAG_SAMPLED),
    {
        (self.0 & FLAG_SAMPLED) == FLAG_SAMPLED
    }
}

/// True exactly when neither identifier is all-zero; both have their exact
/// required width by construction.
pub fn validate(trace_id: &TraceId, span_id: &SpanId) -> (r: bool)
    ensures
        r == (trace_id.0 != 0 && span_id.0 != 0),
{
    trace_id.0 != 0 && span_id.0 != 0
}

/// The mathematical model of a span context.
pub struct SpanContextView {
    pub trace_id: u128,
    pub span_id: u64,
    pub flags: u8,
    pub state: Seq<(Seq<char>, Seq<char>)>,
    pub is_remote: bool,
}

impl SpanContextView {
    /// A span context is valid when neither identifier is all-zero.
    pub open spec fn valid(self) -> bool {
        self.trace_id != 0 && self.span_id != 0
    }

    /// Well-formedness: the trace state entries are well-formed.
    pub open spec fn wf(self) -> bool {
        state_wf(self.state)
    }
}

/// The immutable identity of a position within a distributed trace.
pub struct SpanContext {
    trace_id: TraceId,
    span_id: SpanId,
    trace_flags: TraceFlags,
    trace_state: TraceState,
    is_remote: bool,
}

impl View for SpanContext {
    type V = SpanContextView;

    closed spec fn view(&self) -> SpanContextView {
        SpanContextView {
            trace_id: self.trace_id.0,
            span_id: self.span_id.0,
            flags: self.trace_flags.0,
            state: self.trace_state@,
            is_remote: self.is_remote,
        }
    }
}

impl SpanContext {
    /// Builds a span context from its parts; `is_remote` records whether it
    /// was read off the wire.
    pub fn new(
        trace_id: TraceId,
        span_id: SpanId,
        trace_flags: TraceFlags,
        trace_state: TraceState,
        is_remote: bool,
    ) -> (r: SpanContext)
        ensures
            r@ == (SpanContextView {
                trace_id: trace_id.0,
                span_id: span_id.0,
                flags: trace_flags.0,
                state: trace_state@,
                is_remote,
            }),
            trace_state.wf() ==> r@.wf(),
    {
        SpanContext { trace_id, span_id, trace_flags, trace_state, is_remote }
    }

    /// The trace identifier.
    pub fn trace_id(&self) -> (r: TraceId)
        ensures
            r.0 == self@.trace_id,
    {
        self.trace_id
    }

    /// The span identifier.
    pub fn span_id(&self) -> (r: SpanId)
        ensures
            r.0 == self@.span_id,
    {
        self.span_id
    }

    /// The trace flags.
    pub fn trace_flags(&self) -> (r: TraceFlags)
        ensures
            r.0 == self@.flags,
    {
        self.trace_flags
    }

    /// The vendor trace state.
    pub fn trace_state(&self) -> (r: &TraceState)
        ensures
            r@ == self@.state,
    {
        &self.trace_state
    }

    /// Whether this context was produced by extraction from the wire.
    pub fn is_remote(&self) -> (r: bool)
        ensures
            r == self@.is_remote,
    {
        self.is_remote
    }

    /// Whether neither identifier is all-zero.
    pub fn is_valid(&self) -> (r: bool)
        ensures
            r == self@.valid(),
    {
        self.trace_id.0 != 0 && self.span_id.0 != 0
    }

    /// Whether the sampled bit of the flags is set.
    pub fn is_sampled(&self) -> (r: bool)
        ensures
            r == ((self@.flags & FLAG_SAMPLED) == FLAG_SAMPLED),
    {
        self.trace_flags.is_sampled()
    }
}

impl Clone for SpanContext {
    /// Cloning keeps the whole identity.
    fn clone(&self) -> (r: Self)
        ensures
            r@ == self@,
    {
        SpanContext {
            trace_id: self.trace_id,
            span_id: self.span_id,
            trace_flags: self.trace_flags,
            trace_state: self.trace_state.clone(),
            is_remote: self.is_remote,
        }
    }
}

/// The mathematical model of a context.
pub struct ContextView {
    pub span: Option<SpanContextView>,
}

impl ContextView {
    /// Whether the context carries a valid span context.
    pub open spec fn has_valid_span(self) -> bool {
        match self.span {
            Option::Some(c) => c.valid(),
            Option::None => false,
        }
    }
}

/// A context optionally carrying the span identity under which work runs.
pub struct Context {
    span: Option<SpanContext>,
}

impl View for Context {
    type V = ContextView;

    closed spec fn view(&self) -> ContextView {
        ContextView {
            span: match self.span {
                Option::Some(sc) => Option::Some(sc@),
                Option::None => Option::None,
            },
        }
    }
}

impl Context {
    /// A context carrying no span context.
    pub fn new() -> (r: Context)
        ensures
            r@ == (ContextView { span: Option::None }),
    {
        Context { span: Option::None }
    }

    /// A context carrying the given span context.
    pub fn with_span_context(span_context: SpanContext) -> (r: Context)
        ensures
            r@ == (ContextView { span: Option::Some(span_context@) }),
    {
        Context { span: Option::Some(span_context) }
    }

    /// The span context this context carries, if any.
    pub fn span_context(&self) -> (r: Option<&SpanContext>)
        ensures
            match r {
                Option::Some(sc) => self@.span == Option::Some(sc@),
                Option::None => self@.span is None,
            },
    {
        match &self.span {
            Option::Some(sc) => Option::Some(sc),
            Option::None => Option::None,
        }
    }
}

impl Clone for Context {
    /// Cloning keeps the carried span context.
    fn clone(&self) -> (r: Self)
        ensures
            r@ == self@,
    {
        match &self.span {
            Option::Some(sc) => Context { span: Option::Some(sc.clone()) },
            Option::None => Context { span: Option::None },
        }
    }
}

} // verus!
