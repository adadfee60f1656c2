//! The request and response propagators: encoding a span context into the
//! `traceparent`/`tracestate` request headers or the `traceresponse`
//! response header, and decoding it back. Decoding is fail-soft: any
//! malformed input yields the unchanged parent context, never an error.

use vstd::prelude::*;
use crate::hex::{
    all_hex, hex_val, hex_str_of, encode_hex, parse_hex, push_char, lemma_pow16_values,
    lemma_hex_val_bound,
};
use crate::carrier::{Extractor, Injector, ascii_lower};
use crate::context::{Context, ContextView, SpanContext, SpanContextView, TraceId, SpanId,
    TraceFlags};
use crate::tracestate::{TraceState, encode_entries, parse_tracestate, state_wf,
    lemma_tracestate_round_trip};

verus! {

/// The wire form of a span identity: `version-traceid-spanid-flags`, with
/// version `00` and lowercase hexadecimal throughout.
pub open spec fn traceparent_value(trace_id: u128, span_id: u64, flags: u8) -> Seq<char> {
    seq!['0', '0', '-'] + hex_str_of(trace_id as nat, 32) + seq!['-'] + hex_str_of(
        span_id as nat,
        16,
    ) + seq!['-'] + hex_str_of(flags as nat, 2)
}

/// A header value in the accepted shape: four `-`-separated fields of 2, 32,
/// 16 and 2 lowercase hexadecimal digits, version not `ff`, identifiers not
/// all-zero. Unknown versions in this exact shape are accepted, for forward
/// compatibility.
pub open spec fn valid_traceparent(s: Seq<char>) -> bool {
    &&& s.len() == 55
    &&& s[2] == '-'
    &&& s[35] == '-'
    &&& s[52] == '-'
    &&& all_hex(s.subrange(0, 2))
    &&& all_hex(s.subrange(3, 35))
    &&& all_hex(s.subrange(36, 52))
    &&& all_hex(s.subrange(53, 55))
    &&& !(s[0] == 'f' && s[1] == 'f')
    &&& hex_val(s.subrange(3, 35)) != 0
    &&& hex_val(s.subrange(36, 52)) != 0
}

/// The fields a header value denotes, `None` where it is malformed.
pub open spec fn traceparent_fields(s: Seq<char>) -> Option<(u128, u64, u8)> {
    if valid_traceparent(s) {
        Option::Some(
            (
                hex_val(s.subrange(3, 35)) as u128,
                hex_val(s.subrange(36, 52)) as u64,
                hex_val(s.subrange(53, 55)) as u8,
            ),
        )
    } else {
        Option::None
    }
}

/// Encodes the span identity as a `traceparent`/`traceresponse` value.
pub fn encode_traceparent(span_context: &SpanContext) -> (r: String)
    ensures
        r@ == traceparent_value(span_context@.trace_id, span_context@.span_id, span_context@.flags),
{
    proof {
        lemma_pow16_values();
    }
    let mut out = String::new();
    push_char(&mut out, '0');
    push_char(&mut out, '0');
    push_char(&mut out, '-');
    let tid = encode_hex(span_context.trace_id().0, 32);
    out.append(tid.as_str());
    push_char(&mut out, '-');
    let sid = encode_hex(span_context.span_id().0 as u128, 16);
    out.append(sid.as_str());
    push_char(&mut out, '-');
    let flags = encode_hex(span_context.trace_flags().0 as u128, 2);
    out.append(flags.as_str());
    proof {
        assert(out@ =~= traceparent_value(
            span_context@.trace_id,
            span_context@.span_id,
            span_context@.flags,
        ));
    }
    out
}

/// Decodes a `traceparent`/`traceresponse` value, as `traceparent_fields`
/// describes: `None` on any malformed input.
pub fn parse_traceparent(s: &str) -> (r: Option<(u128, u64, u8)>)
    ensures
        r == traceparent_fields(s@),
{
    let n = s.unicode_len();
    if n != 55 {
        return None;
    }
    if s.get_char(2) != '-' || s.get_char(35) != '-' || s.get_char(52) != '-' {
        return None;
    }
    if parse_hex(s, 0, 2).is_none() {
        return None;
    }
    if s.get_char(0) == 'f' && s.get_char(1) == 'f' {
        return None;
    }
    let trace_id = match parse_hex(s, 3, 35) {
        Some(v) => v,
        None => {
            return None;
        },
    };
    if trace_id == 0 {
        return None;
    }
    let span_id_wide = match parse_hex(s, 36, 52) {
        Some(v) => v,
        None => {
            return None;
        },
    };
    if span_id_wide == 0 {
        return None;
    }
    let flags_wide = match parse_hex(s, 53, 55) {
        Some(v) => v,
        None => {
            return None;
        },
    };
    proof {
        lemma_pow16_values();
        lemma_hex_val_bound(s@.subrange(36, 52));
        lemma_hex_val_bound(s@.subrange(53, 55));
    }
    Some((trace_id, span_id_wide as u64, flags_wide as u8))
}

/// The request headers after injecting a context: nothing is written for an
/// absent or invalid span context; `tracestate` is written only when the
/// vendor state is non-empty.
pub open spec fn request_headers_after_inject(
    m: Map<Seq<char>, Seq<char>>,
    cx: ContextView,
) -> Map<Seq<char>, Seq<char>> {
    match cx.span {
        Option::Some(c) => if c.valid() {
            if c.state.len() > 0 {
                m.insert("traceparent"@, traceparent_value(c.trace_id, c.span_id, c.flags)).insert(
                    "tracestate"@,
                    encode_entries(c.state),
                )
            } else {
                m.insert("traceparent"@, traceparent_value(c.trace_id, c.span_id, c.flags))
            }
        } else {
            m
        },
        Option::None => m,
    }
}

/// The context extraction yields from request headers: the unchanged parent
/// on an absent or malformed `traceparent`, else a remote span context with
/// the decoded identity and whatever valid `tracestate` entries are present.
pub open spec fn extracted_request_context(
    parent: ContextView,
    m: Map<Seq<char>, Seq<char>>,
) -> ContextView {
    if m.contains_key("traceparent"@) {
        match traceparent_fields(m["traceparent"@]) {
            Option::Some(f) => ContextView {
                span: Option::Some(
                    SpanContextView {
                        trace_id: f.0,
                        span_id: f.1,
                        flags: f.2,
                        state: if m.contains_key("tracestate"@) {
                            parse_tracestate(m["tracestate"@])
                        } else {
                            Seq::empty()
                        },
                        is_remote: true,
                    },
                ),
            },
            Option::None => parent,
        }
    } else {
        parent
    }
}

/// The response headers after injecting a context: the same wire grammar as
/// the request side, under `traceresponse`, with no companion state header.
pub open spec fn response_headers_after_inject(
    m: Map<Seq<char>, Seq<char>>,
    cx: ContextView,
) -> Map<Seq<char>, Seq<char>> {
    match cx.span {
        Option::Some(c) => if c.valid() {
            m.insert("traceresponse"@, traceparent_value(c.trace_id, c.span_id, c.flags))
        } else {
            m
        },
        Option::None => m,
    }
}

/// The context extraction yields from response headers.
pub open spec fn extracted_response_context(
    parent: ContextView,
    m: Map<Seq<char>, Seq<char>>,
) -> ContextView {
    if m.contains_key("traceresponse"@) {
        match traceparent_fields(m["traceresponse"@]) {
            Option::Some(f) => ContextView {
                span: Option::Some(
                    SpanContextView {
                        trace_id: f.0,
                        span_id: f.1,
                        flags: f.2,
                        state: Seq::empty(),
                        is_remote: true,
                    },
                ),
            },
            Option::None => parent,
        }
    } else {
        parent
    }
}

/// The header names are already lowercase, so case-insensitive lookup finds
/// them under their own spelling.
pub proof fn lemma_header_names_lower()
    ensures
        ascii_lower("traceparent"@) == "traceparent"@,
        ascii_lower("tracestate"@) == "tracestate"@,
        ascii_lower("traceresponse"@) == "traceresponse"@,
        "traceparent"@ != "tracestate"@,
        "traceparent"@ != "traceresponse"@,
{
    reveal_strlit("traceparent");
    reveal_strlit("tracestate");
    reveal_strlit("traceresponse");
    assert(ascii_lower("traceparent"@) =~= "traceparent"@);
    assert(ascii_lower("tracestate"@) =~= "tracestate"@);
    assert(ascii_lower("traceresponse"@) =~= "traceresponse"@);
    assert("traceparent"@.len() != "tracestate"@.len());
    assert("traceparent"@.len() != "traceresponse"@.len());
}

/// The request-side propagator for the `traceparent` and `tracestate`
/// headers.
#[derive(Clone, Copy)]
pub struct TraceContextPropagator;

impl TraceContextPropagator {
    pub fn new() -> (r: TraceContextPropagator) {
        TraceContextPropagator
    }

    /// Writes the context's span identity into the carrier, as
    /// `request_headers_after_inject` describes: an absent or invalid span
    /// context writes nothing.
    pub fn inject<I: Injector>(&self, cx: &Context, injector: &mut I)
        ensures
            final(injector).headers() == request_headers_after_inject(
                old(injector).headers(),
                cx@,
            ),
    {
        proof {
            lemma_header_names_lower();
        }
        match cx.span_context() {
            Option::Some(span_context) => {
                if span_context.is_valid() {
                    let value = encode_traceparent(span_context);
                    injector.set("traceparent", value);
                    if span_context.trace_state().len() > 0 {
                        let state_value = span_context.trace_state().encode();
                        injector.set("tracestate", state_value);
                    }
                }
            },
            Option::None => {},
        }
    }

    /// Reads a span identity from the carrier, as
    /// `extracted_request_context` describes: on an absent or malformed
    /// header the parent context is returned unchanged, never an error.
    pub fn extract<E: Extractor>(&self, parent: &Context, extractor: &E) -> (r: Context)
        ensures
            r@ == extracted_request_context(parent@, extractor.headers()),
    {
        proof {
            lemma_header_names_lower();
        }
        match extractor.get("traceparent") {
            Option::Some(header) => {
                match parse_traceparent(header.as_str()) {
                    Option::Some(fields) => {
                        let state = match extractor.get("tracestate") {
                            Option::Some(state_header) => TraceState::decode(state_header.as_str()),
                            Option::None => TraceState::empty(),
                        };
                        Context::with_span_context(
                            SpanContext::new(
                                TraceId(fields.0),
                                SpanId(fields.1),
                                TraceFlags(fields.2),
                                state,
                                true,
                            ),
                        )
                    },
                    Option::None => parent.clone(),
                }
            },
            Option::None => parent.clone(),
        }
    }
}

/// The response-side propagator: the same wire grammar under the
/// `traceresponse` header, letting a server hand its own span identity back
/// to the caller.
#[derive(Clone, Copy)]
pub struct TraceResponsePropagator;

impl TraceResponsePropagator {
    pub fn new() -> (r: TraceResponsePropagator) {
        TraceResponsePropagator
    }

    /// Writes the context's span identity under `traceresponse`, as
    /// `response_headers_after_inject` describes.
    pub fn inject<I: Injector>(&self, cx: &Context, injector: &mut I)
        ensures
            final(injector).headers() == response_headers_after_inject(
                old(injector).headers(),
                cx@,
            ),
    {
        proof {
            lemma_header_names_lower();
        }
        match cx.span_context() {
            Option::Some(span_context) => {
                if span_context.is_valid() {
                    let value = encode_traceparent(span_context);
                    injector.set("traceresponse", value);
                }
            },
            Option::None => {},
        }
    }

    /// Reads a span identity from `traceresponse`, as
    /// `extracted_response_context` describes; there is no companion state
    /// header on the response side.
    pub fn extract<E: Extractor>(&self, parent: &Context, extractor: &E) -> (r: Context)
        ensures
            r@ == extracted_response_context(parent@, extractor.headers()),
    {
        proof {
            lemma_header_names_lower();
        }
        match extractor.get("traceresponse") {
            Option::Some(header) => {
                match parse_traceparent(header.as_str()) {
                    Option::Some(fields) => Context::with_span_context(
                        SpanContext::new(
                            TraceId(fields.0),
                            SpanId(fields.1),
                            TraceFlags(fields.2),
                            TraceState::empty(),
                            true,
                        ),
                    ),
                    Option::None => parent.clone(),
                }
            },
            Option::None => parent.clone(),
        }
    }
}

/// The closed set of propagator kinds, sharing one inject/extract
/// capability; a caller selects one by composition at startup rather than
/// through mutable global state.
#[derive(Clone, Copy)]
pub enum Propagator {
    TraceContext(TraceContextPropagator),
    TraceResponse(TraceResponsePropagator),
}

impl Propagator {
    /// The headers a carrier holds after this propagator injects `cx`.
    pub open spec fn headers_after_inject(
        self,
        m: Map<Seq<char>, Seq<char>>,
        cx: ContextView,
    ) -> Map<Seq<char>, Seq<char>> {
        match self {
            Propagator::TraceContext(_) => request_headers_after_inject(m, cx),
            Propagator::TraceResponse(_) => response_headers_after_inject(m, cx),
        }
    }

    /// The context this propagator extracts from the given headers.
    pub open spec fn extracted_context(
        self,
        parent: ContextView,
        m: Map<Seq<char>, Seq<char>>,
    ) -> ContextView {
        match self {
            Propagator::TraceContext(_) => extracted_request_context(parent, m),
            Propagator::TraceResponse(_) => extracted_response_context(parent, m),
        }
    }

    /// Writes the context's span identity under this propagator's header.
    pub fn inject<I: Injector>(&self, cx: &Context, injector: &mut I)
        ensures
            final(injector).headers() == self.headers_after_inject(
                old(injector).headers(),
                cx@,
            ),
    {
        match self {
            Propagator::TraceContext(p) => p.inject(cx, injector),
            Propagator::TraceResponse(p) => p.inject(cx, injector),
        }
    }

    /// Reads a span identity from the carrier; on an absent or malformed
    /// header the parent context comes back unchanged.
    pub fn extract<E: Extractor>(&self, parent: &Context, extractor: &E) -> (r: Context)
        ensures
            r@ == self.extracted_context(parent@, extractor.headers()),
    {
        match self {
            Propagator::TraceContext(p) => p.extract(parent, extractor),
            Propagator::TraceResponse(p) => p.extract(parent, extractor),
        }
    }
}

/// Decoding inverts encoding on the span identity wire form, for every
/// valid pair of identifiers.
pub proof fn lemma_traceparent_round_trip(trace_id: u128, span_id: u64, flags: u8)
    requires
        trace_id != 0,
        span_id != 0,
    ensures
        traceparent_fields(traceparent_value(trace_id, span_id, flags)) == Option::Some(
            (trace_id, span_id, flags),
        ),
{
    lemma_pow16_values();
    let a = hex_str_of(trace_id as nat, 32);
    let b = hex_str_of(span_id as nat, 16);
    let c = hex_str_of(flags as nat, 2);
    crate::hex::lemma_hex_str_of_val(trace_id as nat, 32);
    crate::hex::lemma_hex_str_of_val(span_id as nat, 16);
    crate::hex::lemma_hex_str_of_val(flags as nat, 2);
    let s = traceparent_value(trace_id, span_id, flags);
    assert(s.len() == 55);
    assert(s[0] == '0');
    assert(s[1] == '0');
    assert(s[2] == '-');
    assert(s[35] == '-');
    assert(s[52] == '-');
    assert(s.subrange(0, 2) =~= seq!['0', '0']);
    assert(all_hex(s.subrange(0, 2)));
    assert(s.subrange(3, 35) =~= a);
    assert(s.subrange(36, 52) =~= b);
    assert(s.subrange(53, 55) =~= c);
    assert(valid_traceparent(s));
}

/// Round trip: a valid span context injected into a carrier is extracted
/// back with the same trace id, span id, flags and trace state entries;
/// only `is_remote` flips to true. A context with empty vendor state writes
/// no `tracestate` header, so the carrier must not already hold one.
pub proof fn lemma_inject_extract_round_trip(
    parent: ContextView,
    m: Map<Seq<char>, Seq<char>>,
    c: SpanContextView,
)
    requires
        c.valid(),
        state_wf(c.state),
        c.state.len() == 0 ==> !m.contains_key("tracestate"@),
    ensures
        extracted_request_context(
            parent,
            request_headers_after_inject(m, ContextView { span: Option::Some(c) }),
        ) == (ContextView {
            span: Option::Some(
                SpanContextView {
                    trace_id: c.trace_id,
                    span_id: c.span_id,
                    flags: c.flags,
                    state: c.state,
                    is_remote: true,
                },
            ),
        }),
{
    lemma_header_names_lower();
    lemma_traceparent_round_trip(c.trace_id, c.span_id, c.flags);
    let m2 = request_headers_after_inject(m, ContextView { span: Option::Some(c) });
    if c.state.len() > 0 {
        lemma_tracestate_round_trip(c.state);
        assert(m2["traceparent"@] == traceparent_value(c.trace_id, c.span_id, c.flags));
        assert(m2["tracestate"@] == encode_entries(c.state));
    } else {
        assert(!m2.contains_key("tracestate"@));
        assert(c.state =~= Seq::<(Seq<char>, Seq<char>)>::empty());
    }
}

/// Absence is idempotent: a context without a valid span context writes
/// nothing on either side, and extraction from a carrier without the
/// respective header returns the parent unchanged.
pub proof fn lemma_absence_idempotent(
    parent: ContextView,
    m: Map<Seq<char>, Seq<char>>,
    cx: ContextView,
)
    requires
        !cx.has_valid_span(),
    ensures
        request_headers_after_inject(m, cx) == m,
        response_headers_after_inject(m, cx) == m,
        !m.contains_key("traceparent"@) ==> extracted_request_context(parent, m) == parent,
        !m.contains_key("traceresponse"@) ==> extracted_response_context(parent, m) == parent,
{
}

/// The sampled bit survives the round trip: a context injected with the
/// sampled flag set is extracted with the sampled flag set, and one
/// injected without it is extracted without it.
pub proof fn lemma_sampled_flag_round_trip(
    parent: ContextView,
    m: Map<Seq<char>, Seq<char>>,
    c: SpanContextView,
)
    requires
        c.valid(),
        state_wf(c.state),
        c.state.len() == 0 ==> !m.contains_key("tracestate"@),
    ensures
        ({
            let extracted = extracted_request_context(
                parent,
                request_headers_after_inject(m, ContextView { span: Option::Some(c) }),
            );
            extracted.span matches Option::Some(e) && (e.flags & crate::context::FLAG_SAMPLED
                == crate::context::FLAG_SAMPLED) == (c.flags & crate::context::FLAG_SAMPLED
                == crate::context::FLAG_SAMPLED)
        }),
{
    lemma_inject_extract_round_trip(parent, m, c);
}

/// The response propagator writes the identical wire grammar under the
/// header name `traceresponse`, and the request-side decoder reads the
/// injected value back; the extracted context is remote, with empty vendor
/// state.
pub proof fn lemma_response_round_trip(
    parent: ContextView,
    m: Map<Seq<char>, Seq<char>>,
    c: SpanContextView,
)
    requires
        c.valid(),
    ensures
        response_headers_after_inject(m, ContextView { span: Option::Some(c) }) == m.insert(
            "traceresponse"@,
            traceparent_value(c.trace_id, c.span_id, c.flags),
        ),
        traceparent_fields(
            response_headers_after_inject(m, ContextView { span: Option::Some(c) })[
                "traceresponse"@],
        ) == Option::Some((c.trace_id, c.span_id, c.flags)),
        extracted_response_context(
            parent,
            response_headers_after_inject(m, ContextView { span: Option::Some(c) }),
        ) == (ContextView {
            span: Option::Some(
                SpanContextView {
                    trace_id: c.trace_id,
                    span_id: c.span_id,
                    flags: c.flags,
                    state: Seq::empty(),
                    is_remote: true,
                },
            ),
        }),
{
    lemma_traceparent_round_trip(c.trace_id, c.span_id, c.flags);
}

} // verus!
