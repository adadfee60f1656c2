use trace_context::carrier::{Extractor, HeaderMap, Injector};
use trace_context::context::{Context, SpanContext, SpanId, TraceFlags, TraceId};
use trace_context::propagator::{TraceContextPropagator, TraceResponsePropagator};
use trace_context::tracestate::TraceState;

fn state_from(pairs: &[(&str, &str)]) -> TraceState {
    let owned: Vec<(String, String)> = pairs
        .iter()
        .map(|(k, v)| (k.to_string(), v.to_string()))
        .collect();
    TraceState::from_pairs(owned)
}

fn context_with(trace_id: u128, span_id: u64, flags: u8, state: TraceState) -> Context {
    Context::with_span_context(SpanContext::new(
        TraceId(trace_id),
        SpanId(span_id),
        TraceFlags(flags),
        state,
        false,
    ))
}

#[test]
fn round_trip_preserves_identity() {
    let state = state_from(&[("rojo", "00f067aa0ba902b7"), ("congo", "t61rcWkgMzE")]);
    let cx = context_with(0x0af7651916cd43dd8448eb211c80319c, 0xb7ad6b7169203331, 0x01, state);
    let propagator = TraceContextPropagator::new();
    let mut carrier = HeaderMap::new();
    propagator.inject(&cx, &mut carrier);
    let extracted = propagator.extract(&Context::new(), &carrier);
    let sc = extracted.span_context().expect("a span context must come back");
    assert_eq!(sc.trace_id(), TraceId(0x0af7651916cd43dd8448eb211c80319c));
    assert_eq!(sc.span_id(), SpanId(0xb7ad6b7169203331));
    assert_eq!(sc.trace_flags(), TraceFlags(0x01));
    assert!(sc.is_remote());
    let pairs = sc.trace_state().pairs();
    assert_eq!(pairs.len(), 2);
    assert_eq!(pairs[0], ("rojo".to_string(), "00f067aa0ba902b7".to_string()));
    assert_eq!(pairs[1], ("congo".to_string(), "t61rcWkgMzE".to_string()));
}

#[test]
fn reserved_flag_bits_round_trip_unchanged() {
    let cx = context_with(0x1, 0x2, 0xaf, TraceState::empty());
    let propagator = TraceContextPropagator::new();
    let mut carrier = HeaderMap::new();
    propagator.inject(&cx, &mut carrier);
    let extracted = propagator.extract(&Context::new(), &carrier);
    let sc = extracted.span_context().unwrap();
    assert_eq!(sc.trace_flags(), TraceFlags(0xaf));
}

#[test]
fn injecting_absent_context_writes_zero_headers() {
    let propagator = TraceContextPropagator::new();
    let mut carrier = HeaderMap::new();
    propagator.inject(&Context::new(), &mut carrier);
    assert_eq!(carrier.len(), 0);
}

#[test]
fn injecting_invalid_span_context_writes_zero_headers() {
    let cx = context_with(0, 0, 0x01, TraceState::empty());
    let propagator = TraceContextPropagator::new();
    let mut carrier = HeaderMap::new();
    propagator.inject(&cx, &mut carrier);
    assert_eq!(carrier.len(), 0);
}

#[test]
fn extracting_from_empty_carrier_returns_parent_unchanged() {
    let propagator = TraceContextPropagator::new();
    let carrier = HeaderMap::new();
    let parent = context_with(0x7, 0x8, 0x00, TraceState::empty());
    let extracted = propagator.extract(&parent, &carrier);
    let sc = extracted.span_context().unwrap();
    assert_eq!(sc.trace_id(), TraceId(0x7));
    assert_eq!(sc.span_id(), SpanId(0x8));
    assert!(!sc.is_remote());

    let empty_parent = Context::new();
    let extracted = propagator.extract(&empty_parent, &carrier);
    assert!(extracted.span_context().is_none());
}

#[test]
fn malformed_traceparent_returns_parent() {
    let propagator = TraceContextPropagator::new();
    let mut carrier = HeaderMap::new();
    carrier.set("traceparent", "00-bad-id-01".to_string());
    let parent = context_with(0x7, 0x8, 0x01, TraceState::empty());
    let extracted = propagator.extract(&parent, &carrier);
    let sc = extracted.span_context().unwrap();
    assert_eq!(sc.trace_id(), TraceId(0x7));
    assert_eq!(sc.span_id(), SpanId(0x8));
}

#[test]
fn all_zero_ids_are_rejected() {
    let propagator = TraceContextPropagator::new();

    let mut carrier = HeaderMap::new();
    carrier.set(
        "traceparent",
        "00-00000000000000000000000000000000-0000000000000000-01".to_string(),
    );
    assert!(propagator.extract(&Context::new(), &carrier).span_context().is_none());

    let mut carrier = HeaderMap::new();
    carrier.set(
        "traceparent",
        "00-0af7651916cd43dd8448eb211c80319c-0000000000000000-01".to_string(),
    );
    assert!(propagator.extract(&Context::new(), &carrier).span_context().is_none());
}

#[test]
fn version_ff_is_rejected() {
    let propagator = TraceContextPropagator::new();
    let mut carrier = HeaderMap::new();
    carrier.set(
        "traceparent",
        "ff-0af7651916cd43dd8448eb211c80319c-b7ad6b7169203331-01".to_string(),
    );
    assert!(propagator.extract(&Context::new(), &carrier).span_context().is_none());
}

#[test]
fn unknown_version_with_matching_layout_is_accepted() {
    let propagator = TraceContextPropagator::new();
    let mut carrier = HeaderMap::new();
    carrier.set(
        "traceparent",
        "cc-0af7651916cd43dd8448eb211c80319c-b7ad6b7169203331-01".to_string(),
    );
    let sc_found = propagator.extract(&Context::new(), &carrier);
    let sc = sc_found.span_context().unwrap();
    assert_eq!(sc.trace_id(), TraceId(0x0af7651916cd43dd8448eb211c80319c));
}

#[test]
fn uppercase_hex_is_rejected() {
    let propagator = TraceContextPropagator::new();
    let mut carrier = HeaderMap::new();
    carrier.set(
        "traceparent",
        "00-0AF7651916CD43DD8448EB211C80319C-B7AD6B7169203331-01".to_string(),
    );
    assert!(propagator.extract(&Context::new(), &carrier).span_context().is_none());
}

#[test]
fn sampled_flag_round_trips() {
    let cx = context_with(0x1, 0x2, 0x01, TraceState::empty());
    let propagator = TraceContextPropagator::new();
    let mut carrier = HeaderMap::new();
    propagator.inject(&cx, &mut carrier);
    let extracted = propagator.extract(&Context::new(), &carrier);
    assert!(extracted.span_context().unwrap().is_sampled());
}

#[test]
fn tracestate_is_capped_at_32_entries() {
    let mut pairs: Vec<(String, String)> = Vec::new();
    for i in 0..40 {
        pairs.push((format!("key{}", i), format!("value{}", i)));
    }
    let state = TraceState::from_pairs(pairs);
    assert_eq!(state.len(), 32);

    let cx = context_with(0x1, 0x2, 0x01, state);
    let propagator = TraceContextPropagator::new();
    let mut carrier = HeaderMap::new();
    propagator.inject(&cx, &mut carrier);
    let extracted = propagator.extract(&Context::new(), &carrier);
    let surviving = extracted.span_context().unwrap().trace_state().len();
    assert!(surviving <= 32);
    assert_eq!(surviving, 32);
}

#[test]
fn tracestate_malformed_entries_are_skipped_individually() {
    let propagator = TraceContextPropagator::new();
    let mut carrier = HeaderMap::new();
    carrier.set(
        "traceparent",
        "00-0af7651916cd43dd8448eb211c80319c-b7ad6b7169203331-01".to_string(),
    );
    carrier.set("tracestate", "foo=1,BAD KEY=2,nopair,bar=3".to_string());
    let extracted = propagator.extract(&Context::new(), &carrier);
    let pairs = extracted.span_context().unwrap().trace_state().pairs();
    assert_eq!(pairs.len(), 2);
    assert_eq!(pairs[0], ("foo".to_string(), "1".to_string()));
    assert_eq!(pairs[1], ("bar".to_string(), "3".to_string()));
}

#[test]
fn tracestate_repeated_keys_keep_first() {
    let propagator = TraceContextPropagator::new();
    let mut carrier = HeaderMap::new();
    carrier.set(
        "traceparent",
        "00-0af7651916cd43dd8448eb211c80319c-b7ad6b7169203331-01".to_string(),
    );
    carrier.set("tracestate", "foo=1,foo=2,bar=3".to_string());
    let extracted = propagator.extract(&Context::new(), &carrier);
    let pairs = extracted.span_context().unwrap().trace_state().pairs();
    assert_eq!(pairs.len(), 2);
    assert_eq!(pairs[0], ("foo".to_string(), "1".to_string()));
    assert_eq!(pairs[1], ("bar".to_string(), "3".to_string()));
}

#[test]
fn header_lookup_is_case_insensitive() {
    let propagator = TraceContextPropagator::new();
    let mut carrier = HeaderMap::new();
    carrier.set(
        "TraceParent",
        "00-0af7651916cd43dd8448eb211c80319c-b7ad6b7169203331-01".to_string(),
    );
    let extracted = propagator.extract(&Context::new(), &carrier);
    let sc = extracted.span_context().unwrap();
    assert_eq!(sc.trace_id(), TraceId(0x0af7651916cd43dd8448eb211c80319c));
}

#[test]
fn setting_a_header_twice_overwrites() {
    let propagator = TraceContextPropagator::new();
    let mut carrier = HeaderMap::new();
    carrier.set(
        "traceparent",
        "00-0af7651916cd43dd8448eb211c80319c-b7ad6b7169203331-01".to_string(),
    );
    carrier.set(
        "traceparent",
        "00-11111111111111111111111111111111-2222222222222222-00".to_string(),
    );
    let sc_found = propagator.extract(&Context::new(), &carrier);
    let sc = sc_found.span_context().unwrap();
    assert_eq!(sc.trace_id(), TraceId(0x11111111111111111111111111111111));
    assert_eq!(sc.span_id(), SpanId(0x2222222222222222));
    assert!(!sc.is_sampled());
}

#[test]
fn response_propagator_writes_traceresponse() {
    let cx = context_with(0x0af7651916cd43dd8448eb211c80319c, 0x0102030405060708, 0x01,
        TraceState::empty());
    let response = TraceResponsePropagator::new();
    let mut carrier = HeaderMap::new();
    response.inject(&cx, &mut carrier);
    assert!(carrier.get("traceparent").is_none());
    let value = carrier.get("traceresponse").expect("traceresponse must be written");

    // The value obeys the grammar the request-side decoder verifies.
    let request = TraceContextPropagator::new();
    let mut relay = HeaderMap::new();
    relay.set("traceparent", value);
    let sc_found = request.extract(&Context::new(), &relay);
    let sc = sc_found.span_context().unwrap();
    assert_eq!(sc.trace_id(), TraceId(0x0af7651916cd43dd8448eb211c80319c));
    assert_eq!(sc.span_id(), SpanId(0x0102030405060708));
}

#[test]
fn end_to_end_scenario() {
    // Client injects its span identity for the outgoing request.
    let client_cx = context_with(
        0x0af7651916cd43dd8448eb211c80319c,
        0xb7ad6b7169203331,
        0x01,
        TraceState::empty(),
    );
    let request_propagator = TraceContextPropagator::new();
    let mut request_headers = HeaderMap::new();
    request_propagator.inject(&client_cx, &mut request_headers);
    assert_eq!(
        request_headers.get("traceparent").unwrap(),
        "00-0af7651916cd43dd8448eb211c80319c-b7ad6b7169203331-01"
    );

    // Server extracts it and answers under its own span id.
    let server_cx = request_propagator.extract(&Context::new(), &request_headers);
    let server_sc = server_cx.span_context().unwrap();
    assert!(server_sc.is_remote());
    let own_span = SpanContext::new(
        server_sc.trace_id(),
        SpanId(0x0102030405060708),
        server_sc.trace_flags(),
        TraceState::empty(),
        false,
    );
    let response_propagator = TraceResponsePropagator::new();
    let mut response_headers = HeaderMap::new();
    response_propagator.inject(&Context::with_span_context(own_span), &mut response_headers);
    assert_eq!(
        response_headers.get("traceresponse").unwrap(),
        "00-0af7651916cd43dd8448eb211c80319c-0102030405060708-01"
    );

    // Client reads back which remote span served the request.
    let observed = response_propagator.extract(&Context::new(), &response_headers);
    let observed_sc = observed.span_context().unwrap();
    assert!(observed_sc.is_sampled());
    assert_eq!(observed_sc.trace_id(), TraceId(0x0af7651916cd43dd8448eb211c80319c));
    assert_eq!(observed_sc.span_id(), SpanId(0x0102030405060708));
}

#[test]
fn invalid_tracestate_pairs_are_dropped_on_build() {
    let state = state_from(&[
        ("ok", "fine"),
        ("BAD", "upper case key"),
        ("", "empty key"),
        ("commas", "a,b"),
        ("ok2", "fine2"),
    ]);
    let pairs = state.pairs();
    assert_eq!(pairs.len(), 2);
    assert_eq!(pairs[0].0, "ok");
    assert_eq!(pairs[1].0, "ok2");
}

#[test]
fn vendor_prefixed_keys_allow_one_separator() {
    let state = state_from(&[
        ("tenant@system", "v1"),
        ("a@b@c", "v2"),
        ("@nosystem", "v3"),
        ("notenant@", "v4"),
        ("plain", "v5"),
    ]);
    let pairs = state.pairs();
    assert_eq!(pairs.len(), 2);
    assert_eq!(pairs[0].0, "tenant@system");
    assert_eq!(pairs[1].0, "plain");

    let propagator = TraceContextPropagator::new();
    let mut carrier = HeaderMap::new();
    carrier.set(
        "traceparent",
        "00-0af7651916cd43dd8448eb211c80319c-b7ad6b7169203331-01".to_string(),
    );
    carrier.set("tracestate", "tenant@system=v1,a@b@c=v2,plain=v5".to_string());
    let extracted = propagator.extract(&Context::new(), &carrier);
    let surviving = extracted.span_context().unwrap().trace_state().pairs();
    assert_eq!(surviving.len(), 2);
    assert_eq!(surviving[0].0, "tenant@system");
    assert_eq!(surviving[1].0, "plain");
}
