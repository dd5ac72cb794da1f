//! One request through the proxy.
use bytes::Bytes;
use http::{HeaderMap, HeaderName, HeaderValue};
use ramjet_ingress::body::{Next, ProxyBody};
use ramjet_ingress::forward::{
    answered, canary_inputs, client_host, copy_headers, copy_target, duplicate, is_grpc,
    mirror_target, no_route, prepare, relay, request_authority, select_backend, share,
    static_response, take, target, turn_away, unsupported_response, version, Attempts,
    BackendProtocol, Canary, ConnInfo, Dispatch, Recorder, Relayed, Scheme, Version, BODY_BAD_TARGET, BODY_CONNECT_FAILED, BODY_GRPC,
    BODY_NO_ENDPOINT, BODY_NO_ROUTE, BODY_TIMEOUT, BODY_UPGRADE_FAILED, BODY_UPSTREAM_FAILED,
    UNSUPPORTED_GRPC,
};
use ramjet_ingress::metrics::Metrics;
use ramjet_ingress::mirror::{Buffered, Piece};
use ramjet_ingress::net::SocketAddr;
use ramjet_ingress::rng::{next_u64, seed};
use ramjet_ingress::time::Duration;
use ramjet_ingress::upstream::UpstreamError;

fn headers(fields: &[(&'static str, &'static str)]) -> HeaderMap {
    let mut map = HeaderMap::new();
    for (name, value) in fields {
        map.append(*name, HeaderValue::from_static(value));
    }
    map
}

fn text<'a>(map: &'a HeaderMap, name: &str) -> Option<&'a str> {
    map.get(name).and_then(|value| value.to_str().ok())
}

fn conn() -> ConnInfo {
    ConnInfo { remote: SocketAddr::v4([192, 0, 2, 7], 40000), scheme: Scheme::Https }
}

#[test]
fn scheme_names_match_the_forwarded_proto_values() {
    assert_eq!(Scheme::Http.as_str(), "http");
    assert_eq!(Scheme::Https.as_str(), "https");
}

#[test]
fn grpc_is_detected_by_content_type_prefix() {
    let mut map = HeaderMap::new();
    map.insert("content-type", HeaderValue::from_static("application/grpc+proto"));
    assert!(is_grpc(&map));

    map.insert("content-type", HeaderValue::from_static("application/json"));
    assert!(!is_grpc(&map));

    assert!(!is_grpc(&HeaderMap::new()));
}

#[test]
fn static_responses_carry_their_body_and_a_content_type() {
    let response = static_response(404, BODY_NO_ROUTE);
    assert_eq!(response.status, 404);
    assert_eq!(response.content_type, "text/plain; charset=utf-8");
    assert_eq!(response.body, BODY_NO_ROUTE);
    assert_eq!(response.unsupported, None);
}

#[test]
fn every_error_body_starts_with_its_status_code() {
    // The body is what an operator sees in a curl; it should say which of
    // the failure modes they hit.
    for (code, body) in [
        ("404", BODY_NO_ROUTE),
        ("503", BODY_NO_ENDPOINT),
        ("502", BODY_CONNECT_FAILED),
        ("502", BODY_UPSTREAM_FAILED),
        ("502", BODY_BAD_TARGET),
        ("502", BODY_UPGRADE_FAILED),
        ("504", BODY_TIMEOUT),
        ("502", BODY_GRPC),
    ] {
        assert!(body.starts_with(code), "{body:?} does not start with {code}");
        assert!(body.ends_with('\n'), "{body:?} is missing its newline");
    }
}

#[test]
fn an_unsupported_capability_is_named() {
    let reply = unsupported_response(502, BODY_GRPC, UNSUPPORTED_GRPC);
    assert_eq!(reply.unsupported, Some("grpc-needs-backend-protocol"));
    assert_eq!(reply.status, 502);
}

#[test]
fn a_miss_is_counted_and_answered() {
    let mut metrics = Metrics::new();
    let reply = no_route(&mut metrics);
    assert_eq!((reply.status, reply.body), (404, BODY_NO_ROUTE));
    assert_eq!(metrics.route_misses, 1);
}

#[test]
fn the_authority_is_the_targets_or_the_host_headers() {
    let map = headers(&[("host", "from-header.example.com")]);
    assert_eq!(request_authority(Some("from-target.example.com"), &map), "from-target.example.com");
    assert_eq!(request_authority(None, &map), "from-header.example.com");
    assert_eq!(request_authority(None, &HeaderMap::new()), "");
    assert_eq!(
        client_host(None, &map).and_then(|v| v.to_str().ok().map(str::to_owned)),
        Some("from-header.example.com".to_owned())
    );
    assert_eq!(
        client_host(Some("h2.example.com"), &HeaderMap::new())
            .and_then(|v| v.to_str().ok().map(str::to_owned)),
        Some("h2.example.com".to_owned())
    );
}

#[test]
fn a_canary_takes_a_request_only_where_its_backend_is_there() {
    assert_eq!(select_backend("app", Canary::Absent).backend, "app");
    assert!(!select_backend("app", Canary::Passed).canaried);
    let taken = select_backend("app", Canary::Took(Some("next")));
    assert_eq!((taken.backend, taken.canaried), ("next", true));
    let gone = select_backend("app", Canary::Took(None));
    assert_eq!((gone.backend, gone.canaried), ("app", false));
}

#[test]
fn a_canary_reads_the_header_and_the_cookie_it_names() {
    let map = headers(&[("x-canary", "always"), ("cookie", "a=1; canary=never")]);
    let (header, cookie) = canary_inputs(&map, Some("x-canary"), Some("canary"));
    assert_eq!((header.as_deref(), cookie.as_deref()), (Some("always"), Some("never")));
    let (header, cookie) = canary_inputs(&map, None, None);
    assert_eq!((header, cookie), (None, None));
}

#[test]
fn a_canaried_request_counts_on_both_blocks() {
    let both = Recorder::new(true, true);
    assert!(both.route && both.canary);
    let plain = Recorder::new(true, false);
    assert!(plain.route && !plain.canary);
    let none = Recorder::new(false, true);
    assert!(!none.route && !none.canary);
}

#[test]
fn an_outgoing_request_names_the_client_and_keeps_the_host() {
    let mut map = headers(&[
        ("host", "app.example.com"),
        ("connection", "close, x-private"),
        ("x-private", "1"),
        ("accept", "*/*"),
    ]);
    let mut rng = seed(Some(1), 1);
    let host = client_host(None, &map);
    let upgrade = prepare(&mut map, conn(), host, BackendProtocol::Http1, &mut rng);
    assert!(upgrade.is_none());
    assert_eq!(text(&map, "x-forwarded-for"), Some("192.0.2.7"));
    assert_eq!(text(&map, "x-real-ip"), Some("192.0.2.7"));
    assert_eq!(text(&map, "x-forwarded-proto"), Some("https"));
    assert_eq!(text(&map, "x-forwarded-host"), Some("app.example.com"));
    assert_eq!(text(&map, "host"), Some("app.example.com"));
    assert_eq!(text(&map, "accept"), Some("*/*"));
    assert_eq!(text(&map, "connection"), None);
    assert_eq!(text(&map, "x-private"), None);
    assert_eq!(text(&map, "x-request-id").map(str::len), Some(32));
}

#[test]
fn an_upgrade_survives_towards_an_http1_backend_only() {
    let upgrading = [("host", "a"), ("connection", "Upgrade"), ("upgrade", "websocket")];
    let mut rng = seed(Some(1), 1);
    let mut map = headers(&upgrading);
    let asked = prepare(&mut map, conn(), None, BackendProtocol::Http1, &mut rng);
    assert_eq!(asked.as_ref().map(|v| v.as_bytes()), Some(&b"websocket"[..]));
    assert_eq!(text(&map, "upgrade"), Some("websocket"));
    assert!(text(&map, "connection").is_some_and(|v| v.eq_ignore_ascii_case("upgrade")));

    let mut map = headers(&upgrading);
    prepare(&mut map, conn(), None, BackendProtocol::H2c, &mut rng);
    assert_eq!(text(&map, "upgrade"), None);
    assert_eq!(text(&map, "connection"), None);
    assert_eq!(version(BackendProtocol::H2c), Version::Http2);
    assert_eq!(version(BackendProtocol::Http1), Version::Http11);
}

#[test]
fn grpc_needs_an_http2_backend_and_any_request_an_endpoint() {
    let grpc = headers(&[("content-type", "application/grpc")]);
    let refused = turn_away(BackendProtocol::Http1, &grpc, 3).expect("refused");
    assert_eq!((refused.status, refused.body), (502, BODY_GRPC));
    assert!(turn_away(BackendProtocol::H2c, &grpc, 3).is_none());
    let none = turn_away(BackendProtocol::H2c, &grpc, 0).expect("refused");
    assert_eq!((none.status, none.body), (503, BODY_NO_ENDPOINT));
}

#[test]
fn a_connect_failure_goes_to_the_next_endpoint_and_round() {
    let mut metrics = Metrics::new();
    let mut attempts = Attempts::plan(true, 4, 3, 3);
    let refused = UpstreamError::Connect("refused".to_owned());
    assert_eq!(attempts.endpoint(), 3);
    assert!(!attempts.is_last());
    assert!(attempts.failed(&refused, &mut metrics).is_none());
    assert_eq!(attempts.endpoint(), 0);
    assert!(attempts.failed(&refused, &mut metrics).is_none());
    assert_eq!(attempts.endpoint(), 1);
    assert!(attempts.is_last());
    let reply = attempts.failed(&refused, &mut metrics).expect("no endpoint is left");
    assert_eq!((reply.status, reply.body), (502, BODY_CONNECT_FAILED));
    assert_eq!((metrics.retries(), metrics.upstream_connect_failures), (2, 3));
}

#[test]
fn what_may_have_been_sent_is_not_sent_again() {
    let mut metrics = Metrics::new();
    let mut attempts = Attempts::plan(true, 4, 3, 0);
    let late = attempts.failed(&UpstreamError::Timeout, &mut metrics).expect("an answer");
    assert_eq!((late.status, late.body), (504, BODY_TIMEOUT));
    let mut attempts = Attempts::plan(true, 4, 3, 0);
    let reset = UpstreamError::Transport("reset".to_owned());
    let broken = attempts.failed(&reset, &mut metrics).expect("an answer");
    assert_eq!((broken.status, broken.body), (502, BODY_UPSTREAM_FAILED));
    // A request that must not be dispatched again gets one endpoint.
    assert!(Attempts::plan(false, 4, 3, 0).is_last());
    assert_eq!(metrics.retries(), 0);
}

#[test]
fn a_target_that_spells_no_uri_is_a_bad_gateway() {
    let endpoint = SocketAddr::v4([10, 0, 0, 5], 80);
    assert_eq!(
        target(endpoint, Some("/x")).expect("a target").to_string(),
        "http://10.0.0.5:80/x"
    );
    let reply = target(endpoint, Some("/a b")).expect_err("no uri");
    assert_eq!((reply.status, reply.body), (502, BODY_BAD_TARGET));
}

#[test]
fn a_response_loses_its_connection_fields() {
    let mut map = headers(&[("connection", "keep-alive"), ("server", "app")]);
    let relayed = relay(200, &mut map, false, false, None);
    assert!(matches!(relayed, Relayed::Pass));
    assert_eq!(text(&map, "connection"), None);
    assert_eq!(text(&map, "server"), Some("app"));
}

#[test]
fn a_tunnel_needs_both_halves() {
    let switching = [("connection", "upgrade"), ("upgrade", "websocket")];
    let mut map = headers(&switching);
    assert!(matches!(relay(101, &mut map, true, true, None), Relayed::Tunnel));
    assert_eq!(text(&map, "upgrade"), Some("websocket"));
    let mut map = headers(&switching);
    match relay(101, &mut map, true, false, None) {
        Relayed::Refuse(reply) => {
            assert_eq!((reply.status, reply.body), (502, BODY_UPGRADE_FAILED))
        }
        other => panic!("{other:?}"),
    }
    // A response that does not say gets what was asked for.
    let mut map = HeaderMap::new();
    let asked = Some(HeaderValue::from_static("websocket"));
    assert!(matches!(relay(101, &mut map, true, true, asked), Relayed::Tunnel));
    assert_eq!(text(&map, "upgrade"), Some("websocket"));
}

#[test]
fn a_request_is_copied_where_there_is_somewhere_to_send_the_copy() {
    let mut metrics = Metrics::new();
    assert!(mirror_target(true, true, Some(2), &mut metrics));
    assert!(!mirror_target(false, true, Some(2), &mut metrics));
    assert!(!mirror_target(true, false, Some(2), &mut metrics));
    assert_eq!(metrics.mirror_failures(), 0);
    assert!(!mirror_target(true, true, Some(0), &mut metrics));
    assert_eq!(metrics.mirror_failures(), 1);
}

#[test]
fn a_copy_says_that_it_is_one() {
    let mut map = headers(&[("host", "app.example.com"), ("connection", "close")]);
    copy_headers(&mut map, Some("app.example.com"), BackendProtocol::Http1);
    assert_eq!(text(&map, "x-mirrored-by"), Some("ramjet-ingress"));
    assert_eq!(text(&map, "host"), Some("app.example.com"));
    let mut metrics = Metrics::new();
    let endpoint = Some(SocketAddr::v4([10, 0, 0, 5], 80));
    assert_eq!(
        copy_target(endpoint, Some("/x?y=1"), &mut metrics).map(|uri| uri.to_string()),
        Some("http://10.0.0.5:80/x?y=1".to_owned())
    );
    assert!(copy_target(None, Some("/"), &mut metrics).is_none());
    assert_eq!(metrics.mirror_failures(), 1);
}

#[test]
fn an_answer_is_measured() {
    let mut metrics = Metrics::new();
    answered(&mut metrics, Duration::from_millis(20));
    assert_eq!(metrics.upstream_observations(), 1);
}

#[test]
fn a_request_goes_from_its_headers_to_its_response() {
    let mut metrics = Metrics::new();
    let mut rng = seed(Some(1), 1);
    let mut map = headers(&[("host", "app.example.com")]);
    let host = client_host(None, &map);
    let upgrade = take(&mut map, conn(), host, BackendProtocol::Http1, 2, &mut rng).expect("taken");
    let endpoints = vec![SocketAddr::v4([10, 0, 0, 1], 80), SocketAddr::v4([10, 0, 0, 2], 80)];
    let path = Some("/x?y=1".to_owned());
    let mut dispatch =
        Dispatch::new(endpoints.clone(), path, upgrade, true, 3, Some(1)).expect("on its way");
    let sending = dispatch.aim().expect("a target");
    assert_eq!((sending.endpoint, sending.last), (1, false));
    assert_eq!(sending.uri.to_string(), "http://10.0.0.2:80/x?y=1");
    let refused = UpstreamError::Connect("refused".to_owned());
    assert!(dispatch.failed(&refused, &mut metrics).is_none());
    let sending = dispatch.aim().expect("a target");
    assert_eq!((sending.endpoint, sending.last), (0, true));
    let mut response = headers(&[("connection", "close"), ("server", "app")]);
    let elapsed = Duration::from_millis(3);
    let relayed = dispatch.answered(200, &mut response, false, false, elapsed, &mut metrics);
    assert!(matches!(relayed, Relayed::Pass));
    assert_eq!(text(&response, "connection"), None);
    assert_eq!((metrics.upstream_observations(), metrics.retries()), (1, 1));

    let none = Dispatch::new(endpoints.clone(), None, None, true, 3, None).expect_err("nobody");
    assert_eq!((none.status, none.body), (503, BODY_NO_ENDPOINT));
    let gone = Dispatch::new(endpoints.clone(), None, None, true, 3, Some(2)).expect_err("gone");
    assert_eq!((gone.status, gone.body), (502, BODY_CONNECT_FAILED));
    let bad = Dispatch::new(endpoints, Some("/a b".to_owned()), None, true, 3, Some(0))
        .expect("on its way");
    assert_eq!(bad.aim().expect_err("no target").body, BODY_BAD_TARGET);
    let refused = take(&mut map, conn(), None, BackendProtocol::Http1, 0, &mut rng);
    assert_eq!(refused.expect_err("refused").status, 503);
}

#[test]
fn a_body_is_shared_with_the_copy_or_given_back() {
    let mut metrics = Metrics::new();
    type Body = ProxyBody<&'static str, &'static str>;
    let whole: Buffered<(), &'static str> = Buffered::Complete(Bytes::from_static(b"abc"));
    let mut shared = share(whole, Body::empty(), &mut metrics);
    assert_eq!(shared.copy.as_deref(), Some(&b"abc"[..]));
    assert!(matches!(shared.primary.next(), Next::Data(chunk) if &chunk[..] == b"abc"));
    assert_eq!(metrics.mirror_skipped(), 0);

    let large = Buffered::TooLarge {
        prefix: Bytes::from_static(b"abc"),
        next: Some(Piece::Trailers("checksum")),
    };
    let mut shared = share(large, Body::stream("client"), &mut metrics);
    assert!(shared.copy.is_none());
    assert!(matches!(shared.next, Some(Piece::Trailers("checksum"))));
    assert!(matches!(shared.primary.next(), Next::Data(chunk) if &chunk[..] == b"abc"));
    assert!(matches!(shared.primary.next(), Next::Pull));
    assert_eq!(metrics.mirror_skipped(), 1);
}

#[test]
fn a_copy_is_versioned_for_its_own_backend() {
    let mut metrics = Metrics::new();
    let mut map = headers(&[("host", "app.example.com")]);
    let endpoint = Some(SocketAddr::v4([10, 0, 0, 5], 80));
    let protocol = BackendProtocol::H2c;
    let copy = duplicate(&mut map, endpoint, Some("/"), Some("shadow"), protocol, &mut metrics)
        .expect("a copy");
    assert_eq!(copy.uri.to_string(), "http://10.0.0.5:80/");
    assert_eq!(copy.version, Version::Http2);
    assert_eq!(text(&map, "host"), None);
    assert_eq!(text(&map, "x-forwarded-host"), Some("shadow"));
    assert_eq!(text(&map, "x-mirrored-by"), Some("ramjet-ingress"));
    let mut untouched = HeaderMap::new();
    assert!(duplicate(&mut untouched, None, None, None, protocol, &mut metrics).is_none());
    assert!(untouched.is_empty());
    assert_eq!(metrics.mirror_failures(), 1);
}

#[test]
fn a_canary_header_that_is_no_field_name_is_never_found() {
    // `http` lets such a name be stored, but not be asked for by its text.
    let mut map = HeaderMap::new();
    if let Ok(name) = HeaderName::from_lowercase(b"a\"b") {
        map.append(name, HeaderValue::from_static("always"));
    }
    assert_eq!(canary_inputs(&map, Some("a\"b"), None), (None, None));
    assert_eq!(canary_inputs(&headers(&[("a", "b")]), Some("x y"), None), (None, None));
    assert_eq!(canary_inputs(&headers(&[("a", "b")]), Some(""), None), (None, None));
    let (found, _) = canary_inputs(&headers(&[("x-canary", "never")]), Some("X-Canary"), None);
    assert_eq!(found.as_deref(), Some("never"));
}

#[test]
fn two_requests_do_not_share_an_id() {
    let mut rng = seed(Some(9), 2);
    let mut ids: Vec<String> = Vec::new();
    for _ in 0..3 {
        let mut map = headers(&[("host", "app.example.com")]);
        let host = client_host(None, &map);
        take(&mut map, conn(), host, BackendProtocol::Http1, 1, &mut rng).expect("taken");
        ids.push(text(&map, "x-request-id").expect("an id").to_owned());
    }
    assert!(ids[0] != ids[1] && ids[1] != ids[2] && ids[0] != ids[2], "{ids:?}");
    // A request that brings its own id draws nothing.
    let mut left = seed(Some(9), 2);
    let mut right = seed(Some(9), 2);
    let mut map = headers(&[("x-request-id", "mine")]);
    take(&mut map, conn(), None, BackendProtocol::Http1, 1, &mut left).expect("taken");
    assert_eq!(next_u64(&mut left), next_u64(&mut right));
}

#[test]
fn a_long_text_that_is_no_field_name_is_not_looked_up() {
    // The map takes a text of this length for a name without looking at it, and
    // finds it again by the same text.
    let long: &'static str =
        "a-name-that-is-longer-than-the-map-cares-to-look-at with-one-space-within-it-ok";
    assert!(long.len() > 64);
    let mut map = HeaderMap::new();
    map.insert(long, HeaderValue::from_static("always"));
    assert_eq!(canary_inputs(&map, Some(long), None), (None, None));

    let name: &'static str =
        "a-name-that-is-longer-than-the-map-cares-to-look-at-and-all-of-it-may-stand-there";
    map.insert(name, HeaderValue::from_static("never"));
    let (found, _) = canary_inputs(&map, Some(name), None);
    assert_eq!(found.as_deref(), Some("never"));
}
