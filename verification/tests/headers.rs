//! Request and response headers.
use http::{HeaderMap, HeaderName, HeaderValue};
use ramjet_ingress::header_map::fits;
use ramjet_ingress::headers::{
    apply_forwarded, cookie_value, ensure_request_id, restore_upgrade, strip_hop_by_hop,
    upgrade_protocol, X_FORWARDED_FOR, X_FORWARDED_HOST, X_FORWARDED_PROTO, X_REAL_IP,
    X_REQUEST_ID,
};
use ramjet_ingress::net::{parse_ipv4, parse_ipv6, IpAddr};
use ramjet_ingress::rng::seed;
use ramjet_ingress::text::to_chars;

fn ip(text: &str) -> IpAddr {
    let chars = to_chars(text);
    match parse_ipv4(&chars) {
        Some(v4) => IpAddr::V4(v4),
        None => IpAddr::V6(parse_ipv6(&chars).expect("ip")),
    }
}

fn map(pairs: &[(&str, &str)]) -> HeaderMap {
    let mut headers = HeaderMap::new();
    for (name, value) in pairs {
        headers.append(
            HeaderName::from_bytes(name.as_bytes()).expect("valid name"),
            HeaderValue::from_str(value).expect("valid value"),
        );
    }
    headers
}

#[test]
fn strips_the_fixed_list() {
    let mut headers = map(&[
        ("connection", "close"),
        ("transfer-encoding", "chunked"),
        ("te", "trailers"),
        ("keep-alive", "timeout=5"),
        ("proxy-connection", "keep-alive"),
        ("content-type", "text/plain"),
    ]);
    strip_hop_by_hop(&mut headers);
    assert!(headers.get("connection").is_none());
    assert!(headers.get("transfer-encoding").is_none());
    assert!(headers.get("te").is_none());
    assert!(headers.get("keep-alive").is_none());
    assert!(headers.get("proxy-connection").is_none());
    assert_eq!(headers.get("content-type").map(|v| v.as_bytes()), Some(&b"text/plain"[..]));
}

/// The subtle half of RFC 7230 §6.1: `Connection` names further headers
/// that are hop-by-hop for this message only.
#[test]
fn strips_headers_that_connection_names() {
    let mut headers = map(&[
        ("connection", "x-internal-token, close"),
        ("x-internal-token", "secret"),
        ("x-keep-me", "yes"),
    ]);
    strip_hop_by_hop(&mut headers);
    assert!(
        headers.get("x-internal-token").is_none(),
        "a Connection-listed header leaked to the upstream"
    );
    assert!(headers.get("x-keep-me").is_some());
}

#[test]
fn upgrade_needs_the_connection_token() {
    let with_token = map(&[("connection", "Upgrade"), ("upgrade", "websocket")]);
    assert_eq!(
        upgrade_protocol(&with_token).map(|v| v.as_bytes().to_vec()),
        Some(b"websocket".to_vec())
    );

    // `Upgrade` alone is advisory; it must not keep the hop-by-hop headers
    // alive, or a plain request would be forwarded with them.
    let advisory = map(&[("upgrade", "websocket")]);
    assert!(upgrade_protocol(&advisory).is_none());
}

#[test]
fn upgrade_token_is_found_among_others() {
    let headers = map(&[("connection", "keep-alive, Upgrade"), ("upgrade", "h2c")]);
    assert!(upgrade_protocol(&headers).is_some());
}

#[test]
fn upgrade_survives_a_strip_and_restore() {
    let mut headers = map(&[("connection", "upgrade"), ("upgrade", "websocket")]);
    let protocol = upgrade_protocol(&headers).expect("an upgrade");
    strip_hop_by_hop(&mut headers);
    assert!(headers.get("upgrade").is_none());
    restore_upgrade(&mut headers, &protocol);
    assert_eq!(
        headers.get("connection").map(|v| v.as_bytes()),
        Some(&b"upgrade"[..])
    );
    assert_eq!(
        headers.get("upgrade").map(|v| v.as_bytes()),
        Some(&b"websocket"[..])
    );
}

#[test]
fn forwarded_for_is_appended_not_replaced() {
    let mut headers = map(&[("x-forwarded-for", "203.0.113.7")]);
    apply_forwarded(&mut headers, ip("198.51.100.4"), "https", None);
    assert_eq!(
        headers.get(X_FORWARDED_FOR).map(|v| v.as_bytes()),
        Some(&b"203.0.113.7, 198.51.100.4"[..])
    );
}

#[test]
fn several_forwarded_for_headers_are_joined() {
    let mut headers = map(&[("x-forwarded-for", "203.0.113.7"), ("x-forwarded-for", "10.1.1.1")]);
    apply_forwarded(&mut headers, ip("198.51.100.4"), "http", None);
    assert_eq!(headers.get_all(X_FORWARDED_FOR).iter().count(), 1);
    assert_eq!(
        headers.get(X_FORWARDED_FOR).map(|v| v.as_bytes()),
        Some(&b"203.0.113.7, 10.1.1.1, 198.51.100.4"[..])
    );
}

#[test]
fn forwarded_for_is_set_when_absent() {
    let mut headers = HeaderMap::new();
    apply_forwarded(&mut headers, ip("10.0.0.9"), "http", None);
    assert_eq!(
        headers.get(X_FORWARDED_FOR).map(|v| v.as_bytes()),
        Some(&b"10.0.0.9"[..])
    );
    assert_eq!(
        headers.get(X_REAL_IP).map(|v| v.as_bytes()),
        Some(&b"10.0.0.9"[..])
    );
    assert_eq!(
        headers.get(X_FORWARDED_PROTO).map(|v| v.as_bytes()),
        Some(&b"http"[..])
    );
}

#[test]
fn ipv6_clients_format_without_allocating_past_the_buffer() {
    let mut headers = HeaderMap::new();
    apply_forwarded(
        &mut headers,
        ip("2001:db8::dead:beef"),
        "https",
        None,
    );
    assert_eq!(
        headers.get(X_FORWARDED_FOR).map(|v| v.as_bytes()),
        Some(&b"2001:db8::dead:beef"[..])
    );
}

#[test]
fn forwarded_host_comes_from_the_authority() {
    let mut headers = HeaderMap::new();
    apply_forwarded(
        &mut headers,
        ip("10.0.0.1"),
        "https",
        Some(HeaderValue::from_static("shop.example.com")),
    );
    assert_eq!(
        headers.get(X_FORWARDED_HOST).map(|v| v.as_bytes()),
        Some(&b"shop.example.com"[..])
    );
}

#[test]
fn request_id_is_reused_when_present() {
    let mut rng = seed(Some(1), 1);
    let mut headers = map(&[("x-request-id", "abc-123")]);
    let id = ensure_request_id(&mut headers, &mut rng);
    assert_eq!(id.as_bytes(), b"abc-123");
}

#[test]
fn request_id_is_generated_when_absent() {
    let mut rng = seed(Some(1), 1);
    let mut headers = HeaderMap::new();
    let first = ensure_request_id(&mut headers, &mut rng);
    assert_eq!(first.len(), 32);
    assert_eq!(headers.get(X_REQUEST_ID), Some(&first));

    let mut other = HeaderMap::new();
    assert_ne!(ensure_request_id(&mut other, &mut rng), first);
}

#[test]
fn cookies_are_parsed_by_exact_name() {
    let headers = map(&[("cookie", "session=abc; canary=always; other=1")]);
    assert_eq!(cookie_value(&headers, "canary").as_deref(), Some("always"));
    assert_eq!(cookie_value(&headers, "session").as_deref(), Some("abc"));
    assert_eq!(cookie_value(&headers, "Canary").as_deref(), None, "names are case-sensitive");
    assert_eq!(cookie_value(&headers, "missing").as_deref(), None);
}

#[test]
fn cookies_are_found_across_several_headers() {
    let headers = map(&[("cookie", "a=1"), ("cookie", "canary=never")]);
    assert_eq!(cookie_value(&headers, "canary").as_deref(), Some("never"));
}

#[test]
fn every_connection_field_names_what_is_dropped() {
    let mut headers = map(&[
        ("connection", "close"),
        ("connection", "X-One, x-two"),
        ("x-one", "1"),
        ("x-two", "2"),
        ("x-three", "3"),
    ]);
    strip_hop_by_hop(&mut headers);
    assert!(headers.get("x-one").is_none());
    assert!(headers.get("x-two").is_none());
    assert!(headers.get("x-three").is_some());
}

#[test]
fn a_request_id_that_is_there_is_left_alone() {
    let mut rng = seed(Some(1), 1);
    let mut headers = map(&[("x-request-id", "abc-123"), ("accept", "*/*")]);
    let before = headers.clone();
    ensure_request_id(&mut headers, &mut rng);
    assert_eq!(headers, before);
}

#[test]
fn a_cookie_may_be_empty_and_is_found_once() {
    let headers = map(&[("cookie", "a=; b=x=y; a=2")]);
    assert_eq!(cookie_value(&headers, "a").as_deref(), Some(""));
    assert_eq!(cookie_value(&headers, "b").as_deref(), Some("x=y"));
}

#[test]
fn room_is_counted_by_names() {
    let headers = map(&[("cookie", "a=1"), ("cookie", "b=2"), ("accept", "*/*")]);
    assert!(fits(&headers, 8));
    assert!(fits(&headers, 6551));
    assert!(!fits(&headers, 6552));
}
