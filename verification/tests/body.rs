//! Bodies on their way through the proxy.
use bytes::Bytes;
use ramjet_ingress::body::{BodyError, Next, ProxyBody, SizeHint};
use ramjet_ingress::http3::RequestBody;

type Body = ProxyBody<&'static str, &'static str>;

/// Everything a body holds itself, up to its end or its stream.
fn collect(body: &mut Body) -> Vec<u8> {
    let mut all = Vec::new();
    while let Next::Data(chunk) = body.next() {
        all.extend_from_slice(&chunk);
    }
    all
}

fn chunk(bytes: &'static [u8]) -> Bytes {
    Bytes::from_static(bytes)
}

#[test]
fn empty_yields_no_frames() {
    let mut body = Body::empty();
    assert!(body.is_end_stream(false));
    assert_eq!(body.size_hint(SizeHint::unknown()).exact(), Some(0));
    assert!(body.is_known_empty(SizeHint::unknown()));
    assert!(collect(&mut body).is_empty());
}

#[test]
fn once_yields_exactly_one_frame() {
    let mut body = Body::once(chunk(b"hello"));
    assert!(!body.is_end_stream(true));
    assert_eq!(body.size_hint(SizeHint::unknown()).exact(), Some(5));
    assert!(!body.is_known_empty(SizeHint::unknown()));
    assert_eq!(collect(&mut body), b"hello");
    assert!(matches!(body.next(), Next::End));
}

#[test]
fn a_prefix_over_a_known_body_collapses_into_one_chunk() {
    // Nothing needs a wrapper here: both halves are already in memory, and
    // a chain of them would cost a frame each for no reason.
    let mut body = Body::prefixed(chunk(b"head"), Body::once(chunk(b"tail")));
    assert_eq!(body.size_hint(SizeHint::unknown()).exact(), Some(8));
    assert_eq!(collect(&mut body), b"headtail");
}

#[test]
fn a_prefix_over_nothing_is_just_the_prefix() {
    let mut body = Body::prefixed(chunk(b"only"), Body::empty());
    assert_eq!(body.size_hint(SizeHint::unknown()).exact(), Some(4));
    assert_eq!(collect(&mut body), b"only");
}

#[test]
fn an_empty_prefix_hands_back_the_body_untouched() {
    let body = Body::prefixed(Bytes::new(), Body::once(chunk(b"x")));
    assert_eq!(body.size_hint(SizeHint::unknown()).exact(), Some(1));
    assert!(!body.is_known_empty(SizeHint::unknown()));
}

#[test]
fn an_empty_chunk_collapses_to_empty() {
    // Otherwise a zero-length error body would advertise a frame that
    // never carries anything, and a stray chunk would be sent for it.
    assert!(Body::once(Bytes::new()).is_end_stream(false));
}

#[test]
fn a_stream_speaks_for_itself() {
    let mut body = Body::stream("client");
    assert!(matches!(body.next(), Next::Pull));
    assert!(body.is_end_stream(true));
    assert!(!body.is_end_stream(false));
    assert_eq!(body.size_hint(SizeHint::with_exact(9)).exact(), Some(9));
    assert!(body.is_known_empty(SizeHint::with_exact(0)));
    assert!(!body.is_known_empty(SizeHint::unknown()));
}

#[test]
fn what_was_read_from_a_stream_comes_out_in_front_of_it() {
    let mut body = Body::prefixed(chunk(b"ab"), Body::prefixed(chunk(b"cd"), Body::stream("client")));
    assert_eq!(body.size_hint(SizeHint::with_exact(6)).exact(), Some(10));
    assert_eq!(body.size_hint(SizeHint::unknown()).exact(), None);
    assert!(!body.is_end_stream(true));
    assert_eq!(collect(&mut body), b"abcd");
    assert!(matches!(body.next(), Next::Pull));
    assert!(body.is_end_stream(true));
    let full = Body::prefixed(chunk(b"ab"), Body::stream("client"));
    assert_eq!(full.size_hint(SizeHint::with_exact(u64::MAX)).exact(), Some(u64::MAX));
}

#[test]
fn an_http3_request_hands_on_what_was_peeked_at() {
    let mut request = RequestBody::new(Some(5));
    request.queued = Some(Ok(chunk(b"hel")));
    let mut body = Body::prefixed(chunk(b"> "), Body::http3(request));
    assert!(!body.is_known_empty(SizeHint::unknown()));
    assert_eq!(body.size_hint(SizeHint::unknown()).exact(), Some(7));
    assert_eq!(collect(&mut body), b"> hel");
    assert!(matches!(body.next(), Next::Pull));
    assert_eq!(body.size_hint(SizeHint::unknown()).exact(), Some(2));
}

#[test]
fn failures_are_worded() {
    let http = BodyError::Http("reset".to_owned());
    let http3 = BodyError::Http3("reset".to_owned());
    assert!(http.to_text().contains("reset"));
    assert_ne!(http.to_text(), http3.to_text());
}
