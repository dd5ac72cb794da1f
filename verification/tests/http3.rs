//! HTTP/3 requests and connections.
use bytes::Bytes;
use http::{HeaderMap, HeaderValue};
use ramjet_ingress::body::Next;
use ramjet_ingress::http3::{
    alt_svc_value, close_linger, declared_length, request_body, write_frame, Action, Connection,
    Happened, Polled, RequestBody, ResponseFrame, Write, ALPN_H3, H3_NO_ERROR,
};
use ramjet_ingress::time::Duration;

#[test]
fn alt_svc_names_the_port_and_a_day_of_cache() {
    let value = alt_svc_value(443).expect("a valid header value");
    assert_eq!(value.to_str().expect("ascii"), "h3=\":443\"; ma=86400");
}

#[test]
fn alt_svc_quotes_the_authority_so_a_client_parses_it() {
    // RFC 7838's alt-authority is a quoted string. An unquoted value is
    // silently ignored by clients, which would look exactly like HTTP/3
    // not working.
    let value = alt_svc_value(8443).expect("a valid header value");
    let text = value.to_str().expect("ascii");
    assert!(text.contains("\":8443\""), "{text} does not quote the port");
}

#[test]
fn the_advertised_protocol_is_the_one_alpn_offers() {
    // Two different spellings of "HTTP/3" — the ALPN identifier and the
    // alt-svc protocol name — that have to stay the same string.
    let value = alt_svc_value(443).expect("a valid header value");
    assert!(value.to_str().expect("ascii").starts_with(ALPN_H3));
}

#[test]
fn a_zero_content_length_needs_no_stream_at_all() {
    // The one case decided from the headers alone, and worth keeping there:
    // it is every form POST that turned out to be empty, and it makes the
    // request retryable without touching the QUIC stream.
    let mut headers = HeaderMap::new();
    headers.insert("content-length", HeaderValue::from_static("0"));
    let declared = declared_length(&headers);
    assert_eq!(declared, Some(0));
    assert!(request_body::<()>(declared, Polled::Pending).is_none());
}

#[test]
fn a_close_uses_the_h3_no_error_code() {
    // Shutting down is not a protocol violation, and a code that says it is
    // shows up in client logs as one.
    assert_eq!(H3_NO_ERROR, h3::error::Code::H3_NO_ERROR.value() as u32);
    assert_eq!(close_linger(), Duration::from_secs(1));
}

#[test]
fn a_declared_length_that_cannot_be_read_is_none() {
    for (value, read) in [
        ("17", Some(17)),
        ("+17", Some(17)),
        ("18446744073709551615", Some(u64::MAX)),
        ("18446744073709551616", None),
        ("-1", None),
        ("", None),
        ("1 7", None),
    ] {
        let mut headers = HeaderMap::new();
        headers.insert("content-length", HeaderValue::from_static(value));
        assert_eq!(declared_length(&headers), read, "{value:?}");
    }
    assert_eq!(declared_length(&HeaderMap::new()), None);
}

#[test]
fn a_finished_stream_is_an_empty_body() {
    assert!(request_body::<()>(None, Polled::End).is_none());
    let waiting = request_body::<()>(None, Polled::Pending).expect("a body");
    assert!(!waiting.is_known_empty());
    assert_eq!(waiting.size_hint().exact(), None);
    let declared = request_body::<()>(Some(3), Polled::Pending).expect("a body");
    assert_eq!(declared.size_hint().exact(), Some(3));
}

#[test]
fn a_peeked_chunk_is_read_once() {
    let peeked = Polled::Chunk(Bytes::from_static(b"abc"));
    let mut body = request_body::<()>(None, peeked).expect("a body");
    assert!(matches!(body.next(), Next::Data(chunk) if &chunk[..] == b"abc"));
    assert!(matches!(body.next(), Next::Pull));
    assert!(matches!(body.receive(Polled::Pending), None));
    assert!(matches!(body.receive(Polled::End), Some(Next::End)));
    assert!(body.is_end_stream());
    assert!(matches!(body.next(), Next::End));
}

#[test]
fn a_broken_stream_is_not_a_clean_end() {
    let mut body: RequestBody<&'static str> = RequestBody::new(Some(10));
    let first = body.receive(Polled::Chunk(Bytes::from_static(b"abcd")));
    assert!(matches!(first, Some(Next::Data(_))));
    assert_eq!(body.size_hint().exact(), Some(6));
    assert!(matches!(body.receive(Polled::Failed("reset")), Some(Next::Failed("reset"))));
    assert!(matches!(body.next(), Next::End));
}

#[test]
fn a_drain_waits_for_the_last_request() {
    let mut connection = Connection::new();
    assert_eq!(connection.on(Happened::Opened), Action::Serve);
    assert_eq!(connection.on(Happened::Opened), Action::Serve);
    assert_eq!(connection.on(Happened::Signal), Action::SayGoodbye);
    assert!(!connection.is_drained());
    assert_eq!(connection.on(Happened::Finished), Action::Wait);
    assert!(!connection.is_drained());
    assert_eq!(connection.on(Happened::Finished), Action::Wait);
    assert!(connection.is_drained());
    assert_eq!(connection.on(Happened::Gone), Action::Leave);
}

#[test]
fn a_truncated_response_is_reset() {
    assert_eq!(write_frame(ResponseFrame::Data), Write::Send);
    assert_eq!(write_frame(ResponseFrame::Trailers), Write::SendAndFinish);
    assert_eq!(write_frame(ResponseFrame::Other), Write::Skip);
    assert_eq!(write_frame(ResponseFrame::End), Write::Finish);
    assert_eq!(write_frame(ResponseFrame::Failed), Write::Reset);
}
