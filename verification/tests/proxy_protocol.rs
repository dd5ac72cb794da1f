//! The PROXY protocol, both versions.
use bytes::Bytes;
use ramjet_ingress::net::{parse_socket, SocketAddr};
use ramjet_ingress::proxy_protocol::{
    parse, proxied_address, AcceptError, Accepted, HeaderError, HeaderReader, Parsed, Prefixed,
    MAX_HEADER_LEN,
    V1_MAX_LEN, V2_PREAMBLE_LEN, V2_SIGNATURE,
};
use ramjet_ingress::text::to_chars;

fn addr(text: &str) -> SocketAddr {
    parse_socket(&to_chars(text)).expect("literal")
}

/// A complete v2 header: preamble, then `body`.
fn v2(version_command: u8, family_protocol: u8, body: &[u8]) -> Vec<u8> {
    let mut header = Vec::from(V2_SIGNATURE);
    header.push(version_command);
    header.push(family_protocol);
    let length = u16::try_from(body.len()).expect("a test body under 64 KiB");
    header.extend_from_slice(&length.to_be_bytes());
    header.extend_from_slice(body);
    header
}

/// The 12-byte `AF_INET` address block for one source and destination.
fn inet_block(source: [u8; 4], source_port: u16) -> Vec<u8> {
    let mut block = Vec::from(source);
    block.extend_from_slice(&[10, 0, 0, 1]);
    block.extend_from_slice(&source_port.to_be_bytes());
    block.extend_from_slice(&443u16.to_be_bytes());
    block
}

/// The 36-byte `AF_INET6` address block.
fn inet6_block(source: [u16; 8], source_port: u16) -> Vec<u8> {
    let mut block = Vec::new();
    for group in source {
        block.extend_from_slice(&group.to_be_bytes());
    }
    block.extend_from_slice(&[0, 0, 0, 0, 0, 0, 0, 0, 0, 0, 0, 0, 0, 0, 0, 1]);
    block.extend_from_slice(&source_port.to_be_bytes());
    block.extend_from_slice(&443u16.to_be_bytes());
    block
}

fn done(input: &[u8]) -> (usize, Option<SocketAddr>) {
    match parse(input).expect("a valid header") {
        Parsed::Done { consumed, client } => (consumed, client),
        Parsed::Incomplete => panic!("expected a complete header"),
    }
}

fn client_of(input: &[u8]) -> SocketAddr {
    done(input).1.expect("an address")
}

// -----------------------------------------------------------------------
// v1
// -----------------------------------------------------------------------

#[test]
fn v1_tcp4_names_the_source_address() {
    let header = b"PROXY TCP4 192.0.2.10 10.0.0.1 56324 443\r\n";
    let (consumed, client) = done(header);
    assert_eq!(consumed, header.len(), "the header ends at the CRLF");
    assert_eq!(
        client,
        Some(addr("192.0.2.10:56324")),
        "the source, not the destination, is the client"
    );
}

#[test]
fn v1_tcp6_names_the_source_address() {
    let header = b"PROXY TCP6 2001:db8::1 2001:db8::2 56324 443\r\n";
    assert_eq!(
        client_of(header),
        addr("[2001:db8::1]:56324")
    );
}

#[test]
fn v1_unknown_is_valid_and_carries_no_address() {
    // The header is still consumed: the connection's first application byte
    // is after it, and treating UNKNOWN as an error would break a load
    // balancer's own health checks.
    let header = b"PROXY UNKNOWN\r\n";
    assert_eq!(done(header), (header.len(), None));
}

#[test]
fn v1_unknown_ignores_whatever_follows_the_token() {
    // The specification allows a sender to fill in the addresses it does
    // know after UNKNOWN, and requires the receiver to ignore them.
    let header = b"PROXY UNKNOWN ffff::1 ffff::2 65535 65535\r\n";
    assert_eq!(done(header), (header.len(), None));
}

#[test]
fn v1_stops_at_the_crlf_and_reports_the_rest_as_surplus() {
    let mut input = Vec::from(*b"PROXY TCP4 192.0.2.10 10.0.0.1 56324 443\r\n");
    let header_len = input.len();
    input.extend_from_slice(b"GET / HTTP/1.1\r\nHost: example.com\r\n\r\n");
    assert_eq!(done(&input).0, header_len, "the request must not be eaten");
}

#[test]
fn v1_rejects_a_family_it_does_not_know() {
    assert!(matches!(
        parse(b"PROXY TCP5 192.0.2.10 10.0.0.1 56324 443\r\n"),
        Err(HeaderError::Malformed(_))
    ));
}

#[test]
fn v1_rejects_an_address_of_the_wrong_family() {
    // A TCP4 line naming an IPv6 address is the shape a sloppy sender
    // produces, and taking it would mean guessing what it meant.
    assert!(matches!(
        parse(b"PROXY TCP4 2001:db8::1 10.0.0.1 56324 443\r\n"),
        Err(HeaderError::Malformed(_))
    ));
    assert!(matches!(
        parse(b"PROXY TCP6 192.0.2.10 2001:db8::2 56324 443\r\n"),
        Err(HeaderError::Malformed(_))
    ));
}

#[test]
fn v1_rejects_a_bad_port() {
    for line in [
        &b"PROXY TCP4 192.0.2.10 10.0.0.1 65536 443\r\n"[..],
        &b"PROXY TCP4 192.0.2.10 10.0.0.1 -1 443\r\n"[..],
        &b"PROXY TCP4 192.0.2.10 10.0.0.1  443\r\n"[..],
        &b"PROXY TCP4 192.0.2.10 10.0.0.1 http 443\r\n"[..],
    ] {
        assert!(
            matches!(parse(line), Err(HeaderError::Malformed(_))),
            "{}",
            String::from_utf8_lossy(line)
        );
    }
}

#[test]
fn v1_rejects_missing_and_surplus_fields() {
    assert!(matches!(
        parse(b"PROXY TCP4 192.0.2.10 10.0.0.1 56324\r\n"),
        Err(HeaderError::Malformed(_))
    ));
    assert!(matches!(
        parse(b"PROXY TCP4 192.0.2.10 10.0.0.1 56324 443 extra\r\n"),
        Err(HeaderError::Malformed(_))
    ));
}

#[test]
fn v1_rejects_a_bare_cr() {
    assert!(matches!(
        parse(b"PROXY TCP4 192.0.2.10 10.0.0.1 56324 443\rX"),
        Err(HeaderError::Malformed(_))
    ));
}

#[test]
fn v1_refuses_a_line_that_never_ends() {
    // 107 bytes is the specification's ceiling, and a sender past it is
    // either broken or trying to make the receiver buffer without bound.
    let flood = {
        let mut input = Vec::from(*b"PROXY ");
        input.extend(std::iter::repeat_n(b'A', 200));
        input
    };
    assert!(matches!(
        parse(&flood),
        Err(HeaderError::Malformed(_))
    ));

    // One byte short of the ceiling it is still merely incomplete.
    let mut nearly = Vec::from(*b"PROXY ");
    nearly.extend(std::iter::repeat_n(b'A', V1_MAX_LEN - 2 - nearly.len()));
    assert_eq!(nearly.len(), V1_MAX_LEN - 2);
    assert_eq!(parse(&nearly), Ok(Parsed::Incomplete));
}

#[test]
fn the_longest_legal_v1_line_is_accepted() {
    // 107 is the specification's own worst case, and it is the UNKNOWN form
    // that reaches it: the token is longer than `TCP6`, and a sender is
    // allowed to fill in the addresses it does know after it. A parser that
    // refuses this line has its boundary off by one and would drop
    // connections a conforming sender is entitled to make.
    let header = b"PROXY UNKNOWN ffff:ffff:ffff:ffff:ffff:ffff:ffff:ffff ffff:ffff:ffff:ffff:ffff:ffff:ffff:ffff 65535 65535\r\n";
    assert_eq!(header.len(), V1_MAX_LEN);
    assert_eq!(done(header), (V1_MAX_LEN, None));

    // The widest line that actually names a client is the TCP6 one, three
    // bytes shorter.
    let addressed = b"PROXY TCP6 ffff:ffff:ffff:ffff:ffff:ffff:ffff:ffff ffff:ffff:ffff:ffff:ffff:ffff:ffff:ffff 65535 65535\r\n";
    assert_eq!(addressed.len(), V1_MAX_LEN - 3);
    assert_eq!(
        client_of(addressed),
        addr("[ffff:ffff:ffff:ffff:ffff:ffff:ffff:ffff]:65535")
    );
}

// -----------------------------------------------------------------------
// v2
// -----------------------------------------------------------------------

#[test]
fn v2_inet_names_the_source_address() {
    let header = v2(0x21, 0x11, &inet_block([192, 0, 2, 10], 56324));
    let (consumed, client) = done(&header);
    assert_eq!(consumed, header.len());
    assert_eq!(client, Some(addr("192.0.2.10:56324")));
}

#[test]
fn v2_inet6_names_the_source_address() {
    let source = [0x2001, 0xdb8, 0, 0, 0, 0, 0, 1];
    let header = v2(0x21, 0x21, &inet6_block(source, 56324));
    assert_eq!(
        client_of(&header),
        addr("[2001:db8::1]:56324")
    );
}

#[test]
fn v2_skips_tlvs_after_the_address_block() {
    // This is the AWS shape: an INET block followed by a type-0xEA TLV
    // carrying the VPC endpoint id. Nothing routes on it, and a parser that
    // choked on an unknown TLV would fail behind an NLB.
    let mut body = inet_block([198, 51, 100, 7], 40001);
    body.push(0xEA);
    body.extend_from_slice(&7u16.to_be_bytes());
    body.extend_from_slice(b"vpce-01");
    let header = v2(0x21, 0x11, &body);

    let (consumed, client) = done(&header);
    assert_eq!(consumed, header.len(), "the TLV is part of the header");
    assert_eq!(client, Some(addr("198.51.100.7:40001")));
}

#[test]
fn v2_local_keeps_the_socket_peer() {
    // A load balancer health-checking the listener sends LOCAL: the
    // connection really is its own, so there is no client to name.
    let header = v2(0x20, 0x11, &inet_block([192, 0, 2, 10], 56324));
    assert_eq!(done(&header), (header.len(), None));
}

#[test]
fn v2_local_with_an_empty_body_is_valid() {
    let header = v2(0x20, 0x00, &[]);
    assert_eq!(done(&header), (V2_PREAMBLE_LEN, None));
}

#[test]
fn v2_unspec_and_unix_keep_the_socket_peer() {
    for family in [0x01u8, 0x31] {
        let header = v2(0x21, family, &[0u8; 8]);
        assert_eq!(
            done(&header),
            (header.len(), None),
            "family {family:#04x} must be consumed, not rejected"
        );
    }
}

#[test]
fn v2_rejects_a_version_other_than_two() {
    let header = v2(0x31, 0x11, &inet_block([192, 0, 2, 10], 1));
    assert!(matches!(parse(&header), Err(HeaderError::Malformed(_))));
}

#[test]
fn v2_rejects_a_command_that_is_neither_local_nor_proxy() {
    let header = v2(0x27, 0x11, &inet_block([192, 0, 2, 10], 1));
    assert!(matches!(parse(&header), Err(HeaderError::Malformed(_))));
}

#[test]
fn v2_rejects_an_unknown_address_family() {
    let header = v2(0x21, 0x71, &[0u8; 12]);
    assert!(matches!(parse(&header), Err(HeaderError::Malformed(_))));
}

#[test]
fn v2_rejects_an_address_block_shorter_than_its_family() {
    // The length field says the header is complete, and the family says the
    // block should be 12 or 36 bytes. Both cannot be true.
    let short_inet = v2(0x21, 0x11, &[0u8; 11]);
    assert!(matches!(parse(&short_inet), Err(HeaderError::Malformed(_))));

    let short_inet6 = v2(0x21, 0x21, &[0u8; 35]);
    assert!(matches!(parse(&short_inet6), Err(HeaderError::Malformed(_))));
}

#[test]
fn v2_waits_for_a_length_that_exceeds_the_buffer() {
    // A declared length longer than what has arrived is incomplete, never
    // an out-of-bounds read and never an error in its own right.
    let mut header = Vec::from(V2_SIGNATURE);
    header.extend_from_slice(&[0x21, 0x11]);
    header.extend_from_slice(&u16::MAX.to_be_bytes());
    header.extend_from_slice(&[0u8; 12]);
    assert_eq!(parse(&header), Ok(Parsed::Incomplete));
}

#[test]
fn the_widest_v2_header_fits_the_documented_bound() {
    let header = v2(0x21, 0x11, &vec![0u8; usize::from(u16::MAX)]);
    assert_eq!(header.len(), MAX_HEADER_LEN);
    assert_eq!(done(&header).0, MAX_HEADER_LEN);
}

// -----------------------------------------------------------------------
// Framing
// -----------------------------------------------------------------------

#[test]
fn garbage_is_refused_on_the_first_byte_that_proves_it() {
    // The point is that this does not wait for a CRLF that will never come:
    // an HTTP request to a PROXY-protocol listener is refused immediately.
    assert_eq!(parse(b"GET / HTTP/1.1\r\n"), Err(HeaderError::Signature));
    assert_eq!(parse(b"G"), Err(HeaderError::Signature));
    // TLS: a ClientHello starts with the handshake content type, 0x16.
    assert_eq!(parse(&[0x16, 0x03, 0x01, 0x00]), Err(HeaderError::Signature));
    // `POST` shares its first byte with `PROXY` and diverges at the second.
    assert_eq!(parse(b"POST / HTTP/1.1\r\n"), Err(HeaderError::Signature));
}

#[test]
fn nothing_at_all_is_incomplete_rather_than_wrong() {
    assert_eq!(parse(b""), Ok(Parsed::Incomplete));
}

#[test]
fn every_truncation_of_every_header_is_incomplete_and_never_wrong() {
    // The property that makes the reader loop safe: a header arriving one
    // byte at a time must never be mistaken for an error, and must never be
    // reported complete before its last byte. Every prefix of every shape
    // this parser accepts is checked, which is the whole state space that
    // splitting a read can produce.
    let source = [0x2001, 0xdb8, 0, 0, 0, 0, 0, 1];
    let mut tlv_body = inet_block([198, 51, 100, 7], 40001);
    tlv_body.push(0xEA);
    tlv_body.extend_from_slice(&7u16.to_be_bytes());
    tlv_body.extend_from_slice(b"vpce-01");

    let headers: Vec<Vec<u8>> = vec![
        Vec::from(*b"PROXY TCP4 192.0.2.10 10.0.0.1 56324 443\r\n"),
        Vec::from(*b"PROXY TCP6 2001:db8::1 2001:db8::2 56324 443\r\n"),
        Vec::from(*b"PROXY UNKNOWN\r\n"),
        v2(0x21, 0x11, &inet_block([192, 0, 2, 10], 56324)),
        v2(0x21, 0x21, &inet6_block(source, 56324)),
        v2(0x21, 0x11, &tlv_body),
        v2(0x20, 0x00, &[]),
    ];

    for header in headers {
        for split in 0..header.len() {
            let partial = header.get(..split).expect("a prefix");
            assert_eq!(
                parse(partial),
                Ok(Parsed::Incomplete),
                "{split} of {} bytes must be incomplete",
                header.len()
            );
        }
        assert!(
            matches!(parse(&header), Ok(Parsed::Done { .. })),
            "the whole header must parse"
        );
    }
}

#[test]
fn a_header_stays_complete_however_much_follows_it() {
    // Feeding more bytes after a complete header must not change the
    // answer, which is what lets the reader stop at the first `Done`.
    let header = v2(0x21, 0x11, &inet_block([192, 0, 2, 10], 56324));
    let expected = done(&header);
    for extra in [0usize, 1, 64, 4096] {
        let mut input = header.clone();
        input.extend(std::iter::repeat_n(0x16, extra));
        assert_eq!(done(&input), expected, "{extra} trailing bytes");
    }
}

// ---------------------------------------------------------------------------
// The reader
// ---------------------------------------------------------------------------

/// Feeds `chunks` to a reader, one per read, until it answers.
fn accept_chunks(chunks: &[&[u8]]) -> Result<Option<(Option<SocketAddr>, Vec<u8>)>, AcceptError> {
    let mut reader = HeaderReader::new();
    for chunk in chunks {
        reader.receive(chunk);
        match reader.answer() {
            Ok(None) => {}
            Ok(Some(Accepted { client, leftover })) => {
                return Ok(Some((client, leftover.to_vec())));
            }
            Err(error) => return Err(AcceptError::from(error)),
        }
    }
    Ok(None)
}

#[test]
fn a_header_split_across_reads_is_reassembled() {
    let (client, rest) = accept_chunks(&[
        b"PROXY TC",
        b"P4 192.0.2.10 10.0.0.1 5",
        b"6324 443\r\nGET / HTTP/1.1\r\n",
    ])
    .expect("a valid header")
    .expect("a whole one");

    assert_eq!(client, Some(addr("192.0.2.10:56324")));
    assert_eq!(rest, b"GET / HTTP/1.1\r\n", "the request survives intact");
}

#[test]
fn a_header_arriving_one_byte_at_a_time_is_reassembled() {
    let header = v2(0x21, 0x11, &inet_block([203, 0, 113, 5], 12345));
    let chunks: Vec<&[u8]> = header.iter().map(std::slice::from_ref).collect();
    let (client, _) = accept_chunks(&chunks).expect("a valid header").expect("a whole one");
    assert_eq!(client, Some(addr("203.0.113.5:12345")));
}

#[test]
fn bytes_read_past_the_header_are_handed_back() {
    let (_, rest) = accept_chunks(&[b"PROXY TCP4 192.0.2.10 10.0.0.1 56324 443\r\nhello, world"])
        .expect("a valid header")
        .expect("a whole one");
    assert_eq!(rest, b"hello, world");
}

#[test]
fn garbage_is_an_error_rather_than_a_wait() {
    let error = accept_chunks(&[b"GET / HTTP/1.1\r\n"]).expect_err("refused");
    assert!(matches!(error, AcceptError::Header(HeaderError::Signature)));
}

#[test]
fn the_prefix_is_released_once_it_has_been_read() {
    // The prefix is held for the life of the connection, so it has to stop
    // costing anything the moment it is drained.
    let mut prefixed = Prefixed::new((), Bytes::from_static(b"abcd"));
    assert_eq!(prefixed.buffered(), 4);

    let head = prefixed.replay(2).expect("a read");
    assert_eq!(head.len(), 2);
    assert_eq!(&head[..], b"ab");
    assert_eq!(prefixed.buffered(), 2);

    let rest = prefixed.replay(256).expect("the rest");
    assert_eq!(&rest[..], b"cd");
    assert_eq!(prefixed.buffered(), 0);
    assert!(prefixed.replay(256).is_none());
}

#[test]
fn every_refusal_is_told_apart_in_the_log() {
    let late = AcceptError::Timeout;
    assert_eq!(late.to_text(), "no complete PROXY header before the deadline");
    let closed = AcceptError::Io(std::io::Error::from(std::io::ErrorKind::UnexpectedEof));
    assert!(closed.to_text().starts_with("reading a PROXY header failed: "), "{}", closed.to_text());
    let other = AcceptError::Header(HeaderError::Signature);
    assert_eq!(other.to_text(), HeaderError::Signature.to_text());
    assert!(HeaderError::Malformed("port").to_text().contains("port"));
}

#[test]
fn a_v2_preamble_that_cannot_end_well_is_refused_at_once() {
    // A family that no header can carry is known from its own byte.
    let preamble = v2(0x21, 0x71, &[0u8; 12]);
    for arrived in 14..=V2_PREAMBLE_LEN {
        let partial = preamble.get(..arrived).expect("a prefix");
        assert!(matches!(parse(partial), Err(HeaderError::Malformed(_))), "{arrived} bytes");
    }
    assert_eq!(parse(preamble.get(..13).expect("a prefix")), Ok(Parsed::Incomplete));

    // A length that its family does not fit in is known from the preamble.
    for (family, length) in [(0x11, 11u16), (0x12, 0), (0x21, 35), (0x22, 12)] {
        let mut short = Vec::from(V2_SIGNATURE);
        short.extend_from_slice(&[0x21, family]);
        short.extend_from_slice(&length.to_be_bytes());
        assert!(matches!(parse(&short), Err(HeaderError::Malformed(_))), "{family} {length}");
        short.pop();
        assert_eq!(parse(&short), Ok(Parsed::Incomplete), "{family} {length}");
    }

    // The proxy's own checks name nobody, so neither is looked at.
    assert_eq!(done(&v2(0x20, 0x71, &[])), (V2_PREAMBLE_LEN, None));
    assert_eq!(done(&v2(0x20, 0x11, &[0u8; 3])), (V2_PREAMBLE_LEN + 3, None));
}

#[test]
fn only_the_address_block_names_the_client() {
    let block = inet_block([203, 0, 113, 9], 6000);
    let mut longer = block.clone();
    longer.extend_from_slice(&[0x04, 0x00, 0x01, 0xFF, 0xEE]);
    for low in 0..16u8 {
        assert_eq!(client_of(&v2(0x21, 0x10 | low, &block)), addr("203.0.113.9:6000"));
        assert_eq!(client_of(&v2(0x21, 0x10 | low, &longer)), addr("203.0.113.9:6000"));
    }
}

#[test]
fn how_the_bytes_are_split_does_not_matter() {
    let mut input = v2(0x21, 0x21, &inet6_block([0x2001, 0xdb8, 0, 0, 0, 0, 0, 5], 7000));
    input.extend_from_slice(b"GET / HTTP/1.1\r\n");
    let whole = accept_chunks(&[&input]).expect("a valid header").expect("a whole one");
    assert_eq!(whole.0, Some(addr("[2001:db8::5]:7000")));
    assert_eq!(whole.1, b"GET / HTTP/1.1\r\n");
    for size in 1..=input.len() {
        let mut reader = HeaderReader::new();
        let mut read = 0;
        let found = loop {
            let end = usize::min(read + size, input.len());
            reader.receive(input.get(read..end).expect("a chunk"));
            read = end;
            match reader.answer().expect("a valid header") {
                Some(accepted) => break accepted,
                None => assert!(read < input.len(), "chunks of {size} never ended"),
            }
        };
        assert_eq!(found.client, whole.0, "chunks of {size}");
        let mut rest = found.leftover.to_vec();
        rest.extend_from_slice(input.get(read..).expect("the rest"));
        assert_eq!(rest, whole.1, "chunks of {size}");
    }
}

#[test]
fn a_stream_that_ends_within_its_header_was_cut_short() {
    let mut reader = HeaderReader::new();
    assert!(reader.read(b"PROXY TCP4 192.0.2.10").expect("no answer yet").is_none());
    match reader.read(b"") {
        Err(AcceptError::Io(error)) => {
            assert_eq!(error.kind(), std::io::ErrorKind::UnexpectedEof);
            assert_eq!(error.to_string(), "the connection closed before a complete PROXY header");
        }
        _ => panic!("expected the end of the stream"),
    }
    let mut reader = HeaderReader::new();
    assert!(matches!(reader.read(b""), Err(AcceptError::Io(_))));

    let mut reader = HeaderReader::new();
    assert!(reader.read(b"PROXY UNK").expect("no answer yet").is_none());
    let accepted = reader.read(b"NOWN\r\nhello").expect("a valid header").expect("a whole one");
    assert_eq!(accepted.client, None);
    assert_eq!(&accepted.leftover[..], b"hello");

    let mut reader = HeaderReader::new();
    let refused = reader.read(b"GET / HTTP/1.1\r\n");
    assert!(matches!(refused, Err(AcceptError::Header(HeaderError::Signature))));
}

#[test]
fn an_address_block_is_read_by_its_family() {
    let block = inet_block([192, 0, 2, 1], 8080);
    assert_eq!(proxied_address(0x11, &block), Ok(Some(addr("192.0.2.1:8080"))));
    assert_eq!(proxied_address(0x1F, &block), Ok(Some(addr("192.0.2.1:8080"))));
    let short = block.get(..11).expect("a prefix");
    assert!(matches!(proxied_address(0x11, short), Err(HeaderError::Malformed(_))));
    let block = inet6_block([0x2001, 0xdb8, 0, 0, 0, 0, 0, 9], 99);
    assert_eq!(proxied_address(0x21, &block), Ok(Some(addr("[2001:db8::9]:99"))));
    assert!(matches!(proxied_address(0x21, &[0u8; 35]), Err(HeaderError::Malformed(_))));
    assert_eq!(proxied_address(0x00, &[]), Ok(None));
    assert_eq!(proxied_address(0x31, &[1, 2, 3]), Ok(None));
    for family in 4..16u8 {
        let refused = proxied_address(family * 16, &[0u8; 64]);
        assert!(matches!(refused, Err(HeaderError::Malformed(_))), "{family}");
    }
}
