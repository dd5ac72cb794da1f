//! The PROXY protocol, versions 1 and 2, on the traffic listeners.
//!
//! A layer 4 load balancer forwards TCP without touching the payload, so the
//! connection this process accepts comes from the balancer and not from the
//! client. The PROXY protocol puts a small block in front of the stream that
//! says who the client is. Version 1 is a text line, version 2 a binary block;
//! the first byte tells them apart.
//!
//! The header *is* the client identity, so a listener that reads one must be
//! reachable only by a balancer that always sends it, and a connection whose
//! first bytes are not a valid header is dropped.
//!
//! [`parse`] is a function of the bytes that have arrived and nothing else. It
//! answers that the header is complete, that it is not complete yet, or that it
//! is wrong. [`HeaderReader`] keeps the bytes between reads, and [`Prefixed`]
//! replays what was read past the header.
use bytes::Bytes;
use vstd::prelude::*;
use crate::buffers;
use crate::failure;
use crate::failure::{io_error_text, FailureKind};
use crate::headers;
use crate::net::{self, IpAddr, Ipv4Addr, Ipv6Addr, SocketAddr};
use crate::text;

verus! {

/// The version 1 opening token, space included.
pub const V1_SIGNATURE: [u8; 6] = [80, 82, 79, 88, 89, 32];

/// The longest a version 1 line may be, line ending included.
pub const V1_MAX_LEN: usize = 107;

/// The version 2 signature.
pub const V2_SIGNATURE: [u8; 12] = [
    0x0D,
    0x0A,
    0x0D,
    0x0A,
    0x00,
    0x0D,
    0x0A,
    0x51,
    0x55,
    0x49,
    0x54,
    0x0A,
];

/// Signature, version and command, family and protocol, and the 16-bit length.
pub const V2_PREAMBLE_LEN: usize = 16;

/// Bytes in a version 2 IPv4 address block: two addresses and two ports.
pub const V2_INET_LEN: usize = 12;

/// Bytes in a version 2 IPv6 address block.
pub const V2_INET6_LEN: usize = 36;

/// The most a valid header can occupy: the version 2 preamble plus its widest
/// length.
pub const MAX_HEADER_LEN: usize = 65551;

/// How far [`parse`] got.
#[derive(Debug, Clone, Copy, PartialEq, Eq)]
pub enum Parsed {
    /// The bytes so far are the beginning of a header, but not a whole one.
    Incomplete,
    /// A complete header.
    Done {
        /// Bytes the header occupied. Everything after them belongs to the
        /// connection.
        consumed: usize,
        /// The client the header names, or `None` when it names nobody, in which
        /// case the peer address of the socket stands.
        client: Option<SocketAddr>,
    },
}

/// Why a byte sequence is not a PROXY header.
#[derive(Debug, Clone, Copy, PartialEq, Eq)]
pub enum HeaderError {
    /// The first bytes match neither signature.
    Signature,
    /// The signature matched but the rest of the header did not hold up.
    Malformed(&'static str),
}

/// What [`parse`] says of some bytes.
pub enum Outcome {
    Incomplete,
    Done { consumed: nat, client: Option<net::SocketView> },
    Signature,
    Malformed(Seq<char>),
}

/// The view of an optional address.
pub open spec fn client_view(client: Option<SocketAddr>) -> Option<net::SocketView> {
    match client {
        Some(a) => Some(a@),
        None => None,
    }
}

/// The answer that a result of [`parse`] is.
pub open spec fn outcome(r: Result<Parsed, HeaderError>) -> Outcome {
    match r {
        Ok(Parsed::Incomplete) => Outcome::Incomplete,
        Ok(Parsed::Done { consumed, client }) => Outcome::Done {
            consumed: consumed as nat,
            client: client_view(client),
        },
        Err(HeaderError::Signature) => Outcome::Signature,
        Err(HeaderError::Malformed(why)) => Outcome::Malformed(why@),
    }
}

/// Whether the bytes so far agree with `signature`.
pub open spec fn agrees(input: Seq<u8>, signature: Seq<u8>) -> bool {
    forall|i: int| 0 <= i < input.len() && i < signature.len() ==> #[trigger] input[i] == signature[i]
}

/// A decimal port, as a version 1 line writes it.
pub enum PortView {
    Number(nat),
    NotDecimal,
    OutOfRange,
}

/// What a port field says.
pub open spec fn port_value(field: Seq<char>) -> PortView {
    if field.len() == 0 || !text::all_digits(field, 10) {
        PortView::NotDecimal
    } else if text::number_value(field, 10) > 0xffff {
        PortView::OutOfRange
    } else {
        PortView::Number(text::number_value(field, 10))
    }
}

/// The refusal of a port field, if it is refused.
pub open spec fn port_refusal(field: Seq<char>) -> Option<Seq<char>> {
    match port_value(field) {
        PortView::NotDecimal => Some("a v1 port is not a decimal number"@),
        PortView::OutOfRange => Some("a v1 port is outside 0-65535"@),
        PortView::Number(_) => None,
    }
}

/// What the fields of a version 1 line say, once it is known to be text and not
/// `UNKNOWN`.
pub open spec fn v1_addressed(parts: Seq<Seq<char>>, consumed: nat) -> Outcome {
    if parts.len() < 5 {
        Outcome::Malformed("a v1 line is missing fields"@)
    } else if parts.len() > 5 {
        Outcome::Malformed("a v1 line has trailing fields"@)
    } else if port_refusal(parts[3]) is Some {
        Outcome::Malformed(port_refusal(parts[3])->Some_0)
    } else if port_refusal(parts[4]) is Some {
        Outcome::Malformed(port_refusal(parts[4])->Some_0)
    } else if parts[0] == "TCP4"@ {
        match (net::ipv4_value(parts[1]), net::ipv4_value(parts[2])) {
            (Some(source), Some(_)) => Outcome::Done {
                consumed,
                client: Some(
                    net::SocketView {
                        ip: net::IpView::V4(source),
                        port: port_value(parts[3])->Number_0,
                        scope_id: 0,
                    },
                ),
            },
            _ => Outcome::Malformed("a TCP4 line names a non-IPv4 address"@),
        }
    } else if parts[0] == "TCP6"@ {
        match (net::ipv6_value(parts[1]), net::ipv6_value(parts[2])) {
            (Some(source), Some(_)) => Outcome::Done {
                consumed,
                client: Some(
                    net::SocketView {
                        ip: net::IpView::V6(source),
                        port: port_value(parts[3])->Number_0,
                        scope_id: 0,
                    },
                ),
            },
            _ => Outcome::Malformed("a TCP6 line names a non-IPv6 address"@),
        }
    } else {
        Outcome::Malformed("a v1 line names a protocol other than TCP4, TCP6 or UNKNOWN"@)
    }
}

/// What a whole version 1 line says. `fields` is what stands between the
/// signature and the line ending.
pub open spec fn v1_line(fields: Seq<u8>, consumed: nat) -> Outcome {
    if !vstd::utf8::valid_utf8(fields) {
        Outcome::Malformed("a v1 line is not ASCII"@)
    } else {
        let line = vstd::utf8::decode_utf8(fields);
        if line == "UNKNOWN"@ || text::starts_with(line, "UNKNOWN "@) {
            Outcome::Done { consumed, client: None }
        } else {
            v1_addressed(text::split(line, ' '), consumed)
        }
    }
}

/// Where the carriage return stands that ends a version 1 line, looking only as
/// far as leaves room for its line feed.
pub open spec fn v1_line_end(input: Seq<u8>) -> int {
    let searchable = if input.len() < V1_MAX_LEN - 1 {
        input.len() as int
    } else {
        V1_MAX_LEN - 1
    };
    text::first_index(input.take(searchable), 13u8)
}

/// What some bytes that begin like a version 1 header are.
pub open spec fn v1_outcome(input: Seq<u8>) -> Outcome {
    let cr = v1_line_end(input);
    if !agrees(input, V1_SIGNATURE@) {
        Outcome::Signature
    } else if input.len() < V1_SIGNATURE@.len() {
        Outcome::Incomplete
    } else if cr >= V1_MAX_LEN - 1 {
        Outcome::Malformed("a v1 line reached its 107-byte limit without a CRLF"@)
    } else if cr + 1 >= input.len() {
        Outcome::Incomplete
    } else if input[cr + 1] != 10 {
        Outcome::Malformed("a v1 line contains a bare CR"@)
    } else {
        v1_line(input.subrange(6, cr), (cr + 2) as nat)
    }
}

/// A big-endian 16-bit number.
pub open spec fn word(high: u8, low: u8) -> nat {
    (high * 256 + low) as nat
}

/// The eight groups of a 16-byte IPv6 address.
pub open spec fn groups_of(bytes: Seq<u8>) -> Seq<u16> {
    Seq::new(8, |i: int| word(bytes[2 * i], bytes[2 * i + 1]) as u16)
}

/// What a version 2 address block says, or why it is refused.
pub open spec fn block_value(family_protocol: u8, body: Seq<u8>) -> Result<
    Option<net::SocketView>,
    Seq<char>,
> {
    let family = family_protocol / 16;
    if family == 0 || family == 3 {
        Ok(None)
    } else if family == 1 {
        if body.len() < V2_INET_LEN {
            Err("a v2 INET header is shorter than its 12-byte address block"@)
        } else {
            Ok(
                Some(
                    net::SocketView {
                        ip: net::IpView::V4(body.take(4)),
                        port: word(body[8], body[9]),
                        scope_id: 0,
                    },
                ),
            )
        }
    } else if family == 2 {
        if body.len() < V2_INET6_LEN {
            Err("a v2 INET6 header is shorter than its 36-byte address block"@)
        } else {
            Ok(
                Some(
                    net::SocketView {
                        ip: net::IpView::V6(groups_of(body.take(16))),
                        port: word(body[32], body[33]),
                        scope_id: 0,
                    },
                ),
            )
        }
    } else {
        Err("a v2 header declares an unknown address family"@)
    }
}

/// What the declared length of a version 2 header with an address refuses of its
/// family: a block that cannot hold the addresses.
pub open spec fn length_refusal(family_protocol: u8, length: nat) -> Option<Seq<char>> {
    let family = family_protocol / 16;
    if family == 1 && length < V2_INET_LEN {
        Some("a v2 INET header is shorter than its 12-byte address block"@)
    } else if family == 2 && length < V2_INET6_LEN {
        Some("a v2 INET6 header is shorter than its 36-byte address block"@)
    } else {
        None
    }
}

/// What some bytes that begin like a version 2 header are.
///
/// A header with an address is refused as soon as its family is there and
/// unknown, or its length is there and too short for the family: nothing that
/// could follow would mend it.
pub open spec fn v2_outcome(input: Seq<u8>) -> Outcome {
    let length = word(input[14], input[15]);
    let consumed = V2_PREAMBLE_LEN + length;
    let proxied = input[12] % 16 == 1;
    if !agrees(input, V2_SIGNATURE@) {
        Outcome::Signature
    } else if input.len() <= 12 {
        Outcome::Incomplete
    } else if input[12] / 16 != 2 {
        Outcome::Malformed("a v2 header declares a version other than 2"@)
    } else if input[12] % 16 > 1 {
        Outcome::Malformed("a v2 header declares a command other than LOCAL or PROXY"@)
    } else if input.len() > 13 && proxied && input[13] / 16 > 3 {
        Outcome::Malformed("a v2 header declares an unknown address family"@)
    } else if input.len() < V2_PREAMBLE_LEN {
        Outcome::Incomplete
    } else if proxied && length_refusal(input[13], length) is Some {
        Outcome::Malformed(length_refusal(input[13], length)->Some_0)
    } else if input.len() < consumed {
        Outcome::Incomplete
    } else if !proxied {
        Outcome::Done { consumed: consumed as nat, client: None }
    } else {
        match block_value(input[13], input.subrange(V2_PREAMBLE_LEN as int, consumed)) {
            Ok(client) => Outcome::Done { consumed: consumed as nat, client },
            Err(why) => Outcome::Malformed(why),
        }
    }
}

/// What the bytes that have arrived so far are.
pub open spec fn header(input: Seq<u8>) -> Outcome {
    if input.len() == 0 {
        Outcome::Incomplete
    } else if input[0] == 0x0D {
        v2_outcome(input)
    } else if input[0] == 80 {
        v1_outcome(input)
    } else {
        Outcome::Signature
    }
}

/// Parses a PROXY header from the front of `input`.
///
/// Call it with whatever has arrived, and again with more when it answers
/// [`Parsed::Incomplete`]. An error is reported as early as it can be proven: a
/// wrong signature on its first wrong byte, a version 2 header as soon as one of
/// its declarations cannot be right. A version 1 line is judged by its fields once
/// its end is there.
pub fn parse(input: &[u8]) -> (r: Result<Parsed, HeaderError>)
    ensures
        outcome(r) == header(input@),
{
    if input.len() == 0 {
        return Ok(Parsed::Incomplete);
    }
    let first: u8 = input[0];
    if first == 0x0D {
        parse_v2(input)
    } else if first == 80 {
        parse_v1(input)
    } else {
        Err(HeaderError::Signature)
    }
}

/// Compares `input` against a signature it may only have the beginning of.
///
/// `Ok(true)` means the whole signature is there, `Ok(false)` that what is there
/// agrees and more is needed.
fn signature_matches(input: &[u8], signature: &[u8]) -> (r: Result<bool, HeaderError>)
    ensures
        match r {
            Ok(whole) => agrees(input@, signature@) && whole == (input@.len() >= signature@.len()),
            Err(HeaderError::Signature) => !agrees(input@, signature@),
            Err(HeaderError::Malformed(_)) => false,
        },
{
    let mut index: usize = 0;
    while index < signature.len()
        invariant
            index <= signature@.len(),
            index <= input@.len(),
            forall|i: int| 0 <= i < index ==> #[trigger] input@[i] == signature@[i],
        decreases signature@.len() - index,
    {
        if index >= input.len() {
            return Ok(false);
        }
        if input[index] != signature[index] {
            assert(input@[index as int] != signature@[index as int]);
            return Err(HeaderError::Signature);
        }
        index = index + 1;
    }
    Ok(true)
}

/// Parses a decimal port: digits and nothing else, no sign and no blank.
fn port(field: &[char]) -> (r: Result<u16, HeaderError>)
    ensures
        match r {
            Ok(p) => port_value(field@) == PortView::Number(p as nat),
            Err(HeaderError::Malformed(why)) => port_refusal(field@) == Some(why@),
            Err(HeaderError::Signature) => false,
        },
{
    let mut i: usize = 0;
    while i < field.len()
        invariant
            i <= field@.len(),
            forall|j: int| 0 <= j < i ==> text::digit_value(#[trigger] field@[j], 10) is Some,
        decreases field@.len() - i,
    {
        if text::read_digit(field[i], 10).is_none() {
            assert(text::digit_value(field@[i as int], 10) is None);
            return Err(HeaderError::Malformed("a v1 port is not a decimal number"));
        }
        i = i + 1;
    }
    if field.len() == 0 {
        return Err(HeaderError::Malformed("a v1 port is not a decimal number"));
    }
    proof {
        assert(text::digit_value(field@[0], 10) is Some);
        assert(field@[0] != '+');
    }
    match text::read_unsigned(field, 0xffff) {
        Some(p) => Ok(p as u16),
        None => Err(HeaderError::Malformed("a v1 port is outside 0-65535")),
    }
}

/// Parses the text form: `PROXY TCP4 <src> <dst> <sport> <dport>` and a line
/// ending.
fn parse_v1(input: &[u8]) -> (r: Result<Parsed, HeaderError>)
    requires
        input@.len() > 0,
    ensures
        outcome(r) == v1_outcome(input@),
{
    let signature: [u8; 6] = V1_SIGNATURE;
    match signature_matches(input, signature.as_slice()) {
        Err(error) => {
            return Err(error);
        },
        Ok(whole) => {
            if !whole {
                return Ok(Parsed::Incomplete);
            }
        },
    }

    let searchable: usize = if input.len() < V1_MAX_LEN - 1 {
        input.len()
    } else {
        V1_MAX_LEN - 1
    };
    let front = text::copy_range(input, 0, searchable);
    assert(front@ =~= input@.take(searchable as int));
    let cr: usize = text::find_byte(front.as_slice(), 13);
    proof {
        text::lemma_first_index_meaning(front@, 13u8);
        if cr < 6 {
            assert(agrees(input@, signature@));
            assert(front@[cr as int] == input@[cr as int]);
            assert(input@[cr as int] == signature@[cr as int]);
        }
    }
    if cr == front.len() {
        return if searchable == V1_MAX_LEN - 1 {
            Err(HeaderError::Malformed("a v1 line reached its 107-byte limit without a CRLF"))
        } else {
            Ok(Parsed::Incomplete)
        };
    }
    if cr + 1 >= input.len() {
        return Ok(Parsed::Incomplete);
    }
    if input[cr + 1] != 10 {
        return Err(HeaderError::Malformed("a v1 line contains a bare CR"));
    }
    let consumed: usize = cr + 2;
    let fields = text::copy_range(input, 6, cr);
    let line = match core::str::from_utf8(fields.as_slice()) {
        Ok(s) => text::to_chars(s),
        Err(_) => {
            return Err(HeaderError::Malformed("a v1 line is not ASCII"));
        },
    };
    proof {
        vstd::utf8::encode_utf8_decode_utf8(line@);
    }
    let unknown = text::to_chars("UNKNOWN");
    let unknown_space = text::to_chars("UNKNOWN ");
    if text::same_chars(line.as_slice(), unknown.as_slice()) || text::has_prefix(
        line.as_slice(),
        unknown_space.as_slice(),
    ) {
        return Ok(Parsed::Done { consumed, client: None });
    }
    parse_v1_fields(line.as_slice(), consumed)
}

/// Parses the five fields of a version 1 line.
fn parse_v1_fields(line: &[char], consumed: usize) -> (r: Result<Parsed, HeaderError>)
    ensures
        outcome(r) == v1_addressed(text::split(line@, ' '), consumed as nat),
{
    let parts = text::split_chars(line, ' ');
    let ghost fields = text::split(line@, ' ');
    assert(fields.len() == parts@.len());
    if parts.len() < 5 {
        return Err(HeaderError::Malformed("a v1 line is missing fields"));
    }
    if parts.len() > 5 {
        return Err(HeaderError::Malformed("a v1 line has trailing fields"));
    }
    proof {
        assert forall|i: int| 0 <= i < 5 implies parts@[i]@ == #[trigger] fields[i] by {
            assert(text::views(parts@)[i] == fields[i]);
        }
    }
    let source_port: u16 = match port(parts[3].as_slice()) {
        Ok(p) => p,
        Err(error) => {
            return Err(error);
        },
    };
    // The destination is read and dropped: nothing wants it, but a sender that
    // gets it wrong is not to be trusted with the rest.
    match port(parts[4].as_slice()) {
        Ok(_) => {},
        Err(error) => {
            return Err(error);
        },
    }
    let tcp4 = text::to_chars("TCP4");
    let tcp6 = text::to_chars("TCP6");
    if text::same_chars(parts[0].as_slice(), tcp4.as_slice()) {
        match (net::parse_ipv4(parts[1].as_slice()), net::parse_ipv4(parts[2].as_slice())) {
            (Some(source), Some(_)) => Ok(
                Parsed::Done {
                    consumed,
                    client: Some(
                        SocketAddr { ip: IpAddr::V4(source), port: source_port, scope_id: 0 },
                    ),
                },
            ),
            _ => Err(HeaderError::Malformed("a TCP4 line names a non-IPv4 address")),
        }
    } else if text::same_chars(parts[0].as_slice(), tcp6.as_slice()) {
        match (net::parse_ipv6(parts[1].as_slice()), net::parse_ipv6(parts[2].as_slice())) {
            (Some(source), Some(_)) => Ok(
                Parsed::Done {
                    consumed,
                    client: Some(
                        SocketAddr { ip: IpAddr::V6(source), port: source_port, scope_id: 0 },
                    ),
                },
            ),
            _ => Err(HeaderError::Malformed("a TCP6 line names a non-IPv6 address")),
        }
    } else {
        Err(HeaderError::Malformed("a v1 line names a protocol other than TCP4, TCP6 or UNKNOWN"))
    }
}

/// Parses the binary form: a 16-byte preamble, an address block, and optional
/// metadata that is stepped over.
fn parse_v2(input: &[u8]) -> (r: Result<Parsed, HeaderError>)
    ensures
        outcome(r) == v2_outcome(input@),
{
    let signature: [u8; 12] = V2_SIGNATURE;
    match signature_matches(input, signature.as_slice()) {
        Err(error) => {
            return Err(error);
        },
        Ok(whole) => {
            if !whole {
                return Ok(Parsed::Incomplete);
            }
        },
    }
    // Checked before the length is even read, so a sender that is not speaking
    // this protocol is refused without first buffering up to 64 KiB for it.
    if input.len() <= 12 {
        return Ok(Parsed::Incomplete);
    }
    let version_command: u8 = input[12];
    if version_command / 16 != 2 {
        return Err(HeaderError::Malformed("a v2 header declares a version other than 2"));
    }
    let command: u8 = version_command % 16;
    if command > 1 {
        return Err(
            HeaderError::Malformed("a v2 header declares a command other than LOCAL or PROXY"),
        );
    }
    // The same holds of what cannot name an address: no body would mend it.
    if input.len() > 13 && command == 1 && input[13] / 16 > 3 {
        return Err(HeaderError::Malformed("a v2 header declares an unknown address family"));
    }
    if input.len() < V2_PREAMBLE_LEN {
        return Ok(Parsed::Incomplete);
    }
    let family: u8 = input[13] / 16;
    let length: usize = input[14] as usize * 256 + input[15] as usize;
    let consumed: usize = V2_PREAMBLE_LEN + length;
    if command == 1 && family == 1 && length < V2_INET_LEN {
        return Err(
            HeaderError::Malformed("a v2 INET header is shorter than its 12-byte address block"),
        );
    }
    if command == 1 && family == 2 && length < V2_INET6_LEN {
        return Err(
            HeaderError::Malformed("a v2 INET6 header is shorter than its 36-byte address block"),
        );
    }
    if input.len() < consumed {
        return Ok(Parsed::Incomplete);
    }
    if command == 0 {
        return Ok(Parsed::Done { consumed, client: None });
    }
    let body = text::copy_range(input, V2_PREAMBLE_LEN, consumed);
    match proxied_address(input[13], body.as_slice()) {
        Ok(client) => Ok(Parsed::Done { consumed, client }),
        Err(error) => Err(error),
    }
}

/// The source address that a version 2 address block names.
///
/// The transport in the low nibble is not looked at: the address sits at the
/// same place either way.
pub fn proxied_address(family_protocol: u8, body: &[u8]) -> (r: Result<Option<SocketAddr>, HeaderError>)
    ensures
        match r {
            Ok(client) => block_value(family_protocol, body@) == Ok::<
                Option<net::SocketView>,
                Seq<char>,
            >(client_view(client)),
            Err(HeaderError::Malformed(why)) => block_value(family_protocol, body@) == Err::<
                Option<net::SocketView>,
                Seq<char>,
            >(why@),
            Err(HeaderError::Signature) => false,
        },
{
    let family: u8 = family_protocol / 16;
    if family == 0 || family == 3 {
        Ok(None)
    } else if family == 1 {
        if body.len() < V2_INET_LEN {
            return Err(
                HeaderError::Malformed("a v2 INET header is shorter than its 12-byte address block"),
            );
        }
        let octets: [u8; 4] = [body[0], body[1], body[2], body[3]];
        assert(octets@ =~= body@.take(4));
        let port: u16 = body[8] as u16 * 256 + body[9] as u16;
        Ok(Some(SocketAddr { ip: IpAddr::V4(Ipv4Addr { octets }), port, scope_id: 0 }))
    } else if family == 2 {
        if body.len() < V2_INET6_LEN {
            return Err(
                HeaderError::Malformed("a v2 INET6 header is shorter than its 36-byte address block"),
            );
        }
        let mut segments: [u16; 8] = [0, 0, 0, 0, 0, 0, 0, 0];
        let mut i: usize = 0;
        while i < 8
            invariant
                i <= 8,
                body@.len() >= 36,
                forall|j: int| 0 <= j < i ==> segments@[j] == groups_of(body@.take(16))[j],
            decreases 8 - i,
        {
            segments[i] = body[2 * i] as u16 * 256 + body[2 * i + 1] as u16;
            i = i + 1;
        }
        assert(segments@ =~= groups_of(body@.take(16)));
        let port: u16 = body[32] as u16 * 256 + body[33] as u16;
        Ok(Some(SocketAddr { ip: IpAddr::V6(Ipv6Addr { segments }), port, scope_id: 0 }))
    } else {
        Err(HeaderError::Malformed("a v2 header declares an unknown address family"))
    }
}

// ---------------------------------------------------------------------------
// What the parser promises
// ---------------------------------------------------------------------------

/// Bytes agree with a signature however many follow, once there are enough of
/// them to cover it; and a disagreement never goes away.
proof fn lemma_agreement_is_stable(a: Seq<u8>, b: Seq<u8>, signature: Seq<u8>)
    ensures
        !agrees(a, signature) ==> !agrees(a + b, signature),
        a.len() >= signature.len() ==> agrees(a, signature) == agrees(a + b, signature),
{
    if !agrees(a, signature) {
        let i = choose|i: int|
            0 <= i < a.len() && i < signature.len() && #[trigger] a[i] != signature[i];
        assert((a + b)[i] == a[i]);
    } else if a.len() >= signature.len() {
        assert forall|i: int| 0 <= i < (a + b).len() && i < signature.len() implies #[trigger] (a + b)[i]
            == signature[i] by {
            assert((a + b)[i] == a[i]);
        }
    }
}

/// An answer stands: whatever arrives after it, the answer is the same.
///
/// This is what lets a reader stop at the first answer that is not
/// [`Parsed::Incomplete`], and what makes the answer independent of how the
/// bytes were cut into reads.
pub proof fn an_answer_stands_whatever_follows(a: Seq<u8>, b: Seq<u8>)
    requires
        !(header(a) is Incomplete),
    ensures
        header(a + b) == header(a),
{
    let whole = a + b;
    assert(whole[0] == a[0]);
    if a[0] == 0x0D {
        lemma_agreement_is_stable(a, b, V2_SIGNATURE@);
        if agrees(a, V2_SIGNATURE@) {
            assert(whole[12] == a[12]);
            if a.len() > 13 {
                assert(whole[13] == a[13]);
            }
            if a.len() >= V2_PREAMBLE_LEN {
                assert(whole[13] == a[13] && whole[14] == a[14] && whole[15] == a[15]);
                let consumed = V2_PREAMBLE_LEN + word(a[14], a[15]);
                if a.len() >= consumed {
                    assert(whole.subrange(V2_PREAMBLE_LEN as int, consumed) =~= a.subrange(
                        V2_PREAMBLE_LEN as int,
                        consumed,
                    ));
                }
            }
        }
    } else if a[0] == 80 {
        lemma_agreement_is_stable(a, b, V1_SIGNATURE@);
        if agrees(a, V1_SIGNATURE@) {
            let here = a.take(
                if a.len() < V1_MAX_LEN - 1 {
                    a.len() as int
                } else {
                    V1_MAX_LEN - 1
                },
            );
            let there = whole.take(
                if whole.len() < V1_MAX_LEN - 1 {
                    whole.len() as int
                } else {
                    V1_MAX_LEN - 1
                },
            );
            let cr = v1_line_end(a);
            text::lemma_first_index_meaning(here, 13u8);
            assert forall|j: int| 0 <= j < cr implies there[j] != 13u8 by {
                assert(there[j] == here[j]);
            }
            if cr < here.len() {
                assert(there[cr] == here[cr]);
            }
            text::lemma_first_index(there, 13u8, cr);
            assert(v1_line_end(whole) == cr);
            if cr + 1 < a.len() {
                assert(whole[cr + 1] == a[cr + 1]);
                assert(whole.subrange(6, cr) =~= a.subrange(6, cr));
            }
        }
    }
}

/// A complete header lies within the bytes that have arrived, and within the
/// documented bound.
pub proof fn a_complete_header_has_arrived(input: Seq<u8>)
    ensures
        header(input) matches Outcome::Done { consumed, .. } ==> 0 < consumed <= input.len()
            && consumed <= MAX_HEADER_LEN,
{
    if input.len() > 0 && input[0] == 80 {
        let searchable = if input.len() < V1_MAX_LEN - 1 {
            input.len() as int
        } else {
            V1_MAX_LEN - 1
        };
        text::lemma_first_index_meaning(input.take(searchable), 13u8);
    }
}

/// Every truncation of a complete header is incomplete: never an error, and never
/// reported complete before its last byte.
pub proof fn every_truncation_is_incomplete(input: Seq<u8>, length: int)
    requires
        header(input) is Done,
        0 <= length < header(input)->consumed,
    ensures
        header(input.take(length)) is Incomplete,
{
    a_complete_header_has_arrived(input);
    let front = input.take(length);
    if !(header(front) is Incomplete) {
        an_answer_stands_whatever_follows(front, input.skip(length));
        assert(front + input.skip(length) =~= input);
        a_complete_header_has_arrived(front);
    }
}

/// Nothing past the header is looked at: its own bytes alone give the same
/// answer.
pub proof fn only_the_header_is_read(input: Seq<u8>)
    requires
        header(input) is Done,
    ensures
        header(input.take(header(input)->consumed as int)) == header(input),
{
    a_complete_header_has_arrived(input);
    let n = header(input)->consumed as int;
    let front = input.take(n);
    assert(front[0] == input[0]);
    if input[0] == 0x0D {
        assert(agrees(front, V2_SIGNATURE@)) by {
            assert forall|i: int| 0 <= i < front.len() && i < V2_SIGNATURE@.len() implies #[trigger] front[i]
                == V2_SIGNATURE@[i] by {
                assert(input[i] == V2_SIGNATURE@[i]);
            }
        }
        assert(front.subrange(V2_PREAMBLE_LEN as int, n) =~= input.subrange(V2_PREAMBLE_LEN as int, n));
    } else {
        let cr = v1_line_end(input);
        let searchable = if input.len() < V1_MAX_LEN - 1 {
            input.len() as int
        } else {
            V1_MAX_LEN - 1
        };
        text::lemma_first_index_meaning(input.take(searchable), 13u8);
        assert(agrees(front, V1_SIGNATURE@)) by {
            assert forall|i: int| 0 <= i < front.len() && i < V1_SIGNATURE@.len() implies #[trigger] front[i]
                == V1_SIGNATURE@[i] by {
                assert(input[i] == V1_SIGNATURE@[i]);
            }
        }
        assert(cr >= 6) by {
            if cr < 6 {
                assert(input.take(searchable)[cr] == 13u8);
                assert(input[cr] == V1_SIGNATURE@[cr]);
            }
        }
        let there = front.take(
            if front.len() < V1_MAX_LEN - 1 {
                front.len() as int
            } else {
                V1_MAX_LEN - 1
            },
        );
        assert forall|j: int| 0 <= j < cr implies there[j] != 13u8 by {
            assert(there[j] == input.take(searchable)[j]);
        }
        assert(there[cr] == input.take(searchable)[cr]);
        text::lemma_first_index(there, 13u8, cr);
        assert(front.subrange(6, cr) =~= input.subrange(6, cr));
    }
}

/// A reader never holds as much as the bound before it has an answer, so reading
/// until there is one needs no other ceiling.
pub proof fn an_answer_comes_within_the_bound(input: Seq<u8>)
    requires
        header(input) is Incomplete,
    ensures
        input.len() < MAX_HEADER_LEN,
{
    if input.len() > 0 && input[0] == 80 {
        let searchable = if input.len() < V1_MAX_LEN - 1 {
            input.len() as int
        } else {
            V1_MAX_LEN - 1
        };
        text::lemma_first_index_meaning(input.take(searchable), 13u8);
    }
}

/// A version 2 header whose declarations cannot be right is refused before any of
/// its body is there.
pub proof fn a_hopeless_preamble_is_not_waited_for(preamble: Seq<u8>, body: Seq<u8>)
    requires
        preamble.len() == V2_PREAMBLE_LEN,
        agrees(preamble, V2_SIGNATURE@),
        preamble[12] == 0x21,
        ({
            ||| preamble[13] / 16 > 3
            ||| length_refusal(preamble[13], word(preamble[14], preamble[15])) is Some
        }),
    ensures
        header(preamble) is Malformed,
        header(preamble + body) == header(preamble),
{
    assert(preamble[0] == V2_SIGNATURE@[0]);
    an_answer_stands_whatever_follows(preamble, body);
}

/// How many bytes of an address block are looked at.
pub open spec fn block_len(family_protocol: u8) -> nat {
    let family = family_protocol / 16;
    if family == 1 {
        V2_INET_LEN as nat
    } else if family == 2 {
        V2_INET6_LEN as nat
    } else {
        0
    }
}

/// What an address block says depends on the family and on the bytes of the block
/// alone: not on the transport in the low nibble, and on nothing past the block.
/// It is refused exactly where the family is unknown or the block is cut short,
/// and it names an address exactly for the two families that have one.
pub proof fn only_the_address_block_matters(
    family_protocol: u8,
    other: u8,
    body: Seq<u8>,
    rest: Seq<u8>,
)
    requires
        family_protocol / 16 == other / 16,
    ensures
        block_value(family_protocol, body) == block_value(other, body),
        body.len() >= block_len(family_protocol) ==> block_value(family_protocol, body + rest)
            == block_value(family_protocol, body),
        block_value(family_protocol, body) is Err <==> family_protocol / 16 > 3 || body.len()
            < block_len(family_protocol),
        block_value(family_protocol, body) matches Ok(client) ==> (client is Some
            <==> family_protocol / 16 == 1 || family_protocol / 16 == 2),
{
    let whole = body + rest;
    if body.len() >= block_len(family_protocol) {
        if family_protocol / 16 == 1 {
            assert(whole.take(4) =~= body.take(4));
            assert(whole[8] == body[8] && whole[9] == body[9]);
        } else if family_protocol / 16 == 2 {
            assert(whole.take(16) =~= body.take(16));
            assert(whole[32] == body[32] && whole[33] == body[33]);
        }
    }
}

/// All the bytes of some reads, in order.
pub open spec fn delivered(reads: Seq<Seq<u8>>) -> Seq<u8>
    decreases reads.len(),
{
    if reads.len() == 0 {
        Seq::empty()
    } else {
        reads[0] + delivered(reads.drop_first())
    }
}

/// Where a reader stands: what it has taken in, and the reads it has not made.
pub struct Reading {
    pub held: Seq<u8>,
    pub unread: Seq<Seq<u8>>,
}

/// Where a reader that holds some bytes stops: at its first answer, or at the end
/// of the stream.
pub open spec fn stops_at(held: Seq<u8>, reads: Seq<Seq<u8>>) -> Reading
    decreases reads.len(),
{
    if !(header(held) is Incomplete) || reads.len() == 0 {
        Reading { held, unread: reads }
    } else {
        stops_at(held + reads[0], reads.drop_first())
    }
}

/// The answer a reader stops with does not depend on how the stream was cut into
/// reads: it is the answer to the whole stream, and to every beginning of it that
/// has one. What follows an accepted header is then the rest of what is held and
/// the reads not made, with no byte lost or doubled. A reader that reaches the end
/// without an answer holds the whole stream, and no beginning of it has one.
pub proof fn the_reads_do_not_matter(held: Seq<u8>, reads: Seq<Seq<u8>>, length: int)
    requires
        0 <= length <= (held + delivered(reads)).len(),
    ensures
        ({
            let stream = held + delivered(reads);
            let stop = stops_at(held, reads);
            &&& header(stop.held) == header(stream)
            &&& stop.held + delivered(stop.unread) == stream
            &&& !(header(stream.take(length)) is Incomplete) ==> header(stop.held) == header(
                stream.take(length),
            )
            &&& header(stop.held) matches Outcome::Done { consumed, .. } ==> stop.held.skip(
                consumed as int,
            ) + delivered(stop.unread) == stream.skip(consumed as int)
            &&& header(stop.held) is Incomplete ==> stop.held == stream && stop.unread.len() == 0
        }),
    decreases reads.len(),
{
    let stream = held + delivered(reads);
    let front = stream.take(length);
    if !(header(front) is Incomplete) {
        an_answer_stands_whatever_follows(front, stream.skip(length));
        assert(front + stream.skip(length) =~= stream);
    }
    if !(header(held) is Incomplete) {
        an_answer_stands_whatever_follows(held, delivered(reads));
        a_complete_header_has_arrived(held);
        if let Outcome::Done { consumed, .. } = header(held) {
            assert(held.skip(consumed as int) + delivered(reads) =~= stream.skip(consumed as int));
        }
    } else if reads.len() == 0 {
        assert(stream =~= held);
    } else {
        assert((held + reads[0]) + delivered(reads.drop_first()) =~= stream);
        the_reads_do_not_matter(held + reads[0], reads.drop_first(), length);
    }
}

/// How reading a header ends.
pub enum Ending {
    /// With this answer.
    Answered(Outcome),
    /// At the end of the stream, without one.
    CutShort,
}

/// How reading ends for a reader that holds some bytes: each read is taken in and
/// answered in turn, and after the last comes one that delivers nothing.
pub open spec fn ending(held: Seq<u8>, reads: Seq<Seq<u8>>) -> Ending
    decreases reads.len(),
{
    if reads.len() == 0 {
        Ending::CutShort
    } else {
        match header(held + reads[0]) {
            Outcome::Incomplete => ending(held + reads[0], reads.drop_first()),
            answer => Ending::Answered(answer),
        }
    }
}

/// A stream is cut short exactly where no beginning of it has an answer, and ends in
/// the answer to the whole of it otherwise, however it was cut into reads.
pub proof fn a_stream_ends_one_way(held: Seq<u8>, reads: Seq<Seq<u8>>, length: int)
    requires
        header(held) is Incomplete,
        forall|i: int| 0 <= i < reads.len() ==> (#[trigger] reads[i]).len() > 0,
        0 <= length <= (held + delivered(reads)).len(),
    ensures
        ({
            let stream = held + delivered(reads);
            &&& ending(held, reads) == match header(stream) {
                Outcome::Incomplete => Ending::CutShort,
                answer => Ending::Answered(answer),
            }
            &&& ending(held, reads) is CutShort ==> header(stream.take(length)) is Incomplete
        }),
    decreases reads.len(),
{
    let stream = held + delivered(reads);
    the_reads_do_not_matter(held, reads, length);
    if reads.len() == 0 {
        assert(stream =~= held);
    } else {
        let rest = reads.drop_first();
        assert((held + reads[0]) + delivered(rest) =~= stream);
        if header(held + reads[0]) is Incomplete {
            assert forall|i: int| 0 <= i < rest.len() implies (#[trigger] rest[i]).len() > 0 by {
                assert(rest[i] == reads[i + 1]);
            }
            a_stream_ends_one_way(held + reads[0], rest, length);
        } else {
            an_answer_stands_whatever_follows(held + reads[0], delivered(rest));
        }
    }
}

// ---------------------------------------------------------------------------
// Errors
// ---------------------------------------------------------------------------

/// What a refused header is reported as.
pub open spec fn header_error_text(error: HeaderError) -> Seq<char> {
    match error {
        HeaderError::Signature => "no PROXY protocol signature"@,
        HeaderError::Malformed(why) => "malformed PROXY header: "@ + why@,
    }
}

impl HeaderError {
    /// The sentence that goes into the log.
    pub fn to_text(&self) -> (r: String)
        ensures
            r@ == header_error_text(*self),
    {
        let mut out = String::new();
        match self {
            HeaderError::Signature => {
                text::push_text(&mut out, "no PROXY protocol signature");
            },
            HeaderError::Malformed(why) => {
                text::push_text(&mut out, "malformed PROXY header: ");
                text::push_text(&mut out, why);
            },
        }
        assert(out@ =~= header_error_text(*self));
        out
    }
}

/// Why a header could not be read off a socket.
#[derive(Debug)]
pub enum AcceptError {
    /// The socket failed, or closed before a complete header arrived.
    Io(std::io::Error),
    /// The sender did not finish the header in time.
    Timeout,
    /// Bytes arrived, and they were not a PROXY header.
    Header(HeaderError),
}

impl From<HeaderError> for AcceptError {
    fn from(error: HeaderError) -> (r: AcceptError) {
        AcceptError::Header(error)
    }
}

impl vstd::std_specs::convert::FromSpecImpl<HeaderError> for AcceptError {
    open spec fn obeys_from_spec() -> bool {
        true
    }

    open spec fn from_spec(error: HeaderError) -> AcceptError {
        AcceptError::Header(error)
    }
}

impl AcceptError {
    /// The sentence that goes into the log.
    ///
    /// For a failed read it ends in the system's own words.
    pub fn to_text(&self) -> (r: String)
        ensures
            match self {
                AcceptError::Io(_) => text::starts_with(r@, "reading a PROXY header failed: "@),
                AcceptError::Timeout => r@ == "no complete PROXY header before the deadline"@,
                AcceptError::Header(error) => r@ == header_error_text(*error),
            },
    {
        match self {
            AcceptError::Io(error) => {
                let mut out = String::new();
                text::push_text(&mut out, "reading a PROXY header failed: ");
                let ghost lead = out@;
                let why = io_error_text(error);
                text::push_text(&mut out, why.as_str());
                proof {
                    let prefix = "reading a PROXY header failed: "@;
                    assert(lead =~= prefix);
                    assert(out@.take(prefix.len() as int) =~= prefix);
                }
                out
            },
            AcceptError::Timeout => {
                let mut out = String::new();
                text::push_text(&mut out, "no complete PROXY header before the deadline");
                assert(out@ =~= "no complete PROXY header before the deadline"@);
                out
            },
            AcceptError::Header(error) => error.to_text(),
        }
    }
}

// ---------------------------------------------------------------------------
// Reading a header piece by piece
// ---------------------------------------------------------------------------

/// What a connection has sent so far, while its header is being read.
pub struct HeaderReader {
    buffer: Vec<u8>,
}

/// A header that has been read: the client it names, and the bytes that were read
/// past it.
pub struct Accepted {
    pub client: Option<SocketAddr>,
    pub leftover: Bytes,
}

impl View for HeaderReader {
    type V = Seq<u8>;

    closed spec fn view(&self) -> Seq<u8> {
        self.buffer@
    }
}

impl HeaderReader {
    /// A reader that has received nothing.
    pub fn new() -> (r: HeaderReader)
        ensures
            r@ == Seq::<u8>::empty(),
    {
        HeaderReader { buffer: Vec::new() }
    }

    /// Takes in what one read delivered.
    pub fn receive(&mut self, chunk: &[u8])
        ensures
            final(self)@ == old(self)@ + chunk@,
    {
        self.buffer.extend_from_slice(chunk);
        assert(self.buffer@ =~= old(self)@ + chunk@);
    }

    /// The answer so far: the accepted header, `None` while more is needed, or
    /// the refusal.
    ///
    /// What was read past the header is handed back, none of it lost.
    pub fn answer(&self) -> (r: Result<Option<Accepted>, HeaderError>)
        ensures
            match header(self@) {
                Outcome::Incomplete => r matches Ok(None),
                Outcome::Done { consumed, client } => r matches Ok(Some(accepted)) && client_view(
                    accepted.client,
                ) == client && buffers::content(accepted.leftover) == self@.skip(consumed as int),
                Outcome::Signature => r == Err::<Option<Accepted>, HeaderError>(
                    HeaderError::Signature,
                ),
                Outcome::Malformed(why) => r matches Err(HeaderError::Malformed(said)) && said@ == why,
            },
    {
        proof {
            a_complete_header_has_arrived(self@);
        }
        match parse(self.buffer.as_slice()) {
            Ok(Parsed::Incomplete) => Ok(None),
            Ok(Parsed::Done { consumed, client }) => {
                let rest = text::copy_range(self.buffer.as_slice(), consumed, self.buffer.len());
                assert(rest@ =~= self@.skip(consumed as int));
                Ok(Some(Accepted { client, leftover: Bytes::copy_from_slice(rest.as_slice()) }))
            },
            Err(error) => Err(error),
        }
    }

    /// Takes in what one read delivered, and gives the answer then. A read that
    /// delivered nothing is the end of the stream, which has come too soon.
    pub fn read(&mut self, chunk: &[u8]) -> (r: Result<Option<Accepted>, AcceptError>)
        ensures
            final(self)@ == old(self)@ + chunk@,
            if chunk@.len() == 0 {
                r matches Err(AcceptError::Io(error)) && error == cut_short()
                    && failure::kind_of(error) == FailureKind::UnexpectedEof
            } else {
                match header(final(self)@) {
                    Outcome::Incomplete => r matches Ok(None),
                    Outcome::Done { consumed, client } => r matches Ok(Some(accepted))
                        && client_view(accepted.client) == client && buffers::content(
                        accepted.leftover,
                    ) == final(self)@.skip(consumed as int),
                    Outcome::Signature => r matches Err(AcceptError::Header(error)) && error
                        == HeaderError::Signature,
                    Outcome::Malformed(why) => r matches Err(AcceptError::Header(error)) && (
                    error matches HeaderError::Malformed(said) && said@ == why),
                }
            },
    {
        if chunk.len() == 0 {
            assert(self@ =~= self@ + chunk@);
            let mut words = String::new();
            text::push_text(&mut words, CUT_SHORT);
            assert(words@ =~= CUT_SHORT@);
            return Err(AcceptError::Io(failure::fail(FailureKind::UnexpectedEof, words)));
        }
        self.receive(chunk);
        match self.answer() {
            Ok(answer) => Ok(answer),
            Err(error) => Err(AcceptError::Header(error)),
        }
    }
}

/// What is said of a stream that ends within its header.
pub const CUT_SHORT: &'static str = "the connection closed before a complete PROXY header";

/// The failure of a stream that ends within its header.
pub open spec fn cut_short() -> std::io::Error {
    failure::failure(FailureKind::UnexpectedEof, CUT_SHORT@)
}

/// A stream that replays a buffered prefix before its own bytes.
#[derive(Debug)]
pub struct Prefixed<S> {
    prefix: Bytes,
    inner: S,
}

impl<S> Prefixed<S> {
    /// The bytes still to be replayed.
    pub closed spec fn waiting(&self) -> Seq<u8> {
        buffers::content(self.prefix)
    }

    /// The stream behind the prefix.
    pub closed spec fn stream(&self) -> S {
        self.inner
    }

    /// Wraps `inner`, yielding `prefix` first.
    pub fn new(inner: S, prefix: Bytes) -> (r: Prefixed<S>)
        ensures
            r.waiting() == buffers::content(prefix),
            r.stream() == inner,
    {
        Prefixed { prefix, inner }
    }

    /// How many bytes are still waiting to be replayed.
    pub fn buffered(&self) -> (r: usize)
        ensures
            r == self.waiting().len(),
    {
        self.prefix.len()
    }

    /// Serves a read with room for `room` bytes from the prefix, or says with
    /// `None` that the prefix is used up and the stream itself is to be read.
    ///
    /// The prefix is replayed in order and each byte once. When the last one is
    /// taken the buffer is let go.
    pub fn replay(&mut self, room: usize) -> (r: Option<Bytes>)
        ensures
            final(self).stream() == old(self).stream(),
            match r {
                None => old(self).waiting().len() == 0 && final(self).waiting() == old(self).waiting(),
                Some(head) => old(self).waiting().len() > 0 && old(self).waiting() == buffers::content(head)
                    + final(self).waiting() && buffers::content(head).len() == (if room
                    < old(self).waiting().len() {
                    room as int
                } else {
                    old(self).waiting().len() as int
                }),
            },
    {
        if self.prefix.is_empty() {
            return None;
        }
        let take: usize = if self.prefix.len() < room {
            self.prefix.len()
        } else {
            room
        };
        let ghost before = buffers::content(self.prefix);
        let head = self.prefix.split_to(take);
        assert(before =~= before.take(take as int) + before.skip(take as int));
        if self.prefix.is_empty() {
            assert(buffers::content(self.prefix) =~= Seq::<u8>::empty());
            self.prefix = Bytes::new();
        }
        Some(head)
    }
}

// ---------------------------------------------------------------------------
// Laws on what a header says
// ---------------------------------------------------------------------------

/// A port in two bytes, the high one first.
spec fn two_bytes(port: u16) -> Seq<u8> {
    seq![(port / 256) as u8, (port % 256) as u8]
}

/// An IPv6 address in sixteen bytes, group by group, the high byte of each first.
spec fn sixteen_bytes(groups: Seq<u16>) -> Seq<u8> {
    Seq::new(
        16,
        |i: int|
            if i % 2 == 0 {
                (groups[i / 2] / 256) as u8
            } else {
                (groups[i / 2] % 256) as u8
            },
    )
}

/// Every group of the address that an INET6 block names is its own two bytes, the first
/// counting 256 times as much, and its port likewise; so two blocks that name the same
/// client hold the same sixteen bytes and the same port.
pub proof fn every_byte_of_an_inet6_source_counts(
    family_protocol: u8,
    body: Seq<u8>,
    other: Seq<u8>,
    k: int,
)
    requires
        family_protocol / 16 == 2,
        body.len() >= 36,
        other.len() >= 36,
        0 <= k < 8,
    ensures
        ({
            let client = block_value(family_protocol, body)->Ok_0->Some_0;
            &&& block_value(family_protocol, body) is Ok
            &&& block_value(family_protocol, body)->Ok_0 is Some
            &&& client.ip is V6
            &&& client.ip->V6_0.len() == 8
            &&& client.ip->V6_0[k] == body[2 * k] * 256 + body[2 * k + 1]
            &&& client.port == body[32] * 256 + body[33]
            &&& client.scope_id == 0
        }),
        block_value(family_protocol, body) == block_value(family_protocol, other) ==> body[2 * k]
            == other[2 * k] && body[2 * k + 1] == other[2 * k + 1] && body[32] == other[32]
            && body[33] == other[33],
{
    let a = groups_of(body.take(16));
    let b = groups_of(other.take(16));
    assert(a[k] == body[2 * k] * 256 + body[2 * k + 1]);
    assert(b[k] == other[2 * k] * 256 + other[2 * k + 1]);
}

/// The same of an INET block: the four bytes of the source are the address, in order.
pub proof fn every_byte_of_an_inet_source_counts(
    family_protocol: u8,
    body: Seq<u8>,
    other: Seq<u8>,
    k: int,
)
    requires
        family_protocol / 16 == 1,
        body.len() >= 12,
        other.len() >= 12,
        0 <= k < 4,
    ensures
        ({
            let client = block_value(family_protocol, body)->Ok_0->Some_0;
            &&& block_value(family_protocol, body) is Ok
            &&& block_value(family_protocol, body)->Ok_0 is Some
            &&& client.ip is V4
            &&& client.ip->V4_0.len() == 4
            &&& client.ip->V4_0[k] == body[k]
            &&& client.port == body[8] * 256 + body[9]
            &&& client.scope_id == 0
        }),
        block_value(family_protocol, body) == block_value(family_protocol, other) ==> body[k]
            == other[k] && body[8] == other[8] && body[9] == other[9],
{
    assert(body.take(4)[k] == body[k]);
    assert(other.take(4)[k] == other[k]);
}

/// Laying out an address and a port in a block and reading the block gives them back,
/// whatever the destination is and whatever follows.
pub proof fn an_inet6_block_reads_back(
    groups: Seq<u16>,
    port: u16,
    destination: Seq<u8>,
    rest: Seq<u8>,
    family_protocol: u8,
)
    requires
        groups.len() == 8,
        destination.len() == 16,
        rest.len() >= 2,
        family_protocol / 16 == 2,
    ensures
        block_value(
            family_protocol,
            Seq::new(
                16,
                |i: int|
                    if i % 2 == 0 {
                        (groups[i / 2] / 256) as u8
                    } else {
                        (groups[i / 2] % 256) as u8
                    },
            ) + destination + seq![(port / 256) as u8, (port % 256) as u8] + rest,
        ) == Ok::<Option<net::SocketView>, Seq<char>>(
            Some(
                net::SocketView { ip: net::IpView::V6(groups), port: port as nat, scope_id: 0 },
            ),
        ),
{
    let source = sixteen_bytes(groups);
    let body = source + destination + two_bytes(port) + rest;
    let found = groups_of(body.take(16));
    assert forall|k: int| 0 <= k < 8 implies #[trigger] found[k] == groups[k] by {
        assert((2 * k) % 2 == 0 && (2 * k) / 2 == k && (2 * k + 1) / 2 == k && (2 * k + 1) % 2 == 1);
        assert(body.take(16)[2 * k] == source[2 * k]);
        assert(body.take(16)[2 * k + 1] == source[2 * k + 1]);
        assert(source[2 * k] == groups[k] / 256 && source[2 * k + 1] == groups[k] % 256);
    }
    assert(found =~= groups);
    assert(body[32] == port / 256 && body[33] == port % 256);
    assert(body =~= Seq::new(
        16,
        |i: int|
            if i % 2 == 0 {
                (groups[i / 2] / 256) as u8
            } else {
                (groups[i / 2] % 256) as u8
            },
    ) + destination + seq![(port / 256) as u8, (port % 256) as u8] + rest);
}

/// The bytes that open a version 2 header.
spec fn opening() -> Seq<u8> {
    seq![
        0x0Du8,
        0x0Au8,
        0x0Du8,
        0x0Au8,
        0x00u8,
        0x0Du8,
        0x0Au8,
        0x51u8,
        0x55u8,
        0x49u8,
        0x54u8,
        0x0Au8,
    ]
}

/// A whole version 2 header, with more behind it: the signature, a command, a family, the
/// length of the body and the body. One with an address is done exactly at the end of its
/// body and names what its block says; one without names nobody, whatever its body is.
pub proof fn a_version_2_header_is_its_block(
    family_protocol: u8,
    body: Seq<u8>,
    rest: Seq<u8>,
)
    requires
        body.len() <= 65535,
    ensures
        ({
            let front = seq![
                0x0Du8,
                0x0Au8,
                0x0Du8,
                0x0Au8,
                0x00u8,
                0x0Du8,
                0x0Au8,
                0x51u8,
                0x55u8,
                0x49u8,
                0x54u8,
                0x0Au8,
            ];
            let length = seq![(body.len() / 256) as u8, (body.len() % 256) as u8];
            let proxied = front + seq![0x21u8, family_protocol] + length + body + rest;
            let local = front + seq![0x20u8, family_protocol] + length + body + rest;
            &&& header(local) == (Outcome::Done { consumed: 16 + body.len(), client: None })
            &&& block_value(family_protocol, body) matches Ok(client) ==> header(proxied) == (
            Outcome::Done { consumed: 16 + body.len(), client })
            &&& block_value(family_protocol, body) is Err ==> header(proxied) is Malformed
        }),
{
    let n = body.len();
    let length = seq![(n / 256) as u8, (n % 256) as u8];
    let proxied = opening() + seq![0x21u8, family_protocol] + length + body + rest;
    let local = opening() + seq![0x20u8, family_protocol] + length + body + rest;
    lemma_opening(proxied);
    lemma_opening(local);
    assert(word(proxied[14], proxied[15]) == n);
    assert(word(local[14], local[15]) == n);
    assert(proxied[12] == 0x21 && local[12] == 0x20);
    assert(proxied[13] == family_protocol && local[13] == family_protocol);
    assert(proxied.subrange(16, 16 + n as int) =~= body);
}

proof fn lemma_opening(input: Seq<u8>)
    requires
        input.len() >= 12,
        forall|i: int| 0 <= i < 12 ==> #[trigger] input[i] == opening()[i],
    ensures
        agrees(input, V2_SIGNATURE@),
        input[0] == 0x0D,
{
    assert(V2_SIGNATURE@ =~= opening());
}

/// A version 1 line between its signature and its line ending, in bytes.
spec fn line_of(fields: Seq<char>) -> Seq<u8> {
    seq![80u8, 82u8, 79u8, 88u8, 89u8, 32u8] + vstd::utf8::encode_utf8(fields) + seq![13u8, 10u8]
}

/// A line of visible ASCII that is not too long is read as its text, up to the line
/// ending and no further.
proof fn lemma_a_line_is_read(fields: Seq<char>, rest: Seq<u8>)
    requires
        fields.len() <= 99,
        forall|i: int| 0 <= i < fields.len() ==> ' ' <= #[trigger] fields[i] <= '~',
    ensures
        header(line_of(fields) + rest) == v1_line(
            vstd::utf8::encode_utf8(fields),
            (fields.len() + 8) as nat,
        ),
        vstd::utf8::valid_utf8(vstd::utf8::encode_utf8(fields)),
        vstd::utf8::decode_utf8(vstd::utf8::encode_utf8(fields)) == fields,
{
    let bytes = vstd::utf8::encode_utf8(fields);
    vstd::utf8::is_ascii_chars_encode_utf8(fields);
    vstd::utf8::encode_utf8_valid_utf8(fields);
    vstd::utf8::encode_utf8_decode_utf8(fields);
    assert(bytes.len() == fields.len());
    let input = line_of(fields) + rest;
    let cr = 6 + bytes.len();
    assert forall|i: int| 0 <= i < 6 implies #[trigger] input[i] == V1_SIGNATURE@[i] by {
        assert(V1_SIGNATURE@ =~= seq![80u8, 82u8, 79u8, 88u8, 89u8, 32u8]);
    }
    assert(agrees(input, V1_SIGNATURE@));
    let searchable = if input.len() < V1_MAX_LEN - 1 {
        input.len() as int
    } else {
        V1_MAX_LEN - 1
    };
    let there = input.take(searchable);
    assert forall|j: int| 0 <= j < cr implies there[j] != 13u8 by {
        if j >= 6 {
            assert(there[j] == bytes[j - 6]);
            assert(bytes[j - 6] == fields[j - 6] as u8);
        } else {
            assert(there[j] == V1_SIGNATURE@[j]);
        }
    }
    assert(there[cr as int] == 13u8);
    text::lemma_first_index(there, 13u8, cr as int);
    assert(input[(cr + 1) as int] == 10u8);
    assert(input.subrange(6, cr as int) =~= bytes);
}

/// The fields of a version 1 line, one blank between each two.
spec fn spaced(family: Seq<char>, source: Seq<char>, target: Seq<char>, port: u16, other: u16) -> Seq<
    char,
> {
    family + seq![' '] + source + seq![' '] + target + seq![' '] + text::decimal(port as nat) + seq![
        ' ',
    ] + text::decimal(other as nat)
}

spec fn is_field(s: Seq<char>) -> bool {
    forall|i: int| 0 <= i < s.len() ==> '!' <= #[trigger] s[i] <= '~'
}

proof fn lemma_a_port_is_a_field(port: u16)
    ensures
        is_field(text::decimal(port as nat)),
        port_value(text::decimal(port as nat)) == PortView::Number(port as nat),
{
    let s = text::decimal(port as nat);
    text::lemma_numeral_reads_back(port as nat, 10);
    assert forall|i: int| 0 <= i < s.len() implies '!' <= #[trigger] s[i] <= '~' by {
        assert(text::digit_value(s[i], 10) is Some);
    }
}

proof fn lemma_fields_are_split(
    family: Seq<char>,
    source: Seq<char>,
    target: Seq<char>,
    port: u16,
    other: u16,
)
    requires
        is_field(family),
        is_field(source),
        is_field(target),
    ensures
        text::split(spaced(family, source, target, port, other), ' ') == seq![
            family,
            source,
            target,
            text::decimal(port as nat),
            text::decimal(other as nat),
        ],
        forall|i: int|
            0 <= i < spaced(family, source, target, port, other).len() ==> ' ' <= #[trigger] spaced(
                family,
                source,
                target,
                port,
                other,
            )[i] <= '~',
{
    let (p, q) = (text::decimal(port as nat), text::decimal(other as nat));
    lemma_a_port_is_a_field(port);
    lemma_a_port_is_a_field(other);
    let a = family + seq![' '] + source;
    let b = a + seq![' '] + target;
    let c = b + seq![' '] + p;
    text::a_split_goes_through_separators(family, source, ' ');
    text::a_split_goes_through_separators(a, target, ' ');
    text::a_split_goes_through_separators(b, p, ' ');
    text::a_split_goes_through_separators(c, q, ' ');
    text::a_piece_holds_no_separator(family, ' ', 0, 0);
    text::a_piece_holds_no_separator(source, ' ', 0, 0);
    text::a_piece_holds_no_separator(target, ' ', 0, 0);
    text::a_piece_holds_no_separator(p, ' ', 0, 0);
    text::a_piece_holds_no_separator(q, ' ', 0, 0);
    assert(text::split(c + seq![' '] + q, ' ') =~= seq![family, source, target, p, q]);
    lemma_blanks_between(family, source);
    lemma_blanks_between(a, target);
    lemma_blanks_between(b, p);
    lemma_blanks_between(c, q);
}

proof fn lemma_blanks_between(a: Seq<char>, b: Seq<char>)
    ensures
        (forall|i: int| 0 <= i < a.len() ==> ' ' <= #[trigger] a[i] <= '~') && is_field(b)
            ==> forall|i: int|
            0 <= i < (a + seq![' '] + b).len() ==> ' ' <= #[trigger] (a + seq![' '] + b)[i] <= '~',
{
    if (forall|i: int| 0 <= i < a.len() ==> ' ' <= #[trigger] a[i] <= '~') && is_field(b) {
        let s = a + seq![' '] + b;
        assert forall|i: int| 0 <= i < s.len() implies ' ' <= #[trigger] s[i] <= '~' by {
            if i < a.len() {
                assert(s[i] == a[i]);
            } else if i > a.len() {
                assert(s[i] == b[i - a.len() - 1]);
            }
        }
    }
}

proof fn lemma_not_unknown(family: Seq<char>, tail: Seq<char>)
    requires
        is_field(family),
        family != "UNKNOWN"@,
    ensures
        family + seq![' '] + tail != "UNKNOWN"@,
        !text::starts_with(family + seq![' '] + tail, "UNKNOWN "@),
{
    reveal_strlit("UNKNOWN");
    reveal_strlit("UNKNOWN ");
    let fields = family + seq![' '] + tail;
    let n = family.len() as int;
    assert(fields[n] == ' ');
    assert("UNKNOWN"@.len() == 7 && "UNKNOWN "@.len() == 8);
    if fields == "UNKNOWN"@ {
        assert("UNKNOWN"@[n] != ' ');
    }
    if text::starts_with(fields, "UNKNOWN "@) {
        let lead = fields.take(8);
        assert(lead =~= "UNKNOWN "@);
        if n > 7 {
            assert(lead[7] == family[7]);
        } else if n < 7 {
            assert(lead[n] == ' ');
            assert("UNKNOWN "@[n] != ' ');
        } else {
            assert forall|i: int| 0 <= i < 7 implies family[i] == "UNKNOWN"@[i] by {
                assert(lead[i] == family[i]);
            }
            assert(family =~= "UNKNOWN"@);
        }
    }
}

proof fn lemma_an_addressed_line(
    family: Seq<char>,
    source: Seq<char>,
    target: Seq<char>,
    port: u16,
    other: u16,
    rest: Seq<u8>,
)
    requires
        is_field(family),
        is_field(source),
        is_field(target),
        family != "UNKNOWN"@,
        spaced(family, source, target, port, other).len() <= 99,
    ensures
        header(line_of(spaced(family, source, target, port, other)) + rest) == v1_addressed(
            seq![
                family,
                source,
                target,
                text::decimal(port as nat),
                text::decimal(other as nat),
            ],
            spaced(family, source, target, port, other).len() + 8,
        ),
{
    lemma_fields_are_split(family, source, target, port, other);
    let fields = spaced(family, source, target, port, other);
    lemma_a_line_is_read(fields, rest);
    let tail = source + seq![' '] + target + seq![' '] + text::decimal(port as nat) + seq![' ']
        + text::decimal(other as nat);
    lemma_not_unknown(family, tail);
    assert(fields =~= family + seq![' '] + tail);
}

proof fn lemma_tcp4_is_a_field()
    ensures
        is_field("TCP4"@),
        "TCP4"@ != "UNKNOWN"@,
        "TCP4"@.len() == 4,
{
    reveal_strlit("TCP4");
    reveal_strlit("UNKNOWN");
    assert("TCP4"@.len() == 4);
    assert("UNKNOWN"@.len() == 7);
}

proof fn lemma_tcp4_parts(source: Seq<u8>, target: Seq<u8>, port: u16, other: u16, consumed: nat)
    requires
        source.len() == 4,
        target.len() == 4,
    ensures
        v1_addressed(
            seq![
                "TCP4"@,
                net::ipv4_text(source),
                net::ipv4_text(target),
                text::decimal(port as nat),
                text::decimal(other as nat),
            ],
            consumed,
        ) == (Outcome::Done {
            consumed,
            client: Some(
                net::SocketView { ip: net::IpView::V4(source), port: port as nat, scope_id: 0 },
            ),
        }),
{
    reveal_strlit("TCP4");
    reveal_strlit("TCP6");
    assert("TCP4"@[3] == '4' && "TCP6"@[3] == '6');
    net::ipv4_text_reads_back(source);
    net::ipv4_text_reads_back(target);
    lemma_a_port_is_a_field(port);
    lemma_a_port_is_a_field(other);
}

/// A version 1 line for IPv4 names its first address and its first port, both as they
/// were written, and ends with its line ending: what follows is not looked at.
#[verifier::spinoff_prover]
#[verifier::rlimit(60)]
pub proof fn a_tcp4_line_names_its_source(
    source: Seq<u8>,
    target: Seq<u8>,
    port: u16,
    other: u16,
    rest: Seq<u8>,
)
    requires
        source.len() == 4,
        target.len() == 4,
        (net::ipv4_text(source) + net::ipv4_text(target) + text::decimal(port as nat)
            + text::decimal(other as nat)).len() <= 91,
    ensures
        ({
            let fields = "TCP4"@ + seq![' '] + net::ipv4_text(source) + seq![' '] + net::ipv4_text(
                target,
            ) + seq![' '] + text::decimal(port as nat) + seq![' '] + text::decimal(other as nat);
            header(
                seq![80u8, 82u8, 79u8, 88u8, 89u8, 32u8] + vstd::utf8::encode_utf8(fields) + seq![
                    13u8,
                    10u8,
                ] + rest,
            ) == (Outcome::Done {
                consumed: fields.len() + 8,
                client: Some(
                    net::SocketView {
                        ip: net::IpView::V4(source),
                        port: port as nat,
                        scope_id: 0,
                    },
                ),
            })
        }),
{
    let (a, b) = (net::ipv4_text(source), net::ipv4_text(target));
    lemma_tcp4_is_a_field();
    lemma_an_address_is_a_field(net::IpView::V4(source));
    lemma_an_address_is_a_field(net::IpView::V4(target));
    assert(spaced("TCP4"@, a, b, port, other).len() <= 99);
    lemma_an_addressed_line("TCP4"@, a, b, port, other, rest);
    lemma_tcp4_parts(
        source,
        target,
        port,
        other,
        spaced("TCP4"@, a, b, port, other).len() + 8,
    );
}

proof fn lemma_tcp6_is_a_field()
    ensures
        is_field("TCP6"@),
        "TCP6"@ != "UNKNOWN"@,
        "TCP6"@.len() == 4,
{
    reveal_strlit("TCP6");
    reveal_strlit("UNKNOWN");
    assert("TCP6"@.len() == 4);
    assert("UNKNOWN"@.len() == 7);
}

proof fn lemma_tcp6_parts(source: Seq<u16>, target: Seq<u16>, port: u16, other: u16, consumed: nat)
    requires
        source.len() == 8,
        target.len() == 8,
    ensures
        v1_addressed(
            seq![
                "TCP6"@,
                net::ipv6_text(source),
                net::ipv6_text(target),
                text::decimal(port as nat),
                text::decimal(other as nat),
            ],
            consumed,
        ) == (Outcome::Done {
            consumed,
            client: Some(
                net::SocketView { ip: net::IpView::V6(source), port: port as nat, scope_id: 0 },
            ),
        }),
{
    reveal_strlit("TCP4");
    reveal_strlit("TCP6");
    assert("TCP4"@[3] == '4' && "TCP6"@[3] == '6');
    net::ipv6_text_reads_back(source);
    net::ipv6_text_reads_back(target);
    lemma_a_port_is_a_field(port);
    lemma_a_port_is_a_field(other);
}

/// The same of a line for IPv6.
#[verifier::spinoff_prover]
#[verifier::rlimit(60)]
pub proof fn a_tcp6_line_names_its_source(
    source: Seq<u16>,
    target: Seq<u16>,
    port: u16,
    other: u16,
    rest: Seq<u8>,
)
    requires
        source.len() == 8,
        target.len() == 8,
        (net::ipv6_text(source) + net::ipv6_text(target) + text::decimal(port as nat)
            + text::decimal(other as nat)).len() <= 91,
    ensures
        ({
            let fields = "TCP6"@ + seq![' '] + net::ipv6_text(source) + seq![' '] + net::ipv6_text(
                target,
            ) + seq![' '] + text::decimal(port as nat) + seq![' '] + text::decimal(other as nat);
            header(
                seq![80u8, 82u8, 79u8, 88u8, 89u8, 32u8] + vstd::utf8::encode_utf8(fields) + seq![
                    13u8,
                    10u8,
                ] + rest,
            ) == (Outcome::Done {
                consumed: fields.len() + 8,
                client: Some(
                    net::SocketView {
                        ip: net::IpView::V6(source),
                        port: port as nat,
                        scope_id: 0,
                    },
                ),
            })
        }),
{
    let (a, b) = (net::ipv6_text(source), net::ipv6_text(target));
    lemma_tcp6_is_a_field();
    lemma_an_address_is_a_field(net::IpView::V6(source));
    lemma_an_address_is_a_field(net::IpView::V6(target));
    assert(spaced("TCP6"@, a, b, port, other).len() <= 99);
    lemma_an_addressed_line("TCP6"@, a, b, port, other, rest);
    lemma_tcp6_parts(
        source,
        target,
        port,
        other,
        spaced("TCP6"@, a, b, port, other).len() + 8,
    );
}

proof fn lemma_an_address_is_a_field(ip: net::IpView)
    ensures
        is_field(net::ip_text(ip)),
{
    let s = net::ip_text(ip);
    assert forall|i: int| 0 <= i < s.len() implies '!' <= #[trigger] s[i] <= '~' by {
        headers::an_address_is_written_plainly(ip, i);
    }
}

/// A line that says `UNKNOWN` is a header that names nobody, whatever else it says.
pub proof fn an_unknown_line_names_nobody(more: Seq<char>, rest: Seq<u8>)
    requires
        more.len() <= 91,
        forall|i: int| 0 <= i < more.len() ==> ' ' <= #[trigger] more[i] <= '~',
    ensures
        ({
            let signature = seq![80u8, 82u8, 79u8, 88u8, 89u8, 32u8];
            let fields = "UNKNOWN"@ + seq![' '] + more;
            &&& header(
                signature + vstd::utf8::encode_utf8("UNKNOWN"@) + seq![13u8, 10u8] + rest,
            ) == (Outcome::Done { consumed: 15, client: None })
            &&& header(signature + vstd::utf8::encode_utf8(fields) + seq![13u8, 10u8] + rest) == (
            Outcome::Done { consumed: fields.len() + 8, client: None })
        }),
{
    reveal_strlit("UNKNOWN");
    reveal_strlit("UNKNOWN ");
    let fields = "UNKNOWN"@ + seq![' '] + more;
    assert forall|i: int| 0 <= i < fields.len() implies ' ' <= #[trigger] fields[i] <= '~' by {
        if i > 7 {
            assert(fields[i] == more[i - 8]);
        }
    }
    lemma_a_line_is_read("UNKNOWN"@, rest);
    lemma_a_line_is_read(fields, rest);
    assert(fields.take(8) =~= "UNKNOWN "@);
}

/// A family other than the two with addresses and `UNKNOWN` is refused, however good its
/// fields are.
#[verifier::spinoff_prover]
#[verifier::rlimit(60)]
pub proof fn another_family_is_refused(
    family: Seq<char>,
    source: Seq<u8>,
    target: Seq<u8>,
    port: u16,
    other: u16,
    rest: Seq<u8>,
)
    requires
        family.len() > 0,
        forall|i: int| 0 <= i < family.len() ==> '!' <= #[trigger] family[i] <= '~',
        family != "TCP4"@,
        family != "TCP6"@,
        family != "UNKNOWN"@,
        source.len() == 4,
        target.len() == 4,
        (family + net::ipv4_text(source) + net::ipv4_text(target) + text::decimal(port as nat)
            + text::decimal(other as nat)).len() <= 95,
    ensures
        ({
            let fields = family + seq![' '] + net::ipv4_text(source) + seq![' '] + net::ipv4_text(
                target,
            ) + seq![' '] + text::decimal(port as nat) + seq![' '] + text::decimal(other as nat);
            header(
                seq![80u8, 82u8, 79u8, 88u8, 89u8, 32u8] + vstd::utf8::encode_utf8(fields) + seq![
                    13u8,
                    10u8,
                ] + rest,
            ) is Malformed
        }),
{
    let (a, b) = (net::ipv4_text(source), net::ipv4_text(target));
    lemma_an_address_is_a_field(net::IpView::V4(source));
    lemma_an_address_is_a_field(net::IpView::V4(target));
    lemma_a_port_is_a_field(port);
    lemma_a_port_is_a_field(other);
    lemma_an_addressed_line(family, a, b, port, other, rest);
}

/// Bytes that open neither kind of header are refused on the first that does not fit,
/// and bytes that do not differ from either yet are waited for.
pub proof fn a_wrong_opening_is_refused_at_once(input: Seq<u8>, i: int)
    requires
        0 <= i < input.len(),
    ensures
        ({
            let first = seq![80u8, 82u8, 79u8, 88u8, 89u8, 32u8];
            let second = seq![
                0x0Du8,
                0x0Au8,
                0x0Du8,
                0x0Au8,
                0x00u8,
                0x0Du8,
                0x0Au8,
                0x51u8,
                0x55u8,
                0x49u8,
                0x54u8,
                0x0Au8,
            ];
            &&& input[0] != 80 && input[0] != 0x0D ==> header(input) is Signature
            &&& input[0] == 80 && i < 6 && input[i] != first[i] ==> header(input) is Signature
            &&& input[0] == 0x0D && i < 12 && input[i] != second[i] ==> header(input) is Signature
            &&& input.len() <= 5 && input == first.take(input.len() as int) ==> header(
                input,
            ) is Incomplete
            &&& input.len() <= 12 && input == second.take(input.len() as int) ==> header(
                input,
            ) is Incomplete
        }),
{
    let first = seq![80u8, 82u8, 79u8, 88u8, 89u8, 32u8];
    assert(V1_SIGNATURE@ =~= first);
    assert(V2_SIGNATURE@ =~= opening());
    if input.len() <= 5 && input == first.take(input.len() as int) {
        assert forall|j: int| 0 <= j < input.len() implies #[trigger] input[j] == V1_SIGNATURE@[j] by {
            assert(input[j] == first[j]);
        }
        assert(input[0] == first[0]);
    }
    if input.len() <= 12 && input == opening().take(input.len() as int) {
        assert forall|j: int| 0 <= j < input.len() implies #[trigger] input[j] == V2_SIGNATURE@[j] by {
            assert(input[j] == opening()[j]);
        }
        assert(input[0] == opening()[0]);
    }
}

/// A version 1 line has at most 107 bytes, its line ending included: one that is
/// still going on there is refused, and a shorter one is waited for. A carriage return
/// ends it only with a line feed behind it.
pub proof fn a_version_1_line_has_a_limit(input: Seq<u8>)
    requires
        input.len() >= 6,
        input.take(6) == seq![80u8, 82u8, 79u8, 88u8, 89u8, 32u8],
    ensures
        input.len() >= 106 && (forall|i: int| 0 <= i < 106 ==> #[trigger] input[i] != 13u8)
            ==> header(input) is Malformed,
        input.len() < 106 && (forall|i: int| 0 <= i < input.len() ==> #[trigger] input[i] != 13u8)
            ==> header(input) is Incomplete,
        forall|cr: int|
            #![trigger input[cr]]
            0 <= cr < 106 && cr + 1 < input.len() && input[cr] == 13u8 && input[cr + 1] != 10u8 && (
            forall|i: int| 0 <= i < cr ==> #[trigger] input[i] != 13u8) ==> header(input)
                is Malformed,
{
    let first = seq![80u8, 82u8, 79u8, 88u8, 89u8, 32u8];
    assert(V1_SIGNATURE@ =~= first);
    assert(agrees(input, V1_SIGNATURE@)) by {
        assert forall|i: int| 0 <= i < input.len() && i < V1_SIGNATURE@.len() implies #[trigger] input[i]
            == V1_SIGNATURE@[i] by {
            assert(input.take(6)[i] == input[i]);
        }
    }
    assert(input[0] == input.take(6)[0]);
    let searchable: int = if input.len() < 106 {
        input.len() as int
    } else {
        106
    };
    let there = input.take(searchable);
    text::lemma_first_index_meaning(there, 13u8);
    let end = text::first_index(there, 13u8);
    if end < there.len() {
        assert(there[end] == input[end]);
    }
    assert forall|cr: int|
        #![trigger input[cr]]
        0 <= cr < 106 && cr + 1 < input.len() && input[cr] == 13u8 && input[cr + 1] != 10u8 && (forall|
            i: int,
        | 0 <= i < cr ==> #[trigger] input[i] != 13u8) implies header(input) is Malformed by {
        assert(there[cr] == 13u8);
        assert forall|j: int| 0 <= j < cr implies there[j] != 13u8 by {
            assert(there[j] == input[j]);
        }
        text::lemma_first_index(there, 13u8, cr);
    }
}

/// A version 2 header declares version 2 and one of two commands, and anything else is
/// refused as soon as that byte is there.
pub proof fn a_version_2_declaration_is_checked(declared: u8, more: Seq<u8>)
    ensures
        ({
            let front = seq![
                0x0Du8,
                0x0Au8,
                0x0Du8,
                0x0Au8,
                0x00u8,
                0x0Du8,
                0x0Au8,
                0x51u8,
                0x55u8,
                0x49u8,
                0x54u8,
                0x0Au8,
            ];
            declared != 0x20 && declared != 0x21 ==> header(front + seq![declared] + more)
                is Malformed
        }),
{
    let input = opening() + seq![declared] + more;
    lemma_opening(input);
    assert(input[12] == declared);
    assert(declared / 16 == 2 && declared % 16 <= 1 ==> declared == 0x20 || declared == 0x21);
}

/// A line that is no header says what is wrong with it, and the count of its fields
/// and its ports come before its addresses.
pub proof fn a_refused_line_says_why(parts: Seq<Seq<char>>, consumed: nat)
    ensures
        ({
            let said = v1_addressed(parts, consumed);
            let decimal = |s: Seq<char>| s.len() > 0 && text::all_digits(s, 10);
            &&& parts.len() < 5 ==> said == Outcome::Malformed("a v1 line is missing fields"@)
            &&& parts.len() > 5 ==> said == Outcome::Malformed("a v1 line has trailing fields"@)
            &&& parts.len() == 5 && !decimal(parts[3]) ==> said == Outcome::Malformed(
                "a v1 port is not a decimal number"@,
            )
            &&& parts.len() == 5 && decimal(parts[3]) && text::number_value(parts[3], 10) > 65535
                ==> said == Outcome::Malformed("a v1 port is outside 0-65535"@)
            &&& parts.len() == 5 && decimal(parts[3]) && text::number_value(parts[3], 10) <= 65535
                && !decimal(parts[4]) ==> said == Outcome::Malformed(
                "a v1 port is not a decimal number"@,
            )
            &&& said is Done ==> text::number_value(parts[4], 10) <= 65535
            &&& said is Done && parts[0] == "TCP4"@ ==> net::ipv4_value(parts[1]) is Some
                && net::ipv4_value(parts[2]) is Some
            &&& said is Done && parts[0] != "TCP4"@ ==> parts[0] == "TCP6"@ && net::ipv6_value(
                parts[1],
            ) is Some && net::ipv6_value(parts[2]) is Some
        }),
{
}

/// A refusal says that there was no header, or what was wrong with the one there was.
pub proof fn a_refused_header_says_why(error: HeaderError)
    ensures
        error is Signature ==> header_error_text(error) == "no PROXY protocol signature"@,
        error matches HeaderError::Malformed(why) ==> header_error_text(error)
            == "malformed PROXY header: "@ + why@,
{
}

/// A version 2 block is as long as its family's addresses and ports: two of four
/// bytes or two of sixteen, and two of two.
pub proof fn a_block_holds_two_addresses_and_two_ports(body: Seq<u8>, transport: u8)
    requires
        transport < 16,
    ensures
        body.len() < 2 * 4 + 2 * 2 ==> block_value((0x10 + transport) as u8, body) == Err::<
            Option<net::SocketView>,
            Seq<char>,
        >("a v2 INET header is shorter than its 12-byte address block"@),
        body.len() >= 2 * 4 + 2 * 2 ==> block_value((0x10 + transport) as u8, body) is Ok,
        body.len() < 2 * 16 + 2 * 2 ==> block_value((0x20 + transport) as u8, body) == Err::<
            Option<net::SocketView>,
            Seq<char>,
        >("a v2 INET6 header is shorter than its 36-byte address block"@),
        body.len() >= 2 * 16 + 2 * 2 ==> block_value((0x20 + transport) as u8, body) is Ok,
        block_value(transport, body) == Ok::<Option<net::SocketView>, Seq<char>>(None),
        block_value((0x30 + transport) as u8, body) == Ok::<Option<net::SocketView>, Seq<char>>(
            None,
        ),
{
}

} // verus!
