//! Addresses, as text and back.
use ramjet_ingress::net::{parse_ipv4, parse_ipv6, parse_socket, Ipv4Addr, Ipv6Addr, SocketAddr};
use ramjet_ingress::text::to_chars;

fn v4(text: &str) -> Option<Ipv4Addr> {
    parse_ipv4(&to_chars(text))
}

fn v6(text: &str) -> Option<Ipv6Addr> {
    parse_ipv6(&to_chars(text))
}

fn socket(text: &str) -> Option<SocketAddr> {
    parse_socket(&to_chars(text))
}

#[test]
fn an_ipv4_address_is_four_plain_octets() {
    assert_eq!(v4("192.0.2.10").map(|a| a.octets), Some([192, 0, 2, 10]));
    assert_eq!(v4("0.0.0.0").map(|a| a.to_text()), Some("0.0.0.0".to_owned()));
    for wrong in ["", "1.2.3", "1.2.3.4.5", "256.0.0.1", "01.2.3.4", "1.2.3.4 ", "a.b.c.d", "1..2.3"] {
        assert!(v4(wrong).is_none(), "{wrong:?}");
    }
}

#[test]
fn an_ipv6_address_is_shown_in_its_shortest_form() {
    for (read, shown) in [
        ("::", "::"),
        ("::1", "::1"),
        ("2001:DB8:0:0:0:0:0:1", "2001:db8::1"),
        ("2001:db8:0:0:1:0:0:0", "2001:db8:0:0:1::"),
        ("1:0:2:3:4:5:6:7", "1:0:2:3:4:5:6:7"),
        ("::ffff:192.0.2.10", "::ffff:192.0.2.10"),
        ("64:ff9b::192.0.2.33", "64:ff9b::c000:221"),
        ("1:2:3:4:5:6:7::", "1:2:3:4:5:6:7:0"),
    ] {
        assert_eq!(v6(read).map(|a| a.to_text()).as_deref(), Some(shown), "{read}");
        assert_eq!(v6(shown), v6(read), "{shown} reads back");
    }
    for wrong in ["", ":", ":::", "1", "1:2:3:4:5:6:7", "1:2:3:4:5:6:7:8:9", "12345::", "1::2::3", "g::"] {
        assert!(v6(wrong).is_none(), "{wrong:?}");
    }
}

#[test]
fn a_socket_address_has_a_port() {
    assert_eq!(socket("10.0.0.1:8080"), Some(SocketAddr::v4([10, 0, 0, 1], 8080)));
    for text in ["10.0.0.1:8080", "[::1]:8443", "[fe80::1%7]:53", "[2001:db8::1]:0"] {
        assert_eq!(socket(text).map(|a| a.to_text()).as_deref(), Some(text));
    }
    for wrong in ["10.0.0.1", "10.0.0.1:", "10.0.0.1:65536", "::1:80", "[::1]", "[::1]:", "host:80"] {
        assert!(socket(wrong).is_none(), "{wrong:?}");
    }
}
