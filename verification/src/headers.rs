//! Header rewriting on the way in and on the way out.
//!
//! Hop-by-hop fields describe one TCP connection and must not cross to the next
//! one. The list is not fixed: `Connection` names further fields that are
//! hop-by-hop for this message, and those go too. An upgrade is the exception:
//! it is asked for with the very fields that are stripped, so
//! [`upgrade_protocol`] reads them before the strip and [`restore_upgrade`] puts
//! them back.
//!
//! `X-Forwarded-For` is appended to, never replaced. The other forwarding fields
//! describe this hop and are set. `Host` is not touched.
use http::header::HeaderValue;
use http::HeaderMap;
use vstd::prelude::*;
use crate::header_map;
use crate::net::{self, IpAddr};
use crate::rng::{self, Rng};
use crate::text;

verus! {

/// The trail of addresses a request has come through.
pub const X_FORWARDED_FOR: &'static str = "x-forwarded-for";

/// The scheme the client used.
pub const X_FORWARDED_PROTO: &'static str = "x-forwarded-proto";

/// The host the client addressed.
pub const X_FORWARDED_HOST: &'static str = "x-forwarded-host";

/// The address of the client.
pub const X_REAL_IP: &'static str = "x-real-ip";

/// The id a request is known by across components.
pub const X_REQUEST_ID: &'static str = "x-request-id";

/// The fields of a message.
pub type Fields = Map<Seq<char>, Seq<Seq<u8>>>;

/// Whether a field describes one connection, whatever the message says.
pub open spec fn is_hop_by_hop(name: Seq<char>) -> bool {
    ||| name == "keep-alive"@
    ||| name == "proxy-connection"@
    ||| name == "proxy-authenticate"@
    ||| name == "proxy-authorization"@
    ||| name == "te"@
    ||| name == "trailer"@
    ||| name == "transfer-encoding"@
    ||| name == "upgrade"@
}

/// The elements of a comma-separated field value, without the blanks around
/// them.
pub open spec fn elements(value: Seq<u8>) -> Seq<Seq<u8>> {
    text::split(value, 44u8).map_values(|piece: Seq<u8>| text::trimmed_bytes(piece))
}

/// Whether one element of a `Connection` value names the field.
pub open spec fn element_names(element: Seq<u8>, name: Seq<char>) -> bool {
    header_map::is_name(element) && text::lower(header_map::chars_of(element)) == name
}

/// Whether a `Connection` value names the field.
pub open spec fn value_names(value: Seq<u8>, name: Seq<char>) -> bool {
    exists|i: int| 0 <= i < elements(value).len() && element_names(#[trigger] elements(value)[i], name)
}

/// Whether the message's `Connection` names the field.
pub open spec fn connection_names(f: Fields, name: Seq<char>) -> bool {
    exists|i: int|
        0 <= i < header_map::values(f, "connection"@).len() && value_names(
            #[trigger] header_map::values(f, "connection"@)[i],
            name,
        )
}

/// Whether the field must not cross to the next connection.
pub open spec fn is_stripped(f: Fields, name: Seq<char>) -> bool {
    name == "connection"@ || is_hop_by_hop(name) || connection_names(f, name)
}

/// The fields that cross to the next connection.
pub open spec fn end_to_end(f: Fields) -> Fields {
    f.remove_keys(Set::new(|name: Seq<char>| is_stripped(f, name)))
}

/// The names used here are field names in lower case.
proof fn lemma_names()
    ensures
        text::lower("connection"@) == "connection"@,
        header_map::spells_name("connection"@),
        text::lower("upgrade"@) == "upgrade"@,
        header_map::spells_name("upgrade"@),
        text::lower("cookie"@) == "cookie"@,
        header_map::spells_name("cookie"@),
        text::lower(X_FORWARDED_FOR@) == X_FORWARDED_FOR@,
        header_map::spells_name(X_FORWARDED_FOR@),
        text::lower(X_FORWARDED_PROTO@) == X_FORWARDED_PROTO@,
        header_map::spells_name(X_FORWARDED_PROTO@),
        text::lower(X_FORWARDED_HOST@) == X_FORWARDED_HOST@,
        header_map::spells_name(X_FORWARDED_HOST@),
        text::lower(X_REAL_IP@) == X_REAL_IP@,
        header_map::spells_name(X_REAL_IP@),
        text::lower(X_REQUEST_ID@) == X_REQUEST_ID@,
        header_map::spells_name(X_REQUEST_ID@),
{
    reveal_strlit("connection");
    reveal_strlit("upgrade");
    reveal_strlit("cookie");
    reveal_strlit("x-forwarded-for");
    reveal_strlit("x-forwarded-proto");
    reveal_strlit("x-forwarded-host");
    reveal_strlit("x-real-ip");
    reveal_strlit("x-request-id");
    header_map::lemma_plain_name("connection"@);
    header_map::lemma_plain_name("upgrade"@);
    header_map::lemma_plain_name("cookie"@);
    header_map::lemma_plain_name(X_FORWARDED_FOR@);
    header_map::lemma_plain_name(X_FORWARDED_PROTO@);
    header_map::lemma_plain_name(X_FORWARDED_HOST@);
    header_map::lemma_plain_name(X_REAL_IP@);
    header_map::lemma_plain_name(X_REQUEST_ID@);
}

/// The hop-by-hop names are field names in lower case.
proof fn lemma_hop_by_hop_names()
    ensures
        text::lower("keep-alive"@) == "keep-alive"@,
        header_map::spells_name("keep-alive"@),
        text::lower("proxy-connection"@) == "proxy-connection"@,
        header_map::spells_name("proxy-connection"@),
        text::lower("proxy-authenticate"@) == "proxy-authenticate"@,
        header_map::spells_name("proxy-authenticate"@),
        text::lower("proxy-authorization"@) == "proxy-authorization"@,
        header_map::spells_name("proxy-authorization"@),
        text::lower("te"@) == "te"@,
        header_map::spells_name("te"@),
        text::lower("trailer"@) == "trailer"@,
        header_map::spells_name("trailer"@),
        text::lower("transfer-encoding"@) == "transfer-encoding"@,
        header_map::spells_name("transfer-encoding"@),
{
    reveal_strlit("keep-alive");
    reveal_strlit("proxy-connection");
    reveal_strlit("proxy-authenticate");
    reveal_strlit("proxy-authorization");
    reveal_strlit("te");
    reveal_strlit("trailer");
    reveal_strlit("transfer-encoding");
    header_map::lemma_plain_name("keep-alive"@);
    header_map::lemma_plain_name("proxy-connection"@);
    header_map::lemma_plain_name("proxy-authenticate"@);
    header_map::lemma_plain_name("proxy-authorization"@);
    header_map::lemma_plain_name("te"@);
    header_map::lemma_plain_name("trailer"@);
    header_map::lemma_plain_name("transfer-encoding"@);
}

/// A lower-case text is its own lower case.
proof fn lemma_lower_twice(s: Seq<char>)
    ensures
        text::lower(text::lower(s)) == text::lower(s),
{
    assert(text::lower(text::lower(s)) =~= text::lower(s));
}

/// The elements of a comma-separated value.
fn split_elements(value: &[u8]) -> (r: Vec<Vec<u8>>)
    ensures
        text::views(r@) == elements(value@),
{
    let pieces = text::split_bytes(value, 44);
    let mut out: Vec<Vec<u8>> = Vec::new();
    let mut i: usize = 0;
    while i < pieces.len()
        invariant
            i <= pieces@.len(),
            text::views(pieces@) == text::split(value@, 44u8),
            text::views(out@) == elements(value@).take(i as int),
        decreases pieces@.len() - i,
    {
        let ghost before = out@;
        let trimmed = text::trim_bytes(pieces[i].as_slice());
        proof {
            assert(text::views(pieces@)[i as int] == pieces@[i as int]@);
        }
        let ghost t = trimmed@;
        out.push(trimmed);
        i = i + 1;
        proof {
            assert(text::views(out@) =~= text::views(before).push(t));
            assert(elements(value@).take(i as int) =~= elements(value@).take(i - 1).push(
                elements(value@)[i - 1],
            ));
        }
    }
    assert(elements(value@).take(i as int) =~= elements(value@));
    out
}

/// Whether one of the first `n` elements names the field.
spec fn named_by_first(value: Seq<u8>, n: int, name: Seq<char>) -> bool {
    exists|i: int| 0 <= i < n && element_names(#[trigger] elements(value)[i], name)
}

/// Removes the fields that one `Connection` value names.
fn remove_named(headers: &mut HeaderMap, value: &HeaderValue)
    ensures
        header_map::fields(*final(headers)) == header_map::fields(*old(headers)).remove_keys(
            Set::new(|name: Seq<char>| value_names(header_map::value_bytes(*value), name)),
        ),
{
    let ghost bytes = header_map::value_bytes(*value);
    let list = split_elements(value.as_bytes());
    let ghost f = header_map::fields(*headers);
    let mut i: usize = 0;
    assert(f.remove_keys(Set::new(|name: Seq<char>| named_by_first(bytes, 0, name))) =~= f);
    while i < list.len()
        invariant
            i <= list@.len(),
            text::views(list@) == elements(bytes),
            header_map::fields(*headers) == f.remove_keys(
                Set::new(|name: Seq<char>| named_by_first(bytes, i as int, name)),
            ),
        decreases list@.len() - i,
    {
        let ghost element = elements(bytes)[i as int];
        assert(text::views(list@)[i as int] == list@[i as int]@);
        let ghost before = header_map::fields(*headers);
        if let Some(name) = header_map::name_from_bytes(list[i].as_slice()) {
            proof {
                header_map::lemma_read_name(element);
                lemma_lower_twice(header_map::chars_of(element));
            }
            header_map::remove(headers, name.as_str());
        }
        proof {
            let now = Set::new(|name: Seq<char>| named_by_first(bytes, i + 1, name));
            assert forall|name: Seq<char>| now.contains(name) <==> named_by_first(bytes, i as int, name)
                || element_names(element, name) by {
                if named_by_first(bytes, i + 1, name) && !named_by_first(bytes, i as int, name) {
                    let k = choose|k: int|
                        0 <= k < i + 1 && element_names(#[trigger] elements(bytes)[k], name);
                    assert(k == i);
                }
                if named_by_first(bytes, i as int, name) {
                    let k = choose|k: int|
                        0 <= k < i && element_names(#[trigger] elements(bytes)[k], name);
                    assert(0 <= k < i + 1);
                }
            }
            assert(header_map::fields(*headers) =~= f.remove_keys(now));
        }
        i = i + 1;
    }
    proof {
        assert(Set::new(|name: Seq<char>| named_by_first(bytes, i as int, name)) =~= Set::new(
            |name: Seq<char>| value_names(bytes, name),
        ));
    }
}

/// Whether one of the first `n` values names the field.
spec fn named_by_values(list: Seq<Seq<u8>>, n: int, name: Seq<char>) -> bool {
    exists|i: int| 0 <= i < n && value_names(#[trigger] list[i], name)
}

/// Removes every hop-by-hop field, including the ones `Connection` names.
pub fn strip_hop_by_hop(headers: &mut HeaderMap)
    ensures
        header_map::fields(*final(headers)) == end_to_end(header_map::fields(*old(headers))),
{
    let ghost f = header_map::fields(*headers);
    proof {
        lemma_names();
        lemma_hop_by_hop_names();
    }
    let connection = header_map::get_all(headers, "connection");
    let ghost list = header_map::values(f, "connection"@);
    assert(header_map::list_bytes(connection@) == list);
    let mut i: usize = 0;
    assert(f.remove_keys(Set::new(|name: Seq<char>| named_by_values(list, 0, name))) =~= f);
    while i < connection.len()
        invariant
            i <= connection@.len(),
            header_map::list_bytes(connection@) == list,
            header_map::fields(*headers) == f.remove_keys(
                Set::new(|name: Seq<char>| named_by_values(list, i as int, name)),
            ),
        decreases connection@.len() - i,
    {
        assert(header_map::list_bytes(connection@)[i as int] == header_map::value_bytes(
            connection@[i as int],
        ));
        remove_named(headers, &connection[i]);
        proof {
            let now = Set::new(|name: Seq<char>| named_by_values(list, i + 1, name));
            assert forall|name: Seq<char>| now.contains(name) <==> named_by_values(list, i as int, name)
                || value_names(list[i as int], name) by {
                if named_by_values(list, i + 1, name) && !named_by_values(list, i as int, name) {
                    let k = choose|k: int| 0 <= k < i + 1 && value_names(#[trigger] list[k], name);
                    assert(k == i);
                }
                if named_by_values(list, i as int, name) {
                    let k = choose|k: int| 0 <= k < i && value_names(#[trigger] list[k], name);
                    assert(0 <= k < i + 1);
                }
            }
            assert(header_map::fields(*headers) =~= f.remove_keys(now));
        }
        i = i + 1;
    }
    proof {
        assert forall|name: Seq<char>| named_by_values(list, i as int, name) == connection_names(
            f,
            name,
        ) by {}
    }
    header_map::remove(headers, "connection");
    header_map::remove(headers, "keep-alive");
    header_map::remove(headers, "proxy-connection");
    header_map::remove(headers, "proxy-authenticate");
    header_map::remove(headers, "proxy-authorization");
    header_map::remove(headers, "te");
    header_map::remove(headers, "trailer");
    header_map::remove(headers, "transfer-encoding");
    header_map::remove(headers, "upgrade");
    assert(header_map::fields(*headers) =~= end_to_end(f));
}

/// The token that asks for an upgrade.
pub open spec fn upgrade_token() -> Seq<u8> {
    header_map::ascii_bytes("upgrade"@)
}

/// Whether a `Connection` value lists the upgrade token, in any case.
pub open spec fn value_asks_upgrade(value: Seq<u8>) -> bool {
    exists|i: int|
        0 <= i < elements(value).len() && text::lower_bytes(#[trigger] elements(value)[i])
            == upgrade_token()
}

/// Whether the message asks for an upgrade.
pub open spec fn asks_upgrade(f: Fields) -> bool {
    exists|i: int|
        0 <= i < header_map::values(f, "connection"@).len() && value_asks_upgrade(
            #[trigger] header_map::values(f, "connection"@)[i],
        )
}

/// The protocol a message asks to upgrade to.
pub open spec fn upgrade_value(f: Fields) -> Option<Seq<u8>> {
    if asks_upgrade(f) {
        header_map::first_value(f, "upgrade"@)
    } else {
        None
    }
}

/// The bytes of `upgrade`.
fn upgrade_bytes() -> (r: [u8; 7])
    ensures
        r@ == upgrade_token(),
        text::lower_bytes(r@) == upgrade_token(),
{
    let r: [u8; 7] = [117, 112, 103, 114, 97, 100, 101];
    proof {
        reveal_strlit("upgrade");
        assert(r@ =~= upgrade_token());
        assert(text::lower_bytes(r@) =~= upgrade_token());
    }
    r
}

/// Whether one `Connection` value lists the upgrade token.
fn lists_upgrade(value: &HeaderValue) -> (r: bool)
    ensures
        r == value_asks_upgrade(header_map::value_bytes(*value)),
{
    let token = upgrade_bytes();
    let ghost bytes = header_map::value_bytes(*value);
    let list = split_elements(value.as_bytes());
    let mut i: usize = 0;
    while i < list.len()
        invariant
            i <= list@.len(),
            bytes == header_map::value_bytes(*value),
            text::views(list@) == elements(bytes),
            token@ == upgrade_token(),
            text::lower_bytes(token@) == upgrade_token(),
            forall|k: int| 0 <= k < i ==> text::lower_bytes(#[trigger] elements(bytes)[k]) != upgrade_token(),
        decreases list@.len() - i,
    {
        assert(text::views(list@)[i as int] == list@[i as int]@);
        if text::same_bytes_ignoring_case(list[i].as_slice(), token.as_slice()) {
            assert(text::lower_bytes(elements(bytes)[i as int]) == upgrade_token());
            return true;
        }
        i = i + 1;
    }
    false
}

/// The protocol an upgrade request or a `101` response is asking for.
///
/// An `Upgrade` field on its own is advisory: nothing is asked for unless
/// `Connection` lists the `upgrade` token.
pub fn upgrade_protocol(headers: &HeaderMap) -> (r: Option<HeaderValue>)
    ensures
        header_map::option_bytes(r) == upgrade_value(header_map::fields(*headers)),
{
    proof {
        lemma_names();
    }
    let ghost f = header_map::fields(*headers);
    let ghost list = header_map::values(f, "connection"@);
    let connection = header_map::get_all(headers, "connection");
    assert(header_map::list_bytes(connection@) == list);
    let mut i: usize = 0;
    while i < connection.len()
        invariant
            i <= connection@.len(),
            f == header_map::fields(*headers),
            text::lower("upgrade"@) == "upgrade"@,
            header_map::spells_name("upgrade"@),
            list == header_map::values(f, "connection"@),
            header_map::list_bytes(connection@) == list,
            forall|k: int| 0 <= k < i ==> !value_asks_upgrade(#[trigger] list[k]),
        decreases connection@.len() - i,
    {
        assert(header_map::list_bytes(connection@)[i as int] == header_map::value_bytes(
            connection@[i as int],
        ));
        if lists_upgrade(&connection[i]) {
            assert(value_asks_upgrade(list[i as int]));
            return header_map::get(headers, "upgrade");
        }
        i = i + 1;
    }
    None
}

/// The fields with the two that an upgrade needs.
pub open spec fn with_upgrade(f: Fields, protocol: Seq<u8>) -> Fields {
    f.insert("connection"@, seq![upgrade_token()]).insert("upgrade"@, seq![protocol])
}

/// Puts back the two fields an upgrade needs, after a strip removed them.
pub fn restore_upgrade(headers: &mut HeaderMap, protocol: &HeaderValue)
    requires
        header_map::has_room(*old(headers), 2),
    ensures
        header_map::fields(*final(headers)) == with_upgrade(
            header_map::fields(*old(headers)),
            header_map::value_bytes(*protocol),
        ),
{
    proof {
        lemma_names();
        reveal_strlit("upgrade");
    }
    header_map::insert(headers, "connection", HeaderValue::from_static("upgrade"));
    header_map::insert(headers, "upgrade", protocol.clone());
}

/// An upgrade survives a strip and a restore: the next hop is asked for the same
/// protocol.
pub proof fn an_upgrade_survives_strip_and_restore(f: Fields)
    requires
        upgrade_value(f) is Some,
    ensures
        upgrade_value(with_upgrade(end_to_end(f), upgrade_value(f)->Some_0)) == upgrade_value(f),
{
    reveal_strlit("connection");
    reveal_strlit("upgrade");
    let g = with_upgrade(end_to_end(f), upgrade_value(f)->Some_0);
    assert("connection"@.len() != "upgrade"@.len());
    let token = upgrade_token();
    let list = header_map::values(g, "connection"@);
    assert(list == seq![token]);
    lemma_token_is_one_element(token);
    assert(text::lower_bytes(elements(token)[0]) =~= upgrade_token());
    assert(value_asks_upgrade(list[0]));
    assert(header_map::values(g, "upgrade"@) == seq![upgrade_value(f)->Some_0]);
}

/// A value without commas and without blanks at its ends is its own only element.
proof fn lemma_token_is_one_element(token: Seq<u8>)
    requires
        forall|i: int| 0 <= i < token.len() ==> #[trigger] token[i] != 44u8,
        token.len() > 0,
        !text::is_ascii_space(token[0]),
        !text::is_ascii_space(token.last()),
    ensures
        elements(token) == seq![token],
{
    lemma_split_without_separator(token, 44u8);
    assert(text::trimmed_bytes(token) == token);
    assert(elements(token) =~= seq![token]);
}

/// A split at a separator that does not occur gives the whole.
proof fn lemma_split_without_separator(s: Seq<u8>, separator: u8)
    requires
        forall|i: int| 0 <= i < s.len() ==> #[trigger] s[i] != separator,
    ensures
        text::split(s, separator) == seq![s],
    decreases s.len(),
{
    if s.len() > 0 {
        assert(s.last() == s[s.len() - 1]);
        lemma_split_without_separator(s.drop_last(), separator);
        assert(s.drop_last().push(s.last()) =~= s);
        assert(text::split(s, separator) =~= seq![s]);
    } else {
        assert(s =~= Seq::<u8>::empty());
    }
}

/// A strip takes out exactly the hop-by-hop fields, changes no other, and leaves
/// nothing for a second strip to take.
pub proof fn a_strip_only_removes(f: Fields, name: Seq<char>)
    ensures
        end_to_end(f).contains_key(name) <==> f.contains_key(name) && !is_stripped(f, name),
        end_to_end(f).contains_key(name) ==> end_to_end(f)[name] == f[name],
        end_to_end(end_to_end(f)) == end_to_end(f),
{
    let g = end_to_end(f);
    assert(header_map::values(g, "connection"@) =~= Seq::<Seq<u8>>::empty());
    assert forall|n: Seq<char>| g.contains_key(n) implies !is_stripped(g, n) by {}
    assert(end_to_end(g) =~= g);
}

// ---------------------------------------------------------------------------
// Forwarding fields
// ---------------------------------------------------------------------------

/// The separator between the hops of a trail.
pub open spec fn hop_separator() -> Seq<u8> {
    seq![44u8, 32u8]
}

/// Every value of a trail in one, the separator put in front of a value once
/// something stands before it.
pub open spec fn joined(list: Seq<Seq<u8>>) -> Seq<u8>
    decreases list.len(),
{
    if list.len() == 0 {
        Seq::empty()
    } else {
        let before = joined(list.drop_last());
        if before.len() > 0 {
            before + hop_separator() + list.last()
        } else {
            list.last()
        }
    }
}

/// The trail after this hop.
pub open spec fn trail(f: Fields, client: Seq<u8>) -> Seq<u8> {
    let list = header_map::values(f, X_FORWARDED_FOR@);
    if list.len() > 0 {
        joined(list) + hop_separator() + client
    } else {
        client
    }
}

/// The fields after `apply_forwarded`.
///
/// A trail that holds a byte no value may hold is left as it came.
pub open spec fn forwarded(f: Fields, client: net::IpView, scheme: Seq<char>, authority: Option<Seq<u8>>) -> Fields {
    let address = header_map::ascii_bytes(net::ip_text(client));
    let f1 = if header_map::is_value(trail(f, address)) {
        f.insert(X_FORWARDED_FOR@, seq![trail(f, address)])
    } else {
        f
    };
    let f2 = f1.insert(X_REAL_IP@, seq![address]).insert(
        X_FORWARDED_PROTO@,
        seq![header_map::ascii_bytes(scheme)],
    );
    match authority {
        Some(host) => f2.insert(X_FORWARDED_HOST@, seq![host]),
        None => f2,
    }
}

/// Whether a character may stand in an address.
spec fn is_address_char(c: char) -> bool {
    ('.' <= c && c <= ':') || ('a' <= c && c <= 'f')
}

/// Whether every character may stand in an address.
spec fn is_address_text(s: Seq<char>) -> bool {
    forall|i: int|
        0 <= i < s.len() ==> is_address_char(#[trigger] s[i])
}

/// A numeral is made of address characters.
proof fn lemma_numeral_is_address_text(n: nat, radix: nat)
    requires
        2 <= radix <= 16,
    ensures
        is_address_text(text::numeral(n, radix)),
    decreases n,
{
    if n < radix {
    } else {
        vstd::arithmetic::div_mod::lemma_div_decreases(n as int, radix as int);
        lemma_numeral_is_address_text(n / radix, radix);
        let s = text::numeral(n, radix);
        let front = text::numeral(n / radix, radix);
        assert forall|i: int| 0 <= i < s.len() implies is_address_char(#[trigger] s[i]) by {
            if i < front.len() {
                assert(s[i] == front[i]);
            }
        }
    }
}

/// Texts made of address characters stay so when they are put together.
proof fn lemma_address_text_joins(a: Seq<char>, b: Seq<char>)
    requires
        is_address_text(a),
        is_address_text(b),
    ensures
        is_address_text(a + b),
{
    assert forall|i: int| 0 <= i < (a + b).len() implies is_address_char(#[trigger] (a + b)[i]) by {
        if i < a.len() {
            assert((a + b)[i] == a[i]);
        } else {
            assert((a + b)[i] == b[i - a.len()]);
        }
    }
}

/// A dotted address is made of address characters.
proof fn lemma_ipv4_is_address_text(a: Seq<u8>)
    ensures
        is_address_text(net::ipv4_text(a)),
{
    let dot = seq!['.'];
    let p = text::decimal(a[0] as nat);
    let q = text::decimal(a[1] as nat);
    let r = text::decimal(a[2] as nat);
    let t = text::decimal(a[3] as nat);
    lemma_numeral_is_address_text(a[0] as nat, 10);
    lemma_numeral_is_address_text(a[1] as nat, 10);
    lemma_numeral_is_address_text(a[2] as nat, 10);
    lemma_numeral_is_address_text(a[3] as nat, 10);
    assert(is_address_text(dot));
    lemma_address_text_joins(p, dot);
    lemma_address_text_joins(p + dot, q);
    lemma_address_text_joins(p + dot + q, dot);
    lemma_address_text_joins(p + dot + q + dot, r);
    lemma_address_text_joins(p + dot + q + dot + r, dot);
    lemma_address_text_joins(p + dot + q + dot + r + dot, t);
}

/// A list of groups is made of address characters.
proof fn lemma_groups_are_address_text(g: Seq<u16>)
    ensures
        is_address_text(net::groups_text(g)),
    decreases g.len(),
{
    let colon = seq![':'];
    assert(is_address_text(colon));
    if g.len() == 1 {
        lemma_numeral_is_address_text(g[0] as nat, 16);
    } else if g.len() > 1 {
        lemma_groups_are_address_text(g.drop_last());
        lemma_numeral_is_address_text(g.last() as nat, 16);
        lemma_address_text_joins(net::groups_text(g.drop_last()), colon);
        lemma_address_text_joins(
            net::groups_text(g.drop_last()) + colon,
            text::hexadecimal(g.last() as nat),
        );
    }
}

/// An address is made of address characters.
proof fn lemma_address_is_text(client: net::IpView)
    ensures
        is_address_text(net::ip_text(client)),
{
    match client {
        net::IpView::V4(o) => {
            lemma_ipv4_is_address_text(o);
        },
        net::IpView::V6(g) => {
            let start = net::longest_zeros(g, 0);
            let end = start + net::zeros_from(g, start);
            let lead = seq![':', ':', 'f', 'f', 'f', 'f', ':'];
            let colons = seq![':', ':'];
            assert(is_address_text(lead));
            assert(is_address_text(colons));
            lemma_ipv4_is_address_text(net::low_octets(g));
            lemma_address_text_joins(lead, net::ipv4_text(net::low_octets(g)));
            lemma_groups_are_address_text(g);
            lemma_groups_are_address_text(g.take(start));
            lemma_groups_are_address_text(g.skip(end));
            lemma_address_text_joins(net::groups_text(g.take(start)), colons);
            lemma_address_text_joins(
                net::groups_text(g.take(start)) + colons,
                net::groups_text(g.skip(end)),
            );
        },
    }
}

/// An address is made of address characters, and so it is a header value.
proof fn lemma_address_is_a_value(client: net::IpView)
    ensures
        header_map::is_value(header_map::ascii_bytes(net::ip_text(client))),
{
    let s = net::ip_text(client);
    lemma_address_is_text(client);
    let b = header_map::ascii_bytes(s);
    assert forall|i: int| 0 <= i < b.len() implies header_map::is_value_byte(#[trigger] b[i]) by {
        assert(b[i] == s[i] as u8);
        assert(is_address_char(s[i]));
    }
}

/// ASCII text as bytes.
fn ascii_bytes(s: &[char]) -> (r: Vec<u8>)
    ensures
        r@ == header_map::ascii_bytes(s@),
{
    let mut out: Vec<u8> = Vec::new();
    let mut i: usize = 0;
    while i < s.len()
        invariant
            i <= s@.len(),
            out@ == header_map::ascii_bytes(s@.take(i as int)),
        decreases s@.len() - i,
    {
        out.push(s[i] as u8);
        i = i + 1;
        assert(out@ =~= header_map::ascii_bytes(s@.take(i as int)));
    }
    assert(s@.take(i as int) =~= s@);
    out
}

/// Every value of a list in one, as [`joined`] says.
fn join_values(list: &Vec<HeaderValue>) -> (r: Vec<u8>)
    ensures
        r@ == joined(header_map::list_bytes(list@)),
{
    let ghost all = header_map::list_bytes(list@);
    let mut out: Vec<u8> = Vec::new();
    let mut i: usize = 0;
    while i < list.len()
        invariant
            i <= list@.len(),
            all == header_map::list_bytes(list@),
            out@ == joined(all.take(i as int)),
        decreases list@.len() - i,
    {
        let ghost before = out@;
        if out.len() > 0 {
            out.push(44);
            out.push(32);
        }
        out.extend_from_slice(list[i].as_bytes());
        i = i + 1;
        proof {
            assert(all[i - 1] == header_map::value_bytes(list@[i - 1]));
            assert(all.take(i as int).drop_last() =~= all.take(i - 1));
            assert(all.take(i as int).last() == all[i - 1]);
            if before.len() > 0 {
                assert(out@ =~= before + hop_separator() + all[i - 1]);
            } else {
                assert(out@ =~= all[i - 1]);
            }
        }
    }
    assert(all.take(i as int) =~= all);
    out
}

/// Adds the forwarding fields for this hop.
///
/// `authority` is what the client sent as `Host` or `:authority`.
pub fn apply_forwarded(
    headers: &mut HeaderMap,
    client: IpAddr,
    scheme: &'static str,
    authority: Option<HeaderValue>,
)
    requires
        header_map::all_visible_chars(scheme@),
        header_map::has_room(*old(headers), 4),
    ensures
        header_map::fields(*final(headers)) == forwarded(
            header_map::fields(*old(headers)),
            client@,
            scheme@,
            header_map::option_bytes(authority),
        ),
{
    proof {
        lemma_names();
        lemma_address_is_a_value(client@);
    }
    let ghost f = header_map::fields(*headers);
    let written = client.to_text();
    let chars = text::to_chars(written.as_str());
    let ip = ascii_bytes(chars.as_slice());

    // Every value of the trail counts, not just the first: a client is free to
    // send it as several fields.
    let hops = header_map::get_all(headers, X_FORWARDED_FOR);
    assert(header_map::list_bytes(hops@).len() == hops@.len());
    let mut buffer: Vec<u8> = Vec::new();
    if hops.len() > 0 {
        buffer = join_values(&hops);
        buffer.push(44);
        buffer.push(32);
    }
    buffer.extend_from_slice(ip.as_slice());
    assert(buffer@ =~= trail(f, ip@));
    if let Ok(value) = HeaderValue::from_bytes(buffer.as_slice()) {
        header_map::insert(headers, X_FORWARDED_FOR, value);
    }
    if let Ok(value) = HeaderValue::from_bytes(ip.as_slice()) {
        header_map::insert(headers, X_REAL_IP, value);
    }
    header_map::insert(headers, X_FORWARDED_PROTO, HeaderValue::from_static(scheme));
    if let Some(host) = authority {
        header_map::insert(headers, X_FORWARDED_HOST, host);
    }
}

/// Forwarding appends to the trail: whatever the client sent of it stands at the
/// front, and this hop's client stands at the end.
pub proof fn the_trail_is_appended_to(f: Fields, client: Seq<u8>)
    requires
        header_map::values(f, X_FORWARDED_FOR@).len() > 0,
    ensures
        trail(f, client).take(joined(header_map::values(f, X_FORWARDED_FOR@)).len() as int) == joined(
            header_map::values(f, X_FORWARDED_FOR@),
        ),
        trail(f, client).skip(trail(f, client).len() - client.len()) == client,
{
    let before = joined(header_map::values(f, X_FORWARDED_FOR@));
    assert(trail(f, client).take(before.len() as int) =~= before);
    assert(trail(f, client).skip(trail(f, client).len() - client.len()) =~= client);
}

/// Forwarding touches the forwarding fields only. `Host` in particular is not
/// rewritten.
pub proof fn forwarding_touches_nothing_else(
    f: Fields,
    client: net::IpView,
    scheme: Seq<char>,
    authority: Option<Seq<u8>>,
    name: Seq<char>,
)
    requires
        name != X_FORWARDED_FOR@,
        name != X_FORWARDED_PROTO@,
        name != X_FORWARDED_HOST@,
        name != X_REAL_IP@,
    ensures
        header_map::values(forwarded(f, client, scheme, authority), name) == header_map::values(f, name),
{
}

/// The id that a fresh request is given.
pub open spec fn fresh_id(state: u64) -> Seq<u8> {
    rng::hex_word(rng::step(state)) + rng::hex_word(rng::step(rng::step(state)))
}

/// Every hexadecimal digit is a value byte.
proof fn lemma_hex_is_a_value(word: u64)
    ensures
        header_map::is_value(rng::hex_word(word)),
{
    lemma_low_digits_are_address_text(word as nat, 16);
    let s = text::low_digits(word as nat, 16, 16);
    let b = rng::hex_word(word);
    assert forall|i: int| 0 <= i < b.len() implies header_map::is_value_byte(#[trigger] b[i]) by {
        assert(b[i] == s[i] as u8);
        assert(is_address_char(s[i]));
    }
}

/// Hexadecimal digits are address characters.
proof fn lemma_low_digits_are_address_text(n: nat, width: nat)
    ensures
        is_address_text(text::low_digits(n, 16, width)),
    decreases width,
{
    if width > 0 {
        lemma_low_digits_are_address_text(n / 16, (width - 1) as nat);
        let front = text::low_digits(n / 16, 16, (width - 1) as nat);
        let last = seq![text::digit_char(n % 16)];
        assert(is_address_text(last));
        lemma_address_text_joins(front, last);
        assert(text::low_digits(n, 16, width) =~= front + last);
    }
}

/// The request's id, made up and inserted if the client did not supply one.
///
/// An id that came with the request is kept, so that a trace stitches together
/// across components. An empty one counts as none.
pub fn ensure_request_id(headers: &mut HeaderMap, rng: &mut Rng) -> (r: HeaderValue)
    requires
        header_map::has_room(*old(headers), 1),
        old(rng).wf(),
    ensures
        final(rng).wf(),
        ({
            let f = header_map::fields(*old(headers));
            let sent = header_map::first_value(f, X_REQUEST_ID@);
            if sent is Some && sent->Some_0.len() > 0 {
                &&& header_map::value_bytes(r) == sent->Some_0
                &&& header_map::fields(*final(headers)) == f
                &&& final(rng).state() == old(rng).state()
            } else {
                let id = fresh_id(old(rng).state());
                &&& header_map::value_bytes(r) == id
                &&& header_map::fields(*final(headers)) == f.insert(X_REQUEST_ID@, seq![id])
                &&& final(rng).state() == rng::step(rng::step(old(rng).state()))
            }
        }),
{
    proof {
        lemma_names();
    }
    if let Some(sent) = header_map::get(headers, X_REQUEST_ID) {
        if sent.as_bytes().len() > 0 {
            return sent;
        }
    }
    let mut hex: [u8; 32] = [
        0,
        0,
        0,
        0,
        0,
        0,
        0,
        0,
        0,
        0,
        0,
        0,
        0,
        0,
        0,
        0,
        0,
        0,
        0,
        0,
        0,
        0,
        0,
        0,
        0,
        0,
        0,
        0,
        0,
        0,
        0,
        0,
    ];
    let ghost state = rng.state();
    rng::hex_id(rng, &mut hex);
    proof {
        lemma_hex_is_a_value(rng::step(state));
        lemma_hex_is_a_value(rng::step(rng::step(state)));
        let a = rng::hex_word(rng::step(state));
        let b = rng::hex_word(rng::step(rng::step(state)));
        assert forall|i: int| 0 <= i < (a + b).len() implies header_map::is_value_byte(#[trigger] (a + b)[i]) by {
            if i < a.len() {
                assert((a + b)[i] == a[i]);
            } else {
                assert((a + b)[i] == b[i - a.len()]);
            }
        }
        reveal_strlit("0");
    }
    let value = match HeaderValue::from_bytes(hex.as_slice()) {
        Ok(value) => value,
        Err(_) => HeaderValue::from_static("0"),
    };
    header_map::insert(headers, X_REQUEST_ID, value.clone());
    value
}

// ---------------------------------------------------------------------------
// Cookies
// ---------------------------------------------------------------------------

/// The value of a cookie in a `name=value` pair, when that is the cookie's name.
pub open spec fn pair_value(pair: Seq<char>, name: Seq<char>) -> Option<Seq<char>> {
    let at = text::first_index(pair, '=');
    if at < pair.len() && text::trimmed(pair.take(at)) == name {
        Some(text::trimmed(pair.skip(at + 1)))
    } else {
        None
    }
}

/// The first of the pairs that carries the cookie.
pub open spec fn first_pair(pairs: Seq<Seq<char>>, name: Seq<char>) -> Option<Seq<char>>
    decreases pairs.len(),
{
    if pairs.len() == 0 {
        None
    } else if pair_value(pairs[0], name) is Some {
        pair_value(pairs[0], name)
    } else {
        first_pair(pairs.skip(1), name)
    }
}

/// The cookie in one field value. A value that is not visible ASCII carries
/// none.
pub open spec fn cookie_in(value: Seq<u8>, name: Seq<char>) -> Option<Seq<char>> {
    if header_map::all_visible(value) {
        first_pair(text::split(header_map::chars_of(value), ';'), name)
    } else {
        None
    }
}

/// The first of the values that carries the cookie.
pub open spec fn first_cookie(list: Seq<Seq<u8>>, name: Seq<char>) -> Option<Seq<char>>
    decreases list.len(),
{
    if list.len() == 0 {
        None
    } else if cookie_in(list[0], name) is Some {
        cookie_in(list[0], name)
    } else {
        first_cookie(list.skip(1), name)
    }
}

/// The text of an optional string.
pub open spec fn option_text(s: Option<String>) -> Option<Seq<char>> {
    match s {
        Some(t) => Some(t@),
        None => None,
    }
}

/// The cookie in one field value.
fn cookie_in_text(line: &str, name: &[char]) -> (r: Option<String>)
    ensures
        option_text(r) == first_pair(text::split(line@, ';'), name@),
{
    let chars = text::to_chars(line);
    let pairs = text::split_chars(chars.as_slice(), ';');
    let ghost all = text::split(line@, ';');
    let mut i: usize = 0;
    assert(all.skip(0) =~= all);
    while i < pairs.len()
        invariant
            i <= pairs@.len(),
            all == text::split(line@, ';'),
            text::views(pairs@) == all,
            first_pair(all, name@) == first_pair(all.skip(i as int), name@),
        decreases pairs@.len() - i,
    {
        let pair = pairs[i].as_slice();
        proof {
            assert(text::views(pairs@)[i as int] == pairs@[i as int]@);
            assert(all.skip(i as int)[0] == all[i as int]);
            assert(all.skip(i as int).skip(1) =~= all.skip(i + 1));
        }
        let at: usize = text::find_char(pair, '=');
        if at < pair.len() {
            let front = text::copy_range(pair, 0, at);
            assert(front@ =~= pair@.take(at as int));
            let key = text::trim(front.as_slice());
            if text::same_chars(key.as_slice(), name) {
                let back = text::copy_range(pair, at + 1, pair.len());
                assert(back@ =~= pair@.skip(at + 1));
                let value = text::trim(back.as_slice());
                return Some(text::from_chars(value.as_slice()));
            }
        }
        i = i + 1;
    }
    None
}

/// The value of the cookie called `name`, if the request carries it.
///
/// Cookie names are case-sensitive, so the comparison is too.
pub fn cookie_value(headers: &HeaderMap, name: &str) -> (r: Option<String>)
    ensures
        option_text(r) == first_cookie(
            header_map::values(header_map::fields(*headers), "cookie"@),
            name@,
        ),
{
    proof {
        lemma_names();
    }
    let list = header_map::get_all(headers, "cookie");
    let ghost all = header_map::values(header_map::fields(*headers), "cookie"@);
    let wanted = text::to_chars(name);
    let mut i: usize = 0;
    assert(all.skip(0) =~= all);
    while i < list.len()
        invariant
            i <= list@.len(),
            wanted@ == name@,
            all == header_map::values(header_map::fields(*headers), "cookie"@),
            header_map::list_bytes(list@) == all,
            first_cookie(all, name@) == first_cookie(all.skip(i as int), name@),
        decreases list@.len() - i,
    {
        proof {
            assert(header_map::list_bytes(list@)[i as int] == header_map::value_bytes(list@[i as int]));
            assert(all.skip(i as int)[0] == all[i as int]);
            assert(all.skip(i as int).skip(1) =~= all.skip(i + 1));
        }
        if let Ok(line) = list[i].to_str() {
            let found = cookie_in_text(line, wanted.as_slice());
            if found.is_some() {
                return found;
            }
        }
        i = i + 1;
    }
    None
}

// ---------------------------------------------------------------------------
// Laws
// ---------------------------------------------------------------------------

/// After a strip none of the fields that describe one connection is left, whatever
/// the message was.
pub proof fn no_connection_field_crosses(f: Fields)
    ensures
        !end_to_end(f).contains_key("connection"@),
        !end_to_end(f).contains_key("keep-alive"@),
        !end_to_end(f).contains_key("proxy-connection"@),
        !end_to_end(f).contains_key("proxy-authenticate"@),
        !end_to_end(f).contains_key("proxy-authorization"@),
        !end_to_end(f).contains_key("te"@),
        !end_to_end(f).contains_key("trailer"@),
        !end_to_end(f).contains_key("transfer-encoding"@),
        !end_to_end(f).contains_key("upgrade"@),
{
}

/// Does some text stand anywhere in some bytes, in any case?
pub open spec fn occurs(value: Seq<u8>, name: Seq<char>) -> bool {
    exists|from: int, to: int|
        0 <= from <= to <= value.len() && #[trigger] text::lower(
            header_map::chars_of(value.subrange(from, to)),
        ) == name
}

/// Every field but those of the connection crosses unchanged, unless its name stands
/// in a `Connection` value.
pub proof fn everything_else_crosses(f: Fields, name: Seq<char>)
    requires
        f.contains_key(name),
        name != "connection"@,
        name != "keep-alive"@,
        name != "proxy-connection"@,
        name != "proxy-authenticate"@,
        name != "proxy-authorization"@,
        name != "te"@,
        name != "trailer"@,
        name != "transfer-encoding"@,
        name != "upgrade"@,
        f.contains_key("connection"@) ==> forall|i: int|
            0 <= i < f["connection"@].len() ==> !occurs(#[trigger] f["connection"@][i], name),
    ensures
        end_to_end(f).contains_key(name),
        end_to_end(f)[name] == f[name],
{
    if connection_names(f, name) {
        let list = header_map::values(f, "connection"@);
        let i = choose|i: int| 0 <= i < list.len() && value_names(#[trigger] list[i], name);
        let value = list[i];
        assert(value == f["connection"@][i]);
        let k = choose|k: int|
            0 <= k < elements(value).len() && element_names(#[trigger] elements(value)[k], name);
        lemma_elements_are_parts(value, k);
        let (from, to) = choose|from: int, to: int|
            0 <= from <= to <= value.len() && elements(value)[k] == #[trigger] value.subrange(
                from,
                to,
            );
        assert(text::lower(header_map::chars_of(value.subrange(from, to))) == name);
        assert(occurs(f["connection"@][i], name));
    }
}

#[verifier::spinoff_prover]
proof fn lemma_elements_are_parts(value: Seq<u8>, k: int)
    requires
        0 <= k < elements(value).len(),
    ensures
        exists|from: int, to: int|
            0 <= from <= to <= value.len() && elements(value)[k] == #[trigger] value.subrange(
                from,
                to,
            ),
{
    lemma_pieces_are_parts(value, 44u8, k);
    let piece = text::split(value, 44u8)[k];
    let (a, b) = choose|a: int, b: int|
        0 <= a <= b <= value.len() && piece == #[trigger] value.subrange(a, b);
    lemma_trimmed_is_a_part(piece);
    let (c, d) = choose|c: int, d: int|
        0 <= c <= d <= piece.len() && text::trimmed_bytes(piece) == #[trigger] piece.subrange(c, d);
    assert(piece.subrange(c, d) =~= value.subrange(a + c, a + d));
    assert(elements(value)[k] == text::trimmed_bytes(piece));
    assert(0 <= a + c <= a + d <= value.len() && elements(value)[k] == value.subrange(
        a + c,
        a + d,
    ));
}

proof fn lemma_pieces_are_parts(s: Seq<u8>, separator: u8, k: int)
    requires
        0 <= k < text::split(s, separator).len(),
    ensures
        exists|a: int, b: int|
            0 <= a <= b <= s.len() && text::split(s, separator)[k] == #[trigger] s.subrange(a, b),
        k == text::split(s, separator).len() - 1 ==> exists|a: int|
            0 <= a <= s.len() && text::split(s, separator)[k] == #[trigger] s.subrange(
                a,
                s.len() as int,
            ),
    decreases s.len(),
{
    let n = s.len() as int;
    if n == 0 {
        assert(s.subrange(0, 0) =~= Seq::<u8>::empty());
        assert(text::split(s, separator)[k] == s.subrange(0, 0));
    } else {
        let rest = s.drop_last();
        let before = text::split(rest, separator);
        text::lemma_split_is_never_empty(rest, separator);
        if s.last() == separator {
            if k == before.len() {
                assert(s.subrange(n, n) =~= Seq::<u8>::empty());
                assert(text::split(s, separator)[k] == s.subrange(n, n));
            } else {
                lemma_pieces_are_parts(rest, separator, k);
                let (a, b) = choose|a: int, b: int|
                    0 <= a <= b <= rest.len() && before[k] == #[trigger] rest.subrange(a, b);
                assert(rest.subrange(a, b) =~= s.subrange(a, b));
            }
        } else if k == before.len() - 1 {
            lemma_pieces_are_parts(rest, separator, k);
            let a = choose|a: int|
                0 <= a <= rest.len() && before[k] == #[trigger] rest.subrange(a, rest.len() as int);
            assert(before[k].push(s.last()) =~= s.subrange(a, n));
        } else {
            lemma_pieces_are_parts(rest, separator, k);
            let (a, b) = choose|a: int, b: int|
                0 <= a <= b <= rest.len() && before[k] == #[trigger] rest.subrange(a, b);
            assert(rest.subrange(a, b) =~= s.subrange(a, b));
        }
    }
}

#[verifier::spinoff_prover]
proof fn lemma_trimmed_is_a_part(s: Seq<u8>)
    ensures
        exists|c: int, d: int|
            0 <= c <= d <= s.len() && text::trimmed_bytes(s) == #[trigger] s.subrange(c, d),
    decreases s.len(),
{
    if s.len() == 0 {
        assert(s.subrange(0, 0) =~= s);
    } else if text::is_ascii_space(s[0]) {
        let t = s.skip(1);
        lemma_trimmed_is_a_part(t);
        let (c, d) = choose|c: int, d: int|
            0 <= c <= d <= t.len() && text::trimmed_bytes(t) == #[trigger] t.subrange(c, d);
        assert(t.subrange(c, d) =~= s.subrange(c + 1, d + 1));
        assert(text::trimmed_bytes(s) == text::trimmed_bytes(t));
        assert(0 <= c + 1 <= d + 1 <= s.len() && text::trimmed_bytes(s) == s.subrange(
            c + 1,
            d + 1,
        ));
    } else if text::is_ascii_space(s.last()) {
        let t = s.drop_last();
        lemma_trimmed_is_a_part(t);
        let (c, d) = choose|c: int, d: int|
            0 <= c <= d <= t.len() && text::trimmed_bytes(t) == #[trigger] t.subrange(c, d);
        assert(t.subrange(c, d) =~= s.subrange(c, d));
        assert(text::trimmed_bytes(s) == text::trimmed_bytes(t));
        assert(0 <= c <= d <= s.len() && text::trimmed_bytes(s) == s.subrange(c, d));
    } else {
        assert(s.subrange(0, s.len() as int) =~= s);
        assert(text::trimmed_bytes(s) == s.subrange(0, s.len() as int));
    }
}

proof fn lemma_a_listed_token_is_an_element(
    value: Seq<u8>,
    before: Seq<u8>,
    token: Seq<u8>,
    after: Seq<u8>,
)
    requires
        value == before + seq![44u8] + (seq![32u8] + token + seq![9u8]) + seq![44u8] + after,
        token.len() > 0,
        forall|i: int| 0 <= i < token.len() ==> 33 <= #[trigger] token[i] < 127 && token[i] != 44,
    ensures
        exists|k: int| 0 <= k < elements(value).len() && #[trigger] elements(value)[k] == token,
{
    let middle = seq![32u8] + token + seq![9u8];
    let left = before + seq![44u8] + middle;
    text::a_split_goes_through_separators(left, after, 44u8);
    text::a_split_goes_through_separators(before, middle, 44u8);
    assert forall|j: int| 0 <= j < middle.len() implies #[trigger] middle[j] != 44u8 by {
        if 0 < j <= token.len() {
            assert(middle[j] == token[j - 1]);
        }
    }
    text::a_piece_holds_no_separator(middle, 44u8, 0, 0);
    let k = text::split(before, 44u8).len() as int;
    assert(text::split(value, 44u8)[k] == middle);
    assert(token.last() == token[token.len() - 1]);
    assert(token[0] >= 33);
    text::trimming_takes_the_blanks(seq![32u8], token, seq![9u8]);
    assert(elements(value)[k] == token);
}

/// A field that `Connection` names goes too: the name may stand anywhere in the list,
/// in any case, with blanks around it.
pub proof fn what_connection_names_goes(
    f: Fields,
    i: int,
    before: Seq<u8>,
    name: Seq<u8>,
    after: Seq<u8>,
)
    requires
        f.contains_key("connection"@),
        0 <= i < f["connection"@].len(),
        f["connection"@][i] == before + seq![44u8] + (seq![32u8] + name + seq![9u8]) + seq![44u8]
            + after,
        0 < name.len() <= 65535,
        forall|j: int|
            0 <= j < name.len() ==> (97 <= #[trigger] name[j] <= 122 || 65 <= name[j] <= 90
                || name[j] == 45),
    ensures
        !end_to_end(f).contains_key(text::lower(header_map::chars_of(name))),
{
    let value = f["connection"@][i];
    lemma_a_listed_token_is_an_element(value, before, name, after);
    let k = choose|k: int| 0 <= k < elements(value).len() && #[trigger] elements(value)[k] == name;
    assert(element_names(elements(value)[k], text::lower(header_map::chars_of(name))));
    assert(value_names(
        header_map::values(f, "connection"@)[i],
        text::lower(header_map::chars_of(name)),
    ));
}

/// A message that asks for an upgrade asks for what its first `Upgrade` says: the
/// `upgrade` token may stand anywhere in `Connection`, in any case. Without a
/// `Connection`, or without an `Upgrade`, nothing is asked for.
pub proof fn an_upgrade_takes_both_fields(
    f: Fields,
    i: int,
    before: Seq<u8>,
    token: Seq<u8>,
    after: Seq<u8>,
)
    ensures
        !f.contains_key("connection"@) ==> upgrade_value(f) is None,
        !f.contains_key("upgrade"@) ==> upgrade_value(f) is None,
        upgrade_value(f) is Some ==> f["upgrade"@].len() > 0 && upgrade_value(f) == Some(
            f["upgrade"@][0],
        ),
        ({
            &&& f.contains_key("connection"@) && 0 <= i < f["connection"@].len()
            &&& f["connection"@][i] == before + seq![44u8] + (seq![32u8] + token + seq![9u8])
                + seq![44u8] + after
            &&& token.len() == 7
            &&& token[0] == 117 || token[0] == 85
            &&& token[1] == 112 || token[1] == 80
            &&& token[2] == 103 || token[2] == 71
            &&& token[3] == 114 || token[3] == 82
            &&& token[4] == 97 || token[4] == 65
            &&& token[5] == 100 || token[5] == 68
            &&& token[6] == 101 || token[6] == 69
            &&& f.contains_key("upgrade"@) && f["upgrade"@].len() > 0
        }) ==> upgrade_value(f) == Some(f["upgrade"@][0]),
{
    reveal_strlit("upgrade");
    if f.contains_key("connection"@) && 0 <= i < f["connection"@].len() && f["connection"@][i]
        == before + seq![44u8] + (seq![32u8] + token + seq![9u8]) + seq![44u8] + after && token.len()
        == 7 && (token[0] == 117 || token[0] == 85) && (token[1] == 112 || token[1] == 80) && (
    token[2] == 103 || token[2] == 71) && (token[3] == 114 || token[3] == 82) && (token[4] == 97
        || token[4] == 65) && (token[5] == 100 || token[5] == 68) && (token[6] == 101 || token[6]
        == 69) {
        let value = f["connection"@][i];
        lemma_a_listed_token_is_an_element(value, before, token, after);
        let k = choose|k: int|
            0 <= k < elements(value).len() && #[trigger] elements(value)[k] == token;
        assert(text::lower_bytes(token) =~= upgrade_token());
        assert(text::lower_bytes(elements(value)[k]) == upgrade_token());
        assert(value_asks_upgrade(header_map::values(f, "connection"@)[i]));
    }
}

/// What is put back for an upgrade: `Connection` with the one token, `Upgrade` with
/// the protocol, and nothing else is touched.
pub proof fn an_upgrade_is_put_back_in_two_fields(f: Fields, protocol: Seq<u8>, name: Seq<char>)
    ensures
        with_upgrade(f, protocol)["connection"@] == seq![
            seq![117u8, 112u8, 103u8, 114u8, 97u8, 100u8, 101u8],
        ],
        with_upgrade(f, protocol)["upgrade"@] == seq![protocol],
        with_upgrade(f, protocol).contains_key("connection"@),
        with_upgrade(f, protocol).contains_key("upgrade"@),
        name != "connection"@ && name != "upgrade"@ ==> {
            &&& with_upgrade(f, protocol).contains_key(name) == f.contains_key(name)
            &&& f.contains_key(name) ==> with_upgrade(f, protocol)[name] == f[name]
        },
{
    reveal_strlit("connection");
    reveal_strlit("upgrade");
    assert("connection"@.len() != "upgrade"@.len());
    assert(upgrade_token() =~= seq![117u8, 112u8, 103u8, 114u8, 97u8, 100u8, 101u8]);
}

proof fn lemma_names_stand_apart()
    ensures
        "x-forwarded-for"@ != "x-forwarded-proto"@,
        "x-forwarded-for"@ != "x-forwarded-host"@,
        "x-forwarded-for"@ != "x-real-ip"@,
        "x-forwarded-proto"@ != "x-forwarded-host"@,
        "x-forwarded-proto"@ != "x-real-ip"@,
        "x-forwarded-host"@ != "x-real-ip"@,
{
    reveal_strlit("x-forwarded-for");
    reveal_strlit("x-forwarded-proto");
    reveal_strlit("x-forwarded-host");
    reveal_strlit("x-real-ip");
    assert("x-forwarded-for"@.len() == 15 && "x-forwarded-proto"@.len() == 17);
    assert("x-forwarded-host"@.len() == 16 && "x-real-ip"@.len() == 9);
}

/// Each forwarding field says its own thing: `x-real-ip` is the client alone,
/// `x-forwarded-proto` the scheme, `x-forwarded-host` the host where the client named
/// one, and `x-forwarded-for` ends in the client, with what came before a comma and a
/// blank away.
pub proof fn each_forwarding_field_says_its_own(
    f: Fields,
    client: net::IpView,
    scheme: Seq<char>,
    authority: Option<Seq<u8>>,
    earlier: Seq<u8>,
)
    ensures
        ({
            let out = forwarded(f, client, scheme, authority);
            let address = header_map::ascii_bytes(net::ip_text(client));
            &&& out["x-real-ip"@] == seq![address]
            &&& out["x-forwarded-proto"@] == seq![header_map::ascii_bytes(scheme)]
            &&& authority matches Some(host) ==> out["x-forwarded-host"@] == seq![host]
            &&& authority is None ==> header_map::values(out, "x-forwarded-host"@)
                == header_map::values(f, "x-forwarded-host"@)
            &&& !f.contains_key("x-forwarded-for"@) ==> out["x-forwarded-for"@] == seq![address]
            &&& f.contains_key("x-forwarded-for"@) && f["x-forwarded-for"@] == seq![earlier]
                && header_map::is_value(earlier) ==> out["x-forwarded-for"@] == seq![
                earlier + seq![44u8, 32u8] + address,
            ]
            &&& out.contains_key("x-real-ip"@) && out.contains_key("x-forwarded-proto"@)
        }),
{
    lemma_names_stand_apart();
    let out = forwarded(f, client, scheme, authority);
    let address = header_map::ascii_bytes(net::ip_text(client));
    lemma_address_is_a_value(client);
    if f.contains_key("x-forwarded-for"@) && f["x-forwarded-for"@] == seq![earlier]
        && header_map::is_value(earlier) {
        let list = header_map::values(f, X_FORWARDED_FOR@);
        reveal_with_fuel(joined, 2);
        assert(list.drop_last() =~= Seq::empty());
        assert(joined(list) == earlier);
        let all = earlier + seq![44u8, 32u8] + address;
        assert(trail(f, address) =~= all);
        assert forall|i: int| 0 <= i < all.len() implies header_map::is_value_byte(
            #[trigger] all[i],
        ) by {
            if i < earlier.len() {
                assert(all[i] == earlier[i]);
            } else if i >= earlier.len() + 2 {
                assert(all[i] == address[i - earlier.len() - 2]);
            }
        }
    }
}

/// The elements of several values, one after the other.
pub open spec fn all_elements(list: Seq<Seq<u8>>) -> Seq<Seq<u8>>
    decreases list.len(),
{
    if list.len() == 0 {
        Seq::empty()
    } else {
        all_elements(list.drop_last()) + elements(list.last())
    }
}

/// The trail lists every hop that any of the client's fields listed, in order, and
/// then the client.
pub proof fn the_trail_lists_every_hop(f: Fields, client: Seq<u8>)
    requires
        f.contains_key("x-forwarded-for"@),
        f["x-forwarded-for"@].len() > 0,
        forall|i: int|
            0 <= i < f["x-forwarded-for"@].len() ==> (#[trigger] f["x-forwarded-for"@][i]).len() > 0,
        client.len() > 0,
        forall|i: int|
            0 <= i < client.len() ==> 33 <= #[trigger] client[i] < 127 && client[i] != 44,
    ensures
        elements(trail(f, client)) == all_elements(f["x-forwarded-for"@]) + seq![client],
{
    let list = f["x-forwarded-for"@];
    lemma_joined_elements(list);
    lemma_elements_go_on(joined(list), client);
    lemma_own_element(client);
    assert(trail(f, client) =~= joined(list) + seq![44u8] + (seq![32u8] + client));
}

proof fn lemma_own_element(client: Seq<u8>)
    requires
        client.len() > 0,
        forall|i: int|
            0 <= i < client.len() ==> 33 <= #[trigger] client[i] < 127 && client[i] != 44,
    ensures
        elements(client) == seq![client],
{
    text::a_piece_holds_no_separator(client, 44u8, 0, 0);
    assert(client[0] >= 33);
    assert(client.last() == client[client.len() - 1]);
    text::trimming_takes_the_blanks(Seq::empty(), client, Seq::empty());
    assert(Seq::<u8>::empty() + client + Seq::<u8>::empty() =~= client);
    assert(elements(client) =~= seq![client]);
}

proof fn lemma_elements_go_on(a: Seq<u8>, b: Seq<u8>)
    ensures
        elements(a + seq![44u8] + (seq![32u8] + b)) == elements(a) + elements(b),
{
    text::a_split_goes_through_separators(a, seq![32u8] + b, 44u8);
    lemma_leading_blank(b);
    assert(elements(a + seq![44u8] + (seq![32u8] + b)) =~= elements(a) + elements(
        seq![32u8] + b,
    ));
}

proof fn lemma_leading_blank(b: Seq<u8>)
    ensures
        elements(seq![32u8] + b) == elements(b),
{
    lemma_split_behind_a_blank(b);
    let wide = text::split(seq![32u8] + b, 44u8);
    let plain = text::split(b, 44u8);
    assert forall|k: int| 0 <= k < plain.len() implies text::trimmed_bytes(#[trigger] wide[k])
        == text::trimmed_bytes(plain[k]) by {
        if k == 0 {
            assert(wide[0].skip(1) =~= plain[0]);
        }
    }
    assert(elements(seq![32u8] + b) =~= elements(b));
}

proof fn lemma_split_behind_a_blank(b: Seq<u8>)
    ensures
        ({
            let wide = text::split(seq![32u8] + b, 44u8);
            let plain = text::split(b, 44u8);
            &&& wide.len() == plain.len() >= 1
            &&& wide[0] == seq![32u8] + plain[0]
            &&& forall|k: int| 0 < k < plain.len() ==> #[trigger] wide[k] == plain[k]
        }),
    decreases b.len(),
{
    let s = seq![32u8] + b;
    if b.len() == 0 {
        text::a_piece_holds_no_separator(s, 44u8, 0, 0);
        assert(b =~= Seq::<u8>::empty());
        assert(s =~= seq![32u8] + Seq::<u8>::empty());
    } else {
        lemma_split_behind_a_blank(b.drop_last());
        assert(s.drop_last() =~= seq![32u8] + b.drop_last());
        let before = text::split(b.drop_last(), 44u8);
        let wider = text::split(s.drop_last(), 44u8);
        assert(s.last() == b.last());
        if b.last() != 44u8 && before.len() == 1 {
            assert(wider.last().push(s.last()) =~= seq![32u8] + before.last().push(b.last()));
        }
    }
}

proof fn lemma_joined_elements(list: Seq<Seq<u8>>)
    requires
        list.len() > 0,
        forall|i: int| 0 <= i < list.len() ==> (#[trigger] list[i]).len() > 0,
    ensures
        joined(list).len() > 0,
        elements(joined(list)) == all_elements(list),
    decreases list.len(),
{
    let rest = list.drop_last();
    assert(list.last() == list[list.len() - 1]);
    if rest.len() > 0 {
        assert forall|i: int| 0 <= i < rest.len() implies (#[trigger] rest[i]).len() > 0 by {
            assert(rest[i] == list[i]);
        }
        lemma_joined_elements(rest);
        lemma_elements_go_on(joined(rest), list.last());
        assert(joined(list) =~= joined(rest) + seq![44u8] + (seq![32u8] + list.last()));
    } else {
        assert(joined(rest) =~= Seq::empty());
        assert(all_elements(rest) =~= Seq::empty());
        assert(all_elements(list) =~= elements(list.last()));
    }
}

/// A made-up id is thirty-two small hexadecimal digits, and two words of the generator
/// spell no id of two others.
pub proof fn a_fresh_id_is_two_words(state: u64, other: u64, i: int)
    requires
        0 <= i < 32,
    ensures
        fresh_id(state).len() == 32,
        48 <= fresh_id(state)[i] <= 57 || 97 <= fresh_id(state)[i] <= 102,
        fresh_id(state) == fresh_id(other) ==> rng::step(state) == rng::step(other),
{
    rng::lemma_words_are_hexadecimal(rng::step(state));
    rng::lemma_words_are_hexadecimal(rng::step(rng::step(state)));
    rng::lemma_words_are_hexadecimal(rng::step(other));
    if fresh_id(state) == fresh_id(other) {
        assert(fresh_id(state).take(16) =~= rng::hex_word(rng::step(state)));
        assert(fresh_id(other).take(16) =~= rng::hex_word(rng::step(other)));
        rng::lemma_words_read_back(rng::step(state), rng::step(other));
    }
}

/// Looking for a cookie goes through the pairs in order: what stands in front of a
/// semicolon is looked at first, and what follows only if the cookie is not there.
pub proof fn cookies_are_looked_at_in_order(a: Seq<u8>, b: Seq<u8>, name: Seq<char>)
    requires
        header_map::all_visible(a),
        header_map::all_visible(b),
    ensures
        cookie_in(a + seq![59u8] + b, name) == match cookie_in(a, name) {
            Some(value) => Some(value),
            None => cookie_in(b, name),
        },
        first_cookie(seq![a, b], name) == match cookie_in(a, name) {
            Some(value) => Some(value),
            None => cookie_in(b, name),
        },
        first_cookie(Seq::empty(), name) is None,
{
    let all = a + seq![59u8] + b;
    assert forall|i: int| 0 <= i < all.len() implies header_map::is_visible(#[trigger] all[i]) by {
        if i < a.len() {
            assert(all[i] == a[i]);
        } else if i > a.len() {
            assert(all[i] == b[i - a.len() - 1]);
        }
    }
    let (x, y) = (header_map::chars_of(a), header_map::chars_of(b));
    assert(header_map::chars_of(all) =~= x + seq![';'] + y);
    text::a_split_goes_through_separators(x, y, ';');
    lemma_first_pair_goes_on(text::split(x, ';'), text::split(y, ';'), name);
    reveal_with_fuel(first_cookie, 3);
    assert(seq![a, b].skip(1) =~= seq![b]);
    assert(seq![b].skip(1) =~= Seq::<Seq<u8>>::empty());
}

proof fn lemma_first_pair_goes_on(a: Seq<Seq<char>>, b: Seq<Seq<char>>, name: Seq<char>)
    ensures
        first_pair(a + b, name) == match first_pair(a, name) {
            Some(value) => Some(value),
            None => first_pair(b, name),
        },
    decreases a.len(),
{
    if a.len() == 0 {
        assert(a + b =~= b);
    } else {
        assert((a + b)[0] == a[0]);
        assert((a + b).skip(1) =~= a.skip(1) + b);
        lemma_first_pair_goes_on(a.skip(1), b, name);
    }
}

/// A pair carries the cookie of exactly its own name, case and all, with the value
/// that stands behind the first equals sign; a pair without one carries none.
pub proof fn a_pair_carries_its_own_cookie(key: Seq<char>, value: Seq<char>, name: Seq<char>)
    requires
        key.len() > 0,
        value.len() > 0,
        forall|i: int| 0 <= i < key.len() ==> '!' <= #[trigger] key[i] <= '~' && key[i] != '=' && key[i]
            != ';',
        forall|i: int| 0 <= i < value.len() ==> '!' <= #[trigger] value[i] <= '~' && value[i] != ';',
    ensures
        cookie_in(header_map::ascii_bytes(seq![' '] + key + seq!['='] + value), name) == if name
            == key {
            Some(value)
        } else {
            None
        },
        cookie_in(header_map::ascii_bytes(key), name) is None,
{
    let pair = seq![' '] + key + seq!['='] + value;
    assert forall|i: int| 0 <= i < pair.len() implies ' ' <= #[trigger] pair[i] <= '~' && pair[i]
        != ';' by {
        if 0 < i <= key.len() {
            assert(pair[i] == key[i - 1]);
        } else if i > key.len() + 1 {
            assert(pair[i] == value[i - key.len() - 2]);
        }
    }
    lemma_ascii_and_back(pair);
    lemma_ascii_and_back(key);
    text::a_piece_holds_no_separator(pair, ';', 0, 0);
    text::a_piece_holds_no_separator(key, ';', 0, 0);
    let at = key.len() + 1;
    assert(pair[at as int] == '=');
    assert forall|j: int| 0 <= j < at implies pair[j] != '=' by {
        if j > 0 {
            assert(pair[j] == key[j - 1]);
        }
    }
    text::lemma_first_index(pair, '=', at as int);
    text::lemma_first_index(key, '=', key.len() as int);
    assert(key.last() == key[key.len() - 1]);
    assert(value.last() == value[value.len() - 1]);
    assert(key[0] >= '!' && value[0] >= '!');
    text::trimming_takes_the_typed_blanks(seq![' '], key, Seq::empty());
    text::trimming_takes_the_typed_blanks(Seq::empty(), value, Seq::empty());
    assert(pair.take(at as int) =~= seq![' '] + key + Seq::empty());
    assert(pair.skip((at + 1) as int) =~= Seq::empty() + value + Seq::empty());
    reveal_with_fuel(first_pair, 2);
    assert(seq![pair].skip(1) =~= Seq::empty());
    assert(seq![key].skip(1) =~= Seq::empty());
}

proof fn lemma_ascii_and_back(s: Seq<char>)
    requires
        forall|i: int| 0 <= i < s.len() ==> ' ' <= #[trigger] s[i] <= '~',
    ensures
        header_map::chars_of(header_map::ascii_bytes(s)) == s,
        header_map::all_visible(header_map::ascii_bytes(s)),
{
    let b = header_map::ascii_bytes(s);
    assert forall|i: int| 0 <= i < b.len() implies header_map::is_visible(#[trigger] b[i]) by {
        assert(b[i] == s[i] as u8);
    }
    assert(header_map::chars_of(b) =~= s);
}

/// An address is written in digits, small letters up to `f`, dots and colons.
pub proof fn an_address_is_written_plainly(client: net::IpView, i: int)
    requires
        0 <= i < net::ip_text(client).len(),
    ensures
        ({
            let c = net::ip_text(client)[i];
            '0' <= c <= '9' || 'a' <= c <= 'f' || c == '.' || c == ':' || c == '/'
        }),
{
    lemma_address_is_text(client);
    assert(is_address_char(net::ip_text(client)[i]));
}

} // verus!
