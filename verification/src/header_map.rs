//! Header fields, from the `http` crate.
//!
//! A `HeaderMap` is modelled as a map from lower-case field names to the values
//! of that field, in the order they were received. Everything here is a
//! statement about the `http` crate: what its types hold, and what the few
//! operations this library uses do to them.
use http::header::{HeaderName, HeaderValue};
use http::HeaderMap;
use vstd::prelude::*;
use crate::text;

verus! {

/// A collection of header fields.
#[verifier::external_type_specification]
#[verifier::external_body]
#[verifier::reject_recursive_types(T)]
pub struct ExHeaderMap<T>(http::HeaderMap<T>);

/// The value of a header field.
#[verifier::external_type_specification]
#[verifier::external_body]
pub struct ExHeaderValue(http::HeaderValue);

/// Why some bytes are not a header value.
#[verifier::external_type_specification]
#[verifier::external_body]
pub struct ExInvalidHeaderValue(http::header::InvalidHeaderValue);

/// Why a header value is not text.
#[verifier::external_type_specification]
#[verifier::external_body]
pub struct ExToStrError(http::header::ToStrError);

/// The fields a map holds: for each lower-case name, its values in order. A name
/// that is there has at least one value.
pub uninterp spec fn fields(map: http::HeaderMap) -> Map<Seq<char>, Seq<Seq<u8>>>;

/// The bytes a value holds.
pub uninterp spec fn value_bytes(value: http::HeaderValue) -> Seq<u8>;

/// Whether a byte may stand in a header value.
pub open spec fn is_value_byte(b: u8) -> bool {
    b >= 32 && b != 127 || b == 9
}

/// Whether some bytes are a header value.
pub open spec fn is_value(s: Seq<u8>) -> bool {
    forall|i: int| 0 <= i < s.len() ==> is_value_byte(#[trigger] s[i])
}

/// Whether a byte is visible ASCII, a space or a tab.
pub open spec fn is_visible(b: u8) -> bool {
    32 <= b < 127 || b == 9
}

/// Whether some bytes are all visible.
pub open spec fn all_visible(s: Seq<u8>) -> bool {
    forall|i: int| 0 <= i < s.len() ==> is_visible(#[trigger] s[i])
}

/// Whether some characters are all visible ASCII.
pub open spec fn all_visible_chars(s: Seq<char>) -> bool {
    forall|i: int| 0 <= i < s.len() ==> (32 <= #[trigger] (s[i] as u32) < 127 || s[i] as u32 == 9)
}

/// Whether a byte may stand in a field name.
pub open spec fn is_name_byte(b: u8) -> bool {
    ||| 48 <= b <= 57
    ||| 65 <= b <= 90
    ||| 97 <= b <= 122
    ||| b == 33
    ||| 35 <= b <= 39
    ||| b == 42
    ||| b == 43
    ||| b == 45
    ||| b == 46
    ||| b == 94
    ||| b == 95
    ||| b == 96
    ||| b == 124
    ||| b == 126
}

/// Whether some bytes are a field name.
pub open spec fn is_name(s: Seq<u8>) -> bool {
    1 <= s.len() <= 65535 && forall|i: int| 0 <= i < s.len() ==> is_name_byte(#[trigger] s[i])
}

/// Whether some text, in UTF-8, is a field name. Only such a text is ever looked up:
/// what the `http` crate makes of another depends on its length.
pub open spec fn spells_name(name: Seq<char>) -> bool {
    is_name(vstd::utf8::encode_utf8(name))
}

/// Whether some text is made of small letters, digits and hyphens, as the names
/// written in this library are.
pub open spec fn is_plain_name(name: Seq<char>) -> bool {
    0 < name.len() <= 64 && forall|i: int|
        0 <= i < name.len() ==> ('a' <= #[trigger] name[i] <= 'z' || '0' <= name[i] <= '9'
            || name[i] == '-')
}

/// A plain name is a field name, in lower case.
pub proof fn lemma_plain_name(name: Seq<char>)
    requires
        is_plain_name(name),
    ensures
        spells_name(name),
        text::lower(name) == name,
{
    vstd::utf8::is_ascii_chars_encode_utf8(name);
    let bytes = vstd::utf8::encode_utf8(name);
    assert forall|i: int| 0 <= i < bytes.len() implies is_name_byte(#[trigger] bytes[i]) by {
        assert(bytes[i] == name[i] as u8);
    }
    assert(text::lower(name) =~= name);
}

/// A name that was read from bytes is one in lower case too.
pub proof fn lemma_read_name(src: Seq<u8>)
    requires
        is_name(src),
    ensures
        spells_name(text::lower(chars_of(src))),
{
    let name = text::lower(chars_of(src));
    assert forall|i: int| 0 <= i < name.len() implies '\0' <= #[trigger] name[i] <= '\u{7f}' by {
        assert(is_name_byte(src[i]));
        assert(chars_of(src)[i] == src[i] as char);
    }
    vstd::utf8::is_ascii_chars_encode_utf8(name);
    let bytes = vstd::utf8::encode_utf8(name);
    assert forall|i: int| 0 <= i < bytes.len() implies is_name_byte(#[trigger] bytes[i]) by {
        assert(is_name_byte(src[i]));
        assert(bytes[i] == name[i] as u8);
    }
}

/// Bytes as the characters with the same numbers.
pub open spec fn chars_of(s: Seq<u8>) -> Seq<char> {
    s.map_values(|b: u8| b as char)
}

/// ASCII characters as bytes. It says nothing of other characters.
pub open spec fn ascii_bytes(s: Seq<char>) -> Seq<u8> {
    s.map_values(|c: char| c as u8)
}

/// The values of a field, none when it is not there.
pub open spec fn values(f: Map<Seq<char>, Seq<Seq<u8>>>, name: Seq<char>) -> Seq<Seq<u8>> {
    if f.contains_key(name) {
        f[name]
    } else {
        Seq::empty()
    }
}

/// The first value of a field.
pub open spec fn first_value(f: Map<Seq<char>, Seq<Seq<u8>>>, name: Seq<char>) -> Option<Seq<u8>> {
    let list = values(f, name);
    if list.len() > 0 {
        Some(list[0])
    } else {
        None
    }
}

/// The bytes of an optional value.
pub open spec fn option_bytes(value: Option<HeaderValue>) -> Option<Seq<u8>> {
    match value {
        Some(v) => Some(value_bytes(v)),
        None => None,
    }
}

/// The bytes of several values.
pub open spec fn list_bytes(list: Seq<HeaderValue>) -> Seq<Seq<u8>> {
    list.map_values(|v: HeaderValue| value_bytes(v))
}

/// Whether `n` more names fit in a map.
///
/// A `HeaderMap` holds its names in a table that grows to at most 2^15 slots and
/// panics rather than grow further. Below this many names it never has to,
/// whatever the names hash to.
pub open spec fn has_room(map: http::HeaderMap, n: nat) -> bool {
    fields(map).dom().finite() && fields(map).dom().len() + n <= 6553
}

/// Is this how many names there are?
pub open spec fn counts(names: Set<Seq<char>>, n: nat) -> bool {
    names.finite() && names.len() == n
}

/// `HeaderMap::keys_len`: how many names a map holds.
#[verifier::external_body]
fn keys_len(map: &HeaderMap) -> (r: usize)
    ensures
        counts(fields(*map).dom(), r as nat),
{
    map.keys_len()
}

/// Says whether `n` more names fit in a map.
pub fn fits(map: &HeaderMap, n: usize) -> (r: bool)
    ensures
        r == has_room(*map, n as nat),
{
    let held: usize = keys_len(map);
    held <= 6553 && n <= 6553 - held
}

/// `HeaderMap::get`, cloned: the first value of a field, whose name may be given in
/// any case.
#[verifier::external_body]
pub(crate) fn get(map: &HeaderMap, name: &str) -> (r: Option<HeaderValue>)
    requires
        spells_name(name@),
    ensures
        option_bytes(r) == first_value(fields(*map), text::lower(name@)),
{
    map.get(name).cloned()
}

/// `HeaderMap::get_all`, collected: every value of a field, in order. The name may
/// be given in any case.
#[verifier::external_body]
pub(crate) fn get_all(map: &HeaderMap, name: &str) -> (r: Vec<HeaderValue>)
    requires
        spells_name(name@),
    ensures
        list_bytes(r@) == values(fields(*map), text::lower(name@)),
{
    map.get_all(name).iter().cloned().collect()
}

/// `HeaderMap::contains_key`: whether a field is there. The name may be given in any
/// case.
#[verifier::external_body]
pub(crate) fn contains_key(map: &HeaderMap, name: &str) -> (r: bool)
    requires
        spells_name(name@),
    ensures
        r == fields(*map).contains_key(text::lower(name@)),
{
    map.contains_key(name)
}

/// `HeaderMap::remove`: takes a field out with all its values, and gives the first
/// of them. The name may be given in any case.
#[verifier::external_body]
pub(crate) fn remove(map: &mut HeaderMap, name: &str) -> (r: Option<HeaderValue>)
    requires
        spells_name(name@),
    ensures
        option_bytes(r) == first_value(fields(*old(map)), text::lower(name@)),
        fields(*final(map)) == fields(*old(map)).remove(text::lower(name@)),
{
    map.remove(name)
}

/// `HeaderMap::insert`: sets a field to one value, whatever it held before.
///
/// It panics when the name is not a lower-case field name or when the map cannot
/// grow, which the precondition rules out.
#[verifier::external_body]
pub(crate) fn insert(map: &mut HeaderMap, name: &'static str, value: HeaderValue)
    requires
        spells_name(name@),
        text::lower(name@) == name@,
        has_room(*old(map), 1),
    ensures
        fields(*final(map)) == fields(*old(map)).insert(name@, seq![value_bytes(value)]),
{
    map.insert(name, value);
}

/// `HeaderName::from_bytes`: the field name that some bytes spell, in lower case.
#[verifier::external_body]
pub(crate) fn name_from_bytes(src: &[u8]) -> (r: Option<String>)
    ensures
        match r {
            Some(name) => is_name(src@) && name@ == text::lower(chars_of(src@)),
            None => !is_name(src@),
        },
{
    HeaderName::from_bytes(src).ok().map(|name| name.as_str().to_owned())
}

/// `HeaderValue::from_bytes`: the bytes as a value, when they may stand in one.
pub assume_specification[ http::HeaderValue::from_bytes ](src: &[u8]) -> (r: Result<
    HeaderValue,
    http::header::InvalidHeaderValue,
>)
    ensures
        match r {
            Ok(value) => is_value(src@) && value_bytes(value) == src@,
            Err(_) => !is_value(src@),
        },
;

/// `HeaderValue::from_static`: visible ASCII as a value. It panics on anything
/// else, which the precondition rules out.
pub assume_specification[ http::HeaderValue::from_static ](src: &'static str) -> (r: HeaderValue)
    requires
        all_visible_chars(src@),
    ensures
        value_bytes(r) == ascii_bytes(src@),
;

/// `HeaderValue::as_bytes`: the bytes of the value.
pub assume_specification[ http::HeaderValue::as_bytes ](value: &HeaderValue) -> (r: &[u8])
    ensures
        r@ == value_bytes(*value),
;

/// `HeaderValue::from_str`: the text in UTF-8 as a value, when all its bytes may
/// stand in one.
pub assume_specification[ http::HeaderValue::from_str ](src: &str) -> (r: Result<
    HeaderValue,
    http::header::InvalidHeaderValue,
>)
    ensures
        match r {
            Ok(value) => is_value(vstd::utf8::encode_utf8(src@)) && value_bytes(value)
                == vstd::utf8::encode_utf8(src@),
            Err(_) => !is_value(vstd::utf8::encode_utf8(src@)),
        },
;

/// `HeaderValue::to_str`: the value as text, when all of it is visible ASCII.
pub assume_specification[ http::HeaderValue::to_str ](value: &HeaderValue) -> (r: Result<
    &str,
    http::header::ToStrError,
>)
    ensures
        match r {
            Ok(s) => all_visible(value_bytes(*value)) && s@ == chars_of(value_bytes(*value)),
            Err(_) => !all_visible(value_bytes(*value)),
        },
;

/// `HeaderValue::clone`: the same value again.
pub assume_specification[ <http::HeaderValue as Clone>::clone ](value: &HeaderValue) -> (r: HeaderValue)
    ensures
        value_bytes(r) == value_bytes(*value),
;

} // verus!
