//! Certificate storage, certificate selection, and what ALPN offers.
//!
//! The router answers which certificate serves a name with an opaque handle, a
//! number. This module holds the other half: the keys those numbers stand for,
//! and the join of the two. The split lets certificates and routes be published
//! independently of one another.
use rustls::sign::CertifiedKey;
use rustls_pki_types::{
    CertificateDer, PrivateKeyDer, PrivatePkcs1KeyDer, PrivatePkcs8KeyDer, PrivateSec1KeyDer,
};
use std::collections::HashMap;
use std::sync::Arc;
use vstd::prelude::*;
use crate::text;

verus! {

broadcast use vstd::std_specs::hash::group_hash_axioms;

/// A certificate chain and the key that signs for it.
#[verifier::external_type_specification]
#[verifier::external_body]
pub struct ExCertifiedKey(rustls::sign::CertifiedKey);

/// Why `rustls` refused something.
#[verifier::external_type_specification]
#[verifier::external_body]
pub struct ExRustlsError(rustls::Error);

/// How a private key is encoded.
#[derive(Debug, Clone, Copy, PartialEq, Eq, Structural)]
pub enum KeyKind {
    Pkcs1,
    Sec1,
    Pkcs8,
}

/// A private key in DER.
#[derive(Debug)]
pub struct PrivateKey {
    pub kind: KeyKind,
    pub der: Vec<u8>,
}

/// The chain a pair was made of, leaf first and in DER.
pub uninterp spec fn pair_chain(pair: rustls::sign::CertifiedKey) -> Seq<Seq<u8>>;

/// The private key a pair was made of: how it is encoded, and its DER.
pub uninterp spec fn pair_key(pair: rustls::sign::CertifiedKey) -> (KeyKind, Seq<u8>);

/// Is this a pair of a chain and a key? There are many: loading a key may draw on
/// chance, so that no two need be the same.
pub open spec fn pairs(pair: CertifiedKey, chain: Seq<Seq<u8>>, kind: KeyKind, der: Seq<u8>) -> bool {
    pair_chain(pair) == chain && pair_key(pair) == (kind, der)
}

/// ALPN protocols offered, most preferred first.
pub const ALPN: [&'static str; 2] = ["h2", "http/1.1"];

/// ALPN offered by a listener that speaks HTTP/1.1 and nothing else. Offering
/// `h2` there would be a promise the listener cannot keep.
pub const ALPN_H1: [&'static str; 1] = ["http/1.1"];

/// ALPN offered over QUIC: HTTP/3 alone.
pub const ALPN_H3: &'static str = "h3";

/// Keys by the router's handle id.
pub type CertKeys = HashMap<u64, Arc<CertifiedKey>>;

/// `Arc::clone`: another handle on the same value.
#[verifier::external_body]
pub(crate) fn share<T>(value: &Arc<T>) -> (r: Arc<T>)
    ensures
        r == *value,
{
    Arc::clone(value)
}

/// The key a map holds for an id.
pub open spec fn key_for(keys: Map<u64, Arc<CertifiedKey>>, id: u64) -> Option<Arc<CertifiedKey>> {
    if keys.contains_key(id) {
        Some(keys[id])
    } else {
        None
    }
}

/// The key of a handshake for which the router chose a handle, or none.
pub open spec fn key_of(keys: Map<u64, Arc<CertifiedKey>>, handle: Option<u64>) -> Option<
    Arc<CertifiedKey>,
> {
    match handle {
        Some(id) => key_for(keys, id),
        None => None,
    }
}

/// A handshake gets the key of the handle that was chosen for it or none at all: it
/// never gets a key that stands under another handle.
pub proof fn a_handshake_gets_its_own_key(
    keys: Map<u64, Arc<CertifiedKey>>,
    handle: Option<u64>,
)
    ensures
        handle is None ==> key_of(keys, handle) is None,
        handle matches Some(id) ==> (key_of(keys, handle) is Some <==> keys.contains_key(id)),
        handle matches Some(id) ==> (keys.contains_key(id) ==> key_of(keys, handle) == Some(
            keys[id],
        )),
{
}

/// Certificates and private keys, keyed by the router's opaque handle id.
///
/// Published as a whole map rather than changed in place, so a reader always
/// holds a consistent set.
#[derive(Debug)]
pub struct CertStore {
    inner: CertKeys,
}

impl View for CertStore {
    type V = Map<u64, Arc<CertifiedKey>>;

    closed spec fn view(&self) -> Map<u64, Arc<CertifiedKey>> {
        self.inner@
    }
}

impl Default for CertStore {
    fn default() -> (r: CertStore)
        ensures
            r@ == Map::<u64, Arc<CertifiedKey>>::empty(),
    {
        CertStore { inner: HashMap::new() }
    }
}

impl CertStore {
    /// An empty store. A TLS listener over an empty store fails every handshake,
    /// which is right before any certificate has been loaded.
    pub fn new() -> (r: CertStore)
        ensures
            r@ == Map::<u64, Arc<CertifiedKey>>::empty(),
    {
        CertStore { inner: HashMap::new() }
    }

    /// A store that holds `certs` from the start.
    pub fn with_certs(certs: CertKeys) -> (r: CertStore)
        ensures
            r@ == certs@,
    {
        CertStore { inner: certs }
    }

    /// Replaces the entire set of certificates.
    pub fn publish(&mut self, certs: CertKeys)
        ensures
            final(self)@ == certs@,
    {
        self.inner = certs;
    }

    /// The set of certificates held, as a map of its own.
    pub fn snapshot(&self) -> (r: CertKeys)
        ensures
            r@ == self@,
    {
        self.inner.clone()
    }

    /// The certificate registered for `id`.
    pub fn get(&self, id: u64) -> (r: Option<Arc<CertifiedKey>>)
        ensures
            r == key_for(self@, id),
    {
        match self.inner.get(&id) {
            Some(key) => Some(share(key)),
            None => None,
        }
    }

    /// Number of certificates held.
    pub fn len(&self) -> (r: usize)
        ensures
            r == self@.dom().len(),
    {
        self.inner.len()
    }

    /// Is the store empty?
    pub fn is_empty(&self) -> (r: bool)
        ensures
            r == (self@ == Map::<u64, Arc<CertifiedKey>>::empty()),
    {
        let empty = self.inner.is_empty();
        proof {
            if self@.is_empty() {
                assert(self@ =~= Map::<u64, Arc<CertifiedKey>>::empty());
            }
        }
        empty
    }

    /// The key a handshake gets: the one for the handle the router chose, and
    /// none when the router chose no handle or the store does not hold it. A
    /// handshake fails rather than serve another name's certificate.
    pub fn resolve(&self, handle: Option<u64>) -> (r: Option<Arc<CertifiedKey>>)
        ensures
            r == match handle {
                Some(id) => key_for(self@, id),
                None => None,
            },
            r == key_of(self@, handle),
    {
        match handle {
            Some(id) => self.get(id),
            None => None,
        }
    }
}

/// `CertifiedKey::from_der` with the `ring` provider: the pair, when the provider
/// can load the key and nothing shows that it belongs to another certificate.
///
/// A pair that comes is made of this chain and this key. Whether one comes is left
/// unsaid: for some kinds of key the provider draws random bytes while it loads
/// the key, keeps them in the pair, and refuses when there are none to be had.
#[verifier::external_body]
pub fn certified_key(chain: Vec<Vec<u8>>, key: PrivateKey) -> (r: Result<CertifiedKey, rustls::Error>)
    ensures
        r matches Ok(pair) ==> pair_chain(pair) == text::views(chain@) && pair_key(pair) == (
            key.kind,
            key.der@,
        ),
{
    let chain = chain.into_iter().map(CertificateDer::from).collect();
    let key = match key.kind {
        KeyKind::Pkcs1 => PrivateKeyDer::Pkcs1(PrivatePkcs1KeyDer::from(key.der)),
        KeyKind::Sec1 => PrivateKeyDer::Sec1(PrivateSec1KeyDer::from(key.der)),
        KeyKind::Pkcs8 => PrivateKeyDer::Pkcs8(PrivatePkcs8KeyDer::from(key.der)),
    };
    CertifiedKey::from_der(chain, key, &rustls::crypto::ring::default_provider())
}

/// The name the router is asked about. A client that sent none is asked about as
/// the empty name, for which the router answers with the default certificate.
pub fn requested_name(server_name: Option<String>) -> (r: String)
    ensures
        r@ == match server_name {
            Some(name) => name@,
            None => Seq::<char>::empty(),
        },
{
    match server_name {
        Some(name) => name,
        None => String::new(),
    }
}

/// The TCP and QUIC listeners a TLS configuration is built for.
#[derive(Debug, Clone, Copy, PartialEq, Eq, Structural)]
pub enum Lane {
    /// HTTP/2 and HTTP/1.1 over TCP.
    Full,
    /// HTTP/1.1 alone over TCP.
    Http1,
    /// HTTP/3 over QUIC.
    Quic,
}

/// The contents of a list of literals.
pub open spec fn literals(v: Seq<&'static str>) -> Seq<Seq<char>> {
    v.map_values(|x: &'static str| x@)
}

/// What a listener offers over ALPN, most preferred first.
pub open spec fn offered(lane: Lane) -> Seq<Seq<char>> {
    match lane {
        Lane::Full => seq![ALPN@[0]@, ALPN@[1]@],
        Lane::Http1 => seq![ALPN_H1@[0]@],
        Lane::Quic => seq![ALPN_H3@],
    }
}

/// Gives the names a listener puts in its ALPN list.
pub fn alpn(lane: Lane) -> (r: Vec<&'static str>)
    ensures
        literals(r@) == offered(lane),
{
    let mut names: Vec<&'static str> = Vec::new();
    match lane {
        Lane::Full => {
            names.push(ALPN[0]);
            names.push(ALPN[1]);
        },
        Lane::Http1 => {
            names.push(ALPN_H1[0]);
        },
        Lane::Quic => {
            names.push(ALPN_H3);
        },
    }
    assert(literals(names@) =~= offered(lane));
    names
}

/// What a listener offers is what it can speak: HTTP/2 is offered on the full
/// lane alone, HTTP/3 on the QUIC lane alone, and the full lane prefers HTTP/2.
pub proof fn a_listener_offers_what_it_speaks(lane: Lane)
    ensures
        offered(lane).contains("h2"@) <==> lane is Full,
        offered(lane).contains("h3"@) <==> lane is Quic,
        offered(lane).contains("http/1.1"@) <==> !(lane is Quic),
        lane is Full ==> offered(lane)[0] == "h2"@,
{
    reveal_strlit("h2");
    reveal_strlit("h3");
    reveal_strlit("http/1.1");
    assert("h2"@[1] == '2');
    assert("h3"@[1] == '3');
    let all = offered(lane);
    assert(all[0] == all.first());
    if lane is Full {
        assert(all[1] == "http/1.1"@);
    }
}

/// A key that is put under an id is the key for that id, and for no other.
pub proof fn a_key_serves_its_own_id(
    keys: Map<u64, Arc<CertifiedKey>>,
    key: Arc<CertifiedKey>,
    id: u64,
    other: u64,
)
    ensures
        key_for(keys.insert(id, key), id) == Some(key),
        other != id ==> key_for(keys.insert(id, key), other) == key_for(keys, other),
        key_for(keys.remove(id), id) is None,
        key_for(Map::empty(), id) is None,
{
}

} // verus!
