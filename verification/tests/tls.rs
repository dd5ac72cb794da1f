//! Certificates by handle, and what the listeners offer.
use ramjet_ingress::certs::{self, CertError};
use ramjet_ingress::tls::{
    alpn, requested_name, CertKeys, CertStore, Lane, ALPN, ALPN_H1, ALPN_H3,
};
use rcgen::generate_simple_self_signed;
use std::sync::Arc;

fn self_signed(name: &str) -> (Vec<u8>, Vec<u8>) {
    let issued = generate_simple_self_signed([name.to_owned()]).expect("a certificate");
    (
        issued.cert.pem().into_bytes(),
        issued.signing_key.serialize_pem().into_bytes(),
    )
}

#[test]
fn an_empty_store_resolves_nothing() {
    let store = CertStore::new();
    assert!(store.is_empty());
    assert_eq!(store.len(), 0);
    assert!(store.get(1).is_none());
}

#[test]
fn a_name_with_no_certificate_resolves_to_none() {
    // The route table knows that the name maps to handle 7, but the store has
    // never been published, so the handshake must fail rather than serve a
    // wrong certificate.
    let store = CertStore::new();
    assert!(store.resolve(Some(7)).is_none());
    assert!(store.resolve(None).is_none());
}

#[test]
fn alpn_offers_h2_before_http11() {
    // Order is preference order, and getting it backwards silently costs
    // every HTTP/2-capable client its multiplexing.
    assert_eq!(ALPN[0].as_bytes(), b"h2");
    assert_eq!(ALPN[1].as_bytes(), b"http/1.1");
    assert_eq!(alpn(Lane::Full), vec!["h2", "http/1.1"]);
}

#[test]
fn the_http1_only_listener_does_not_offer_h2() {
    // Offering a protocol the engine behind this listener cannot speak is
    // worse than offering nothing: the client would frame its first request
    // as HTTP/2 and get an HTTP/1.1 parser.
    assert_eq!(ALPN_H1.len(), 1);
    assert_eq!(ALPN_H1[0].as_bytes(), b"http/1.1");
    assert_eq!(alpn(Lane::Http1), vec!["http/1.1"]);
    assert_eq!(alpn(Lane::Quic), vec![ALPN_H3]);
}

#[test]
fn a_store_is_replaced_as_a_whole() {
    let (chain, key) = self_signed("a.example.com");
    let key = Arc::new(certs::certified_key(&chain, &key).expect("a pair"));
    let mut first = CertKeys::new();
    first.insert(7, Arc::clone(&key));
    let mut store = CertStore::with_certs(first);
    assert_eq!(store.len(), 1);
    assert!(store.resolve(Some(7)).is_some_and(|found| Arc::ptr_eq(&found, &key)));
    assert!(store.resolve(Some(8)).is_none());

    let mut second = CertKeys::new();
    second.insert(8, Arc::clone(&key));
    store.publish(second);
    assert!(store.get(7).is_none());
    assert!(store.get(8).is_some());
    assert_eq!(store.snapshot().len(), 1);
}

#[test]
fn a_client_that_names_nobody_asks_for_the_empty_name() {
    assert_eq!(requested_name(Some("api.example.com".to_owned())), "api.example.com");
    assert_eq!(requested_name(None), "");
}

#[test]
fn empty_input_names_what_is_missing() {
    assert!(matches!(
        certs::certified_key(b"", b""),
        Err(CertError::NoCertificates)
    ));
}

#[test]
fn a_chain_with_no_key_beside_it_is_not_a_certified_key() {
    let (chain, _) = self_signed("example.com");
    assert!(matches!(
        certs::certified_key(&chain, b"not pem at all\n"),
        Err(CertError::NoPrivateKey)
    ));
}

#[test]
fn a_matching_pair_parses() {
    let (chain, key) = self_signed("example.com");
    assert!(certs::certified_key(&chain, &key).is_ok());
}

#[test]
fn a_key_of_another_certificate_is_refused() {
    let (chain, _) = self_signed("example.com");
    let (_, key) = self_signed("example.com");
    let error = certs::certified_key(&chain, &key).expect_err("refused");
    assert!(matches!(error, CertError::Rustls(_)), "{error:?}");
    assert!(!error.to_text().is_empty());
}

#[test]
fn malformed_pem_is_told_from_missing_pem() {
    let torn = b"-----BEGIN CERTIFICATE-----\n!!!\n-----END CERTIFICATE-----\n";
    let error = certs::certified_key(torn, b"").expect_err("refused");
    assert!(matches!(error, CertError::Pem(_)), "{error:?}");
    assert!(error.to_text().starts_with("malformed PEM: "), "{}", error.to_text());
    assert_eq!(CertError::NoCertificates.to_text(), "no CERTIFICATE block");
    assert_eq!(CertError::NoPrivateKey.to_text(), "no PRIVATE KEY block");
}

#[test]
fn a_chain_keeps_its_order() {
    let (leaf, _) = self_signed("leaf.example.com");
    let (root, _) = self_signed("root.example.com");
    let mut both = leaf.clone();
    both.extend_from_slice(&root);
    let chain = certs::chain(&both).expect("two certificates");
    assert_eq!(chain.len(), 2);
    assert_eq!(chain[0], certs::chain(&leaf).expect("one")[0]);
    assert_eq!(chain[1], certs::chain(&root).expect("one")[0]);
    assert_ne!(chain[0], chain[1]);
    assert_eq!(chain[0][0], 0x30, "DER rather than PEM");
}

#[test]
fn a_verdict_is_passed_on() {
    let (chain, key) = self_signed("a.example.com");
    let pair = certs::certified_key(&chain, &key).expect("a pair");
    let first = pair.cert[0].clone();
    let passed = certs::judged(Ok(pair)).expect("passed on");
    assert_eq!(passed.cert, vec![first]);
    let refused = certs::judged(Err(rustls::Error::EncryptError)).expect_err("refused");
    assert!(matches!(refused, CertError::Rustls(rustls::Error::EncryptError)));
    assert_eq!(refused.to_text(), CertError::Rustls(rustls::Error::EncryptError).to_text());
}

#[test]
fn an_error_is_worded_around_its_cause() {
    let pem = CertError::Pem(std::io::Error::other("line 3"));
    assert_eq!(pem.worded("line 4"), "malformed PEM: line 4");
    assert_eq!(pem.to_text(), "malformed PEM: line 3");
    let refused = CertError::Rustls(rustls::Error::General("no such curve".to_owned()));
    assert_eq!(refused.worded("other words"), "other words");
    assert!(refused.to_text().contains("no such curve"), "{}", refused.to_text());
    assert_eq!(CertError::NoPrivateKey.worded("unused"), "no PRIVATE KEY block");
}
