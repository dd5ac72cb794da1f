//! PEM bytes into a certified key.
//!
//! Reading the PEM blocks is `rustls-pemfile`'s work and checking that a key
//! belongs to its certificate is `rustls`'s. What stands here is which of the
//! two is asked for what, in which order, and which error each refusal becomes.
use rustls::sign::CertifiedKey;
use rustls_pki_types::PrivateKeyDer;
use vstd::prelude::*;
use crate::failure::io_error_text;
use crate::text;
use crate::text::push_text;
use crate::tls;
use crate::tls::{KeyKind, PrivateKey};

verus! {

/// Why some PEM could not be turned into a usable key pair.
#[derive(Debug)]
pub enum CertError {
    /// The chain held no certificate block.
    NoCertificates,
    /// The key file held no private key block.
    NoPrivateKey,
    /// The PEM was malformed.
    Pem(std::io::Error),
    /// The pair was refused: most often a key that does not match the leaf
    /// certificate, or an algorithm that is not implemented.
    Rustls(rustls::Error),
}

/// The certificates in some PEM, in order and in DER, or `None` when the PEM is
/// malformed.
pub uninterp spec fn pem_certificates(pem: Seq<u8>) -> Option<Seq<Seq<u8>>>;

/// The first private key in some PEM, `Some(None)` when there is none, or `None`
/// when the PEM is malformed before one is found.
pub uninterp spec fn pem_private_key(pem: Seq<u8>) -> Option<Option<(KeyKind, Seq<u8>)>>;

/// `rustls_pemfile::certs`, collected: every certificate block, or the first
/// failure to read one.
#[verifier::external_body]
fn read_certificates(pem: &[u8]) -> (r: Result<Vec<Vec<u8>>, std::io::Error>)
    ensures
        match r {
            Ok(list) => pem_certificates(pem@) == Some(text::views(list@)),
            Err(_) => pem_certificates(pem@) is None,
        },
{
    rustls_pemfile::certs(&mut &pem[..]).map(|der| der.map(|der| der.as_ref().to_vec())).collect()
}

/// `rustls_pemfile::private_key`: the first private key block, in any of the
/// spellings it knows.
#[verifier::external_body]
fn read_private_key(pem: &[u8]) -> (r: Result<Option<PrivateKey>, std::io::Error>)
    ensures
        match r {
            Ok(Some(key)) => pem_private_key(pem@) == Some(Some((key.kind, key.der@))),
            Ok(None) => pem_private_key(pem@) == Some(None::<(KeyKind, Seq<u8>)>),
            Err(_) => pem_private_key(pem@) is None,
        },
{
    rustls_pemfile::private_key(&mut &pem[..]).map(|found| found.map(|key| match key {
        PrivateKeyDer::Pkcs1(_) => PrivateKey { kind: KeyKind::Pkcs1, der: key.secret_der().to_vec() },
        PrivateKeyDer::Sec1(_) => PrivateKey { kind: KeyKind::Sec1, der: key.secret_der().to_vec() },
        _ => PrivateKey { kind: KeyKind::Pkcs8, der: key.secret_der().to_vec() },
    }))
}

/// Reads a certificate chain, leaf first.
pub fn chain(pem: &[u8]) -> (r: Result<Vec<Vec<u8>>, CertError>)
    ensures
        match pem_certificates(pem@) {
            None => r matches Err(CertError::Pem(_)),
            Some(list) => if list.len() == 0 {
                r matches Err(CertError::NoCertificates)
            } else {
                r matches Ok(chain) && text::views(chain@) == list
            },
        },
{
    match read_certificates(pem) {
        Err(error) => Err(CertError::Pem(error)),
        Ok(list) => {
            assert(text::views(list@).len() == list@.len());
            if list.len() == 0 {
                Err(CertError::NoCertificates)
            } else {
                Ok(list)
            }
        },
    }
}

/// Reads the first private key.
pub fn private_key(pem: &[u8]) -> (r: Result<PrivateKey, CertError>)
    ensures
        match pem_private_key(pem@) {
            None => r matches Err(CertError::Pem(_)),
            Some(None) => r matches Err(CertError::NoPrivateKey),
            Some(Some((kind, der))) => r matches Ok(key) && key.kind == kind && key.der@ == der,
        },
{
    match read_private_key(pem) {
        Err(error) => Err(CertError::Pem(error)),
        Ok(None) => Err(CertError::NoPrivateKey),
        Ok(Some(key)) => Ok(key),
    }
}

/// Is this a pair of the chain and the key that two PEM blobs hold?
pub open spec fn is_pem_pair(pair: CertifiedKey, chain_pem: Seq<u8>, key_pem: Seq<u8>) -> bool {
    match (pem_certificates(chain_pem), pem_private_key(key_pem)) {
        (Some(list), Some(Some((kind, der)))) => list.len() > 0 && tls::pairs(pair, list, kind, der),
        _ => false,
    }
}

/// Is this the kind of error that two PEM blobs are refused with? The chain's
/// troubles come before the key's, and the pair is judged only when both could be
/// read.
pub open spec fn is_pem_refusal(error: CertError, chain_pem: Seq<u8>, key_pem: Seq<u8>) -> bool {
    match pem_certificates(chain_pem) {
        None => error is Pem,
        Some(list) => if list.len() == 0 {
            error is NoCertificates
        } else {
            match pem_private_key(key_pem) {
                None => error is Pem,
                Some(None) => error is NoPrivateKey,
                Some(Some(_)) => error is Rustls,
            }
        },
    }
}

/// What becomes of `rustls`'s verdict on a pair.
pub fn judged(verdict: Result<CertifiedKey, rustls::Error>) -> (r: Result<CertifiedKey, CertError>)
    ensures
        r == match verdict {
            Ok(pair) => Ok::<CertifiedKey, CertError>(pair),
            Err(error) => Err(CertError::Rustls(error)),
        },
{
    match verdict {
        Ok(pair) => Ok(pair),
        Err(error) => Err(CertError::Rustls(error)),
    }
}

/// Turns what was read of a chain and a key into the answer, the chain's troubles
/// before the key's. Where both could be read, `rustls` decides.
pub fn pair_from_parts(chain: Result<Vec<Vec<u8>>, CertError>, key: Result<PrivateKey, CertError>) -> (r:
    Result<CertifiedKey, CertError>)
    ensures
        match (chain, key) {
            (Err(error), _) => r == Err::<CertifiedKey, CertError>(error),
            (Ok(_), Err(error)) => r == Err::<CertifiedKey, CertError>(error),
            (Ok(list), Ok(k)) => match r {
                Ok(pair) => tls::pairs(pair, text::views(list@), k.kind, k.der@),
                Err(error) => error is Rustls,
            },
        },
{
    match (chain, key) {
        (Err(error), _) => Err(error),
        (Ok(_), Err(error)) => Err(error),
        (Ok(list), Ok(k)) => judged(tls::certified_key(list, k)),
    }
}

/// Parses a chain and its key straight from memory.
pub fn certified_key(cert_chain_pem: &[u8], key_pem: &[u8]) -> (r: Result<CertifiedKey, CertError>)
    ensures
        match r {
            Ok(pair) => is_pem_pair(pair, cert_chain_pem@, key_pem@),
            Err(error) => is_pem_refusal(error, cert_chain_pem@, key_pem@),
        },
{
    pair_from_parts(chain(cert_chain_pem), private_key(key_pem))
}

/// `rustls::Error::to_string`: the refusal in words. An error may carry one from
/// elsewhere, which words itself, so nothing is claimed of them.
#[verifier::external_body]
fn rustls_error_text(error: &rustls::Error) -> (r: String) {
    error.to_string()
}

/// What an error says, given the words of what caused it.
pub open spec fn cert_error_text(error: CertError, cause: Seq<char>) -> Seq<char> {
    match error {
        CertError::NoCertificates => "no CERTIFICATE block"@,
        CertError::NoPrivateKey => "no PRIVATE KEY block"@,
        CertError::Pem(_) => "malformed PEM: "@ + cause,
        CertError::Rustls(_) => cause,
    }
}

impl CertError {
    /// The error in words, given those of what caused it.
    pub fn worded(&self, cause: &str) -> (r: String)
        ensures
            r@ == cert_error_text(*self, cause@),
    {
        let mut out = String::new();
        match self {
            CertError::NoCertificates => push_text(&mut out, "no CERTIFICATE block"),
            CertError::NoPrivateKey => push_text(&mut out, "no PRIVATE KEY block"),
            CertError::Pem(_) => {
                push_text(&mut out, "malformed PEM: ");
                push_text(&mut out, cause);
            },
            CertError::Rustls(_) => push_text(&mut out, cause),
        }
        assert(out@ =~= cert_error_text(*self, cause@));
        out
    }

    /// The error in words. What the reader says of malformed PEM, and what `rustls`
    /// says of a refusal, is their own.
    pub fn to_text(&self) -> (r: String)
        ensures
            exists|cause: Seq<char>| r@ == #[trigger] cert_error_text(*self, cause),
            self is Pem ==> text::starts_with(r@, "malformed PEM: "@),
    {
        let cause = match self {
            CertError::Pem(error) => io_error_text(error),
            CertError::Rustls(error) => rustls_error_text(error),
            _ => String::new(),
        };
        let out = self.worded(cause.as_str());
        proof {
            let front = "malformed PEM: "@;
            if self is Pem {
                assert(out@.take(front.len() as int) =~= front);
            }
        }
        out
    }
}

/// A pair is made of the certificates of the one file and the key of the other.
/// What is refused is refused for one reason: the first that holds of a malformed
/// chain, a chain without a certificate, a malformed key, a key file without a key,
/// and a pair that does not belong together.
pub proof fn a_refusal_has_one_reason(
    pair: CertifiedKey,
    error: CertError,
    chain_pem: Seq<u8>,
    key_pem: Seq<u8>,
)
    ensures
        is_pem_pair(pair, chain_pem, key_pem) ==> {
            &&& pem_certificates(chain_pem) == Some(tls::pair_chain(pair))
            &&& tls::pair_chain(pair).len() > 0
            &&& pem_private_key(key_pem) == Some(Some(tls::pair_key(pair)))
        },
        is_pem_refusal(error, chain_pem, key_pem) ==> {
            let whole = pem_certificates(chain_pem) is Some && pem_certificates(chain_pem)->0.len()
                > 0;
            &&& error is NoCertificates <==> pem_certificates(chain_pem) is Some && !whole
            &&& error is NoPrivateKey <==> whole && pem_private_key(key_pem) is Some
                && pem_private_key(key_pem)->0 is None
            &&& error is Pem <==> pem_certificates(chain_pem) is None || (whole && pem_private_key(
                key_pem,
            ) is None)
            &&& error is Rustls <==> whole && pem_private_key(key_pem) is Some && pem_private_key(
                key_pem,
            )->0 is Some
        },
{
}

/// A refusal says which file lacks what, and otherwise what its cause says.
pub proof fn a_refusal_says_its_reason(error: CertError, cause: Seq<char>)
    ensures
        error is NoCertificates ==> cert_error_text(error, cause) == "no CERTIFICATE block"@,
        error is NoPrivateKey ==> cert_error_text(error, cause) == "no PRIVATE KEY block"@,
        error is Pem ==> cert_error_text(error, cause) == "malformed PEM: "@ + cause,
        error is Rustls ==> cert_error_text(error, cause) == cause,
{
}

} // verus!
