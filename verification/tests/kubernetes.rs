//! Generations, applied.
use ramjet_ingress::calendar::Moment;
use ramjet_ingress::certs::{certified_key, CertError};
use ramjet_ingress::history::{GenerationHistory, Snapshot};
use ramjet_ingress::kubernetes::{
    announcement, apply, Applied, CertMaterial, CompiledConfig, Finding, Found, Gathering, Outcome,
    Publisher,
};
use ramjet_ingress::tls::CertStore;
use rcgen::generate_simple_self_signed;
use std::sync::Arc;

fn snapshot(generation: u64, port: u16) -> Arc<Snapshot<u16>> {
    Arc::new(Snapshot {
        generation,
        route_count: 1,
        host_count: 1,
        wildcard_host_count: 0,
        table: port,
    })
}

/// A compiled configuration at `generation` that sends everything to `port`, so
/// two generations can be told apart both by number and by where they send a
/// request.
fn compiled(generation: u64, port: u16, certs: Vec<CertMaterial>) -> CompiledConfig<u16> {
    CompiledConfig {
        table: snapshot(generation, port),
        certs,
        diff: Arc::new(serde_json::Value::Null),
        digest: u64::from(port),
    }
}

fn material(handle_id: u64, name: &str) -> CertMaterial {
    let issued = generate_simple_self_signed([name.to_owned()]).expect("a certificate");
    CertMaterial {
        handle_id,
        cert_chain_pem: issued.cert.pem().into_bytes(),
        key_pem: issued.signing_key.serialize_pem().into_bytes(),
    }
}

/// The pipeline one generation goes through: parse, then record, then publish if
/// nothing is holding it back.
struct Pipeline {
    publisher: Publisher,
    history: GenerationHistory<u16>,
    ready: bool,
}

impl Pipeline {
    fn new() -> Self {
        Pipeline {
            publisher: Publisher::new(),
            history: GenerationHistory::new(snapshot(0, 0), CertStore::new(), 10),
            ready: false,
        }
    }

    fn apply(&mut self, config: CompiledConfig<u16>) -> Outcome {
        let now = Moment::Since(1_700_000_000);
        let outcome = apply(&mut self.publisher, &mut self.history, self.ready, config, now);
        self.ready = outcome.ready;
        outcome
    }

    fn has_key(&self, id: u64) -> bool {
        self.history.key(id).is_some()
    }
}

#[test]
fn a_generation_publishes_its_table_and_its_certificates() {
    let mut pipeline = Pipeline::new();
    let outcome = pipeline.apply(compiled(1, 8080, vec![material(7, "app.example.com")]));

    assert!(outcome.published);
    assert_eq!(outcome.applied.parsed, 1);
    assert_eq!(outcome.applied.rejected, 0);
    assert_eq!(outcome.applied.certificates(), 1);
    assert!(pipeline.has_key(7), "the handle id is the store's key");
    assert_eq!(pipeline.history.live().table, 8080);
}

/// A name the table resolves is a name the store can answer for. Looked at
/// *after* a publish, since that is the only moment the two snapshots are meant
/// to agree.
#[test]
fn every_handle_the_table_names_is_in_the_store() {
    let mut pipeline = Pipeline::new();
    pipeline.apply(compiled(1, 8080, vec![material(11, "app.example.com")]));
    assert!(
        pipeline.has_key(11),
        "a table published over a store missing its ids fails every handshake"
    );
}

#[test]
fn an_unchanged_certificate_is_not_parsed_twice() {
    let mut pipeline = Pipeline::new();
    let first = pipeline.apply(compiled(1, 8080, vec![material(7, "app.example.com")])).applied;
    assert_eq!((first.parsed, first.reused), (1, 0));

    // A different generation carrying the same content-addressed id: the
    // Secret did not move, so nothing should be re-parsed.
    let same = CertMaterial {
        handle_id: 7,
        cert_chain_pem: b"garbage that would never parse".to_vec(),
        key_pem: b"nor would this".to_vec(),
    };
    let second = pipeline.apply(compiled(2, 8080, vec![same])).applied;
    assert_eq!(
        (second.parsed, second.reused),
        (0, 1),
        "a surviving handle id must reuse the key already parsed"
    );
    assert!(pipeline.has_key(7));
}

#[test]
fn a_rotated_certificate_replaces_the_old_one() {
    let mut pipeline = Pipeline::new();
    pipeline.apply(compiled(1, 8080, vec![material(7, "app.example.com")]));
    assert!(pipeline.has_key(7));

    // Rotation means new content, and content-addressed ids mean a new id.
    let rotated = pipeline.apply(compiled(2, 8080, vec![material(8, "app.example.com")])).applied;
    assert_eq!((rotated.parsed, rotated.reused), (1, 0));
    assert!(!pipeline.has_key(7), "the retired id is dropped, not accumulated");
    assert!(pipeline.has_key(8));
}

#[test]
fn an_unparseable_certificate_is_skipped_and_the_rest_goes_live() {
    let mut pipeline = Pipeline::new();
    let broken = CertMaterial {
        handle_id: 1,
        cert_chain_pem: b"-----BEGIN CERTIFICATE-----\nnope\n-----END CERTIFICATE-----\n".to_vec(),
        key_pem: b"neither is this a key".to_vec(),
    };
    let outcome = pipeline.apply(compiled(1, 8080, vec![broken, material(2, "app.example.com")]));

    assert_eq!(outcome.applied.rejected, 1);
    assert_eq!(outcome.applied.parsed, 1);
    assert!(!pipeline.has_key(1), "a broken certificate is not published");
    assert!(pipeline.has_key(2));
    assert_eq!(
        pipeline.history.live().table, 8080,
        "routing must survive a Secret that does not parse"
    );
    let rejections = pipeline.publisher.rejections();
    assert_eq!(rejections.len(), 1);
    assert_eq!(rejections[0].handle, 1);
    assert!(!matches!(rejections[0].error, CertError::Rustls(_)), "{:?}", rejections[0]);
}

/// The rollback, all the way through the pipeline the daemon actually runs:
/// a pinned generation's certificates go back with its table, later
/// generations are recorded without reaching the wire, and the pinned
/// generation's key is still in the store while the pin holds.
#[test]
fn a_pin_republishes_a_generations_certificates_with_its_table() {
    let mut pipeline = Pipeline::new();
    pipeline.apply(compiled(1, 8080, vec![material(7, "app.example.com")]));
    pipeline.apply(compiled(2, 8081, vec![material(8, "app.example.com")]));
    assert!(pipeline.has_key(8));
    assert!(!pipeline.has_key(7), "generation 2 retired it");

    pipeline.history.pin(1).expect("generation 1 is in the ring");
    assert!(
        pipeline.has_key(7),
        "the pinned generation's certificate must come back with its table, \
         or every handshake for its names fails"
    );
    assert!(!pipeline.has_key(8));
    assert_eq!(pipeline.history.serving(), 1);

    // The controller has not stopped. Its work is recorded and held.
    let held = pipeline.apply(compiled(3, 8082, vec![material(9, "app.example.com")]));
    assert!(!held.published);
    assert_eq!(pipeline.history.serving(), 1);
    assert!(
        pipeline.has_key(7),
        "a held-back generation must not touch the certificate store either"
    );

    assert_eq!(pipeline.history.unpin(), Some(3));
    assert_eq!(pipeline.history.serving(), 3);
    assert!(pipeline.has_key(9));
}

#[test]
fn readiness_waits_for_a_compiled_generation() {
    let mut pipeline = Pipeline::new();
    assert!(!pipeline.ready, "nothing has been compiled yet");

    // Generation 0 means "no configuration has been compiled". Publishing
    // it must not put the replica into rotation: an empty table 404s every
    // request, which is worse than being absent from the Service.
    pipeline.apply(compiled(0, 0, Vec::new()));
    assert!(!pipeline.ready, "generation 0 must not mean ready");

    pipeline.apply(compiled(1, 8080, Vec::new()));
    assert!(pipeline.ready);
    assert_eq!(pipeline.history.serving(), 1);

    // Readiness is one-way.
    pipeline.apply(compiled(0, 0, Vec::new()));
    assert!(pipeline.ready);
}

/// The pin's other half: generations keep being recorded while publication is
/// held, so resuming lands on the current one.
#[test]
fn a_pinned_applier_keeps_recording_what_it_is_holding_back() {
    let mut pipeline = Pipeline::new();
    pipeline.apply(compiled(1, 8080, Vec::new()));
    pipeline.history.pin(1).expect("pins");

    for generation in 2..=4 {
        pipeline.apply(compiled(generation, 8080, Vec::new()));
    }
    assert_eq!(pipeline.history.serving(), 1, "nothing reached the wire");

    let held: Vec<(u64, bool)> =
        pipeline.history.records().iter().map(|r| (r.generation, r.published)).collect();
    assert_eq!(held, vec![(1, true), (2, false), (3, false), (4, false)]);

    assert_eq!(pipeline.history.unpin(), Some(4));
    assert_eq!(pipeline.history.serving(), 4, "resuming publishes the newest");
}

#[test]
fn the_generation_reported_is_the_one_published() {
    let mut pipeline = Pipeline::new();
    let outcome = pipeline.apply(compiled(42, 8080, Vec::new()));
    assert!(outcome.published);
    assert_eq!(outcome.applied.generation, 42);
    assert_eq!(pipeline.history.serving(), 42);
    assert_eq!(
        outcome.applied,
        Applied { generation: 42, ..Applied::default() }
    );
}

#[test]
fn the_log_says_whether_it_went_live() {
    assert_eq!(announcement(true), "published to the data plane");
    assert_eq!(announcement(false), "recorded but held back by a rollback pin");
}

#[test]
fn a_finding_is_kept_counted_or_told_of() {
    let fresh = material(3, "app.example.com");
    let pair = certified_key(&fresh.cert_chain_pem, &fresh.key_pem).expect("a pair");
    let old = material(1, "app.example.com");
    let cached = Arc::new(certified_key(&old.cert_chain_pem, &old.key_pem).expect("a pair"));

    let mut gathering = Gathering::new();
    gathering.take(Finding { handle: 1, found: Found::Cached(Arc::clone(&cached)) });
    gathering.take(Finding { handle: 2, found: Found::Refused(CertError::NoPrivateKey) });
    gathering.take(Finding { handle: 3, found: Found::Parsed(pair) });
    let (applied, keys, rejections) = gathering.finish(9);
    assert_eq!(applied, Applied { generation: 9, reused: 1, parsed: 1, rejected: 1 });
    assert!(keys.get(&1).is_some_and(|key| Arc::ptr_eq(key, &cached)));
    assert!(keys.get(&2).is_none());
    assert!(keys.get(&3).is_some());
    assert_eq!(rejections.len(), 1);
    assert_eq!(rejections[0].handle, 2);
    assert!(matches!(rejections[0].error, CertError::NoPrivateKey));
}

#[test]
fn a_rejection_says_what_is_wrong() {
    let whole = material(1, "app.example.com");
    let other = material(2, "app.example.com");
    let no_chain = CertMaterial { handle_id: 3, cert_chain_pem: Vec::new(), key_pem: whole.key_pem.clone() };
    let no_key =
        CertMaterial { handle_id: 4, cert_chain_pem: whole.cert_chain_pem.clone(), key_pem: Vec::new() };
    let mismatched = CertMaterial {
        handle_id: 5,
        cert_chain_pem: whole.cert_chain_pem.clone(),
        key_pem: other.key_pem.clone(),
    };
    let mut publisher = Publisher::new();
    let (applied, keys) = publisher.prepare(1, &vec![no_chain, whole, no_key, mismatched]);
    assert_eq!((applied.parsed, applied.rejected), (1, 3));
    assert_eq!(keys.len(), 1);
    let told = publisher.rejections();
    assert_eq!(told.iter().map(|r| r.handle).collect::<Vec<u64>>(), vec![3, 4, 5]);
    assert!(matches!(told[0].error, CertError::NoCertificates), "{:?}", told[0]);
    assert!(matches!(told[1].error, CertError::NoPrivateKey), "{:?}", told[1]);
    assert!(matches!(told[2].error, CertError::Rustls(_)), "{:?}", told[2]);
}
