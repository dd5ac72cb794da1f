//! A compiled generation, applied to the running data plane.
//!
//! Parsing and publishing are two jobs. The publisher turns a generation's
//! certificate material into keys and reuses what it already has; whether those
//! reach the wire is the history's decision, because that is where a rollback's
//! pin lives. A certificate that will not parse costs the names it covers and
//! nothing else: one malformed Secret must not take a cluster's routing offline.
//!
//! An id stands for its content, so an id that survives from one generation to
//! the next needs no parsing at all.
use rustls::sign::CertifiedKey;
use std::collections::HashMap;
use std::sync::Arc;
use vstd::prelude::*;
use crate::calendar::Moment;
use crate::certs;
use crate::certs::CertError;
use crate::history;
use crate::history::{GenerationHistory, GenerationRecord, Snapshot};
use crate::tls;
use crate::tls::{share, CertKeys};

verus! {

broadcast use vstd::std_specs::hash::group_hash_axioms;

/// The PEM of one certificate, under the id that the routing table knows it by.
#[derive(Debug)]
pub struct CertMaterial {
    pub handle_id: u64,
    pub cert_chain_pem: Vec<u8>,
    pub key_pem: Vec<u8>,
}

/// A certificate that would not parse. Its names cannot serve TLS until it is
/// fixed.
#[derive(Debug)]
pub struct Rejection {
    pub handle: u64,
    pub error: CertError,
}

/// What one application of a compiled configuration did.
#[derive(Debug, Clone, Copy, PartialEq, Eq, Structural)]
pub struct Applied {
    /// Generation of the table.
    pub generation: u64,
    /// Certificates carried over from the previous generation unparsed.
    pub reused: usize,
    /// Certificates parsed for the first time.
    pub parsed: usize,
    /// Certificates the parse rejected. Their names cannot serve TLS.
    pub rejected: usize,
}

impl Default for Applied {
    fn default() -> (r: Applied)
        ensures
            r == (Applied { generation: 0, reused: 0, parsed: 0, rejected: 0 }),
    {
        Applied { generation: 0, reused: 0, parsed: 0, rejected: 0 }
    }
}

impl Applied {
    /// Certificates that can be served with.
    pub fn certificates(&self) -> (r: usize)
        requires
            self.reused + self.parsed <= usize::MAX,
        ensures
            r == self.reused + self.parsed,
    {
        self.reused + self.parsed
    }
}

/// What was found of one certificate.
#[derive(Debug)]
pub enum Found {
    /// Its id is at hand, with this key.
    Cached(Arc<CertifiedKey>),
    /// Its bytes parsed, into this key.
    Parsed(CertifiedKey),
    /// Its bytes would not parse.
    Refused(CertError),
}

/// What was found of the certificate under an id.
#[derive(Debug)]
pub struct Finding {
    pub handle: u64,
    pub found: Found,
}

/// What preparing a generation comes to.
#[verifier::ext_equal]
pub struct Prepared {
    /// The keys it can be served with.
    pub keys: Map<u64, Arc<CertifiedKey>>,
    pub reused: nat,
    pub parsed: nat,
    /// What would not parse, in order.
    pub rejected: Seq<Rejection>,
}

impl Prepared {
    /// Nothing prepared yet.
    pub open spec fn nothing() -> Prepared {
        Prepared { keys: Map::empty(), reused: 0, parsed: 0, rejected: Seq::empty() }
    }

    /// With one more certificate: one that is at hand or parsed is there under its
    /// id, and one that would not parse is left out and told of.
    pub open spec fn with(self, finding: Finding) -> Prepared {
        let id = finding.handle;
        match finding.found {
            Found::Cached(key) => Prepared {
                keys: self.keys.insert(id, key),
                reused: self.reused + 1,
                ..self
            },
            Found::Parsed(key) => Prepared {
                keys: self.keys.insert(id, Arc::new(key)),
                parsed: self.parsed + 1,
                ..self
            },
            Found::Refused(error) => Prepared {
                rejected: self.rejected.push(Rejection { handle: id, error }),
                ..self
            },
        }
    }
}

/// What the findings of a generation come to, in turn.
pub open spec fn prepared(findings: Seq<Finding>) -> Prepared
    decreases findings.len(),
{
    if findings.len() == 0 {
        Prepared::nothing()
    } else {
        prepared(findings.drop_last()).with(findings.last())
    }
}

/// Is this what is found of a certificate? An id that is at hand keeps its key,
/// whatever bytes came with it. Any other is parsed, and is then the pair that its
/// own bytes hold or is refused for what is wrong with them.
pub open spec fn is_found(
    cache: Map<u64, Arc<CertifiedKey>>,
    material: CertMaterial,
    finding: Finding,
) -> bool {
    &&& finding.handle == material.handle_id
    &&& match finding.found {
        Found::Cached(key) => cache.contains_key(material.handle_id) && key
            == cache[material.handle_id],
        Found::Parsed(pair) => !cache.contains_key(material.handle_id) && certs::is_pem_pair(
            pair,
            material.cert_chain_pem@,
            material.key_pem@,
        ),
        Found::Refused(error) => !cache.contains_key(material.handle_id) && certs::is_pem_refusal(
            error,
            material.cert_chain_pem@,
            material.key_pem@,
        ),
    }
}

/// Are these findings those of some certificates, one each and in order?
pub open spec fn are_found(
    cache: Map<u64, Arc<CertifiedKey>>,
    materials: Seq<CertMaterial>,
    findings: Seq<Finding>,
) -> bool {
    findings.len() == materials.len() && forall|i: int|
        0 <= i < materials.len() ==> is_found(cache, #[trigger] materials[i], findings[i])
}

/// The findings of a generation, as they are gathered.
#[derive(Debug)]
pub struct Gathering {
    keys: CertKeys,
    reused: usize,
    parsed: usize,
    rejections: Vec<Rejection>,
}

impl View for Gathering {
    type V = Prepared;

    closed spec fn view(&self) -> Prepared {
        Prepared {
            keys: self.keys@,
            reused: self.reused as nat,
            parsed: self.parsed as nat,
            rejected: self.rejections@,
        }
    }
}

impl Gathering {
    /// Nothing gathered yet.
    pub fn new() -> (r: Gathering)
        ensures
            r@ == Prepared::nothing(),
    {
        let r = Gathering { keys: HashMap::new(), reused: 0, parsed: 0, rejections: Vec::new() };
        assert(r@ =~= Prepared::nothing());
        r
    }

    /// Takes in what was found of one certificate.
    pub fn take(&mut self, finding: Finding)
        requires
            old(self)@.reused < usize::MAX,
            old(self)@.parsed < usize::MAX,
        ensures
            final(self)@ == old(self)@.with(finding),
    {
        let handle = finding.handle;
        match finding.found {
            Found::Cached(key) => {
                self.keys.insert(handle, key);
                self.reused = self.reused + 1;
            },
            Found::Parsed(key) => {
                self.keys.insert(handle, Arc::new(key));
                self.parsed = self.parsed + 1;
            },
            Found::Refused(error) => {
                self.rejections.push(Rejection { handle, error });
            },
        }
        assert(self@ =~= old(self)@.with(finding));
    }

    /// What it came to: the counts, the keys, and what would not parse.
    pub fn finish(self, generation: u64) -> (r: (Applied, CertKeys, Vec<Rejection>))
        ensures
            r.0.generation == generation,
            self@ == (Prepared {
                keys: r.1@,
                reused: r.0.reused as nat,
                parsed: r.0.parsed as nat,
                rejected: r.2@,
            }),
            r.0.rejected == r.2@.len(),
    {
        let rejected: usize = self.rejections.len();
        let applied = Applied { generation, reused: self.reused, parsed: self.parsed, rejected };
        (applied, self.keys, self.rejections)
    }
}

/// Turns a compiled generation's certificate material into keys, reusing
/// everything that did not rotate.
#[derive(Debug)]
pub struct Publisher {
    /// Every key from the last generation prepared. An entry is either still
    /// referenced, and then still right, or dropped.
    parsed: CertKeys,
    rejections: Vec<Rejection>,
}

impl View for Publisher {
    type V = Map<u64, Arc<CertifiedKey>>;

    /// The keys at hand.
    closed spec fn view(&self) -> Map<u64, Arc<CertifiedKey>> {
        self.parsed@
    }
}

impl Default for Publisher {
    fn default() -> (r: Publisher)
        ensures
            r@ == Map::<u64, Arc<CertifiedKey>>::empty(),
            r.refused() == Seq::<Rejection>::empty(),
    {
        Publisher::new()
    }
}

/// Is this what preparing some certificates yields, whatever `rustls` made of
/// those that had to be parsed?
pub open spec fn yields(
    cache: Map<u64, Arc<CertifiedKey>>,
    materials: Seq<CertMaterial>,
    findings: Seq<Finding>,
    applied: Applied,
    keys: Map<u64, Arc<CertifiedKey>>,
    refused: Seq<Rejection>,
) -> bool {
    let result = prepared(findings);
    &&& are_found(cache, materials, findings)
    &&& applied.reused == result.reused
    &&& applied.parsed == result.parsed
    &&& applied.rejected == result.rejected.len()
    &&& keys == result.keys
    &&& refused == result.rejected
}

impl Publisher {
    /// What the last generation prepared could not be served with.
    pub closed spec fn refused(self) -> Seq<Rejection> {
        self.rejections@
    }

    /// A publisher with no keys at hand.
    pub fn new() -> (r: Publisher)
        ensures
            r@ == Map::<u64, Arc<CertifiedKey>>::empty(),
            r.refused() == Seq::<Rejection>::empty(),
    {
        Publisher { parsed: HashMap::new(), rejections: Vec::new() }
    }

    /// What the last generation prepared could not be served with, in order.
    pub fn rejections(&self) -> (r: &Vec<Rejection>)
        ensures
            r@ == self.refused(),
    {
        &self.rejections
    }

    /// What there is of one certificate: the key at hand, or what parsing makes of
    /// its bytes.
    fn look_at(&self, material: &CertMaterial) -> (r: Finding)
        ensures
            is_found(self@, *material, r),
    {
        let handle = material.handle_id;
        if let Some(key) = self.parsed.get(&handle) {
            return Finding { handle, found: Found::Cached(share(key)) };
        }
        let found = match certs::certified_key(
            material.cert_chain_pem.as_slice(),
            material.key_pem.as_slice(),
        ) {
            Ok(pair) => Found::Parsed(pair),
            Err(error) => Found::Refused(error),
        };
        Finding { handle, found }
    }

    /// Parses one generation's certificates, reusing every id that survived.
    ///
    /// It cannot fail: a certificate that will not parse is left out and the rest
    /// of the generation is still usable.
    pub fn prepare(&mut self, generation: u64, materials: &Vec<CertMaterial>) -> (r: (
        Applied,
        Arc<CertKeys>,
    ))
        ensures
            r.0.generation == generation,
            final(self)@ == r.1@,
            exists|findings: Seq<Finding>| #[trigger]
                yields(old(self)@, materials@, findings, r.0, r.1@, final(self).refused()),
    {
        let mut gathering = Gathering::new();
        let ghost mut findings: Seq<Finding> = Seq::empty();
        let mut i: usize = 0;
        proof {
            every_certificate_is_counted(findings);
        }
        while i < materials.len()
            invariant
                i <= materials@.len(),
                self@ == old(self)@,
                findings.len() == i,
                gathering@ == prepared(findings),
                gathering@.reused + gathering@.parsed + gathering@.rejected.len() == i,
                forall|j: int|
                    0 <= j < i ==> is_found(old(self)@, #[trigger] materials@[j], findings[j]),
            decreases materials@.len() - i,
        {
            let finding = self.look_at(&materials[i]);
            proof {
                assert(findings.push(finding).drop_last() =~= findings);
                findings = findings.push(finding);
                every_certificate_is_counted(findings);
            }
            gathering.take(finding);
            i = i + 1;
        }
        let (applied, keys, rejections) = gathering.finish(generation);
        self.parsed = keys.clone();
        self.rejections = rejections;
        let keys = Arc::new(keys);
        assert(yields(old(self)@, materials@, findings, applied, keys@, self.refused()));
        (applied, keys)
    }
}

/// Every certificate is reused, parsed or rejected, and is counted once.
pub proof fn every_certificate_is_counted(findings: Seq<Finding>)
    ensures
        ({
            let result = prepared(findings);
            result.reused + result.parsed + result.rejected.len() == findings.len()
        }),
    decreases findings.len(),
{
    if findings.len() > 0 {
        every_certificate_is_counted(findings.drop_last());
    }
}

/// Is there a key for one of the findings under an id?
pub open spec fn keyed(findings: Seq<Finding>, id: u64) -> bool {
    exists|i: int|
        0 <= i < findings.len() && (#[trigger] findings[i]).handle == id && !(
        findings[i].found is Refused)
}

proof fn lemma_keyed(findings: Seq<Finding>, id: u64)
    ensures
        prepared(findings).keys.contains_key(id) <==> keyed(findings, id),
    decreases findings.len(),
{
    if findings.len() > 0 {
        let front = findings.drop_last();
        let last = findings.last();
        lemma_keyed(front, id);
        if last.handle == id && !(last.found is Refused) {
            assert(findings[findings.len() - 1].handle == id);
        }
        if keyed(front, id) {
            let i = choose|i: int|
                0 <= i < front.len() && (#[trigger] front[i]).handle == id && !(
                front[i].found is Refused);
            assert(findings[i] == front[i]);
        }
        if keyed(findings, id) {
            let i = choose|i: int|
                0 <= i < findings.len() && (#[trigger] findings[i]).handle == id && !(
                findings[i].found is Refused);
            if i < front.len() {
                assert(front[i] == findings[i]);
            }
        }
    }
}

/// A generation is prepared with the keys of its own certificates and no others:
/// every one that is at hand or parsed is there under its id, and an id that the
/// generation no longer carries is dropped. An id that survives keeps the key it
/// had, whatever bytes came with it this time, and any other has a pair that the
/// bytes of one of its own certificates hold.
pub proof fn a_generation_keeps_its_own_keys(
    cache: Map<u64, Arc<CertifiedKey>>,
    materials: Seq<CertMaterial>,
    findings: Seq<Finding>,
    id: u64,
)
    requires
        are_found(cache, materials, findings),
    ensures
        ({
            let keys = prepared(findings).keys;
            &&& keys.contains_key(id) <==> keyed(findings, id)
            &&& keys.contains_key(id) && cache.contains_key(id) ==> keys[id] == cache[id]
            &&& keys.contains_key(id) && !cache.contains_key(id) ==> exists|i: int|
                0 <= i < materials.len() && (#[trigger] materials[i]).handle_id == id
                    && certs::is_pem_pair(
                    *keys[id],
                    materials[i].cert_chain_pem@,
                    materials[i].key_pem@,
                )
        }),
    decreases findings.len(),
{
    lemma_keyed(findings, id);
    if findings.len() > 0 {
        let front = findings.drop_last();
        let before = materials.drop_last();
        assert forall|i: int| 0 <= i < before.len() implies is_found(
            cache,
            #[trigger] before[i],
            front[i],
        ) by {
            assert(is_found(cache, materials[i], findings[i]));
        }
        a_generation_keeps_its_own_keys(cache, before, front, id);
        let last = materials.len() - 1;
        assert(is_found(cache, materials[last], findings[last]));
        let keys = prepared(findings).keys;
        if keys.contains_key(id) && !cache.contains_key(id) {
            if findings[last].handle == id && findings[last].found is Parsed {
                assert(materials[last].handle_id == id);
            } else {
                let i = choose|i: int|
                    0 <= i < before.len() && (#[trigger] before[i]).handle_id == id
                        && certs::is_pem_pair(
                        *prepared(front).keys[id],
                        before[i].cert_chain_pem@,
                        before[i].key_pem@,
                    );
                assert(materials[i] == before[i]);
            }
        }
    }
}

/// Nothing is parsed twice: when a generation is prepared again, every certificate
/// whose id got a key is at hand with that key, so that what is parsed again is at
/// most what was refused before. Where nothing was, nothing is parsed and the keys
/// are the same.
pub proof fn nothing_is_parsed_twice(
    cache: Map<u64, Arc<CertifiedKey>>,
    materials: Seq<CertMaterial>,
    first: Seq<Finding>,
    second: Seq<Finding>,
    i: int,
)
    requires
        are_found(cache, materials, first),
        are_found(prepared(first).keys, materials, second),
        0 <= i < materials.len(),
    ensures
        ({
            let keys = prepared(first).keys;
            let id = materials[i].handle_id;
            &&& keys.contains_key(id) <==> second[i].found is Cached
            &&& keys.contains_key(id) ==> second[i].found == Found::Cached(keys[id])
                && prepared(second).keys.contains_key(id) && prepared(second).keys[id] == keys[id]
            &&& !(second[i].found is Cached) ==> first[i].found is Refused
            &&& prepared(first).rejected.len() == 0 ==> prepared(second).parsed == 0
                && prepared(second).reused == materials.len() && prepared(second).rejected.len()
                == 0 && prepared(second).keys == keys
        }),
{
    let keys = prepared(first).keys;
    let id = materials[i].handle_id;
    assert(is_found(cache, materials[i], first[i]));
    assert(is_found(keys, materials[i], second[i]));
    lemma_keyed(first, id);
    if !(first[i].found is Refused) {
        assert(keyed(first, id));
    }
    a_generation_keeps_its_own_keys(keys, materials, second, id);
    if keys.contains_key(id) {
        assert(second[i].handle == id);
        assert(keyed(second, id));
    }
    if prepared(first).rejected.len() == 0 {
        assert forall|j: int| 0 <= j < second.len() implies (#[trigger] second[j]).found
            is Cached by {
            assert(is_found(cache, materials[j], first[j]));
            assert(is_found(keys, materials[j], second[j]));
            lemma_nothing_refused(first, j);
            lemma_keyed(first, materials[j].handle_id);
            assert(keyed(first, materials[j].handle_id));
        }
        lemma_all_cached(second);
        assert forall|other: u64|
            prepared(second).keys.contains_key(other) == keys.contains_key(other) by {
            lemma_keyed(first, other);
            lemma_keyed(second, other);
            if keyed(first, other) {
                let j = choose|j: int|
                    0 <= j < first.len() && (#[trigger] first[j]).handle == other && !(
                    first[j].found is Refused);
                assert(is_found(cache, materials[j], first[j]));
                assert(is_found(keys, materials[j], second[j]));
                assert(second[j].handle == other && second[j].found is Cached);
            }
            if keyed(second, other) {
                let j = choose|j: int|
                    0 <= j < second.len() && (#[trigger] second[j]).handle == other && !(
                    second[j].found is Refused);
                assert(is_found(keys, materials[j], second[j]));
            }
        }
        assert forall|other: u64| prepared(second).keys.contains_key(other) implies prepared(
            second,
        ).keys[other] == keys[other] by {
            a_generation_keeps_its_own_keys(keys, materials, second, other);
        }
        assert(prepared(second).keys =~= keys);
    }
}

proof fn lemma_nothing_refused(findings: Seq<Finding>, i: int)
    requires
        prepared(findings).rejected.len() == 0,
        0 <= i < findings.len(),
    ensures
        !(findings[i].found is Refused),
    decreases findings.len(),
{
    if i < findings.len() - 1 {
        lemma_nothing_refused(findings.drop_last(), i);
    }
}

proof fn lemma_all_cached(findings: Seq<Finding>)
    requires
        forall|i: int| 0 <= i < findings.len() ==> (#[trigger] findings[i]).found is Cached,
    ensures
        prepared(findings).parsed == 0,
        prepared(findings).rejected.len() == 0,
        prepared(findings).reused == findings.len(),
    decreases findings.len(),
{
    if findings.len() > 0 {
        let front = findings.drop_last();
        assert forall|i: int| 0 <= i < front.len() implies (#[trigger] front[i]).found is Cached by {
            assert(findings[i].found is Cached);
        }
        lemma_all_cached(front);
        assert(findings[findings.len() - 1].found is Cached);
    }
}

// ---------------------------------------------------------------------------
// Applying
// ---------------------------------------------------------------------------

/// A configuration as the control plane hands it over.
#[derive(Debug)]
pub struct CompiledConfig<T> {
    /// The routing snapshot.
    pub table: Arc<Snapshot<T>>,
    /// The certificates its handles name.
    pub certs: Vec<CertMaterial>,
    /// What changed since the configuration compiled before it.
    pub diff: Arc<serde_json::Value>,
    /// The control plane's content digest.
    pub digest: u64,
}

/// What applying a configuration came to.
#[derive(Debug, Clone, Copy)]
pub struct Outcome {
    pub applied: Applied,
    /// Whether it went live, rather than being held back by a pin.
    pub published: bool,
    /// Whether the replica is ready from here on.
    pub ready: bool,
}

/// Is a replica ready after a generation? Once ready it stays so: a table that is
/// one step stale is far better than answering nothing at all. Before that it
/// takes a generation that went live, and generation 0 means that nothing has
/// been compiled yet.
pub open spec fn ready_after(ready: bool, published: bool, generation: u64) -> bool {
    ready || (published && generation > 0)
}

/// Applies one configuration: its certificates are prepared whether or not a pin
/// is held, so that every generation in the ring can be put back on the wire,
/// then it is recorded, and it is published unless a pin holds it back.
pub fn apply<T>(
    publisher: &mut Publisher,
    history: &mut GenerationHistory<T>,
    ready: bool,
    config: CompiledConfig<T>,
    now: Moment,
) -> (r: Outcome)
    ensures
        r.applied.generation == config.table.generation,
        exists|findings: Seq<Finding>| #[trigger]
            yields(
                old(publisher)@,
                config.certs@,
                findings,
                r.applied,
                final(publisher)@,
                final(publisher).refused(),
            ),
        r.published == (old(history)@.pinned is None),
        r.ready == ready_after(ready, r.published, config.table.generation),
        exists|record: GenerationRecord<T>|
            record.generation == config.table.generation && record.applied_at == now
                && record.published == r.published && record.digest == config.digest && record.diff
                == config.diff && record.table == config.table && record.keys@ == final(publisher)@
                && final(history)@ == #[trigger] old(history)@.recorded(record),
        old(history)@.wf() ==> final(history)@.wf(),
{
    let generation = config.table.generation;
    let (applied, keys) = publisher.prepare(generation, &config.certs);
    let ghost held = keys;
    proof {
        let findings = choose|findings: Seq<Finding>| #[trigger]
            yields(
                old(publisher)@,
                config.certs@,
                findings,
                applied,
                held@,
                publisher.refused(),
            );
        assert(yields(
            old(publisher)@,
            config.certs@,
            findings,
            applied,
            publisher@,
            publisher.refused(),
        ));
    }
    let published = history.record(
        generation,
        config.digest,
        config.diff,
        config.table,
        keys,
        now,
    );
    let ready = ready || (published && generation > 0);
    proof {
        let record = GenerationRecord {
            generation,
            applied_at: now,
            published,
            digest: config.digest,
            diff: config.diff,
            table: config.table,
            keys: held,
        };
        assert(history@ == old(history)@.recorded(record));
    }
    Outcome { applied, published, ready }
}

/// What is logged of an application.
pub fn announcement(published: bool) -> (r: &'static str)
    ensures
        r@ == if published {
            "published to the data plane"@
        } else {
            "recorded but held back by a rollback pin"@
        },
{
    if published {
        "published to the data plane"
    } else {
        "recorded but held back by a rollback pin"
    }
}

/// A replica that is ready stays ready, and one that is not becomes so only with
/// a compiled generation that went live.
pub proof fn readiness_is_one_way(ready: bool, published: bool, generation: u64)
    ensures
        ready ==> ready_after(ready, published, generation),
        !ready && ready_after(ready, published, generation) ==> published && generation > 0,
        !ready_after(false, published, 0),
        !ready_after(false, false, generation),
{
}

/// Once a generation has gone live, the wire has the key of every one of its
/// certificates that can be served with, and of no other. While a pin holds it
/// back, the keys on the wire stay what they were.
pub proof fn what_goes_live_can_be_served<T>(
    findings: Seq<Finding>,
    before: history::HistoryView<T>,
    record: GenerationRecord<T>,
    id: u64,
)
    requires
        record.keys@ == prepared(findings).keys,
    ensures
        before.pinned is None ==> (tls::key_for(before.recorded(record).keys, id) is Some <==> keyed(
            findings,
            id,
        )),
        before.pinned is Some ==> before.recorded(record).keys == before.keys,
{
    lemma_keyed(findings, id);
}

/// A certificate that would not parse is told of under its id with what was wrong,
/// and nothing else is told of. Each of the two counts goes up for its own kind of
/// certificate only.
pub proof fn a_refusal_is_told_of(findings: Seq<Finding>, i: int, one: Finding)
    requires
        0 <= i < findings.len(),
    ensures
        findings[i].found matches Found::Refused(error) ==> prepared(findings).rejected.contains(
            (Rejection { handle: findings[i].handle, error }),
        ),
        prepared(findings.push(one)).reused == prepared(findings).reused + if one.found is Cached {
            1int
        } else {
            0
        },
        prepared(findings.push(one)).parsed == prepared(findings).parsed + if one.found is Parsed {
            1int
        } else {
            0
        },
        prepared(findings.push(one)).rejected.len() == prepared(findings).rejected.len()
            + if one.found is Refused {
            1int
        } else {
            0
        },
    decreases findings.len(),
{
    assert(findings.push(one).drop_last() =~= findings);
    let front = findings.drop_last();
    if findings[i].found is Refused {
        let told = Rejection { handle: findings[i].handle, error: findings[i].found->Refused_0 };
        if i < front.len() {
            a_refusal_is_told_of(front, i, one);
            let at = choose|at: int|
                0 <= at < prepared(front).rejected.len() && prepared(front).rejected[at] == told;
            assert(prepared(findings).rejected[at] == told);
        } else {
            assert(prepared(findings).rejected.last() == told);
        }
    }
}

/// A generation that was compiled makes the replica ready once it goes live.
pub proof fn a_live_generation_makes_ready(ready: bool, generation: u64)
    requires
        generation != 0,
    ensures
        ready_after(ready, true, generation),
        ready_after(ready, false, generation) == ready,
{
}

} // verus!
