//! The last few generations, and the brake that republishes one.
//!
//! A rollback has to be instant and has to work when the control plane is what
//! is wrong, so the data plane keeps the compiled artifacts themselves: the
//! routing snapshot of each recent generation and the parsed keys that go with
//! it.
//!
//! A rollback *pins*: one generation goes back on the wire and publication
//! stops. Generations keep arriving and keep being recorded, marked as not
//! published, and nothing reaches the data plane until the pin is released,
//! which publishes the newest one. The pin is held in memory and dies with the
//! process.
use rustls::sign::CertifiedKey;
use std::sync::Arc;
use vstd::prelude::*;
use crate::calendar::Moment;
pub use crate::calendar::rfc3339;
use crate::text::{push_decimal, push_text};
use crate::text;
use crate::tls;
use crate::tls::{share, CertStore};
pub use crate::tls::CertKeys;

verus! {

/// A JSON document.
#[verifier::external_type_specification]
#[verifier::external_body]
pub struct ExJsonValue(serde_json::Value);

/// Generations kept when the caller does not say.
pub const DEFAULT_HISTORY_SIZE: usize = 10;

/// A compiled routing table with the figures that are reported about it.
#[derive(Debug)]
pub struct Snapshot<T> {
    /// The table's own generation number.
    pub generation: u64,
    /// Route rules across every host.
    pub route_count: u64,
    /// Exact host entries.
    pub host_count: u32,
    /// Wildcard host entries.
    pub wildcard_host_count: u32,
    /// The table itself.
    pub table: T,
}

/// One compiled generation, as it was applied.
#[derive(Debug, Clone)]
pub struct GenerationRecord<T> {
    /// The table's generation number.
    pub generation: u64,
    /// When this process applied it.
    pub applied_at: Moment,
    /// Whether it went live, or was only recorded because a pin was holding
    /// publication.
    pub published: bool,
    /// The control plane's content digest for this configuration.
    pub digest: u64,
    /// What the control plane said changed since the generation before it.
    pub diff: Arc<serde_json::Value>,
    /// The routing snapshot.
    pub table: Arc<Snapshot<T>>,
    /// The certificates the table's handles resolve to.
    pub keys: Arc<CertKeys>,
}

impl<T> GenerationRecord<T> {
    /// Route rules across every host.
    pub fn routes(&self) -> (r: u64)
        ensures
            r == self.table.route_count,
    {
        self.table.route_count
    }

    /// Exact plus wildcard host entries.
    pub fn hosts(&self) -> (r: u64)
        ensures
            r == self.table.host_count + self.table.wildcard_host_count,
    {
        self.table.host_count as u64 + self.table.wildcard_host_count as u64
    }

    /// Certificates published with this generation.
    pub fn certs(&self) -> (r: u64)
        ensures
            r == self.keys@.dom().len(),
    {
        self.keys.len() as u64
    }
}

/// Why a rollback was refused.
#[derive(Debug, Clone, Copy, PartialEq, Eq, Structural)]
pub enum PinError {
    /// No such generation in the ring: it was evicted, or never was.
    Unknown(u64),
    /// A generation is already pinned. Refused rather than silently re-pointed,
    /// so two people who reach for the brake at once find out about each other.
    AlreadyPinned(u64),
}

/// What a refusal says.
pub open spec fn pin_error_text(error: PinError) -> Seq<char> {
    match error {
        PinError::Unknown(generation) => "generation "@ + text::decimal(generation as nat)
            + " is not in the history"@,
        PinError::AlreadyPinned(generation) => "already pinned to generation "@ + text::decimal(
            generation as nat,
        ),
    }
}

impl PinError {
    /// The refusal in words.
    pub fn to_text(&self) -> (r: String)
        ensures
            r@ == pin_error_text(*self),
    {
        let mut out = String::new();
        match *self {
            PinError::Unknown(generation) => {
                push_text(&mut out, "generation ");
                push_decimal(&mut out, generation);
                push_text(&mut out, " is not in the history");
            },
            PinError::AlreadyPinned(generation) => {
                push_text(&mut out, "already pinned to generation ");
                push_decimal(&mut out, generation);
            },
        }
        assert(out@ =~= pin_error_text(*self));
        out
    }
}

/// What the pin just did, for whoever writes the audit trail.
#[derive(Debug, Clone, Copy, PartialEq, Eq, Structural)]
pub enum PinChange {
    /// A generation was pinned and republished.
    Pinned {
        /// The generation now serving.
        generation: u64,
        /// The generation it replaced, read before the pin took effect.
        replaced: u64,
    },
    /// The pin was released and the newest generation published.
    Resumed {
        /// The generation now serving.
        generation: u64,
    },
}

/// One step of putting a generation on the wire.
#[derive(Debug)]
pub enum Step<T> {
    /// Replace the certificates.
    Certificates(CertKeys),
    /// Replace the routing table.
    Routes(Arc<Snapshot<T>>),
}

/// What a history amounts to.
#[verifier::ext_equal]
pub struct HistoryView<T> {
    /// Generations the ring may hold.
    pub capacity: nat,
    /// Every record, newest last.
    pub ring: Seq<GenerationRecord<T>>,
    /// The generation publication is held at.
    pub pinned: Option<u64>,
    /// The table on the wire.
    pub live: Arc<Snapshot<T>>,
    /// The keys on the wire.
    pub keys: Map<u64, Arc<CertifiedKey>>,
    /// Whether anyone asked to be told of pins.
    pub listening: bool,
    /// Announcements not yet collected.
    pub changes: Seq<PinChange>,
}

/// A ring without a generation.
pub open spec fn without<T>(ring: Seq<GenerationRecord<T>>, generation: u64) -> Seq<
    GenerationRecord<T>,
> {
    ring.filter(|held: GenerationRecord<T>| held.generation != generation)
}

/// The newest `count` of a ring.
pub open spec fn newest<T>(ring: Seq<T>, count: nat) -> Seq<T> {
    if ring.len() > count {
        ring.skip(ring.len() - count)
    } else {
        ring
    }
}

/// A record that says it went live.
pub open spec fn as_published<T>(record: GenerationRecord<T>) -> GenerationRecord<T> {
    GenerationRecord { published: true, ..record }
}

/// A ring in which a generation says it went live.
pub open spec fn marked<T>(ring: Seq<GenerationRecord<T>>, generation: u64) -> Seq<
    GenerationRecord<T>,
> {
    ring.map_values(
        |held: GenerationRecord<T>|
            if held.generation == generation {
                as_published(held)
            } else {
                held
            },
    )
}

/// Is a generation in a ring?
pub open spec fn holds<T>(ring: Seq<GenerationRecord<T>>, generation: u64) -> bool {
    exists|i: int| 0 <= i < ring.len() && (#[trigger] ring[i]).generation == generation
}

/// The first record of a generation.
pub open spec fn find<T>(ring: Seq<GenerationRecord<T>>, generation: u64) -> GenerationRecord<T>
    decreases ring.len(),
{
    if ring.len() <= 1 || ring[0].generation == generation {
        ring[0]
    } else {
        find(ring.skip(1), generation)
    }
}

impl<T> HistoryView<T> {
    /// The history with another announcement, when someone listens.
    pub open spec fn announcing(self, change: PinChange) -> HistoryView<T> {
        if self.listening {
            HistoryView { changes: self.changes.push(change), ..self }
        } else {
            self
        }
    }

    /// The history after a generation was recorded. The record's own `published`
    /// is decided here: it went live exactly when nothing was pinned. A
    /// generation that comes again replaces its earlier record and is the newest.
    pub open spec fn recorded(self, record: GenerationRecord<T>) -> HistoryView<T> {
        let publish = self.pinned is None;
        let entry = GenerationRecord { published: publish, ..record };
        HistoryView {
            ring: newest(without(self.ring, record.generation).push(entry), self.capacity),
            live: if publish {
                record.table
            } else {
                self.live
            },
            keys: if publish {
                record.keys@
            } else {
                self.keys
            },
            ..self
        }
    }

    /// Why a generation cannot be pinned, if it cannot.
    pub open spec fn pin_refusal(self, generation: u64) -> Option<PinError> {
        match self.pinned {
            Some(current) => Some(PinError::AlreadyPinned(current)),
            None => if holds(self.ring, generation) {
                None
            } else {
                Some(PinError::Unknown(generation))
            },
        }
    }

    /// The history after a request to pin.
    pub open spec fn pinned_at(self, generation: u64) -> HistoryView<T> {
        if self.pin_refusal(generation) is Some {
            self
        } else {
            let record = find(self.ring, generation);
            HistoryView {
                live: record.table,
                keys: record.keys@,
                pinned: Some(generation),
                ring: marked(self.ring, generation),
                ..self
            }.announcing(PinChange::Pinned { generation, replaced: self.live.generation })
        }
    }

    /// The history after a request to release the pin.
    pub open spec fn resumed(self) -> HistoryView<T> {
        if self.pinned is None {
            self
        } else if self.ring.len() == 0 {
            HistoryView { pinned: None, ..self }
        } else {
            let record = self.ring.last();
            HistoryView {
                live: record.table,
                keys: record.keys@,
                pinned: None,
                ring: marked(self.ring, record.generation),
                ..self
            }.announcing(PinChange::Resumed { generation: record.generation })
        }
    }

    /// The history after several generations were recorded in turn.
    pub open spec fn recorded_all(self, records: Seq<GenerationRecord<T>>) -> HistoryView<T>
        decreases records.len(),
    {
        if records.len() == 0 {
            self
        } else {
            self.recorded_all(records.drop_last()).recorded(records.last())
        }
    }

    /// What every history keeps: the ring is bounded and holds a generation at
    /// most once; publication is held only once something was recorded; and
    /// while it is not held, the newest generation is the one on the wire and
    /// says so.
    pub open spec fn wf(self) -> bool {
        &&& self.capacity >= 1
        &&& self.ring.len() <= self.capacity
        &&& distinct(self.ring)
        &&& self.pinned is Some ==> self.ring.len() > 0
        &&& self.pinned is None && self.ring.len() > 0 ==> {
            &&& self.live == self.ring.last().table
            &&& self.keys == self.ring.last().keys@
            &&& self.ring.last().published
        }
    }
}

/// No generation is held twice.
pub open spec fn distinct<T>(ring: Seq<GenerationRecord<T>>) -> bool {
    forall|i: int, j: int|
        0 <= i < j < ring.len() ==> (#[trigger] ring[i]).generation != (
        #[trigger] ring[j]).generation
}

/// The ring of applied generations, and the publication gate in front of it.
#[derive(Debug)]
pub struct GenerationHistory<T> {
    live: Arc<Snapshot<T>>,
    certs: CertStore,
    capacity: usize,
    ring: Vec<GenerationRecord<T>>,
    pinned: Option<u64>,
    listening: bool,
    changes: Vec<PinChange>,
}


impl<T> View for GenerationHistory<T> {
    type V = HistoryView<T>;

    closed spec fn view(&self) -> HistoryView<T> {
        HistoryView {
            capacity: self.capacity as nat,
            ring: self.ring@,
            pinned: self.pinned,
            live: self.live,
            keys: self.certs@,
            listening: self.listening,
            changes: self.changes@,
        }
    }
}

impl<T> GenerationHistory<T> {
    /// A history that puts its generations in the place of `live` and `certs`.
    ///
    /// `capacity` is at least one: a ring that keeps nothing could never answer
    /// a rollback, which is the only reason it is there.
    pub fn new(live: Arc<Snapshot<T>>, certs: CertStore, capacity: usize) -> (r: Self)
        ensures
            r@ == (HistoryView {
                capacity: if capacity == 0 {
                    1
                } else {
                    capacity as nat
                },
                ring: Seq::empty(),
                pinned: None,
                live,
                keys: certs@,
                listening: false,
                changes: Seq::empty(),
            }),
            r@.wf(),
    {
        GenerationHistory {
            live,
            certs,
            capacity: if capacity == 0 {
                1
            } else {
                capacity
            },
            ring: Vec::new(),
            pinned: None,
            listening: false,
            changes: Vec::new(),
        }
    }

    /// Asks for pin and resume announcements. There is one audit trail, so a
    /// second request changes nothing.
    pub fn notify(&mut self)
        ensures
            final(self)@ == (HistoryView { listening: true, ..old(self)@ }),
    {
        self.listening = true;
    }

    /// Collects the announcements made since the last time, oldest first.
    pub fn take_changes(&mut self) -> (r: Vec<PinChange>)
        ensures
            r@ == old(self)@.changes,
            final(self)@ == (HistoryView { changes: Seq::empty(), ..old(self)@ }),
    {
        let mut taken: Vec<PinChange> = Vec::new();
        std::mem::swap(&mut taken, &mut self.changes);
        taken
    }

    /// Generations the ring holds.
    pub fn capacity(&self) -> (r: usize)
        ensures
            r == self@.capacity,
    {
        self.capacity
    }

    /// The pinned generation, if publication is being held.
    pub fn pinned(&self) -> (r: Option<u64>)
        ensures
            r == self@.pinned,
    {
        self.pinned
    }

    /// The generation currently on the wire.
    pub fn serving(&self) -> (r: u64)
        ensures
            r == self@.live.generation,
    {
        self.live.generation
    }

    /// The table currently on the wire.
    pub fn live(&self) -> (r: Arc<Snapshot<T>>)
        ensures
            r == self@.live,
    {
        share(&self.live)
    }

    /// The certificate on the wire for a handle.
    pub fn key(&self, id: u64) -> (r: Option<Arc<CertifiedKey>>)
        ensures
            r == tls::key_for(self@.keys, id),
    {
        self.certs.get(id)
    }

    /// Every record, newest last.
    pub fn records(&self) -> (r: &Vec<GenerationRecord<T>>)
        ensures
            r@ == self@.ring,
    {
        &self.ring
    }

    /// Reads the ring without copying it. The closure sees the pinned generation
    /// and every record, newest last.
    pub fn with_records<R>(
        &self,
        f: impl FnOnce(Option<u64>, &Vec<GenerationRecord<T>>) -> R,
    ) -> (r: R)
        requires
            forall|ring: &Vec<GenerationRecord<T>>|
                ring@ == self@.ring ==> call_requires(f, (self@.pinned, ring)),
        ensures
            exists|ring: &Vec<GenerationRecord<T>>|
                ring@ == self@.ring && call_ensures(f, (self@.pinned, ring), r),
    {
        let ring = &self.ring;
        assert(ring@ == self@.ring && self.pinned == self@.pinned);
        f(self.pinned, ring)
    }

    /// How what is on the wire is to be stored where handshakes and requests
    /// read it: the certificates first, then the table that names them. The
    /// other order would leave a table whose handles are not in the store.
    pub fn publication(&self) -> (r: (Step<T>, Step<T>))
        ensures
            r.0 matches Step::Certificates(keys) && keys@ == self@.keys,
            r.1 == Step::Routes(self@.live),
    {
        (Step::Certificates(self.certs.snapshot()), Step::Routes(share(&self.live)))
    }

    /// Records a generation, and publishes it unless a pin is holding it back.
    /// Returns whether it went live.
    pub fn record(
        &mut self,
        generation: u64,
        digest: u64,
        diff: Arc<serde_json::Value>,
        table: Arc<Snapshot<T>>,
        keys: Arc<CertKeys>,
        now: Moment,
    ) -> (r: bool)
        ensures
            r == (old(self)@.pinned is None),
            final(self)@ == old(self)@.recorded(
                GenerationRecord {
                    generation,
                    applied_at: now,
                    published: r,
                    digest,
                    diff,
                    table,
                    keys,
                },
            ),
            old(self)@.wf() ==> final(self)@.wf(),
    {
        let publish = self.pinned.is_none();
        if publish {
            self.apply(&keys, &table);
        }
        let record = GenerationRecord {
            generation,
            applied_at: now,
            published: publish,
            digest,
            diff,
            table,
            keys,
        };
        self.push(record);
        proof {
            if old(self)@.wf() {
                recording_keeps_the_ring(old(self)@, record);
            }
        }
        publish
    }

    /// Republishes `generation` and holds publication there.
    pub fn pin(&mut self, generation: u64) -> (r: Result<(), PinError>)
        ensures
            r == match old(self)@.pin_refusal(generation) {
                Some(error) => Err(error),
                None => Ok(()),
            },
            final(self)@ == old(self)@.pinned_at(generation),
            old(self)@.wf() ==> final(self)@.wf(),
    {
        if let Some(current) = self.pinned {
            return Err(PinError::AlreadyPinned(current));
        }
        let mut i: usize = 0;
        assert(self.ring@.skip(0) =~= self.ring@);
        while i < self.ring.len() && self.ring[i].generation != generation
            invariant
                i <= self.ring@.len(),
                forall|j: int| 0 <= j < i ==> (#[trigger] self.ring@[j]).generation != generation,
                i < self.ring@.len() ==> find(self.ring@, generation) == find(
                    self.ring@.skip(i as int),
                    generation,
                ),
            decreases self.ring@.len() - i,
        {
            assert(self.ring@.skip(i as int).skip(1) =~= self.ring@.skip(i + 1));
            i = i + 1;
        }
        if i == self.ring.len() {
            return Err(PinError::Unknown(generation));
        }
        let keys = share(&self.ring[i].keys);
        let table = share(&self.ring[i].table);
        let replaced = self.live.generation;
        self.apply(&keys, &table);
        self.pinned = Some(generation);
        self.mark_published(generation);
        self.announce(PinChange::Pinned { generation, replaced });
        Ok(())
    }

    /// Releases the pin and publishes the newest generation recorded, which it
    /// returns. Releasing a pin nobody set is not an error.
    pub fn unpin(&mut self) -> (r: Option<u64>)
        ensures
            r == if old(self)@.pinned is Some && old(self)@.ring.len() > 0 {
                Some(old(self)@.ring.last().generation)
            } else {
                None
            },
            final(self)@ == old(self)@.resumed(),
            old(self)@.wf() ==> final(self)@.wf(),
    {
        if self.pinned.is_none() {
            return None;
        }
        self.pinned = None;
        if self.ring.len() == 0 {
            return None;
        }
        let last = self.ring.len() - 1;
        let generation = self.ring[last].generation;
        let keys = share(&self.ring[last].keys);
        let table = share(&self.ring[last].table);
        self.apply(&keys, &table);
        self.mark_published(generation);
        self.announce(PinChange::Resumed { generation });
        Some(generation)
    }

    fn apply(&mut self, keys: &Arc<CertKeys>, table: &Arc<Snapshot<T>>)
        ensures
            final(self)@ == (HistoryView { live: *table, keys: keys@, ..old(self)@ }),
    {
        self.certs.publish((**keys).clone());
        self.live = share(table);
    }

    fn announce(&mut self, change: PinChange)
        ensures
            final(self)@ == old(self)@.announcing(change),
    {
        if self.listening {
            self.changes.push(change);
        }
    }

    fn push(&mut self, record: GenerationRecord<T>)
        ensures
            final(self)@ == (HistoryView {
                ring: newest(
                    without(old(self)@.ring, record.generation).push(record),
                    old(self)@.capacity,
                ),
                ..old(self)@
            }),
    {
        let generation = record.generation;
        let ghost held = self.ring@;
        let ghost others = |r: GenerationRecord<T>| r.generation != generation;
        let ghost mut seen: int = 0;
        let mut i: usize = 0;
        while i < self.ring.len()
            invariant
                0 <= seen <= held.len(),
                others == (|r: GenerationRecord<T>| r.generation != generation),
                self.ring@ == held.take(seen).filter(others) + held.skip(seen),
                i == held.take(seen).filter(others).len(),
                self@ == (HistoryView { ring: self.ring@, ..old(self)@ }),
                held == old(self)@.ring,
            decreases held.len() - seen,
        {
            proof {
                let kept = held.take(seen).filter(others);
                assert(self.ring@[i as int] == held[seen]);
                assert(held.take(seen + 1).drop_last() =~= held.take(seen));
                assert(held.take(seen + 1).last() == held[seen]);
                reveal_with_fuel(Seq::filter, 2);
                if others(held[seen]) {
                    assert(kept + held.skip(seen) =~= kept.push(held[seen]) + held.skip(seen + 1));
                } else {
                    assert((kept + held.skip(seen)).remove(i as int) =~= kept + held.skip(seen + 1));
                }
                seen = seen + 1;
            }
            if self.ring[i].generation == generation {
                let _ = self.ring.remove(i);
            } else {
                i = i + 1;
            }
        }
        assert(held.take(seen) =~= held);
        assert(self.ring@ =~= without(held, generation));
        self.ring.push(record);
        let ghost all = self.ring@;
        while self.ring.len() > self.capacity
            invariant
                self.ring@.len() <= all.len(),
                self.ring@ == all.skip(all.len() - self.ring@.len()),
                all.len() > self.capacity ==> self.ring@.len() >= self.capacity,
                all.len() <= self.capacity ==> self.ring@.len() == all.len(),
                self@ == (HistoryView { ring: self.ring@, ..old(self)@ }),
            decreases self.ring@.len(),
        {
            let _ = self.ring.remove(0);
        }
        assert(self.ring@ =~= newest(all, self.capacity as nat));
    }

    fn mark_published(&mut self, generation: u64)
        ensures
            final(self)@ == (HistoryView { ring: marked(old(self)@.ring, generation), ..old(self)@ }),
    {
        let ghost held = self.ring@;
        let mut i: usize = 0;
        while i < self.ring.len()
            invariant
                i <= self.ring@.len(),
                self.ring@.len() == held.len(),
                forall|j: int|
                    #![trigger self.ring@[j]]
                    0 <= j < i ==> self.ring@[j] == marked(held, generation)[j],
                forall|j: int| #![trigger self.ring@[j]] i <= j < held.len() ==> self.ring@[j] == held[j],
                self@ == (HistoryView { ring: self.ring@, ..old(self)@ }),
            decreases self.ring@.len() - i,
        {
            if self.ring[i].generation == generation {
                self.ring[i].published = true;
            }
            i = i + 1;
        }
        assert(self.ring@ =~= marked(held, generation));
    }
}

/// Dropping a generation drops only it.
proof fn lemma_without<T>(ring: Seq<GenerationRecord<T>>, generation: u64)
    ensures
        without(ring, generation).len() <= ring.len(),
        forall|i: int|
            0 <= i < without(ring, generation).len() ==> (
            #[trigger] without(ring, generation)[i]).generation != generation && ring.contains(
                without(ring, generation)[i],
            ),
        distinct(ring) ==> distinct(without(ring, generation)),
    decreases ring.len(),
{
    reveal(Seq::filter);
    if ring.len() > 0 {
        let rest = ring.drop_last();
        lemma_without(rest, generation);
        let fewer = without(rest, generation);
        let all = without(ring, generation);
        assert forall|i: int| 0 <= i < all.len() implies (#[trigger] all[i]).generation != generation
            && ring.contains(all[i]) by {
            if i < fewer.len() {
                assert(all[i] == fewer[i]);
                let j = choose|j: int| 0 <= j < rest.len() && rest[j] == fewer[i];
                assert(ring[j] == all[i]);
            } else {
                assert(ring[ring.len() - 1] == all[i]);
            }
        }
        if distinct(ring) {
            assert(distinct(rest)) by {
                assert forall|i: int, j: int| 0 <= i < j < rest.len() implies (
                #[trigger] rest[i]).generation != (#[trigger] rest[j]).generation by {
                    assert(ring[i] == rest[i] && ring[j] == rest[j]);
                }
            }
            assert forall|i: int, j: int| 0 <= i < j < all.len() implies (
            #[trigger] all[i]).generation != (#[trigger] all[j]).generation by {
                assert(all[i] == fewer[i]);
                if j < fewer.len() {
                    assert(all[j] == fewer[j]);
                } else {
                    let k = choose|k: int| 0 <= k < rest.len() && rest[k] == fewer[i];
                    assert(ring[k] == all[i] && ring[ring.len() - 1] == all[j]);
                }
            }
        }
    }
}

/// Recording keeps what every history keeps, and what was recorded is the
/// newest.
pub proof fn recording_keeps_the_ring<T>(history: HistoryView<T>, record: GenerationRecord<T>)
    requires
        history.wf(),
    ensures
        history.recorded(record).wf(),
        history.recorded(record).ring.len() > 0,
        history.recorded(record).ring.last() == (GenerationRecord {
            published: history.pinned is None,
            ..record
        }),
{
    let entry = GenerationRecord { published: history.pinned is None, ..record };
    let others = without(history.ring, record.generation);
    lemma_without(history.ring, record.generation);
    let all = others.push(entry);
    assert(distinct(all));
    let ring = newest(all, history.capacity);
    assert(ring.last() == entry);
    assert forall|i: int, j: int| 0 <= i < j < ring.len() implies (#[trigger] ring[i]).generation != (
    #[trigger] ring[j]).generation by {
        let gone = all.len() - ring.len();
        assert(ring[i] == all[gone + i] && ring[j] == all[gone + j]);
    }
}

/// While a generation is pinned nothing that is recorded reaches the wire, and
/// the pin stays; each such record says that it did not go live.
pub proof fn a_pin_holds_publication<T>(
    history: HistoryView<T>,
    generation: u64,
    records: Seq<GenerationRecord<T>>,
)
    requires
        history.wf(),
        history.pin_refusal(generation) is None,
    ensures
        ({
            let held = history.pinned_at(generation);
            let after = held.recorded_all(records);
            &&& after.wf()
            &&& after.pinned == Some(generation)
            &&& after.live == find(history.ring, generation).table
            &&& after.keys == find(history.ring, generation).keys@
            &&& after.changes == held.changes
            &&& records.len() > 0 ==> !after.ring.last().published
        }),
    decreases records.len(),
{
    pinning_keeps_the_ring(history, generation);
    if records.len() > 0 {
        a_pin_holds_publication(history, generation, records.drop_last());
        let before = history.pinned_at(generation).recorded_all(records.drop_last());
        recording_keeps_the_ring(before, records.last());
    }
}

/// Pinning keeps what every history keeps, and puts the first record of the
/// generation on the wire.
pub proof fn pinning_keeps_the_ring<T>(history: HistoryView<T>, generation: u64)
    requires
        history.wf(),
    ensures
        history.pinned_at(generation).wf(),
{
    let ring = history.ring;
    let after = marked(ring, generation);
    assert forall|i: int, j: int| 0 <= i < j < after.len() implies (
    #[trigger] after[i]).generation != (#[trigger] after[j]).generation by {
        assert(ring[i].generation != ring[j].generation);
    }
}

/// A refused pin changes nothing.
pub proof fn a_refused_pin_changes_nothing<T>(history: HistoryView<T>, generation: u64)
    ensures
        history.pin_refusal(generation) is Some ==> history.pinned_at(generation) == history,
        history.pin_refusal(generation) == Some(PinError::Unknown(generation)) <==> (
        history.pinned is None && !holds(history.ring, generation)),
        forall|current: u64|
            history.pin_refusal(generation) == Some(PinError::AlreadyPinned(current))
                <==> history.pinned == Some(current),
{
}

/// The record that is found for a generation is one of that generation.
pub proof fn what_is_pinned_is_what_was_asked_for<T>(
    ring: Seq<GenerationRecord<T>>,
    generation: u64,
)
    requires
        holds(ring, generation),
    ensures
        find(ring, generation).generation == generation,
        ring.contains(find(ring, generation)),
    decreases ring.len(),
{
    if ring[0].generation == generation {
        assert(ring.contains(ring[0]));
    } else {
        let i = choose|i: int| 0 <= i < ring.len() && (#[trigger] ring[i]).generation == generation;
        let rest = ring.skip(1);
        assert(rest[i - 1] == ring[i]);
        what_is_pinned_is_what_was_asked_for(rest, generation);
        let j = choose|j: int| 0 <= j < rest.len() && rest[j] == find(rest, generation);
        assert(ring[j + 1] == find(rest, generation));
    }
}

/// Releasing a pin publishes the newest generation recorded, not the next one,
/// and leaves those it skipped saying that they never went live.
pub proof fn resuming_publishes_the_newest<T>(history: HistoryView<T>)
    requires
        history.wf(),
        history.pinned is Some,
    ensures
        ({
            let after = history.resumed();
            let newest = history.ring.last();
            &&& after.wf()
            &&& after.pinned is None
            &&& after.live == newest.table
            &&& after.keys == newest.keys@
            &&& after.ring == history.ring.update(history.ring.len() - 1, as_published(newest))
        }),
{
    let ring = history.ring;
    let after = history.resumed();
    let last = ring.len() - 1;
    assert forall|i: int| 0 <= i < ring.len() implies #[trigger] after.ring[i] == ring.update(
        last,
        as_published(ring.last()),
    )[i] by {
        if i < last {
            assert(ring[i].generation != ring[last].generation);
        }
    }
    assert(after.ring =~= ring.update(last, as_published(ring.last())));
    assert(distinct(after.ring)) by {
        assert forall|i: int, j: int| 0 <= i < j < ring.len() implies (
        #[trigger] after.ring[i]).generation != (#[trigger] after.ring[j]).generation by {
            assert(ring[i].generation != ring[j].generation);
        }
    }
}

/// Releasing a pin nobody set, or releasing it again, changes nothing.
pub proof fn releasing_twice_is_releasing_once<T>(history: HistoryView<T>)
    ensures
        history.pinned is None ==> history.resumed() == history,
        history.resumed().resumed() == history.resumed(),
{
}

/// A ring that is filled with different generations keeps the newest, up to its
/// capacity, in the order in which they came.
pub proof fn the_ring_keeps_the_newest<T>(
    history: HistoryView<T>,
    records: Seq<GenerationRecord<T>>,
)
    requires
        history.wf(),
        history.ring.len() == 0,
        distinct(records),
    ensures
        history.recorded_all(records).wf(),
        history.recorded_all(records).pinned is None,
        history.recorded_all(records).capacity == history.capacity,
        history.recorded_all(records).ring == newest(
            records.map_values(|r: GenerationRecord<T>| as_published(r)),
            history.capacity,
        ),
    decreases records.len(),
{
    let mapped = records.map_values(|r: GenerationRecord<T>| as_published(r));
    if records.len() == 0 {
        assert(newest(mapped, history.capacity) =~= history.ring);
    } else {
        let rest = records.drop_last();
        assert(distinct(rest)) by {
            assert forall|i: int, j: int| 0 <= i < j < rest.len() implies (
            #[trigger] rest[i]).generation != (#[trigger] rest[j]).generation by {
                assert(records[i] == rest[i] && records[j] == rest[j]);
            }
        }
        the_ring_keeps_the_newest(history, rest);
        let before = history.recorded_all(rest);
        let record = records.last();
        recording_keeps_the_ring(before, record);
        let rest_mapped = rest.map_values(|r: GenerationRecord<T>| as_published(r));
        assert forall|i: int| 0 <= i < before.ring.len() implies (
        #[trigger] before.ring[i]).generation != record.generation by {
            let gone = rest.len() - before.ring.len();
            assert(before.ring[i] == rest_mapped[gone + i]);
            assert(records[gone + i].generation != records[records.len() - 1].generation);
        }
        lemma_without_nothing(before.ring, record.generation);
        assert(mapped =~= rest_mapped.push(as_published(record)));
        assert(history.recorded_all(records).ring =~= newest(mapped, history.capacity));
    }
}

/// Dropping a generation that is not there changes nothing.
proof fn lemma_without_nothing<T>(ring: Seq<GenerationRecord<T>>, generation: u64)
    requires
        forall|i: int| 0 <= i < ring.len() ==> (#[trigger] ring[i]).generation != generation,
    ensures
        without(ring, generation) == ring,
    decreases ring.len(),
{
    reveal(Seq::filter);
    if ring.len() > 0 {
        let rest = ring.drop_last();
        assert forall|i: int| 0 <= i < rest.len() implies (#[trigger] rest[i]).generation
            != generation by {
            assert(ring[i] == rest[i]);
        }
        lemma_without_nothing(rest, generation);
        assert(without(ring, generation) =~= ring);
    }
}

// ---------------------------------------------------------------------------
// Over any sequence of calls
// ---------------------------------------------------------------------------

/// What may be asked of a history.
pub enum Call<T> {
    /// A generation is recorded.
    Record(GenerationRecord<T>),
    /// A generation is to be pinned.
    Pin(u64),
    /// The pin is to be released.
    Unpin,
}

impl<T> HistoryView<T> {
    /// The history after a call.
    pub open spec fn called(self, call: Call<T>) -> HistoryView<T> {
        match call {
            Call::Record(record) => self.recorded(record),
            Call::Pin(generation) => self.pinned_at(generation),
            Call::Unpin => self.resumed(),
        }
    }

    /// The history after several calls in turn.
    pub open spec fn called_all(self, calls: Seq<Call<T>>) -> HistoryView<T>
        decreases calls.len(),
    {
        if calls.len() == 0 {
            self
        } else {
            self.called_all(calls.drop_last()).called(calls.last())
        }
    }
}

/// Records without what they say of having gone live, which is the one thing that
/// changes once a record is made.
pub open spec fn contents<T>(ring: Seq<GenerationRecord<T>>) -> Seq<GenerationRecord<T>> {
    ring.map_values(|held: GenerationRecord<T>| as_published(held))
}

/// Every generation that was recorded, once, in its latest version and in the order
/// of the latest recordings.
pub open spec fn latest<T>(calls: Seq<Call<T>>) -> Seq<GenerationRecord<T>>
    decreases calls.len(),
{
    if calls.len() == 0 {
        Seq::empty()
    } else {
        let before = latest(calls.drop_last());
        match calls.last() {
            Call::Record(record) => without(before, record.generation).push(as_published(record)),
            _ => before,
        }
    }
}

proof fn lemma_contents_without<T>(ring: Seq<GenerationRecord<T>>, generation: u64)
    ensures
        contents(without(ring, generation)) == without(contents(ring), generation),
    decreases ring.len(),
{
    reveal(Seq::filter);
    if ring.len() > 0 {
        let rest = ring.drop_last();
        lemma_contents_without(rest, generation);
        assert(contents(ring).drop_last() =~= contents(rest));
        assert(contents(ring).last() == as_published(ring.last()));
        if ring.last().generation != generation {
            assert(contents(without(rest, generation).push(ring.last())) =~= contents(
                without(rest, generation),
            ).push(as_published(ring.last())));
        }
    } else {
        assert(contents(without(ring, generation)) =~= without(contents(ring), generation));
    }
}

proof fn lemma_contents_marked<T>(ring: Seq<GenerationRecord<T>>, generation: u64)
    ensures
        contents(marked(ring, generation)) == contents(ring),
{
    assert(contents(marked(ring, generation)) =~= contents(ring));
}

proof fn lemma_at_most_one_goes<T>(ring: Seq<GenerationRecord<T>>, generation: u64)
    requires
        distinct(ring),
    ensures
        without(ring, generation).len() >= ring.len() - 1,
    decreases ring.len(),
{
    reveal(Seq::filter);
    if ring.len() > 0 {
        let rest = ring.drop_last();
        assert forall|i: int, j: int| 0 <= i < j < rest.len() implies (
        #[trigger] rest[i]).generation != (#[trigger] rest[j]).generation by {
            assert(ring[i] == rest[i] && ring[j] == rest[j]);
        }
        lemma_at_most_one_goes(rest, generation);
        if ring.last().generation == generation {
            assert forall|i: int| 0 <= i < rest.len() implies (#[trigger] rest[i]).generation
                != generation by {
                assert(ring[i].generation != ring[ring.len() - 1].generation);
            }
            lemma_without_nothing(rest, generation);
        }
    }
}

/// Recording over the newest of a list is recording over the list.
proof fn lemma_newest_of_recorded<T>(
    list: Seq<GenerationRecord<T>>,
    capacity: nat,
    entry: GenerationRecord<T>,
)
    requires
        distinct(list),
        capacity >= 1,
    ensures
        newest(without(newest(list, capacity), entry.generation).push(entry), capacity) == newest(
            without(list, entry.generation).push(entry),
            capacity,
        ),
{
    let generation = entry.generation;
    if list.len() > capacity {
        let old = list.take(list.len() - capacity);
        let kept = newest(list, capacity);
        assert(list =~= old + kept);
        Seq::filter_distributes_over_add(
            old,
            kept,
            |held: GenerationRecord<T>| held.generation != generation,
        );
        assert(without(list, generation) == without(old, generation) + without(kept, generation));
        assert forall|i: int, j: int| 0 <= i < j < kept.len() implies (
        #[trigger] kept[i]).generation != (#[trigger] kept[j]).generation by {
            let gone = list.len() - capacity;
            assert(kept[i] == list[gone + i] && kept[j] == list[gone + j]);
        }
        lemma_at_most_one_goes(kept, generation);
        let front = without(old, generation);
        let back = without(kept, generation).push(entry);
        assert(without(list, generation).push(entry) =~= front + back);
        assert(back.len() >= capacity);
        assert(newest(front + back, capacity) =~= newest(back, capacity));
    }
}

/// Whatever is recorded, pinned and released, and however often: the ring holds the
/// generations recorded most recently, as many as it has room for, each once and in
/// its latest version, in the order of the latest recordings and the newest last.
pub proof fn the_ring_keeps_the_most_recent<T>(history: HistoryView<T>, calls: Seq<Call<T>>)
    requires
        history.wf(),
        history.ring.len() == 0,
    ensures
        ({
            let after = history.called_all(calls);
            &&& after.wf()
            &&& after.capacity == history.capacity
            &&& contents(after.ring) == newest(latest(calls), history.capacity)
            &&& distinct(latest(calls))
        }),
    decreases calls.len(),
{
    if calls.len() == 0 {
        assert(contents(history.ring) =~= newest(latest(calls), history.capacity));
    } else {
        the_ring_keeps_the_most_recent(history, calls.drop_last());
        let before = history.called_all(calls.drop_last());
        let list = latest(calls.drop_last());
        match calls.last() {
            Call::Record(record) => {
                recording_keeps_the_ring(before, record);
                lemma_without(list, record.generation);
                assert(distinct(latest(calls)));
                let entry = GenerationRecord { published: before.pinned is None, ..record };
                let others = without(before.ring, record.generation);
                lemma_contents_without(before.ring, record.generation);
                assert(contents(others.push(entry)) =~= contents(others).push(
                    as_published(record),
                ));
                assert(contents(newest(others.push(entry), history.capacity)) =~= newest(
                    contents(others.push(entry)),
                    history.capacity,
                ));
                lemma_newest_of_recorded(list, history.capacity, as_published(record));
            },
            Call::Pin(generation) => {
                pinning_keeps_the_ring(before, generation);
                lemma_contents_marked(before.ring, generation);
            },
            Call::Unpin => {
                if before.pinned is Some {
                    resuming_publishes_the_newest(before);
                    lemma_contents_marked(before.ring, before.ring.last().generation);
                }
            },
        }
    }
}

/// A generation is among the latest exactly when it was recorded.
pub proof fn what_was_recorded_is_among_the_latest<T>(calls: Seq<Call<T>>, generation: u64)
    ensures
        holds(latest(calls), generation) <==> exists|i: int|
            0 <= i < calls.len() && (#[trigger] calls[i] matches Call::Record(record)
                && record.generation == generation),
    decreases calls.len(),
{
    if calls.len() > 0 {
        let rest = calls.drop_last();
        let before = latest(rest);
        let now = latest(calls);
        what_was_recorded_is_among_the_latest(rest, generation);
        let last = calls.len() - 1;
        if exists|i: int|
            0 <= i < rest.len() && (#[trigger] rest[i] matches Call::Record(record)
                && record.generation == generation) {
            let i = choose|i: int|
                0 <= i < rest.len() && (#[trigger] rest[i] matches Call::Record(record)
                    && record.generation == generation);
            assert(calls[i] == rest[i]);
        }
        if exists|i: int|
            0 <= i < calls.len() && (#[trigger] calls[i] matches Call::Record(record)
                && record.generation == generation) {
            let i = choose|i: int|
                0 <= i < calls.len() && (#[trigger] calls[i] matches Call::Record(record)
                    && record.generation == generation);
            if i < last {
                assert(rest[i] == calls[i]);
            }
        }
        if let Call::Record(record) = calls.last() {
            assert(calls[last] is Record);
            lemma_without(before, record.generation);
            let fewer = without(before, record.generation);
            assert(now[now.len() - 1].generation == record.generation);
            if record.generation != generation {
                if holds(before, generation) {
                    let k = choose|k: int|
                        0 <= k < before.len() && (#[trigger] before[k]).generation == generation;
                    before.lemma_filter_contains(
                        |held: GenerationRecord<T>| held.generation != record.generation,
                        k,
                    );
                    let j = choose|j: int| 0 <= j < fewer.len() && fewer[j] == before[k];
                    assert(now[j] == fewer[j]);
                }
                if holds(now, generation) {
                    let k = choose|k: int|
                        0 <= k < now.len() && (#[trigger] now[k]).generation == generation;
                    assert(now[k] == fewer[k]);
                    let j = choose|j: int| 0 <= j < before.len() && before[j] == fewer[k];
                    assert(before[j].generation == generation);
                }
            }
        }
    }
}

/// What is recorded goes live unless a pin holds publication: then it is kept, marked as
/// not published, and table, keys and pin stay what they are. Either way nobody is told,
/// and it is the newest of the ring.
pub proof fn a_record_goes_live_unless_pinned<T>(history: HistoryView<T>, record: GenerationRecord<T>)
    requires
        history.capacity >= 1,
    ensures
        ({
            let after = history.recorded(record);
            &&& history.pinned is None ==> after.live == record.table && after.keys == record.keys@
            &&& history.pinned is Some ==> after.live == history.live && after.keys == history.keys
            &&& after.pinned == history.pinned
            &&& after.changes == history.changes
            &&& after.listening == history.listening
            &&& after.ring.len() >= 1
            &&& after.ring.last().generation == record.generation
            &&& after.ring.last().table == record.table
            &&& after.ring.last().keys == record.keys
            &&& after.ring.last().digest == record.digest
            &&& after.ring.last().diff == record.diff
            &&& after.ring.last().applied_at == record.applied_at
            &&& after.ring.last().published <==> history.pinned is None
            &&& after.ring.len() <= history.capacity || after.ring.len() <= history.ring.len() + 1
        }),
{
    let entry = GenerationRecord { published: history.pinned is None, ..record };
    let all = without(history.ring, record.generation).push(entry);
    assert(newest(all, history.capacity).last() == entry);
}

/// Pinning puts the table and the keys that were recorded under that number back on the
/// wire, holds publication there, and says so with the number it replaced to whoever
/// asked. It is refused for a number that is not in the ring and while another pin
/// holds, and changes nothing then.
pub proof fn a_pin_republishes_what_was_recorded<T>(history: HistoryView<T>, generation: u64, i: int)
    requires
        distinct(history.ring),
        0 <= i < history.ring.len(),
        history.ring[i].generation == generation,
    ensures
        history.pinned is None ==> {
            let after = history.pinned_at(generation);
            &&& history.pin_refusal(generation) is None
            &&& after.pinned == Some(generation)
            &&& after.live == history.ring[i].table
            &&& after.keys == history.ring[i].keys@
            &&& after.ring.len() == history.ring.len()
            &&& after.ring[i].published
            &&& forall|j: int|
                0 <= j < history.ring.len() && j != i ==> #[trigger] after.ring[j]
                    == history.ring[j]
            &&& history.listening ==> after.changes == history.changes.push(
                PinChange::Pinned { generation, replaced: history.live.generation },
            )
            &&& !history.listening ==> after.changes == history.changes
        },
        history.pinned matches Some(current) ==> history.pinned_at(generation) == history
            && history.pin_refusal(generation) == Some(PinError::AlreadyPinned(current)),
{
    if history.pinned is None {
        assert(holds(history.ring, generation));
        what_is_pinned_is_what_was_asked_for(history.ring, generation);
        let found = find(history.ring, generation);
        let k = choose|k: int| 0 <= k < history.ring.len() && history.ring[k] == found;
        if k < i {
            assert(history.ring[k].generation != history.ring[i].generation);
        } else if i < k {
            assert(history.ring[i].generation != history.ring[k].generation);
        }
        let after = history.pinned_at(generation);
        assert forall|j: int| 0 <= j < history.ring.len() && j != i implies #[trigger] after.ring[j]
            == history.ring[j] by {
            if j < i {
                assert(history.ring[j].generation != history.ring[i].generation);
            } else {
                assert(history.ring[i].generation != history.ring[j].generation);
            }
        }
    }
}

/// A number that the ring does not hold cannot be pinned.
pub proof fn what_is_not_in_the_ring_cannot_be_pinned<T>(history: HistoryView<T>, generation: u64)
    requires
        history.pinned is None,
        forall|i: int|
            0 <= i < history.ring.len() ==> (#[trigger] history.ring[i]).generation != generation,
    ensures
        history.pin_refusal(generation) == Some(PinError::Unknown(generation)),
        history.pinned_at(generation) == history,
{
}

/// Releasing says which generation went live, to whoever asked, and keeps every record.
pub proof fn a_release_is_told<T>(history: HistoryView<T>)
    requires
        history.pinned is Some,
        history.ring.len() > 0,
    ensures
        ({
            let after = history.resumed();
            &&& after.ring.len() == history.ring.len()
            &&& after.live == history.ring.last().table
            &&& history.listening ==> after.changes == history.changes.push(
                PinChange::Resumed { generation: history.ring.last().generation },
            )
            &&& !history.listening ==> after.changes == history.changes
        }),
{
}

/// What a refusal says: the number that was asked for, or the one that is pinned.
pub proof fn a_refusal_names_its_number(generation: u64)
    ensures
        pin_error_text(PinError::Unknown(generation)) == "generation "@ + text::decimal(
            generation as nat,
        ) + " is not in the history"@,
        pin_error_text(PinError::AlreadyPinned(generation)) == "already pinned to generation "@
            + text::decimal(generation as nat),
{
}

} // verus!
