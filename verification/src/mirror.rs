//! Fire-and-forget request mirroring.
//!
//! A route can send a second copy of each sampled request to a shadow backend
//! and throw the answer away. A mirror never makes the primary request slower
//! or more likely to fail: nothing is awaited, the queue is bounded and drops,
//! responses are discarded, and failures are counted and never passed on.
//!
//! The body is the hard part. A request with a body is read up to a cap. If it
//! fits, both copies get it. If it does not, everything that was read goes to
//! the primary in front of the rest of the stream, and no copy is made.
use bytes::Bytes;
use vstd::prelude::*;
use crate::buffers;
use crate::metrics;
use crate::metrics::Metrics;
use crate::time::Duration;

verus! {

/// Marks a request as a copy, so a shadow backend can tell one from the real
/// thing.
pub const MIRRORED_BY: &'static str = "x-mirrored-by";

/// The value of that field.
pub const MIRRORED_BY_VALUE: &'static str = "ramjet-ingress";

/// Largest request body copied to a mirror when nothing else is asked for. Above
/// essentially every API request, and below every upload.
pub const DEFAULT_MIRROR_MAX_BODY: usize = 262144;

/// Copies one serving runtime will hold before it starts dropping them.
pub const MIRROR_QUEUE_DEPTH: usize = 256;

/// How long one mirrored exchange gets, in total. Nobody waits for the answer,
/// so all the bound protects is the queue behind it.
pub fn mirror_timeout() -> (r: Duration)
    ensures
        r@ == 5_000_000_000,
{
    Duration::from_secs(5)
}

/// One serving runtime's mirror, apart from its queue.
#[derive(Debug, Clone, Copy)]
pub struct Mirror {
    max_body: usize,
}

impl View for Mirror {
    type V = nat;

    /// The body cap in force.
    closed spec fn view(&self) -> nat {
        self.max_body as nat
    }
}

impl Default for Mirror {
    fn default() -> (r: Mirror)
        ensures
            r@ == DEFAULT_MIRROR_MAX_BODY,
    {
        Mirror { max_body: DEFAULT_MIRROR_MAX_BODY }
    }
}

impl Mirror {
    /// Sets the largest body this runtime will buffer in order to mirror it.
    pub fn with_max_body(self, max_body: usize) -> (r: Mirror)
        ensures
            r@ == max_body,
    {
        Mirror { max_body }
    }

    /// The body cap in force.
    pub fn max_body(&self) -> (r: usize)
        ensures
            r == self@,
    {
        self.max_body
    }

    /// Counts a copy that the queue did not take. A full queue is the drop, and a
    /// closed one means the runtime is shutting down; neither is something the
    /// request path learns about.
    pub fn enqueued(&self, metrics: &mut Metrics, taken: bool)
        ensures
            *final(metrics) == if taken {
                *old(metrics)
            } else {
                Metrics {
                    mirror_dropped: metrics::bumped(old(metrics).mirror_dropped),
                    ..*old(metrics)
                }
            },
            !taken ==> metrics::counts_one(
                *old(metrics),
                "ramjet_mirror_dropped_total"@,
                *final(metrics),
            ),
    {
        if !taken {
            metrics.record_mirror_dropped();
        }
    }

    /// Counts a copy that was sent: accepted when the exchange ended in time and
    /// without an error, and failed otherwise.
    pub fn exchanged(&self, metrics: &mut Metrics, accepted: bool)
        ensures
            *final(metrics) == if accepted {
                Metrics { mirrored: metrics::bumped(old(metrics).mirrored), ..*old(metrics) }
            } else {
                Metrics {
                    mirror_failures: metrics::bumped(old(metrics).mirror_failures),
                    ..*old(metrics)
                }
            },
            metrics::counts_one(
                *old(metrics),
                if accepted {
                    "ramjet_mirrored_total"@
                } else {
                    "ramjet_mirror_failures_total"@
                },
                *final(metrics),
            ),
    {
        if accepted {
            metrics.record_mirrored();
        } else {
            metrics.record_mirror_failure();
        }
    }
}

/// What a request body offered.
#[derive(Debug)]
pub enum Piece<F, E> {
    /// Nothing more.
    End,
    /// A chunk.
    Data(Bytes),
    /// Trailers.
    Trailers(F),
    /// The body failed.
    Failed(E),
}

/// What reading a request body for mirroring produced.
#[derive(Debug)]
pub enum Buffered<F, E> {
    /// The whole body, within the cap. Both copies get these bytes.
    Complete(Bytes),
    /// The body was larger than the cap, or offered something that is not data.
    ///
    /// The bytes already read, and what was read after them and is no data. The
    /// primary gets both, in front of the rest of the stream, and the mirror is
    /// skipped.
    TooLarge {
        prefix: Bytes,
        next: Option<Piece<F, E>>,
    },
}

/// A body being read for mirroring.
#[derive(Debug)]
pub struct Buffering {
    held: Vec<u8>,
    cap: usize,
}

/// A body being read, without its storage.
#[verifier::ext_equal]
pub struct BufferingView {
    pub held: Seq<u8>,
    pub cap: nat,
}

impl View for Buffering {
    type V = BufferingView;

    closed spec fn view(&self) -> BufferingView {
        BufferingView { held: self.held@, cap: self.cap as nat }
    }
}

impl BufferingView {
    /// Does this piece end the reading?
    pub open spec fn ends<F, E>(self, piece: Piece<F, E>) -> bool {
        match piece {
            Piece::Data(chunk) => self.held.len() + buffers::content(chunk).len() > self.cap,
            _ => true,
        }
    }

    /// The bytes held after a piece.
    pub open spec fn with<F, E>(self, piece: Piece<F, E>) -> BufferingView {
        match piece {
            Piece::Data(chunk) => BufferingView {
                held: self.held + buffers::content(chunk),
                ..self
            },
            _ => self,
        }
    }
}

/// Whether a result is what the reading of `view` ends in at `piece`.
pub open spec fn ended_at<F, E>(view: BufferingView, piece: Piece<F, E>, r: Buffered<F, E>) -> bool {
    match piece {
        Piece::End => r matches Buffered::Complete(bytes) && buffers::content(bytes) == view.held,
        Piece::Data(chunk) => r matches Buffered::TooLarge { prefix, next } && next is None
            && buffers::content(prefix) == view.held + buffers::content(chunk),
        _ => r matches Buffered::TooLarge { prefix, next } && next == Some(piece)
            && buffers::content(prefix) == view.held,
    }
}

impl Buffering {
    /// Nothing read yet, of a body that may be read up to `cap`.
    pub fn new(cap: usize) -> (r: Buffering)
        ensures
            r@ == (BufferingView { held: Seq::empty(), cap: cap as nat }),
    {
        Buffering { held: Vec::new(), cap }
    }

    /// Takes the next piece; gives the result when it ended the reading.
    ///
    /// Trailers and failures end it and are handed back, not dropped: taking part
    /// of the request away in order to make a copy of it would be the wrong
    /// trade.
    pub fn take<F, E>(&mut self, piece: Piece<F, E>) -> (r: Option<Buffered<F, E>>)
        ensures
            r is Some <==> old(self)@.ends(piece),
            r matches Some(result) ==> ended_at(old(self)@, piece, result),
            r is None ==> final(self)@ == old(self)@.with(piece),
    {
        match piece {
            Piece::Data(chunk) => {
                self.held.extend_from_slice(buffers::as_slice(&chunk));
                assert(self.held@ =~= old(self).held@ + buffers::content(chunk));
                if self.held.len() > self.cap {
                    Some(Buffered::TooLarge { prefix: self.freeze(), next: None })
                } else {
                    None
                }
            },
            Piece::End => Some(Buffered::Complete(self.freeze())),
            other => Some(Buffered::TooLarge { prefix: self.freeze(), next: Some(other) }),
        }
    }

    fn freeze(&mut self) -> (r: Bytes)
        ensures
            buffers::content(r) == old(self)@.held,
    {
        let mut held: Vec<u8> = Vec::new();
        std::mem::swap(&mut held, &mut self.held);
        buffers::from_vec(held)
    }
}

/// The bytes that pieces carry, in order.
pub open spec fn carried<F, E>(pieces: Seq<Piece<F, E>>) -> Seq<u8>
    decreases pieces.len(),
{
    if pieces.len() == 0 {
        Seq::empty()
    } else {
        carried(pieces.drop_last()) + match pieces.last() {
            Piece::Data(chunk) => buffers::content(chunk),
            _ => Seq::empty(),
        }
    }
}

/// A reading that took pieces and has not ended.
pub open spec fn after_pieces<F, E>(cap: nat, pieces: Seq<Piece<F, E>>) -> BufferingView
    decreases pieces.len(),
{
    if pieces.len() == 0 {
        BufferingView { held: Seq::empty(), cap }
    } else {
        after_pieces(cap, pieces.drop_last()).with(pieces.last())
    }
}

/// None of the pieces ended the reading.
pub open spec fn goes_on<F, E>(cap: nat, pieces: Seq<Piece<F, E>>) -> bool
    decreases pieces.len(),
{
    pieces.len() > 0 ==> {
        &&& goes_on(cap, pieces.drop_last())
        &&& !after_pieces(cap, pieces.drop_last()).ends(pieces.last())
    }
}

/// Nothing is lost: however the reading ends, the bytes handed back are all the
/// bytes that were taken, in order, and a piece that is no data is handed back
/// itself. A complete body is within the cap and one that is cut off by its size
/// is not.
pub proof fn reading_for_a_mirror_loses_nothing<F, E>(
    cap: nat,
    pieces: Seq<Piece<F, E>>,
    last: Piece<F, E>,
    result: Buffered<F, E>,
)
    requires
        goes_on(cap, pieces),
        after_pieces(cap, pieces).ends(last),
        ended_at(after_pieces(cap, pieces), last, result),
    ensures
        match result {
            Buffered::Complete(bytes) => {
                &&& last is End
                &&& buffers::content(bytes) == carried(pieces.push(last))
                &&& buffers::content(bytes).len() <= cap
            },
            Buffered::TooLarge { prefix, next } => {
                &&& buffers::content(prefix) == carried(pieces.push(last))
                &&& match next {
                    Some(piece) => piece == last && !(last is Data),
                    None => last is Data && buffers::content(prefix).len() > cap,
                }
            },
        },
{
    lemma_what_is_held(cap, pieces);
    assert(pieces.push(last).drop_last() =~= pieces);
    assert(carried(pieces) + Seq::<u8>::empty() =~= carried(pieces));
}

proof fn lemma_what_is_held<F, E>(cap: nat, pieces: Seq<Piece<F, E>>)
    requires
        goes_on(cap, pieces),
    ensures
        after_pieces(cap, pieces).held == carried(pieces),
        after_pieces(cap, pieces).cap == cap,
        after_pieces(cap, pieces).held.len() <= cap,
    decreases pieces.len(),
{
    if pieces.len() > 0 {
        lemma_what_is_held(cap, pieces.drop_last());
    }
}

/// A copy is marked, its body is bounded, and the cap on it is a quarter of a
/// mebibyte when nothing else is asked for.
pub proof fn a_copy_is_marked_and_bounded()
    ensures
        MIRRORED_BY@ == "x-mirrored-by"@,
        MIRRORED_BY_VALUE@ == "ramjet-ingress"@,
        DEFAULT_MIRROR_MAX_BODY == 256 * 1024,
        MIRROR_QUEUE_DEPTH == 256,
{
}

} // verus!
