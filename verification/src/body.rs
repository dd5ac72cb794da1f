//! The one body type that flows in both directions.
//!
//! A proxy handles a small and closed set of bodies: a stream borrowed from the
//! other side of the connection, a small chunk this library made itself, and
//! nothing at all. Nothing here buffers on its own. The one exception keeps
//! that promise: bytes that were read for a mirror and turned out to be too
//! many become a prefix, and the rest stays a stream.
//!
//! A body says what comes next; where that is the stream's own next frame, the
//! owner of the stream asks it.
use bytes::Bytes;
use vstd::prelude::*;
use crate::buffers;
use crate::http3::RequestBody;
use crate::text::push_text;

verus! {

/// What is known of a body's length before it is read.
#[derive(Debug, Clone, Copy, PartialEq, Eq, Structural)]
pub struct SizeHint {
    /// At least this many bytes are to come.
    pub lower: u64,
    /// At most this many, where that is known.
    pub upper: Option<u64>,
}

/// A length that is known.
pub open spec fn exactly(n: u64) -> SizeHint {
    SizeHint { lower: n, upper: Some(n) }
}

/// The sum of two lengths, clipped to the largest.
pub open spec fn clipped_sum(a: u64, b: nat) -> u64 {
    if a + b > u64::MAX {
        u64::MAX
    } else {
        (a + b) as u64
    }
}

/// A hint for `held` bytes in front of what another hint describes.
pub open spec fn behind(held: nat, rest: SizeHint) -> SizeHint {
    SizeHint {
        lower: clipped_sum(rest.lower, held),
        upper: match rest.upper {
            Some(upper) => Some(clipped_sum(upper, held)),
            None => None,
        },
    }
}

impl SizeHint {
    /// A length that is known.
    pub fn with_exact(n: u64) -> (r: SizeHint)
        ensures
            r == exactly(n),
    {
        SizeHint { lower: n, upper: Some(n) }
    }

    /// A length of which nothing is known.
    pub fn unknown() -> (r: SizeHint)
        ensures
            r == (SizeHint { lower: 0, upper: None }),
    {
        SizeHint { lower: 0, upper: None }
    }

    /// The length, when the two bounds are the same.
    pub fn exact(&self) -> (r: Option<u64>)
        ensures
            r == if self.upper == Some(self.lower) {
                Some(self.lower)
            } else {
                None
            },
    {
        match self.upper {
            Some(upper) => if upper == self.lower {
                Some(upper)
            } else {
                None
            },
            None => None,
        }
    }

    fn behind(self, held: usize) -> (r: SizeHint)
        ensures
            r == behind(held as nat, self),
    {
        SizeHint {
            lower: self.lower.saturating_add(held as u64),
            upper: match self.upper {
                Some(upper) => Some(upper.saturating_add(held as u64)),
                None => None,
            },
        }
    }
}

/// Why a body stopped before it was complete. Reported rather than turned into a
/// clean end: a truncated request looks complete to the origin otherwise.
#[derive(Debug)]
pub enum BodyError {
    /// The HTTP/1.1 or HTTP/2 connection carrying the body failed.
    Http(String),
    /// The HTTP/3 request stream carrying the body failed.
    Http3(String),
}

/// What a failure says.
pub open spec fn body_error_text(error: BodyError) -> Seq<char> {
    match error {
        BodyError::Http(cause) => "body stream failed: "@ + cause@,
        BodyError::Http3(cause) => "HTTP/3 request stream failed: "@ + cause@,
    }
}

impl BodyError {
    /// The failure in words.
    pub fn to_text(&self) -> (r: String)
        ensures
            r@ == body_error_text(*self),
    {
        let mut out = String::new();
        match self {
            BodyError::Http(cause) => {
                push_text(&mut out, "body stream failed: ");
                push_text(&mut out, cause.as_str());
            },
            BodyError::Http3(cause) => {
                push_text(&mut out, "HTTP/3 request stream failed: ");
                push_text(&mut out, cause.as_str());
            },
        }
        assert(out@ =~= body_error_text(*self));
        out
    }
}

/// What a body offers next.
#[derive(Debug)]
pub enum Next<E> {
    /// Nothing more.
    End,
    /// A chunk.
    Data(Bytes),
    /// The body failed.
    Failed(E),
    /// Whatever its stream offers.
    Pull,
}

/// A request or response body moving through the proxy, over streams `S`.
#[derive(Debug)]
pub enum ProxyBody<S, E> {
    /// No frames at all.
    Empty,
    /// One chunk, until it is taken.
    Once { data: Option<Bytes> },
    /// A stream from the peer on the other side.
    Stream { body: S },
    /// Bytes already read from a stream, then the rest of it.
    Prefixed { data: Option<Bytes>, body: S },
    /// A request arriving as HTTP/3 frames, with bytes already read from it.
    Http3 { data: Option<Bytes>, request: RequestBody<E> },
}

/// The bytes of a chunk that may be missing.
pub open spec fn held(data: Option<Bytes>) -> Seq<u8> {
    match data {
        Some(chunk) => buffers::content(chunk),
        None => Seq::empty(),
    }
}

/// A chunk that is there holds something.
pub open spec fn is_chunk(data: Option<Bytes>) -> bool {
    data is Some ==> held(data).len() > 0
}

impl<S, E> ProxyBody<S, E> {
    /// The bytes the body holds itself, in front of anything its stream offers.
    pub open spec fn head(self) -> Seq<u8> {
        match self {
            ProxyBody::Empty => Seq::empty(),
            ProxyBody::Once { data } => held(data),
            ProxyBody::Stream { .. } => Seq::empty(),
            ProxyBody::Prefixed { data, .. } => held(data),
            ProxyBody::Http3 { data, .. } => held(data),
        }
    }

    /// The stream behind the bytes, if there is one.
    pub open spec fn source(self) -> Option<S> {
        match self {
            ProxyBody::Stream { body } => Some(body),
            ProxyBody::Prefixed { body, .. } => Some(body),
            _ => None,
        }
    }

    /// The HTTP/3 request behind the bytes, if there is one.
    pub open spec fn request(self) -> Option<RequestBody<E>> {
        match self {
            ProxyBody::Http3 { request, .. } => Some(request),
            _ => None,
        }
    }

    /// A body never holds an empty chunk.
    pub open spec fn wf(self) -> bool {
        match self {
            ProxyBody::Once { data } => is_chunk(data),
            ProxyBody::Prefixed { data, .. } => is_chunk(data),
            ProxyBody::Http3 { data, .. } => is_chunk(data),
            _ => true,
        }
    }

    /// Is the body known to carry no data, where its stream says this of its length?
    pub open spec fn carries_nothing(self, rest: SizeHint) -> bool {
        match self {
            ProxyBody::Empty => true,
            ProxyBody::Once { data } => data is None,
            ProxyBody::Stream { .. } => rest == exactly(0),
            ProxyBody::Prefixed { .. } => false,
            ProxyBody::Http3 { data, request } => data is None && request.known_empty(),
        }
    }

    /// Has the body produced its last frame, where its stream has or has not?
    pub open spec fn is_over(self, rest: bool) -> bool {
        match self {
            ProxyBody::Empty => true,
            ProxyBody::Once { data } => data is None,
            ProxyBody::Stream { .. } => rest,
            ProxyBody::Prefixed { data, .. } => data is None && rest,
            ProxyBody::Http3 { data, request } => data is None && request.at_end(),
        }
    }

    /// The length still to come, where its stream says this of its own.
    pub open spec fn length(self, rest: SizeHint) -> SizeHint {
        match self {
            ProxyBody::Empty => exactly(0),
            ProxyBody::Once { .. } => exactly(self.head().len() as u64),
            ProxyBody::Stream { .. } => rest,
            ProxyBody::Prefixed { .. } => behind(self.head().len(), rest),
            ProxyBody::Http3 { request, .. } => behind(self.head().len(), request.hint()),
        }
    }

    /// Is this what taking the next frame gives, and leaves?
    pub open spec fn gives(self, next: Next<E>, after: Self) -> bool {
        match self {
            ProxyBody::Empty => next is End && after == self,
            ProxyBody::Once { data } => {
                &&& after == (ProxyBody::<S, E>::Once { data: None })
                &&& match data {
                    Some(chunk) => next == Next::<E>::Data(chunk),
                    None => next is End,
                }
            },
            ProxyBody::Stream { .. } => next is Pull && after == self,
            ProxyBody::Prefixed { data, body } => {
                &&& after == (ProxyBody::<S, E>::Prefixed { data: None, body })
                &&& match data {
                    Some(chunk) => next == Next::<E>::Data(chunk),
                    None => next is Pull,
                }
            },
            ProxyBody::Http3 { data, request } => match data {
                Some(chunk) => {
                    &&& next == Next::<E>::Data(chunk)
                    &&& after == (ProxyBody::<S, E>::Http3 { data: None, request })
                },
                None => {
                    &&& next == request.offer()
                    &&& after == (ProxyBody::<S, E>::Http3 {
                        data: None,
                        request: request.after_offer(),
                    })
                },
            },
        }
    }

    /// A body with no frames at all.
    pub fn empty() -> (r: Self)
        ensures
            r == ProxyBody::<S, E>::Empty,
            r.wf(),
    {
        ProxyBody::Empty
    }

    /// A body of one chunk. A chunk without bytes is no body: it would announce
    /// a frame that never carries anything.
    pub fn once(data: Bytes) -> (r: Self)
        ensures
            r == if buffers::content(data).len() == 0 {
                ProxyBody::<S, E>::Empty
            } else {
                ProxyBody::Once { data: Some(data) }
            },
            r.wf(),
    {
        if data.is_empty() {
            ProxyBody::Empty
        } else {
            ProxyBody::Once { data: Some(data) }
        }
    }

    /// A body streamed from the peer on the other side of the proxy.
    pub fn stream(body: S) -> (r: Self)
        ensures
            r == (ProxyBody::<S, E>::Stream { body }),
            r.wf(),
    {
        ProxyBody::Stream { body }
    }

    /// A request body arriving as HTTP/3 frames.
    pub fn http3(body: RequestBody<E>) -> (r: Self)
        ensures
            r == (ProxyBody::<S, E>::Http3 { data: None, request: body }),
            r.wf(),
    {
        ProxyBody::Http3 { data: None, request: body }
    }

    /// Bytes already read from `rest`, followed by whatever is left of it.
    ///
    /// The two are one body. Bytes in front of bytes become one chunk, so that
    /// prefixes do not pile up, and a stream stays the stream it was.
    pub fn prefixed(prefix: Bytes, rest: Self) -> (r: Self)
        requires
            rest.wf(),
        ensures
            r.wf(),
            buffers::content(prefix).len() == 0 ==> r == rest,
            r.head() == buffers::content(prefix) + rest.head(),
            r.source() == rest.source(),
            r.request() == rest.request(),
            buffers::content(prefix).len() > 0 ==> {
                ||| r is Once && (rest is Empty || rest is Once)
                ||| r is Prefixed && (rest is Stream || rest is Prefixed)
                ||| r is Http3 && rest is Http3
            },
    {
        if prefix.is_empty() {
            assert(buffers::content(prefix) + rest.head() =~= rest.head());
            return rest;
        }
        let ghost front = buffers::content(prefix);
        assert(front + Seq::<u8>::empty() =~= front);
        match rest {
            ProxyBody::Empty => ProxyBody::Once { data: Some(prefix) },
            ProxyBody::Once { data } => ProxyBody::Once { data: Some(join(prefix, data)) },
            ProxyBody::Stream { body } => ProxyBody::Prefixed { data: Some(prefix), body },
            ProxyBody::Prefixed { data, body } => ProxyBody::Prefixed {
                data: Some(join(prefix, data)),
                body,
            },
            ProxyBody::Http3 { data, request } => ProxyBody::Http3 {
                data: Some(join(prefix, data)),
                request,
            },
        }
    }

    /// Whether this body is known, without reading it, to carry no data. `rest`
    /// is what its stream says of its own length.
    ///
    /// Such a body can be made again for a second endpoint; one that is streaming
    /// cannot.
    pub fn is_known_empty(&self, rest: SizeHint) -> (r: bool)
        requires
            self.wf(),
        ensures
            r == match *self {
                ProxyBody::Empty => true,
                ProxyBody::Once { data } => data is None,
                ProxyBody::Stream { .. } => rest == exactly(0),
                ProxyBody::Prefixed { .. } => false,
                ProxyBody::Http3 { data, request } => data is None && request.known_empty(),
            },
            r == self.carries_nothing(rest),
    {
        match self {
            ProxyBody::Empty => true,
            ProxyBody::Once { data } => match data {
                Some(chunk) => chunk.is_empty(),
                None => true,
            },
            ProxyBody::Stream { .. } => match rest.exact() {
                Some(n) => n == 0,
                None => false,
            },
            ProxyBody::Prefixed { .. } => false,
            ProxyBody::Http3 { data, request } => data.is_none() && request.is_known_empty(),
        }
    }

    /// Whether the last frame has already been produced. `rest` is what its
    /// stream says of itself.
    pub fn is_end_stream(&self, rest: bool) -> (r: bool)
        ensures
            r == match *self {
                ProxyBody::Empty => true,
                ProxyBody::Once { data } => data is None,
                ProxyBody::Stream { .. } => rest,
                ProxyBody::Prefixed { data, .. } => data is None && rest,
                ProxyBody::Http3 { data, request } => data is None && request.at_end(),
            },
            r == self.is_over(rest),
    {
        match self {
            ProxyBody::Empty => true,
            ProxyBody::Once { data } => data.is_none(),
            ProxyBody::Stream { .. } => rest,
            ProxyBody::Prefixed { data, .. } => data.is_none() && rest,
            ProxyBody::Http3 { data, request } => data.is_none() && request.is_end_stream(),
        }
    }

    /// What is known of the length still to come. `rest` is what its stream says
    /// of itself, from which bytes held here were already taken off: they are
    /// added back, or the upload would be cut short by as many.
    pub fn size_hint(&self, rest: SizeHint) -> (r: SizeHint)
        requires
            self.head().len() <= usize::MAX,
        ensures
            r == match *self {
                ProxyBody::Empty => exactly(0),
                ProxyBody::Once { data } => exactly(self.head().len() as u64),
                ProxyBody::Stream { .. } => rest,
                ProxyBody::Prefixed { .. } => behind(self.head().len(), rest),
                ProxyBody::Http3 { request, .. } => behind(self.head().len(), request.hint()),
            },
            r == self.length(rest),
    {
        match self {
            ProxyBody::Empty => SizeHint::with_exact(0),
            ProxyBody::Once { data } => SizeHint::with_exact(held_len(data) as u64),
            ProxyBody::Stream { .. } => rest,
            ProxyBody::Prefixed { data, .. } => rest.behind(held_len(data)),
            ProxyBody::Http3 { data, request } => request.size_hint().behind(held_len(data)),
        }
    }

    /// Takes what the body offers next: the bytes it holds, as one chunk, and
    /// then what its stream offers.
    pub fn next(&mut self) -> (r: Next<E>)
        ensures
            match *old(self) {
                ProxyBody::Empty => r is End && *final(self) == *old(self),
                ProxyBody::Once { data } => {
                    &&& *final(self) == (ProxyBody::<S, E>::Once { data: None })
                    &&& match data {
                        Some(chunk) => r == Next::<E>::Data(chunk),
                        None => r is End,
                    }
                },
                ProxyBody::Stream { .. } => r is Pull && *final(self) == *old(self),
                ProxyBody::Prefixed { data, body } => {
                    &&& *final(self) == (ProxyBody::<S, E>::Prefixed { data: None, body })
                    &&& match data {
                        Some(chunk) => r == Next::<E>::Data(chunk),
                        None => r is Pull,
                    }
                },
                ProxyBody::Http3 { data, request } => match data {
                    Some(chunk) => {
                        &&& r == Next::<E>::Data(chunk)
                        &&& *final(self) == (ProxyBody::<S, E>::Http3 { data: None, request })
                    },
                    None => {
                        &&& r == request.offer()
                        &&& *final(self) == (ProxyBody::<S, E>::Http3 {
                            data: None,
                            request: request.after_offer(),
                        })
                    },
                },
            },
            old(self).gives(r, *final(self)),
    {
        let mut was = ProxyBody::Empty;
        std::mem::swap(&mut was, self);
        match was {
            ProxyBody::Empty => Next::End,
            ProxyBody::Once { data } => {
                *self = ProxyBody::Once { data: None };
                match data {
                    Some(chunk) => Next::Data(chunk),
                    None => Next::End,
                }
            },
            ProxyBody::Stream { body } => {
                *self = ProxyBody::Stream { body };
                Next::Pull
            },
            ProxyBody::Prefixed { data, body } => {
                *self = ProxyBody::Prefixed { data: None, body };
                match data {
                    Some(chunk) => Next::Data(chunk),
                    None => Next::Pull,
                }
            },
            ProxyBody::Http3 { data, request } => match data {
                Some(chunk) => {
                    *self = ProxyBody::Http3 { data: None, request };
                    Next::Data(chunk)
                },
                None => {
                    let mut rest = request;
                    let offer = rest.next();
                    *self = ProxyBody::Http3 { data: None, request: rest };
                    offer
                },
            },
        }
    }
}

fn held_len(data: &Option<Bytes>) -> (r: usize)
    ensures
        r == held(*data).len(),
{
    match data {
        Some(chunk) => chunk.len(),
        None => 0,
    }
}

/// One chunk in front of another, when there is another.
fn join(prefix: Bytes, data: Option<Bytes>) -> (r: Bytes)
    ensures
        buffers::content(r) == buffers::content(prefix) + held(data),
{
    match data {
        Some(chunk) => buffers::concat(&prefix, &chunk),
        None => {
            assert(buffers::content(prefix) + Seq::<u8>::empty() =~= buffers::content(prefix));
            prefix
        },
    }
}

/// Bytes put back in front come out first, as one chunk, and after them the body
/// is what it was: putting back loses nothing and changes no order.
pub proof fn what_is_put_back_comes_out_first<S, E>(
    prefix: Seq<u8>,
    rest: ProxyBody<S, E>,
    whole: ProxyBody<S, E>,
)
    requires
        whole.head() == prefix + rest.head(),
        whole.source() == rest.source(),
        whole.request() == rest.request(),
    ensures
        whole.head().take(prefix.len() as int) == prefix,
        whole.head().skip(prefix.len() as int) == rest.head(),
{
    assert(whole.head().take(prefix.len() as int) =~= prefix);
    assert(whole.head().skip(prefix.len() as int) =~= rest.head());
}

/// A hint that counts the bytes held is right whenever the hint for the rest is:
/// if `n` bytes are to come from the rest and the rest's hint allows `n`, the
/// whole hint allows `n` and the bytes held.
pub proof fn a_hint_counts_what_is_held(held: nat, rest: SizeHint, n: nat)
    requires
        rest.lower <= n,
        rest.upper matches Some(upper) ==> n <= upper,
        held + n <= u64::MAX,
    ensures
        behind(held, rest).lower <= held + n,
        behind(held, rest).upper matches Some(upper) ==> held + n <= upper,
{
}

/// A body is known to be empty only where nothing can come of it: it holds no bytes,
/// and what is behind them says that it has none. A body with no frames is.
pub proof fn only_an_empty_body_is_known_empty<S, E>(body: ProxyBody<S, E>, rest: SizeHint)
    requires
        body.wf(),
    ensures
        body.carries_nothing(rest) ==> {
            &&& body.head().len() == 0
            &&& body.source() is Some ==> rest.lower == 0 && rest.upper == Some(0u64)
            &&& body.request() matches Some(request) ==> request.queued is None
        },
        body.head().len() == 0 && body.source() is None && body.request() is None
            ==> body.carries_nothing(rest),
        body.head().len() == 0 && body is Stream && rest.lower == 0 && rest.upper == Some(0u64)
            ==> body.carries_nothing(rest),
{
}

/// A body is over exactly when it holds no bytes and what is behind them is over.
pub proof fn a_body_is_over_with_its_last_byte<S, E>(body: ProxyBody<S, E>, rest: bool)
    requires
        body.wf(),
    ensures
        body.is_over(rest) <==> {
            &&& body.head().len() == 0
            &&& body.source() is Some ==> rest
            &&& body.request() matches Some(request) ==> request.ended && request.queued is None
        },
{
}

/// A length that is known of what is behind the bytes held makes the whole length
/// known: it is that length and the bytes, and never less.
pub proof fn a_length_counts_every_byte<S, E>(body: ProxyBody<S, E>, n: u64)
    requires
        body.head().len() + n <= u64::MAX,
    ensures
        body.source() is None && body.request() is None ==> body.length(exactly(n)).lower
            == body.head().len() && body.length(exactly(n)).upper == Some(
            body.head().len() as u64,
        ),
        body.source() is Some ==> body.length(exactly(n)).lower == body.head().len() + n
            && body.length(exactly(n)).upper == Some((body.head().len() + n) as u64),
        body.request() matches Some(request) ==> (request.remaining == Some(n) ==> body.length(
            exactly(n),
        ).lower == body.head().len() + n && body.length(exactly(n)).upper == Some(
            (body.head().len() + n) as u64,
        )),
{
}

/// What a body holds comes out first, as one chunk, and then what is behind it;
/// a body with nothing behind it ends. Nothing behind the bytes is touched before
/// they are out.
pub proof fn a_body_gives_its_bytes_first<S, E>(
    body: ProxyBody<S, E>,
    next: Next<E>,
    after: ProxyBody<S, E>,
)
    requires
        body.wf(),
        body.gives(next, after),
    ensures
        after.wf(),
        after.head().len() == 0,
        after.source() == body.source(),
        body.head().len() > 0 ==> after.request() == body.request() && (
        next matches Next::Data(chunk) && buffers::content(chunk) == body.head()),
        body.head().len() == 0 && body.source() is Some ==> next is Pull,
        body.head().len() == 0 && body.source() is None && body.request() is None ==> next is End,
        body.head().len() == 0 ==> (body.request() matches Some(request) ==> next
            == request.offer() && after.request() == Some(request.after_offer())),
{
}

/// A failure says which of the two streams broke, and what was said of it.
pub proof fn a_broken_body_says_which_stream(error: BodyError)
    ensures
        error matches BodyError::Http(said) ==> body_error_text(error) == "body stream failed: "@
            + said@,
        error matches BodyError::Http3(said) ==> body_error_text(error)
            == "HTTP/3 request stream failed: "@ + said@,
{
}

} // verus!
