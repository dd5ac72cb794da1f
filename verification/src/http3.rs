//! HTTP/3 requests, as far as they differ from others.
//!
//! A request that arrives over QUIC goes through the same forwarding as any
//! other. What is particular to it is how its body is found: HTTP/3 has no
//! framing outside the stream itself, so a request has a body if and only if
//! data arrives before the client finishes the stream.
use bytes::Bytes;
use http::{HeaderMap, HeaderValue};
use vstd::prelude::*;
use crate::body::{Next, SizeHint};
use crate::buffers;
use crate::header_map;
use crate::text;
use crate::text::{push_decimal, push_text, read_unsigned, to_chars};
pub use crate::tls::ALPN_H3;
use crate::time::Duration;

verus! {

/// The application error code of a connection that ends because this process
/// does: not a protocol error.
pub const H3_NO_ERROR: u32 = 0x0100;

/// How long the endpoint is given, after the drain, to say goodbye.
pub fn close_linger() -> (r: Duration)
    ensures
        r@ == 1_000_000_000,
{
    Duration::from_secs(1)
}

/// What advertises a port to HTTP/1.1 and HTTP/2 clients: the protocol, the port
/// in quotes, and a day as the advertisement's lifetime.
pub open spec fn alt_svc_text(port: nat) -> Seq<char> {
    "h3=\":"@ + text::decimal(port) + "\"; ma=86400"@
}

/// Is a text printable ASCII?
spec fn is_printable(s: Seq<char>) -> bool {
    forall|i: int| 0 <= i < s.len() ==> ' ' <= #[trigger] s[i] && s[i] <= '~'
}

proof fn lemma_digits_are_printable(n: nat)
    ensures
        is_printable(text::decimal(n)),
    decreases n,
{
    reveal_with_fuel(text::numeral, 2);
    if n >= 10 {
        lemma_digits_are_printable(n / 10);
    }
}

proof fn lemma_printable_is_a_value(s: Seq<char>)
    requires
        is_printable(s),
    ensures
        vstd::utf8::encode_utf8(s) == header_map::ascii_bytes(s),
        header_map::is_value(vstd::utf8::encode_utf8(s)),
{
    vstd::utf8::is_ascii_chars_encode_utf8(s);
    let bytes = vstd::utf8::encode_utf8(s);
    assert(bytes =~= header_map::ascii_bytes(s));
    assert forall|i: int| 0 <= i < bytes.len() implies header_map::is_value_byte(#[trigger] bytes[i]) by {
        assert(bytes[i] == s[i] as u8);
    }
}

/// The `alt-svc` value advertising a port to HTTP/1.1 and HTTP/2 clients.
///
/// The port is the TLS listener's own: a client that follows the advertisement
/// tries the same authority over QUIC.
pub fn alt_svc_value(port: u16) -> (r: Option<HeaderValue>)
    ensures
        r matches Some(value) && header_map::value_bytes(value) == header_map::ascii_bytes(
            alt_svc_text(port as nat),
        ),
{
    let mut out = String::new();
    push_text(&mut out, "h3=\":");
    push_decimal(&mut out, port as u64);
    push_text(&mut out, "\"; ma=86400");
    assert(out@ =~= alt_svc_text(port as nat));
    proof {
        reveal_strlit("h3=\":");
        reveal_strlit("\"; ma=86400");
        lemma_digits_are_printable(port as nat);
        let s = alt_svc_text(port as nat);
        let front = "h3=\":"@;
        let digits = text::decimal(port as nat);
        let back = "\"; ma=86400"@;
        assert forall|i: int| 0 <= i < s.len() implies ' ' <= #[trigger] s[i] && s[i] <= '~' by {
            if i < front.len() {
                assert(s[i] == front[i]);
            } else if i < front.len() + digits.len() {
                assert(s[i] == digits[i - front.len()]);
            } else {
                assert(s[i] == back[i - front.len() - digits.len()]);
            }
        }
        lemma_printable_is_a_value(s);
    }
    match HeaderValue::from_str(out.as_str()) {
        Ok(value) => Some(value),
        Err(_) => None,
    }
}

/// What a poll of the request stream produced.
#[derive(Debug)]
pub enum Polled<E> {
    /// Nothing yet.
    Pending,
    /// The client finished the stream.
    End,
    /// A chunk.
    Chunk(Bytes),
    /// The stream failed.
    Failed(E),
}

/// A request body arriving as HTTP/3 frames.
#[derive(Debug)]
pub struct RequestBody<E> {
    /// A chunk, or a failure, that was taken off the stream and not handed on.
    pub queued: Option<Result<Bytes, E>>,
    /// What is left of a length the client declared.
    pub remaining: Option<u64>,
    /// Whether the stream has produced its last frame.
    pub ended: bool,
}

/// What is left of a declared length after a chunk was handed on.
pub open spec fn less(remaining: Option<u64>, n: nat) -> Option<u64> {
    match remaining {
        Some(left) => Some(
            if left >= n {
                (left - n) as u64
            } else {
                0
            },
        ),
        None => None,
    }
}

impl<E> RequestBody<E> {
    /// Whether this body is known, without reading it, to carry no data.
    pub open spec fn known_empty(self) -> bool {
        self.queued is None && (self.ended || self.remaining == Some(0u64))
    }

    /// Whether the last frame has already been produced.
    pub open spec fn at_end(self) -> bool {
        self.ended && self.queued is None
    }

    /// What is known of the length still to come.
    pub open spec fn hint(self) -> SizeHint {
        match self.remaining {
            Some(left) => SizeHint { lower: left, upper: Some(left) },
            None => if self.at_end() {
                SizeHint { lower: 0, upper: Some(0) }
            } else {
                SizeHint { lower: 0, upper: None }
            },
        }
    }

    /// What the body offers next.
    pub open spec fn offer(self) -> Next<E> {
        match self.queued {
            Some(Ok(chunk)) => Next::Data(chunk),
            Some(Err(error)) => Next::Failed(error),
            None => if self.ended {
                Next::End
            } else {
                Next::Pull
            },
        }
    }

    /// The body once that was taken.
    pub open spec fn after_offer(self) -> RequestBody<E> {
        match self.queued {
            Some(Ok(chunk)) => RequestBody {
                queued: None,
                remaining: less(self.remaining, buffers::content(chunk).len()),
                ended: self.ended,
            },
            Some(Err(_)) => RequestBody { queued: None, ended: true, ..self },
            None => self,
        }
    }

    /// The body after its stream was polled for the next frame.
    pub open spec fn after_poll(self, polled: Polled<E>) -> RequestBody<E> {
        match polled {
            Polled::Pending => self,
            Polled::End => RequestBody { ended: true, ..self },
            Polled::Chunk(chunk) => RequestBody {
                remaining: less(self.remaining, buffers::content(chunk).len()),
                ..self
            },
            Polled::Failed(_) => RequestBody { ended: true, ..self },
        }
    }

    /// A body of which nothing was read.
    pub fn new(declared: Option<u64>) -> (r: RequestBody<E>)
        ensures
            r == (RequestBody::<E> { queued: None, remaining: declared, ended: false }),
    {
        RequestBody { queued: None, remaining: declared, ended: false }
    }

    /// Whether the stream has already ended, by a poll that did not wait.
    /// Whatever the poll produced is kept: this is a peek, not a read.
    pub fn already_ended(&mut self, polled: Polled<E>) -> (r: bool)
        requires
            old(self).queued is None,
        ensures
            r == (polled is End),
            *final(self) == match polled {
                Polled::Pending => *old(self),
                Polled::End => RequestBody { ended: true, ..*old(self) },
                Polled::Chunk(chunk) => RequestBody { queued: Some(Ok(chunk)), ..*old(self) },
                Polled::Failed(error) => RequestBody { queued: Some(Err(error)), ..*old(self) },
            },
    {
        match polled {
            Polled::Pending => false,
            Polled::End => {
                self.ended = true;
                true
            },
            Polled::Chunk(chunk) => {
                self.queued = Some(Ok(chunk));
                false
            },
            Polled::Failed(error) => {
                self.queued = Some(Err(error));
                false
            },
        }
    }

    /// Whether this body is known, without reading it, to carry no data.
    pub fn is_known_empty(&self) -> (r: bool)
        ensures
            r == self.known_empty(),
    {
        self.queued.is_none() && (self.ended || match self.remaining {
            Some(left) => left == 0,
            None => false,
        })
    }

    /// Whether the last frame has already been produced.
    pub fn is_end_stream(&self) -> (r: bool)
        ensures
            r == self.at_end(),
    {
        self.ended && self.queued.is_none()
    }

    /// What is left to read, as far as the declared length says. It counts down
    /// as chunks are handed on, and a chunk that waits here still counts.
    pub fn size_hint(&self) -> (r: SizeHint)
        ensures
            r == self.hint(),
    {
        match self.remaining {
            Some(left) => SizeHint::with_exact(left),
            None => if self.is_end_stream() {
                SizeHint::with_exact(0)
            } else {
                SizeHint::unknown()
            },
        }
    }

    /// Takes what was already read, or says to poll the stream.
    pub fn next(&mut self) -> (r: Next<E>)
        ensures
            r == old(self).offer(),
            *final(self) == old(self).after_offer(),
    {
        let mut queued: Option<Result<Bytes, E>> = None;
        std::mem::swap(&mut queued, &mut self.queued);
        match queued {
            Some(Ok(chunk)) => {
                self.hand_on(chunk.len());
                Next::Data(chunk)
            },
            Some(Err(error)) => {
                self.ended = true;
                Next::Failed(error)
            },
            None => if self.ended {
                Next::End
            } else {
                Next::Pull
            },
        }
    }

    /// Hands on what a poll of the stream produced; `None` when there was nothing
    /// yet. A failure ends the body and is reported: a clean end would tell the
    /// upstream that a truncated request was complete.
    pub fn receive(&mut self, polled: Polled<E>) -> (r: Option<Next<E>>)
        requires
            old(self).queued is None,
            !old(self).ended,
        ensures
            r == match polled {
                Polled::Pending => None,
                Polled::End => Some(Next::<E>::End),
                Polled::Chunk(chunk) => Some(Next::<E>::Data(chunk)),
                Polled::Failed(error) => Some(Next::Failed(error)),
            },
            *final(self) == old(self).after_poll(polled),
    {
        match polled {
            Polled::Pending => None,
            Polled::End => {
                self.ended = true;
                Some(Next::End)
            },
            Polled::Chunk(chunk) => {
                self.hand_on(chunk.len());
                Some(Next::Data(chunk))
            },
            Polled::Failed(error) => {
                self.ended = true;
                Some(Next::Failed(error))
            },
        }
    }

    fn hand_on(&mut self, n: usize)
        ensures
            *final(self) == (RequestBody {
                remaining: less(old(self).remaining, n as nat),
                ..*old(self)
            }),
    {
        if let Some(left) = self.remaining {
            self.remaining = Some(left.saturating_sub(n as u64));
        }
    }
}

/// The length a request declares, when it declares one that can be read.
pub open spec fn declared_value(f: Map<Seq<char>, Seq<Seq<u8>>>) -> Option<u64> {
    match header_map::first_value(f, "content-length"@) {
        Some(value) => if header_map::all_visible(value) {
            match text::unsigned_value(header_map::chars_of(value), u64::MAX as nat) {
                Some(n) => Some(n as u64),
                None => None,
            }
        } else {
            None
        },
        None => None,
    }
}

/// The length a request declares.
pub fn declared_length(headers: &HeaderMap) -> (r: Option<u64>)
    ensures
        r == declared_value(header_map::fields(*headers)),
{
    proof {
        reveal_strlit("content-length");
        header_map::lemma_plain_name("content-length"@);
    }
    match header_map::get(headers, "content-length") {
        Some(value) => match value.to_str() {
            Ok(line) => {
                let chars = to_chars(line);
                read_unsigned(chars.as_slice(), u64::MAX)
            },
            Err(_) => None,
        },
        None => None,
    }
}

/// The body a forwarded request carries, from its declared length and one poll of
/// its stream that did not wait. `None` is a body that is known to be empty.
///
/// A client that has finished the stream, which is every ordinary `GET`, is
/// recognised and its request stays free to go to a second endpoint. A client
/// that has not is not waited for. A declared length is the client's own word
/// and is not second-guessed: then the stream is not polled.
pub fn request_body<E>(declared: Option<u64>, polled: Polled<E>) -> (r: Option<RequestBody<E>>)
    ensures
        r == match declared {
            Some(n) => if n == 0 {
                None
            } else {
                Some(RequestBody::<E> { queued: None, remaining: declared, ended: false })
            },
            None => match polled {
                Polled::End => None,
                Polled::Pending => Some(
                    RequestBody::<E> { queued: None, remaining: None, ended: false },
                ),
                Polled::Chunk(chunk) => Some(
                    RequestBody::<E> { queued: Some(Ok(chunk)), remaining: None, ended: false },
                ),
                Polled::Failed(error) => Some(
                    RequestBody { queued: Some(Err(error)), remaining: None, ended: false },
                ),
            },
        },
{
    if let Some(n) = declared {
        return if n == 0 {
            None
        } else {
            Some(RequestBody::new(declared))
        };
    }
    let mut body = RequestBody::new(None);
    if body.already_ended(polled) {
        None
    } else {
        Some(body)
    }
}

/// What a peek took off the stream is handed on before the stream is polled
/// again: a body's bytes are the same whether or not it was peeked at.
pub proof fn a_peek_loses_nothing<E>(body: RequestBody<E>, chunk: Bytes)
    requires
        body.queued is None,
        !body.ended,
    ensures
        ({
            let peeked = RequestBody { queued: Some(Ok::<Bytes, E>(chunk)), ..body };
            &&& peeked.offer() == Next::<E>::Data(chunk)
            &&& peeked.after_offer() == body.after_poll(Polled::Chunk(chunk))
        }),
{
}

/// After the body ended, whether cleanly or by a failure, it offers nothing more.
pub proof fn an_ended_body_stays_ended<E>(body: RequestBody<E>, polled: Polled<E>)
    requires
        body.queued is None,
        polled is End || polled is Failed,
    ensures
        body.after_poll(polled).offer() is End,
        body.after_poll(polled).known_empty(),
        body.after_poll(polled).at_end(),
{
}

// ---------------------------------------------------------------------------
// One connection
// ---------------------------------------------------------------------------

/// What happened on a connection.
#[derive(Debug, Clone, Copy, PartialEq, Eq, Structural)]
pub enum Happened {
    /// Shutdown was signalled.
    Signal,
    /// A request that was running finished.
    Finished,
    /// The peer opened a request.
    Opened,
    /// The peer said goodbye with everything finished, or the connection ended.
    Gone,
}

/// What is to be done about it.
#[derive(Debug, Clone, Copy, PartialEq, Eq, Structural)]
pub enum Action {
    /// Tell the peer that no further requests are taken.
    SayGoodbye,
    /// Run the request.
    Serve,
    /// Nothing.
    Wait,
    /// Leave the connection.
    Leave,
}

/// A connection's requests, and whether it is being drained.
///
/// Whether a connection has finished draining is whether nothing is running on
/// it. The peer's own goodbye cannot answer that: after ours a client is idle,
/// and an idle client does not hang up.
#[derive(Debug)]
pub struct Connection {
    pub draining: bool,
    pub running: u64,
}

impl Connection {
    /// A connection with nothing running on it.
    pub fn new() -> (r: Connection)
        ensures
            r == (Connection { draining: false, running: 0 }),
    {
        Connection { draining: false, running: 0 }
    }

    /// Is there nothing left to finish, and nothing more coming?
    pub open spec fn drained(self) -> bool {
        self.draining && self.running == 0
    }

    /// The connection after something happened.
    pub open spec fn after(self, what: Happened) -> Connection {
        match what {
            Happened::Signal => Connection { draining: true, ..self },
            Happened::Finished => Connection { running: (self.running - 1) as u64, ..self },
            Happened::Opened => Connection { running: (self.running + 1) as u64, ..self },
            Happened::Gone => self,
        }
    }

    /// Is there nothing left to finish, and nothing more coming?
    pub fn is_drained(&self) -> (r: bool)
        ensures
            r == self.drained(),
    {
        self.draining && self.running == 0
    }

    /// Takes in what happened and says what is to be done.
    pub fn on(&mut self, what: Happened) -> (r: Action)
        requires
            what is Finished ==> old(self).running > 0,
            what is Opened ==> old(self).running < u64::MAX,
        ensures
            *final(self) == old(self).after(what),
            r == match what {
                Happened::Signal => Action::SayGoodbye,
                Happened::Finished => Action::Wait,
                Happened::Opened => Action::Serve,
                Happened::Gone => Action::Leave,
            },
    {
        match what {
            Happened::Signal => {
                self.draining = true;
                Action::SayGoodbye
            },
            Happened::Finished => {
                self.running = self.running - 1;
                Action::Wait
            },
            Happened::Opened => {
                self.running = self.running + 1;
                Action::Serve
            },
            Happened::Gone => Action::Leave,
        }
    }
}

/// A signalled connection is drained as soon as the last of its requests has
/// finished, and not before.
pub proof fn a_drain_ends_with_the_last_request(connection: Connection, finishing: nat)
    requires
        finishing <= connection.running,
    ensures
        after_finishing(connection.after(Happened::Signal), finishing).drained() <==> finishing
            == connection.running,
{
    lemma_finishing(connection.after(Happened::Signal), finishing);
}

/// A connection after some of its requests finished.
pub open spec fn after_finishing(connection: Connection, n: nat) -> Connection
    decreases n,
{
    if n == 0 {
        connection
    } else {
        after_finishing(connection, (n - 1) as nat).after(Happened::Finished)
    }
}

proof fn lemma_finishing(connection: Connection, n: nat)
    requires
        n <= connection.running,
    ensures
        after_finishing(connection, n) == (Connection {
            running: (connection.running - n) as u64,
            ..connection
        }),
    decreases n,
{
    if n > 0 {
        lemma_finishing(connection, (n - 1) as nat);
    }
}

/// A frame of the response on its way to the client.
#[derive(Debug, Clone, Copy, PartialEq, Eq, Structural)]
pub enum ResponseFrame {
    Data,
    Trailers,
    Other,
    Failed,
    End,
}

/// What is to be done with it.
#[derive(Debug, Clone, Copy, PartialEq, Eq, Structural)]
pub enum Write {
    /// Send it and go on.
    Send,
    /// Send it and finish the stream.
    SendAndFinish,
    /// Go on.
    Skip,
    /// Finish the stream.
    Finish,
    /// Reset the stream.
    Reset,
}

/// What becomes of a frame of the response.
pub open spec fn written(frame: ResponseFrame) -> Write {
    match frame {
        ResponseFrame::Data => Write::Send,
        ResponseFrame::Trailers => Write::SendAndFinish,
        ResponseFrame::Other => Write::Skip,
        ResponseFrame::Failed => Write::Reset,
        ResponseFrame::End => Write::Finish,
    }
}

/// A response that broke is never finished cleanly, and only such a one is reset. What
/// the client is owed is sent, and the stream is finished with the last of it.
pub proof fn a_broken_response_is_reset(frame: ResponseFrame)
    ensures
        written(frame) == Write::Reset <==> frame == ResponseFrame::Failed,
        (written(frame) == Write::Finish || written(frame) == Write::SendAndFinish) <==> (frame
            == ResponseFrame::End || frame == ResponseFrame::Trailers),
        (written(frame) == Write::Send || written(frame) == Write::SendAndFinish) <==> (frame
            == ResponseFrame::Data || frame == ResponseFrame::Trailers),
{
}

/// Decides what becomes of a frame of the response.
///
/// Trailers end the response, and the stream still has to be finished after
/// them. A failure resets the stream: the head is already sent, and a clean
/// finish would hand the client a truncated body it believes is whole.
pub fn write_frame(frame: ResponseFrame) -> (r: Write)
    ensures
        r == match frame {
            ResponseFrame::Data => Write::Send,
            ResponseFrame::Trailers => Write::SendAndFinish,
            ResponseFrame::Other => Write::Skip,
            ResponseFrame::Failed => Write::Reset,
            ResponseFrame::End => Write::Finish,
        },
        r == written(frame),
{
    match frame {
        ResponseFrame::Data => Write::Send,
        ResponseFrame::Trailers => Write::SendAndFinish,
        ResponseFrame::Other => Write::Skip,
        ResponseFrame::Failed => Write::Reset,
        ResponseFrame::End => Write::Finish,
    }
}

/// What is advertised is what ALPN offers: the advertisement begins with the
/// protocol's identifier.
pub proof fn the_advertised_protocol_is_the_one_offered(port: nat)
    ensures
        text::starts_with(alt_svc_text(port), ALPN_H3@),
{
    reveal_strlit("h3");
    reveal_strlit("h3=\":");
    assert(alt_svc_text(port).take(2) =~= "h3"@);
}

/// The advertisement names the port in quotes, and lasts a day.
pub proof fn the_advertisement_names_the_port(port: nat)
    ensures
        alt_svc_text(port) == "h3=\":"@ + text::decimal(port) + "\"; ma=86400"@,
{
}

/// A declared length counts down by what is handed on, and not below zero. One that
/// was not declared stays unknown until the body has ended.
pub proof fn a_declared_length_counts_down<E>(body: RequestBody<E>, chunk: Bytes)
    ensures
        ({
            let n = buffers::content(chunk).len();
            let after = body.after_poll(Polled::Chunk(chunk));
            &&& body.remaining matches Some(left) ==> body.hint().lower == left && body.hint().upper
                == Some(left)
            &&& body.remaining matches Some(left) ==> (after.remaining matches Some(still) && (n
                <= left ==> still + n == left) && (n > left ==> still == 0))
            &&& body.remaining is None ==> after.remaining is None && after.hint().lower == 0
            &&& body.remaining is None && !body.ended ==> body.hint().upper is None
            &&& body.remaining is None && body.ended && body.queued is None ==> body.hint().upper
                == Some(0u64)
            &&& after.ended == body.ended
            &&& after.queued == body.queued
        }),
{
}

/// What was taken off the stream is offered before anything else, and nothing is
/// offered of a body that has ended. A body is known to be empty only when nothing
/// was taken off and nothing can follow.
pub proof fn a_body_offers_what_was_taken_off<E>(body: RequestBody<E>)
    ensures
        body.queued matches Some(Ok(chunk)) ==> body.offer() == Next::<E>::Data(chunk),
        body.queued matches Some(Err(error)) ==> body.offer() == Next::Failed(error)
            && body.after_offer().ended,
        body.queued is None && body.ended ==> body.offer() is End,
        body.queued is None && !body.ended ==> body.offer() is Pull,
        body.after_offer().queued is None,
        body.queued is Some ==> !body.known_empty() && !body.at_end(),
        body.queued is None && body.remaining == Some(0u64) ==> body.known_empty(),
        body.queued is None && !body.ended && body.remaining != Some(0u64) ==> !body.known_empty(),
        body.queued is None ==> (body.at_end() <==> body.ended),
{
}

/// A length that a request declares in digits is the length it is taken to have,
/// and a request without the field declares none.
pub proof fn a_declared_length_is_read(f: Map<Seq<char>, Seq<Seq<u8>>>, n: u64)
    ensures
        f.contains_key("content-length"@) && f["content-length"@] == seq![
            header_map::ascii_bytes(text::decimal(n as nat)),
        ] ==> declared_value(f) == Some(n),
        !f.contains_key("content-length"@) ==> declared_value(f) is None,
{
    let digits = text::decimal(n as nat);
    let value = header_map::ascii_bytes(digits);
    lemma_digits_are_printable(n as nat);
    assert forall|i: int| 0 <= i < value.len() implies header_map::is_visible(#[trigger] value[i]) by {
        assert(' ' <= digits[i] && digits[i] <= '~');
    }
    assert(header_map::chars_of(value) =~= digits) by {
        assert forall|i: int| 0 <= i < digits.len() implies (#[trigger] value[i]) as char
            == digits[i] by {
            assert(' ' <= digits[i] && digits[i] <= '~');
        }
    }
    text::lemma_numeral_reads_back(n as nat, 10);
}

/// A request that is opened is running until it finishes, and finishing it undoes
/// opening it. Only a signal starts the drain, and nothing ends it.
pub proof fn a_request_runs_until_it_finishes(connection: Connection, what: Happened)
    requires
        connection.running < u64::MAX,
        what is Finished ==> connection.running > 0,
    ensures
        connection.after(Happened::Opened).running == connection.running + 1,
        connection.after(Happened::Opened).after(Happened::Finished) == connection,
        connection.after(what).draining <==> connection.draining || what is Signal,
        what is Signal || what is Gone ==> connection.after(what).running == connection.running,
        connection.drained() <==> connection.draining && connection.running == 0,
{
}

} // verus!
