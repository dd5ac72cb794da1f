//! The admin listener: metrics, the probes, and the generation API.
//!
//! The listener has a port of its own, because a path on the data plane is a
//! path an Ingress can claim. Liveness is unconditional as long as the server
//! answers at all. Readiness is gated on a flag that the owner of the route
//! table sets.
//!
//! Two endpoints change what is served, and nothing reachable with a `GET` does.
//! Where a bearer token is configured, every request that could change something
//! must carry it. Three paths are exempt whatever the method, because their
//! callers cannot be taught to send a header.
use http::HeaderMap;
use std::sync::atomic::{AtomicBool, Ordering};
use std::sync::Arc;
use subtle::ConstantTimeEq;
use vstd::prelude::*;
use crate::calendar;
use crate::header_map;
use crate::history;
use crate::history::{rfc3339, GenerationHistory, GenerationRecord, PinError};
use crate::failure::io_error_text;
use crate::text;
use crate::text::{
    copy_range, padded_numeral, push_text, same_bytes_ignoring_case, same_text, stands_before,
    to_chars, trim, trim_bytes,
};
use crate::tls::share;
use crate::totals;
use crate::totals::RouteTotals;

verus! {

/// The exposition format version Prometheus expects to negotiate.
pub const PROMETHEUS_CONTENT_TYPE: &'static str = "text/plain; version=0.0.4; charset=utf-8";

/// The type of the other texts.
pub const TEXT_CONTENT_TYPE: &'static str = "text/plain; charset=utf-8";

/// The type of the JSON documents.
pub const JSON_CONTENT_TYPE: &'static str = "application/json";

/// Schema version of the JSON documents. Bumped only for a change that a reader
/// of the previous version could not survive; adding a field is none.
pub const API_VERSION: u64 = 1;

/// Largest request body the rollback endpoint will read.
pub const MAX_BODY: usize = 4096;

/// The scheme name in `Authorization`, in lower case.
pub const BEARER: &'static str = "bearer ";

/// Paths a bearer token is never required on, whatever the method.
pub const UNGATED: [&'static str; 3] = ["/metrics", "/healthz", "/readyz"];

// ---------------------------------------------------------------------------
// The token
// ---------------------------------------------------------------------------

/// Why a token file could not be turned into an [`AdminAuth`].
#[derive(Debug)]
pub enum TokenError {
    /// The file could not be read.
    Unreadable(std::io::Error),
    /// The file held nothing but white space. Refused rather than accepted as an
    /// empty token, which would look configured and protect nothing.
    Empty,
}

impl TokenError {
    /// The error in words. What the system says of an unreadable file is the
    /// platform's own wording.
    pub fn to_text(&self) -> (r: String)
        ensures
            match self {
                TokenError::Unreadable(_) => text::starts_with(
                    r@,
                    "cannot read the admin token file: "@,
                ),
                TokenError::Empty => r@
                    == "the admin token file is empty; a blank token would authenticate anything that sends an empty bearer header"@,
            },
    {
        let mut out = String::new();
        match self {
            TokenError::Unreadable(error) => {
                push_text(&mut out, "cannot read the admin token file: ");
                let ghost front = out@;
                assert(front =~= "cannot read the admin token file: "@);
                let cause = io_error_text(error);
                push_text(&mut out, cause.as_str());
                assert(out@.take(front.len() as int) =~= front);
            },
            TokenError::Empty => {
                push_text(
                    &mut out,
                    "the admin token file is empty; a blank token would authenticate anything that sends an empty bearer header",
                );
                assert(out@
                    =~= "the admin token file is empty; a blank token would authenticate anything that sends an empty bearer header"@);
            },
        }
        out
    }
}

/// The bearer token the mutating admin endpoints require.
///
/// It cannot be formatted, so that it never reaches a log line.
#[derive(Clone)]
pub struct AdminAuth {
    token: Vec<u8>,
}

impl View for AdminAuth {
    type V = Seq<u8>;

    closed spec fn view(&self) -> Seq<u8> {
        self.token@
    }
}

/// `subtle`'s `ct_eq` on byte slices: whether they are the same, in a time that
/// depends on their lengths alone.
#[verifier::external_body]
fn same_secret(a: &[u8], b: &[u8]) -> (r: bool)
    ensures
        r == (a@ == b@),
{
    a.ct_eq(b).into()
}

/// Whether a field set carries a bearer token: the scheme in any case, then the
/// token itself.
pub open spec fn carries(f: Map<Seq<char>, Seq<Seq<u8>>>, token: Seq<u8>) -> bool {
    match header_map::first_value(f, "authorization"@) {
        Some(value) => {
            &&& header_map::all_visible(value)
            &&& value.len() >= 7
            &&& text::lower_bytes(value.take(7)) == header_map::ascii_bytes(BEARER@)
            &&& value.skip(7) == token
        },
        None => false,
    }
}

impl AdminAuth {
    /// The token in what a file held, or why there is none. White space around it
    /// is trimmed, because files end in a newline; the bytes inside it are taken
    /// as they are.
    pub fn from_file(read: Result<Vec<u8>, std::io::Error>) -> (r: Result<AdminAuth, TokenError>)
        ensures
            match read {
                Err(error) => r matches Err(TokenError::Unreadable(e)) && e == error,
                Ok(raw) => if text::trimmed_bytes(raw@).len() == 0 {
                    r matches Err(TokenError::Empty)
                } else {
                    r matches Ok(auth) && auth@ == text::trimmed_bytes(raw@)
                },
            },
    {
        let raw = match read {
            Ok(raw) => raw,
            Err(error) => return Err(TokenError::Unreadable(error)),
        };
        let token = trim_bytes(raw.as_slice());
        if token.len() == 0 {
            return Err(TokenError::Empty);
        }
        Ok(AdminAuth { token })
    }

    /// A token supplied directly.
    pub fn from_token(token: &str) -> (r: Result<AdminAuth, TokenError>)
        ensures
            if text::trimmed(token@).len() == 0 {
                r matches Err(TokenError::Empty)
            } else {
                r matches Ok(auth) && auth@ == vstd::utf8::encode_utf8(text::trimmed(token@))
            },
    {
        let chars = to_chars(token);
        let trimmed = trim(chars.as_slice());
        if trimmed.len() == 0 {
            return Err(TokenError::Empty);
        }
        let kept = text::from_chars(trimmed.as_slice());
        let bytes = kept.as_str().as_bytes();
        Ok(AdminAuth { token: copy_range(bytes, 0, bytes.len()) })
    }

    /// Whether these headers carry the right bearer token. The scheme's name may
    /// be in any case; the token is compared in a time that depends on its length
    /// alone.
    pub fn authorizes(&self, headers: &HeaderMap) -> (r: bool)
        ensures
            r == carries(header_map::fields(*headers), self@),
    {
        proof {
            reveal_strlit("authorization");
            reveal_strlit("bearer ");
            header_map::lemma_plain_name("authorization"@);
        }
        let value = match header_map::get(headers, "authorization") {
            Some(value) => value,
            None => return false,
        };
        if value.to_str().is_err() {
            return false;
        }
        let bytes = value.as_bytes();
        if bytes.len() < 7 {
            return false;
        }
        let scheme = copy_range(bytes, 0, 7);
        assert(scheme@ =~= bytes@.take(7));
        let wanted: [u8; 7] = [98, 101, 97, 114, 101, 114, 32];
        proof {
            assert(wanted@ =~= header_map::ascii_bytes(BEARER@));
            assert(text::lower_bytes(wanted@) =~= wanted@);
        }
        if !same_bytes_ignoring_case(scheme.as_slice(), wanted.as_slice()) {
            return false;
        }
        let offered = copy_range(bytes, 7, bytes.len());
        assert(offered@ =~= bytes@.skip(7));
        same_secret(offered.as_slice(), self.token.as_slice())
    }

    /// What may be shown of a token: that there is one.
    pub fn to_text(&self) -> (r: &'static str)
        ensures
            r@ == "AdminAuth(<redacted>)"@,
    {
        "AdminAuth(<redacted>)"
    }
}

/// Whether this replica should receive traffic.
///
/// Shared by its clones: one sets it and another reads it, on different threads.
/// What the atomic inside holds changes behind shared references and is no part
/// of this value, so no clause speaks of it: neither that a fresh flag is not
/// ready, nor that a read gives whatever was stored last by anyone. What follows
/// from a read is stated where it is acted on, of either answer.
#[derive(Debug, Clone)]
pub struct ReadinessFlag {
    ready: Arc<AtomicBool>,
}

impl Default for ReadinessFlag {
    fn default() -> ReadinessFlag {
        ReadinessFlag::new()
    }
}

impl ReadinessFlag {
    /// A flag that starts out not ready.
    pub fn new() -> ReadinessFlag {
        ReadinessFlag { ready: Arc::new(AtomicBool::new(false)) }
    }

    /// Marks the replica ready, or takes it back out of rotation. Whoever reads
    /// the mark also sees what was done before it was set.
    pub fn set_ready(&self, ready: bool) {
        self.ready.store(ready, Ordering::Release);
    }

    /// Whether the replica is currently ready.
    pub fn is_ready(&self) -> bool {
        self.ready.load(Ordering::Acquire)
    }
}

// ---------------------------------------------------------------------------
// Which endpoint a request is for
// ---------------------------------------------------------------------------

/// A request method, as far as it matters here.
#[derive(Debug, Clone, Copy, PartialEq, Eq, Structural)]
pub enum Method {
    Get,
    Head,
    Post,
    Delete,
    /// Any other, an extension or a lower-case name among them.
    Other,
}

/// The method with a name.
pub open spec fn method_named(name: Seq<char>) -> Method {
    if name == "GET"@ {
        Method::Get
    } else if name == "HEAD"@ {
        Method::Head
    } else if name == "POST"@ {
        Method::Post
    } else if name == "DELETE"@ {
        Method::Delete
    } else {
        Method::Other
    }
}

/// Gives the method with a name.
pub fn method(name: &str) -> (r: Method)
    ensures
        r == method_named(name@),
{
    if same_text(name, "GET") {
        Method::Get
    } else if same_text(name, "HEAD") {
        Method::Head
    } else if same_text(name, "POST") {
        Method::Post
    } else if same_text(name, "DELETE") {
        Method::Delete
    } else {
        Method::Other
    }
}

/// Whether a method can change what the replica serves. Everything that is not a
/// read can, so a method nobody thought about is treated as a write.
pub open spec fn writes(method: Method) -> bool {
    !(method is Get) && !(method is Head)
}

/// Whether this method can change what the replica serves.
pub fn mutates(method: Method) -> (r: bool)
    ensures
        r == writes(method),
{
    !matches!(method, Method::Get | Method::Head)
}

/// Is a token never asked for on a path?
pub open spec fn is_ungated(path: Seq<char>) -> bool {
    path == UNGATED@[0]@ || path == UNGATED@[1]@ || path == UNGATED@[2]@
}

fn ungated(path: &str) -> (r: bool)
    ensures
        r == is_ungated(path@),
{
    same_text(path, UNGATED[0]) || same_text(path, UNGATED[1]) || same_text(path, UNGATED[2])
}

/// What a request asks for.
#[derive(Debug, Clone, Copy, PartialEq, Eq, Structural)]
pub enum Endpoint {
    /// It carries no usable token.
    Unauthorized,
    /// Pin a generation.
    Rollback,
    /// Release the pin.
    Resume,
    /// A method the rollback endpoint does not answer to.
    NotPinning,
    /// A method the other endpoints do not answer to.
    NotReading,
    Metrics,
    Live,
    Ready,
    Generations,
    Routes,
    /// None of these.
    Missing,
}

/// What a request asks for. `authorized` says that it needs no token or carries
/// the right one. Without it a caller learns nothing of which endpoints there
/// are.
pub open spec fn endpoint_of(method: Method, path: Seq<char>, authorized: bool) -> Endpoint {
    if writes(method) && !is_ungated(path) && !authorized {
        Endpoint::Unauthorized
    } else if path == "/admin/rollback"@ {
        match method {
            Method::Post => Endpoint::Rollback,
            Method::Delete => Endpoint::Resume,
            _ => Endpoint::NotPinning,
        }
    } else if writes(method) {
        Endpoint::NotReading
    } else if path == "/metrics"@ {
        Endpoint::Metrics
    } else if path == "/healthz"@ {
        Endpoint::Live
    } else if path == "/readyz"@ {
        Endpoint::Ready
    } else if path == "/admin/generations"@ {
        Endpoint::Generations
    } else if path == "/admin/routes"@ {
        Endpoint::Routes
    } else {
        Endpoint::Missing
    }
}

/// Whether a request needs no token or carries the right one.
pub open spec fn is_authorized(auth: Option<AdminAuth>, f: Map<Seq<char>, Seq<Seq<u8>>>) -> bool {
    match auth {
        Some(auth) => carries(f, auth@),
        None => true,
    }
}

/// Decides what a request asks for.
pub fn endpoint(method: Method, path: &str, headers: &HeaderMap, auth: &Option<AdminAuth>) -> (r:
    Endpoint)
    ensures
        r == endpoint_of(
            method,
            path@,
            is_authorized(*auth, header_map::fields(*headers)),
        ),
{
    if mutates(method) && !ungated(path) {
        if let Some(auth) = auth {
            if !auth.authorizes(headers) {
                return Endpoint::Unauthorized;
            }
        }
    }
    if same_text(path, "/admin/rollback") {
        return match method {
            Method::Post => Endpoint::Rollback,
            Method::Delete => Endpoint::Resume,
            _ => Endpoint::NotPinning,
        };
    }
    if mutates(method) {
        return Endpoint::NotReading;
    }
    if same_text(path, "/metrics") {
        Endpoint::Metrics
    } else if same_text(path, "/healthz") {
        Endpoint::Live
    } else if same_text(path, "/readyz") {
        Endpoint::Ready
    } else if same_text(path, "/admin/generations") {
        Endpoint::Generations
    } else if same_text(path, "/admin/routes") {
        Endpoint::Routes
    } else {
        Endpoint::Missing
    }
}

/// A reply with a fixed text.
#[derive(Debug, Clone, Copy)]
pub struct Notice {
    pub status: u16,
    /// Whether the reply says how to authenticate.
    pub challenge: bool,
    pub body: &'static str,
}

/// The fixed text an endpoint replies with, where it has one.
pub open spec fn notice_of(endpoint: Endpoint, ready: bool) -> Option<Notice> {
    match endpoint {
        Endpoint::Unauthorized => Some(
            Notice {
                status: 401,
                challenge: true,
                body: "unauthorized: this endpoint requires Authorization: Bearer <token>\n",
            },
        ),
        Endpoint::NotPinning => Some(
            Notice {
                status: 405,
                challenge: false,
                body: "method not allowed: POST to pin a generation, DELETE to release it\n",
            },
        ),
        Endpoint::NotReading => Some(
            Notice { status: 405, challenge: false, body: "method not allowed\n" },
        ),
        Endpoint::Live => Some(Notice { status: 200, challenge: false, body: "ok\n" }),
        Endpoint::Ready => Some(
            if ready {
                Notice { status: 200, challenge: false, body: "ready\n" }
            } else {
                Notice { status: 503, challenge: false, body: "not ready\n" }
            },
        ),
        Endpoint::Missing => Some(Notice { status: 404, challenge: false, body: "not found\n" }),
        _ => None,
    }
}

/// Gives the fixed text an endpoint replies with, where it has one.
pub fn notice(endpoint: Endpoint, ready: bool) -> (r: Option<Notice>)
    ensures
        r == notice_of(endpoint, ready),
{
    match endpoint {
        Endpoint::Unauthorized => Some(
            Notice {
                status: 401,
                challenge: true,
                body: "unauthorized: this endpoint requires Authorization: Bearer <token>\n",
            },
        ),
        Endpoint::NotPinning => Some(
            Notice {
                status: 405,
                challenge: false,
                body: "method not allowed: POST to pin a generation, DELETE to release it\n",
            },
        ),
        Endpoint::NotReading => Some(
            Notice { status: 405, challenge: false, body: "method not allowed\n" },
        ),
        Endpoint::Live => Some(Notice { status: 200, challenge: false, body: "ok\n" }),
        Endpoint::Ready => Some(
            if ready {
                Notice { status: 200, challenge: false, body: "ready\n" }
            } else {
                Notice { status: 503, challenge: false, body: "not ready\n" }
            },
        ),
        Endpoint::Missing => Some(Notice { status: 404, challenge: false, body: "not found\n" }),
        _ => None,
    }
}

/// Nothing reachable with a read changes what is served: only `POST` and
/// `DELETE`, to one path, do.
pub proof fn a_read_changes_nothing(method: Method, path: Seq<char>, authorized: bool)
    ensures
        endpoint_of(method, path, authorized) is Rollback ==> method is Post,
        endpoint_of(method, path, authorized) is Resume ==> method is Delete,
        !writes(method) ==> {
            &&& !(endpoint_of(method, path, authorized) is Rollback)
            &&& !(endpoint_of(method, path, authorized) is Resume)
            &&& !(endpoint_of(method, path, authorized) is Unauthorized)
        },
{
}

/// Without authorization nothing that writes gets through, whatever the path, but
/// to the paths of the callers that cannot send a header; and those are refused
/// as writes.
pub proof fn an_unauthorized_write_gets_nowhere(method: Method, path: Seq<char>)
    requires
        writes(method),
    ensures
        endpoint_of(method, path, false) is Unauthorized || (is_ungated(path) && endpoint_of(
            method,
            path,
            false,
        ) is NotReading),
        !is_ungated("/admin/rollback"@),
{
    reveal_strlit("/admin/rollback");
    reveal_strlit("/metrics");
    reveal_strlit("/healthz");
    reveal_strlit("/readyz");
    assert("/admin/rollback"@.len() == 15);
    assert("/metrics"@.len() == 8 && "/healthz"@.len() == 8 && "/readyz"@.len() == 7);
}

// ---------------------------------------------------------------------------
// The pin
// ---------------------------------------------------------------------------

/// A reply to a request that pins or releases.
#[derive(Debug)]
pub enum PinReply {
    /// 200: this generation is pinned.
    Pinned(u64),
    /// 200: nothing is pinned.
    Released,
    /// 400: the request could not be understood.
    Misunderstood(&'static str),
    /// 404: the generation is not in the history.
    Unknown { error: String, generation: u64 },
    /// 409: another generation is pinned.
    Conflict { error: String, pinned: u64 },
}

/// The status of a reply.
pub open spec fn pin_status(reply: PinReply) -> u16 {
    match reply {
        PinReply::Pinned(_) => 200,
        PinReply::Released => 200,
        PinReply::Misunderstood(_) => 400,
        PinReply::Unknown { .. } => 404,
        PinReply::Conflict { .. } => 409,
    }
}

impl PinReply {
    /// The status of this reply.
    pub fn status(&self) -> (r: u16)
        ensures
            r == pin_status(*self),
    {
        match self {
            PinReply::Pinned(_) => 200,
            PinReply::Released => 200,
            PinReply::Misunderstood(_) => 400,
            PinReply::Unknown { .. } => 404,
            PinReply::Conflict { .. } => 409,
        }
    }
}

/// The JSON that some bytes spell, or `None` when they spell none.
pub uninterp spec fn json_value(document: Seq<u8>) -> Option<serde_json::Value>;

/// The member of an object under a name, or `None` when there is none or the value
/// is no object.
pub uninterp spec fn json_member(value: serde_json::Value, name: Seq<char>) -> Option<
    serde_json::Value,
>;

/// The number a value is, or `None` when it is none without a sign or a fraction.
pub uninterp spec fn json_whole(value: serde_json::Value) -> Option<u64>;

/// `serde_json::from_slice` into a `Value`: the JSON that some bytes spell.
#[verifier::external_body]
fn parse_json(document: &[u8]) -> (r: Option<serde_json::Value>)
    ensures
        r == json_value(document@),
{
    serde_json::from_slice::<serde_json::Value>(document).ok()
}

/// `serde_json::Value::get` with a name: the member of an object under that name.
#[verifier::external_body]
fn member<'a>(value: &'a serde_json::Value, name: &str) -> (r: Option<&'a serde_json::Value>)
    ensures
        match r {
            Some(found) => json_member(*value, name@) == Some(*found),
            None => json_member(*value, name@) is None,
        },
{
    value.get(name)
}

/// `serde_json::Value::as_u64`: the number a value is, when it is one without a
/// sign or a fraction.
pub assume_specification[ serde_json::Value::as_u64 ](value: &serde_json::Value) -> (r: Option<u64>)
    ensures
        r == json_whole(*value),
;

/// The generation a JSON document names: the `generation` member of an object,
/// when that is a number without a sign or a fraction.
pub open spec fn named_generation(document: Seq<u8>) -> Option<u64> {
    match json_value(document) {
        Some(value) => match json_member(value, "generation"@) {
            Some(found) => json_whole(found),
            None => None,
        },
        None => None,
    }
}

fn read_generation(document: &[u8]) -> (r: Option<u64>)
    ensures
        r == named_generation(document@),
{
    match parse_json(document) {
        Some(value) => match member(&value, "generation") {
            Some(found) => found.as_u64(),
            None => None,
        },
        None => None,
    }
}

/// Whether a reply is the one that a request to pin `generation` gets.
pub open spec fn pin_answer<T>(before: history::HistoryView<T>, generation: u64, r: PinReply) -> bool {
    match before.pin_refusal(generation) {
        None => r == PinReply::Pinned(generation),
        Some(error) => match error {
            PinError::Unknown(_) => r matches PinReply::Unknown { error: message, generation: g }
                && message@ == history::pin_error_text(error) && g == generation,
            PinError::AlreadyPinned(current) => r matches PinReply::Conflict {
                error: message,
                pinned,
            } && message@ == history::pin_error_text(error) && pinned == current,
        },
    }
}

/// Pins the generation that was asked for, if one could be read out of the
/// request.
pub fn pin<T>(history: &mut GenerationHistory<T>, generation: Option<u64>) -> (r: PinReply)
    ensures
        match generation {
            None => {
                &&& r == PinReply::Misunderstood(
                    "body must be an object with a numeric `generation`",
                )
                &&& final(history)@ == old(history)@
            },
            Some(generation) => {
                &&& pin_answer(old(history)@, generation, r)
                &&& final(history)@ == old(history)@.pinned_at(generation)
            },
        },
        old(history)@.wf() ==> final(history)@.wf(),
{
    let generation = match generation {
        Some(generation) => generation,
        None => return PinReply::Misunderstood(
            "body must be an object with a numeric `generation`",
        ),
    };
    match history.pin(generation) {
        Ok(_) => PinReply::Pinned(generation),
        Err(error) => {
            let message = error.to_text();
            match error {
                PinError::Unknown(_) => PinReply::Unknown { error: message, generation },
                PinError::AlreadyPinned(pinned) => PinReply::Conflict { error: message, pinned },
            }
        },
    }
}

/// `POST /admin/rollback`: republishes a generation and holds publication there.
/// `body` is the request's, or `None` when it could not be read within
/// `MAX_BODY`.
pub fn rollback<T>(history: &mut GenerationHistory<T>, body: Option<&[u8]>) -> (r: PinReply)
    ensures
        match body {
            None => {
                &&& r == PinReply::Misunderstood("could not read the request body")
                &&& final(history)@ == old(history)@
            },
            Some(document) => match named_generation(document@) {
                None => {
                    &&& r == PinReply::Misunderstood(
                        "body must be an object with a numeric `generation`",
                    )
                    &&& final(history)@ == old(history)@
                },
                Some(generation) => {
                    &&& pin_answer(old(history)@, generation, r)
                    &&& final(history)@ == old(history)@.pinned_at(generation)
                },
            },
        },
        old(history)@.wf() ==> final(history)@.wf(),
{
    match body {
        None => PinReply::Misunderstood("could not read the request body"),
        Some(document) => {
            let generation = read_generation(document);
            pin(history, generation)
        },
    }
}

/// `DELETE /admin/rollback`: releases the pin and publishes the newest
/// generation.
pub fn resume<T>(history: &mut GenerationHistory<T>) -> (r: PinReply)
    ensures
        r == PinReply::Released,
        final(history)@ == old(history)@.resumed(),
        old(history)@.wf() ==> final(history)@.wf(),
{
    let _ = history.unpin();
    PinReply::Released
}

// ---------------------------------------------------------------------------
// The generations
// ---------------------------------------------------------------------------

/// One generation as it is listed.
#[derive(Debug)]
pub struct GenerationEntry {
    pub generation: u64,
    pub applied_at: String,
    pub published: bool,
    /// In hexadecimal and of one width: an identity to compare between replicas,
    /// not a number.
    pub digest: String,
    pub routes: u64,
    pub hosts: u64,
    pub certs: u64,
    pub diff: Arc<serde_json::Value>,
}

/// Whether an entry describes a record.
pub open spec fn describes<T>(entry: GenerationEntry, record: GenerationRecord<T>) -> bool {
    &&& entry.generation == record.generation
    &&& entry.applied_at@ == calendar::rfc3339_text(record.applied_at)
    &&& entry.published == record.published
    &&& entry.digest@ == text::zero_padded(text::hexadecimal(record.digest as nat), 16)
    &&& entry.routes == record.table.route_count
    &&& entry.hosts == record.table.host_count + record.table.wildcard_host_count
    &&& entry.certs == record.keys@.dom().len()
    &&& entry.diff == record.diff
}

/// `GET /admin/generations`.
#[derive(Debug)]
pub struct Generations {
    pub version: u64,
    pub pinned: Option<u64>,
    pub serving: u64,
    /// Newest first.
    pub generations: Vec<GenerationEntry>,
}

/// Lists what this replica has applied, newest first.
pub fn generations<T>(history: &GenerationHistory<T>) -> (r: Generations)
    ensures
        r.version == API_VERSION,
        r.pinned == history@.pinned,
        r.serving == history@.live.generation,
        r.generations@.len() == history@.ring.len(),
        forall|i: int|
            0 <= i < r.generations@.len() ==> describes(
                #[trigger] r.generations@[i],
                history@.ring[history@.ring.len() - 1 - i],
            ),
{
    let ring = history.records();
    let mut list: Vec<GenerationEntry> = Vec::new();
    let mut left: usize = ring.len();
    while left > 0
        invariant
            left <= ring@.len(),
            ring@ == history@.ring,
            list@.len() + left == ring@.len(),
            forall|i: int|
                0 <= i < list@.len() ==> describes(
                    #[trigger] list@[i],
                    history@.ring[history@.ring.len() - 1 - i],
                ),
        decreases left,
    {
        left = left - 1;
        let record = &ring[left];
        list.push(
            GenerationEntry {
                generation: record.generation,
                applied_at: rfc3339(record.applied_at),
                published: record.published,
                digest: padded_numeral(record.digest, 16, 16),
                routes: record.routes(),
                hosts: record.hosts(),
                certs: record.certs(),
                diff: share(&record.diff),
            },
        );
    }
    Generations {
        version: API_VERSION,
        pinned: history.pinned(),
        serving: history.serving(),
        generations: list,
    }
}

// ---------------------------------------------------------------------------
// The routes
// ---------------------------------------------------------------------------

/// A rule's canary.
#[derive(Debug)]
pub struct CanaryEntry {
    pub backend: String,
    pub weight_percent: u32,
}

/// A rule's mirror.
#[derive(Debug)]
pub struct MirrorEntry {
    pub backend: String,
    pub percent: u32,
    pub host: Option<String>,
}

/// A rule of the serving table, with the counters it has, if it has any.
#[derive(Debug)]
pub struct RouteFacts {
    pub host: String,
    pub path: String,
    pub path_type: String,
    pub backend: String,
    pub endpoints: usize,
    pub protocol: String,
    /// The rule's totals, and those of its canary, which are a part of them.
    pub counters: Option<(RouteTotals, RouteTotals)>,
    pub canary: Option<CanaryEntry>,
    pub mirror: Option<MirrorEntry>,
}

/// One route as it is listed.
#[derive(Debug)]
pub struct RouteEntry {
    pub host: String,
    pub path: String,
    pub path_type: String,
    pub backend: String,
    pub endpoints: usize,
    pub protocol: String,
    pub totals: RouteTotals,
    pub canary: Option<CanaryEntry>,
    /// The part of the totals that the canary served. Listed only for a route
    /// with a canary: nothing served by a canary and no canary at all are not
    /// the same.
    pub canary_stats: Option<RouteTotals>,
    pub mirror: Option<MirrorEntry>,
}

/// A rule as it is listed.
pub open spec fn listed(facts: RouteFacts) -> RouteEntry {
    RouteEntry {
        host: facts.host,
        path: facts.path,
        path_type: facts.path_type,
        backend: facts.backend,
        endpoints: facts.endpoints,
        protocol: facts.protocol,
        totals: match facts.counters {
            Some((totals, _)) => totals,
            None => totals::nothing(),
        },
        canary: facts.canary,
        canary_stats: match (facts.canary, facts.counters) {
            (Some(_), Some((_, canary))) => Some(canary),
            _ => None,
        },
        mirror: facts.mirror,
    }
}

fn list_route(facts: RouteFacts) -> (r: RouteEntry)
    ensures
        r == listed(facts),
{
    let totals = match facts.counters {
        Some((totals, _)) => totals,
        None => RouteTotals::default(),
    };
    let canary_stats = match (&facts.canary, facts.counters) {
        (Some(_), Some((_, canary))) => Some(canary),
        _ => None,
    };
    RouteEntry {
        host: facts.host,
        path: facts.path,
        path_type: facts.path_type,
        backend: facts.backend,
        endpoints: facts.endpoints,
        protocol: facts.protocol,
        totals,
        canary: facts.canary,
        canary_stats,
        mirror: facts.mirror,
    }
}

/// Is one route listed before another: by host, and then by path?
pub open spec fn goes_before(a: RouteEntry, b: RouteEntry) -> bool {
    text::before(a.host@, b.host@) || (a.host@ == b.host@ && text::before(a.path@, b.path@))
}

/// A list in which nothing stands behind what it goes before.
pub open spec fn in_order(list: Seq<RouteEntry>) -> bool {
    forall|i: int, j: int|
        0 <= i < j < list.len() ==> !goes_before(#[trigger] list[j], #[trigger] list[i])
}

/// Where a route belongs in a list from place `i` on: in front of the first that
/// it goes before.
pub open spec fn place_from(list: Seq<RouteEntry>, entry: RouteEntry, i: nat) -> nat
    decreases list.len() - i,
{
    if i >= list.len() {
        list.len()
    } else if goes_before(entry, list[i as int]) {
        i
    } else {
        place_from(list, entry, i + 1)
    }
}

/// The list with one more route in its place, behind those with the same host and
/// path.
pub open spec fn placed(list: Seq<RouteEntry>, entry: RouteEntry) -> Seq<RouteEntry> {
    list.insert(place_from(list, entry, 0) as int, entry)
}

/// The routes of a table in the order in which they are listed: by host and path,
/// and where those are the same in the order of the table.
pub open spec fn arranged(table: Seq<RouteFacts>) -> Seq<RouteEntry>
    decreases table.len(),
{
    if table.len() == 0 {
        Seq::empty()
    } else {
        placed(arranged(table.drop_last()), listed(table.last()))
    }
}

proof fn lemma_order(a: RouteEntry, b: RouteEntry, c: RouteEntry)
    ensures
        !goes_before(a, a),
        goes_before(a, b) ==> !goes_before(b, a),
        goes_before(a, b) && !goes_before(c, b) ==> goes_before(a, c),
        !goes_before(b, a) && !goes_before(c, b) ==> !goes_before(c, a),
{
    text::lemma_before_is_total(a.host@, a.host@);
    text::lemma_before_is_total(a.path@, a.path@);
    text::lemma_before_is_total(a.host@, b.host@);
    text::lemma_before_is_total(a.path@, b.path@);
    text::lemma_before_is_total(b.host@, c.host@);
    text::lemma_before_is_total(b.path@, c.path@);
    text::lemma_before_is_total(a.host@, c.host@);
    text::lemma_before_is_total(a.path@, c.path@);
    if text::before(a.host@, b.host@) && text::before(b.host@, c.host@) {
        text::lemma_before_is_transitive(a.host@, b.host@, c.host@);
    }
    if text::before(c.host@, a.host@) && text::before(a.host@, b.host@) {
        text::lemma_before_is_transitive(c.host@, a.host@, b.host@);
    }
    if text::before(c.host@, b.host@) && text::before(b.host@, a.host@) {
        text::lemma_before_is_transitive(c.host@, b.host@, a.host@);
    }
    if text::before(b.host@, c.host@) && text::before(c.host@, a.host@) {
        text::lemma_before_is_transitive(b.host@, c.host@, a.host@);
    }
    if text::before(a.path@, b.path@) && text::before(b.path@, c.path@) {
        text::lemma_before_is_transitive(a.path@, b.path@, c.path@);
    }
    if text::before(c.path@, a.path@) && text::before(a.path@, b.path@) {
        text::lemma_before_is_transitive(c.path@, a.path@, b.path@);
    }
    if text::before(b.path@, c.path@) && text::before(c.path@, a.path@) {
        text::lemma_before_is_transitive(b.path@, c.path@, a.path@);
    }
}

proof fn lemma_place(list: Seq<RouteEntry>, entry: RouteEntry, i: nat, at: nat)
    requires
        i <= at <= list.len(),
        forall|j: int| i <= j < at ==> !goes_before(entry, #[trigger] list[j]),
        at < list.len() ==> goes_before(entry, list[at as int]),
    ensures
        place_from(list, entry, i) == at,
    decreases at - i,
{
    if i < at {
        lemma_place(list, entry, i + 1, at);
    }
}

/// Do two routes stand in a list's order, by their places as keys?
fn entry_before(a: &RouteEntry, b: &RouteEntry) -> (r: bool)
    ensures
        r == goes_before(*a, *b),
{
    let a_host = to_chars(a.host.as_str());
    let b_host = to_chars(b.host.as_str());
    if stands_before(a_host.as_slice(), b_host.as_slice()) {
        return true;
    }
    if !text::same_chars(a_host.as_slice(), b_host.as_slice()) {
        return false;
    }
    let a_path = to_chars(a.path.as_str());
    let b_path = to_chars(b.path.as_str());
    stands_before(a_path.as_slice(), b_path.as_slice())
}

/// Finds where a route belongs in a list that is in order, by halving.
fn find_place(list: &Vec<RouteEntry>, entry: &RouteEntry) -> (r: usize)
    requires
        in_order(list@),
    ensures
        r == place_from(list@, *entry, 0),
        r <= list@.len(),
{
    let mut low: usize = 0;
    let mut high: usize = list.len();
    while low < high
        invariant
            low <= high <= list@.len(),
            in_order(list@),
            forall|j: int| 0 <= j < low ==> !goes_before(*entry, #[trigger] list@[j]),
            forall|j: int| high <= j < list@.len() ==> goes_before(*entry, #[trigger] list@[j]),
        decreases high - low,
    {
        let middle: usize = low + (high - low) / 2;
        let before = entry_before(entry, &list[middle]);
        proof {
            let m = list@[middle as int];
            assert forall|j: int| 0 <= j < list@.len() implies {
                &&& (before && middle <= j ==> goes_before(*entry, #[trigger] list@[j]))
                &&& (!before && j <= middle ==> !goes_before(*entry, list@[j]))
            } by {
                lemma_order(*entry, m, list@[j]);
                lemma_order(*entry, list@[j], m);
            }
        }
        if before {
            high = middle;
        } else {
            low = middle + 1;
        }
    }
    proof {
        lemma_place(list@, *entry, 0, low as nat);
    }
    low
}

proof fn lemma_placed_in_order(list: Seq<RouteEntry>, entry: RouteEntry)
    requires
        in_order(list),
    ensures
        in_order(placed(list, entry)),
{
    let at = place_from(list, entry, 0);
    lemma_place_splits(list, entry, 0);
    let all = placed(list, entry);
    assert forall|i: int, j: int| 0 <= i < j < all.len() implies !goes_before(
        #[trigger] all[j],
        #[trigger] all[i],
    ) by {
        let a = if i < at {
            list[i]
        } else if i == at {
            entry
        } else {
            list[i - 1]
        };
        let b = if j < at {
            list[j]
        } else if j == at {
            entry
        } else {
            list[j - 1]
        };
        assert(all[i] == a && all[j] == b);
        if i == at {
            let front = list[at as int];
            lemma_order(entry, front, b);
            lemma_order(entry, b, b);
        }
    }
}

proof fn lemma_place_splits(list: Seq<RouteEntry>, entry: RouteEntry, i: nat)
    requires
        i <= list.len(),
    ensures
        i <= place_from(list, entry, i) <= list.len(),
        forall|j: int|
            i <= j < place_from(list, entry, i) ==> !goes_before(entry, #[trigger] list[j]),
        place_from(list, entry, i) < list.len() ==> goes_before(
            entry,
            list[place_from(list, entry, i) as int],
        ),
    decreases list.len() - i,
{
    if i < list.len() && !goes_before(entry, list[i as int]) {
        lemma_place_splits(list, entry, i + 1);
    }
}

/// The listing is in order by host and path, and it holds every route of the
/// table, each once.
pub proof fn the_listing_is_in_order(table: Seq<RouteFacts>)
    ensures
        in_order(arranged(table)),
        arranged(table).len() == table.len(),
        arranged(table).to_multiset() == table.map_values(
            |facts: RouteFacts| listed(facts),
        ).to_multiset(),
    decreases table.len(),
{
    broadcast use vstd::seq_lib::group_to_multiset_ensures;

    let rows = table.map_values(|facts: RouteFacts| listed(facts));
    if table.len() > 0 {
        let rest = table.drop_last();
        let entry = listed(table.last());
        the_listing_is_in_order(rest);
        lemma_placed_in_order(arranged(rest), entry);
        lemma_place_splits(arranged(rest), entry, 0);
        let fewer = rest.map_values(|facts: RouteFacts| listed(facts));
        assert(rows =~= fewer.push(entry));
        vstd::seq_lib::to_multiset_insert(
            arranged(rest),
            place_from(arranged(rest), entry, 0) as int,
            entry,
        );
    } else {
        assert(arranged(table) =~= rows);
    }
}

/// `GET /admin/routes`.
#[derive(Debug)]
pub struct Routes {
    pub version: u64,
    pub generation: u64,
    pub routes: Vec<RouteEntry>,
}

/// Lists every route in the serving table. The order does not depend on the
/// table's own, which changes from one generation to the next.
pub fn routes(generation: u64, table: Vec<RouteFacts>) -> (r: Routes)
    ensures
        r.version == API_VERSION,
        r.generation == generation,
        r.routes@ == arranged(table@),
{
    let ghost all = table@;
    let mut rest = table;
    let mut list: Vec<RouteEntry> = Vec::new();
    let mut queue: Vec<RouteFacts> = Vec::new();
    while rest.len() > 0
        invariant
            rest@.len() <= all.len(),
            rest@ == all.take(rest@.len() as int),
            queue@.len() + rest@.len() == all.len(),
            forall|i: int|
                0 <= i < queue@.len() ==> #[trigger] queue@[i] == all[all.len() - 1 - i],
        decreases rest@.len(),
    {
        match rest.pop() {
            Some(facts) => {
                queue.push(facts);
                assert(rest@ =~= all.take(rest@.len() as int));
            },
            None => {},
        }
    }
    let ghost mut done: int = 0;
    while queue.len() > 0
        invariant
            0 <= done <= all.len(),
            queue@.len() + done == all.len(),
            forall|i: int|
                0 <= i < queue@.len() ==> #[trigger] queue@[i] == all[all.len() - 1 - i],
            list@ == arranged(all.take(done)),
        decreases queue@.len(),
    {
        proof {
            the_listing_is_in_order(all.take(done));
        }
        match queue.pop() {
            Some(facts) => {
                assert(facts == all[done]);
                let entry = list_route(facts);
                let at = find_place(&list, &entry);
                list.insert(at, entry);
                proof {
                    assert(all.take(done + 1).drop_last() =~= all.take(done));
                    assert(all.take(done + 1).last() == all[done]);
                    done = done + 1;
                }
            },
            None => {},
        }
    }
    assert(all.take(done) =~= all);
    Routes { version: API_VERSION, generation, routes: list }
}

// ---------------------------------------------------------------------------
// Laws
// ---------------------------------------------------------------------------

proof fn lemma_paths_differ()
    ensures
        "/metrics"@ != "/healthz"@,
        "/metrics"@ != "/readyz"@,
        "/metrics"@ != "/admin/generations"@,
        "/metrics"@ != "/admin/routes"@,
        "/metrics"@ != "/admin/rollback"@,
        "/healthz"@ != "/readyz"@,
        "/healthz"@ != "/admin/generations"@,
        "/healthz"@ != "/admin/routes"@,
        "/healthz"@ != "/admin/rollback"@,
        "/readyz"@ != "/admin/generations"@,
        "/readyz"@ != "/admin/routes"@,
        "/readyz"@ != "/admin/rollback"@,
        "/admin/generations"@ != "/admin/routes"@,
        "/admin/generations"@ != "/admin/rollback"@,
        "/admin/routes"@ != "/admin/rollback"@,
{
    reveal_strlit("/metrics");
    reveal_strlit("/healthz");
    reveal_strlit("/readyz");
    reveal_strlit("/admin/generations");
    reveal_strlit("/admin/routes");
    reveal_strlit("/admin/rollback");
    assert("/metrics"@.len() == 8 && "/healthz"@.len() == 8 && "/readyz"@.len() == 7);
    assert("/metrics"@[1] == 'm' && "/healthz"@[1] == 'h');
    assert("/admin/generations"@.len() == 18 && "/admin/routes"@.len() == 13);
    assert("/admin/rollback"@.len() == 15);
}

/// A read is answered by the endpoint of its path, with or without a token, and by no
/// other; a path that is none of them is missing. The path of the rollback answers to no
/// read.
pub proof fn a_read_is_answered_by_its_path(method: Method, path: Seq<char>, authorized: bool)
    requires
        method is Get || method is Head,
    ensures
        endpoint_of(method, "/metrics"@, authorized) is Metrics,
        endpoint_of(method, "/healthz"@, authorized) is Live,
        endpoint_of(method, "/readyz"@, authorized) is Ready,
        endpoint_of(method, "/admin/generations"@, authorized) is Generations,
        endpoint_of(method, "/admin/routes"@, authorized) is Routes,
        endpoint_of(method, "/admin/rollback"@, authorized) is NotPinning,
        path != "/metrics"@ && path != "/healthz"@ && path != "/readyz"@ && path
            != "/admin/generations"@ && path != "/admin/routes"@ && path != "/admin/rollback"@
            ==> endpoint_of(method, path, authorized) is Missing,
{
    lemma_paths_differ();
}

/// A write that is let through pins with `POST` and releases with `DELETE`, on one path
/// and nowhere else; any other is told that the method is not allowed. One that is not
/// let through learns nothing, but on the three paths whose callers cannot send a token,
/// where it is told that too.
pub proof fn a_write_is_answered_by_its_method(method: Method, path: Seq<char>)
    requires
        !(method is Get),
        !(method is Head),
    ensures
        endpoint_of(method, "/admin/rollback"@, true) is Rollback <==> method is Post,
        endpoint_of(method, "/admin/rollback"@, true) is Resume <==> method is Delete,
        endpoint_of(method, "/admin/rollback"@, true) is NotPinning <==> method is Other,
        path != "/admin/rollback"@ ==> endpoint_of(method, path, true) is NotReading,
        path == "/metrics"@ || path == "/healthz"@ || path == "/readyz"@ ==> endpoint_of(
            method,
            path,
            false,
        ) is NotReading,
        path != "/metrics"@ && path != "/healthz"@ && path != "/readyz"@ ==> endpoint_of(
            method,
            path,
            false,
        ) is Unauthorized,
{
    lemma_paths_differ();
}

/// A method has one name, in capitals, and every other text is another method.
pub proof fn a_method_has_one_name(name: Seq<char>)
    ensures
        method_named(name) is Get <==> name == "GET"@,
        method_named(name) is Head <==> name == "HEAD"@,
        method_named(name) is Post <==> name == "POST"@,
        method_named(name) is Delete <==> name == "DELETE"@,
        writes(method_named(name)) <==> name != "GET"@ && name != "HEAD"@,
{
    reveal_strlit("GET");
    reveal_strlit("HEAD");
    reveal_strlit("POST");
    reveal_strlit("DELETE");
    assert("GET"@.len() == 3 && "HEAD"@.len() == 4 && "POST"@.len() == 4 && "DELETE"@.len() == 6);
    assert("HEAD"@[0] == 'H' && "POST"@[0] == 'P');
}

/// Without a token configured every request is let through; with one, exactly those that
/// carry it.
pub proof fn a_token_is_asked_for_where_there_is_one(
    auth: Option<AdminAuth>,
    f: Map<Seq<char>, Seq<Seq<u8>>>,
)
    ensures
        auth is None ==> is_authorized(auth, f),
        auth matches Some(token) ==> (is_authorized(auth, f) <==> carries(f, token@)),
        !f.contains_key("authorization"@) ==> (auth matches Some(token) ==> !carries(f, token@)),
{
}

/// A request carries a token exactly where its first `authorization` is the word
/// `bearer`, in any case, one blank, and that token to the last byte.
pub proof fn a_token_is_carried_whole(
    f: Map<Seq<char>, Seq<Seq<u8>>>,
    scheme: Seq<u8>,
    offered: Seq<u8>,
    token: Seq<u8>,
)
    requires
        f.contains_key("authorization"@),
        f["authorization"@].len() > 0,
        f["authorization"@][0] == scheme + offered,
        scheme.len() == 7,
        scheme[0] == 98 || scheme[0] == 66,
        scheme[1] == 101 || scheme[1] == 69,
        scheme[2] == 97 || scheme[2] == 65,
        scheme[3] == 114 || scheme[3] == 82,
        scheme[4] == 101 || scheme[4] == 69,
        scheme[5] == 114 || scheme[5] == 82,
        scheme[6] == 32,
        forall|i: int| 0 <= i < offered.len() ==> 33 <= #[trigger] offered[i] <= 126,
    ensures
        carries(f, token) <==> token == offered,
{
    reveal_strlit("bearer ");
    let value = f["authorization"@][0];
    assert(value.take(7) =~= scheme);
    assert(value.skip(7) =~= offered);
    assert(text::lower_bytes(scheme) =~= header_map::ascii_bytes("bearer "@));
    assert forall|i: int| 0 <= i < value.len() implies header_map::is_visible(#[trigger] value[i]) by {
        if i < 7 {
            assert(value[i] == scheme[i]);
        } else {
            assert(value[i] == offered[i - 7]);
        }
    }
}

/// Any other scheme carries no token.
pub proof fn another_scheme_carries_nothing(
    f: Map<Seq<char>, Seq<Seq<u8>>>,
    token: Seq<u8>,
    i: int,
)
    requires
        carries(f, token),
        0 <= i < 7,
    ensures
        f.contains_key("authorization"@),
        f["authorization"@].len() > 0,
        f["authorization"@][0].len() == 7 + token.len(),
        f["authorization"@][0].skip(7) == token,
        ({
            let word = seq![98u8, 101u8, 97u8, 114u8, 101u8, 114u8, 32u8];
            f["authorization"@][0][i] == word[i] || (i < 6 && f["authorization"@][0][i] == word[i]
                - 32)
        }),
{
    reveal_strlit("bearer ");
    let value = f["authorization"@][0];
    let word = seq![98u8, 101u8, 97u8, 114u8, 101u8, 114u8, 32u8];
    assert(header_map::ascii_bytes("bearer "@) =~= word);
    assert(text::lower_bytes(value.take(7))[i] == word[i]);
    assert(value.take(7)[i] == value[i]);
}

/// What an endpoint without a document replies. Only a missing token is answered with a
/// challenge; being alive does not depend on being ready, and being ready is what
/// `/readyz` says.
pub proof fn a_notice_has_its_status(endpoint: Endpoint, ready: bool)
    ensures
        endpoint is Unauthorized ==> notice_of(endpoint, ready)->Some_0.status == 401,
        endpoint is NotPinning || endpoint is NotReading ==> notice_of(
            endpoint,
            ready,
        )->Some_0.status == 405,
        endpoint is Live ==> notice_of(endpoint, ready)->Some_0.status == 200 && notice_of(
            endpoint,
            ready,
        )->Some_0.body == "ok\n",
        endpoint is Ready && ready ==> notice_of(endpoint, ready)->Some_0.status == 200 && notice_of(
            endpoint,
            ready,
        )->Some_0.body == "ready\n",
        endpoint is Ready && !ready ==> notice_of(endpoint, ready)->Some_0.status == 503
            && notice_of(endpoint, ready)->Some_0.body == "not ready\n",
        endpoint is Missing ==> notice_of(endpoint, ready)->Some_0.status == 404,
        notice_of(endpoint, ready) matches Some(notice) ==> (notice.challenge
            <==> endpoint is Unauthorized),
        notice_of(endpoint, ready) is None <==> endpoint is Metrics || endpoint is Generations
            || endpoint is Routes || endpoint is Rollback || endpoint is Resume,
{
}

/// How a request to pin is answered: 200 where the generation is in the ring and nothing
/// is pinned, 409 with the pinned one where something is, and 404 with the number that
/// was asked for where the ring does not hold it.
pub proof fn a_pin_is_answered_by_the_ring<T>(
    before: history::HistoryView<T>,
    generation: u64,
    r: PinReply,
)
    requires
        pin_answer(before, generation, r),
    ensures
        pin_status(r) == 200 <==> before.pinned is None && exists|i: int|
            0 <= i < before.ring.len() && (#[trigger] before.ring[i]).generation == generation,
        pin_status(r) == 200 ==> r == PinReply::Pinned(generation),
        pin_status(r) == 409 <==> before.pinned is Some,
        before.pinned matches Some(current) ==> (r matches PinReply::Conflict { pinned, .. }
            && pinned == current),
        pin_status(r) == 404 <==> before.pinned is None && forall|i: int|
            0 <= i < before.ring.len() ==> (#[trigger] before.ring[i]).generation != generation,
        pin_status(r) == 404 ==> (r matches PinReply::Unknown { generation: g, .. } && g
            == generation),
{
}

/// The statuses of the replies.
pub proof fn a_pin_reply_has_its_status(reply: PinReply)
    ensures
        pin_status(reply) == 200 <==> reply is Pinned || reply is Released,
        pin_status(reply) == 400 <==> reply is Misunderstood,
        pin_status(reply) == 404 <==> reply is Unknown,
        pin_status(reply) == 409 <==> reply is Conflict,
{
}

/// A document names a generation under `generation` and under no other name.
pub proof fn a_document_names_its_generation(document: Seq<u8>, generation: u64)
    ensures
        named_generation(document) == Some(generation) <==> {
            &&& json_value(document) is Some
            &&& json_member(json_value(document)->0, "generation"@) is Some
            &&& json_whole(json_member(json_value(document)->0, "generation"@)->0) == Some(
                generation,
            )
        },
{
}

/// An entry of the listing shows its record: the number, the moment, whether it went
/// live, how many routes, hosts and certificates it had, and its digest in sixteen
/// digits, which spell the digest.
pub proof fn an_entry_shows_its_record<T>(entry: GenerationEntry, record: GenerationRecord<T>)
    requires
        describes(entry, record),
    ensures
        entry.generation == record.generation,
        entry.published <==> record.published,
        entry.applied_at@ == calendar::rfc3339_text(record.applied_at),
        entry.routes == record.table.route_count,
        entry.hosts - record.table.host_count == record.table.wildcard_host_count,
        entry.certs == record.keys@.dom().len(),
        entry.diff == record.diff,
        text::number_value(entry.digest@, 16) == record.digest,
        entry.digest@.len() == 16,
{
    text::padding_keeps_the_number(record.digest as nat, 16, 16);
    reveal_with_fuel(vstd::arithmetic::power::pow, 17);
    text::lemma_numeral_length(record.digest as nat, 16, 0x1_0000_0000_0000_0000, 16);
}

/// A route is listed with its own facts. Its totals are the rule's, a canary's numbers
/// are shown exactly for a rule that has a canary and counters, and a rule without
/// counters has served nothing.
pub proof fn a_route_is_listed_with_its_own_facts(facts: RouteFacts)
    ensures
        ({
            let entry = listed(facts);
            &&& entry.host == facts.host
            &&& entry.path == facts.path
            &&& entry.path_type == facts.path_type
            &&& entry.backend == facts.backend
            &&& entry.endpoints == facts.endpoints
            &&& entry.protocol == facts.protocol
            &&& entry.canary == facts.canary
            &&& entry.mirror == facts.mirror
            &&& facts.counters matches Some((all, canary)) ==> entry.totals == all && (
            facts.canary is Some ==> entry.canary_stats == Some(canary))
            &&& facts.counters is None ==> entry.totals.requests == 0 && entry.totals.errors_5xx
                == 0 && entry.totals.upstream_latency_micros == 0
                && entry.totals.upstream_latency_count == 0
            &&& entry.canary_stats is Some <==> facts.canary is Some && facts.counters is Some
        }),
{
}

/// Routes stand in a dictionary's order of their hosts, and those of one host in that of
/// their paths.
pub proof fn routes_stand_by_host_and_path(
    a: RouteEntry,
    b: RouteEntry,
    front: Seq<char>,
    x: char,
    y: char,
    s: Seq<char>,
    t: Seq<char>,
)
    requires
        x < y,
    ensures
        a.host@ == front + seq![x] + s && b.host@ == front + seq![y] + t ==> goes_before(a, b),
        a.host@ == b.host@ && a.path@ == front + seq![x] + s && b.path@ == front + seq![y] + t
            ==> goes_before(a, b),
        a.host@ == b.host@ && a.path@ == b.path@ ==> !goes_before(a, b),
{
    text::a_dictionary_goes_by_the_first_difference(front, x, y, s, t);
    text::lemma_before_is_total(a.host@, b.host@);
    text::lemma_before_is_total(a.path@, b.path@);
}

} // verus!
