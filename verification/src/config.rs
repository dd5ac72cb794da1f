//! The static-routes file: a route table without Kubernetes.
//!
//! The file describes the smallest thing that can stand for what a controller
//! publishes: hosts, paths, backends, canaries and certificates. What stands
//! here turns a parsed document into the steps that build its table, in order,
//! with the first thing that is wrong with it.
use rustls::sign::CertifiedKey;
use vstd::prelude::*;
use crate::certs;
use crate::certs::{pair_from_parts, CertError};
use crate::net;
use crate::net::{parse_socket, SocketAddr};
use crate::text;
use crate::text::{push_text, same_text, to_chars};
use crate::tls;

verus! {

/// Why a configuration file could not be turned into a route table.
#[derive(Debug)]
pub enum ConfigError {
    /// The file could not be read.
    Read { path: String, source: String },
    /// The file was not valid YAML, or did not match the schema.
    Parse { path: String, source: String },
    /// An endpoint was not a socket address.
    BadEndpoint { backend: String, address: String },
    /// The route table itself was invalid.
    Table(String),
    /// A certificate or key file could not be read or parsed.
    Certificate { host: String, path: String, reason: String },
}

/// What an error says.
pub open spec fn config_error_text(error: ConfigError) -> Seq<char> {
    match error {
        ConfigError::Read { path, source } => "cannot read "@ + path@ + ": "@ + source@,
        ConfigError::Parse { path, source } => "cannot parse "@ + path@ + ": "@ + source@,
        ConfigError::BadEndpoint { backend, address } => "backend `"@ + backend@
            + "` has endpoint `"@ + address@ + "`, which is not an ip:port address"@,
        ConfigError::Table(cause) => "invalid route table: "@ + cause@,
        ConfigError::Certificate { host, path, reason } => "cannot load certificate for `"@ + host@
            + "` from "@ + path@ + ": "@ + reason@,
    }
}

impl ConfigError {
    /// The error in words.
    pub fn to_text(&self) -> (r: String)
        ensures
            r@ == config_error_text(*self),
    {
        let mut out = String::new();
        match self {
            ConfigError::Read { path, source } => {
                push_text(&mut out, "cannot read ");
                push_text(&mut out, path.as_str());
                push_text(&mut out, ": ");
                push_text(&mut out, source.as_str());
            },
            ConfigError::Parse { path, source } => {
                push_text(&mut out, "cannot parse ");
                push_text(&mut out, path.as_str());
                push_text(&mut out, ": ");
                push_text(&mut out, source.as_str());
            },
            ConfigError::BadEndpoint { backend, address } => {
                push_text(&mut out, "backend `");
                push_text(&mut out, backend.as_str());
                push_text(&mut out, "` has endpoint `");
                push_text(&mut out, address.as_str());
                push_text(&mut out, "`, which is not an ip:port address");
            },
            ConfigError::Table(cause) => {
                push_text(&mut out, "invalid route table: ");
                push_text(&mut out, cause.as_str());
            },
            ConfigError::Certificate { host, path, reason } => {
                push_text(&mut out, "cannot load certificate for `");
                push_text(&mut out, host.as_str());
                push_text(&mut out, "` from ");
                push_text(&mut out, path.as_str());
                push_text(&mut out, ": ");
                push_text(&mut out, reason.as_str());
            },
        }
        assert(out@ =~= config_error_text(*self));
        out
    }
}

/// What was loaded, for printing at startup.
#[derive(Debug, Clone, Copy, PartialEq, Eq, Structural)]
pub struct Summary {
    /// Number of backends registered.
    pub backends: usize,
    /// Number of endpoints across every backend.
    pub endpoints: usize,
    /// Number of path rules.
    pub routes: usize,
    /// Number of certificates loaded.
    pub certificates: usize,
    /// Whether a default backend was configured.
    pub default_backend: bool,
}

impl Default for Summary {
    fn default() -> (r: Summary)
        ensures
            r == (Summary {
                backends: 0,
                endpoints: 0,
                routes: 0,
                certificates: 0,
                default_backend: false,
            }),
    {
        Summary { backends: 0, endpoints: 0, routes: 0, certificates: 0, default_backend: false }
    }
}

// ---------------------------------------------------------------------------
// Schema
// ---------------------------------------------------------------------------

/// The top level of a static-routes file.
#[derive(Debug)]
pub struct Document {
    /// Backend serving requests that match no rule.
    pub default_backend: Option<String>,
    /// Named groups of endpoints.
    pub backends: Vec<BackendSpec>,
    /// Host and path rules.
    pub routes: Vec<RouteSpec>,
    /// Certificates, by SNI name.
    pub tls: Vec<TlsSpec>,
}

impl Default for Document {
    fn default() -> (r: Document)
        ensures
            r.default_backend is None,
            r.backends@.len() == 0,
            r.routes@.len() == 0,
            r.tls@.len() == 0,
    {
        Document {
            default_backend: None,
            backends: Vec::new(),
            routes: Vec::new(),
            tls: Vec::new(),
        }
    }
}

/// One backend.
#[derive(Debug)]
pub struct BackendSpec {
    /// The name routes refer to it by.
    pub name: String,
    /// How requests are spread across its endpoints.
    pub policy: PolicySpec,
    /// Where to send them. May be empty, as a Service with no ready pods may be.
    pub endpoints: Vec<EndpointSpec>,
}

/// An endpoint, either as a bare address or with a weight.
#[derive(Debug)]
pub enum EndpointSpec {
    Address(String),
    /// A weight is a relative share of traffic; 0 drains without removing.
    Weighted { address: String, weight: u32 },
}

/// The weight of an endpoint that names none.
pub const DEFAULT_WEIGHT: u32 = 1;

impl EndpointSpec {
    /// What was written as the address.
    pub open spec fn address(self) -> Seq<char> {
        match self {
            EndpointSpec::Address(address) => address@,
            EndpointSpec::Weighted { address, .. } => address@,
        }
    }

    /// The weight, one where none was written.
    pub open spec fn weight(self) -> u32 {
        match self {
            EndpointSpec::Address(_) => DEFAULT_WEIGHT,
            EndpointSpec::Weighted { weight, .. } => weight,
        }
    }

    /// The address and the weight.
    pub fn parts(&self) -> (r: (&str, u32))
        ensures
            r.0@ == self.address(),
            r.1 == self.weight(),
    {
        match self {
            EndpointSpec::Address(address) => (address.as_str(), DEFAULT_WEIGHT),
            EndpointSpec::Weighted { address, weight } => (address.as_str(), *weight),
        }
    }
}

/// Load-balancing policy.
#[derive(Debug, Clone, Copy, PartialEq, Eq, Structural)]
pub enum PolicySpec {
    /// Rotate through endpoints in order.
    RoundRobin,
    /// Pick uniformly at random, honouring weights.
    Random,
    /// Pick the endpoint with the fewest in-flight requests.
    LeastConn,
}

impl Default for PolicySpec {
    fn default() -> (r: PolicySpec)
        ensures
            r == PolicySpec::RoundRobin,
    {
        PolicySpec::RoundRobin
    }
}

/// One host-and-path rule.
#[derive(Debug)]
pub struct RouteSpec {
    /// The host to serve, or absent for a rule with no host.
    pub host: Option<String>,
    /// The path, or a regex for `ImplementationSpecific`.
    pub path: String,
    /// How the path is compared.
    pub path_type: PathTypeSpec,
    /// The backend to forward to.
    pub backend: String,
    /// An optional canary split.
    pub canary: Option<CanarySpec>,
}

/// Path matching, spelled as Kubernetes spells it.
#[derive(Debug, Clone, Copy, PartialEq, Eq, Structural)]
pub enum PathTypeSpec {
    /// Byte-for-byte equality.
    Exact,
    /// Element-wise path-segment prefix. The Kubernetes default.
    Prefix,
    /// A regular expression, anchored at the start.
    ImplementationSpecific,
}

impl Default for PathTypeSpec {
    fn default() -> (r: PathTypeSpec)
        ensures
            r == PathTypeSpec::Prefix,
    {
        PathTypeSpec::Prefix
    }
}

/// A canary attached to a route.
#[derive(Debug)]
pub struct CanarySpec {
    /// Where canaried traffic goes.
    pub backend: String,
    pub weight: u32,
    /// What the weight is out of; 0 means the default of 100.
    pub weight_total: u32,
    pub header: Option<String>,
    pub header_value: Option<String>,
    pub header_pattern: Option<String>,
    pub cookie: Option<String>,
}

/// One certificate.
#[derive(Debug)]
pub struct TlsSpec {
    /// The SNI name, a `*.example.com` wildcard, or absent for the default.
    pub host: Option<String>,
    /// PEM file holding the certificate chain, leaf first.
    pub cert: String,
    /// PEM file holding the private key.
    pub key: String,
}

// ---------------------------------------------------------------------------
// Paths
// ---------------------------------------------------------------------------

/// Where a path in a document leads, from the directory that holds the document.
pub open spec fn resolved(base: Seq<char>, path: Seq<char>) -> Seq<char> {
    if (path.len() > 0 && path[0] == '/') || base.len() == 0 {
        path
    } else if base.last() == '/' {
        base + path
    } else {
        base + "/"@ + path
    }
}

/// Resolves a path against the directory that holds the document, so that a
/// checked-in example works from any working directory.
pub fn resolve(base: &str, path: &str) -> (r: String)
    ensures
        r@ == resolved(base@, path@),
{
    let base_chars = to_chars(base);
    let path_chars = to_chars(path);
    let mut out = String::new();
    if (path_chars.len() > 0 && path_chars[0] == '/') || base_chars.len() == 0 {
        push_text(&mut out, path);
    } else if base_chars[base_chars.len() - 1] == '/' {
        push_text(&mut out, base);
        push_text(&mut out, path);
    } else {
        push_text(&mut out, base);
        push_text(&mut out, "/");
        push_text(&mut out, path);
    }
    assert(out@ =~= resolved(base@, path@));
    out
}

// ---------------------------------------------------------------------------
// The steps
// ---------------------------------------------------------------------------

/// One step of building a table. A place names an entry of the document.
#[derive(Debug)]
pub enum Step {
    /// Register the backend at a place, with its endpoints and their weights.
    Backend { place: usize, endpoints: Vec<(SocketAddr, u32)> },
    /// Add the rule at a place.
    Route { place: usize },
    /// Load the certificate at a place from two files and register it under an
    /// id: as the default certificate, or for its host.
    Certificate { place: usize, id: u64, default: bool, host: String, cert: String, key: String },
    /// Register the default backend.
    DefaultBackend,
}

/// A step without its storage.
pub enum StepView {
    Backend { place: nat, endpoints: Seq<(net::SocketView, u32)> },
    Route { place: nat },
    Certificate {
        place: nat,
        id: nat,
        default: bool,
        host: Seq<char>,
        cert: Seq<char>,
        key: Seq<char>,
    },
    DefaultBackend,
}

/// Endpoints without their storage.
pub open spec fn endpoint_views(list: Seq<(SocketAddr, u32)>) -> Seq<(net::SocketView, u32)> {
    list.map_values(|e: (SocketAddr, u32)| (e.0@, e.1))
}

impl View for Step {
    type V = StepView;

    open spec fn view(&self) -> StepView {
        match *self {
            Step::Backend { place, endpoints } => StepView::Backend {
                place: place as nat,
                endpoints: endpoint_views(endpoints@),
            },
            Step::Route { place } => StepView::Route { place: place as nat },
            Step::Certificate { place, id, default, host, cert, key } => StepView::Certificate {
                place: place as nat,
                id: id as nat,
                default,
                host: host@,
                cert: cert@,
                key: key@,
            },
            Step::DefaultBackend => StepView::DefaultBackend,
        }
    }
}

/// Steps without their storage.
pub open spec fn step_views(list: Seq<Step>) -> Seq<StepView> {
    list.map_values(|s: Step| s@)
}

/// The first endpoint from place `i` on that has no address, or their number.
pub open spec fn first_bad(endpoints: Seq<EndpointSpec>, i: int) -> int
    decreases endpoints.len() - i,
{
    if i >= endpoints.len() {
        endpoints.len() as int
    } else if net::socket_value(endpoints[i].address()) is None {
        i
    } else {
        first_bad(endpoints, i + 1)
    }
}

/// The endpoints of a backend, with their weights.
pub open spec fn endpoints_of(endpoints: Seq<EndpointSpec>) -> Seq<(net::SocketView, u32)> {
    endpoints.map_values(
        |e: EndpointSpec| (net::socket_value(e.address())->0, e.weight()),
    )
}

/// The first backend from place `i` on with an endpoint that has no address, or
/// their number.
pub open spec fn first_bad_backend(backends: Seq<BackendSpec>, i: int) -> int
    decreases backends.len() - i,
{
    if i >= backends.len() {
        backends.len() as int
    } else if first_bad(backends[i].endpoints@, 0) < backends[i].endpoints@.len() {
        i
    } else {
        first_bad_backend(backends, i + 1)
    }
}

/// The steps of the first `n` backends.
pub open spec fn backend_steps(backends: Seq<BackendSpec>, n: int) -> Seq<StepView> {
    Seq::new(
        n as nat,
        |i: int| StepView::Backend {
            place: i as nat,
            endpoints: endpoints_of(backends[i].endpoints@),
        },
    )
}

/// The steps of `n` rules.
pub open spec fn route_steps(n: nat) -> Seq<StepView> {
    Seq::new(n, |i: int| StepView::Route { place: i as nat })
}

/// The name a certificate is for. An entry without a host, or with a bare
/// asterisk, is the default certificate: the router would not take an asterisk
/// for a name.
pub open spec fn certificate_host(entry: TlsSpec) -> Seq<char> {
    match entry.host {
        Some(host) => host@,
        None => "*"@,
    }
}

/// The step of one certificate. Ids start at one, so that a zero is a mistake
/// rather than the first certificate.
pub open spec fn certificate_step(tls: Seq<TlsSpec>, base: Seq<char>, i: int) -> StepView {
    StepView::Certificate {
        place: i as nat,
        id: (i + 1) as nat,
        default: certificate_host(tls[i]) == "*"@,
        host: certificate_host(tls[i]),
        cert: resolved(base, tls[i].cert@),
        key: resolved(base, tls[i].key@),
    }
}

/// The steps of the first `n` certificates.
pub open spec fn certificate_steps(tls: Seq<TlsSpec>, base: Seq<char>, n: nat) -> Seq<StepView> {
    Seq::new(n, |i: int| certificate_step(tls, base, i))
}

/// The steps that build a document's table, in order: its backends, its rules,
/// its certificates, and its default backend. An endpoint without an address
/// ends them with the backend that has it.
pub open spec fn steps_of(document: Document, base: Seq<char>) -> Seq<StepView> {
    let bad = first_bad_backend(document.backends@, 0);
    if bad < document.backends@.len() {
        backend_steps(document.backends@, bad)
    } else {
        backend_steps(document.backends@, document.backends@.len() as int) + route_steps(
            document.routes@.len(),
        ) + certificate_steps(document.tls@, base, document.tls@.len())
            + if document.default_backend is Some {
            seq![StepView::DefaultBackend]
        } else {
            Seq::empty()
        }
    }
}

/// What is wrong with a document before its table is built, if anything is.
pub open spec fn is_fault(document: Document, error: ConfigError) -> bool {
    let bad = first_bad_backend(document.backends@, 0);
    &&& bad < document.backends@.len()
    &&& error matches ConfigError::BadEndpoint { backend, address } && {
        let entry = document.backends@[bad];
        &&& backend@ == entry.name@
        &&& address@ == entry.endpoints@[first_bad(entry.endpoints@, 0)].address()
    }
}

/// Endpoints of the first `n` backends together.
pub open spec fn endpoint_count(backends: Seq<BackendSpec>, n: int) -> nat
    decreases n,
{
    if n <= 0 {
        0
    } else {
        endpoint_count(backends, n - 1) + backends[n - 1].endpoints@.len()
    }
}

/// The figures of a document whose table was built.
pub open spec fn is_summary(document: Document, summary: Summary) -> bool {
    &&& summary.backends == document.backends@.len()
    &&& summary.endpoints == endpoint_count(document.backends@, document.backends@.len() as int)
    &&& summary.routes == document.routes@.len()
    &&& summary.certificates == document.tls@.len()
    &&& summary.default_backend == (document.default_backend is Some)
}

/// How a table is built from a document.
#[derive(Debug)]
pub struct Plan {
    /// What is to be done, in order.
    pub steps: Vec<Step>,
    /// What comes after the steps: the figures for the startup banner, or what is
    /// wrong with the document.
    pub outcome: Result<Summary, ConfigError>,
}

fn own(s: &str) -> (r: String)
    ensures
        r@ == s@,
{
    let mut out = String::new();
    push_text(&mut out, s);
    assert(out@ =~= s@);
    out
}

/// Reads the endpoints of a backend; the place of the first without an address
/// when there is one.
fn read_endpoints(endpoints: &Vec<EndpointSpec>) -> (r: Result<Vec<(SocketAddr, u32)>, usize>)
    ensures
        match r {
            Ok(list) => first_bad(endpoints@, 0) == endpoints@.len() && endpoint_views(list@)
                == endpoints_of(endpoints@),
            Err(place) => place == first_bad(endpoints@, 0) && place < endpoints@.len(),
        },
{
    let mut list: Vec<(SocketAddr, u32)> = Vec::new();
    let mut i: usize = 0;
    while i < endpoints.len()
        invariant
            i <= endpoints@.len(),
            list@.len() == i,
            first_bad(endpoints@, 0) == first_bad(endpoints@, i as int),
            forall|j: int|
                0 <= j < i ==> (#[trigger] endpoint_views(list@)[j]) == endpoints_of(endpoints@)[j],
        decreases endpoints@.len() - i,
    {
        let (address, weight) = endpoints[i].parts();
        let chars = to_chars(address);
        match parse_socket(chars.as_slice()) {
            Some(parsed) => {
                let ghost before = list@;
                list.push((parsed, weight));
                assert forall|j: int| 0 <= j < i + 1 implies (#[trigger] endpoint_views(list@)[j])
                    == endpoints_of(endpoints@)[j] by {
                    if j < i {
                        assert(endpoint_views(before)[j] == endpoints_of(endpoints@)[j]);
                        assert(list@[j] == before[j]);
                    }
                }
            },
            None => {
                return Err(i);
            },
        }
        i = i + 1;
    }
    assert(endpoint_views(list@) =~= endpoints_of(endpoints@));
    Ok(list)
}

proof fn lemma_counts_grow(backends: Seq<BackendSpec>, i: int, n: int)
    requires
        0 <= i <= n <= backends.len(),
    ensures
        endpoint_count(backends, i) <= endpoint_count(backends, n),
    decreases n - i,
{
    if i < n {
        lemma_counts_grow(backends, i, n - 1);
    }
}

proof fn lemma_one_more_step(list: Seq<Step>, step: Step)
    ensures
        step_views(list.push(step)) == step_views(list).push(step@),
{
    assert(step_views(list.push(step)) =~= step_views(list).push(step@));
}

/// Adds the steps of the backends. `Ok` is the number of endpoints.
fn add_backends(document: &Document, steps: &mut Vec<Step>) -> (r: Result<usize, ConfigError>)
    requires
        old(steps)@.len() == 0,
        endpoint_count(document.backends@, document.backends@.len() as int) <= usize::MAX,
    ensures
        step_views(final(steps)@) == backend_steps(
            document.backends@,
            first_bad_backend(document.backends@, 0),
        ),
        match r {
            Ok(count) => {
                &&& first_bad_backend(document.backends@, 0) == document.backends@.len()
                &&& count == endpoint_count(
                    document.backends@,
                    document.backends@.len() as int,
                )
            },
            Err(error) => is_fault(*document, error),
        },
{
    let backends = &document.backends;
    let mut count: usize = 0;
    let mut i: usize = 0;
    assert(step_views(steps@) =~= backend_steps(backends@, 0));
    while i < backends.len()
        invariant
            i <= backends@.len(),
            *backends == document.backends,
            step_views(steps@) == backend_steps(backends@, i as int),
            count == endpoint_count(backends@, i as int),
            first_bad_backend(backends@, 0) == first_bad_backend(backends@, i as int),
            endpoint_count(backends@, backends@.len() as int) <= usize::MAX,
        decreases backends@.len() - i,
    {
        match read_endpoints(&backends[i].endpoints) {
            Ok(endpoints) => {
                proof {
                    lemma_counts_grow(backends@, i + 1, backends@.len() as int);
                    assert(endpoint_views(endpoints@).len() == endpoints_of(
                        backends@[i as int].endpoints@,
                    ).len());
                }
                count = count + endpoints.len();
                let step = Step::Backend { place: i, endpoints };
                proof {
                    lemma_one_more_step(steps@, step);
                }
                steps.push(step);
                assert(step_views(steps@) =~= backend_steps(backends@, i + 1));
            },
            Err(place) => {
                let (address, _) = backends[i].endpoints[place].parts();
                return Err(
                    ConfigError::BadEndpoint {
                        backend: own(backends[i].name.as_str()),
                        address: own(address),
                    },
                );
            },
        }
        i = i + 1;
    }
    Ok(count)
}

fn add_routes(document: &Document, steps: &mut Vec<Step>)
    ensures
        step_views(final(steps)@) == step_views(old(steps)@) + route_steps(document.routes@.len()),
{
    let ghost start = step_views(steps@);
    let mut i: usize = 0;
    assert(start + route_steps(0) =~= start);
    while i < document.routes.len()
        invariant
            i <= document.routes@.len(),
            step_views(steps@) == start + route_steps(i as nat),
        decreases document.routes@.len() - i,
    {
        let step = Step::Route { place: i };
        proof {
            lemma_one_more_step(steps@, step);
        }
        steps.push(step);
        i = i + 1;
        assert(step_views(steps@) =~= start + route_steps(i as nat));
    }
}

fn add_certificates(document: &Document, base: &str, steps: &mut Vec<Step>)
    requires
        document.tls@.len() < u64::MAX,
    ensures
        step_views(final(steps)@) == step_views(old(steps)@) + certificate_steps(
            document.tls@,
            base@,
            document.tls@.len(),
        ),
{
    let ghost start = step_views(steps@);
    let mut i: usize = 0;
    assert(start + certificate_steps(document.tls@, base@, 0) =~= start);
    while i < document.tls.len()
        invariant
            i <= document.tls@.len() < u64::MAX,
            step_views(steps@) == start + certificate_steps(document.tls@, base@, i as nat),
        decreases document.tls@.len() - i,
    {
        let entry = &document.tls[i];
        let host = match &entry.host {
            Some(host) => own(host.as_str()),
            None => own("*"),
        };
        let step = Step::Certificate {
            place: i,
            id: i as u64 + 1,
            default: same_text(host.as_str(), "*"),
            host,
            cert: resolve(base, entry.cert.as_str()),
            key: resolve(base, entry.key.as_str()),
        };
        proof {
            assert(step@ == certificate_step(document.tls@, base@, i as int));
            lemma_one_more_step(steps@, step);
        }
        steps.push(step);
        i = i + 1;
        assert(step_views(steps@) =~= start + certificate_steps(document.tls@, base@, i as nat));
    }
}

/// Lays out how a table is built from a document, resolving relative certificate
/// paths against `base`.
pub fn build(document: &Document, base: &str) -> (r: Plan)
    requires
        endpoint_count(document.backends@, document.backends@.len() as int) <= usize::MAX,
        document.tls@.len() < u64::MAX,
    ensures
        step_views(r.steps@) == steps_of(*document, base@),
        match r.outcome {
            Ok(summary) => {
                &&& first_bad_backend(document.backends@, 0) == document.backends@.len()
                &&& is_summary(*document, summary)
            },
            Err(error) => is_fault(*document, error),
        },
{
    let mut steps: Vec<Step> = Vec::new();
    let endpoints = match add_backends(document, &mut steps) {
        Ok(endpoints) => endpoints,
        Err(error) => return Plan { steps, outcome: Err(error) },
    };
    add_routes(document, &mut steps);
    add_certificates(document, base, &mut steps);
    if document.default_backend.is_some() {
        let step = Step::DefaultBackend;
        proof {
            lemma_one_more_step(steps@, step);
        }
        steps.push(step);
    }
    assert(step_views(steps@) =~= steps_of(*document, base@));
    let summary = Summary {
        backends: document.backends.len(),
        endpoints,
        routes: document.routes.len(),
        certificates: document.tls.len(),
        default_backend: document.default_backend.is_some(),
    };
    Plan { steps, outcome: Ok(summary) }
}

/// Every certificate has an id of its own, and none has zero.
pub proof fn every_certificate_has_its_own_id(tls: Seq<TlsSpec>, base: Seq<char>, i: int, j: int)
    requires
        0 <= i < tls.len(),
        0 <= j < tls.len(),
    ensures
        certificate_step(tls, base, i)->id > 0,
        certificate_step(tls, base, i)->id == certificate_step(tls, base, j)->id <==> i == j,
{
}

/// A plan either builds everything the document names or stops at a backend it
/// names the fault of; a document without a fault is built whole.
pub proof fn a_plan_is_whole_or_names_its_fault(document: Document, base: Seq<char>)
    ensures
        first_bad_backend(document.backends@, 0) == document.backends@.len() ==> steps_of(
            document,
            base,
        ).len() == document.backends@.len() + document.routes@.len() + document.tls@.len() + if document.default_backend is Some {
            1int
        } else {
            0
        },
        forall|i: int|
            0 <= i < first_bad_backend(document.backends@, 0) ==> first_bad(
                (#[trigger] document.backends@[i]).endpoints@,
                0,
            ) >= document.backends@[i].endpoints@.len(),
{
    lemma_backends_before_the_bad_one(document.backends@, 0);
}

proof fn lemma_backends_before_the_bad_one(backends: Seq<BackendSpec>, i: int)
    requires
        0 <= i <= backends.len(),
    ensures
        i <= first_bad_backend(backends, i) <= backends.len(),
        forall|j: int|
            i <= j < first_bad_backend(backends, i) ==> first_bad(
                (#[trigger] backends[j]).endpoints@,
                0,
            ) >= backends[j].endpoints@.len(),
    decreases backends.len() - i,
{
    if i < backends.len() && !(first_bad(backends[i].endpoints@, 0) < backends[i].endpoints@.len()) {
        lemma_backends_before_the_bad_one(backends, i + 1);
    }
}

// ---------------------------------------------------------------------------
// Certificates
// ---------------------------------------------------------------------------

fn certificate_error(host: &str, path: &str, reason: String) -> (r: ConfigError)
    ensures
        r matches ConfigError::Certificate { host: h, path: p, reason: why } && h@ == host@ && p@
            == path@ && why == reason,
{
    ConfigError::Certificate { host: own(host), path: own(path), reason }
}

/// Whether an error blames a file for a host.
pub open spec fn blames(error: ConfigError, host: Seq<char>, path: Seq<char>) -> bool {
    error matches ConfigError::Certificate { host: h, path: p, .. } && h@ == host && p@ == path
}

/// What becomes of the verdict on a chain and its key. A refusal comes with its
/// words, and the chain's file is blamed for it, as the document has it.
pub fn paired(host: &str, written: &str, verdict: Result<CertifiedKey, String>) -> (r: Result<
    CertifiedKey,
    ConfigError,
>)
    ensures
        match verdict {
            Ok(pair) => r == Ok::<CertifiedKey, ConfigError>(pair),
            Err(words) => r matches Err(e) && blames(e, host@, written@) && e->reason == words,
        },
{
    match verdict {
        Ok(pair) => Ok(pair),
        Err(words) => Err(certificate_error(host, written, words)),
    }
}

/// Makes a certificate out of what its two files held. `written` is the path of
/// the chain as the document has it, and the others are where the files are. A
/// file that could not be read comes with why.
///
/// The chain's troubles come before the key's, each with the file that has them.
/// Whether `rustls` then takes the pair, and in what words it refuses one, is its
/// own affair.
pub fn load_certificate(
    host: &str,
    written: &str,
    cert: &str,
    key: &str,
    chain_file: Result<Vec<u8>, String>,
    key_file: Result<Vec<u8>, String>,
) -> (r: Result<CertifiedKey, ConfigError>)
    ensures
        match chain_file {
            Err(why) => r matches Err(e) && blames(e, host@, cert@) && e->reason == why,
            Ok(chain_pem) => match certs::pem_certificates(chain_pem@) {
                None => r matches Err(e) && blames(e, host@, cert@) && text::starts_with(
                    e->reason@,
                    "malformed PEM: "@,
                ),
                Some(list) => if list.len() == 0 {
                    r matches Err(e) && blames(e, host@, cert@) && e->reason@
                        == "no CERTIFICATE block"@
                } else {
                    match key_file {
                        Err(why) => r matches Err(e) && blames(e, host@, key@) && e->reason == why,
                        Ok(key_pem) => match certs::pem_private_key(key_pem@) {
                            None => r matches Err(e) && blames(e, host@, key@)
                                && text::starts_with(e->reason@, "malformed PEM: "@),
                            Some(None) => r matches Err(e) && blames(e, host@, key@) && e->reason@
                                == "no PRIVATE KEY block"@,
                            Some(Some((kind, der))) => match r {
                                Ok(pair) => tls::pairs(pair, list, kind, der),
                                Err(e) => blames(e, host@, written@),
                            },
                        },
                    }
                },
            },
        },
{
    let chain_pem = match chain_file {
        Ok(bytes) => bytes,
        Err(why) => return Err(certificate_error(host, cert, why)),
    };
    let chain = match certs::chain(chain_pem.as_slice()) {
        Ok(chain) => chain,
        Err(error) => return Err(certificate_error(host, cert, error.to_text())),
    };
    let key_pem = match key_file {
        Ok(bytes) => bytes,
        Err(why) => return Err(certificate_error(host, key, why)),
    };
    let private = match certs::private_key(key_pem.as_slice()) {
        Ok(private) => private,
        Err(error) => return Err(certificate_error(host, key, error.to_text())),
    };
    let parts: Result<CertifiedKey, CertError> = pair_from_parts(Ok(chain), Ok(private));
    match parts {
        Ok(pair) => paired(host, written, Ok(pair)),
        Err(error) => paired(host, written, Err(error.to_text())),
    }
}

// ---------------------------------------------------------------------------
// What a document means
// ---------------------------------------------------------------------------

/// An absolute path leads where it says. Any other path leads below the directory
/// that holds the document, whether that directory is written with a slash at its
/// end or without.
pub proof fn a_relative_path_starts_at_the_document(base: Seq<char>, path: Seq<char>)
    ensures
        path.len() > 0 && path[0] == '/' ==> resolved(base, path) == path,
        resolved(Seq::empty(), path) == path,
        base.len() > 0 && base.last() != '/' && !(path.len() > 0 && path[0] == '/') ==> {
            &&& resolved(base, path) == base + seq!['/'] + path
            &&& resolved(base + seq!['/'], path) == resolved(base, path)
        },
{
    reveal_strlit("/");
    assert("/"@ =~= seq!['/']);
    assert((base + seq!['/']).last() == '/');
}

/// The first endpoint of a backend that has no address is the first that cannot be
/// read, and every endpoint in front of it can.
pub proof fn the_first_bad_endpoint_is_the_first(endpoints: Seq<EndpointSpec>, i: int)
    requires
        0 <= i <= endpoints.len(),
        forall|j: int|
            0 <= j < i ==> net::socket_value((#[trigger] endpoints[j]).address()) is Some,
        i < endpoints.len() ==> net::socket_value(endpoints[i].address()) is None,
    ensures
        first_bad(endpoints, 0) == i,
{
    lemma_first_bad(endpoints, 0, i);
}

proof fn lemma_first_bad(endpoints: Seq<EndpointSpec>, from: int, i: int)
    requires
        0 <= from <= i <= endpoints.len(),
        forall|j: int|
            from <= j < i ==> net::socket_value((#[trigger] endpoints[j]).address()) is Some,
        i < endpoints.len() ==> net::socket_value(endpoints[i].address()) is None,
    ensures
        first_bad(endpoints, from) == i,
    decreases i - from,
{
    if from < i {
        assert(net::socket_value(endpoints[from].address()) is Some);
        lemma_first_bad(endpoints, from + 1, i);
    }
}

proof fn lemma_first_bad_range(endpoints: Seq<EndpointSpec>, from: int)
    requires
        0 <= from <= endpoints.len(),
    ensures
        from <= first_bad(endpoints, from) <= endpoints.len(),
        first_bad(endpoints, from) < endpoints.len() ==> net::socket_value(
            endpoints[first_bad(endpoints, from)].address(),
        ) is None,
        forall|j: int|
            from <= j < first_bad(endpoints, from) ==> net::socket_value(
                (#[trigger] endpoints[j]).address(),
            ) is Some,
    decreases endpoints.len() - from,
{
    if from < endpoints.len() && net::socket_value(endpoints[from].address()) is Some {
        lemma_first_bad_range(endpoints, from + 1);
    }
}

proof fn lemma_the_bad_backend(backends: Seq<BackendSpec>, i: int)
    requires
        0 <= i <= backends.len(),
    ensures
        i <= first_bad_backend(backends, i) <= backends.len(),
        first_bad_backend(backends, i) < backends.len() ==> first_bad(
            backends[first_bad_backend(backends, i)].endpoints@,
            0,
        ) < backends[first_bad_backend(backends, i)].endpoints@.len(),
    decreases backends.len() - i,
{
    if i < backends.len() && !(first_bad(backends[i].endpoints@, 0) < backends[i].endpoints@.len()) {
        lemma_the_bad_backend(backends, i + 1);
    }
}

/// A fault is an endpoint of a backend that is no address, and the fault names the
/// two as the document has them. Every endpoint of a document without a fault is
/// an address.
pub proof fn a_fault_is_an_endpoint_without_an_address(document: Document, error: ConfigError)
    ensures
        is_fault(document, error) ==> exists|i: int, j: int|
            #![trigger document.backends@[i].endpoints@[j]]
            {
                &&& 0 <= i < document.backends@.len()
                &&& 0 <= j < document.backends@[i].endpoints@.len()
                &&& net::socket_value(document.backends@[i].endpoints@[j].address()) is None
                &&& error matches ConfigError::BadEndpoint { backend, address } && backend@
                    == document.backends@[i].name@ && address@
                    == document.backends@[i].endpoints@[j].address()
            },
        first_bad_backend(document.backends@, 0) == document.backends@.len() ==> forall|i: int, j: int|
            #![trigger document.backends@[i].endpoints@[j]]
            0 <= i < document.backends@.len() && 0 <= j < document.backends@[i].endpoints@.len()
                ==> net::socket_value(document.backends@[i].endpoints@[j].address()) is Some,
{
    let backends = document.backends@;
    lemma_the_bad_backend(backends, 0);
    lemma_backends_before_the_bad_one(backends, 0);
    let bad = first_bad_backend(backends, 0);
    if is_fault(document, error) {
        let list = backends[bad].endpoints@;
        lemma_first_bad_range(list, 0);
        let at = first_bad(list, 0);
        assert(document.backends@[bad].endpoints@[at].address() == list[at].address());
    }
    if bad == backends.len() {
        assert forall|i: int, j: int|
            #![trigger document.backends@[i].endpoints@[j]]
            0 <= i < backends.len() && 0 <= j
                < document.backends@[i].endpoints@.len() implies net::socket_value(
            document.backends@[i].endpoints@[j].address(),
        ) is Some by {
            lemma_first_bad_range(backends[i].endpoints@, 0);
            assert(first_bad(backends[i].endpoints@, 0) >= backends[i].endpoints@.len());
        }
    }
}

/// A backend is registered with every endpoint it names, each at its own address
/// and with its own weight, and a bare address weighs one.
pub proof fn a_backend_is_registered_with_its_endpoints(
    document: Document,
    base: Seq<char>,
    i: int,
    j: int,
)
    requires
        first_bad_backend(document.backends@, 0) == document.backends@.len(),
        0 <= i < document.backends@.len(),
        0 <= j < document.backends@[i].endpoints@.len(),
    ensures
        steps_of(document, base)[i] matches StepView::Backend { place, endpoints } && {
            &&& place == i
            &&& endpoints.len() == document.backends@[i].endpoints@.len()
            &&& match document.backends@[i].endpoints@[j] {
                EndpointSpec::Address(at) => net::socket_value(at@) == Some(endpoints[j].0)
                    && endpoints[j].1 == 1,
                EndpointSpec::Weighted { address, weight } => net::socket_value(address@) == Some(
                    endpoints[j].0,
                ) && endpoints[j].1 == weight,
            }
        },
{
    a_plan_is_whole_or_names_its_fault(document, base);
    let list = document.backends@[i].endpoints@;
    lemma_first_bad_range(list, 0);
    assert(first_bad(list, 0) >= list.len());
    assert(net::socket_value(list[j].address()) is Some);
    assert(steps_of(document, base)[i] == backend_steps(
        document.backends@,
        document.backends@.len() as int,
    )[i]);
}

/// Behind the backends come the rules in the order of the document, then its
/// certificates, numbered from one, and last its default backend.
pub proof fn a_document_is_built_in_order(document: Document, base: Seq<char>, r: int, c: int)
    requires
        first_bad_backend(document.backends@, 0) == document.backends@.len(),
        0 <= r < document.routes@.len(),
        0 <= c < document.tls@.len(),
    ensures
        ({
            let steps = steps_of(document, base);
            let b = document.backends@.len();
            let entry = document.tls@[c];
            &&& steps[b + r] == (StepView::Route { place: r as nat })
            &&& steps[b + document.routes@.len() + c] matches StepView::Certificate {
                place,
                id,
                default,
                host,
                cert,
                key,
            } && {
                &&& place == c
                &&& id == c + 1
                &&& cert == resolved(base, entry.cert@)
                &&& key == resolved(base, entry.key@)
                &&& entry.host matches Some(name) ==> host == name@
                &&& entry.host is None ==> host == "*"@
                &&& default <==> (entry.host is None || entry.host->0@ == "*"@)
            }
            &&& document.default_backend is Some <==> steps.last() == StepView::DefaultBackend
        }),
{
    let steps = steps_of(document, base);
    let b = document.backends@.len();
    let n = document.routes@.len();
    let front = backend_steps(document.backends@, b as int);
    let rules = route_steps(n);
    let certificates = certificate_steps(document.tls@, base, document.tls@.len());
    assert(steps[b + r] == rules[r]);
    assert(steps[b + n + c] == certificates[c]);
    if document.default_backend is None {
        assert(steps.last() == certificates.last());
    }
}

/// A backend more adds its endpoints to the count.
pub proof fn the_count_adds_up(backends: Seq<BackendSpec>, one: BackendSpec)
    ensures
        endpoint_count(Seq::empty(), 0) == 0,
        endpoint_count(backends.push(one), backends.len() as int + 1) == endpoint_count(
            backends,
            backends.len() as int,
        ) + one.endpoints@.len(),
{
    lemma_the_same_count(backends, backends.push(one), backends.len() as int);
}

proof fn lemma_the_same_count(a: Seq<BackendSpec>, b: Seq<BackendSpec>, n: int)
    requires
        n <= a.len(),
        n <= b.len(),
        forall|i: int| 0 <= i < n ==> a[i] == #[trigger] b[i],
    ensures
        endpoint_count(a, n) == endpoint_count(b, n),
    decreases n,
{
    if n > 0 {
        assert(a[n - 1] == b[n - 1]);
        lemma_the_same_count(a, b, n - 1);
    }
}

/// An error says what was wrong and with what.
pub proof fn a_configuration_error_names_its_place(error: ConfigError)
    ensures
        error matches ConfigError::Read { path, source } ==> config_error_text(error)
            == "cannot read "@ + path@ + ": "@ + source@,
        error matches ConfigError::Parse { path, source } ==> config_error_text(error)
            == "cannot parse "@ + path@ + ": "@ + source@,
        error matches ConfigError::BadEndpoint { backend, address } ==> config_error_text(error)
            == "backend `"@ + backend@ + "` has endpoint `"@ + address@
            + "`, which is not an ip:port address"@,
        error matches ConfigError::Table(why) ==> config_error_text(error)
            == "invalid route table: "@ + why@,
        error matches ConfigError::Certificate { host, path, reason } ==> config_error_text(error)
            == "cannot load certificate for `"@ + host@ + "` from "@ + path@ + ": "@ + reason@,
{
}

/// The figures of a document are its own: how many of each it holds.
pub proof fn a_summary_counts_the_document(document: Document, summary: Summary)
    requires
        is_summary(document, summary),
    ensures
        summary.backends == document.backends@.len(),
        summary.routes == document.routes@.len(),
        summary.certificates == document.tls@.len(),
        summary.default_backend <==> document.default_backend is Some,
        document.backends@.len() == 0 ==> summary.endpoints == 0,
        document.backends@.len() == 1 ==> summary.endpoints
            == document.backends@[0].endpoints@.len(),
{
    reveal_with_fuel(endpoint_count, 2);
}

/// An error that blames a file blames one file for one host.
pub proof fn an_error_blames_one_file(
    error: ConfigError,
    host: Seq<char>,
    path: Seq<char>,
    other: Seq<char>,
)
    requires
        blames(error, host, path),
    ensures
        error matches ConfigError::Certificate { host: h, path: p, .. } && h@ == host && p@ == path,
        blames(error, host, other) <==> other == path,
        blames(error, other, path) <==> other == host,
{
}

/// A fault stops the building at the first backend that has it: the backends in front
/// of it are registered, in order, and nothing else is done.
pub proof fn a_fault_stops_the_building(document: Document, base: Seq<char>, bad: int)
    requires
        0 <= bad < document.backends@.len(),
        forall|j: int|
            0 <= j < bad ==> first_bad((#[trigger] document.backends@[j]).endpoints@, 0)
                >= document.backends@[j].endpoints@.len(),
        first_bad(document.backends@[bad].endpoints@, 0)
            < document.backends@[bad].endpoints@.len(),
    ensures
        steps_of(document, base).len() == bad,
        forall|j: int|
            0 <= j < bad ==> (#[trigger] steps_of(document, base)[j] matches StepView::Backend {
                place,
                ..
            } && place == j),
{
    lemma_bad_backend_is(document.backends@, 0, bad);
}

proof fn lemma_bad_backend_is(backends: Seq<BackendSpec>, from: int, bad: int)
    requires
        0 <= from <= bad < backends.len(),
        forall|j: int|
            from <= j < bad ==> first_bad((#[trigger] backends[j]).endpoints@, 0)
                >= backends[j].endpoints@.len(),
        first_bad(backends[bad].endpoints@, 0) < backends[bad].endpoints@.len(),
    ensures
        first_bad_backend(backends, from) == bad,
    decreases bad - from,
{
    if from < bad {
        assert(first_bad(backends[from].endpoints@, 0) >= backends[from].endpoints@.len());
        lemma_bad_backend_is(backends, from + 1, bad);
    }
}

} // verus!
