//! What the daemon decides between its command line and its exit status.
//!
//! The proxy has no opinion about where its route table came from, which lets
//! the daemon have two modes: watching Kubernetes, or serving a file. Either is
//! served by one of two engines. The modes and engines are chosen here, before
//! anything is bound: falling back afterwards would mean giving up ports that a
//! load balancer is already sending traffic to.
use vstd::prelude::*;
use crate::args;
use crate::args::{ArgError, Args, Engine};
use crate::config::Summary;
use crate::history::PinChange;
use crate::listener::ListenerConfig;
use crate::net;
use crate::net::SocketAddr;
use crate::server::ProxyConfig;
use crate::text;
use crate::text::{push_decimal, push_text};
use crate::time::Duration;
use crate::upstream::UpstreamConfig;

verus! {

/// What a command line comes to.
#[derive(Debug)]
pub enum Start {
    /// Show this one line and fail. The usage text is what will fix it.
    Misused(String),
    /// Fail with an error.
    Failed(ArgError),
    /// Show the usage text and succeed.
    Usage,
    /// Show the version and succeed.
    Version,
    /// Serve.
    Serve(Args),
}

/// Is this what is done about a parsed command line?
pub open spec fn starts_as(parsed: Result<Args, ArgError>, r: Start) -> bool {
    match parsed {
        Err(error) => match error {
            ArgError::Unknown(_) | ArgError::Unexpected(_) => r matches Start::Misused(line) && line@
                == "ramjet-ingressd: "@ + args::arg_error_text(error@),
            _ => r == Start::Failed(error),
        },
        Ok(given) => if given.help {
            r is Usage
        } else if given.version {
            r is Version
        } else {
            r == Start::Serve(given)
        },
    }
}

/// Nothing is served unless the command line could be read and asks for neither
/// text, and then it is served as it was read. A line that names an option that
/// does not exist, or a word that is none, is answered in one line.
pub proof fn a_command_line_is_served_or_answered(parsed: Result<Args, ArgError>, r: Start)
    requires
        starts_as(parsed, r),
    ensures
        r is Serve <==> parsed is Ok && !parsed->Ok_0.help && !parsed->Ok_0.version,
        r matches Start::Serve(given) ==> parsed->Ok_0 == given,
        r is Usage <==> parsed is Ok && parsed->Ok_0.help,
        r is Version <==> parsed is Ok && parsed->Ok_0.version && !parsed->Ok_0.help,
        r is Misused <==> parsed is Err && (parsed->Err_0 is Unknown || parsed->Err_0
            is Unexpected),
        r matches Start::Failed(error) ==> parsed->Err_0 == error && !(error is Unknown)
            && !(error is Unexpected),
{
}

/// Decides what to do about a parsed command line. Asking for help wins over
/// asking for the version, and both over serving.
pub fn start(parsed: Result<Args, ArgError>) -> (r: Start)
    ensures
        match parsed {
            Err(error) => if error is Unknown || error is Unexpected {
                r matches Start::Misused(line) && line@ == "ramjet-ingressd: "@
                    + args::arg_error_text(error@)
            } else {
                r == Start::Failed(error)
            },
            Ok(given) => r == if given.help {
                Start::Usage
            } else if given.version {
                Start::Version
            } else {
                Start::Serve(given)
            },
        },
        starts_as(parsed, r),
{
    match parsed {
        Err(error) => {
            if matches!(error, ArgError::Unknown(_) | ArgError::Unexpected(_)) {
                let mut line = String::new();
                push_text(&mut line, "ramjet-ingressd: ");
                let said = error.to_text();
                push_text(&mut line, said.as_str());
                assert(line@ =~= "ramjet-ingressd: "@ + args::arg_error_text(error@));
                Start::Misused(line)
            } else {
                Start::Failed(error)
            }
        },
        Ok(given) => {
            if given.help {
                Start::Usage
            } else if given.version {
                Start::Version
            } else {
                Start::Serve(given)
            }
        },
    }
}

// ---------------------------------------------------------------------------
// Engine and mode
// ---------------------------------------------------------------------------

/// Before the reason.
pub const STRICT_REFUSAL: &'static str = "--engine uring-strict was requested and the ramjet reactor will not start \
    on this host: ";

/// After the reason.
pub const STRICT_ADVICE: &'static str = ". On Linux this is usually io_uring_setup blocked by \
    seccomp — Docker's default profile does that — or a kernel older than 5.6. \
    Use --engine uring to fall back to hyper instead, or --engine hyper";

/// Which engine will serve, or what to say instead.
pub enum EngineView {
    Serve(Engine),
    Refuse(Seq<char>),
}

/// The engine that serves on a host whose reactor starts, or refuses to with a
/// reason.
pub open spec fn selected(requested: Engine, reason: Option<Seq<char>>) -> EngineView {
    match reason {
        None => EngineView::Serve(requested),
        Some(why) => match requested {
            Engine::Hyper => EngineView::Serve(Engine::Hyper),
            Engine::Uring => EngineView::Serve(Engine::Hyper),
            Engine::UringStrict => EngineView::Refuse(STRICT_REFUSAL@ + why + STRICT_ADVICE@),
        },
    }
}

/// Which engine will serve, after the host was asked whether it can run the
/// reactor. `refusal` is why it cannot. A strict selection is never replaced by
/// another engine: it is refused, with the reason.
pub fn select_engine(requested: Engine, refusal: Option<&str>) -> (r: Result<Engine, String>)
    ensures
        match selected(
            requested,
            match refusal {
                Some(why) => Some(why@),
                None => None,
            },
        ) {
            EngineView::Serve(engine) => r == Ok::<Engine, String>(engine),
            EngineView::Refuse(line) => r matches Err(said) && said@ == line,
        },
{
    let why = match refusal {
        Some(why) => why,
        None => {
            return Ok(requested);
        },
    };
    if !requested.is_uring() {
        return Ok(requested);
    }
    if requested.is_strict() {
        let mut said = String::new();
        push_text(&mut said, STRICT_REFUSAL);
        push_text(&mut said, why);
        push_text(&mut said, STRICT_ADVICE);
        assert(said@ =~= STRICT_REFUSAL@ + why@ + STRICT_ADVICE@);
        return Err(said);
    }
    Ok(Engine::Hyper)
}

/// The engine that was asked for is the one that serves, but for the reactor on a
/// host that will not run it. A strict selection never ends in another engine.
pub proof fn a_strict_selection_is_never_replaced(requested: Engine, reason: Option<Seq<char>>)
    ensures
        reason is None ==> selected(requested, reason) == EngineView::Serve(requested),
        requested == Engine::Hyper ==> selected(requested, reason) == EngineView::Serve(requested),
        requested == Engine::UringStrict ==> {
            ||| selected(requested, reason) == EngineView::Serve(Engine::UringStrict)
            ||| selected(requested, reason) is Refuse
        },
        selected(requested, reason) is Refuse ==> requested == Engine::UringStrict && reason is Some,
{
}

/// How the daemon runs.
#[derive(Debug, Clone, Copy, PartialEq, Eq, Structural)]
pub enum Mode {
    /// A file, served by hyper.
    Dev,
    /// A file, served by the reactor.
    DevUring,
    /// Kubernetes, served by hyper.
    Kubernetes,
    /// Kubernetes, served by the reactor.
    KubernetesUring,
}

/// The mode of a daemon that serves a file or Kubernetes, on the reactor or not.
pub open spec fn mode_of(from_file: bool, reactor: bool) -> Mode {
    if from_file {
        if reactor {
            Mode::DevUring
        } else {
            Mode::Dev
        }
    } else if reactor {
        Mode::KubernetesUring
    } else {
        Mode::Kubernetes
    }
}

/// A file is served whenever one was named, and the reactor serves whenever it was
/// selected, strictly or not; either choice leaves the other alone.
pub proof fn a_mode_is_two_choices(from_file: bool, reactor: bool)
    ensures
        from_file <==> (mode_of(from_file, reactor) == Mode::Dev || mode_of(from_file, reactor)
            == Mode::DevUring),
        reactor <==> (mode_of(from_file, reactor) == Mode::DevUring || mode_of(from_file, reactor)
            == Mode::KubernetesUring),
{
}

/// The mode that arguments and an engine select.
pub fn mode(args: &Args, engine: Engine) -> (r: Mode)
    ensures
        r == match (args.static_routes is Some, engine == Engine::Hyper) {
            (true, true) => Mode::Dev,
            (true, false) => Mode::DevUring,
            (false, true) => Mode::Kubernetes,
            (false, false) => Mode::KubernetesUring,
        },
        r == mode_of(args.static_routes is Some, engine == Engine::Uring || engine
            == Engine::UringStrict),
{
    match (args.static_routes.is_some(), engine.is_uring()) {
        (true, false) => Mode::Dev,
        (true, true) => Mode::DevUring,
        (false, false) => Mode::Kubernetes,
        (false, true) => Mode::KubernetesUring,
    }
}

// ---------------------------------------------------------------------------
// Settings
// ---------------------------------------------------------------------------

/// The TLS listener a file-served daemon opens.
pub open spec fn https_of(args: Args, has_certificates: bool) -> Option<SocketAddr> {
    if args.https_explicit || has_certificates {
        args.https
    } else {
        None
    }
}

/// The TLS listener of a file-served daemon. Unless it was asked for or refused
/// by name, it is opened only where there are certificates: over an empty store
/// every handshake fails, and an open port would look like working HTTPS.
pub fn file_https(args: &Args, has_certificates: bool) -> (r: Option<SocketAddr>)
    ensures
        r == https_of(*args, has_certificates),
{
    if args.https_explicit || has_certificates {
        args.https
    } else {
        None
    }
}

/// Are these the upstream settings that the arguments ask for? The idle bound and
/// the keepalive interval cannot be asked for.
pub open spec fn dials_as_asked(args: Args, config: UpstreamConfig) -> bool {
    &&& config.connect_timeout == args.connect_timeout
    &&& config.response_timeout == args.response_timeout
    &&& config.max_connect_attempts == args.max_connect_attempts
    &&& config.pool_max_idle_per_host == args.upstream_pool_idle
    &&& config.pool_idle_timeout@ == 90_000_000_000
    &&& config.tcp_keepalive matches Some(interval)
    &&& interval@ == 60_000_000_000
}

/// The upstream settings every lane dials with, whichever engine serves.
pub fn upstream_config(args: &Args) -> (r: UpstreamConfig)
    ensures
        dials_as_asked(*args, r),
{
    let rest = UpstreamConfig::default();
    UpstreamConfig {
        connect_timeout: args.connect_timeout,
        response_timeout: args.response_timeout,
        pool_idle_timeout: rest.pool_idle_timeout,
        pool_max_idle_per_host: args.upstream_pool_idle,
        tcp_keepalive: rest.tcp_keepalive,
        max_connect_attempts: args.max_connect_attempts,
    }
}

/// A listener on an address, where there is one.
pub open spec fn listener_on(addr: Option<SocketAddr>) -> Option<ListenerConfig> {
    match addr {
        Some(addr) => Some(
            ListenerConfig { addr, backlog: 1024, reuse_port: true, nodelay: true },
        ),
        None => None,
    }
}

fn listener(addr: Option<SocketAddr>) -> (r: Option<ListenerConfig>)
    ensures
        r == listener_on(addr),
{
    match addr {
        Some(addr) => Some(ListenerConfig::new(addr)),
        None => None,
    }
}

/// How long to wait for a PROXY header, where one is required.
pub open spec fn header_bound(args: Args) -> Option<Duration> {
    if args.proxy_protocol {
        Some(args.proxy_protocol_timeout)
    } else {
        None
    }
}

fn proxy_header_bound(args: &Args) -> (r: Option<Duration>)
    ensures
        r == header_bound(*args),
{
    if args.proxy_protocol {
        Some(args.proxy_protocol_timeout)
    } else {
        None
    }
}

/// Is this the configuration that the arguments and a TLS listener ask for?
pub open spec fn configured_as_asked(
    args: Args,
    https: Option<SocketAddr>,
    config: ProxyConfig,
) -> bool {
    &&& config.http == listener_on(args.http)
    &&& config.https == listener_on(https)
    &&& config.admin == listener_on(args.admin)
    &&& dials_as_asked(args, config.upstream)
    &&& config.shutdown_grace == args.shutdown_grace
    &&& config.worker_threads == args.worker_threads
    &&& config.max_buf_size == args.max_buf_size
    &&& config.mirror_max_body == args.mirror_max_body
    &&& config.history_size == args.history_size
    &&& config.proxy_protocol == header_bound(args)
    &&& config.http3 == if args.http3 {
        https
    } else {
        None
    }
}

/// The listener and upstream configuration both modes share. `https` is the one
/// setting they disagree about. HTTP/3 takes the TLS listener's address, in UDP,
/// and follows it: where that is not opened there is nothing to serve.
pub fn proxy_config(args: &Args, https: Option<SocketAddr>) -> (r: ProxyConfig)
    ensures
        configured_as_asked(*args, https, r),
{
    ProxyConfig {
        http: listener(args.http),
        https: listener(https),
        admin: listener(args.admin),
        upstream: upstream_config(args),
        shutdown_grace: args.shutdown_grace,
        worker_threads: args.worker_threads,
        max_buf_size: args.max_buf_size,
        mirror_max_body: args.mirror_max_body,
        history_size: args.history_size,
        proxy_protocol: proxy_header_bound(args),
        http3: if args.http3 {
            https
        } else {
            None
        },
    }
}

/// What the reactor engine is started with. It opens no admin listener of its
/// own: the other engine's answers, with every endpoint.
#[derive(Debug, Clone, Copy)]
pub struct EngineConfig {
    pub http: Option<SocketAddr>,
    pub https: Option<SocketAddr>,
    pub proxy_protocol: Option<Duration>,
    pub admin: Option<SocketAddr>,
    pub workers: Option<usize>,
    pub connect_timeout: Duration,
    pub response_timeout: Duration,
    pub max_connect_attempts: usize,
    pub pool_max_idle_per_host: usize,
    pub max_buf_size: usize,
    pub mirror_max_body: usize,
}

/// What is said when the reactor would have nothing to serve.
pub const NO_LISTENER: &'static str = "--engine uring needs a listener; --no-http and --no-https together leave it \
    nothing to serve";

/// The reactor's settings for a file-served daemon that has something to serve.
pub open spec fn engine_settings(args: Args, has_certificates: bool) -> EngineConfig {
    EngineConfig {
        http: args.http,
        https: https_of(args, has_certificates),
        proxy_protocol: header_bound(args),
        admin: None,
        workers: args.worker_threads,
        connect_timeout: args.connect_timeout,
        response_timeout: args.response_timeout,
        max_connect_attempts: args.max_connect_attempts,
        pool_max_idle_per_host: args.upstream_pool_idle,
        max_buf_size: args.max_buf_size,
        mirror_max_body: args.mirror_max_body,
    }
}

/// The reactor's settings for a file-served daemon, or why it cannot start.
pub fn engine_config(args: &Args, has_certificates: bool) -> (r: Result<EngineConfig, &'static str>)
    ensures
        args.http is None && args.https is None ==> (r matches Err(said) && said@ == NO_LISTENER@),
        args.http is Some || args.https is Some ==> r == Ok::<EngineConfig, &'static str>(
            engine_settings(*args, has_certificates),
        ),
{
    if args.http.is_none() && args.https.is_none() {
        return Err(NO_LISTENER);
    }
    Ok(
        EngineConfig {
            http: args.http,
            https: file_https(args, has_certificates),
            proxy_protocol: proxy_header_bound(args),
            admin: None,
            workers: args.worker_threads,
            connect_timeout: args.connect_timeout,
            response_timeout: args.response_timeout,
            max_connect_attempts: args.max_connect_attempts,
            pool_max_idle_per_host: args.upstream_pool_idle,
            max_buf_size: args.max_buf_size,
            mirror_max_body: args.mirror_max_body,
        },
    )
}

/// Changing the engine changes none of the settings that requests are served
/// with: both listen, dial, wait and buffer alike. HTTP/3 is served only beside
/// the TLS listener.
pub proof fn the_engines_are_configured_alike(
    args: Args,
    has_certificates: bool,
    hyper: ProxyConfig,
)
    requires
        configured_as_asked(args, https_of(args, has_certificates), hyper),
    ensures
        ({
            let reactor = engine_settings(args, has_certificates);
            &&& hyper.http == listener_on(reactor.http)
            &&& hyper.https == listener_on(reactor.https)
            &&& hyper.proxy_protocol == reactor.proxy_protocol
            &&& hyper.worker_threads == reactor.workers
            &&& hyper.upstream.connect_timeout == reactor.connect_timeout
            &&& hyper.upstream.response_timeout == reactor.response_timeout
            &&& hyper.upstream.max_connect_attempts == reactor.max_connect_attempts
            &&& hyper.upstream.pool_max_idle_per_host == reactor.pool_max_idle_per_host
            &&& hyper.max_buf_size == reactor.max_buf_size
            &&& hyper.mirror_max_body == reactor.mirror_max_body
        }),
        hyper.http3 is Some ==> (hyper.https matches Some(listener) && hyper.http3 == Some(
            listener.addr,
        )),
{
}

// ---------------------------------------------------------------------------
// What is printed at startup
// ---------------------------------------------------------------------------

/// The addresses that were bound.
#[derive(Debug, Clone, Copy)]
pub struct Bound {
    pub http: Option<SocketAddr>,
    pub https: Option<SocketAddr>,
    pub http3: Option<SocketAddr>,
    pub admin: Option<SocketAddr>,
}

/// The first line: which version serves how much.
pub open spec fn headline_text(version: Seq<char>, reactor: bool, summary: Summary) -> Seq<char> {
    "ramjet-ingressd "@ + version + " — "@ + (if reactor {
        "engine uring, "@
    } else {
        ""@
    }) + text::decimal(summary.backends as nat) + " backend(s), "@ + text::decimal(
        summary.endpoints as nat,
    ) + " endpoint(s), "@ + text::decimal(summary.routes as nat) + " route(s), "@ + text::decimal(
        summary.certificates as nat,
    ) + " certificate(s)"@ + (if summary.default_backend {
        ", default backend set"@
    } else {
        ""@
    })
}

fn headline(version: &str, reactor: bool, summary: &Summary) -> (r: String)
    ensures
        r@ == headline_text(version@, reactor, *summary),
{
    let mut out = String::new();
    push_text(&mut out, "ramjet-ingressd ");
    push_text(&mut out, version);
    push_text(&mut out, " — ");
    push_text(
        &mut out,
        if reactor {
            "engine uring, "
        } else {
            ""
        },
    );
    push_decimal(&mut out, summary.backends as u64);
    push_text(&mut out, " backend(s), ");
    push_decimal(&mut out, summary.endpoints as u64);
    push_text(&mut out, " endpoint(s), ");
    push_decimal(&mut out, summary.routes as u64);
    push_text(&mut out, " route(s), ");
    push_decimal(&mut out, summary.certificates as u64);
    push_text(&mut out, " certificate(s)");
    push_text(
        &mut out,
        if summary.default_backend {
            ", default backend set"
        } else {
            ""
        },
    );
    assert(out@ =~= headline_text(version@, reactor, *summary));
    out
}

/// One line of the address table.
pub open spec fn address_text(label: Seq<char>, addr: Option<net::SocketView>) -> Seq<char> {
    label + match addr {
        Some(addr) => net::socket_text(addr),
        None => "disabled"@,
    }
}

fn address_line(label: &str, addr: Option<SocketAddr>) -> (r: String)
    ensures
        r@ == address_text(label@, args::option_address(addr)),
{
    let mut out = String::new();
    push_text(&mut out, label);
    match addr {
        Some(addr) => {
            let shown = addr.to_text();
            push_text(&mut out, shown.as_str());
        },
        None => {
            push_text(&mut out, "disabled");
        },
    }
    assert(out@ =~= address_text(label@, args::option_address(addr)));
    out
}

/// Two endpoints or more, in full, that can be pasted into a browser.
pub open spec fn endpoints_text(
    label: Seq<char>,
    admin: net::SocketView,
    paths: Seq<Seq<char>>,
) -> Seq<char>
    decreases paths.len(),
{
    if paths.len() == 0 {
        label
    } else {
        endpoints_text(label, admin, paths.drop_last()) + (if paths.len() > 1 {
            "  http://"@
        } else {
            "http://"@
        }) + net::socket_text(admin) + paths.last()
    }
}

fn endpoints_line(label: &str, admin: &SocketAddr, paths: &[&'static str]) -> (r: String)
    ensures
        r@ == endpoints_text(label@, admin@, paths@.map_values(|path: &'static str| path@)),
{
    let ghost all = paths@.map_values(|path: &'static str| path@);
    let shown = admin.to_text();
    let mut out = String::new();
    push_text(&mut out, label);
    let mut i: usize = 0;
    assert(all.take(0) =~= Seq::<Seq<char>>::empty());
    assert(out@ =~= endpoints_text(label@, admin@, all.take(0)));
    while i < paths.len()
        invariant
            i <= paths@.len(),
            all == paths@.map_values(|path: &'static str| path@),
            shown@ == net::socket_text(admin@),
            out@ == endpoints_text(label@, admin@, all.take(i as int)),
        decreases paths@.len() - i,
    {
        let ghost before = out@;
        assert(all.take(i + 1).drop_last() =~= all.take(i as int));
        assert(all.take(i + 1).last() == paths@[i as int]@);
        if i > 0 {
            push_text(&mut out, "  http://");
        } else {
            push_text(&mut out, "http://");
        }
        push_text(&mut out, shown.as_str());
        push_text(&mut out, paths[i]);
        assert(out@ =~= endpoints_text(label@, admin@, all.take(i + 1)));
        i = i + 1;
    }
    assert(all.take(i as int) =~= all);
    out
}

/// Where the probes answer.
pub open spec fn probes_text(admin: net::SocketView) -> Seq<char> {
    endpoints_text("  probes   "@, admin, seq!["/healthz"@, "/readyz"@, "/metrics"@])
}

/// Where the administration answers.
pub open spec fn administration_text(admin: net::SocketView) -> Seq<char> {
    endpoints_text("  admin    "@, admin, seq!["/admin/generations"@, "/admin/routes"@])
}

fn probes_line(admin: &SocketAddr) -> (r: String)
    ensures
        r@ == probes_text(admin@),
{
    let paths: [&'static str; 3] = ["/healthz", "/readyz", "/metrics"];
    assert(paths@.map_values(|path: &'static str| path@) =~= seq![
        "/healthz"@,
        "/readyz"@,
        "/metrics"@,
    ]);
    endpoints_line("  probes   ", admin, &paths)
}

fn administration_line(admin: &SocketAddr) -> (r: String)
    ensures
        r@ == administration_text(admin@),
{
    let paths: [&'static str; 2] = ["/admin/generations", "/admin/routes"];
    assert(paths@.map_values(|path: &'static str| path@) =~= seq![
        "/admin/generations"@,
        "/admin/routes"@,
    ]);
    endpoints_line("  admin    ", admin, &paths)
}

/// What a file-served daemon prints: how much it serves, from which file, where,
/// and how to look at it.
pub open spec fn dev_banner_lines(
    version: Seq<char>,
    path: Seq<char>,
    summary: Summary,
    bound: Bound,
) -> Seq<Seq<char>> {
    seq![
        headline_text(version, false, summary),
        "  config   "@ + path,
        address_text("  http     "@, args::option_address(bound.http)),
        address_text("  https    "@, args::option_address(bound.https)),
        address_text("  http3    "@, args::option_address(bound.http3)),
        address_text("  admin    "@, args::option_address(bound.admin)),
    ] + match bound.admin {
        Some(admin) => seq![probes_text(admin@), administration_text(admin@)],
        None => seq![],
    }
}

/// The lines a file-served daemon prints once it is bound.
pub fn dev_banner(version: &str, path: &str, summary: &Summary, bound: &Bound) -> (r: Vec<String>)
    ensures
        text::texts(r@) == dev_banner_lines(version@, path@, *summary, *bound),
{
    let mut lines: Vec<String> = Vec::new();
    lines.push(headline(version, false, summary));
    lines.push(config_line(path));
    lines.push(address_line("  http     ", bound.http));
    lines.push(address_line("  https    ", bound.https));
    lines.push(address_line("  http3    ", bound.http3));
    lines.push(address_line("  admin    ", bound.admin));
    if let Some(admin) = &bound.admin {
        lines.push(probes_line(admin));
        lines.push(administration_line(admin));
    }
    assert(text::texts(lines@) =~= dev_banner_lines(version@, path@, *summary, *bound));
    lines
}

fn config_line(path: &str) -> (r: String)
    ensures
        r@ == "  config   "@ + path@,
{
    let mut out = String::new();
    push_text(&mut out, "  config   ");
    push_text(&mut out, path);
    assert(out@ =~= "  config   "@ + path@);
    out
}

fn cores_line(cores: usize) -> (r: String)
    ensures
        r@ == "  cores    "@ + text::decimal(cores as nat),
{
    let mut out = String::new();
    push_text(&mut out, "  cores    ");
    push_decimal(&mut out, cores as u64);
    assert(out@ =~= "  cores    "@ + text::decimal(cores as nat));
    out
}

/// Lines moved two columns to the right.
pub open spec fn indented(lines: Seq<Seq<char>>) -> Seq<Seq<char>> {
    lines.map_values(|line: Seq<char>| "  "@ + line)
}

/// What a file-served daemon prints on the reactor, which ends with what that
/// engine does not do: whoever chose it should see that before their first
/// request fails rather than after.
pub open spec fn uring_banner_lines(
    version: Seq<char>,
    path: Seq<char>,
    summary: Summary,
    bound: Bound,
    cores: nat,
    limits: Seq<Seq<char>>,
) -> Seq<Seq<char>> {
    seq![
        headline_text(version, true, summary),
        "  config   "@ + path,
        address_text("  http     "@, args::option_address(bound.http)),
        address_text("  https    "@, args::option_address(bound.https)),
        address_text("  admin    "@, args::option_address(bound.admin)),
    ] + (match bound.admin {
        Some(admin) => seq![probes_text(admin@), administration_text(admin@)],
        None => seq![],
    }) + seq!["  cores    "@ + text::decimal(cores)] + indented(limits)
}

/// The lines a file-served daemon prints on the reactor once it is bound.
pub fn uring_banner(
    version: &str,
    path: &str,
    summary: &Summary,
    bound: &Bound,
    cores: usize,
    limits: &Vec<String>,
) -> (r: Vec<String>)
    ensures
        text::texts(r@) == uring_banner_lines(
            version@,
            path@,
            *summary,
            *bound,
            cores as nat,
            text::texts(limits@),
        ),
{
    let mut lines: Vec<String> = Vec::new();
    lines.push(headline(version, true, summary));
    lines.push(config_line(path));
    lines.push(address_line("  http     ", bound.http));
    lines.push(address_line("  https    ", bound.https));
    lines.push(address_line("  admin    ", bound.admin));
    if let Some(admin) = &bound.admin {
        lines.push(probes_line(admin));
        lines.push(administration_line(admin));
    }
    lines.push(cores_line(cores));
    let ghost front = text::texts(lines@);
    let ghost whole = uring_banner_lines(
        version@,
        path@,
        *summary,
        *bound,
        cores as nat,
        text::texts(limits@),
    );
    assert(front =~= whole.take(front.len() as int));
    let mut i: usize = 0;
    while i < limits.len()
        invariant
            i <= limits@.len(),
            whole.len() == front.len() + limits@.len(),
            forall|k: int|
                0 <= k < limits@.len() ==> #[trigger] whole[front.len() + k] == "  "@
                    + limits@[k]@,
            front == whole.take(front.len() as int),
            text::texts(lines@) == whole.take(front.len() + i),
        decreases limits@.len() - i,
    {
        let ghost before = lines@;
        let mut line = String::new();
        push_text(&mut line, "  ");
        push_text(&mut line, limits[i].as_str());
        assert(line@ =~= "  "@ + limits@[i as int]@);
        lines.push(line);
        assert(whole[front.len() + i as int] == "  "@ + limits@[i as int]@);
        assert(text::texts(lines@) =~= text::texts(before).push(line@));
        assert(whole.take(front.len() + i + 1) =~= whole.take(front.len() + i).push(
            whole[front.len() + i as int],
        ));
        i = i + 1;
    }
    assert(whole.take(whole.len() as int) =~= whole);
    lines
}

// ---------------------------------------------------------------------------
// Pins and endings
// ---------------------------------------------------------------------------

/// What the audit trail is told.
#[derive(Debug, Clone, Copy, PartialEq, Eq, Structural)]
pub enum AuditEntry {
    /// A generation was pinned in the place of another.
    Pinned { generation: u64, replaced: u64 },
    /// Publication was resumed at a generation.
    Resumed { generation: u64 },
}

/// What the audit trail is told of a pin or a resume.
pub open spec fn entry_of(change: PinChange) -> AuditEntry {
    match change {
        PinChange::Pinned { generation, replaced } => AuditEntry::Pinned { generation, replaced },
        PinChange::Resumed { generation } => AuditEntry::Resumed { generation },
    }
}

/// The audit trail is told of every pin and every resume, with the generations as
/// they were: no two changes are told alike.
pub proof fn the_trail_tells_changes_apart(a: PinChange, b: PinChange)
    ensures
        entry_of(a) == entry_of(b) <==> a == b,
        a matches PinChange::Pinned { generation, replaced } ==> (
        entry_of(a) matches AuditEntry::Pinned { generation: now, replaced: was } && now
            == generation && was == replaced),
        a matches PinChange::Resumed { generation } ==> (
        entry_of(a) matches AuditEntry::Resumed { generation: now } && now == generation),
{
}

/// The audit entry of a pin or a resume.
pub fn audit_entry(change: PinChange) -> (r: AuditEntry)
    ensures
        r == match change {
            PinChange::Pinned { generation, replaced } => AuditEntry::Pinned {
                generation,
                replaced,
            },
            PinChange::Resumed { generation } => AuditEntry::Resumed { generation },
        },
        r == entry_of(change),
{
    match change {
        PinChange::Pinned { generation, replaced } => AuditEntry::Pinned { generation, replaced },
        PinChange::Resumed { generation } => AuditEntry::Resumed { generation },
    }
}

/// How the process ends.
#[derive(Debug, Clone, Copy, PartialEq, Eq, Structural)]
pub enum Exit {
    Success,
    Failure,
}

/// How serving ended.
#[derive(Debug)]
pub enum Served<E> {
    /// Everything in flight finished.
    Drained,
    /// The grace period expired first.
    Expired(E),
    /// Serving failed.
    Failed(E),
}

/// How the process ends after serving ended, where it does not hand a failure on.
pub open spec fn ending<E>(served: Served<E>, control_plane_stopped: bool) -> Result<Exit, E> {
    match served {
        Served::Failed(error) => Err(error),
        _ => Ok(
            if control_plane_stopped {
                Exit::Failure
            } else {
                Exit::Success
            },
        ),
    }
}

/// Only a failure to serve is handed on. A drain that ran out of time ends as one
/// that did not, and a daemon whose control plane stopped never ends in success.
pub proof fn a_late_drain_still_succeeds<E>(served: Served<E>, late: E)
    ensures
        ending(Served::<E>::Drained, false) == Ok::<Exit, E>(Exit::Success),
        ending(Served::Expired(late), false) == Ok::<Exit, E>(Exit::Success),
        ending(served, true) != Ok::<Exit, E>(Exit::Success),
        ending(served, false) != Ok::<Exit, E>(Exit::Failure),
        ending(served, true) is Err <==> served is Failed,
        served matches Served::Failed(error) ==> ending(served, false) == Err::<Exit, E>(error)
            && ending(served, true) == Err::<Exit, E>(error),
{
}

/// Turns how serving ended into an exit status, or hands the failure on. A drain
/// that ran out of time still succeeds: the shutdown was requested and did all it
/// was allowed to, and a failure would make a rolling update look like a crash.
///
/// `control_plane_stopped` turns a success into a failure: a replica that served
/// a table nobody updates should be seen to restart.
pub fn finish<E>(served: Served<E>, control_plane_stopped: bool) -> (r: Result<Exit, E>)
    ensures
        r == match served {
            Served::Failed(error) => Err(error),
            _ => Ok(
                if control_plane_stopped {
                    Exit::Failure
                } else {
                    Exit::Success
                },
            ),
        },
        r == ending(served, control_plane_stopped),
{
    match served {
        Served::Failed(error) => Err(error),
        _ => Ok(
            if control_plane_stopped {
                Exit::Failure
            } else {
                Exit::Success
            },
        ),
    }
}

// ---------------------------------------------------------------------------
// What was asked for is what is done
// ---------------------------------------------------------------------------

/// A reactor that will not start is replaced where that was not ruled out, and the
/// refusal of a strict selection says why it would not start.
pub proof fn a_reactor_that_will_not_start_is_replaced(why: Seq<char>)
    ensures
        selected(Engine::Uring, Some(why)) == EngineView::Serve(Engine::Hyper),
        selected(Engine::Uring, None) == EngineView::Serve(Engine::Uring),
        selected(Engine::UringStrict, Some(why)) == EngineView::Refuse(
            STRICT_REFUSAL@ + why + STRICT_ADVICE@,
        ),
{
}

/// The TLS listener of a file-served daemon is the one asked for, and it is opened
/// where it was asked for by name or where there is a certificate to serve with.
pub proof fn https_needs_a_certificate_or_a_request(args: Args, has_certificates: bool)
    ensures
        args.https_explicit ==> https_of(args, has_certificates) == args.https,
        has_certificates ==> https_of(args, has_certificates) == args.https,
        !args.https_explicit && !has_certificates ==> https_of(args, has_certificates) is None,
{
}

/// Every setting of the command line reaches the configuration that is named after
/// it, and a listener that was not asked for is not opened.
pub proof fn every_setting_reaches_its_configuration(
    args: Args,
    https: Option<SocketAddr>,
    config: ProxyConfig,
)
    requires
        configured_as_asked(args, https, config),
    ensures
        args.http matches Some(addr) ==> (config.http matches Some(l) && l.addr == addr
            && l.backlog == 1024 && l.reuse_port && l.nodelay),
        https matches Some(addr) ==> (config.https matches Some(l) && l.addr == addr && l.backlog
            == 1024 && l.reuse_port && l.nodelay),
        args.admin matches Some(addr) ==> (config.admin matches Some(l) && l.addr == addr
            && l.backlog == 1024 && l.reuse_port && l.nodelay),
        args.http is None ==> config.http is None,
        https is None ==> config.https is None && config.http3 is None,
        args.admin is None ==> config.admin is None,
        config.upstream.connect_timeout == args.connect_timeout,
        config.upstream.response_timeout == args.response_timeout,
        config.upstream.max_connect_attempts == args.max_connect_attempts,
        config.upstream.pool_max_idle_per_host == args.upstream_pool_idle,
        config.upstream.pool_idle_timeout@ == 90 * 1_000_000_000,
        config.upstream.tcp_keepalive matches Some(every) && every@ == 60 * 1_000_000_000,
        config.shutdown_grace == args.shutdown_grace,
        config.worker_threads == args.worker_threads,
        config.max_buf_size == args.max_buf_size,
        config.mirror_max_body == args.mirror_max_body,
        config.history_size == args.history_size,
        args.proxy_protocol ==> config.proxy_protocol == Some(args.proxy_protocol_timeout),
        !args.proxy_protocol ==> config.proxy_protocol is None,
        args.http3 ==> config.http3 == https,
        !args.http3 ==> config.http3 is None,
{
}

/// Every setting reaches the reactor too, which opens no admin listener.
pub proof fn every_setting_reaches_the_reactor(args: Args, has_certificates: bool)
    ensures
        ({
            let config = engine_settings(args, has_certificates);
            &&& config.http == args.http
            &&& has_certificates ==> config.https == args.https
            &&& config.admin is None
            &&& config.workers == args.worker_threads
            &&& config.connect_timeout == args.connect_timeout
            &&& config.response_timeout == args.response_timeout
            &&& config.max_connect_attempts == args.max_connect_attempts
            &&& config.pool_max_idle_per_host == args.upstream_pool_idle
            &&& config.max_buf_size == args.max_buf_size
            &&& config.mirror_max_body == args.mirror_max_body
            &&& args.proxy_protocol ==> config.proxy_protocol == Some(args.proxy_protocol_timeout)
            &&& !args.proxy_protocol ==> config.proxy_protocol is None
        }),
{
}

/// The first line counts each thing the document holds, under its own name.
pub proof fn the_first_line_counts_what_is_served(version: Seq<char>, summary: Summary)
    ensures
        summary.default_backend ==> headline_text(version, true, summary) == "ramjet-ingressd "@
            + version + " — "@ + "engine uring, "@ + text::decimal(summary.backends as nat)
            + " backend(s), "@ + text::decimal(summary.endpoints as nat) + " endpoint(s), "@
            + text::decimal(summary.routes as nat) + " route(s), "@ + text::decimal(
            summary.certificates as nat,
        ) + " certificate(s)"@ + ", default backend set"@,
        !summary.default_backend ==> headline_text(version, false, summary) == "ramjet-ingressd "@
            + version + " — "@ + text::decimal(summary.backends as nat) + " backend(s), "@
            + text::decimal(summary.endpoints as nat) + " endpoint(s), "@ + text::decimal(
            summary.routes as nat,
        ) + " route(s), "@ + text::decimal(summary.certificates as nat) + " certificate(s)"@,
{
    reveal_strlit("");
    assert(headline_text(version, false, summary) =~= "ramjet-ingressd "@ + version + " — "@
        + text::decimal(summary.backends as nat) + " backend(s), "@ + text::decimal(
        summary.endpoints as nat,
    ) + " endpoint(s), "@ + text::decimal(summary.routes as nat) + " route(s), "@ + text::decimal(
        summary.certificates as nat,
    ) + " certificate(s)"@ + (if summary.default_backend {
        ", default backend set"@
    } else {
        ""@
    }));
    if !summary.default_backend {
        assert(headline_text(version, false, summary) =~= "ramjet-ingressd "@ + version + " — "@
            + text::decimal(summary.backends as nat) + " backend(s), "@ + text::decimal(
            summary.endpoints as nat,
        ) + " endpoint(s), "@ + text::decimal(summary.routes as nat) + " route(s), "@
            + text::decimal(summary.certificates as nat) + " certificate(s)"@);
    }
}

/// Every listener is shown on its own line with the address it was bound to, or as
/// disabled, and the admin listener's endpoints are shown in full where there is
/// one. The file is shown as it was named.
pub proof fn the_banner_shows_every_address(
    version: Seq<char>,
    path: Seq<char>,
    summary: Summary,
    bound: Bound,
)
    ensures
        ({
            let lines = dev_banner_lines(version, path, summary, bound);
            &&& lines[1] == "  config   "@ + path
            &&& lines[2] == "  http     "@ + match bound.http {
                Some(at) => net::socket_text(at@),
                None => "disabled"@,
            }
            &&& lines[3] == "  https    "@ + match bound.https {
                Some(at) => net::socket_text(at@),
                None => "disabled"@,
            }
            &&& lines[4] == "  http3    "@ + match bound.http3 {
                Some(at) => net::socket_text(at@),
                None => "disabled"@,
            }
            &&& lines[5] == "  admin    "@ + match bound.admin {
                Some(at) => net::socket_text(at@),
                None => "disabled"@,
            }
            &&& bound.admin is None ==> lines.len() == 6
            &&& bound.admin matches Some(at) ==> {
                let host = net::socket_text(at@);
                &&& lines.len() == 8
                &&& lines[6] == "  probes   "@ + "http://"@ + host + "/healthz"@ + "  http://"@
                    + host + "/readyz"@ + "  http://"@ + host + "/metrics"@
                &&& lines[7] == "  admin    "@ + "http://"@ + host + "/admin/generations"@
                    + "  http://"@ + host + "/admin/routes"@
            }
        }),
{
    if let Some(at) = bound.admin {
        let host = net::socket_text(at@);
        let three = seq!["/healthz"@, "/readyz"@, "/metrics"@];
        let two = seq!["/healthz"@, "/readyz"@];
        let one = seq!["/healthz"@];
        assert(three.drop_last() =~= two);
        assert(two.drop_last() =~= one);
        assert(one.drop_last() =~= Seq::<Seq<char>>::empty());
        reveal_with_fuel(endpoints_text, 4);
        let both = seq!["/admin/generations"@, "/admin/routes"@];
        let first = seq!["/admin/generations"@];
        assert(both.drop_last() =~= first);
        assert(first.drop_last() =~= Seq::<Seq<char>>::empty());
        assert(endpoints_text("  probes   "@, at@, three) == "  probes   "@ + "http://"@ + host
            + "/healthz"@ + "  http://"@ + host + "/readyz"@ + "  http://"@ + host + "/metrics"@);
        assert(endpoints_text("  admin    "@, at@, both) == "  admin    "@ + "http://"@ + host
            + "/admin/generations"@ + "  http://"@ + host + "/admin/routes"@);
    }
}

/// On the reactor the same lines are shown but for HTTP/3, then the number of cores,
/// and then every limit of the engine, moved to the right.
pub proof fn the_reactors_banner_ends_with_its_limits(
    version: Seq<char>,
    path: Seq<char>,
    summary: Summary,
    bound: Bound,
    cores: nat,
    limits: Seq<Seq<char>>,
    i: int,
)
    requires
        0 <= i < limits.len(),
    ensures
        ({
            let lines = uring_banner_lines(version, path, summary, bound, cores, limits);
            let usual = dev_banner_lines(version, path, summary, bound);
            &&& lines[1] == usual[1]
            &&& lines[2] == usual[2]
            &&& lines[3] == usual[3]
            &&& lines[4] == usual[5]
            &&& bound.admin is Some ==> lines[5] == usual[6] && lines[6] == usual[7]
            &&& lines[lines.len() - limits.len() - 1] == "  cores    "@ + text::decimal(cores)
            &&& lines[lines.len() - limits.len() + i] == "  "@ + limits[i]
        }),
{
}

} // verus!
