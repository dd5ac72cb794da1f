//! Binding, with the socket options an ingress needs.
//!
//! Address reuse lets a restarting process take its port back at once, port
//! reuse lets the next process bind while this one drains, and switching the
//! delay of small writes off keeps a response header from waiting for a body
//! that is not coming. The first two work only when they are set before the
//! socket is bound.
use vstd::prelude::*;
use crate::failure;
use crate::failure::FailureKind;
use crate::net;
use crate::net::SocketAddr;
use crate::text;
use crate::text::{push_decimal, push_text};

verus! {

/// The first port a process with no capability of its own may bind, unless the
/// node says otherwise.
pub const FIRST_UNPRIVILEGED_PORT: u16 = 1024;

/// How a listening socket is configured.
#[derive(Debug, Clone, Copy)]
pub struct ListenerConfig {
    /// Address to bind. Port `0` asks the kernel to assign one.
    pub addr: SocketAddr,
    /// Pending-connection queue depth.
    pub backlog: i32,
    /// Let other sockets share the port.
    pub reuse_port: bool,
    /// Send small writes at once on accepted connections.
    pub nodelay: bool,
}

/// One thing done to a socket on its way to accepting connections.
#[derive(Debug, Clone, Copy)]
pub enum Preparation {
    /// Let the port be bound while connections of an earlier process linger.
    ReuseAddress,
    /// Let other sockets share the port.
    ReusePort,
    /// Never stall the thread that asks.
    NonBlocking,
    /// Take the address.
    Bind(SocketAddr),
    /// Accept into a queue of this depth.
    Listen(i32),
}

/// What makes a socket listen, in order.
pub open spec fn preparations(config: ListenerConfig) -> Seq<Preparation> {
    seq![Preparation::ReuseAddress] + (if config.reuse_port {
        seq![Preparation::ReusePort]
    } else {
        seq![]
    }) + seq![
        Preparation::NonBlocking,
        Preparation::Bind(config.addr),
        Preparation::Listen(config.backlog),
    ]
}

impl ListenerConfig {
    /// The configuration every listener wants. The queue is deep: an ingress
    /// absorbs whole fleets that reconnect at once, and a short queue would turn
    /// those into refusals.
    pub fn new(addr: SocketAddr) -> (r: ListenerConfig)
        ensures
            r == (ListenerConfig { addr, backlog: 1024, reuse_port: true, nodelay: true }),
    {
        ListenerConfig { addr, backlog: 1024, reuse_port: true, nodelay: true }
    }

    /// What to do to a fresh socket, in order, to make it listen. The first step
    /// that fails is the answer.
    pub fn prepare(&self) -> (r: Vec<Preparation>)
        ensures
            r@ == preparations(*self),
    {
        let mut steps: Vec<Preparation> = Vec::new();
        steps.push(Preparation::ReuseAddress);
        if self.reuse_port {
            steps.push(Preparation::ReusePort);
        }
        steps.push(Preparation::NonBlocking);
        steps.push(Preparation::Bind(self.addr));
        steps.push(Preparation::Listen(self.backlog));
        assert(steps@ =~= preparations(*self));
        steps
    }
}

/// Every option is set before the address is taken, and the socket listens last,
/// once, on the address that was asked for.
pub proof fn options_come_before_binding(config: ListenerConfig)
    ensures
        ({
            let steps = preparations(config);
            let bind = steps.len() - 2;
            &&& steps[bind] == Preparation::Bind(config.addr)
            &&& steps.last() == Preparation::Listen(config.backlog)
            &&& forall|i: int| 0 <= i < bind ==> !((#[trigger] steps[i]) is Bind || steps[i] is Listen)
            &&& steps.contains(Preparation::ReuseAddress)
            &&& steps.contains(Preparation::NonBlocking)
            &&& steps.contains(Preparation::ReusePort) <==> config.reuse_port
        }),
{
    let steps = preparations(config);
    assert(steps[0] == Preparation::ReuseAddress);
    if config.reuse_port {
        assert(steps[1] == Preparation::ReusePort);
        assert(steps[2] == Preparation::NonBlocking);
    } else {
        assert(steps[1] == Preparation::NonBlocking);
        assert forall|i: int| 0 <= i < steps.len() implies (#[trigger] steps[i])
            != Preparation::ReusePort by {}
    }
}

/// Does a failed operation mean that permission was denied?
pub open spec fn is_denied(error: std::io::Error) -> bool {
    failure::kind_of(error) == FailureKind::PermissionDenied
}

/// `rustix::process::geteuid`: the user the kernel checks this process as. Who
/// that is is the machine's affair, so nothing is claimed of it.
#[verifier::external_body]
fn effective_uid() -> (r: u32) {
    rustix::process::geteuid().as_raw()
}

/// Between the address and the bound.
pub const DENIED: &'static str = ": permission denied. Binding a port below ";

/// Why a capability granted to the container does not reach the process.
pub const MECHANISM: &'static str = " needs CAP_NET_BIND_SERVICE \
    in this process's *effective* set, and a non-root process gets one there only from a \
    file capability on the binary — Kubernetes' securityContext.capabilities.add grants \
    it to the container, and execve then drops it again. Two ways out. (1) Run an image \
    whose binary carries the capability, which the published one does \
    (`setcap cap_net_bind_service=+ep /usr/local/bin/ramjet-ingressd`), and keep \
    NET_BIND_SERVICE in securityContext.capabilities.add so it stays in the container's \
    bounding set. (2) `sysctl -w net.ipv4.ip_unprivileged_port_start=";

/// What the second remedy costs.
pub const REMEDY: &'static str = "` on the \
    node, which makes this port unprivileged for everything on it — and has to be set \
    on the node, because a host-network pod shares the node's network namespace and the \
    kubelet refuses to set net.* sysctls for such a pod";

/// What an operator is told when a privileged port is refused: the address, the
/// user, the mechanism and both remedies.
pub open spec fn advice_text(addr: net::SocketView, uid: nat) -> Seq<char> {
    "cannot bind "@ + net::socket_text(addr) + DENIED@ + text::decimal(
        FIRST_UNPRIVILEGED_PORT as nat,
    ) + " as uid "@ + text::decimal(uid) + MECHANISM@ + text::decimal(addr.port) + REMEDY@
}

/// The words for a refused privileged port.
pub fn advice(addr: SocketAddr, uid: u32) -> (r: String)
    ensures
        r@ == advice_text(addr@, uid as nat),
{
    let mut out = String::new();
    push_text(&mut out, "cannot bind ");
    let shown = addr.to_text();
    push_text(&mut out, shown.as_str());
    push_text(&mut out, DENIED);
    push_decimal(&mut out, FIRST_UNPRIVILEGED_PORT as u64);
    push_text(&mut out, " as uid ");
    push_decimal(&mut out, uid as u64);
    push_text(&mut out, MECHANISM);
    push_decimal(&mut out, addr.port as u64);
    push_text(&mut out, REMEDY);
    assert(out@ =~= advice_text(addr@, uid as nat));
    out
}

/// Is a port one that a process needs a capability to bind? Port 0 is not: the
/// kernel picks from a range that is never privileged.
pub open spec fn is_privileged(port: nat) -> bool {
    1 <= port < FIRST_UNPRIVILEGED_PORT
}

/// Replaces a bare refusal to bind a privileged port with an error an operator
/// can act on. Every other failure is handed back as it came: a refusal on
/// another port is another problem, and guessing at it would bury the real one.
pub fn explain_bind_failure(addr: SocketAddr, error: std::io::Error) -> (r: std::io::Error)
    ensures
        !(is_denied(error) && is_privileged(addr@.port)) ==> r == error,
        is_denied(error) && is_privileged(addr@.port) ==> is_denied(r) && exists|uid: u32|
            r == failure::failure(
                FailureKind::PermissionDenied,
                #[trigger] advice_text(addr@, uid as nat),
            ),
        is_denied(r) == is_denied(error),
{
    let privileged = 1 <= addr.port && addr.port < FIRST_UNPRIVILEGED_PORT;
    if failure::kind(&error) != FailureKind::PermissionDenied || !privileged {
        return error;
    }
    let uid: u32 = effective_uid();
    let words = advice(addr, uid);
    failure::fail(FailureKind::PermissionDenied, words)
}

/// The privileged ports are those from 1 to 1023.
pub proof fn ports_below_1024_are_privileged(port: nat)
    ensures
        is_privileged(port) <==> port != 0 && port <= 1023,
{
}

/// The advice names the address that was refused, the user it was refused to, and
/// the port to make unprivileged.
pub proof fn the_advice_names_address_user_and_port(addr: net::SocketView, uid: nat)
    ensures
        advice_text(addr, uid) == "cannot bind "@ + net::socket_text(addr)
            + ": permission denied. Binding a port below "@ + text::decimal(1024) + " as uid "@
            + text::decimal(uid) + MECHANISM@ + text::decimal(addr.port) + REMEDY@,
{
}

} // verus!
