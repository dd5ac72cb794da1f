//! Binding, and explaining why it failed.
use ramjet_ingress::listener::{explain_bind_failure, ListenerConfig, Preparation};
use ramjet_ingress::net::{parse_socket, SocketAddr};
use ramjet_ingress::text::to_chars;
use std::io;

fn addr(text: &str) -> SocketAddr {
    parse_socket(&to_chars(text)).expect("literal")
}

#[test]
fn a_refused_privileged_bind_says_what_to_do_about_it() {
    let addr = addr("0.0.0.0:80");
    let error = explain_bind_failure(addr, io::Error::from(io::ErrorKind::PermissionDenied));

    assert_eq!(error.kind(), io::ErrorKind::PermissionDenied);
    let message = error.to_string();
    // The port, the uid, and both remedies — each of which somebody has to
    // be able to find in a `kubectl logs` of a crash-looping pod.
    assert!(message.contains("0.0.0.0:80"), "{message}");
    let uid = rustix::process::geteuid().as_raw();
    assert!(message.contains(&format!("uid {uid}")), "{message}");
    assert!(message.contains("setcap cap_net_bind_service=+ep"), "{message}");
    assert!(message.contains("capabilities.add"), "{message}");
    assert!(
        message.contains("net.ipv4.ip_unprivileged_port_start=80"),
        "{message}"
    );
    assert!(
        message.starts_with(
            "cannot bind 0.0.0.0:80: permission denied. Binding a port below 1024 as uid "
        ),
        "{message}"
    );
}

#[test]
fn every_other_bind_failure_is_passed_through_untouched() {
    // A port already in use is the common bind failure and the kernel's
    // own message is the right one; so is EACCES on a high port, which is
    // an LSM or a seccomp filter and has nothing to do with capabilities.
    let low = addr("0.0.0.0:80");
    let in_use = explain_bind_failure(low, io::Error::from(io::ErrorKind::AddrInUse));
    assert!(!in_use.to_string().contains("setcap"), "{in_use}");
    assert_eq!(in_use.kind(), io::ErrorKind::AddrInUse);

    let high = addr("0.0.0.0:8080");
    let denied = explain_bind_failure(high, io::Error::from(io::ErrorKind::PermissionDenied));
    assert!(!denied.to_string().contains("setcap"), "{denied}");

    // Port 0 is the kernel picking from the ephemeral range, which is never
    // privileged — so an EACCES there is somebody else's problem too.
    let any = addr("0.0.0.0:0");
    let ephemeral = explain_bind_failure(any, io::Error::from(io::ErrorKind::PermissionDenied));
    assert!(!ephemeral.to_string().contains("setcap"), "{ephemeral}");

    let last = addr("0.0.0.0:1023");
    let denied = explain_bind_failure(last, io::Error::from(io::ErrorKind::PermissionDenied));
    assert!(denied.to_string().contains("setcap"), "{denied}");
    let first = addr("0.0.0.0:1024");
    let denied = explain_bind_failure(first, io::Error::from(io::ErrorKind::PermissionDenied));
    assert!(!denied.to_string().contains("setcap"), "{denied}");
}

#[test]
fn options_are_set_before_the_address_is_taken() {
    let config = ListenerConfig::new(addr("[::1]:0"));
    assert_eq!((config.backlog, config.reuse_port, config.nodelay), (1024, true, true));
    let steps = config.prepare();
    assert_eq!(steps.len(), 5);
    assert!(matches!(steps[0], Preparation::ReuseAddress));
    assert!(matches!(steps[1], Preparation::ReusePort));
    assert!(matches!(steps[2], Preparation::NonBlocking));
    assert!(matches!(steps[3], Preparation::Bind(taken) if taken.is_ipv6()));
    assert!(matches!(steps[4], Preparation::Listen(1024)));
    let alone = ListenerConfig { reuse_port: false, ..config };
    assert_eq!(alone.prepare().len(), 4);
}
