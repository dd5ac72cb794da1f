//! The data plane of an ingress controller, with its behaviour proved.
//!
//! Requests come in over HTTP/1.1, HTTP/2 and HTTP/3, are matched to a backend and
//! sent to one of its endpoints. This library holds every decision on that way:
//! command-line arguments, the plan of a routes file, certificates, PROXY protocol
//! headers, header rewriting, retries, mirroring, the kept generations and their
//! pins, metrics, the admin endpoints, canary promotion and draining. Sockets,
//! files, clocks and tasks are the program's around it.
pub mod admin;
pub mod args;
pub mod body;
pub mod buffers;
pub mod calendar;
pub mod certs;
pub mod config;
pub mod daemon;
pub mod failure;
pub mod forward;
pub mod header_map;
pub mod headers;
pub mod history;
pub mod http3;
pub mod kubernetes;
pub mod listener;
pub mod metrics;
pub mod mirror;
pub mod net;
pub mod promotion;
pub mod proxy_protocol;
pub mod rng;
pub mod rounding;
pub mod server;
pub mod text;
pub mod time;
pub mod tls;
pub mod totals;
pub mod upstream;
