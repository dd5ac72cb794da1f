# ramjet-ingress

The data plane of a Kubernetes ingress controller, written in Verus.

- `src/` is the library: every decision the proxy takes, each function with a
  contract that Verus proves. What it has from other crates (`http`, `bytes`,
  `rustls`, `rustls-pemfile`, `serde_json`, `subtle`, `rustix`) is stated next to
  the calls, in items marked as external.
- `app/` is the daemon around it: sockets, files, TLS, timers and tasks.
- `tests/` runs the library on concrete values.

## Reading the contracts

Text is modelled as `Seq<char>`, bytes as `Seq<u8>`, spans of time as nanoseconds,
addresses by their numbers, and a set of header fields as a map from lower-case
names to the values in order. Most modules also hold public
proof functions: these are the properties that hold across calls, such as that a
request is sent to no endpoint twice, that a pinned generation stays on the wire,
or that a flag given twice means what it said last.

The library does not print, wait or open anything. Where the daemon has to, the
library says what to do next and is told what came of it: see `Accepting` and
`Lane` in `server`, `Dispatch` in `forward`, `Connection` in `http3` and `Promoter`
in `promotion`.
