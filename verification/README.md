# riddler

A network traffic tool: packet capture with HTTP request recognition, an
HTTP client with a cookie store, a request log with search, statistics and
replay, a small HTTP/HTTPS proxy, and response-time analysis.

- `src/` is the library, verified with Verus: text handling, header maps,
  the HTTP request parser, Ethernet/IPv4/TCP frame decoding (through
  `pnet`), the cookie store (a `dashmap` map, with `cookie_store` and `url`
  for parsing), the request log queries and statistics, the replay
  schedule, the proxy's request handling, the performance classification
  and reports, and the decisions of the capture and monitoring loops.
  Laws that span several functions are public proof functions next to the
  functions they relate.
- `app/` is the command-line program around it: argument parsing (`clap`),
  files and JSON (`serde`), the HTTP client (`reqwest`), packet capture
  (`pcap`), sockets and timers (`tokio`).
- `tests/` runs the library on concrete inputs.

Header maps and the per-method counters are `TextMap`s (`src/headers.rs`):
a vector of `(name, value)` pairs whose names are distinct, viewed as a map
from name to value. vstd's specification of `std::collections::HashMap`
proves nothing about a map keyed by `String` (not even its length after one
insert), so the library keeps its own map with an exact view. A `TextMap`
keeps its names in insertion order, where a `HashMap` leaves the order open;
nothing in the library depends on that order.
