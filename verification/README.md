# dandelion

A network proxy whose decisions are verified with Verus.

- `src/` is the library. Each module states what its functions do in
  `requires`/`ensures` over mathematical models (sequences, maps, views) and
  Verus proves it: endpoint parsing and printing, the SOCKS5 handshake, the
  HTTP proxy's per-connection decisions and request rewriting, the simplex
  tunnel's checks and its byte stream over WebSocket messages, routing rules,
  IP lists, the checks of a connector configuration, name-resolution answers,
  the country database's cache names and download targets, and the fake-DNS
  address pool of TUN mode. Calls into other crates (`lru`, `ipnetwork`,
  `regex`, `sha2`, `tungstenite`, `http`, `reqwest`'s URL parser, `iso3166-1`)
  stand behind small trusted wrappers whose contracts are written from those
  crates' sources.
- `tests/` runs the library on concrete values.
- `app/` is the command-line server: it reads a RON configuration, lets the
  library check it, and drives the sockets, TLS, WebSockets, DNS and the
  country database around the library's decisions.
