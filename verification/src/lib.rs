//! Verified core of a scriptable network proxy: endpoint parsing, the SOCKS5
//! and HTTP proxy handshakes, the simplex tunnel's checks and its byte
//! stream over WebSocket messages, routing rules and the connector
//! configuration they live in, IP lists, name-resolution answers, the
//! country database's cache, and the fake-DNS address pool used in TUN mode.

pub mod text;
pub mod net;
pub mod endpoint;
pub mod socks5;
pub mod http;
pub mod simplex;
pub mod simplex_io;
pub mod iplist;
pub mod rule;
pub mod resolver;
pub mod geoip;
pub mod connector;
pub mod connector_config;
pub mod engine;
pub mod server;
pub mod fake_dns;
