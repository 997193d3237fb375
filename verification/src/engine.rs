//! What a routing script configures and what it is handed: the acceptors to
//! listen on (each with the name of its handler), and the connection
//! request a handler decides on.
use crate::endpoint::{endpoint_hostname, endpoint_port, endpoint_text, Endpoint, EndpointView};
use crate::net::{
    ip_address_from_str, ip_text, ip_to_string, parse_ip_address, parse_socket_address,
    socket_address_from_str, SocketAddress,
};
use vstd::prelude::*;

verus! {

/// A listener of the script's configuration: its address and the name of
/// the handler function that routes its connections.
#[derive(Debug, Clone, PartialEq)]
pub enum AcceptorConfig {
    Socks5(SocketAddress, String),
    Http(SocketAddress, String),
}

pub enum AcceptorView {
    Socks5(SocketAddress, Seq<char>),
    Http(SocketAddress, Seq<char>),
}

impl View for AcceptorConfig {
    type V = AcceptorView;

    open spec fn view(&self) -> AcceptorView {
        match self {
            AcceptorConfig::Socks5(a, h) => AcceptorView::Socks5(*a, h@),
            AcceptorConfig::Http(a, h) => AcceptorView::Http(*a, h@),
        }
    }
}

/// Why a configuration call failed.
#[derive(Debug, Clone, Copy, PartialEq, Eq, Structural)]
pub enum ConfigError {
    /// The listen address is no socket address.
    InvalidAddress,
}

/// The configuration a script builds.
#[derive(Debug)]
pub struct Config {
    acceptors: Vec<AcceptorConfig>,
}

/// The views of a list of acceptors.
pub open spec fn acceptors_view(v: Seq<AcceptorConfig>) -> Seq<AcceptorView> {
    v.map_values(|a: AcceptorConfig| a@)
}

impl Config {
    pub closed spec fn acceptors_spec(&self) -> Seq<AcceptorView> {
        acceptors_view(self.acceptors@)
    }

    /// An empty configuration.
    pub fn new() -> (res: Self)
        ensures
            res.acceptors_spec() == Seq::<AcceptorView>::empty(),
    {
        let res = Config { acceptors: Vec::new() };
        proof {
            assert(res.acceptors_spec() =~= Seq::<AcceptorView>::empty());
        }
        res
    }

    /// Adds a SOCKS5 listener on `addr` whose connections `handler_name`
    /// routes; fails, changing nothing, where `addr` is no socket address.
    pub fn add_socks5_acceptor(&mut self, addr: &str, handler_name: &str) -> (res: Result<(), ConfigError>)
        ensures
            match socket_address_from_str(addr@) {
                Some(a) => res is Ok && final(self).acceptors_spec() == old(self).acceptors_spec().push(
                    AcceptorView::Socks5(a, handler_name@),
                ),
                None => res == Err::<(), ConfigError>(ConfigError::InvalidAddress)
                    && final(self).acceptors_spec() == old(self).acceptors_spec(),
            },
    {
        match parse_socket_address(addr) {
            Some(a) => {
                self.acceptors.push(AcceptorConfig::Socks5(a, handler_name.to_owned()));
                proof {
                    assert(final(self).acceptors_spec() =~= old(self).acceptors_spec().push(
                        AcceptorView::Socks5(a, handler_name@),
                    ));
                }
                Ok(())
            },
            None => Err(ConfigError::InvalidAddress),
        }
    }

    /// Adds an HTTP proxy listener on `addr` whose connections
    /// `handler_name` routes; fails, changing nothing, where `addr` is no
    /// socket address.
    pub fn add_http_acceptor(&mut self, addr: &str, handler_name: &str) -> (res: Result<(), ConfigError>)
        ensures
            match socket_address_from_str(addr@) {
                Some(a) => res is Ok && final(self).acceptors_spec() == old(self).acceptors_spec().push(
                    AcceptorView::Http(a, handler_name@),
                ),
                None => res == Err::<(), ConfigError>(ConfigError::InvalidAddress)
                    && final(self).acceptors_spec() == old(self).acceptors_spec(),
            },
    {
        match parse_socket_address(addr) {
            Some(a) => {
                self.acceptors.push(AcceptorConfig::Http(a, handler_name.to_owned()));
                proof {
                    assert(final(self).acceptors_spec() =~= old(self).acceptors_spec().push(
                        AcceptorView::Http(a, handler_name@),
                    ));
                }
                Ok(())
            },
            None => Err(ConfigError::InvalidAddress),
        }
    }

    /// The listeners, in the order they were added.
    pub fn acceptors(&self) -> (res: &Vec<AcceptorConfig>)
        ensures
            acceptors_view(res@) == self.acceptors_spec(),
    {
        &self.acceptors
    }
}

/// A connection a handler is asked to route.
#[derive(Debug)]
pub struct ConnectRequest {
    endpoint: Endpoint,
}

/// The IP address text of a host: the address's own text, or, for a domain
/// that reads as an IP address, the text of that address.
pub open spec fn hostname_ip(e: EndpointView) -> Option<Seq<char>> {
    match e {
        EndpointView::Addr(a) => Some(ip_text(a.spec_ip())),
        EndpointView::Domain(d, _) => match ip_address_from_str(d) {
            Some(ip) => Some(ip_text(ip)),
            None => None,
        },
    }
}

impl ConnectRequest {
    pub fn new(endpoint: Endpoint) -> (res: Self)
        ensures
            res.endpoint_spec() == endpoint@,
    {
        ConnectRequest { endpoint }
    }

    pub closed spec fn endpoint_spec(&self) -> EndpointView {
        self.endpoint@
    }

    /// The target port.
    pub fn port(&self) -> (res: u16)
        ensures
            res == endpoint_port(self.endpoint_spec()),
    {
        self.endpoint.port()
    }

    /// The target host: an IP address's text or the domain.
    pub fn hostname(&self) -> (res: String)
        ensures
            res@ == endpoint_hostname(self.endpoint_spec()),
    {
        self.endpoint.hostname()
    }

    /// The target as text: `host:port`, with an IPv6 host in brackets.
    pub fn endpoint(&self) -> (res: String)
        ensures
            res@ == endpoint_text(self.endpoint_spec()),
    {
        self.endpoint.to_string()
    }

    /// Whether the target host is an IP address (also where a domain reads
    /// as one).
    pub fn hostname_is_ip(&self) -> (res: bool)
        ensures
            res == hostname_ip(self.endpoint_spec()) is Some,
    {
        self.hostname_as_ip().is_some()
    }

    /// The target host as IP address text, where it is one.
    pub fn hostname_as_ip(&self) -> (res: Option<String>)
        ensures
            match (res, hostname_ip(self.endpoint_spec())) {
                (Some(a), Some(b)) => a@ == b,
                (None, None) => true,
                _ => false,
            },
    {
        match &self.endpoint {
            Endpoint::Addr(addr) => Some(ip_to_string(addr.ip())),
            Endpoint::Domain(domain, _) => match parse_ip_address(domain.as_str()) {
                Some(ip) => Some(ip_to_string(ip)),
                None => None,
            },
        }
    }
}

} // verus!
