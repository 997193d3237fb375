//! The static server configuration: its listeners, its resolver, the checks
//! made before serving, and the system proxy settings made for the
//! listeners when traffic is routed through the server.
use crate::connector_config::ConnectorConfig;
use crate::endpoint::{Endpoint, EndpointView};
use crate::net::{IpAddress, IpNet, SocketAddress};
use vstd::prelude::*;

verus! {

/// Which resolver the server uses.
#[derive(Debug, Clone, Copy, PartialEq, Eq, Structural)]
pub enum ResolverConfig {
    System,
    Udp(SocketAddress),
}

impl ResolverConfig {
    /// Whether it is the system resolver.
    pub fn is_system(&self) -> (res: bool)
        ensures
            res == (*self is System),
    {
        match self {
            ResolverConfig::System => true,
            ResolverConfig::Udp(_) => false,
        }
    }
}

/// A listener of the server.
#[derive(Debug, Clone)]
pub enum AcceptorConfig {
    Socks5 { addr: SocketAddress },
    Simplex { addr: SocketAddress, path: String, secret_key: String, secret_value: String },
    Http { addr: SocketAddress },
    Tun { listen_addr: SocketAddress, subnet: IpNet },
}

/// The address a listener listens on.
pub open spec fn listen_address(a: AcceptorConfig) -> SocketAddress {
    match a {
        AcceptorConfig::Socks5 { addr } => addr,
        AcceptorConfig::Simplex { addr, .. } => addr,
        AcceptorConfig::Http { addr } => addr,
        AcceptorConfig::Tun { listen_addr, .. } => listen_addr,
    }
}

impl AcceptorConfig {
    /// The address the listener listens on.
    pub fn server_addr(&self) -> (res: &SocketAddress)
        ensures
            *res == listen_address(*self),
    {
        match self {
            AcceptorConfig::Socks5 { addr } => addr,
            AcceptorConfig::Simplex { addr, .. } => addr,
            AcceptorConfig::Http { addr } => addr,
            AcceptorConfig::Tun { listen_addr, .. } => listen_addr,
        }
    }
}

/// The server's listeners, the connector its connections go through, and
/// its resolver.
#[derive(Debug)]
pub struct ServerConfig {
    pub acceptors: Vec<AcceptorConfig>,
    pub connector: ConnectorConfig,
    pub resolver: ResolverConfig,
}

/// Why the server refuses to start.
#[derive(Debug, Clone, Copy, PartialEq, Eq, Structural)]
pub enum ServeError {
    /// A TUN listener needs its own resolver; the system one would resolve
    /// through the TUN device itself.
    SystemResolverWithTun,
}

impl ServerConfig {
    /// Whether some listener is a TUN device.
    pub fn tun_enabled(&self) -> (res: bool)
        ensures
            res == exists|i: int|
                0 <= i < self.acceptors@.len() && (#[trigger] self.acceptors@[i]) is Tun,
    {
        let mut i: usize = 0;
        while i < self.acceptors.len()
            invariant
                i <= self.acceptors@.len(),
                forall|j: int| 0 <= j < i ==> !((#[trigger] self.acceptors@[j]) is Tun),
            decreases self.acceptors.len() - i,
        {
            if let AcceptorConfig::Tun { .. } = &self.acceptors[i] {
                return true;
            }
            i = i + 1;
        }
        false
    }

    /// The check made before serving: a TUN listener with the system
    /// resolver is refused.
    pub fn check(&self) -> (res: Result<(), ServeError>)
        ensures
            res is Err <==> (exists|i: int|
                0 <= i < self.acceptors@.len() && (#[trigger] self.acceptors@[i]) is Tun)
                && self.resolver is System,
    {
        if self.tun_enabled() && self.resolver.is_system() {
            Err(ServeError::SystemResolverWithTun)
        } else {
            Ok(())
        }
    }

    /// The endpoints of the first SOCKS5 and the first HTTP listener, as
    /// reported to the host application before the server starts.
    pub fn proxy_endpoints(&self) -> (res: (Option<Endpoint>, Option<Endpoint>))
        ensures
            first_socks5(self.acceptors@) is None ==> res.0 is None,
            first_socks5(self.acceptors@) matches Some(i) ==> (res.0 matches Some(e) && e@
                == EndpointView::Addr(listen_address(self.acceptors@[i]))),
            first_http(self.acceptors@) is None ==> res.1 is None,
            first_http(self.acceptors@) matches Some(i) ==> (res.1 matches Some(e) && e@
                == EndpointView::Addr(listen_address(self.acceptors@[i]))),
    {
        let mut socks: Option<Endpoint> = None;
        let mut http: Option<Endpoint> = None;
        let mut i: usize = self.acceptors.len();
        while i > 0
            invariant
                i <= self.acceptors@.len(),
                first_socks5(self.acceptors@.subrange(i as int, self.acceptors@.len() as int)) is None
                    ==> socks is None,
                first_socks5(self.acceptors@.subrange(i as int, self.acceptors@.len() as int)) matches Some(k)
                    ==> (socks matches Some(e) && e@ == EndpointView::Addr(listen_address(self.acceptors@[i + k]))),
                first_http(self.acceptors@.subrange(i as int, self.acceptors@.len() as int)) is None
                    ==> http is None,
                first_http(self.acceptors@.subrange(i as int, self.acceptors@.len() as int)) matches Some(k)
                    ==> (http matches Some(e) && e@ == EndpointView::Addr(listen_address(self.acceptors@[i + k]))),
            decreases i,
        {
            i = i - 1;
            let ghost rest = self.acceptors@.subrange(i as int, self.acceptors@.len() as int);
            proof {
                assert(rest.drop_first() =~= self.acceptors@.subrange(i + 1, self.acceptors@.len() as int));
                assert(rest[0] == self.acceptors@[i as int]);
            }
            match &self.acceptors[i] {
                AcceptorConfig::Socks5 { addr } => {
                    socks = Some(Endpoint::new_from_addr(*addr));
                },
                AcceptorConfig::Http { addr } => {
                    http = Some(Endpoint::new_from_addr(*addr));
                },
                _ => {},
            }
        }
        proof {
            assert(self.acceptors@.subrange(0, self.acceptors@.len() as int) =~= self.acceptors@);
        }
        (socks, http)
    }
}

/// The position of the first SOCKS5 listener.
pub open spec fn first_socks5(a: Seq<AcceptorConfig>) -> Option<int>
    decreases a.len(),
{
    if a.len() == 0 {
        None
    } else if a[0] is Socks5 {
        Some(0)
    } else {
        match first_socks5(a.drop_first()) {
            Some(i) => Some(i + 1),
            None => None,
        }
    }
}

/// The position of the first HTTP listener.
pub open spec fn first_http(a: Seq<AcceptorConfig>) -> Option<int>
    decreases a.len(),
{
    if a.len() == 0 {
        None
    } else if a[0] is Http {
        Some(0)
    } else {
        match first_http(a.drop_first()) {
            Some(i) => Some(i + 1),
            None => None,
        }
    }
}

/// A change of the system's proxy settings.
#[derive(Debug, Clone, Copy, PartialEq, Eq, Structural)]
pub enum PrivilegeAction {
    SetSocks5Proxy(Option<SocketAddress>),
    SetHttpProxy(Option<SocketAddress>),
    SetDns(Option<SocketAddress>),
}

/// The first address of a V4 network: the address with its host bits
/// cleared (`Ipv4Network::iter().next()`).
pub open spec fn network_address(net: IpNet) -> u32 {
    match net.addr {
        IpAddress::V4(a) => if net.prefix == 0 {
            0
        } else {
            ((a >> (32 - net.prefix) as u32) << (32 - net.prefix) as u32) as u32
        },
        IpAddress::V6(_) => 0,
    }
}

fn first_address(net: &IpNet) -> (res: u32)
    requires
        net.wf(),
    ensures
        res == network_address(*net),
{
    match net.addr {
        IpAddress::V4(a) => if net.prefix == 0 {
            0
        } else {
            let shift: u32 = (32 - net.prefix) as u32;
            (a >> shift) << shift
        },
        IpAddress::V6(_) => 0,
    }
}

/// The setting a listener asks for while traffic is routed through the
/// server (`enable`), or the reset after: a SOCKS5 or HTTP listener sets the
/// system proxy to itself, a TUN listener sets the DNS server to port 53 of
/// its network's first address, a simplex listener changes nothing.
pub open spec fn route_action(a: AcceptorConfig, enable: bool) -> Option<PrivilegeAction> {
    match a {
        AcceptorConfig::Socks5 { addr } => Some(
            PrivilegeAction::SetSocks5Proxy(if enable { Some(addr) } else { None }),
        ),
        AcceptorConfig::Simplex { .. } => None,
        AcceptorConfig::Http { addr } => Some(
            PrivilegeAction::SetHttpProxy(if enable { Some(addr) } else { None }),
        ),
        AcceptorConfig::Tun { subnet, .. } => Some(
            PrivilegeAction::SetDns(
                if enable {
                    Some(SocketAddress::V4 { ip: network_address(subnet), port: 53 })
                } else {
                    None
                },
            ),
        ),
    }
}

/// The settings for all listeners, in order.
pub open spec fn route_actions_spec(a: Seq<AcceptorConfig>, enable: bool) -> Seq<PrivilegeAction>
    decreases a.len(),
{
    if a.len() == 0 {
        Seq::empty()
    } else {
        let rest = route_actions_spec(a.drop_last(), enable);
        match route_action(a.last(), enable) {
            Some(x) => rest.push(x),
            None => rest,
        }
    }
}

/// The system settings to make for the listeners when traffic is routed
/// through the server (`enable`), or to undo afterwards.
pub fn route_actions(acceptors: &Vec<AcceptorConfig>, enable: bool) -> (res: Vec<PrivilegeAction>)
    requires
        forall|i: int|
            0 <= i < acceptors@.len() ==> (#[trigger] acceptors@[i] matches AcceptorConfig::Tun { subnet, .. }
                ==> subnet.wf()),
    ensures
        res@ == route_actions_spec(acceptors@, enable),
{
    let mut res: Vec<PrivilegeAction> = Vec::new();
    let mut i: usize = 0;
    while i < acceptors.len()
        invariant
            i <= acceptors@.len(),
            forall|k: int|
                0 <= k < acceptors@.len() ==> (#[trigger] acceptors@[k] matches AcceptorConfig::Tun { subnet, .. }
                    ==> subnet.wf()),
            res@ == route_actions_spec(acceptors@.take(i as int), enable),
        decreases acceptors.len() - i,
    {
        proof {
            assert(acceptors@.take(i + 1).drop_last() =~= acceptors@.take(i as int));
            assert(acceptors@.take(i + 1).last() == acceptors@[i as int]);
        }
        match &acceptors[i] {
            AcceptorConfig::Socks5 { addr } => {
                res.push(PrivilegeAction::SetSocks5Proxy(if enable { Some(*addr) } else { None }));
            },
            AcceptorConfig::Simplex { .. } => {},
            AcceptorConfig::Http { addr } => {
                res.push(PrivilegeAction::SetHttpProxy(if enable { Some(*addr) } else { None }));
            },
            AcceptorConfig::Tun { subnet, .. } => {
                let dns = if enable {
                    Some(SocketAddress::V4 { ip: first_address(subnet), port: 53 })
                } else {
                    None
                };
                res.push(PrivilegeAction::SetDns(dns));
            },
        }
        i = i + 1;
    }
    proof {
        assert(acceptors@.take(acceptors@.len() as int) =~= acceptors@);
    }
    res
}

} // verus!
