//! IP addresses, socket addresses and networks as plain integers, with
//! their texts and the parsers of the standard library and `ipnetwork`.
use crate::text::{decimal, decimal_string, push_char, push_decimal};
use vstd::prelude::*;

verus! {

/// An IP address held as plain integers: a V4 address as its 32-bit
/// big-endian value, a V6 address as its 128-bit big-endian value.
#[derive(Clone, Copy, Debug, PartialEq, Eq, Structural)]
pub enum IpAddress {
    V4(u32),
    V6(u128),
}

impl IpAddress {
    /// Whether this is a V4 address.
    pub fn is_ipv4(&self) -> (res: bool)
        ensures
            res == (*self is V4),
    {
        match self {
            IpAddress::V4(_) => true,
            IpAddress::V6(_) => false,
        }
    }
}

/// What `str::parse::<core::net::IpAddr>` gives for a text: the address it
/// reads, or `None` where the text is no IPv4 or IPv6 address.
pub uninterp spec fn ip_address_from_str(s: Seq<char>) -> Option<IpAddress>;

/// Reads an IP address with `str::parse::<core::net::IpAddr>` and converts it
/// to plain integers. The text an address prints as (dotted decimal, or
/// the RFC 5952 text of `Ipv6Addr`'s `Display`) reads back as that address.
#[verifier::external_body]
pub(crate) fn parse_ip_address(s: &str) -> (res: Option<IpAddress>)
    ensures
        res == ip_address_from_str(s@),
        forall|ip: IpAddress| #[trigger] ip_text(ip) == s@ ==> res == Some(ip),
{
    match s.parse::<core::net::IpAddr>() {
        Ok(core::net::IpAddr::V4(a)) => Some(IpAddress::V4(u32::from(a))),
        Ok(core::net::IpAddr::V6(a)) => Some(IpAddress::V6(u128::from(a))),
        Err(_) => None,
    }
}

/// A socket address held as plain integers. A V6 address carries its flow
/// label and scope id as `core::net::SocketAddrV6` does.
#[derive(Clone, Copy, Debug, PartialEq, Eq, Structural)]
pub enum SocketAddress {
    V4 { ip: u32, port: u16 },
    V6 { ip: u128, port: u16, flowinfo: u32, scope_id: u32 },
}

impl SocketAddress {
    /// The IP address part.
    pub fn ip(&self) -> (res: IpAddress)
        ensures
            res == self.spec_ip(),
    {
        match self {
            SocketAddress::V4 { ip, .. } => IpAddress::V4(*ip),
            SocketAddress::V6 { ip, .. } => IpAddress::V6(*ip),
        }
    }

    pub open spec fn spec_ip(&self) -> IpAddress {
        match self {
            SocketAddress::V4 { ip, .. } => IpAddress::V4(*ip),
            SocketAddress::V6 { ip, .. } => IpAddress::V6(*ip),
        }
    }

    /// The port part.
    pub fn port(&self) -> (res: u16)
        ensures
            res == self.spec_port(),
    {
        match self {
            SocketAddress::V4 { port, .. } => *port,
            SocketAddress::V6 { port, .. } => *port,
        }
    }

    pub open spec fn spec_port(&self) -> u16 {
        match self {
            SocketAddress::V4 { port, .. } => *port,
            SocketAddress::V6 { port, .. } => *port,
        }
    }

    /// The socket address of an IP address and a port (no flow label, no scope).
    pub open spec fn new_spec(ip: IpAddress, port: u16) -> SocketAddress {
        match ip {
            IpAddress::V4(a) => SocketAddress::V4 { ip: a, port },
            IpAddress::V6(a) => SocketAddress::V6 { ip: a, port, flowinfo: 0, scope_id: 0 },
        }
    }

    /// A socket address from an IP address and a port.
    pub fn new(ip: IpAddress, port: u16) -> (res: SocketAddress)
        ensures
            res == SocketAddress::new_spec(ip, port),
    {
        match ip {
            IpAddress::V4(a) => SocketAddress::V4 { ip: a, port },
            IpAddress::V6(a) => SocketAddress::V6 { ip: a, port, flowinfo: 0, scope_id: 0 },
        }
    }
}

/// Byte `i` (0 is the most significant) of a V4 address.
pub open spec fn octet(a: u32, i: int) -> nat {
    if i == 0 {
        (a / 0x1000000) as nat
    } else if i == 1 {
        ((a / 0x10000) % 0x100) as nat
    } else if i == 2 {
        ((a / 0x100) % 0x100) as nat
    } else {
        (a % 0x100) as nat
    }
}

/// The dotted-decimal text of a V4 address, as `core::net::Ipv4Addr`
/// prints it.
pub open spec fn ipv4_text(a: u32) -> Seq<char> {
    decimal(octet(a, 0)) + seq!['.'] + decimal(octet(a, 1)) + seq!['.'] + decimal(octet(a, 2))
        + seq!['.'] + decimal(octet(a, 3))
}

/// What `core::net::Ipv6Addr` prints for an address: the text of RFC 5952.
pub uninterp spec fn ipv6_text(a: u128) -> Seq<char>;

/// Prints a V6 address with the `Display` of `core::net::Ipv6Addr`.
#[verifier::external_body]
fn ipv6_to_string(a: u128) -> (res: String)
    ensures
        res@ == ipv6_text(a),
{
    core::net::Ipv6Addr::from(a).to_string()
}

/// The text of an IP address.
pub open spec fn ip_text(ip: IpAddress) -> Seq<char> {
    match ip {
        IpAddress::V4(a) => ipv4_text(a),
        IpAddress::V6(a) => ipv6_text(a),
    }
}

/// The text of a socket address, as `core::net::SocketAddr` prints it:
/// `a.b.c.d:port`, `[v6]:port`, or `[v6%scope]:port` for a nonzero scope.
pub open spec fn socket_text(addr: SocketAddress) -> Seq<char> {
    match addr {
        SocketAddress::V4 { ip, port } => ipv4_text(ip) + seq![':'] + decimal(port as nat),
        SocketAddress::V6 { ip, port, scope_id, .. } => if scope_id == 0 {
            seq!['['] + ipv6_text(ip) + seq![']', ':'] + decimal(port as nat)
        } else {
            seq!['['] + ipv6_text(ip) + seq!['%'] + decimal(scope_id as nat) + seq![']', ':']
                + decimal(port as nat)
        },
    }
}

fn push_ipv4(s: &mut String, a: u32)
    ensures
        final(s)@ == old(s)@ + ipv4_text(a),
{
    push_decimal(s, (a / 0x1000000) as u64);
    push_char(s, '.');
    push_decimal(s, ((a / 0x10000) % 0x100) as u64);
    push_char(s, '.');
    push_decimal(s, ((a / 0x100) % 0x100) as u64);
    push_char(s, '.');
    push_decimal(s, (a % 0x100) as u64);
    proof {
        assert(final(s)@ =~= old(s)@ + ipv4_text(a));
    }
}

/// The text of an IP address.
pub fn ip_to_string(ip: IpAddress) -> (res: String)
    ensures
        res@ == ip_text(ip),
{
    match ip {
        IpAddress::V4(a) => {
            let mut s = String::new();
            push_ipv4(&mut s, a);
            proof {
                assert(s@ =~= ipv4_text(a));
            }
            s
        },
        IpAddress::V6(a) => ipv6_to_string(a),
    }
}

/// The text of a socket address.
pub fn socket_to_string(addr: SocketAddress) -> (res: String)
    ensures
        res@ == socket_text(addr),
{
    let mut s = String::new();
    match addr {
        SocketAddress::V4 { ip, port } => {
            push_ipv4(&mut s, ip);
            push_char(&mut s, ':');
            push_decimal(&mut s, port as u64);
        },
        SocketAddress::V6 { ip, port, scope_id, .. } => {
            push_char(&mut s, '[');
            let t = ipv6_to_string(ip);
            crate::text::push_str(&mut s, t.as_str());
            if scope_id != 0 {
                push_char(&mut s, '%');
                push_decimal(&mut s, scope_id as u64);
            }
            push_char(&mut s, ']');
            push_char(&mut s, ':');
            push_decimal(&mut s, port as u64);
        },
    }
    proof {
        assert(s@ =~= socket_text(addr));
    }
    s
}

/// What `str::parse::<core::net::SocketAddr>` gives for a text: the address
/// it reads, or `None` where the text is no socket address.
pub uninterp spec fn socket_address_from_str(s: Seq<char>) -> Option<SocketAddress>;

/// Whether a socket address prints as text that reads back as itself: a V4
/// address, or a V6 address without flow label (the printed text leaves
/// the flow label out; a nonzero scope is printed as `%scope`).
pub open spec fn prints_back(a: SocketAddress) -> bool {
    match a {
        SocketAddress::V4 { .. } => true,
        SocketAddress::V6 { flowinfo, .. } => flowinfo == 0,
    }
}

/// Reads a socket address with `str::parse::<core::net::SocketAddr>` and
/// converts it to plain integers. The text `ip:port`, `[ip]:port` or
/// `[ip%scope]:port` that a V4 address, or a V6 address without flow label,
/// prints as reads back as that address.
#[verifier::external_body]
pub(crate) fn parse_socket_address(s: &str) -> (res: Option<SocketAddress>)
    ensures
        res == socket_address_from_str(s@),
        forall|a: SocketAddress| #[trigger] socket_text(a) == s@ && prints_back(a) ==> res == Some(a),
{
    match s.parse::<core::net::SocketAddr>() {
        Ok(core::net::SocketAddr::V4(a)) => Some(SocketAddress::V4 { ip: u32::from(*a.ip()), port: a.port() }),
        Ok(core::net::SocketAddr::V6(a)) => Some(SocketAddress::V6 {
            ip: u128::from(*a.ip()),
            port: a.port(),
            flowinfo: a.flowinfo(),
            scope_id: a.scope_id(),
        }),
        Err(_) => None,
    }
}

/// A network given by an address and a prefix length, as
/// `ipnetwork::IpNetwork` holds it (the address is kept as written, host bits
/// included).
#[derive(Clone, Copy, Debug, PartialEq, Eq, Structural)]
pub struct IpNet {
    pub addr: IpAddress,
    pub prefix: u8,
}

impl IpNet {
    /// The prefix length fits the address family.
    pub open spec fn wf(self) -> bool {
        match self.addr {
            IpAddress::V4(_) => self.prefix <= 32,
            IpAddress::V6(_) => self.prefix <= 128,
        }
    }
}

/// Whether `ip` lies in `net`: same family, and the first `prefix` bits of
/// the two addresses agree.
pub open spec fn net_contains(net: IpNet, ip: IpAddress) -> bool {
    match (net.addr, ip) {
        (IpAddress::V4(n), IpAddress::V4(a)) => net.prefix == 0 || (n >> (32 - net.prefix) as u32)
            == (a >> (32 - net.prefix) as u32),
        (IpAddress::V6(n), IpAddress::V6(a)) => net.prefix == 0 || (n >> (128 - net.prefix) as u128)
            == (a >> (128 - net.prefix) as u128),
        _ => false,
    }
}

/// Whether `ip` lies in `net` (`IpNetwork::contains`).
pub fn ip_net_contains(net: &IpNet, ip: IpAddress) -> (res: bool)
    requires
        net.wf(),
    ensures
        res == net_contains(*net, ip),
{
    match (net.addr, ip) {
        (IpAddress::V4(n), IpAddress::V4(a)) => {
            if net.prefix == 0 {
                true
            } else {
                let shift: u32 = (32 - net.prefix) as u32;
                (n >> shift) == (a >> shift)
            }
        },
        (IpAddress::V6(n), IpAddress::V6(a)) => {
            if net.prefix == 0 {
                true
            } else {
                let shift: u128 = (128 - net.prefix) as u128;
                (n >> shift) == (a >> shift)
            }
        },
        _ => false,
    }
}

/// An address lies in a network exactly when both are of one family and the
/// address agrees with the network's address on the first `prefix` bits,
/// the most significant included: dividing either by two to the power of
/// the remaining bits gives the same quotient. A prefix of zero takes every
/// address of the family.
pub proof fn law_net_contains_is_prefix_match(net: IpNet, ip: IpAddress)
    requires
        net.wf(),
    ensures
        net_contains(net, ip) <==> match (net.addr, ip) {
            (IpAddress::V4(n), IpAddress::V4(a)) => a as nat / vstd::arithmetic::power2::pow2(
                (32 - net.prefix) as nat,
            ) == n as nat / vstd::arithmetic::power2::pow2((32 - net.prefix) as nat),
            (IpAddress::V6(n), IpAddress::V6(a)) => a as nat / vstd::arithmetic::power2::pow2(
                (128 - net.prefix) as nat,
            ) == n as nat / vstd::arithmetic::power2::pow2((128 - net.prefix) as nat),
            _ => false,
        },
{
    vstd::arithmetic::power2::lemma2_to64();
    match (net.addr, ip) {
        (IpAddress::V4(n), IpAddress::V4(a)) => {
            if net.prefix == 0 {
                assert(vstd::arithmetic::power2::pow2(32) == 0x1_0000_0000);
                vstd::arithmetic::div_mod::lemma_basic_div(a as int, 0x1_0000_0000);
                vstd::arithmetic::div_mod::lemma_basic_div(n as int, 0x1_0000_0000);
            } else {
                let shift: u32 = (32 - net.prefix) as u32;
                vstd::bits::lemma_u32_shr_is_div(n, shift);
                vstd::bits::lemma_u32_shr_is_div(a, shift);
            }
        },
        (IpAddress::V6(n), IpAddress::V6(a)) => {
            if net.prefix == 0 {
                vstd::arithmetic::power2::lemma_pow2_adds(64, 64);
                let m: int = vstd::arithmetic::power2::pow2(128) as int;
                assert(m == 0x1_0000_0000_0000_0000 * 0x1_0000_0000_0000_0000);
                assert(m == 0x1_0000_0000_0000_0000_0000_0000_0000_0000);
                vstd::arithmetic::div_mod::lemma_basic_div(a as int, m);
                vstd::arithmetic::div_mod::lemma_basic_div(n as int, m);
            } else {
                let shift: u128 = (128 - net.prefix) as u128;
                vstd::bits::lemma_u128_shr_is_div(n, shift);
                vstd::bits::lemma_u128_shr_is_div(a, shift);
            }
        },
        _ => {},
    }
}

proof fn lemma_coarser_quotients_agree(x: nat, y: nat, e: nat, f: nat)
    requires
        x / vstd::arithmetic::power2::pow2(e) == y / vstd::arithmetic::power2::pow2(e),
    ensures
        x / vstd::arithmetic::power2::pow2(e + f) == y / vstd::arithmetic::power2::pow2(e + f),
{
    vstd::arithmetic::power2::lemma_pow2_pos(e);
    vstd::arithmetic::power2::lemma_pow2_pos(f);
    vstd::arithmetic::power2::lemma_pow2_adds(e, f);
    let c: int = vstd::arithmetic::power2::pow2(e) as int;
    let d: int = vstd::arithmetic::power2::pow2(f) as int;
    vstd::arithmetic::div_mod::lemma_div_denominator(x as int, c, d);
    vstd::arithmetic::div_mod::lemma_div_denominator(y as int, c, d);
}

/// A network holds its own address, and an address in a network stays in
/// every network with the same address and a shorter prefix.
pub proof fn law_shorter_prefix_holds_more(net: IpNet, shorter: u8, ip: IpAddress)
    requires
        net.wf(),
        shorter <= net.prefix,
    ensures
        net_contains(net, net.addr),
        net_contains(net, ip) ==> net_contains(IpNet { addr: net.addr, prefix: shorter }, ip),
{
    let wide = IpNet { addr: net.addr, prefix: shorter };
    law_net_contains_is_prefix_match(net, net.addr);
    law_net_contains_is_prefix_match(net, ip);
    law_net_contains_is_prefix_match(wide, ip);
    if net_contains(net, ip) {
        match (net.addr, ip) {
            (IpAddress::V4(n), IpAddress::V4(a)) => {
                lemma_coarser_quotients_agree(
                    a as nat,
                    n as nat,
                    (32 - net.prefix) as nat,
                    (net.prefix - shorter) as nat,
                );
            },
            (IpAddress::V6(n), IpAddress::V6(a)) => {
                lemma_coarser_quotients_agree(
                    a as nat,
                    n as nat,
                    (128 - net.prefix) as nat,
                    (net.prefix - shorter) as nat,
                );
            },
            _ => {},
        }
    }
}

/// What `str::parse::<ipnetwork::IpNetwork>` gives for a text: the network it
/// reads, or `None` where the text is no network.
pub uninterp spec fn ip_network_from_str(s: Seq<char>) -> Option<IpNet>;

/// Reads a network (`a.b.c.d/len`, `a.b.c.d/mask`, a bare address, or their
/// IPv6 forms) with `ipnetwork::IpNetwork`'s `FromStr`. The crate refuses a
/// prefix longer than the address, so a network it returns is well formed.
#[verifier::external_body]
pub(crate) fn parse_ip_network(s: &str) -> (res: Option<IpNet>)
    ensures
        res == ip_network_from_str(s@),
        res matches Some(n) ==> n.wf(),
{
    match s.parse::<ipnetwork::IpNetwork>() {
        Ok(ipnetwork::IpNetwork::V4(n)) => Some(IpNet { addr: IpAddress::V4(u32::from(n.ip())), prefix: n.prefix() }),
        Ok(ipnetwork::IpNetwork::V6(n)) => Some(IpNet { addr: IpAddress::V6(u128::from(n.ip())), prefix: n.prefix() }),
        Err(_) => None,
    }
}

} // verus!
