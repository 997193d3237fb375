//! The target of a proxied connection: a socket address, or a domain name
//! with a port.
use crate::net::{
    ip_text, ip_to_string, parse_socket_address, prints_back, socket_address_from_str, socket_text,
    socket_to_string, SocketAddress,
};
use crate::text::{chars_of, decimal, parse_u16, parse_u16_spec, push_char, push_decimal, push_str, str_equal, string_from_chars};
use vstd::prelude::*;

verus! {

/// Where a connection should go.
#[derive(Debug, Clone, PartialEq)]
pub enum Endpoint {
    Addr(SocketAddress),
    Domain(String, u16),
}

/// The view of an endpoint: the address, or the domain's characters and the port.
pub enum EndpointView {
    Addr(SocketAddress),
    Domain(Seq<char>, u16),
}

impl View for Endpoint {
    type V = EndpointView;

    open spec fn view(&self) -> EndpointView {
        match self {
            Endpoint::Addr(a) => EndpointView::Addr(*a),
            Endpoint::Domain(d, p) => EndpointView::Domain(d@, *p),
        }
    }
}

/// Why a text is no endpoint.
#[derive(Debug, Clone, Copy, PartialEq, Eq, Structural)]
pub enum EndpointParseError {
    InvalidFormat,
    InvalidPort,
}

/// The position of the last `c` in `s`, or -1.
pub open spec fn rfind(s: Seq<char>, c: char) -> int
    decreases s.len(),
{
    if s.len() == 0 {
        -1
    } else if s.last() == c {
        s.len() - 1
    } else {
        rfind(s.drop_last(), c)
    }
}

/// How a text that is no socket address reads as a domain and a port: split
/// at the last `:`, the part after it being the port.
pub open spec fn domain_from_str(s: Seq<char>) -> Result<EndpointView, EndpointParseError> {
    let i = rfind(s, ':');
    if i < 0 {
        Err(EndpointParseError::InvalidFormat)
    } else {
        match parse_u16_spec(s.subrange(i + 1, s.len() as int)) {
            Some(port) => Ok(EndpointView::Domain(s.subrange(0, i), port)),
            None => Err(EndpointParseError::InvalidPort),
        }
    }
}

/// Appending text without `c` leaves the last `c` where it was.
proof fn lemma_rfind_append(s: Seq<char>, t: Seq<char>, c: char)
    requires
        forall|i: int| 0 <= i < t.len() ==> t[i] != c,
    ensures
        rfind(s + t, c) == rfind(s, c),
    decreases t.len(),
{
    if t.len() > 0 {
        assert((s + t).drop_last() =~= s + t.drop_last());
        lemma_rfind_append(s, t.drop_last(), c);
    } else {
        assert(s + t =~= s);
    }
}

/// A domain endpoint's text reads back as the same endpoint, where the
/// text does not read as a socket address (a domain such as `1.2.3.4`
/// would): the port follows the last `:`, and a decimal port has none.
pub proof fn law_domain_endpoint_text_reads_back(d: Seq<char>, p: u16)
    requires
        socket_address_from_str(endpoint_text(EndpointView::Domain(d, p))) is None,
    ensures
        endpoint_from_str(endpoint_text(EndpointView::Domain(d, p))) == Ok::<EndpointView, EndpointParseError>(
            EndpointView::Domain(d, p),
        ),
{
    let digits = decimal(p as nat);
    let t = d + seq![':'] + digits;
    crate::text::lemma_decimal_reads_back(p as nat);
    crate::text::lemma_decimal_parses_as_u16(p);
    assert forall|i: int| 0 <= i < digits.len() implies digits[i] != ':' by {
        assert(crate::text::is_digit(digits[i]));
    }
    lemma_rfind_append(d + seq![':'], digits, ':');
    assert((d + seq![':']).drop_last() =~= d);
    assert(rfind(d + seq![':'], ':') == d.len());
    assert(t.subrange(d.len() as int + 1, t.len() as int) =~= digits);
    assert(t.subrange(0, d.len() as int) =~= d);
}

/// Whether an endpoint's text reads back as the endpoint: a socket address
/// that prints back, or a domain whose text does not read as a socket
/// address (a domain such as `1.2.3.4` does).
pub open spec fn reads_back(e: EndpointView) -> bool {
    match e {
        EndpointView::Addr(a) => prints_back(a),
        EndpointView::Domain(_, _) => socket_address_from_str(endpoint_text(e)) is None,
    }
}

/// How a text reads as an endpoint, given what it reads as a socket address.
pub open spec fn endpoint_from_parts(s: Seq<char>, addr: Option<SocketAddress>) -> Result<
    EndpointView,
    EndpointParseError,
> {
    match addr {
        Some(a) => Ok(EndpointView::Addr(a)),
        None => domain_from_str(s),
    }
}

/// How a text reads as an endpoint: a socket address where it is one, else
/// a domain and a port.
pub open spec fn endpoint_from_str(s: Seq<char>) -> Result<EndpointView, EndpointParseError> {
    endpoint_from_parts(s, socket_address_from_str(s))
}

/// The text of an endpoint: the socket address, or `domain:port`.
pub open spec fn endpoint_text(e: EndpointView) -> Seq<char> {
    match e {
        EndpointView::Addr(a) => socket_text(a),
        EndpointView::Domain(d, p) => d + seq![':'] + decimal(p as nat),
    }
}

/// The host of an endpoint: the IP address's text, or the domain.
pub open spec fn endpoint_hostname(e: EndpointView) -> Seq<char> {
    match e {
        EndpointView::Addr(a) => ip_text(a.spec_ip()),
        EndpointView::Domain(d, _) => d,
    }
}

/// The port of an endpoint.
pub open spec fn endpoint_port(e: EndpointView) -> u16 {
    match e {
        EndpointView::Addr(a) => a.spec_port(),
        EndpointView::Domain(_, p) => p,
    }
}

fn rfind_exec(s: &Vec<char>, c: char) -> (res: Option<usize>)
    ensures
        match res {
            Some(i) => i as int == rfind(s@, c) && i < s@.len(),
            None => rfind(s@, c) == -1,
        },
{
    let mut i: usize = s.len();
    proof {
        assert(s@.take(i as int) =~= s@);
    }
    while i > 0
        invariant
            i <= s.len(),
            rfind(s@, c) == rfind(s@.take(i as int), c),
        decreases i,
    {
        proof {
            assert(s@.take(i as int).drop_last() =~= s@.take(i - 1));
            assert(s@.take(i as int).last() == s@[i - 1]);
        }
        if s[i - 1] == c {
            return Some(i - 1);
        }
        i = i - 1;
    }
    None
}

impl Endpoint {
    pub fn new_from_domain(domain: &str, port: u16) -> (res: Self)
        ensures
            res@ == EndpointView::Domain(domain@, port),
    {
        Endpoint::Domain(domain.to_owned(), port)
    }

    pub fn new_from_addr(addr: SocketAddress) -> (res: Self)
        ensures
            res@ == EndpointView::Addr(addr),
    {
        Endpoint::Addr(addr)
    }

    /// The host: the text of the IP address, or the domain.
    pub fn hostname(&self) -> (res: String)
        ensures
            res@ == endpoint_hostname(self@),
    {
        match self {
            Endpoint::Addr(addr) => ip_to_string(addr.ip()),
            Endpoint::Domain(d, _) => d.clone(),
        }
    }

    /// The port.
    pub fn port(&self) -> (res: u16)
        ensures
            res == endpoint_port(self@),
    {
        match self {
            Endpoint::Addr(addr) => addr.port(),
            Endpoint::Domain(_, p) => *p,
        }
    }

    /// The text of the endpoint: the socket address, or `domain:port`.
    pub fn to_string(&self) -> (res: String)
        ensures
            res@ == endpoint_text(self@),
    {
        match self {
            Endpoint::Addr(addr) => socket_to_string(*addr),
            Endpoint::Domain(d, p) => {
                let mut s = String::new();
                push_str(&mut s, d.as_str());
                push_char(&mut s, ':');
                push_decimal(&mut s, *p as u64);
                proof {
                    assert(s@ =~= endpoint_text(self@));
                }
                s
            },
        }
    }

    /// A copy of the endpoint.
    pub fn duplicate(&self) -> (res: Endpoint)
        ensures
            res@ == self@,
    {
        match self {
            Endpoint::Addr(a) => Endpoint::Addr(*a),
            Endpoint::Domain(d, p) => Endpoint::Domain(d.clone(), *p),
        }
    }

    /// Whether two endpoints are the same.
    pub fn equals(&self, other: &Endpoint) -> (res: bool)
        ensures
            res == (self@ == other@),
    {
        match (self, other) {
            (Endpoint::Addr(a), Endpoint::Addr(b)) => *a == *b,
            (Endpoint::Domain(d1, p1), Endpoint::Domain(d2, p2)) => *p1 == *p2 && str_equal(
                d1.as_str(),
                d2.as_str(),
            ),
            _ => false,
        }
    }

    /// Reads an endpoint from a text, given what the text reads as a socket
    /// address: that address where there is one, else the text split at its
    /// last `:` into a domain and a port.
    pub fn from_parsed(value: &str, addr: Option<SocketAddress>) -> (res: Result<
        Endpoint,
        EndpointParseError,
    >)
        ensures
            match (res, endpoint_from_parts(value@, addr)) {
                (Ok(e), Ok(v)) => e@ == v,
                (Err(e1), Err(e2)) => e1 == e2,
                _ => false,
            },
    {
        if let Some(a) = addr {
            return Ok(Endpoint::Addr(a));
        }
        let cs = chars_of(value);
        match rfind_exec(&cs, ':') {
            None => Err(EndpointParseError::InvalidFormat),
            Some(i) => {
                let port_chars = vstd::slice::slice_subrange(cs.as_slice(), i + 1, cs.len());
                match parse_u16(port_chars) {
                    None => Err(EndpointParseError::InvalidPort),
                    Some(port) => {
                        let host = string_from_chars(vstd::slice::slice_subrange(cs.as_slice(), 0, i));
                        Ok(Endpoint::Domain(host, port))
                    },
                }
            },
        }
    }

    /// Reads an endpoint from a text: a socket address where the text is one,
    /// else a domain and a port split at the last `:`.
    pub fn parse(value: &str) -> (res: Result<Endpoint, EndpointParseError>)
        ensures
            match (res, endpoint_from_str(value@)) {
                (Ok(e), Ok(v)) => e@ == v,
                (Err(e1), Err(e2)) => e1 == e2,
                _ => false,
            },
            forall|e: EndpointView|
                #[trigger] endpoint_text(e) == value@ && reads_back(e) ==> (res matches Ok(r) && r@ == e),
    {
        let addr = parse_socket_address(value);
        let res = Endpoint::from_parsed(value, addr);
        proof {
            assert forall|e: EndpointView|
                #[trigger] endpoint_text(e) == value@ && reads_back(e) implies (res matches Ok(r) && r@ == e) by {
                match e {
                    EndpointView::Addr(a) => {
                        assert(socket_text(a) == value@);
                    },
                    EndpointView::Domain(d, p) => {
                        law_domain_endpoint_text_reads_back(d, p);
                    },
                }
            }
        }
        res
    }
}

} // verus!
