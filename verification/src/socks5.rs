//! The server side of the SOCKS5 handshake (RFC 1928, no authentication,
//! CONNECT only), as a machine that is fed the bytes it asked for and says
//! what to read or write next.
use crate::endpoint::{Endpoint, EndpointView};
use crate::net::{IpAddress, SocketAddress};
use vstd::prelude::*;
use vstd::utf8::{decode_utf8, valid_utf8};

verus! {

/// `String::from_utf8`: the string that the bytes encode, or `None` where
/// they are no UTF-8.
#[verifier::external_body]
fn string_from_utf8(bytes: Vec<u8>) -> (res: Option<String>)
    ensures
        res is Some <==> valid_utf8(bytes@),
        res matches Some(s) ==> s@ == decode_utf8(bytes@),
{
    String::from_utf8(bytes).ok()
}

/// The SOCKS5 acceptor: runs the server side of the handshake.
#[derive(Clone, Debug)]
pub struct Socks5Acceptor {}

/// Why a SOCKS5 handshake was refused.
#[derive(Clone, Copy, Debug, PartialEq, Eq, Structural)]
pub enum Socks5Error {
    /// The client speaks another version than 5.
    UnsupportedVersion(u8),
    /// The greeting offers no authentication method at all.
    NoAuthMethods,
    /// The greeting does not offer "no authentication".
    NoAuthNotRequested,
    /// The request is not CONNECT (command 1).
    UnsupportedCommand(u8),
    /// The address type is none of 1 (IPv4), 3 (domain), 4 (IPv6).
    UnsupportedAddressType(u8),
    /// The domain is not UTF-8.
    InvalidDomain,
}

/// What the handshake is waiting for.
#[derive(Debug)]
pub enum Socks5Stage {
    /// Version and method count.
    Hello,
    /// The offered methods.
    Methods,
    /// Version, command, reserved byte, address type.
    Request,
    /// Four bytes of an IPv4 address.
    Ipv4,
    /// The length byte of a domain.
    DomainLength,
    /// The bytes of a domain.
    Domain,
    /// Sixteen bytes of an IPv6 address.
    Ipv6,
    /// The two port bytes, for an IP address.
    PortForIp(IpAddress),
    /// The two port bytes, for a domain.
    PortForDomain(String),
    /// The endpoint has been read.
    Done,
}

/// What the driver should do next.
#[derive(Debug)]
pub enum Socks5Action {
    /// Read exactly this many bytes and feed them back.
    Read(usize),
    /// Write these bytes, then read exactly this many and feed them back.
    WriteThenRead(Vec<u8>, usize),
    /// The client asks to be connected to this endpoint; after connecting,
    /// write `SOCKS5_SUCCESS_REPLY`.
    Connect(Endpoint),
}

/// The reply that grants "no authentication".
pub open spec fn method_reply() -> Seq<u8> {
    seq![5u8, 0u8]
}

/// The success reply sent once the connection is made: version 5,
/// succeeded, reserved, IPv4, address 0.0.0.0, port 0.
pub open spec fn success_reply() -> Seq<u8> {
    seq![5u8, 0u8, 0u8, 1u8, 0u8, 0u8, 0u8, 0u8, 0u8, 0u8]
}

/// The big-endian value of bytes.
pub open spec fn be_value(b: Seq<u8>) -> nat
    decreases b.len(),
{
    if b.len() == 0 {
        0
    } else {
        be_value(b.drop_last()) * 256 + b.last() as nat
    }
}

/// The number of bytes a stage expects.
pub open spec fn expected_len(stage: Socks5Stage, methods: nat, domain: nat) -> nat {
    match stage {
        Socks5Stage::Hello => 2,
        Socks5Stage::Methods => methods,
        Socks5Stage::Request => 4,
        Socks5Stage::Ipv4 => 4,
        Socks5Stage::DomainLength => 1,
        Socks5Stage::Domain => domain,
        Socks5Stage::Ipv6 => 16,
        Socks5Stage::PortForIp(_) => 2,
        Socks5Stage::PortForDomain(_) => 2,
        Socks5Stage::Done => 0,
    }
}

/// The server side of one SOCKS5 handshake.
pub struct Socks5Handshake {
    stage: Socks5Stage,
    expected: usize,
}

/// The value of four bytes, big-endian.
fn be_u32(b: &[u8]) -> (res: u32)
    requires
        b@.len() == 4,
    ensures
        res == be_value(b@),
{
    proof {
        let s0 = b@.drop_last().drop_last().drop_last().drop_last();
        let s1 = b@.drop_last().drop_last().drop_last();
        let s2 = b@.drop_last().drop_last();
        let s3 = b@.drop_last();
        assert(s0.len() == 0);
        assert(be_value(s0) == 0);
        assert(be_value(s1) == b@[0] as nat);
        assert(be_value(s2) == b@[0] as nat * 256 + b@[1] as nat);
        assert(be_value(s3) == (b@[0] as nat * 256 + b@[1] as nat) * 256 + b@[2] as nat);
        assert(be_value(b@) == ((b@[0] as nat * 256 + b@[1] as nat) * 256 + b@[2] as nat) * 256
            + b@[3] as nat);
    }
    ((b[0] as u32) * 0x1000000) + ((b[1] as u32) * 0x10000) + ((b[2] as u32) * 0x100) + (b[3] as u32)
}

fn be_u128(b: &[u8]) -> (res: u128)
    requires
        b@.len() == 16,
    ensures
        res == be_value(b@),
{
    let mut v: u128 = 0;
    let mut i: usize = 0;
    while i < 16
        invariant
            i <= 16,
            b@.len() == 16,
            v == be_value(b@.take(i as int)),
            v < pow256(i as nat),
        decreases 16 - i,
    {
        proof {
            assert(b@.take(i + 1).drop_last() =~= b@.take(i as int));
            assert(b@.take(i + 1).last() == b@[i as int]);
            lemma_pow256_step(i as nat);
            assert(pow256(i as nat) <= pow256(15)) by {
                lemma_pow256_mono(i as nat, 15);
            }
            lemma_pow256_15();
            assert(pow256(15) == 1329227995784915872903807060280344576);
            assert(v * 256 + b@[i as int] < pow256(i as nat) * 256) by (nonlinear_arith)
                requires v < pow256(i as nat), b@[i as int] < 256;
        }
        v = v * 256 + (b[i] as u128);
        i = i + 1;
    }
    proof {
        assert(b@.take(16) =~= b@);
    }
    v
}

/// 256 to the power `n`.
pub open spec fn pow256(n: nat) -> nat
    decreases n,
{
    if n == 0 {
        1
    } else {
        pow256((n - 1) as nat) * 256
    }
}

proof fn lemma_pow256_step(n: nat)
    ensures
        pow256(n + 1) == pow256(n) * 256,
{
}

proof fn lemma_pow256_mono(a: nat, b: nat)
    requires
        a <= b,
    ensures
        pow256(a) <= pow256(b),
    decreases b,
{
    if a < b {
        lemma_pow256_mono(a, (b - 1) as nat);
    }
}

proof fn lemma_pow256_15()
    ensures
        pow256(15) == 1329227995784915872903807060280344576,
{
    assert(pow256(0) == 1);
    assert(pow256(1) == 256);
    assert(pow256(2) == 65536);
    assert(pow256(3) == 16777216);
    assert(pow256(4) == 4294967296);
    assert(pow256(5) == 1099511627776);
    assert(pow256(6) == 281474976710656);
    assert(pow256(7) == 72057594037927936);
    assert(pow256(8) == 18446744073709551616);
    assert(pow256(9) == 4722366482869645213696);
    assert(pow256(10) == 1208925819614629174706176);
    assert(pow256(11) == 309485009821345068724781056);
    assert(pow256(12) == 79228162514264337593543950336);
    assert(pow256(13) == 20282409603651670423947251286016);
    assert(pow256(14) == 5192296858534827628530496329220096);
    assert(pow256(15) == 1329227995784915872903807060280344576);
}

impl Socks5Handshake {
    /// A handshake that waits for the greeting's first two bytes.
    pub fn new() -> (res: Self)
        ensures
            res.wf(),
            res.stage() is Hello,
            res.expected() == 2,
    {
        Socks5Handshake { stage: Socks5Stage::Hello, expected: 2 }
    }

    /// The number of bytes awaited fits the stage.
    pub closed spec fn wf(&self) -> bool {
        match self.stage {
            Socks5Stage::Hello => self.expected == 2,
            Socks5Stage::Request => self.expected == 4,
            Socks5Stage::Ipv4 => self.expected == 4,
            Socks5Stage::DomainLength => self.expected == 1,
            Socks5Stage::Ipv6 => self.expected == 16,
            Socks5Stage::PortForIp(_) => self.expected == 2,
            Socks5Stage::PortForDomain(_) => self.expected == 2,
            Socks5Stage::Done => self.expected == 0,
            _ => true,
        }
    }

    /// Takes the current stage out, leaving the handshake finished.
    fn take_stage(&mut self) -> (res: Socks5Stage)
        ensures
            res == old(self).stage,
            final(self).stage is Done,
            final(self).expected == 0,
    {
        let res = match &self.stage {
            Socks5Stage::Hello => Socks5Stage::Hello,
            Socks5Stage::Methods => Socks5Stage::Methods,
            Socks5Stage::Request => Socks5Stage::Request,
            Socks5Stage::Ipv4 => Socks5Stage::Ipv4,
            Socks5Stage::DomainLength => Socks5Stage::DomainLength,
            Socks5Stage::Domain => Socks5Stage::Domain,
            Socks5Stage::Ipv6 => Socks5Stage::Ipv6,
            Socks5Stage::PortForIp(ip) => Socks5Stage::PortForIp(*ip),
            Socks5Stage::PortForDomain(d) => Socks5Stage::PortForDomain(d.clone()),
            Socks5Stage::Done => Socks5Stage::Done,
        };
        self.stage = Socks5Stage::Done;
        self.expected = 0;
        res
    }

    pub closed spec fn stage(&self) -> Socks5Stage {
        self.stage
    }

    pub closed spec fn expected(&self) -> nat {
        self.expected as nat
    }

    /// Whether the handshake has ended: the endpoint was read, or it was
    /// refused.
    pub fn is_done(&self) -> (res: bool)
        ensures
            res == self.stage() is Done,
    {
        match &self.stage {
            Socks5Stage::Done => true,
            _ => false,
        }
    }

    /// How many bytes the handshake waits for.
    pub fn bytes_wanted(&self) -> (res: usize)
        ensures
            res == self.expected(),
    {
        self.expected
    }

    /// Feeds the bytes that were asked for and returns what to do next, or
    /// why the handshake is refused.
    pub fn feed(&mut self, input: &[u8]) -> (res: Result<Socks5Action, Socks5Error>)
        requires
            old(self).wf(),
            input@.len() == old(self).expected(),
            !(old(self).stage() is Done),
        ensures
            final(self).wf(),
            res is Err ==> final(self).stage() is Done,
            match old(self).stage() {
                Socks5Stage::Hello => if input@[0] != 5 {
                    res == Err::<Socks5Action, Socks5Error>(Socks5Error::UnsupportedVersion(input@[0]))
                } else if input@[1] == 0 {
                    res == Err::<Socks5Action, Socks5Error>(Socks5Error::NoAuthMethods)
                } else {
                    res matches Ok(Socks5Action::Read(n)) && n == input@[1] && final(self).stage() is Methods
                        && final(self).expected() == n
                },
                Socks5Stage::Methods => if input@.contains(0u8) {
                    res matches Ok(Socks5Action::WriteThenRead(w, n)) && w@ == method_reply()
                        && n == 4 && final(self).stage() is Request && final(self).expected() == 4
                } else {
                    res == Err::<Socks5Action, Socks5Error>(Socks5Error::NoAuthNotRequested)
                },
                Socks5Stage::Request => if input@[0] != 5 {
                    res == Err::<Socks5Action, Socks5Error>(Socks5Error::UnsupportedVersion(input@[0]))
                } else if input@[1] != 1 {
                    res == Err::<Socks5Action, Socks5Error>(Socks5Error::UnsupportedCommand(input@[1]))
                } else if input@[3] == 1 {
                    res matches Ok(Socks5Action::Read(n)) && n == 4 && final(self).stage() is Ipv4
                        && final(self).expected() == 4
                } else if input@[3] == 3 {
                    res matches Ok(Socks5Action::Read(n)) && n == 1 && final(self).stage() is DomainLength
                        && final(self).expected() == 1
                } else if input@[3] == 4 {
                    res matches Ok(Socks5Action::Read(n)) && n == 16 && final(self).stage() is Ipv6
                        && final(self).expected() == 16
                } else {
                    res == Err::<Socks5Action, Socks5Error>(Socks5Error::UnsupportedAddressType(input@[3]))
                },
                Socks5Stage::Ipv4 => res matches Ok(Socks5Action::Read(n)) && n == 2
                    && final(self).stage() == Socks5Stage::PortForIp(IpAddress::V4(be_value(input@) as u32))
                    && final(self).expected() == 2,
                Socks5Stage::Ipv6 => res matches Ok(Socks5Action::Read(n)) && n == 2
                    && final(self).stage() == Socks5Stage::PortForIp(IpAddress::V6(be_value(input@) as u128))
                    && final(self).expected() == 2,
                Socks5Stage::DomainLength => res matches Ok(Socks5Action::Read(n)) && n == input@[0]
                    && final(self).stage() is Domain && final(self).expected() == n,
                Socks5Stage::Domain => if valid_utf8(input@) {
                    &&& res matches Ok(Socks5Action::Read(n)) && n == 2
                    &&& final(self).stage() matches Socks5Stage::PortForDomain(d) && d@ == decode_utf8(input@)
                    &&& final(self).expected() == 2
                } else {
                    res == Err::<Socks5Action, Socks5Error>(Socks5Error::InvalidDomain)
                },
                Socks5Stage::PortForIp(ip) => res matches Ok(Socks5Action::Connect(e))
                    && e@ == EndpointView::Addr(SocketAddress::new_spec(ip, be_value(input@) as u16))
                    && final(self).stage() is Done && final(self).expected() == 0,
                Socks5Stage::PortForDomain(d) => res matches Ok(Socks5Action::Connect(e))
                    && e@ == EndpointView::Domain(d@, be_value(input@) as u16)
                    && final(self).stage() is Done && final(self).expected() == 0,
                Socks5Stage::Done => false,
            },
    {
        let stage = self.take_stage();
        match stage {
            Socks5Stage::Hello => {
                if input[0] != 5 {
                    return Err(Socks5Error::UnsupportedVersion(input[0]));
                }
                if input[1] == 0 {
                    return Err(Socks5Error::NoAuthMethods);
                }
                self.stage = Socks5Stage::Methods;
                self.expected = input[1] as usize;
                Ok(Socks5Action::Read(input[1] as usize))
            },
            Socks5Stage::Methods => {
                if offers_no_auth(input) {
                    self.stage = Socks5Stage::Request;
                    self.expected = 4;
                    Ok(Socks5Action::WriteThenRead(socks5_method_reply(), 4))
                } else {
                    Err(Socks5Error::NoAuthNotRequested)
                }
            },
            Socks5Stage::Request => {
                if input[0] != 5 {
                    return Err(Socks5Error::UnsupportedVersion(input[0]));
                }
                if input[1] != 1 {
                    return Err(Socks5Error::UnsupportedCommand(input[1]));
                }
                if input[3] == 1 {
                    self.stage = Socks5Stage::Ipv4;
                    self.expected = 4;
                    Ok(Socks5Action::Read(4))
                } else if input[3] == 3 {
                    self.stage = Socks5Stage::DomainLength;
                    self.expected = 1;
                    Ok(Socks5Action::Read(1))
                } else if input[3] == 4 {
                    self.stage = Socks5Stage::Ipv6;
                    self.expected = 16;
                    Ok(Socks5Action::Read(16))
                } else {
                    Err(Socks5Error::UnsupportedAddressType(input[3]))
                }
            },
            Socks5Stage::Ipv4 => {
                let a = be_u32(input);
                self.stage = Socks5Stage::PortForIp(IpAddress::V4(a));
                self.expected = 2;
                Ok(Socks5Action::Read(2))
            },
            Socks5Stage::Ipv6 => {
                let a = be_u128(input);
                self.stage = Socks5Stage::PortForIp(IpAddress::V6(a));
                self.expected = 2;
                Ok(Socks5Action::Read(2))
            },
            Socks5Stage::DomainLength => {
                self.stage = Socks5Stage::Domain;
                self.expected = input[0] as usize;
                Ok(Socks5Action::Read(input[0] as usize))
            },
            Socks5Stage::Domain => {
                let bytes = vstd::slice::slice_to_vec(input);
                match string_from_utf8(bytes) {
                    Some(d) => {
                        self.stage = Socks5Stage::PortForDomain(d);
                        self.expected = 2;
                        Ok(Socks5Action::Read(2))
                    },
                    None => Err(Socks5Error::InvalidDomain),
                }
            },
            Socks5Stage::PortForIp(ip) => {
                let port = be_u16(input);
                Ok(Socks5Action::Connect(Endpoint::new_from_addr(SocketAddress::new(ip, port))))
            },
            Socks5Stage::PortForDomain(d) => {
                let port = be_u16(input);
                Ok(Socks5Action::Connect(Endpoint::Domain(d, port)))
            },
            Socks5Stage::Done => Err(Socks5Error::InvalidDomain),
        }
    }
}

/// Whether the offered methods include "no authentication" (0).
fn offers_no_auth(methods: &[u8]) -> (res: bool)
    ensures
        res == methods@.contains(0u8),
{
    let mut i: usize = 0;
    while i < methods.len()
        invariant
            i <= methods@.len(),
            forall|j: int| 0 <= j < i ==> methods@[j] != 0,
        decreases methods.len() - i,
    {
        if methods[i] == 0 {
            proof {
                assert(methods@[i as int] == 0);
            }
            return true;
        }
        i = i + 1;
    }
    false
}

fn be_u16(b: &[u8]) -> (res: u16)
    requires
        b@.len() == 2,
    ensures
        res == be_value(b@),
{
    proof {
        let s0 = b@.drop_last().drop_last();
        assert(s0.len() == 0);
        assert(be_value(s0) == 0);
        assert(be_value(b@.drop_last()) == b@[0] as nat);
        assert(be_value(b@) == b@[0] as nat * 256 + b@[1] as nat);
    }
    ((b[0] as u16) * 256) + (b[1] as u16)
}

/// The reply that grants "no authentication".
pub fn socks5_method_reply() -> (res: Vec<u8>)
    ensures
        res@ == method_reply(),
{
    vec![5u8, 0u8]
}

/// The reply sent once the connection to the endpoint is made.
pub fn socks5_success_reply() -> (res: Vec<u8>)
    ensures
        res@ == success_reply(),
{
    vec![5u8, 0u8, 0u8, 1u8, 0u8, 0u8, 0u8, 0u8, 0u8, 0u8]
}

} // verus!
