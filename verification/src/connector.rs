//! The decisions of the simple connectors: the blocking connector's
//! refusal, the attempts a direct TCP connection races, the attempts a
//! QUIC connection makes, and the connection pool that hands out pre-opened
//! connections to one endpoint.
use crate::endpoint::{endpoint_text, Endpoint, EndpointView};
use crate::net::{socket_text, socket_to_string, IpAddress, SocketAddress};
use crate::text::push_str;
use std::collections::VecDeque;
use vstd::prelude::*;

verus! {

/// Refuses every connection.
#[derive(Clone, Debug, Default)]
pub struct BlockConnector {}

/// The refusal message of the blocking connector.
pub open spec fn blocked_message(e: EndpointView) -> Seq<char> {
    "Connection to "@ + endpoint_text(e) + " blocked"@
}

impl BlockConnector {
    /// Refuses the connection, saying which endpoint was blocked.
    pub fn connect(&self, endpoint: &Endpoint) -> (res: Result<(), String>)
        ensures
            res matches Err(m) && m@ == blocked_message(endpoint@),
    {
        let mut m = String::new();
        push_str(&mut m, "Connection to ");
        let t = endpoint.to_string();
        push_str(&mut m, t.as_str());
        push_str(&mut m, " blocked");
        Err(m)
    }
}

/// Connects directly over TCP.
#[derive(Clone, Debug, Default)]
pub struct TcpConnector {}

/// Why a connector could not pick an address.
#[derive(Clone, Copy, Debug, PartialEq, Eq, Structural)]
pub enum ConnectError {
    /// The endpoint's domain resolved to no address.
    NoRecords,
    /// A pool was asked for another endpoint than the one it serves.
    WrongEndpoint,
}

/// The delay between the starts of two connection attempts (RFC 8305's
/// "Connection Attempt Delay").
pub const CONNECTION_ATTEMPT_DELAY_MS: u64 = 250;

/// One attempt of a direct connection: started `delay_ms` milliseconds
/// after the first, to `addr`.
#[derive(Clone, Copy, Debug, PartialEq, Eq, Structural)]
pub struct ConnectAttempt {
    pub delay_ms: u64,
    pub addr: SocketAddress,
}

/// The start of the `i`-th attempt: `i` attempt delays after the first
/// (the largest delay where that does not fit).
pub open spec fn attempt_delay(i: int) -> u64 {
    if CONNECTION_ATTEMPT_DELAY_MS * i <= u64::MAX {
        (CONNECTION_ATTEMPT_DELAY_MS * i) as u64
    } else {
        u64::MAX
    }
}

/// Whether two addresses are of the same family.
pub open spec fn same_family(a: SocketAddress, b: SocketAddress) -> bool {
    (a is V4) == (b is V4)
}

/// The two lists taken in turn, starting with `a`; the rest of the longer
/// one follows once the shorter is used up.
pub open spec fn interleave(a: Seq<SocketAddress>, b: Seq<SocketAddress>) -> Seq<SocketAddress>
    decreases a.len() + b.len(),
{
    if a.len() == 0 {
        b
    } else {
        seq![a[0]] + interleave(b, a.drop_first())
    }
}

/// The addresses of the first address's family, in order.
pub open spec fn first_family(r: Seq<SocketAddress>) -> Seq<SocketAddress> {
    r.filter(|x: SocketAddress| same_family(x, r[0]))
}

/// The addresses of the other family, in order.
pub open spec fn other_family(r: Seq<SocketAddress>) -> Seq<SocketAddress> {
    r.filter(|x: SocketAddress| !same_family(x, r[0]))
}

/// The order in which a direct connection tries the resolved addresses
/// (RFC 8305, section 4): the families alternate, starting with the
/// family of the resolver's first address, each family in the resolver's
/// order.
pub open spec fn attempt_order(r: Seq<SocketAddress>) -> Seq<SocketAddress> {
    if r.len() == 0 {
        r
    } else {
        interleave(first_family(r), other_family(r))
    }
}

proof fn lemma_interleave(a: Seq<SocketAddress>, b: Seq<SocketAddress>)
    ensures
        interleave(a, b).len() == a.len() + b.len(),
        forall|x: SocketAddress| a.contains(x) || b.contains(x) ==> #[trigger] interleave(a, b).contains(x),
    decreases a.len() + b.len(),
{
    if a.len() > 0 {
        lemma_interleave(b, a.drop_first());
        let rest = interleave(b, a.drop_first());
        assert forall|x: SocketAddress| a.contains(x) || b.contains(x) implies #[trigger] interleave(a, b).contains(
            x,
        ) by {
            if x == a[0] {
                assert(interleave(a, b)[0] == x);
            } else if a.contains(x) {
                let k = choose|k: int| 0 <= k < a.len() && a[k] == x;
                assert(a.drop_first()[k - 1] == x);
                assert(rest.contains(x));
                let m = choose|m: int| 0 <= m < rest.len() && rest[m] == x;
                assert(interleave(a, b)[m + 1] == x);
            } else {
                assert(rest.contains(x));
                let m = choose|m: int| 0 <= m < rest.len() && rest[m] == x;
                assert(interleave(a, b)[m + 1] == x);
            }
        }
    }
}

proof fn lemma_filter_split(r: Seq<SocketAddress>, p: spec_fn(SocketAddress) -> bool, q: spec_fn(SocketAddress) -> bool)
    requires
        forall|x: SocketAddress| #[trigger] q(x) == !p(x),
    ensures
        r.filter(p).len() + r.filter(q).len() == r.len(),
    decreases r.len(),
{
    reveal(Seq::filter);
    if r.len() > 0 {
        lemma_filter_split(r.drop_last(), p, q);
    }
}

/// A direct connection tries each resolved address: the attempt order has
/// as many addresses as were resolved, and every resolved address occurs
/// in it.
pub proof fn law_attempts_cover_resolved(r: Seq<SocketAddress>)
    ensures
        attempt_order(r).len() == r.len(),
        forall|i: int| 0 <= i < r.len() ==> #[trigger] attempt_order(r).contains(r[i]),
{
    broadcast use vstd::seq_lib::group_filter_ensures;
    if r.len() > 0 {
        let p = |x: SocketAddress| same_family(x, r[0]);
        let q = |x: SocketAddress| !same_family(x, r[0]);
        lemma_filter_split(r, p, q);
        lemma_interleave(first_family(r), other_family(r));
        assert forall|i: int| 0 <= i < r.len() implies #[trigger] attempt_order(r).contains(r[i]) by {
            if p(r[i]) {
                r.lemma_filter_contains(p, i);
            } else {
                r.lemma_filter_contains(q, i);
            }
        }
    }
}

/// The addresses of `r` of the family of `first` (`same` true) or of the
/// other family (`same` false), in order.
fn split_family(r: &Vec<SocketAddress>, first: SocketAddress, same: bool) -> (res: Vec<SocketAddress>)
    ensures
        same ==> res@ == r@.filter(|x: SocketAddress| same_family(x, first)),
        !same ==> res@ == r@.filter(|x: SocketAddress| !same_family(x, first)),
{
    let ghost pred = if same {
        |x: SocketAddress| same_family(x, first)
    } else {
        |x: SocketAddress| !same_family(x, first)
    };
    let first_v4 = match first {
        SocketAddress::V4 { .. } => true,
        _ => false,
    };
    let mut out: Vec<SocketAddress> = Vec::new();
    let mut i: usize = 0;
    proof {
        reveal(Seq::filter);
        assert(r@.take(0) =~= Seq::<SocketAddress>::empty());
    }
    while i < r.len()
        invariant
            i <= r@.len(),
            first_v4 == (first is V4),
            pred == (if same {
                |x: SocketAddress| same_family(x, first)
            } else {
                |x: SocketAddress| !same_family(x, first)
            }),
            out@ == r@.take(i as int).filter(pred),
        decreases r.len() - i,
    {
        let x = r[i];
        let x_v4 = match x {
            SocketAddress::V4 { .. } => true,
            _ => false,
        };
        proof {
            reveal(Seq::filter);
            assert(r@.take(i + 1).drop_last() =~= r@.take(i as int));
            assert(r@.take(i + 1).last() == x);
        }
        if (x_v4 == first_v4) == same {
            out.push(x);
        }
        i = i + 1;
    }
    proof {
        assert(r@.take(r@.len() as int) =~= r@);
    }
    out
}

/// `a` and `b` taken in turn, starting with `a`.
fn interleave_exec(a: &Vec<SocketAddress>, b: &Vec<SocketAddress>) -> (res: Vec<SocketAddress>)
    ensures
        res@ == interleave(a@, b@),
{
    let mut out: Vec<SocketAddress> = Vec::new();
    let mut i: usize = 0;
    let mut j: usize = 0;
    let mut turn_a = true;
    proof {
        assert(a@.skip(0) =~= a@);
        assert(b@.skip(0) =~= b@);
        assert(out@ + interleave(a@, b@) =~= interleave(a@, b@));
    }
    loop
        invariant
            i <= a@.len(),
            j <= b@.len(),
            turn_a ==> out@ + interleave(a@.skip(i as int), b@.skip(j as int)) == interleave(a@, b@),
            !turn_a ==> out@ + interleave(b@.skip(j as int), a@.skip(i as int)) == interleave(a@, b@),
        decreases a@.len() - i + b@.len() - j,
    {
        if turn_a {
            if i == a.len() {
                let mut k = j;
                proof {
                    assert(interleave(a@.skip(i as int), b@.skip(j as int)) == b@.skip(j as int));
                }
                while k < b.len()
                    invariant
                        j <= k <= b@.len(),
                        out@ + b@.skip(k as int) == interleave(a@, b@),
                    decreases b@.len() - k,
                {
                    proof {
                        assert(b@.skip(k as int) =~= seq![b@[k as int]] + b@.skip(k + 1));
                    }
                    out.push(b[k]);
                    k = k + 1;
                    proof {
                        assert(out@ + b@.skip(k as int) =~= interleave(a@, b@));
                    }
                }
                proof {
                    assert(b@.skip(k as int) =~= Seq::<SocketAddress>::empty());
                    assert(out@ =~= out@ + b@.skip(k as int));
                }
                return out;
            }
            proof {
                let x = a@.skip(i as int);
                assert(x.drop_first() =~= a@.skip(i + 1));
                assert(x[0] == a@[i as int]);
                assert(out@.push(a@[i as int]) + interleave(b@.skip(j as int), a@.skip(i + 1)) =~= out@
                    + interleave(x, b@.skip(j as int)));
            }
            out.push(a[i]);
            i = i + 1;
            turn_a = false;
        } else {
            if j == b.len() {
                let mut k = i;
                proof {
                    assert(interleave(b@.skip(j as int), a@.skip(i as int)) == a@.skip(i as int));
                }
                while k < a.len()
                    invariant
                        i <= k <= a@.len(),
                        out@ + a@.skip(k as int) == interleave(a@, b@),
                    decreases a@.len() - k,
                {
                    proof {
                        assert(a@.skip(k as int) =~= seq![a@[k as int]] + a@.skip(k + 1));
                    }
                    out.push(a[k]);
                    k = k + 1;
                    proof {
                        assert(out@ + a@.skip(k as int) =~= interleave(a@, b@));
                    }
                }
                proof {
                    assert(a@.skip(k as int) =~= Seq::<SocketAddress>::empty());
                    assert(out@ =~= out@ + a@.skip(k as int));
                }
                return out;
            }
            proof {
                let y = b@.skip(j as int);
                assert(y.drop_first() =~= b@.skip(j + 1));
                assert(y[0] == b@[j as int]);
                assert(out@.push(b@[j as int]) + interleave(a@.skip(i as int), b@.skip(j + 1)) =~= out@
                    + interleave(y, a@.skip(i as int)));
            }
            out.push(b[j]);
            j = j + 1;
            turn_a = true;
        }
    }
}

/// The resolved addresses in the order a direct connection tries them.
fn order_attempts(r: &Vec<SocketAddress>) -> (res: Vec<SocketAddress>)
    ensures
        res@ == attempt_order(r@),
{
    if r.len() == 0 {
        return Vec::new();
    }
    let first = r[0];
    let a = split_family(r, first, true);
    let b = split_family(r, first, false);
    interleave_exec(&a, &b)
}

impl TcpConnector {
    /// The attempts a direct connection races (Happy Eyeballs, RFC 8305):
    /// one to the endpoint's own address; or one to each address its
    /// domain resolved to (`resolved`), the address families alternating as
    /// `attempt_order` says, started one attempt delay apart, the first
    /// attempt that connects winning.
    pub fn connection_attempts(&self, endpoint: &Endpoint, resolved: &Vec<SocketAddress>) -> (res: Result<
        Vec<ConnectAttempt>,
        ConnectError,
    >)
        ensures
            match endpoint@ {
                EndpointView::Addr(a) => res matches Ok(v) && v@ == seq![ConnectAttempt { delay_ms: 0, addr: a }],
                EndpointView::Domain(_, _) => if resolved@.len() > 0 {
                    res matches Ok(v) && v@.len() == attempt_order(resolved@).len() && forall|i: int|
                        0 <= i < v@.len() ==> #[trigger] v@[i] == (ConnectAttempt {
                            delay_ms: attempt_delay(i),
                            addr: attempt_order(resolved@)[i],
                        })
                } else {
                    res matches Err(e) && e == ConnectError::NoRecords
                },
            },
    {
        match endpoint {
            Endpoint::Addr(a) => {
                let mut v: Vec<ConnectAttempt> = Vec::new();
                v.push(ConnectAttempt { delay_ms: 0, addr: *a });
                proof {
                    assert(v@ =~= seq![ConnectAttempt { delay_ms: 0, addr: *a }]);
                }
                Ok(v)
            },
            Endpoint::Domain(..) => {
                if resolved.len() == 0 {
                    return Err(ConnectError::NoRecords);
                }
                let ordered = order_attempts(resolved);
                let mut v: Vec<ConnectAttempt> = Vec::new();
                let mut delay: u64 = 0;
                let mut i: usize = 0;
                while i < ordered.len()
                    invariant
                        ordered@ == attempt_order(resolved@),
                        i <= ordered@.len(),
                        v@.len() == i,
                        delay == attempt_delay(i as int),
                        forall|k: int|
                            0 <= k < i ==> #[trigger] v@[k] == (ConnectAttempt {
                                delay_ms: attempt_delay(k),
                                addr: ordered@[k],
                            }),
                    decreases ordered.len() - i,
                {
                    v.push(ConnectAttempt { delay_ms: delay, addr: ordered[i] });
                    delay = if delay <= u64::MAX - CONNECTION_ATTEMPT_DELAY_MS {
                        delay + CONNECTION_ATTEMPT_DELAY_MS
                    } else {
                        u64::MAX
                    };
                    i = i + 1;
                }
                Ok(v)
            },
        }
    }
}

/// The refusal of a QUIC connection to an IP address: the server's
/// certificate is checked against a domain.
pub open spec fn quic_ip_message(a: SocketAddress) -> Seq<char> {
    "Cannot connect to remote with ip "@ + socket_text(a) + ", domain is required for certificate validation"@
}

/// The server name and port of a QUIC connection: the endpoint must be a
/// domain, which the certificate is checked against.
pub fn quic_server(endpoint: &Endpoint) -> (res: Result<(String, u16), String>)
    ensures
        match endpoint@ {
            EndpointView::Domain(d, p) => res matches Ok((h, q)) && h@ == d && q == p,
            EndpointView::Addr(a) => res matches Err(m) && m@ == quic_ip_message(a),
        },
{
    match endpoint {
        Endpoint::Domain(host, port) => Ok((host.clone(), *port)),
        Endpoint::Addr(a) => {
            let mut m = String::new();
            push_str(&mut m, "Cannot connect to remote with ip ");
            let t = socket_to_string(*a);
            push_str(&mut m, t.as_str());
            push_str(&mut m, ", domain is required for certificate validation");
            Err(m)
        },
    }
}

/// One QUIC connection attempt: the local address it binds (the unspecified
/// address of the server's family, any port) and the server's address.
#[derive(Clone, Copy, Debug, PartialEq, Eq, Structural)]
pub struct QuicAttempt {
    pub local: SocketAddress,
    pub remote: SocketAddress,
}

/// The attempt for one resolved address of the server.
pub open spec fn quic_attempt(ip: IpAddress, port: u16) -> QuicAttempt {
    match ip {
        IpAddress::V4(a) => QuicAttempt {
            local: SocketAddress::V4 { ip: 0, port: 0 },
            remote: SocketAddress::V4 { ip: a, port },
        },
        IpAddress::V6(a) => QuicAttempt {
            local: SocketAddress::V6 { ip: 0, port: 0, flowinfo: 0, scope_id: 0 },
            remote: SocketAddress::V6 { ip: a, port, flowinfo: 0, scope_id: 0 },
        },
    }
}

/// The attempts a QUIC connection races, one per resolved address, in the
/// resolver's order.
pub fn quic_attempts(resolved: &Vec<IpAddress>, port: u16) -> (res: Vec<QuicAttempt>)
    ensures
        res@.len() == resolved@.len(),
        forall|i: int| 0 <= i < resolved@.len() ==> #[trigger] res@[i] == quic_attempt(resolved@[i], port),
{
    let mut out: Vec<QuicAttempt> = Vec::new();
    let mut i: usize = 0;
    while i < resolved.len()
        invariant
            i <= resolved@.len(),
            out@.len() == i,
            forall|j: int| 0 <= j < i ==> #[trigger] out@[j] == quic_attempt(resolved@[j], port),
        decreases resolved.len() - i,
    {
        let attempt = match resolved[i] {
            IpAddress::V4(a) => QuicAttempt {
                local: SocketAddress::V4 { ip: 0, port: 0 },
                remote: SocketAddress::V4 { ip: a, port },
            },
            IpAddress::V6(a) => QuicAttempt {
                local: SocketAddress::V6 { ip: 0, port: 0, flowinfo: 0, scope_id: 0 },
                remote: SocketAddress::V6 { ip: a, port, flowinfo: 0, scope_id: 0 },
            },
        };
        out.push(attempt);
        i = i + 1;
    }
    out
}

/// Connections opened ahead of time to one endpoint: each is either ready
/// or the error its opening met. Every connection taken out is replaced by
/// opening a new one.
pub struct TcpPoolConnector<S, E> {
    endpoint: Endpoint,
    pool: VecDeque<Result<S, E>>,
}

impl<S, E> TcpPoolConnector<S, E> {
    /// A pool serving `endpoint`; the driver opens `size` connections and
    /// adds them with `add`.
    pub fn new(endpoint: Endpoint) -> (res: Self)
        ensures
            res.endpoint() == endpoint@,
            res.pool() == Seq::<Result<S, E>>::empty(),
    {
        TcpPoolConnector { endpoint, pool: VecDeque::new() }
    }

    pub closed spec fn endpoint(&self) -> EndpointView {
        self.endpoint@
    }

    pub closed spec fn pool(&self) -> Seq<Result<S, E>> {
        self.pool@
    }

    /// Adds the outcome of opening a connection at the back of the pool.
    pub fn add(&mut self, outcome: Result<S, E>)
        ensures
            final(self).endpoint() == old(self).endpoint(),
            final(self).pool() == old(self).pool().push(outcome),
    {
        self.pool.push_back(outcome);
    }

    /// Takes a connection for `endpoint`: entries are taken from the front
    /// until a ready connection comes out. Returns that connection (none
    /// where the pool ran dry; the driver then connects directly) and how
    /// many entries were taken, each of which the driver replaces by opening
    /// a new connection. Refused for any other endpoint than the pool's.
    pub fn take(&mut self, endpoint: &Endpoint) -> (res: Result<(Option<S>, usize), ConnectError>)
        ensures
            final(self).endpoint() == old(self).endpoint(),
            endpoint@ != old(self).endpoint() ==> res == Err::<(Option<S>, usize), ConnectError>(
                ConnectError::WrongEndpoint) && final(self).pool() == old(self).pool(),
            endpoint@ == old(self).endpoint() ==> (res matches Ok((s, n)) && {
                &&& n <= old(self).pool().len()
                &&& final(self).pool() == old(self).pool().skip(n as int)
                &&& forall|i: int| 0 <= i < n - 1 ==> (#[trigger] old(self).pool()[i]) is Err
                &&& match s {
                    Some(c) => n > 0 && old(self).pool()[n - 1] == Ok::<S, E>(c),
                    None => n == old(self).pool().len() && (n > 0 ==> old(self).pool()[n - 1] is Err),
                }
            }),
    {
        if !endpoint.equals(&self.endpoint) {
            return Err(ConnectError::WrongEndpoint);
        }
        let ghost start = self.pool@;
        let len = self.pool.len();
        let mut taken: usize = 0;
        loop
            invariant
                self.endpoint@ == old(self).endpoint@,
                endpoint@ == old(self).endpoint@,
                len == start.len(),
                start == old(self).pool@,
                taken <= start.len(),
                self.pool@ == start.skip(taken as int),
                forall|i: int| 0 <= i < taken ==> (#[trigger] start[i]) is Err,
            decreases start.len() - taken,
        {
            match self.pool.pop_front() {
                None => {
                    proof {
                        assert(taken == start.len());
                    }
                    return Ok((None, taken));
                },
                Some(outcome) => {
                    proof {
                        assert(start[taken as int] == outcome);
                        assert(self.pool@ =~= start.skip(taken + 1));
                    }
                    taken = taken + 1;
                    match outcome {
                        Ok(s) => {
                            return Ok((Some(s), taken));
                        },
                        Err(_) => {},
                    }
                },
            }
        }
    }
}

} // verus!
