//! The HTTP proxy acceptor: which endpoint a client asks for (CONNECT or a
//! plain proxy request), how a proxy request is rewritten before it is
//! forwarded, and the per-connection decisions between requests.
use crate::endpoint::{endpoint_from_str, Endpoint, EndpointParseError, EndpointView};
use crate::text::{decimal, push_str, str_equal};
use vstd::prelude::*;
use vstd::string::*;
use vstd::utf8::encode_utf8;

verus! {

/// The HTTP proxy acceptor.
#[derive(Debug, Default)]
pub struct HttpAcceptor {}

/// One header of a request: its name in lower case and its values in order
/// (never none).
#[derive(Clone, Debug)]
pub struct HeaderEntry {
    pub name: String,
    pub values: Vec<Vec<u8>>,
}

/// A request as the proxy sees it: the method, the request target, the host,
/// the explicit port and the path-and-query of the target's URI, and the
/// headers in order.
#[derive(Clone, Debug)]
pub struct ProxyRequest {
    pub is_connect: bool,
    pub uri: String,
    pub host: Option<String>,
    pub port: Option<u16>,
    pub path_and_query: Option<String>,
    pub headers: Vec<HeaderEntry>,
}

pub struct HeaderView {
    pub name: Seq<char>,
    pub values: Seq<Seq<u8>>,
}

pub struct RequestView {
    pub is_connect: bool,
    pub uri: Seq<char>,
    pub host: Option<Seq<char>>,
    pub port: Option<u16>,
    pub path_and_query: Option<Seq<char>>,
    pub headers: Seq<HeaderView>,
}

pub open spec fn header_view(h: HeaderEntry) -> HeaderView {
    HeaderView { name: h.name@, values: h.values@.map_values(|v: Vec<u8>| v@) }
}

pub open spec fn opt_view(s: Option<String>) -> Option<Seq<char>> {
    match s {
        Some(s) => Some(s@),
        None => None,
    }
}

impl View for ProxyRequest {
    type V = RequestView;

    open spec fn view(&self) -> RequestView {
        RequestView {
            is_connect: self.is_connect,
            uri: self.uri@,
            host: opt_view(self.host),
            port: self.port,
            path_and_query: opt_view(self.path_and_query),
            headers: self.headers@.map_values(|h: HeaderEntry| header_view(h)),
        }
    }
}

/// No header name occurs twice, and every header has a value.
pub open spec fn headers_wf(h: Seq<HeaderView>) -> bool {
    &&& forall|i: int, j: int|
        0 <= i < h.len() && 0 <= j < h.len() && i != j ==> #[trigger] h[i].name != #[trigger] h[j].name
    &&& forall|i: int| 0 <= i < h.len() ==> (#[trigger] h[i]).values.len() > 0
}

/// The position of the header named `name`, or -1.
pub open spec fn find_header(h: Seq<HeaderView>, name: Seq<char>) -> int
    decreases h.len(),
{
    if h.len() == 0 {
        -1
    } else if h.last().name == name {
        h.len() - 1
    } else {
        find_header(h.drop_last(), name)
    }
}

/// Sets the header to the single value `v`, in place if it exists, else
/// at the end (`HeaderMap::insert`).
pub open spec fn set_header(h: Seq<HeaderView>, name: Seq<char>, v: Seq<u8>) -> Seq<HeaderView> {
    let i = find_header(h, name);
    if i >= 0 {
        h.update(i, HeaderView { name, values: seq![v] })
    } else {
        h.push(HeaderView { name, values: seq![v] })
    }
}

/// Removes the header (`HeaderMap::remove`).
pub open spec fn remove_header(h: Seq<HeaderView>, name: Seq<char>) -> Seq<HeaderView> {
    let i = find_header(h, name);
    if i >= 0 {
        h.remove(i)
    } else {
        h
    }
}

/// Adds the header with value `v` unless it exists
/// (`HeaderMap::entry(..).or_insert(..)`).
pub open spec fn add_header_if_absent(h: Seq<HeaderView>, name: Seq<char>, v: Seq<u8>) -> Seq<
    HeaderView,
> {
    if find_header(h, name) >= 0 {
        h
    } else {
        h.push(HeaderView { name, values: seq![v] })
    }
}

/// The headers of a forwarded request: `host` reduced to the URI's host,
/// the proxy authentication headers dropped, and `proxy-connection` turned
/// into `connection` where that is absent.
pub open spec fn forwarded_headers(h: Seq<HeaderView>, host: Seq<char>) -> Seq<HeaderView> {
    let h1 = if find_header(h, "host"@) >= 0 {
        set_header(h, "host"@, encode_utf8(host))
    } else {
        h
    };
    let h2 = remove_header(remove_header(h1, "proxy-authenticate"@), "proxy-authorization"@);
    let i = find_header(h2, "proxy-connection"@);
    if i >= 0 {
        add_header_if_absent(
            remove_header(h2, "proxy-connection"@),
            "connection"@,
            h2[i].values[0],
        )
    } else {
        h2
    }
}

/// How a proxy request is rewritten before it is forwarded: the target
/// becomes the path and query, and the headers as `forwarded_headers` says.
/// There is none where the target has no path, or no host while the request
/// has a `host` header.
pub open spec fn transformed(r: RequestView) -> Option<RequestView> {
    if find_header(r.headers, "host"@) >= 0 && r.host is None {
        None
    } else if r.path_and_query is None {
        None
    } else {
        Some(
            RequestView {
                uri: r.path_and_query.unwrap(),
                host: None,
                headers: forwarded_headers(
                    r.headers,
                    match r.host {
                        Some(h) => h,
                        None => Seq::empty(),
                    },
                ),
                ..r
            },
        )
    }
}

/// The port a plain proxy request goes to: the URI's own, else 80.
pub open spec fn port_or_80(port: Option<u16>) -> u16 {
    match port {
        Some(p) => p,
        None => 80,
    }
}

/// The endpoint a plain proxy request asks for: its host read as an
/// endpoint, else the host with the URI's port, or with port 80 where the
/// URI gives none.
pub open spec fn host_endpoint(host: Seq<char>, port: Option<u16>) -> Result<EndpointView, EndpointParseError> {
    match endpoint_from_str(host) {
        Ok(e) => Ok(e),
        Err(_) => endpoint_from_str(host + seq![':'] + decimal(port_or_80(port) as nat)),
    }
}

fn find_header_exec(h: &Vec<HeaderEntry>, name: &str) -> (res: Option<usize>)
    ensures
        match res {
            Some(i) => i as int == find_header(h@.map_values(|e: HeaderEntry| header_view(e)), name@)
                && i < h@.len(),
            None => find_header(h@.map_values(|e: HeaderEntry| header_view(e)), name@) == -1,
        },
{
    let ghost hv = h@.map_values(|e: HeaderEntry| header_view(e));
    let mut i: usize = h.len();
    proof {
        assert(hv.take(i as int) =~= hv);
    }
    while i > 0
        invariant
            i <= h@.len(),
            hv == h@.map_values(|e: HeaderEntry| header_view(e)),
            find_header(hv, name@) == find_header(hv.take(i as int), name@),
        decreases i,
    {
        proof {
            assert(hv.take(i as int).drop_last() =~= hv.take(i - 1));
            assert(hv.take(i as int).last() == hv[i - 1]);
        }
        if str_equal(h[i - 1].name.as_str(), name) {
            return Some(i - 1);
        }
        i = i - 1;
    }
    None
}

/// The views of a list of headers.
pub open spec fn headers_view(h: Seq<HeaderEntry>) -> Seq<HeaderView> {
    h.map_values(|e: HeaderEntry| header_view(e))
}

fn single_header(name: &str, v: Vec<u8>) -> (res: HeaderEntry)
    ensures
        res.values@.len() == 1,
        header_view(res) == (HeaderView { name: name@, values: seq![v@] }),
{
    let mut values: Vec<Vec<u8>> = Vec::new();
    values.push(v);
    let res = HeaderEntry { name: name.to_owned(), values };
    proof {
        assert(header_view(res).values =~= seq![res.values@[0]@]);
    }
    res
}

fn set_header_exec(h: &mut Vec<HeaderEntry>, name: &str, v: Vec<u8>)
    requires
        forall|i: int| 0 <= i < old(h)@.len() ==> (#[trigger] old(h)@[i]).values@.len() > 0,
    ensures
        headers_view(final(h)@) == set_header(headers_view(old(h)@), name@, v@),
        forall|i: int| 0 <= i < final(h)@.len() ==> (#[trigger] final(h)@[i]).values@.len() > 0,
{
    let ghost v_view = v@;
    let entry = single_header(name, v);
    match find_header_exec(h, name) {
        Some(i) => {
            h.set(i, entry);
            proof {
                assert(headers_view(final(h)@) =~= headers_view(old(h)@).update(
                    i as int,
                    header_view(entry),
                ));
            }
        },
        None => {
            h.push(entry);
            proof {
                assert(headers_view(final(h)@) =~= headers_view(old(h)@).push(header_view(entry)));
            }
        },
    }
}

/// Removes the header; returns its first value if it was there.
fn remove_header_exec(h: &mut Vec<HeaderEntry>, name: &str) -> (res: Option<Vec<u8>>)
    requires
        forall|i: int| 0 <= i < old(h)@.len() ==> (#[trigger] old(h)@[i]).values@.len() > 0,
    ensures
        headers_view(final(h)@) == remove_header(headers_view(old(h)@), name@),
        forall|i: int| 0 <= i < final(h)@.len() ==> (#[trigger] final(h)@[i]).values@.len() > 0,
        match res {
            Some(v) => {
                let i = find_header(headers_view(old(h)@), name@);
                i >= 0 && v@ == headers_view(old(h)@)[i].values[0]
            },
            None => find_header(headers_view(old(h)@), name@) == -1,
        },
{
    match find_header_exec(h, name) {
        Some(i) => {
            let e = h.remove(i);
            proof {
                assert(headers_view(final(h)@) =~= headers_view(old(h)@).remove(i as int));
                assert(e.values@.len() > 0);
                assert(header_view(e).values[0] == e.values@[0]@);
            }
            Some(e.values[0].clone())
        },
        None => None,
    }
}

fn add_header_if_absent_exec(h: &mut Vec<HeaderEntry>, name: &str, v: Vec<u8>)
    ensures
        headers_view(final(h)@) == add_header_if_absent(headers_view(old(h)@), name@, v@),
{
    match find_header_exec(h, name) {
        Some(_) => {},
        None => {
            let entry = single_header(name, v);
            h.push(entry);
            proof {
                assert(headers_view(final(h)@) =~= headers_view(old(h)@).push(header_view(entry)));
            }
        },
    }
}

/// Rewrites a proxy request for forwarding to the origin server: the target
/// becomes the URI's path and query, `host` is reduced to the URI's host,
/// the proxy authentication headers go, and `proxy-connection` becomes
/// `connection` where that is absent. Nothing where the URI has no path, or
/// has no host while the request carries `host`.
pub fn transform_proxy_request(request: ProxyRequest) -> (res: Option<ProxyRequest>)
    requires
        forall|i: int|
            0 <= i < request.headers@.len() ==> (#[trigger] request.headers@[i]).values@.len() > 0,
    ensures
        match (res, transformed(request@)) {
            (Some(r), Some(v)) => r@ == v,
            (None, None) => true,
            _ => false,
        },
{
    let ghost r = request@;
    let mut headers = request.headers;
    proof {
        assert(headers_view(headers@) == r.headers);
    }
    let has_host = find_header_exec(&headers, "host").is_some();
    if has_host && request.host.is_none() {
        return None;
    }
    let path_and_query = match request.path_and_query {
        Some(p) => p,
        None => {
            return None;
        },
    };
    if has_host {
        let host_bytes = match &request.host {
            Some(h) => h.as_str().as_bytes_vec(),
            None => Vec::new(),
        };
        set_header_exec(&mut headers, "host", host_bytes);
    }
    let _ = remove_header_exec(&mut headers, "proxy-authenticate");
    let _ = remove_header_exec(&mut headers, "proxy-authorization");
    match remove_header_exec(&mut headers, "proxy-connection") {
        Some(c) => {
            add_header_if_absent_exec(&mut headers, "connection", c);
        },
        None => {},
    }
    Some(
        ProxyRequest {
            is_connect: request.is_connect,
            uri: path_and_query.clone(),
            host: None,
            port: request.port,
            path_and_query: Some(path_and_query),
            headers,
        },
    )
}

/// Reads the endpoint a plain proxy request asks for: its host read as an
/// endpoint, else the host with the URI's port, or with port 80.
pub fn endpoint_for_host(host: &str, port: Option<u16>) -> (res: Result<Endpoint, EndpointParseError>)
    ensures
        match (res, host_endpoint(host@, port)) {
            (Ok(e), Ok(v)) => e@ == v,
            (Err(e1), Err(e2)) => e1 == e2,
            _ => false,
        },
{
    match Endpoint::parse(host) {
        Ok(e) => Ok(e),
        Err(_) => {
            let p: u16 = match port {
                Some(p) => p,
                None => 80,
            };
            let mut with_port = String::new();
            push_str(&mut with_port, host);
            crate::text::push_char(&mut with_port, ':');
            crate::text::push_decimal(&mut with_port, p as u64);
            proof {
                assert(with_port@ =~= host@ + seq![':'] + decimal(port_or_80(port) as nat));
            }
            Endpoint::parse(with_port.as_str())
        },
    }
}

/// Why the proxy refused a request; the connection is closed afterwards.
#[derive(Clone, Debug, PartialEq, Eq)]
pub enum HttpProxyError {
    /// A CONNECT that is not the first request of the connection.
    ConnectNotFirst,
    /// The requested endpoint does not parse.
    InvalidEndpoint(EndpointParseError),
    /// A plain proxy request whose URI has no host.
    NoHost,
    /// A request for another host than the connection is tied to.
    DifferentHost,
    /// A plain proxy request that cannot be rewritten for forwarding.
    InvalidProxyRequest,
}

/// Where a proxy connection stands.
pub enum HttpProxyState {
    /// No request yet.
    Fresh,
    /// The first plain request waits for the connection to its endpoint.
    Connecting(Endpoint, ProxyRequest),
    /// Tied to this endpoint; later requests go over the same connection.
    Connected(Endpoint),
    /// A CONNECT was granted; the connection is now a raw tunnel.
    Tunneling,
    /// A request was refused; the connection is closed.
    Closed,
}

/// What the driver of a proxy connection should do next.
pub enum HttpProxyAction {
    /// Answer the CONNECT with an empty success response and tunnel the
    /// connection to this endpoint.
    Tunnel(Endpoint),
    /// Connect to this endpoint, then report back with `connected`.
    Connect(Endpoint),
    /// Forward this request over the connection to the endpoint and relay
    /// the response.
    Forward(ProxyRequest),
}

/// One HTTP proxy connection: decides, request by request, what to do.
pub struct HttpProxyConnection {
    state: HttpProxyState,
}

pub enum StateView {
    Fresh,
    Connecting(EndpointView, RequestView),
    Connected(EndpointView),
    Tunneling,
    Closed,
}

/// The endpoint a request asks for, where it is a CONNECT: its target read as
/// an endpoint; where it is a plain request: its host and port, as
/// `host_endpoint`.
pub open spec fn requested_endpoint(r: RequestView) -> Result<EndpointView, HttpProxyError> {
    if r.is_connect {
        match endpoint_from_str(r.uri) {
            Ok(e) => Ok(e),
            Err(e) => Err(HttpProxyError::InvalidEndpoint(e)),
        }
    } else {
        match r.host {
            None => Err(HttpProxyError::NoHost),
            Some(h) => match host_endpoint(h, r.port) {
                Ok(e) => Ok(e),
                Err(e) => Err(HttpProxyError::InvalidEndpoint(e)),
            },
        }
    }
}

fn request_endpoint(r: &ProxyRequest) -> (res: Result<Endpoint, HttpProxyError>)
    ensures
        match (res, requested_endpoint(r@)) {
            (Ok(e), Ok(v)) => e@ == v,
            (Err(e1), Err(e2)) => e1 == e2,
            _ => false,
        },
{
    if r.is_connect {
        match Endpoint::parse(r.uri.as_str()) {
            Ok(e) => Ok(e),
            Err(e) => Err(HttpProxyError::InvalidEndpoint(e)),
        }
    } else {
        match &r.host {
            None => Err(HttpProxyError::NoHost),
            Some(h) => match endpoint_for_host(h.as_str(), r.port) {
                Ok(e) => Ok(e),
                Err(e) => Err(HttpProxyError::InvalidEndpoint(e)),
            },
        }
    }
}

/// Every header of the request has a value.
pub open spec fn request_wf(r: ProxyRequest) -> bool {
    forall|i: int| 0 <= i < r.headers@.len() ==> (#[trigger] r.headers@[i]).values@.len() > 0
}

impl HttpProxyConnection {
    pub closed spec fn state(&self) -> StateView {
        match self.state {
            HttpProxyState::Fresh => StateView::Fresh,
            HttpProxyState::Connecting(e, r) => StateView::Connecting(e@, r@),
            HttpProxyState::Connected(e) => StateView::Connected(e@),
            HttpProxyState::Tunneling => StateView::Tunneling,
            HttpProxyState::Closed => StateView::Closed,
        }
    }

    pub closed spec fn wf(&self) -> bool {
        self.state matches HttpProxyState::Connecting(_, r) ==> request_wf(r)
    }

    /// A connection that has seen no request.
    pub fn new() -> (res: Self)
        ensures
            res.wf(),
            res.state() is Fresh,
    {
        HttpProxyConnection { state: HttpProxyState::Fresh }
    }

    /// Whether the connection takes another request: it has seen none, or it
    /// is tied to an endpoint.
    pub fn accepts_requests(&self) -> (res: bool)
        ensures
            res == (self.state() is Fresh || self.state() is Connected),
    {
        match &self.state {
            HttpProxyState::Fresh => true,
            HttpProxyState::Connected(_) => true,
            _ => false,
        }
    }

    /// Whether the first plain request waits for its connection.
    pub fn is_connecting(&self) -> (res: bool)
        ensures
            res == self.state() is Connecting,
    {
        match &self.state {
            HttpProxyState::Connecting(..) => true,
            _ => false,
        }
    }

    /// Decides what to do with the next request of the connection. The first
    /// request may be a CONNECT, which turns the connection into a tunnel, or
    /// a plain proxy request, which ties the connection to its host; later
    /// plain requests must be for that same host.
    pub fn request(&mut self, request: ProxyRequest) -> (res: Result<HttpProxyAction, HttpProxyError>)
        requires
            old(self).wf(),
            old(self).state() is Fresh || old(self).state() is Connected,
            request_wf(request),
        ensures
            final(self).wf(),
            res is Err ==> final(self).state() is Closed,
            match old(self).state() {
                StateView::Fresh => if request@.is_connect {
                    match requested_endpoint(request@) {
                        Ok(e) => res matches Ok(HttpProxyAction::Tunnel(t)) && t@ == e
                            && final(self).state() is Tunneling,
                        Err(err) => res == Err::<HttpProxyAction, HttpProxyError>(err),
                    }
                } else {
                    match requested_endpoint(request@) {
                        Ok(e) => res matches Ok(HttpProxyAction::Connect(t)) && t@ == e
                            && final(self).state() == StateView::Connecting(e, request@),
                        Err(err) => res == Err::<HttpProxyAction, HttpProxyError>(err),
                    }
                },
                StateView::Connected(target) => if request@.is_connect {
                    res == Err::<HttpProxyAction, HttpProxyError>(HttpProxyError::ConnectNotFirst)
                } else {
                    match requested_endpoint(request@) {
                        Err(err) => res == Err::<HttpProxyAction, HttpProxyError>(err),
                        Ok(e) => if e != target {
                            res == Err::<HttpProxyAction, HttpProxyError>(HttpProxyError::DifferentHost)
                        } else {
                            match transformed(request@) {
                                None => res == Err::<HttpProxyAction, HttpProxyError>(HttpProxyError::InvalidProxyRequest),
                                Some(t) => res matches Ok(HttpProxyAction::Forward(f)) && f@ == t
                                    && final(self).state() == StateView::Connected(target),
                            }
                        },
                    }
                },
                _ => false,
            },
    {
        let mut state = HttpProxyState::Closed;
        std::mem::swap(&mut state, &mut self.state);
        match state {
            HttpProxyState::Fresh => {
                if request.is_connect {
                    match request_endpoint(&request) {
                        Ok(e) => {
                            self.state = HttpProxyState::Tunneling;
                            Ok(HttpProxyAction::Tunnel(e))
                        },
                        Err(err) => Err(err),
                    }
                } else {
                    match request_endpoint(&request) {
                        Ok(e) => {
                            let target = e.duplicate();
                            self.state = HttpProxyState::Connecting(e, request);
                            Ok(HttpProxyAction::Connect(target))
                        },
                        Err(err) => Err(err),
                    }
                }
            },
            HttpProxyState::Connected(target) => {
                if request.is_connect {
                    return Err(HttpProxyError::ConnectNotFirst);
                }
                match request_endpoint(&request) {
                    Err(err) => Err(err),
                    Ok(e) => {
                        if !e.equals(&target) {
                            return Err(HttpProxyError::DifferentHost);
                        }
                        match transform_proxy_request(request) {
                            None => Err(HttpProxyError::InvalidProxyRequest),
                            Some(t) => {
                                self.state = HttpProxyState::Connected(target);
                                Ok(HttpProxyAction::Forward(t))
                            },
                        }
                    },
                }
            },
            _ => Err(HttpProxyError::InvalidProxyRequest),
        }
    }

    /// The connection to the endpoint of the first plain request is made:
    /// that request is rewritten and forwarded, or refused where it cannot
    /// be rewritten.
    pub fn connected(&mut self) -> (res: Result<HttpProxyAction, HttpProxyError>)
        requires
            old(self).wf(),
            old(self).state() is Connecting,
        ensures
            final(self).wf(),
            res is Err ==> final(self).state() is Closed,
            old(self).state() matches StateView::Connecting(e, r) && match transformed(r) {
                None => res == Err::<HttpProxyAction, HttpProxyError>(HttpProxyError::InvalidProxyRequest),
                Some(t) => res matches Ok(HttpProxyAction::Forward(f)) && f@ == t
                    && final(self).state() == StateView::Connected(e),
            },
    {
        let mut state = HttpProxyState::Closed;
        std::mem::swap(&mut state, &mut self.state);
        match state {
            HttpProxyState::Connecting(e, r) => match transform_proxy_request(r) {
                None => Err(HttpProxyError::InvalidProxyRequest),
                Some(t) => {
                    self.state = HttpProxyState::Connected(e);
                    Ok(HttpProxyAction::Forward(t))
                },
            },
            _ => Err(HttpProxyError::InvalidProxyRequest),
        }
    }
}

} // verus!
