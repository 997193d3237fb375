//! The simplex tunnel: a WebSocket connection to a server that checks a path
//! and a secret header, reads the target endpoint from a header, and then
//! relays data. The checks of the server side and the request of the client
//! side are here.
use crate::endpoint::{endpoint_from_str, endpoint_text, Endpoint, EndpointView};
use crate::net::socket_address_from_str;
use crate::text::{push_str, str_equal};
use vstd::prelude::*;
use vstd::utf8::encode_utf8;

verus! {

/// The header that carries the target endpoint of a simplex request.
pub const ENDPOINT_HEADER_KEY: &'static str = "simplex-endpoint";

/// The settings of a simplex tunnel: the server's host, the path it serves
/// the tunnel on, and the secret header (name and value) it expects.
#[derive(Debug)]
pub struct Config {
    pub host: String,
    pub path: String,
    pub secret_header: (String, String),
}

impl Config {
    pub fn new(host: String, path: String, secret_header: (String, String)) -> (res: Self)
        ensures
            res.host == host,
            res.path == path,
            res.secret_header == secret_header,
    {
        Config { host, path, secret_header }
    }
}

/// The simplex settings as a routing script writes them.
#[derive(Clone, Debug)]
pub struct SimplexConfig {
    pub host: String,
    pub path: String,
    pub header_name: String,
    pub header_value: String,
}

impl SimplexConfig {
    /// The tunnel settings these stand for.
    pub fn into_config(self) -> (res: Config)
        ensures
            res.host == self.host,
            res.path == self.path,
            res.secret_header == (self.header_name, self.header_value),
    {
        Config::new(self.host, self.path, (self.header_name, self.header_value))
    }
}

/// Why the simplex server turned a request down. The client is only ever
/// shown an innocuous page, never the reason.
#[derive(Clone, Copy, Debug, PartialEq, Eq, Structural)]
pub enum SimplexRejection {
    WrongPath,
    WrongSecret,
    NotUpgrade,
    NoEndpoint,
    MissingWebSocketKey,
    UnsupportedWebSocketVersion,
}

/// What the server sees of an incoming request: its path, the values of
/// the secret header and of the endpoint header where they are text,
/// whether it asks for a WebSocket upgrade, and the WebSocket key and
/// version headers.
pub struct SimplexRequest {
    pub path: String,
    pub secret_value: Option<String>,
    pub is_upgrade: bool,
    pub endpoint_value: Option<String>,
    pub websocket_key: Option<Vec<u8>>,
    pub websocket_version: Option<Vec<u8>>,
}

/// The endpoint a simplex request asks for, or why it is turned down: the
/// path must be the configured one, the secret header must hold the
/// configured value, the request must ask for an upgrade, and the endpoint
/// header must hold an endpoint; checked in that order.
pub open spec fn simplex_check(config: Config, r: SimplexRequest) -> Result<EndpointView, SimplexRejection> {
    if r.path@ != config.path@ {
        Err(SimplexRejection::WrongPath)
    } else if !(r.secret_value matches Some(v) && v@ == config.secret_header.1@) {
        Err(SimplexRejection::WrongSecret)
    } else if !r.is_upgrade {
        Err(SimplexRejection::NotUpgrade)
    } else {
        match r.endpoint_value {
            Some(v) => match endpoint_from_str(v@) {
                Ok(e) => Ok(e),
                Err(_) => Err(SimplexRejection::NoEndpoint),
            },
            None => Err(SimplexRejection::NoEndpoint),
        }
    }
}

/// Checks an incoming simplex request and reads the endpoint it asks for.
pub fn check_request(config: &Config, request: &SimplexRequest) -> (res: Result<Endpoint, SimplexRejection>)
    ensures
        match (res, simplex_check(*config, *request)) {
            (Ok(e), Ok(v)) => e@ == v,
            (Err(a), Err(b)) => a == b,
            _ => false,
        },
{
    if !str_equal(request.path.as_str(), config.path.as_str()) {
        return Err(SimplexRejection::WrongPath);
    }
    let secret_ok = match &request.secret_value {
        Some(v) => str_equal(v.as_str(), config.secret_header.1.as_str()),
        None => false,
    };
    if !secret_ok {
        return Err(SimplexRejection::WrongSecret);
    }
    if !request.is_upgrade {
        return Err(SimplexRejection::NotUpgrade);
    }
    match &request.endpoint_value {
        Some(v) => match Endpoint::parse(v.as_str()) {
            Ok(e) => Ok(e),
            Err(_) => Err(SimplexRejection::NoEndpoint),
        },
        None => Err(SimplexRejection::NoEndpoint),
    }
}

/// What `tungstenite::handshake::derive_accept_key` gives for a key: the
/// base64 of the SHA-1 of the key followed by the WebSocket GUID.
pub uninterp spec fn accept_key_of(key: Seq<u8>) -> Seq<char>;

/// `tungstenite::handshake::derive_accept_key`.
#[verifier::external_body]
fn derive_accept_key(key: &[u8]) -> (res: String)
    ensures
        res@ == accept_key_of(key@),
{
    tungstenite::handshake::derive_accept_key(key)
}

/// The `Sec-WebSocket-Accept` value of the upgrade response, or why there
/// is none: the key header is required, and the version header must be 13.
pub open spec fn upgrade_accept(r: SimplexRequest) -> Result<Seq<char>, SimplexRejection> {
    match r.websocket_key {
        None => Err(SimplexRejection::MissingWebSocketKey),
        Some(k) => if !(r.websocket_version matches Some(v) && v@ == seq![49u8, 51u8]) {
            Err(SimplexRejection::UnsupportedWebSocketVersion)
        } else {
            Ok(accept_key_of(k@))
        },
    }
}

/// The response that switches a simplex connection to WebSocket: its
/// status, its headers in order, and its body.
pub struct UpgradeReply {
    pub status: u16,
    pub headers: Vec<(String, String)>,
    pub body: String,
}

/// The upgrade response for an accept key: status 101, `connection:
/// upgrade`, `upgrade: websocket`, the accept key, and a short body.
pub open spec fn upgrade_reply_is(r: UpgradeReply, accept: Seq<char>) -> bool {
    &&& r.status == 101
    &&& r.headers@.len() == 3
    &&& r.headers@[0].0@ == "connection"@ && r.headers@[0].1@ == "upgrade"@
    &&& r.headers@[1].0@ == "upgrade"@ && r.headers@[1].1@ == "websocket"@
    &&& r.headers@[2].0@ == "sec-websocket-accept"@ && r.headers@[2].1@ == accept
    &&& r.body@ == "switching to websocket protocol"@
}

/// The response that upgrades an accepted simplex request to WebSocket, or
/// why there is none.
pub fn upgrade_response(request: &SimplexRequest) -> (res: Result<UpgradeReply, SimplexRejection>)
    ensures
        match (res, upgrade_accept(*request)) {
            (Ok(r), Ok(accept)) => upgrade_reply_is(r, accept),
            (Err(a), Err(b)) => a == b,
            _ => false,
        },
{
    let key = match &request.websocket_key {
        None => {
            return Err(SimplexRejection::MissingWebSocketKey);
        },
        Some(k) => k,
    };
    let version_ok = match &request.websocket_version {
        Some(v) => v.len() == 2 && v[0] == 49u8 && v[1] == 51u8,
        None => false,
    };
    if !version_ok {
        proof {
            if request.websocket_version is Some {
                let v = request.websocket_version.unwrap();
                if v@ == seq![49u8, 51u8] {
                    assert(v@[0] == 49u8 && v@[1] == 51u8);
                }
            }
        }
        return Err(SimplexRejection::UnsupportedWebSocketVersion);
    }
    proof {
        let v = request.websocket_version.unwrap();
        assert(v@ =~= seq![49u8, 51u8]);
    }
    let accept = derive_accept_key(key.as_slice());
    let mut headers: Vec<(String, String)> = Vec::new();
    headers.push(("connection".to_owned(), "upgrade".to_owned()));
    headers.push(("upgrade".to_owned(), "websocket".to_owned()));
    headers.push(("sec-websocket-accept".to_owned(), accept));
    Ok(UpgradeReply { status: 101, headers, body: "switching to websocket protocol".to_owned() })
}

/// What a simplex client asks for: the URI and the headers it adds to the
/// WebSocket handshake.
pub struct SimplexClientRequest {
    pub uri: String,
    pub headers: Vec<(String, String)>,
}

/// The URI of a simplex client request: `ws://` host and path.
pub open spec fn client_uri(config: Config) -> Seq<char> {
    "ws://"@ + config.host@ + config.path@
}

/// Why a simplex client request cannot be made.
#[derive(Clone, Copy, Debug, PartialEq, Eq, Structural)]
pub enum SimplexError {
    /// The URI or a header of the request is no valid HTTP.
    HeaderConfigInvalid,
}

/// A byte `http::HeaderName` accepts (a `tchar` of RFC 9110): an ASCII
/// letter or digit, or one of ``!#$%&'*+-.^_`|~``.
pub open spec fn header_name_byte(b: u8) -> bool {
    ||| (48 <= b && b <= 57)
    ||| (65 <= b && b <= 90)
    ||| (97 <= b && b <= 122)
    ||| b == 33 || b == 35 || b == 36 || b == 37 || b == 38 || b == 39 || b == 42 || b == 43
    ||| b == 45 || b == 46 || b == 94 || b == 95 || b == 96 || b == 124 || b == 126
}

/// Whether `http::HeaderName::from_bytes` accepts a name's UTF-8 bytes:
/// between one and 65535 of them, each one it accepts.
pub open spec fn header_name_valid(name: Seq<char>) -> bool {
    &&& 0 < encode_utf8(name).len() <= 65535
    &&& forall|i: int| 0 <= i < encode_utf8(name).len() ==> header_name_byte(#[trigger] encode_utf8(name)[i])
}

/// Whether the text is a valid header name (`http::HeaderName::from_bytes`,
/// which maps each byte through its table of accepted bytes and refuses an
/// empty name or one longer than 65535 bytes).
#[verifier::external_body]
fn is_header_name(name: &str) -> (res: bool)
    ensures
        res == header_name_valid(name@),
{
    http::HeaderName::from_bytes(name.as_bytes()).is_ok()
}

/// A byte `http::HeaderValue` accepts: visible ASCII, a space, a tab, or
/// any byte from 128 on.
pub open spec fn header_value_byte(b: u8) -> bool {
    (b >= 32 && b != 127) || b == 9
}

/// Whether `http::HeaderValue::from_str` accepts a text: every byte of its
/// UTF-8 encoding is one it accepts.
pub open spec fn header_value_valid(v: Seq<char>) -> bool {
    forall|i: int| 0 <= i < encode_utf8(v).len() ==> header_value_byte(#[trigger] encode_utf8(v)[i])
}

/// Whether the text is a valid header value (`http::HeaderValue::from_str`,
/// which checks each byte as `header_value_byte` says).
#[verifier::external_body]
fn is_header_value(value: &str) -> (res: bool)
    ensures
        res == header_value_valid(value@),
{
    http::HeaderValue::from_str(value).is_ok()
}

/// What parsing a text as `http::Uri` tells: whether it is a valid URI.
pub uninterp spec fn uri_valid(s: Seq<char>) -> bool;

/// Whether the text parses as an `http::Uri`.
#[verifier::external_body]
fn is_uri(s: &str) -> (res: bool)
    ensures
        res == uri_valid(s@),
{
    s.parse::<http::Uri>().is_ok()
}

/// The request a simplex client sends for `endpoint`: the URI of the
/// server, the secret header, and the endpoint header with the endpoint's
/// text. Refused where the URI, the secret header's name or value, or the
/// endpoint's text is no valid HTTP.
pub fn client_request(config: &Config, endpoint: &Endpoint) -> (res: Result<SimplexClientRequest, SimplexError>)
    ensures
        res is Ok <==> (uri_valid(client_uri(*config)) && header_name_valid(config.secret_header.0@)
            && header_value_valid(config.secret_header.1@) && header_value_valid(endpoint_text(endpoint@))),
        res is Err ==> res == Err::<SimplexClientRequest, SimplexError>(SimplexError::HeaderConfigInvalid),
        res matches Ok(r) ==> {
            &&& r.uri@ == client_uri(*config)
            &&& r.headers@.len() == 2
            &&& r.headers@[0].0@ == config.secret_header.0@
            &&& r.headers@[0].1@ == config.secret_header.1@
            &&& r.headers@[1].0@ == ENDPOINT_HEADER_KEY@
            &&& r.headers@[1].1@ == endpoint_text(endpoint@)
        },
{
    let mut uri = String::new();
    push_str(&mut uri, "ws://");
    push_str(&mut uri, config.host.as_str());
    push_str(&mut uri, config.path.as_str());
    proof {
        assert(uri@ =~= client_uri(*config));
    }
    let text = endpoint.to_string();
    if !is_uri(uri.as_str()) || !is_header_name(config.secret_header.0.as_str())
        || !is_header_value(config.secret_header.1.as_str()) || !is_header_value(text.as_str()) {
        return Err(SimplexError::HeaderConfigInvalid);
    }
    let mut headers: Vec<(String, String)> = Vec::new();
    headers.push((config.secret_header.0.clone(), config.secret_header.1.clone()));
    headers.push((ENDPOINT_HEADER_KEY.to_owned(), text));
    Ok(SimplexClientRequest { uri, headers })
}

/// What a simplex client sends, a server with the same settings accepts,
/// reading back the same endpoint: the server sees the configured path, an
/// upgrade, and the two header values of the client's request. Stated for
/// a domain endpoint whose text does not read as a socket address.
pub proof fn law_client_request_is_accepted(
    config: Config,
    client: SimplexClientRequest,
    d: Seq<char>,
    p: u16,
    seen: SimplexRequest,
)
    requires
        client.headers@.len() == 2,
        client.headers@[0].1@ == config.secret_header.1@,
        client.headers@[1].1@ == endpoint_text(EndpointView::Domain(d, p)),
        socket_address_from_str(endpoint_text(EndpointView::Domain(d, p))) is None,
        seen.path@ == config.path@,
        seen.is_upgrade,
        seen.secret_value == Some(client.headers@[0].1),
        seen.endpoint_value == Some(client.headers@[1].1),
    ensures
        simplex_check(config, seen) == Ok::<EndpointView, SimplexRejection>(EndpointView::Domain(d, p)),
{
    crate::endpoint::law_domain_endpoint_text_reads_back(d, p);
}

/// The body of the page shown instead of an error: the current time, so
/// that a probe learns nothing of the server.
pub open spec fn decoy_text(now: Seq<char>) -> Seq<char> {
    "Now is "@ + now
}

/// The page a rejected request is answered with, given the current time in
/// RFC 3339 form.
pub fn decoy_body(now: &str) -> (res: String)
    ensures
        res@ == decoy_text(now@),
{
    let mut s = String::new();
    crate::text::push_str(&mut s, "Now is ");
    crate::text::push_str(&mut s, now);
    s
}

} // verus!
