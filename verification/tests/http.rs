use dandelion::endpoint::Endpoint;
use dandelion::http::{
    endpoint_for_host, transform_proxy_request, HeaderEntry, HttpProxyAction, HttpProxyConnection,
    HttpProxyError, ProxyRequest,
};

fn header(name: &str, value: &str) -> HeaderEntry {
    HeaderEntry { name: name.to_string(), values: vec![value.as_bytes().to_vec()] }
}

fn plain(host: &str, pq: &str, headers: Vec<HeaderEntry>) -> ProxyRequest {
    ProxyRequest {
        is_connect: false,
        uri: format!("http://{}{}", host, pq),
        host: Some(host.to_string()),
        port: None,
        path_and_query: Some(pq.to_string()),
        headers,
    }
}

fn find<'a>(headers: &'a [HeaderEntry], name: &str) -> Option<&'a HeaderEntry> {
    headers.iter().find(|h| h.name == name)
}

#[test]
fn http_host_endpoint_defaults_to_port_80() {
    assert_eq!(endpoint_for_host("example.com", None), Ok(Endpoint::Domain("example.com".to_string(), 80)));
    assert_eq!(endpoint_for_host("example.com:8080", None), Ok(Endpoint::Domain("example.com".to_string(), 8080)));
    assert!(endpoint_for_host("[::1]", None).unwrap().equals(&Endpoint::parse("[::1]:80").unwrap()));
    assert_eq!(endpoint_for_host("example.com:x", None), Ok(Endpoint::Domain("example.com:x".to_string(), 80)));
}

#[test]
fn http_transform_rewrites_request() {
    let r = plain(
        "example.com",
        "/a?b=1",
        vec![
            header("host", "example.com:8080"),
            header("proxy-authorization", "secret"),
            header("proxy-connection", "keep-alive"),
            header("accept", "*/*"),
        ],
    );
    let t = transform_proxy_request(r).unwrap();
    assert_eq!(t.uri, "/a?b=1");
    assert_eq!(find(&t.headers, "host").unwrap().values, vec![b"example.com".to_vec()]);
    assert!(find(&t.headers, "proxy-authorization").is_none());
    assert!(find(&t.headers, "proxy-connection").is_none());
    assert_eq!(find(&t.headers, "connection").unwrap().values, vec![b"keep-alive".to_vec()]);
    assert_eq!(t.headers[0].name, "host");
    assert_eq!(t.headers[1].name, "accept");
}

#[test]
fn http_transform_keeps_existing_connection_header() {
    let r = plain(
        "example.com",
        "/",
        vec![header("connection", "close"), header("proxy-connection", "keep-alive")],
    );
    let t = transform_proxy_request(r).unwrap();
    assert_eq!(t.headers.len(), 1);
    assert_eq!(find(&t.headers, "connection").unwrap().values, vec![b"close".to_vec()]);
}

#[test]
fn http_transform_needs_path() {
    let mut r = plain("example.com", "/", vec![]);
    r.path_and_query = None;
    assert!(transform_proxy_request(r).is_none());
}

#[test]
fn http_connect_tunnels() {
    let mut c = HttpProxyConnection::new();
    let r = ProxyRequest {
        is_connect: true,
        uri: "example.com:443".to_string(),
        host: Some("example.com".to_string()),
        port: None,
        path_and_query: None,
        headers: vec![],
    };
    match c.request(r) {
        Ok(HttpProxyAction::Tunnel(e)) => assert_eq!(e, Endpoint::Domain("example.com".to_string(), 443)),
        _ => panic!("expected a tunnel"),
    }
}

#[test]
fn http_plain_requests_share_one_host() {
    let mut c = HttpProxyConnection::new();
    match c.request(plain("example.com", "/1", vec![])) {
        Ok(HttpProxyAction::Connect(e)) => assert_eq!(e, Endpoint::Domain("example.com".to_string(), 80)),
        _ => panic!("expected a connect"),
    }
    match c.connected() {
        Ok(HttpProxyAction::Forward(r)) => assert_eq!(r.uri, "/1"),
        _ => panic!("expected a forward"),
    }
    match c.request(plain("example.com", "/2", vec![])) {
        Ok(HttpProxyAction::Forward(r)) => assert_eq!(r.uri, "/2"),
        _ => panic!("expected a forward"),
    }
    assert_eq!(c.request(plain("other.com", "/3", vec![])).err(), Some(HttpProxyError::DifferentHost));
}

#[test]
fn http_connect_must_come_first() {
    let mut c = HttpProxyConnection::new();
    let _ = c.request(plain("example.com", "/", vec![]));
    let _ = c.connected();
    let r = ProxyRequest {
        is_connect: true,
        uri: "example.com:443".to_string(),
        host: None,
        port: None,
        path_and_query: None,
        headers: vec![],
    };
    assert_eq!(c.request(r).err(), Some(HttpProxyError::ConnectNotFirst));
}

#[test]
fn http_plain_request_without_host() {
    let mut c = HttpProxyConnection::new();
    let mut r = plain("example.com", "/", vec![]);
    r.host = None;
    assert_eq!(c.request(r).err(), Some(HttpProxyError::NoHost));
}

#[test]
fn http_connection_states() {
    let mut c = HttpProxyConnection::new();
    assert!(c.accepts_requests());
    assert!(!c.is_connecting());
    let _ = c.request(plain("example.com", "/", vec![]));
    assert!(c.is_connecting());
    assert!(!c.accepts_requests());
    let _ = c.connected();
    assert!(c.accepts_requests());
    let _ = c.request(plain("other.com", "/", vec![]));
    assert!(!c.accepts_requests());
    assert!(!c.is_connecting());
}

#[test]
fn http_plain_request_keeps_uri_port() {
    assert_eq!(endpoint_for_host("example.com", Some(8080)), Ok(Endpoint::Domain("example.com".to_string(), 8080)));
    assert!(endpoint_for_host("[::1]", Some(8080)).unwrap().equals(&Endpoint::parse("[::1]:8080").unwrap()));
    let mut c = HttpProxyConnection::new();
    let mut r = plain("example.com", "/a", vec![]);
    r.uri = "http://example.com:8080/a".to_string();
    r.port = Some(8080);
    match c.request(r) {
        Ok(HttpProxyAction::Connect(e)) => assert_eq!(e, Endpoint::Domain("example.com".to_string(), 8080)),
        _ => panic!("expected a connect"),
    }
    match c.connected() {
        Ok(HttpProxyAction::Forward(f)) => assert_eq!(f.uri, "/a"),
        _ => panic!("expected a forward"),
    }
    assert_eq!(c.request(plain("example.com", "/b", vec![])).err(), Some(HttpProxyError::DifferentHost));
}
