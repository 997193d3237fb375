use dandelion::endpoint::{Endpoint, EndpointParseError};
use dandelion::engine::ConnectRequest;
use dandelion::net::{IpAddress, SocketAddress};

fn request(endpoint: &str) -> ConnectRequest {
    ConnectRequest::new(Endpoint::parse(endpoint).unwrap())
}

#[test]
fn test_connect_request_port() {
    for (endpoint, port) in [("127.0.0.1:80", 80u16), ("[::1]:80", 80), ("example.com:80", 80)] {
        assert_eq!(request(endpoint).port(), port);
    }
}

#[test]
fn test_connect_request_hostname() {
    for (endpoint, hostname) in [
        ("127.0.0.1:80", "127.0.0.1"),
        ("[::1]:80", "::1"),
        ("example.com:80", "example.com"),
    ] {
        assert_eq!(request(endpoint).hostname(), hostname);
    }
}

#[test]
fn test_connect_request_endpoint() {
    for (endpoint, expect_endpoint) in [
        ("127.0.0.1:80", "127.0.0.1:80"),
        ("[::1]:80", "[::1]:80"),
        ("example.com:80", "example.com:80"),
    ] {
        assert_eq!(request(endpoint).endpoint(), expect_endpoint);
    }
}

#[test]
fn test_connect_request_host_is_ip() {
    for (endpoint, is_ip) in [("127.0.0.1:80", true), ("[::1]:80", true), ("example.com:80", false)] {
        assert_eq!(request(endpoint).hostname_is_ip(), is_ip);
    }
}

#[test]
fn connect_request_domain_that_reads_as_ip() {
    let r = ConnectRequest::new(Endpoint::new_from_domain("::0001", 443));
    assert!(r.hostname_is_ip());
    assert_eq!(r.hostname_as_ip(), Some("::1".to_string()));
    assert_eq!(r.hostname(), "::0001");
}

#[test]
fn endpoint_parses_socket_addresses() {
    assert_eq!(
        Endpoint::parse("127.0.0.1:8080"),
        Ok(Endpoint::Addr(SocketAddress::V4 { ip: 0x7f00_0001, port: 8080 }))
    );
    assert_eq!(
        Endpoint::parse("[::1]:53"),
        Ok(Endpoint::Addr(SocketAddress::V6 { ip: 1, port: 53, flowinfo: 0, scope_id: 0 }))
    );
}

#[test]
fn endpoint_parses_domains_at_last_colon() {
    assert_eq!(Endpoint::parse("example.com:443"), Ok(Endpoint::Domain("example.com".to_string(), 443)));
    assert_eq!(Endpoint::parse("a:b:1"), Ok(Endpoint::Domain("a:b".to_string(), 1)));
    assert_eq!(Endpoint::parse(":80"), Ok(Endpoint::Domain(String::new(), 80)));
    assert_eq!(Endpoint::parse("example.com:+65535"), Ok(Endpoint::Domain("example.com".to_string(), 65535)));
    assert_eq!(Endpoint::parse("example.com:0080"), Ok(Endpoint::Domain("example.com".to_string(), 80)));
}

#[test]
fn endpoint_parse_errors() {
    assert_eq!(Endpoint::parse("example.com"), Err(EndpointParseError::InvalidFormat));
    assert_eq!(Endpoint::parse(""), Err(EndpointParseError::InvalidFormat));
    assert_eq!(Endpoint::parse("example.com:"), Err(EndpointParseError::InvalidPort));
    assert_eq!(Endpoint::parse("example.com:65536"), Err(EndpointParseError::InvalidPort));
    assert_eq!(Endpoint::parse("example.com:-1"), Err(EndpointParseError::InvalidPort));
    assert_eq!(Endpoint::parse("example.com:+"), Err(EndpointParseError::InvalidPort));
    assert_eq!(Endpoint::parse("example.com:8o"), Err(EndpointParseError::InvalidPort));
}

#[test]
fn endpoint_text_and_parse_round_trip() {
    for text in ["10.1.2.3:65535", "[2001:db8::1]:443", "example.com:1", "[fe80::1%2]:80"] {
        let e = Endpoint::parse(text).unwrap();
        assert_eq!(e.to_string(), text);
        assert!(Endpoint::parse(&e.to_string()).unwrap().equals(&e));
    }
}

#[test]
fn endpoint_hostname_and_port() {
    let e = Endpoint::new_from_addr(SocketAddress::new(IpAddress::V4(0x0a00_0001), 22));
    assert_eq!(e.hostname(), "10.0.0.1");
    assert_eq!(e.port(), 22);
    let d = Endpoint::new_from_domain("example.org", 8443);
    assert_eq!(d.hostname(), "example.org");
    assert_eq!(d.port(), 8443);
    assert_eq!(d.to_string(), "example.org:8443");
    assert!(!d.equals(&e));
    assert!(d.equals(&d.duplicate()));
}

#[test]
fn endpoint_addresses_read_back_from_their_text() {
    let addrs = [
        SocketAddress::V4 { ip: 0, port: 0 },
        SocketAddress::V4 { ip: 0xffff_ffff, port: 65535 },
        SocketAddress::V6 { ip: 0, port: 1, flowinfo: 0, scope_id: 0 },
        SocketAddress::V6 { ip: 0xffff_0102_0304, port: 8080, flowinfo: 0, scope_id: 0 },
        SocketAddress::V6 { ip: 0x2001_0db8_0000_0000_0000_0000_0000_0001, port: 443, flowinfo: 0, scope_id: 0 },
        SocketAddress::V6 { ip: 0xfe80_0000_0000_0000_0000_0000_0000_0001, port: 80, flowinfo: 0, scope_id: 3 },
    ];
    for a in addrs {
        let e = Endpoint::Addr(a);
        assert_eq!(Endpoint::parse(&e.to_string()), Ok(e));
    }
    let d = Endpoint::Domain("example.com".to_string(), 8080);
    assert_eq!(Endpoint::parse(&d.to_string()), Ok(d));
}
