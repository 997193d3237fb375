use dandelion::endpoint::Endpoint;
use dandelion::net::SocketAddress;
use dandelion::socks5::{socks5_success_reply, Socks5Action, Socks5Error, Socks5Handshake};

/// Feeds the chunks in turn; returns the writes asked for and the final outcome.
fn run(chunks: &[&[u8]]) -> (Vec<Vec<u8>>, Result<Endpoint, Socks5Error>) {
    let mut h = Socks5Handshake::new();
    let mut writes = Vec::new();
    for chunk in chunks {
        assert_eq!(chunk.len(), h.bytes_wanted());
        match h.feed(chunk) {
            Ok(Socks5Action::Read(n)) => assert_eq!(n, h.bytes_wanted()),
            Ok(Socks5Action::WriteThenRead(w, n)) => {
                writes.push(w);
                assert_eq!(n, h.bytes_wanted());
            }
            Ok(Socks5Action::Connect(e)) => return (writes, Ok(e)),
            Err(e) => return (writes, Err(e)),
        }
    }
    panic!("handshake did not finish")
}

#[test]
fn socks5_domain_request() {
    let (writes, res) = run(&[
        &[5, 1],
        &[0],
        &[5, 1, 0, 3],
        &[11],
        b"example.com",
        &[0x01, 0xbb],
    ]);
    assert_eq!(writes, vec![vec![5u8, 0]]);
    assert_eq!(res, Ok(Endpoint::Domain("example.com".to_string(), 443)));
}

#[test]
fn socks5_ipv4_request() {
    let (_, res) = run(&[&[5, 2], &[2, 0], &[5, 1, 0, 1], &[127, 0, 0, 1], &[0, 80]]);
    assert_eq!(res, Ok(Endpoint::Addr(SocketAddress::V4 { ip: 0x7f00_0001, port: 80 })));
}

#[test]
fn socks5_ipv6_request() {
    let mut addr = [0u8; 16];
    addr[15] = 1;
    let (_, res) = run(&[&[5, 1], &[0], &[5, 1, 0, 4], &addr, &[0x1f, 0x90]]);
    assert_eq!(
        res,
        Ok(Endpoint::Addr(SocketAddress::V6 { ip: 1, port: 8080, flowinfo: 0, scope_id: 0 }))
    );
}

#[test]
fn socks5_refusals() {
    assert_eq!(run(&[&[4, 1]]).1, Err(Socks5Error::UnsupportedVersion(4)));
    assert_eq!(run(&[&[5, 0]]).1, Err(Socks5Error::NoAuthMethods));
    assert_eq!(run(&[&[5, 2], &[1, 2]]).1, Err(Socks5Error::NoAuthNotRequested));
    assert_eq!(run(&[&[5, 1], &[0], &[4, 1, 0, 1]]).1, Err(Socks5Error::UnsupportedVersion(4)));
    assert_eq!(run(&[&[5, 1], &[0], &[5, 2, 0, 1]]).1, Err(Socks5Error::UnsupportedCommand(2)));
    assert_eq!(run(&[&[5, 1], &[0], &[5, 1, 0, 2]]).1, Err(Socks5Error::UnsupportedAddressType(2)));
    assert_eq!(
        run(&[&[5, 1], &[0], &[5, 1, 0, 3], &[2], &[0xff, 0xfe]]).1,
        Err(Socks5Error::InvalidDomain)
    );
}

#[test]
fn socks5_success_reply_bytes() {
    assert_eq!(socks5_success_reply(), vec![5u8, 0, 0, 1, 0, 0, 0, 0, 0, 0]);
}

#[test]
fn socks5_handshake_ends_on_connect_or_refusal() {
    let mut h = Socks5Handshake::new();
    assert!(!h.is_done());
    assert!(h.feed(&[4, 1]).is_err());
    assert!(h.is_done());
    let mut h = Socks5Handshake::new();
    for chunk in [&[5u8, 1][..], &[0], &[5, 1, 0, 1], &[127, 0, 0, 1]] {
        assert!(h.feed(chunk).is_ok());
        assert!(!h.is_done());
    }
    match h.feed(&[0, 80]) {
        Ok(Socks5Action::Connect(e)) => assert_eq!(e, Endpoint::Addr(SocketAddress::V4 { ip: 0x7f00_0001, port: 80 })),
        _ => panic!("expected a connect"),
    }
    assert!(h.is_done());
}
