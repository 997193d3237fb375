use dandelion::connector::{ConnectAttempt, quic_attempts, quic_server, BlockConnector, ConnectError, QuicAttempt, TcpConnector, TcpPoolConnector};
use dandelion::endpoint::Endpoint;
use dandelion::net::{IpAddress, SocketAddress};

fn addr(s: &str) -> SocketAddress {
    match Endpoint::parse(s) {
        Ok(Endpoint::Addr(a)) => a,
        _ => panic!("not a socket address: {}", s),
    }
}

#[test]
fn block_connector_refuses() {
    let c = BlockConnector {};
    assert_eq!(c.connect(&Endpoint::parse("example.com:443").unwrap()), Err("Connection to example.com:443 blocked".to_string()));
    assert_eq!(c.connect(&Endpoint::parse("[::1]:80").unwrap()), Err("Connection to [::1]:80 blocked".to_string()));
}

#[test]
fn tcp_connector_races_every_address() {
    let c = TcpConnector {};
    let direct = Endpoint::Addr(addr("1.2.3.4:80"));
    assert_eq!(c.connection_attempts(&direct, &vec![]), Ok(vec![ConnectAttempt { delay_ms: 0, addr: addr("1.2.3.4:80") }]));
    let d = Endpoint::parse("example.com:80").unwrap();
    assert_eq!(
        c.connection_attempts(&d, &vec![addr("[2001:db8::1]:80"), addr("5.6.7.8:80"), addr("9.9.9.9:80")]),
        Ok(vec![
            ConnectAttempt { delay_ms: 0, addr: addr("[2001:db8::1]:80") },
            ConnectAttempt { delay_ms: 250, addr: addr("5.6.7.8:80") },
            ConnectAttempt { delay_ms: 500, addr: addr("9.9.9.9:80") },
        ])
    );
    assert_eq!(c.connection_attempts(&d, &vec![]), Err(ConnectError::NoRecords));
    let mixed = vec![addr("1.1.1.1:80"), addr("2.2.2.2:80"), addr("[2001:db8::a]:80"), addr("[2001:db8::b]:80"), addr("3.3.3.3:80")];
    let order: Vec<SocketAddress> = c.connection_attempts(&d, &mixed).unwrap().into_iter().map(|a| a.addr).collect();
    assert_eq!(
        order,
        vec![addr("1.1.1.1:80"), addr("[2001:db8::a]:80"), addr("2.2.2.2:80"), addr("[2001:db8::b]:80"), addr("3.3.3.3:80")]
    );
}

#[test]
fn tcp_pool_hands_out_ready_connections() {
    let e = Endpoint::parse("example.com:443").unwrap();
    let mut pool: TcpPoolConnector<u32, String> = TcpPoolConnector::new(e.duplicate());
    pool.add(Err("refused".to_string()));
    pool.add(Ok(7));
    pool.add(Ok(8));
    assert_eq!(pool.take(&Endpoint::parse("other.com:443").unwrap()), Err(ConnectError::WrongEndpoint));
    assert_eq!(pool.take(&e), Ok((Some(7), 2)));
    assert_eq!(pool.take(&e), Ok((Some(8), 1)));
    assert_eq!(pool.take(&e), Ok((None, 0)));
    pool.add(Err("timeout".to_string()));
    assert_eq!(pool.take(&e), Ok((None, 1)));
}

#[test]
fn quic_needs_a_domain() {
    assert_eq!(quic_server(&Endpoint::parse("example.com:443").unwrap()), Ok(("example.com".to_string(), 443)));
    assert_eq!(
        quic_server(&Endpoint::parse("1.2.3.4:443").unwrap()),
        Err("Cannot connect to remote with ip 1.2.3.4:443, domain is required for certificate validation".to_string())
    );
}

#[test]
fn quic_attempts_bind_the_server_family() {
    let attempts = quic_attempts(&vec![IpAddress::V4(0x0102_0304), IpAddress::V6(1)], 443);
    assert_eq!(
        attempts,
        vec![
            QuicAttempt { local: addr("0.0.0.0:0"), remote: addr("1.2.3.4:443") },
            QuicAttempt { local: addr("[::]:0"), remote: addr("[::1]:443") },
        ]
    );
}
