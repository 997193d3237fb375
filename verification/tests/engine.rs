use dandelion::engine::{AcceptorConfig, Config, ConfigError};
use dandelion::net::SocketAddress;

#[test]
fn test_add_acceptor() {
    let mut config = Config::new();
    config.add_socks5_acceptor("127.0.0.1:8080", "handler").unwrap();
    config.add_http_acceptor("127.0.0.1:8081", "handler").unwrap();
    assert_eq!(
        config.acceptors(),
        &vec![
            AcceptorConfig::Socks5(SocketAddress::V4 { ip: 0x7f00_0001, port: 8080 }, "handler".to_owned()),
            AcceptorConfig::Http(SocketAddress::V4 { ip: 0x7f00_0001, port: 8081 }, "handler".to_owned()),
        ]
    );
}

#[test]
fn config_refuses_bad_listen_address() {
    let mut config = Config::new();
    assert_eq!(config.add_socks5_acceptor("localhost:8080", "h"), Err(ConfigError::InvalidAddress));
    assert_eq!(config.add_http_acceptor("127.0.0.1", "h"), Err(ConfigError::InvalidAddress));
    assert!(config.acceptors().is_empty());
    config.add_http_acceptor("[::1]:3128", "h").unwrap();
    assert_eq!(config.acceptors().len(), 1);
}
