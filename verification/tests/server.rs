use dandelion::connector_config::ConnectorConfig;
use dandelion::endpoint::Endpoint;
use dandelion::net::{IpAddress, IpNet, SocketAddress};
use dandelion::server::{route_actions, AcceptorConfig, PrivilegeAction, ResolverConfig, ServeError, ServerConfig};

fn addr(s: &str) -> SocketAddress {
    match Endpoint::parse(s) {
        Ok(Endpoint::Addr(a)) => a,
        _ => panic!("not a socket address: {}", s),
    }
}

fn tun() -> AcceptorConfig {
    AcceptorConfig::Tun { listen_addr: addr("10.0.0.1:53"), subnet: IpNet { addr: IpAddress::V4(0x0a00_0007), prefix: 24 } }
}

fn simplex() -> AcceptorConfig {
    AcceptorConfig::Simplex {
        addr: addr("0.0.0.0:443"),
        path: "/ws".to_string(),
        secret_key: "k".to_string(),
        secret_value: "v".to_string(),
    }
}

#[test]
fn server_refuses_tun_with_system_resolver() {
    let config = ServerConfig { acceptors: vec![tun()], connector: ConnectorConfig::Direct, resolver: ResolverConfig::System };
    assert!(config.tun_enabled());
    assert_eq!(config.check(), Err(ServeError::SystemResolverWithTun));
    let config = ServerConfig { acceptors: vec![tun()], connector: ConnectorConfig::Direct, resolver: ResolverConfig::Udp(addr("8.8.8.8:53")) };
    assert_eq!(config.check(), Ok(()));
    let config = ServerConfig {
        acceptors: vec![AcceptorConfig::Socks5 { addr: addr("127.0.0.1:1080") }],
        connector: ConnectorConfig::Direct, resolver: ResolverConfig::System,
    };
    assert!(!config.tun_enabled());
    assert_eq!(config.check(), Ok(()));
}

#[test]
fn server_reports_first_proxy_endpoints() {
    let config = ServerConfig {
        acceptors: vec![
            simplex(),
            AcceptorConfig::Http { addr: addr("127.0.0.1:8080") },
            AcceptorConfig::Socks5 { addr: addr("127.0.0.1:1080") },
            AcceptorConfig::Socks5 { addr: addr("127.0.0.1:1081") },
        ],
        connector: ConnectorConfig::Direct, resolver: ResolverConfig::System,
    };
    let (socks, http) = config.proxy_endpoints();
    assert!(socks.unwrap().equals(&Endpoint::Addr(addr("127.0.0.1:1080"))));
    assert!(http.unwrap().equals(&Endpoint::Addr(addr("127.0.0.1:8080"))));
    let empty = ServerConfig { acceptors: vec![simplex()], connector: ConnectorConfig::Direct, resolver: ResolverConfig::System };
    let (socks, http) = empty.proxy_endpoints();
    assert!(socks.is_none());
    assert!(http.is_none());
}

#[test]
fn server_route_actions() {
    let acceptors = vec![
        AcceptorConfig::Socks5 { addr: addr("127.0.0.1:1080") },
        simplex(),
        AcceptorConfig::Http { addr: addr("127.0.0.1:8080") },
        tun(),
    ];
    assert_eq!(
        route_actions(&acceptors, true),
        vec![
            PrivilegeAction::SetSocks5Proxy(Some(addr("127.0.0.1:1080"))),
            PrivilegeAction::SetHttpProxy(Some(addr("127.0.0.1:8080"))),
            PrivilegeAction::SetDns(Some(addr("10.0.0.0:53"))),
        ]
    );
    assert_eq!(
        route_actions(&acceptors, false),
        vec![
            PrivilegeAction::SetSocks5Proxy(None),
            PrivilegeAction::SetHttpProxy(None),
            PrivilegeAction::SetDns(None),
        ]
    );
    assert_eq!(tun().server_addr(), &addr("10.0.0.1:53"));
}
