use dandelion::net::{IpAddress, SocketAddress};
use dandelion::resolver::{address_texts, lookup_answer, nameserver_addresses, ResolverConfigError};

#[test]
fn resolver_nameservers_in_order() {
    let addrs = vec!["8.8.8.8:53".to_string(), "[2001:4860:4860::8888]:53".to_string()];
    assert_eq!(
        nameserver_addresses(&addrs),
        Ok(vec![
            SocketAddress::V4 { ip: 0x0808_0808, port: 53 },
            SocketAddress::V6 { ip: 0x2001_4860_4860_0000_0000_0000_0000_8888, port: 53, flowinfo: 0, scope_id: 0 },
        ])
    );
    let bad = vec!["8.8.8.8:53".to_string(), "dns.google".to_string(), "nope".to_string()];
    assert_eq!(nameserver_addresses(&bad), Err(ResolverConfigError::InvalidAddress(1)));
    assert_eq!(nameserver_addresses(&vec![]), Ok(vec![]));
}

#[test]
fn resolver_empty_answer_is_an_error() {
    assert_eq!(lookup_answer("example.com", vec![]), Err("Failed to find result for domain example.com".to_string()));
    let ip = IpAddress::V4(0x0101_0101);
    assert_eq!(lookup_answer("example.com", vec![ip]), Ok(vec![ip]));
}

#[test]
fn resolver_answer_texts() {
    let ips = vec![IpAddress::V4(0x0101_0101), IpAddress::V6(0x2606_4700_0000_0000_0000_0000_0000_1111)];
    assert_eq!(address_texts(&ips), vec!["1.1.1.1".to_string(), "2606:4700::1111".to_string()]);
}

#[test]
fn test_create_udp_resolver() {
    let servers = nameserver_addresses(&vec!["8.8.8.8:53".to_string(), "1.1.1.1:53".to_string()]);
    assert!(servers.is_ok());
}
