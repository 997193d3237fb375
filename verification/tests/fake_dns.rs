use dandelion::fake_dns::{FakeDnsResolver, FakeResolver};
use dandelion::net::IpAddress;
use std::collections::HashSet;

/// The value of a dotted-decimal IPv4 address.
fn v4(s: &str) -> u32 {
    s.split('.').fold(0u32, |acc, octet| (acc << 8) | octet.parse::<u32>().unwrap())
}

/// The value of the IPv6 addresses these tests use.
fn v6(s: &str) -> u128 {
    match s {
        "2001:db8::1" => 0x2001_0db8_0000_0000_0000_0000_0000_0001,
        "fd00::1" => 0xfd00_0000_0000_0000_0000_0000_0000_0001,
        _ => panic!("no value given for {}", s),
    }
}

#[test]
fn fake_dns_will_return_ip_for_ip_address() {
    let mut resolver = FakeDnsResolver::new(Vec::new(), Vec::new());

    assert_eq!(resolver.lookup_ipv4("10.0.0.1"), Some(v4("10.0.0.1")));

    assert_eq!(resolver.lookup_ipv6("2001:db8::1"), Some(v6("2001:db8::1")));
}

#[test]
fn test_pool_with_bidirectional_mapping() {
    let network = ipnetwork::Ipv4Network::try_from("10.0.0.1/24").unwrap();

    let mut resolver = FakeDnsResolver::new(
        network.iter().map(u32::from).collect(),
        Vec::new(),
    );

    let mut set = HashSet::new();
    let mut addrs = Vec::new();

    for i in 0..network.size() {
        let name = i.to_string();
        let result = resolver.lookup_ipv4(&name);

        assert!(result.is_some());

        let ip = result.unwrap();

        assert_eq!(resolver.reverse_lookup(IpAddress::V4(ip)), Some(name));

        assert!(!set.contains(&ip));

        set.insert(ip);
        addrs.push(ip);
    }

    // now test lru
    for i in 0..network.size() {
        let name = i.to_string() + ".new";
        let result = resolver.lookup_ipv4(&name);

        assert!(result.is_some());

        let ip = result.unwrap();

        // we should get the same IP addresses in the same order
        assert_eq!(ip, addrs[i as usize]);

        // reverse lookup should still work
        assert_eq!(resolver.reverse_lookup(IpAddress::V4(ip)), Some(name));
    }
}

#[test]
fn fake_dns_ip_of_other_family_gives_nothing() {
    let mut resolver = FakeDnsResolver::new(vec![v4("10.0.0.1")], vec![v6("fd00::1")]);
    assert_eq!(resolver.lookup_ipv4("2001:db8::1"), None);
    assert_eq!(resolver.lookup_ipv6("10.0.0.1"), None);
    // the pools were not touched
    assert_eq!(resolver.lookup_ipv4("a.example"), Some(v4("10.0.0.1")));
    assert_eq!(resolver.lookup_ipv6("a.example"), Some(v6("fd00::1")));
}

#[test]
fn fake_dns_same_name_same_address() {
    let mut resolver = FakeDnsResolver::new(vec![v4("10.0.0.1"), v4("10.0.0.2")], Vec::new());
    let a = resolver.lookup_ipv4("example.com").unwrap();
    let b = resolver.lookup_ipv4("example.org").unwrap();
    assert_ne!(a, b);
    assert_eq!(resolver.lookup_ipv4("example.com"), Some(a));
    assert_eq!(resolver.reverse_lookup(IpAddress::V4(a)), Some("example.com".to_string()));
    assert_eq!(resolver.reverse_lookup(IpAddress::V4(b)), Some("example.org".to_string()));
}

#[test]
fn fake_dns_evicts_least_recently_used() {
    let mut resolver = FakeDnsResolver::new(vec![v4("10.0.0.1"), v4("10.0.0.2")], Vec::new());
    let a = resolver.lookup_ipv4("a").unwrap();
    let b = resolver.lookup_ipv4("b").unwrap();
    // touching "a" makes "b" the least recently used
    assert_eq!(resolver.lookup_ipv4("a"), Some(a));
    let c = resolver.lookup_ipv4("c").unwrap();
    assert_eq!(c, b);
    assert_eq!(resolver.reverse_lookup(IpAddress::V4(b)), Some("c".to_string()));
    assert_eq!(resolver.reverse_lookup(IpAddress::V4(a)), Some("a".to_string()));
}

#[test]
fn fake_dns_empty_pool_gives_nothing() {
    let mut resolver = FakeDnsResolver::new(Vec::new(), Vec::new());
    assert_eq!(resolver.lookup_ipv4("example.com"), None);
    assert_eq!(resolver.lookup_ipv6("example.com"), None);
    assert_eq!(resolver.reverse_lookup(IpAddress::V4(v4("10.0.0.1"))), None);
}

#[test]
fn fake_dns_reverse_lookup_of_unknown_address() {
    let mut resolver = FakeDnsResolver::new(vec![v4("10.0.0.1")], vec![v6("fd00::1")]);
    assert_eq!(resolver.reverse_lookup(IpAddress::V4(v4("10.0.0.1"))), None);
    let x = resolver.lookup_ipv6("v6.example").unwrap();
    assert_eq!(x, v6("fd00::1"));
    assert_eq!(resolver.reverse_lookup(IpAddress::V6(x)), Some("v6.example".to_string()));
}

#[test]
fn fake_resolver_answers_with_text() {
    let inner = FakeDnsResolver::new(vec![v4("10.0.0.1"), v4("10.0.0.2")], Vec::new());
    let mut r = FakeResolver::new(inner);
    assert_eq!(r.lookup_ipv4("example.com"), Ok("10.0.0.1".to_string()));
    assert_eq!(r.lookup_ipv4("example.com"), Ok("10.0.0.1".to_string()));
    assert_eq!(r.lookup_ipv4("1.2.3.4"), Ok("1.2.3.4".to_string()));
    assert_eq!(
        r.lookup_ipv6("example.com"),
        Err("No fake IPv6 assigned for example.com, possibly due to fake DNS doesn't have an IPv6 pool.".to_string())
    );
    assert_eq!(r.lookup_ipv6("2001:db8::1"), Ok("2001:db8::1".to_string()));
    assert_eq!(
        r.lookup_ipv4("::1"),
        Err("No fake IPv4 assigned for ::1, possibly due to fake DNS doesn't have an IPv4 pool.".to_string())
    );
}

#[test]
fn fake_dns_pool_with_repeated_address() {
    let a = v4("10.0.0.1");
    let mut resolver = FakeDnsResolver::new(vec![a, a], Vec::new());
    assert_eq!(resolver.lookup_ipv4("x.example"), Some(a));
    assert_eq!(resolver.lookup_ipv4("y.example"), Some(a));
    assert_eq!(resolver.reverse_lookup(IpAddress::V4(a)), Some("y.example".to_string()));
    assert_eq!(resolver.lookup_ipv4("x.example"), Some(a));
    assert_eq!(resolver.lookup_ipv4("z.example"), Some(a));
    assert_eq!(resolver.reverse_lookup(IpAddress::V4(a)), Some("z.example".to_string()));
}
