use dandelion::iplist::{new_iplist, IpListError};

#[test]
fn test_iplist() {
    for (ipnetwork_str, ip_str, expected) in [
        ("10.0.0.0/8", "10.0.0.1", true),
        ("10.0.0.0/8", "12.0.0.1", false),
        ("2001:db8::/32", "2001:db8::1", true),
        ("2001:db8::/32", "2001:db9::1", false),
        ("127.0.0.1", "127.0.0.1", true),
        ("127.0.0.1", "127.0.0.2", false),
        ("::1/128", "::1", true),
        ("::1/128", "::2", false),
    ] {
        let iplist = new_iplist(&vec![ipnetwork_str.to_string()]).unwrap();
        assert_eq!(iplist.contains(ip_str), Ok(expected), "{} {}", ipnetwork_str, ip_str);
    }
}

#[test]
fn iplist_rejects_bad_entries() {
    let r = new_iplist(&vec!["10.0.0.0/8".to_string(), "10.0.0.0/33".to_string(), "bogus".to_string()]);
    assert_eq!(r.err(), Some(IpListError::InvalidNetwork(1)));
    assert!(new_iplist(&vec!["not a network".to_string()]).is_err());
}

#[test]
fn iplist_rejects_bad_addresses() {
    let iplist = new_iplist(&vec!["10.0.0.0/8".to_string()]).unwrap();
    assert_eq!(iplist.contains("10.0.0"), Err(IpListError::InvalidIp));
}

#[test]
fn iplist_netmask_and_zero_prefix() {
    let iplist = new_iplist(&vec!["192.168.0.0/255.255.0.0".to_string()]).unwrap();
    assert_eq!(iplist.contains("192.168.3.4"), Ok(true));
    assert_eq!(iplist.contains("192.169.3.4"), Ok(false));
    let all = new_iplist(&vec!["0.0.0.0/0".to_string()]).unwrap();
    assert_eq!(all.contains("8.8.8.8"), Ok(true));
    assert_eq!(all.contains("::1"), Ok(false));
}

#[test]
fn iplist_contains_any_in_order() {
    let iplist = new_iplist(&vec!["10.0.0.0/8".to_string(), "fd00::/8".to_string()]).unwrap();
    let ips = |v: &[&str]| v.iter().map(|s| s.to_string()).collect::<Vec<_>>();
    assert_eq!(iplist.contains_any(&ips(&["1.1.1.1", "fd00::5"])), Ok(true));
    assert_eq!(iplist.contains_any(&ips(&["1.1.1.1", "2.2.2.2"])), Ok(false));
    assert_eq!(iplist.contains_any(&ips(&[])), Ok(false));
    // a match before a bad entry wins; a bad entry before any match fails
    assert_eq!(iplist.contains_any(&ips(&["10.1.1.1", "bad"])), Ok(true));
    assert_eq!(iplist.contains_any(&ips(&["bad", "10.1.1.1"])), Err(IpListError::InvalidIp));
}
