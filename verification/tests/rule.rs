use dandelion::endpoint::Endpoint;
use dandelion::iplist::new_iplist;
use dandelion::net::{IpAddress, IpNet, SocketAddress};
use dandelion::rule::{
    first_rule_step, next_rule_step, AllRule, DnsFailRule, DomainRule, GeoLookup, GeoRule, IpRule, Mode, RuleError, RuleStep,
};

fn domain(d: &str) -> Endpoint {
    Endpoint::Domain(d.to_string(), 443)
}

#[test]
fn domain_rule_modes() {
    let rule = DomainRule::new(
        vec![
            Mode::Prefix("www.".to_string()),
            Mode::Suffix(".cn".to_string()),
            Mode::Keyword("google".to_string()),
            Mode::Regex("^ab+c$".to_string()),
        ],
        7u32,
    );
    assert_eq!(rule.check(&domain("www.example.com")), Some(&7));
    assert_eq!(rule.check(&domain("baidu.cn")), Some(&7));
    assert_eq!(rule.check(&domain("mail.google.com")), Some(&7));
    assert_eq!(rule.check(&domain("abbbc")), Some(&7));
    assert_eq!(rule.check(&domain("example.com")), None);
    assert_eq!(rule.check(&Endpoint::parse("1.2.3.4:80").unwrap()), None);
}

#[test]
fn domain_rule_invalid_regex_matches_nothing() {
    let rule = DomainRule::new(vec![Mode::Regex("(".to_string())], 1u8);
    assert_eq!(rule.check(&domain("(")), None);
}

#[test]
fn ip_rule_checks_address_or_resolution() {
    let net = IpNet { addr: IpAddress::V4(0x0a00_0000), prefix: 8 };
    let rule = IpRule::new(vec![net], "proxy");
    let addr = Endpoint::parse("10.1.2.3:80").unwrap();
    assert!(!rule.needs_lookup(&addr));
    assert_eq!(rule.check(&addr, &None), Some(&"proxy"));
    assert_eq!(rule.check(&Endpoint::parse("11.1.2.3:80").unwrap(), &None), None);
    let d = domain("example.com");
    assert!(rule.needs_lookup(&d));
    assert_eq!(rule.check(&d, &None), None);
    assert_eq!(
        rule.check(&d, &Some(vec![IpAddress::V4(0x0808_0808), IpAddress::V4(0x0a00_0001)])),
        Some(&"proxy")
    );
    assert_eq!(rule.check(&d, &Some(vec![IpAddress::V4(0x0808_0808)])), None);
}

#[test]
fn test_dns_fail() {
    let rule = DnsFailRule::new(1u8);
    assert_eq!(rule.check(&domain("t.invalid"), &None), Some(&1));
    assert_eq!(rule.check(&domain("t.test"), &Some(vec![])), Some(&1));
    assert_eq!(rule.check(&domain("google.com"), &Some(vec![IpAddress::V4(1)])), None);
    assert_eq!(rule.check(&Endpoint::Addr(SocketAddress::V4 { ip: 1, port: 443 }), &None), None);
}

#[test]
fn all_rule_always_matches() {
    let rule = AllRule::new(3u8);
    assert_eq!(rule.check(&domain("anything")), Some(&3));
}

#[test]
fn geo_rule_matches_country() {
    let cn = GeoRule::new(1u8, Some("CN".to_string()), true);
    assert_eq!(cn.match_ip(&GeoLookup::Found(Some("CN".to_string()))), Some(true));
    assert_eq!(cn.match_ip(&GeoLookup::Found(Some("US".to_string()))), Some(false));
    assert_eq!(cn.match_ip(&GeoLookup::NotFound), None);
    assert_eq!(cn.match_ip(&GeoLookup::Failed), None);
    assert_eq!(cn.check(&vec![GeoLookup::Found(Some("US".to_string())), GeoLookup::Found(Some("CN".to_string()))]), Some(&1));
    assert_eq!(cn.check(&vec![GeoLookup::Failed]), None);
    let not_cn = GeoRule::new(2u8, Some("CN".to_string()), false);
    assert_eq!(not_cn.check(&vec![GeoLookup::Found(Some("US".to_string()))]), Some(&2));
    assert_eq!(not_cn.check(&vec![GeoLookup::Failed]), None);
    let unknown = GeoRule::new(3u8, None, true);
    assert_eq!(unknown.check(&vec![GeoLookup::Found(None)]), Some(&3));
    assert_eq!(unknown.check(&vec![GeoLookup::NotFound]), None);
    assert_eq!(not_cn.check(&vec![GeoLookup::NotFound]), None);
}

/// Drives the steps over the rules' answers; returns the rules asked and the last step.
fn drive(answers: &[bool]) -> (Vec<usize>, RuleStep) {
    let mut asked = Vec::new();
    let mut step = first_rule_step(answers.len());
    while let RuleStep::Ask(i) = step {
        asked.push(i);
        step = next_rule_step(i, answers.len(), answers[i]);
    }
    (asked, step)
}

#[test]
fn rule_connector_takes_first_match() {
    assert_eq!(drive(&[false, true, true]), (vec![0, 1], RuleStep::Connect(1)));
    assert_eq!(drive(&[true, false]), (vec![0], RuleStep::Connect(0)));
    assert_eq!(drive(&[false, false]), (vec![0, 1], RuleStep::NoMatch));
    assert_eq!(drive(&[]), (vec![], RuleStep::NoMatch));
    assert_eq!(RuleError::NoRuleMatch.message(), "No rule match the target endpoint");
}

#[test]
fn iplist_and_ip_rule_agree() {
    let list = new_iplist(&vec!["192.168.0.0/16".to_string()]).unwrap();
    let rule = IpRule::new(vec![IpNet { addr: IpAddress::V4(0xc0a8_0000), prefix: 16 }], ());
    let e = Endpoint::parse("192.168.1.1:80").unwrap();
    assert_eq!(list.contains("192.168.1.1"), Ok(rule.check(&e, &None).is_some()));
}

#[test]
fn rule_regex_modes_must_compile() {
    assert!(dandelion::rule::mode_is_valid(&Mode::Regex("^a+$".to_string())));
    assert!(!dandelion::rule::mode_is_valid(&Mode::Regex("(".to_string())));
    assert!(dandelion::rule::mode_is_valid(&Mode::Keyword("(".to_string())));
}
