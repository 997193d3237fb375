use dandelion::connector_config::{
    check_connector, find_connector, named_connector, ConfigError, ConnectorConfig, NamedConnector, RuleEntry,
    SpeedEntry,
};
use dandelion::endpoint::Endpoint;
use dandelion::geoip::Source;
use dandelion::rule::Mode;

fn named(name: &str, config: ConnectorConfig) -> NamedConnector {
    NamedConnector { name: name.to_string(), config }
}

fn rule(geoip: Option<Source>, connectors: Vec<NamedConnector>, rules: Vec<RuleEntry>) -> ConnectorConfig {
    ConnectorConfig::Rule { geoip, connectors, rules }
}

fn geo(country: Option<&str>, index: &str) -> RuleEntry {
    RuleEntry::GeoIp { country: country.map(|c| c.to_string()), equal: true, index: index.to_string() }
}

#[test]
fn connector_config_plain_connectors_build() {
    assert_eq!(check_connector(&ConnectorConfig::Direct), Ok(()));
    assert_eq!(check_connector(&ConnectorConfig::Block), Ok(()));
    let remote = ConnectorConfig::Simplex {
        endpoint: Endpoint::parse("example.com:443").unwrap(),
        path: "/ws".to_string(),
        secret_key: "k".to_string(),
        secret_value: "v".to_string(),
        next: Box::new(ConnectorConfig::Tls(Box::new(ConnectorConfig::Direct))),
    };
    assert_eq!(check_connector(&remote), Ok(()));
}

#[test]
fn connector_config_rule_without_geo() {
    let config = rule(
        None,
        vec![named("direct", ConnectorConfig::Direct), named("block", ConnectorConfig::Block)],
        vec![
            RuleEntry::Domain { modes: vec![Mode::Suffix(".cn".to_string())], index: "direct".to_string() },
            RuleEntry::DnsFail("block".to_string()),
            RuleEntry::All("direct".to_string()),
        ],
    );
    assert_eq!(check_connector(&config), Ok(()));
}

#[test]
fn connector_config_wrong_rule() {
    let config = rule(None, vec![named("direct", ConnectorConfig::Direct)], vec![RuleEntry::All("proxy".to_string())]);
    assert_eq!(check_connector(&config), Err(ConfigError::MissingConnector("proxy".to_string())));
}

#[test]
fn connector_config_geo_rule_needs_database() {
    let connectors = || vec![named("direct", ConnectorConfig::Direct)];
    let config = rule(None, connectors(), vec![geo(Some("CN"), "direct")]);
    assert_eq!(check_connector(&config), Err(ConfigError::MissingGeoIp));
    let config = rule(Some(Source::License("key".to_string())), connectors(), vec![geo(Some("CN"), "direct")]);
    assert_eq!(check_connector(&config), Ok(()));
    let config = rule(Some(Source::File("/db.mmdb".to_string())), connectors(), vec![geo(None, "direct")]);
    assert_eq!(check_connector(&config), Ok(()));
}

#[test]
fn connector_config_unknown_country() {
    let config = rule(
        Some(Source::File("/db.mmdb".to_string())),
        vec![named("direct", ConnectorConfig::Direct)],
        vec![geo(Some("XX"), "direct")],
    );
    assert_eq!(check_connector(&config), Err(ConfigError::UnknownCountry("XX".to_string())));
}

#[test]
fn connector_config_first_error_wins() {
    let inner = rule(None, vec![], vec![RuleEntry::All("nowhere".to_string())]);
    let config = rule(
        None,
        vec![named("inner", inner), named("direct", ConnectorConfig::Direct)],
        vec![RuleEntry::All("inner".to_string()), geo(Some("US"), "direct")],
    );
    assert_eq!(check_connector(&config), Err(ConfigError::MissingConnector("nowhere".to_string())));
    let speed = ConnectorConfig::Speed(vec![
        SpeedEntry { delay_ms: 0, config: ConnectorConfig::Direct },
        SpeedEntry { delay_ms: 100, config: rule(None, vec![], vec![RuleEntry::DnsFail("a".to_string())]) },
        SpeedEntry { delay_ms: 200, config: rule(None, vec![], vec![RuleEntry::DnsFail("b".to_string())]) },
    ]);
    assert_eq!(check_connector(&speed), Err(ConfigError::MissingConnector("a".to_string())));
}

#[test]
fn connector_config_lookup_by_name() {
    let cs = vec![named("a", ConnectorConfig::Direct), named("b", ConnectorConfig::Block), named("b", ConnectorConfig::Direct)];
    assert_eq!(find_connector(&cs, "b"), Some(1));
    assert_eq!(find_connector(&cs, "c"), None);
    assert!(matches!(named_connector(&cs, "b"), Some(ConnectorConfig::Block)));
    assert!(named_connector(&cs, "").is_none());
}

#[test]
fn connector_config_invalid_regex() {
    let config = rule(
        None,
        vec![named("direct", ConnectorConfig::Direct)],
        vec![RuleEntry::Domain {
            modes: vec![Mode::Prefix("www.".to_string()), Mode::Regex("(".to_string()), Mode::Regex("[".to_string())],
            index: "direct".to_string(),
        }],
    );
    assert_eq!(check_connector(&config), Err(ConfigError::InvalidRegex("(".to_string())));
}

#[test]
fn connector_config_reading_errors_come_first() {
    let config = rule(
        Some(Source::File("/db.mmdb".to_string())),
        vec![named("direct", ConnectorConfig::Direct)],
        vec![RuleEntry::All("missing".to_string()), geo(Some("XX"), "direct")],
    );
    assert_eq!(check_connector(&config), Err(ConfigError::UnknownCountry("XX".to_string())));
    let unused = rule(
        None,
        vec![],
        vec![RuleEntry::Domain { modes: vec![Mode::Regex("(".to_string())], index: "x".to_string() }],
    );
    let config = rule(None, vec![named("direct", ConnectorConfig::Direct), named("unused", unused)], vec![
        RuleEntry::All("missing".to_string()),
    ]);
    assert_eq!(check_connector(&config), Err(ConfigError::InvalidRegex("(".to_string())));
}
