//! The connector configuration of the server: a tree of connectors whose
//! rule connectors route to connectors they name. Before the server builds
//! the connectors it resolves every name a rule uses and checks what each
//! rule needs; this module holds that resolution and its outcome.
use crate::endpoint::Endpoint;
use crate::geoip::Source;
use crate::net::IpNet;
use crate::rule::{mode_is_valid, mode_valid, Mode};
use crate::text::str_equal;
use vstd::prelude::*;

verus! {

/// A rule of a rule connector and the name of the connector it routes to.
#[derive(Debug, Clone)]
pub enum RuleEntry {
    All(String),
    DnsFail(String),
    Domain { modes: Vec<Mode>, index: String },
    GeoIp { country: Option<String>, equal: bool, index: String },
    Ip { subnets: Vec<IpNet>, index: String },
}

/// The name of the connector a rule routes to.
pub open spec fn rule_index(r: RuleEntry) -> Seq<char> {
    match r {
        RuleEntry::All(i) => i@,
        RuleEntry::DnsFail(i) => i@,
        RuleEntry::Domain { index, .. } => index@,
        RuleEntry::GeoIp { index, .. } => index@,
        RuleEntry::Ip { index, .. } => index@,
    }
}

/// A connector of a rule connector, under the name its rules use.
#[derive(Debug)]
pub struct NamedConnector {
    pub name: String,
    pub config: ConnectorConfig,
}

/// A connector of a speed connector, tried after `delay_ms` milliseconds.
#[derive(Debug)]
pub struct SpeedEntry {
    pub delay_ms: u64,
    pub config: ConnectorConfig,
}

/// How the server connects to the endpoints its clients ask for.
#[derive(Debug)]
pub enum ConnectorConfig {
    /// A direct TCP connection.
    Direct,
    /// A simplex tunnel to `endpoint`, opened over `next`.
    Simplex {
        endpoint: Endpoint,
        path: String,
        secret_key: String,
        secret_value: String,
        next: Box<ConnectorConfig>,
    },
    /// TLS over another connector.
    Tls(Box<ConnectorConfig>),
    /// The first rule that matches picks the connector.
    Rule { geoip: Option<Source>, connectors: Vec<NamedConnector>, rules: Vec<RuleEntry> },
    /// The connectors race, each started after its delay.
    Speed(Vec<SpeedEntry>),
    /// An HTTP proxy at `endpoint`, reached over `next`.
    Http { endpoint: Endpoint, next: Box<ConnectorConfig> },
    /// A SOCKS5 proxy at `endpoint`, reached over `next`.
    Socks5 { endpoint: Endpoint, next: Box<ConnectorConfig> },
    /// Refuses every connection.
    Block,
}

/// Why a connector configuration cannot be built.
#[derive(Debug, Clone, PartialEq, Eq)]
pub enum ConfigError {
    /// A geo rule names a country that is no ISO 3166-1 alpha-2 code.
    UnknownCountry(String),
    /// A rule names a connector its rule connector does not have.
    MissingConnector(String),
    /// A geo rule in a rule connector without a country database.
    MissingGeoIp,
    /// A domain rule has a regex mode whose pattern does not compile.
    InvalidRegex(String),
}

/// A `ConfigError` with its text as a sequence.
pub enum ConfigErrorView {
    UnknownCountry(Seq<char>),
    MissingConnector(Seq<char>),
    MissingGeoIp,
    InvalidRegex(Seq<char>),
}

impl View for ConfigError {
    type V = ConfigErrorView;

    open spec fn view(&self) -> ConfigErrorView {
        match self {
            ConfigError::UnknownCountry(c) => ConfigErrorView::UnknownCountry(c@),
            ConfigError::MissingConnector(n) => ConfigErrorView::MissingConnector(n@),
            ConfigError::MissingGeoIp => ConfigErrorView::MissingGeoIp,
            ConfigError::InvalidRegex(p) => ConfigErrorView::InvalidRegex(p@),
        }
    }
}

/// What `iso3166_1::alpha2` tells of a text: whether it is the alpha-2 code
/// of a country in the crate's table.
pub uninterp spec fn alpha2_known(code: Seq<char>) -> bool;

/// Whether `iso3166_1::alpha2` finds a country with this alpha-2 code.
#[verifier::external_body]
fn is_alpha2_code(code: &str) -> (res: bool)
    ensures
        res == alpha2_known(code@),
{
    iso3166_1::alpha2(code).is_some()
}

/// The position of the first connector called `name`, or -1.
pub open spec fn find_named(cs: Seq<NamedConnector>, name: Seq<char>) -> int
    decreases cs.len(),
{
    if cs.len() == 0 {
        -1
    } else if cs[0].name@ == name {
        0
    } else {
        let k = find_named(cs.drop_first(), name);
        if k < 0 {
            -1
        } else {
            k + 1
        }
    }
}

pub proof fn lemma_find_named(cs: Seq<NamedConnector>, name: Seq<char>)
    ensures
        -1 <= find_named(cs, name) < cs.len(),
        find_named(cs, name) >= 0 ==> cs[find_named(cs, name)].name@ == name,
        find_named(cs, name) == -1 ==> forall|i: int| 0 <= i < cs.len() ==> (#[trigger] cs[i]).name@ != name,
        forall|i: int| 0 <= i < find_named(cs, name) ==> (#[trigger] cs[i]).name@ != name,
    decreases cs.len(),
{
    if cs.len() > 0 && cs[0].name@ != name {
        lemma_find_named(cs.drop_first(), name);
        assert forall|i: int| 1 <= i < cs.len() implies cs[i] == cs.drop_first()[i - 1] by {}
    }
}

/// Whether a rule is a geo rule with a country that is no known code, and
/// that country.
pub open spec fn unknown_country(r: RuleEntry) -> Option<Seq<char>> {
    match r {
        RuleEntry::GeoIp { country: Some(c), .. } => if alpha2_known(c@) {
            None
        } else {
            Some(c@)
        },
        _ => None,
    }
}

/// The position of the first mode that cannot be used, or -1.
pub open spec fn first_invalid_mode(modes: Seq<Mode>) -> int
    decreases modes.len(),
{
    if modes.len() == 0 {
        -1
    } else if !mode_valid(modes[0]) {
        0
    } else {
        let k = first_invalid_mode(modes.drop_first());
        if k < 0 {
            -1
        } else {
            k + 1
        }
    }
}

pub proof fn lemma_first_invalid_mode(modes: Seq<Mode>)
    ensures
        -1 <= first_invalid_mode(modes) < modes.len(),
        first_invalid_mode(modes) >= 0 ==> !mode_valid(modes[first_invalid_mode(modes)]),
        first_invalid_mode(modes) >= 0 ==> modes[first_invalid_mode(modes)] is Regex,
        forall|i: int| 0 <= i < modes.len() && (first_invalid_mode(modes) == -1 || i < first_invalid_mode(modes))
            ==> mode_valid(#[trigger] modes[i]),
    decreases modes.len(),
{
    if modes.len() > 0 && mode_valid(modes[0]) {
        lemma_first_invalid_mode(modes.drop_first());
        assert forall|i: int| 1 <= i < modes.len() implies modes[i] == modes.drop_first()[i - 1] by {}
    }
}

/// The pattern of the first regex mode of a domain rule that does not
/// compile.
pub open spec fn invalid_regex(r: RuleEntry) -> Option<Seq<char>> {
    match r {
        RuleEntry::Domain { modes, .. } => {
            let k = first_invalid_mode(modes@);
            if k >= 0 {
                match modes@[k] {
                    Mode::Regex(p) => Some(p@),
                    _ => None,
                }
            } else {
                None
            }
        },
        _ => None,
    }
}

/// The first value of the configuration that cannot be read, in the order
/// the configuration is written (a connector's inner connector; a rule
/// connector's named connectors, then its rules; a speed connector's
/// connectors in order): a geo rule's country that is no known code, or a
/// domain rule's regex that does not compile. The whole configuration is
/// read before anything is built, so these come first.
pub open spec fn read_error(c: ConnectorConfig) -> Option<ConfigErrorView>
    decreases c, 2int, 0int,
{
    match c {
        ConnectorConfig::Direct => None,
        ConnectorConfig::Block => None,
        ConnectorConfig::Simplex { next, .. } => read_error(*next),
        ConnectorConfig::Tls(next) => read_error(*next),
        ConnectorConfig::Http { next, .. } => read_error(*next),
        ConnectorConfig::Socks5 { next, .. } => read_error(*next),
        ConnectorConfig::Rule { .. } => named_read_error(c, 0),
        ConnectorConfig::Speed(_) => speed_read_error(c, 0),
    }
}

/// The first reading error of a rule connector's named connectors from the
/// `i`th on, then of its rules.
pub open spec fn named_read_error(c: ConnectorConfig, i: int) -> Option<ConfigErrorView>
    decreases c, 1int, (match c {
        ConnectorConfig::Rule { connectors, .. } => connectors@.len() - i,
        _ => 0,
    }),
{
    match c {
        ConnectorConfig::Rule { connectors, .. } => if i < 0 || i >= connectors@.len() {
            rules_read_error(c, 0)
        } else {
            match read_error(connectors@[i].config) {
                Some(e) => Some(e),
                None => named_read_error(c, i + 1),
            }
        },
        _ => None,
    }
}

/// The first reading error of a rule connector's rules from the `i`th on.
pub open spec fn rules_read_error(c: ConnectorConfig, i: int) -> Option<ConfigErrorView>
    decreases c, 0int, (match c {
        ConnectorConfig::Rule { rules, .. } => rules@.len() - i,
        _ => 0,
    }),
{
    match c {
        ConnectorConfig::Rule { rules, .. } => if i < 0 || i >= rules@.len() {
            None
        } else {
            match (unknown_country(rules@[i]), invalid_regex(rules@[i])) {
                (Some(code), _) => Some(ConfigErrorView::UnknownCountry(code)),
                (None, Some(p)) => Some(ConfigErrorView::InvalidRegex(p)),
                (None, None) => rules_read_error(c, i + 1),
            }
        },
        _ => None,
    }
}

/// The first reading error of a speed connector's connectors from the
/// `i`th on.
pub open spec fn speed_read_error(c: ConnectorConfig, i: int) -> Option<ConfigErrorView>
    decreases c, 1int, (match c {
        ConnectorConfig::Speed(v) => v@.len() - i,
        _ => 0,
    }),
{
    match c {
        ConnectorConfig::Speed(v) => if i < 0 || i >= v@.len() {
            None
        } else {
            match read_error(v@[i].config) {
                Some(e) => Some(e),
                None => speed_read_error(c, i + 1),
            }
        },
        _ => None,
    }
}

/// The outcome of checking a configuration: the first reading error, else
/// the outcome of building it.
pub open spec fn config_result(c: ConnectorConfig) -> Result<(), ConfigErrorView> {
    match read_error(c) {
        Some(e) => Err(e),
        None => build_result(c),
    }
}

/// The outcome of building a connector: the first error met, in the order
/// the connectors are built (a connector's inner connectors first, a rule
/// connector's rules in order, each rule's connector before the rule), or
/// success.
pub open spec fn build_result(c: ConnectorConfig) -> Result<(), ConfigErrorView>
    decreases c, 1int, 0int,
{
    match c {
        ConnectorConfig::Direct => Ok(()),
        ConnectorConfig::Block => Ok(()),
        ConnectorConfig::Simplex { next, .. } => build_result(*next),
        ConnectorConfig::Tls(next) => build_result(*next),
        ConnectorConfig::Http { next, .. } => build_result(*next),
        ConnectorConfig::Socks5 { next, .. } => build_result(*next),
        ConnectorConfig::Rule { .. } => rules_result(c, 0),
        ConnectorConfig::Speed(_) => speed_result(c, 0),
    }
}

/// The outcome of building the rules of a rule connector from the `i`th on:
/// the connector each rule names must exist and build; a geo rule then
/// needs the database.
pub open spec fn rules_result(c: ConnectorConfig, i: int) -> Result<(), ConfigErrorView>
    decreases c, 0int, (match c {
        ConnectorConfig::Rule { rules, .. } => rules@.len() - i,
        _ => 0,
    }),
{
    match c {
        ConnectorConfig::Rule { geoip, connectors, rules } => if i < 0 || i >= rules@.len() {
            Ok(())
        } else {
            let r = rules@[i];
            let k = find_named(connectors@, rule_index(r));
            if k < 0 {
                Err(ConfigErrorView::MissingConnector(rule_index(r)))
            } else {
                proof {
                    lemma_find_named(connectors@, rule_index(r));
                }
                match build_result(connectors@[k].config) {
                    Err(e) => Err(e),
                    Ok(_) => if r is GeoIp && geoip is None {
                        Err(ConfigErrorView::MissingGeoIp)
                    } else {
                        rules_result(c, i + 1)
                    },
                }
            }
        },
        _ => Ok(()),
    }
}

/// The outcome of building the connectors of a speed connector from the
/// `i`th on, in order.
pub open spec fn speed_result(c: ConnectorConfig, i: int) -> Result<(), ConfigErrorView>
    decreases c, 0int, (match c {
        ConnectorConfig::Speed(v) => v@.len() - i,
        _ => 0,
    }),
{
    match c {
        ConnectorConfig::Speed(v) => if i < 0 || i >= v@.len() {
            Ok(())
        } else {
            match build_result(v@[i].config) {
                Err(e) => Err(e),
                Ok(_) => speed_result(c, i + 1),
            }
        },
        _ => Ok(()),
    }
}

/// The position of the first connector called `name`, where there is one.
pub fn find_connector(connectors: &Vec<NamedConnector>, name: &str) -> (res: Option<usize>)
    ensures
        match res {
            Some(k) => k as int == find_named(connectors@, name@) && k < connectors@.len(),
            None => find_named(connectors@, name@) == -1,
        },
{
    proof {
        lemma_find_named(connectors@, name@);
    }
    let mut i: usize = 0;
    while i < connectors.len()
        invariant
            i <= connectors@.len(),
            forall|j: int| 0 <= j < i ==> (#[trigger] connectors@[j]).name@ != name@,
            -1 <= find_named(connectors@, name@) < connectors@.len(),
            find_named(connectors@, name@) >= 0 ==> connectors@[find_named(connectors@, name@)].name@ == name@,
            find_named(connectors@, name@) == -1 ==> forall|j: int|
                0 <= j < connectors@.len() ==> (#[trigger] connectors@[j]).name@ != name@,
            forall|j: int| 0 <= j < find_named(connectors@, name@) ==> (#[trigger] connectors@[j]).name@ != name@,
        decreases connectors.len() - i,
    {
        if str_equal(connectors[i].name.as_str(), name) {
            proof {
                assert(connectors@[i as int].name@ == name@);
            }
            return Some(i);
        }
        i = i + 1;
    }
    None
}

/// The connector called `name`, where there is one.
pub fn named_connector<'a>(connectors: &'a Vec<NamedConnector>, name: &str) -> (res: Option<
    &'a ConnectorConfig,
>)
    ensures
        find_named(connectors@, name@) == -1 ==> res is None,
        find_named(connectors@, name@) >= 0 ==> res == Some(
            &connectors@[find_named(connectors@, name@)].config,
        ),
{
    match find_connector(connectors, name) {
        Some(k) => Some(&connectors[k].config),
        None => None,
    }
}

/// The position of the first mode that cannot be used.
fn first_invalid(modes: &Vec<Mode>) -> (res: Option<usize>)
    ensures
        match res {
            Some(k) => k as int == first_invalid_mode(modes@) && k < modes@.len(),
            None => first_invalid_mode(modes@) == -1,
        },
{
    proof {
        lemma_first_invalid_mode(modes@);
    }
    let mut i: usize = 0;
    while i < modes.len()
        invariant
            i <= modes@.len(),
            forall|j: int| 0 <= j < i ==> mode_valid(#[trigger] modes@[j]),
            -1 <= first_invalid_mode(modes@) < modes@.len(),
            first_invalid_mode(modes@) >= 0 ==> !mode_valid(modes@[first_invalid_mode(modes@)]),
            forall|j: int| 0 <= j < modes@.len() && (first_invalid_mode(modes@) == -1 || j < first_invalid_mode(modes@))
                ==> mode_valid(#[trigger] modes@[j]),
        decreases modes.len() - i,
    {
        if !mode_is_valid(&modes[i]) {
            proof {
                assert(!mode_valid(modes@[i as int]));
            }
            return Some(i);
        }
        i = i + 1;
    }
    None
}

/// The first value of a rule that cannot be read: its unknown country, or
/// its first regex that does not compile.
fn rule_read_error(r: &RuleEntry) -> (res: Option<ConfigError>)
    ensures
        match (res, unknown_country(*r), invalid_regex(*r)) {
            (Some(e), Some(code), _) => e@ == ConfigErrorView::UnknownCountry(code),
            (Some(e), None, Some(p)) => e@ == ConfigErrorView::InvalidRegex(p),
            (None, None, None) => true,
            _ => false,
        },
{
    if let RuleEntry::GeoIp { country: Some(code), .. } = r {
        if !is_alpha2_code(code.as_str()) {
            return Some(ConfigError::UnknownCountry(code.clone()));
        }
    }
    if let RuleEntry::Domain { modes, .. } = r {
        match first_invalid(modes) {
            Some(k) => {
                proof {
                    lemma_first_invalid_mode(modes@);
                }
                match &modes[k] {
                    Mode::Regex(p) => {
                        return Some(ConfigError::InvalidRegex(p.clone()));
                    },
                    _ => {},
                }
            },
            None => {},
        }
    }
    None
}

/// The first value of the configuration that cannot be read, as
/// `read_error` says.
fn first_read_error(c: &ConnectorConfig) -> (res: Option<ConfigError>)
    ensures
        match (res, read_error(*c)) {
            (Some(e), Some(v)) => e@ == v,
            (None, None) => true,
            _ => false,
        },
    decreases c,
{
    match c {
        ConnectorConfig::Direct => None,
        ConnectorConfig::Block => None,
        ConnectorConfig::Simplex { next, .. } => first_read_error(next),
        ConnectorConfig::Tls(next) => first_read_error(next),
        ConnectorConfig::Http { next, .. } => first_read_error(next),
        ConnectorConfig::Socks5 { next, .. } => first_read_error(next),
        ConnectorConfig::Rule { geoip, connectors, rules } => {
            let mut i: usize = 0;
            while i < connectors.len()
                invariant
                    i <= connectors@.len(),
                    *c == (ConnectorConfig::Rule { geoip: *geoip, connectors: *connectors, rules: *rules }),
                    named_read_error(*c, 0) == named_read_error(*c, i as int),
                decreases connectors.len() - i,
            {
                match first_read_error(&connectors[i].config) {
                    Some(e) => {
                        return Some(e);
                    },
                    None => {},
                }
                i = i + 1;
            }
            let mut j: usize = 0;
            while j < rules.len()
                invariant
                    j <= rules@.len(),
                    *c == (ConnectorConfig::Rule { geoip: *geoip, connectors: *connectors, rules: *rules }),
                    named_read_error(*c, 0) == rules_read_error(*c, j as int),
                decreases rules.len() - j,
            {
                match rule_read_error(&rules[j]) {
                    Some(e) => {
                        return Some(e);
                    },
                    None => {},
                }
                j = j + 1;
            }
            None
        },
        ConnectorConfig::Speed(v) => {
            let mut i: usize = 0;
            while i < v.len()
                invariant
                    i <= v@.len(),
                    *c == ConnectorConfig::Speed(*v),
                    speed_read_error(*c, 0) == speed_read_error(*c, i as int),
                decreases v.len() - i,
            {
                match first_read_error(&v[i].config) {
                    Some(e) => {
                        return Some(e);
                    },
                    None => {},
                }
                i = i + 1;
            }
            None
        },
    }
}

/// Builds nothing but finds the first error building would meet, as
/// `build_result` says.
fn first_build_error(c: &ConnectorConfig) -> (res: Result<(), ConfigError>)
    ensures
        match (res, build_result(*c)) {
            (Ok(_), Ok(_)) => true,
            (Err(e), Err(v)) => e@ == v,
            _ => false,
        },
    decreases c,
{
    match c {
        ConnectorConfig::Direct => Ok(()),
        ConnectorConfig::Block => Ok(()),
        ConnectorConfig::Simplex { next, .. } => first_build_error(next),
        ConnectorConfig::Tls(next) => first_build_error(next),
        ConnectorConfig::Http { next, .. } => first_build_error(next),
        ConnectorConfig::Socks5 { next, .. } => first_build_error(next),
        ConnectorConfig::Rule { geoip, connectors, rules } => {
            let mut i: usize = 0;
            while i < rules.len()
                invariant
                    i <= rules@.len(),
                    *c == (ConnectorConfig::Rule { geoip: *geoip, connectors: *connectors, rules: *rules }),
                    rules_result(*c, 0) == rules_result(*c, i as int),
                decreases rules.len() - i,
            {
                let r = &rules[i];
                let index = match r {
                    RuleEntry::All(n) => n,
                    RuleEntry::DnsFail(n) => n,
                    RuleEntry::Domain { index, .. } => index,
                    RuleEntry::GeoIp { index, .. } => index,
                    RuleEntry::Ip { index, .. } => index,
                };
                let k = match find_connector(connectors, index.as_str()) {
                    Some(k) => k,
                    None => {
                        return Err(ConfigError::MissingConnector(index.clone()));
                    },
                };
                proof {
                    lemma_find_named(connectors@, rule_index(*r));
                }
                match first_build_error(&connectors[k].config) {
                    Err(e) => {
                        return Err(e);
                    },
                    Ok(_) => {},
                }
                if let RuleEntry::GeoIp { .. } = r {
                    if geoip.is_none() {
                        return Err(ConfigError::MissingGeoIp);
                    }
                }
                i = i + 1;
            }
            Ok(())
        },
        ConnectorConfig::Speed(v) => {
            let mut i: usize = 0;
            while i < v.len()
                invariant
                    i <= v@.len(),
                    *c == ConnectorConfig::Speed(*v),
                    speed_result(*c, 0) == speed_result(*c, i as int),
                decreases v.len() - i,
            {
                match first_build_error(&v[i].config) {
                    Err(e) => {
                        return Err(e);
                    },
                    Ok(_) => {},
                }
                i = i + 1;
            }
            Ok(())
        },
    }
}

/// Checks a connector configuration before it is built. First the whole
/// configuration is read: every geo rule's country must be a known code and
/// every regex of a domain rule must compile, named connectors that no rule
/// uses included. Then, in the order the connectors are built, the
/// connector each rule names must exist and pass in turn, and a geo rule
/// needs a country database. Returns the first error.
pub fn check_connector(c: &ConnectorConfig) -> (res: Result<(), ConfigError>)
    ensures
        match (res, config_result(*c)) {
            (Ok(_), Ok(_)) => true,
            (Err(e), Err(v)) => e@ == v,
            _ => false,
        },
{
    match first_read_error(c) {
        Some(e) => Err(e),
        None => first_build_error(c),
    }
}

proof fn lemma_speed_result_from(c: ConnectorConfig, v: Vec<SpeedEntry>, i: int)
    requires
        c == ConnectorConfig::Speed(v),
        0 <= i <= v@.len(),
    ensures
        speed_result(c, i) is Ok <==> forall|j: int|
            i <= j < v@.len() ==> build_result(#[trigger] v@[j].config) is Ok,
        speed_result(c, i) matches Err(e) ==> exists|k: int|
            i <= k < v@.len() && build_result(#[trigger] v@[k].config) == Err::<(), _>(e)
                && forall|j: int| i <= j < k ==> build_result(#[trigger] v@[j].config) is Ok,
    decreases v@.len() - i,
{
    if i < v@.len() {
        lemma_speed_result_from(c, v, i + 1);
        if let Ok(_) = build_result(v@[i].config) {
            if let Err(e) = speed_result(c, i) {
                let k = choose|k: int|
                    i + 1 <= k < v@.len() && build_result(#[trigger] v@[k].config) == Err::<(), _>(e)
                        && forall|j: int| i + 1 <= j < k ==> build_result(#[trigger] v@[j].config) is Ok;
                assert(forall|j: int| i <= j < k ==> build_result(#[trigger] v@[j].config) is Ok);
            }
        }
    }
}

/// A speed connector builds exactly when every one of its connectors
/// builds, the first included; otherwise it fails with the error of the
/// first connector that does not build.
pub proof fn law_speed_builds_iff_every_entry_builds(v: Vec<SpeedEntry>)
    ensures
        build_result(ConnectorConfig::Speed(v)) is Ok <==> forall|i: int|
            0 <= i < v@.len() ==> build_result(#[trigger] v@[i].config) is Ok,
        build_result(ConnectorConfig::Speed(v)) matches Err(e) ==> exists|k: int|
            0 <= k < v@.len() && build_result(#[trigger] v@[k].config) == Err::<(), _>(e)
                && forall|i: int| 0 <= i < k ==> build_result(#[trigger] v@[i].config) is Ok,
{
    lemma_speed_result_from(ConnectorConfig::Speed(v), v, 0);
}

proof fn lemma_speed_read_error_from(c: ConnectorConfig, v: Vec<SpeedEntry>, i: int)
    requires
        c == ConnectorConfig::Speed(v),
        0 <= i <= v@.len(),
    ensures
        speed_read_error(c, i) is None <==> forall|j: int|
            i <= j < v@.len() ==> read_error(#[trigger] v@[j].config) is None,
        speed_read_error(c, i) matches Some(e) ==> exists|k: int|
            i <= k < v@.len() && read_error(#[trigger] v@[k].config) == Some(e)
                && forall|j: int| i <= j < k ==> read_error(#[trigger] v@[j].config) is None,
    decreases v@.len() - i,
{
    if i < v@.len() {
        lemma_speed_read_error_from(c, v, i + 1);
        if let None = read_error(v@[i].config) {
            if let Some(e) = speed_read_error(c, i) {
                let k = choose|k: int|
                    i + 1 <= k < v@.len() && read_error(#[trigger] v@[k].config) == Some(e)
                        && forall|j: int| i + 1 <= j < k ==> read_error(#[trigger] v@[j].config) is None;
                assert(forall|j: int| i <= j < k ==> read_error(#[trigger] v@[j].config) is None);
            }
        }
    }
}

/// A speed connector reads without error exactly when every one of its
/// connectors does, the first included; otherwise its reading error is
/// that of the first connector with one.
pub proof fn law_speed_reads_iff_every_entry_reads(v: Vec<SpeedEntry>)
    ensures
        read_error(ConnectorConfig::Speed(v)) is None <==> forall|i: int|
            0 <= i < v@.len() ==> read_error(#[trigger] v@[i].config) is None,
        read_error(ConnectorConfig::Speed(v)) matches Some(e) ==> exists|k: int|
            0 <= k < v@.len() && read_error(#[trigger] v@[k].config) == Some(e)
                && forall|i: int| 0 <= i < k ==> read_error(#[trigger] v@[i].config) is None,
{
    lemma_speed_read_error_from(ConnectorConfig::Speed(v), v, 0);
}

/// Whether one rule of a rule connector builds: a connector of the rule's
/// name exists, the first of that name builds, and a geo rule has a
/// country database.
pub open spec fn rule_entry_builds(geoip: Option<Source>, cs: Seq<NamedConnector>, r: RuleEntry) -> bool {
    (exists|k: int|
        0 <= k < cs.len() && (#[trigger] cs[k]).name@ == rule_index(r) && (forall|j: int|
            0 <= j < k ==> (#[trigger] cs[j]).name@ != rule_index(r)) && build_result(cs[k].config)
            is Ok) && !(r is GeoIp && geoip is None)
}

proof fn lemma_rules_result_from(
    c: ConnectorConfig,
    geoip: Option<Source>,
    connectors: Vec<NamedConnector>,
    rules: Vec<RuleEntry>,
    i: int,
)
    requires
        c == (ConnectorConfig::Rule { geoip, connectors, rules }),
        0 <= i <= rules@.len(),
    ensures
        rules_result(c, i) is Ok <==> forall|j: int|
            i <= j < rules@.len() ==> rule_entry_builds(geoip, connectors@, #[trigger] rules@[j]),
        forall|m: int|
            i <= m < rules@.len() && (forall|j: int|
                i <= j < m ==> rule_entry_builds(geoip, connectors@, #[trigger] rules@[j])) && (
            forall|k: int|
                0 <= k < connectors@.len() ==> (#[trigger] connectors@[k]).name@ != rule_index(
                    rules@[m],
                )) ==> rules_result(c, i) == Err::<(), _>(
                ConfigErrorView::MissingConnector(rule_index(rules@[m])),
            ),
    decreases rules@.len() - i,
{
    if i < rules@.len() {
        lemma_rules_result_from(c, geoip, connectors, rules, i + 1);
        let r = rules@[i];
        lemma_find_named(connectors@, rule_index(r));
        let k = find_named(connectors@, rule_index(r));
        if k >= 0 {
            if rule_entry_builds(geoip, connectors@, r) {
                let k2 = choose|k2: int|
                    0 <= k2 < connectors@.len() && (#[trigger] connectors@[k2]).name@ == rule_index(r)
                        && (forall|j: int| 0 <= j < k2 ==> (#[trigger] connectors@[j]).name@ != rule_index(r))
                        && build_result(connectors@[k2].config) is Ok;
                assert(k2 == k) by {
                    if k2 < k {
                        assert(connectors@[k2].name@ != rule_index(r));
                    } else if k < k2 {
                        assert(connectors@[k].name@ != rule_index(r));
                    }
                }
            } else {
                if build_result(connectors@[k].config) is Ok {
                    assert(r is GeoIp && geoip is None) by {
                        assert(connectors@[k].name@ == rule_index(r));
                    }
                }
            }
        } else {
            assert(!rule_entry_builds(geoip, connectors@, r));
        }
    }
}

/// A rule connector builds exactly when each of its rules names a
/// connector that exists and builds (the first of that name), and each geo
/// rule has a country database. Where every rule before one builds and no
/// connector carries that rule's name, the error is the missing name.
pub proof fn law_rules_build_iff_every_rule_builds(
    geoip: Option<Source>,
    connectors: Vec<NamedConnector>,
    rules: Vec<RuleEntry>,
)
    ensures
        build_result(ConnectorConfig::Rule { geoip, connectors, rules }) is Ok <==> forall|i: int|
            0 <= i < rules@.len() ==> rule_entry_builds(geoip, connectors@, #[trigger] rules@[i]),
        forall|m: int|
            0 <= m < rules@.len() && (forall|i: int|
                0 <= i < m ==> rule_entry_builds(geoip, connectors@, #[trigger] rules@[i])) && (
            forall|k: int|
                0 <= k < connectors@.len() ==> (#[trigger] connectors@[k]).name@ != rule_index(
                    rules@[m],
                )) ==> build_result(ConnectorConfig::Rule { geoip, connectors, rules }) == Err::<
                (),
                _,
            >(ConfigErrorView::MissingConnector(rule_index(rules@[m]))),
{
    lemma_rules_result_from(ConnectorConfig::Rule { geoip, connectors, rules }, geoip, connectors, rules, 0);
}

} // verus!
