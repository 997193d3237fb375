//! Routing rules: each rule decides, from the endpoint and, where it needs
//! them, the addresses the endpoint's domain resolves to and the countries
//! of those addresses, whether its connector takes the connection. A rule
//! connector takes the first rule that matches.
use crate::endpoint::{Endpoint, EndpointView};
use crate::net::{net_contains, ip_net_contains, IpAddress, IpNet};
use crate::text::{chars_of, str_equal};
use vstd::prelude::*;

verus! {

/// What `regex::Regex::new(pattern)` followed by `is_match(text)` gives:
/// `None` where the pattern does not compile, else whether it matches.
pub uninterp spec fn regex_match_result(pattern: Seq<char>, text: Seq<char>) -> Option<bool>;

/// Compiles `pattern` with `regex::Regex::new` and tests `text` with
/// `Regex::is_match`.
#[verifier::external_body]
fn regex_is_match(pattern: &str, text: &str) -> (res: Option<bool>)
    ensures
        res == regex_match_result(pattern@, text@),
{
    match regex::Regex::new(pattern) {
        Ok(r) => Some(r.is_match(text)),
        Err(_) => None,
    }
}

/// How a domain rule matches a domain.
#[derive(Debug, Clone)]
pub enum Mode {
    Prefix(String),
    Suffix(String),
    Keyword(String),
    Regex(String),
}

/// `a` starts with `p`.
pub open spec fn is_prefix(p: Seq<char>, a: Seq<char>) -> bool {
    p.len() <= a.len() && a.subrange(0, p.len() as int) == p
}

/// `a` ends with `s`.
pub open spec fn is_suffix(s: Seq<char>, a: Seq<char>) -> bool {
    s.len() <= a.len() && a.subrange(a.len() - s.len(), a.len() as int) == s
}

/// `a` contains `k` somewhere.
pub open spec fn contains_text(k: Seq<char>, a: Seq<char>) -> bool {
    exists|i: int| 0 <= i <= a.len() - k.len() && #[trigger] a.subrange(i, i + k.len()) == k
}

/// Whether a mode matches a domain; a pattern that does not compile
/// matches nothing.
pub open spec fn mode_matches(mode: Mode, d: Seq<char>) -> bool {
    match mode {
        Mode::Prefix(p) => is_prefix(p@, d),
        Mode::Suffix(s) => is_suffix(s@, d),
        Mode::Keyword(k) => contains_text(k@, d),
        Mode::Regex(r) => regex_match_result(r@, d) == Some(true),
    }
}

fn matches_at(a: &Vec<char>, k: &Vec<char>, i: usize) -> (res: bool)
    requires
        i + k@.len() <= a@.len(),
    ensures
        res == (a@.subrange(i as int, i + k@.len()) == k@),
{
    let n = a.len();
    let mut j: usize = 0;
    while j < k.len()
        invariant
            n == a@.len(),
            j <= k@.len(),
            i + k@.len() <= a@.len(),
            forall|t: int| 0 <= t < j ==> a@[i + t] == k@[t],
        decreases k.len() - j,
    {
        if a[i + j] != k[j] {
            proof {
                assert(a@.subrange(i as int, i + k@.len())[j as int] != k@[j as int]);
            }
            return false;
        }
        j = j + 1;
    }
    proof {
        assert(a@.subrange(i as int, i + k@.len()) =~= k@);
    }
    true
}

/// Whether `text` starts with `p` (`str::starts_with`).
pub fn starts_with(text: &str, p: &str) -> (res: bool)
    ensures
        res == is_prefix(p@, text@),
{
    let a = chars_of(text);
    let k = chars_of(p);
    if k.len() > a.len() {
        return false;
    }
    matches_at(&a, &k, 0)
}

/// Whether `text` ends with `s` (`str::ends_with`).
pub fn ends_with(text: &str, s: &str) -> (res: bool)
    ensures
        res == is_suffix(s@, text@),
{
    let a = chars_of(text);
    let k = chars_of(s);
    if k.len() > a.len() {
        return false;
    }
    matches_at(&a, &k, a.len() - k.len())
}

/// Whether `k` occurs in `text` (`str::contains`).
pub fn contains_str(text: &str, k: &str) -> (res: bool)
    ensures
        res == contains_text(k@, text@),
{
    let a = chars_of(text);
    let kk = chars_of(k);
    if kk.len() > a.len() {
        return false;
    }
    let last = a.len() - kk.len();
    let mut i: usize = 0;
    loop
        invariant
            kk@.len() <= a@.len(),
            last == a@.len() - kk@.len(),
            i <= last,
            a@ == text@,
            kk@ == k@,
            forall|t: int| 0 <= t < i ==> #[trigger] a@.subrange(t, t + kk@.len()) != kk@,
        decreases last - i,
    {
        if matches_at(&a, &kk, i) {
            return true;
        }
        if i == last {
            return false;
        }
        i = i + 1;
    }
}

/// Whether a mode matches a domain.
pub fn mode_match(mode: &Mode, d: &str) -> (res: bool)
    ensures
        res == mode_matches(*mode, d@),
{
    match mode {
        Mode::Prefix(p) => starts_with(d, p.as_str()),
        Mode::Suffix(s) => ends_with(d, s.as_str()),
        Mode::Keyword(k) => contains_str(d, k.as_str()),
        Mode::Regex(r) => match regex_is_match(r.as_str(), d) {
            Some(b) => b,
            None => false,
        },
    }
}

/// Whether a mode can be used: a regex mode's pattern must compile (the
/// outcome of matching the empty text says so).
pub open spec fn mode_valid(mode: Mode) -> bool {
    match mode {
        Mode::Regex(r) => regex_match_result(r@, Seq::<char>::empty()) is Some,
        _ => true,
    }
}

/// Whether a mode can be used: a regex mode's pattern must compile.
pub fn mode_is_valid(mode: &Mode) -> (res: bool)
    ensures
        res == mode_valid(*mode),
{
    match mode {
        Mode::Regex(r) => {
            let empty = String::new();
            regex_is_match(r.as_str(), empty.as_str()).is_some()
        },
        _ => true,
    }
}

/// Routes domains that match one of its modes.
pub struct DomainRule<C> {
    modes: Vec<Mode>,
    connector: C,
}

impl<C> DomainRule<C> {
    pub fn new(modes: Vec<Mode>, connector: C) -> (res: Self)
        ensures
            res.modes() == modes@,
            res.connector() == connector,
    {
        DomainRule { modes, connector }
    }

    pub closed spec fn modes(&self) -> Seq<Mode> {
        self.modes@
    }

    pub closed spec fn connector(&self) -> C {
        self.connector
    }

    /// The connector where the endpoint is a domain that some mode matches.
    pub fn check(&self, endpoint: &Endpoint) -> (res: Option<&C>)
        ensures
            match endpoint@ {
                EndpointView::Domain(d, _) => (exists|i: int|
                    0 <= i < self.modes().len() && mode_matches(#[trigger] self.modes()[i], d))
                    ==> res == Some(&self.connector()),
                _ => true,
            },
            res is Some <==> match endpoint@ {
                EndpointView::Domain(d, _) => exists|i: int|
                    0 <= i < self.modes().len() && mode_matches(#[trigger] self.modes()[i], d),
                _ => false,
            },
            res matches Some(c) ==> *c == self.connector(),
    {
        if let Endpoint::Domain(d, _) = endpoint {
            let mut i: usize = 0;
            while i < self.modes.len()
                invariant
                    i <= self.modes@.len(),
                    endpoint@ == EndpointView::Domain(d@, endpoint@->Domain_1),
                    forall|j: int| 0 <= j < i ==> !mode_matches(#[trigger] self.modes@[j], d@),
                decreases self.modes.len() - i,
            {
                if mode_match(&self.modes[i], d.as_str()) {
                    proof {
                        assert(mode_matches(self.modes()[i as int], d@));
                    }
                    return Some(&self.connector);
                }
                i = i + 1;
            }
        }
        None
    }
}

/// Whether some subnet holds some of the addresses.
pub open spec fn any_in_subnets(subnets: Seq<IpNet>, ips: Seq<IpAddress>) -> bool {
    exists|i: int, j: int|
        0 <= i < ips.len() && 0 <= j < subnets.len() && net_contains(
            #[trigger] subnets[j],
            #[trigger] ips[i],
        )
}

/// Routes endpoints whose address, or one of whose resolved addresses, lies
/// in one of its subnets.
pub struct IpRule<C> {
    subnets: Vec<IpNet>,
    connector: C,
}

/// The addresses an endpoint stands for: its own for an address, the
/// resolved ones for a domain (none where resolution failed).
pub open spec fn endpoint_ips(e: EndpointView, resolved: Option<Seq<IpAddress>>) -> Seq<IpAddress> {
    match e {
        EndpointView::Addr(a) => seq![a.spec_ip()],
        EndpointView::Domain(_, _) => match resolved {
            Some(ips) => ips,
            None => Seq::empty(),
        },
    }
}

impl<C> IpRule<C> {
    pub fn new(subnets: Vec<IpNet>, connector: C) -> (res: Self)
        requires
            forall|i: int| 0 <= i < subnets@.len() ==> (#[trigger] subnets@[i]).wf(),
        ensures
            res.wf(),
            res.subnets() == subnets@,
            res.connector() == connector,
    {
        IpRule { subnets, connector }
    }

    pub closed spec fn wf(&self) -> bool {
        forall|i: int| 0 <= i < self.subnets@.len() ==> (#[trigger] self.subnets@[i]).wf()
    }

    pub closed spec fn subnets(&self) -> Seq<IpNet> {
        self.subnets@
    }

    pub closed spec fn connector(&self) -> C {
        self.connector
    }

    /// Whether this endpoint needs resolving before the rule can decide.
    pub fn needs_lookup(&self, endpoint: &Endpoint) -> (res: bool)
        ensures
            res == (endpoint@ is Domain),
    {
        match endpoint {
            Endpoint::Domain(..) => true,
            Endpoint::Addr(..) => false,
        }
    }

    /// The connector where the endpoint's address, or one of the addresses
    /// its domain resolved to (`resolved`, `None` where resolution failed),
    /// lies in one of the subnets.
    pub fn check(&self, endpoint: &Endpoint, resolved: &Option<Vec<IpAddress>>) -> (res: Option<&C>)
        requires
            self.wf(),
        ensures
            res is Some <==> any_in_subnets(
                self.subnets(),
                endpoint_ips(
                    endpoint@,
                    match resolved {
                        Some(v) => Some(v@),
                        None => None,
                    },
                ),
            ),
            res matches Some(c) ==> *c == self.connector(),
    {
        let ips: Vec<IpAddress> = match endpoint {
            Endpoint::Addr(a) => {
                let mut v = Vec::new();
                v.push(a.ip());
                v
            },
            Endpoint::Domain(..) => match resolved {
                Some(ips) => ips.clone(),
                None => Vec::new(),
            },
        };
        proof {
            assert(ips@ =~= endpoint_ips(
                endpoint@,
                match resolved {
                    Some(v) => Some(v@),
                    None => None,
                },
            ));
        }
        let ghost eips = endpoint_ips(
            endpoint@,
            match resolved {
                Some(v) => Some(v@),
                None => None,
            },
        );
        let mut i: usize = 0;
        while i < ips.len()
            invariant
                i <= ips@.len(),
                ips@ == eips,
                eips == endpoint_ips(
                    endpoint@,
                    match resolved {
                        Some(v) => Some(v@),
                        None => None,
                    },
                ),
                self.wf(),
                forall|a: int, b: int|
                    0 <= a < i && 0 <= b < self.subnets@.len() ==> !net_contains(
                        #[trigger] self.subnets@[b],
                        #[trigger] ips@[a],
                    ),
            decreases ips.len() - i,
        {
            let mut j: usize = 0;
            while j < self.subnets.len()
                invariant
                    i < ips@.len(),
                    ips@ == eips,
                    eips == endpoint_ips(
                        endpoint@,
                        match resolved {
                            Some(v) => Some(v@),
                            None => None,
                        },
                    ),
                    j <= self.subnets@.len(),
                    self.wf(),
                    forall|b: int| 0 <= b < j ==> !net_contains(#[trigger] self.subnets@[b], ips@[i as int]),
                decreases self.subnets.len() - j,
            {
                if ip_net_contains(&self.subnets[j], ips[i]) {
                    proof {
                        assert(net_contains(self.subnets()[j as int], eips[i as int]));
                        assert(any_in_subnets(self.subnets(), eips));
                    }
                    return Some(&self.connector);
                }
                j = j + 1;
            }
            i = i + 1;
        }
        None
    }
}

/// Routes domains that do not resolve, or resolve to no address.
pub struct DnsFailRule<C> {
    connector: C,
}

impl<C> DnsFailRule<C> {
    pub fn new(connector: C) -> (res: Self)
        ensures
            res.connector() == connector,
    {
        DnsFailRule { connector }
    }

    pub closed spec fn connector(&self) -> C {
        self.connector
    }

    /// The connector where the endpoint is a domain whose resolution failed
    /// (`resolved` is `None`) or gave no address.
    pub fn check(&self, endpoint: &Endpoint, resolved: &Option<Vec<IpAddress>>) -> (res: Option<&C>)
        ensures
            res is Some <==> (endpoint@ is Domain && match resolved {
                None => true,
                Some(v) => v@.len() == 0,
            }),
            res matches Some(c) ==> *c == self.connector(),
    {
        match endpoint {
            Endpoint::Domain(..) => match resolved {
                None => Some(&self.connector),
                Some(v) => if v.len() == 0 {
                    Some(&self.connector)
                } else {
                    None
                },
            },
            Endpoint::Addr(..) => None,
        }
    }
}

/// Routes every endpoint.
pub struct AllRule<C> {
    connector: C,
}

impl<C> AllRule<C> {
    pub fn new(connector: C) -> (res: Self)
        ensures
            res.connector() == connector,
    {
        AllRule { connector }
    }

    pub closed spec fn connector(&self) -> C {
        self.connector
    }

    /// Always the connector.
    pub fn check(&self, endpoint: &Endpoint) -> (res: Option<&C>)
        ensures
            res == Some(&self.connector()),
    {
        Some(&self.connector)
    }
}

/// What the country database says of an address.
#[derive(Debug, Clone)]
pub enum GeoLookup {
    /// The address is known; its country's ISO code, where the record has one.
    Found(Option<String>),
    /// The address is not in the database.
    NotFound,
    /// The database could not be read.
    Failed,
}

/// Whether an address's country is `country` (no country matching an
/// address whose record has none); `None` wherever the lookup failed: the
/// address is not in the database, or the database could not be read.
pub open spec fn geo_match(lookup: GeoLookup, country: Option<Seq<char>>) -> Option<bool> {
    match lookup {
        GeoLookup::Found(iso) => Some(
            match iso {
                Some(i) => Some(i@),
                None => None,
            } == country,
        ),
        GeoLookup::NotFound => None,
        GeoLookup::Failed => None,
    }
}

/// Routes endpoints by the country of their address: with `equal`, those in
/// `country`; without, those outside it.
pub struct GeoRule<C> {
    connector: C,
    country: Option<String>,
    equal: bool,
}

pub open spec fn country_view(c: Option<String>) -> Option<Seq<char>> {
    match c {
        Some(s) => Some(s@),
        None => None,
    }
}

impl<C> GeoRule<C> {
    pub fn new(connector: C, country: Option<String>, equal: bool) -> (res: Self)
        ensures
            res.connector() == connector,
            res.country() == country_view(country),
            res.equal() == equal,
    {
        GeoRule { connector, country, equal }
    }

    pub closed spec fn connector(&self) -> C {
        self.connector
    }

    pub closed spec fn country(&self) -> Option<Seq<char>> {
        country_view(self.country)
    }

    pub closed spec fn equal(&self) -> bool {
        self.equal
    }

    /// Whether the looked-up address lies in the rule's country; `None`
    /// where the lookup failed.
    pub fn match_ip(&self, lookup: &GeoLookup) -> (res: Option<bool>)
        ensures
            res == geo_match(*lookup, self.country()),
    {
        match lookup {
            GeoLookup::Found(iso) => {
                let same = match (iso, &self.country) {
                    (Some(a), Some(b)) => str_equal(a.as_str(), b.as_str()),
                    (None, None) => true,
                    _ => false,
                };
                Some(same)
            },
            GeoLookup::NotFound => None,
            GeoLookup::Failed => None,
        }
    }

    /// The connector where some address of the endpoint (its own, or one its
    /// domain resolved to, in order) is decided as `equal`. `lookups[i]` is
    /// what the database says of the `i`-th of those addresses; a domain
    /// that did not resolve is not routed.
    pub fn check(&self, lookups: &Vec<GeoLookup>) -> (res: Option<&C>)
        ensures
            res is Some <==> exists|i: int|
                0 <= i < lookups@.len() && geo_match(#[trigger] lookups@[i], self.country())
                    == Some(self.equal()),
            res matches Some(c) ==> *c == self.connector(),
    {
        let mut i: usize = 0;
        while i < lookups.len()
            invariant
                i <= lookups@.len(),
                forall|j: int|
                    0 <= j < i ==> geo_match(#[trigger] lookups@[j], self.country()) != Some(
                        self.equal(),
                    ),
            decreases lookups.len() - i,
        {
            let m = self.match_ip(&lookups[i]);
            if m == Some(self.equal) {
                return Some(&self.connector);
            }
            i = i + 1;
        }
        None
    }
}

/// Why a rule connector refused a connection.
#[derive(Debug, Clone, Copy, PartialEq, Eq, Structural)]
pub enum RuleError {
    /// No rule matches the target endpoint.
    NoRuleMatch,
}

impl RuleError {
    /// The message of the refusal.
    pub fn message(&self) -> (res: String)
        ensures
            res@ == "No rule match the target endpoint"@,
    {
        "No rule match the target endpoint".to_owned()
    }
}

/// What a rule connector does next: ask a rule whether it takes the
/// endpoint, connect with the connector of the rule that took it, or refuse.
#[derive(Debug, Clone, Copy, PartialEq, Eq, Structural)]
pub enum RuleStep {
    Ask(usize),
    Connect(usize),
    NoMatch,
}

/// The step after rule `index` of `count` answered: its connector where it
/// took the endpoint; else the next rule, or the refusal after the last.
pub open spec fn next_step(index: int, count: int, matched: bool) -> RuleStep {
    if matched {
        RuleStep::Connect(index as usize)
    } else if index + 1 < count {
        RuleStep::Ask((index + 1) as usize)
    } else {
        RuleStep::NoMatch
    }
}

/// The first step of a rule connector with `count` rules: ask the first,
/// or refuse where there is none.
pub fn first_rule_step(count: usize) -> (res: RuleStep)
    ensures
        res == (if count == 0 {
            RuleStep::NoMatch
        } else {
            RuleStep::Ask(0)
        }),
{
    if count == 0 {
        RuleStep::NoMatch
    } else {
        RuleStep::Ask(0)
    }
}

/// The step after rule `index` of `count` answered whether it takes the
/// endpoint (`matched`), as `next_step` says.
pub fn next_rule_step(index: usize, count: usize, matched: bool) -> (res: RuleStep)
    requires
        index < count,
    ensures
        res == next_step(index as int, count as int, matched),
{
    if matched {
        RuleStep::Connect(index)
    } else if index + 1 < count {
        RuleStep::Ask(index + 1)
    } else {
        RuleStep::NoMatch
    }
}

/// Driving the steps from asking rule `i`, where rule `k` answers
/// `answers[k]`: the rules asked, in order, and the last step.
pub open spec fn drive(answers: Seq<bool>, i: int) -> (Seq<int>, RuleStep)
    decreases answers.len() - i,
{
    if i < 0 || i >= answers.len() {
        (Seq::empty(), RuleStep::NoMatch)
    } else {
        match next_step(i, answers.len() as int, answers[i]) {
            RuleStep::Ask(n) => if n > i {
                let (asked, last) = drive(answers, n as int);
                (seq![i] + asked, last)
            } else {
                (seq![i], RuleStep::Ask(n))
            },
            last => (seq![i], last),
        }
    }
}

proof fn lemma_drive(answers: Seq<bool>, i: int)
    requires
        0 <= i <= answers.len(),
        answers.len() <= usize::MAX,
    ensures
        forall|j: int|
            i <= j < answers.len() && answers[j] && (forall|k: int| i <= k < j ==> !answers[k]) ==> drive(answers, i)
                == (Seq::new((j - i + 1) as nat, |k: int| i + k), RuleStep::Connect(j as usize)),
        (forall|k: int| i <= k < answers.len() ==> !answers[k]) ==> drive(answers, i) == (
            Seq::new((answers.len() - i) as nat, |k: int| i + k),
            RuleStep::NoMatch,
        ),
    decreases answers.len() - i,
{
    if i < answers.len() {
        lemma_drive(answers, i + 1);
        if !answers[i] && i + 1 < answers.len() {
            let (asked, last) = drive(answers, i + 1);
            assert forall|j: int|
                i <= j < answers.len() && answers[j] && (forall|k: int| i <= k < j ==> !answers[k]) implies drive(
                answers,
                i,
            ) == (Seq::new((j - i + 1) as nat, |k: int| i + k), RuleStep::Connect(j as usize)) by {
                assert(j != i);
                assert(forall|k: int| i + 1 <= k < j ==> !answers[k]);
                assert(seq![i] + Seq::new((j - i) as nat, |k: int| i + 1 + k) =~= Seq::new(
                    (j - i + 1) as nat,
                    |k: int| i + k,
                ));
            }
            if forall|k: int| i <= k < answers.len() ==> !answers[k] {
                assert(seq![i] + Seq::new((answers.len() - i - 1) as nat, |k: int| i + 1 + k) =~= Seq::new(
                    (answers.len() - i) as nat,
                    |k: int| i + k,
                ));
            }
        } else {
            assert(Seq::new(1, |k: int| i + k) =~= seq![i]);
        }
    } else {
        assert(Seq::new(0, |k: int| i + k) =~= Seq::<int>::empty());
    }
}

/// A rule connector asks its rules in order, up to the first that takes
/// the endpoint and none after it, and connects with that rule's
/// connector; where no rule takes it, every rule is asked and the
/// connection is refused.
pub proof fn law_rules_asked_until_first_match(answers: Seq<bool>)
    requires
        answers.len() <= usize::MAX,
    ensures
        forall|j: int|
            0 <= j < answers.len() && answers[j] && (forall|k: int| 0 <= k < j ==> !answers[k]) ==> drive(answers, 0)
                == (Seq::new((j + 1) as nat, |k: int| k), RuleStep::Connect(j as usize)),
        (forall|k: int| 0 <= k < answers.len() ==> !answers[k]) ==> drive(answers, 0) == (
            Seq::new(answers.len(), |k: int| k),
            RuleStep::NoMatch,
        ),
{
    lemma_drive(answers, 0);
    assert(Seq::new(answers.len(), |k: int| 0 + k) =~= Seq::new(answers.len(), |k: int| k));
    assert forall|j: int|
        0 <= j < answers.len() && answers[j] && (forall|k: int| 0 <= k < j ==> !answers[k]) implies drive(answers, 0)
        == (Seq::new((j + 1) as nat, |k: int| k), RuleStep::Connect(j as usize)) by {
        assert(Seq::new((j - 0 + 1) as nat, |k: int| 0 + k) =~= Seq::new((j + 1) as nat, |k: int| k));
    }
}

/// A prefix mode matches a domain exactly when the domain is at least as
/// long as the text and starts with it, character by character.
pub proof fn law_prefix_mode_matches_start(p: String, d: Seq<char>)
    ensures
        mode_matches(Mode::Prefix(p), d) <==> (p@.len() <= d.len() && forall|k: int|
            0 <= k < p@.len() ==> #[trigger] d[k] == p@[k]),
{
    if p@.len() <= d.len() && forall|k: int| 0 <= k < p@.len() ==> #[trigger] d[k] == p@[k] {
        assert(d.subrange(0, p@.len() as int) =~= p@);
    }
    if mode_matches(Mode::Prefix(p), d) {
        assert forall|k: int| 0 <= k < p@.len() implies #[trigger] d[k] == p@[k] by {
            assert(d.subrange(0, p@.len() as int)[k] == d[k]);
        }
    }
}

/// A suffix mode matches a domain exactly when the domain is at least as
/// long as the text and ends with it, character by character: the text
/// occurring elsewhere in the domain is not enough.
pub proof fn law_suffix_mode_matches_end(s: String, d: Seq<char>)
    ensures
        mode_matches(Mode::Suffix(s), d) <==> (s@.len() <= d.len() && forall|k: int|
            0 <= k < s@.len() ==> #[trigger] d[d.len() - s@.len() + k] == s@[k]),
{
    if s@.len() <= d.len() && forall|k: int|
        0 <= k < s@.len() ==> #[trigger] d[d.len() - s@.len() + k] == s@[k] {
        assert forall|k: int| 0 <= k < s@.len() implies d.subrange(d.len() - s@.len(), d.len() as int)[k]
            == s@[k] by {
            assert(d[d.len() - s@.len() + k] == s@[k]);
        }
        assert(d.subrange(d.len() - s@.len(), d.len() as int) =~= s@);
    }
    if mode_matches(Mode::Suffix(s), d) {
        assert forall|k: int| 0 <= k < s@.len() implies #[trigger] d[d.len() - s@.len() + k]
            == s@[k] by {
            assert(d.subrange(d.len() - s@.len(), d.len() as int)[k] == d[d.len() - s@.len() + k]);
        }
    }
}

/// `k` stands in `d` from position `i` on.
pub open spec fn occurs_at(k: Seq<char>, d: Seq<char>, i: int) -> bool {
    0 <= i && i + k.len() <= d.len() && forall|m: int| 0 <= m < k.len() ==> #[trigger] d[i + m] == k[m]
}

/// A keyword mode matches a domain exactly when the text stands somewhere in
/// the domain.
pub proof fn law_keyword_mode_matches_inside(k: String, d: Seq<char>)
    ensures
        mode_matches(Mode::Keyword(k), d) <==> exists|i: int| #[trigger] occurs_at(k@, d, i),
{
    if exists|i: int| #[trigger] occurs_at(k@, d, i) {
        let i = choose|i: int| #[trigger] occurs_at(k@, d, i);
        assert forall|m: int| 0 <= m < k@.len() implies d.subrange(i, i + k@.len())[m] == k@[m] by {
            assert(d[i + m] == k@[m]);
        }
        assert(d.subrange(i, i + k@.len()) =~= k@);
    }
    if mode_matches(Mode::Keyword(k), d) {
        let i = choose|i: int| 0 <= i <= d.len() - k@.len() && #[trigger] d.subrange(i, i + k@.len()) == k@;
        assert forall|m: int| 0 <= m < k@.len() implies #[trigger] d[i + m] == k@[m] by {
            assert(d.subrange(i, i + k@.len())[m] == d[i + m]);
        }
        assert(occurs_at(k@, d, i));
    }
}

/// The addresses an IP rule weighs: an address endpoint's own address; for
/// a domain, every address it resolved to, whatever its position, and none
/// where resolution failed. The rule takes the endpoint exactly when one of
/// these lies in one of its subnets.
pub proof fn law_ip_rule_weighs_every_address(
    subnets: Seq<IpNet>,
    e: EndpointView,
    resolved: Option<Seq<IpAddress>>,
)
    ensures
        any_in_subnets(subnets, endpoint_ips(e, resolved)) <==> match e {
            EndpointView::Addr(a) => exists|j: int|
                0 <= j < subnets.len() && net_contains(#[trigger] subnets[j], a.spec_ip()),
            EndpointView::Domain(_, _) => match resolved {
                Some(v) => exists|i: int, j: int|
                    0 <= i < v.len() && 0 <= j < subnets.len() && net_contains(
                        #[trigger] subnets[j],
                        #[trigger] v[i],
                    ),
                None => false,
            },
        },
{
    match e {
        EndpointView::Addr(a) => {
            let ips = endpoint_ips(e, resolved);
            assert(ips.len() == 1 && ips[0] == a.spec_ip());
            if exists|j: int| 0 <= j < subnets.len() && net_contains(#[trigger] subnets[j], a.spec_ip()) {
                let j = choose|j: int| 0 <= j < subnets.len() && net_contains(#[trigger] subnets[j], a.spec_ip());
                assert(net_contains(subnets[j], ips[0]));
            }
        },
        EndpointView::Domain(_, _) => {},
    }
}

/// What a geo rule decides of an address found in the database: whether the
/// record's ISO code is the rule's country, a record without a code
/// matching only a rule without a country. An address not found, or a
/// database that could not be read, decides nothing.
pub proof fn law_geo_match_compares_codes(iso: Option<String>, country: Option<Seq<char>>)
    ensures
        geo_match(GeoLookup::Found(iso), country) is Some,
        geo_match(GeoLookup::Found(iso), country) == Some(true) <==> ((iso is None && country is None)
            || (iso is Some && country is Some && iso->0@ == country->0)),
        geo_match(GeoLookup::NotFound, country) is None,
        geo_match(GeoLookup::Failed, country) is None,
{
}

} // verus!
