//! IP lists for routing scripts: a list of networks, and membership tests
//! for one address or for the first decisive one of several.
use crate::net::{
    ip_address_from_str, ip_net_contains, ip_network_from_str, net_contains, parse_ip_address,
    parse_ip_network, IpAddress, IpNet,
};
use vstd::prelude::*;

verus! {

/// Why an IP list could not be built or queried.
#[derive(Clone, Debug, PartialEq, Eq)]
pub enum IpListError {
    /// The entry at this position is no network.
    InvalidNetwork(usize),
    /// The queried text is no IP address.
    InvalidIp,
}

/// A list of networks.
#[derive(Clone, Debug)]
pub struct IpNetworkSetWrapper {
    networks: Vec<IpNet>,
}

/// Whether some network of the list holds `ip`.
pub open spec fn set_contains(nets: Seq<IpNet>, ip: IpAddress) -> bool {
    exists|i: int| 0 <= i < nets.len() && net_contains(#[trigger] nets[i], ip)
}

/// The answer to a membership query for a text.
pub open spec fn contains_result(nets: Seq<IpNet>, s: Seq<char>) -> Result<bool, IpListError> {
    match ip_address_from_str(s) {
        Some(ip) => Ok(set_contains(nets, ip)),
        None => Err(IpListError::InvalidIp),
    }
}

/// The answer to a query for several texts, taken in order: `true` at the
/// first address in the list, an error at the first text before it that is
/// no address, else `false`.
pub open spec fn contains_any_result(nets: Seq<IpNet>, ips: Seq<Seq<char>>) -> Result<
    bool,
    IpListError,
>
    decreases ips.len(),
{
    if ips.len() == 0 {
        Ok(false)
    } else {
        match contains_result(nets, ips[0]) {
            Err(e) => Err(e),
            Ok(true) => Ok(true),
            Ok(false) => contains_any_result(nets, ips.drop_first()),
        }
    }
}

/// Where every text is an IP address, asking for several texts tells
/// whether any of them lies in the list: `contains_any` answers `true`
/// exactly when `contains` answers `true` for one of the texts.
pub proof fn law_contains_any_is_any_contains(nets: Seq<IpNet>, ips: Seq<Seq<char>>)
    requires
        forall|i: int| 0 <= i < ips.len() ==> (#[trigger] ip_address_from_str(ips[i])) is Some,
    ensures
        contains_any_result(nets, ips) == Ok::<bool, IpListError>(
            exists|i: int|
                0 <= i < ips.len() && #[trigger] contains_result(nets, ips[i]) == Ok::<bool, IpListError>(true),
        ),
    decreases ips.len(),
{
    if ips.len() > 0 {
        let rest = ips.drop_first();
        assert forall|i: int| 0 <= i < rest.len() implies (#[trigger] ip_address_from_str(rest[i])) is Some by {
            assert(rest[i] == ips[i + 1]);
        }
        law_contains_any_is_any_contains(nets, rest);
        assert(ip_address_from_str(ips[0]) is Some);
        if contains_result(nets, ips[0]) == Ok::<bool, IpListError>(true) {
            assert(contains_result(nets, ips[0]) == Ok::<bool, IpListError>(true));
        } else {
            assert((exists|i: int|
                0 <= i < ips.len() && #[trigger] contains_result(nets, ips[i]) == Ok::<bool, IpListError>(true))
                == (exists|i: int|
                0 <= i < rest.len() && #[trigger] contains_result(nets, rest[i]) == Ok::<bool, IpListError>(
                    true,
                ))) by {
                if exists|i: int|
                    0 <= i < ips.len() && #[trigger] contains_result(nets, ips[i]) == Ok::<bool, IpListError>(true) {
                    let i = choose|i: int|
                        0 <= i < ips.len() && #[trigger] contains_result(nets, ips[i]) == Ok::<bool, IpListError>(
                            true,
                        );
                    assert(i > 0);
                    assert(rest[i - 1] == ips[i]);
                }
                if exists|i: int|
                    0 <= i < rest.len() && #[trigger] contains_result(nets, rest[i]) == Ok::<bool, IpListError>(true) {
                    let i = choose|i: int|
                        0 <= i < rest.len() && #[trigger] contains_result(nets, rest[i]) == Ok::<bool, IpListError>(
                            true,
                        );
                    assert(rest[i] == ips[i + 1]);
                }
            }
        }
    }
}

/// The networks the texts read as, where all of them are networks.
pub open spec fn parsed_networks(ips: Seq<Seq<char>>) -> Option<Seq<IpNet>> {
    if forall|i: int| 0 <= i < ips.len() ==> (#[trigger] ip_network_from_str(ips[i])) is Some {
        Some(ips.map_values(|s: Seq<char>| ip_network_from_str(s).unwrap()))
    } else {
        None
    }
}

/// The views of a list of strings.
pub open spec fn views(v: Seq<String>) -> Seq<Seq<char>> {
    v.map_values(|s: String| s@)
}

/// Builds an IP list from texts such as `10.0.0.0/8` or `::1/128`; fails at
/// the first text that is no network.
pub fn new_iplist(ips: &Vec<String>) -> (res: Result<IpNetworkSetWrapper, IpListError>)
    ensures
        match res {
            Ok(list) => parsed_networks(views(ips@)) == Some(list@) && list.wf(),
            Err(IpListError::InvalidNetwork(i)) => {
                &&& parsed_networks(views(ips@)) is None
                &&& i < ips@.len()
                &&& ip_network_from_str(ips@[i as int]@) is None
                &&& forall|j: int| 0 <= j < i ==> (#[trigger] ip_network_from_str(ips@[j]@)) is Some
            },
            Err(IpListError::InvalidIp) => false,
        },
{
    let mut networks: Vec<IpNet> = Vec::new();
    let mut i: usize = 0;
    while i < ips.len()
        invariant
            i <= ips@.len(),
            networks@.len() == i,
            forall|j: int| 0 <= j < i ==> (#[trigger] ip_network_from_str(ips@[j]@)) is Some,
            forall|j: int|
                0 <= j < i ==> #[trigger] networks@[j] == ip_network_from_str(ips@[j]@).unwrap(),
            forall|j: int| 0 <= j < i ==> (#[trigger] networks@[j]).wf(),
        decreases ips.len() - i,
    {
        match parse_ip_network(ips[i].as_str()) {
            Some(n) => {
                networks.push(n);
            },
            None => {
                proof {
                    assert(views(ips@)[i as int] == ips@[i as int]@);
                }
                return Err(IpListError::InvalidNetwork(i));
            },
        }
        i = i + 1;
    }
    proof {
        assert forall|j: int| 0 <= j < views(ips@).len() implies (#[trigger] ip_network_from_str(
            views(ips@)[j],
        )) is Some by {
            assert(views(ips@)[j] == ips@[j]@);
        }
        assert(networks@ =~= views(ips@).map_values(
            |s: Seq<char>| ip_network_from_str(s).unwrap(),
        ));
    }
    Ok(IpNetworkSetWrapper { networks })
}

impl View for IpNetworkSetWrapper {
    type V = Seq<IpNet>;

    closed spec fn view(&self) -> Seq<IpNet> {
        self.networks@
    }
}

impl IpNetworkSetWrapper {
    /// Every network of the list is well formed.
    pub closed spec fn wf(&self) -> bool {
        forall|i: int| 0 <= i < self.networks@.len() ==> (#[trigger] self.networks@[i]).wf()
    }

    /// Whether some network of the list holds `ip`.
    pub fn contains_ip(&self, ip: IpAddress) -> (res: bool)
        requires
            self.wf(),
        ensures
            res == set_contains(self@, ip),
    {
        let mut i: usize = 0;
        while i < self.networks.len()
            invariant
                i <= self.networks@.len(),
                self.wf(),
                forall|j: int| 0 <= j < i ==> !net_contains(#[trigger] self.networks@[j], ip),
            decreases self.networks.len() - i,
        {
            if ip_net_contains(&self.networks[i], ip) {
                return true;
            }
            i = i + 1;
        }
        false
    }

    /// Whether some network of the list holds the address that `ip` reads
    /// as; an error where `ip` is no IP address.
    pub fn contains(&self, ip: &str) -> (res: Result<bool, IpListError>)
        requires
            self.wf(),
        ensures
            res == contains_result(self@, ip@),
    {
        match parse_ip_address(ip) {
            Some(a) => Ok(self.contains_ip(a)),
            None => Err(IpListError::InvalidIp),
        }
    }

    /// Takes the texts in order: `true` at the first that lies in the list,
    /// an error at the first before it that is no IP address, else `false`.
    pub fn contains_any(&self, ips: &Vec<String>) -> (res: Result<bool, IpListError>)
        requires
            self.wf(),
        ensures
            res == contains_any_result(self@, views(ips@)),
    {
        let mut i: usize = 0;
        proof {
            assert(views(ips@).skip(0) =~= views(ips@));
        }
        while i < ips.len()
            invariant
                i <= ips@.len(),
                self.wf(),
                contains_any_result(self@, views(ips@)) == contains_any_result(
                    self@,
                    views(ips@).skip(i as int),
                ),
            decreases ips.len() - i,
        {
            let ghost rest = views(ips@).skip(i as int);
            proof {
                assert(rest[0] == ips@[i as int]@);
                assert(rest.drop_first() =~= views(ips@).skip(i + 1));
            }
            let result = self.contains(ips[i].as_str());
            match result {
                Err(e) => {
                    return Err(e);
                },
                Ok(true) => {
                    return Ok(true);
                },
                Ok(false) => {},
            }
            i = i + 1;
        }
        proof {
            assert(views(ips@).skip(i as int).len() == 0);
        }
        Ok(false)
    }
}

} // verus!
