//! Hosts of the topology, and how the records of a scan become hosts.

use crate::address::IpAddress;
use crate::error::ScanError;
use crate::hostname::{encode_hostname, wire_name};
use crate::os::{classify, OsGuess, OsLabel};
use crate::record::{first_entry, first_text, HopRecord, HopView, HostRecord, HostRecordView};
use crate::text::same_text;
use vstd::prelude::*;

verus! {

/// A host of the topology. Its address is what tells it from other hosts.
#[derive(Clone, Debug, PartialEq)]
pub struct SimpleHost {
    pub main_addr: IpAddress,
    /// The host's name in DNS wire format.
    pub main_hostname: Option<Vec<u8>>,
    pub os_guess: Option<OsGuess>,
    /// The round-trip time to the host, in microseconds.
    pub rtt: Option<u32>,
}

/// What a host holds.
pub struct HostView {
    pub address: IpAddress,
    pub hostname: Option<Seq<u8>>,
    pub os_guess: Option<OsLabel>,
    pub rtt: Option<u32>,
}

impl View for SimpleHost {
    type V = HostView;

    open spec fn view(&self) -> HostView {
        HostView {
            address: self.main_addr,
            hostname: self.main_hostname.deep_view(),
            os_guess: match self.os_guess {
                Some(guess) => Some(guess@),
                None => None,
            },
            rtt: self.rtt,
        }
    }
}

/// What a host name came to: there was none (`None`), it was malformed
/// (`Some(None)`), or it encodes to the octets given.
pub type HostnameOutcome = Option<Option<Seq<u8>>>;

/// The outcome of encoding the optional host name `text`.
pub open spec fn encoded(text: Option<Seq<char>>) -> HostnameOutcome {
    match text {
        Some(text) => Some(wire_name(text)),
        None => None,
    }
}

/// The guess that the text of an operating-system match gives.
pub open spec fn os_label(text: Seq<char>) -> OsLabel {
    OsLabel { family: classify(text), text }
}

/// The address of a full host record, or the reason why it has none: the
/// record must carry a state other than "down" and a first address with its
/// type and text; the type must be "ipv4" or "ipv6", and the text must read
/// as an address of that family.
pub open spec fn full_host_address(record: HostRecordView) -> Result<IpAddress, ScanError> {
    if record.state is None || record.state == Some("down"@) {
        Err(ScanError::InvalidHost)
    } else if record.addresses is None || record.addresses->0.len() == 0 {
        Err(ScanError::InvalidHost)
    } else {
        let first = record.addresses->0[0];
        if first.addrtype is None || first.addr is None {
            Err(ScanError::InvalidHost)
        } else if first.addrtype->0 == "ipv4"@ {
            match IpAddress::parsed_v4(first.addr->0) {
                Some(address) => Ok(address),
                None => Err(ScanError::InvalidAddress),
            }
        } else if first.addrtype->0 == "ipv6"@ {
            match IpAddress::parsed_v6(first.addr->0) {
                Some(address) => Ok(address),
                None => Err(ScanError::InvalidAddress),
            }
        } else {
            Err(ScanError::UnsupportedAddressFamily)
        }
    }
}

/// The host that a full host record gives, `hostname` being what its first
/// host name came to. A malformed name makes the record invalid; the guess
/// comes from the first operating-system match.
pub open spec fn full_host_with(record: HostRecordView, hostname: HostnameOutcome) -> Result<
    HostView,
    ScanError,
> {
    match full_host_address(record) {
        Err(e) => Err(e),
        Ok(address) => match hostname {
            Some(None) => Err(ScanError::InvalidHost),
            _ => Ok(
                HostView {
                    address,
                    hostname: match hostname {
                        Some(name) => name,
                        None => None,
                    },
                    os_guess: match first_text(record.os_matches) {
                        Some(text) => Some(os_label(text)),
                        None => None,
                    },
                    rtt: None,
                },
            ),
        },
    }
}

/// The host that a full host record gives.
pub open spec fn full_host(record: HostRecordView) -> Result<HostView, ScanError> {
    full_host_with(record, encoded(first_text(record.hostnames)))
}

/// The host that a hop gives, `hostname` being what its name came to: the
/// hop must carry an address that reads as IPv4 or IPv6, and no malformed
/// name. A hop has no operating-system guess.
pub open spec fn hop_host_with(hop: HopView, hostname: HostnameOutcome) -> Result<
    HostView,
    ScanError,
> {
    match hop.ipaddr {
        None => Err(ScanError::InvalidHop),
        Some(text) => match IpAddress::parsed(text) {
            None => Err(ScanError::InvalidHop),
            Some(address) => match hostname {
                Some(None) => Err(ScanError::InvalidHop),
                _ => Ok(
                    HostView {
                        address,
                        hostname: match hostname {
                            Some(name) => name,
                            None => None,
                        },
                        os_guess: None,
                        rtt: None,
                    },
                ),
            },
        },
    }
}

/// The host that a hop gives.
pub open spec fn hop_host(hop: HopView) -> Result<HostView, ScanError> {
    hop_host_with(hop, encoded(hop.host))
}

/// The host that an address and what its name came to give: the address
/// must read as IPv4 or IPv6 and the name must be well formed.
pub open spec fn literal_host_with(addr: Seq<char>, hostname: Option<Seq<u8>>) -> Result<
    HostView,
    ScanError,
> {
    match IpAddress::parsed(addr) {
        None => Err(ScanError::InvalidAddress),
        Some(address) => match hostname {
            None => Err(ScanError::InvalidAddress),
            Some(name) => Ok(
                HostView { address, hostname: Some(name), os_guess: None, rtt: None },
            ),
        },
    }
}

/// The host that an address and a name give.
pub open spec fn literal_host(addr: Seq<char>, hostname: Seq<char>) -> Result<
    HostView,
    ScanError,
> {
    literal_host_with(addr, wire_name(hostname))
}

/// A host or an error, the host by its view.
pub open spec fn outcome(result: Result<SimpleHost, ScanError>) -> Result<HostView, ScanError> {
    match result {
        Ok(host) => Ok(host@),
        Err(e) => Err(e),
    }
}

/// Encodes an optional host name.
fn encode_optional(text: Option<&String>) -> (name: Option<Option<Vec<u8>>>)
    ensures
        name.deep_view() == encoded(text.deep_view()),
{
    match text {
        Some(text) => Some(encode_hostname(text.as_str())),
        None => None,
    }
}

/// The address of a full host record.
fn fullhost_address(host: &HostRecord) -> (address: Result<IpAddress, ScanError>)
    ensures
        address == full_host_address(host.deep_view()),
{
    let state = match &host.state {
        None => {
            return Err(ScanError::InvalidHost);
        },
        Some(state) => state,
    };
    if same_text(state.as_str(), "down") {
        return Err(ScanError::InvalidHost);
    }
    let list = match &host.addresses {
        None => {
            return Err(ScanError::InvalidHost);
        },
        Some(list) => list,
    };
    if list.len() == 0 {
        return Err(ScanError::InvalidHost);
    }
    let first = &list[0];
    proof {
        assert(host.deep_view().addresses->0[0] == first.deep_view());
    }
    let addrtype = match &first.addrtype {
        None => {
            return Err(ScanError::InvalidHost);
        },
        Some(addrtype) => addrtype,
    };
    let addr = match &first.addr {
        None => {
            return Err(ScanError::InvalidHost);
        },
        Some(addr) => addr,
    };
    if same_text(addrtype.as_str(), "ipv4") {
        match IpAddress::parse_v4(addr.as_str()) {
            Some(address) => Ok(address),
            None => Err(ScanError::InvalidAddress),
        }
    } else if same_text(addrtype.as_str(), "ipv6") {
        match IpAddress::parse_v6(addr.as_str()) {
            Some(address) => Ok(address),
            None => Err(ScanError::InvalidAddress),
        }
    } else {
        Err(ScanError::UnsupportedAddressFamily)
    }
}

impl SimpleHost {
    /// The host of a full host record.
    pub fn from_fullhost(host: &HostRecord) -> (result: Result<Self, ScanError>)
        ensures
            outcome(result) == full_host(host.deep_view()),
    {
        let hostname = encode_optional(first_entry(&host.hostnames));
        Self::fullhost_with_hostname(host, hostname)
    }

    /// The host of a full host record, given what its first host name came
    /// to: `None` where it has none, `Some(None)` where the name is
    /// malformed, else the name's octets.
    pub fn fullhost_with_hostname(host: &HostRecord, hostname: Option<Option<Vec<u8>>>) -> (result:
        Result<Self, ScanError>)
        ensures
            outcome(result) == full_host_with(host.deep_view(), hostname.deep_view()),
    {
        let address = match fullhost_address(host) {
            Err(e) => {
                return Err(e);
            },
            Ok(address) => address,
        };
        let name = match hostname {
            Some(None) => {
                return Err(ScanError::InvalidHost);
            },
            Some(Some(octets)) => Some(octets),
            None => None,
        };
        let os_guess = match first_entry(&host.os_matches) {
            Some(text) => Some(OsGuess::from_string(text)),
            None => None,
        };
        Ok(SimpleHost { main_addr: address, main_hostname: name, os_guess, rtt: None })
    }

    /// The host of a hop.
    pub fn from_hop(hop: &HopRecord) -> (result: Result<Self, ScanError>)
        ensures
            outcome(result) == hop_host(hop.deep_view()),
    {
        let hostname = encode_optional(hop.host.as_ref());
        Self::hop_with_hostname(hop, hostname)
    }

    /// The host of a hop, given what its name came to.
    pub fn hop_with_hostname(hop: &HopRecord, hostname: Option<Option<Vec<u8>>>) -> (result:
        Result<Self, ScanError>)
        ensures
            outcome(result) == hop_host_with(hop.deep_view(), hostname.deep_view()),
    {
        let text = match &hop.ipaddr {
            None => {
                return Err(ScanError::InvalidHop);
            },
            Some(text) => text,
        };
        let address = match IpAddress::parse(text.as_str()) {
            None => {
                return Err(ScanError::InvalidHop);
            },
            Some(address) => address,
        };
        let name = match hostname {
            Some(None) => {
                return Err(ScanError::InvalidHop);
            },
            Some(Some(octets)) => Some(octets),
            None => None,
        };
        Ok(SimpleHost { main_addr: address, main_hostname: name, os_guess: None, rtt: None })
    }

    /// The host with the address and the name given as texts.
    pub fn from_strs(addr: &str, hostname: &str) -> (result: Result<Self, ScanError>)
        ensures
            outcome(result) == literal_host(addr@, hostname@),
    {
        Self::strs_with_hostname(addr, encode_hostname(hostname))
    }

    /// The host with the address given as text, given what its name came to.
    pub fn strs_with_hostname(addr: &str, hostname: Option<Vec<u8>>) -> (result: Result<
        Self,
        ScanError,
    >)
        ensures
            outcome(result) == literal_host_with(addr@, hostname.deep_view()),
    {
        let address = match IpAddress::parse(addr) {
            None => {
                return Err(ScanError::InvalidAddress);
            },
            Some(address) => address,
        };
        match hostname {
            None => Err(ScanError::InvalidAddress),
            Some(octets) => Ok(
                SimpleHost {
                    main_addr: address,
                    main_hostname: Some(octets),
                    os_guess: None,
                    rtt: None,
                },
            ),
        }
    }

    /// Records the round-trip time of a host that has none yet.
    pub fn set_rtt(host: &mut Self, rtt: u32)
        requires
            old(host).rtt is None,
        ensures
            final(host)@ == (HostView { rtt: Some(rtt), ..old(host)@ }),
    {
        host.rtt = Some(rtt);
    }
}

} // verus!
