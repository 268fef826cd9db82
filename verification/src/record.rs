//! The records of a scan, as far as the topology reads them.

use vstd::prelude::*;

verus! {

/// One address of a host: its text and the family it is said to be of.
#[derive(Clone, Debug, PartialEq)]
pub struct AddressRecord {
    pub addr: Option<String>,
    pub addrtype: Option<String>,
}

/// One hop of a trace towards a host.
#[derive(Clone, Debug, PartialEq)]
pub struct HopRecord {
    pub ipaddr: Option<String>,
    pub host: Option<String>,
}

/// One scanned host.
#[derive(Clone, Debug, PartialEq)]
pub struct HostRecord {
    /// The state of the host's status, "up" or "down", where the record
    /// carries both.
    pub state: Option<String>,
    /// The addresses of the host, where the record carries the list.
    pub addresses: Option<Vec<AddressRecord>>,
    /// The names of the host's hostname entries, in order.
    pub hostnames: Vec<Option<String>>,
    /// The names of the host's operating-system matches, in order.
    pub os_matches: Vec<Option<String>>,
    /// The hops of the trace towards the host, where the record carries a
    /// trace with its list of hops.
    pub hops: Option<Vec<HopRecord>>,
}

/// A whole scan.
#[derive(Clone, Debug, PartialEq)]
pub struct ScanRecord {
    /// The scanned hosts, where the scan carries the list.
    pub hosts: Option<Vec<HostRecord>>,
}

/// What an address record holds.
pub struct AddressView {
    pub addr: Option<Seq<char>>,
    pub addrtype: Option<Seq<char>>,
}

/// What a hop record holds.
pub struct HopView {
    pub ipaddr: Option<Seq<char>>,
    pub host: Option<Seq<char>>,
}

/// What a host record holds.
pub struct HostRecordView {
    pub state: Option<Seq<char>>,
    pub addresses: Option<Seq<AddressView>>,
    pub hostnames: Seq<Option<Seq<char>>>,
    pub os_matches: Seq<Option<Seq<char>>>,
    pub hops: Option<Seq<HopView>>,
}

/// What a scan holds.
pub struct ScanView {
    pub hosts: Option<Seq<HostRecordView>>,
}

impl DeepView for AddressRecord {
    type V = AddressView;

    open spec fn deep_view(&self) -> AddressView {
        AddressView { addr: self.addr.deep_view(), addrtype: self.addrtype.deep_view() }
    }
}

impl DeepView for HopRecord {
    type V = HopView;

    open spec fn deep_view(&self) -> HopView {
        HopView { ipaddr: self.ipaddr.deep_view(), host: self.host.deep_view() }
    }
}

impl DeepView for HostRecord {
    type V = HostRecordView;

    open spec fn deep_view(&self) -> HostRecordView {
        HostRecordView {
            state: self.state.deep_view(),
            addresses: self.addresses.deep_view(),
            hostnames: self.hostnames.deep_view(),
            os_matches: self.os_matches.deep_view(),
            hops: self.hops.deep_view(),
        }
    }
}

impl DeepView for ScanRecord {
    type V = ScanView;

    open spec fn deep_view(&self) -> ScanView {
        ScanView { hosts: self.hosts.deep_view() }
    }
}

/// The first entry of a list of optional texts, where there is one and it
/// carries a text.
pub open spec fn first_text(entries: Seq<Option<Seq<char>>>) -> Option<Seq<char>> {
    if entries.len() > 0 {
        entries[0]
    } else {
        None
    }
}

/// The first entry of `entries`, where there is one and it carries a text.
pub fn first_entry(entries: &Vec<Option<String>>) -> (first: Option<&String>)
    ensures
        first.deep_view() == first_text(entries.deep_view()),
{
    if entries.len() > 0 {
        match &entries[0] {
            Some(text) => Some(text),
            None => None,
        }
    } else {
        None
    }
}

} // verus!
