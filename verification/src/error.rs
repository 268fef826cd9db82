//! What can be wrong with a scan.

use vstd::prelude::*;

verus! {

/// The ways in which a scan, or one record of it, can fail to yield a graph.
#[derive(Clone, Copy, Debug, PartialEq, Eq, Structural)]
pub enum ScanError {
    /// A host record is down or lacks its state or its address.
    InvalidHost,
    /// A hop of a trace lacks a usable address or carries a malformed name.
    InvalidHop,
    /// An address does not read as IPv4 or IPv6.
    InvalidAddress,
    /// A host record gives an address type other than "ipv4" and "ipv6".
    UnsupportedAddressFamily,
    /// The scan carries no list of hosts.
    MissingHostList,
    /// A host that is up carries no list of hops.
    MalformedTrace,
}

impl ScanError {
    /// The build of a graph goes on after this error in a host record, and
    /// leaves that host out.
    pub open spec fn skips_host(self) -> bool {
        self != ScanError::UnsupportedAddressFamily
    }

    /// Whether the build of a graph goes on after this error in a host
    /// record.
    pub fn is_skipped(&self) -> (skipped: bool)
        ensures
            skipped == self.skips_host(),
    {
        match self {
            ScanError::UnsupportedAddressFamily => false,
            _ => true,
        }
    }
}

} // verus!
