//! IP addresses and their text forms.

pub mod digits;
pub mod ipv4;
pub mod ipv6;
pub mod roundtrip;

use crate::address::ipv4::{ipv4_number, ipv4_text, parse_v4_range, push_v4};
use crate::address::ipv6::{groups_of, ipv6_number, ipv6_text, parse_v6_chars, push_groups};
use crate::text::chars_of;
use vstd::prelude::*;

verus! {

/// An IPv4 or IPv6 address, held as its number.
#[derive(Clone, Copy, Debug, PartialEq, Eq, Hash, Structural)]
pub enum IpAddress {
    V4(u32),
    V6(u128),
}

impl IpAddress {
    /// The IPv4 address that `text` writes in dotted form.
    pub open spec fn parsed_v4(text: Seq<char>) -> Option<IpAddress> {
        match ipv4_number(text) {
            Some(v) => Some(IpAddress::V4(v as u32)),
            None => None,
        }
    }

    /// The IPv6 address that `text` writes.
    pub open spec fn parsed_v6(text: Seq<char>) -> Option<IpAddress> {
        match ipv6_number(text) {
            Some(v) => Some(IpAddress::V6(v as u128)),
            None => None,
        }
    }

    /// The address that `text` writes, in either family.
    pub open spec fn parsed(text: Seq<char>) -> Option<IpAddress> {
        if Self::parsed_v4(text) is Some {
            Self::parsed_v4(text)
        } else {
            Self::parsed_v6(text)
        }
    }

    /// Reads `text` as a dotted IPv4 address.
    pub fn parse_v4(text: &str) -> (address: Option<IpAddress>)
        ensures
            address == Self::parsed_v4(text@),
    {
        let chars = chars_of(text);
        proof {
            assert(chars@.subrange(0, chars.len() as int) =~= chars@);
        }
        match parse_v4_range(&chars, 0, chars.len()) {
            Some(v) => Some(IpAddress::V4(v)),
            None => None,
        }
    }

    /// Reads `text` as an IPv6 address.
    pub fn parse_v6(text: &str) -> (address: Option<IpAddress>)
        ensures
            address == Self::parsed_v6(text@),
    {
        let chars = chars_of(text);
        match parse_v6_chars(&chars) {
            Some(v) => Some(IpAddress::V6(v)),
            None => None,
        }
    }

    /// Reads `text` as an address of either family.
    pub fn parse(text: &str) -> (address: Option<IpAddress>)
        ensures
            address == Self::parsed(text@),
    {
        match Self::parse_v4(text) {
            Some(address) => Some(address),
            None => Self::parse_v6(text),
        }
    }

    /// The text form of the address: dotted decimal for IPv4, colon-separated
    /// hexadecimal for IPv6.
    pub open spec fn text(self) -> Seq<char> {
        match self {
            IpAddress::V4(v) => ipv4_text(v as int),
            IpAddress::V6(v) => ipv6_text(v as int),
        }
    }

    /// Writes the address out.
    pub fn to_text(&self) -> (text: String)
        ensures
            text@ == self.text(),
    {
        let mut out = String::new();
        match self {
            IpAddress::V4(v) => {
                push_v4(&mut out, *v);
                proof {
                    assert(out@ =~= ipv4_text(*v as int));
                }
            },
            IpAddress::V6(v) => {
                let groups = groups_of(*v);
                push_groups(&mut out, &groups);
                proof {
                    assert(out@ =~= ipv6_text(*v as int));
                }
            },
        }
        out
    }
}

} // verus!
