//! Host names, checked and encoded by the `domain` crate.

use domain::base::Dname;
use vstd::prelude::*;

verus! {

/// The wire format of the absolute domain name that `text` writes in master
/// format, and `None` where `text` is no such name: what
/// `domain::base::Dname::from_chars` makes of the characters.
pub uninterp spec fn wire_name(text: Seq<char>) -> Option<Seq<u8>>;

/// Calls `Dname::<Vec<u8>>::from_chars` on the characters of `text` and hands
/// out the octets of the name, or `None` where the call fails. The contract
/// gives that outcome its name, `wire_name`, and claims nothing else of it.
#[verifier::external_body]
pub(crate) fn encode_hostname(text: &str) -> (octets: Option<Vec<u8>>)
    ensures
        octets.deep_view() == wire_name(text@),
{
    match Dname::<Vec<u8>>::from_chars(text.chars()) {
        Ok(name) => Some(name.into_octets()),
        Err(_) => None,
    }
}

} // verus!
