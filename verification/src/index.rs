//! The index from addresses to the nodes that stand for them.

use crate::address::IpAddress;
use crate::graph::NodeHandle;
use std::collections::HashMap;
use vstd::prelude::*;

verus! {

broadcast use vstd::std_specs::hash::group_hash_axioms;

/// Which node stands for which address, while a graph is built.
pub struct AddressIndex {
    v4: HashMap<u32, NodeHandle>,
    v6: HashMap<u128, NodeHandle>,
}

impl View for AddressIndex {
    type V = Map<IpAddress, NodeHandle>;

    closed spec fn view(&self) -> Map<IpAddress, NodeHandle> {
        Map::new(
            |address: IpAddress|
                match address {
                    IpAddress::V4(key) => self.v4@.contains_key(key),
                    IpAddress::V6(key) => self.v6@.contains_key(key),
                },
            |address: IpAddress|
                match address {
                    IpAddress::V4(key) => self.v4@[key],
                    IpAddress::V6(key) => self.v6@[key],
                },
        )
    }
}

impl AddressIndex {
    /// An index without entries.
    pub fn new() -> (index: Self)
        ensures
            index@ == Map::<IpAddress, NodeHandle>::empty(),
    {
        let index = AddressIndex { v4: HashMap::new(), v6: HashMap::new() };
        proof {
            assert(index@ =~= Map::<IpAddress, NodeHandle>::empty());
        }
        index
    }

    /// The node that stands for `address`, where one does.
    pub fn get(&self, address: IpAddress) -> (handle: Option<NodeHandle>)
        ensures
            handle == (if self@.contains_key(address) {
                Some(self@[address])
            } else {
                None
            }),
    {
        match address {
            IpAddress::V4(key) => match self.v4.get(&key) {
                Some(handle) => Some(*handle),
                None => None,
            },
            IpAddress::V6(key) => match self.v6.get(&key) {
                Some(handle) => Some(*handle),
                None => None,
            },
        }
    }

    /// Lets `handle` stand for `address` from now on.
    pub fn insert(&mut self, address: IpAddress, handle: NodeHandle)
        ensures
            final(self)@ == old(self)@.insert(address, handle),
    {
        match address {
            IpAddress::V4(key) => {
                self.v4.insert(key, handle);
            },
            IpAddress::V6(key) => {
                self.v6.insert(key, handle);
            },
        }
        proof {
            assert(self@ =~= old(self)@.insert(address, handle));
        }
    }
}

} // verus!
