use neuromaster::address::IpAddress;
use neuromaster::index::AddressIndex;

#[test]
fn new_index_knows_no_address() {
    let index = AddressIndex::new();
    assert_eq!(index.get(IpAddress::V4(0)), None);
    assert_eq!(index.get(IpAddress::V6(0)), None);
}

#[test]
fn inserted_address_is_found_with_its_node() {
    let mut index = AddressIndex::new();
    index.insert(IpAddress::V4(0x7f00_0001), 0);
    index.insert(IpAddress::V6(1), 4);
    assert_eq!(index.get(IpAddress::V4(0x7f00_0001)), Some(0));
    assert_eq!(index.get(IpAddress::V6(1)), Some(4));
    assert_eq!(index.get(IpAddress::V4(1)), None);
}

#[test]
fn families_do_not_meet() {
    let mut index = AddressIndex::new();
    index.insert(IpAddress::V4(7), 1);
    assert_eq!(index.get(IpAddress::V6(7)), None);
    index.insert(IpAddress::V6(7), 2);
    assert_eq!(index.get(IpAddress::V4(7)), Some(1));
    assert_eq!(index.get(IpAddress::V6(7)), Some(2));
}

#[test]
fn later_entry_replaces_the_earlier() {
    let mut index = AddressIndex::new();
    index.insert(IpAddress::V4(7), 1);
    index.insert(IpAddress::V4(7), 9);
    assert_eq!(index.get(IpAddress::V4(7)), Some(9));
}
