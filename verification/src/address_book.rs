use vstd::prelude::*;

use crate::bytes32::bytes32_eq;
use crate::slots::SlotValue;

verus! {

/// Hash of an address-book entry's display name.
#[derive(Clone, Copy, Debug)]
pub struct AddressBookEntryNameHash {
    pub bytes: [u8; 32],
}

impl AddressBookEntryNameHash {
    pub fn new(bytes: &[u8; 32]) -> (r: Self)
        ensures
            r.bytes == *bytes,
    {
        AddressBookEntryNameHash { bytes: *bytes }
    }

    pub fn zero() -> (r: Self)
        ensures
            r.bytes@ == Seq::new(32, |i: int| 0u8),
    {
        AddressBookEntryNameHash { bytes: [0u8; 32] }
    }
}

/// A destination identity: its address together with its name hash.
#[derive(Clone, Copy, Debug)]
pub struct AddressBookEntry {
    pub address: [u8; 32],
    pub name_hash: AddressBookEntryNameHash,
}

impl AddressBookEntry {
    pub fn new(address: [u8; 32], name_hash: AddressBookEntryNameHash) -> (r: Self)
        ensures
            r.address == address,
            r.name_hash == name_hash,
    {
        AddressBookEntry { address, name_hash }
    }

    /// Compares two entries by address and name hash.
    pub fn entry_eq(&self, other: &AddressBookEntry) -> (r: bool)
        ensures
            r == (*self == *other),
    {
        let r = bytes32_eq(&self.address, &other.address)
            && bytes32_eq(&self.name_hash.bytes, &other.name_hash.bytes);
        proof {
            if self.address == other.address && self.name_hash.bytes == other.name_hash.bytes {
                assert(self.name_hash == other.name_hash);
                assert(*self == *other);
            } else {
                assert(*self != *other);
            }
        }
        r
    }
}

impl SlotValue for AddressBookEntry {
    fn slot_eq(&self, other: &Self) -> (r: bool) {
        self.entry_eq(other)
    }
}

} // verus!
