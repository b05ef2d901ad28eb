use vstd::prelude::*;

use crate::bytes32::bytes32_eq;
use crate::slots::SlotValue;

verus! {

/// A public-key identity that can occupy a slot in the wallet's signer store.
#[derive(Clone, Copy, Debug)]
pub struct Signer {
    pub key: [u8; 32],
}

impl Signer {
    pub fn new(key: [u8; 32]) -> (r: Self)
        ensures
            r.key == key,
    {
        Signer { key }
    }

    /// Compares two signer identities by key.
    pub fn key_eq(&self, other: &Signer) -> (r: bool)
        ensures
            r == (*self == *other),
    {
        let r = bytes32_eq(&self.key, &other.key);
        proof {
            if self.key == other.key {
                assert(*self == *other);
            } else {
                assert(*self != *other);
            }
        }
        r
    }
}

impl SlotValue for Signer {
    fn slot_eq(&self, other: &Self) -> (r: bool) {
        self.key_eq(other)
    }
}

} // verus!
