use vstd::prelude::*;

use crate::bytes32::{bytes32_eq, spec_zero32};
use crate::flags::SlotFlags;

verus! {

/// Capacity of the wallet's signer slot store.
pub const MAX_SIGNERS: usize = 24;

/// Capacity of the wallet's address-book slot store.
pub const MAX_ADDRESS_BOOK_ENTRIES: usize = 128;

/// Maximum number of balance accounts a wallet manages.
pub const MAX_BALANCE_ACCOUNTS: usize = 10;

/// An on/off toggle stored as one bit of a packed settings byte.
#[derive(Clone, Copy, Debug, PartialEq, Eq, Structural)]
pub enum BooleanSetting {
    Off,
    On,
}

impl BooleanSetting {
    /// The bit this setting contributes to a packed settings byte.
    pub open spec fn as_u8(self) -> u8 {
        match self {
            BooleanSetting::Off => 0,
            BooleanSetting::On => 1,
        }
    }

    /// Decodes a masked bit: zero is `Off`, anything else `On`.
    pub fn from_u8(value: u8) -> (r: Self)
        ensures
            r == (if value == 0 {
                BooleanSetting::Off
            } else {
                BooleanSetting::On
            }),
    {
        if value == 0 {
            BooleanSetting::Off
        } else {
            BooleanSetting::On
        }
    }

    pub fn to_u8(&self) -> (r: u8)
        ensures
            r == self.as_u8(),
    {
        match self {
            BooleanSetting::Off => 0,
            BooleanSetting::On => 1,
        }
    }
}

/// Opaque, immutable 32-byte identifier of a balance sub-account, unrelated
/// to its storage address.
#[derive(Clone, Copy, Debug)]
pub struct BalanceAccountGuidHash {
    pub bytes: [u8; 32],
}

impl BalanceAccountGuidHash {
    pub fn new(bytes: &[u8; 32]) -> (r: Self)
        ensures
            r.bytes == *bytes,
    {
        BalanceAccountGuidHash { bytes: *bytes }
    }

    pub fn zero() -> (r: Self)
        ensures
            r.bytes == spec_zero32(),
            r.bytes@ == Seq::new(32, |i: int| 0u8),
    {
        let r = BalanceAccountGuidHash { bytes: [0u8; 32] };
        proof {
            assert(r.bytes@ =~= Seq::new(32, |i: int| 0u8));
        }
        r
    }

    pub fn to_bytes(&self) -> (r: &[u8])
        ensures
            r@ == self.bytes@,
    {
        self.bytes.as_slice()
    }

    /// Compares two GUID hashes.
    pub fn guid_eq(&self, other: &BalanceAccountGuidHash) -> (r: bool)
        ensures
            r == (*self == *other),
    {
        let r = bytes32_eq(&self.bytes, &other.bytes);
        proof {
            if self.bytes == other.bytes {
                assert(*self == *other);
            } else {
                assert(*self != *other);
            }
        }
        r
    }
}

/// Hash of a balance account's display name.
#[derive(Clone, Copy, Debug)]
pub struct BalanceAccountNameHash {
    pub bytes: [u8; 32],
}

impl BalanceAccountNameHash {
    pub fn new(bytes: &[u8; 32]) -> (r: Self)
        ensures
            r.bytes == *bytes,
    {
        BalanceAccountNameHash { bytes: *bytes }
    }

    pub fn zero() -> (r: Self)
        ensures
            r.bytes == spec_zero32(),
            r.bytes@ == Seq::new(32, |i: int| 0u8),
    {
        let r = BalanceAccountNameHash { bytes: [0u8; 32] };
        proof {
            assert(r.bytes@ =~= Seq::new(32, |i: int| 0u8));
        }
        r
    }

    pub fn to_bytes(&self) -> (r: &[u8; 32])
        ensures
            *r == self.bytes,
    {
        &self.bytes
    }
}

/// Mathematical model of one balance account.
#[verifier::ext_equal]
pub struct BalanceAccountV {
    pub guid_hash: BalanceAccountGuidHash,
    pub name_hash: BalanceAccountNameHash,
    pub approvals_required_for_transfer: u8,
    pub approval_timeout_for_transfer: u64,
    pub transfer_approvers: Seq<bool>,
    pub allowed_destinations: Seq<bool>,
    pub whitelist_enabled: BooleanSetting,
    pub dapps_enabled: BooleanSetting,
    pub policy_update_locked: bool,
}

impl BalanceAccountV {
    pub open spec fn wf(self) -> bool {
        &&& self.transfer_approvers.len() == MAX_SIGNERS
        &&& self.allowed_destinations.len() == MAX_ADDRESS_BOOK_ENTRIES
    }
}

/// One managed sub-account of the wallet: its immutable GUID hash identity,
/// name hash, transfer-approval policy, the flag set of transfer-approvers
/// (over the signer store), the flag set of allowed destinations (over the
/// address book), packed toggles, and a policy-update lock.
pub struct BalanceAccount {
    pub guid_hash: BalanceAccountGuidHash,
    pub name_hash: BalanceAccountNameHash,
    pub approvals_required_for_transfer: u8,
    pub approval_timeout_for_transfer: u64,
    pub transfer_approvers: SlotFlags<24>,
    pub allowed_destinations: SlotFlags<128>,
    pub whitelist_enabled: BooleanSetting,
    pub dapps_enabled: BooleanSetting,
    pub policy_update_locked: bool,
}

impl View for BalanceAccount {
    type V = BalanceAccountV;

    open spec fn view(&self) -> BalanceAccountV {
        BalanceAccountV {
            guid_hash: self.guid_hash,
            name_hash: self.name_hash,
            approvals_required_for_transfer: self.approvals_required_for_transfer,
            approval_timeout_for_transfer: self.approval_timeout_for_transfer,
            transfer_approvers: self.transfer_approvers@,
            allowed_destinations: self.allowed_destinations@,
            whitelist_enabled: self.whitelist_enabled,
            dapps_enabled: self.dapps_enabled,
            policy_update_locked: self.policy_update_locked,
        }
    }
}

impl BalanceAccount {
    pub open spec fn wf(&self) -> bool {
        &&& self.transfer_approvers.wf()
        &&& self.allowed_destinations.wf()
    }

    /// A fresh, empty account for the given GUID hash, as created at the
    /// start of a validated add: no approvers, no destinations, zero policy.
    pub fn empty(guid_hash: BalanceAccountGuidHash) -> (r: Self)
        ensures
            r.wf(),
            r@ == spec_empty_account(guid_hash),
    {
        let r = BalanceAccount {
            guid_hash,
            name_hash: BalanceAccountNameHash::zero(),
            approvals_required_for_transfer: 0,
            approval_timeout_for_transfer: 0,
            transfer_approvers: SlotFlags::zero(),
            allowed_destinations: SlotFlags::zero(),
            whitelist_enabled: BooleanSetting::Off,
            dapps_enabled: BooleanSetting::Off,
            policy_update_locked: false,
        };
        proof {
            assert(r@.transfer_approvers =~= spec_empty_account(guid_hash).transfer_approvers);
            assert(r@.allowed_destinations =~= spec_empty_account(guid_hash).allowed_destinations);
            assert(r@ =~= spec_empty_account(guid_hash));
        }
        r
    }

    /// An identical copy.
    pub fn duplicate(&self) -> (r: Self)
        requires
            self.wf(),
        ensures
            r.wf(),
            r@ == self@,
    {
        let r = BalanceAccount {
            guid_hash: self.guid_hash,
            name_hash: self.name_hash,
            approvals_required_for_transfer: self.approvals_required_for_transfer,
            approval_timeout_for_transfer: self.approval_timeout_for_transfer,
            transfer_approvers: self.transfer_approvers.duplicate(),
            allowed_destinations: self.allowed_destinations.duplicate(),
            whitelist_enabled: self.whitelist_enabled,
            dapps_enabled: self.dapps_enabled,
            policy_update_locked: self.policy_update_locked,
        };
        proof {
            assert(r@ =~= self@);
        }
        r
    }

    /// Whether the whitelist toggle is off.
    pub fn is_whitelist_disabled(&self) -> (r: bool)
        ensures
            r == (self.whitelist_enabled == BooleanSetting::Off),
    {
        self.whitelist_enabled == BooleanSetting::Off
    }

    /// Whether the dapps toggle is off.
    pub fn are_dapps_disabled(&self) -> (r: bool)
        ensures
            r == (self.dapps_enabled == BooleanSetting::Off),
    {
        self.dapps_enabled == BooleanSetting::Off
    }

    /// Whether any destination is currently whitelisted for this account.
    pub fn has_whitelisted_destinations(&self) -> (r: bool)
        requires
            self.wf(),
        ensures
            r == (crate::flags::count_true(self@.allowed_destinations) > 0),
    {
        self.allowed_destinations.count_enabled() > 0
    }
}

/// The model of a freshly added balance account.
pub open spec fn spec_empty_account(guid_hash: BalanceAccountGuidHash) -> BalanceAccountV {
    BalanceAccountV {
        guid_hash,
        name_hash: BalanceAccountNameHash { bytes: spec_zero32() },
        approvals_required_for_transfer: 0,
        approval_timeout_for_transfer: 0,
        transfer_approvers: Seq::new(MAX_SIGNERS as nat, |i: int| false),
        allowed_destinations: Seq::new(MAX_ADDRESS_BOOK_ENTRIES as nat, |i: int| false),
        whitelist_enabled: BooleanSetting::Off,
        dapps_enabled: BooleanSetting::Off,
        policy_update_locked: false,
    }
}

} // verus!
