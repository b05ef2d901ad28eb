use vstd::prelude::*;

use crate::address_book::AddressBookEntry;
use crate::balance_account::BalanceAccountNameHash;
use crate::signer::Signer;
use crate::slots::SlotId;

verus! {

/// A proposed change to the wallet's signer roster, address book, and
/// config-approval policy. A zero approval timeout means "leave the stored
/// timeout unchanged".
pub struct WalletUpdate {
    pub approvals_required_for_config: u8,
    pub approval_timeout_for_config: u64,
    pub add_signers: Vec<(SlotId, Signer)>,
    pub remove_signers: Vec<(SlotId, Signer)>,
    pub add_config_approvers: Vec<(SlotId, Signer)>,
    pub remove_config_approvers: Vec<(SlotId, Signer)>,
    pub add_address_book_entries: Vec<(SlotId, AddressBookEntry)>,
    pub remove_address_book_entries: Vec<(SlotId, AddressBookEntry)>,
}

/// A proposed change to the config-approval policy alone. A zero approval
/// timeout means "leave the stored timeout unchanged".
pub struct WalletConfigPolicyUpdate {
    pub approvals_required_for_config: u8,
    pub approval_timeout_for_config: u64,
    pub add_config_approvers: Vec<(SlotId, Signer)>,
    pub remove_config_approvers: Vec<(SlotId, Signer)>,
}

/// A proposed change to one balance account's policy: name, transfer
/// threshold and timeout, transfer-approvers, and allowed destinations. A
/// zero approval timeout means "leave the stored timeout unchanged".
pub struct BalanceAccountUpdate {
    pub name_hash: BalanceAccountNameHash,
    pub approvals_required_for_transfer: u8,
    pub approval_timeout_for_transfer: u64,
    pub add_transfer_approvers: Vec<(SlotId, Signer)>,
    pub remove_transfer_approvers: Vec<(SlotId, Signer)>,
    pub add_allowed_destinations: Vec<(SlotId, AddressBookEntry)>,
    pub remove_allowed_destinations: Vec<(SlotId, AddressBookEntry)>,
}

} // verus!
