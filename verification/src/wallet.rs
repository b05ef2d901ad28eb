use vstd::prelude::*;

use crate::address_book::AddressBookEntry;
use crate::address_book::AddressBookEntryNameHash;
use crate::balance_account::BalanceAccount;
use crate::balance_account::BalanceAccountGuidHash;
use crate::balance_account::BalanceAccountV;
use crate::balance_account::MAX_ADDRESS_BOOK_ENTRIES;
use crate::balance_account::MAX_BALANCE_ACCOUNTS;
use crate::balance_account::MAX_SIGNERS;
use crate::error::WalletError;
use crate::flags::any_enabled_in;
use crate::flags::count_true;
use crate::flags::flags_cleared;
use crate::flags::flags_set;
use crate::flags::SlotFlags;
use crate::instruction::BalanceAccountUpdate;
use crate::instruction::WalletConfigPolicyUpdate;
use crate::instruction::WalletUpdate;
use crate::signer::Signer;
use crate::slots::batch_ids;
use crate::slots::can_insert;
use crate::slots::inserted;
use crate::slots::matches_or_vacant;
use crate::slots::removed;
use crate::slots::slot_ids;
use crate::slots::slots_hold;
use crate::slots::SlotId;
use crate::slots::Slots;

verus! {

/// The wallet's signer slot store.
pub type Signers = Slots<Signer, 24>;

/// A flag set over the signer store, marking approvers for some scope.
pub type Approvers = SlotFlags<24>;

/// The wallet's address-book slot store.
pub type AddressBook = Slots<AddressBookEntry, 128>;

/// A flag set over the address book, marking a balance account's allowed
/// destinations.
pub type AllowedDestinations = SlotFlags<128>;

/// Smallest approval timeout a wallet accepts, in seconds.
pub const MIN_APPROVAL_TIMEOUT_SECS: u64 = 60;

/// Largest approval timeout a wallet accepts, in seconds: one year.
pub const MAX_APPROVAL_TIMEOUT_SECS: u64 = 60 * 60 * 24 * 365;

/// Whether an approval timeout lies within the configured bounds.
pub open spec fn timeout_in_range(timeout_secs: u64) -> bool {
    MIN_APPROVAL_TIMEOUT_SECS <= timeout_secs <= MAX_APPROVAL_TIMEOUT_SECS
}

/// The values stored in the slots a flag set enables, in ascending slot
/// order, skipping vacated slots.
pub open spec fn present_enabled<T>(slots: Seq<Option<T>>, flags: Seq<bool>) -> Seq<T>
    decreases flags.len(),
{
    if flags.len() == 0 {
        Seq::empty()
    } else {
        let prefix = present_enabled(slots, flags.drop_last());
        if flags.last() {
            match slots[flags.len() - 1] {
                Some(v) => prefix.push(v),
                None => prefix,
            }
        } else {
            prefix
        }
    }
}

/// The index of the first balance account with the given GUID hash, if any.
pub open spec fn account_index(accounts: Seq<BalanceAccountV>, guid: BalanceAccountGuidHash) -> Option<
    int,
> {
    accounts.map_values(|a: BalanceAccountV| a.guid_hash).index_of_first(guid)
}

/// One step of a wallet update: clearing config-approver flags. Each named
/// signer must match its slot or the slot must already be vacant.
pub open spec fn spec_disable_config_approvers(w: WalletV, batch: Seq<(SlotId, Signer)>) -> Result<
    WalletV,
    WalletError,
> {
    if matches_or_vacant(w.signers, batch) {
        Ok(WalletV { config_approvers: flags_cleared(w.config_approvers, batch_ids(batch)), ..w })
    } else {
        Err(WalletError::SlotMismatch)
    }
}

/// One step of a wallet update: removing signers. Each named signer must
/// match its slot, and none may be enabled as a config approver or as any
/// balance account's transfer approver.
pub open spec fn spec_remove_signers(w: WalletV, batch: Seq<(SlotId, Signer)>) -> Result<
    WalletV,
    WalletError,
> {
    if !slots_hold(w.signers, batch) {
        Err(WalletError::SlotMismatch)
    } else if any_enabled_in(w.config_approvers, batch_ids(batch)) {
        Err(WalletError::InUseCannotRemove)
    } else if exists|a: int|
        0 <= a < w.balance_accounts.len() && any_enabled_in(
            (#[trigger] w.balance_accounts[a]).transfer_approvers,
            batch_ids(batch),
        ) {
        Err(WalletError::InUseCannotRemove)
    } else {
        Ok(WalletV { signers: removed(w.signers, batch), ..w })
    }
}

/// One step of a wallet update: adding signers into empty slots.
pub open spec fn spec_add_signers(w: WalletV, batch: Seq<(SlotId, Signer)>) -> Result<
    WalletV,
    WalletError,
> {
    if can_insert(w.signers, batch) {
        Ok(WalletV { signers: inserted(w.signers, batch), ..w })
    } else {
        Err(WalletError::SlotCollision)
    }
}

/// One step of a wallet update: enabling config approvers. Each named signer
/// must match the value its slot holds.
pub open spec fn spec_enable_config_approvers(w: WalletV, batch: Seq<(SlotId, Signer)>) -> Result<
    WalletV,
    WalletError,
> {
    if slots_hold(w.signers, batch) {
        Ok(WalletV { config_approvers: flags_set(w.config_approvers, batch_ids(batch)), ..w })
    } else {
        Err(WalletError::SlotMismatch)
    }
}

/// One step of a wallet update: removing address-book entries. Each named
/// entry must match its slot, and none may be enabled as any balance
/// account's allowed destination.
pub open spec fn spec_remove_address_book_entries(
    w: WalletV,
    batch: Seq<(SlotId, AddressBookEntry)>,
) -> Result<WalletV, WalletError> {
    if !slots_hold(w.address_book, batch) {
        Err(WalletError::SlotMismatch)
    } else if exists|a: int|
        0 <= a < w.balance_accounts.len() && any_enabled_in(
            (#[trigger] w.balance_accounts[a]).allowed_destinations,
            batch_ids(batch),
        ) {
        Err(WalletError::InUseCannotRemove)
    } else {
        Ok(WalletV { address_book: removed(w.address_book, batch), ..w })
    }
}

/// One step of a wallet update: adding address-book entries into empty slots.
pub open spec fn spec_add_address_book_entries(
    w: WalletV,
    batch: Seq<(SlotId, AddressBookEntry)>,
) -> Result<WalletV, WalletError> {
    if can_insert(w.address_book, batch) {
        Ok(WalletV { address_book: inserted(w.address_book, batch), ..w })
    } else {
        Err(WalletError::SlotCollision)
    }
}

/// The closing checks of a wallet update, in the order they are made: the
/// requested quorum may not exceed the enabled config approvers, the
/// resulting timeout must lie in range, the quorum may not be zero, and at
/// least one config approver must remain.
pub open spec fn spec_update_checks(w: WalletV, u: WalletUpdate) -> Result<WalletV, WalletError> {
    if u.approvals_required_for_config > count_true(w.config_approvers) {
        Err(WalletError::ThresholdInvalid)
    } else if !timeout_in_range(w.approval_timeout_for_config) {
        Err(WalletError::TimeoutOutOfRange)
    } else if u.approvals_required_for_config == 0 {
        Err(WalletError::ThresholdInvalid)
    } else if count_true(w.config_approvers) == 0 {
        Err(WalletError::ThresholdInvalid)
    } else {
        Ok(w)
    }
}

/// What a whole wallet update does: set the requested policy (a zero
/// timeout leaves the stored one), then disable config approvers, remove
/// signers, add signers, enable config approvers, remove address-book
/// entries, add address-book entries, and finally check the threshold
/// invariants. The first failing step decides the error.
pub open spec fn spec_update(w: WalletV, u: WalletUpdate) -> Result<WalletV, WalletError> {
    let w1 = WalletV {
        approvals_required_for_config: u.approvals_required_for_config,
        approval_timeout_for_config: if u.approval_timeout_for_config > 0 {
            u.approval_timeout_for_config
        } else {
            w.approval_timeout_for_config
        },
        ..w
    };
    match spec_disable_config_approvers(w1, u.remove_config_approvers@) {
        Err(e) => Err(e),
        Ok(w2) => match spec_remove_signers(w2, u.remove_signers@) {
            Err(e) => Err(e),
            Ok(w3) => match spec_add_signers(w3, u.add_signers@) {
                Err(e) => Err(e),
                Ok(w4) => match spec_enable_config_approvers(w4, u.add_config_approvers@) {
                    Err(e) => Err(e),
                    Ok(w5) => match spec_remove_address_book_entries(
                        w5,
                        u.remove_address_book_entries@,
                    ) {
                        Err(e) => Err(e),
                        Ok(w6) => match spec_add_address_book_entries(
                            w6,
                            u.add_address_book_entries@,
                        ) {
                            Err(e) => Err(e),
                            Ok(w7) => spec_update_checks(w7, u),
                        },
                    },
                },
            },
        },
    }
}

/// What a config-policy update does: set the requested policy (a zero
/// timeout leaves the stored one), disable and enable config approvers, and
/// check that the quorum is nonzero, the timeout nonzero, and the quorum
/// within the enabled approver count.
pub open spec fn spec_update_config_policy(w: WalletV, u: WalletConfigPolicyUpdate) -> Result<
    WalletV,
    WalletError,
> {
    let w1 = WalletV {
        approvals_required_for_config: u.approvals_required_for_config,
        approval_timeout_for_config: if u.approval_timeout_for_config > 0 {
            u.approval_timeout_for_config
        } else {
            w.approval_timeout_for_config
        },
        ..w
    };
    match spec_disable_config_approvers(w1, u.remove_config_approvers@) {
        Err(e) => Err(e),
        Ok(w2) => match spec_enable_config_approvers(w2, u.add_config_approvers@) {
            Err(e) => Err(e),
            Ok(w3) => {
                if u.approvals_required_for_config == 0 {
                    Err(WalletError::ThresholdInvalid)
                } else if w3.approval_timeout_for_config == 0 {
                    Err(WalletError::TimeoutOutOfRange)
                } else if u.approvals_required_for_config > count_true(w3.config_approvers) {
                    Err(WalletError::ThresholdInvalid)
                } else {
                    Ok(w3)
                }
            },
        },
    }
}

/// One step of a balance-account update: clearing transfer-approver flags of
/// the account at `idx`.
pub open spec fn spec_disable_transfer_approvers(
    w: WalletV,
    idx: int,
    batch: Seq<(SlotId, Signer)>,
) -> Result<WalletV, WalletError> {
    if matches_or_vacant(w.signers, batch) {
        let a = w.balance_accounts[idx];
        let a2 = BalanceAccountV {
            transfer_approvers: flags_cleared(a.transfer_approvers, batch_ids(batch)),
            ..a
        };
        Ok(WalletV { balance_accounts: w.balance_accounts.update(idx, a2), ..w })
    } else {
        Err(WalletError::SlotMismatch)
    }
}

/// One step of a balance-account update: enabling transfer approvers of the
/// account at `idx`.
pub open spec fn spec_enable_transfer_approvers(
    w: WalletV,
    idx: int,
    batch: Seq<(SlotId, Signer)>,
) -> Result<WalletV, WalletError> {
    if slots_hold(w.signers, batch) {
        let a = w.balance_accounts[idx];
        let a2 = BalanceAccountV {
            transfer_approvers: flags_set(a.transfer_approvers, batch_ids(batch)),
            ..a
        };
        Ok(WalletV { balance_accounts: w.balance_accounts.update(idx, a2), ..w })
    } else {
        Err(WalletError::SlotMismatch)
    }
}

/// One step of a balance-account update: clearing allowed-destination flags
/// of the account at `idx`.
pub open spec fn spec_disable_transfer_destinations(
    w: WalletV,
    idx: int,
    batch: Seq<(SlotId, AddressBookEntry)>,
) -> Result<WalletV, WalletError> {
    if matches_or_vacant(w.address_book, batch) {
        let a = w.balance_accounts[idx];
        let a2 = BalanceAccountV {
            allowed_destinations: flags_cleared(a.allowed_destinations, batch_ids(batch)),
            ..a
        };
        Ok(WalletV { balance_accounts: w.balance_accounts.update(idx, a2), ..w })
    } else {
        Err(WalletError::SlotMismatch)
    }
}

/// One step of a balance-account update: enabling allowed destinations of
/// the account at `idx`.
pub open spec fn spec_enable_transfer_destinations(
    w: WalletV,
    idx: int,
    batch: Seq<(SlotId, AddressBookEntry)>,
) -> Result<WalletV, WalletError> {
    if slots_hold(w.address_book, batch) {
        let a = w.balance_accounts[idx];
        let a2 = BalanceAccountV {
            allowed_destinations: flags_set(a.allowed_destinations, batch_ids(batch)),
            ..a
        };
        Ok(WalletV { balance_accounts: w.balance_accounts.update(idx, a2), ..w })
    } else {
        Err(WalletError::SlotMismatch)
    }
}

/// The closing step of a balance-account update: set the account's name,
/// quorum, and (unless the request left it unchanged) timeout, then check
/// the threshold invariants in the order they are made.
pub open spec fn spec_apply_account_policy(w: WalletV, idx: int, u: BalanceAccountUpdate) -> Result<
    WalletV,
    WalletError,
> {
    let a = w.balance_accounts[idx];
    let a2 = BalanceAccountV {
        name_hash: u.name_hash,
        approvals_required_for_transfer: u.approvals_required_for_transfer,
        approval_timeout_for_transfer: if u.approval_timeout_for_transfer > 0 {
            u.approval_timeout_for_transfer
        } else {
            a.approval_timeout_for_transfer
        },
        ..a
    };
    if u.approvals_required_for_transfer > count_true(a2.transfer_approvers) {
        Err(WalletError::ThresholdInvalid)
    } else if u.approvals_required_for_transfer == 0 {
        Err(WalletError::ThresholdInvalid)
    } else if count_true(a2.transfer_approvers) == 0 {
        Err(WalletError::ThresholdInvalid)
    } else {
        Ok(WalletV { balance_accounts: w.balance_accounts.update(idx, a2), ..w })
    }
}

/// The wallet after the four flag steps of a balance-account update have
/// succeeded, used to phrase the closing step.
pub open spec fn spec_enable_transfer_destinations_chain(
    w: WalletV,
    idx: int,
    u: BalanceAccountUpdate,
) -> WalletV {
    match spec_disable_transfer_approvers(w, idx, u.remove_transfer_approvers@) {
        Err(_) => w,
        Ok(w2) => match spec_enable_transfer_approvers(w2, idx, u.add_transfer_approvers@) {
            Err(_) => w,
            Ok(w3) => match spec_disable_transfer_destinations(
                w3,
                idx,
                u.remove_allowed_destinations@,
            ) {
                Err(_) => w,
                Ok(w4) => match spec_enable_transfer_destinations(
                    w4,
                    idx,
                    u.add_allowed_destinations@,
                ) {
                    Err(_) => w,
                    Ok(w5) => w5,
                },
            },
        },
    }
}

/// The account at `idx` after the closing policy step of a balance-account
/// update has been applied to it.
pub open spec fn spec_account_after_policy(w: WalletV, idx: int, u: BalanceAccountUpdate) -> BalanceAccountV {
    let a = w.balance_accounts[idx];
    BalanceAccountV {
        name_hash: u.name_hash,
        approvals_required_for_transfer: u.approvals_required_for_transfer,
        approval_timeout_for_transfer: if u.approval_timeout_for_transfer > 0 {
            u.approval_timeout_for_transfer
        } else {
            a.approval_timeout_for_transfer
        },
        ..a
    }
}

/// What a whole balance-account update does: resolve the account by GUID
/// hash, check a requested timeout's range, disable and enable transfer
/// approvers, disable and enable allowed destinations, then apply the
/// account policy and its threshold checks. The first failing step decides
/// the error.
pub open spec fn spec_update_balance_account(
    w: WalletV,
    guid: BalanceAccountGuidHash,
    u: BalanceAccountUpdate,
) -> Result<WalletV, WalletError> {
    match account_index(w.balance_accounts, guid) {
        None => Err(WalletError::EntityNotFound),
        Some(idx) => {
            if u.approval_timeout_for_transfer > 0 && !timeout_in_range(
                u.approval_timeout_for_transfer,
            ) {
                Err(WalletError::TimeoutOutOfRange)
            } else {
                match spec_disable_transfer_approvers(w, idx, u.remove_transfer_approvers@) {
                    Err(e) => Err(e),
                    Ok(w2) => match spec_enable_transfer_approvers(
                        w2,
                        idx,
                        u.add_transfer_approvers@,
                    ) {
                        Err(e) => Err(e),
                        Ok(w3) => match spec_disable_transfer_destinations(
                            w3,
                            idx,
                            u.remove_allowed_destinations@,
                        ) {
                            Err(e) => Err(e),
                            Ok(w4) => match spec_enable_transfer_destinations(
                                w4,
                                idx,
                                u.add_allowed_destinations@,
                            ) {
                                Err(e) => Err(e),
                                Ok(w5) => spec_apply_account_policy(w5, idx, u),
                            },
                        },
                    },
                }
            }
        },
    }
}

/// What adding a balance account does: append a fresh, empty account for
/// the GUID hash, then run the balance-account update pipeline on it.
pub open spec fn spec_add_balance_account(
    w: WalletV,
    guid: BalanceAccountGuidHash,
    u: BalanceAccountUpdate,
) -> Result<WalletV, WalletError> {
    spec_update_balance_account(
        WalletV {
            balance_accounts: w.balance_accounts.push(crate::balance_account::spec_empty_account(guid)),
            ..w
        },
        guid,
        u,
    )
}

/// Mathematical model of a wallet.
#[verifier::ext_equal]
pub struct WalletV {
    pub is_initialized: bool,
    pub signers: Seq<Option<Signer>>,
    pub assistant: Signer,
    pub address_book: Seq<Option<AddressBookEntry>>,
    pub approvals_required_for_config: u8,
    pub approval_timeout_for_config: u64,
    pub config_approvers: Seq<bool>,
    pub balance_accounts: Seq<BalanceAccountV>,
    pub config_policy_update_locked: bool,
}

impl WalletV {
    pub open spec fn wf(self) -> bool {
        &&& self.signers.len() == MAX_SIGNERS
        &&& self.address_book.len() == MAX_ADDRESS_BOOK_ENTRIES
        &&& self.config_approvers.len() == MAX_SIGNERS
        &&& self.balance_accounts.len() <= MAX_BALANCE_ACCOUNTS
        &&& forall|a: int|
            0 <= a < self.balance_accounts.len() ==> (#[trigger] self.balance_accounts[a]).wf()
    }
}

/// The aggregate root of the configuration model: the signer roster, the
/// distinguished assistant signer, the address book, the config-approval
/// policy with its approvers flag set, the balance accounts, and the
/// config-policy-update lock.
pub struct Wallet {
    pub is_initialized: bool,
    pub signers: Signers,
    pub assistant: Signer,
    pub address_book: AddressBook,
    pub approvals_required_for_config: u8,
    pub approval_timeout_for_config: u64,
    pub config_approvers: Approvers,
    pub balance_accounts: Vec<BalanceAccount>,
    pub config_policy_update_locked: bool,
}

impl View for Wallet {
    type V = WalletV;

    open spec fn view(&self) -> WalletV {
        WalletV {
            is_initialized: self.is_initialized,
            signers: self.signers@,
            assistant: self.assistant,
            address_book: self.address_book@,
            approvals_required_for_config: self.approvals_required_for_config,
            approval_timeout_for_config: self.approval_timeout_for_config,
            config_approvers: self.config_approvers@,
            balance_accounts: Seq::new(
                self.balance_accounts@.len(),
                |i: int| self.balance_accounts@[i]@,
            ),
            config_policy_update_locked: self.config_policy_update_locked,
        }
    }
}

impl Wallet {
    pub open spec fn wf(&self) -> bool {
        &&& self.signers.wf()
        &&& self.address_book.wf()
        &&& self.config_approvers.wf()
        &&& self.balance_accounts@.len() <= MAX_BALANCE_ACCOUNTS
        &&& forall|a: int|
            0 <= a < self.balance_accounts@.len() ==> (#[trigger] self.balance_accounts@[a]).wf()
    }

    /// An identical copy of the whole aggregate.
    pub fn duplicate(&self) -> (r: Self)
        requires
            self.wf(),
        ensures
            r.wf(),
            r@ == self@,
    {
        let mut balance_accounts: Vec<BalanceAccount> = Vec::new();
        let mut i: usize = 0;
        while i < self.balance_accounts.len()
            invariant
                self.wf(),
                i <= self.balance_accounts@.len(),
                balance_accounts@.len() == i,
                forall|j: int|
                    0 <= j < i ==> (#[trigger] balance_accounts@[j])@ == self.balance_accounts@[j]@
                        && balance_accounts@[j].wf(),
            decreases self.balance_accounts@.len() - i,
        {
            let copy = self.balance_accounts[i].duplicate();
            balance_accounts.push(copy);
            i += 1;
        }
        let r = Wallet {
            is_initialized: self.is_initialized,
            signers: self.signers.duplicate(),
            assistant: self.assistant,
            address_book: self.address_book.duplicate(),
            approvals_required_for_config: self.approvals_required_for_config,
            approval_timeout_for_config: self.approval_timeout_for_config,
            config_approvers: self.config_approvers.duplicate(),
            balance_accounts,
            config_policy_update_locked: self.config_policy_update_locked,
        };
        proof {
            assert(r@.balance_accounts =~= self@.balance_accounts);
            assert(r@ =~= self@);
        }
        r
    }

    /// The identities currently enabled by the given approvers flag set, in
    /// ascending slot order.
    fn get_approvers_keys(&self, approvers: &Approvers) -> (r: Vec<Signer>)
        requires
            self.signers.wf(),
            approvers.wf(),
        ensures
            r@ == present_enabled(self.signers@, approvers@),
    {
        let mut r: Vec<Signer> = Vec::new();
        let mut i: usize = 0;
        while i < 24
            invariant
                self.signers.wf(),
                approvers.wf(),
                i <= 24,
                r@ == present_enabled(self.signers@, approvers@.take(i as int)),
            decreases 24 - i,
        {
            proof {
                assert(approvers@.take(i + 1).drop_last() =~= approvers@.take(i as int));
                assert(approvers@.take(i + 1).last() == approvers@[i as int]);
            }
            if approvers.is_enabled(i) {
                match self.signers.get(i) {
                    Some(signer) => {
                        r.push(signer);
                    },
                    None => {},
                }
            }
            i += 1;
        }
        proof {
            assert(approvers@.take(approvers@.len() as int) =~= approvers@);
        }
        r
    }

    /// The identities currently enabled as config approvers.
    pub fn get_config_approvers_keys(&self) -> (r: Vec<Signer>)
        requires
            self.wf(),
        ensures
            r@ == present_enabled(self@.signers, self@.config_approvers),
    {
        self.get_approvers_keys(&self.config_approvers)
    }

    /// The identities currently enabled as transfer approvers for one
    /// balance account.
    pub fn get_transfer_approvers_keys(&self, balance_account: &BalanceAccount) -> (r: Vec<Signer>)
        requires
            self.wf(),
            balance_account.wf(),
        ensures
            r@ == present_enabled(self@.signers, balance_account@.transfer_approvers),
    {
        self.get_approvers_keys(&balance_account.transfer_approvers)
    }

    /// The address-book entries currently whitelisted as destinations for
    /// one balance account, in ascending slot order.
    pub fn get_allowed_destinations(&self, balance_account: &BalanceAccount) -> (r: Vec<
        AddressBookEntry,
    >)
        requires
            self.wf(),
            balance_account.wf(),
        ensures
            r@ == present_enabled(self@.address_book, balance_account@.allowed_destinations),
    {
        let mut r: Vec<AddressBookEntry> = Vec::new();
        let mut i: usize = 0;
        while i < 128
            invariant
                self.address_book.wf(),
                balance_account.allowed_destinations.wf(),
                i <= 128,
                r@ == present_enabled(
                    self.address_book@,
                    balance_account.allowed_destinations@.take(i as int),
                ),
            decreases 128 - i,
        {
            proof {
                assert(balance_account.allowed_destinations@.take(i + 1).drop_last()
                    =~= balance_account.allowed_destinations@.take(i as int));
                assert(balance_account.allowed_destinations@.take(i + 1).last()
                    == balance_account.allowed_destinations@[i as int]);
            }
            if balance_account.allowed_destinations.is_enabled(i) {
                match self.address_book.get(i) {
                    Some(entry) => {
                        r.push(entry);
                    },
                    None => {},
                }
            }
            i += 1;
        }
        proof {
            assert(balance_account.allowed_destinations@.take(128) =~= balance_account.allowed_destinations@);
        }
        r
    }

    /// The position of the balance account with the given GUID hash.
    pub fn get_balance_account_index(&self, account_guid_hash: &BalanceAccountGuidHash) -> (r:
        Result<usize, WalletError>)
        requires
            self.wf(),
        ensures
            (match account_index(self@.balance_accounts, *account_guid_hash) {
                Some(i) => 0 <= i < self@.balance_accounts.len() && r == Ok::<usize, WalletError>(
                    i as usize,
                ),
                None => r == Err::<usize, WalletError>(WalletError::EntityNotFound),
            }),
    {
        let ghost guids = self@.balance_accounts.map_values(|a: BalanceAccountV| a.guid_hash);
        proof {
            guids.index_of_first_ensures(*account_guid_hash);
        }
        let mut i: usize = 0;
        while i < self.balance_accounts.len()
            invariant
                self.wf(),
                i <= self.balance_accounts@.len(),
                guids == self@.balance_accounts.map_values(|a: BalanceAccountV| a.guid_hash),
                forall|j: int| 0 <= j < i ==> guids[j] != *account_guid_hash,
            decreases self.balance_accounts@.len() - i,
        {
            if self.balance_accounts[i].guid_hash.guid_eq(account_guid_hash) {
                proof {
                    assert(guids[i as int] == *account_guid_hash);
                    assert(account_index(self@.balance_accounts, *account_guid_hash) == Some(
                        i as int,
                    )) by {
                        guids.index_of_first_ensures(*account_guid_hash);
                    }
                }
                return Ok(i);
            }
            proof {
                assert(guids[i as int] != *account_guid_hash);
            }
            i += 1;
        }
        proof {
            assert(account_index(self@.balance_accounts, *account_guid_hash) is None) by {
                guids.index_of_first_ensures(*account_guid_hash);
            }
        }
        Err(WalletError::EntityNotFound)
    }

    /// The balance account with the given GUID hash.
    pub fn get_balance_account(&self, account_guid_hash: &BalanceAccountGuidHash) -> (r: Result<
        &BalanceAccount,
        WalletError,
    >)
        requires
            self.wf(),
        ensures
            (match account_index(self@.balance_accounts, *account_guid_hash) {
                Some(i) => r is Ok && r.unwrap()@ == self@.balance_accounts[i] && r.unwrap().wf(),
                None => r == Err::<&BalanceAccount, WalletError>(WalletError::EntityNotFound),
            }),
    {
        match self.get_balance_account_index(account_guid_hash) {
            Ok(i) => Ok(&self.balance_accounts[i]),
            Err(e) => Err(e),
        }
    }

    /// Checks that an approval timeout lies within the configured bounds.
    pub fn validate_approval_timeout(timeout_secs: u64) -> (r: Result<(), WalletError>)
        ensures
            r == (if timeout_in_range(timeout_secs) {
                Ok::<(), WalletError>(())
            } else {
                Err::<(), WalletError>(WalletError::TimeoutOutOfRange)
            }),
    {
        if timeout_secs < MIN_APPROVAL_TIMEOUT_SECS {
            return Err(WalletError::TimeoutOutOfRange);
        }
        if timeout_secs > MAX_APPROVAL_TIMEOUT_SECS {
            return Err(WalletError::TimeoutOutOfRange);
        }
        Ok(())
    }

    /// What initiator validation decides, given the approvers enabled for
    /// the relevant scope: the initiator must have signed, and must be the
    /// assistant or one of those approvers.
    pub open spec fn spec_validate_initiator(
        w: WalletV,
        initiator: Signer,
        is_signer: bool,
        approvers: Seq<Signer>,
    ) -> Result<(), WalletError> {
        if !is_signer {
            Err(WalletError::InvalidSignature)
        } else if initiator == w.assistant || approvers.contains(initiator) {
            Ok(())
        } else {
            Err(WalletError::UnauthorizedInitiator)
        }
    }

    fn validate_initiator(
        &self,
        initiator: &Signer,
        is_signer: bool,
        approvers: &Vec<Signer>,
    ) -> (r: Result<(), WalletError>)
        ensures
            r == Self::spec_validate_initiator(self@, *initiator, is_signer, approvers@),
    {
        if !is_signer {
            return Err(WalletError::InvalidSignature);
        }
        if initiator.key_eq(&self.assistant) {
            return Ok(());
        }
        let mut k: usize = 0;
        while k < approvers.len()
            invariant
                is_signer,
                k <= approvers@.len(),
                forall|j: int| 0 <= j < k ==> approvers@[j] != *initiator,
            decreases approvers@.len() - k,
        {
            if approvers[k].key_eq(initiator) {
                proof {
                    assert(approvers@[k as int] == *initiator);
                    assert(approvers@.contains(*initiator));
                }
                return Ok(());
            }
            k += 1;
        }
        proof {
            if approvers@.contains(*initiator) {
                let w = choose|w: int|
                    0 <= w < approvers@.len() && approvers@[w] == *initiator;
                assert(approvers@[w] == *initiator);
            }
        }
        Err(WalletError::UnauthorizedInitiator)
    }

    /// Checks that a proposal's initiator signed and is authorized for
    /// config changes: the assistant or an enabled config approver.
    pub fn validate_config_initiator(&self, initiator: &Signer, is_signer: bool) -> (r: Result<
        (),
        WalletError,
    >)
        requires
            self.wf(),
        ensures
            r == Self::spec_validate_initiator(
                self@,
                *initiator,
                is_signer,
                present_enabled(self@.signers, self@.config_approvers),
            ),
    {
        let approvers = self.get_config_approvers_keys();
        self.validate_initiator(initiator, is_signer, &approvers)
    }

    /// Checks that a proposal's initiator signed and is authorized for
    /// transfers from one balance account: the assistant or an enabled
    /// transfer approver of that account.
    pub fn validate_transfer_initiator(
        &self,
        balance_account: &BalanceAccount,
        initiator: &Signer,
        is_signer: bool,
    ) -> (r: Result<(), WalletError>)
        requires
            self.wf(),
            balance_account.wf(),
        ensures
            r == Self::spec_validate_initiator(
                self@,
                *initiator,
                is_signer,
                present_enabled(self@.signers, balance_account@.transfer_approvers),
            ),
    {
        let approvers = self.get_transfer_approvers_keys(balance_account);
        self.validate_initiator(initiator, is_signer, &approvers)
    }

    /// Whether a destination is currently whitelisted for one balance
    /// account: the address book's first slot holding the entry must be
    /// enabled as an allowed destination.
    pub fn destination_allowed(
        &self,
        balance_account: &BalanceAccount,
        address: &[u8; 32],
        name_hash: &AddressBookEntryNameHash,
    ) -> (r: bool)
        requires
            self.wf(),
            balance_account.wf(),
        ensures
            r == (match self@.address_book.index_of_first(
                Some(
                    AddressBookEntry {
                        address: *address,
                        name_hash: *name_hash,
                    },
                ),
            ) {
                Some(id) => balance_account@.allowed_destinations[id],
                None => false,
            }),
    {
        let entry = AddressBookEntry { address: *address, name_hash: *name_hash };
        let mut i: usize = 0;
        while i < 128
            invariant
                self.wf(),
                balance_account.wf(),
                i <= 128,
                entry == (AddressBookEntry { address: *address, name_hash: *name_hash }),
                forall|j: int| 0 <= j < i ==> self@.address_book[j] != Some(entry),
            decreases 128 - i,
        {
            match self.address_book.get(i) {
                Some(stored) => {
                    if stored.entry_eq(&entry) {
                        proof {
                            assert(self@.address_book[i as int] == Some(entry));
                            assert(self@.address_book.contains(Some(entry)));
                            assert(self@.address_book.index_of_first(Some(entry)) == Some(i as int))
                                by {
                                self@.address_book.index_of_first_ensures(Some(entry));
                            }
                        }
                        let enabled = balance_account.allowed_destinations.is_enabled(i);
                        proof {
                            assert(enabled == (match self@.address_book.index_of_first(
                                Some(entry),
                            ) {
                                Some(id) => balance_account@.allowed_destinations[id],
                                None => false,
                            }));
                        }
                        return enabled;
                    }
                },
                None => {},
            }
            i += 1;
        }
        proof {
            assert(self@.address_book.index_of_first(Some(entry)) is None) by {
                self@.address_book.index_of_first_ensures(Some(entry));
                if self@.address_book.contains(Some(entry)) {
                    let w = choose|w: int|
                        0 <= w < self@.address_book.len() && self@.address_book[w] == Some(entry);
                    assert(self@.address_book[w] == Some(entry));
                }
            }
        }
        false
    }

    /// Clears config-approver flags for the named signers; each must match
    /// its slot or the slot must already be vacant.
    fn disable_config_approvers(&mut self, batch: &Vec<(SlotId, Signer)>) -> (r: Result<
        (),
        WalletError,
    >)
        requires
            old(self).wf(),
        ensures
            final(self).wf(),
            (match spec_disable_config_approvers(old(self)@, batch@) {
                Ok(wv) => r == Ok::<(), WalletError>(()) && final(self)@ == wv,
                Err(e) => r == Err::<(), WalletError>(e) && final(self)@ == old(self)@,
            }),
    {
        if !self.signers.all_match_or_vacant(batch) {
            return Err(WalletError::SlotMismatch);
        }
        let ids = slot_ids(batch);
        proof {
            assert forall|k: int| 0 <= k < ids@.len() implies (#[trigger] ids@[k]) < 24 by {
                assert(batch@[k].0 < self.signers@.len());
            }
        }
        self.config_approvers.disable_many(&ids);
        proof {
            assert(self.config_approvers@ =~= flags_cleared(
                old(self)@.config_approvers,
                batch_ids(batch@),
            ));
            assert(self@ =~= (WalletV {
                config_approvers: flags_cleared(old(self)@.config_approvers, batch_ids(batch@)),
                ..old(self)@
            }));
        }
        Ok(())
    }

    /// Enables the named signers as config approvers; each must match the
    /// value its slot holds.
    fn enable_config_approvers(&mut self, batch: &Vec<(SlotId, Signer)>) -> (r: Result<
        (),
        WalletError,
    >)
        requires
            old(self).wf(),
        ensures
            final(self).wf(),
            (match spec_enable_config_approvers(old(self)@, batch@) {
                Ok(wv) => r == Ok::<(), WalletError>(()) && final(self)@ == wv,
                Err(e) => r == Err::<(), WalletError>(e) && final(self)@ == old(self)@,
            }),
    {
        if !self.signers.contains(batch) {
            return Err(WalletError::SlotMismatch);
        }
        let ids = slot_ids(batch);
        proof {
            assert forall|k: int| 0 <= k < ids@.len() implies (#[trigger] ids@[k]) < 24 by {
                assert(batch@[k].0 < self.signers@.len());
            }
        }
        self.config_approvers.enable_many(&ids);
        proof {
            assert(self.config_approvers@ =~= flags_set(
                old(self)@.config_approvers,
                batch_ids(batch@),
            ));
            assert(self@ =~= (WalletV {
                config_approvers: flags_set(old(self)@.config_approvers, batch_ids(batch@)),
                ..old(self)@
            }));
        }
        Ok(())
    }

    /// Removes the named signers; each must match its slot, and none may be
    /// enabled as a config approver or as any balance account's transfer
    /// approver.
    fn remove_signers(&mut self, batch: &Vec<(SlotId, Signer)>) -> (r: Result<(), WalletError>)
        requires
            old(self).wf(),
        ensures
            final(self).wf(),
            (match spec_remove_signers(old(self)@, batch@) {
                Ok(wv) => r == Ok::<(), WalletError>(()) && final(self)@ == wv,
                Err(e) => r == Err::<(), WalletError>(e) && final(self)@ == old(self)@,
            }),
    {
        if !self.signers.can_be_removed(batch) {
            return Err(WalletError::SlotMismatch);
        }
        let ids = slot_ids(batch);
        if self.config_approvers.any_enabled(&ids) {
            return Err(WalletError::InUseCannotRemove);
        }
        let mut a: usize = 0;
        while a < self.balance_accounts.len()
            invariant
                self.wf(),
                self@ == old(self)@,
                a <= self.balance_accounts@.len(),
                ids@ == batch_ids(batch@),
                slots_hold(self@.signers, batch@),
                !any_enabled_in(self@.config_approvers, batch_ids(batch@)),
                forall|b: int|
                    0 <= b < a ==> !any_enabled_in(
                        (#[trigger] self@.balance_accounts[b]).transfer_approvers,
                        ids@,
                    ),
            decreases self.balance_accounts@.len() - a,
        {
            if self.balance_accounts[a].transfer_approvers.any_enabled(&ids) {
                proof {
                    assert(any_enabled_in(
                        self@.balance_accounts[a as int].transfer_approvers,
                        batch_ids(batch@),
                    ));
                }
                return Err(WalletError::InUseCannotRemove);
            }
            a += 1;
        }
        self.signers.remove_many(batch);
        proof {
            assert(self@ =~= (WalletV {
                signers: removed(old(self)@.signers, batch@),
                ..old(self)@
            }));
        }
        Ok(())
    }

    /// Inserts the named signers into empty slots.
    fn add_signers(&mut self, batch: &Vec<(SlotId, Signer)>) -> (r: Result<(), WalletError>)
        requires
            old(self).wf(),
        ensures
            final(self).wf(),
            (match spec_add_signers(old(self)@, batch@) {
                Ok(wv) => r == Ok::<(), WalletError>(()) && final(self)@ == wv,
                Err(e) => r == Err::<(), WalletError>(e) && final(self)@ == old(self)@,
            }),
    {
        if !self.signers.can_be_inserted(batch) {
            return Err(WalletError::SlotCollision);
        }
        self.signers.insert_many(batch);
        proof {
            assert(self@ =~= (WalletV {
                signers: inserted(old(self)@.signers, batch@),
                ..old(self)@
            }));
        }
        Ok(())
    }

    /// Removes the named address-book entries; each must match its slot, and
    /// none may be enabled as any balance account's allowed destination.
    fn remove_address_book_entries(&mut self, batch: &Vec<(SlotId, AddressBookEntry)>) -> (r:
        Result<(), WalletError>)
        requires
            old(self).wf(),
        ensures
            final(self).wf(),
            (match spec_remove_address_book_entries(old(self)@, batch@) {
                Ok(wv) => r == Ok::<(), WalletError>(()) && final(self)@ == wv,
                Err(e) => r == Err::<(), WalletError>(e) && final(self)@ == old(self)@,
            }),
    {
        if !self.address_book.can_be_removed(batch) {
            return Err(WalletError::SlotMismatch);
        }
        let ids = slot_ids(batch);
        let mut a: usize = 0;
        while a < self.balance_accounts.len()
            invariant
                self.wf(),
                self@ == old(self)@,
                a <= self.balance_accounts@.len(),
                ids@ == batch_ids(batch@),
                slots_hold(self@.address_book, batch@),
                forall|b: int|
                    0 <= b < a ==> !any_enabled_in(
                        (#[trigger] self@.balance_accounts[b]).allowed_destinations,
                        ids@,
                    ),
            decreases self.balance_accounts@.len() - a,
        {
            if self.balance_accounts[a].allowed_destinations.any_enabled(&ids) {
                proof {
                    assert(any_enabled_in(
                        self@.balance_accounts[a as int].allowed_destinations,
                        batch_ids(batch@),
                    ));
                }
                return Err(WalletError::InUseCannotRemove);
            }
            a += 1;
        }
        self.address_book.remove_many(batch);
        proof {
            assert(self@ =~= (WalletV {
                address_book: removed(old(self)@.address_book, batch@),
                ..old(self)@
            }));
        }
        Ok(())
    }

    /// Inserts the named address-book entries into empty slots.
    fn add_address_book_entries(&mut self, batch: &Vec<(SlotId, AddressBookEntry)>) -> (r: Result<
        (),
        WalletError,
    >)
        requires
            old(self).wf(),
        ensures
            final(self).wf(),
            (match spec_add_address_book_entries(old(self)@, batch@) {
                Ok(wv) => r == Ok::<(), WalletError>(()) && final(self)@ == wv,
                Err(e) => r == Err::<(), WalletError>(e) && final(self)@ == old(self)@,
            }),
    {
        if !self.address_book.can_be_inserted(batch) {
            return Err(WalletError::SlotCollision);
        }
        self.address_book.insert_many(batch);
        proof {
            assert(self@ =~= (WalletV {
                address_book: inserted(old(self)@.address_book, batch@),
                ..old(self)@
            }));
        }
        Ok(())
    }

    /// Clears transfer-approver flags of one balance account for the named
    /// signers; each must match its slot or the slot must be vacant.
    fn disable_transfer_approvers(
        &mut self,
        idx: usize,
        batch: &Vec<(SlotId, Signer)>,
    ) -> (r: Result<(), WalletError>)
        requires
            old(self).wf(),
            idx < old(self).balance_accounts@.len(),
        ensures
            final(self).wf(),
            final(self).balance_accounts@.len() == old(self).balance_accounts@.len(),
            (match spec_disable_transfer_approvers(old(self)@, idx as int, batch@) {
                Ok(wv) => r == Ok::<(), WalletError>(()) && final(self)@ == wv,
                Err(e) => r == Err::<(), WalletError>(e) && final(self)@ == old(self)@,
            }),
    {
        if !self.signers.all_match_or_vacant(batch) {
            return Err(WalletError::SlotMismatch);
        }
        let ids = slot_ids(batch);
        proof {
            assert forall|k: int| 0 <= k < ids@.len() implies (#[trigger] ids@[k]) < 24 by {
                assert(batch@[k].0 < self.signers@.len());
            }
        }
        let mut acct = self.balance_accounts[idx].duplicate();
        acct.transfer_approvers.disable_many(&ids);
        proof {
            assert(acct.transfer_approvers@ =~= flags_cleared(
                old(self)@.balance_accounts[idx as int].transfer_approvers,
                batch_ids(batch@),
            ));
        }
        self.balance_accounts[idx] = acct;
        proof {
            let a2 = BalanceAccountV {
                transfer_approvers: flags_cleared(
                    old(self)@.balance_accounts[idx as int].transfer_approvers,
                    batch_ids(batch@),
                ),
                ..old(self)@.balance_accounts[idx as int]
            };
            assert(self@.balance_accounts[idx as int] =~= a2);
            assert(self@.balance_accounts =~= old(self)@.balance_accounts.update(idx as int, a2));
            assert(self@ =~= (WalletV {
                balance_accounts: old(self)@.balance_accounts.update(idx as int, a2),
                ..old(self)@
            }));
        }
        Ok(())
    }

    /// Enables the named signers as transfer approvers of one balance
    /// account; each must match the value its slot holds.
    fn enable_transfer_approvers(
        &mut self,
        idx: usize,
        batch: &Vec<(SlotId, Signer)>,
    ) -> (r: Result<(), WalletError>)
        requires
            old(self).wf(),
            idx < old(self).balance_accounts@.len(),
        ensures
            final(self).wf(),
            final(self).balance_accounts@.len() == old(self).balance_accounts@.len(),
            (match spec_enable_transfer_approvers(old(self)@, idx as int, batch@) {
                Ok(wv) => r == Ok::<(), WalletError>(()) && final(self)@ == wv,
                Err(e) => r == Err::<(), WalletError>(e) && final(self)@ == old(self)@,
            }),
    {
        if !self.signers.contains(batch) {
            return Err(WalletError::SlotMismatch);
        }
        let ids = slot_ids(batch);
        proof {
            assert forall|k: int| 0 <= k < ids@.len() implies (#[trigger] ids@[k]) < 24 by {
                assert(batch@[k].0 < self.signers@.len());
            }
        }
        let mut acct = self.balance_accounts[idx].duplicate();
        acct.transfer_approvers.enable_many(&ids);
        proof {
            assert(acct.transfer_approvers@ =~= flags_set(
                old(self)@.balance_accounts[idx as int].transfer_approvers,
                batch_ids(batch@),
            ));
        }
        self.balance_accounts[idx] = acct;
        proof {
            let a2 = BalanceAccountV {
                transfer_approvers: flags_set(
                    old(self)@.balance_accounts[idx as int].transfer_approvers,
                    batch_ids(batch@),
                ),
                ..old(self)@.balance_accounts[idx as int]
            };
            assert(self@.balance_accounts[idx as int] =~= a2);
            assert(self@.balance_accounts =~= old(self)@.balance_accounts.update(idx as int, a2));
            assert(self@ =~= (WalletV {
                balance_accounts: old(self)@.balance_accounts.update(idx as int, a2),
                ..old(self)@
            }));
        }
        Ok(())
    }

    /// Clears allowed-destination flags of one balance account for the named
    /// entries; each must match its slot or the slot must be vacant.
    fn disable_transfer_destinations(
        &mut self,
        idx: usize,
        batch: &Vec<(SlotId, AddressBookEntry)>,
    ) -> (r: Result<(), WalletError>)
        requires
            old(self).wf(),
            idx < old(self).balance_accounts@.len(),
        ensures
            final(self).wf(),
            final(self).balance_accounts@.len() == old(self).balance_accounts@.len(),
            (match spec_disable_transfer_destinations(old(self)@, idx as int, batch@) {
                Ok(wv) => r == Ok::<(), WalletError>(()) && final(self)@ == wv,
                Err(e) => r == Err::<(), WalletError>(e) && final(self)@ == old(self)@,
            }),
    {
        if !self.address_book.all_match_or_vacant(batch) {
            return Err(WalletError::SlotMismatch);
        }
        let ids = slot_ids(batch);
        proof {
            assert forall|k: int| 0 <= k < ids@.len() implies (#[trigger] ids@[k]) < 128 by {
                assert(batch@[k].0 < self.address_book@.len());
            }
        }
        let mut acct = self.balance_accounts[idx].duplicate();
        acct.allowed_destinations.disable_many(&ids);
        proof {
            assert(acct.allowed_destinations@ =~= flags_cleared(
                old(self)@.balance_accounts[idx as int].allowed_destinations,
                batch_ids(batch@),
            ));
        }
        self.balance_accounts[idx] = acct;
        proof {
            let a2 = BalanceAccountV {
                allowed_destinations: flags_cleared(
                    old(self)@.balance_accounts[idx as int].allowed_destinations,
                    batch_ids(batch@),
                ),
                ..old(self)@.balance_accounts[idx as int]
            };
            assert(self@.balance_accounts[idx as int] =~= a2);
            assert(self@.balance_accounts =~= old(self)@.balance_accounts.update(idx as int, a2));
            assert(self@ =~= (WalletV {
                balance_accounts: old(self)@.balance_accounts.update(idx as int, a2),
                ..old(self)@
            }));
        }
        Ok(())
    }

    /// Enables the named entries as allowed destinations of one balance
    /// account; each must match the value its slot holds.
    fn enable_transfer_destinations(
        &mut self,
        idx: usize,
        batch: &Vec<(SlotId, AddressBookEntry)>,
    ) -> (r: Result<(), WalletError>)
        requires
            old(self).wf(),
            idx < old(self).balance_accounts@.len(),
        ensures
            final(self).wf(),
            final(self).balance_accounts@.len() == old(self).balance_accounts@.len(),
            (match spec_enable_transfer_destinations(old(self)@, idx as int, batch@) {
                Ok(wv) => r == Ok::<(), WalletError>(()) && final(self)@ == wv,
                Err(e) => r == Err::<(), WalletError>(e) && final(self)@ == old(self)@,
            }),
    {
        if !self.address_book.contains(batch) {
            return Err(WalletError::SlotMismatch);
        }
        let ids = slot_ids(batch);
        proof {
            assert forall|k: int| 0 <= k < ids@.len() implies (#[trigger] ids@[k]) < 128 by {
                assert(batch@[k].0 < self.address_book@.len());
            }
        }
        let mut acct = self.balance_accounts[idx].duplicate();
        acct.allowed_destinations.enable_many(&ids);
        proof {
            assert(acct.allowed_destinations@ =~= flags_set(
                old(self)@.balance_accounts[idx as int].allowed_destinations,
                batch_ids(batch@),
            ));
        }
        self.balance_accounts[idx] = acct;
        proof {
            let a2 = BalanceAccountV {
                allowed_destinations: flags_set(
                    old(self)@.balance_accounts[idx as int].allowed_destinations,
                    batch_ids(batch@),
                ),
                ..old(self)@.balance_accounts[idx as int]
            };
            assert(self@.balance_accounts[idx as int] =~= a2);
            assert(self@.balance_accounts =~= old(self)@.balance_accounts.update(idx as int, a2));
            assert(self@ =~= (WalletV {
                balance_accounts: old(self)@.balance_accounts.update(idx as int, a2),
                ..old(self)@
            }));
        }
        Ok(())
    }

    /// Applies a whole wallet update in place: all-or-nothing. On success
    /// the wallet is exactly the update pipeline's result; on any failure it
    /// is unchanged and the error identifies the first failing step.
    #[verifier::rlimit(50)]
    pub fn update(&mut self, u: &WalletUpdate) -> (r: Result<(), WalletError>)
        requires
            old(self).wf(),
        ensures
            final(self).wf(),
            (match spec_update(old(self)@, *u) {
                Ok(wv) => r == Ok::<(), WalletError>(()) && final(self)@ == wv,
                Err(e) => r == Err::<(), WalletError>(e) && final(self)@ == old(self)@,
            }),
    {
        let mut w = self.duplicate();
        w.approvals_required_for_config = u.approvals_required_for_config;
        if u.approval_timeout_for_config > 0 {
            w.approval_timeout_for_config = u.approval_timeout_for_config;
        }
        proof {
            assert(w@ =~= (WalletV {
                approvals_required_for_config: u.approvals_required_for_config,
                approval_timeout_for_config: if u.approval_timeout_for_config > 0 {
                    u.approval_timeout_for_config
                } else {
                    old(self)@.approval_timeout_for_config
                },
                ..old(self)@
            }));
        }
        match w.disable_config_approvers(&u.remove_config_approvers) {
            Err(e) => {
                return Err(e);
            },
            Ok(()) => {},
        }
        match w.remove_signers(&u.remove_signers) {
            Err(e) => {
                return Err(e);
            },
            Ok(()) => {},
        }
        match w.add_signers(&u.add_signers) {
            Err(e) => {
                return Err(e);
            },
            Ok(()) => {},
        }
        match w.enable_config_approvers(&u.add_config_approvers) {
            Err(e) => {
                return Err(e);
            },
            Ok(()) => {},
        }
        match w.remove_address_book_entries(&u.remove_address_book_entries) {
            Err(e) => {
                return Err(e);
            },
            Ok(()) => {},
        }
        match w.add_address_book_entries(&u.add_address_book_entries) {
            Err(e) => {
                return Err(e);
            },
            Ok(()) => {},
        }
        let approvers_count = w.config_approvers.count_enabled();
        if (u.approvals_required_for_config as usize) > approvers_count {
            return Err(WalletError::ThresholdInvalid);
        }
        match Self::validate_approval_timeout(w.approval_timeout_for_config) {
            Err(e) => {
                return Err(e);
            },
            Ok(()) => {},
        }
        if u.approvals_required_for_config == 0 {
            return Err(WalletError::ThresholdInvalid);
        }
        if approvers_count == 0 {
            return Err(WalletError::ThresholdInvalid);
        }
        *self = w;
        Ok(())
    }

    /// Checks a wallet update against a clone of the aggregate, with no
    /// observable effect on the wallet itself.
    pub fn validate_update(&self, u: &WalletUpdate) -> (r: Result<(), WalletError>)
        requires
            self.wf(),
        ensures
            (match spec_update(self@, *u) {
                Ok(_) => r == Ok::<(), WalletError>(()),
                Err(e) => r == Err::<(), WalletError>(e),
            }),
    {
        let mut self_clone = self.duplicate();
        self_clone.update(u)
    }

    /// Applies a config-policy update in place: all-or-nothing, as `update`.
    pub fn update_config_policy(&mut self, u: &WalletConfigPolicyUpdate) -> (r: Result<
        (),
        WalletError,
    >)
        requires
            old(self).wf(),
        ensures
            final(self).wf(),
            (match spec_update_config_policy(old(self)@, *u) {
                Ok(wv) => r == Ok::<(), WalletError>(()) && final(self)@ == wv,
                Err(e) => r == Err::<(), WalletError>(e) && final(self)@ == old(self)@,
            }),
    {
        let mut w = self.duplicate();
        w.approvals_required_for_config = u.approvals_required_for_config;
        if u.approval_timeout_for_config > 0 {
            w.approval_timeout_for_config = u.approval_timeout_for_config;
        }
        proof {
            assert(w@ =~= (WalletV {
                approvals_required_for_config: u.approvals_required_for_config,
                approval_timeout_for_config: if u.approval_timeout_for_config > 0 {
                    u.approval_timeout_for_config
                } else {
                    old(self)@.approval_timeout_for_config
                },
                ..old(self)@
            }));
        }
        match w.disable_config_approvers(&u.remove_config_approvers) {
            Err(e) => {
                return Err(e);
            },
            Ok(()) => {},
        }
        match w.enable_config_approvers(&u.add_config_approvers) {
            Err(e) => {
                return Err(e);
            },
            Ok(()) => {},
        }
        if u.approvals_required_for_config == 0 {
            return Err(WalletError::ThresholdInvalid);
        }
        if w.approval_timeout_for_config == 0 {
            return Err(WalletError::TimeoutOutOfRange);
        }
        let approvers_count = w.config_approvers.count_enabled();
        if (u.approvals_required_for_config as usize) > approvers_count {
            return Err(WalletError::ThresholdInvalid);
        }
        *self = w;
        Ok(())
    }

    /// Checks a config-policy update against a clone of the aggregate, with
    /// no observable effect on the wallet itself.
    pub fn validate_config_policy_update(&self, u: &WalletConfigPolicyUpdate) -> (r: Result<
        (),
        WalletError,
    >)
        requires
            self.wf(),
        ensures
            (match spec_update_config_policy(self@, *u) {
                Ok(_) => r == Ok::<(), WalletError>(()),
                Err(e) => r == Err::<(), WalletError>(e),
            }),
    {
        let mut self_clone = self.duplicate();
        self_clone.update_config_policy(u)
    }

    /// Applies a balance-account update in place: all-or-nothing, as
    /// `update`.
    pub fn update_balance_account(
        &mut self,
        account_guid_hash: &BalanceAccountGuidHash,
        u: &BalanceAccountUpdate,
    ) -> (r: Result<(), WalletError>)
        requires
            old(self).wf(),
        ensures
            final(self).wf(),
            (match spec_update_balance_account(old(self)@, *account_guid_hash, *u) {
                Ok(wv) => r == Ok::<(), WalletError>(()) && final(self)@ == wv,
                Err(e) => r == Err::<(), WalletError>(e) && final(self)@ == old(self)@,
            }),
    {
        let idx = match self.get_balance_account_index(account_guid_hash) {
            Ok(i) => i,
            Err(e) => {
                return Err(e);
            },
        };
        let perform_timeout_update = u.approval_timeout_for_transfer > 0;
        if perform_timeout_update {
            match Self::validate_approval_timeout(u.approval_timeout_for_transfer) {
                Err(e) => {
                    return Err(e);
                },
                Ok(()) => {},
            }
        }
        let mut w = self.duplicate();
        match w.disable_transfer_approvers(idx, &u.remove_transfer_approvers) {
            Err(e) => {
                return Err(e);
            },
            Ok(()) => {},
        }
        match w.enable_transfer_approvers(idx, &u.add_transfer_approvers) {
            Err(e) => {
                return Err(e);
            },
            Ok(()) => {},
        }
        match w.disable_transfer_destinations(idx, &u.remove_allowed_destinations) {
            Err(e) => {
                return Err(e);
            },
            Ok(()) => {},
        }
        match w.enable_transfer_destinations(idx, &u.add_allowed_destinations) {
            Err(e) => {
                return Err(e);
            },
            Ok(()) => {},
        }
        let mut acct = w.balance_accounts[idx].duplicate();
        acct.name_hash = u.name_hash;
        acct.approvals_required_for_transfer = u.approvals_required_for_transfer;
        if perform_timeout_update {
            acct.approval_timeout_for_transfer = u.approval_timeout_for_transfer;
        }
        let approvers_count = acct.transfer_approvers.count_enabled();
        if (u.approvals_required_for_transfer as usize) > approvers_count {
            return Err(WalletError::ThresholdInvalid);
        }
        if u.approvals_required_for_transfer == 0 {
            return Err(WalletError::ThresholdInvalid);
        }
        if approvers_count == 0 {
            return Err(WalletError::ThresholdInvalid);
        }
        w.balance_accounts[idx] = acct;
        proof {
            let wv = w@;
            let prev = old(self)@;
            let steps = spec_enable_transfer_destinations_chain(prev, idx as int, *u);
            assert(w@.balance_accounts[idx as int] =~= spec_account_after_policy(
                steps,
                idx as int,
                *u,
            ));
            assert(w@.balance_accounts =~= steps.balance_accounts.update(
                idx as int,
                spec_account_after_policy(steps, idx as int, *u),
            ));
            assert(w@ =~= (WalletV {
                balance_accounts: steps.balance_accounts.update(
                    idx as int,
                    spec_account_after_policy(steps, idx as int, *u),
                ),
                ..steps
            }));
        }
        *self = w;
        Ok(())
    }

    /// Checks a balance-account update against a clone of the aggregate,
    /// with no observable effect on the wallet itself.
    pub fn validate_balance_account_update(
        &self,
        account_guid_hash: &BalanceAccountGuidHash,
        u: &BalanceAccountUpdate,
    ) -> (r: Result<(), WalletError>)
        requires
            self.wf(),
        ensures
            (match spec_update_balance_account(self@, *account_guid_hash, *u) {
                Ok(_) => r == Ok::<(), WalletError>(()),
                Err(e) => r == Err::<(), WalletError>(e),
            }),
    {
        let mut self_clone = self.duplicate();
        self_clone.update_balance_account(account_guid_hash, u)
    }

    /// Adds a fresh balance account for the GUID hash and applies the given
    /// policy to it, all-or-nothing.
    pub fn add_balance_account(
        &mut self,
        account_guid_hash: &BalanceAccountGuidHash,
        u: &BalanceAccountUpdate,
    ) -> (r: Result<(), WalletError>)
        requires
            old(self).wf(),
            old(self).balance_accounts@.len() < MAX_BALANCE_ACCOUNTS,
        ensures
            final(self).wf(),
            (match spec_add_balance_account(old(self)@, *account_guid_hash, *u) {
                Ok(wv) => r == Ok::<(), WalletError>(()) && final(self)@ == wv,
                Err(e) => r == Err::<(), WalletError>(e) && final(self)@ == old(self)@,
            }),
    {
        let mut w = self.duplicate();
        let fresh = BalanceAccount::empty(*account_guid_hash);
        w.balance_accounts.push(fresh);
        proof {
            assert(w@.balance_accounts =~= old(self)@.balance_accounts.push(
                crate::balance_account::spec_empty_account(*account_guid_hash),
            ));
            assert(w@ =~= (WalletV {
                balance_accounts: old(self)@.balance_accounts.push(
                    crate::balance_account::spec_empty_account(*account_guid_hash),
                ),
                ..old(self)@
            }));
        }
        match w.update_balance_account(account_guid_hash, u) {
            Err(e) => {
                return Err(e);
            },
            Ok(()) => {},
        }
        *self = w;
        Ok(())
    }

    /// Checks a balance-account addition against a clone of the aggregate,
    /// with no observable effect on the wallet itself.
    pub fn validate_add_balance_account(
        &self,
        account_guid_hash: &BalanceAccountGuidHash,
        u: &BalanceAccountUpdate,
    ) -> (r: Result<(), WalletError>)
        requires
            self.wf(),
            self.balance_accounts@.len() < MAX_BALANCE_ACCOUNTS,
        ensures
            (match spec_add_balance_account(self@, *account_guid_hash, *u) {
                Ok(_) => r == Ok::<(), WalletError>(()),
                Err(e) => r == Err::<(), WalletError>(e),
            }),
    {
        let mut self_clone = self.duplicate();
        self_clone.add_balance_account(account_guid_hash, u)
    }

    /// Removes a single signer, with the same guards as a batch removal.
    pub fn remove_signer(&mut self, signer_to_remove: (SlotId, Signer)) -> (r: Result<
        (),
        WalletError,
    >)
        requires
            old(self).wf(),
        ensures
            final(self).wf(),
            (match spec_remove_signers(old(self)@, seq![signer_to_remove]) {
                Ok(wv) => r == Ok::<(), WalletError>(()) && final(self)@ == wv,
                Err(e) => r == Err::<(), WalletError>(e) && final(self)@ == old(self)@,
            }),
    {
        let batch = vec![signer_to_remove];
        proof {
            assert(batch@ =~= seq![signer_to_remove]);
        }
        self.remove_signers(&batch)
    }

    /// Adds a single signer into an empty slot.
    pub fn add_signer(&mut self, signer_to_add: (SlotId, Signer)) -> (r: Result<(), WalletError>)
        requires
            old(self).wf(),
        ensures
            final(self).wf(),
            (match spec_add_signers(old(self)@, seq![signer_to_add]) {
                Ok(wv) => r == Ok::<(), WalletError>(()) && final(self)@ == wv,
                Err(e) => r == Err::<(), WalletError>(e) && final(self)@ == old(self)@,
            }),
    {
        let batch = vec![signer_to_add];
        proof {
            assert(batch@ =~= seq![signer_to_add]);
        }
        self.add_signers(&batch)
    }

    /// Checks a single-signer removal against a clone of the aggregate.
    pub fn validate_remove_signer(&self, signer_to_remove: (SlotId, Signer)) -> (r: Result<
        (),
        WalletError,
    >)
        requires
            self.wf(),
        ensures
            (match spec_remove_signers(self@, seq![signer_to_remove]) {
                Ok(_) => r == Ok::<(), WalletError>(()),
                Err(e) => r == Err::<(), WalletError>(e),
            }),
    {
        let mut self_clone = self.duplicate();
        self_clone.remove_signer(signer_to_remove)
    }

    /// Checks a single-signer addition against a clone of the aggregate.
    pub fn validate_add_signer(&self, signer_to_add: (SlotId, Signer)) -> (r: Result<
        (),
        WalletError,
    >)
        requires
            self.wf(),
        ensures
            (match spec_add_signers(self@, seq![signer_to_add]) {
                Ok(_) => r == Ok::<(), WalletError>(()),
                Err(e) => r == Err::<(), WalletError>(e),
            }),
    {
        let mut self_clone = self.duplicate();
        self_clone.add_signer(signer_to_add)
    }

    /// Takes the config-policy-update lock; at most one pending config
    /// policy update is allowed at a time.
    pub fn lock_config_policy_updates(&mut self) -> (r: Result<(), WalletError>)
        ensures
            (if old(self).config_policy_update_locked {
                r == Err::<(), WalletError>(WalletError::ConcurrentPolicyUpdateNotAllowed)
                    && final(self)@ == old(self)@
            } else {
                r == Ok::<(), WalletError>(()) && final(self)@ == (WalletV {
                    config_policy_update_locked: true,
                    ..old(self)@
                })
            }),
    {
        if self.config_policy_update_locked {
            return Err(WalletError::ConcurrentPolicyUpdateNotAllowed);
        }
        self.config_policy_update_locked = true;
        proof {
            assert(self@ =~= (WalletV { config_policy_update_locked: true, ..old(self)@ }));
        }
        Ok(())
    }

    /// Releases the config-policy-update lock.
    pub fn unlock_config_policy_updates(&mut self)
        ensures
            final(self)@ == (WalletV { config_policy_update_locked: false, ..old(self)@ }),
    {
        self.config_policy_update_locked = false;
        proof {
            assert(self@ =~= (WalletV { config_policy_update_locked: false, ..old(self)@ }));
        }
    }
}


/// The config-approval policy is consistent: at least one approval required,
/// and no more than there are enabled config approvers.
pub open spec fn config_threshold_ok(w: WalletV) -> bool {
    1 <= w.approvals_required_for_config <= count_true(w.config_approvers)
}

/// One balance account's transfer-approval policy is consistent.
pub open spec fn account_threshold_ok(a: BalanceAccountV) -> bool {
    1 <= a.approvals_required_for_transfer <= count_true(a.transfer_approvers)
}

/// Every balance account's transfer-approval policy is consistent.
pub open spec fn accounts_thresholds_ok(w: WalletV) -> bool {
    forall|a: int|
        0 <= a < w.balance_accounts.len() ==> account_threshold_ok(#[trigger] w.balance_accounts[a])
}

/// The threshold invariant over the whole aggregate.
pub open spec fn thresholds_ok(w: WalletV) -> bool {
    config_threshold_ok(w) && accounts_thresholds_ok(w)
}

/// Threshold invariant under wallet updates: whenever the balance accounts
/// already satisfy their thresholds, a wallet update that succeeds leaves
/// every required-approvals count between one and the enabled approver count
/// for its scope.
pub proof fn lemma_thresholds_update(w: WalletV, u: WalletUpdate)
    requires
        accounts_thresholds_ok(w),
        spec_update(w, u) is Ok,
    ensures
        thresholds_ok(spec_update(w, u).unwrap()),
{
    let w1 = WalletV {
        approvals_required_for_config: u.approvals_required_for_config,
        approval_timeout_for_config: if u.approval_timeout_for_config > 0 {
            u.approval_timeout_for_config
        } else {
            w.approval_timeout_for_config
        },
        ..w
    };
    let w2 = spec_disable_config_approvers(w1, u.remove_config_approvers@).unwrap();
    let w3 = spec_remove_signers(w2, u.remove_signers@).unwrap();
    let w4 = spec_add_signers(w3, u.add_signers@).unwrap();
    let w5 = spec_enable_config_approvers(w4, u.add_config_approvers@).unwrap();
    let w6 = spec_remove_address_book_entries(w5, u.remove_address_book_entries@).unwrap();
    let w7 = spec_add_address_book_entries(w6, u.add_address_book_entries@).unwrap();
    assert(w7.balance_accounts == w.balance_accounts);
    assert(w7.approvals_required_for_config == u.approvals_required_for_config);
    assert(spec_update(w, u).unwrap() == w7);
}

/// Threshold invariant under config-policy updates.
pub proof fn lemma_thresholds_update_config_policy(w: WalletV, u: WalletConfigPolicyUpdate)
    requires
        accounts_thresholds_ok(w),
        spec_update_config_policy(w, u) is Ok,
    ensures
        thresholds_ok(spec_update_config_policy(w, u).unwrap()),
{
    let w1 = WalletV {
        approvals_required_for_config: u.approvals_required_for_config,
        approval_timeout_for_config: if u.approval_timeout_for_config > 0 {
            u.approval_timeout_for_config
        } else {
            w.approval_timeout_for_config
        },
        ..w
    };
    let w2 = spec_disable_config_approvers(w1, u.remove_config_approvers@).unwrap();
    let w3 = spec_enable_config_approvers(w2, u.add_config_approvers@).unwrap();
    assert(w3.balance_accounts == w.balance_accounts);
    assert(spec_update_config_policy(w, u).unwrap() == w3);
}

/// Threshold invariant under balance-account updates: the updated account
/// passes its own checks, every other account is untouched, and the config
/// policy is untouched.
pub proof fn lemma_thresholds_update_balance_account(
    w: WalletV,
    guid: BalanceAccountGuidHash,
    u: BalanceAccountUpdate,
)
    requires
        w.wf(),
        config_threshold_ok(w),
        accounts_thresholds_ok(w),
        spec_update_balance_account(w, guid, u) is Ok,
    ensures
        thresholds_ok(spec_update_balance_account(w, guid, u).unwrap()),
{
    let idx = account_index(w.balance_accounts, guid).unwrap();
    w.balance_accounts.map_values(|a: BalanceAccountV| a.guid_hash).index_of_first_ensures(guid);
    let w2 = spec_disable_transfer_approvers(w, idx, u.remove_transfer_approvers@).unwrap();
    let w3 = spec_enable_transfer_approvers(w2, idx, u.add_transfer_approvers@).unwrap();
    let w4 = spec_disable_transfer_destinations(w3, idx, u.remove_allowed_destinations@).unwrap();
    let w5 = spec_enable_transfer_destinations(w4, idx, u.add_allowed_destinations@).unwrap();
    let out = spec_apply_account_policy(w5, idx, u).unwrap();
    assert(spec_update_balance_account(w, guid, u).unwrap() == out);
    assert(config_threshold_ok(out));
    assert forall|a: int| 0 <= a < out.balance_accounts.len() implies account_threshold_ok(
        #[trigger] out.balance_accounts[a],
    ) by {
        if a != idx {
            assert(out.balance_accounts[a] == w.balance_accounts[a]);
            assert(account_threshold_ok(w.balance_accounts[a]));
        }
    }
}

/// Threshold invariant under balance-account creation, for a GUID hash not
/// yet in use: the fresh account must pass the same checks before the add
/// succeeds.
pub proof fn lemma_thresholds_add_balance_account(
    w: WalletV,
    guid: BalanceAccountGuidHash,
    u: BalanceAccountUpdate,
)
    requires
        w.wf(),
        w.balance_accounts.len() < MAX_BALANCE_ACCOUNTS,
        config_threshold_ok(w),
        accounts_thresholds_ok(w),
        account_index(w.balance_accounts, guid) is None,
        spec_add_balance_account(w, guid, u) is Ok,
    ensures
        thresholds_ok(spec_add_balance_account(w, guid, u).unwrap()),
{
    let fresh = crate::balance_account::spec_empty_account(guid);
    let pushed = WalletV { balance_accounts: w.balance_accounts.push(fresh), ..w };
    assert(pushed.wf()) by {
        assert(forall|a: int|
            0 <= a < w.balance_accounts.len() ==> pushed.balance_accounts[a]
                == (#[trigger] w.balance_accounts[a]));
    }
    assert(config_threshold_ok(pushed));
    let idx = account_index(pushed.balance_accounts, guid).unwrap();
    pushed.balance_accounts.map_values(|a: BalanceAccountV| a.guid_hash).index_of_first_ensures(
        guid,
    );
    w.balance_accounts.map_values(|a: BalanceAccountV| a.guid_hash).index_of_first_ensures(guid);
    assert(idx == w.balance_accounts.len()) by {
        let wg = w.balance_accounts.map_values(|a: BalanceAccountV| a.guid_hash);
        let pg = pushed.balance_accounts.map_values(|a: BalanceAccountV| a.guid_hash);
        if idx < w.balance_accounts.len() {
            assert(pg[idx] == guid);
            assert(pushed.balance_accounts[idx] == w.balance_accounts[idx]);
            assert(wg[idx] == guid);
            assert(wg.contains(guid));
        }
    }
    let w2 = spec_disable_transfer_approvers(pushed, idx, u.remove_transfer_approvers@).unwrap();
    let w3 = spec_enable_transfer_approvers(w2, idx, u.add_transfer_approvers@).unwrap();
    let w4 = spec_disable_transfer_destinations(w3, idx, u.remove_allowed_destinations@).unwrap();
    let w5 = spec_enable_transfer_destinations(w4, idx, u.add_allowed_destinations@).unwrap();
    let out = spec_apply_account_policy(w5, idx, u).unwrap();
    assert(spec_add_balance_account(w, guid, u).unwrap() == out);
    assert(config_threshold_ok(out));
    assert forall|a: int| 0 <= a < out.balance_accounts.len() implies account_threshold_ok(
        #[trigger] out.balance_accounts[a],
    ) by {
        if a != idx {
            assert(out.balance_accounts[a] == pushed.balance_accounts[a]);
            assert(pushed.balance_accounts[a] == w.balance_accounts[a]);
            assert(account_threshold_ok(w.balance_accounts[a]));
        }
    }
}

/// Threshold invariant under signer removal: the guards keep every enabled
/// approver in place, so no scope's approver count changes.
pub proof fn lemma_thresholds_remove_signers(w: WalletV, batch: Seq<(SlotId, Signer)>)
    requires
        thresholds_ok(w),
        spec_remove_signers(w, batch) is Ok,
    ensures
        thresholds_ok(spec_remove_signers(w, batch).unwrap()),
{
}

/// Threshold invariant under signer addition: no flag set changes.
pub proof fn lemma_thresholds_add_signers(w: WalletV, batch: Seq<(SlotId, Signer)>)
    requires
        thresholds_ok(w),
        spec_add_signers(w, batch) is Ok,
    ensures
        thresholds_ok(spec_add_signers(w, batch).unwrap()),
{
}

/// Removal guard: a remove-signers request naming any signer that is
/// currently enabled as a config approver or as any balance account's
/// transfer approver fails with the in-use error, before any slot write.
pub proof fn lemma_removal_guard(w: WalletV, batch: Seq<(SlotId, Signer)>)
    requires
        slots_hold(w.signers, batch),
        any_enabled_in(w.config_approvers, batch_ids(batch)) || exists|a: int|
            0 <= a < w.balance_accounts.len() && any_enabled_in(
                (#[trigger] w.balance_accounts[a]).transfer_approvers,
                batch_ids(batch),
            ),
    ensures
        spec_remove_signers(w, batch) == Err::<WalletV, WalletError>(WalletError::InUseCannotRemove),
{
}

/// Removal guard for destinations: a remove request naming any address-book
/// entry that is currently enabled as an allowed destination of any balance
/// account fails with the in-use error.
pub proof fn lemma_destination_removal_guard(w: WalletV, batch: Seq<(SlotId, AddressBookEntry)>)
    requires
        slots_hold(w.address_book, batch),
        exists|a: int|
            0 <= a < w.balance_accounts.len() && any_enabled_in(
                (#[trigger] w.balance_accounts[a]).allowed_destinations,
                batch_ids(batch),
            ),
    ensures
        spec_remove_address_book_entries(w, batch) == Err::<WalletV, WalletError>(
            WalletError::InUseCannotRemove,
        ),
{
}

} // verus!
