use strike_wallet::address_book::AddressBookEntry;
use strike_wallet::address_book::AddressBookEntryNameHash;
use strike_wallet::balance_account::BalanceAccountGuidHash;
use strike_wallet::balance_account::BalanceAccountNameHash;
use strike_wallet::balance_account::BooleanSetting;
use strike_wallet::error::WalletError;
use strike_wallet::flags::SlotFlags;
use strike_wallet::instruction::BalanceAccountUpdate;
use strike_wallet::instruction::WalletConfigPolicyUpdate;
use strike_wallet::instruction::WalletUpdate;
use strike_wallet::multisig_op::ApprovalDisposition;
use strike_wallet::multisig_op::MultisigOp;
use strike_wallet::multisig_op::OperationDisposition;
use strike_wallet::params::MultisigOpParams;
use strike_wallet::signer::Signer;
use strike_wallet::slots::Slots;
use strike_wallet::wallet::Wallet;

fn key(b: u8) -> [u8; 32] {
    let mut k = [0u8; 32];
    k[0] = b;
    k[31] = b;
    k
}

fn signer(b: u8) -> Signer {
    Signer::new(key(b))
}

fn book_entry(b: u8) -> AddressBookEntry {
    AddressBookEntry::new(key(b), AddressBookEntryNameHash::new(&key(b)))
}

fn guid(b: u8) -> BalanceAccountGuidHash {
    BalanceAccountGuidHash::new(&key(b))
}

fn empty_update() -> WalletUpdate {
    WalletUpdate {
        approvals_required_for_config: 1,
        approval_timeout_for_config: 0,
        add_signers: vec![],
        remove_signers: vec![],
        add_config_approvers: vec![],
        remove_config_approvers: vec![],
        add_address_book_entries: vec![],
        remove_address_book_entries: vec![],
    }
}

fn empty_wallet() -> Wallet {
    Wallet {
        is_initialized: true,
        signers: Slots::new(),
        assistant: signer(99),
        address_book: Slots::new(),
        approvals_required_for_config: 0,
        approval_timeout_for_config: 0,
        config_approvers: SlotFlags::zero(),
        balance_accounts: Vec::new(),
        config_policy_update_locked: false,
    }
}

/// Two signers in slots 0 and 1, both enabled as config approvers,
/// threshold 1, one-hour timeout.
fn base_wallet() -> Wallet {
    let mut w = empty_wallet();
    let u = WalletUpdate {
        approvals_required_for_config: 1,
        approval_timeout_for_config: 3600,
        add_signers: vec![(0, signer(1)), (1, signer(2))],
        add_config_approvers: vec![(0, signer(1)), (1, signer(2))],
        add_address_book_entries: vec![(0, book_entry(7))],
        ..empty_update()
    };
    assert_eq!(w.update(&u), Ok(()));
    w
}

fn account_update(threshold: u8, timeout: u64) -> BalanceAccountUpdate {
    BalanceAccountUpdate {
        name_hash: BalanceAccountNameHash::new(&key(5)),
        approvals_required_for_transfer: threshold,
        approval_timeout_for_transfer: timeout,
        add_transfer_approvers: vec![(0, signer(1)), (1, signer(2))],
        remove_transfer_approvers: vec![],
        add_allowed_destinations: vec![(0, book_entry(7))],
        remove_allowed_destinations: vec![],
    }
}

#[test]
fn slot_store_tracks_last_successful_insert() {
    let mut slots: Slots<Signer, 24> = Slots::new();
    let batch = vec![(0, signer(1)), (3, signer(2))];
    assert!(slots.can_be_inserted(&batch));
    slots.insert_many(&batch);
    assert!(slots.get(0).unwrap().key_eq(&signer(1)));
    assert!(slots.get(3).unwrap().key_eq(&signer(2)));
    assert!(slots.get(1).is_none());
    // An occupied slot rejects a second insert.
    assert!(!slots.can_be_inserted(&vec![(0, signer(9))]));
    // Removal must match what the slot holds.
    assert!(!slots.can_be_removed(&vec![(0, signer(2))]));
    assert!(slots.can_be_removed(&vec![(0, signer(1))]));
    slots.remove_many(&vec![(0, signer(1))]);
    assert!(slots.get(0).is_none());
    assert!(slots.get(3).unwrap().key_eq(&signer(2)));
}

#[test]
fn slot_store_batch_last_write_wins() {
    let mut slots: Slots<Signer, 24> = Slots::new();
    let batch = vec![(2, signer(1)), (2, signer(4))];
    assert!(slots.can_be_inserted(&batch));
    slots.insert_many(&batch);
    assert!(slots.get(2).unwrap().key_eq(&signer(4)));
}

#[test]
fn flags_enable_disable_count() {
    let mut flags: SlotFlags<24> = SlotFlags::zero();
    assert_eq!(flags.count_enabled(), 0);
    flags.enable_many(&vec![1, 5, 9]);
    assert_eq!(flags.count_enabled(), 3);
    assert!(flags.is_enabled(5));
    assert!(!flags.is_enabled(2));
    assert!(flags.any_enabled(&vec![0, 5]));
    assert!(!flags.any_enabled(&vec![0, 2]));
    assert_eq!(flags.enabled_ids(), vec![1, 5, 9]);
    flags.disable(5);
    assert!(!flags.is_enabled(5));
    assert_eq!(flags.count_enabled(), 2);
}

#[test]
fn update_rejects_zero_threshold() {
    let w = base_wallet();
    let u = WalletUpdate { approvals_required_for_config: 0, ..empty_update() };
    assert_eq!(w.validate_update(&u), Err(WalletError::ThresholdInvalid));
}

#[test]
fn update_rejects_threshold_above_approver_count() {
    let w = base_wallet();
    let u = WalletUpdate { approvals_required_for_config: 3, ..empty_update() };
    assert_eq!(w.validate_update(&u), Err(WalletError::ThresholdInvalid));
}

#[test]
fn update_rejects_out_of_range_timeout() {
    let w = base_wallet();
    let u = WalletUpdate { approval_timeout_for_config: 30, ..empty_update() };
    assert_eq!(w.validate_update(&u), Err(WalletError::TimeoutOutOfRange));
    let u2 = WalletUpdate {
        approval_timeout_for_config: 60 * 60 * 24 * 365 + 1,
        ..empty_update()
    };
    assert_eq!(w.validate_update(&u2), Err(WalletError::TimeoutOutOfRange));
}

#[test]
fn update_zero_timeout_keeps_stored_value() {
    let mut w = base_wallet();
    let u = WalletUpdate { approval_timeout_for_config: 0, ..empty_update() };
    assert_eq!(w.update(&u), Ok(()));
    assert_eq!(w.approval_timeout_for_config, 3600);
}

#[test]
fn update_rejects_slot_collision() {
    let w = base_wallet();
    let u = WalletUpdate { add_signers: vec![(0, signer(8))], ..empty_update() };
    assert_eq!(w.validate_update(&u), Err(WalletError::SlotCollision));
}

#[test]
fn update_rejects_mismatched_enable() {
    let w = base_wallet();
    let u = WalletUpdate { add_config_approvers: vec![(2, signer(8))], ..empty_update() };
    assert_eq!(w.validate_update(&u), Err(WalletError::SlotMismatch));
}

#[test]
fn removing_enabled_approver_fails_in_use() {
    let w = base_wallet();
    let before = w.pack();
    assert_eq!(
        w.validate_remove_signer((0, signer(1))),
        Err(WalletError::InUseCannotRemove)
    );
    // The validator had no observable effect.
    assert_eq!(w.pack(), before);
}

#[test]
fn removing_mismatched_signer_fails() {
    let w = base_wallet();
    assert_eq!(
        w.validate_remove_signer((0, signer(2))),
        Err(WalletError::SlotMismatch)
    );
}

#[test]
fn disable_then_remove_signer_succeeds() {
    let mut w = base_wallet();
    let u = WalletUpdate {
        remove_config_approvers: vec![(1, signer(2))],
        remove_signers: vec![(1, signer(2))],
        ..empty_update()
    };
    assert_eq!(w.update(&u), Ok(()));
    assert!(w.signers.get(1).is_none());
    assert!(!w.config_approvers.is_enabled(1));
    assert_eq!(w.config_approvers.count_enabled(), 1);
}

#[test]
fn config_policy_lock_is_exclusive() {
    let mut w = base_wallet();
    assert_eq!(w.lock_config_policy_updates(), Ok(()));
    assert_eq!(
        w.lock_config_policy_updates(),
        Err(WalletError::ConcurrentPolicyUpdateNotAllowed)
    );
    w.unlock_config_policy_updates();
    assert_eq!(w.lock_config_policy_updates(), Ok(()));
}

#[test]
fn config_policy_update_adjusts_threshold() {
    let mut w = base_wallet();
    let u = WalletConfigPolicyUpdate {
        approvals_required_for_config: 2,
        approval_timeout_for_config: 7200,
        add_config_approvers: vec![],
        remove_config_approvers: vec![],
    };
    assert_eq!(w.update_config_policy(&u), Ok(()));
    assert_eq!(w.approvals_required_for_config, 2);
    assert_eq!(w.approval_timeout_for_config, 7200);
    let too_many = WalletConfigPolicyUpdate {
        approvals_required_for_config: 3,
        approval_timeout_for_config: 0,
        add_config_approvers: vec![],
        remove_config_approvers: vec![],
    };
    assert_eq!(
        w.validate_config_policy_update(&too_many),
        Err(WalletError::ThresholdInvalid)
    );
}

#[test]
fn add_balance_account_enforces_thresholds() {
    let mut w = base_wallet();
    assert_eq!(
        w.validate_add_balance_account(&guid(42), &account_update(0, 3600)),
        Err(WalletError::ThresholdInvalid)
    );
    assert_eq!(
        w.validate_add_balance_account(&guid(42), &account_update(3, 3600)),
        Err(WalletError::ThresholdInvalid)
    );
    assert_eq!(
        w.validate_add_balance_account(&guid(42), &account_update(2, 10)),
        Err(WalletError::TimeoutOutOfRange)
    );
    assert_eq!(w.add_balance_account(&guid(42), &account_update(2, 3600)), Ok(()));
    let account = w.get_balance_account(&guid(42)).unwrap();
    assert_eq!(account.approvals_required_for_transfer, 2);
    assert_eq!(account.approval_timeout_for_transfer, 3600);
    assert_eq!(account.transfer_approvers.count_enabled(), 2);
    assert!(account.allowed_destinations.is_enabled(0));
    assert!(account.is_whitelist_disabled());
    assert!(account.are_dapps_disabled());
    assert!(account.has_whitelisted_destinations());
}

#[test]
fn unknown_balance_account_not_found() {
    let w = base_wallet();
    match w.get_balance_account(&guid(42)) {
        Err(WalletError::EntityNotFound) => {}
        _ => panic!("expected a missing account"),
    }
    assert_eq!(
        w.validate_balance_account_update(&guid(42), &account_update(1, 0)),
        Err(WalletError::EntityNotFound)
    );
}

#[test]
fn removing_transfer_approver_fails_in_use() {
    let mut w = base_wallet();
    assert_eq!(w.add_balance_account(&guid(42), &account_update(2, 3600)), Ok(()));
    // Disable both config-approver bits first; the signers stay transfer
    // approvers of the account, so removal is still guarded.
    let mut u = empty_update();
    u.remove_config_approvers = vec![(1, signer(2))];
    u.remove_signers = vec![(1, signer(2))];
    assert_eq!(w.validate_update(&u), Err(WalletError::InUseCannotRemove));
}

#[test]
fn removing_allowed_destination_fails_in_use() {
    let mut w = base_wallet();
    assert_eq!(w.add_balance_account(&guid(42), &account_update(2, 3600)), Ok(()));
    let u = WalletUpdate {
        remove_address_book_entries: vec![(0, book_entry(7))],
        ..empty_update()
    };
    assert_eq!(w.validate_update(&u), Err(WalletError::InUseCannotRemove));
}

#[test]
fn initiator_validation() {
    let w = base_wallet();
    assert_eq!(
        w.validate_config_initiator(&signer(1), false),
        Err(WalletError::InvalidSignature)
    );
    assert_eq!(w.validate_config_initiator(&signer(1), true), Ok(()));
    assert_eq!(w.validate_config_initiator(&signer(99), true), Ok(()));
    assert_eq!(
        w.validate_config_initiator(&signer(50), true),
        Err(WalletError::UnauthorizedInitiator)
    );
}

#[test]
fn destination_allowed_follows_whitelist() {
    let mut w = base_wallet();
    assert_eq!(w.add_balance_account(&guid(42), &account_update(2, 3600)), Ok(()));
    let account = w.get_balance_account(&guid(42)).unwrap();
    let e = book_entry(7);
    assert!(w.destination_allowed(account, &e.address, &e.name_hash));
    let other = book_entry(8);
    assert!(!w.destination_allowed(account, &other.address, &other.name_hash));
    let destinations = w.get_allowed_destinations(account);
    assert_eq!(destinations.len(), 1);
    assert!(destinations[0].entry_eq(&e));
}

#[test]
fn approver_key_listing() {
    let w = base_wallet();
    let keys = w.get_config_approvers_keys();
    assert_eq!(keys.len(), 2);
    assert!(keys[0].key_eq(&signer(1)));
    assert!(keys[1].key_eq(&signer(2)));
}

#[test]
fn boolean_setting_round_trip() {
    assert_eq!(BooleanSetting::from_u8(0), BooleanSetting::Off);
    assert_eq!(BooleanSetting::from_u8(1), BooleanSetting::On);
    assert_eq!(BooleanSetting::Off.to_u8(), 0);
    assert_eq!(BooleanSetting::On.to_u8(), 1);
}

fn config_params(w_address: [u8; 32], u: WalletUpdate) -> MultisigOpParams {
    MultisigOpParams::UpdateWallet { wallet_address: w_address, update: u }
}

#[test]
fn quorum_of_one_approves_immediately_and_finalize_applies() {
    // A wallet with two config approvers and threshold one proposes
    // disabling approver one; that approver's single approval reaches
    // quorum, finalize succeeds, and the bit is cleared.
    let mut w = base_wallet();
    let disable_a = WalletUpdate {
        remove_config_approvers: vec![(0, signer(1))],
        ..empty_update()
    };
    assert_eq!(w.validate_update(&disable_a), Ok(()));
    let params = config_params(key(200), disable_a);
    let hash = params.hash();
    let clock: i64 = 1_000_000;
    let mut op = MultisigOp::propose_config_op(&w, clock, hash);
    assert_eq!(op.operation_disposition, OperationDisposition::NoneYet);
    assert_eq!(op.dispositions_required, 1);
    assert_eq!(op.disposition_records.len(), 2);
    assert_eq!(op.started_at, clock);
    assert_eq!(op.expires, clock + 3600);
    assert_eq!(
        op.approve(signer(1), ApprovalDisposition::Approve, &hash),
        Ok(())
    );
    assert_eq!(op.operation_disposition, OperationDisposition::Approved);
    assert_eq!(op.approved(&hash, clock + 10), Ok(true));
    let disable_a2 = WalletUpdate {
        remove_config_approvers: vec![(0, signer(1))],
        ..empty_update()
    };
    assert_eq!(w.update(&disable_a2), Ok(()));
    assert!(!w.config_approvers.is_enabled(0));
    assert!(w.config_approvers.is_enabled(1));
}

#[test]
fn single_deny_of_two_required_denies_and_finalize_closes_without_mutation() {
    // A balance account requiring two of two transfer approvers: one deny
    // makes quorum unreachable, so the aggregate is denied at once and the
    // finalize decision does not permit the mutation.
    let mut w = base_wallet();
    assert_eq!(w.add_balance_account(&guid(42), &account_update(2, 3600)), Ok(()));
    let before = w.pack();
    let params = MultisigOpParams::UpdateBalanceAccount {
        wallet_address: key(200),
        account_guid_hash: guid(42),
        update: account_update(2, 0),
    };
    let hash = params.hash();
    let clock: i64 = 2_000_000;
    let account = w.get_balance_account(&guid(42)).unwrap();
    let mut op = MultisigOp::propose_transfer_op(&w, account, clock, hash);
    assert_eq!(op.dispositions_required, 2);
    assert_eq!(op.disposition_records.len(), 2);
    assert_eq!(
        op.approve(signer(2), ApprovalDisposition::Deny, &hash),
        Ok(())
    );
    assert_eq!(op.operation_disposition, OperationDisposition::Denied);
    assert_eq!(op.approved(&hash, clock + 10), Ok(false));
    // Nothing was applied: the wallet's stored form is unchanged.
    assert_eq!(w.pack(), before);
}

#[test]
fn tampered_params_are_rejected() {
    // Finalize supplied with parameters differing by one byte from the
    // proposal fails the hash check, and the aggregate is untouched.
    let w = base_wallet();
    let u = WalletUpdate { ..empty_update() };
    let params = config_params(key(200), u);
    let hash = params.hash();
    let clock: i64 = 3_000_000;
    let mut tampered_address = key(200);
    tampered_address[4] ^= 1;
    let tampered = config_params(tampered_address, WalletUpdate { ..empty_update() });
    let tampered_hash = tampered.hash();
    assert_ne!(hash, tampered_hash);
    let mut op = MultisigOp::propose_config_op(&w, clock, hash);
    assert_eq!(
        op.approved(&tampered_hash, clock + 1),
        Err(WalletError::ParamsHashMismatch)
    );
    assert_eq!(
        op.approve(signer(1), ApprovalDisposition::Approve, &tampered_hash),
        Err(WalletError::ParamsHashMismatch)
    );
    assert_eq!(op.operation_disposition, OperationDisposition::NoneYet);
}

#[test]
fn unknown_approver_cannot_vote() {
    let w = base_wallet();
    let params = config_params(key(200), empty_update());
    let hash = params.hash();
    let mut op = MultisigOp::propose_config_op(&w, 10, hash);
    assert_eq!(
        op.approve(signer(50), ApprovalDisposition::Approve, &hash),
        Err(WalletError::UnauthorizedInitiator)
    );
}

#[test]
fn expired_undecided_operation_is_surfaced() {
    let w = base_wallet();
    let params = config_params(key(200), empty_update());
    let hash = params.hash();
    let clock: i64 = 4_000_000;
    let op = MultisigOp::propose_config_op(&w, clock, hash);
    assert_eq!(op.approved(&hash, clock + 3601), Err(WalletError::Expired));
    assert_eq!(op.approved(&hash, clock + 3600), Ok(false));
}

#[test]
fn late_quorum_is_not_approvable() {
    let w = base_wallet();
    let params = config_params(key(200), empty_update());
    let hash = params.hash();
    let clock: i64 = 5_000_000;
    let mut op = MultisigOp::propose_config_op(&w, clock, hash);
    assert_eq!(
        op.approve(signer(1), ApprovalDisposition::Approve, &hash),
        Ok(())
    );
    assert_eq!(op.operation_disposition, OperationDisposition::Approved);
    // Past expiry, even a numerically reached quorum no longer applies.
    assert_eq!(op.approved(&hash, clock + 3601), Ok(false));
}

#[test]
fn aggregate_disposition_never_reverses() {
    let w = base_wallet();
    let params = config_params(key(200), empty_update());
    let hash = params.hash();
    let mut op = MultisigOp::propose_config_op(&w, 10, hash);
    assert_eq!(
        op.approve(signer(1), ApprovalDisposition::Approve, &hash),
        Ok(())
    );
    assert_eq!(op.operation_disposition, OperationDisposition::Approved);
    // A later overwrite of the only approval does not reverse the outcome.
    assert_eq!(op.approve(signer(1), ApprovalDisposition::Deny, &hash), Ok(()));
    assert_eq!(op.operation_disposition, OperationDisposition::Approved);
}
