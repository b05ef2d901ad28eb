use sha2::Digest;
use sha2::Sha256;
use strike_wallet::address_book::AddressBookEntry;
use strike_wallet::address_book::AddressBookEntryNameHash;
use strike_wallet::balance_account::BalanceAccount;
use strike_wallet::balance_account::BalanceAccountGuidHash;
use strike_wallet::balance_account::BalanceAccountNameHash;
use strike_wallet::balance_account::BooleanSetting;
use strike_wallet::error::WalletError;
use strike_wallet::flags::SlotFlags;
use strike_wallet::instruction::BalanceAccountUpdate;
use strike_wallet::multisig_op::ApprovalDisposition;
use strike_wallet::multisig_op::MultisigOp;
use strike_wallet::multisig_op::OperationDisposition;
use strike_wallet::params::MultisigOpParams;
use strike_wallet::signer::Signer;
use strike_wallet::slots::Slots;
use strike_wallet::wallet::Wallet;

fn byte32(b: u8) -> [u8; 32] {
    let mut k = [b; 32];
    k[7] = b.wrapping_add(1);
    k
}

fn full_flags<const N: usize>(step: usize) -> SlotFlags<N> {
    let mut enabled = Vec::new();
    for i in 0..N {
        enabled.push(i % step == 0);
    }
    SlotFlags { enabled }
}

fn full_account(tag: u8) -> BalanceAccount {
    BalanceAccount {
        guid_hash: BalanceAccountGuidHash::new(&byte32(tag)),
        name_hash: BalanceAccountNameHash::new(&byte32(tag.wrapping_add(1))),
        approvals_required_for_transfer: 2,
        approval_timeout_for_transfer: 3_600 + tag as u64,
        transfer_approvers: full_flags::<24>(2),
        allowed_destinations: full_flags::<128>(3),
        whitelist_enabled: BooleanSetting::On,
        dapps_enabled: if tag % 2 == 0 { BooleanSetting::Off } else { BooleanSetting::On },
        policy_update_locked: tag % 3 == 0,
    }
}

/// A wallet at maximum occupancy: every signer slot, every address-book
/// slot, and all ten balance accounts filled.
fn max_wallet() -> Wallet {
    let mut signer_contents = Vec::new();
    for i in 0..24u8 {
        signer_contents.push(Some(Signer::new(byte32(i))));
    }
    let mut book_contents = Vec::new();
    for i in 0..128usize {
        book_contents.push(Some(AddressBookEntry::new(
            byte32(i as u8),
            AddressBookEntryNameHash::new(&byte32(128 + i as u8 / 2)),
        )));
    }
    let mut balance_accounts = Vec::new();
    for i in 0..10u8 {
        balance_accounts.push(full_account(40 + i));
    }
    Wallet {
        is_initialized: true,
        signers: Slots { contents: signer_contents },
        assistant: Signer::new(byte32(200)),
        address_book: Slots { contents: book_contents },
        approvals_required_for_config: 13,
        approval_timeout_for_config: 86_400,
        config_approvers: full_flags::<24>(1),
        balance_accounts,
        config_policy_update_locked: true,
    }
}

fn expect_malformed_wallet(r: Result<Wallet, WalletError>) {
    match r {
        Err(WalletError::MalformedRecord) => {}
        Err(_) => panic!("expected a malformed-record error"),
        Ok(_) => panic!("expected the record to be rejected"),
    }
}

fn expect_malformed_account(r: Result<BalanceAccount, WalletError>) {
    match r {
        Err(WalletError::MalformedRecord) => {}
        Err(_) => panic!("expected a malformed-record error"),
        Ok(_) => panic!("expected the record to be rejected"),
    }
}

fn expect_malformed_op(r: Result<MultisigOp, WalletError>) {
    match r {
        Err(WalletError::MalformedRecord) => {}
        Err(_) => panic!("expected a malformed-record error"),
        Ok(_) => panic!("expected the record to be rejected"),
    }
}

#[test]
fn balance_account_record_round_trip() {
    let account = full_account(9);
    let bytes = account.pack();
    assert_eq!(bytes.len(), 94);
    let back = BalanceAccount::unpack(bytes.as_slice()).unwrap();
    assert_eq!(back.pack(), bytes);
    assert_eq!(back.guid_hash.bytes, account.guid_hash.bytes);
    assert_eq!(back.name_hash.bytes, account.name_hash.bytes);
    assert_eq!(back.approvals_required_for_transfer, 2);
    assert_eq!(back.approval_timeout_for_transfer, 3_609);
    assert_eq!(back.transfer_approvers.enabled, account.transfer_approvers.enabled);
    assert_eq!(back.allowed_destinations.enabled, account.allowed_destinations.enabled);
    assert_eq!(back.whitelist_enabled, BooleanSetting::On);
    assert_eq!(back.dapps_enabled, BooleanSetting::On);
    assert!(back.policy_update_locked);
}

#[test]
fn balance_account_rejects_malformed_settings() {
    let account = full_account(9);
    let mut bytes = account.pack();
    bytes[92] = 4;
    expect_malformed_account(BalanceAccount::unpack(bytes.as_slice()));
    let mut bytes2 = account.pack();
    bytes2[93] = 2;
    expect_malformed_account(BalanceAccount::unpack(bytes2.as_slice()));
}

#[test]
fn wallet_record_round_trip_at_max_occupancy() {
    let w = max_wallet();
    let bytes = w.pack();
    assert_eq!(bytes.len(), 10099);
    let back = Wallet::unpack(bytes.as_slice()).unwrap();
    // Encoding the decoded wallet reproduces the bytes exactly.
    assert_eq!(back.pack(), bytes);
    assert!(back.is_initialized);
    assert_eq!(back.approvals_required_for_config, 13);
    assert_eq!(back.approval_timeout_for_config, 86_400);
    assert!(back.assistant.key_eq(&w.assistant));
    assert_eq!(back.balance_accounts.len(), 10);
    assert_eq!(back.config_approvers.count_enabled(), 24);
    assert!(back.config_policy_update_locked);
    for i in 0..24 {
        assert!(back.signers.get(i).unwrap().key_eq(&w.signers.get(i).unwrap()));
    }
    for i in 0..128 {
        assert!(back.address_book.get(i).unwrap().entry_eq(&w.address_book.get(i).unwrap()));
    }
    for a in 0..10 {
        assert_eq!(back.balance_accounts[a].pack(), w.balance_accounts[a].pack());
    }
}

#[test]
fn wallet_record_round_trip_when_sparse() {
    let mut w = max_wallet();
    w.signers.contents[5] = None;
    w.address_book.contents[100] = None;
    w.balance_accounts.truncate(3);
    w.is_initialized = false;
    w.config_policy_update_locked = false;
    let bytes = w.pack();
    let back = Wallet::unpack(bytes.as_slice()).unwrap();
    assert_eq!(back.pack(), bytes);
    assert!(back.signers.get(5).is_none());
    assert!(back.address_book.get(100).is_none());
    assert_eq!(back.balance_accounts.len(), 3);
}

#[test]
fn wallet_record_rejects_malformed_bytes() {
    let w = max_wallet();
    let bytes = w.pack();
    // Wrong length.
    expect_malformed_wallet(Wallet::unpack(&bytes.as_slice()[..10098]));
    // Initialized flag above one.
    let mut b1 = bytes.clone();
    b1[0] = 2;
    expect_malformed_wallet(Wallet::unpack(b1.as_slice()));
    // Signer presence byte above one.
    let mut b2 = bytes.clone();
    b2[1] = 7;
    expect_malformed_wallet(Wallet::unpack(b2.as_slice()));
    // Account count above capacity.
    let mut b3 = bytes.clone();
    b3[9157] = 11;
    expect_malformed_wallet(Wallet::unpack(b3.as_slice()));
    // A vacant slot must be zero-filled.
    let mut w2 = max_wallet();
    w2.signers.contents[0] = None;
    let mut b4 = w2.pack();
    b4[5] = 1;
    expect_malformed_wallet(Wallet::unpack(b4.as_slice()));
}

#[test]
fn multisig_op_record_round_trip_at_max_occupancy() {
    let mut approvers = Vec::new();
    for i in 0..24u8 {
        approvers.push(Signer::new(byte32(i)));
    }
    let mut op = MultisigOp::propose(approvers, 17, -5, 9_000_000_000, byte32(77));
    op.approve(Signer::new(byte32(3)), ApprovalDisposition::Approve, &byte32(77)).unwrap();
    let bytes = op.pack();
    assert_eq!(bytes.len(), 844);
    let back = MultisigOp::unpack(bytes.as_slice()).unwrap();
    assert_eq!(back.pack(), bytes);
    assert!(back.is_initialized);
    assert_eq!(back.disposition_records.len(), 24);
    assert_eq!(back.dispositions_required, 17);
    assert_eq!(back.operation_disposition, OperationDisposition::NoneYet);
    assert_eq!(back.params_hash, byte32(77));
    assert_eq!(back.started_at, -5);
    assert_eq!(back.expires, 9_000_000_000);
    assert_eq!(back.disposition_records[3].disposition, ApprovalDisposition::Approve);
    assert_eq!(back.disposition_records[4].disposition, ApprovalDisposition::NoneYet);
}

#[test]
fn multisig_op_record_rejects_malformed_bytes() {
    let op = MultisigOp::propose(vec![Signer::new(byte32(1))], 1, 0, 100, byte32(7));
    let bytes = op.pack();
    let mut b1 = bytes.clone();
    b1[1] = 25;
    expect_malformed_op(MultisigOp::unpack(b1.as_slice()));
    // A disposition byte above two is malformed.
    let mut b2 = bytes.clone();
    b2[2 + 32] = 3;
    expect_malformed_op(MultisigOp::unpack(b2.as_slice()));
    // The unused record tail must stay zero.
    let mut b3 = bytes.clone();
    b3[2 + 33] = 1;
    expect_malformed_op(MultisigOp::unpack(b3.as_slice()));
}

fn sample_params(guid_byte: u8) -> MultisigOpParams {
    MultisigOpParams::CreateBalanceAccount {
        wallet_address: byte32(1),
        account_guid_hash: BalanceAccountGuidHash::new(&byte32(guid_byte)),
        creation_params: BalanceAccountUpdate {
            name_hash: BalanceAccountNameHash::new(&byte32(3)),
            approvals_required_for_transfer: 1,
            approval_timeout_for_transfer: 3600,
            add_transfer_approvers: vec![(0, Signer::new(byte32(4)))],
            remove_transfer_approvers: vec![],
            add_allowed_destinations: vec![],
            remove_allowed_destinations: vec![],
        },
    }
}

#[test]
fn params_hash_is_sha256_of_canonical_encoding() {
    let p = sample_params(2);
    let encoded = p.encode();
    let digest: [u8; 32] = Sha256::digest(encoded.as_slice()).into();
    assert_eq!(p.hash(), digest);
    // Re-encoding the same parameter set reproduces the same hash.
    assert_eq!(p.hash(), sample_params(2).hash());
}

#[test]
fn params_differing_in_one_field_hash_differently() {
    let p1 = sample_params(2);
    let p2 = sample_params(3);
    assert_ne!(p1.encode(), p2.encode());
    assert_ne!(p1.hash(), p2.hash());
    // Different operation kinds over the same fields differ too.
    let create = sample_params(2);
    let update = match sample_params(2) {
        MultisigOpParams::CreateBalanceAccount {
            wallet_address,
            account_guid_hash,
            creation_params,
        } => MultisigOpParams::UpdateBalanceAccount {
            wallet_address,
            account_guid_hash,
            update: creation_params,
        },
        other => other,
    };
    assert_ne!(create.hash(), update.hash());
}
