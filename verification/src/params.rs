use vstd::bytes::spec_u64_from_le_bytes;
use vstd::bytes::spec_u64_to_le_bytes;
use vstd::prelude::*;

use crate::address_book::AddressBookEntry;
use crate::balance_account::BalanceAccountGuidHash;
use crate::codec::push_bytes32;
use crate::codec::push_u64;
use crate::instruction::BalanceAccountUpdate;
use crate::instruction::WalletConfigPolicyUpdate;
use crate::instruction::WalletUpdate;
use crate::signer::Signer;
use crate::slots::SlotId;

verus! {

/// The SHA-256 digest of a byte string.
pub uninterp spec fn sha256_of(bytes: Seq<u8>) -> Seq<u8>;

/// Relies on solana_program::hash::hash: the SHA-256 digest of the input,
/// 32 bytes, a function of the input bytes alone.
#[verifier::external_body]
fn sha256(bytes: &[u8]) -> (r: [u8; 32])
    ensures
        r@ == sha256_of(bytes@),
{
    solana_program::hash::hash(bytes).to_bytes()
}

/// Whether a batch of keyed signer writes can be canonically encoded: at
/// most as many entries as fit a count byte, every id within the signer
/// store's capacity.
pub open spec fn signer_batch_wf(batch: Seq<(SlotId, Signer)>) -> bool {
    &&& batch.len() <= 255
    &&& forall|k: int| 0 <= k < batch.len() ==> (#[trigger] batch[k]).0 < 24
}

/// Whether a batch of keyed address-book writes can be canonically encoded.
pub open spec fn abe_batch_wf(batch: Seq<(SlotId, AddressBookEntry)>) -> bool {
    &&& batch.len() <= 255
    &&& forall|k: int| 0 <= k < batch.len() ==> (#[trigger] batch[k]).0 < 128
}

impl WalletUpdate {
    pub open spec fn wf(&self) -> bool {
        &&& signer_batch_wf(self.add_signers@)
        &&& signer_batch_wf(self.remove_signers@)
        &&& signer_batch_wf(self.add_config_approvers@)
        &&& signer_batch_wf(self.remove_config_approvers@)
        &&& abe_batch_wf(self.add_address_book_entries@)
        &&& abe_batch_wf(self.remove_address_book_entries@)
    }
}

impl WalletConfigPolicyUpdate {
    pub open spec fn wf(&self) -> bool {
        &&& signer_batch_wf(self.add_config_approvers@)
        &&& signer_batch_wf(self.remove_config_approvers@)
    }
}

impl BalanceAccountUpdate {
    pub open spec fn wf(&self) -> bool {
        &&& signer_batch_wf(self.add_transfer_approvers@)
        &&& signer_batch_wf(self.remove_transfer_approvers@)
        &&& abe_batch_wf(self.add_allowed_destinations@)
        &&& abe_batch_wf(self.remove_allowed_destinations@)
    }
}

/// One canonically encoded signer batch entry: the slot id and the key.
pub open spec fn enc_signer_entry(e: (SlotId, Signer)) -> Seq<u8> {
    seq![e.0 as u8] + e.1.key@
}

/// The entries of a signer batch, in order.
pub open spec fn enc_signer_entries(batch: Seq<(SlotId, Signer)>) -> Seq<u8>
    decreases batch.len(),
{
    if batch.len() == 0 {
        Seq::empty()
    } else {
        enc_signer_entries(batch.drop_last()) + enc_signer_entry(batch.last())
    }
}

/// A canonically encoded signer batch: a count byte, then the entries.
pub open spec fn enc_signer_batch(batch: Seq<(SlotId, Signer)>) -> Seq<u8> {
    seq![batch.len() as u8] + enc_signer_entries(batch)
}

pub proof fn lemma_enc_signer_entries_len(batch: Seq<(SlotId, Signer)>)
    ensures
        enc_signer_entries(batch).len() == 33 * batch.len(),
    decreases batch.len(),
{
    if batch.len() > 0 {
        lemma_enc_signer_entries_len(batch.drop_last());
    }
}

/// One canonically encoded address-book batch entry: the slot id, the
/// address, and the name hash.
pub open spec fn enc_abe_entry(e: (SlotId, AddressBookEntry)) -> Seq<u8> {
    seq![e.0 as u8] + e.1.address@ + e.1.name_hash.bytes@
}

/// The entries of an address-book batch, in order.
pub open spec fn enc_abe_entries(batch: Seq<(SlotId, AddressBookEntry)>) -> Seq<u8>
    decreases batch.len(),
{
    if batch.len() == 0 {
        Seq::empty()
    } else {
        enc_abe_entries(batch.drop_last()) + enc_abe_entry(batch.last())
    }
}

/// A canonically encoded address-book batch: a count byte, then the entries.
pub open spec fn enc_abe_batch(batch: Seq<(SlotId, AddressBookEntry)>) -> Seq<u8> {
    seq![batch.len() as u8] + enc_abe_entries(batch)
}

pub proof fn lemma_enc_abe_entries_len(batch: Seq<(SlotId, AddressBookEntry)>)
    ensures
        enc_abe_entries(batch).len() == 65 * batch.len(),
    decreases batch.len(),
{
    if batch.len() > 0 {
        lemma_enc_abe_entries_len(batch.drop_last());
    }
}

/// The canonical encoding of a wallet update: policy fields, then every
/// batch in a fixed order, each behind its count byte.
pub open spec fn enc_wallet_update(u: WalletUpdate) -> Seq<u8> {
    seq![u.approvals_required_for_config] + spec_u64_to_le_bytes(u.approval_timeout_for_config)
        + enc_signer_batch(u.add_signers@) + enc_signer_batch(u.remove_signers@) + enc_signer_batch(
        u.add_config_approvers@,
    ) + enc_signer_batch(u.remove_config_approvers@) + enc_abe_batch(u.add_address_book_entries@)
        + enc_abe_batch(u.remove_address_book_entries@)
}

/// The canonical encoding of a config-policy update.
pub open spec fn enc_config_policy_update(u: WalletConfigPolicyUpdate) -> Seq<u8> {
    seq![u.approvals_required_for_config] + spec_u64_to_le_bytes(u.approval_timeout_for_config)
        + enc_signer_batch(u.add_config_approvers@) + enc_signer_batch(u.remove_config_approvers@)
}

/// The canonical encoding of a balance-account update.
pub open spec fn enc_balance_account_update(u: BalanceAccountUpdate) -> Seq<u8> {
    u.name_hash.bytes@ + seq![u.approvals_required_for_transfer] + spec_u64_to_le_bytes(
        u.approval_timeout_for_transfer,
    ) + enc_signer_batch(u.add_transfer_approvers@) + enc_signer_batch(u.remove_transfer_approvers@)
        + enc_abe_batch(u.add_allowed_destinations@) + enc_abe_batch(u.remove_allowed_destinations@)
}

/// The exact parameters a proposal binds itself to, scoped by operation
/// kind: the wallet's address, the target sub-entity if any, and every field
/// of the change.
pub enum MultisigOpParams {
    UpdateWallet { wallet_address: [u8; 32], update: WalletUpdate },
    UpdateWalletConfigPolicy { wallet_address: [u8; 32], update: WalletConfigPolicyUpdate },
    CreateBalanceAccount {
        wallet_address: [u8; 32],
        account_guid_hash: BalanceAccountGuidHash,
        creation_params: BalanceAccountUpdate,
    },
    UpdateBalanceAccount {
        wallet_address: [u8; 32],
        account_guid_hash: BalanceAccountGuidHash,
        update: BalanceAccountUpdate,
    },
}

/// The canonical encoding of a parameter set: a kind tag, the identities it
/// is scoped by, and the change's fields. Two distinct parameter sets never
/// encode to the same bytes.
pub open spec fn enc_params(p: MultisigOpParams) -> Seq<u8> {
    match p {
        MultisigOpParams::UpdateWallet { wallet_address, update } => seq![1u8] + wallet_address@
            + enc_wallet_update(update),
        MultisigOpParams::UpdateWalletConfigPolicy { wallet_address, update } => seq![2u8]
            + wallet_address@ + enc_config_policy_update(update),
        MultisigOpParams::CreateBalanceAccount {
            wallet_address,
            account_guid_hash,
            creation_params,
        } => seq![3u8] + wallet_address@ + account_guid_hash.bytes@ + enc_balance_account_update(
            creation_params,
        ),
        MultisigOpParams::UpdateBalanceAccount { wallet_address, account_guid_hash, update } => seq![4u8]
            + wallet_address@ + account_guid_hash.bytes@ + enc_balance_account_update(update),
    }
}

impl MultisigOpParams {
    pub open spec fn wf(&self) -> bool {
        match *self {
            MultisigOpParams::UpdateWallet { update, .. } => update.wf(),
            MultisigOpParams::UpdateWalletConfigPolicy { update, .. } => update.wf(),
            MultisigOpParams::CreateBalanceAccount { creation_params, .. } => creation_params.wf(),
            MultisigOpParams::UpdateBalanceAccount { update, .. } => update.wf(),
        }
    }

    /// The canonical encoding of this parameter set.
    pub fn encode(&self) -> (r: Vec<u8>)
        requires
            self.wf(),
        ensures
            r@ == enc_params(*self),
    {
        let mut out: Vec<u8> = Vec::new();
        match self {
            MultisigOpParams::UpdateWallet { wallet_address, update } => {
                out.push(1);
                push_bytes32(&mut out, wallet_address);
                push_wallet_update(&mut out, update);
            },
            MultisigOpParams::UpdateWalletConfigPolicy { wallet_address, update } => {
                out.push(2);
                push_bytes32(&mut out, wallet_address);
                push_config_policy_update(&mut out, update);
            },
            MultisigOpParams::CreateBalanceAccount {
                wallet_address,
                account_guid_hash,
                creation_params,
            } => {
                out.push(3);
                push_bytes32(&mut out, wallet_address);
                push_bytes32(&mut out, &account_guid_hash.bytes);
                push_balance_account_update(&mut out, creation_params);
            },
            MultisigOpParams::UpdateBalanceAccount {
                wallet_address,
                account_guid_hash,
                update,
            } => {
                out.push(4);
                push_bytes32(&mut out, wallet_address);
                push_bytes32(&mut out, &account_guid_hash.bytes);
                push_balance_account_update(&mut out, update);
            },
        }
        proof {
            assert(out@ =~= enc_params(*self));
        }
        out
    }

    /// The 32-byte digest anchoring this parameter set: the SHA-256 hash of
    /// its canonical encoding. The same parameter set always hashes
    /// identically.
    pub fn hash(&self) -> (r: [u8; 32])
        requires
            self.wf(),
        ensures
            r@ == sha256_of(enc_params(*self)),
    {
        let bytes = self.encode();
        sha256(bytes.as_slice())
    }
}

/// Appends a canonically encoded signer batch.
fn push_signer_batch(out: &mut Vec<u8>, batch: &Vec<(SlotId, Signer)>)
    requires
        signer_batch_wf(batch@),
    ensures
        final(out)@ == old(out)@ + enc_signer_batch(batch@),
{
    out.push(batch.len() as u8);
    let ghost mid = out@;
    let mut k: usize = 0;
    while k < batch.len()
        invariant
            signer_batch_wf(batch@),
            k <= batch@.len(),
            out@ == mid + enc_signer_entries(batch@.take(k as int)),
        decreases batch@.len() - k,
    {
        proof {
            assert(batch@.take(k + 1).drop_last() =~= batch@.take(k as int));
            assert(batch@.take(k + 1).last() == batch@[k as int]);
        }
        let ghost pre = out@;
        let (id, signer) = batch[k];
        out.push(id as u8);
        push_bytes32(out, &signer.key);
        proof {
            assert(out@ =~= pre + enc_signer_entry(batch@[k as int]));
        }
        k += 1;
    }
    proof {
        assert(batch@.take(batch@.len() as int) =~= batch@);
        assert(out@ =~= old(out)@ + enc_signer_batch(batch@));
    }
}

/// Appends a canonically encoded address-book batch.
fn push_abe_batch(out: &mut Vec<u8>, batch: &Vec<(SlotId, AddressBookEntry)>)
    requires
        abe_batch_wf(batch@),
    ensures
        final(out)@ == old(out)@ + enc_abe_batch(batch@),
{
    out.push(batch.len() as u8);
    let ghost mid = out@;
    let mut k: usize = 0;
    while k < batch.len()
        invariant
            abe_batch_wf(batch@),
            k <= batch@.len(),
            out@ == mid + enc_abe_entries(batch@.take(k as int)),
        decreases batch@.len() - k,
    {
        proof {
            assert(batch@.take(k + 1).drop_last() =~= batch@.take(k as int));
            assert(batch@.take(k + 1).last() == batch@[k as int]);
        }
        let ghost pre = out@;
        let (id, entry) = batch[k];
        out.push(id as u8);
        push_bytes32(out, &entry.address);
        push_bytes32(out, &entry.name_hash.bytes);
        proof {
            assert(out@ =~= pre + enc_abe_entry(batch@[k as int]));
        }
        k += 1;
    }
    proof {
        assert(batch@.take(batch@.len() as int) =~= batch@);
        assert(out@ =~= old(out)@ + enc_abe_batch(batch@));
    }
}

/// Appends a canonically encoded wallet update.
fn push_wallet_update(out: &mut Vec<u8>, u: &WalletUpdate)
    requires
        u.wf(),
    ensures
        final(out)@ == old(out)@ + enc_wallet_update(*u),
{
    out.push(u.approvals_required_for_config);
    push_u64(out, u.approval_timeout_for_config);
    push_signer_batch(out, &u.add_signers);
    push_signer_batch(out, &u.remove_signers);
    push_signer_batch(out, &u.add_config_approvers);
    push_signer_batch(out, &u.remove_config_approvers);
    push_abe_batch(out, &u.add_address_book_entries);
    push_abe_batch(out, &u.remove_address_book_entries);
    proof {
        assert(out@ =~= old(out)@ + enc_wallet_update(*u));
    }
}

/// Appends a canonically encoded config-policy update.
fn push_config_policy_update(out: &mut Vec<u8>, u: &WalletConfigPolicyUpdate)
    requires
        u.wf(),
    ensures
        final(out)@ == old(out)@ + enc_config_policy_update(*u),
{
    out.push(u.approvals_required_for_config);
    push_u64(out, u.approval_timeout_for_config);
    push_signer_batch(out, &u.add_config_approvers);
    push_signer_batch(out, &u.remove_config_approvers);
    proof {
        assert(out@ =~= old(out)@ + enc_config_policy_update(*u));
    }
}

/// Appends a canonically encoded balance-account update.
fn push_balance_account_update(out: &mut Vec<u8>, u: &BalanceAccountUpdate)
    requires
        u.wf(),
    ensures
        final(out)@ == old(out)@ + enc_balance_account_update(*u),
{
    push_bytes32(out, &u.name_hash.bytes);
    out.push(u.approvals_required_for_transfer);
    push_u64(out, u.approval_timeout_for_transfer);
    push_signer_batch(out, &u.add_transfer_approvers);
    push_signer_batch(out, &u.remove_transfer_approvers);
    push_abe_batch(out, &u.add_allowed_destinations);
    push_abe_batch(out, &u.remove_allowed_destinations);
    proof {
        assert(out@ =~= old(out)@ + enc_balance_account_update(*u));
    }
}


/// Equal encoded signer entries mean equal batches.
pub proof fn lemma_enc_signer_entries_inj(b1: Seq<(SlotId, Signer)>, b2: Seq<(SlotId, Signer)>)
    requires
        b1.len() == b2.len(),
        signer_batch_wf(b1),
        signer_batch_wf(b2),
        enc_signer_entries(b1) == enc_signer_entries(b2),
    ensures
        b1 == b2,
    decreases b1.len(),
{
    if b1.len() == 0 {
        assert(b1 =~= b2);
    } else {
        let p1 = b1.drop_last();
        let p2 = b2.drop_last();
        lemma_enc_signer_entries_len(p1);
        lemma_enc_signer_entries_len(p2);
        assert(enc_signer_entries(p1) =~= enc_signer_entries(p2)) by {
            assert forall|j: int| 0 <= j < enc_signer_entries(p1).len() implies enc_signer_entries(
                p1,
            )[j] == enc_signer_entries(p2)[j] by {
                assert((enc_signer_entries(p1) + enc_signer_entry(b1.last()))[j]
                    == enc_signer_entries(p1)[j]);
                assert((enc_signer_entries(p2) + enc_signer_entry(b2.last()))[j]
                    == enc_signer_entries(p2)[j]);
                assert(enc_signer_entries(b1)[j] == enc_signer_entries(b2)[j]);
            }
        }
        assert(signer_batch_wf(p1) && signer_batch_wf(p2)) by {
            assert(forall|k: int| 0 <= k < p1.len() ==> (#[trigger] p1[k]) == b1[k]);
            assert(forall|k: int| 0 <= k < p2.len() ==> (#[trigger] p2[k]) == b2[k]);
        }
        lemma_enc_signer_entries_inj(p1, p2);
        assert(enc_signer_entry(b1.last()) =~= enc_signer_entry(b2.last())) by {
            let base = enc_signer_entries(p1).len() as int;
            assert forall|j: int| 0 <= j < 33 implies enc_signer_entry(b1.last())[j]
                == enc_signer_entry(b2.last())[j] by {
                assert(enc_signer_entries(b1)[base + j] == enc_signer_entry(b1.last())[j]);
                assert(enc_signer_entries(b2)[base + j] == enc_signer_entry(b2.last())[j]);
            }
        }
        assert(b1.last() == b2.last()) by {
            let e1 = b1.last();
            let e2 = b2.last();
            assert(b1[b1.len() - 1].0 < 24 && b2[b2.len() - 1].0 < 24);
            assert(enc_signer_entry(e1)[0] == enc_signer_entry(e2)[0]);
            assert(e1.0 as u8 == e2.0 as u8);
            assert(e1.0 == e2.0);
            assert(e1.1.key@ =~= e2.1.key@) by {
                assert forall|j: int| 0 <= j < 32 implies e1.1.key@[j] == e2.1.key@[j] by {
                    assert(enc_signer_entry(e1)[1 + j] == enc_signer_entry(e2)[1 + j]);
                }
            }
            assert(e1.1.key =~= e2.1.key);
        }
        assert forall|j: int| 0 <= j < b1.len() implies b1[j] == b2[j] by {
            if j < b1.len() - 1 {
                assert(p1[j] == p2[j]);
            }
        }
        assert(b1 =~= b2);
    }
}

/// Equal encoded address-book entries mean equal batches.
pub proof fn lemma_enc_abe_entries_inj(
    b1: Seq<(SlotId, AddressBookEntry)>,
    b2: Seq<(SlotId, AddressBookEntry)>,
)
    requires
        b1.len() == b2.len(),
        abe_batch_wf(b1),
        abe_batch_wf(b2),
        enc_abe_entries(b1) == enc_abe_entries(b2),
    ensures
        b1 == b2,
    decreases b1.len(),
{
    if b1.len() == 0 {
        assert(b1 =~= b2);
    } else {
        let p1 = b1.drop_last();
        let p2 = b2.drop_last();
        lemma_enc_abe_entries_len(p1);
        lemma_enc_abe_entries_len(p2);
        assert(enc_abe_entries(p1) =~= enc_abe_entries(p2)) by {
            assert forall|j: int| 0 <= j < enc_abe_entries(p1).len() implies enc_abe_entries(p1)[j]
                == enc_abe_entries(p2)[j] by {
                assert((enc_abe_entries(p1) + enc_abe_entry(b1.last()))[j] == enc_abe_entries(
                    p1,
                )[j]);
                assert((enc_abe_entries(p2) + enc_abe_entry(b2.last()))[j] == enc_abe_entries(
                    p2,
                )[j]);
                assert(enc_abe_entries(b1)[j] == enc_abe_entries(b2)[j]);
            }
        }
        assert(abe_batch_wf(p1) && abe_batch_wf(p2)) by {
            assert(forall|k: int| 0 <= k < p1.len() ==> (#[trigger] p1[k]) == b1[k]);
            assert(forall|k: int| 0 <= k < p2.len() ==> (#[trigger] p2[k]) == b2[k]);
        }
        lemma_enc_abe_entries_inj(p1, p2);
        assert(enc_abe_entry(b1.last()) =~= enc_abe_entry(b2.last())) by {
            let base = enc_abe_entries(p1).len() as int;
            assert forall|j: int| 0 <= j < 65 implies enc_abe_entry(b1.last())[j] == enc_abe_entry(
                b2.last(),
            )[j] by {
                assert(enc_abe_entries(b1)[base + j] == enc_abe_entry(b1.last())[j]);
                assert(enc_abe_entries(b2)[base + j] == enc_abe_entry(b2.last())[j]);
            }
        }
        assert(b1.last() == b2.last()) by {
            let e1 = b1.last();
            let e2 = b2.last();
            assert(b1[b1.len() - 1].0 < 128 && b2[b2.len() - 1].0 < 128);
            assert(enc_abe_entry(e1)[0] == enc_abe_entry(e2)[0]);
            assert(e1.0 as u8 == e2.0 as u8);
            assert(e1.0 == e2.0);
            assert(e1.1.address@ =~= e2.1.address@) by {
                assert forall|j: int| 0 <= j < 32 implies e1.1.address@[j] == e2.1.address@[j] by {
                    assert(enc_abe_entry(e1)[1 + j] == enc_abe_entry(e2)[1 + j]);
                }
            }
            assert(e1.1.name_hash.bytes@ =~= e2.1.name_hash.bytes@) by {
                assert forall|j: int|
                    0 <= j < 32 implies e1.1.name_hash.bytes@[j] == e2.1.name_hash.bytes@[j] by {
                    assert(enc_abe_entry(e1)[33 + j] == enc_abe_entry(e2)[33 + j]);
                }
            }
            assert(e1.1.address =~= e2.1.address);
            assert(e1.1.name_hash.bytes =~= e2.1.name_hash.bytes);
        }
        assert forall|j: int| 0 <= j < b1.len() implies b1[j] == b2[j] by {
            if j < b1.len() - 1 {
                assert(p1[j] == p2[j]);
            }
        }
        assert(b1 =~= b2);
    }
}

/// A signer batch's encoding is self-delimiting: wherever two encoded
/// batches followed by arbitrary tails agree, the batches and the tails
/// agree separately.
pub proof fn lemma_signer_batch_split(
    b1: Seq<(SlotId, Signer)>,
    r1: Seq<u8>,
    b2: Seq<(SlotId, Signer)>,
    r2: Seq<u8>,
)
    requires
        signer_batch_wf(b1),
        signer_batch_wf(b2),
        enc_signer_batch(b1) + r1 == enc_signer_batch(b2) + r2,
    ensures
        b1 == b2,
        r1 == r2,
{
    lemma_enc_signer_entries_len(b1);
    lemma_enc_signer_entries_len(b2);
    let x = enc_signer_batch(b1) + r1;
    assert(x[0] == b1.len() as u8);
    assert((enc_signer_batch(b2) + r2)[0] == b2.len() as u8);
    assert(b1.len() == b2.len());
    let elen = 1 + 33 * (b1.len() as int);
    assert(enc_signer_entries(b1) =~= enc_signer_entries(b2)) by {
        assert forall|j: int| 0 <= j < enc_signer_entries(b1).len() implies enc_signer_entries(
            b1,
        )[j] == enc_signer_entries(b2)[j] by {
            assert(x[1 + j] == enc_signer_batch(b1)[1 + j]);
            assert((enc_signer_batch(b2) + r2)[1 + j] == enc_signer_batch(b2)[1 + j]);
            assert(enc_signer_batch(b1)[1 + j] == enc_signer_entries(b1)[j]);
            assert(enc_signer_batch(b2)[1 + j] == enc_signer_entries(b2)[j]);
        }
    }
    lemma_enc_signer_entries_inj(b1, b2);
    assert(r1 =~= r2) by {
        assert(x.len() == elen + r1.len() && x.len() == elen + r2.len());
        assert forall|j: int| 0 <= j < r1.len() implies r1[j] == r2[j] by {
            assert(x[elen + j] == r1[j]);
            assert((enc_signer_batch(b2) + r2)[elen + j] == r2[j]);
        }
    }
}

/// An address-book batch's encoding is self-delimiting.
pub proof fn lemma_abe_batch_split(
    b1: Seq<(SlotId, AddressBookEntry)>,
    r1: Seq<u8>,
    b2: Seq<(SlotId, AddressBookEntry)>,
    r2: Seq<u8>,
)
    requires
        abe_batch_wf(b1),
        abe_batch_wf(b2),
        enc_abe_batch(b1) + r1 == enc_abe_batch(b2) + r2,
    ensures
        b1 == b2,
        r1 == r2,
{
    lemma_enc_abe_entries_len(b1);
    lemma_enc_abe_entries_len(b2);
    let x = enc_abe_batch(b1) + r1;
    assert(x[0] == b1.len() as u8);
    assert((enc_abe_batch(b2) + r2)[0] == b2.len() as u8);
    assert(b1.len() == b2.len());
    let elen = 1 + 65 * (b1.len() as int);
    assert(enc_abe_entries(b1) =~= enc_abe_entries(b2)) by {
        assert forall|j: int| 0 <= j < enc_abe_entries(b1).len() implies enc_abe_entries(b1)[j]
            == enc_abe_entries(b2)[j] by {
            assert(x[1 + j] == enc_abe_batch(b1)[1 + j]);
            assert((enc_abe_batch(b2) + r2)[1 + j] == enc_abe_batch(b2)[1 + j]);
            assert(enc_abe_batch(b1)[1 + j] == enc_abe_entries(b1)[j]);
            assert(enc_abe_batch(b2)[1 + j] == enc_abe_entries(b2)[j]);
        }
    }
    lemma_enc_abe_entries_inj(b1, b2);
    assert(r1 =~= r2) by {
        assert(x.len() == elen + r1.len() && x.len() == elen + r2.len());
        assert forall|j: int| 0 <= j < r1.len() implies r1[j] == r2[j] by {
            assert(x[elen + j] == r1[j]);
            assert((enc_abe_batch(b2) + r2)[elen + j] == r2[j]);
        }
    }
}

/// Equal encoded wallet updates mean equal updates.
pub proof fn lemma_enc_wallet_update_inj(u1: WalletUpdate, u2: WalletUpdate)
    requires
        u1.wf(),
        u2.wf(),
        enc_wallet_update(u1) == enc_wallet_update(u2),
    ensures
        u1.approvals_required_for_config == u2.approvals_required_for_config,
        u1.approval_timeout_for_config == u2.approval_timeout_for_config,
        u1.add_signers@ == u2.add_signers@,
        u1.remove_signers@ == u2.remove_signers@,
        u1.add_config_approvers@ == u2.add_config_approvers@,
        u1.remove_config_approvers@ == u2.remove_config_approvers@,
        u1.add_address_book_entries@ == u2.add_address_book_entries@,
        u1.remove_address_book_entries@ == u2.remove_address_book_entries@,
{
    vstd::bytes::lemma_auto_spec_u64_to_from_le_bytes();
    let e1 = enc_wallet_update(u1);
    let e2 = enc_wallet_update(u2);
    let rest1 = enc_signer_batch(u1.add_signers@) + (enc_signer_batch(u1.remove_signers@) + (
    enc_signer_batch(u1.add_config_approvers@) + (enc_signer_batch(u1.remove_config_approvers@) + (
    enc_abe_batch(u1.add_address_book_entries@) + enc_abe_batch(u1.remove_address_book_entries@)))));
    let rest2 = enc_signer_batch(u2.add_signers@) + (enc_signer_batch(u2.remove_signers@) + (
    enc_signer_batch(u2.add_config_approvers@) + (enc_signer_batch(u2.remove_config_approvers@) + (
    enc_abe_batch(u2.add_address_book_entries@) + enc_abe_batch(u2.remove_address_book_entries@)))));
    assert(e1.len() == 9 + rest1.len());
    assert(e2.len() == 9 + rest2.len());
    assert(e1 =~= (seq![u1.approvals_required_for_config] + spec_u64_to_le_bytes(
        u1.approval_timeout_for_config,
    )) + rest1);
    assert(e2 =~= (seq![u2.approvals_required_for_config] + spec_u64_to_le_bytes(
        u2.approval_timeout_for_config,
    )) + rest2);
    assert(u1.approvals_required_for_config == e1[0]);
    assert(u2.approvals_required_for_config == e2[0]);
    assert(spec_u64_to_le_bytes(u1.approval_timeout_for_config) =~= e1.subrange(1, 9));
    assert(spec_u64_to_le_bytes(u2.approval_timeout_for_config) =~= e2.subrange(1, 9));
    assert(u1.approval_timeout_for_config == u2.approval_timeout_for_config) by {
        assert(spec_u64_from_le_bytes(spec_u64_to_le_bytes(u1.approval_timeout_for_config))
            == u1.approval_timeout_for_config);
        assert(spec_u64_from_le_bytes(spec_u64_to_le_bytes(u2.approval_timeout_for_config))
            == u2.approval_timeout_for_config);
    }
    assert(rest1 =~= rest2) by {
        assert(rest1.len() == rest2.len());
        assert forall|j: int| 0 <= j < rest1.len() implies rest1[j] == rest2[j] by {
            assert(e1[9 + j] == rest1[j]);
            assert(e2[9 + j] == rest2[j]);
        }
    }
    let t1a = enc_signer_batch(u1.add_config_approvers@) + (enc_signer_batch(
        u1.remove_config_approvers@,
    ) + (enc_abe_batch(u1.add_address_book_entries@) + enc_abe_batch(
        u1.remove_address_book_entries@,
    )));
    let t2a = enc_signer_batch(u2.add_config_approvers@) + (enc_signer_batch(
        u2.remove_config_approvers@,
    ) + (enc_abe_batch(u2.add_address_book_entries@) + enc_abe_batch(
        u2.remove_address_book_entries@,
    )));
    lemma_signer_batch_split(
        u1.add_signers@,
        enc_signer_batch(u1.remove_signers@) + t1a,
        u2.add_signers@,
        enc_signer_batch(u2.remove_signers@) + t2a,
    );
    lemma_signer_batch_split(u1.remove_signers@, t1a, u2.remove_signers@, t2a);
    let t1b = enc_abe_batch(u1.add_address_book_entries@) + enc_abe_batch(
        u1.remove_address_book_entries@,
    );
    let t2b = enc_abe_batch(u2.add_address_book_entries@) + enc_abe_batch(
        u2.remove_address_book_entries@,
    );
    lemma_signer_batch_split(
        u1.add_config_approvers@,
        enc_signer_batch(u1.remove_config_approvers@) + t1b,
        u2.add_config_approvers@,
        enc_signer_batch(u2.remove_config_approvers@) + t2b,
    );
    lemma_signer_batch_split(u1.remove_config_approvers@, t1b, u2.remove_config_approvers@, t2b);
    lemma_abe_batch_split(
        u1.add_address_book_entries@,
        enc_abe_batch(u1.remove_address_book_entries@),
        u2.add_address_book_entries@,
        enc_abe_batch(u2.remove_address_book_entries@),
    );
    lemma_abe_batch_split(
        u1.remove_address_book_entries@,
        Seq::empty(),
        u2.remove_address_book_entries@,
        Seq::empty(),
    );
}

/// Equal encoded config-policy updates mean equal updates.
pub proof fn lemma_enc_config_policy_update_inj(
    u1: WalletConfigPolicyUpdate,
    u2: WalletConfigPolicyUpdate,
)
    requires
        u1.wf(),
        u2.wf(),
        enc_config_policy_update(u1) == enc_config_policy_update(u2),
    ensures
        u1.approvals_required_for_config == u2.approvals_required_for_config,
        u1.approval_timeout_for_config == u2.approval_timeout_for_config,
        u1.add_config_approvers@ == u2.add_config_approvers@,
        u1.remove_config_approvers@ == u2.remove_config_approvers@,
{
    vstd::bytes::lemma_auto_spec_u64_to_from_le_bytes();
    let e1 = enc_config_policy_update(u1);
    let e2 = enc_config_policy_update(u2);
    let rest1 = enc_signer_batch(u1.add_config_approvers@) + enc_signer_batch(
        u1.remove_config_approvers@,
    );
    let rest2 = enc_signer_batch(u2.add_config_approvers@) + enc_signer_batch(
        u2.remove_config_approvers@,
    );
    assert(e1 =~= (seq![u1.approvals_required_for_config] + spec_u64_to_le_bytes(
        u1.approval_timeout_for_config,
    )) + rest1);
    assert(e2 =~= (seq![u2.approvals_required_for_config] + spec_u64_to_le_bytes(
        u2.approval_timeout_for_config,
    )) + rest2);
    assert(u1.approvals_required_for_config == e1[0]);
    assert(u2.approvals_required_for_config == e2[0]);
    assert(spec_u64_to_le_bytes(u1.approval_timeout_for_config) =~= e1.subrange(1, 9));
    assert(spec_u64_to_le_bytes(u2.approval_timeout_for_config) =~= e2.subrange(1, 9));
    assert(u1.approval_timeout_for_config == u2.approval_timeout_for_config) by {
        assert(spec_u64_from_le_bytes(spec_u64_to_le_bytes(u1.approval_timeout_for_config))
            == u1.approval_timeout_for_config);
        assert(spec_u64_from_le_bytes(spec_u64_to_le_bytes(u2.approval_timeout_for_config))
            == u2.approval_timeout_for_config);
    }
    assert(e1.len() == 9 + rest1.len());
    assert(e2.len() == 9 + rest2.len());
    assert(rest1 =~= rest2) by {
        assert(rest1.len() == rest2.len());
        assert forall|j: int| 0 <= j < rest1.len() implies rest1[j] == rest2[j] by {
            assert(e1[9 + j] == rest1[j]);
            assert(e2[9 + j] == rest2[j]);
        }
    }
    lemma_signer_batch_split(
        u1.add_config_approvers@,
        enc_signer_batch(u1.remove_config_approvers@),
        u2.add_config_approvers@,
        enc_signer_batch(u2.remove_config_approvers@),
    );
    lemma_signer_batch_split(
        u1.remove_config_approvers@,
        Seq::empty(),
        u2.remove_config_approvers@,
        Seq::empty(),
    );
}

/// Equal encoded balance-account updates mean equal updates.
pub proof fn lemma_enc_balance_account_update_inj(u1: BalanceAccountUpdate, u2: BalanceAccountUpdate)
    requires
        u1.wf(),
        u2.wf(),
        enc_balance_account_update(u1) == enc_balance_account_update(u2),
    ensures
        u1.name_hash == u2.name_hash,
        u1.approvals_required_for_transfer == u2.approvals_required_for_transfer,
        u1.approval_timeout_for_transfer == u2.approval_timeout_for_transfer,
        u1.add_transfer_approvers@ == u2.add_transfer_approvers@,
        u1.remove_transfer_approvers@ == u2.remove_transfer_approvers@,
        u1.add_allowed_destinations@ == u2.add_allowed_destinations@,
        u1.remove_allowed_destinations@ == u2.remove_allowed_destinations@,
{
    vstd::bytes::lemma_auto_spec_u64_to_from_le_bytes();
    let e1 = enc_balance_account_update(u1);
    let e2 = enc_balance_account_update(u2);
    let rest1 = enc_signer_batch(u1.add_transfer_approvers@) + (enc_signer_batch(
        u1.remove_transfer_approvers@,
    ) + (enc_abe_batch(u1.add_allowed_destinations@) + enc_abe_batch(
        u1.remove_allowed_destinations@,
    )));
    let rest2 = enc_signer_batch(u2.add_transfer_approvers@) + (enc_signer_batch(
        u2.remove_transfer_approvers@,
    ) + (enc_abe_batch(u2.add_allowed_destinations@) + enc_abe_batch(
        u2.remove_allowed_destinations@,
    )));
    assert(e1 =~= (u1.name_hash.bytes@ + seq![u1.approvals_required_for_transfer]
        + spec_u64_to_le_bytes(u1.approval_timeout_for_transfer)) + rest1);
    assert(e2 =~= (u2.name_hash.bytes@ + seq![u2.approvals_required_for_transfer]
        + spec_u64_to_le_bytes(u2.approval_timeout_for_transfer)) + rest2);
    assert(u1.name_hash.bytes@ =~= e1.subrange(0, 32));
    assert(u2.name_hash.bytes@ =~= e2.subrange(0, 32));
    assert(u1.name_hash.bytes =~= u2.name_hash.bytes);
    assert(u1.approvals_required_for_transfer == e1[32]);
    assert(u2.approvals_required_for_transfer == e2[32]);
    assert(spec_u64_to_le_bytes(u1.approval_timeout_for_transfer) =~= e1.subrange(33, 41));
    assert(spec_u64_to_le_bytes(u2.approval_timeout_for_transfer) =~= e2.subrange(33, 41));
    assert(u1.approval_timeout_for_transfer == u2.approval_timeout_for_transfer) by {
        assert(spec_u64_from_le_bytes(spec_u64_to_le_bytes(u1.approval_timeout_for_transfer))
            == u1.approval_timeout_for_transfer);
        assert(spec_u64_from_le_bytes(spec_u64_to_le_bytes(u2.approval_timeout_for_transfer))
            == u2.approval_timeout_for_transfer);
    }
    assert(e1.len() == 41 + rest1.len());
    assert(e2.len() == 41 + rest2.len());
    assert(rest1 =~= rest2) by {
        assert(rest1.len() == rest2.len());
        assert forall|j: int| 0 <= j < rest1.len() implies rest1[j] == rest2[j] by {
            assert(e1[41 + j] == rest1[j]);
            assert(e2[41 + j] == rest2[j]);
        }
    }
    let t1 = enc_abe_batch(u1.add_allowed_destinations@) + enc_abe_batch(
        u1.remove_allowed_destinations@,
    );
    let t2 = enc_abe_batch(u2.add_allowed_destinations@) + enc_abe_batch(
        u2.remove_allowed_destinations@,
    );
    lemma_signer_batch_split(
        u1.add_transfer_approvers@,
        enc_signer_batch(u1.remove_transfer_approvers@) + t1,
        u2.add_transfer_approvers@,
        enc_signer_batch(u2.remove_transfer_approvers@) + t2,
    );
    lemma_signer_batch_split(u1.remove_transfer_approvers@, t1, u2.remove_transfer_approvers@, t2);
    lemma_abe_batch_split(
        u1.add_allowed_destinations@,
        enc_abe_batch(u1.remove_allowed_destinations@),
        u2.add_allowed_destinations@,
        enc_abe_batch(u2.remove_allowed_destinations@),
    );
    lemma_abe_batch_split(
        u1.remove_allowed_destinations@,
        Seq::empty(),
        u2.remove_allowed_destinations@,
        Seq::empty(),
    );
}

/// Hash binding, the deterministic half: two candidate parameter sets
/// encode to the same bytes only if they agree in every field, so the same
/// parameter set always reproduces the same hash, and two sets differing in
/// any field feed the digest distinct inputs. That the digest itself never
/// collides on distinct inputs is the hash function's cryptographic
/// guarantee, not a provable fact.
pub proof fn lemma_enc_params_inj(p1: MultisigOpParams, p2: MultisigOpParams)
    requires
        p1.wf(),
        p2.wf(),
        enc_params(p1) == enc_params(p2),
    ensures
        enc_params_fields_eq(p1, p2),
{
    let e1 = enc_params(p1);
    let e2 = enc_params(p2);
    match (p1, p2) {
        (
            MultisigOpParams::UpdateWallet { wallet_address: a1, update: v1 },
            MultisigOpParams::UpdateWallet { wallet_address: a2, update: v2 },
        ) => {
            assert(a1@ =~= e1.subrange(1, 33));
            assert(a2@ =~= e2.subrange(1, 33));
            assert(a1 =~= a2);
            assert(e1.len() == 33 + enc_wallet_update(v1).len());
            assert(e2.len() == 33 + enc_wallet_update(v2).len());
            assert(enc_wallet_update(v1) =~= enc_wallet_update(v2)) by {
                assert forall|j: int| 0 <= j < enc_wallet_update(v1).len() implies enc_wallet_update(
                    v1,
                )[j] == enc_wallet_update(v2)[j] by {
                    assert(e1[33 + j] == enc_wallet_update(v1)[j]);
                    assert(e2[33 + j] == enc_wallet_update(v2)[j]);
                }
            }
            lemma_enc_wallet_update_inj(v1, v2);
        },
        (
            MultisigOpParams::UpdateWalletConfigPolicy { wallet_address: a1, update: v1 },
            MultisigOpParams::UpdateWalletConfigPolicy { wallet_address: a2, update: v2 },
        ) => {
            assert(a1@ =~= e1.subrange(1, 33));
            assert(a2@ =~= e2.subrange(1, 33));
            assert(a1 =~= a2);
            assert(e1.len() == 33 + enc_config_policy_update(v1).len());
            assert(e2.len() == 33 + enc_config_policy_update(v2).len());
            assert(enc_config_policy_update(v1) =~= enc_config_policy_update(v2)) by {
                assert forall|j: int|
                    0 <= j < enc_config_policy_update(v1).len() implies enc_config_policy_update(
                    v1,
                )[j] == enc_config_policy_update(v2)[j] by {
                    assert(e1[33 + j] == enc_config_policy_update(v1)[j]);
                    assert(e2[33 + j] == enc_config_policy_update(v2)[j]);
                }
            }
            lemma_enc_config_policy_update_inj(v1, v2);
        },
        (
            MultisigOpParams::CreateBalanceAccount {
                wallet_address: a1,
                account_guid_hash: g1,
                creation_params: v1,
            },
            MultisigOpParams::CreateBalanceAccount {
                wallet_address: a2,
                account_guid_hash: g2,
                creation_params: v2,
            },
        ) => {
            assert(a1@ =~= e1.subrange(1, 33));
            assert(a2@ =~= e2.subrange(1, 33));
            assert(a1 =~= a2);
            assert(g1.bytes@ =~= e1.subrange(33, 65));
            assert(g2.bytes@ =~= e2.subrange(33, 65));
            assert(g1.bytes =~= g2.bytes);
            assert(e1.len() == 65 + enc_balance_account_update(v1).len());
            assert(e2.len() == 65 + enc_balance_account_update(v2).len());
            assert(enc_balance_account_update(v1) =~= enc_balance_account_update(v2)) by {
                assert forall|j: int|
                    0 <= j < enc_balance_account_update(v1).len() implies enc_balance_account_update(
                    v1,
                )[j] == enc_balance_account_update(v2)[j] by {
                    assert(e1[65 + j] == enc_balance_account_update(v1)[j]);
                    assert(e2[65 + j] == enc_balance_account_update(v2)[j]);
                }
            }
            lemma_enc_balance_account_update_inj(v1, v2);
        },
        (
            MultisigOpParams::UpdateBalanceAccount {
                wallet_address: a1,
                account_guid_hash: g1,
                update: v1,
            },
            MultisigOpParams::UpdateBalanceAccount {
                wallet_address: a2,
                account_guid_hash: g2,
                update: v2,
            },
        ) => {
            assert(a1@ =~= e1.subrange(1, 33));
            assert(a2@ =~= e2.subrange(1, 33));
            assert(a1 =~= a2);
            assert(g1.bytes@ =~= e1.subrange(33, 65));
            assert(g2.bytes@ =~= e2.subrange(33, 65));
            assert(g1.bytes =~= g2.bytes);
            assert(e1.len() == 65 + enc_balance_account_update(v1).len());
            assert(e2.len() == 65 + enc_balance_account_update(v2).len());
            assert(enc_balance_account_update(v1) =~= enc_balance_account_update(v2)) by {
                assert forall|j: int|
                    0 <= j < enc_balance_account_update(v1).len() implies enc_balance_account_update(
                    v1,
                )[j] == enc_balance_account_update(v2)[j] by {
                    assert(e1[65 + j] == enc_balance_account_update(v1)[j]);
                    assert(e2[65 + j] == enc_balance_account_update(v2)[j]);
                }
            }
            lemma_enc_balance_account_update_inj(v1, v2);
        },
        _ => {
            assert(e1[0] == e2[0]);
        },
    }
}

/// Field-by-field agreement of two parameter sets of the same kind: what the
/// canonical encoding pins down.
pub open spec fn enc_params_fields_eq(p1: MultisigOpParams, p2: MultisigOpParams) -> bool {
    match (p1, p2) {
        (
            MultisigOpParams::UpdateWallet { wallet_address: a1, update: v1 },
            MultisigOpParams::UpdateWallet { wallet_address: a2, update: v2 },
        ) => {
            &&& a1 == a2
            &&& v1.approvals_required_for_config == v2.approvals_required_for_config
            &&& v1.approval_timeout_for_config == v2.approval_timeout_for_config
            &&& v1.add_signers@ == v2.add_signers@
            &&& v1.remove_signers@ == v2.remove_signers@
            &&& v1.add_config_approvers@ == v2.add_config_approvers@
            &&& v1.remove_config_approvers@ == v2.remove_config_approvers@
            &&& v1.add_address_book_entries@ == v2.add_address_book_entries@
            &&& v1.remove_address_book_entries@ == v2.remove_address_book_entries@
        },
        (
            MultisigOpParams::UpdateWalletConfigPolicy { wallet_address: a1, update: v1 },
            MultisigOpParams::UpdateWalletConfigPolicy { wallet_address: a2, update: v2 },
        ) => {
            &&& a1 == a2
            &&& v1.approvals_required_for_config == v2.approvals_required_for_config
            &&& v1.approval_timeout_for_config == v2.approval_timeout_for_config
            &&& v1.add_config_approvers@ == v2.add_config_approvers@
            &&& v1.remove_config_approvers@ == v2.remove_config_approvers@
        },
        (
            MultisigOpParams::CreateBalanceAccount {
                wallet_address: a1,
                account_guid_hash: g1,
                creation_params: v1,
            },
            MultisigOpParams::CreateBalanceAccount {
                wallet_address: a2,
                account_guid_hash: g2,
                creation_params: v2,
            },
        ) => {
            &&& a1 == a2
            &&& g1 == g2
            &&& balance_account_update_fields_eq(v1, v2)
        },
        (
            MultisigOpParams::UpdateBalanceAccount {
                wallet_address: a1,
                account_guid_hash: g1,
                update: v1,
            },
            MultisigOpParams::UpdateBalanceAccount {
                wallet_address: a2,
                account_guid_hash: g2,
                update: v2,
            },
        ) => {
            &&& a1 == a2
            &&& g1 == g2
            &&& balance_account_update_fields_eq(v1, v2)
        },
        _ => false,
    }
}

/// Field-by-field agreement of two balance-account updates.
pub open spec fn balance_account_update_fields_eq(
    v1: BalanceAccountUpdate,
    v2: BalanceAccountUpdate,
) -> bool {
    &&& v1.name_hash == v2.name_hash
    &&& v1.approvals_required_for_transfer == v2.approvals_required_for_transfer
    &&& v1.approval_timeout_for_transfer == v2.approval_timeout_for_transfer
    &&& v1.add_transfer_approvers@ == v2.add_transfer_approvers@
    &&& v1.remove_transfer_approvers@ == v2.remove_transfer_approvers@
    &&& v1.add_allowed_destinations@ == v2.add_allowed_destinations@
    &&& v1.remove_allowed_destinations@ == v2.remove_allowed_destinations@
}

} // verus!
