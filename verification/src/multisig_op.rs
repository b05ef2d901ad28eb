use vstd::prelude::*;

use crate::balance_account::BalanceAccount;
use crate::bytes32::bytes32_eq;
use crate::error::WalletError;
use crate::signer::Signer;
use crate::wallet::present_enabled;
use crate::wallet::timeout_in_range;
use crate::wallet::Wallet;

verus! {

/// One approver's vote on a pending proposal: none yet, approve, or deny.
#[derive(Clone, Copy, Debug, PartialEq, Eq, Structural)]
pub enum ApprovalDisposition {
    NoneYet,
    Approve,
    Deny,
}

impl ApprovalDisposition {
    /// The byte this disposition is stored as.
    pub open spec fn as_u8(self) -> u8 {
        match self {
            ApprovalDisposition::NoneYet => 0,
            ApprovalDisposition::Approve => 1,
            ApprovalDisposition::Deny => 2,
        }
    }

    pub fn to_u8(&self) -> (r: u8)
        ensures
            r == self.as_u8(),
    {
        match self {
            ApprovalDisposition::NoneYet => 0,
            ApprovalDisposition::Approve => 1,
            ApprovalDisposition::Deny => 2,
        }
    }

    /// Decodes a stored disposition byte; bytes above two are malformed.
    pub fn from_u8(value: u8) -> (r: Result<Self, WalletError>)
        ensures
            (match r {
                Ok(d) => value == d.as_u8(),
                Err(e) => value > 2 && e == WalletError::MalformedRecord,
            }),
    {
        match value {
            0 => Ok(ApprovalDisposition::NoneYet),
            1 => Ok(ApprovalDisposition::Approve),
            2 => Ok(ApprovalDisposition::Deny),
            _ => Err(WalletError::MalformedRecord),
        }
    }
}

/// The aggregate outcome recorded on a pending operation: none yet,
/// approved, or denied.
#[derive(Clone, Copy, Debug, PartialEq, Eq, Structural)]
pub enum OperationDisposition {
    NoneYet,
    Approved,
    Denied,
}

impl OperationDisposition {
    /// The byte this disposition is stored as.
    pub open spec fn as_u8(self) -> u8 {
        match self {
            OperationDisposition::NoneYet => 0,
            OperationDisposition::Approved => 1,
            OperationDisposition::Denied => 2,
        }
    }

    pub fn to_u8(&self) -> (r: u8)
        ensures
            r == self.as_u8(),
    {
        match self {
            OperationDisposition::NoneYet => 0,
            OperationDisposition::Approved => 1,
            OperationDisposition::Denied => 2,
        }
    }

    /// Decodes a stored disposition byte; bytes above two are malformed.
    pub fn from_u8(value: u8) -> (r: Result<Self, WalletError>)
        ensures
            (match r {
                Ok(d) => value == d.as_u8(),
                Err(e) => value > 2 && e == WalletError::MalformedRecord,
            }),
    {
        match value {
            0 => Ok(OperationDisposition::NoneYet),
            1 => Ok(OperationDisposition::Approved),
            2 => Ok(OperationDisposition::Denied),
            _ => Err(WalletError::MalformedRecord),
        }
    }
}

/// One snapshotted approver together with the disposition it has submitted.
#[derive(Clone, Copy, Debug)]
pub struct ApprovalDispositionRecord {
    pub approver: Signer,
    pub disposition: ApprovalDisposition,
}

/// How many records carry the given disposition.
pub open spec fn count_disposition(
    records: Seq<ApprovalDispositionRecord>,
    d: ApprovalDisposition,
) -> nat
    decreases records.len(),
{
    if records.len() == 0 {
        0
    } else {
        count_disposition(records.drop_last(), d) + (if records.last().disposition == d {
            1nat
        } else {
            0nat
        })
    }
}

/// No two dispositions can be counted out of the same record: the approve
/// and deny counts together never exceed the record count.
pub proof fn lemma_count_disposition_sum(records: Seq<ApprovalDispositionRecord>)
    ensures
        count_disposition(records, ApprovalDisposition::Approve) + count_disposition(
            records,
            ApprovalDisposition::Deny,
        ) <= records.len(),
    decreases records.len(),
{
    if records.len() > 0 {
        lemma_count_disposition_sum(records.drop_last());
    }
}

/// The aggregate outcome a set of records yields: approved once the approve
/// count reaches quorum; denied once the remaining non-deny approvers could
/// no longer reach quorum; otherwise still none.
pub open spec fn spec_aggregate(records: Seq<ApprovalDispositionRecord>, required: u8) -> OperationDisposition {
    if count_disposition(records, ApprovalDisposition::Approve) >= required {
        OperationDisposition::Approved
    } else if records.len() - count_disposition(records, ApprovalDisposition::Deny) < required {
        OperationDisposition::Denied
    } else {
        OperationDisposition::NoneYet
    }
}

/// The aggregate outcome after one submission: recomputed while the
/// operation is still undecided, and sticky once decided.
pub open spec fn spec_next_disposition(
    cur: OperationDisposition,
    records: Seq<ApprovalDispositionRecord>,
    required: u8,
) -> OperationDisposition {
    if cur == OperationDisposition::NoneYet {
        spec_aggregate(records, required)
    } else {
        cur
    }
}

/// Quorum monotonicity: the aggregate disposition only moves from none to
/// approved or from none to denied, and never reverses. While undecided, it
/// becomes approved exactly when the approve count reaches the quorum, and
/// denied exactly when the records not voting deny could no longer reach it.
pub proof fn lemma_quorum_monotonic(
    cur: OperationDisposition,
    records: Seq<ApprovalDispositionRecord>,
    required: u8,
)
    ensures
        cur != OperationDisposition::NoneYet ==> spec_next_disposition(cur, records, required)
            == cur,
        cur == OperationDisposition::NoneYet ==> (spec_next_disposition(cur, records, required)
            == OperationDisposition::Approved <==> count_disposition(
            records,
            ApprovalDisposition::Approve,
        ) >= required),
        cur == OperationDisposition::NoneYet ==> (spec_next_disposition(cur, records, required)
            == OperationDisposition::Denied <==> records.len() - count_disposition(
            records,
            ApprovalDisposition::Deny,
        ) < required),
{
    lemma_count_disposition_sum(records);
}

/// The index of the first record snapshotted for the given approver.
pub open spec fn record_index_of(
    records: Seq<ApprovalDispositionRecord>,
    approver: Signer,
) -> Option<int> {
    records.map_values(|r: ApprovalDispositionRecord| r.approver).index_of_first(approver)
}

/// The records after one submission: the approver's first record carries the
/// new disposition, every other record is untouched.
pub open spec fn spec_record_disposition(
    records: Seq<ApprovalDispositionRecord>,
    approver: Signer,
    d: ApprovalDisposition,
) -> Seq<ApprovalDispositionRecord> {
    match record_index_of(records, approver) {
        Some(i) => records.update(i, ApprovalDispositionRecord { approver, disposition: d }),
        None => records,
    }
}

/// Mathematical model of a pending multisig operation.
#[verifier::ext_equal]
pub struct MultisigOpV {
    pub is_initialized: bool,
    pub disposition_records: Seq<ApprovalDispositionRecord>,
    pub dispositions_required: u8,
    pub operation_disposition: OperationDisposition,
    pub params_hash: [u8; 32],
    pub started_at: i64,
    pub expires: i64,
}

/// A pending mutation's record: the snapshotted approvers with their
/// dispositions, the quorum size, the aggregate outcome, the hash anchoring
/// the proposed parameters, and the start and expiry timestamps. Created by
/// a propose call, mutated only by disposition submissions, consumed exactly
/// once by a finalize call.
pub struct MultisigOp {
    pub is_initialized: bool,
    pub disposition_records: Vec<ApprovalDispositionRecord>,
    pub dispositions_required: u8,
    pub operation_disposition: OperationDisposition,
    pub params_hash: [u8; 32],
    pub started_at: i64,
    pub expires: i64,
}

impl View for MultisigOp {
    type V = MultisigOpV;

    open spec fn view(&self) -> MultisigOpV {
        MultisigOpV {
            is_initialized: self.is_initialized,
            disposition_records: self.disposition_records@,
            dispositions_required: self.dispositions_required,
            operation_disposition: self.operation_disposition,
            params_hash: self.params_hash,
            started_at: self.started_at,
            expires: self.expires,
        }
    }
}

/// The model of a freshly proposed operation: every given approver
/// snapshotted with no disposition yet, the quorum and hash captured, and
/// the expiry stamped.
pub open spec fn spec_proposed(
    approvers: Seq<Signer>,
    dispositions_required: u8,
    started_at: i64,
    expires: i64,
    params_hash: [u8; 32],
) -> MultisigOpV {
    MultisigOpV {
        is_initialized: true,
        disposition_records: approvers.map_values(
            |a: Signer| ApprovalDispositionRecord {
                approver: a,
                disposition: ApprovalDisposition::NoneYet,
            },
        ),
        dispositions_required,
        operation_disposition: OperationDisposition::NoneYet,
        params_hash,
        started_at,
        expires,
    }
}

/// What a finalize call decides, before any mutation: the supplied
/// parameters must hash to the anchored value; an operation past its expiry
/// while still undecided is surfaced as expired; otherwise the caller learns
/// whether the operation is approved and still within its window — only then
/// may the mutation be applied. Any non-erroneous outcome permits closing
/// the record.
pub open spec fn spec_approved(op: MultisigOpV, expected_params_hash: [u8; 32], clock: i64) -> Result<
    bool,
    WalletError,
> {
    if op.params_hash != expected_params_hash {
        Err(WalletError::ParamsHashMismatch)
    } else if clock > op.expires && op.operation_disposition == OperationDisposition::NoneYet {
        Err(WalletError::Expired)
    } else {
        Ok(op.operation_disposition == OperationDisposition::Approved && clock <= op.expires)
    }
}

impl MultisigOp {
    pub open spec fn wf(&self) -> bool {
        self.disposition_records@.len() <= 24
    }

    /// Proposes an operation: snapshots the given approvers with no
    /// disposition, captures the quorum size and parameter hash, and stamps
    /// the start and expiry times.
    pub fn propose(
        approvers: Vec<Signer>,
        dispositions_required: u8,
        started_at: i64,
        expires: i64,
        params_hash: [u8; 32],
    ) -> (r: MultisigOp)
        requires
            approvers@.len() <= 24,
        ensures
            r.wf(),
            r@ == spec_proposed(approvers@, dispositions_required, started_at, expires, params_hash),
    {
        let mut records: Vec<ApprovalDispositionRecord> = Vec::new();
        let mut k: usize = 0;
        while k < approvers.len()
            invariant
                k <= approvers@.len(),
                records@.len() == k,
                forall|j: int|
                    0 <= j < k ==> (#[trigger] records@[j]) == (ApprovalDispositionRecord {
                        approver: approvers@[j],
                        disposition: ApprovalDisposition::NoneYet,
                    }),
            decreases approvers@.len() - k,
        {
            records.push(
                ApprovalDispositionRecord {
                    approver: approvers[k],
                    disposition: ApprovalDisposition::NoneYet,
                },
            );
            k += 1;
        }
        let r = MultisigOp {
            is_initialized: true,
            disposition_records: records,
            dispositions_required,
            operation_disposition: OperationDisposition::NoneYet,
            params_hash,
            started_at,
            expires,
        };
        proof {
            assert(r@.disposition_records =~= spec_proposed(
                approvers@,
                dispositions_required,
                started_at,
                expires,
                params_hash,
            ).disposition_records);
            assert(r@ =~= spec_proposed(
                approvers@,
                dispositions_required,
                started_at,
                expires,
                params_hash,
            ));
        }
        r
    }

    /// Proposes a config-scoped operation for a wallet: the quorum and the
    /// approver snapshot come from the wallet's config-approval policy, and
    /// the expiry is the start time plus the configured timeout.
    pub fn propose_config_op(wallet: &Wallet, clock: i64, params_hash: [u8; 32]) -> (r: MultisigOp)
        requires
            wallet.wf(),
            timeout_in_range(wallet@.approval_timeout_for_config),
            clock + wallet@.approval_timeout_for_config <= i64::MAX,
        ensures
            r.wf(),
            r@ == spec_proposed(
                present_enabled(wallet@.signers, wallet@.config_approvers),
                wallet@.approvals_required_for_config,
                clock,
                (clock + wallet@.approval_timeout_for_config) as i64,
                params_hash,
            ),
    {
        let approvers = wallet.get_config_approvers_keys();
        proof {
            lemma_present_enabled_len(wallet@.signers, wallet@.config_approvers);
        }
        let expires = clock + (wallet.approval_timeout_for_config as i64);
        Self::propose(
            approvers,
            wallet.approvals_required_for_config,
            clock,
            expires,
            params_hash,
        )
    }

    /// Proposes a transfer-scoped operation for one balance account: the
    /// quorum and the approver snapshot come from that account's
    /// transfer-approval policy.
    pub fn propose_transfer_op(
        wallet: &Wallet,
        balance_account: &BalanceAccount,
        clock: i64,
        params_hash: [u8; 32],
    ) -> (r: MultisigOp)
        requires
            wallet.wf(),
            balance_account.wf(),
            timeout_in_range(balance_account@.approval_timeout_for_transfer),
            clock + balance_account@.approval_timeout_for_transfer <= i64::MAX,
        ensures
            r.wf(),
            r@ == spec_proposed(
                present_enabled(wallet@.signers, balance_account@.transfer_approvers),
                balance_account@.approvals_required_for_transfer,
                clock,
                (clock + balance_account@.approval_timeout_for_transfer) as i64,
                params_hash,
            ),
    {
        let approvers = wallet.get_transfer_approvers_keys(balance_account);
        proof {
            lemma_present_enabled_len(wallet@.signers, balance_account@.transfer_approvers);
        }
        let expires = clock + (balance_account.approval_timeout_for_transfer as i64);
        Self::propose(
            approvers,
            balance_account.approvals_required_for_transfer,
            clock,
            expires,
            params_hash,
        )
    }

    /// Records one approver's disposition. The submission must carry the
    /// parameter hash captured at propose time, and the submitter must be
    /// one of the snapshotted approvers; its first record then carries the
    /// new disposition, and while the operation is still undecided the
    /// aggregate outcome is recomputed — once decided it never changes.
    pub fn approve(
        &mut self,
        approver: Signer,
        disposition: ApprovalDisposition,
        expected_params_hash: &[u8; 32],
    ) -> (r: Result<(), WalletError>)
        requires
            disposition != ApprovalDisposition::NoneYet,
        ensures
            (match r {
                Ok(()) => {
                    &&& old(self).params_hash == *expected_params_hash
                    &&& record_index_of(old(self)@.disposition_records, approver) is Some
                    &&& final(self)@ == (MultisigOpV {
                        disposition_records: spec_record_disposition(
                            old(self)@.disposition_records,
                            approver,
                            disposition,
                        ),
                        operation_disposition: spec_next_disposition(
                            old(self)@.operation_disposition,
                            spec_record_disposition(
                                old(self)@.disposition_records,
                                approver,
                                disposition,
                            ),
                            old(self)@.dispositions_required,
                        ),
                        ..old(self)@
                    })
                },
                Err(e) => {
                    &&& final(self)@ == old(self)@
                    &&& (if old(self).params_hash != *expected_params_hash {
                        e == WalletError::ParamsHashMismatch
                    } else {
                        record_index_of(old(self)@.disposition_records, approver) is None
                            && e == WalletError::UnauthorizedInitiator
                    })
                },
            }),
    {
        if !bytes32_eq(&self.params_hash, expected_params_hash) {
            return Err(WalletError::ParamsHashMismatch);
        }
        let ghost approver_keys = self@.disposition_records.map_values(
            |rec: ApprovalDispositionRecord| rec.approver,
        );
        let mut i: usize = 0;
        let mut found: bool = false;
        let mut idx: usize = 0;
        while i < self.disposition_records.len()
            invariant
                !found ==> forall|j: int|
                    0 <= j < i ==> (#[trigger] self@.disposition_records[j]).approver != approver,
                found ==> idx < i && i <= self@.disposition_records.len()
                    && self@.disposition_records[idx as int].approver == approver && forall|j: int|
                    0 <= j < idx ==> (#[trigger] self@.disposition_records[j]).approver != approver,
                i <= self@.disposition_records.len(),
            decreases self@.disposition_records.len() - i,
        {
            if !found && self.disposition_records[i].approver.key_eq(&approver) {
                found = true;
                idx = i;
            }
            i += 1;
        }
        proof {
            assert(forall|j: int|
                0 <= j < approver_keys.len() ==> approver_keys[j] == (#[trigger] self@.disposition_records[j]).approver);
        }
        if !found {
            proof {
                assert(record_index_of(self@.disposition_records, approver) is None) by {
                    approver_keys.index_of_first_ensures(approver);
                    if approver_keys.contains(approver) {
                        let w = choose|w: int|
                            0 <= w < approver_keys.len() && approver_keys[w] == approver;
                        assert(self@.disposition_records[w].approver == approver);
                    }
                }
            }
            return Err(WalletError::UnauthorizedInitiator);
        }
        proof {
            assert(approver_keys[idx as int] == approver);
            assert(approver_keys.contains(approver));
            assert(record_index_of(self@.disposition_records, approver) == Some(idx as int)) by {
                approver_keys.index_of_first_ensures(approver);
                match approver_keys.index_of_first(approver) {
                    Some(w) => {
                        if w < idx {
                            assert(self@.disposition_records[w].approver != approver);
                        }
                        if w > idx {
                            assert(approver_keys[idx as int] != approver);
                        }
                    },
                    None => {},
                }
            }
        }
        self.disposition_records[idx] = ApprovalDispositionRecord { approver, disposition };
        if self.operation_disposition.to_u8() == 0 {
            let next = self.compute_aggregate();
            self.operation_disposition = next;
        }
        proof {
            assert(self@ =~= (MultisigOpV {
                disposition_records: spec_record_disposition(
                    old(self)@.disposition_records,
                    approver,
                    disposition,
                ),
                operation_disposition: spec_next_disposition(
                    old(self)@.operation_disposition,
                    spec_record_disposition(old(self)@.disposition_records, approver, disposition),
                    old(self)@.dispositions_required,
                ),
                ..old(self)@
            }));
        }
        Ok(())
    }

    /// The aggregate outcome the current records yield.
    fn compute_aggregate(&self) -> (r: OperationDisposition)
        ensures
            r == spec_aggregate(self@.disposition_records, self@.dispositions_required),
    {
        let mut approvals: usize = 0;
        let mut denials: usize = 0;
        let mut k: usize = 0;
        while k < self.disposition_records.len()
            invariant
                k <= self@.disposition_records.len(),
                approvals == count_disposition(
                    self@.disposition_records.take(k as int),
                    ApprovalDisposition::Approve,
                ),
                denials == count_disposition(
                    self@.disposition_records.take(k as int),
                    ApprovalDisposition::Deny,
                ),
                approvals <= k,
                denials <= k,
            decreases self@.disposition_records.len() - k,
        {
            proof {
                assert(self@.disposition_records.take(k + 1).drop_last()
                    =~= self@.disposition_records.take(k as int));
                assert(self@.disposition_records.take(k + 1).last()
                    == self@.disposition_records[k as int]);
            }
            match self.disposition_records[k].disposition {
                ApprovalDisposition::Approve => {
                    approvals += 1;
                },
                ApprovalDisposition::Deny => {
                    denials += 1;
                },
                ApprovalDisposition::NoneYet => {},
            }
            k += 1;
        }
        proof {
            assert(self@.disposition_records.take(self@.disposition_records.len() as int)
                =~= self@.disposition_records);
        }
        let required = self.dispositions_required as usize;
        if approvals >= required {
            OperationDisposition::Approved
        } else if self.disposition_records.len() - denials < required {
            OperationDisposition::Denied
        } else {
            OperationDisposition::NoneYet
        }
    }

    /// Decides a finalize call: checks the supplied hash against the anchor,
    /// surfaces an expired, still-undecided operation, and otherwise says
    /// whether the operation is approved and within its window. Closing the
    /// record is permitted on any `Ok` outcome; only `Ok(true)` may apply
    /// the proposed mutation.
    pub fn approved(&self, expected_params_hash: &[u8; 32], clock: i64) -> (r: Result<
        bool,
        WalletError,
    >)
        ensures
            r == spec_approved(self@, *expected_params_hash, clock),
    {
        if !bytes32_eq(&self.params_hash, expected_params_hash) {
            return Err(WalletError::ParamsHashMismatch);
        }
        if clock > self.expires && self.operation_disposition.to_u8() == 0 {
            return Err(WalletError::Expired);
        }
        Ok(self.operation_disposition.to_u8() == 1 && clock <= self.expires)
    }
}

/// The approver snapshot never outgrows the flag set it is drawn from.
pub proof fn lemma_present_enabled_len<T>(slots: Seq<Option<T>>, flags: Seq<bool>)
    ensures
        present_enabled(slots, flags).len() <= flags.len(),
    decreases flags.len(),
{
    if flags.len() > 0 {
        lemma_present_enabled_len(slots, flags.drop_last());
    }
}

} // verus!
