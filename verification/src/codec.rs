use vstd::bytes::spec_u64_from_le_bytes;
use vstd::bytes::spec_u64_to_le_bytes;
use vstd::bytes::u64_from_le_bytes;
use vstd::bytes::u64_to_le_bytes;
use vstd::prelude::*;

use crate::address_book::AddressBookEntry;
use crate::address_book::AddressBookEntryNameHash;
use crate::balance_account::BalanceAccount;
use crate::balance_account::BalanceAccountGuidHash;
use crate::balance_account::BalanceAccountNameHash;
use crate::balance_account::BalanceAccountV;
use crate::balance_account::BooleanSetting;
use crate::error::WalletError;
use crate::flags::SlotFlags;
use crate::multisig_op::ApprovalDisposition;
use crate::multisig_op::ApprovalDispositionRecord;
use crate::multisig_op::MultisigOp;
use crate::multisig_op::MultisigOpV;
use crate::multisig_op::OperationDisposition;
use crate::signer::Signer;
use crate::wallet::Wallet;
use crate::wallet::WalletV;
use crate::slots::Slots;
use crate::slots::SlotValue;

verus! {

/// `n` zero bytes.
pub open spec fn zeros(n: nat) -> Seq<u8> {
    Seq::new(n, |i: int| 0u8)
}

/// A stored boolean: one byte, zero or one.
pub open spec fn enc_bool(b: bool) -> Seq<u8> {
    seq![if b {
        1u8
    } else {
        0u8
    }]
}

/// A signed 64-bit timestamp, stored as its two's-complement little-endian
/// bytes.
pub open spec fn enc_i64(x: i64) -> Seq<u8> {
    spec_u64_to_le_bytes(x as u64)
}

/// The bit a flag contributes to its packed byte.
pub open spec fn bitval(b: bool) -> u8 {
    if b {
        1
    } else {
        0
    }
}

/// Eight flags packed into one byte, lowest slot in the lowest bit.
pub open spec fn flags_byte(flags: Seq<bool>, base: int) -> u8 {
    (bitval(flags[base]) + 2 * bitval(flags[base + 1]) + 4 * bitval(flags[base + 2]) + 8 * bitval(
        flags[base + 3],
    ) + 16 * bitval(flags[base + 4]) + 32 * bitval(flags[base + 5]) + 64 * bitval(flags[base + 6])
        + 128 * bitval(flags[base + 7])) as u8
}

/// A flag set packed into bytes, eight flags per byte.
pub open spec fn enc_flags(flags: Seq<bool>) -> Seq<u8>
    decreases flags.len(),
{
    if flags.len() < 8 {
        Seq::empty()
    } else {
        enc_flags(flags.take(flags.len() - 8)) + seq![flags_byte(flags, flags.len() - 8)]
    }
}

pub proof fn lemma_enc_flags_len(flags: Seq<bool>)
    requires
        flags.len() % 8 == 0,
    ensures
        enc_flags(flags).len() == flags.len() / 8,
    decreases flags.len(),
{
    if flags.len() >= 8 {
        lemma_enc_flags_len(flags.take(flags.len() - 8));
    }
}

/// Casting a signed 64-bit value through its unsigned bit pattern and back
/// is the identity, and conversely.
pub proof fn lemma_i64_u64_cast(x: i64, u: u64)
    ensures
        ((x as u64) as i64) == x,
        ((u as i64) as u64) == u,
{
    assert(((x as u64) as i64) == x) by (bit_vector);
    assert(((u as i64) as u64) == u) by (bit_vector);
}

/// Appends one 32-byte value.
pub fn push_bytes32(out: &mut Vec<u8>, b: &[u8; 32])
    ensures
        final(out)@ == old(out)@ + b@,
{
    let ghost orig = out@;
    let mut i: usize = 0;
    while i < 32
        invariant
            i <= 32,
            out@ == orig + b@.take(i as int),
        decreases 32 - i,
    {
        out.push(b[i]);
        proof {
            assert(orig + b@.take(i + 1) =~= (orig + b@.take(i as int)).push(b@[i as int]));
        }
        i += 1;
    }
    proof {
        assert(b@.take(32) =~= b@);
    }
}

/// Appends `n` zero bytes.
pub fn push_zeros(out: &mut Vec<u8>, n: usize)
    ensures
        final(out)@ == old(out)@ + zeros(n as nat),
{
    let ghost orig = out@;
    let mut i: usize = 0;
    while i < n
        invariant
            i <= n,
            out@ == orig + zeros(i as nat),
        decreases n - i,
    {
        out.push(0);
        proof {
            assert(orig + zeros((i + 1) as nat) =~= (orig + zeros(i as nat)).push(0u8));
        }
        i += 1;
    }
}

/// Appends one stored boolean.
pub fn push_bool(out: &mut Vec<u8>, b: bool)
    ensures
        final(out)@ == old(out)@ + enc_bool(b),
{
    out.push(if b {
        1
    } else {
        0
    });
    proof {
        assert(final(out)@ =~= old(out)@ + enc_bool(b));
    }
}

/// Appends a 64-bit value in little-endian order.
pub fn push_u64(out: &mut Vec<u8>, x: u64)
    ensures
        final(out)@ == old(out)@ + spec_u64_to_le_bytes(x),
{
    let bytes = u64_to_le_bytes(x);
    let ghost orig = out@;
    let mut i: usize = 0;
    while i < bytes.len()
        invariant
            i <= bytes@.len(),
            bytes@ == spec_u64_to_le_bytes(x),
            out@ == orig + bytes@.take(i as int),
        decreases bytes@.len() - i,
    {
        out.push(bytes[i]);
        proof {
            assert(orig + bytes@.take(i + 1) =~= (orig + bytes@.take(i as int)).push(
                bytes@[i as int],
            ));
        }
        i += 1;
    }
    proof {
        assert(bytes@.take(bytes@.len() as int) =~= bytes@);
    }
}

/// Appends a signed 64-bit timestamp.
pub fn push_i64(out: &mut Vec<u8>, x: i64)
    ensures
        final(out)@ == old(out)@ + enc_i64(x),
{
    push_u64(out, #[verifier::truncate] (x as u64));
}

/// Reads one 32-byte value at `offset`.
pub fn read_bytes32(bytes: &[u8], offset: usize) -> (r: [u8; 32])
    requires
        offset + 32 <= bytes@.len(),
    ensures
        r@ == bytes@.subrange(offset as int, offset + 32),
{
    let blen = bytes.len();
    let mut r = [0u8; 32];
    let mut i: usize = 0;
    while i < 32
        invariant
            i <= 32,
            offset + 32 <= blen,
            blen == bytes@.len(),
            r@.len() == 32,
            forall|j: int| 0 <= j < i ==> r@[j] == bytes@[offset + j],
        decreases 32 - i,
    {
        r[i] = bytes[offset + i];
        i += 1;
    }
    proof {
        assert(r@ =~= bytes@.subrange(offset as int, offset + 32));
    }
    r
}

/// Reads a 64-bit little-endian value at `offset`.
pub fn read_u64(bytes: &[u8], offset: usize) -> (r: u64)
    requires
        offset + 8 <= bytes@.len(),
    ensures
        spec_u64_to_le_bytes(r) == bytes@.subrange(offset as int, offset + 8),
{
    let blen = bytes.len();
    let mut eight: Vec<u8> = Vec::new();
    let mut i: usize = 0;
    while i < 8
        invariant
            i <= 8,
            offset + 8 <= blen,
            blen == bytes@.len(),
            eight@.len() == i,
            forall|j: int| 0 <= j < i ==> eight@[j] == bytes@[offset + j],
        decreases 8 - i,
    {
        eight.push(bytes[offset + i]);
        i += 1;
    }
    proof {
        assert(eight@ =~= bytes@.subrange(offset as int, offset + 8));
        vstd::bytes::lemma_auto_spec_u64_to_from_le_bytes();
    }
    let r = u64_from_le_bytes(eight.as_slice());
    r
}

/// Reads a signed 64-bit timestamp at `offset`.
pub fn read_i64(bytes: &[u8], offset: usize) -> (r: i64)
    requires
        offset + 8 <= bytes@.len(),
    ensures
        enc_i64(r) == bytes@.subrange(offset as int, offset + 8),
{
    let u = read_u64(bytes, offset);
    let r = #[verifier::truncate] (u as i64);
    proof {
        lemma_i64_u64_cast(r, u);
    }
    r
}

/// Whether `n` bytes at `offset` are all zero.
pub fn all_zero(bytes: &[u8], offset: usize, n: usize) -> (r: bool)
    requires
        offset + n <= bytes@.len(),
    ensures
        r == (bytes@.subrange(offset as int, offset + n) == zeros(n as nat)),
{
    let blen = bytes.len();
    let mut i: usize = 0;
    while i < n
        invariant
            i <= n,
            offset + n <= blen,
            blen == bytes@.len(),
            forall|j: int| 0 <= j < i ==> (#[trigger] bytes@[offset + j]) == 0u8,
        decreases n - i,
    {
        if bytes[offset + i] != 0 {
            proof {
                assert(bytes@.subrange(offset as int, offset + n)[i as int] != zeros(n as nat)[i as int]);
            }
            return false;
        }
        i += 1;
    }
    proof {
        assert forall|j: int| 0 <= j < n implies bytes@.subrange(offset as int, offset + n)[j]
            == zeros(n as nat)[j] by {
            assert(bytes@[offset + j] == 0u8);
        }
        assert(bytes@.subrange(offset as int, offset + n) =~= zeros(n as nat));
    }
    true
}

/// Unpacks one flag byte into its eight flags, lowest slot from the lowest
/// bit.
pub fn decode_flags_byte(b: u8) -> (bits: [bool; 8])
    ensures
        b == bitval(bits@[0]) + 2 * bitval(bits@[1]) + 4 * bitval(bits@[2]) + 8 * bitval(bits@[3])
            + 16 * bitval(bits@[4]) + 32 * bitval(bits@[5]) + 64 * bitval(bits@[6]) + 128 * bitval(
            bits@[7],
        ),
{
    let mut bits = [false; 8];
    let mut rem = b;
    if rem >= 128 {
        bits[7] = true;
        rem -= 128;
    }
    if rem >= 64 {
        bits[6] = true;
        rem -= 64;
    }
    if rem >= 32 {
        bits[5] = true;
        rem -= 32;
    }
    if rem >= 16 {
        bits[4] = true;
        rem -= 16;
    }
    if rem >= 8 {
        bits[3] = true;
        rem -= 8;
    }
    if rem >= 4 {
        bits[2] = true;
        rem -= 4;
    }
    if rem >= 2 {
        bits[1] = true;
        rem -= 2;
    }
    if rem >= 1 {
        bits[0] = true;
        rem -= 1;
    }
    bits
}

/// Packed flags decompose uniquely: equal bytes mean equal flags.
pub proof fn lemma_flags_byte_inj(f1: Seq<bool>, f2: Seq<bool>, base1: int, base2: int)
    requires
        flags_byte(f1, base1) == flags_byte(f2, base2),
    ensures
        forall|j: int| 0 <= j < 8 ==> (#[trigger] f1[base1 + j]) == f2[base2 + j],
{
    assert forall|j: int| 0 <= j < 8 implies (#[trigger] f1[base1 + j]) == f2[base2 + j] by {
        assert(bitval(f1[base1]) + 2 * bitval(f1[base1 + 1]) + 4 * bitval(f1[base1 + 2]) + 8
            * bitval(f1[base1 + 3]) + 16 * bitval(f1[base1 + 4]) + 32 * bitval(f1[base1 + 5]) + 64
            * bitval(f1[base1 + 6]) + 128 * bitval(f1[base1 + 7]) == bitval(f2[base2]) + 2 * bitval(
            f2[base2 + 1],
        ) + 4 * bitval(f2[base2 + 2]) + 8 * bitval(f2[base2 + 3]) + 16 * bitval(f2[base2 + 4]) + 32
            * bitval(f2[base2 + 5]) + 64 * bitval(f2[base2 + 6]) + 128 * bitval(f2[base2 + 7]));
    }
}


/// Stored length of the signer slot-store region.
pub const SIGNERS_REGION_LEN: usize = 24 * 33;

/// Stored length of the address-book slot-store region.
pub const ADDRESS_BOOK_REGION_LEN: usize = 128 * 65;

/// One stored signer slot: a presence byte, then the key, zero-filled when
/// the slot is vacant.
pub open spec fn enc_signer_slot(s: Option<Signer>) -> Seq<u8> {
    match s {
        Some(x) => seq![1u8] + x.key@,
        None => seq![0u8] + zeros(32),
    }
}

/// The stored signer slot-store region, slot by slot.
pub open spec fn enc_signer_slots(slots: Seq<Option<Signer>>) -> Seq<u8>
    decreases slots.len(),
{
    if slots.len() == 0 {
        Seq::empty()
    } else {
        enc_signer_slots(slots.drop_last()) + enc_signer_slot(slots.last())
    }
}

pub proof fn lemma_enc_signer_slots_len(slots: Seq<Option<Signer>>)
    ensures
        enc_signer_slots(slots).len() == 33 * slots.len(),
    decreases slots.len(),
{
    if slots.len() > 0 {
        lemma_enc_signer_slots_len(slots.drop_last());
    }
}

/// One stored address-book slot: a presence byte, then the address and name
/// hash, zero-filled when the slot is vacant.
pub open spec fn enc_abe_slot(s: Option<AddressBookEntry>) -> Seq<u8> {
    match s {
        Some(x) => seq![1u8] + x.address@ + x.name_hash.bytes@,
        None => seq![0u8] + zeros(64),
    }
}

/// The stored address-book slot-store region, slot by slot.
pub open spec fn enc_abe_slots(slots: Seq<Option<AddressBookEntry>>) -> Seq<u8>
    decreases slots.len(),
{
    if slots.len() == 0 {
        Seq::empty()
    } else {
        enc_abe_slots(slots.drop_last()) + enc_abe_slot(slots.last())
    }
}

pub proof fn lemma_enc_abe_slots_len(slots: Seq<Option<AddressBookEntry>>)
    ensures
        enc_abe_slots(slots).len() == 65 * slots.len(),
    decreases slots.len(),
{
    if slots.len() > 0 {
        lemma_enc_abe_slots_len(slots.drop_last());
    }
}

/// Appends the signer slot-store region.
pub fn pack_signer_slots(out: &mut Vec<u8>, slots: &Slots<Signer, 24>)
    requires
        slots.wf(),
    ensures
        final(out)@ == old(out)@ + enc_signer_slots(slots@),
{
    let ghost orig = out@;
    let mut i: usize = 0;
    while i < 24
        invariant
            slots.wf(),
            i <= 24,
            out@ == orig + enc_signer_slots(slots@.take(i as int)),
        decreases 24 - i,
    {
        proof {
            assert(slots@.take(i + 1).drop_last() =~= slots@.take(i as int));
            assert(slots@.take(i + 1).last() == slots@[i as int]);
        }
        let ghost pre = out@;
        match slots.get(i) {
            Some(signer) => {
                out.push(1);
                push_bytes32(out, &signer.key);
                proof {
                    assert(out@ =~= pre + enc_signer_slot(slots@[i as int]));
                }
            },
            None => {
                out.push(0);
                push_zeros(out, 32);
                proof {
                    assert(out@ =~= pre + enc_signer_slot(slots@[i as int]));
                }
            },
        }
        proof {
            assert(out@ =~= orig + enc_signer_slots(slots@.take(i + 1)));
        }
        i += 1;
    }
    proof {
        assert(slots@.take(24) =~= slots@);
    }
}

/// Reads back the signer slot-store region; a presence byte above one, or a
/// vacant slot whose payload is not zero-filled, is malformed.
pub fn unpack_signer_slots(bytes: &[u8], offset: usize) -> (r: Result<Slots<Signer, 24>, WalletError>)
    requires
        offset + SIGNERS_REGION_LEN <= bytes@.len(),
    ensures
        (match r {
            Ok(v) => v.wf() && enc_signer_slots(v@) == bytes@.subrange(
                offset as int,
                offset + SIGNERS_REGION_LEN,
            ),
            Err(e) => e == WalletError::MalformedRecord,
        }),
        (exists|s: Seq<Option<Signer>>|
            s.len() == 24 && enc_signer_slots(s) == bytes@.subrange(
                offset as int,
                offset + SIGNERS_REGION_LEN,
            )) ==> r is Ok,
{
    let blen = bytes.len();
    let mut contents: Vec<Option<Signer>> = Vec::new();
    let mut i: usize = 0;
    while i < 24
        invariant
            i <= 24,
            offset + SIGNERS_REGION_LEN <= blen,
            blen == bytes@.len(),
            contents@.len() == i,
            enc_signer_slots(contents@) == bytes@.subrange(offset as int, offset + 33 * i),
        decreases 24 - i,
    {
        proof {
            lemma_enc_signer_slots_len(contents@);
        }
        let base = offset + 33 * i;
        let p = bytes[base];
        let slot: Option<Signer>;
        if p == 1 {
            let key = read_bytes32(bytes, base + 1);
            slot = Some(Signer { key });
        } else if p == 0 {
            if !all_zero(bytes, base + 1, 32) {
                proof {
                    lemma_no_signer_region(bytes@, offset as int, i as int);
                }
                return Err(WalletError::MalformedRecord);
            }
            slot = None;
        } else {
            proof {
                lemma_no_signer_region(bytes@, offset as int, i as int);
            }
            return Err(WalletError::MalformedRecord);
        }
        let ghost pre = contents@;
        contents.push(slot);
        proof {
            assert(contents@.drop_last() =~= pre);
            assert(enc_signer_slot(slot) =~= bytes@.subrange(base as int, base + 33));
            assert(enc_signer_slots(contents@) == enc_signer_slots(pre) + enc_signer_slot(slot));
            assert(bytes@.subrange(offset as int, offset + 33 * i) + bytes@.subrange(
                base as int,
                base + 33,
            ) =~= bytes@.subrange(offset as int, offset + 33 * (i + 1)));
        }
        i += 1;
    }
    Ok(Slots { contents })
}

/// Appends the address-book slot-store region.
pub fn pack_abe_slots(out: &mut Vec<u8>, slots: &Slots<AddressBookEntry, 128>)
    requires
        slots.wf(),
    ensures
        final(out)@ == old(out)@ + enc_abe_slots(slots@),
{
    let ghost orig = out@;
    let mut i: usize = 0;
    while i < 128
        invariant
            slots.wf(),
            i <= 128,
            out@ == orig + enc_abe_slots(slots@.take(i as int)),
        decreases 128 - i,
    {
        proof {
            assert(slots@.take(i + 1).drop_last() =~= slots@.take(i as int));
            assert(slots@.take(i + 1).last() == slots@[i as int]);
        }
        let ghost pre = out@;
        match slots.get(i) {
            Some(entry) => {
                out.push(1);
                push_bytes32(out, &entry.address);
                push_bytes32(out, &entry.name_hash.bytes);
                proof {
                    assert(out@ =~= pre + enc_abe_slot(slots@[i as int]));
                }
            },
            None => {
                out.push(0);
                push_zeros(out, 64);
                proof {
                    assert(out@ =~= pre + enc_abe_slot(slots@[i as int]));
                }
            },
        }
        proof {
            assert(out@ =~= orig + enc_abe_slots(slots@.take(i + 1)));
        }
        i += 1;
    }
    proof {
        assert(slots@.take(128) =~= slots@);
    }
}

/// Reads back the address-book slot-store region; a presence byte above
/// one, or a vacant slot whose payload is not zero-filled, is malformed.
pub fn unpack_abe_slots(bytes: &[u8], offset: usize) -> (r: Result<
    Slots<AddressBookEntry, 128>,
    WalletError,
>)
    requires
        offset + ADDRESS_BOOK_REGION_LEN <= bytes@.len(),
    ensures
        (match r {
            Ok(v) => v.wf() && enc_abe_slots(v@) == bytes@.subrange(
                offset as int,
                offset + ADDRESS_BOOK_REGION_LEN,
            ),
            Err(e) => e == WalletError::MalformedRecord,
        }),
        (exists|s: Seq<Option<AddressBookEntry>>|
            s.len() == 128 && enc_abe_slots(s) == bytes@.subrange(
                offset as int,
                offset + ADDRESS_BOOK_REGION_LEN,
            )) ==> r is Ok,
{
    let blen = bytes.len();
    let mut contents: Vec<Option<AddressBookEntry>> = Vec::new();
    let mut i: usize = 0;
    while i < 128
        invariant
            i <= 128,
            offset + ADDRESS_BOOK_REGION_LEN <= blen,
            blen == bytes@.len(),
            contents@.len() == i,
            enc_abe_slots(contents@) == bytes@.subrange(offset as int, offset + 65 * i),
        decreases 128 - i,
    {
        proof {
            lemma_enc_abe_slots_len(contents@);
        }
        let base = offset + 65 * i;
        let p = bytes[base];
        let slot: Option<AddressBookEntry>;
        if p == 1 {
            let address = read_bytes32(bytes, base + 1);
            let name = read_bytes32(bytes, base + 33);
            slot = Some(
                AddressBookEntry { address, name_hash: AddressBookEntryNameHash { bytes: name } },
            );
        } else if p == 0 {
            if !all_zero(bytes, base + 1, 64) {
                proof {
                    lemma_no_abe_region(bytes@, offset as int, i as int);
                }
                return Err(WalletError::MalformedRecord);
            }
            slot = None;
        } else {
            proof {
                lemma_no_abe_region(bytes@, offset as int, i as int);
            }
            return Err(WalletError::MalformedRecord);
        }
        let ghost pre = contents@;
        contents.push(slot);
        proof {
            assert(contents@.drop_last() =~= pre);
            assert(enc_abe_slot(slot) =~= bytes@.subrange(base as int, base + 65));
            assert(enc_abe_slots(contents@) == enc_abe_slots(pre) + enc_abe_slot(slot));
            assert(bytes@.subrange(offset as int, offset + 65 * i) + bytes@.subrange(
                base as int,
                base + 65,
            ) =~= bytes@.subrange(offset as int, offset + 65 * (i + 1)));
        }
        i += 1;
    }
    Ok(Slots { contents })
}

/// The byte a single flag contributes.
fn bit_u8(b: bool) -> (r: u8)
    ensures
        r == bitval(b),
{
    if b {
        1
    } else {
        0
    }
}

/// Appends a packed flag region, eight flags per byte.
#[verifier::rlimit(100)]
pub fn pack_flags<const N: usize>(out: &mut Vec<u8>, flags: &SlotFlags<N>)
    requires
        flags.wf(),
        N % 8 == 0,
    ensures
        final(out)@ == old(out)@ + enc_flags(flags@),
{
    let ghost orig = out@;
    let n_bytes = N / 8;
    let mut i: usize = 0;
    while i < n_bytes
        invariant
            flags.wf(),
            N % 8 == 0,
            n_bytes == N / 8,
            i <= n_bytes,
            out@ == orig + enc_flags(flags@.take(8 * i)),
        decreases n_bytes - i,
    {
        let b: u8 = bit_u8(flags.is_enabled(8 * i)) + 2 * bit_u8(flags.is_enabled(8 * i + 1)) + 4
            * bit_u8(flags.is_enabled(8 * i + 2)) + 8 * bit_u8(flags.is_enabled(8 * i + 3)) + 16
            * bit_u8(flags.is_enabled(8 * i + 4)) + 32 * bit_u8(flags.is_enabled(8 * i + 5)) + 64
            * bit_u8(flags.is_enabled(8 * i + 6)) + 128 * bit_u8(flags.is_enabled(8 * i + 7));
        proof {
            assert(b == flags_byte(flags@, 8 * i));
        }
        out.push(b);
        proof {
            let taken = flags@.take(8 * i + 8);
            assert(taken.take(taken.len() - 8) =~= flags@.take(8 * i));
            assert(flags_byte(taken, taken.len() - 8) == flags_byte(flags@, 8 * i));
            assert(out@ =~= orig + enc_flags(flags@.take(8 * i + 8)));
        }
        i += 1;
    }
    proof {
        assert(flags@.take(8 * (N / 8)) =~= flags@);
    }
}

/// Splitting a flag sequence eight flags before its end splits its packed
/// bytes one byte before their end.
pub proof fn lemma_enc_flags_snoc(pre: Seq<bool>, full: Seq<bool>)
    requires
        full.len() == pre.len() + 8,
        full.take(pre.len() as int) == pre,
    ensures
        enc_flags(full) == enc_flags(pre) + seq![flags_byte(full, pre.len() as int)],
{
}

/// Appends eight flags.
fn push_bits8(enabled: &mut Vec<bool>, bits: &[bool; 8])
    ensures
        final(enabled)@ == old(enabled)@ + bits@,
{
    let ghost orig = enabled@;
    let mut j: usize = 0;
    while j < 8
        invariant
            j <= 8,
            enabled@ == orig + bits@.take(j as int),
        decreases 8 - j,
    {
        enabled.push(bits[j]);
        proof {
            assert(orig + bits@.take(j + 1) =~= (orig + bits@.take(j as int)).push(bits@[j as int]));
        }
        j += 1;
    }
    proof {
        assert(bits@.take(8) =~= bits@);
    }
}

/// Reads back a packed flag region.
#[verifier::rlimit(100)]
pub fn unpack_flags<const N: usize>(bytes: &[u8], offset: usize) -> (r: SlotFlags<N>)
    requires
        N % 8 == 0,
        offset + N / 8 <= bytes@.len(),
    ensures
        r.wf(),
        enc_flags(r@) == bytes@.subrange(offset as int, offset + N / 8),
{
    let blen = bytes.len();
    let n_bytes = N / 8;
    let mut enabled: Vec<bool> = Vec::new();
    let mut i: usize = 0;
    while i < n_bytes
        invariant
            N % 8 == 0,
            n_bytes == N / 8,
            i <= n_bytes,
            offset + n_bytes <= blen,
            blen == bytes@.len(),
            enabled@.len() == 8 * i,
            enc_flags(enabled@) == bytes@.subrange(offset as int, offset + i),
        decreases n_bytes - i,
    {
        let b = bytes[offset + i];
        let bits = decode_flags_byte(b);
        let ghost pre = enabled@;
        push_bits8(&mut enabled, &bits);
        proof {
            assert(enabled@.take(pre.len() as int) =~= pre);
            lemma_enc_flags_snoc(pre, enabled@);
            assert(flags_byte(enabled@, pre.len() as int) == b) by {
                assert(enabled@[pre.len() as int] == bits@[0]);
                assert(enabled@[pre.len() + 1 as int] == bits@[1]);
                assert(enabled@[pre.len() + 2 as int] == bits@[2]);
                assert(enabled@[pre.len() + 3 as int] == bits@[3]);
                assert(enabled@[pre.len() + 4 as int] == bits@[4]);
                assert(enabled@[pre.len() + 5 as int] == bits@[5]);
                assert(enabled@[pre.len() + 6 as int] == bits@[6]);
                assert(enabled@[pre.len() + 7 as int] == bits@[7]);
            }
            assert(enc_flags(enabled@) =~= bytes@.subrange(offset as int, offset + (i + 1)));
        }
        i += 1;
    }
    proof {
        lemma_enc_flags_len(enabled@);
    }
    SlotFlags { enabled }
}


/// Stored length of one balance-account record.
pub const BALANCE_ACCOUNT_LEN: usize = 94;

/// The packed settings byte: whitelist in the lowest bit, dapps in the next.
pub open spec fn settings_byte(a: BalanceAccountV) -> u8 {
    (a.whitelist_enabled.as_u8() + 2 * a.dapps_enabled.as_u8()) as u8
}

/// One stored balance-account record: GUID hash, name hash, transfer
/// threshold, transfer timeout, transfer-approver flags, allowed-destination
/// flags, packed settings, and the policy lock.
pub open spec fn enc_balance_account(a: BalanceAccountV) -> Seq<u8> {
    a.guid_hash.bytes@ + a.name_hash.bytes@ + seq![a.approvals_required_for_transfer]
        + spec_u64_to_le_bytes(a.approval_timeout_for_transfer) + enc_flags(a.transfer_approvers)
        + enc_flags(a.allowed_destinations) + seq![settings_byte(a)] + enc_bool(
        a.policy_update_locked,
    )
}

pub proof fn lemma_enc_balance_account_len(a: BalanceAccountV)
    requires
        a.wf(),
    ensures
        enc_balance_account(a).len() == BALANCE_ACCOUNT_LEN,
{
    vstd::bytes::lemma_auto_spec_u64_to_from_le_bytes();
    lemma_enc_flags_len(a.transfer_approvers);
    lemma_enc_flags_len(a.allowed_destinations);
}

/// Appends one balance-account record.
#[verifier::rlimit(60)]
pub fn pack_balance_account(out: &mut Vec<u8>, a: &BalanceAccount)
    requires
        a.wf(),
    ensures
        final(out)@ == old(out)@ + enc_balance_account(a@),
{
    push_bytes32(out, &a.guid_hash.bytes);
    push_bytes32(out, &a.name_hash.bytes);
    out.push(a.approvals_required_for_transfer);
    push_u64(out, a.approval_timeout_for_transfer);
    pack_flags(out, &a.transfer_approvers);
    pack_flags(out, &a.allowed_destinations);
    let settings = a.whitelist_enabled.to_u8() + 2 * a.dapps_enabled.to_u8();
    out.push(settings);
    push_bool(out, a.policy_update_locked);
    proof {
        assert(out@ =~= old(out)@ + enc_balance_account(a@));
    }
}

/// Reads back one balance-account record; a settings byte with bits beyond
/// the two toggles, or a lock byte above one, is malformed.
#[verifier::rlimit(60)]
pub fn unpack_balance_account(bytes: &[u8], offset: usize) -> (r: Result<
    BalanceAccount,
    WalletError,
>)
    requires
        offset + BALANCE_ACCOUNT_LEN <= bytes@.len(),
    ensures
        (match r {
            Ok(v) => v.wf() && enc_balance_account(v@) == bytes@.subrange(
                offset as int,
                offset + BALANCE_ACCOUNT_LEN,
            ),
            Err(e) => e == WalletError::MalformedRecord,
        }),
        (exists|a: BalanceAccountV|
            a.wf() && enc_balance_account(a) == bytes@.subrange(
                offset as int,
                offset + BALANCE_ACCOUNT_LEN,
            )) ==> r is Ok,
{
    let blen = bytes.len();
    let guid = read_bytes32(bytes, offset);
    let name = read_bytes32(bytes, offset + 32);
    let required = bytes[offset + 64];
    let timeout = read_u64(bytes, offset + 65);
    let transfer_approvers = unpack_flags::<24>(bytes, offset + 73);
    let allowed_destinations = unpack_flags::<128>(bytes, offset + 76);
    let settings = bytes[offset + 92];
    if settings >= 4 {
        proof {
            lemma_no_account_region(bytes@, offset as int);
        }
        return Err(WalletError::MalformedRecord);
    }
    let whitelist_enabled = BooleanSetting::from_u8(if settings == 1 || settings == 3 {
        1
    } else {
        0
    });
    let dapps_enabled = BooleanSetting::from_u8(if settings >= 2 {
        1
    } else {
        0
    });
    let lock = bytes[offset + 93];
    if lock >= 2 {
        proof {
            lemma_no_account_region(bytes@, offset as int);
        }
        return Err(WalletError::MalformedRecord);
    }
    let v = BalanceAccount {
        guid_hash: BalanceAccountGuidHash { bytes: guid },
        name_hash: BalanceAccountNameHash { bytes: name },
        approvals_required_for_transfer: required,
        approval_timeout_for_transfer: timeout,
        transfer_approvers,
        allowed_destinations,
        whitelist_enabled,
        dapps_enabled,
        policy_update_locked: lock == 1,
    };
    proof {
        assert(settings_byte(v@) == bytes@[offset + 92]);
        assert(enc_bool(v@.policy_update_locked) =~= bytes@.subrange(offset + 93, offset + 94));
        assert(seq![v@.approvals_required_for_transfer] =~= bytes@.subrange(
            offset + 64,
            offset + 65,
        ));
        assert(seq![settings_byte(v@)] =~= bytes@.subrange(offset + 92, offset + 93));
        assert(enc_balance_account(v@) =~= bytes@.subrange(
            offset as int,
            offset + BALANCE_ACCOUNT_LEN,
        ));
    }
    Ok(v)
}

/// Equal packed flag regions mean equal flag sets.
pub proof fn lemma_enc_flags_inj(f1: Seq<bool>, f2: Seq<bool>)
    requires
        f1.len() == f2.len(),
        f1.len() % 8 == 0,
        enc_flags(f1) == enc_flags(f2),
    ensures
        f1 == f2,
    decreases f1.len(),
{
    if f1.len() == 0 {
        assert(f1 =~= f2);
    } else {
        lemma_enc_flags_len(f1);
        lemma_enc_flags_len(f2);
        let p1 = f1.take(f1.len() - 8);
        let p2 = f2.take(f2.len() - 8);
        lemma_enc_flags_len(p1);
        lemma_enc_flags_len(p2);
        assert(enc_flags(f1) == enc_flags(p1) + seq![flags_byte(f1, f1.len() - 8)]);
        assert(enc_flags(f2) == enc_flags(p2) + seq![flags_byte(f2, f2.len() - 8)]);
        assert(enc_flags(p1) =~= enc_flags(p2)) by {
            assert forall|j: int| 0 <= j < enc_flags(p1).len() implies enc_flags(p1)[j]
                == enc_flags(p2)[j] by {
                assert((enc_flags(p1) + seq![flags_byte(f1, f1.len() - 8)])[j] == enc_flags(
                    p1,
                )[j]);
                assert((enc_flags(p2) + seq![flags_byte(f2, f2.len() - 8)])[j] == enc_flags(
                    p2,
                )[j]);
                assert(enc_flags(f1)[j] == enc_flags(f2)[j]);
            }
        }
        lemma_enc_flags_inj(p1, p2);
        assert(flags_byte(f1, f1.len() - 8) == enc_flags(f1).last());
        assert(flags_byte(f2, f2.len() - 8) == enc_flags(f2).last());
        lemma_flags_byte_inj(f1, f2, f1.len() - 8, f2.len() - 8);
        assert forall|j: int| 0 <= j < f1.len() implies f1[j] == f2[j] by {
            if j < f1.len() - 8 {
                assert(p1[j] == p2[j]);
            } else {
                assert(f1[f1.len() - 8 + (j - (f1.len() - 8))] == f2[f2.len() - 8 + (j - (f1.len()
                    - 8))]);
            }
        }
        assert(f1 =~= f2);
    }
}

/// Equal stored balance-account records mean equal accounts: the record
/// layout pins every field.
pub proof fn lemma_enc_balance_account_inj(a1: BalanceAccountV, a2: BalanceAccountV)
    requires
        a1.wf(),
        a2.wf(),
        enc_balance_account(a1) == enc_balance_account(a2),
    ensures
        a1 == a2,
{
    lemma_enc_balance_account_len(a1);
    lemma_enc_balance_account_len(a2);
    vstd::bytes::lemma_auto_spec_u64_to_from_le_bytes();
    lemma_enc_flags_len(a1.transfer_approvers);
    lemma_enc_flags_len(a1.allowed_destinations);
    lemma_enc_flags_len(a2.transfer_approvers);
    lemma_enc_flags_len(a2.allowed_destinations);
    let e1 = enc_balance_account(a1);
    let e2 = enc_balance_account(a2);
    assert(a1.guid_hash.bytes@ =~= e1.subrange(0, 32));
    assert(a2.guid_hash.bytes@ =~= e2.subrange(0, 32));
    assert(a1.guid_hash.bytes =~= a2.guid_hash.bytes);
    assert(a1.name_hash.bytes@ =~= e1.subrange(32, 64));
    assert(a2.name_hash.bytes@ =~= e2.subrange(32, 64));
    assert(a1.name_hash.bytes =~= a2.name_hash.bytes);
    assert(a1.approvals_required_for_transfer == e1[64]);
    assert(a2.approvals_required_for_transfer == e2[64]);
    assert(spec_u64_to_le_bytes(a1.approval_timeout_for_transfer) =~= e1.subrange(65, 73));
    assert(spec_u64_to_le_bytes(a2.approval_timeout_for_transfer) =~= e2.subrange(65, 73));
    assert(a1.approval_timeout_for_transfer == a2.approval_timeout_for_transfer) by {
        assert(spec_u64_from_le_bytes(spec_u64_to_le_bytes(a1.approval_timeout_for_transfer))
            == a1.approval_timeout_for_transfer);
        assert(spec_u64_from_le_bytes(spec_u64_to_le_bytes(a2.approval_timeout_for_transfer))
            == a2.approval_timeout_for_transfer);
    }
    assert(enc_flags(a1.transfer_approvers) =~= e1.subrange(73, 76));
    assert(enc_flags(a2.transfer_approvers) =~= e2.subrange(73, 76));
    lemma_enc_flags_inj(a1.transfer_approvers, a2.transfer_approvers);
    assert(enc_flags(a1.allowed_destinations) =~= e1.subrange(76, 92));
    assert(enc_flags(a2.allowed_destinations) =~= e2.subrange(76, 92));
    lemma_enc_flags_inj(a1.allowed_destinations, a2.allowed_destinations);
    assert(settings_byte(a1) == e1[92]);
    assert(settings_byte(a2) == e2[92]);
    assert(a1.whitelist_enabled == a2.whitelist_enabled && a1.dapps_enabled == a2.dapps_enabled);
    assert(enc_bool(a1.policy_update_locked)[0] == e1[93]);
    assert(enc_bool(a2.policy_update_locked)[0] == e2[93]);
    assert(a1.policy_update_locked == a2.policy_update_locked);
    assert(a1 =~= a2);
}


/// Stored length of a whole wallet record.
pub const WALLET_LEN: usize = 10099;

/// The stored balance-account records, account by account.
pub open spec fn enc_accounts_concat(accounts: Seq<BalanceAccountV>) -> Seq<u8>
    decreases accounts.len(),
{
    if accounts.len() == 0 {
        Seq::empty()
    } else {
        enc_accounts_concat(accounts.drop_last()) + enc_balance_account(accounts.last())
    }
}

pub proof fn lemma_enc_accounts_concat_len(accounts: Seq<BalanceAccountV>)
    requires
        forall|a: int| 0 <= a < accounts.len() ==> (#[trigger] accounts[a]).wf(),
    ensures
        enc_accounts_concat(accounts).len() == 94 * accounts.len(),
    decreases accounts.len(),
{
    if accounts.len() > 0 {
        lemma_enc_accounts_concat_len(accounts.drop_last());
        lemma_enc_balance_account_len(accounts.last());
    }
}

/// The stored balance-accounts region: a count byte, the accounts in order,
/// and a zero-filled tail out to the full fixed region.
pub open spec fn enc_accounts(accounts: Seq<BalanceAccountV>) -> Seq<u8> {
    seq![accounts.len() as u8] + enc_accounts_concat(accounts) + zeros(
        ((10 - accounts.len()) * 94) as nat,
    )
}

/// One stored wallet record: the initialized flag, the signer store, the
/// assistant key, the address book, the config-approval policy and approver
/// flags, the balance-accounts region, and the config-policy lock.
pub open spec fn enc_wallet(w: WalletV) -> Seq<u8> {
    enc_bool(w.is_initialized) + enc_signer_slots(w.signers) + w.assistant.key@ + enc_abe_slots(
        w.address_book,
    ) + seq![w.approvals_required_for_config] + spec_u64_to_le_bytes(w.approval_timeout_for_config)
        + enc_flags(w.config_approvers) + enc_accounts(w.balance_accounts) + enc_bool(
        w.config_policy_update_locked,
    )
}

pub proof fn lemma_enc_wallet_len(w: WalletV)
    requires
        w.wf(),
    ensures
        enc_wallet(w).len() == WALLET_LEN,
{
    lemma_enc_signer_slots_len(w.signers);
    lemma_enc_abe_slots_len(w.address_book);
    vstd::bytes::lemma_auto_spec_u64_to_from_le_bytes();
    lemma_enc_flags_len(w.config_approvers);
    lemma_enc_accounts_concat_len(w.balance_accounts);
}

impl Wallet {
    /// Packs the whole wallet into its fixed-size stored record.
    #[verifier::rlimit(100)]
    pub fn pack(&self) -> (r: Vec<u8>)
        requires
            self.wf(),
        ensures
            r@ == enc_wallet(self@),
            r@.len() == WALLET_LEN,
    {
        let mut out: Vec<u8> = Vec::new();
        push_bool(&mut out, self.is_initialized);
        pack_signer_slots(&mut out, &self.signers);
        push_bytes32(&mut out, &self.assistant.key);
        pack_abe_slots(&mut out, &self.address_book);
        out.push(self.approvals_required_for_config);
        push_u64(&mut out, self.approval_timeout_for_config);
        pack_flags(&mut out, &self.config_approvers);
        let count = self.balance_accounts.len();
        out.push(count as u8);
        let ghost mid = out@;
        let mut a: usize = 0;
        while a < count
            invariant
                self.wf(),
                count == self.balance_accounts@.len(),
                a <= count,
                out@ == mid + enc_accounts_concat(self@.balance_accounts.take(a as int)),
            decreases count - a,
        {
            proof {
                assert(self@.balance_accounts.take(a + 1).drop_last() =~= self@.balance_accounts.take(
                    a as int,
                ));
                assert(self@.balance_accounts.take(a + 1).last() == self@.balance_accounts[a as int]);
            }
            pack_balance_account(&mut out, &self.balance_accounts[a]);
            a += 1;
        }
        proof {
            assert(self@.balance_accounts.take(count as int) =~= self@.balance_accounts);
        }
        push_zeros(&mut out, (10 - count) * 94);
        push_bool(&mut out, self.config_policy_update_locked);
        proof {
            lemma_enc_wallet_len(self@);
            assert(out@ =~= enc_wallet(self@));
        }
        out
    }

    /// Reads back a whole wallet record; a flag byte above one, an account
    /// count above the fixed capacity, a non-zero unused tail, or any
    /// malformed inner region is rejected.
    #[verifier::rlimit(100)]
    pub fn unpack(bytes: &[u8]) -> (r: Result<Wallet, WalletError>)
        ensures
            (match r {
                Ok(v) => v.wf() && bytes@.len() == WALLET_LEN && enc_wallet(v@) == bytes@,
                Err(e) => e == WalletError::MalformedRecord,
            }),
            (bytes@.len() == WALLET_LEN && exists|w: WalletV| w.wf() && enc_wallet(w) == bytes@)
                ==> r is Ok,
    {
        if bytes.len() != WALLET_LEN {
            return Err(WalletError::MalformedRecord);
        }
        let init_byte = bytes[0];
        if init_byte >= 2 {
            proof {
                if exists|w: WalletV| w.wf() && enc_wallet(w) == bytes@ {
                    let w = choose|w: WalletV| w.wf() && enc_wallet(w) == bytes@;
                    lemma_wallet_regions(w, bytes@);
                    assert(enc_bool(w.is_initialized)[0] <= 1);
                }
            }
            return Err(WalletError::MalformedRecord);
        }
        let signers = match unpack_signer_slots(bytes, 1) {
            Ok(v) => v,
            Err(e) => {
                proof {
                    if exists|w: WalletV| w.wf() && enc_wallet(w) == bytes@ {
                        let w = choose|w: WalletV| w.wf() && enc_wallet(w) == bytes@;
                        lemma_wallet_regions(w, bytes@);
                        assert(w.signers.len() == 24 && enc_signer_slots(w.signers)
                            == bytes@.subrange(1, 1 + SIGNERS_REGION_LEN));
                    }
                }
                return Err(e);
            },
        };
        let assistant_key = read_bytes32(bytes, 793);
        let address_book = match unpack_abe_slots(bytes, 825) {
            Ok(v) => v,
            Err(e) => {
                proof {
                    if exists|w: WalletV| w.wf() && enc_wallet(w) == bytes@ {
                        let w = choose|w: WalletV| w.wf() && enc_wallet(w) == bytes@;
                        lemma_wallet_regions(w, bytes@);
                        assert(w.address_book.len() == 128 && enc_abe_slots(w.address_book)
                            == bytes@.subrange(825, 825 + ADDRESS_BOOK_REGION_LEN));
                    }
                }
                return Err(e);
            },
        };
        let approvals_required_for_config = bytes[9145];
        let approval_timeout_for_config = read_u64(bytes, 9146);
        let config_approvers = unpack_flags::<24>(bytes, 9154);
        let count = bytes[9157];
        if count > 10 {
            proof {
                if exists|w: WalletV| w.wf() && enc_wallet(w) == bytes@ {
                    let w = choose|w: WalletV| w.wf() && enc_wallet(w) == bytes@;
                    lemma_wallet_regions(w, bytes@);
                    assert(w.balance_accounts.len() <= 10);
                }
            }
            return Err(WalletError::MalformedRecord);
        }
        let count = count as usize;
        let mut balance_accounts: Vec<BalanceAccount> = Vec::new();
        let mut a: usize = 0;
        while a < count
            invariant
                count <= 10,
                count == bytes@[9157],
                a <= count,
                bytes@.len() == WALLET_LEN,
                balance_accounts@.len() == a,
                forall|b: int| 0 <= b < a ==> (#[trigger] balance_accounts@[b]).wf(),
                enc_accounts_concat(
                    Seq::new(balance_accounts@.len(), |i: int| balance_accounts@[i]@),
                ) == bytes@.subrange(9158, 9158 + 94 * a),
            decreases count - a,
        {
            let acct = match unpack_balance_account(bytes, 9158 + 94 * a) {
                Ok(v) => v,
                Err(e) => {
                    proof {
                        if exists|w: WalletV| w.wf() && enc_wallet(w) == bytes@ {
                            let w = choose|w: WalletV| w.wf() && enc_wallet(w) == bytes@;
                            lemma_wallet_regions(w, bytes@);
                            let n = w.balance_accounts.len() as int;
                            assert(w.balance_accounts.len() == count);
                            lemma_enc_accounts_concat_slice(w.balance_accounts, a as int);
                            lemma_subrange_within(
                                bytes@,
                                9158,
                                94 * (a as int),
                                94 * (a as int) + 94,
                                94 * n,
                            );
                            assert(w.balance_accounts[a as int].wf() && enc_balance_account(
                                w.balance_accounts[a as int],
                            ) == bytes@.subrange(
                                9158 + 94 * (a as int),
                                9158 + 94 * (a as int) + BALANCE_ACCOUNT_LEN,
                            ));
                        }
                    }
                    return Err(e);
                },
            };
            let ghost pre = Seq::new(balance_accounts@.len(), |i: int| balance_accounts@[i]@);
            balance_accounts.push(acct);
            proof {
                let now = Seq::new(balance_accounts@.len(), |i: int| balance_accounts@[i]@);
                assert(now.drop_last() =~= pre);
                assert(now.last() == acct@);
                assert(enc_accounts_concat(now) == enc_accounts_concat(pre) + enc_balance_account(
                    acct@,
                ));
                assert(bytes@.subrange(9158, 9158 + 94 * a) + bytes@.subrange(
                    9158 + 94 * a,
                    9158 + 94 * (a + 1),
                ) =~= bytes@.subrange(9158, 9158 + 94 * (a + 1)));
            }
            a += 1;
        }
        if !all_zero(bytes, 9158 + 94 * count, 940 - 94 * count) {
            proof {
                if exists|w: WalletV| w.wf() && enc_wallet(w) == bytes@ {
                    let w = choose|w: WalletV| w.wf() && enc_wallet(w) == bytes@;
                    lemma_wallet_regions(w, bytes@);
                    assert(w.balance_accounts.len() == count);
                    assert(((10 - w.balance_accounts.len()) * 94) as nat == (940 - 94 * count) as nat);
                    assert(bytes@.subrange(9158 + 94 * (count as int), 10098) == zeros(
                        (940 - 94 * count) as nat,
                    ));
                }
            }
            return Err(WalletError::MalformedRecord);
        }
        let lock_byte = bytes[10098];
        if lock_byte >= 2 {
            proof {
                if exists|w: WalletV| w.wf() && enc_wallet(w) == bytes@ {
                    let w = choose|w: WalletV| w.wf() && enc_wallet(w) == bytes@;
                    lemma_wallet_regions(w, bytes@);
                    assert(enc_bool(w.config_policy_update_locked)[0] <= 1);
                }
            }
            return Err(WalletError::MalformedRecord);
        }
        let v = Wallet {
            is_initialized: init_byte == 1,
            signers,
            assistant: Signer { key: assistant_key },
            address_book,
            approvals_required_for_config,
            approval_timeout_for_config,
            config_approvers,
            balance_accounts,
            config_policy_update_locked: lock_byte == 1,
        };
        proof {
            lemma_enc_wallet_len(v@);
            assert(enc_bool(v@.is_initialized) =~= bytes@.subrange(0, 1));
            assert(seq![v@.approvals_required_for_config] =~= bytes@.subrange(9145, 9146));
            assert(seq![v@.balance_accounts.len() as u8] =~= bytes@.subrange(9157, 9158));
            assert(zeros(((10 - v@.balance_accounts.len()) * 94) as nat) =~= bytes@.subrange(
                9158 + 94 * (count as int),
                10098,
            ));
            assert(enc_bool(v@.config_policy_update_locked) =~= bytes@.subrange(10098, 10099));
            assert(enc_wallet(v@) =~= bytes@);
        }
        Ok(v)
    }
}

/// Equal stored account regions mean equal account lists.
pub proof fn lemma_enc_accounts_concat_inj(s1: Seq<BalanceAccountV>, s2: Seq<BalanceAccountV>)
    requires
        s1.len() == s2.len(),
        forall|a: int| 0 <= a < s1.len() ==> (#[trigger] s1[a]).wf(),
        forall|a: int| 0 <= a < s2.len() ==> (#[trigger] s2[a]).wf(),
        enc_accounts_concat(s1) == enc_accounts_concat(s2),
    ensures
        s1 == s2,
    decreases s1.len(),
{
    if s1.len() == 0 {
        assert(s1 =~= s2);
    } else {
        let p1 = s1.drop_last();
        let p2 = s2.drop_last();
        lemma_enc_accounts_concat_len(p1);
        lemma_enc_accounts_concat_len(p2);
        lemma_enc_balance_account_len(s1.last());
        lemma_enc_balance_account_len(s2.last());
        assert(enc_accounts_concat(p1) =~= enc_accounts_concat(p2)) by {
            assert forall|j: int| 0 <= j < enc_accounts_concat(p1).len() implies enc_accounts_concat(
                p1,
            )[j] == enc_accounts_concat(p2)[j] by {
                assert((enc_accounts_concat(p1) + enc_balance_account(s1.last()))[j]
                    == enc_accounts_concat(p1)[j]);
                assert((enc_accounts_concat(p2) + enc_balance_account(s2.last()))[j]
                    == enc_accounts_concat(p2)[j]);
                assert(enc_accounts_concat(s1)[j] == enc_accounts_concat(s2)[j]);
            }
        }
        lemma_enc_accounts_concat_inj(p1, p2);
        assert(enc_balance_account(s1.last()) =~= enc_balance_account(s2.last())) by {
            let base = enc_accounts_concat(p1).len() as int;
            assert forall|j: int| 0 <= j < 94 implies enc_balance_account(s1.last())[j]
                == enc_balance_account(s2.last())[j] by {
                assert(enc_accounts_concat(s1)[base + j] == enc_balance_account(s1.last())[j]);
                assert(enc_accounts_concat(s2)[base + j] == enc_balance_account(s2.last())[j]);
            }
        }
        lemma_enc_balance_account_inj(s1.last(), s2.last());
        assert forall|j: int| 0 <= j < s1.len() implies s1[j] == s2[j] by {
            if j < s1.len() - 1 {
                assert(p1[j] == p2[j]);
            }
        }
        assert(s1 =~= s2);
    }
}

/// Equal stored wallet records mean equal wallets: the record layout pins
/// every field of the model.
#[verifier::rlimit(100)]
pub proof fn lemma_enc_wallet_inj(w1: WalletV, w2: WalletV)
    requires
        w1.wf(),
        w2.wf(),
        enc_wallet(w1) == enc_wallet(w2),
    ensures
        w1 == w2,
{
    lemma_enc_wallet_len(w1);
    lemma_enc_wallet_len(w2);
    lemma_enc_signer_slots_len(w1.signers);
    lemma_enc_signer_slots_len(w2.signers);
    lemma_enc_abe_slots_len(w1.address_book);
    lemma_enc_abe_slots_len(w2.address_book);
    vstd::bytes::lemma_auto_spec_u64_to_from_le_bytes();
    lemma_enc_flags_len(w1.config_approvers);
    lemma_enc_flags_len(w2.config_approvers);
    lemma_enc_accounts_concat_len(w1.balance_accounts);
    lemma_enc_accounts_concat_len(w2.balance_accounts);
    let e1 = enc_wallet(w1);
    let e2 = enc_wallet(w2);
    assert(enc_bool(w1.is_initialized)[0] == e1[0]);
    assert(enc_bool(w2.is_initialized)[0] == e2[0]);
    assert(w1.is_initialized == w2.is_initialized);
    assert(enc_signer_slots(w1.signers) =~= e1.subrange(1, 793));
    assert(enc_signer_slots(w2.signers) =~= e2.subrange(1, 793));
    lemma_enc_signer_slots_inj(w1.signers, w2.signers);
    assert(w1.assistant.key@ =~= e1.subrange(793, 825));
    assert(w2.assistant.key@ =~= e2.subrange(793, 825));
    assert(w1.assistant.key =~= w2.assistant.key);
    assert(enc_abe_slots(w1.address_book) =~= e1.subrange(825, 9145));
    assert(enc_abe_slots(w2.address_book) =~= e2.subrange(825, 9145));
    lemma_enc_abe_slots_inj(w1.address_book, w2.address_book);
    assert(w1.approvals_required_for_config == e1[9145]);
    assert(w2.approvals_required_for_config == e2[9145]);
    assert(spec_u64_to_le_bytes(w1.approval_timeout_for_config) =~= e1.subrange(9146, 9154));
    assert(spec_u64_to_le_bytes(w2.approval_timeout_for_config) =~= e2.subrange(9146, 9154));
    assert(w1.approval_timeout_for_config == w2.approval_timeout_for_config) by {
        assert(spec_u64_from_le_bytes(spec_u64_to_le_bytes(w1.approval_timeout_for_config))
            == w1.approval_timeout_for_config);
        assert(spec_u64_from_le_bytes(spec_u64_to_le_bytes(w2.approval_timeout_for_config))
            == w2.approval_timeout_for_config);
    }
    assert(enc_flags(w1.config_approvers) =~= e1.subrange(9154, 9157));
    assert(enc_flags(w2.config_approvers) =~= e2.subrange(9154, 9157));
    lemma_enc_flags_inj(w1.config_approvers, w2.config_approvers);
    assert(w1.balance_accounts.len() as u8 == e1[9157]);
    assert(w2.balance_accounts.len() as u8 == e2[9157]);
    assert(w1.balance_accounts.len() == w2.balance_accounts.len());
    assert(enc_accounts_concat(w1.balance_accounts) =~= e1.subrange(
        9158,
        9158 + 94 * (w1.balance_accounts.len() as int),
    ));
    assert(enc_accounts_concat(w2.balance_accounts) =~= e2.subrange(
        9158,
        9158 + 94 * (w2.balance_accounts.len() as int),
    ));
    lemma_enc_accounts_concat_inj(w1.balance_accounts, w2.balance_accounts);
    assert(enc_bool(w1.config_policy_update_locked)[0] == e1[10098]);
    assert(enc_bool(w2.config_policy_update_locked)[0] == e2[10098]);
    assert(w1.config_policy_update_locked == w2.config_policy_update_locked);
    assert(w1 =~= w2);
}

/// Equal stored signer regions mean equal signer stores.
pub proof fn lemma_enc_signer_slots_inj(s1: Seq<Option<Signer>>, s2: Seq<Option<Signer>>)
    requires
        s1.len() == s2.len(),
        enc_signer_slots(s1) == enc_signer_slots(s2),
    ensures
        s1 == s2,
    decreases s1.len(),
{
    if s1.len() == 0 {
        assert(s1 =~= s2);
    } else {
        let p1 = s1.drop_last();
        let p2 = s2.drop_last();
        lemma_enc_signer_slots_len(p1);
        lemma_enc_signer_slots_len(p2);
        assert(enc_signer_slots(p1) =~= enc_signer_slots(p2)) by {
            assert forall|j: int| 0 <= j < enc_signer_slots(p1).len() implies enc_signer_slots(
                p1,
            )[j] == enc_signer_slots(p2)[j] by {
                assert((enc_signer_slots(p1) + enc_signer_slot(s1.last()))[j] == enc_signer_slots(
                    p1,
                )[j]);
                assert((enc_signer_slots(p2) + enc_signer_slot(s2.last()))[j] == enc_signer_slots(
                    p2,
                )[j]);
                assert(enc_signer_slots(s1)[j] == enc_signer_slots(s2)[j]);
            }
        }
        lemma_enc_signer_slots_inj(p1, p2);
        assert(enc_signer_slot(s1.last()) =~= enc_signer_slot(s2.last())) by {
            let base = enc_signer_slots(p1).len() as int;
            assert forall|j: int| 0 <= j < 33 implies enc_signer_slot(s1.last())[j]
                == enc_signer_slot(s2.last())[j] by {
                assert(enc_signer_slots(s1)[base + j] == enc_signer_slot(s1.last())[j]);
                assert(enc_signer_slots(s2)[base + j] == enc_signer_slot(s2.last())[j]);
            }
        }
        assert(s1.last() == s2.last()) by {
            match (s1.last(), s2.last()) {
                (Some(x1), Some(x2)) => {
                    assert(x1.key@ =~= x2.key@) by {
                        assert forall|j: int| 0 <= j < 32 implies x1.key@[j] == x2.key@[j] by {
                            assert(enc_signer_slot(s1.last())[1 + j] == enc_signer_slot(
                                s2.last(),
                            )[1 + j]);
                        }
                    }
                    assert(x1.key =~= x2.key);
                },
                (Some(x1), None) => {
                    assert(enc_signer_slot(s1.last())[0] == enc_signer_slot(s2.last())[0]);
                },
                (None, Some(x2)) => {
                    assert(enc_signer_slot(s1.last())[0] == enc_signer_slot(s2.last())[0]);
                },
                (None, None) => {},
            }
        }
        assert forall|j: int| 0 <= j < s1.len() implies s1[j] == s2[j] by {
            if j < s1.len() - 1 {
                assert(p1[j] == p2[j]);
            }
        }
        assert(s1 =~= s2);
    }
}

/// Equal stored address-book regions mean equal address books.
pub proof fn lemma_enc_abe_slots_inj(
    s1: Seq<Option<AddressBookEntry>>,
    s2: Seq<Option<AddressBookEntry>>,
)
    requires
        s1.len() == s2.len(),
        enc_abe_slots(s1) == enc_abe_slots(s2),
    ensures
        s1 == s2,
    decreases s1.len(),
{
    if s1.len() == 0 {
        assert(s1 =~= s2);
    } else {
        let p1 = s1.drop_last();
        let p2 = s2.drop_last();
        lemma_enc_abe_slots_len(p1);
        lemma_enc_abe_slots_len(p2);
        assert(enc_abe_slots(p1) =~= enc_abe_slots(p2)) by {
            assert forall|j: int| 0 <= j < enc_abe_slots(p1).len() implies enc_abe_slots(p1)[j]
                == enc_abe_slots(p2)[j] by {
                assert((enc_abe_slots(p1) + enc_abe_slot(s1.last()))[j] == enc_abe_slots(p1)[j]);
                assert((enc_abe_slots(p2) + enc_abe_slot(s2.last()))[j] == enc_abe_slots(p2)[j]);
                assert(enc_abe_slots(s1)[j] == enc_abe_slots(s2)[j]);
            }
        }
        lemma_enc_abe_slots_inj(p1, p2);
        assert(enc_abe_slot(s1.last()) =~= enc_abe_slot(s2.last())) by {
            let base = enc_abe_slots(p1).len() as int;
            assert forall|j: int| 0 <= j < 65 implies enc_abe_slot(s1.last())[j] == enc_abe_slot(
                s2.last(),
            )[j] by {
                assert(enc_abe_slots(s1)[base + j] == enc_abe_slot(s1.last())[j]);
                assert(enc_abe_slots(s2)[base + j] == enc_abe_slot(s2.last())[j]);
            }
        }
        assert(s1.last() == s2.last()) by {
            match (s1.last(), s2.last()) {
                (Some(x1), Some(x2)) => {
                    assert(x1.address@ =~= x2.address@) by {
                        assert forall|j: int| 0 <= j < 32 implies x1.address@[j] == x2.address@[j]
                            by {
                            assert(enc_abe_slot(s1.last())[1 + j] == enc_abe_slot(s2.last())[1
                                + j]);
                        }
                    }
                    assert(x1.name_hash.bytes@ =~= x2.name_hash.bytes@) by {
                        assert forall|j: int|
                            0 <= j < 32 implies x1.name_hash.bytes@[j] == x2.name_hash.bytes@[j] by {
                            assert(enc_abe_slot(s1.last())[33 + j] == enc_abe_slot(s2.last())[33
                                + j]);
                        }
                    }
                    assert(x1.address =~= x2.address);
                    assert(x1.name_hash.bytes =~= x2.name_hash.bytes);
                },
                (Some(x1), None) => {
                    assert(enc_abe_slot(s1.last())[0] == enc_abe_slot(s2.last())[0]);
                },
                (None, Some(x2)) => {
                    assert(enc_abe_slot(s1.last())[0] == enc_abe_slot(s2.last())[0]);
                },
                (None, None) => {},
            }
        }
        assert forall|j: int| 0 <= j < s1.len() implies s1[j] == s2[j] by {
            if j < s1.len() - 1 {
                assert(p1[j] == p2[j]);
            }
        }
        assert(s1 =~= s2);
    }
}


/// Stored length of a whole multisig-operation record.
pub const MULTISIG_OP_LEN: usize = 844;

impl BalanceAccount {
    /// Packs one balance account into its fixed-size stored record.
    pub fn pack(&self) -> (r: Vec<u8>)
        requires
            self.wf(),
        ensures
            r@ == enc_balance_account(self@),
            r@.len() == BALANCE_ACCOUNT_LEN,
    {
        let mut out: Vec<u8> = Vec::new();
        pack_balance_account(&mut out, self);
        proof {
            lemma_enc_balance_account_len(self@);
            assert(out@ =~= enc_balance_account(self@));
        }
        out
    }

    /// Reads back one balance-account record.
    pub fn unpack(bytes: &[u8]) -> (r: Result<BalanceAccount, WalletError>)
        ensures
            (match r {
                Ok(v) => v.wf() && bytes@.len() == BALANCE_ACCOUNT_LEN && enc_balance_account(v@)
                    == bytes@,
                Err(e) => e == WalletError::MalformedRecord,
            }),
            (bytes@.len() == BALANCE_ACCOUNT_LEN && exists|a: BalanceAccountV|
                a.wf() && enc_balance_account(a) == bytes@) ==> r is Ok,
    {
        if bytes.len() != BALANCE_ACCOUNT_LEN {
            return Err(WalletError::MalformedRecord);
        }
        proof {
            assert(bytes@.subrange(0, BALANCE_ACCOUNT_LEN as int) =~= bytes@);
        }
        unpack_balance_account(bytes, 0)
    }
}

/// One stored approval record: the approver's key and its disposition byte.
pub open spec fn enc_record(r: ApprovalDispositionRecord) -> Seq<u8> {
    r.approver.key@ + seq![r.disposition.as_u8()]
}

/// The stored approval records, record by record.
pub open spec fn enc_records(records: Seq<ApprovalDispositionRecord>) -> Seq<u8>
    decreases records.len(),
{
    if records.len() == 0 {
        Seq::empty()
    } else {
        enc_records(records.drop_last()) + enc_record(records.last())
    }
}

pub proof fn lemma_enc_records_len(records: Seq<ApprovalDispositionRecord>)
    ensures
        enc_records(records).len() == 33 * records.len(),
    decreases records.len(),
{
    if records.len() > 0 {
        lemma_enc_records_len(records.drop_last());
    }
}

/// One stored multisig-operation record: the initialized flag, the approval
/// records behind their count byte with a zero-filled tail, the quorum size,
/// the aggregate disposition, the parameter hash, and the start and expiry
/// timestamps.
pub open spec fn enc_multisig_op(op: MultisigOpV) -> Seq<u8> {
    enc_bool(op.is_initialized) + seq![op.disposition_records.len() as u8] + enc_records(
        op.disposition_records,
    ) + zeros(((24 - op.disposition_records.len()) * 33) as nat) + seq![op.dispositions_required]
        + seq![op.operation_disposition.as_u8()] + op.params_hash@ + enc_i64(op.started_at)
        + enc_i64(op.expires)
}

pub proof fn lemma_enc_multisig_op_len(op: MultisigOpV)
    requires
        op.disposition_records.len() <= 24,
    ensures
        enc_multisig_op(op).len() == MULTISIG_OP_LEN,
{
    lemma_enc_records_len(op.disposition_records);
    vstd::bytes::lemma_auto_spec_u64_to_from_le_bytes();
}

impl MultisigOp {
    /// Packs the whole operation record into its fixed-size stored form.
    #[verifier::rlimit(100)]
    pub fn pack(&self) -> (r: Vec<u8>)
        requires
            self.wf(),
        ensures
            r@ == enc_multisig_op(self@),
            r@.len() == MULTISIG_OP_LEN,
    {
        let mut out: Vec<u8> = Vec::new();
        push_bool(&mut out, self.is_initialized);
        let count = self.disposition_records.len();
        out.push(count as u8);
        let ghost mid = out@;
        let mut k: usize = 0;
        while k < count
            invariant
                count == self@.disposition_records.len(),
                count <= 24,
                k <= count,
                out@ == mid + enc_records(self@.disposition_records.take(k as int)),
            decreases count - k,
        {
            proof {
                assert(self@.disposition_records.take(k + 1).drop_last()
                    =~= self@.disposition_records.take(k as int));
                assert(self@.disposition_records.take(k + 1).last()
                    == self@.disposition_records[k as int]);
            }
            let ghost pre = out@;
            let rec = self.disposition_records[k];
            push_bytes32(&mut out, &rec.approver.key);
            out.push(rec.disposition.to_u8());
            proof {
                assert(out@ =~= pre + enc_record(self@.disposition_records[k as int]));
            }
            k += 1;
        }
        proof {
            assert(self@.disposition_records.take(count as int) =~= self@.disposition_records);
        }
        push_zeros(&mut out, (24 - count) * 33);
        out.push(self.dispositions_required);
        out.push(self.operation_disposition.to_u8());
        push_bytes32(&mut out, &self.params_hash);
        push_i64(&mut out, self.started_at);
        push_i64(&mut out, self.expires);
        proof {
            lemma_enc_multisig_op_len(self@);
            assert(out@ =~= enc_multisig_op(self@));
        }
        out
    }

    /// Reads back a whole operation record; a flag byte above one, a count
    /// above the fixed capacity, a disposition byte above two, or a non-zero
    /// unused tail is malformed.
    #[verifier::rlimit(100)]
    pub fn unpack(bytes: &[u8]) -> (r: Result<MultisigOp, WalletError>)
        ensures
            (match r {
                Ok(v) => v.wf() && bytes@.len() == MULTISIG_OP_LEN && enc_multisig_op(v@) == bytes@,
                Err(e) => e == WalletError::MalformedRecord,
            }),
            (bytes@.len() == MULTISIG_OP_LEN && exists|op: MultisigOpV|
                op.disposition_records.len() <= 24 && enc_multisig_op(op) == bytes@) ==> r is Ok,
    {
        if bytes.len() != MULTISIG_OP_LEN {
            return Err(WalletError::MalformedRecord);
        }
        let init_byte = bytes[0];
        if init_byte >= 2 {
            proof {
                if exists|op: MultisigOpV|
                    op.disposition_records.len() <= 24 && enc_multisig_op(op) == bytes@ {
                    let op = choose|op: MultisigOpV|
                        op.disposition_records.len() <= 24 && enc_multisig_op(op) == bytes@;
                    lemma_op_regions(op, bytes@);
                    assert(enc_bool(op.is_initialized)[0] <= 1);
                }
            }
            return Err(WalletError::MalformedRecord);
        }
        let count = bytes[1];
        if count > 24 {
            proof {
                if exists|op: MultisigOpV|
                    op.disposition_records.len() <= 24 && enc_multisig_op(op) == bytes@ {
                    let op = choose|op: MultisigOpV|
                        op.disposition_records.len() <= 24 && enc_multisig_op(op) == bytes@;
                    lemma_op_regions(op, bytes@);
                }
            }
            return Err(WalletError::MalformedRecord);
        }
        let count = count as usize;
        let mut records: Vec<ApprovalDispositionRecord> = Vec::new();
        let mut k: usize = 0;
        while k < count
            invariant
                count <= 24,
                count == bytes@[1],
                k <= count,
                bytes@.len() == MULTISIG_OP_LEN,
                records@.len() == k,
                enc_records(records@) == bytes@.subrange(2, 2 + 33 * k),
            decreases count - k,
        {
            let base = 2 + 33 * k;
            let key = read_bytes32(bytes, base);
            let disposition = match ApprovalDisposition::from_u8(bytes[base + 32]) {
                Ok(d) => d,
                Err(e) => {
                    proof {
                        if exists|op: MultisigOpV|
                            op.disposition_records.len() <= 24 && enc_multisig_op(op) == bytes@ {
                            let op = choose|op: MultisigOpV|
                                op.disposition_records.len() <= 24 && enc_multisig_op(op)
                                    == bytes@;
                            lemma_op_regions(op, bytes@);
                            let n = op.disposition_records.len() as int;
                            assert(op.disposition_records.len() == count);
                            lemma_enc_records_slice(op.disposition_records, k as int);
                            lemma_subrange_within(
                                bytes@,
                                2,
                                33 * (k as int),
                                33 * (k as int) + 33,
                                33 * n,
                            );
                            let rec_enc = enc_record(op.disposition_records[k as int]);
                            assert(rec_enc == bytes@.subrange(
                                2 + 33 * (k as int),
                                2 + 33 * (k as int) + 33,
                            ));
                            assert(rec_enc[32] == bytes@[2 + 33 * (k as int) + 32]);
                            assert(rec_enc[32]
                                == op.disposition_records[k as int].disposition.as_u8());
                        }
                    }
                    return Err(e);
                },
            };
            let rec = ApprovalDispositionRecord { approver: Signer { key }, disposition };
            let ghost pre = records@;
            records.push(rec);
            proof {
                assert(records@.drop_last() =~= pre);
                assert(enc_record(rec) =~= bytes@.subrange(base as int, base + 33));
                assert(enc_records(records@) == enc_records(pre) + enc_record(rec));
                assert(bytes@.subrange(2, 2 + 33 * k) + bytes@.subrange(base as int, base + 33)
                    =~= bytes@.subrange(2, 2 + 33 * (k + 1)));
            }
            k += 1;
        }
        if !all_zero(bytes, 2 + 33 * count, 792 - 33 * count) {
            proof {
                if exists|op: MultisigOpV|
                    op.disposition_records.len() <= 24 && enc_multisig_op(op) == bytes@ {
                    let op = choose|op: MultisigOpV|
                        op.disposition_records.len() <= 24 && enc_multisig_op(op) == bytes@;
                    lemma_op_regions(op, bytes@);
                    assert(op.disposition_records.len() == count);
                    assert(((24 - op.disposition_records.len()) * 33) as nat == (792 - 33
                        * count) as nat);
                    assert(bytes@.subrange(2 + 33 * (count as int), 794) == zeros(
                        (792 - 33 * count) as nat,
                    ));
                }
            }
            return Err(WalletError::MalformedRecord);
        }
        let dispositions_required = bytes[794];
        let operation_disposition = match OperationDisposition::from_u8(bytes[795]) {
            Ok(d) => d,
            Err(e) => {
                proof {
                    if exists|op: MultisigOpV|
                        op.disposition_records.len() <= 24 && enc_multisig_op(op) == bytes@ {
                        let op = choose|op: MultisigOpV|
                            op.disposition_records.len() <= 24 && enc_multisig_op(op) == bytes@;
                        lemma_op_regions(op, bytes@);
                        assert(op.operation_disposition.as_u8() <= 2);
                    }
                }
                return Err(e);
            },
        };
        let params_hash = read_bytes32(bytes, 796);
        let started_at = read_i64(bytes, 828);
        let expires = read_i64(bytes, 836);
        let v = MultisigOp {
            is_initialized: init_byte == 1,
            disposition_records: records,
            dispositions_required,
            operation_disposition,
            params_hash,
            started_at,
            expires,
        };
        proof {
            lemma_enc_multisig_op_len(v@);
            assert(enc_bool(v@.is_initialized) =~= bytes@.subrange(0, 1));
            assert(seq![v@.disposition_records.len() as u8] =~= bytes@.subrange(1, 2));
            assert(zeros(((24 - v@.disposition_records.len()) * 33) as nat) =~= bytes@.subrange(
                2 + 33 * (count as int),
                794,
            ));
            assert(seq![v@.dispositions_required] =~= bytes@.subrange(794, 795));
            assert(seq![v@.operation_disposition.as_u8()] =~= bytes@.subrange(795, 796));
            assert(enc_multisig_op(v@) =~= bytes@);
        }
        Ok(v)
    }
}

/// Equal stored record regions mean equal approval records.
pub proof fn lemma_enc_records_inj(
    s1: Seq<ApprovalDispositionRecord>,
    s2: Seq<ApprovalDispositionRecord>,
)
    requires
        s1.len() == s2.len(),
        enc_records(s1) == enc_records(s2),
    ensures
        s1 == s2,
    decreases s1.len(),
{
    if s1.len() == 0 {
        assert(s1 =~= s2);
    } else {
        let p1 = s1.drop_last();
        let p2 = s2.drop_last();
        lemma_enc_records_len(p1);
        lemma_enc_records_len(p2);
        assert(enc_records(p1) =~= enc_records(p2)) by {
            assert forall|j: int| 0 <= j < enc_records(p1).len() implies enc_records(p1)[j]
                == enc_records(p2)[j] by {
                assert((enc_records(p1) + enc_record(s1.last()))[j] == enc_records(p1)[j]);
                assert((enc_records(p2) + enc_record(s2.last()))[j] == enc_records(p2)[j]);
                assert(enc_records(s1)[j] == enc_records(s2)[j]);
            }
        }
        lemma_enc_records_inj(p1, p2);
        assert(enc_record(s1.last()) =~= enc_record(s2.last())) by {
            let base = enc_records(p1).len() as int;
            assert forall|j: int| 0 <= j < 33 implies enc_record(s1.last())[j] == enc_record(
                s2.last(),
            )[j] by {
                assert(enc_records(s1)[base + j] == enc_record(s1.last())[j]);
                assert(enc_records(s2)[base + j] == enc_record(s2.last())[j]);
            }
        }
        assert(s1.last() == s2.last()) by {
            let r1 = s1.last();
            let r2 = s2.last();
            assert(r1.approver.key@ =~= r2.approver.key@) by {
                assert forall|j: int| 0 <= j < 32 implies r1.approver.key@[j]
                    == r2.approver.key@[j] by {
                    assert(enc_record(r1)[j] == enc_record(r2)[j]);
                }
            }
            assert(r1.approver.key =~= r2.approver.key);
            assert(enc_record(r1)[32] == enc_record(r2)[32]);
            assert(r1.disposition == r2.disposition);
        }
        assert forall|j: int| 0 <= j < s1.len() implies s1[j] == s2[j] by {
            if j < s1.len() - 1 {
                assert(p1[j] == p2[j]);
            }
        }
        assert(s1 =~= s2);
    }
}

/// Equal stored operation records mean equal operations: the record layout
/// pins every field of the model.
#[verifier::rlimit(100)]
pub proof fn lemma_enc_multisig_op_inj(op1: MultisigOpV, op2: MultisigOpV)
    requires
        op1.disposition_records.len() <= 24,
        op2.disposition_records.len() <= 24,
        enc_multisig_op(op1) == enc_multisig_op(op2),
    ensures
        op1 == op2,
{
    lemma_enc_multisig_op_len(op1);
    lemma_enc_multisig_op_len(op2);
    lemma_enc_records_len(op1.disposition_records);
    lemma_enc_records_len(op2.disposition_records);
    vstd::bytes::lemma_auto_spec_u64_to_from_le_bytes();
    let e1 = enc_multisig_op(op1);
    let e2 = enc_multisig_op(op2);
    assert(enc_bool(op1.is_initialized)[0] == e1[0]);
    assert(enc_bool(op2.is_initialized)[0] == e2[0]);
    assert(op1.is_initialized == op2.is_initialized);
    assert(op1.disposition_records.len() as u8 == e1[1]);
    assert(op2.disposition_records.len() as u8 == e2[1]);
    assert(op1.disposition_records.len() == op2.disposition_records.len());
    assert(enc_records(op1.disposition_records) =~= e1.subrange(
        2,
        2 + 33 * (op1.disposition_records.len() as int),
    ));
    assert(enc_records(op2.disposition_records) =~= e2.subrange(
        2,
        2 + 33 * (op2.disposition_records.len() as int),
    ));
    lemma_enc_records_inj(op1.disposition_records, op2.disposition_records);
    assert(op1.dispositions_required == e1[794]);
    assert(op2.dispositions_required == e2[794]);
    assert(op1.operation_disposition.as_u8() == e1[795]);
    assert(op2.operation_disposition.as_u8() == e2[795]);
    assert(op1.operation_disposition == op2.operation_disposition);
    assert(op1.params_hash@ =~= e1.subrange(796, 828));
    assert(op2.params_hash@ =~= e2.subrange(796, 828));
    assert(op1.params_hash =~= op2.params_hash);
    assert(enc_i64(op1.started_at) =~= e1.subrange(828, 836));
    assert(enc_i64(op2.started_at) =~= e2.subrange(828, 836));
    assert(op1.started_at == op2.started_at) by {
        assert(spec_u64_from_le_bytes(spec_u64_to_le_bytes(op1.started_at as u64)) == (
        op1.started_at as u64));
        assert(spec_u64_from_le_bytes(spec_u64_to_le_bytes(op2.started_at as u64)) == (
        op2.started_at as u64));
        lemma_i64_u64_cast(op1.started_at, 0);
        lemma_i64_u64_cast(op2.started_at, 0);
    }
    assert(enc_i64(op1.expires) =~= e1.subrange(836, 844));
    assert(enc_i64(op2.expires) =~= e2.subrange(836, 844));
    assert(op1.expires == op2.expires) by {
        assert(spec_u64_from_le_bytes(spec_u64_to_le_bytes(op1.expires as u64)) == (op1.expires
            as u64));
        assert(spec_u64_from_le_bytes(spec_u64_to_le_bytes(op2.expires as u64)) == (op2.expires
            as u64));
        lemma_i64_u64_cast(op1.expires, 0);
        lemma_i64_u64_cast(op2.expires, 0);
    }
    assert(op1 =~= op2);
}


/// Within the stored signer region, slot `i`'s encoding occupies exactly its
/// own 33-byte window.
pub proof fn lemma_enc_signer_slots_slice(s: Seq<Option<Signer>>, i: int)
    requires
        0 <= i < s.len(),
    ensures
        enc_signer_slots(s).subrange(33 * i, 33 * (i + 1)) == enc_signer_slot(s[i]),
    decreases s.len(),
{
    lemma_enc_signer_slots_len(s);
    lemma_enc_signer_slots_len(s.drop_last());
    if i == s.len() - 1 {
        assert(enc_signer_slots(s).subrange(33 * i, 33 * (i + 1)) =~= enc_signer_slot(s[i])) by {
            assert forall|j: int| 0 <= j < 33 implies (#[trigger] enc_signer_slots(s)[33 * i + j])
                == enc_signer_slot(s[i])[j] by {
                assert((enc_signer_slots(s.drop_last()) + enc_signer_slot(s.last()))[33 * i + j]
                    == enc_signer_slot(s.last())[j]);
            }
        }
    } else {
        lemma_enc_signer_slots_slice(s.drop_last(), i);
        assert(enc_signer_slots(s).subrange(33 * i, 33 * (i + 1)) =~= enc_signer_slots(
            s.drop_last(),
        ).subrange(33 * i, 33 * (i + 1))) by {
            assert forall|j: int| 0 <= j < 33 implies (#[trigger] enc_signer_slots(s)[33 * i + j])
                == enc_signer_slots(s.drop_last())[33 * i + j] by {
                assert((enc_signer_slots(s.drop_last()) + enc_signer_slot(s.last()))[33 * i + j]
                    == enc_signer_slots(s.drop_last())[33 * i + j]);
            }
        }
        assert(s.drop_last()[i] == s[i]);
    }
}

/// Within the stored address-book region, slot `i`'s encoding occupies
/// exactly its own 65-byte window.
pub proof fn lemma_enc_abe_slots_slice(s: Seq<Option<AddressBookEntry>>, i: int)
    requires
        0 <= i < s.len(),
    ensures
        enc_abe_slots(s).subrange(65 * i, 65 * (i + 1)) == enc_abe_slot(s[i]),
    decreases s.len(),
{
    lemma_enc_abe_slots_len(s);
    lemma_enc_abe_slots_len(s.drop_last());
    if i == s.len() - 1 {
        assert(enc_abe_slots(s).subrange(65 * i, 65 * (i + 1)) =~= enc_abe_slot(s[i])) by {
            assert forall|j: int| 0 <= j < 65 implies (#[trigger] enc_abe_slots(s)[65 * i + j]) == enc_abe_slot(
                s[i],
            )[j] by {
                assert((enc_abe_slots(s.drop_last()) + enc_abe_slot(s.last()))[65 * i + j]
                    == enc_abe_slot(s.last())[j]);
            }
        }
    } else {
        lemma_enc_abe_slots_slice(s.drop_last(), i);
        assert(enc_abe_slots(s).subrange(65 * i, 65 * (i + 1)) =~= enc_abe_slots(
            s.drop_last(),
        ).subrange(65 * i, 65 * (i + 1))) by {
            assert forall|j: int| 0 <= j < 65 implies (#[trigger] enc_abe_slots(s)[65 * i + j]) == enc_abe_slots(
                s.drop_last(),
            )[65 * i + j] by {
                assert((enc_abe_slots(s.drop_last()) + enc_abe_slot(s.last()))[65 * i + j]
                    == enc_abe_slots(s.drop_last())[65 * i + j]);
            }
        }
        assert(s.drop_last()[i] == s[i]);
    }
}

/// Within the stored accounts region, account `i`'s record occupies exactly
/// its own 94-byte window.
pub proof fn lemma_enc_accounts_concat_slice(s: Seq<BalanceAccountV>, i: int)
    requires
        0 <= i < s.len(),
        forall|a: int| 0 <= a < s.len() ==> (#[trigger] s[a]).wf(),
    ensures
        enc_accounts_concat(s).subrange(94 * i, 94 * (i + 1)) == enc_balance_account(s[i]),
    decreases s.len(),
{
    lemma_enc_accounts_concat_len(s);
    assert(forall|a: int| 0 <= a < s.drop_last().len() ==> (#[trigger] s.drop_last()[a]).wf());
    lemma_enc_accounts_concat_len(s.drop_last());
    lemma_enc_balance_account_len(s.last());
    if i == s.len() - 1 {
        assert(enc_accounts_concat(s).subrange(94 * i, 94 * (i + 1)) =~= enc_balance_account(
            s[i],
        )) by {
            assert forall|j: int| 0 <= j < 94 implies (#[trigger] enc_accounts_concat(s)[94 * i + j])
                == enc_balance_account(s[i])[j] by {
                assert((enc_accounts_concat(s.drop_last()) + enc_balance_account(s.last()))[94 * i
                    + j] == enc_balance_account(s.last())[j]);
            }
        }
    } else {
        lemma_enc_accounts_concat_slice(s.drop_last(), i);
        assert(enc_accounts_concat(s).subrange(94 * i, 94 * (i + 1)) =~= enc_accounts_concat(
            s.drop_last(),
        ).subrange(94 * i, 94 * (i + 1))) by {
            assert forall|j: int| 0 <= j < 94 implies (#[trigger] enc_accounts_concat(s)[94 * i + j])
                == enc_accounts_concat(s.drop_last())[94 * i + j] by {
                assert((enc_accounts_concat(s.drop_last()) + enc_balance_account(s.last()))[94 * i
                    + j] == enc_accounts_concat(s.drop_last())[94 * i + j]);
            }
        }
        assert(s.drop_last()[i] == s[i]);
    }
}

/// Within the stored records region, record `i`'s encoding occupies exactly
/// its own 33-byte window.
pub proof fn lemma_enc_records_slice(s: Seq<ApprovalDispositionRecord>, i: int)
    requires
        0 <= i < s.len(),
    ensures
        enc_records(s).subrange(33 * i, 33 * (i + 1)) == enc_record(s[i]),
    decreases s.len(),
{
    lemma_enc_records_len(s);
    lemma_enc_records_len(s.drop_last());
    if i == s.len() - 1 {
        assert(enc_records(s).subrange(33 * i, 33 * (i + 1)) =~= enc_record(s[i])) by {
            assert forall|j: int| 0 <= j < 33 implies (#[trigger] enc_records(s)[33 * i + j]) == enc_record(
                s[i],
            )[j] by {
                assert((enc_records(s.drop_last()) + enc_record(s.last()))[33 * i + j]
                    == enc_record(s.last())[j]);
            }
        }
    } else {
        lemma_enc_records_slice(s.drop_last(), i);
        assert(enc_records(s).subrange(33 * i, 33 * (i + 1)) =~= enc_records(s.drop_last()).subrange(
            33 * i,
            33 * (i + 1),
        )) by {
            assert forall|j: int| 0 <= j < 33 implies (#[trigger] enc_records(s)[33 * i + j]) == enc_records(
                s.drop_last(),
            )[33 * i + j] by {
                assert((enc_records(s.drop_last()) + enc_record(s.last()))[33 * i + j]
                    == enc_records(s.drop_last())[33 * i + j]);
            }
        }
        assert(s.drop_last()[i] == s[i]);
    }
}


/// A subrange taken inside a subrange is a subrange of the original.
pub proof fn lemma_subrange_within<T>(s: Seq<T>, off: int, lo: int, hi: int, total: int)
    requires
        0 <= off,
        0 <= lo <= hi <= total,
        off + total <= s.len(),
    ensures
        s.subrange(off, off + total).subrange(lo, hi) == s.subrange(off + lo, off + hi),
{
    assert(s.subrange(off, off + total).subrange(lo, hi) =~= s.subrange(off + lo, off + hi));
}

/// A byte window whose slot `i` violates the signer-slot layout (a presence
/// byte that is not zero or one, or a vacant slot whose payload is not
/// zero-filled) is no signer store's encoding.
#[verifier::rlimit(100)]
pub proof fn lemma_no_signer_region(bytes: Seq<u8>, offset: int, i: int)
    requires
        0 <= offset,
        0 <= i < 24,
        offset + 792 <= bytes.len(),
        bytes[offset + 33 * i] != 1,
        bytes[offset + 33 * i] != 0 || bytes.subrange(offset + 33 * i + 1, offset + 33 * i + 33)
            != zeros(32),
    ensures
        !(exists|s: Seq<Option<Signer>>|
            s.len() == 24 && enc_signer_slots(s) == bytes.subrange(offset, offset + 792)),
{
    if exists|s: Seq<Option<Signer>>|
        s.len() == 24 && enc_signer_slots(s) == bytes.subrange(offset, offset + 792) {
        let s = choose|s: Seq<Option<Signer>>|
            s.len() == 24 && enc_signer_slots(s) == bytes.subrange(offset, offset + 792);
        lemma_enc_signer_slots_len(s);
        lemma_enc_signer_slots_slice(s, i);
        let slot_enc = enc_signer_slot(s[i]);
        lemma_subrange_within(bytes, offset, 33 * i, 33 * i + 33, 792);
        assert(slot_enc == bytes.subrange(offset + 33 * i, offset + 33 * i + 33));
        assert(slot_enc[0] == bytes[offset + 33 * i]);
        match s[i] {
            Some(x) => {
                assert(slot_enc[0] == 1);
            },
            None => {
                assert(slot_enc[0] == 0);
                lemma_subrange_within(bytes, offset + 33 * i, 1, 33, 33);
                assert(slot_enc.subrange(1, 33) == bytes.subrange(
                    offset + 33 * i + 1,
                    offset + 33 * i + 33,
                ));
                assert(slot_enc.subrange(1, 33) =~= zeros(32));
            },
        }
    }
}

/// A byte window whose slot `i` violates the address-book-slot layout is no
/// address book's encoding.
#[verifier::rlimit(100)]
pub proof fn lemma_no_abe_region(bytes: Seq<u8>, offset: int, i: int)
    requires
        0 <= offset,
        0 <= i < 128,
        offset + 8320 <= bytes.len(),
        bytes[offset + 65 * i] != 1,
        bytes[offset + 65 * i] != 0 || bytes.subrange(offset + 65 * i + 1, offset + 65 * i + 65)
            != zeros(64),
    ensures
        !(exists|s: Seq<Option<AddressBookEntry>>|
            s.len() == 128 && enc_abe_slots(s) == bytes.subrange(offset, offset + 8320)),
{
    if exists|s: Seq<Option<AddressBookEntry>>|
        s.len() == 128 && enc_abe_slots(s) == bytes.subrange(offset, offset + 8320) {
        let s = choose|s: Seq<Option<AddressBookEntry>>|
            s.len() == 128 && enc_abe_slots(s) == bytes.subrange(offset, offset + 8320);
        lemma_enc_abe_slots_len(s);
        lemma_enc_abe_slots_slice(s, i);
        let slot_enc = enc_abe_slot(s[i]);
        lemma_subrange_within(bytes, offset, 65 * i, 65 * i + 65, 8320);
        assert(slot_enc == bytes.subrange(offset + 65 * i, offset + 65 * i + 65));
        assert(slot_enc[0] == bytes[offset + 65 * i]);
        match s[i] {
            Some(x) => {
                assert(slot_enc[0] == 1);
            },
            None => {
                assert(slot_enc[0] == 0);
                lemma_subrange_within(bytes, offset + 65 * i, 1, 65, 65);
                assert(slot_enc.subrange(1, 65) == bytes.subrange(
                    offset + 65 * i + 1,
                    offset + 65 * i + 65,
                ));
                assert(slot_enc.subrange(1, 65) =~= zeros(64));
            },
        }
    }
}

/// A byte window whose settings byte carries bits beyond the two toggles, or
/// whose lock byte is above one, is no balance account's encoding.
pub proof fn lemma_no_account_region(bytes: Seq<u8>, offset: int)
    requires
        0 <= offset,
        offset + 94 <= bytes.len(),
        bytes[offset + 92] > 3 || bytes[offset + 93] > 1,
    ensures
        !(exists|a: BalanceAccountV|
            a.wf() && enc_balance_account(a) == bytes.subrange(offset, offset + 94)),
{
    if exists|a: BalanceAccountV|
        a.wf() && enc_balance_account(a) == bytes.subrange(offset, offset + 94) {
        let a = choose|a: BalanceAccountV|
            a.wf() && enc_balance_account(a) == bytes.subrange(offset, offset + 94);
        lemma_enc_balance_account_len(a);
        vstd::bytes::lemma_auto_spec_u64_to_from_le_bytes();
        lemma_enc_flags_len(a.transfer_approvers);
        lemma_enc_flags_len(a.allowed_destinations);
        let e = enc_balance_account(a);
        assert(settings_byte(a) == e[92]);
        assert(enc_bool(a.policy_update_locked)[0] == e[93]);
        assert(e[92] == bytes.subrange(offset, offset + 94)[92]);
        assert(e[93] == bytes.subrange(offset, offset + 94)[93]);
        assert(settings_byte(a) <= 3);
        assert(enc_bool(a.policy_update_locked)[0] <= 1);
    }
}


/// Where each region of a wallet's encoding lies: the field extractions the
/// fixed layout forces.
#[verifier::rlimit(100)]
pub proof fn lemma_wallet_regions(w: WalletV, bytes: Seq<u8>)
    requires
        w.wf(),
        enc_wallet(w) == bytes,
    ensures
        bytes.len() == WALLET_LEN,
        bytes[0] == enc_bool(w.is_initialized)[0],
        enc_signer_slots(w.signers) == bytes.subrange(1, 793),
        enc_abe_slots(w.address_book) == bytes.subrange(825, 9145),
        bytes[9157] == w.balance_accounts.len() as u8,
        enc_accounts_concat(w.balance_accounts) == bytes.subrange(
            9158,
            9158 + 94 * (w.balance_accounts.len() as int),
        ),
        bytes.subrange(9158 + 94 * (w.balance_accounts.len() as int), 10098) == zeros(
            ((10 - w.balance_accounts.len()) * 94) as nat,
        ),
        bytes[10098] == enc_bool(w.config_policy_update_locked)[0],
{
    lemma_enc_wallet_len(w);
    lemma_enc_signer_slots_len(w.signers);
    lemma_enc_abe_slots_len(w.address_book);
    vstd::bytes::lemma_auto_spec_u64_to_from_le_bytes();
    lemma_enc_flags_len(w.config_approvers);
    lemma_enc_accounts_concat_len(w.balance_accounts);
    let e = enc_wallet(w);
    assert(e[0] == enc_bool(w.is_initialized)[0]);
    assert(enc_signer_slots(w.signers) =~= e.subrange(1, 793));
    assert(enc_abe_slots(w.address_book) =~= e.subrange(825, 9145));
    assert(e[9157] == w.balance_accounts.len() as u8);
    assert(enc_accounts_concat(w.balance_accounts) =~= e.subrange(
        9158,
        9158 + 94 * (w.balance_accounts.len() as int),
    ));
    assert(zeros(((10 - w.balance_accounts.len()) * 94) as nat) =~= e.subrange(
        9158 + 94 * (w.balance_accounts.len() as int),
        10098,
    ));
    assert(e[10098] == enc_bool(w.config_policy_update_locked)[0]);
}

/// Where each region of an operation record's encoding lies.
#[verifier::rlimit(100)]
pub proof fn lemma_op_regions(op: MultisigOpV, bytes: Seq<u8>)
    requires
        op.disposition_records.len() <= 24,
        enc_multisig_op(op) == bytes,
    ensures
        bytes.len() == MULTISIG_OP_LEN,
        bytes[0] == enc_bool(op.is_initialized)[0],
        bytes[1] == op.disposition_records.len() as u8,
        enc_records(op.disposition_records) == bytes.subrange(
            2,
            2 + 33 * (op.disposition_records.len() as int),
        ),
        bytes.subrange(2 + 33 * (op.disposition_records.len() as int), 794) == zeros(
            ((24 - op.disposition_records.len()) * 33) as nat,
        ),
        bytes[794] == op.dispositions_required,
        bytes[795] == op.operation_disposition.as_u8(),
{
    lemma_enc_multisig_op_len(op);
    lemma_enc_records_len(op.disposition_records);
    vstd::bytes::lemma_auto_spec_u64_to_from_le_bytes();
    let e = enc_multisig_op(op);
    assert(e[0] == enc_bool(op.is_initialized)[0]);
    assert(e[1] == op.disposition_records.len() as u8);
    assert(enc_records(op.disposition_records) =~= e.subrange(
        2,
        2 + 33 * (op.disposition_records.len() as int),
    ));
    assert(zeros(((24 - op.disposition_records.len()) * 33) as nat) =~= e.subrange(
        2 + 33 * (op.disposition_records.len() as int),
        794,
    ));
    assert(e[794] == op.dispositions_required);
    assert(e[795] == op.operation_disposition.as_u8());
}

} // verus!
