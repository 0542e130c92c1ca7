use vstd::prelude::*;
use crate::reconcile::{DepositEntry, EntryModel};
use crate::types::{deposits_model, DataRestoreError, DepositModel, DepositTx, ExitTx, TransferRecord, Word};
use franklin_crypto::alt_babyjubjub::AltJubjubBn256;
use franklin_crypto::bellman::pairing::bn256::{Bn256, Fr};
use franklin_crypto::bellman::pairing::ff::{Field, PrimeField, PrimeFieldRepr};
use franklin_crypto::jubjub::{edwards, Unknown};

verus! {

/// Bytes of block header that precede the transfer records.
pub const TRANSFER_HEADER_LEN: usize = 160;

/// Length of one packed transfer record.
pub const TRANSFER_RECORD_LEN: usize = 9;

/// The x coordinate of the point of the twisted Edwards curve with the given
/// y coordinate and x sign, if there is one.
pub uninterp spec fn jubjub_x_for(y: Word, sign: bool) -> Option<Word>;

/// Relies on franklin_crypto's `edwards::Point::get_for_y` and `into_xy` over
/// the alt-babyjubjub parameters, with `Fr::from_repr` reading `y`: the x
/// coordinate of the point with coordinate `y` and x sign `sign`, or none
/// where `y` is not below the field modulus or has no point. The result
/// depends on `y` and `sign` alone.
#[verifier::external_body]
fn recover_x(y: Word, sign: bool) -> (r: Option<Word>)
    ensures
        r == jubjub_x_for(y, sign),
{
    let mut bytes = [y.hi.to_be_bytes(), y.lo.to_be_bytes()].concat();
    let mut repr = Fr::zero().into_repr();
    repr.read_be(&bytes[..]).ok()?;
    let y = Fr::from_repr(repr).ok()?;
    let point = edwards::Point::<Bn256, Unknown>::get_for_y(y, sign, &AltJubjubBn256::new())?;
    point.into_xy().0.into_repr().write_be(&mut bytes[..]).ok()?;
    let (hi, lo) = bytes.split_at(16);
    Some(Word { hi: u128::from_be_bytes(hi.try_into().ok()?), lo: u128::from_be_bytes(lo.try_into().ok()?) })
}

/// Mask of the 127 low bits of the high half of a packed public key.
pub const Y_HIGH_MASK: u128 = 0x7fff_ffff_ffff_ffff_ffff_ffff_ffff_ffff;

/// The x sign of a packed public key: its top bit.
pub open spec fn key_sign(k: Word) -> bool {
    (k.hi >> 127u128) == 1
}

/// The y coordinate of a packed public key: the other 255 bits.
pub open spec fn key_y(k: Word) -> Word {
    Word { hi: k.hi & Y_HIGH_MASK, lo: k.lo }
}

/// A public key packed from its y coordinate and the sign of its x coordinate.
pub open spec fn pack_key(y: Word, sign: bool) -> Word {
    Word { hi: if sign { y.hi | 0x8000_0000_0000_0000_0000_0000_0000_0000 } else { y.hi }, lo: y.lo }
}

/// The deposit that a pending entry becomes once its key is recovered.
pub open spec fn deposit_tx_of(e: EntryModel, x: Option<Word>) -> Result<DepositModel, DataRestoreError> {
    match x {
        Some(x) => Ok(DepositModel { account: e.account, amount: e.amount, pub_x: x, pub_y: key_y(e.key) }),
        None => Err(DataRestoreError::WrongPubKey),
    }
}

/// Splits a packed public key into its x sign and y coordinate.
pub fn split_key(k: Word) -> (r: (bool, Word))
    ensures
        r.0 == key_sign(k),
        r.1 == key_y(k),
{
    ((k.hi >> 127u128) == 1, Word { hi: k.hi & Y_HIGH_MASK, lo: k.lo })
}

/// Builds the deposit of a pending entry from the recovered x coordinate of
/// its public key; `None` means the key is no point of the curve.
pub fn deposit_tx_with_x(e: &DepositEntry, x: Option<Word>) -> (r: Result<DepositTx, DataRestoreError>)
    ensures
        match r {
            Ok(t) => deposit_tx_of(e@, x) == Ok::<DepositModel, DataRestoreError>(t@),
            Err(err) => deposit_tx_of(e@, x) == Err::<DepositModel, DataRestoreError>(err),
        },
{
    let (_, y) = split_key(e.key);
    match x {
        Some(x) => Ok(DepositTx { account: e.account, amount: e.amount.copy(), pub_x: x, pub_y: y }),
        None => Err(DataRestoreError::WrongPubKey),
    }
}

/// The deposit of a pending entry, with its public key recovered from the
/// packed key: the top bit is the x sign, the other 255 bits are y.
pub open spec fn deposit_of_entry(e: EntryModel) -> Result<DepositModel, DataRestoreError> {
    deposit_tx_of(e, jubjub_x_for(key_y(e.key), key_sign(e.key)))
}

/// Turns the pending deposits of a batch into deposit transactions, failing
/// on the first public key that is no point of the curve.
pub fn deposit_transactions(entries: &Vec<DepositEntry>) -> (r: Result<Vec<DepositTx>, DataRestoreError>)
    ensures
        r is Ok <==> forall|i: int| 0 <= i < entries@.len() ==> (#[trigger] deposit_of_entry(entries@[i]@)) is Ok,
        r is Err ==> r matches Err(DataRestoreError::WrongPubKey),
        r matches Ok(v) ==> v@.len() == entries@.len() && forall|i: int| 0 <= i < v@.len()
            ==> deposit_of_entry(entries@[i]@) == Ok::<DepositModel, DataRestoreError>(#[trigger] deposits_model(v@)[i]),
{
    let mut out: Vec<DepositTx> = Vec::new();
    let mut i: usize = 0;
    while i < entries.len()
        invariant
            0 <= i <= entries.len(),
            out@.len() == i,
            forall|j: int| 0 <= j < i ==> deposit_of_entry(entries@[j]@) == Ok::<DepositModel, DataRestoreError>(#[trigger] out@[j]@),
        decreases entries.len() - i,
    {
        let (sign, y) = split_key(entries[i].key);
        let x = recover_x(y, sign);
        match deposit_tx_with_x(&entries[i], x) {
            Ok(tx) => {
                out.push(tx);
            },
            Err(err) => {
                assert(deposit_of_entry(entries@[i as int]@) is Err);
                return Err(err);
            },
        }
        i = i + 1;
    }
    assert forall|j: int| 0 <= j < entries@.len() implies (#[trigger] deposit_of_entry(entries@[j]@)) is Ok by {
        assert(deposit_of_entry(entries@[j]@) == Ok::<DepositModel, DataRestoreError>(out@[j]@));
    }
    Ok(out)
}

/// Turns the accounts with a pending exit into exit transactions of amount zero.
pub fn exit_transactions(accounts: &Vec<u32>) -> (r: Vec<ExitTx>)
    ensures
        r@.len() == accounts@.len(),
        forall|i: int| 0 <= i < r@.len() ==> #[trigger] r@[i] == (ExitTx { account: accounts@[i], amount: 0 }),
{
    let mut out: Vec<ExitTx> = Vec::new();
    let mut i: usize = 0;
    while i < accounts.len()
        invariant
            0 <= i <= accounts.len(),
            out@.len() == i,
            forall|j: int| 0 <= j < i ==> #[trigger] out@[j] == (ExitTx { account: accounts@[j], amount: 0 }),
        decreases accounts.len() - i,
    {
        out.push(ExitTx { account: accounts[i], amount: 0 });
        i = i + 1;
    }
    out
}

/// The big-endian unsigned value of a byte string.
pub open spec fn be_value(s: Seq<u8>) -> nat
    decreases s.len(),
{
    if s.len() == 0 {
        0
    } else {
        be_value(s.drop_last()) * 256 + s.last() as nat
    }
}

pub open spec fn pow256(n: nat) -> nat
    decreases n,
{
    if n == 0 {
        1
    } else {
        256 * pow256((n - 1) as nat)
    }
}

proof fn lemma_pow256_16()
    ensures
        pow256(16) == 0x1_0000_0000_0000_0000_0000_0000_0000_0000,
{
    reveal_with_fuel(pow256, 17);
}

/// The big-endian value of the 16 bytes of `data` from `start`.
fn read_u128_be(data: &Vec<u8>, start: usize) -> (r: u128)
    requires
        start + 16 <= data@.len(),
    ensures
        r as nat == be_value(data@.subrange(start as int, start + 16)),
{
    let mut acc: u128 = 0;
    let mut k: usize = 0;
    while k < 16
        invariant
            start + 16 <= data.len(),
            0 <= k <= 16,
            acc as nat == be_value(data@.subrange(start as int, start + k)),
            acc < pow256(k as nat),
        decreases 16 - k,
    {
        let b = data[start + k];
        proof {
            let s = data@.subrange(start as int, start + k + 1);
            assert(s.drop_last() =~= data@.subrange(start as int, start + k));
            assert(pow256((k + 1) as nat) == 256 * pow256(k as nat));
            lemma_pow256_16();
            if k + 1 < 16 {
                lemma_pow256_mono((k + 1) as nat, 16);
            }
            assert(acc * 256 + b < 256 * pow256(k as nat)) by (nonlinear_arith)
                requires acc < pow256(k as nat), b < 256;
        }
        acc = acc * 256 + b as u128;
        k = k + 1;
    }
    acc
}

proof fn lemma_pow256_mono(a: nat, b: nat)
    requires
        a <= b,
    ensures
        pow256(a) <= pow256(b),
    decreases b - a,
{
    if a < b {
        lemma_pow256_mono(a, (b - 1) as nat);
        assert(pow256(b) == 256 * pow256((b - 1) as nat));
    }
}

/// Derives the batch key of an operation block: the first 32 bytes of its
/// commitment data, read as a big-endian word.
pub fn get_batch_number(commitment_data: &Vec<u8>) -> (r: Word)
    requires
        commitment_data@.len() >= 32,
    ensures
        r.hi as nat == be_value(commitment_data@.subrange(0, 16)),
        r.lo as nat == be_value(commitment_data@.subrange(16, 32)),
{
    Word { hi: read_u128_be(commitment_data, 0), lo: read_u128_be(commitment_data, 16) }
}

/// The transfer record at index `i` of a transfer block's commitment data.
pub open spec fn record_at(data: Seq<u8>, i: int) -> TransferRecord {
    let b = 160 + 9 * i;
    TransferRecord {
        from: (data[b] as nat * 65536 + data[b + 1] as nat * 256 + data[b + 2] as nat) as u32,
        to: (data[b + 3] as nat * 65536 + data[b + 4] as nat * 256 + data[b + 5] as nat) as u32,
        packed_amount: (data[b + 6] as nat * 256 + data[b + 7] as nat) as u16,
        packed_fee: data[b + 8],
        nonce: i as u32,
    }
}

/// Number of whole records after the header.
pub open spec fn record_count(data: Seq<u8>) -> int {
    (data.len() - 160) / 9
}

/// Decodes the transfers of a transfer block: after a 160-byte header, one
/// 9-byte record per transfer (3-byte sender, 3-byte recipient, 2-byte packed
/// amount, 1-byte packed fee, all big-endian); a trailing partial record is
/// dropped. The record's index becomes the transfer's nonce.
pub fn get_all_transactions_from_transfer_block(commitment_data: &Vec<u8>) -> (r: Result<
    Vec<TransferRecord>,
    DataRestoreError,
>)
    requires
        commitment_data@.len() <= u32::MAX,
    ensures
        r is Err <==> commitment_data@.len() < 160,
        r is Err ==> r == Err::<Vec<TransferRecord>, DataRestoreError>(DataRestoreError::MalformedBlock),
        r matches Ok(v) ==> v@.len() == record_count(commitment_data@) && forall|i: int|
            0 <= i < v@.len() ==> #[trigger] v@[i] == record_at(commitment_data@, i),
{
    let len = commitment_data.len();
    if len < TRANSFER_HEADER_LEN {
        return Err(DataRestoreError::MalformedBlock);
    }
    let count = (len - TRANSFER_HEADER_LEN) / TRANSFER_RECORD_LEN;
    let mut out: Vec<TransferRecord> = Vec::new();
    let mut i: usize = 0;
    while i < count
        invariant
            len == commitment_data@.len(),
            len >= 160,
            len <= u32::MAX,
            count == (len - 160) / 9,
            0 <= i <= count,
            out@.len() == i,
            forall|j: int| 0 <= j < i ==> #[trigger] out@[j] == record_at(commitment_data@, j),
        decreases count - i,
    {
        let b: usize = TRANSFER_HEADER_LEN + TRANSFER_RECORD_LEN * i;
        assert(b + 9 <= len) by (nonlinear_arith)
            requires b == 160 + 9 * i, i < count, count == (len - 160) / 9, len >= 160;
        let from: u32 = commitment_data[b] as u32 * 65536 + commitment_data[b + 1] as u32 * 256
            + commitment_data[b + 2] as u32;
        let to: u32 = commitment_data[b + 3] as u32 * 65536 + commitment_data[b + 4] as u32 * 256
            + commitment_data[b + 5] as u32;
        let packed_amount: u16 = commitment_data[b + 6] as u16 * 256 + commitment_data[b + 7] as u16;
        let rec = TransferRecord {
            from,
            to,
            packed_amount,
            packed_fee: commitment_data[b + 8],
            nonce: i as u32,
        };
        out.push(rec);
        i = i + 1;
    }
    Ok(out)
}

} // verus!
