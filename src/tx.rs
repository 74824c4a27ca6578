//! The per-record transform of the transaction scan: each record becomes a
//! row carrying the transaction's number, type and hash, and the encoded size
//! of its access list.
use vstd::prelude::*;
use crate::rlp::{access_list_len, access_list_rlp_len, AccessListEntry};
use crate::aggregate::CategorySize;

verus! {

/// Why a record could not be turned into a row.
#[derive(Debug, Clone, Copy, PartialEq, Eq, Structural)]
pub enum RecordError {
    /// The key is not an 8-byte transaction number; it has this many bytes.
    KeyLength(usize),
    /// The access list's encoding would not fit in memory.
    AccessListTooLarge,
}

/// The fields of a decoded transaction that the scan reads.
pub struct TxRecord {
    pub tx_type: u8,
    pub hash: [u8; 32],
    /// `None` for transaction types that carry no access list.
    pub access_list: Option<Vec<AccessListEntry>>,
}

/// The derived tuple of one transaction.
#[derive(Debug, Clone, Copy)]
pub struct TxRow {
    pub number: u64,
    pub tx_type: u8,
    pub hash: [u8; 32],
    /// The size of the RLP encoding of the access list; 0 if there is none.
    pub access_list_len: usize,
}

/// The big-endian value of eight bytes.
pub open spec fn be_u64(b: Seq<u8>) -> int {
    b[0] * 0x100_0000_0000_0000 + b[1] * 0x1_0000_0000_0000 + b[2] * 0x100_0000_0000 + b[3]
        * 0x1_0000_0000 + b[4] * 0x100_0000 + b[5] * 0x1_0000 + b[6] * 0x100 + b[7]
}

/// Reads a transaction number key: eight bytes, big-endian.
pub fn decode_tx_number(key: &[u8]) -> (r: Result<u64, RecordError>)
    ensures
        key@.len() == 8 ==> r == Ok::<u64, RecordError>(be_u64(key@) as u64),
        key@.len() != 8 ==> r == Err::<u64, RecordError>(RecordError::KeyLength(key@.len() as usize)),
{
    if key.len() != 8 {
        return Err(RecordError::KeyLength(key.len()));
    }
    let v: u64 = (key[0] as u64) * 0x100_0000_0000_0000 + (key[1] as u64) * 0x1_0000_0000_0000
        + (key[2] as u64) * 0x100_0000_0000 + (key[3] as u64) * 0x1_0000_0000 + (key[4] as u64)
        * 0x100_0000 + (key[5] as u64) * 0x1_0000 + (key[6] as u64) * 0x100 + (key[7] as u64);
    Ok(v)
}

/// The measured size of a transaction: the encoded size of its access list.
pub open spec fn measured_len(tx: TxRecord) -> nat {
    match tx.access_list {
        Some(l) => access_list_len(l@),
        None => 0,
    }
}

/// The row of a transaction with the given number, or why there is none.
pub open spec fn row_of(number: u64, tx: TxRecord) -> Result<TxRow, RecordError> {
    if measured_len(tx) <= usize::MAX {
        Ok(
            TxRow {
                number,
                tx_type: tx.tx_type,
                hash: tx.hash,
                access_list_len: measured_len(tx) as usize,
            },
        )
    } else {
        Err(RecordError::AccessListTooLarge)
    }
}

/// The row of a transaction with the given number.
pub fn tx_row(number: u64, tx: &TxRecord) -> (r: Result<TxRow, RecordError>)
    ensures
        r == row_of(number, *tx),
{
    let len = match &tx.access_list {
        Some(l) => match access_list_rlp_len(l) {
            Some(n) => n,
            None => {
                return Err(RecordError::AccessListTooLarge);
            },
        },
        None => 0,
    };
    Ok(TxRow { number, tx_type: tx.tx_type, hash: tx.hash, access_list_len: len })
}

/// The row of a raw record: its key bytes and its decoded value.
pub fn record_row(key: &[u8], tx: &TxRecord) -> (r: Result<TxRow, RecordError>)
    ensures
        key@.len() != 8 ==> r == Err::<TxRow, RecordError>(RecordError::KeyLength(key@.len() as usize)),
        key@.len() == 8 ==> r == row_of(be_u64(key@) as u64, *tx),
{
    let number = decode_tx_number(key)?;
    tx_row(number, tx)
}

/// The `(category, size)` tuples of the rows with a non-empty access list,
/// in order: the input of the max-by-category aggregator.
pub open spec fn category_sizes_of(rows: Seq<TxRow>) -> Seq<CategorySize>
    decreases rows.len(),
{
    if rows.len() == 0 {
        Seq::empty()
    } else {
        let rest = category_sizes_of(rows.drop_last());
        let last = rows.last();
        if last.access_list_len > 0 {
            rest.push((last.tx_type, last.access_list_len))
        } else {
            rest
        }
    }
}

/// The tuples of a page of rows, with the degenerate (empty) ones dropped.
pub fn category_sizes(rows: &Vec<TxRow>) -> (r: Vec<CategorySize>)
    ensures
        r@ == category_sizes_of(rows@),
{
    let mut out: Vec<CategorySize> = Vec::new();
    let mut i: usize = 0;
    while i < rows.len()
        invariant
            i <= rows.len(),
            out@ == category_sizes_of(rows@.take(i as int)),
        decreases rows.len() - i,
    {
        proof {
            assert(rows@.take(i + 1).drop_last() =~= rows@.take(i as int));
            assert(rows@.take(i + 1).last() == rows@[i as int]);
        }
        let row = rows[i];
        if row.access_list_len > 0 {
            out.push((row.tx_type, row.access_list_len));
        }
        i = i + 1;
    }
    assert(rows@.take(i as int) =~= rows@);
    out
}

/// The transaction numbers at the two ends of a page of a reverse scan: the
/// lowest (its last row) and the highest (its first row).
pub fn page_bounds(rows: &Vec<TxRow>) -> (r: Option<(u64, u64)>)
    ensures
        rows@.len() == 0 ==> r is None,
        rows@.len() > 0 ==> r == Some((rows@.last().number, rows@[0].number)),
{
    if rows.len() == 0 {
        None
    } else {
        Some((rows[rows.len() - 1].number, rows[0].number))
    }
}

} // verus!
