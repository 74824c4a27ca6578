use page_scan::rlp::{access_list_rlp_len, entry_rlp_len, AccessListEntry};
use page_scan::tx::{
    category_sizes, decode_tx_number, page_bounds, record_row, tx_row, RecordError, TxRecord, TxRow,
};

fn entry(keys: usize) -> AccessListEntry {
    AccessListEntry { address: [0x11; 20], storage_keys: vec![[0x22; 32]; keys] }
}

fn row(number: u64, tx_type: u8, len: usize) -> TxRow {
    TxRow { number, tx_type, hash: [0; 32], access_list_len: len }
}

#[test]
fn tx_number_is_big_endian() {
    assert_eq!(decode_tx_number(&[0, 0, 0, 0, 0, 0, 1, 2]), Ok(258));
    assert_eq!(decode_tx_number(&[0xff; 8]), Ok(u64::MAX));
    assert_eq!(decode_tx_number(&[1, 0, 0, 0, 0, 0, 0, 0]), Ok(1 << 56));
}

#[test]
fn tx_number_of_wrong_length() {
    assert_eq!(decode_tx_number(&[1, 2, 3]), Err(RecordError::KeyLength(3)));
    assert_eq!(decode_tx_number(&[]), Err(RecordError::KeyLength(0)));
}

#[test]
fn access_list_lengths() {
    assert_eq!(access_list_rlp_len(&vec![]), Some(1));
    assert_eq!(entry_rlp_len(&entry(0)), Some(23));
    assert_eq!(access_list_rlp_len(&vec![entry(0)]), Some(24));
    // one key: the entry payload is 55 bytes, the list payload 56
    assert_eq!(entry_rlp_len(&entry(1)), Some(56));
    assert_eq!(access_list_rlp_len(&vec![entry(1)]), Some(58));
    assert_eq!(access_list_rlp_len(&vec![entry(2), entry(0)]), Some(116));
}

#[test]
fn row_without_access_list() {
    let tx = TxRecord { tx_type: 0, hash: [7; 32], access_list: None };
    let r = tx_row(5, &tx).unwrap();
    assert_eq!(r.number, 5);
    assert_eq!(r.tx_type, 0);
    assert_eq!(r.hash, [7; 32]);
    assert_eq!(r.access_list_len, 0);
}

#[test]
fn row_of_raw_record() {
    let tx = TxRecord { tx_type: 1, hash: [9; 32], access_list: Some(vec![entry(1)]) };
    let r = record_row(&[0, 0, 0, 0, 0, 0, 0, 42], &tx).unwrap();
    assert_eq!(r.number, 42);
    assert_eq!(r.tx_type, 1);
    assert_eq!(r.access_list_len, 58);
    assert!(matches!(record_row(&[42], &tx), Err(RecordError::KeyLength(1))));
}

#[test]
fn empty_access_lists_are_dropped() {
    let rows = vec![row(3, 2, 0), row(2, 1, 58), row(1, 2, 24)];
    assert_eq!(category_sizes(&rows), vec![(1, 58), (2, 24)]);
}

#[test]
fn bounds_of_a_reverse_page() {
    let rows = vec![row(30, 0, 0), row(29, 0, 0), row(28, 0, 0)];
    assert_eq!(page_bounds(&rows), Some((28, 30)));
    assert_eq!(page_bounds(&vec![]), None);
}
