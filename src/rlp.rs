//! The size of the RLP encoding of a transaction's access list, the measure
//! that the transaction scan aggregates.
use vstd::prelude::*;

verus! {

/// The number of bytes needed to write `n` in big-endian form.
pub open spec fn byte_width(n: nat) -> nat
    decreases n,
{
    if n == 0 {
        0
    } else {
        1 + byte_width(n / 256)
    }
}

/// The size of the RLP header in front of a payload of `payload` bytes.
pub open spec fn header_len(payload: nat) -> nat {
    if payload < 56 {
        1
    } else {
        1 + byte_width(payload)
    }
}

/// The size of the RLP encoding of the byte string `b`.
pub open spec fn string_len(b: Seq<u8>) -> nat {
    if b.len() == 1 && b[0] < 0x80 {
        1
    } else {
        b.len() + header_len(b.len())
    }
}

/// The size of an RLP list whose items take `payload` bytes.
pub open spec fn list_len(payload: nat) -> nat {
    payload + header_len(payload)
}

/// The sum of `s`.
pub open spec fn sum_of(s: Seq<nat>) -> nat
    decreases s.len(),
{
    if s.len() == 0 {
        0
    } else {
        sum_of(s.drop_last()) + s.last()
    }
}

proof fn lemma_sum_prefix(s: Seq<nat>, i: int)
    requires
        0 <= i <= s.len(),
    ensures
        sum_of(s.take(i)) <= sum_of(s),
    decreases s.len(),
{
    if i < s.len() {
        assert(s.take(i) =~= s.drop_last().take(i));
        lemma_sum_prefix(s.drop_last(), i);
    } else {
        assert(s.take(i) =~= s);
    }
}

/// One entry of an access list: an address and the storage keys under it.
pub struct AccessListEntry {
    pub address: [u8; 20],
    pub storage_keys: Vec<[u8; 32]>,
}

/// The encoded sizes of the storage keys of an entry.
pub open spec fn key_lens(keys: Seq<[u8; 32]>) -> Seq<nat> {
    keys.map_values(|k: [u8; 32]| string_len(k@))
}

/// The size of the RLP encoding of an entry: a list of the address and of
/// the list of storage keys.
pub open spec fn entry_len(e: AccessListEntry) -> nat {
    list_len(string_len(e.address@) + list_len(sum_of(key_lens(e.storage_keys@))))
}

/// The size of the RLP encoding of an access list: a list of its entries.
pub open spec fn access_list_len(l: Seq<AccessListEntry>) -> nat {
    list_len(sum_of(l.map_values(|e: AccessListEntry| entry_len(e))))
}

/// `Some(n)` if `n` fits in a `usize`.
pub open spec fn fit(n: nat) -> Option<usize> {
    if n <= usize::MAX {
        Some(n as usize)
    } else {
        None
    }
}

/// Relies on `alloy_rlp::length_of_length`: the size of the RLP header in
/// front of a payload of the given size.
#[verifier::external_body]
fn rlp_header_len(payload: usize) -> (r: usize)
    ensures
        r == header_len(payload as nat),
{
    alloy_rlp::length_of_length(payload)
}

/// Relies on `<[u8] as alloy_rlp::Encodable>::length`: the size of the RLP
/// encoding of a byte string. Only short strings (addresses, keys) are
/// measured, which keeps the sum inside the call from overflowing.
#[verifier::external_body]
fn rlp_string_len(b: &[u8]) -> (r: usize)
    requires
        b@.len() <= 64,
    ensures
        r == string_len(b@),
{
    <[u8] as alloy_rlp::Encodable>::length(b)
}

/// The size of an RLP list with a payload of `payload` bytes, if it fits.
fn rlp_list_len(payload: usize) -> (r: Option<usize>)
    ensures
        r == fit(list_len(payload as nat)),
{
    payload.checked_add(rlp_header_len(payload))
}

/// The size of the items of a list of byte strings, if it fits.
fn keys_payload_len(keys: &Vec<[u8; 32]>) -> (r: Option<usize>)
    ensures
        r == fit(sum_of(key_lens(keys@))),
{
    let ghost lens = key_lens(keys@);
    let mut acc: usize = 0;
    let mut i: usize = 0;
    while i < keys.len()
        invariant
            i <= keys.len(),
            lens == key_lens(keys@),
            acc == sum_of(lens.take(i as int)),
        decreases keys.len() - i,
    {
        let l = rlp_string_len(keys[i].as_slice());
        proof {
            assert(lens.take(i + 1).drop_last() =~= lens.take(i as int));
            assert(lens.take(i + 1).last() == lens[i as int]);
        }
        match acc.checked_add(l) {
            Some(a) => {
                acc = a;
            },
            None => {
                proof {
                    lemma_sum_prefix(lens, i + 1);
                }
                return None;
            },
        }
        i = i + 1;
    }
    assert(lens.take(i as int) =~= lens);
    Some(acc)
}

/// The size of the RLP encoding of one access list entry, if it fits.
pub fn entry_rlp_len(e: &AccessListEntry) -> (r: Option<usize>)
    ensures
        r == fit(entry_len(*e)),
{
    let addr = rlp_string_len(e.address.as_slice());
    let keys = match keys_payload_len(&e.storage_keys) {
        Some(k) => k,
        None => {
            return None;
        },
    };
    let keys_list = match rlp_list_len(keys) {
        Some(k) => k,
        None => {
            return None;
        },
    };
    match addr.checked_add(keys_list) {
        Some(p) => rlp_list_len(p),
        None => None,
    }
}

/// The size of the RLP encoding of an access list, if it fits in a `usize`.
pub fn access_list_rlp_len(list: &Vec<AccessListEntry>) -> (r: Option<usize>)
    ensures
        r == fit(access_list_len(list@)),
{
    let ghost lens = list@.map_values(|e: AccessListEntry| entry_len(e));
    let mut acc: usize = 0;
    let mut i: usize = 0;
    while i < list.len()
        invariant
            i <= list.len(),
            lens == list@.map_values(|e: AccessListEntry| entry_len(e)),
            acc == sum_of(lens.take(i as int)),
        decreases list.len() - i,
    {
        proof {
            assert(lens.take(i + 1).drop_last() =~= lens.take(i as int));
            assert(lens.take(i + 1).last() == lens[i as int]);
            lemma_sum_prefix(lens, i + 1);
        }
        let l = match entry_rlp_len(&list[i]) {
            Some(l) => l,
            None => {
                return None;
            },
        };
        match acc.checked_add(l) {
            Some(a) => {
                acc = a;
            },
            None => {
                return None;
            },
        }
        i = i + 1;
    }
    assert(lens.take(i as int) =~= lens);
    rlp_list_len(acc)
}

} // verus!
