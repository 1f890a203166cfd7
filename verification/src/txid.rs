//! Packed transaction identifiers.
//!
//! A transaction is identified by `txid = slot * 2^24 + index`, where
//! `index` is the transaction's position within its slot and is below `2^24`.
//! Range scans over `txid` then stand in for range scans over slots.

use vstd::prelude::*;

verus! {

/// Number of low bits of a txid that hold the in-slot index.
pub const TXID_INDEX_BITS: u64 = 24;

/// `2^24`, the weight of the slot part of a txid.
pub const TXID_SLOT_WEIGHT: u64 = 0x1000000;

/// Largest slot that can be packed: the slot part must fit in the
/// remaining 40 bits of a `u64`.
pub const MAX_PACKABLE_SLOT: u64 = 0xFFFFFFFFFF;

/// The slot a txid belongs to.
pub open spec fn spec_txid_slot(txid: u64) -> int {
    txid as int / 0x1000000
}

/// The in-slot index a txid carries.
pub open spec fn spec_txid_index(txid: u64) -> int {
    txid as int % 0x1000000
}

/// Pack a slot and an in-slot index into a txid.
pub fn pack_txid(slot: u64, index: u32) -> (txid: u64)
    requires
        slot <= MAX_PACKABLE_SLOT,
        index < TXID_SLOT_WEIGHT,
    ensures
        txid == slot * TXID_SLOT_WEIGHT + index,
        spec_txid_slot(txid) == slot,
        spec_txid_index(txid) == index,
{
    let txid = (slot << 24) | (index as u64);
    proof {
        lemma_pack_txid_bits(slot, index as u64);
    }
    txid
}

/// The bit form `(slot << 24) | index` equals the arithmetic form
/// `slot * 2^24 + index` when both parts are in range.
proof fn lemma_pack_txid_bits(slot: u64, index: u64)
    requires
        slot <= MAX_PACKABLE_SLOT,
        index < TXID_SLOT_WEIGHT,
    ensures
        ((slot << 24) | index) == slot * 0x1000000 + index,
        spec_txid_slot((slot << 24) | index) == slot,
        spec_txid_index((slot << 24) | index) == index,
{
    assert(((slot << 24) | index) / 0x1000000 == slot && ((slot << 24) | index) % 0x1000000
        == index) by (bit_vector)
        requires slot <= 0xFFFFFFFFFFu64 && index < 0x1000000u64;
    vstd::arithmetic::div_mod::lemma_fundamental_div_mod(((slot << 24) | index) as int, 0x1000000);
}

/// Extract the slot from a txid.
pub fn txid_slot(txid: u64) -> (slot: u64)
    ensures
        slot == spec_txid_slot(txid),
{
    proof {
        assert((txid >> 24) == txid / 0x1000000) by (bit_vector);
    }
    txid >> 24
}

/// Extract the in-slot index from a txid.
pub fn txid_index(txid: u64) -> (index: u32)
    ensures
        index == spec_txid_index(txid),
{
    proof {
        assert((txid & 0xFFFFFF) == txid % 0x1000000) by (bit_vector);
        assert(txid % 0x1000000 < 0x1000000) by (bit_vector);
    }
    (txid & 0xFFFFFF) as u32
}

/// The first txid that can belong to `slot`.
pub fn min_txid_of_slot(slot: u64) -> (txid: u64)
    requires
        slot <= MAX_PACKABLE_SLOT,
    ensures
        txid == slot * TXID_SLOT_WEIGHT,
        spec_txid_slot(txid) == slot,
        spec_txid_index(txid) == 0,
{
    pack_txid(slot, 0)
}

/// The last txid that can belong to `slot`.
pub fn max_txid_of_slot(slot: u64) -> (txid: u64)
    requires
        slot <= MAX_PACKABLE_SLOT,
    ensures
        txid == slot * TXID_SLOT_WEIGHT + (TXID_SLOT_WEIGHT - 1),
        spec_txid_slot(txid) == slot,
        spec_txid_index(txid) == TXID_SLOT_WEIGHT - 1,
{
    pack_txid(slot, (TXID_SLOT_WEIGHT - 1) as u32)
}

/// Packing then unpacking gives back the slot and the index, and the
/// unpacked parts are exactly the identifier's high and low bits: for every
/// packed txid, `txid >> 24` is the slot and `txid & 0xFFFFFF` is the index.
pub proof fn lemma_txid_packing(slot: u64, index: u32)
    requires
        slot <= MAX_PACKABLE_SLOT,
        index < TXID_SLOT_WEIGHT,
    ensures
        spec_txid_slot((slot * TXID_SLOT_WEIGHT + index) as u64) == slot,
        spec_txid_index((slot * TXID_SLOT_WEIGHT + index) as u64) == index,
        ((slot * TXID_SLOT_WEIGHT + index) as u64) >> 24 == slot,
        ((slot * TXID_SLOT_WEIGHT + index) as u64) & 0xFFFFFF == index,
{
    lemma_pack_txid_bits(slot, index as u64);
    let txid = (slot * TXID_SLOT_WEIGHT + index) as u64;
    assert(txid == (slot << 24) | (index as u64));
    assert((txid >> 24) == txid / 0x1000000) by (bit_vector);
    assert((txid & 0xFFFFFF) == txid % 0x1000000) by (bit_vector);
}

/// Txids order slots: every txid of a smaller slot is below every txid of a
/// larger slot, so a txid range scan is a slot range scan.
pub proof fn lemma_txid_orders_slots(a: u64, b: u64)
    requires
        spec_txid_slot(a) < spec_txid_slot(b),
    ensures
        a < b,
{
    assert(a < b) by (bit_vector)
        requires a / 0x1000000 < b / 0x1000000;
}

} // verus!
