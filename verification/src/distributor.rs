//! The distributor's dual-cursor protocol: crash-safe mirroring of recent
//! slots into a destination table with a sliding retention window.
//!
//! Two cursors exist, one at the source and one at the destination. A batch
//! commit writes rows and the destination cursor in one transaction; the
//! source cursor follows in its own transaction, so the destination may run
//! ahead by at most one chunk, never behind. Startup reconciliation detects
//! and repairs exactly that state.

use vstd::prelude::*;
use crate::codec::{spec_unzstd, spec_zstd, zstd_compress, zstd_decompress};
use crate::schema::Slot;

verus! {

/// How many slots one fetch asks for.
pub const FETCH_CHUNK_SIZE: u16 = 192;

/// A progress cursor: the last mirrored slot and its height.
#[derive(Debug, Clone, Copy, PartialEq, Eq, Structural)]
pub struct Cursor {
    pub slot: u64,
    pub block_height: u64,
}

/// A startup state the protocol cannot have produced; both are fatal.
#[derive(Debug, Clone, Copy, PartialEq, Eq, Structural)]
pub enum DistributorError {
    /// The destination cursor is behind the source cursor.
    DestinationBehindSource,
    /// The destination cursor is more than one chunk ahead.
    DestinationTooFarAhead,
}

/// The outcome of startup reconciliation: where to resume, and whether the
/// source cursor must first be fast-forwarded to the destination's.
#[derive(Debug, Clone, Copy, PartialEq, Eq, Structural)]
pub struct Reconciliation {
    pub start: Cursor,
    pub advance_source: bool,
}

/// The reconciliation decision.
pub open spec fn spec_reconcile(source: Cursor, dest: Cursor) -> Result<
    Reconciliation,
    DistributorError,
> {
    if dest.slot < source.slot {
        Err(DistributorError::DestinationBehindSource)
    } else if dest.slot != source.slot && dest.block_height > source.block_height
        + FETCH_CHUNK_SIZE {
        Err(DistributorError::DestinationTooFarAhead)
    } else {
        Ok(Reconciliation { start: dest, advance_source: dest.slot > source.slot })
    }
}

/// Reconcile the two cursors at startup: the destination leads by at most
/// one chunk; mirroring resumes at the destination cursor, and the source
/// cursor is fast-forwarded exactly when it was left behind.
pub fn reconcile_cursors(source: Cursor, dest: Cursor) -> (r: Result<
    Reconciliation,
    DistributorError,
>)
    ensures
        r == spec_reconcile(source, dest),
{
    if dest.slot < source.slot {
        Err(DistributorError::DestinationBehindSource)
    } else if dest.slot != source.slot && source.block_height <= u64::MAX - (FETCH_CHUNK_SIZE
        as u64) && dest.block_height > source.block_height + FETCH_CHUNK_SIZE as u64 {
        Err(DistributorError::DestinationTooFarAhead)
    } else {
        Ok(Reconciliation { start: dest, advance_source: dest.slot > source.slot })
    }
}

/// One mirrored row: a slot's metadata and its compressed record.
#[derive(Debug, Clone)]
pub struct DestRow {
    pub slot: u64,
    pub block_height: u64,
    pub block_time: i64,
    pub data: Vec<u8>,
}

/// One planned batch commit: the rows to insert, the height below which old
/// rows leave, and the cursor both stores advance to.
#[derive(Debug)]
pub struct DistributionBatch {
    pub rows: Vec<DestRow>,
    pub delete_below_height: u64,
    pub new_cursor: Slot,
}

/// Why a chunk cannot be turned into a batch.
#[derive(Debug, Clone, Copy, PartialEq, Eq, Structural)]
pub enum DistributeError {
    /// Nothing to distribute.
    EmptyChunk,
    /// The chunk's block heights are not dense.
    HeightsNotDense,
    /// A compressed record did not decompress back to its input; the
    /// compressor's contract proves this unreachable, and the check stands
    /// as the mirror's runtime defence against silent corruption.
    CorruptFrame,
}

/// The chunk's heights are dense: each row is one above its predecessor.
pub open spec fn spec_dense_heights(slots: Seq<Slot>) -> bool {
    forall|i: int|
        0 <= i < slots.len() - 1 ==> (#[trigger] slots[i + 1]).block_height == slots[i].block_height
            + 1
}

/// Subtraction that stops at zero.
pub open spec fn spec_saturating_sub(a: int, b: int) -> int {
    if a >= b {
        a - b
    } else {
        0
    }
}

/// Plan one batch commit from a chunk's records. Every record is
/// compressed, then decompressed and compared back — a frame that does not
/// round-trip is refused. The deletion bound keeps `keep_block_height`
/// heights behind the chunk's last row. Every non-empty chunk with dense
/// heights yields a batch.
pub fn plan_distribution(transactions: Vec<(Slot, String)>, keep_block_height: u64) -> (r: Result<
    DistributionBatch,
    DistributeError,
>)
    ensures
        r is Ok <==> transactions@.len() > 0 && spec_dense_heights(
            transactions@.map_values(|t: (Slot, String)| t.0),
        ),
        r == Err::<DistributionBatch, DistributeError>(DistributeError::EmptyChunk)
            <==> transactions@.len() == 0,
        r == Err::<DistributionBatch, DistributeError>(DistributeError::HeightsNotDense)
            <==> transactions@.len() > 0 && !spec_dense_heights(
            transactions@.map_values(|t: (Slot, String)| t.0),
        ),
        r is Ok ==> ({
            let b = r->Ok_0;
            &&& b.rows@.len() == transactions@.len()
            &&& forall|i: int|
                0 <= i < transactions@.len() ==> {
                    let row = #[trigger] b.rows@[i];
                    let (slot, line) = #[trigger] transactions@[i];
                    &&& row.slot == slot.slot
                    &&& row.block_height == slot.block_height
                    &&& row.block_time == slot.block_time
                    &&& row.data@ == spec_zstd(vstd::utf8::encode_utf8(line@))
                    &&& spec_unzstd(row.data@) == Some(vstd::utf8::encode_utf8(line@))
                }
            &&& b.new_cursor == transactions@.last().0
            &&& b.delete_below_height == spec_saturating_sub(
                transactions@.last().0.block_height as int,
                keep_block_height as int,
            )
        }),
{
    let n = transactions.len();
    if n == 0 {
        return Err(DistributeError::EmptyChunk);
    }
    let mut i: usize = 1;
    while i < n
        invariant
            1 <= i <= n,
            n == transactions@.len(),
            forall|k: int|
                0 <= k < i - 1 ==> (#[trigger] transactions@[k + 1]).0.block_height
                    == transactions@[k].0.block_height + 1,
        decreases n - i,
    {
        if transactions[i].0.block_height == 0 || transactions[i].0.block_height - 1
            != transactions[i - 1].0.block_height {
            proof {
                let ms = transactions@.map_values(|t: (Slot, String)| t.0);
                assert(ms[i as int] == transactions@[i as int].0);
                assert(ms[i as int - 1] == transactions@[i as int - 1].0);
                if spec_dense_heights(ms) {
                    assert(ms[(i as int - 1) + 1].block_height == ms[i as int - 1].block_height
                        + 1);
                }
            }
            return Err(DistributeError::HeightsNotDense);
        }
        i = i + 1;
    }
    proof {
        let ms = transactions@.map_values(|t: (Slot, String)| t.0);
        assert forall|k: int|
            0 <= k < ms.len() - 1 implies (#[trigger] ms[k + 1]).block_height == ms[k].block_height
            + 1 by {
            assert(transactions@[k + 1].0.block_height == transactions@[k].0.block_height + 1);
        }
    }

    let mut rows: Vec<DestRow> = Vec::new();
    let mut j: usize = 0;
    while j < n
        invariant
            j <= n,
            n == transactions@.len(),
            rows@.len() == j,
            forall|i: int|
                0 <= i < j ==> {
                    let row = #[trigger] rows@[i];
                    &&& row.slot == transactions@[i].0.slot
                    &&& row.block_height == transactions@[i].0.block_height
                    &&& row.block_time == transactions@[i].0.block_time
                    &&& row.data@ == spec_zstd(vstd::utf8::encode_utf8(transactions@[i].1@))
                    &&& spec_unzstd(row.data@) == Some(
                        vstd::utf8::encode_utf8(transactions@[i].1@),
                    )
                },
        decreases n - j,
    {
        let slot = transactions[j].0;
        let line = transactions[j].1.as_str().as_bytes();
        let compressed = zstd_compress(line);
        // the defence the mirror relies on: the frame must decode back
        let decoded = match zstd_decompress(compressed.as_slice()) {
            Some(d) => d,
            None => {
                return Err(DistributeError::CorruptFrame);
            },
        };
        if !bytes_eq(decoded.as_slice(), line) {
            return Err(DistributeError::CorruptFrame);
        }
        rows.push(
            DestRow {
                slot: slot.slot,
                block_height: slot.block_height,
                block_time: slot.block_time,
                data: compressed,
            },
        );
        j = j + 1;
    }

    let last = transactions[n - 1].0;
    let delete_below_height = if last.block_height >= keep_block_height {
        last.block_height - keep_block_height
    } else {
        0
    };
    Ok(DistributionBatch { rows, delete_below_height, new_cursor: last })
}

/// Byte-for-byte equality of two slices.
fn bytes_eq(a: &[u8], b: &[u8]) -> (r: bool)
    ensures
        r == (a@ == b@),
{
    let n = a.len();
    if n != b.len() {
        proof {
            assert(a@.len() != b@.len());
        }
        return false;
    }
    let mut i: usize = 0;
    while i < n
        invariant
            n == a@.len() == b@.len(),
            i <= n,
            forall|k: int| 0 <= k < i ==> a@[k] == b@[k],
        decreases n - i,
    {
        if a[i] != b[i] {
            return false;
        }
        i = i + 1;
    }
    proof {
        assert(a@ =~= b@);
    }
    true
}

/// The destination table after one batch: the old rows and the new ones,
/// keeping only heights at or above the deletion bound. Rows are named by
/// slot and height.
pub open spec fn spec_table_after_batch(
    table: Seq<(u64, u64)>,
    inserted: Seq<(u64, u64)>,
    delete_below_height: u64,
) -> Seq<(u64, u64)> {
    (table + inserted).filter(|r: (u64, u64)| r.1 >= delete_below_height)
}

/// Retention: after a batch planned with `keep_block_height`, every row
/// still in the destination table sits at most `keep_block_height` heights
/// behind the destination cursor.
pub proof fn lemma_retention(
    table: Seq<(u64, u64)>,
    inserted: Seq<(u64, u64)>,
    latest_height: u64,
    keep_block_height: u64,
)
    ensures
        ({
            let threshold = spec_saturating_sub(latest_height as int, keep_block_height as int);
            let after = spec_table_after_batch(table, inserted, threshold as u64);
            forall|i: int|
                0 <= i < after.len() ==> (#[trigger] after[i]).1 + keep_block_height
                    >= latest_height
        }),
{
    let threshold = spec_saturating_sub(latest_height as int, keep_block_height as int);
    let after = spec_table_after_batch(table, inserted, threshold as u64);
    let pred = |r: (u64, u64)| r.1 >= threshold as u64;
    assert forall|i: int| 0 <= i < after.len() implies (#[trigger] after[i]).1 + keep_block_height
        >= latest_height by {
        (table + inserted).filter_lemma(pred);
        assert(pred(after[i]));
    }
}

/// The source cursor after reconciliation: fast-forwarded to the resume
/// point when it was left behind, else untouched.
pub open spec fn spec_source_after_reconcile(source: Cursor, r: Reconciliation) -> Cursor {
    if r.advance_source {
        r.start
    } else {
        source
    }
}

/// Dual-cursor recovery: from any startup state the protocol can produce —
/// destination at or ahead of the source, by at most one chunk — startup
/// reconciliation succeeds, leaves both cursors at the destination's slot,
/// and the slots the distributor then mirrors are all new to the
/// destination table: none is inserted twice.
pub proof fn lemma_dual_cursor_recovery(
    source: Cursor,
    dest: Cursor,
    table_slots: Set<u64>,
    fetched: Seq<Slot>,
)
    requires
        dest.slot >= source.slot,
        dest.block_height <= source.block_height + FETCH_CHUNK_SIZE,
        // the destination table never holds a slot past its own cursor
        forall|s: u64| table_slots.contains(s) ==> s <= dest.slot,
        // the resumed fetch returns the cursor slot first; what follows it
        // is strictly later
        forall|i: int| 0 <= i < fetched.len() ==> (#[trigger] fetched[i]).slot > dest.slot,
    ensures
        spec_reconcile(source, dest) is Ok,
        spec_reconcile(source, dest)->Ok_0.start == dest,
        // the cursors agree once the source is fast-forwarded
        spec_source_after_reconcile(source, spec_reconcile(source, dest)->Ok_0).slot == dest.slot,
        // no slot about to be mirrored is already in the table
        forall|i: int| 0 <= i < fetched.len() ==> !table_slots.contains((#[trigger] fetched[i]).slot),
{
}

} // verus!
