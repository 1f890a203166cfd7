//! Daily checkpoints: the engine state as two compressed blobs.
//!
//! The program binary becomes gzip of its base64 text; the accounts become
//! gzip of a CSV of (address, base64 of bytes) in ascending address order.
//! Both encodings are functions of the state alone, so two runs over the
//! same state write byte-identical blobs.

use vstd::prelude::*;
use crate::codec::{
    base64_encode, csv_line, gzip_compress, spec_base64, spec_csv_line, spec_gzip,
};
use crate::store::AccountDataStore;

verus! {

/// A checkpoint as persisted: the day, its last slot, and the two blobs.
pub struct CompressedState {
    pub date: u32,
    pub slot: u64,
    pub program_compressed_data: Vec<u8>,
    pub account_compressed_data: Vec<u8>,
}

/// An engine state as loaded from a checkpoint.
pub struct State {
    pub date: u32,
    pub slot: u64,
    pub block_height: u64,
    pub block_time: i64,
    pub program_data: Vec<u8>,
    pub accounts: AccountDataStore,
}

/// The views of an entry sequence: addresses and bytes, order kept.
pub open spec fn spec_entry_views(s: Seq<(String, Vec<u8>)>) -> Seq<(Seq<char>, Seq<u8>)> {
    s.map_values(|e: (String, Vec<u8>)| (e.0@, e.1@))
}

/// The program blob: gzip of the binary's base64 text.
pub open spec fn spec_program_blob(p: Seq<u8>) -> Seq<u8> {
    spec_gzip(vstd::utf8::encode_utf8(spec_base64(p)))
}

/// The accounts CSV: one line per entry, in entry order.
pub open spec fn spec_account_csv(entries: Seq<(String, Vec<u8>)>) -> Seq<u8>
    decreases entries.len(),
{
    if entries.len() == 0 {
        Seq::empty()
    } else {
        spec_account_csv(entries.drop_last()) + spec_csv_line(
            entries.last().0@,
            spec_base64(entries.last().1@),
        )
    }
}

/// The accounts blob: gzip of the accounts CSV.
pub open spec fn spec_accounts_blob(entries: Seq<(String, Vec<u8>)>) -> Seq<u8> {
    spec_gzip(spec_account_csv(entries))
}

/// Compress a program binary for a checkpoint.
pub fn compress_program_data(program: &[u8]) -> (r: Vec<u8>)
    ensures
        r@ == spec_program_blob(program@),
{
    let b64 = base64_encode(program);
    gzip_compress(b64.as_str().as_bytes())
}

/// Compress a store's accounts for a checkpoint, in traversal order. The
/// base64 texts in the CSV never need quoting, which is what lets
/// `decode_accounts_blob` read the blob back.
pub fn compress_account_data(store: &AccountDataStore) -> (r: Vec<u8>)
    ensures
        r@ == spec_accounts_blob(store.spec_entries()),
        spec_plain_encodings(spec_entry_views(store.spec_entries())),
{
    let n = store.len();
    let mut csv: Vec<u8> = Vec::new();
    let mut i: usize = 0;
    while i < n
        invariant
            n == store.spec_entries().len(),
            i <= n,
            csv@ == spec_account_csv(store.spec_entries().take(i as int)),
            forall|k: int|
                0 <= k < i ==> crate::codec::spec_csv_plain(
                    crate::codec::spec_base64((#[trigger] store.spec_entries()[k]).1@),
                ),
        decreases n - i,
    {
        let (pubkey, data) = store.entry_at(i);
        let b64 = base64_encode(data.as_slice());
        let mut line = csv_line(pubkey.as_str(), b64.as_str());
        csv.append(&mut line);
        proof {
            let es = store.spec_entries();
            assert(es.take(i as int + 1).drop_last() =~= es.take(i as int));
            assert(es.take(i as int + 1).last() == es[i as int]);
        }
        i = i + 1;
    }
    proof {
        assert(store.spec_entries().take(n as int) =~= store.spec_entries());
        assert forall|k: int|
            0 <= k < spec_entry_views(store.spec_entries()).len()
            implies crate::codec::spec_csv_plain(
            crate::codec::spec_base64((#[trigger] spec_entry_views(store.spec_entries())[k]).1),
        ) by {
            assert(spec_entry_views(store.spec_entries())[k].1 == store.spec_entries()[k].1@);
        }
    }
    gzip_compress(csv.as_slice())
}

/// Encode one daily checkpoint.
pub fn encode_checkpoint(
    date: u32,
    slot: u64,
    program: &[u8],
    store: &AccountDataStore,
) -> (r: CompressedState)
    ensures
        r.date == date,
        r.slot == slot,
        r.program_compressed_data@ == spec_program_blob(program@),
        r.account_compressed_data@ == spec_accounts_blob(store.spec_entries()),
{
    CompressedState {
        date,
        slot,
        program_compressed_data: compress_program_data(program),
        account_compressed_data: compress_account_data(store),
    }
}

/// Well-formed stores that hold the same accounts list the same entry views,
/// in the same order.
pub proof fn lemma_store_canonical_entries(s1: AccountDataStore, s2: AccountDataStore)
    requires
        s1.inv(),
        s2.inv(),
        s1@ == s2@,
    ensures
        spec_entry_views(s1.spec_entries()) =~= spec_entry_views(s2.spec_entries()),
{
    crate::store::lemma_view_is_map_of(s1);
    crate::store::lemma_view_is_map_of(s2);
    lemma_canonical_rec(s1.spec_entries(), s2.spec_entries());
}

/// The induction behind `lemma_store_canonical_entries`, over entry
/// sequences that strictly ascend by address.
proof fn lemma_canonical_rec(e1: Seq<(String, Vec<u8>)>, e2: Seq<(String, Vec<u8>)>)
    requires
        forall|i: int, j: int|
            0 <= i < j < e1.len() ==> crate::reader::spec_str_lt(
                (#[trigger] e1[i]).0@,
                (#[trigger] e1[j]).0@,
            ),
        forall|i: int, j: int|
            0 <= i < j < e2.len() ==> crate::reader::spec_str_lt(
                (#[trigger] e2[i]).0@,
                (#[trigger] e2[j]).0@,
            ),
        crate::store::spec_map_of(e1) == crate::store::spec_map_of(e2),
    ensures
        spec_entry_views(e1) =~= spec_entry_views(e2),
    decreases e1.len(),
{
    crate::reader::lemma_str_order_properties();
    distinct_of(e1);
    distinct_of(e2);
    if e1.len() == 0 {
        if e2.len() > 0 {
            crate::store::lemma_map_of_index(e2, 0);
            assert(crate::store::spec_map_of(e1).contains_key(e2[0].0@));
            crate::store::lemma_map_of_absent(e1, e2[0].0@);
        }
    } else if e2.len() == 0 {
        crate::store::lemma_map_of_index(e1, 0);
        assert(crate::store::spec_map_of(e2).contains_key(e1[0].0@));
        crate::store::lemma_map_of_absent(e2, e1[0].0@);
    } else {
        crate::store::lemma_map_of_index(e1, 0);
        crate::store::lemma_map_of_index(e2, 0);
        // the head keys coincide: each head is in the other map, and a later
        // position would put it above the other's head in the order
        assert(crate::store::spec_map_of(e2).contains_key(e1[0].0@));
        let j = crate::store::lemma_map_of_witness(e2, e1[0].0@);
        assert(crate::store::spec_map_of(e1).contains_key(e2[0].0@));
        let i = crate::store::lemma_map_of_witness(e1, e2[0].0@);
        if i > 0 && j > 0 {
            assert(crate::reader::spec_str_lt(e1[0].0@, e1[i].0@));
            assert(crate::reader::spec_str_lt(e2[0].0@, e2[j].0@));
            assert(false);
        }
        assert(e1[0].0@ == e2[0].0@);
        assert(e1[0].1@ == e2[0].1@) by {
            assert(crate::store::spec_map_of(e1)[e1[0].0@] == e1[0].1@);
            assert(crate::store::spec_map_of(e2)[e2[0].0@] == e2[0].1@);
        }
        crate::store::lemma_map_of_remove(e1, 0);
        crate::store::lemma_map_of_remove(e2, 0);
        assert(e1.remove(0) =~= e1.drop_first());
        assert(e2.remove(0) =~= e2.drop_first());
        assert(forall|p: int, q: int|
            0 <= p < q < e1.len() - 1 ==> e1.drop_first()[p] == e1[p + 1]
                && e1.drop_first()[q] == e1[q + 1]);
        assert(forall|p: int, q: int|
            0 <= p < q < e2.len() - 1 ==> e2.drop_first()[p] == e2[p + 1]
                && e2.drop_first()[q] == e2[q + 1]);
        lemma_canonical_rec(e1.drop_first(), e2.drop_first());
        assert(spec_entry_views(e1).drop_first() =~= spec_entry_views(e1.drop_first()));
        assert(spec_entry_views(e2).drop_first() =~= spec_entry_views(e2.drop_first()));
        assert(spec_entry_views(e1).len() == spec_entry_views(e2).len());
        assert forall|k: int| 0 <= k < spec_entry_views(e1).len() implies spec_entry_views(e1)[k]
            == spec_entry_views(e2)[k] by {
            if k > 0 {
                assert(spec_entry_views(e1)[k] == spec_entry_views(e1).drop_first()[k - 1]);
                assert(spec_entry_views(e2)[k] == spec_entry_views(e2).drop_first()[k - 1]);
            }
        }
    }
}

/// Distinct keys, from strict ascent.
proof fn distinct_of(e: Seq<(String, Vec<u8>)>)
    requires
        forall|i: int, j: int|
            0 <= i < j < e.len() ==> crate::reader::spec_str_lt(
                (#[trigger] e[i]).0@,
                (#[trigger] e[j]).0@,
            ),
    ensures
        crate::store::spec_distinct_entry_keys(e),
{
    crate::reader::lemma_str_order_properties();
    assert forall|i: int, j: int| 0 <= i < j < e.len() implies (#[trigger] e[i]).0@
        != (#[trigger] e[j]).0@ by {
        assert(crate::reader::spec_str_lt(e[i].0@, e[j].0@));
    }
}

/// Checkpoint determinism: two well-formed states that hold the same
/// program bytes and the same account map produce byte-identical blobs.
pub proof fn lemma_checkpoint_deterministic(
    p1: Seq<u8>,
    p2: Seq<u8>,
    s1: AccountDataStore,
    s2: AccountDataStore,
)
    requires
        p1 == p2,
        s1.inv(),
        s2.inv(),
        s1@ == s2@,
    ensures
        spec_program_blob(p1) == spec_program_blob(p2),
        spec_accounts_blob(s1.spec_entries()) == spec_accounts_blob(s2.spec_entries()),
{
    lemma_store_canonical_entries(s1, s2);
    lemma_csv_of_views(s1.spec_entries());
    lemma_csv_of_views(s2.spec_entries());
}

/// The accounts CSV over entry views alone.
pub open spec fn spec_account_csv_views(views: Seq<(Seq<char>, Seq<u8>)>) -> Seq<u8>
    decreases views.len(),
{
    if views.len() == 0 {
        Seq::empty()
    } else {
        spec_account_csv_views(views.drop_last()) + spec_csv_line(
            views.last().0,
            spec_base64(views.last().1),
        )
    }
}

/// The accounts CSV depends only on the entries' views.
proof fn lemma_csv_of_views(e: Seq<(String, Vec<u8>)>)
    ensures
        spec_account_csv(e) == spec_account_csv_views(spec_entry_views(e)),
    decreases e.len(),
{
    if e.len() > 0 {
        lemma_csv_of_views(e.drop_last());
        assert(spec_entry_views(e).drop_last() =~= spec_entry_views(e.drop_last()));
        assert(spec_entry_views(e).last() == (e.last().0@, e.last().1@));
    }
}


/// What decoding a program blob yields: gunzip, then read the text, then
/// undo the base64.
pub open spec fn spec_decode_program(blob: Seq<u8>) -> Option<Seq<u8>> {
    match crate::codec::spec_gunzip(blob) {
        Some(bytes) => {
            if vstd::utf8::valid_utf8(bytes) {
                crate::codec::spec_base64_decode(vstd::utf8::decode_utf8(bytes))
            } else {
                None
            }
        },
        None => None,
    }
}

/// Decode a checkpoint's program blob back to the program's bytes; decoding
/// inverts `compress_program_data`.
pub fn decode_program_blob(blob: &[u8]) -> (r: Option<Vec<u8>>)
    ensures
        r is Some <==> spec_decode_program(blob@) is Some,
        r is Some ==> r->0@ == spec_decode_program(blob@)->0,
        forall|p: Seq<u8>| blob@ == spec_program_blob(p) ==> r is Some && r->0@ == p,
{
    let gz = crate::codec::gzip_decompress(blob);
    proof {
        assert forall|p: Seq<u8>| blob@ == spec_program_blob(p) implies gz is Some && gz->0@
            == vstd::utf8::encode_utf8(crate::codec::spec_base64(p)) by {
        }
    }
    let gunzipped = match gz {
        Some(b) => b,
        None => {
            return None;
        },
    };
    let ghost gbytes = gunzipped@;
    let text = crate::codec::bytes_to_string(gunzipped);
    proof {
        assert forall|p: Seq<u8>| blob@ == spec_program_blob(p) implies text is Some && text->0@
            == crate::codec::spec_base64(p) by {
            vstd::utf8::encode_utf8_valid_utf8(crate::codec::spec_base64(p));
            vstd::utf8::encode_utf8_decode_utf8(crate::codec::spec_base64(p));
        }
    }
    let text = match text {
        Some(t) => t,
        None => {
            return None;
        },
    };
    let r = crate::codec::base64_decode(text.as_str());
    r
}

/// The map a list of decoded accounts holds, later entries overwriting
/// earlier ones.
pub open spec fn spec_map_of_accounts(s: Seq<crate::schema::WhirlpoolStateAccount>) -> Map<
    Seq<char>,
    Seq<u8>,
>
    decreases s.len(),
{
    if s.len() == 0 {
        Map::empty()
    } else {
        spec_map_of_accounts(s.drop_last()).insert(s.last().pubkey@, s.last().data@)
    }
}

/// The CSV rows an entry-view list writes: address and base64 text.
pub open spec fn spec_csv_rows_of(vs: Seq<(Seq<char>, Seq<u8>)>) -> Seq<(Seq<char>, Seq<char>)> {
    vs.map_values(|v: (Seq<char>, Seq<u8>)| (v.0, spec_base64(v.1)))
}

/// Every address avoids the CSV specials.
pub open spec fn spec_plain_addresses(vs: Seq<(Seq<char>, Seq<u8>)>) -> bool {
    forall|i: int|
        0 <= i < vs.len() ==> crate::codec::spec_csv_plain((#[trigger] vs[i]).0)
}

/// Every entry's base64 text avoids the CSV specials; `compress_account_data`
/// guarantees this of what it writes.
pub open spec fn spec_plain_encodings(vs: Seq<(Seq<char>, Seq<u8>)>) -> bool {
    forall|i: int|
        0 <= i < vs.len() ==> crate::codec::spec_csv_plain(spec_base64((#[trigger] vs[i]).1))
}

/// The blob is the accounts blob of the given entry views, with every field
/// writable unquoted.
pub open spec fn spec_encodes_accounts(blob: Seq<u8>, vs: Seq<(Seq<char>, Seq<u8>)>) -> bool {
    &&& blob == spec_gzip(spec_account_csv_views(vs))
    &&& spec_plain_addresses(vs)
    &&& spec_plain_encodings(vs)
}

/// The accounts CSV is the file of its rows.
proof fn lemma_account_csv_as_lines(vs: Seq<(Seq<char>, Seq<u8>)>)
    ensures
        spec_account_csv_views(vs) == crate::codec::spec_csv_lines(spec_csv_rows_of(vs)),
    decreases vs.len(),
{
    if vs.len() > 0 {
        lemma_account_csv_as_lines(vs.drop_last());
        assert(spec_csv_rows_of(vs).drop_last() =~= spec_csv_rows_of(vs.drop_last()));
        assert(spec_csv_rows_of(vs).last() == (vs.last().0, spec_base64(vs.last().1)));
    }
}

/// Decode a checkpoint's accounts blob back to the account list, in the
/// stored order: gunzip, parse the CSV, undo each row's base64. Decoding
/// inverts `compress_account_data` whenever the addresses are plain: a blob
/// that encodes some entries decodes to exactly those entries.
pub fn decode_accounts_blob(blob: &[u8]) -> (r: Option<Vec<crate::schema::WhirlpoolStateAccount>>)
    ensures
        r is Some ==> ({
            let parsed = crate::codec::spec_csv_parse(
                crate::codec::spec_gunzip(blob@)->0,
            )->0;
            &&& crate::codec::spec_gunzip(blob@) is Some
            &&& crate::codec::spec_csv_parse(crate::codec::spec_gunzip(blob@)->0) is Some
            &&& r->0@.len() == parsed.len()
            &&& forall|i: int|
                0 <= i < parsed.len() ==> (#[trigger] r->0@[i]).pubkey@ == parsed[i].0
                    && crate::codec::spec_base64_decode(parsed[i].1) == Some(r->0@[i].data@)
        }),
        forall|vs: Seq<(Seq<char>, Seq<u8>)>|
            #[trigger] spec_encodes_accounts(blob@, vs) ==> r is Some && r->0@.len() == vs.len()
                && (forall|i: int|
                0 <= i < vs.len() ==> (#[trigger] r->0@[i]).pubkey@ == vs[i].0 && r->0@[i].data@
                    == vs[i].1),
{
    let gz = crate::codec::gzip_decompress(blob);
    proof {
        assert forall|vs: Seq<(Seq<char>, Seq<u8>)>|
            #[trigger] spec_encodes_accounts(blob@, vs) implies gz is Some && gz->0@
            == crate::codec::spec_csv_lines(spec_csv_rows_of(vs)) by {
            lemma_account_csv_as_lines(vs);
        }
    }
    let csv_bytes = match gz {
        Some(b) => b,
        None => {
            return None;
        },
    };
    let parse = crate::codec::csv_parse(csv_bytes.as_slice());
    proof {
        assert forall|vs: Seq<(Seq<char>, Seq<u8>)>|
            #[trigger] spec_encodes_accounts(blob@, vs) implies parse is Some
            && crate::codec::spec_csv_parse(csv_bytes@) == Some(spec_csv_rows_of(vs)) by {
            let rows = spec_csv_rows_of(vs);
            assert forall|i: int|
                0 <= i < rows.len() implies crate::codec::spec_csv_plain(
                (#[trigger] rows[i]).0,
            ) && crate::codec::spec_csv_plain(rows[i].1) by {
                assert(rows[i] == (vs[i].0, spec_base64(vs[i].1)));
                assert(crate::codec::spec_csv_plain(vs[i].0));
                assert(crate::codec::spec_csv_plain(spec_base64(vs[i].1)));
            }
            assert(crate::codec::spec_csv_rows_plain(rows));
            assert(csv_bytes@ == crate::codec::spec_csv_lines(rows));
            assert(parse is Some);
            let p0 = crate::codec::spec_csv_parse(csv_bytes@)->0;
            assert(p0.len() == rows.len()) by {
                assert(parse->0@.len() == rows.len());
                assert(parse->0@.len() == p0.len());
            }
            assert forall|i: int| 0 <= i < rows.len() implies #[trigger] p0[i] == rows[i] by {
                assert(parse->0@[i].0@ == rows[i].0 && parse->0@[i].1@ == rows[i].1);
                assert(parse->0@[i].0@ == p0[i].0 && parse->0@[i].1@ == p0[i].1);
                assert(p0[i] == (p0[i].0, p0[i].1));
                assert(rows[i] == (rows[i].0, rows[i].1));
            }
            assert(p0 =~= rows);
        }
    }
    let rows = match parse {
        Some(rows) => rows,
        None => {
            return None;
        },
    };
    let ghost parsed = crate::codec::spec_csv_parse(crate::codec::spec_gunzip(blob@)->0)->0;
    let mut out: Vec<crate::schema::WhirlpoolStateAccount> = Vec::new();
    let n = rows.len();
    let ghost rows0 = rows@;
    let mut rows = rows;
    let mut i: usize = 0;
    while rows.len() > 0
        invariant
            rows0.len() == n,
            n == parsed.len(),
            forall|k: int|
                0 <= k < n ==> (#[trigger] rows0[k]).0@ == parsed[k].0 && rows0[k].1@
                    == parsed[k].1,
            i <= n,
            rows@ == rows0.skip(i as int),
            out@.len() == i,
            forall|k: int|
                0 <= k < i ==> (#[trigger] out@[k]).pubkey@ == parsed[k].0
                    && crate::codec::spec_base64_decode(parsed[k].1) == Some(out@[k].data@),
            forall|vs: Seq<(Seq<char>, Seq<u8>)>|
                #[trigger] spec_encodes_accounts(blob@, vs) ==> parsed == spec_csv_rows_of(vs),
            forall|vs: Seq<(Seq<char>, Seq<u8>)>|
                #[trigger] spec_encodes_accounts(blob@, vs) ==> (forall|k: int|
                    0 <= k < i ==> (#[trigger] out@[k]).pubkey@ == vs[k].0 && out@[k].data@
                        == vs[k].1),
        decreases rows.len(),
    {
        proof {
            assert(rows0.skip(i as int).len() == rows0.len() - i);
        }
        let (pubkey, data_b64) = rows.remove(0);
        proof {
            assert(rows0.skip(i as int)[0] == rows0[i as int]);
            assert(rows0.skip(i as int).remove(0) =~= rows0.skip(i as int + 1));
        }
        let decoded = crate::codec::base64_decode(data_b64.as_str());
        proof {
            assert forall|vs: Seq<(Seq<char>, Seq<u8>)>|
                #[trigger] spec_encodes_accounts(blob@, vs) implies decoded is Some && decoded->0@
                == vs[i as int].1 by {
                assert(parsed[i as int] == spec_csv_rows_of(vs)[i as int]);
                assert(data_b64@ == spec_base64(vs[i as int].1));
            }
        }
        let data = match decoded {
            Some(d) => d,
            None => {
                return None;
            },
        };
        let ghost data_view = data@;
        out.push(crate::schema::WhirlpoolStateAccount { pubkey, data });
        proof {
            assert forall|vs: Seq<(Seq<char>, Seq<u8>)>|
                #[trigger] spec_encodes_accounts(blob@, vs) implies (forall|k: int|
                0 <= k < i + 1 ==> (#[trigger] out@[k]).pubkey@ == vs[k].0 && out@[k].data@
                    == vs[k].1) by {
                assert(parsed[i as int] == spec_csv_rows_of(vs)[i as int]);
                assert(out@[i as int].pubkey@ == parsed[i as int].0);
                assert(out@[i as int].data@ == data_view);
            }
        }
        i = i + 1;
    }
    Some(out)
}

/// Build an account store from decoded accounts, in their given order.
pub fn accounts_store_from_entries(entries: Vec<crate::schema::WhirlpoolStateAccount>) -> (r:
    AccountDataStore)
    ensures
        r.inv(),
        r@ == spec_map_of_accounts(entries@),
{
    let mut store = AccountDataStore::new_on_memory();
    let n = entries.len();
    let ghost es = entries@;
    let mut entries = entries;
    let mut i: usize = 0;
    proof {
        assert(spec_map_of_accounts(es.take(0)) =~= Map::<Seq<char>, Seq<u8>>::empty());
    }
    while entries.len() > 0
        invariant
            es.len() == n,
            i <= n,
            entries@ == es.skip(i as int),
            store.inv(),
            store@ == spec_map_of_accounts(es.take(i as int)),
        decreases entries.len(),
    {
        proof {
            assert(es.skip(i as int).len() == es.len() - i);
        }
        let a = entries.remove(0);
        proof {
            assert(es.skip(i as int)[0] == es[i as int]);
            assert(es.skip(i as int).remove(0) =~= es.skip(i as int + 1));
            assert(es.take(i as int + 1).drop_last() =~= es.take(i as int));
            assert(es.take(i as int + 1).last() == es[i as int]);
        }
        store.upsert(a.pubkey, a.data);
        i = i + 1;
    }
    proof {
        assert(es.take(i as int) =~= es);
    }
    store
}

} // verus!
