//! The archiver's verified core: which day to archive next, where each
//! artifact lands, and the exact bytes of the exported bundles.
//!
//! Every builder here is a function of its inputs alone, which is what makes
//! re-archiving a day idempotent: unchanged inputs give byte-identical
//! artifacts, and hence identical hashes.

use vstd::prelude::*;
use vstd::string::StringExecFns;
use crate::codec::{gzip_compress, spec_gzip};
use crate::date::{next_yyyymmdd_date, spec_civil_days_of, spec_valid_yyyymmdd, spec_year_of};
use crate::digits::{
    append_i64, append_u64, push_char, spec_digit_char, spec_i64_digits, spec_u64_digits,
};
use crate::jsontext::{append_json_string, spec_json_string};
use crate::reader::{spec_str_lt, str_lt, BalanceRow, IxRow, TxRow};
use crate::schema::{
    spec_join_comma, spec_json_array, Slot, TokenDecimals, WhirlpoolStateAccount,
};

verus! {

/// What the archiver does next: wait, or archive one more day.
#[derive(Debug, Clone, Copy, PartialEq, Eq, Structural)]
pub enum ArchiveAction {
    Idle,
    ArchiveDay { date: u32 },
}

/// Choose the next day to archive: none while the archive has caught up
/// with the replayer, else the day after the last archived one. Re-running
/// with the archive already at the replayed day is a no-op.
pub fn next_archive_action(latest_replayed: u32, latest_archived: u32) -> (r: ArchiveAction)
    requires
        spec_valid_yyyymmdd(latest_archived),
        spec_year_of(latest_archived) <= 9999,
    ensures
        r == ArchiveAction::Idle <==> latest_archived >= latest_replayed,
        latest_archived < latest_replayed ==> (r matches ArchiveAction::ArchiveDay { date }
            && spec_valid_yyyymmdd(date) && spec_civil_days_of(date) == spec_civil_days_of(
            latest_archived,
        ) + 1),
{
    if latest_archived >= latest_replayed {
        ArchiveAction::Idle
    } else {
        ArchiveAction::ArchiveDay { date: next_yyyymmdd_date(latest_archived) }
    }
}

/// A number's last four digits, zero-padded.
pub open spec fn spec_pad4(n: int) -> Seq<char> {
    seq![
        spec_digit_char(n / 1000 % 10),
        spec_digit_char(n / 100 % 10),
        spec_digit_char(n / 10 % 10),
        spec_digit_char(n % 10),
    ]
}

/// The remote path of one artifact:
/// `<root>/YYYY/MMDD/whirlpool-<kind>-YYYYMMDD.<extension>.gz`.
pub open spec fn spec_artifact_remote_path(
    root: Seq<char>,
    kind: Seq<char>,
    yyyymmdd: u32,
    extension: Seq<char>,
) -> Seq<char> {
    root + seq!['/'] + spec_u64_digits(yyyymmdd as int / 10000) + seq!['/'] + spec_pad4(
        yyyymmdd as int % 10000,
    ) + "/whirlpool-"@ + kind + seq!['-'] + spec_u64_digits(yyyymmdd as int) + seq!['.']
        + extension + ".gz"@
}

/// Build an artifact's remote path.
pub fn artifact_remote_path(root: &str, kind: &str, yyyymmdd: u32, extension: &str) -> (r: String)
    requires
        10000000 <= yyyymmdd <= 99999999,
    ensures
        r@ == spec_artifact_remote_path(root@, kind@, yyyymmdd, extension@),
{
    let mut out = String::new();
    out.append(root);
    push_char(&mut out, '/');
    append_u64(&mut out, (yyyymmdd / 10000) as u64);
    push_char(&mut out, '/');
    let mmdd = yyyymmdd % 10000;
    append_pad4(&mut out, mmdd);
    out.append("/whirlpool-");
    out.append(kind);
    push_char(&mut out, '-');
    append_u64(&mut out, yyyymmdd as u64);
    push_char(&mut out, '.');
    out.append(extension);
    out.append(".gz");
    proof {
        assert(out@ =~= spec_artifact_remote_path(root@, kind@, yyyymmdd, extension@));
    }
    out
}

/// Append four zero-padded digits.
fn append_pad4(out: &mut String, n: u32)
    requires
        n < 10000,
    ensures
        final(out)@ == old(out)@ + spec_pad4(n as int),
{
    push_char(out, digit(((n / 1000) % 10) as u8));
    push_char(out, digit(((n / 100) % 10) as u8));
    push_char(out, digit(((n / 10) % 10) as u8));
    push_char(out, digit((n % 10) as u8));
    proof {
        assert(final(out)@ =~= old(out)@ + spec_pad4(n as int));
    }
}

/// One decimal digit's character.
fn digit(d: u8) -> (c: char)
    requires
        d < 10,
    ensures
        c == spec_digit_char(d as int),
{
    (d + 48) as char
}

/// The JSON-lines text of a day's records: each line ends with a newline.
pub open spec fn spec_jsonl(records: Seq<(Slot, Seq<char>)>) -> Seq<char>
    decreases records.len(),
{
    if records.len() == 0 {
        Seq::empty()
    } else {
        spec_jsonl(records.drop_last()) + records.last().1 + seq!['\n']
    }
}

/// The transactions bundle: gzip of the day's JSON lines, one line per
/// slot, assembled exactly as the reader does.
pub fn build_transaction_bundle(
    slots: &Vec<Slot>,
    txs: Vec<TxRow>,
    bals: Vec<BalanceRow>,
    ixs: Vec<IxRow>,
) -> (r: Vec<u8>)
    ensures
        r@ == spec_gzip(
            vstd::utf8::encode_utf8(
                spec_jsonl(
                    crate::reader::spec_assemble(
                        slots@,
                        crate::reader::spec_sort_by(txs@, crate::reader::tx_lt_fn()),
                        crate::reader::spec_sort_by(bals@, crate::reader::balance_lt_fn()),
                        crate::reader::spec_sort_by(ixs@, crate::reader::ix_lt_fn()),
                    ),
                ),
            ),
        ),
{
    let ghost sp = crate::reader::spec_assemble(
        slots@,
        crate::reader::spec_sort_by(txs@, crate::reader::tx_lt_fn()),
        crate::reader::spec_sort_by(bals@, crate::reader::balance_lt_fn()),
        crate::reader::spec_sort_by(ixs@, crate::reader::ix_lt_fn()),
    );
    let records = crate::reader::assemble_slot_records(slots, txs, bals, ixs);
    let mut text = String::new();
    let n = records.len();
    let mut i: usize = 0;
    proof {
        crate::reader::lemma_assemble_len(
            slots@,
            crate::reader::spec_sort_by(txs@, crate::reader::tx_lt_fn()),
            crate::reader::spec_sort_by(bals@, crate::reader::balance_lt_fn()),
            crate::reader::spec_sort_by(ixs@, crate::reader::ix_lt_fn()),
        );
        assert(spec_jsonl(sp.take(0)) =~= Seq::<char>::empty());
    }
    while i < n
        invariant
            n == records@.len(),
            n == sp.len(),
            i <= n,
            forall|k: int|
                0 <= k < n ==> (#[trigger] records@[k]).0 == sp[k].0 && records@[k].1@ == sp[k].1,
            text@ == spec_jsonl(sp.take(i as int)),
        decreases n - i,
    {
        text.append(records[i].1.as_str());
        push_char(&mut text, '\n');
        proof {
            assert(sp.take(i as int + 1).drop_last() =~= sp.take(i as int));
            assert(sp.take(i as int + 1).last() == sp[i as int]);
        }
        i = i + 1;
    }
    proof {
        assert(sp.take(n as int) =~= sp);
    }
    gzip_compress(text.as_str().as_bytes())
}

/// A byte sequence as a JSON array of numbers.
pub open spec fn spec_byte_array_json(b: Seq<u8>) -> Seq<char> {
    spec_json_array(b.map_values(|x: u8| spec_u64_digits(x as int)))
}

/// Append a byte slice as a JSON array of numbers.
fn append_byte_array(out: &mut String, b: &[u8])
    ensures
        final(out)@ == old(out)@ + spec_byte_array_json(b@),
{
    let ghost elems = b@.map_values(|x: u8| spec_u64_digits(x as int));
    push_char(out, '[');
    let n = b.len();
    let mut i: usize = 0;
    while i < n
        invariant
            n == b@.len(),
            i <= n,
            elems == b@.map_values(|x: u8| spec_u64_digits(x as int)),
            out@ == old(out)@ + seq!['['] + spec_join_comma(elems.take(i as int)),
        decreases n - i,
    {
        proof {
            crate::schema::lemma_join_comma_snoc(elems, i as int);
        }
        if i > 0 {
            push_char(out, ',');
        }
        append_u64(out, b[i] as u64);
        i = i + 1;
    }
    push_char(out, ']');
    proof {
        assert(elems.take(n as int) =~= elems);
        assert(final(out)@ =~= old(out)@ + spec_byte_array_json(b@));
    }
}

/// One account of the state bundle as JSON.
pub open spec fn spec_state_account_json(a: WhirlpoolStateAccount) -> Seq<char> {
    "{\"pubkey\":"@ + spec_json_string(a.pubkey@) + ",\"data\":"@ + spec_byte_array_json(a.data@)
        + "}"@
}

/// One token's decimals as JSON.
pub open spec fn spec_decimals_json(d: TokenDecimals) -> Seq<char> {
    "{\"mint\":"@ + spec_json_string(d.mint@) + ",\"decimals\":"@ + spec_u64_digits(
        d.decimals as int,
    ) + "}"@
}

/// The state bundle's JSON object.
pub open spec fn spec_state_json(
    slot: u64,
    block_height: u64,
    block_time: i64,
    accounts: Seq<WhirlpoolStateAccount>,
    decimals: Seq<TokenDecimals>,
    program: Seq<u8>,
) -> Seq<char> {
    "{\"slot\":"@ + spec_u64_digits(slot as int) + ",\"block_height\":"@ + spec_u64_digits(
        block_height as int,
    ) + ",\"block_time\":"@ + spec_i64_digits(block_time as int) + ",\"accounts\":"@
        + spec_json_array(
        accounts.map_values(|a: WhirlpoolStateAccount| spec_state_account_json(a)),
    ) + ",\"decimals\":"@ + spec_json_array(
        decimals.map_values(|d: TokenDecimals| spec_decimals_json(d)),
    ) + ",\"program_data\":"@ + spec_byte_array_json(program) + "}"@
}

/// The state bundle: gzip of the state JSON, with the accounts exactly as
/// given (callers sort them by address first) and the decimals sorted by
/// mint here, so that the bundle does not depend on the order the store
/// returned them in.
pub fn build_state_bundle(
    slot: u64,
    block_height: u64,
    block_time: i64,
    accounts: &Vec<WhirlpoolStateAccount>,
    decimals: Vec<TokenDecimals>,
    program: &[u8],
) -> (r: Vec<u8>)
    ensures
        r@ == spec_gzip(
            vstd::utf8::encode_utf8(
                spec_state_json(
                    slot,
                    block_height,
                    block_time,
                    accounts@,
                    crate::reader::spec_sort_by(decimals@, token_decimals_lt_fn()),
                    program@,
                ),
            ),
        ),
{
    let decimals = sort_token_decimals(decimals);
    let mut out = String::new();
    out.append("{\"slot\":");
    append_u64(&mut out, slot);
    out.append(",\"block_height\":");
    append_u64(&mut out, block_height);
    out.append(",\"block_time\":");
    append_i64(&mut out, block_time);
    out.append(",\"accounts\":");

    let ghost aelems = accounts@.map_values(|a: WhirlpoolStateAccount| spec_state_account_json(a));
    let ghost before_accounts = out@;
    push_char(&mut out, '[');
    let na = accounts.len();
    let mut i: usize = 0;
    while i < na
        invariant
            na == accounts@.len(),
            i <= na,
            aelems == accounts@.map_values(|a: WhirlpoolStateAccount| spec_state_account_json(a)),
            out@ == before_accounts + seq!['['] + spec_join_comma(aelems.take(i as int)),
        decreases na - i,
    {
        proof {
            crate::schema::lemma_join_comma_snoc(aelems, i as int);
        }
        if i > 0 {
            push_char(&mut out, ',');
        }
        out.append("{\"pubkey\":");
        append_json_string(&mut out, accounts[i].pubkey.as_str());
        out.append(",\"data\":");
        append_byte_array(&mut out, accounts[i].data.as_slice());
        out.append("}");
        proof {
            assert(out@ =~= before_accounts + seq!['['] + spec_join_comma(
                aelems.take(i as int + 1),
            ));
        }
        i = i + 1;
    }
    push_char(&mut out, ']');
    proof {
        assert(aelems.take(na as int) =~= aelems);
    }

    out.append(",\"decimals\":");
    let ghost delems = decimals@.map_values(|d: TokenDecimals| spec_decimals_json(d));
    let ghost before_decimals = out@;
    push_char(&mut out, '[');
    let nd = decimals.len();
    let mut j: usize = 0;
    while j < nd
        invariant
            nd == decimals@.len(),
            j <= nd,
            delems == decimals@.map_values(|d: TokenDecimals| spec_decimals_json(d)),
            out@ == before_decimals + seq!['['] + spec_join_comma(delems.take(j as int)),
        decreases nd - j,
    {
        proof {
            crate::schema::lemma_join_comma_snoc(delems, j as int);
        }
        if j > 0 {
            push_char(&mut out, ',');
        }
        out.append("{\"mint\":");
        append_json_string(&mut out, decimals[j].mint.as_str());
        out.append(",\"decimals\":");
        append_u64(&mut out, decimals[j].decimals as u64);
        out.append("}");
        proof {
            assert(out@ =~= before_decimals + seq!['['] + spec_join_comma(
                delems.take(j as int + 1),
            ));
        }
        j = j + 1;
    }
    push_char(&mut out, ']');
    proof {
        assert(delems.take(nd as int) =~= delems);
    }

    out.append(",\"program_data\":");
    append_byte_array(&mut out, program);
    out.append("}");
    proof {
        assert(out@ =~= spec_state_json(
            slot,
            block_height,
            block_time,
            accounts@,
            decimals@,
            program@,
        ));
    }
    gzip_compress(out.as_str().as_bytes())
}

/// The token bundle's JSON: the decimals list alone.
pub open spec fn spec_token_json(decimals: Seq<TokenDecimals>) -> Seq<char> {
    spec_json_array(decimals.map_values(|d: TokenDecimals| spec_decimals_json(d)))
}

/// The token bundle: gzip of the decimals list, sorted by mint, so that the
/// bundle does not depend on the order the store returned the rows in.
pub fn build_token_bundle(decimals: Vec<TokenDecimals>) -> (r: Vec<u8>)
    ensures
        r@ == spec_gzip(
            vstd::utf8::encode_utf8(
                spec_token_json(crate::reader::spec_sort_by(decimals@, token_decimals_lt_fn())),
            ),
        ),
{
    let decimals = sort_token_decimals(decimals);
    let mut out = String::new();
    let ghost delems = decimals@.map_values(|d: TokenDecimals| spec_decimals_json(d));
    push_char(&mut out, '[');
    let nd = decimals.len();
    let mut j: usize = 0;
    while j < nd
        invariant
            nd == decimals@.len(),
            j <= nd,
            delems == decimals@.map_values(|d: TokenDecimals| spec_decimals_json(d)),
            out@ == seq!['['] + spec_join_comma(delems.take(j as int)),
        decreases nd - j,
    {
        proof {
            crate::schema::lemma_join_comma_snoc(delems, j as int);
        }
        if j > 0 {
            push_char(&mut out, ',');
        }
        out.append("{\"mint\":");
        append_json_string(&mut out, decimals[j].mint.as_str());
        out.append(",\"decimals\":");
        append_u64(&mut out, decimals[j].decimals as u64);
        out.append("}");
        proof {
            assert(out@ =~= seq!['['] + spec_join_comma(delems.take(j as int + 1)));
        }
        j = j + 1;
    }
    push_char(&mut out, ']');
    proof {
        assert(delems.take(nd as int) =~= delems);
        assert(out@ =~= spec_token_json(decimals@));
    }
    gzip_compress(out.as_str().as_bytes())
}

/// Sort state accounts by address, as the state bundle lists them.
pub fn sort_state_accounts(accounts: Vec<WhirlpoolStateAccount>) -> (r: Vec<
    WhirlpoolStateAccount,
>)
    ensures
        r@ == crate::reader::spec_sort_by(accounts@, account_lt_fn()),
{
    let ghost orig = accounts@;
    let mut rows = accounts;
    let mut out: Vec<WhirlpoolStateAccount> = Vec::new();
    let orig_len = rows.len();
    proof {
        assert(orig.take(0) =~= Seq::<WhirlpoolStateAccount>::empty());
        assert(orig.skip(0) =~= orig);
    }
    let mut i: usize = 0;
    while rows.len() > 0
        invariant
            orig.len() == orig_len,
            i <= orig.len(),
            rows@ == orig.skip(i as int),
            out@ == crate::reader::spec_sort_by(orig.take(i as int), account_lt_fn()),
        decreases rows.len(),
    {
        proof {
            assert(orig.skip(i as int).len() == orig.len() - i);
        }
        let x = rows.remove(0);
        proof {
            assert(orig.skip(i as int).remove(0) =~= orig.skip(i as int + 1));
            assert(x == orig[i as int]);
        }
        let mut p: usize = 0;
        while p < out.len() && !str_lt(x.pubkey.as_str(), out[p].pubkey.as_str())
            invariant
                p <= out.len(),
                forall|k: int| 0 <= k < p ==> !account_lt_fn()(x, #[trigger] out@[k]),
            decreases out.len() - p,
        {
            p = p + 1;
        }
        proof {
            crate::reader::lemma_insert_by_at(out@, x, account_lt_fn(), p as int);
            assert(orig.take(i as int + 1).drop_last() =~= orig.take(i as int));
            assert(orig.take(i as int + 1).last() == orig[i as int]);
        }
        out.insert(p, x);
        i = i + 1;
    }
    proof {
        assert(orig.take(i as int) =~= orig);
    }
    out
}

/// State accounts order by address.
pub open spec fn account_lt_fn() -> spec_fn(WhirlpoolStateAccount, WhirlpoolStateAccount) -> bool {
    |a: WhirlpoolStateAccount, b: WhirlpoolStateAccount| spec_str_lt(a.pubkey@, b.pubkey@)
}

/// Token-decimals rows order by mint.
pub open spec fn token_decimals_lt_fn() -> spec_fn(TokenDecimals, TokenDecimals) -> bool {
    |a: TokenDecimals, b: TokenDecimals| spec_str_lt(a.mint@, b.mint@)
}

/// No two rows share a mint.
pub open spec fn spec_distinct_mints(s: Seq<TokenDecimals>) -> bool {
    forall|i: int, j: int|
        0 <= i < j < s.len() ==> (#[trigger] s[i]).mint@ != (#[trigger] s[j]).mint@
}

/// The mint order is a strict order.
proof fn lemma_token_decimals_order()
    ensures
        crate::reader::spec_strict_order(token_decimals_lt_fn()),
{
    crate::reader::lemma_str_order_properties();
}

/// A sorted decimals list with distinct mints ascends strictly.
proof fn lemma_token_decimals_sorted_strict(s: Seq<TokenDecimals>)
    requires
        crate::reader::spec_sorted_by(s, token_decimals_lt_fn()),
        spec_distinct_mints(s),
    ensures
        crate::reader::spec_strictly_sorted_by(s, token_decimals_lt_fn()),
{
    crate::reader::lemma_str_order_properties();
    assert forall|i: int, j: int| 0 <= i < j < s.len() implies token_decimals_lt_fn()(
        s[i],
        s[j],
    ) by {
        assert(!spec_str_lt(s[j].mint@, s[i].mint@));
        assert(s[i].mint@ != s[j].mint@);
    }
}

/// Sort token decimals by mint.
pub fn sort_token_decimals(rows: Vec<TokenDecimals>) -> (r: Vec<TokenDecimals>)
    ensures
        r@ == crate::reader::spec_sort_by(rows@, token_decimals_lt_fn()),
{
    let ghost orig = rows@;
    let mut rows = rows;
    let mut out: Vec<TokenDecimals> = Vec::new();
    let orig_len = rows.len();
    proof {
        assert(orig.take(0) =~= Seq::<TokenDecimals>::empty());
        assert(orig.skip(0) =~= orig);
    }
    let mut i: usize = 0;
    while rows.len() > 0
        invariant
            orig.len() == orig_len,
            i <= orig.len(),
            rows@ == orig.skip(i as int),
            out@ == crate::reader::spec_sort_by(orig.take(i as int), token_decimals_lt_fn()),
        decreases rows.len(),
    {
        proof {
            assert(orig.skip(i as int).len() == orig.len() - i);
        }
        let x = rows.remove(0);
        proof {
            assert(orig.skip(i as int).remove(0) =~= orig.skip(i as int + 1));
            assert(x == orig[i as int]);
        }
        let mut p: usize = 0;
        while p < out.len() && !str_lt(x.mint.as_str(), out[p].mint.as_str())
            invariant
                p <= out.len(),
                forall|k: int| 0 <= k < p ==> !token_decimals_lt_fn()(x, #[trigger] out@[k]),
            decreases out.len() - p,
        {
            p = p + 1;
        }
        proof {
            crate::reader::lemma_insert_by_at(out@, x, token_decimals_lt_fn(), p as int);
            assert(orig.take(i as int + 1).drop_last() =~= orig.take(i as int));
            assert(orig.take(i as int + 1).last() == orig[i as int]);
        }
        out.insert(p, x);
        i = i + 1;
    }
    proof {
        assert(orig.take(i as int) =~= orig);
    }
    out
}

/// Archive idempotence: the bundles are functions of their inputs, so a
/// re-run over unchanged inputs writes byte-identical artifacts — for the
/// decimals even when the store returns the same rows in another order,
/// since the builders sort them by mint; and once the archived day has
/// caught up with the replayed day, the next action is to wait, not to
/// archive again.
pub proof fn lemma_archive_idempotent(
    records1: Seq<(Slot, Seq<char>)>,
    records2: Seq<(Slot, Seq<char>)>,
    decimals1: Seq<TokenDecimals>,
    decimals2: Seq<TokenDecimals>,
)
    requires
        records1 == records2,
        decimals1.to_multiset() == decimals2.to_multiset(),
        spec_distinct_mints(decimals1),
    ensures
        spec_gzip(vstd::utf8::encode_utf8(spec_jsonl(records1))) == spec_gzip(
            vstd::utf8::encode_utf8(spec_jsonl(records2)),
        ),
        spec_gzip(
            vstd::utf8::encode_utf8(
                spec_token_json(
                    crate::reader::spec_sort_by(decimals1, token_decimals_lt_fn()),
                ),
            ),
        ) == spec_gzip(
            vstd::utf8::encode_utf8(
                spec_token_json(
                    crate::reader::spec_sort_by(decimals2, token_decimals_lt_fn()),
                ),
            ),
        ),
{
    lemma_token_decimals_order();
    crate::reader::lemma_sort_by_ensures(decimals1, token_decimals_lt_fn());
    crate::reader::lemma_sort_by_ensures(decimals2, token_decimals_lt_fn());
    let s1 = crate::reader::spec_sort_by(decimals1, token_decimals_lt_fn());
    let s2 = crate::reader::spec_sort_by(decimals2, token_decimals_lt_fn());
    crate::reader::lemma_distinct_keys_transfer(
        decimals1,
        s1,
        |a: TokenDecimals, b: TokenDecimals| a.mint@ == b.mint@,
    );
    crate::reader::lemma_distinct_keys_transfer(
        decimals1,
        s2,
        |a: TokenDecimals, b: TokenDecimals| a.mint@ == b.mint@,
    );
    lemma_token_decimals_sorted_strict(s1);
    lemma_token_decimals_sorted_strict(s2);
    crate::reader::lemma_strictly_sorted_unique(s1, s2, token_decimals_lt_fn());
}

} // verus!
