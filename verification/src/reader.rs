//! Deterministic reassembly of per-slot records from row scans.
//!
//! The store hands back three unordered row sets for a txid range:
//! transactions, balances and instructions. The reader sorts them by their
//! keys (txid; txid and account; txid and order), then walks the slots in
//! ascending order, popping each slot's leading rows and rendering one JSON
//! line per slot. Sorting is modeled by `spec_sort_*`, a canonical insertion
//! sort, so the whole pipeline from rows to bytes is one spec function.

use vstd::prelude::*;
use crate::digits::{spec_i64_digits, spec_u64_digits};
use crate::jsontext::spec_json_string;
use crate::schema::{
    spec_balance_json, spec_instruction_json, spec_json_array, spec_transaction_json,
    spec_whirlpool_transaction_json, Slot, Transaction, TransactionBalance,
    TransactionInstruction, WhirlpoolTransaction,
};

verus! {

/// One row of the transactions scan.
#[derive(Debug, Clone)]
pub struct TxRow {
    pub txid: u64,
    pub signature: String,
    pub payer: String,
}

/// One row of the balances scan.
#[derive(Debug, Clone)]
pub struct BalanceRow {
    pub txid: u64,
    pub account: String,
    pub pre: u64,
    pub post: u64,
}

/// One row of the instructions scan; `payload` holds normalized JSON text.
#[derive(Debug, Clone)]
pub struct IxRow {
    pub txid: u64,
    pub order: u8,
    pub name: String,
    pub payload: String,
}

/// Lexicographic order on character sequences by code point; agrees with
/// the byte order of the strings' UTF-8 forms.
pub open spec fn spec_str_lt(a: Seq<char>, b: Seq<char>) -> bool
    decreases a.len(),
{
    if b.len() == 0 {
        false
    } else if a.len() == 0 {
        true
    } else if a[0] != b[0] {
        (a[0] as u32) < (b[0] as u32)
    } else {
        spec_str_lt(a.drop_first(), b.drop_first())
    }
}

/// Transaction rows order by txid.
pub open spec fn spec_tx_lt(a: TxRow, b: TxRow) -> bool {
    a.txid < b.txid
}

/// Balance rows order by txid, then account.
pub open spec fn spec_balance_lt(a: BalanceRow, b: BalanceRow) -> bool {
    a.txid < b.txid || (a.txid == b.txid && spec_str_lt(a.account@, b.account@))
}

/// Instruction rows order by txid, then in-transaction order.
pub open spec fn spec_ix_lt(a: IxRow, b: IxRow) -> bool {
    a.txid < b.txid || (a.txid == b.txid && a.order < b.order)
}

/// Insert an element before the first place it is less than.
pub open spec fn spec_insert_by<A>(s: Seq<A>, x: A, lt: spec_fn(A, A) -> bool) -> Seq<A>
    decreases s.len(),
{
    if s.len() == 0 {
        seq![x]
    } else if lt(x, s[0]) {
        seq![x] + s
    } else {
        seq![s[0]] + spec_insert_by(s.drop_first(), x, lt)
    }
}

/// The canonical sort: insert the elements one by one, in input order.
pub open spec fn spec_sort_by<A>(s: Seq<A>, lt: spec_fn(A, A) -> bool) -> Seq<A>
    decreases s.len(),
{
    if s.len() == 0 {
        Seq::empty()
    } else {
        spec_insert_by(spec_sort_by(s.drop_last(), lt), s.last(), lt)
    }
}

/// No element is less than its predecessor.
pub open spec fn spec_sorted_by<A>(s: Seq<A>, lt: spec_fn(A, A) -> bool) -> bool {
    forall|i: int, j: int| 0 <= i < j < s.len() ==> !lt(s[j], s[i])
}

/// Every pair ascends strictly.
pub open spec fn spec_strictly_sorted_by<A>(s: Seq<A>, lt: spec_fn(A, A) -> bool) -> bool {
    forall|i: int, j: int| 0 <= i < j < s.len() ==> lt(s[i], s[j])
}

/// The order relation is transitive and asymmetric; all three row orders are.
pub open spec fn spec_strict_order<A>(lt: spec_fn(A, A) -> bool) -> bool {
    &&& forall|a: A, b: A, c: A| #[trigger] lt(a, b) && #[trigger] lt(b, c) ==> lt(a, c)
    &&& forall|a: A, b: A| #[trigger] lt(a, b) ==> !lt(b, a)
}

/// Inserting keeps sortedness and adds the element to the contents.
pub proof fn lemma_insert_by_ensures<A>(s: Seq<A>, x: A, lt: spec_fn(A, A) -> bool)
    requires
        spec_sorted_by(s, lt),
        spec_strict_order(lt),
    ensures
        spec_sorted_by(spec_insert_by(s, x, lt), lt),
        spec_insert_by(s, x, lt).to_multiset() == s.to_multiset().insert(x),
        spec_insert_by(s, x, lt).len() == s.len() + 1,
    decreases s.len(),
{
    broadcast use vstd::seq_lib::group_to_multiset_ensures;

    if s.len() == 0 {
        assert(seq![x].drop_first() =~= Seq::<A>::empty());
        assert(seq![x].to_multiset() =~= s.to_multiset().insert(x));
    } else if lt(x, s[0]) {
        let r = seq![x] + s;
        assert(r.drop_first() =~= s);
        assert(r =~= s.insert(0, x));
        assert(s.insert(0, x).to_multiset() == s.to_multiset().insert(x));
        assert forall|i: int, j: int| 0 <= i < j < r.len() implies !lt(r[j], r[i]) by {
            if i == 0 {
                if j == 1 {
                } else {
                    assert(!lt(s[j - 1], s[0]));
                    if lt(r[j], r[i]) {
                        assert(lt(s[j - 1], x));
                        assert(lt(s[j - 1], s[0]));
                    }
                }
            }
        }
    } else {
        let tail = s.drop_first();
        assert(spec_sorted_by(tail, lt)) by {
            assert(forall|i: int, j: int|
                0 <= i < j < tail.len() ==> tail[i] == s[i + 1] && tail[j] == s[j + 1]);
        }
        lemma_insert_by_ensures(tail, x, lt);
        let rt = spec_insert_by(tail, x, lt);
        let r = seq![s[0]] + rt;
        assert(r.drop_first() =~= rt);
        assert(r =~= rt.insert(0, s[0]));
        assert(rt.insert(0, s[0]).to_multiset() == rt.to_multiset().insert(s[0]));
        assert(s =~= tail.insert(0, s[0]));
        assert(tail.insert(0, s[0]).to_multiset() == tail.to_multiset().insert(s[0]));
        assert(r.to_multiset() =~= s.to_multiset().insert(x)) by {
            assert(rt.to_multiset() == tail.to_multiset().insert(x));
        }
        assert forall|i: int, j: int| 0 <= i < j < r.len() implies !lt(r[j], r[i]) by {
            if i == 0 {
                // r[j] is either x or an element of the sorted tail; neither
                // is less than s[0].
                assert(rt.to_multiset().contains(rt[j - 1]));
                if rt[j - 1] == x {
                    assert(!lt(x, s[0]));
                } else {
                    assert(tail.to_multiset().contains(rt[j - 1]));
                    let k = choose|k: int| 0 <= k < tail.len() && tail[k] == rt[j - 1];
                    assert(!lt(s[k + 1], s[0]));
                }
            }
        }
    }
}

/// The canonical sort is sorted and keeps the contents.
pub proof fn lemma_sort_by_ensures<A>(s: Seq<A>, lt: spec_fn(A, A) -> bool)
    requires
        spec_strict_order(lt),
    ensures
        spec_sorted_by(spec_sort_by(s, lt), lt),
        spec_sort_by(s, lt).to_multiset() == s.to_multiset(),
        spec_sort_by(s, lt).len() == s.len(),
    decreases s.len(),
{
    broadcast use vstd::seq_lib::group_to_multiset_ensures;

    if s.len() > 0 {
        lemma_sort_by_ensures(s.drop_last(), lt);
        lemma_insert_by_ensures(spec_sort_by(s.drop_last(), lt), s.last(), lt);
        assert(s =~= s.drop_last().push(s.last()));
        assert(s.drop_last().push(s.last()).to_multiset() == s.drop_last().to_multiset().insert(
            s.last(),
        ));
    }
}

/// Two sequences with the same contents, both strictly sorted by an
/// asymmetric order, are the same sequence.
pub proof fn lemma_strictly_sorted_unique<A>(x: Seq<A>, y: Seq<A>, lt: spec_fn(A, A) -> bool)
    requires
        spec_strictly_sorted_by(x, lt),
        spec_strictly_sorted_by(y, lt),
        forall|a: A, b: A| #[trigger] lt(a, b) ==> !lt(b, a),
        x.to_multiset() == y.to_multiset(),
    ensures
        x =~= y,
    decreases x.len(),
{
    broadcast use vstd::seq_lib::group_to_multiset_ensures;

    if x.len() == 0 {
        assert(y.to_multiset().len() == 0);
    } else if y.len() == 0 {
        assert(x.to_multiset().len() == 0);
    } else {
        assert(x.to_multiset().contains(x[0]));
        assert(y.to_multiset().contains(x[0]));
        let j = choose|j: int| 0 <= j < y.len() && y[j] == x[0];
        assert(y.to_multiset().contains(y[0]));
        assert(x.to_multiset().contains(y[0]));
        let i = choose|i: int| 0 <= i < x.len() && x[i] == y[0];
        if i > 0 && j > 0 {
            assert(lt(x[0], x[i]));
            assert(lt(y[0], y[j]));
            assert(false);
        }
        assert(x[0] == y[0]);
        assert(x.drop_first() =~= x.remove(0));
        assert(y.drop_first() =~= y.remove(0));
        assert(x.remove(0).to_multiset() == x.to_multiset().remove(x[0]));
        assert(y.remove(0).to_multiset() == y.to_multiset().remove(y[0]));
        assert(spec_strictly_sorted_by(x.drop_first(), lt)) by {
            assert(forall|p: int, q: int|
                0 <= p < q < x.len() - 1 ==> x.drop_first()[p] == x[p + 1] && x.drop_first()[q]
                    == x[q + 1]);
        }
        assert(spec_strictly_sorted_by(y.drop_first(), lt)) by {
            assert(forall|p: int, q: int|
                0 <= p < q < y.len() - 1 ==> y.drop_first()[p] == y[p + 1] && y.drop_first()[q]
                    == y[q + 1]);
        }
        lemma_strictly_sorted_unique(x.drop_first(), y.drop_first(), lt);
        assert(x =~= seq![x[0]] + x.drop_first());
        assert(y =~= seq![y[0]] + y.drop_first());
    }
}

/// The string order is a strict order and holds or reverses for every pair
/// of distinct strings.
pub proof fn lemma_str_order_properties()
    ensures
        forall|a: Seq<char>, b: Seq<char>, c: Seq<char>|
            #[trigger] spec_str_lt(a, b) && #[trigger] spec_str_lt(b, c) ==> spec_str_lt(a, c),
        forall|a: Seq<char>, b: Seq<char>| #[trigger] spec_str_lt(a, b) ==> !spec_str_lt(b, a),
        forall|a: Seq<char>, b: Seq<char>|
            a != b ==> #[trigger] spec_str_lt(a, b) || spec_str_lt(b, a),
{
    assert forall|a: Seq<char>, b: Seq<char>, c: Seq<char>|
        #[trigger] spec_str_lt(a, b) && #[trigger] spec_str_lt(b, c) implies spec_str_lt(a, c) by {
        lemma_str_lt_transitive(a, b, c);
    }
    assert forall|a: Seq<char>, b: Seq<char>| #[trigger] spec_str_lt(a, b) implies !spec_str_lt(
        b,
        a,
    ) by {
        lemma_str_lt_asymmetric(a, b);
    }
    assert forall|a: Seq<char>, b: Seq<char>| a != b implies #[trigger] spec_str_lt(a, b)
        || spec_str_lt(b, a) by {
        lemma_str_lt_connected(a, b);
    }
}

proof fn lemma_str_lt_transitive(a: Seq<char>, b: Seq<char>, c: Seq<char>)
    requires
        spec_str_lt(a, b),
        spec_str_lt(b, c),
    ensures
        spec_str_lt(a, c),
    decreases a.len(),
{
    if a.len() > 0 && b.len() > 0 && c.len() > 0 && a[0] == b[0] && b[0] == c[0] {
        lemma_str_lt_transitive(a.drop_first(), b.drop_first(), c.drop_first());
    }
}

proof fn lemma_str_lt_asymmetric(a: Seq<char>, b: Seq<char>)
    requires
        spec_str_lt(a, b),
    ensures
        !spec_str_lt(b, a),
    decreases a.len(),
{
    if a.len() > 0 && b.len() > 0 && a[0] == b[0] {
        lemma_str_lt_asymmetric(a.drop_first(), b.drop_first());
    }
}

proof fn lemma_str_lt_connected(a: Seq<char>, b: Seq<char>)
    requires
        a != b,
    ensures
        spec_str_lt(a, b) || spec_str_lt(b, a),
    decreases a.len(),
{
    if a.len() == 0 || b.len() == 0 {
        if a.len() == 0 && b.len() == 0 {
            assert(a =~= b);
        }
    } else if a[0] == b[0] {
        assert(a.drop_first() != b.drop_first()) by {
            if a.drop_first() == b.drop_first() {
                assert(a =~= seq![a[0]] + a.drop_first());
                assert(b =~= seq![b[0]] + b.drop_first());
            }
        }
        lemma_str_lt_connected(a.drop_first(), b.drop_first());
    } else {
        let x = a[0];
        let y = b[0];
        assert(x as u32 != y as u32) by {
            vstd::utf8::char_u32_cast(x, x as u32);
            vstd::utf8::char_u32_cast(y, y as u32);
        }
    }
}

/// The transaction-row order as a value, so that every contract names the
/// same function.
pub open spec fn tx_lt_fn() -> spec_fn(TxRow, TxRow) -> bool {
    |a: TxRow, b: TxRow| spec_tx_lt(a, b)
}

/// The balance-row order as a value.
pub open spec fn balance_lt_fn() -> spec_fn(BalanceRow, BalanceRow) -> bool {
    |a: BalanceRow, b: BalanceRow| spec_balance_lt(a, b)
}

/// The instruction-row order as a value.
pub open spec fn ix_lt_fn() -> spec_fn(IxRow, IxRow) -> bool {
    |a: IxRow, b: IxRow| spec_ix_lt(a, b)
}

/// The transaction-row order is a strict order.
pub proof fn lemma_tx_order()
    ensures
        spec_strict_order(tx_lt_fn()),
{
}

/// The balance-row order is a strict order.
pub proof fn lemma_balance_order()
    ensures
        spec_strict_order(balance_lt_fn()),
{
    lemma_str_order_properties();
}

/// The instruction-row order is a strict order.
pub proof fn lemma_ix_order()
    ensures
        spec_strict_order(ix_lt_fn()),
{
}

/// Inserting at the first position whose element the new one is less than
/// is what `spec_insert_by` does.
pub proof fn lemma_insert_by_at<A>(s: Seq<A>, x: A, lt: spec_fn(A, A) -> bool, p: int)
    requires
        0 <= p <= s.len(),
        forall|k: int| 0 <= k < p ==> !lt(x, #[trigger] s[k]),
        p < s.len() ==> lt(x, s[p]),
    ensures
        spec_insert_by(s, x, lt) == s.insert(p, x),
    decreases s.len(),
{
    if s.len() == 0 {
        assert(s.insert(0, x) =~= seq![x]);
    } else if lt(x, s[0]) {
        assert(p == 0);
        assert(s.insert(0, x) =~= seq![x] + s);
    } else {
        assert(p > 0);
        let tail = s.drop_first();
        assert(forall|k: int| 0 <= k < p - 1 ==> tail[k] == s[k + 1]);
        assert(p - 1 < tail.len() ==> lt(x, tail[p - 1]));
        lemma_insert_by_at(tail, x, lt, p - 1);
        assert(seq![s[0]] + tail.insert(p - 1, x) =~= s.insert(p, x));
    }
}

/// Sort transaction rows by txid.
pub fn sort_tx_rows(rows: Vec<TxRow>) -> (r: Vec<TxRow>)
    ensures
        r@ == spec_sort_by(rows@, tx_lt_fn()),
{
    let ghost orig = rows@;
    let mut rows = rows;
    let mut out: Vec<TxRow> = Vec::new();
    let orig_len = rows.len();
    proof {
        assert(orig.take(0) =~= Seq::<TxRow>::empty());
        assert(orig.skip(0) =~= orig);
    }
    let mut i: usize = 0;
    while rows.len() > 0
        invariant
            orig.len() == orig_len,
            i <= orig.len(),
            rows@ == orig.skip(i as int),
            out@ == spec_sort_by(orig.take(i as int), tx_lt_fn()),
        decreases rows.len(),
    {
        proof {
            assert(orig.skip(i as int).len() == orig.len() - i);
        }
        let x = rows.remove(0);
        proof {
            assert(orig.skip(i as int).remove(0) =~= orig.skip(i as int + 1));
            assert(x == orig[i as int]);
        }
        let mut p: usize = 0;
        while p < out.len() && !(x.txid < out[p].txid)
            invariant
                p <= out.len(),
                forall|k: int| 0 <= k < p ==> !tx_lt_fn()(x, #[trigger] out@[k]),
            decreases out.len() - p,
        {
            p = p + 1;
        }
        proof {
            lemma_insert_by_at(out@, x, tx_lt_fn(), p as int);
            assert(orig.take(i as int + 1).drop_last() =~= orig.take(i as int));
            assert(orig.take(i as int + 1).last() == orig[i as int]);
        }
        out.insert(p, x);
        i = i + 1;
    }
    proof {
        assert(orig.take(i as int) =~= orig);
    }
    out
}

/// Sort balance rows by txid, then account.
pub fn sort_balance_rows(rows: Vec<BalanceRow>) -> (r: Vec<BalanceRow>)
    ensures
        r@ == spec_sort_by(rows@, balance_lt_fn()),
{
    let ghost orig = rows@;
    let mut rows = rows;
    let mut out: Vec<BalanceRow> = Vec::new();
    let orig_len = rows.len();
    proof {
        assert(orig.take(0) =~= Seq::<BalanceRow>::empty());
        assert(orig.skip(0) =~= orig);
    }
    let mut i: usize = 0;
    while rows.len() > 0
        invariant
            orig.len() == orig_len,
            i <= orig.len(),
            rows@ == orig.skip(i as int),
            out@ == spec_sort_by(orig.take(i as int), balance_lt_fn()),
        decreases rows.len(),
    {
        proof {
            assert(orig.skip(i as int).len() == orig.len() - i);
        }
        let x = rows.remove(0);
        proof {
            assert(orig.skip(i as int).remove(0) =~= orig.skip(i as int + 1));
            assert(x == orig[i as int]);
        }
        let mut p: usize = 0;
        while p < out.len() && !balance_lt(&x, &out[p])
            invariant
                p <= out.len(),
                forall|k: int| 0 <= k < p ==> !balance_lt_fn()(x, #[trigger] out@[k]),
            decreases out.len() - p,
        {
            p = p + 1;
        }
        proof {
            lemma_insert_by_at(out@, x, balance_lt_fn(), p as int);
            assert(orig.take(i as int + 1).drop_last() =~= orig.take(i as int));
            assert(orig.take(i as int + 1).last() == orig[i as int]);
        }
        out.insert(p, x);
        i = i + 1;
    }
    proof {
        assert(orig.take(i as int) =~= orig);
    }
    out
}

/// Sort instruction rows by txid, then in-transaction order.
pub fn sort_ix_rows(rows: Vec<IxRow>) -> (r: Vec<IxRow>)
    ensures
        r@ == spec_sort_by(rows@, ix_lt_fn()),
{
    let ghost orig = rows@;
    let mut rows = rows;
    let mut out: Vec<IxRow> = Vec::new();
    let orig_len = rows.len();
    proof {
        assert(orig.take(0) =~= Seq::<IxRow>::empty());
        assert(orig.skip(0) =~= orig);
    }
    let mut i: usize = 0;
    while rows.len() > 0
        invariant
            orig.len() == orig_len,
            i <= orig.len(),
            rows@ == orig.skip(i as int),
            out@ == spec_sort_by(orig.take(i as int), ix_lt_fn()),
        decreases rows.len(),
    {
        proof {
            assert(orig.skip(i as int).len() == orig.len() - i);
        }
        let x = rows.remove(0);
        proof {
            assert(orig.skip(i as int).remove(0) =~= orig.skip(i as int + 1));
            assert(x == orig[i as int]);
        }
        let mut p: usize = 0;
        while p < out.len() && !ix_lt(&x, &out[p])
            invariant
                p <= out.len(),
                forall|k: int| 0 <= k < p ==> !ix_lt_fn()(x, #[trigger] out@[k]),
            decreases out.len() - p,
        {
            p = p + 1;
        }
        proof {
            lemma_insert_by_at(out@, x, ix_lt_fn(), p as int);
            assert(orig.take(i as int + 1).drop_last() =~= orig.take(i as int));
            assert(orig.take(i as int + 1).last() == orig[i as int]);
        }
        out.insert(p, x);
        i = i + 1;
    }
    proof {
        assert(orig.take(i as int) =~= orig);
    }
    out
}

/// Compare balance rows by txid, then account.
fn balance_lt(a: &BalanceRow, b: &BalanceRow) -> (r: bool)
    ensures
        r == spec_balance_lt(*a, *b),
{
    if a.txid < b.txid {
        true
    } else if a.txid == b.txid {
        str_lt(a.account.as_str(), b.account.as_str())
    } else {
        false
    }
}

/// Compare instruction rows by txid, then in-transaction order.
fn ix_lt(a: &IxRow, b: &IxRow) -> (r: bool)
    ensures
        r == spec_ix_lt(*a, *b),
{
    a.txid < b.txid || (a.txid == b.txid && a.order < b.order)
}

/// Two strings hold the same characters exactly when neither precedes the
/// other.
pub fn str_eq(a: &str, b: &str) -> (r: bool)
    ensures
        r == (a@ == b@),
{
    let r = !str_lt(a, b) && !str_lt(b, a);
    proof {
        lemma_str_order_properties();
        if a@ == b@ {
            if spec_str_lt(a@, b@) {
                assert(!spec_str_lt(b@, a@));
            }
        } else {
            assert(spec_str_lt(a@, b@) || spec_str_lt(b@, a@));
        }
    }
    r
}

/// Compare two strings in code-point order.
pub fn str_lt(a: &str, b: &str) -> (r: bool)
    ensures
        r == spec_str_lt(a@, b@),
{
    let av = crate::jsontext::str_chars(a);
    let bv = crate::jsontext::str_chars(b);
    let an = av.len();
    let bn = bv.len();
    let mut i: usize = 0;
    proof {
        assert(a@.skip(0) =~= a@);
        assert(b@.skip(0) =~= b@);
    }
    loop
        invariant
            av@ == a@,
            bv@ == b@,
            an == av.len(),
            bn == bv.len(),
            i <= an,
            i <= bn,
            spec_str_lt(a@, b@) == spec_str_lt(a@.skip(i as int), b@.skip(i as int)),
        ensures
            spec_str_lt(a@, b@) == if i < an && i < bn {
                (av@[i as int] as u32) < (bv@[i as int] as u32)
            } else {
                i == an && i < bn
            },
        decreases an - i,
    {
        if i == an || i == bn {
            proof {
                if i == an && i == bn {
                    assert(a@.skip(i as int).len() == 0 && b@.skip(i as int).len() == 0);
                } else if i == an {
                    assert(a@.skip(i as int).len() == 0 && b@.skip(i as int).len() > 0);
                } else {
                    assert(b@.skip(i as int).len() == 0);
                }
            }
            break;
        }
        if av[i] != bv[i] {
            proof {
                assert(a@.skip(i as int)[0] == a@[i as int]);
                assert(b@.skip(i as int)[0] == b@[i as int]);
            }
            break;
        }
        proof {
            assert(a@.skip(i as int).drop_first() =~= a@.skip(i as int + 1));
            assert(b@.skip(i as int).drop_first() =~= b@.skip(i as int + 1));
            assert(a@.skip(i as int)[0] == a@[i as int]);
            assert(b@.skip(i as int)[0] == b@[i as int]);
        }
        i = i + 1;
    }
    if i < an && i < bn {
        (av[i] as u32) < (bv[i] as u32)
    } else {
        i == an && i < bn
    }
}


/// Number of leading elements that satisfy the predicate.
pub open spec fn spec_count_while<A>(s: Seq<A>, p: spec_fn(A) -> bool) -> int
    decreases s.len(),
{
    if s.len() == 0 || !p(s[0]) {
        0
    } else {
        1 + spec_count_while(s.drop_first(), p)
    }
}

/// The count names the first index whose element fails the predicate.
proof fn lemma_count_while_is_first<A>(s: Seq<A>, p: spec_fn(A) -> bool, i: int)
    requires
        0 <= i <= s.len(),
        forall|k: int| 0 <= k < i ==> p(#[trigger] s[k]),
        i < s.len() ==> !p(s[i]),
    ensures
        spec_count_while(s, p) == i,
    decreases i,
{
    if i == 0 {
    } else {
        let tail = s.drop_first();
        assert(forall|k: int| 0 <= k < i - 1 ==> tail[k] == s[k + 1]);
        assert(i - 1 < tail.len() ==> tail[i - 1] == s[i]);
        lemma_count_while_is_first(tail, p, i - 1);
    }
}

/// The balance a row carries.
pub open spec fn spec_balance_of_row(b: BalanceRow) -> TransactionBalance {
    TransactionBalance { account: b.account, pre: b.pre, post: b.post }
}

/// The instruction a row carries.
pub open spec fn spec_instruction_of_row(x: IxRow) -> TransactionInstruction {
    TransactionInstruction { name: x.name, payload: x.payload }
}

/// The JSON object of one transaction, straight from its rows: the index is
/// the txid's low bits, the balances and instructions are the given rows in
/// their given order.
pub open spec fn spec_tx_json_of(t: TxRow, bals: Seq<BalanceRow>, ixs: Seq<IxRow>) -> Seq<char> {
    "{\"index\":"@ + spec_u64_digits(t.txid as int % 0x1000000) + ",\"signature\":"@
        + spec_json_string(t.signature@) + ",\"payer\":"@ + spec_json_string(t.payer@)
        + ",\"balances\":"@ + spec_json_array(
        bals.map_values(|b: BalanceRow| spec_balance_json(spec_balance_of_row(b))),
    ) + ",\"instructions\":"@ + spec_json_array(
        ixs.map_values(|x: IxRow| spec_instruction_json(spec_instruction_of_row(x))),
    ) + "}"@
}

/// The JSON line of one slot, from its metadata and its transactions' JSON.
pub open spec fn spec_slot_json_of(s: Slot, txjsons: Seq<Seq<char>>) -> Seq<char> {
    "{\"slot\":"@ + spec_u64_digits(s.slot as int) + ",\"block_height\":"@ + spec_u64_digits(
        s.block_height as int,
    ) + ",\"block_time\":"@ + spec_i64_digits(s.block_time as int) + ",\"transactions\":"@
        + spec_json_array(txjsons) + "}"@
}

/// Consume one slot's worth of rows: pop transactions while their txid is
/// under the slot's upper txid bound, and give each its leading balances and
/// instructions with the same txid. Yields the transactions' JSON and the
/// three remainders.
pub open spec fn spec_txs_for_slot(
    txs: Seq<TxRow>,
    bals: Seq<BalanceRow>,
    ixs: Seq<IxRow>,
    upper: int,
) -> (Seq<Seq<char>>, Seq<TxRow>, Seq<BalanceRow>, Seq<IxRow>)
    decreases txs.len(),
{
    if txs.len() == 0 || txs[0].txid >= upper {
        (Seq::empty(), txs, bals, ixs)
    } else {
        let t = txs[0];
        let nb = spec_count_while(bals, |b: BalanceRow| b.txid == t.txid);
        let ni = spec_count_while(ixs, |x: IxRow| x.txid == t.txid);
        let j = spec_tx_json_of(t, bals.take(nb), ixs.take(ni));
        let rec = spec_txs_for_slot(txs.drop_first(), bals.skip(nb), ixs.skip(ni), upper);
        (seq![j] + rec.0, rec.1, rec.2, rec.3)
    }
}

/// The records of a slot range: one JSON line per slot, in slot order, each
/// consuming its leading rows.
pub open spec fn spec_assemble(
    slots: Seq<Slot>,
    txs: Seq<TxRow>,
    bals: Seq<BalanceRow>,
    ixs: Seq<IxRow>,
) -> Seq<(Slot, Seq<char>)>
    decreases slots.len(),
{
    if slots.len() == 0 {
        Seq::empty()
    } else {
        let upper = (slots[0].slot + 1) * 0x1000000;
        let rec = spec_txs_for_slot(txs, bals, ixs, upper);
        seq![(slots[0], spec_slot_json_of(slots[0], rec.0))] + spec_assemble(
            slots.drop_first(),
            rec.1,
            rec.2,
            rec.3,
        )
    }
}

/// There is exactly one record per slot.
pub proof fn lemma_assemble_len(
    slots: Seq<Slot>,
    txs: Seq<TxRow>,
    bals: Seq<BalanceRow>,
    ixs: Seq<IxRow>,
)
    ensures
        spec_assemble(slots, txs, bals, ixs).len() == slots.len(),
    decreases slots.len(),
{
    if slots.len() > 0 {
        let upper = (slots[0].slot + 1) * 0x1000000;
        let rec = spec_txs_for_slot(txs, bals, ixs, upper);
        lemma_assemble_len(slots.drop_first(), rec.1, rec.2, rec.3);
    }
}

/// A transaction struct whose fields come from rows renders as the rows do.
proof fn lemma_tx_json_bridge(t: TxRow, tx: Transaction, bals: Seq<BalanceRow>, ixs: Seq<IxRow>)
    requires
        tx.index == t.txid as int % 0x1000000,
        tx.signature == t.signature,
        tx.payer == t.payer,
        tx.balances@ == bals.map_values(|b: BalanceRow| spec_balance_of_row(b)),
        tx.instructions@ == ixs.map_values(|x: IxRow| spec_instruction_of_row(x)),
    ensures
        spec_transaction_json(tx) == spec_tx_json_of(t, bals, ixs),
{
    assert(tx.balances@.map_values(|b: TransactionBalance| spec_balance_json(b)) =~= bals.map_values(
        |b: BalanceRow| spec_balance_json(spec_balance_of_row(b)),
    ));
    assert(tx.instructions@.map_values(|i: TransactionInstruction| spec_instruction_json(i))
        =~= ixs.map_values(|x: IxRow| spec_instruction_json(spec_instruction_of_row(x))));
}

/// A record struct whose transactions render to the given JSON pieces
/// renders as the slot's line.
proof fn lemma_slot_json_bridge(s: Slot, w: WhirlpoolTransaction, txjsons: Seq<Seq<char>>)
    requires
        w.slot == s.slot,
        w.block_height == s.block_height,
        w.block_time == s.block_time,
        w.transactions@.map_values(|t: Transaction| spec_transaction_json(t)) == txjsons,
    ensures
        spec_whirlpool_transaction_json(w) == spec_slot_json_of(s, txjsons),
{
}

/// Reassemble a slot range's records from its row scans.
///
/// The rows may arrive in any order: they are sorted by their keys first,
/// exactly as `spec_sort_by` says, and the records then pop each slot's
/// leading rows. The result holds exactly one line per given slot.
pub fn assemble_slot_records(
    slots: &Vec<Slot>,
    txs: Vec<TxRow>,
    bals: Vec<BalanceRow>,
    ixs: Vec<IxRow>,
) -> (r: Vec<(Slot, String)>)
    ensures
        r@.len() == slots@.len(),
        ({
            let sp = spec_assemble(
                slots@,
                spec_sort_by(txs@, tx_lt_fn()),
                spec_sort_by(bals@, balance_lt_fn()),
                spec_sort_by(ixs@, ix_lt_fn()),
            );
            forall|k: int|
                0 <= k < slots@.len() ==> (#[trigger] r@[k]).0 == sp[k].0 && r@[k].1@ == sp[k].1
        }),
{
    let mut txs_v = sort_tx_rows(txs);
    let mut bals_v = sort_balance_rows(bals);
    let mut ixs_v = sort_ix_rows(ixs);
    let ghost full = spec_assemble(slots@, txs_v@, bals_v@, ixs_v@);
    proof {
        lemma_assemble_len(slots@, txs_v@, bals_v@, ixs_v@);
        assert(slots@.skip(0) =~= slots@);
        assert(full.skip(0) =~= full);
    }

    let mut out: Vec<(Slot, String)> = Vec::new();
    let ns = slots.len();
    let mut s_i: usize = 0;
    while s_i < ns
        invariant
            ns == slots@.len(),
            s_i <= ns,
            out@.len() == s_i,
            full.len() == ns,
            forall|k: int|
                0 <= k < s_i ==> (#[trigger] out@[k]).0 == full[k].0 && out@[k].1@ == full[k].1,
            spec_assemble(slots@.skip(s_i as int), txs_v@, bals_v@, ixs_v@) == full.skip(
                s_i as int,
            ),
        decreases ns - s_i,
    {
        let slot = slots[s_i];
        let upper: u128 = ((slot.slot as u128) + 1) << 24;
        let ghost up = (slot.slot + 1) * 0x1000000;
        proof {
            let y: u128 = ((slot.slot as u128) + 1) as u128;
            assert(y << 24 == y * 0x1000000) by (bit_vector)
                requires y <= 0x10000000000000000u128;
            assert(upper == y * 0x1000000);
        }

        let ghost t0 = txs_v@;
        let ghost b0 = bals_v@;
        let ghost i0 = ixs_v@;
        let ghost rec = spec_txs_for_slot(t0, b0, i0, up);

        let mut txs_of_slot: Vec<Transaction> = Vec::new();
        while txs_v.len() > 0 && (txs_v[0].txid as u128) < upper
            invariant
                up == (slot.slot + 1) * 0x1000000,
                upper == up,
                rec == spec_txs_for_slot(t0, b0, i0, up),
                ({
                    let cur = spec_txs_for_slot(txs_v@, bals_v@, ixs_v@, up);
                    &&& rec.0 == txs_of_slot@.map_values(
                        |t: Transaction| spec_transaction_json(t),
                    ) + cur.0
                    &&& rec.1 == cur.1
                    &&& rec.2 == cur.2
                    &&& rec.3 == cur.3
                }),
            decreases txs_v.len(),
        {
            let ghost cur0 = txs_v@;
            let t = txs_v.remove(0);
            proof {
                assert(cur0.remove(0) =~= cur0.drop_first());
            }

            // pop this transaction's balances
            let ghost bstart = bals_v@;
            let bn0 = bals_v.len();
            let mut tb: Vec<TransactionBalance> = Vec::new();
            let mut bk: usize = 0;
            proof {
                assert(bstart.skip(0) =~= bstart);
                assert(tb@ =~= bstart.take(0).map_values(|b: BalanceRow| spec_balance_of_row(b)));
            }
            while bals_v.len() > 0 && bals_v[0].txid == t.txid
                invariant
                    bstart.len() == bn0,
                    bk <= bn0,
                    bals_v@ == bstart.skip(bk as int),
                    tb@ == bstart.take(bk as int).map_values(
                        |b: BalanceRow| spec_balance_of_row(b),
                    ),
                    forall|j: int| 0 <= j < bk ==> (#[trigger] bstart[j]).txid == t.txid,
                decreases bals_v.len(),
            {
                proof {
                    assert(bstart.skip(bk as int).len() == bstart.len() - bk);
                }
                let b = bals_v.remove(0);
                proof {
                    assert(bstart.skip(bk as int).remove(0) =~= bstart.skip(bk as int + 1));
                    assert(b == bstart[bk as int]);
                }
                tb.push(TransactionBalance { account: b.account, pre: b.pre, post: b.post });
                proof {
                    assert(bstart.take(bk as int + 1).drop_last() =~= bstart.take(bk as int));
                    assert(tb@ =~= bstart.take(bk as int + 1).map_values(
                        |b: BalanceRow| spec_balance_of_row(b),
                    ));
                }
                bk = bk + 1;
            }
            proof {
                lemma_count_while_is_first(
                    bstart,
                    |b: BalanceRow| b.txid == t.txid,
                    bk as int,
                );
            }

            // pop this transaction's instructions
            let ghost istart = ixs_v@;
            let in0 = ixs_v.len();
            let mut ti: Vec<TransactionInstruction> = Vec::new();
            let mut ik: usize = 0;
            proof {
                assert(istart.skip(0) =~= istart);
                assert(ti@ =~= istart.take(0).map_values(
                    |x: IxRow| spec_instruction_of_row(x),
                ));
            }
            while ixs_v.len() > 0 && ixs_v[0].txid == t.txid
                invariant
                    istart.len() == in0,
                    ik <= in0,
                    ixs_v@ == istart.skip(ik as int),
                    ti@ == istart.take(ik as int).map_values(
                        |x: IxRow| spec_instruction_of_row(x),
                    ),
                    forall|j: int| 0 <= j < ik ==> (#[trigger] istart[j]).txid == t.txid,
                decreases ixs_v.len(),
            {
                proof {
                    assert(istart.skip(ik as int).len() == istart.len() - ik);
                }
                let x = ixs_v.remove(0);
                proof {
                    assert(istart.skip(ik as int).remove(0) =~= istart.skip(ik as int + 1));
                    assert(x == istart[ik as int]);
                }
                ti.push(TransactionInstruction { name: x.name, payload: x.payload });
                proof {
                    assert(istart.take(ik as int + 1).drop_last() =~= istart.take(ik as int));
                    assert(ti@ =~= istart.take(ik as int + 1).map_values(
                        |x: IxRow| spec_instruction_of_row(x),
                    ));
                }
                ik = ik + 1;
            }
            proof {
                lemma_count_while_is_first(istart, |x: IxRow| x.txid == t.txid, ik as int);
            }

            let index = crate::txid::txid_index(t.txid);
            let ghost tghost = t;
            let tx = Transaction {
                index,
                signature: t.signature,
                payer: t.payer,
                balances: tb,
                instructions: ti,
            };
            proof {
                lemma_tx_json_bridge(
                    tghost,
                    tx,
                    bstart.take(bk as int),
                    istart.take(ik as int),
                );
                // one step of the consumption spec
                assert(cur0[0] == tghost);
                assert(cur0[0].txid < up);
            }
            txs_of_slot.push(tx);
            proof {
                let cur = spec_txs_for_slot(txs_v@, bals_v@, ixs_v@, up);
                let stepped = spec_txs_for_slot(cur0, bstart, istart, up);
                assert(stepped.0 == seq![
                    spec_tx_json_of(tghost, bstart.take(bk as int), istart.take(ik as int)),
                ] + cur.0 && stepped.1 == cur.1 && stepped.2 == cur.2 && stepped.3 == cur.3);
                assert(txs_of_slot@.map_values(|t: Transaction| spec_transaction_json(t))
                    =~= txs_of_slot@.drop_last().map_values(
                    |t: Transaction| spec_transaction_json(t),
                ).push(spec_transaction_json(tx)));
                assert(rec.0 =~= txs_of_slot@.map_values(
                    |t: Transaction| spec_transaction_json(t),
                ) + cur.0);
            }
        }
        proof {
            let cur = spec_txs_for_slot(txs_v@, bals_v@, ixs_v@, up);
            assert(cur.0 =~= Seq::<Seq<char>>::empty());
            assert(rec.0 =~= txs_of_slot@.map_values(|t: Transaction| spec_transaction_json(t)));
        }

        let w = WhirlpoolTransaction {
            slot: slot.slot,
            block_height: slot.block_height,
            block_time: slot.block_time,
            transactions: txs_of_slot,
        };
        let line = crate::schema::whirlpool_transaction_json(&w);
        proof {
            lemma_slot_json_bridge(slot, w, rec.0);
            assert(slots@.skip(s_i as int)[0] == slot);
            assert(slots@.skip(s_i as int).drop_first() =~= slots@.skip(s_i as int + 1));
            assert(full.skip(s_i as int)[0] == full[s_i as int]);
            assert(full.skip(s_i as int).drop_first() =~= full.skip(s_i as int + 1));
        }
        out.push((slot, line));
        s_i = s_i + 1;
    }
    out
}


/// No two transaction rows share a txid.
pub open spec fn spec_distinct_tx_keys(s: Seq<TxRow>) -> bool {
    forall|i: int, j: int|
        0 <= i < j < s.len() ==> (#[trigger] s[i]).txid != (#[trigger] s[j]).txid
}

/// No two balance rows share a txid and account.
pub open spec fn spec_distinct_balance_keys(s: Seq<BalanceRow>) -> bool {
    forall|i: int, j: int|
        0 <= i < j < s.len() ==> !((#[trigger] s[i]).txid == (#[trigger] s[j]).txid
            && s[i].account@ == s[j].account@)
}

/// No two instruction rows share a txid and order.
pub open spec fn spec_distinct_ix_keys(s: Seq<IxRow>) -> bool {
    forall|i: int, j: int|
        0 <= i < j < s.len() ==> !((#[trigger] s[i]).txid == (#[trigger] s[j]).txid
            && s[i].order == s[j].order)
}

/// A sorted sequence of transaction rows with distinct keys ascends strictly.
proof fn lemma_tx_sorted_strict(s: Seq<TxRow>)
    requires
        spec_sorted_by(s, tx_lt_fn()),
        spec_distinct_tx_keys(s),
    ensures
        spec_strictly_sorted_by(s, tx_lt_fn()),
{
}

/// A sorted sequence of balance rows with distinct keys ascends strictly.
proof fn lemma_balance_sorted_strict(s: Seq<BalanceRow>)
    requires
        spec_sorted_by(s, balance_lt_fn()),
        spec_distinct_balance_keys(s),
    ensures
        spec_strictly_sorted_by(s, balance_lt_fn()),
{
    lemma_str_order_properties();
    assert forall|i: int, j: int| 0 <= i < j < s.len() implies balance_lt_fn()(s[i], s[j]) by {
        assert(!spec_balance_lt(s[j], s[i]));
        if s[i].txid == s[j].txid {
            assert(s[i].account@ != s[j].account@);
        }
    }
}

/// A sorted sequence of instruction rows with distinct keys ascends strictly.
proof fn lemma_ix_sorted_strict(s: Seq<IxRow>)
    requires
        spec_sorted_by(s, ix_lt_fn()),
        spec_distinct_ix_keys(s),
    ensures
        spec_strictly_sorted_by(s, ix_lt_fn()),
{
    assert forall|i: int, j: int| 0 <= i < j < s.len() implies ix_lt_fn()(s[i], s[j]) by {
        assert(!spec_ix_lt(s[j], s[i]));
    }
}

/// Distinct keys carry over to any rearrangement of the same rows.
pub proof fn lemma_distinct_keys_transfer<A>(x: Seq<A>, y: Seq<A>, same_key: spec_fn(A, A) -> bool)
    requires
        x.to_multiset() == y.to_multiset(),
        forall|i: int, j: int| 0 <= i < j < x.len() ==> !same_key(#[trigger] x[i], #[trigger] x[j]),
        forall|a: A| #[trigger] same_key(a, a),
        forall|a: A, b: A| #[trigger] same_key(a, b) ==> same_key(b, a),
    ensures
        forall|i: int, j: int| 0 <= i < j < y.len() ==> !same_key(#[trigger] y[i], #[trigger] y[j]),
{
    broadcast use vstd::seq_lib::group_to_multiset_ensures;
    broadcast use vstd::multiset::group_multiset_axioms;

    assert forall|i: int, j: int| 0 <= i < j < y.len() implies !same_key(y[i], y[j]) by {
        if same_key(y[i], y[j]) {
            if y[i] == y[j] {
                let v = y[i];
                let s0 = y.subrange(0, j);
                let s1 = y.subrange(j, y.len() as int);
                assert(y =~= s0 + s1);
                vstd::seq_lib::lemma_multiset_commutative(s0, s1);
                assert(y.to_multiset() == s0.to_multiset().add(s1.to_multiset()));
                assert(s0[i] == v);
                assert(s0.contains(v));
                assert(s1[0] == v);
                assert(s1.contains(v));
                assert(s0.to_multiset().count(v) > 0);
                assert(s1.to_multiset().count(v) > 0);
                assert(y.to_multiset().count(v) >= 2);
                assert forall|p: int, q: int|
                    0 <= p < x.len() && 0 <= q < x.len() && p != q implies x[p] != x[q] by {
                    if x[p] == x[q] {
                        if p < q {
                            assert(!same_key(x[p], x[q]));
                            assert(same_key(x[p], x[p]));
                        } else {
                            assert(!same_key(x[q], x[p]));
                            assert(same_key(x[p], x[p]));
                        }
                    }
                }
                assert(x.no_duplicates());
                x.lemma_multiset_has_no_duplicates();
                assert(x.to_multiset().count(v) >= 2);
                assert(x.to_multiset().contains(v));
                assert(x.to_multiset().count(v) == 1);
            } else {
                assert(y.contains(y[i]) && y.contains(y[j]));
                assert(x.to_multiset().count(y[i]) > 0 && x.to_multiset().count(y[j]) > 0);
                assert(x.contains(y[i]) && x.contains(y[j]));
                let ii = choose|k: int| 0 <= k < x.len() && x[k] == y[i];
                let jj = choose|k: int| 0 <= k < x.len() && x[k] == y[j];
                assert(ii != jj);
                if ii < jj {
                    assert(!same_key(x[ii], x[jj]));
                } else {
                    assert(!same_key(x[jj], x[ii]));
                    assert(same_key(y[j], y[i]));
                }
            }
        }
    }
}

/// The reader is deterministic: two scans of the same rows, in any two
/// orders, assemble to the same records, as long as each row set has
/// distinct keys. The sorted forms coincide, so every byte of every line
/// coincides.
pub proof fn lemma_reader_deterministic(
    slots: Seq<Slot>,
    txs1: Seq<TxRow>,
    txs2: Seq<TxRow>,
    bals1: Seq<BalanceRow>,
    bals2: Seq<BalanceRow>,
    ixs1: Seq<IxRow>,
    ixs2: Seq<IxRow>,
)
    requires
        txs1.to_multiset() == txs2.to_multiset(),
        bals1.to_multiset() == bals2.to_multiset(),
        ixs1.to_multiset() == ixs2.to_multiset(),
        spec_distinct_tx_keys(spec_sort_by(txs1, tx_lt_fn())),
        spec_distinct_balance_keys(spec_sort_by(bals1, balance_lt_fn())),
        spec_distinct_ix_keys(spec_sort_by(ixs1, ix_lt_fn())),
    ensures
        spec_assemble(
            slots,
            spec_sort_by(txs1, tx_lt_fn()),
            spec_sort_by(bals1, balance_lt_fn()),
            spec_sort_by(ixs1, ix_lt_fn()),
        ) == spec_assemble(
            slots,
            spec_sort_by(txs2, tx_lt_fn()),
            spec_sort_by(bals2, balance_lt_fn()),
            spec_sort_by(ixs2, ix_lt_fn()),
        ),
{
    lemma_tx_order();
    lemma_balance_order();
    lemma_ix_order();
    lemma_sort_by_ensures(txs1, tx_lt_fn());
    lemma_sort_by_ensures(txs2, tx_lt_fn());
    lemma_sort_by_ensures(bals1, balance_lt_fn());
    lemma_sort_by_ensures(bals2, balance_lt_fn());
    lemma_sort_by_ensures(ixs1, ix_lt_fn());
    lemma_sort_by_ensures(ixs2, ix_lt_fn());
    let st1 = spec_sort_by(txs1, tx_lt_fn());
    let st2 = spec_sort_by(txs2, tx_lt_fn());
    let sb1 = spec_sort_by(bals1, balance_lt_fn());
    let sb2 = spec_sort_by(bals2, balance_lt_fn());
    let si1 = spec_sort_by(ixs1, ix_lt_fn());
    let si2 = spec_sort_by(ixs2, ix_lt_fn());
    assert(st2.to_multiset() == st1.to_multiset());
    assert(sb2.to_multiset() == sb1.to_multiset());
    assert(si2.to_multiset() == si1.to_multiset());
    lemma_distinct_keys_transfer(st1, st2, |a: TxRow, b: TxRow| a.txid == b.txid);
    lemma_distinct_keys_transfer(
        sb1,
        sb2,
        |a: BalanceRow, b: BalanceRow| a.txid == b.txid && a.account@ == b.account@,
    );
    lemma_distinct_keys_transfer(
        si1,
        si2,
        |a: IxRow, b: IxRow| a.txid == b.txid && a.order == b.order,
    );
    lemma_tx_sorted_strict(st1);
    lemma_tx_sorted_strict(st2);
    lemma_strictly_sorted_unique(st1, st2, tx_lt_fn());
    lemma_balance_sorted_strict(sb1);
    lemma_balance_sorted_strict(sb2);
    lemma_strictly_sorted_unique(sb1, sb2, balance_lt_fn());
    lemma_ix_sorted_strict(si1);
    lemma_ix_sorted_strict(si2);
    lemma_strictly_sorted_unique(si1, si2, ix_lt_fn());
}

/// The transactions a slot's record holds ascend strictly by txid, and,
/// since they share the slot's high bits, by index: records list their
/// transactions in index order.
pub proof fn lemma_slot_transactions_ascending(txs: Seq<TxRow>, upper: int)
    requires
        spec_strictly_sorted_by(txs, tx_lt_fn()),
        upper % 0x1000000 == 0,
    ensures
        ({
            let n = spec_count_while(txs, |t: TxRow| t.txid < upper);
            forall|i: int, j: int|
                0 <= i < j < n ==> (#[trigger] txs[i]).txid < (#[trigger] txs[j]).txid
        }),
        ({
            let n = spec_count_while(txs, |t: TxRow| t.txid < upper);
            forall|i: int, j: int|
                0 <= i < j < n && upper - 0x1000000 <= txs[i].txid && upper - 0x1000000 <= txs[j].txid
                    ==> crate::txid::spec_txid_index((#[trigger] txs[i]).txid) < crate::txid::spec_txid_index(
                    (#[trigger] txs[j]).txid,
                )
        }),
{
    let p = |t: TxRow| t.txid < upper;
    let n = spec_count_while(txs, p);
    lemma_count_while_le(txs, p);
    assert forall|i: int, j: int|
        0 <= i < j < n && upper - 0x1000000 <= txs[i].txid && upper - 0x1000000 <= txs[j].txid
        implies crate::txid::spec_txid_index(txs[i].txid) < crate::txid::spec_txid_index(
        txs[j].txid,
    ) by {
        lemma_count_while_members(txs, p, i);
        lemma_count_while_members(txs, p, j);
        let a = txs[i].txid;
        let b = txs[j].txid;
        assert(a < b);
        let m = 0x1000000;
        let q = upper / m;
        vstd::arithmetic::div_mod::lemma_fundamental_div_mod(upper, m);
        vstd::arithmetic::div_mod::lemma_fundamental_div_mod_converse(
            a as int,
            m,
            q - 1,
            a - m * (q - 1),
        );
        vstd::arithmetic::div_mod::lemma_fundamental_div_mod_converse(
            b as int,
            m,
            q - 1,
            b - m * (q - 1),
        );
    }
}

/// The first `count` elements satisfy the predicate, and the count is in
/// range.
proof fn lemma_count_while_le<A>(s: Seq<A>, p: spec_fn(A) -> bool)
    ensures
        0 <= spec_count_while(s, p) <= s.len(),
    decreases s.len(),
{
    if s.len() > 0 && p(s[0]) {
        lemma_count_while_le(s.drop_first(), p);
    }
}

/// The element at the count, when there is one, fails the predicate.
proof fn lemma_count_while_stop<A>(s: Seq<A>, p: spec_fn(A) -> bool)
    ensures
        spec_count_while(s, p) < s.len() ==> !p(s[spec_count_while(s, p)]),
    decreases s.len(),
{
    if s.len() > 0 && p(s[0]) {
        lemma_count_while_stop(s.drop_first(), p);
        lemma_count_while_le(s.drop_first(), p);
        let ct = spec_count_while(s.drop_first(), p);
        if 1 + ct < s.len() {
            assert(s[1 + ct] == s.drop_first()[ct]);
        }
    }
}

/// Every element before the count satisfies the predicate.
proof fn lemma_count_while_members<A>(s: Seq<A>, p: spec_fn(A) -> bool, i: int)
    requires
        0 <= i < spec_count_while(s, p),
    ensures
        p(s[i]),
    decreases i,
{
    lemma_count_while_le(s, p);
    if i > 0 {
        lemma_count_while_members(s.drop_first(), p, i - 1);
    }
}

/// The balances of one transaction stand in strictly ascending account
/// order: the record lists a transaction's balances sorted by account.
pub proof fn lemma_tx_balances_ascending(bals: Seq<BalanceRow>, txid: u64)
    requires
        spec_strictly_sorted_by(bals, balance_lt_fn()),
    ensures
        ({
            let nb = spec_count_while(bals, |b: BalanceRow| b.txid == txid);
            forall|i: int, j: int|
                0 <= i < j < nb ==> spec_str_lt(
                    (#[trigger] bals[i]).account@,
                    (#[trigger] bals[j]).account@,
                )
        }),
{
    let p = |b: BalanceRow| b.txid == txid;
    let nb = spec_count_while(bals, p);
    lemma_count_while_le(bals, p);
    assert forall|i: int, j: int| 0 <= i < j < nb implies spec_str_lt(
        bals[i].account@,
        bals[j].account@,
    ) by {
        lemma_count_while_members(bals, p, i);
        lemma_count_while_members(bals, p, j);
        assert(spec_balance_lt(bals[i], bals[j]));
    }
}

/// The instructions of one transaction stand in strictly ascending order of
/// their in-transaction position.
pub proof fn lemma_tx_instructions_ascending(ixs: Seq<IxRow>, txid: u64)
    requires
        spec_strictly_sorted_by(ixs, ix_lt_fn()),
    ensures
        ({
            let ni = spec_count_while(ixs, |x: IxRow| x.txid == txid);
            forall|i: int, j: int|
                0 <= i < j < ni ==> (#[trigger] ixs[i]).order < (#[trigger] ixs[j]).order
        }),
{
    let p = |x: IxRow| x.txid == txid;
    let ni = spec_count_while(ixs, p);
    lemma_count_while_le(ixs, p);
    assert forall|i: int, j: int| 0 <= i < j < ni implies ixs[i].order < ixs[j].order by {
        lemma_count_while_members(ixs, p, i);
        lemma_count_while_members(ixs, p, j);
        assert(spec_ix_lt(ixs[i], ixs[j]));
    }
}


/// One slot's consumption takes exactly the leading prefix: what remains is
/// the input beyond the count, and one JSON object is built per consumed row.
#[verifier::rlimit(30)]
pub proof fn lemma_txs_for_slot_remainder(
    txs: Seq<TxRow>,
    bals: Seq<BalanceRow>,
    ixs: Seq<IxRow>,
    upper: int,
)
    ensures
        ({
            let rec = spec_txs_for_slot(txs, bals, ixs, upper);
            let n = spec_count_while(txs, |t: TxRow| t.txid < upper);
            rec.1 == txs.skip(n) && rec.0.len() == n
        }),
    decreases txs.len(),
{
    let rec = spec_txs_for_slot(txs, bals, ixs, upper);
    let p = |t: TxRow| t.txid < upper;
    let n = spec_count_while(txs, p);
    if txs.len() == 0 || txs[0].txid >= upper {
        assert(txs.skip(0) =~= txs);
    } else {
        let t = txs[0];
        let nb = spec_count_while(bals, |b: BalanceRow| b.txid == t.txid);
        let ni = spec_count_while(ixs, |x: IxRow| x.txid == t.txid);
        lemma_txs_for_slot_remainder(txs.drop_first(), bals.skip(nb), ixs.skip(ni), upper);
        let m = spec_count_while(txs.drop_first(), p);
        lemma_count_while_le(txs, p);
        lemma_count_while_le(txs.drop_first(), p);
        assert(n == 1 + m);
        assert forall|k: int| 0 <= k < txs.len() - n implies txs.drop_first().skip(m)[k]
            == txs.skip(n)[k] by {
            assert(txs.drop_first().skip(m)[k] == txs[1 + m + k]);
            assert(txs.skip(n)[k] == txs[n + k]);
        }
        assert(txs.drop_first().skip(m) =~= txs.skip(n));
    }
}

/// The JSON object renders the row: it is `spec_tx_json_of` of that row
/// with some balance and instruction segments, so its index field is the
/// row's own low txid bits.
#[verifier::opaque]
pub open spec fn spec_renders_row(j: Seq<char>, t: TxRow) -> bool {
    exists|b: Seq<BalanceRow>, x: Seq<IxRow>| j == #[trigger] spec_tx_json_of(t, b, x)
}

/// Each JSON object of a slot's record renders the consumed row at its
/// position: together with `lemma_slot_transactions_ascending`, the objects
/// of a record stand in ascending index order.
pub proof fn lemma_txs_for_slot_objects(
    txs: Seq<TxRow>,
    bals: Seq<BalanceRow>,
    ixs: Seq<IxRow>,
    upper: int,
)
    ensures
        ({
            let rec = spec_txs_for_slot(txs, bals, ixs, upper);
            forall|i: int|
                0 <= i < rec.0.len() && i < txs.len() ==> spec_renders_row(
                    #[trigger] rec.0[i],
                    txs[i],
                )
        }),
    decreases txs.len(),
{
    let rec = spec_txs_for_slot(txs, bals, ixs, upper);
    if txs.len() == 0 || txs[0].txid >= upper {
    } else {
        let t = txs[0];
        let nb = spec_count_while(bals, |b: BalanceRow| b.txid == t.txid);
        let ni = spec_count_while(ixs, |x: IxRow| x.txid == t.txid);
        lemma_txs_for_slot_objects(txs.drop_first(), bals.skip(nb), ixs.skip(ni), upper);
        let recp = spec_txs_for_slot(txs.drop_first(), bals.skip(nb), ixs.skip(ni), upper);
        assert forall|i: int| 0 <= i < rec.0.len() && i < txs.len() implies spec_renders_row(
            #[trigger] rec.0[i],
            txs[i],
        ) by {
            if i == 0 {
                assert(rec.0[0] == spec_tx_json_of(t, bals.take(nb), ixs.take(ni)));
                assert(spec_renders_row(rec.0[0], t)) by {
                    reveal(spec_renders_row);
                }
            } else {
                assert(rec.0[i] == recp.0[i - 1]);
                assert(txs.drop_first()[i - 1] == txs[i]);
                assert(spec_renders_row(recp.0[i - 1], txs.drop_first()[i - 1]));
            }
        }
    }
}

/// The rows one slot consumes are its own: with the rows sorted by txid and
/// none earlier than the slot's first txid, the consumed prefix holds
/// exactly the txids of that slot, and everything left belongs to later
/// slots.
pub proof fn lemma_slot_window_consumption(txs: Seq<TxRow>, slot: int)
    requires
        spec_sorted_by(txs, tx_lt_fn()),
        slot >= 0,
        forall|i: int| 0 <= i < txs.len() ==> slot * 0x1000000 <= (#[trigger] txs[i]).txid,
    ensures
        ({
            let n = spec_count_while(txs, |t: TxRow| t.txid < (slot + 1) * 0x1000000);
            &&& forall|i: int|
                0 <= i < n ==> crate::txid::spec_txid_slot((#[trigger] txs[i]).txid) == slot
            &&& forall|i: int|
                n <= i < txs.len() ==> (#[trigger] txs[i]).txid >= (slot + 1) * 0x1000000
        }),
{
    let p = |t: TxRow| t.txid < (slot + 1) * 0x1000000;
    let n = spec_count_while(txs, p);
    lemma_count_while_le(txs, p);
    assert forall|i: int| 0 <= i < n implies crate::txid::spec_txid_slot(
        (#[trigger] txs[i]).txid,
    ) == slot by {
        lemma_count_while_members(txs, p, i);
        let a = txs[i].txid;
        vstd::arithmetic::div_mod::lemma_fundamental_div_mod_converse(
            a as int,
            0x1000000,
            slot,
            a - slot * 0x1000000,
        );
    }
    assert forall|i: int| n <= i < txs.len() implies (#[trigger] txs[i]).txid >= (slot + 1)
        * 0x1000000 by {
        lemma_count_while_stop(txs, p);
        assert(!p(txs[n]));
        if i > n {
            assert(!tx_lt_fn()(txs[i], txs[n]));
        }
    }
}

/// What remains of the three row sets after every slot's record is built.
pub open spec fn spec_assemble_rest(
    slots: Seq<Slot>,
    txs: Seq<TxRow>,
    bals: Seq<BalanceRow>,
    ixs: Seq<IxRow>,
) -> (Seq<TxRow>, Seq<BalanceRow>, Seq<IxRow>)
    decreases slots.len(),
{
    if slots.len() == 0 {
        (txs, bals, ixs)
    } else {
        let upper = (slots[0].slot + 1) * 0x1000000;
        let rec = spec_txs_for_slot(txs, bals, ixs, upper);
        spec_assemble_rest(slots.drop_first(), rec.1, rec.2, rec.3)
    }
}

/// Slot numbers ascend one by one.
pub open spec fn spec_contiguous_slots(slots: Seq<Slot>) -> bool {
    forall|k: int|
        0 <= k < slots.len() - 1 ==> (#[trigger] slots[k + 1]).slot == slots[k].slot + 1
}

/// Every transaction row lands in the record of its own slot: over a
/// contiguous slot range, with the rows sorted by txid and every txid inside
/// the range's window, each slot's record consumes exactly the rows whose
/// txid names that slot (`lemma_slot_window_consumption` at each step), and
/// after the last slot no transaction row is left over.
pub proof fn lemma_assemble_consumes_all(
    slots: Seq<Slot>,
    txs: Seq<TxRow>,
    bals: Seq<BalanceRow>,
    ixs: Seq<IxRow>,
)
    requires
        slots.len() > 0,
        spec_contiguous_slots(slots),
        spec_sorted_by(txs, tx_lt_fn()),
        forall|i: int|
            0 <= i < txs.len() ==> slots[0].slot * 0x1000000 <= (#[trigger] txs[i]).txid
                < (slots.last().slot + 1) * 0x1000000,
    ensures
        spec_assemble_rest(slots, txs, bals, ixs).0.len() == 0,
    decreases slots.len(),
{
    let upper = (slots[0].slot + 1) * 0x1000000;
    let rec = spec_txs_for_slot(txs, bals, ixs, upper);
    let p = |t: TxRow| t.txid < upper;
    let n = spec_count_while(txs, p);
    lemma_txs_for_slot_remainder(txs, bals, ixs, upper);
    lemma_slot_window_consumption(txs, slots[0].slot as int);
    lemma_count_while_le(txs, p);
    assert(spec_assemble_rest(slots, txs, bals, ixs) == spec_assemble_rest(
        slots.drop_first(),
        rec.1,
        rec.2,
        rec.3,
    ));
    if slots.len() == 1 {
        assert(n == txs.len()) by {
            lemma_count_while_is_first(txs, p, txs.len() as int);
        }
        assert(rec.1.len() == 0);
        assert(slots.drop_first().len() == 0);
        assert(spec_assemble_rest(slots.drop_first(), rec.1, rec.2, rec.3).0 == rec.1);
    } else {
        let rest_slots = slots.drop_first();
        assert(rest_slots[0].slot == slots[0].slot + 1);
        assert(rest_slots.last() == slots.last());
        assert(spec_contiguous_slots(rest_slots)) by {
            assert(forall|k: int|
                0 <= k < rest_slots.len() - 1 ==> (#[trigger] rest_slots[k + 1]) == slots[k + 2]
                    && rest_slots[k] == slots[k + 1]);
        }
        assert(spec_sorted_by(rec.1, tx_lt_fn())) by {
            assert(forall|i: int, j: int|
                0 <= i < j < rec.1.len() ==> rec.1[i] == txs[n + i] && rec.1[j] == txs[n + j]);
        }
        assert forall|i: int| 0 <= i < rec.1.len() implies rest_slots[0].slot * 0x1000000 <= (
        #[trigger] rec.1[i]).txid < (rest_slots.last().slot + 1) * 0x1000000 by {
            assert(rec.1[i] == txs[n + i]);
        }
        lemma_assemble_consumes_all(rest_slots, rec.1, rec.2, rec.3);
    }
}

} // verus!
