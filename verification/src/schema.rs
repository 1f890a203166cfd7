//! The pipeline's record types and their JSON-lines rendering.
//!
//! A slot's record is one JSON object of the shape
//! `{"slot":..,"block_height":..,"block_time":..,"transactions":[..]}`, with
//! every field in that order and no whitespace; the rendering functions here
//! pin each output character. An instruction's payload is carried as
//! already-normalized JSON text and spliced in verbatim.

use vstd::prelude::*;
use vstd::string::StringExecFns;
use crate::digits::{append_i64, append_u64, spec_i64_digits, spec_u64_digits};
use crate::jsontext::{append_json_string, spec_json_string};

verus! {

/// One slot's metadata.
#[derive(Debug, Clone, Copy, PartialEq, Eq, Structural)]
pub struct Slot {
    pub slot: u64,
    pub block_height: u64,
    pub block_time: i64,
}

/// One balance change inside a transaction.
#[derive(Debug, Clone)]
pub struct TransactionBalance {
    pub account: String,
    pub pre: u64,
    pub post: u64,
}

/// One instruction inside a transaction; `payload` holds normalized JSON
/// text for the instruction's arguments.
#[derive(Debug, Clone)]
pub struct TransactionInstruction {
    pub name: String,
    pub payload: String,
}

/// One transaction of a slot.
#[derive(Debug, Clone)]
pub struct Transaction {
    pub index: u32,
    pub signature: String,
    pub payer: String,
    pub balances: Vec<TransactionBalance>,
    pub instructions: Vec<TransactionInstruction>,
}

/// One slot's full record: its metadata and its transactions.
#[derive(Debug, Clone)]
pub struct WhirlpoolTransaction {
    pub slot: u64,
    pub block_height: u64,
    pub block_time: i64,
    pub transactions: Vec<Transaction>,
}

/// One token's decimal count, for the state bundle.
#[derive(Debug, Clone)]
pub struct TokenDecimals {
    pub mint: String,
    pub decimals: u8,
}

/// One account of the state bundle: address and raw data.
#[derive(Debug, Clone)]
pub struct WhirlpoolStateAccount {
    pub pubkey: String,
    pub data: Vec<u8>,
}

/// Elements joined with commas.
pub open spec fn spec_join_comma(elems: Seq<Seq<char>>) -> Seq<char>
    decreases elems.len(),
{
    if elems.len() == 0 {
        Seq::empty()
    } else if elems.len() == 1 {
        elems[0]
    } else {
        spec_join_comma(elems.drop_last()) + seq![','] + elems.last()
    }
}

/// A JSON array of already-rendered elements.
pub open spec fn spec_json_array(elems: Seq<Seq<char>>) -> Seq<char> {
    seq!['['] + spec_join_comma(elems) + seq![']']
}

/// The JSON object of one balance.
pub open spec fn spec_balance_json(b: TransactionBalance) -> Seq<char> {
    "{\"account\":"@ + spec_json_string(b.account@) + ",\"pre\":"@ + spec_u64_digits(b.pre as int)
        + ",\"post\":"@ + spec_u64_digits(b.post as int) + "}"@
}

/// The JSON object of one instruction.
pub open spec fn spec_instruction_json(i: TransactionInstruction) -> Seq<char> {
    "{\"name\":"@ + spec_json_string(i.name@) + ",\"payload\":"@ + i.payload@ + "}"@
}

/// The JSON object of one transaction.
pub open spec fn spec_transaction_json(t: Transaction) -> Seq<char> {
    "{\"index\":"@ + spec_u64_digits(t.index as int) + ",\"signature\":"@ + spec_json_string(
        t.signature@,
    ) + ",\"payer\":"@ + spec_json_string(t.payer@) + ",\"balances\":"@ + spec_json_array(
        t.balances@.map_values(|b: TransactionBalance| spec_balance_json(b)),
    ) + ",\"instructions\":"@ + spec_json_array(
        t.instructions@.map_values(|i: TransactionInstruction| spec_instruction_json(i)),
    ) + "}"@
}

/// The JSON object of one slot's record: the line the pipeline ships.
pub open spec fn spec_whirlpool_transaction_json(w: WhirlpoolTransaction) -> Seq<char> {
    "{\"slot\":"@ + spec_u64_digits(w.slot as int) + ",\"block_height\":"@ + spec_u64_digits(
        w.block_height as int,
    ) + ",\"block_time\":"@ + spec_i64_digits(w.block_time as int) + ",\"transactions\":"@
        + spec_json_array(w.transactions@.map_values(|t: Transaction| spec_transaction_json(t)))
        + "}"@
}

/// Joining one more element appends a comma (after the first) and the element.
pub proof fn lemma_join_comma_snoc(elems: Seq<Seq<char>>, i: int)
    requires
        0 <= i < elems.len(),
    ensures
        spec_join_comma(elems.take(i + 1)) == if i == 0 {
            elems[0]
        } else {
            spec_join_comma(elems.take(i)) + seq![','] + elems[i]
        },
{
    if i == 0 {
        assert(elems.take(1).len() == 1);
        assert(elems.take(1)[0] == elems[0]);
    } else {
        assert(elems.take(i + 1).drop_last() =~= elems.take(i));
        assert(elems.take(i + 1).last() == elems[i]);
    }
}

/// Append one balance as JSON.
fn append_balance_json(out: &mut String, b: &TransactionBalance)
    ensures
        final(out)@ == old(out)@ + spec_balance_json(*b),
{
    out.append("{\"account\":");
    append_json_string(out, b.account.as_str());
    out.append(",\"pre\":");
    append_u64(out, b.pre);
    out.append(",\"post\":");
    append_u64(out, b.post);
    out.append("}");
    proof {
        assert(final(out)@ =~= old(out)@ + spec_balance_json(*b));
    }
}

/// Append one instruction as JSON.
fn append_instruction_json(out: &mut String, i: &TransactionInstruction)
    ensures
        final(out)@ == old(out)@ + spec_instruction_json(*i),
{
    out.append("{\"name\":");
    append_json_string(out, i.name.as_str());
    out.append(",\"payload\":");
    out.append(i.payload.as_str());
    out.append("}");
    proof {
        assert(final(out)@ =~= old(out)@ + spec_instruction_json(*i));
    }
}

/// Append one transaction as JSON.
fn append_transaction_json(out: &mut String, t: &Transaction)
    ensures
        final(out)@ == old(out)@ + spec_transaction_json(*t),
{
    out.append("{\"index\":");
    append_u64(out, t.index as u64);
    out.append(",\"signature\":");
    append_json_string(out, t.signature.as_str());
    out.append(",\"payer\":");
    append_json_string(out, t.payer.as_str());
    out.append(",\"balances\":");

    let ghost bal_elems = t.balances@.map_values(|b: TransactionBalance| spec_balance_json(b));
    crate::digits::push_char(out, '[');
    let nb = t.balances.len();
    let mut i: usize = 0;
    while i < nb
        invariant
            nb == t.balances.len(),
            i <= nb,
            bal_elems == t.balances@.map_values(|b: TransactionBalance| spec_balance_json(b)),
            out@ == old(out)@ + spec_transaction_prefix_balances(*t) + seq!['[']
                + spec_join_comma(bal_elems.take(i as int)),
        decreases nb - i,
    {
        proof {
            lemma_join_comma_snoc(bal_elems, i as int);
        }
        if i > 0 {
            crate::digits::push_char(out, ',');
        }
        append_balance_json(out, &t.balances[i]);
        i = i + 1;
    }
    crate::digits::push_char(out, ']');
    proof {
        assert(bal_elems.take(nb as int) =~= bal_elems);
    }

    out.append(",\"instructions\":");
    let ghost ix_elems = t.instructions@.map_values(
        |ix: TransactionInstruction| spec_instruction_json(ix),
    );
    let ghost before_ix = out@;
    crate::digits::push_char(out, '[');
    let ni = t.instructions.len();
    let mut j: usize = 0;
    while j < ni
        invariant
            ni == t.instructions.len(),
            j <= ni,
            ix_elems == t.instructions@.map_values(
                |ix: TransactionInstruction| spec_instruction_json(ix),
            ),
            out@ == before_ix + seq!['['] + spec_join_comma(ix_elems.take(j as int)),
        decreases ni - j,
    {
        proof {
            lemma_join_comma_snoc(ix_elems, j as int);
        }
        if j > 0 {
            crate::digits::push_char(out, ',');
        }
        append_instruction_json(out, &t.instructions[j]);
        j = j + 1;
    }
    crate::digits::push_char(out, ']');
    out.append("}");
    proof {
        assert(ix_elems.take(ni as int) =~= ix_elems);
        assert(final(out)@ =~= old(out)@ + spec_transaction_json(*t));
    }
}

/// The fixed text of a transaction object up to its balances array.
spec fn spec_transaction_prefix_balances(t: Transaction) -> Seq<char> {
    "{\"index\":"@ + spec_u64_digits(t.index as int) + ",\"signature\":"@ + spec_json_string(
        t.signature@,
    ) + ",\"payer\":"@ + spec_json_string(t.payer@) + ",\"balances\":"@
}

/// Render one slot's record as its JSON line.
pub fn whirlpool_transaction_json(w: &WhirlpoolTransaction) -> (r: String)
    ensures
        r@ == spec_whirlpool_transaction_json(*w),
{
    let mut out = String::new();
    out.append("{\"slot\":");
    append_u64(&mut out, w.slot);
    out.append(",\"block_height\":");
    append_u64(&mut out, w.block_height);
    out.append(",\"block_time\":");
    append_i64(&mut out, w.block_time);
    out.append(",\"transactions\":");

    let ghost tx_elems = w.transactions@.map_values(|t: Transaction| spec_transaction_json(t));
    let ghost before_txs = out@;
    crate::digits::push_char(&mut out, '[');
    let n = w.transactions.len();
    let mut i: usize = 0;
    while i < n
        invariant
            n == w.transactions.len(),
            i <= n,
            tx_elems == w.transactions@.map_values(|t: Transaction| spec_transaction_json(t)),
            out@ == before_txs + seq!['['] + spec_join_comma(tx_elems.take(i as int)),
        decreases n - i,
    {
        proof {
            lemma_join_comma_snoc(tx_elems, i as int);
        }
        if i > 0 {
            crate::digits::push_char(&mut out, ',');
        }
        append_transaction_json(&mut out, &w.transactions[i]);
        i = i + 1;
    }
    crate::digits::push_char(&mut out, ']');
    out.append("}");
    proof {
        assert(tx_elems.take(n as int) =~= tx_elems);
        assert(out@ =~= spec_whirlpool_transaction_json(*w));
    }
    out
}

} // verus!
