//! The reader's reassembly: exact lines, element order, determinism.

use sedimentology::reader::{assemble_slot_records, str_eq, str_lt, BalanceRow, IxRow, TxRow};
use sedimentology::schema::Slot;
use sedimentology::txid::pack_txid;

fn tx(txid: u64, signature: &str, payer: &str) -> TxRow {
    TxRow { txid, signature: signature.to_string(), payer: payer.to_string() }
}

fn bal(txid: u64, account: &str, pre: u64, post: u64) -> BalanceRow {
    BalanceRow { txid, account: account.to_string(), pre, post }
}

fn ix(txid: u64, order: u8, name: &str, payload: &str) -> IxRow {
    IxRow { txid, order, name: name.to_string(), payload: payload.to_string() }
}

#[test]
fn string_order_is_lexicographic() {
    assert!(str_lt("abc", "abd"));
    assert!(str_lt("ab", "abc"));
    assert!(!str_lt("abc", "abc"));
    assert!(!str_lt("b", "abc"));
    assert!(str_eq("abc", "abc"));
    assert!(!str_eq("abc", "abd"));
}

#[test]
fn single_slot_single_transaction() {
    let slots = vec![Slot { slot: 100, block_height: 10, block_time: 1704067200 }];
    let txs = vec![tx(pack_txid(100, 0), "sigA", "P1")];
    let ixs = vec![ix(pack_txid(100, 0), 0, "swap", "{}")];
    let records = assemble_slot_records(&slots, txs, Vec::new(), ixs);
    assert_eq!(records.len(), 1);
    assert_eq!(records[0].0.slot, 100);
    assert_eq!(
        records[0].1,
        "{\"slot\":100,\"block_height\":10,\"block_time\":1704067200,\"transactions\":\
         [{\"index\":0,\"signature\":\"sigA\",\"payer\":\"P1\",\"balances\":[],\
         \"instructions\":[{\"name\":\"swap\",\"payload\":{}}]}]}"
    );
}

#[test]
fn empty_slot_still_gets_a_record() {
    let slots = vec![
        Slot { slot: 7, block_height: 1, block_time: 1000 },
        Slot { slot: 8, block_height: 2, block_time: 2000 },
    ];
    let records = assemble_slot_records(&slots, Vec::new(), Vec::new(), Vec::new());
    assert_eq!(records.len(), 2);
    assert_eq!(
        records[0].1,
        "{\"slot\":7,\"block_height\":1,\"block_time\":1000,\"transactions\":[]}"
    );
    assert_eq!(
        records[1].1,
        "{\"slot\":8,\"block_height\":2,\"block_time\":2000,\"transactions\":[]}"
    );
}

#[test]
fn balances_sort_by_account_and_instructions_by_order() {
    let t = pack_txid(5, 0);
    let slots = vec![Slot { slot: 5, block_height: 3, block_time: 50 }];
    let txs = vec![tx(t, "s", "p")];
    let bals = vec![bal(t, "zeta", 1, 2), bal(t, "alpha", 3, 4)];
    let ixs = vec![ix(t, 1, "b", "2"), ix(t, 0, "a", "1")];
    let records = assemble_slot_records(&slots, txs, bals, ixs);
    assert_eq!(
        records[0].1,
        "{\"slot\":5,\"block_height\":3,\"block_time\":50,\"transactions\":\
         [{\"index\":0,\"signature\":\"s\",\"payer\":\"p\",\"balances\":\
         [{\"account\":\"alpha\",\"pre\":3,\"post\":4},{\"account\":\"zeta\",\"pre\":1,\"post\":2}],\
         \"instructions\":[{\"name\":\"a\",\"payload\":1},{\"name\":\"b\",\"payload\":2}]}]}"
    );
}

#[test]
fn transactions_sort_by_index_within_slot() {
    let slots = vec![Slot { slot: 9, block_height: 1, block_time: 10 }];
    let txs = vec![tx(pack_txid(9, 2), "c", "p"), tx(pack_txid(9, 0), "a", "p"), tx(
        pack_txid(9, 1),
        "b",
        "p",
    )];
    let records = assemble_slot_records(&slots, txs, Vec::new(), Vec::new());
    let line = &records[0].1;
    let a = line.find("\"a\"").unwrap();
    let b = line.find("\"b\"").unwrap();
    let c = line.find("\"c\"").unwrap();
    assert!(a < b && b < c);
}

#[test]
fn reader_is_deterministic_across_row_orders() {
    let slots = vec![
        Slot { slot: 40, block_height: 1, block_time: 100 },
        Slot { slot: 41, block_height: 2, block_time: 200 },
    ];
    let t0 = pack_txid(40, 0);
    let t1 = pack_txid(41, 0);
    let txs1 = vec![tx(t0, "x", "p"), tx(t1, "y", "q")];
    let txs2 = vec![tx(t1, "y", "q"), tx(t0, "x", "p")];
    let bals1 = vec![bal(t0, "m", 1, 2), bal(t1, "n", 3, 4)];
    let bals2 = vec![bal(t1, "n", 3, 4), bal(t0, "m", 1, 2)];
    let ixs1 = vec![ix(t0, 0, "a", "1"), ix(t1, 0, "b", "2")];
    let ixs2 = vec![ix(t1, 0, "b", "2"), ix(t0, 0, "a", "1")];
    let r1 = assemble_slot_records(&slots, txs1, bals1, ixs1);
    let r2 = assemble_slot_records(&slots, txs2, bals2, ixs2);
    assert_eq!(r1.len(), r2.len());
    for (a, b) in r1.iter().zip(r2.iter()) {
        assert_eq!(a.1, b.1);
    }
}

#[test]
fn json_string_escaping_in_signature() {
    let t = pack_txid(3, 0);
    let slots = vec![Slot { slot: 3, block_height: 1, block_time: 1 }];
    let txs = vec![tx(t, "a\"b\\c\n", "p")];
    let records = assemble_slot_records(&slots, txs, Vec::new(), Vec::new());
    assert!(records[0].1.contains("\"signature\":\"a\\\"b\\\\c\\n\""));
}
