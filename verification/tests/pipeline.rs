//! The stateful subsystems: store, engine, checkpoints, distributor,
//! stream and archiver.

use std::io::Read;

use sedimentology::archive::{
    artifact_remote_path, build_token_bundle, build_transaction_bundle, next_archive_action,
    ArchiveAction,
};
use sedimentology::checkpoint::{
    accounts_store_from_entries, compress_account_data, compress_program_data,
    decode_accounts_blob, decode_program_blob, encode_checkpoint,
};
use sedimentology::codec::normalize_json;
use sedimentology::distributor::{
    plan_distribution, reconcile_cursors, Cursor, DistributeError, DistributorError,
};
use sedimentology::engine::{plan_slot_transition, ReplayEngine, ReplayError, SlotPlan};
use sedimentology::schema::Slot;
use sedimentology::store::AccountDataStore;
use sedimentology::stream::{stream_run, stream_take_chunk, StreamError, StreamEvent};

fn gunzip(data: &[u8]) -> Vec<u8> {
    let mut dec = flate2::read::GzDecoder::new(data);
    let mut out = Vec::new();
    dec.read_to_end(&mut out).unwrap();
    out
}

#[test]
fn store_upsert_get_delete() {
    let mut store = AccountDataStore::new_on_memory();
    store.upsert("beta".to_string(), vec![2]);
    store.upsert("alpha".to_string(), vec![1]);
    store.upsert("gamma".to_string(), vec![3]);
    assert_eq!(store.get("alpha"), Some(&vec![1u8]));
    assert_eq!(store.get("delta"), None);
    store.upsert("alpha".to_string(), vec![9]);
    assert_eq!(store.get("alpha"), Some(&vec![9u8]));
    store.delete("beta");
    assert_eq!(store.get("beta"), None);
    store.delete("beta");
    assert_eq!(store.get("beta"), None);
    assert_eq!(store.len(), 2);
}

#[test]
fn store_traversal_is_in_address_order() {
    let mut store = AccountDataStore::new_on_memory();
    store.upsert("m".to_string(), vec![1]);
    store.upsert("a".to_string(), vec![2]);
    store.upsert("z".to_string(), vec![3]);
    store.upsert("b".to_string(), vec![4]);
    let mut keys = Vec::new();
    for i in 0..store.len() {
        keys.push(store.entry_at(i).0.clone());
    }
    assert_eq!(keys, vec!["a", "b", "m", "z"]);
}

#[test]
fn store_upsert_is_idempotent_at_final_value() {
    let mut s1 = AccountDataStore::new_on_memory();
    s1.upsert("k".to_string(), vec![1, 2]);
    let mut s2 = AccountDataStore::new_on_memory();
    s2.upsert("k".to_string(), vec![0]);
    s2.upsert("k".to_string(), vec![1, 2]);
    assert_eq!(s1.get("k"), s2.get("k"));
    assert_eq!(s1.len(), s2.len());
}

#[test]
fn engine_updates_and_snapshot() {
    let mut store = AccountDataStore::new_on_memory();
    store.upsert("a".to_string(), vec![1]);
    let slot = Slot { slot: 10, block_height: 5, block_time: 100 };
    let mut engine = ReplayEngine::new(slot, vec![7], store);
    assert_eq!(engine.get_slot().slot, 10);
    assert_eq!(engine.get_program_data(), &vec![7u8]);
    engine.update_slot(11, 6, 160);
    assert_eq!(engine.get_slot().block_height, 6);
    engine.update_program_data(vec![8, 9]);
    assert_eq!(engine.get_program_data(), &vec![8u8, 9u8]);
    engine.upsert_account("b".to_string(), vec![2]);
    let snap = engine.capture_snapshot(&vec!["a".to_string(), "missing".to_string()]);
    assert_eq!(snap.get("a"), Some(&vec![1u8]));
    assert_eq!(snap.get("b"), None);
    assert_eq!(snap.get("missing"), None);
    engine.delete_account("a");
    assert_eq!(engine.get_accounts().get("a"), None);
}

#[test]
fn slot_plan_checkpoints_on_day_change() {
    let current = Slot { slot: 100, block_height: 10, block_time: 1704067199 };
    let next = Slot { slot: 101, block_height: 11, block_time: 1704067200 };
    let plan = plan_slot_transition(current, next, 50);
    assert_eq!(plan, Ok(SlotPlan::CheckpointThenAdvance { date_unixtime: 1703980800 }));
    assert_eq!(
        sedimentology::date::convert_unixtime_to_yyyymmdd(1703980800),
        20231231
    );
}

#[test]
fn slot_plan_advances_within_a_day() {
    let current = Slot { slot: 100, block_height: 10, block_time: 1704067200 };
    let next = Slot { slot: 101, block_height: 11, block_time: 1704067260 };
    assert_eq!(plan_slot_transition(current, next, 50), Ok(SlotPlan::Advance));
}

#[test]
fn slot_plan_skips_checkpoint_at_bootstrap() {
    let current = Slot { slot: 100, block_height: 10, block_time: 1704067199 };
    let next = Slot { slot: 101, block_height: 11, block_time: 1704067200 };
    assert_eq!(plan_slot_transition(current, next, 100), Ok(SlotPlan::Advance));
}

#[test]
fn slot_plan_rejects_bad_height_and_day_gap() {
    let current = Slot { slot: 100, block_height: 10, block_time: 1704067199 };
    let skipped = Slot { slot: 101, block_height: 12, block_time: 1704067200 };
    assert_eq!(
        plan_slot_transition(current, skipped, 50),
        Err(ReplayError::NonSequentialBlockHeight)
    );
    let gap = Slot { slot: 101, block_height: 11, block_time: 1704067200 + 86400 };
    assert_eq!(plan_slot_transition(current, gap, 50), Err(ReplayError::NonSequentialDate));
}

#[test]
fn checkpoint_blobs_are_deterministic() {
    let mut s1 = AccountDataStore::new_on_memory();
    s1.upsert("addr1".to_string(), vec![1, 2, 3]);
    s1.upsert("addr2".to_string(), vec![4, 5]);
    let mut s2 = AccountDataStore::new_on_memory();
    s2.upsert("addr2".to_string(), vec![4, 5]);
    s2.upsert("addr1".to_string(), vec![0]);
    s2.upsert("addr1".to_string(), vec![1, 2, 3]);
    let c1 = encode_checkpoint(20240101, 500, &[9, 8, 7], &s1);
    let c2 = encode_checkpoint(20240101, 500, &[9, 8, 7], &s2);
    assert_eq!(c1.program_compressed_data, c2.program_compressed_data);
    assert_eq!(c1.account_compressed_data, c2.account_compressed_data);
    assert_eq!(c1.date, 20240101);
    assert_eq!(c1.slot, 500);
}

#[test]
fn program_blob_roundtrip() {
    let program: Vec<u8> = (0u16..256).map(|b| b as u8).collect();
    let blob = compress_program_data(&program);
    assert_ne!(blob, program);
    assert_eq!(decode_program_blob(&blob), Some(program));
}

#[test]
fn accounts_blob_roundtrip() {
    let mut store = AccountDataStore::new_on_memory();
    store.upsert("k1".to_string(), vec![10, 20]);
    store.upsert("k2".to_string(), vec![30]);
    let blob = compress_account_data(&store);
    let decoded = decode_accounts_blob(&blob).unwrap();
    assert_eq!(decoded.len(), 2);
    assert_eq!(decoded[0].pubkey, "k1");
    assert_eq!(decoded[0].data, vec![10, 20]);
    assert_eq!(decoded[1].pubkey, "k2");
    assert_eq!(decoded[1].data, vec![30]);
    let rebuilt = accounts_store_from_entries(decoded);
    assert_eq!(rebuilt.get("k1"), Some(&vec![10u8, 20u8]));
    assert_eq!(rebuilt.get("k2"), Some(&vec![30u8]));
}

#[test]
fn reconcile_advances_source_to_destination() {
    let source = Cursor { slot: 1000, block_height: 900 };
    let dest = Cursor { slot: 1005, block_height: 905 };
    let r = reconcile_cursors(source, dest).unwrap();
    assert_eq!(r.start, dest);
    assert!(r.advance_source);
}

#[test]
fn reconcile_equal_cursors_is_normal() {
    let c = Cursor { slot: 1000, block_height: 900 };
    let r = reconcile_cursors(c, c).unwrap();
    assert_eq!(r.start, c);
    assert!(!r.advance_source);
}

#[test]
fn reconcile_rejects_impossible_states() {
    let source = Cursor { slot: 1000, block_height: 900 };
    let behind = Cursor { slot: 999, block_height: 899 };
    assert_eq!(
        reconcile_cursors(source, behind),
        Err(DistributorError::DestinationBehindSource)
    );
    let far = Cursor { slot: 2000, block_height: 900 + 193 };
    assert_eq!(
        reconcile_cursors(source, far),
        Err(DistributorError::DestinationTooFarAhead)
    );
}

#[test]
fn distribution_batch_compresses_and_bounds_retention() {
    let rows: Vec<(Slot, String)> = (21u64..=25)
        .map(|h| {
            (
                Slot { slot: 1000 + h, block_height: h, block_time: h as i64 },
                format!("line-{}", h),
            )
        })
        .collect();
    let batch = plan_distribution(rows, 10).unwrap();
    assert_eq!(batch.rows.len(), 5);
    assert_eq!(batch.delete_below_height, 15);
    assert_eq!(batch.new_cursor.slot, 1025);
    assert_eq!(batch.new_cursor.block_height, 25);
    for (i, row) in batch.rows.iter().enumerate() {
        let h = 21 + i as u64;
        assert_eq!(row.block_height, h);
        let decoded = zstd::decode_all(row.data.as_slice()).unwrap();
        assert_eq!(decoded, format!("line-{}", h).into_bytes());
        assert_ne!(row.data, format!("line-{}", h).into_bytes());
    }
}

#[test]
fn distribution_saturates_small_heights() {
    let rows = vec![(Slot { slot: 1, block_height: 3, block_time: 0 }, "x".to_string())];
    let batch = plan_distribution(rows, 10).unwrap();
    assert_eq!(batch.delete_below_height, 0);
}

#[test]
fn distribution_rejects_empty_and_sparse_chunks() {
    assert!(matches!(
        plan_distribution(Vec::new(), 10),
        Err(DistributeError::EmptyChunk)
    ));
    let rows = vec![
        (Slot { slot: 1, block_height: 5, block_time: 0 }, "a".to_string()),
        (Slot { slot: 2, block_height: 7, block_time: 0 }, "b".to_string()),
    ];
    assert!(matches!(
        plan_distribution(rows, 10),
        Err(DistributeError::HeightsNotDense)
    ));
}

#[test]
fn stream_chunk_validation() {
    assert_eq!(stream_take_chunk(50, Vec::new()), Err(StreamError::EmptyFetch));
    let wrong = vec![Slot { slot: 51, block_height: 1, block_time: 0 }];
    assert_eq!(stream_take_chunk(50, wrong), Err(StreamError::FirstSlotMismatch));
    let good = vec![
        Slot { slot: 50, block_height: 1, block_time: 0 },
        Slot { slot: 51, block_height: 2, block_time: 0 },
    ];
    let rest = stream_take_chunk(50, good).unwrap();
    assert_eq!(rest.len(), 1);
    assert_eq!(rest[0].slot, 51);
}

#[test]
fn stream_with_no_data_sends_exactly_three_heartbeats() {
    let events = stream_run(50, 3, Vec::new());
    assert_eq!(events.len(), 3);
    for ev in &events {
        assert_eq!(*ev, StreamEvent::Heartbeat);
    }
}

#[test]
fn stream_limit_counts_data_and_heartbeats() {
    let feed = vec![
        (Slot { slot: 51, block_height: 1, block_time: 0 }, "one".to_string()),
        (Slot { slot: 52, block_height: 2, block_time: 0 }, "two".to_string()),
    ];
    let events = stream_run(50, 5, vec![feed]);
    assert_eq!(events.len(), 5);
    assert_eq!(events[0], StreamEvent::Data("one".to_string()));
    assert_eq!(events[1], StreamEvent::Data("two".to_string()));
    assert_eq!(events[2], StreamEvent::Heartbeat);
    assert_eq!(events[3], StreamEvent::Heartbeat);
    assert_eq!(events[4], StreamEvent::Heartbeat);
}

#[test]
fn stream_limit_zero_sends_nothing() {
    let events = stream_run(50, 0, Vec::new());
    assert_eq!(events.len(), 0);
}

#[test]
fn archiver_picks_the_next_day_or_idles() {
    assert_eq!(next_archive_action(20240105, 20240105), ArchiveAction::Idle);
    assert_eq!(next_archive_action(20240101, 20240105), ArchiveAction::Idle);
    assert_eq!(
        next_archive_action(20240105, 20231231),
        ArchiveAction::ArchiveDay { date: 20240101 }
    );
}

#[test]
fn artifact_paths_follow_the_layout() {
    assert_eq!(
        artifact_remote_path("r2:sedimentology/alpha", "state", 20240101, "json"),
        "r2:sedimentology/alpha/2024/0101/whirlpool-state-20240101.json.gz"
    );
    assert_eq!(
        artifact_remote_path("root", "ohlcv-daily", 20231204, "jsonl"),
        "root/2023/1204/whirlpool-ohlcv-daily-20231204.jsonl.gz"
    );
}

#[test]
fn transaction_bundle_holds_the_days_lines() {
    let slots = vec![
        Slot { slot: 7, block_height: 1, block_time: 1000 },
        Slot { slot: 8, block_height: 2, block_time: 2000 },
    ];
    let bundle = build_transaction_bundle(&slots, Vec::new(), Vec::new(), Vec::new());
    let text = String::from_utf8(gunzip(&bundle)).unwrap();
    assert_eq!(
        text,
        "{\"slot\":7,\"block_height\":1,\"block_time\":1000,\"transactions\":[]}\n\
         {\"slot\":8,\"block_height\":2,\"block_time\":2000,\"transactions\":[]}\n"
    );
}

#[test]
fn token_bundle_and_rearchiving_are_identical() {
    let decimals = vec![
        sedimentology::schema::TokenDecimals { mint: "mintA".to_string(), decimals: 6 },
        sedimentology::schema::TokenDecimals { mint: "mintB".to_string(), decimals: 9 },
    ];
    let b1 = build_token_bundle(decimals.clone());
    let b2 = build_token_bundle(decimals);
    assert_eq!(b1, b2);
    let text = String::from_utf8(gunzip(&b1)).unwrap();
    assert_eq!(
        text,
        "[{\"mint\":\"mintA\",\"decimals\":6},{\"mint\":\"mintB\",\"decimals\":9}]"
    );
}

#[test]
fn token_bundle_sorts_decimals_by_mint() {
    let unsorted = vec![
        sedimentology::schema::TokenDecimals { mint: "mintB".to_string(), decimals: 9 },
        sedimentology::schema::TokenDecimals { mint: "mintA".to_string(), decimals: 6 },
    ];
    let text = String::from_utf8(gunzip(&build_token_bundle(unsorted))).unwrap();
    assert_eq!(
        text,
        "[{\"mint\":\"mintA\",\"decimals\":6},{\"mint\":\"mintB\",\"decimals\":9}]"
    );
}

#[test]
fn json_normalization_sorts_object_keys() {
    assert_eq!(
        normalize_json("{\"b\":1, \"a\":2}").unwrap(),
        "{\"a\":2,\"b\":1}"
    );
    assert_eq!(normalize_json("not json"), None);
}
