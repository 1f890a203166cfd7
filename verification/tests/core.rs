//! Identifier packing, civil dates and decimal rendering.

use sedimentology::date::{
    convert_unixtime_to_yyyymmdd, convert_yyyymmdd_to_unixtime, is_next_date, next_yyyymmdd_date,
    prev_yyyymmdd_date, truncate_unixtime_to_date,
};
use sedimentology::digits::{duration_to_string, i64_to_string, u64_to_string, with_separator};
use sedimentology::txid::{max_txid_of_slot, min_txid_of_slot, pack_txid, txid_index, txid_slot};

#[test]
fn txid_packs_slot_and_index() {
    let txid = pack_txid(100, 0);
    assert_eq!(txid, 100u64 << 24);
    assert_eq!(txid >> 24, 100);
    assert_eq!(txid & 0xFFFFFF, 0);
}

#[test]
fn txid_unpacks_both_parts() {
    let txid = pack_txid(123456789, 777);
    assert_eq!(txid_slot(txid), 123456789);
    assert_eq!(txid_index(txid), 777);
}

#[test]
fn txid_range_of_slot() {
    assert_eq!(min_txid_of_slot(5), 5 << 24);
    assert_eq!(max_txid_of_slot(5), (6u64 << 24) - 1);
}

#[test]
fn txid_largest_packable_slot() {
    let txid = pack_txid(0xFFFFFFFFFF, 0xFFFFFF);
    assert_eq!(txid, u64::MAX);
    assert_eq!(txid_slot(txid), 0xFFFFFFFFFF);
    assert_eq!(txid_index(txid), 0xFFFFFF);
}

#[test]
fn truncate_to_day_start() {
    assert_eq!(truncate_unixtime_to_date(1704067199), 1703980800);
    assert_eq!(truncate_unixtime_to_date(1704067200), 1704067200);
    assert_eq!(truncate_unixtime_to_date(0), 0);
}

#[test]
fn next_date_is_one_day_later() {
    assert!(is_next_date(1703980800, 1704067200));
    assert!(!is_next_date(1703980800, 1704067201));
    assert!(!is_next_date(1704067200, 1703980800));
}

#[test]
fn yyyymmdd_to_unixtime() {
    assert_eq!(convert_yyyymmdd_to_unixtime(20240101), 1704067200);
    assert_eq!(convert_yyyymmdd_to_unixtime(19700101), 0);
    assert_eq!(convert_yyyymmdd_to_unixtime(20231231), 1703980800);
}

#[test]
fn unixtime_to_yyyymmdd() {
    assert_eq!(convert_unixtime_to_yyyymmdd(1704067200), 20240101);
    assert_eq!(convert_unixtime_to_yyyymmdd(1704067199), 20231231);
    assert_eq!(convert_unixtime_to_yyyymmdd(0), 19700101);
}

#[test]
fn next_day_over_year_end() {
    assert_eq!(next_yyyymmdd_date(20231231), 20240101);
}

#[test]
fn next_day_into_leap_february() {
    assert_eq!(next_yyyymmdd_date(20240228), 20240229);
    assert_eq!(next_yyyymmdd_date(20240229), 20240301);
    assert_eq!(next_yyyymmdd_date(20230228), 20230301);
}

#[test]
fn prev_day_cases() {
    assert_eq!(prev_yyyymmdd_date(20240101), 20231231);
    assert_eq!(prev_yyyymmdd_date(20240301), 20240229);
    assert_eq!(prev_yyyymmdd_date(20240102), 20240101);
}

#[test]
fn day_roundtrip_through_unixtime() {
    let date = 20240615;
    let t = convert_yyyymmdd_to_unixtime(date);
    assert_eq!(convert_unixtime_to_yyyymmdd(t), date);
    assert_eq!(convert_unixtime_to_yyyymmdd(t + 86399), date);
}

#[test]
fn decimal_rendering() {
    assert_eq!(u64_to_string(0), "0");
    assert_eq!(u64_to_string(1234567), "1234567");
    assert_eq!(u64_to_string(u64::MAX), "18446744073709551615");
    assert_eq!(i64_to_string(-42), "-42");
    assert_eq!(i64_to_string(i64::MIN), "-9223372036854775808");
    assert_eq!(i64_to_string(7), "7");
}

#[test]
fn thousands_grouping() {
    assert_eq!(with_separator(0), "0");
    assert_eq!(with_separator(999), "999");
    assert_eq!(with_separator(1000), "1,000");
    assert_eq!(with_separator(1234567), "1,234,567");
    assert_eq!(with_separator(1000000), "1,000,000");
}

#[test]
fn elapsed_time_shorthand() {
    assert_eq!(duration_to_string(5), "5s");
    assert_eq!(duration_to_string(599), "599s");
    assert_eq!(duration_to_string(700), "11m40s");
    assert_eq!(duration_to_string(7300), "2h1m");
    assert_eq!(duration_to_string(200000), "2d7h33m");
}
