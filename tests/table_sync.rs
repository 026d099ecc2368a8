use candle_sync::candles::{candle_meta, count_complete, select_new};
use candle_sync::sync::{fetch_request, PairOutcome, PAGE_SIZE};
use candle_sync::table::MAX_CANDLES;
use candle_sync::{CandleMeta, CandleTable, Granularity, RunSummary, SyncError};

fn c(time: i64, complete: bool) -> CandleMeta {
    CandleMeta { time, complete }
}

#[test]
fn empty_table_then_three_complete_candles() {
    let mut t = CandleTable::new();
    assert_eq!(t.resume_point(), None);
    let batch = vec![c(100, true), c(200, true), c(300, true), c(400, false)];
    let added = t.append(&batch);
    assert_eq!(added, 3);
    assert_eq!(t.times(), vec![100, 200, 300]);
    assert_eq!(t.resume_point(), Some(300));
    let again = vec![c(200, true), c(300, true)];
    assert_eq!(t.append(&again), 0);
    assert_eq!(t.times(), vec![100, 200, 300]);
}

#[test]
fn second_sync_with_same_data_changes_nothing() {
    let mut t = CandleTable::new();
    let batch = vec![c(10, true), c(20, true), c(30, false), c(25, true)];
    assert_eq!(t.append(&batch), 3);
    let first = t.times();
    assert_eq!(first, vec![10, 20, 25]);
    assert_eq!(t.append(&batch), 0);
    assert_eq!(t.times(), first);
}

#[test]
fn resume_stores_only_later_candles() {
    let mut t = CandleTable::new();
    t.append(&vec![c(100, true), c(200, true), c(300, true)]);
    let added = t.append(&vec![c(250, true), c(300, true), c(350, true), c(360, false)]);
    assert_eq!(added, 1);
    assert_eq!(t.times(), vec![100, 200, 300, 350]);
}

#[test]
fn selection_skips_duplicates_and_times_not_after_resume() {
    let batch = vec![c(5, true), c(7, true), c(7, true), c(6, true), c(9, false), c(8, true)];
    assert_eq!(select_new(&batch, None), vec![0, 1, 3, 5]);
    assert_eq!(select_new(&batch, Some(6)), vec![1, 5]);
    assert_eq!(select_new(&batch, Some(100)), Vec::<usize>::new());
    assert_eq!(select_new(&Vec::new(), Some(1)), Vec::<usize>::new());
}

#[test]
fn retention_keeps_most_recent_rows() {
    let mut t = CandleTable::new();
    let first: Vec<CandleMeta> = (1..=1500).map(|i| c(i, true)).collect();
    assert_eq!(t.append(&first), 1500);
    assert_eq!(t.len(), 1500);
    let second: Vec<CandleMeta> = (1..=2600).map(|i| c(i, true)).collect();
    assert_eq!(t.append(&second), 1100);
    assert_eq!(t.len(), MAX_CANDLES);
    let expected: Vec<i64> = (601..=2600).collect();
    assert_eq!(t.times(), expected);
    assert_eq!(t.resume_point(), Some(2600));
}

#[test]
fn retention_at_exact_bound() {
    let mut t = CandleTable::new();
    let batch: Vec<CandleMeta> = (0..2000).map(|i| c(i * 60, true)).collect();
    assert_eq!(t.append(&batch), 2000);
    assert_eq!(t.len(), 2000);
    assert_eq!(t.times()[0], 0);
    t.append(&vec![c(2000 * 60, true)]);
    assert_eq!(t.len(), 2000);
    assert_eq!(t.times()[0], 60);
    assert_eq!(t.times()[1999], 120000);
}

#[test]
fn incomplete_candles_are_not_considered() {
    let batch = vec![c(1, true), c(2, false), c(3, true), c(4, false), c(5, true)];
    assert_eq!(count_complete(&batch), 3);
    let mut t = CandleTable::new();
    assert_eq!(t.append(&batch), 5 - 2);
    assert_eq!(t.times(), vec![1, 3, 5]);
}

#[test]
fn all_incomplete_batch_stores_nothing() {
    let batch = vec![c(1, false), c(2, false)];
    assert_eq!(count_complete(&batch), 0);
    let mut t = CandleTable::new();
    assert_eq!(t.append(&batch), 0);
    assert_eq!(t.len(), 0);
    assert_eq!(t.resume_point(), None);
}

#[test]
fn candle_time_is_parsed_to_seconds() {
    let m = candle_meta("2024-01-02T22:00:00.000000000Z", true);
    assert_eq!(m, Some(c(1704232800, true)));
    let m = candle_meta("1970-01-01T00:01:40Z", false);
    assert_eq!(m, Some(c(100, false)));
}

#[test]
fn bad_candle_time_is_rejected() {
    assert_eq!(candle_meta("yesterday", true), None);
    assert_eq!(candle_meta("", true), None);
}

#[test]
fn fetch_request_resumes_after_latest() {
    let r = fetch_request("EUR_USD", Granularity::W, Some(300));
    assert_eq!(r.instrument, "EUR_USD");
    assert_eq!(r.granularity, Granularity::W);
    assert_eq!(r.count, 500);
    assert_eq!(PAGE_SIZE, 500);
    assert_eq!(r.since, Some(300));
    let r = fetch_request("EUR_USD", Granularity::D, None);
    assert_eq!(r.since, None);
}

#[test]
fn run_summary_counts_failures() {
    let mut s = RunSummary::new();
    assert!(s.all_synced());
    s.record(PairOutcome { table: "eur_usd_D".to_string(), result: Ok((3, 3)) });
    s.record(PairOutcome { table: "xau_usd_D".to_string(), result: Err(SyncError::Upstream) });
    s.record(PairOutcome { table: "xau_usd_W".to_string(), result: Err(SyncError::Storage) });
    assert_eq!(s.failure_count(), 2);
    assert!(!s.all_synced());
    assert_eq!(s.outcomes().len(), 3);
    assert_eq!(s.outcomes()[0].table, "eur_usd_D");
}

#[test]
fn page_order_does_not_change_what_is_stored() {
    let mut a = CandleTable::new();
    assert_eq!(a.append(&vec![c(300, true), c(200, true)]), 2);
    assert_eq!(a.times(), vec![200, 300]);
    let mut b = CandleTable::new();
    assert_eq!(b.append(&vec![c(200, true), c(300, true)]), 2);
    assert_eq!(a.times(), b.times());
    let mut d = CandleTable::new();
    d.append(&vec![c(100, true)]);
    assert_eq!(d.append(&vec![c(400, true), c(50, true), c(250, false), c(150, true), c(400, true)]), 2);
    assert_eq!(d.times(), vec![100, 150, 400]);
}

#[test]
fn reversed_page_keeps_every_complete_candle() {
    let batch: Vec<CandleMeta> = (1..=10).rev().map(|i| c(i * 100, i % 3 != 0)).collect();
    assert_eq!(count_complete(&batch), 7);
    let mut t = CandleTable::new();
    assert_eq!(t.append(&batch), 10 - 3);
    assert_eq!(t.times(), vec![100, 200, 400, 500, 700, 800, 1000]);
    assert_eq!(select_new(&batch, Some(500)), vec![0, 2, 3]);
}
