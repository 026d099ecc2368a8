use candle_sync::orchestrator::{Action, Event, PairSync, Phase};
use candle_sync::{CandleMeta, Granularity, SyncError};

fn c(time: i64, complete: bool) -> CandleMeta {
    CandleMeta { time, complete }
}

#[test]
fn pair_walks_through_every_step() {
    let (mut p, a) = PairSync::start("EUR_USD", Granularity::D);
    assert_eq!(p.label(), "eur_usd_D");
    match a {
        Action::Execute(sql) => assert!(sql.starts_with("CREATE TABLE IF NOT EXISTS eur_usd_D ")),
        other => panic!("unexpected {:?}", other),
    }
    assert_eq!(p.phase(), Phase::Ensure);
    assert!(p.expects(&Event::Done));
    assert!(!p.expects(&Event::Latest(None)));
    match p.step(Event::Done) {
        Action::QueryLatest(sql) => assert_eq!(sql, "SELECT timestamp FROM eur_usd_D ORDER BY timestamp DESC LIMIT 1"),
        other => panic!("unexpected {:?}", other),
    }
    match p.step(Event::Latest(Some(300))) {
        Action::Request(r) => {
            assert_eq!(r.instrument, "EUR_USD");
            assert_eq!(r.granularity, Granularity::D);
            assert_eq!(r.count, 500);
            assert_eq!(r.since, Some(300));
        }
        other => panic!("unexpected {:?}", other),
    }
    let page = vec![c(200, true), c(300, true), c(400, true), c(500, false)];
    match p.step(Event::Fetched(page)) {
        Action::Write { rows, insert, trim, keep } => {
            assert_eq!(rows, vec![2]);
            assert!(insert.starts_with("INSERT INTO eur_usd_D "));
            assert!(trim.starts_with("DELETE FROM eur_usd_D "));
            assert_eq!(keep, 2000);
        }
        other => panic!("unexpected {:?}", other),
    }
    assert_eq!(p.phase(), Phase::Store);
    match p.step(Event::Done) {
        Action::Report(r) => assert_eq!(r, Ok((4, 1))),
        other => panic!("unexpected {:?}", other),
    }
    assert_eq!(p.phase(), Phase::Finished);
    assert!(!p.expects(&Event::Done));
}

#[test]
fn empty_table_fetches_from_the_beginning() {
    let (mut p, _) = PairSync::start("XAU_USD", Granularity::M);
    p.step(Event::Done);
    match p.step(Event::Latest(None)) {
        Action::Request(r) => assert_eq!(r.since, None),
        other => panic!("unexpected {:?}", other),
    }
    match p.step(Event::Fetched(vec![c(100, true), c(200, true), c(300, true), c(400, false)])) {
        Action::Write { rows, .. } => assert_eq!(rows, vec![0, 1, 2]),
        other => panic!("unexpected {:?}", other),
    }
}

#[test]
fn failure_ends_the_pair() {
    let (mut p, _) = PairSync::start("EUR_USD", Granularity::W);
    p.step(Event::Done);
    p.step(Event::Latest(None));
    match p.step(Event::Failed(SyncError::Upstream)) {
        Action::Report(r) => assert_eq!(r, Err(SyncError::Upstream)),
        other => panic!("unexpected {:?}", other),
    }
    assert_eq!(p.phase(), Phase::Finished);
}

#[test]
fn write_failure_is_reported() {
    let (mut p, _) = PairSync::start("EUR_USD", Granularity::W);
    p.step(Event::Done);
    p.step(Event::Latest(None));
    p.step(Event::Fetched(vec![c(1, true)]));
    match p.step(Event::Failed(SyncError::Storage)) {
        Action::Report(r) => assert_eq!(r, Err(SyncError::Storage)),
        other => panic!("unexpected {:?}", other),
    }
}

#[test]
fn invalid_instrument_is_reported_at_once() {
    let (p, a) = PairSync::start("EUR/USD", Granularity::D);
    assert_eq!(p.phase(), Phase::Finished);
    assert_eq!(p.label(), "EUR/USD");
    match a {
        Action::Report(r) => assert_eq!(r, Err(SyncError::InvalidName)),
        other => panic!("unexpected {:?}", other),
    }
}
