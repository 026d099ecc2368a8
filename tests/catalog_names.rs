use candle_sync::catalog::{
    default_whitelist, is_listed, matches_whitelist, parse_whitelist, select_instruments,
};
use candle_sync::naming::{is_valid_ident, table_name, table_name_for};
use candle_sync::text::{has_prefix, split_on_commas};
use candle_sync::{Granularity, SyncError};

fn strings(v: &[&str]) -> Vec<String> {
    v.iter().map(|s| s.to_string()).collect()
}

#[test]
fn whitelist_selects_by_prefix() {
    let wl = strings(&["eur_usd"]);
    let catalog = strings(&["EUR_USD", "EUR_USD_SHORT", "GBP_USD"]);
    assert_eq!(select_instruments(&catalog, &wl), strings(&["EUR_USD", "EUR_USD_SHORT"]));
}

#[test]
fn whitelist_keeps_catalog_order() {
    let wl = strings(&["xau", "de30_eur"]);
    let catalog = strings(&["DE30_EUR", "EUR_USD", "XAU_USD", "XAU_XAG"]);
    assert_eq!(select_instruments(&catalog, &wl), strings(&["DE30_EUR", "XAU_USD", "XAU_XAG"]));
    assert_eq!(select_instruments(&catalog, &Vec::new()), Vec::<String>::new());
}

#[test]
fn instrument_is_lowercased_before_matching() {
    let wl = strings(&["eur_usd"]);
    assert!(matches_whitelist("EUR_USD", &wl));
    assert!(!matches_whitelist("EUR_GBP", &wl));
    assert!(is_listed("eur_usd", &wl));
    assert!(!is_listed("EUR_USD", &wl));
}

#[test]
fn tickers_are_trimmed_and_lowercased() {
    assert_eq!(parse_whitelist(" EUR_USD , Xau_Usd,spx500_usd"), strings(&["eur_usd", "xau_usd", "spx500_usd"]));
    assert_eq!(parse_whitelist(""), strings(&[""]));
    assert_eq!(parse_whitelist("a,,b"), strings(&["a", "", "b"]));
    assert_eq!(parse_whitelist("\tEUR_USD\n,\u{a0}XAU_USD "), strings(&["eur_usd", "xau_usd"]));
}

#[test]
fn default_whitelist_has_every_symbol() {
    let wl = default_whitelist();
    assert_eq!(wl.len(), 17);
    assert_eq!(wl[0], "natgas_usd");
    assert_eq!(wl[16], "xau_xag");
    assert!(matches_whitelist("SPX500_USD", &wl));
    assert!(!matches_whitelist("GBP_USD", &wl));
}

#[test]
fn prefix_and_split() {
    assert!(has_prefix("eur_usd_short", "eur_usd"));
    assert!(has_prefix("eur", ""));
    assert!(!has_prefix("eur", "eur_usd"));
    assert!(!has_prefix("gbp_usd", "eur"));
    assert_eq!(split_on_commas("a,b,"), strings(&["a", "b", ""]));
    assert_eq!(split_on_commas("abc"), strings(&["abc"]));
}

#[test]
fn table_name_joins_lowercase_instrument_and_code() {
    let t = table_name("EUR_USD", Granularity::D).unwrap();
    assert_eq!(t.as_str(), "eur_usd_D");
    let t = table_name("SPX500_USD", Granularity::M).unwrap();
    assert_eq!(t.as_str(), "spx500_usd_M");
    let t = table_name_for("xau_xag", Granularity::W).unwrap();
    assert_eq!(t.as_str(), "xau_xag_W");
}

#[test]
fn table_name_rejects_unexpected_characters() {
    assert_eq!(table_name("EUR/USD", Granularity::D).err(), Some(SyncError::InvalidName));
    assert_eq!(table_name("x; DROP TABLE y", Granularity::D).err(), Some(SyncError::InvalidName));
    assert_eq!(table_name("", Granularity::W).err(), Some(SyncError::InvalidName));
    assert_eq!(table_name("10Y_USD", Granularity::W).err(), Some(SyncError::InvalidName));
    assert!(!is_valid_ident("a-b"));
    assert!(is_valid_ident("a_1"));
}

#[test]
fn statements_name_the_table() {
    let t = table_name("EUR_USD", Granularity::D).unwrap();
    assert_eq!(
        t.create_sql(),
        "CREATE TABLE IF NOT EXISTS eur_usd_D (timestamp INTEGER, open REAL, high REAL, low REAL, close REAL, volume REAL)"
    );
    assert_eq!(t.latest_sql(), "SELECT timestamp FROM eur_usd_D ORDER BY timestamp DESC LIMIT 1");
    assert_eq!(
        t.insert_sql(),
        "INSERT INTO eur_usd_D (timestamp, open, high, low, close, volume) VALUES (?1, ?2, ?3, ?4, ?5, ?6)"
    );
    assert_eq!(
        t.trim_sql(),
        "DELETE FROM eur_usd_D WHERE rowid IN (SELECT rowid FROM eur_usd_D ORDER BY timestamp DESC LIMIT -1 OFFSET ?1)"
    );
}

#[test]
fn granularity_codes() {
    assert_eq!(Granularity::D.code(), 'D');
    assert_eq!(Granularity::W.code(), 'W');
    assert_eq!(Granularity::M.code(), 'M');
}
