use vstd::prelude::*;

use crate::text::{
    has_prefix, lower_of, lowercase, split_commas, split_on_commas, starts_with, trim, trim_of,
    views,
};

verus! {

/// The whitelist entries of a comma-separated list: each piece trimmed, then lowercased.
pub open spec fn whitelist_of(s: Seq<char>) -> Seq<Seq<char>> {
    split_commas(s).map_values(|p: Seq<char>| lower_of(trim_of(p)))
}

/// Whether the lowercased identifier `lowered` begins with some entry of the whitelist.
pub open spec fn listed(lowered: Seq<char>, whitelist: Seq<Seq<char>>) -> bool {
    exists|i: int| 0 <= i < whitelist.len() && starts_with(lowered, #[trigger] whitelist[i])
}

/// The instruments of `catalog`, in order, whose lowercased identifier the whitelist
/// selects.
pub open spec fn selected(catalog: Seq<Seq<char>>, whitelist: Seq<Seq<char>>) -> Seq<Seq<char>> {
    catalog.filter(|c: Seq<char>| listed(lower_of(c), whitelist))
}

/// The whitelist that a comma-separated list of tickers names.
pub fn parse_whitelist(tickers: &str) -> (r: Vec<String>)
    ensures
        views(r@) == whitelist_of(tickers@),
{
    let pieces = split_on_commas(tickers);
    let mut out: Vec<String> = Vec::new();
    let mut i: usize = 0;
    while i < pieces.len()
        invariant
            i <= pieces@.len(),
            views(out@) == views(pieces@).take(i as int).map_values(
                |p: Seq<char>| lower_of(trim_of(p)),
            ),
        decreases pieces@.len() - i,
    {
        let entry = lowercase(trim(pieces[i].as_str()));
        let ghost old_out = out@;
        out.push(entry);
        i = i + 1;
        assert(views(out@) =~= views(pieces@).take(i as int).map_values(
            |p: Seq<char>| lower_of(trim_of(p)),
        )) by {
            assert(views(out@) =~= views(old_out).push(entry@));
        }
    }
    assert(views(pieces@).take(i as int) =~= views(pieces@));
    out
}

/// Whether the lowercased identifier `lowered` begins with some entry of `whitelist`.
pub fn is_listed(lowered: &str, whitelist: &Vec<String>) -> (r: bool)
    ensures
        r == listed(lowered@, views(whitelist@)),
{
    let mut i: usize = 0;
    while i < whitelist.len()
        invariant
            i <= whitelist@.len(),
            forall|k: int| 0 <= k < i ==> !starts_with(lowered@, #[trigger] views(whitelist@)[k]),
        decreases whitelist@.len() - i,
    {
        if has_prefix(lowered, whitelist[i].as_str()) {
            assert(starts_with(lowered@, views(whitelist@)[i as int]));
            return true;
        }
        i = i + 1;
    }
    false
}

/// Whether the whitelist selects the instrument `name`.
pub fn matches_whitelist(name: &str, whitelist: &Vec<String>) -> (r: bool)
    ensures
        r == listed(lower_of(name@), views(whitelist@)),
{
    let lowered = lowercase(name);
    is_listed(lowered.as_str(), whitelist)
}

/// The instruments of `catalog`, in order, that the whitelist selects.
pub fn select_instruments(catalog: &Vec<String>, whitelist: &Vec<String>) -> (r: Vec<String>)
    ensures
        views(r@) == selected(views(catalog@), views(whitelist@)),
{
    let ghost wl = views(whitelist@);
    let mut out: Vec<String> = Vec::new();
    let mut i: usize = 0;
    while i < catalog.len()
        invariant
            i <= catalog@.len(),
            wl == views(whitelist@),
            views(out@) == selected(views(catalog@).take(i as int), wl),
        decreases catalog@.len() - i,
    {
        let ghost old_out = out@;
        let ghost seen = views(catalog@).take(i as int);
        assert(views(catalog@).take(i + 1) =~= seen.push(catalog@[i as int]@));
        assert(seen.push(catalog@[i as int]@).drop_last() =~= seen);
        proof {
            reveal(Seq::filter);
        }
        if matches_whitelist(catalog[i].as_str(), whitelist) {
            out.push(catalog[i].clone());
            assert(views(out@) =~= views(old_out).push(catalog@[i as int]@));
        }
        i = i + 1;
    }
    assert(views(catalog@).take(i as int) =~= views(catalog@));
    out
}

} // verus!

verus! {

/// The instruments synced when no whitelist is given.
pub open spec fn default_tickers() -> Seq<Seq<char>> {
    seq![
        "natgas_usd"@, "xau_usd"@, "eur_usd"@, "de30_eur"@, "xcu_usd"@, "xag_usd"@, "xau_usd"@,
        "sugar_usd"@, "wtico_usd"@, "wheat_usd"@, "corn_usd"@, "spx500_usd"@, "jp225_usd"@,
        "cn50_usd"@, "eu50_eur"@, "fr40_eur"@, "xau_xag"@,
    ]
}

/// The whitelist used when none is given.
pub fn default_whitelist() -> (r: Vec<String>)
    ensures
        views(r@) == default_tickers(),
{
    let r = vec![
        String::from_str("natgas_usd"),
        String::from_str("xau_usd"),
        String::from_str("eur_usd"),
        String::from_str("de30_eur"),
        String::from_str("xcu_usd"),
        String::from_str("xag_usd"),
        String::from_str("xau_usd"),
        String::from_str("sugar_usd"),
        String::from_str("wtico_usd"),
        String::from_str("wheat_usd"),
        String::from_str("corn_usd"),
        String::from_str("spx500_usd"),
        String::from_str("jp225_usd"),
        String::from_str("cn50_usd"),
        String::from_str("eu50_eur"),
        String::from_str("fr40_eur"),
        String::from_str("xau_xag"),
    ];
    assert(views(r@) =~= default_tickers());
    r
}

} // verus!
