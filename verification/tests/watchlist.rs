use hades_kat_bot::binary64::Binary64;
use hades_kat_bot::clock::Instant;
use hades_kat_bot::config::NewTokenFilters;
use hades_kat_bot::pumpportal::TokenInfo;
use hades_kat_bot::tokens::{synthesize_from_bonding_curve, NewTokenMonitor};

fn b(x: f64) -> Binary64 {
    Binary64 { bits: x.to_bits() }
}

fn f(x: Binary64) -> f64 {
    f64::from_bits(x.bits)
}

fn at(seconds: u64) -> Instant {
    Instant { nanos: seconds * 1_000_000_000 }
}

fn info(address: &str, market_cap: u64) -> TokenInfo {
    TokenInfo {
        address: address.to_string(),
        symbol: "S".to_string(),
        name: "N".to_string(),
        decimals: 6,
        market_cap,
        holders: 7,
        age_hours: 0,
        liquidity: 50,
        price_usd: b(1.0),
        price_change_24h: b(0.0),
        volume_24h: 60,
        created_at: String::new(),
        just_graduated_at_secs: None,
    }
}

fn monitor() -> NewTokenMonitor {
    NewTokenMonitor::new(NewTokenFilters::default())
}

fn add(m: &mut NewTokenMonitor, mint: &str, now: u64) -> bool {
    m.add_token(mint.to_string(), String::new(), b(1.0), at(now))
}

fn prices(list: &[(&str, f64)]) -> Vec<(String, Binary64)> {
    list.iter().map(|(m, p)| (m.to_string(), b(*p))).collect()
}

#[test]
fn small_and_known_tokens_are_not_added() {
    let mut m = monitor();
    assert!(!m.add_token("a".to_string(), String::new(), b(0.49), at(0)));
    assert!(m.add_token("a".to_string(), String::new(), b(0.5), at(0)));
    assert!(!add(&mut m, "a", 1));
    assert_eq!(m.watchlist_len(), 1);
}

#[test]
fn oldest_token_makes_room() {
    let mut filters = NewTokenFilters::default();
    filters.watchlist_cap = 2;
    let mut m = NewTokenMonitor::new(filters);
    for (mint, now) in [("a", 5), ("b", 3), ("c", 9)] {
        assert!(add(&mut m, mint, now));
    }
    assert_eq!(m.watchlist_len(), 2);
    let mut polled = m.tick(at(100));
    polled.sort();
    assert_eq!(polled, vec!["a".to_string(), "c".to_string()]);
}

#[test]
fn polling_slows_down_and_ends() {
    let mut m = monitor();
    add(&mut m, "mintmint", 0);
    assert!(m.tick(at(29)).is_empty());
    assert_eq!(m.tick(at(30)).len(), 1);
    m.after_prices(&vec!["mintmint".to_string()], &prices(&[]), at(30));
    assert!(m.tick(at(59)).is_empty());
    assert_eq!(m.tick(at(60)).len(), 1);
    m.after_prices(&vec!["mintmint".to_string()], &prices(&[]), at(890));
    assert!(m.tick(at(925)).is_empty());
    assert_eq!(m.tick(at(1010)).len(), 1);
    assert_eq!(m.watchlist_len(), 1);
    assert!(m.tick(at(3600)).is_empty());
    assert_eq!(m.watchlist_len(), 0);
}

#[test]
fn rugged_tokens_are_dropped() {
    let mut m = monitor();
    add(&mut m, "mint", 0);
    let polled = vec!["mint".to_string()];
    m.after_prices(&polled, &prices(&[("mint", 1.0)]), at(30));
    m.after_prices(&polled, &prices(&[("mint", 0.2)]), at(60));
    assert_eq!(m.watchlist_len(), 1);
    m.after_prices(&polled, &prices(&[("mint", 0.05)]), at(90));
    assert_eq!(m.watchlist_len(), 0);
}

#[test]
fn vanished_curves_are_graduations() {
    let polled = vec!["old".to_string(), "new".to_string()];
    let mut m = monitor();
    m.set_migration_tx();
    add(&mut m, "old", 0);
    add(&mut m, "new", 0);
    assert!(m.after_prices(&polled, &prices(&[("old", 1.0)]), at(30)).is_empty());
    let events = m.after_prices(&polled, &prices(&[]), at(60));
    assert_eq!(events.len(), 1);
    assert_eq!(events[0].mint, "old");
    assert_eq!(events[0].tx_type, "watchlist_transition");
    assert_eq!(events[0].signature, "");
    assert_eq!(m.watchlist_len(), 1);

    let mut silent = monitor();
    add(&mut silent, "old", 0);
    silent.after_prices(&polled, &prices(&[("old", 1.0)]), at(30));
    assert!(silent.after_prices(&polled, &prices(&[]), at(60)).is_empty());
    assert_eq!(silent.watchlist_len(), 1);
}

#[test]
fn enrichment_is_asked_for_every_half_minute() {
    let mut m = monitor();
    add(&mut m, "mint", 0);
    assert!(m.tokens_to_enrich(at(10)).is_empty());
    let names = vec!["mint".to_string()];
    m.after_prices(&names, &prices(&[("mint", 1.0)]), at(30));
    assert_eq!(m.tokens_to_enrich(at(30)), names);
    m.after_enrichment(&names, Vec::new(), at(30));
    assert!(m.tokens_to_enrich(at(59)).is_empty());
    assert_eq!(m.tokens_to_enrich(at(60)), names);
}

#[test]
fn tokens_are_handed_on_once() {
    let mut m = monitor();
    add(&mut m, "mint", 0);
    let names = vec!["mint".to_string()];
    assert!(m.ready_tokens(at(20), "t").is_empty());
    m.after_prices(&names, &prices(&[("mint", 1.0)]), at(10));
    assert!(m.ready_tokens(at(14), "t").is_empty());
    assert!(m.has_sound_names(at(15)));
    let ready = m.ready_tokens(at(15), "t");
    assert_eq!(ready.len(), 1);
    assert_eq!(ready[0].name, "BONDING_CURVE");
    assert!(m.ready_tokens(at(16), "t").is_empty());
    assert!(m.tick(at(100)).is_empty());
}

#[test]
fn enriched_tokens_are_filtered() {
    let mut filters = NewTokenFilters::default();
    filters.min_market_cap = 10;
    filters.max_market_cap = 20;
    filters.min_holders = 7;
    filters.min_liquidity = 50;
    filters.min_volume_24h = 60;
    let mut m = NewTokenMonitor::new(filters);
    assert!(m.passes_filters(&info("x", 10)));
    assert!(m.passes_filters(&info("x", 20)));
    assert!(!m.passes_filters(&info("x", 9)));
    assert!(!m.passes_filters(&info("x", 21)));
    let mut few = info("x", 10);
    few.holders = 6;
    assert!(!m.passes_filters(&few));
    let mut shallow = info("x", 10);
    shallow.liquidity = 49;
    assert!(!m.passes_filters(&shallow));
    let mut quiet = info("x", 10);
    quiet.volume_24h = 59;
    assert!(!m.passes_filters(&quiet));
    assert!(monitor().passes_filters(&few));

    add(&mut m, "mint", 0);
    let names = vec!["mint".to_string()];
    m.after_prices(&names, &prices(&[("mint", 1.0)]), at(1));
    m.after_enrichment(&names, vec![info("mint", 9), info("stranger", 10)], at(1));
    assert!(m.ready_tokens(at(1), "t").is_empty());
    m.after_enrichment(&names, vec![info("mint", 15)], at(40));
    let ready = m.ready_tokens(at(40), "t");
    assert_eq!(ready.len(), 1);
    assert_eq!(ready[0].market_cap, 15);
}

#[test]
fn curve_tokens_are_valued_by_their_supply() {
    let price = 2.8e-8;
    let token = synthesize_from_bonding_curve("0123456789", b(price), "now");
    let mcap = price * 1_000_000_000.0;
    assert_eq!(token.market_cap, (mcap * 185.0) as u64);
    assert_eq!(token.liquidity, ((mcap * 185.0) * 0.30) as u64);
    assert_eq!(token.symbol, "01234567");
    assert_eq!(token.holders, 100);
    assert_eq!(f(token.price_usd), price);
    assert_eq!(token.created_at, "now");
    let nothing = synthesize_from_bonding_curve("x", b(0.0), "now");
    assert_eq!((nothing.market_cap, nothing.liquidity), (1, 1));
}

#[test]
fn handed_on_tokens_stay_marked_through_later_rounds() {
    let mut m = monitor();
    m.set_migration_tx();
    let names = vec!["mint".to_string()];
    add(&mut m, "mint", 0);
    m.after_prices(&names, &prices(&[("mint", 1.0)]), at(1));
    m.after_enrichment(&names, vec![info("mint", 15)], at(1));
    assert_eq!(m.ready_tokens(at(1), "t").len(), 1);
    add(&mut m, "other", 2);
    m.after_prices(&names, &prices(&[("mint", 2.0)]), at(40));
    m.after_enrichment(&names, vec![info("mint", 16)], at(40));
    assert_eq!(m.tick(at(100)), vec!["other".to_string()]);
    assert!(m.tokens_to_enrich(at(100)).is_empty());
    assert!(m.ready_tokens(at(100), "t").is_empty());
    assert_eq!(m.watchlist_len(), 2);

    assert!(m.tick(at(7200)).is_empty());
    assert!(add(&mut m, "mint", 7200));
    m.after_prices(&names, &prices(&[("mint", 1.0)]), at(7201));
    assert_eq!(m.ready_tokens(at(7300), "t").len(), 1);
}

#[test]
fn tokens_are_handed_on_under_their_own_addresses() {
    let mut m = monitor();
    let names: Vec<String> = ["a", "b", "c"].iter().map(|s| s.to_string()).collect();
    for name in &names {
        add(&mut m, name, 0);
    }
    m.after_prices(&names, &prices(&[("a", 1.0), ("b", 2.0), ("c", 3.0)]), at(1));
    let told = vec![info("a", 1), info("b", 2), info("a", 3), info("d", 4)];
    m.after_enrichment(&names, told, at(1));
    let mut ready: Vec<(String, u64)> = m
        .ready_tokens(at(20), "t")
        .into_iter()
        .map(|t| (t.address, t.market_cap))
        .collect();
    ready.sort();
    let addresses: Vec<&str> = ready.iter().map(|(a, _)| a.as_str()).collect();
    assert_eq!(addresses, vec!["a", "b", "c"]);
    assert_eq!((ready[0].1, ready[1].1), (3, 2));
}

#[test]
fn watchlists_do_not_outgrow_their_cap() {
    let mut filters = NewTokenFilters::default();
    for cap in [0, 1] {
        filters.watchlist_cap = cap;
        let mut m = NewTokenMonitor::new(filters);
        for (n, mint) in ["a", "b", "c"].iter().enumerate() {
            assert!(add(&mut m, mint, n as u64));
            assert_eq!(m.watchlist_len(), 1);
        }
        assert_eq!(m.tick(at(100)), vec!["c".to_string()]);
    }
}
