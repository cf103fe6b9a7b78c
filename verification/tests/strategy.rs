use hades_kat_bot::binary64::Binary64;
use hades_kat_bot::bot::build_strategies;
use hades_kat_bot::config::{StrategyParams, StrategyToggles};
use hades_kat_bot::keyed::Keyed;
use hades_kat_bot::pumpportal::TokenInfo;
use hades_kat_bot::strategies::{
    Action, Reason, StrategyConfig, StrategyEngine, TradingSignal, TradingStrategy,
};

fn b(x: f64) -> Binary64 {
    Binary64 { bits: x.to_bits() }
}

fn f(x: Binary64) -> f64 {
    f64::from_bits(x.bits)
}

fn token(change: f64, volume: u64, liquidity: u64, market_cap: u64, holders: u32) -> TokenInfo {
    TokenInfo {
        address: "Mintpump".to_string(),
        symbol: "MNT".to_string(),
        name: "Mint".to_string(),
        decimals: 6,
        market_cap,
        holders,
        age_hours: 1,
        liquidity,
        price_usd: b(0.002),
        price_change_24h: b(change),
        volume_24h: volume,
        created_at: String::new(),
        just_graduated_at_secs: None,
    }
}

fn engine() -> StrategyEngine {
    StrategyEngine::new(Vec::new())
}

fn params(pairs: &[(&str, f64)]) -> Keyed<Binary64> {
    let mut keyed = Keyed::new();
    for (k, v) in pairs {
        keyed.insert(k.to_string(), b(*v));
    }
    keyed
}

fn expect(signal: Option<TradingSignal>, confidence: f64, price: Option<f64>) -> Reason {
    let signal = signal.unwrap();
    assert_eq!(signal.action, Action::Buy);
    assert_eq!(f(signal.confidence), confidence);
    assert_eq!(signal.expected_price.map(f), price);
    assert_eq!(signal.token.address, "Mintpump");
    assert!(signal.override_buy_amount.is_none());
    signal.reason
}

#[test]
fn momentum_needs_price_and_volume() {
    let p = params(&[]);
    let reason = expect(
        engine().momentum_strategy(&token(60.0, 900, 300, 1, 1), &p),
        60.0 / 100.0,
        Some(0.002 * 1.1),
    );
    assert_eq!(reason, Reason::Momentum { price_change: b(60.0), volume_ratio: b(3.0) });
    assert_eq!(
        f(engine().momentum_strategy(&token(250.0, 900, 300, 1, 1), &p).unwrap().confidence),
        1.0
    );
    assert!(engine().momentum_strategy(&token(5.0, 600, 300, 1, 1), &p).is_some());
    assert!(engine().momentum_strategy(&token(4.99, 600, 300, 1, 1), &p).is_none());
    assert!(engine().momentum_strategy(&token(5.0, 599, 300, 1, 1), &p).is_none());
    assert!(engine().momentum_strategy(&token(5.0, 0, 0, 1, 1), &p).is_none());
    assert!(engine().momentum_strategy(&token(5.0, 1, 0, 1, 1), &p).is_some());
    let own = params(&[("min_price_change", 50.0), ("min_volume_ratio", 1.0)]);
    assert!(engine().momentum_strategy(&token(49.0, 900, 300, 1, 1), &own).is_none());
    assert!(engine().momentum_strategy(&token(50.0, 300, 300, 1, 1), &own).is_some());
}

#[test]
fn mean_reversion_needs_a_dip_and_liquidity() {
    let p = params(&[]);
    let reason = expect(
        engine().mean_reversion_strategy(&token(-70.0, 0, 10, 100, 1), &p),
        70.0 / 100.0,
        Some(0.002 * 1.05),
    );
    assert_eq!(
        reason,
        Reason::MeanReversion { price_change: b(-70.0), liquidity_ratio: b(0.1) }
    );
    assert!(engine().mean_reversion_strategy(&token(-5.0, 0, 5, 100, 1), &p).is_some());
    assert!(engine().mean_reversion_strategy(&token(-4.9, 0, 5, 100, 1), &p).is_none());
    assert!(engine().mean_reversion_strategy(&token(-5.0, 0, 4, 100, 1), &p).is_none());
}

#[test]
fn breakout_needs_volume_and_momentum() {
    let p = params(&[]);
    let reason = expect(
        engine().breakout_strategy(&token(2.0, 700, 100, 1, 1), &p),
        7.0 / 10.0,
        Some(0.002 * 1.15),
    );
    assert_eq!(reason, Reason::Breakout { volume_spike: b(7.0), price_change: b(2.0) });
    assert!(engine().breakout_strategy(&token(1.0, 150, 100, 1, 1), &p).is_some());
    assert!(engine().breakout_strategy(&token(0.9, 150, 100, 1, 1), &p).is_none());
    assert!(engine().breakout_strategy(&token(1.0, 149, 100, 1, 1), &p).is_none());
}

#[test]
fn volume_spike_needs_holders() {
    let p = params(&[]);
    let reason = expect(
        engine().volume_spike_strategy(&token(0.0, 1500, 100, 1, 5), &p),
        15.0 / 20.0,
        Some(0.002 * 1.2),
    );
    assert_eq!(reason, Reason::VolumeSpike { multiplier: b(15.0), holders: 5 });
    assert!(engine().volume_spike_strategy(&token(0.0, 1500, 100, 1, 4), &p).is_none());
    let own = params(&[("min_holder_count", 2.9)]);
    assert!(engine().volume_spike_strategy(&token(0.0, 200, 100, 1, 2), &own).is_some());
    assert!(engine().volume_spike_strategy(&token(0.0, 199, 100, 1, 2), &own).is_none());
    let set = params(&[("min_volume_multiplier", 2.0), ("min_holder_count", 50.0)]);
    assert!(engine().volume_spike_strategy(&token(0.0, 300, 100, 1, 10), &set).is_none());
    assert!(engine().volume_spike_strategy(&token(0.0, 300, 100, 1, 50), &set).is_some());
}

#[test]
fn holder_growth_measures_holders_per_million() {
    let p = params(&[]);
    let reason = expect(
        engine().holder_growth_strategy(&token(0.0, 0, 1, 50_000_000, 60), &p),
        (60.0 / 50.0) / 2.0,
        Some(0.002 * 1.08),
    );
    assert_eq!(reason, Reason::HolderGrowth { holders: 60, market_cap_millions: b(50.0) });
    assert!(engine().holder_growth_strategy(&token(0.0, 0, 1, 2_999, 60), &p).is_none());
    assert!(engine().holder_growth_strategy(&token(0.0, 0, 1, 3_000, 9), &p).is_none());
    assert!(engine().holder_growth_strategy(&token(0.0, 0, 1, 3_000, 10), &p).is_some());
    assert!(engine()
        .holder_growth_strategy(&token(0.0, 0, 1, 1_000_000_000, 99), &p)
        .is_none());
}

#[test]
fn liquidity_depth_needs_a_deep_market() {
    let p = params(&[]);
    let reason = expect(
        engine().liquidity_depth_strategy(&token(0.0, 0, 10_000, 100_000, 0), &p),
        (10_000.0 / 100_000.0) / 0.2,
        Some(0.002 * 1.1),
    );
    assert_eq!(
        reason,
        Reason::LiquidityDepth { ratio: b(0.1), liquidity_usd: 10_000, market_cap: 100_000 }
    );
    assert!(engine().liquidity_depth_strategy(&token(0.0, 0, 10_000, 0, 0), &p).is_none());
    assert!(engine().liquidity_depth_strategy(&token(0.0, 0, 4_999, 100_000, 0), &p).is_none());
    assert!(engine()
        .liquidity_depth_strategy(&token(0.0, 0, 900_000, 5_000_001, 0), &p)
        .is_none());
    assert!(engine().liquidity_depth_strategy(&token(0.0, 0, 5_000, 200_000, 0), &p).is_none());
}

#[test]
fn sniper_takes_fresh_graduations_only() {
    let p = params(&[]);
    assert!(engine().ps_sniper_strategy(&token(90.0, 9, 1, 1, 9), &p).is_none());
    let mut fresh = token(0.0, 0, 0, 0, 0);
    fresh.just_graduated_at_secs = Some(30);
    let reason = expect(engine().ps_sniper_strategy(&fresh, &p), 1.0, None);
    assert_eq!(reason, Reason::PumpSwapSniper { age_secs: 30, window_secs: 30 });
    fresh.just_graduated_at_secs = Some(31);
    assert!(engine().ps_sniper_strategy(&fresh, &p).is_none());
    let own = params(&[("ps_sniper_freshness_secs", 45.5)]);
    let reason = expect(engine().ps_sniper_strategy(&fresh, &own), 1.0, None);
    assert_eq!(reason, Reason::PumpSwapSniper { age_secs: 31, window_secs: 45 });
}

#[test]
fn enabled_strategies_answer_in_their_order() {
    let on = |strategy, enabled| StrategyConfig { strategy, parameters: Keyed::new(), enabled };
    let engine = StrategyEngine::new(vec![
        on(TradingStrategy::Breakout, true),
        on(TradingStrategy::VolumeSpike, false),
        on(TradingStrategy::Momentum, true),
        on(TradingStrategy::PumpSwapSniper, true),
    ]);
    let signals = engine.analyze_token(&token(60.0, 900, 300, 1, 50));
    assert_eq!(signals.len(), 2);
    assert!(matches!(signals[0].reason, Reason::Breakout { .. }));
    assert!(matches!(signals[1].reason, Reason::Momentum { .. }));
    assert!(signals.iter().all(|s| s.action == Action::Buy));
    assert!(engine.analyze_token(&token(0.0, 0, 300, 1, 50)).is_empty());
}

#[test]
fn configured_parameters_reach_their_strategies() {
    let mut p = StrategyParams::default();
    p.min_price_change = b(12.0);
    p.liq_max_market_cap = b(777.0);
    p.ps_sniper_freshness_secs = b(9.0);
    let mut t = StrategyToggles::default();
    t.momentum = true;
    t.ps_sniper = true;
    let all = build_strategies(&p, &t);
    assert_eq!(all.len(), 7);
    let order = [
        TradingStrategy::Momentum,
        TradingStrategy::MeanReversion,
        TradingStrategy::Breakout,
        TradingStrategy::VolumeSpike,
        TradingStrategy::HolderGrowth,
        TradingStrategy::LiquidityDepth,
        TradingStrategy::PumpSwapSniper,
    ];
    for (i, s) in all.iter().enumerate() {
        assert_eq!(s.strategy, order[i]);
        assert_eq!(s.enabled, i == 0 || i == 6);
    }
    assert_eq!(all[0].parameters.get("min_price_change"), Some(&b(12.0)));
    assert_eq!(all[3].parameters.get("min_holder_count"), Some(&b(5.0)));
    assert_eq!(all[5].parameters.get("max_market_cap"), Some(&b(777.0)));
    assert_eq!(all[6].parameters.get("ps_sniper_freshness_secs"), Some(&b(9.0)));
}
