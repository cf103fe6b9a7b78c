use hades_kat_bot::binary64::Binary64;
use hades_kat_bot::clock::Timestamp;
use hades_kat_bot::config::ExitStrategies;
use hades_kat_bot::error::BotError;
use hades_kat_bot::exits::{fall_percent, find_tier, gain_percent};
use hades_kat_bot::keyed::Keyed;
use hades_kat_bot::pricing::{price_of, simulate_sell_price_sol, PriceQuote};
use hades_kat_bot::pubkey::Pubkey;
use hades_kat_bot::pumpportal::TokenInfo;
use hades_kat_bot::storage::{StoredPosition, StoredSnapshot};
use hades_kat_bot::strategies::{Action, Reason, TradingSignal};
use hades_kat_bot::trading::{
    escalated_slippage, estimate_sol_received, needs_fallback_price, needs_second_reading,
    settlement, BuyOutcome,
    Position, PositionSnapshot, PriceReading, SellOutcome, SellPlan, Settlement, Trade,
    TradingEngine,
};
use hades_kat_bot::wallet::WalletManager;
use serde_json::Value;
use solana_sdk::signature::Keypair;

const NOW: i64 = 1_770_000_000_000_000_000;
const SECOND: i64 = 1_000_000_000;

fn b(x: f64) -> Binary64 {
    Binary64 { bits: x.to_bits() }
}

fn f(x: Binary64) -> f64 {
    f64::from_bits(x.bits)
}

fn at(nanos: i64) -> Timestamp {
    Timestamp { nanos }
}

fn wallet() -> WalletManager {
    WalletManager::new(Keypair::new().to_bytes()).unwrap()
}

fn make_test_position(token: &str, entry_price: f64, sol_spent: f64) -> Position {
    Position {
        token_address: token.to_string(),
        token_mint: Pubkey::parse("So11111111111111111111111111111111111111112").unwrap(),
        amount: 1_000_000_000,
        entry_price: b(entry_price),
        entry_time: at(NOW),
        peak_pnl_percent: b(0.0),
        source_wallet: Some("test_wallet".to_string()),
        sol_spent: b(sol_spent),
        cached_market_cap: None,
        cached_holders: None,
        cached_volume_24h: None,
        cached_liquidity: None,
        last_enrichment: None,
        price_history: Vec::new(),
        sell_failures: 0,
        last_sell_failure: None,
        price_failures: 0,
        last_price_failure: None,
    }
}

fn engine_with(
    positions: Vec<Position>,
    max_slippage: f64,
    tiers: Vec<(Binary64, Binary64)>,
    exits: ExitStrategies,
) -> TradingEngine {
    let mut held: Keyed<Position> = Keyed::new();
    for p in positions {
        held.insert(p.token_address.clone(), p);
    }
    let snapshot = PositionSnapshot { positions: held, last_trade_time: Keyed::new() };
    TradingEngine::new(
        &wallet(),
        5,
        1_000_000_000,
        b(max_slippage),
        b(20.0),
        b(10.0),
        60,
        tiers,
        exits,
        snapshot,
    )
}

fn quote(price: f64) -> PriceQuote {
    PriceQuote { price: b(price), pool: None, liquidity_sol: b(30.0) }
}

fn reading(token: &str, now: i64, price: f64) -> PriceReading {
    PriceReading { token_address: token.to_string(), now: at(now), quote: Ok(quote(price)) }
}

fn escalated(base: f64, failures: u32) -> f64 {
    f(escalated_slippage(b(base), failures))
}

#[test]
fn test_sell_failures_default_zero() {
    let pos = make_test_position("TokenA", 0.001, 0.05);
    assert_eq!(pos.sell_failures, 0);
    assert!(pos.last_sell_failure.is_none());
}

#[test]
fn test_sell_failure_increment_sets_timestamp() {
    let mut engine = engine_with(
        vec![make_test_position("TokenA", 0.001, 0.05)],
        8.0,
        vec![],
        ExitStrategies::default(),
    );
    let pos = engine.get_positions().get("TokenA").unwrap();
    assert_eq!(pos.sell_failures, 0);
    assert!(pos.last_sell_failure.is_none());

    for expected in 1..=3 {
        engine.increment_sell_failures("TokenA", at(NOW));
        let pos = engine.get_positions().get("TokenA").unwrap();
        assert_eq!(pos.sell_failures, expected);
        assert!(pos.last_sell_failure.is_some());
    }
}

#[test]
fn test_sell_failure_reset_clears_state() {
    let mut pos = make_test_position("TokenA", 0.001, 0.05);
    pos.sell_failures = 5;
    pos.last_sell_failure = Some(at(NOW));
    let mut engine = engine_with(vec![pos], 8.0, vec![], ExitStrategies::default());

    let signal = sell_signal("TokenA", 0.001);
    let trade = engine.execute_sell(&signal, 1_000_000_000, sell_outcome(Some(0.06)));
    assert_eq!(trade.amount, 1_000_000_000);
    assert!(engine.get_positions().get("TokenA").is_none());
    let outcome = BuyOutcome {
        id: "again".to_string(),
        signature: "sig".to_string(),
        tokens: 1_000_000_000,
        fallback: None,
        discovered: None,
        traded_at: at(NOW),
        now: at(NOW),
    };
    let mint = Pubkey::parse("So11111111111111111111111111111111111111112").unwrap();
    engine.execute_buy("TokenA", mint, 50_000_000, outcome);
    let pos = engine.get_positions().get("TokenA").unwrap();
    assert_eq!(pos.sell_failures, 0);
    assert!(pos.last_sell_failure.is_none());
}

fn sell_signal(token: &str, price: f64) -> TradingSignal {
    TradingSignal {
        token: TokenInfo {
            address: token.to_string(),
            symbol: "UNKNOWN".to_string(),
            name: "Unknown".to_string(),
            decimals: 6,
            market_cap: 0,
            holders: 0,
            age_hours: 0,
            liquidity: 0,
            price_usd: b(price),
            price_change_24h: b(0.0),
            volume_24h: 0,
            created_at: String::new(),
            just_graduated_at_secs: None,
        },
        action: Action::Sell,
        confidence: b(1.0),
        reason: Reason::StopLoss { loss: b(10.0) },
        expected_price: Some(b(price)),
        override_buy_amount: None,
    }
}

fn sell_outcome(received: Option<f64>) -> SellOutcome {
    SellOutcome {
        id: "id".to_string(),
        signature: "sig".to_string(),
        received: received.map(b),
        traded_at: at(NOW),
        now: at(NOW + SECOND),
    }
}

#[test]
fn test_escalated_slippage_no_failures_uses_base() {
    assert_eq!(escalated(8.0, 0), 8.0);
    assert_eq!(escalated(15.0, 0), 15.0);
}

#[test]
fn test_simulate_sell_zero_inputs_return_zero() {
    assert_eq!(f(simulate_sell_price_sol(0, 1_000_000_000, 1_000_000)), 0.0);
    assert_eq!(f(simulate_sell_price_sol(1_000_000, 0, 1_000_000)), 0.0);
    assert_eq!(f(simulate_sell_price_sol(1_000_000, 1_000_000_000, 0)), 0.0);
}

#[test]
fn test_simulate_sell_tiny_trade_approaches_spot() {
    let base = 10_000_000_000_u64;
    let quote = 10_000_000_000_u64;
    let tokens_in = 1_000_000_u64;
    let price = f(simulate_sell_price_sol(base, quote, tokens_in));
    let spot = 0.001;
    assert!(
        (price - spot).abs() / spot < 0.001,
        "tiny trade {:.10} should be within 0.1% of spot {:.10}",
        price,
        spot
    );
}

#[test]
fn test_simulate_sell_large_trade_has_meaningful_impact() {
    let base = 10_000_000_000_u64;
    let quote = 10_000_000_000_u64;
    let tokens_in = 1_000_000_000_u64;
    let spot = 0.001;
    let price = f(simulate_sell_price_sol(base, quote, tokens_in));
    assert!(price < spot * 0.92, "expected meaningful impact, got {:.10}", price);
    assert!(price > spot * 0.85, "got {:.10}", price);
}

#[test]
fn test_simulate_sell_matches_observed_test_run() {
    let quote = 30_000_000_000_u64;
    let base = 46_700_000_000_000_u64;
    let tokens_in = 429_337_870_605_u64;
    let realized = f(simulate_sell_price_sol(base, quote, tokens_in));
    let spot = 30.0 / 46_700_000.0;
    assert!(realized < spot, "realized {:.12} should be below spot {:.12}", realized, spot);
    assert!(
        realized < spot * 0.995 && realized > spot * 0.97,
        "realized {:.12} (spot {:.12}) — expected within ~3% below spot",
        realized,
        spot
    );
}

#[test]
fn test_escalated_slippage_adds_10_per_failure() {
    assert_eq!(escalated(8.0, 0), 8.0);
    assert_eq!(escalated(8.0, 1), 18.0);
    assert_eq!(escalated(8.0, 2), 28.0);
    assert_eq!(escalated(8.0, 3), 38.0);
    assert_eq!(escalated(8.0, 4), 48.0);
    assert_eq!(escalated(8.0, 5), 58.0);
    assert_eq!(escalated(8.0, 9), 98.0);
}

#[test]
fn test_escalated_slippage_pins_at_99_when_cap_reached() {
    assert_eq!(escalated(8.0, 10), 99.0);
    assert_eq!(escalated(8.0, 11), 99.0);
    assert_eq!(escalated(8.0, 100), 99.0);
}

#[test]
fn test_escalated_slippage_caps_during_escalation() {
    assert_eq!(escalated(30.0, 0), 30.0);
    assert_eq!(escalated(30.0, 1), 40.0);
    assert_eq!(escalated(30.0, 6), 90.0);
    assert_eq!(escalated(30.0, 7), 99.0);
    assert_eq!(escalated(30.0, 8), 99.0);
}

#[test]
fn broken_base_slippage_rises_by_ten() {
    for failures in 0..=9 {
        assert_eq!(escalated(8.5, failures), 8.5 + 10.0 * failures as f64);
    }
    assert_eq!(escalated(8.5, 10), 99.0);
    assert_eq!(escalated(-5.0, 1), 5.0);
    assert_eq!(escalated(0.1, 1), 10.1);
}

#[test]
fn test_escalated_slippage_high_base_pins_immediately() {
    for failures in 0..=10 {
        assert_eq!(escalated(99.0, failures), 99.0);
    }
}

fn should_throttle(pos: &Position, base_slippage: f64) -> bool {
    pos.should_throttle(b(base_slippage), at(NOW))
}

#[test]
fn test_throttle_inactive_during_escalation_phase() {
    for failures in 0..=9 {
        let mut pos = make_test_position("TokenA", 0.001, 0.05);
        pos.sell_failures = failures;
        pos.last_sell_failure = Some(at(NOW));
        assert!(
            !should_throttle(&pos, 8.0),
            "Should not throttle at failure count {} (still escalating)",
            failures
        );
    }
}

#[test]
fn test_throttle_active_within_30s_after_cap_reached() {
    let mut pos = make_test_position("TokenA", 0.001, 0.05);
    pos.sell_failures = 10;
    pos.last_sell_failure = Some(at(NOW - 10 * SECOND));
    assert!(should_throttle(&pos, 8.0), "Should throttle 10s after cap reached");
}

#[test]
fn test_throttle_clears_after_30s() {
    let mut pos = make_test_position("TokenA", 0.001, 0.05);
    pos.sell_failures = 10;
    pos.last_sell_failure = Some(at(NOW - 31 * SECOND));
    assert!(!should_throttle(&pos, 8.0), "Should NOT throttle 31s after failure");
}

#[test]
fn test_throttle_at_exactly_30s_is_allowed() {
    let mut pos = make_test_position("TokenA", 0.001, 0.05);
    pos.sell_failures = 10;
    pos.last_sell_failure = Some(at(NOW - 30 * SECOND));
    assert!(!should_throttle(&pos, 8.0), "30s boundary should not throttle");
    pos.last_sell_failure = Some(at(NOW - 30 * SECOND + 1));
    assert!(should_throttle(&pos, 8.0));
}

#[test]
fn test_throttle_skipped_when_no_timestamp() {
    let mut pos = make_test_position("TokenA", 0.001, 0.05);
    pos.sell_failures = 15;
    pos.last_sell_failure = None;
    assert!(!should_throttle(&pos, 8.0));
}

#[test]
fn test_throttle_high_base_engages_quickly() {
    let mut pos = make_test_position("TokenA", 0.001, 0.05);
    pos.sell_failures = 1;
    pos.last_sell_failure = Some(at(NOW - 5 * SECOND));
    assert!(should_throttle(&pos, 99.0));
}

#[test]
fn test_position_never_permanently_abandoned() {
    let mut pos = make_test_position("TokenA", 0.001, 0.05);
    pos.sell_failures = 100;
    pos.last_sell_failure = Some(at(NOW - 5 * 60 * SECOND));
    assert!(
        !should_throttle(&pos, 8.0),
        "After throttle window, even a long-stuck position must be retried"
    );
}

#[test]
fn test_entry_price_execution_based() {
    let sol_spent_lamports: u64 = 50_000_000; // 0.05 SOL
    let raw_tokens: u64 = 1_000_000_000;
    let exec_price = f(price_of(sol_spent_lamports, raw_tokens));
    assert!((exec_price - 0.00005).abs() < 1e-12, "Expected 0.00005, got {}", exec_price);
    assert_eq!(exec_price, 0.05 / (raw_tokens as f64 / 1_000_000.0));
}

#[test]
fn test_entry_price_execution_vs_spot_inflated() {
    let exec_price = 0.00005;
    let spot_price_after_buy = 0.000055;
    let pnl_with_spot: f64 = f(gain_percent(b(exec_price), b(spot_price_after_buy)));
    let pnl_with_exec: f64 = f(gain_percent(b(exec_price), b(exec_price)));
    assert!(pnl_with_spot < -9.0, "Spot-based PnL should show false loss: {}%", pnl_with_spot);
    assert!(
        pnl_with_exec.abs() < 1e-12,
        "Execution-based PnL should be 0%: {}%",
        pnl_with_exec
    );
    assert_eq!(
        pnl_with_spot,
        ((exec_price - spot_price_after_buy) / spot_price_after_buy) * 100.0
    );
}

fn bought(lamports: u64, tokens: u64, fallback: Option<PriceQuote>) -> f64 {
    let mut engine = engine_with(vec![], 8.0, vec![], ExitStrategies::default());
    let mint = Pubkey::parse("So11111111111111111111111111111111111111112").unwrap();
    let outcome = BuyOutcome {
        id: "id".to_string(),
        signature: "sig".to_string(),
        tokens,
        fallback,
        discovered: None,
        traded_at: at(NOW),
        now: at(NOW),
    };
    let trade = engine.execute_buy("TokenA", mint, lamports, outcome);
    let position = engine.get_positions().get("TokenA").unwrap();
    assert_eq!(position.entry_price, trade.price);
    f(position.entry_price)
}

#[test]
fn test_entry_price_zero_tokens_no_divide_by_zero() {
    let lamports: u64 = 50_000_000;
    let token_balance: u64 = 0;
    assert!(needs_fallback_price(lamports, token_balance));
    let exec_price = bought(lamports, token_balance, None);
    assert_eq!(exec_price, 0.0, "Should fallback to 0 when no tokens received");
}

#[test]
fn test_entry_price_zero_sol_no_divide_by_zero() {
    let token_balance: u64 = 1_000_000_000;
    assert!(needs_fallback_price(0, token_balance));
    let exec_price = bought(0, token_balance, None);
    assert_eq!(exec_price, 0.0, "Should fallback to 0 when sol_amount is 0");
}

#[test]
fn test_entry_price_pnl_accuracy() {
    let exec_price: f64 = 0.0000003;
    let current_price: f64 = 0.0000006;
    let pnl: f64 = f(gain_percent(b(current_price), b(exec_price)));
    assert!((pnl - 100.0).abs() < 1e-6, "Expected +100% PnL, got {:.2}%", pnl);
}

#[test]
fn test_entry_price_backfill_skips_cycle() {
    let entry_price = 0.0;
    let current_price = 0.00005;
    let mut engine = engine_with(
        vec![make_test_position("TokenA", entry_price, 0.05)],
        8.0,
        vec![],
        ExitStrategies::default(),
    );
    let signals = engine.check_exit_conditions(&vec![reading("TokenA", NOW, current_price)]);
    assert!(signals.is_empty());
    let backfilled_entry = engine.get_positions().get("TokenA").unwrap().entry_price;
    assert_eq!(f(backfilled_entry), current_price);
    let pnl: f64 = f(gain_percent(b(current_price), backfilled_entry));
    assert!(pnl.abs() < 1e-6, "PnL should be 0% on backfill cycle: {:.2}%", pnl);
}

#[test]
fn test_exit_loop_continues_past_failed_sell() {
    let mut stuck = make_test_position("TokenB", 0.002, 0.10);
    stuck.sell_failures = 4;
    stuck.last_sell_failure = Some(at(NOW));
    let mut engine = engine_with(
        vec![
            make_test_position("TokenA", 0.001, 0.05),
            stuck,
            make_test_position("TokenC", 0.003, 0.08),
        ],
        99.0,
        vec![],
        ExitStrategies::default(),
    );
    let mut processed: Vec<String> =
        engine.positions_to_price(at(NOW)).into_iter().map(|(a, _)| a).collect();
    processed.sort();
    let mut skipped: Vec<String> =
        engine.get_positions().keys().into_iter().filter(|k| !processed.contains(k)).collect();
    skipped.sort();
    assert_eq!(processed, vec!["TokenA", "TokenC"]);
    assert_eq!(skipped, vec!["TokenB"]);
}

#[test]
fn test_exit_loop_processes_reset_position() {
    let mut stuck = make_test_position("TokenB", 0.002, 0.10);
    stuck.sell_failures = 4;
    stuck.last_sell_failure = Some(at(NOW - 6 * 60 * SECOND));
    let mut engine = engine_with(
        vec![
            make_test_position("TokenA", 0.001, 0.05),
            stuck,
            make_test_position("TokenC", 0.003, 0.08),
        ],
        99.0,
        vec![],
        ExitStrategies::default(),
    );
    let mut processed: Vec<String> =
        engine.positions_to_price(at(NOW)).into_iter().map(|(a, _)| a).collect();
    processed.sort();
    assert_eq!(
        processed,
        vec!["TokenA", "TokenB", "TokenC"],
        "All positions should be processed after cooldown reset"
    );
}

fn result_of_sale(sol_spent: f64, received: Option<f64>) -> Trade {
    let mut engine = engine_with(
        vec![make_test_position("TokenA", 0.001, sol_spent)],
        8.0,
        vec![],
        ExitStrategies::default(),
    );
    engine.execute_sell(&sell_signal("TokenA", 0.001), 1_000_000_000, sell_outcome(received))
}

#[test]
fn test_pnl_calculation_sol_based() {
    let sol_spent: f64 = 0.05;
    let sol_received: f64 = 0.08;
    let profit_loss = f(result_of_sale(sol_spent, Some(sol_received)).profit_loss.unwrap());
    assert!(
        (profit_loss - 0.03).abs() < 1e-12,
        "Expected +0.03 SOL profit, got {}",
        profit_loss
    );
    let sol_received_loss: f64 = 0.02;
    let loss = f(result_of_sale(sol_spent, Some(sol_received_loss)).profit_loss.unwrap());
    assert!((loss - (-0.03)).abs() < 1e-12, "Expected -0.03 SOL loss, got {}", loss);
}

#[test]
fn test_trailing_stop_tier_selection() {
    let thresholds: Vec<(Binary64, Binary64)> = vec![
        (b(8.0), b(4.0)),
        (b(15.0), b(5.0)),
        (b(25.0), b(6.0)),
        (b(38.0), b(7.0)),
        (b(55.0), b(8.0)),
    ];
    let peak = 20.0;
    let active = find_tier(&thresholds, b(peak));
    assert_eq!(active, Some((b(15.0), b(5.0))));

    let exit_at = peak - f(active.unwrap().1);
    assert!((exit_at - 15.0).abs() < 1e-6);

    // Entry at 1, peak at +20: +14 leaves, +16 stays.
    let exits = |price: f64| {
        let mut pos = make_test_position("TokenA", 1.0, 0.05);
        pos.peak_pnl_percent = b(peak);
        let mut engine = engine_with(vec![pos], 8.0, thresholds.clone(), ExitStrategies::default());
        engine.check_exit_conditions(&vec![reading("TokenA", NOW, price)])
    };
    let current_pnl = 14.0;
    assert!(current_pnl <= exit_at, "Should trigger trailing stop exit");
    let signals = exits(1.14);
    assert_eq!(signals.len(), 1);
    assert!(matches!(signals[0].reason, Reason::TrailingStop { .. }));
    let current_pnl_good = 16.0;
    assert!(current_pnl_good > exit_at, "Should NOT trigger trailing stop");
    assert!(exits(1.16).is_empty());
}

#[test]
fn test_momentum_reversal_priority() {
    let entry_price = 0.001;
    let current_price = 0.00094;
    let stop_loss_percent = 10.0;
    let mr_min_loss = 3.0;

    let pnl = f(gain_percent(b(current_price), b(entry_price)));
    let loss = f(fall_percent(b(current_price), b(entry_price)));
    assert!(pnl < -mr_min_loss, "MR condition met: pnl={:.1}%", pnl);
    assert!(loss < stop_loss_percent, "Stop loss should NOT fire: loss={:.1}%", loss);

    let mut pos = make_test_position("TokenA", entry_price, 0.05);
    for i in 0..40 {
        pos.price_history.push((at(NOW - 20 * SECOND + i * SECOND / 4), b(entry_price)));
    }
    let mut exits = ExitStrategies::default();
    exits.momentum_reversal_enabled = true;
    exits.momentum_reversal_window_secs = 30;
    let mut engine = engine_with(vec![pos], 8.0, vec![], exits);
    let signals = engine.check_exit_conditions(&vec![reading("TokenA", NOW, current_price)]);
    assert_eq!(signals.len(), 1);
    match signals[0].reason {
        Reason::MomentumReversal { price, average, window_secs, pnl: told } => {
            assert_eq!(f(price), current_price);
            assert!(f(average) > current_price);
            assert_eq!(window_secs, 30);
            assert_eq!(f(told), pnl);
        }
        _ => panic!("momentum reversal comes first"),
    }
}

fn estimate_sol_received_fallback(token_amount: u64, entry_price: f64) -> f64 {
    f(estimate_sol_received(token_amount, b(entry_price)))
}

#[test]
fn test_sol_received_fallback_basic() {
    let amount: u64 = 100_000_000;
    let entry_price: f64 = 0.0000001;
    let est = estimate_sol_received_fallback(amount, entry_price);
    assert!((est - 0.000009).abs() < 1e-12, "Expected 0.000009, got {}", est);
}

#[test]
fn test_sol_received_fallback_large_position() {
    let amount: u64 = 1_000_000_000;
    let entry_price: f64 = 0.000001;
    let est = estimate_sol_received_fallback(amount, entry_price);
    assert!((est - 0.0009).abs() < 1e-9, "Expected 0.0009, got {}", est);
}

#[test]
fn test_sol_received_fallback_high_value_position() {
    let amount: u64 = 5_000_000_000;
    let entry_price: f64 = 0.00002;
    let est = estimate_sol_received_fallback(amount, entry_price);
    assert!((est - 0.09).abs() < 1e-9, "Expected 0.09, got {}", est);
}

#[test]
fn test_sol_received_fallback_always_less_than_entry_value() {
    let test_cases = vec![
        (50_000_000u64, 0.0000005f64),
        (500_000_000, 0.000005),
        (5_000_000_000, 0.00005),
        (50_000_000_000, 0.0005),
    ];
    for (amount, entry_price) in test_cases {
        let entry_value = amount as f64 / 1_000_000.0 * entry_price;
        let est = estimate_sol_received_fallback(amount, entry_price);
        assert!(
            est < entry_value,
            "Estimate {:.9} should be less than entry value {:.9} for amount={} price={}",
            est,
            entry_value,
            amount,
            entry_price
        );
        let ratio = est / entry_value;
        assert!((ratio - 0.90).abs() < 1e-9, "Ratio should be 0.90, got {}", ratio);
    }
}

#[test]
fn test_sol_received_fallback_produces_realistic_loss() {
    let amount: u64 = 60_000_000_000;
    let entry_price: f64 = 0.000001;
    let sol_spent: f64 = 0.06;
    let est_received = estimate_sol_received_fallback(amount, entry_price);
    let profit_loss = est_received - sol_spent;
    assert!(profit_loss < 0.0, "Fallback should always show a loss, got {}", profit_loss);
    assert!(
        (profit_loss - (-0.006)).abs() < 1e-9,
        "Expected -0.006 loss, got {}",
        profit_loss
    );
}

#[test]
fn test_sol_received_fallback_zero_entry_price() {
    let amount: u64 = 100_000_000;
    let entry_price: f64 = 0.0;
    let est = estimate_sol_received_fallback(amount, entry_price);
    assert!(est == 0.0, "Zero entry price should produce zero estimate, got {}", est);
}

#[test]
fn test_sol_received_fallback_zero_amount() {
    let amount: u64 = 0;
    let entry_price: f64 = 0.000001;
    let est = estimate_sol_received_fallback(amount, entry_price);
    assert!(est == 0.0, "Zero amount should produce zero estimate, got {}", est);
}

#[test]
fn test_sol_received_fallback_wallet_scoring_impact() {
    let amount: u64 = 80_000_000_000;
    let entry_price: f64 = 0.0000005;
    let sol_spent: f64 = 0.04;
    let est_received = estimate_sol_received_fallback(amount, entry_price);
    let pnl_sol = est_received - sol_spent;
    assert!(
        pnl_sol < 0.0,
        "Wallet scoring PnL should be negative with fallback, got {}",
        pnl_sol
    );
}

#[test]
fn test_sol_received_retry_logic_simulation() {
    let sol_before: u64 = 1_000_000_000;
    let stale_readings = vec![
        1_000_000_000u64,
        1_000_000_000,
        1_000_000_000,
        1_050_000_000,
        1_050_000_000,
    ];
    let mut sol_received: Option<f64> = None;
    for (attempt, &sol_after) in stale_readings.iter().enumerate() {
        match settlement(sol_before, attempt as u32, sol_after) {
            Settlement::Received(received) => {
                sol_received = Some(f(received));
                assert_eq!(attempt, 3, "Should succeed on attempt 4 (index 3)");
                break;
            }
            Settlement::Retry => {}
            Settlement::GaveUp => panic!("there is a reading left"),
        }
    }
    assert!(sol_received.is_some(), "Should have found balance increase");
    let received = sol_received.unwrap();
    assert!((received - 0.05).abs() < 1e-9, "Should receive 0.05 SOL, got {}", received);
}

#[test]
fn test_sol_received_retry_all_stale_triggers_fallback() {
    let sol_before: u64 = 1_000_000_000;
    let max_retries = 5;
    let mut sol_received: Option<f64> = None;
    for attempt in 0..max_retries {
        let sol_after = sol_before;
        match settlement(sol_before, attempt, sol_after) {
            Settlement::Received(received) => {
                sol_received = Some(f(received));
                break;
            }
            Settlement::Retry => assert!(attempt < max_retries - 1),
            Settlement::GaveUp => assert_eq!(attempt, max_retries - 1),
        }
    }
    assert!(sol_received.is_none(), "All retries stale should leave None");

    let amount: u64 = 100_000_000_000;
    let entry_price: f64 = 0.000001;
    let mut pos = make_test_position("TokenA", entry_price, 0.05);
    pos.amount = amount;
    let mut engine = engine_with(vec![pos], 8.0, vec![], ExitStrategies::default());
    let trade =
        engine.execute_sell(&sell_signal("TokenA", 0.001), amount, sell_outcome(sol_received));
    sol_received = trade.sol_received.map(f);
    assert!(sol_received.is_some(), "After fallback, sol_received must be Some");
    assert!(
        (sol_received.unwrap() - 0.09).abs() < 1e-9,
        "Fallback should be 0.09, got {}",
        sol_received.unwrap()
    );
    assert_eq!(sol_received.unwrap(), amount as f64 / 1_000_000.0 * entry_price * 0.90);
}

#[test]
fn test_trade_sol_received_never_none_after_fix() {
    let mut pos = make_test_position("mint1", 0.001, 0.05);
    pos.amount = 1000;
    let mut engine = engine_with(vec![pos], 8.0, vec![], ExitStrategies::default());
    let trade_success = engine.execute_sell(
        &sell_signal("mint1", 0.001),
        1000,
        SellOutcome {
            id: "test1".to_string(),
            signature: "sig1".to_string(),
            received: Some(b(0.055)),
            traded_at: at(NOW),
            now: at(NOW),
        },
    );
    assert!(trade_success.sol_received.is_some());
    assert!(trade_success.profit_loss.is_some());

    let sol_spent: f64 = 0.05;
    let amount: u64 = 100_000_000;
    let entry_price: f64 = 0.0000005;
    let mut pos = make_test_position("mint2", entry_price, sol_spent);
    pos.amount = amount;
    let mut engine = engine_with(vec![pos], 8.0, vec![], ExitStrategies::default());
    let trade_fallback = engine.execute_sell(
        &sell_signal("mint2", 0.001),
        amount,
        SellOutcome {
            id: "test2".to_string(),
            signature: "sig2".to_string(),
            received: None,
            traded_at: at(NOW),
            now: at(NOW),
        },
    );
    assert!(trade_fallback.sol_received.is_some());
    assert!(trade_fallback.profit_loss.is_some());
    assert!(f(trade_fallback.profit_loss.unwrap()) < 0.0);
    assert_eq!(
        f(trade_fallback.sol_received.unwrap()),
        estimate_sol_received_fallback(amount, entry_price)
    );
    assert_eq!(trade_fallback.id, "test2");
    assert_eq!(trade_fallback.signature, Some("sig2".to_string()));
}

#[test]
fn sale_uses_the_smaller_of_holding_and_balance() {
    let mut engine = engine_with(
        vec![make_test_position("TokenA", 0.001, 0.05)],
        8.0,
        vec![],
        ExitStrategies::default(),
    );
    match engine.plan_sell("TokenA", 2_000_000_000) {
        SellPlan::Sell(order) => {
            assert_eq!(order.amount, 1_000_000_000);
            assert!(!order.full_exit);
            assert_eq!(order.request.slippage, 8);
            assert!(!order.request.denominated_in_sol);
        }
        other => panic!("unexpected {:?}", other),
    }
    match engine.plan_sell("TokenA", 400) {
        SellPlan::Sell(order) => {
            assert_eq!(order.amount, 400);
            assert!(order.full_exit);
        }
        other => panic!("unexpected {:?}", other),
    }
    engine.execute_sell(&sell_signal("TokenA", 0.001), 400, sell_outcome(Some(0.01)));
    assert_eq!(engine.get_positions().get("TokenA").unwrap().amount, 999_999_600);
    assert!(matches!(engine.plan_sell("TokenA", 0), SellPlan::Stale));
    assert!(engine.get_positions().get("TokenA").is_none());
    assert!(matches!(engine.plan_sell("TokenA", 5), SellPlan::NotHeld));
}

#[test]
fn empty_position_leaves_nothing_to_sell() {
    let mut pos = make_test_position("TokenA", 0.001, 0.05);
    pos.amount = 0;
    let mut engine = engine_with(vec![pos], 8.0, vec![], ExitStrategies::default());
    assert!(matches!(engine.plan_sell("TokenA", 7), SellPlan::Nothing));
}

#[test]
fn unpriceable_position_is_left_alone_for_five_minutes() {
    let mut engine = engine_with(
        vec![make_test_position("TokenA", 0.001, 0.05)],
        8.0,
        vec![],
        ExitStrategies::default(),
    );
    for i in 0..3 {
        let now = NOW + i * SECOND;
        assert_eq!(engine.positions_to_price(at(now)).len(), 1);
        let failed = PriceReading {
            token_address: "TokenA".to_string(),
            now: at(now),
            quote: Err(BotError::PumpPortal("none".to_string())),
        };
        assert!(engine.check_exit_conditions(&vec![failed]).is_empty());
    }
    assert_eq!(engine.get_positions().get("TokenA").unwrap().price_failures, 3);
    let last = NOW + 2 * SECOND;
    assert!(engine.positions_to_price(at(last + 299 * SECOND)).is_empty());
    assert_eq!(engine.positions_to_price(at(last + 300 * SECOND)), vec![(
        "TokenA".to_string(),
        1_000_000_000
    )]);
    let pos = engine.get_positions().get("TokenA").unwrap();
    assert_eq!(pos.price_failures, 0);
    assert!(pos.last_price_failure.is_none());
}

#[test]
fn stop_loss_and_profit_target_fire_at_their_levels() {
    let leaves = |price: f64, tiers: Vec<(Binary64, Binary64)>| {
        let mut engine = engine_with(
            vec![make_test_position("TokenA", 10.0, 0.05)],
            8.0,
            tiers,
            ExitStrategies::default(),
        );
        let signals = engine.check_exit_conditions(&vec![reading("TokenA", NOW, price)]);
        signals.first().map(|s| s.reason)
    };
    assert!(matches!(leaves(9.0, vec![]), Some(Reason::StopLoss { .. })));
    assert!(leaves(9.01, vec![]).is_none());
    assert!(matches!(leaves(12.5, vec![]), Some(Reason::ProfitTarget { .. })));
    assert!(leaves(11.9, vec![]).is_none());
    assert!(leaves(12.5, vec![(b(50.0), b(5.0))]).is_none());
}

#[test]
fn trailing_tiers_leave_at_peak_less_trail() {
    // 5:3,12:4,20:5,35:6,50:7,80:8,120:9
    let tiers: Vec<(Binary64, Binary64)> = vec![
        (b(5.0), b(3.0)),
        (b(12.0), b(4.0)),
        (b(20.0), b(5.0)),
        (b(35.0), b(6.0)),
        (b(50.0), b(7.0)),
        (b(80.0), b(8.0)),
        (b(120.0), b(9.0)),
    ];
    for (peak, exit_at) in [(5.0, 2.0), (35.0, 29.0), (120.0, 111.0)] {
        let tier = find_tier(&tiers, b(peak)).unwrap();
        assert_eq!(peak - f(tier.1), exit_at);
    }
    assert!(find_tier(&tiers, b(4.9)).is_none());
}

#[test]
fn peak_rises_and_never_falls() {
    let mut engine = engine_with(
        vec![make_test_position("TokenA", 1.0, 0.05)],
        8.0,
        vec![(b(500.0), b(5.0))],
        ExitStrategies::default(),
    );
    let readings = vec![
        reading("TokenA", NOW, 1.5),
        reading("TokenA", NOW + SECOND, 1.2),
        reading("Other", NOW + SECOND, 9.0),
    ];
    assert!(engine.check_exit_conditions(&readings).is_empty());
    let pos = engine.get_positions().get("TokenA").unwrap();
    assert_eq!(f(pos.peak_pnl_percent), 50.0);
    assert_eq!(pos.price_history.len(), 2);
    assert_eq!(f(pos.entry_price), 1.0);
}

#[test]
fn time_exit_waits_for_the_limit_and_spares_protected_gains() {
    let mut exits = ExitStrategies::default();
    exits.time_exit_enabled = true;
    exits.max_hold_minutes = 60;
    let later = NOW + 60 * 60 * SECOND;
    let mut engine = engine_with(
        vec![make_test_position("TokenA", 1.0, 0.05)],
        8.0,
        vec![(b(2.0), b(50.0))],
        exits,
    );
    let early = engine.check_exit_conditions(&vec![reading("TokenA", later - SECOND, 1.01)]);
    assert!(early.is_empty());
    let signals = engine.check_exit_conditions(&vec![reading("TokenA", later, 1.01)]);
    assert_eq!(signals[0].reason, Reason::TimeExit { minutes: 60, max_minutes: 60 });
    let protected = engine.check_exit_conditions(&vec![reading("TokenA", later, 1.05)]);
    assert!(protected.is_empty());
}

#[test]
fn liquidity_exit_leaves_a_drained_venue() {
    let mut exits = ExitStrategies::default();
    exits.liquidity_exit_enabled = true;
    exits.min_liquidity_sol = b(1.0);
    let mut engine =
        engine_with(vec![make_test_position("TokenA", 1.0, 0.05)], 8.0, vec![], exits);
    let mut drained = reading("TokenA", NOW, 1.0);
    drained.quote =
        Ok(PriceQuote { price: b(1.0), pool: None, liquidity_sol: b(0.5) });
    assert!(engine.check_exit_conditions(&vec![reading("TokenA", NOW, 1.0)]).is_empty());
    let signals = engine.check_exit_conditions(&vec![drained]);
    assert_eq!(
        signals[0].reason,
        Reason::LiquidityExit { liquidity: b(0.5), min_liquidity: b(1.0) }
    );
}

#[test]
fn velocity_exit_measures_percent_per_minute() {
    let mut exits = ExitStrategies::default();
    exits.velocity_exit_enabled = true;
    exits.max_decline_rate_per_min = b(10.0);
    let mut pos = make_test_position("TokenA", 1.0, 0.05);
    pos.price_history.push((at(NOW - 40 * SECOND), b(2.0)));
    pos.price_history.push((at(NOW - 30 * SECOND), b(1.0)));
    let mut engine = engine_with(vec![pos], 8.0, vec![], exits);
    let signals = engine.check_exit_conditions(&vec![reading("TokenA", NOW, 0.95)]);
    match signals[0].reason {
        Reason::VelocityExit { rate, seconds, max_rate } => {
            let decline = ((1.0 - 0.95f64) / 1.0) * 100.0;
            assert_eq!(f(rate), decline / 0.5);
            assert_eq!(f(seconds), 30.0);
            assert_eq!(f(max_rate), 10.0);
        }
        _ => panic!("velocity exit"),
    }
}

#[test]
fn price_history_keeps_the_last_entries() {
    let mut pos = make_test_position("TokenA", 1.0, 0.05);
    for i in 0..1200 {
        pos.price_history.push((at(NOW + i), b(1.0)));
    }
    let mut engine = engine_with(vec![pos], 8.0, vec![], ExitStrategies::default());
    engine.check_exit_conditions(&vec![reading("TokenA", NOW + 2000, 1.01)]);
    let history = &engine.get_positions().get("TokenA").unwrap().price_history;
    assert_eq!(history.len(), 1200);
    assert_eq!(history[0].0.nanos, NOW + 1);
    assert_eq!(f(history[1199].1), 1.01);
}

#[test]
fn enrichment_fills_only_held_tokens() {
    let mut engine = engine_with(
        vec![make_test_position("TokenA", 1.0, 0.05)],
        8.0,
        vec![],
        ExitStrategies::default(),
    );
    let mut token = sell_signal("TokenA", 1.0).token;
    token.market_cap = 11;
    token.holders = 22;
    token.volume_24h = 33;
    token.liquidity = 44;
    let other = sell_signal("TokenB", 1.0).token;
    engine.enrich_positions(&vec![token, other], at(NOW));
    assert_eq!(engine.get_positions().len(), 1);
    let pos = engine.get_positions().get("TokenA").unwrap();
    assert_eq!(pos.cached_market_cap, Some(11));
    assert_eq!(pos.cached_holders, Some(22));
    assert_eq!(pos.cached_volume_24h, Some(33));
    assert_eq!(pos.cached_liquidity, Some(44));
    assert_eq!(pos.last_enrichment, Some(at(NOW)));
    engine.set_position_source_wallet("TokenA", "another".to_string());
    engine.set_position_source_wallet("TokenB", "nobody".to_string());
    let pos = engine.get_positions().get("TokenA").unwrap();
    assert_eq!(pos.source_wallet, Some("another".to_string()));
}

#[test]
fn partial_sale_clears_the_failures() {
    let mut pos = make_test_position("TokenA", 0.001, 0.05);
    pos.amount = 1_000;
    pos.sell_failures = 5;
    pos.last_sell_failure = Some(at(NOW));
    let mut engine = engine_with(vec![pos], 8.0, vec![], ExitStrategies::default());
    let amount = match engine.plan_sell("TokenA", 400) {
        SellPlan::Sell(order) => {
            assert_eq!(f(order.slippage), 58.0);
            order.amount
        }
        other => panic!("unexpected {:?}", other),
    };
    assert_eq!(amount, 400);
    engine.execute_sell(&sell_signal("TokenA", 0.001), amount, sell_outcome(Some(0.02)));
    let pos = engine.get_positions().get("TokenA").unwrap();
    assert_eq!((pos.amount, pos.sell_failures), (600, 0));
    assert!(pos.last_sell_failure.is_none());
}

#[test]
fn positions_from_the_future_are_not_held_too_long() {
    let mut exits = ExitStrategies::default();
    exits.time_exit_enabled = true;
    exits.max_hold_minutes = 1;
    let mut pos = make_test_position("TokenA", 10.0, 0.05);
    pos.entry_time = at(NOW + 600 * SECOND);
    let mut engine = engine_with(vec![pos], 8.0, vec![], exits);
    assert!(engine.check_exit_conditions(&vec![reading("TokenA", NOW, 10.0)]).is_empty());
    let late = vec![reading("TokenA", NOW + 660 * SECOND, 10.0)];
    assert_eq!(engine.check_exit_conditions(&late).len(), 1);
}

#[test]
fn saved_positions_are_taken_up_again() {
    let mut pos = make_test_position("TestMint123", 0.000054321, 0.05);
    pos.amount = 1_000_000;
    pos.peak_pnl_percent = b(12.5);
    pos.source_wallet = Some("wallet_abc".to_string());
    pos.cached_market_cap = Some(5);
    pos.price_history = vec![(at(NOW), b(0.1))];
    pos.sell_failures = 3;
    pos.last_sell_failure = Some(at(NOW - SECOND));
    let mut engine = engine_with(vec![pos], 8.0, vec![], ExitStrategies::default());
    engine.execute_buy(
        "Bought",
        Pubkey { bytes: [1; 32] },
        7,
        BuyOutcome {
            id: String::new(),
            signature: String::new(),
            tokens: 9,
            fallback: None,
            discovered: None,
            traded_at: at(NOW),
            now: at(NOW),
        },
    );
    let saved = engine.save_positions();
    assert_eq!(saved.positions.len(), 2);
    assert_eq!(saved.last_trade_time.len(), 1);
    let next = TradingEngine::new(
        &wallet(),
        5,
        1,
        b(8.0),
        b(20.0),
        b(10.0),
        60,
        vec![],
        ExitStrategies::default(),
        TradingEngine::load_positions(Some(saved)),
    );
    let pos = next.get_positions().get("TestMint123").unwrap();
    assert_eq!(pos.token_address, "TestMint123");
    assert_eq!(pos.token_mint.to_text(), "So11111111111111111111111111111111111111112");
    assert_eq!(pos.amount, 1_000_000);
    assert_eq!(f(pos.entry_price), 0.000054321);
    assert_eq!(f(pos.peak_pnl_percent), 12.5);
    assert_eq!(f(pos.sol_spent), 0.05);
    assert_eq!(pos.source_wallet, Some("wallet_abc".to_string()));
    assert!(pos.cached_market_cap.is_none());
    assert!(pos.price_history.is_empty());
    assert_eq!(pos.sell_failures, 3);
    assert_eq!(pos.last_sell_failure, Some(at(NOW - SECOND)));
    assert!(next.has_position("Bought"));
    assert!(next.is_in_cooldown("Bought", at(NOW + 59 * SECOND)));
    assert!(!next.is_in_cooldown("Bought", at(NOW + 60 * SECOND)));
}

#[test]
fn empty_balances_are_read_twice() {
    assert!(needs_second_reading(0));
    assert!(!needs_second_reading(1));
    assert!(needs_fallback_price(0, 5));
    assert!(needs_fallback_price(5, 0));
    assert!(!needs_fallback_price(5, 5));
}

fn to_json(p: &StoredPosition) -> String {
    let time = |t: Timestamp| {
        Value::from(chrono::DateTime::from_timestamp_nanos(t.nanos).to_rfc3339())
    };
    let mut map = serde_json::Map::new();
    let mut put = |key: &str, value: Value| {
        map.insert(key.to_string(), value);
    };
    put("token_address", Value::from(p.token_address.clone()));
    put("token_mint", Value::from(p.token_mint.clone()));
    put("amount", Value::from(p.amount));
    put("entry_price", Value::from(f(p.entry_price)));
    put("entry_time", time(p.entry_time));
    put("peak_pnl_percent", Value::from(f(p.peak_pnl_percent)));
    put("source_wallet", Value::from(p.source_wallet.clone()));
    put("sol_spent", Value::from(f(p.sol_spent)));
    put("sell_failures", Value::from(p.sell_failures));
    put("last_sell_failure", p.last_sell_failure.map_or(Value::Null, time));
    put("price_failures", Value::from(p.price_failures));
    put("last_price_failure", p.last_price_failure.map_or(Value::Null, time));
    serde_json::to_string(&Value::Object(map)).unwrap()
}

fn from_json(text: &str) -> StoredPosition {
    let v: Value = serde_json::from_str(text).unwrap();
    let string = |key: &str| v[key].as_str().map(|s| s.to_string());
    let number = |key: &str| b(v[key].as_f64().unwrap());
    let count = |key: &str| v[key].as_u64().map(|n| n as u32);
    let time = |key: &str| {
        let parsed = chrono::DateTime::parse_from_rfc3339(v[key].as_str()?).unwrap();
        Some(at(parsed.timestamp_nanos_opt().unwrap()))
    };
    StoredPosition {
        token_address: string("token_address").unwrap(),
        token_mint: string("token_mint").unwrap(),
        amount: v["amount"].as_u64().unwrap(),
        entry_price: number("entry_price"),
        entry_time: time("entry_time").unwrap(),
        peak_pnl_percent: number("peak_pnl_percent"),
        source_wallet: string("source_wallet"),
        sol_spent: number("sol_spent"),
        sell_failures: count("sell_failures"),
        last_sell_failure: time("last_sell_failure"),
        price_failures: count("price_failures"),
        last_price_failure: time("last_price_failure"),
    }
}

fn load_one(p: StoredPosition) -> PositionSnapshot {
    let mut positions = Keyed::new();
    positions.insert(p.token_address.clone(), p);
    TradingEngine::load_positions(Some(StoredSnapshot { positions, last_trade_time: Keyed::new() }))
}

#[test]
fn test_position_save_and_load_roundtrip() {
    let mut pos = make_test_position("TestMint123", 0.000054321, 0.05);
    pos.amount = 1_000_000;
    pos.peak_pnl_percent = b(12.5);
    pos.source_wallet = Some("wallet_abc".to_string());
    let engine = engine_with(vec![pos], 8.0, vec![], ExitStrategies::default());
    let saved = engine.save_positions();
    let raw = to_json(saved.positions.get("TestMint123").unwrap());
    assert!(raw.contains("TestMint123"));
    assert!(raw.contains("So11111111111111111111111111111111111111112"));

    let mut positions = Keyed::new();
    positions.insert("TestMint123".to_string(), from_json(&raw));
    let mut last_trade_time = Keyed::new();
    last_trade_time.insert("TestMint123".to_string(), at(NOW));
    let loaded = TradingEngine::load_positions(Some(StoredSnapshot { positions, last_trade_time }));
    assert_eq!(loaded.positions.len(), 1);
    assert_eq!(loaded.last_trade_time.len(), 1);

    let pos = loaded.positions.get("TestMint123").unwrap();
    assert_eq!(pos.token_address, "TestMint123");
    let pubkey = Pubkey::parse("So11111111111111111111111111111111111111112").unwrap();
    assert_eq!(pos.token_mint.bytes, pubkey.bytes);
    assert_eq!(pos.amount, 1_000_000);
    assert!((f(pos.entry_price) - 0.000054321).abs() < 1e-12);
    assert!((f(pos.peak_pnl_percent) - 12.5).abs() < 1e-6);
    assert_eq!(f(pos.sol_spent), 0.05);
    assert_eq!(pos.source_wallet, Some("wallet_abc".to_string()));
    assert!(pos.cached_market_cap.is_none());
    assert!(pos.price_history.is_empty());
    assert_eq!(pos.sell_failures, 0);
    assert!(pos.last_sell_failure.is_none());
}

#[test]
fn test_sell_failures_serialization_roundtrip() {
    let mut pos = make_test_position("TokenA", 0.001, 0.05);
    pos.sell_failures = 3;
    let ts = at(NOW + 123_456_789);
    pos.last_sell_failure = Some(ts);

    let engine = engine_with(vec![pos], 8.0, vec![], ExitStrategies::default());
    let json = to_json(engine.save_positions().positions.get("TokenA").unwrap());
    let snapshot = load_one(from_json(&json));
    let loaded = snapshot.positions.get("TokenA").unwrap();

    assert_eq!(loaded.sell_failures, 3);
    assert!(loaded.last_sell_failure.is_some());
    let diff = loaded.last_sell_failure.unwrap().millis_since(ts).abs();
    assert!(diff <= 1, "Timestamp diff too large: {}ms", diff);
}

#[test]
fn test_sell_failures_default_on_missing_field() {
    let json = r#"{
            "token_address": "TokenA",
            "token_mint": "So11111111111111111111111111111111111111112",
            "amount": 1000000,
            "entry_price": 0.001,
            "entry_time": "2026-03-10T20:00:00Z",
            "peak_pnl_percent": 0.0,
            "source_wallet": "wallet_abc",
            "sol_spent": 0.05
        }"#;

    let snapshot = load_one(from_json(json));
    let pos = snapshot.positions.get("TokenA").unwrap();
    assert_eq!(pos.sell_failures, 0);
    assert!(pos.last_sell_failure.is_none());
    assert_eq!(pos.price_failures, 0);
    assert!(pos.last_price_failure.is_none());
}

#[test]
fn unreadable_files_start_without_positions() {
    let none = TradingEngine::load_positions(None);
    assert_eq!((none.positions.len(), none.last_trade_time.len()), (0, 0));
    let mut engine = engine_with(
        vec![make_test_position("TokenA", 0.001, 0.05), make_test_position("TokenB", 0.001, 0.05)],
        8.0,
        vec![],
        ExitStrategies::default(),
    );
    engine.increment_sell_failures("TokenB", at(NOW));
    let mut saved = engine.save_positions();
    let mut broken = from_json(&to_json(saved.positions.get("TokenB").unwrap()));
    assert_eq!(broken.sell_failures, Some(1));
    broken.token_mint = "not base58!".to_string();
    saved.positions.insert("TokenB".to_string(), broken);
    saved.last_trade_time.insert("TokenA".to_string(), at(NOW));
    let loaded = TradingEngine::load_positions(Some(saved));
    assert_eq!((loaded.positions.len(), loaded.last_trade_time.len()), (0, 0));
}

#[test]
fn price_failures_are_written_down() {
    let mut worn = make_test_position("TokenA", 1.0, 0.05);
    worn.price_failures = 3;
    worn.last_price_failure = Some(at(NOW - 301 * SECOND));
    let fresh = make_test_position("TokenB", 1.0, 0.05);
    let mut engine = engine_with(vec![worn, fresh], 8.0, vec![], ExitStrategies::default());
    assert!(!engine.forgets_failures(at(NOW - 2 * SECOND)));
    assert!(engine.forgets_failures(at(NOW)));
    assert_eq!(engine.positions_to_price(at(NOW)).len(), 2);
    assert!(!engine.forgets_failures(at(NOW)));

    let good = || vec![reading("TokenA", NOW, 1.0), reading("Other", NOW, 1.0)];
    assert!(!engine.notes_failures(&good()));
    let failed = vec![PriceReading {
        token_address: "TokenB".to_string(),
        now: at(NOW),
        quote: Err(BotError::Http("down".to_string())),
    }];
    assert!(engine.notes_failures(&failed));
    engine.check_exit_conditions(&failed);
    assert!(!engine.notes_failures(&good()));
    assert!(engine.notes_failures(&vec![reading("TokenB", NOW, 1.0)]));
}
