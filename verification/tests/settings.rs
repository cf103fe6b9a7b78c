use hades_kat_bot::binary64::Binary64;
use hades_kat_bot::config::{
    default_enrichment_interval, default_initial_score, default_liq_max_mcap,
    default_liq_mcap_ratio, default_liq_min_usd, default_loss_cooldown, default_max_score,
    default_min_initial_mcap_sol, default_min_score, default_min_trades,
    default_monitor_duration, default_poll_interval, default_ps_sniper_freshness_secs,
    default_reduced_poll_after, default_reduced_poll_interval, default_rpc_url,
    default_rug_drop_percent, default_sensitivity, default_true, default_watchlist_cap, Config,
    ConfigSource, Environment, TradingConfig,
};
use hades_kat_bot::error::BotError;
use hades_kat_bot::lockfile::{acquire_lock, lock_owner};
use hades_kat_bot::monitoring::AlertLevel;

fn b(x: f64) -> Binary64 {
    Binary64 { bits: x.to_bits() }
}

fn environment(url: Option<&str>, key: Option<&str>, hook: Option<&str>) -> Environment {
    Environment {
        solana_rpc_url: url.map(|s| s.to_string()),
        birdeye_api_key: key.map(|s| s.to_string()),
        discord_webhook_url: hook.map(|s| s.to_string()),
    }
}

#[test]
fn defaults_are_as_documented() {
    let c = Config::default();
    assert_eq!(c.rpc_url, "https://api.mainnet-beta.solana.com");
    assert_eq!(c.wallet_path, "wallet.json");
    assert!(c.birdeye_token_feed && c.coingecko_token_feed);
    assert!(!c.target_wallet_token_feed && !c.new_token_event_feed);
    assert!(c.pumpfun_enabled && c.pumpswap_enabled);
    assert_eq!(c.trading.max_slippage, b(5.0));
    assert_eq!(c.trading.max_buy_amount, 1_000_000_000);
    assert_eq!(c.trading.profit_target_percent, b(20.0));
    assert_eq!(c.trading.stop_loss_percent, b(10.0));
    assert_eq!(c.trading.cooldown_seconds, 60);
    assert_eq!(c.trading.max_positions, 5);
    assert_eq!(c.trading.exit_check_interval_ms, 5_000);
    assert_eq!(c.trading.dynamic_trailing_stop_thresholds, "");
    assert_eq!(c.birdeye.trending_limit, 100);
    assert_eq!(c.birdeye.poll_interval_ms, 300_000);
    assert_eq!(c.trendingtokenfilters.min_market_cap, 2_800);
    assert_eq!(c.trendingtokenfilters.max_market_cap, 10_000_000);
    assert_eq!(c.trendingtokenfilters.min_liquidity, 100_000_000);
    assert_eq!(c.newtokenfilters.min_initial_market_cap_sol, b(0.5));
    assert_eq!(c.newtokenfilters.rug_drop_percent, b(90.0));
    assert_eq!(c.walletscoring.min_score, b(0.1));
    assert_eq!(c.copybotfilters.loss_cooldown_minutes, 15);
    assert!(c.copybotfilters.analysis_step);
    assert_eq!(c.exitstrategies.momentum_reversal_min_loss_pct, b(3.0));
    assert_eq!(c.params.max_price_change, b(-5.0));
    assert_eq!(c.params.min_liq_mcap_ratio, b(0.03));
    assert!(!c.strategies.momentum && !c.strategies.ps_sniper);
    assert!(c.monitoring.webhook_url.is_none());
    assert_eq!(c.monitoring.alert_thresholds.max_daily_loss_percent, b(15.0));
}

#[test]
fn default_functions_give_their_values() {
    assert_eq!(default_min_initial_mcap_sol(), b(0.5));
    assert_eq!(default_monitor_duration(), 60);
    assert_eq!(default_watchlist_cap(), 200);
    assert_eq!(default_poll_interval(), 30);
    assert_eq!(default_reduced_poll_interval(), 120);
    assert_eq!(default_reduced_poll_after(), 15);
    assert_eq!(default_rug_drop_percent(), b(90.0));
    assert_eq!(default_initial_score(), b(1.0));
    assert_eq!(default_sensitivity(), b(5.0));
    assert_eq!(default_min_score(), b(0.1));
    assert_eq!(default_max_score(), b(2.0));
    assert_eq!(default_min_trades(), 3);
    assert_eq!(default_loss_cooldown(), 15);
    assert!(default_true());
    assert_eq!(default_enrichment_interval(), 30_000);
    assert_eq!(default_liq_mcap_ratio(), b(0.03));
    assert_eq!(default_liq_min_usd(), b(5_000.0));
    assert_eq!(default_liq_max_mcap(), b(5_000_000.0));
    assert_eq!(default_ps_sniper_freshness_secs(), b(30.0));
    assert_eq!(default_rpc_url(), "https://api.mainnet-beta.solana.com");
}

#[test]
fn threshold_texts_are_split_in_pairs() {
    let mut t = TradingConfig::default();
    t.dynamic_trailing_stop_thresholds = " 6 : 4 ,12:5,bad,1:2:3,,20:6".to_string();
    let texts = t.threshold_texts();
    let expected: Vec<(String, String)> = [("6", "4"), ("12", "5"), ("20", "6")]
        .iter()
        .map(|(a, c)| (a.to_string(), c.to_string()))
        .collect();
    assert_eq!(texts, expected);
}

#[test]
fn thresholds_are_sorted_by_gain() {
    let numbers = vec![
        (Some(b(20.0)), Some(b(6.0))),
        (None, Some(b(1.0))),
        (Some(b(6.0)), Some(b(4.0))),
        (Some(b(12.0)), None),
        (Some(b(6.0)), Some(b(9.0))),
        (Some(b(12.0)), Some(b(5.0))),
    ];
    assert_eq!(
        TradingConfig::parsed_trailing_thresholds(&numbers),
        vec![
            (b(6.0), b(4.0)),
            (b(6.0), b(9.0)),
            (b(12.0), b(5.0)),
            (b(20.0), b(6.0)),
        ]
    );
    assert!(TradingConfig::parsed_trailing_thresholds(&Vec::new()).is_empty());
}

#[test]
fn environment_comes_before_the_file() {
    let mut file = Config::default();
    file.rpc_url = "https://file".to_string();
    file.birdeye.api_key = "filekey".to_string();
    let c = Config::load(
        ConfigSource::Parsed(file),
        environment(Some("https://env"), Some("  "), Some("https://hook")),
    )
    .unwrap();
    assert_eq!(c.rpc_url, "https://env");
    assert_eq!(c.birdeye.api_key, "filekey");
    assert_eq!(c.monitoring.webhook_url, Some("https://hook".to_string()));

    let mut blank = Config::default();
    blank.rpc_url = " ".to_string();
    let c = Config::load(
        ConfigSource::Parsed(blank),
        environment(Some(" "), Some("envkey"), None),
    )
    .unwrap();
    assert_eq!(c.rpc_url, "https://api.mainnet-beta.solana.com");
    assert_eq!(c.birdeye.api_key, "envkey");
    assert!(c.monitoring.webhook_url.is_none());
}

#[test]
fn broken_files_are_told_apart() {
    let unreadable = Config::load(
        ConfigSource::Unreadable("no such file".to_string()),
        environment(None, None, None),
    );
    assert_eq!(
        unreadable.unwrap_err().message(),
        "Configuration error: Failed to read config file: no such file"
    );
    let malformed = Config::load(
        ConfigSource::Malformed("line 1".to_string()),
        environment(None, None, None),
    );
    assert_eq!(
        malformed.unwrap_err().message(),
        "Configuration error: Failed to parse config: line 1"
    );
}

#[test]
fn errors_tell_their_kind() {
    let d = || "x".to_string();
    let cases = vec![
        (BotError::Config(d()), "Configuration error: x"),
        (BotError::SolanaClient(d()), "Solana client error: x"),
        (BotError::Http(d()), "HTTP request error: x"),
        (BotError::Serialization(d()), "Serialization error: x"),
        (BotError::Wallet(d()), "Wallet error: x"),
        (BotError::Trading(d()), "Trading error: x"),
        (BotError::PumpPortal(d()), "PumpPortal API error: x"),
        (BotError::TransactionFailed(d()), "Transaction failed: x"),
        (BotError::InvalidTokenAddress(d()), "Invalid token address: x"),
        (BotError::Unknown(d()), "Unknown error: x"),
    ];
    for (error, text) in cases {
        assert_eq!(error.message(), text);
    }
}

#[test]
fn lock_is_refused_while_its_owner_lives() {
    let held = Some(" 4711\n".to_string());
    assert_eq!(lock_owner(&held), Some(4711));
    assert_eq!(
        acquire_lock(&held, true, 1).unwrap_err(),
        "Another bot instance is already running (PID 4711). \
         Kill it first or delete bot.lock if stale."
    );
    assert_eq!(acquire_lock(&held, false, 12), Ok("12".to_string()));
    assert_eq!(acquire_lock(&None, true, 12), Ok("12".to_string()));
    let garbage = Some("not a number".to_string());
    assert_eq!(lock_owner(&garbage), None);
    assert_eq!(acquire_lock(&garbage, true, 12), Ok("12".to_string()));
    let written = acquire_lock(&None, false, 31337).unwrap();
    assert_eq!(lock_owner(&Some(written)), Some(31337));
    assert_eq!(lock_owner(&Some("4294967296".to_string())), None);
}

#[test]
fn alert_levels_have_labels() {
    assert_eq!(AlertLevel::Info.label(), "INFO");
    assert_eq!(AlertLevel::Warning.label(), "WARNING");
    assert_eq!(AlertLevel::Error.label(), "ERROR");
    assert_eq!(AlertLevel::Critical.label(), "CRITICAL");
}
