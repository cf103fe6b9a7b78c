use hades_kat_bot::binary64::Binary64;
use hades_kat_bot::clock::Timestamp;
use hades_kat_bot::config::{AlertThresholds, WalletScoring};
use hades_kat_bot::journal::{log_buy, log_sell, PositionBrief};
use hades_kat_bot::keyed::Keyed;
use hades_kat_bot::monitoring::{
    traded_volume, AlertCause, AlertIds, AlertLevel, BotMetrics, MonitoringSystem,
};
use hades_kat_bot::pumpportal::TokenInfo;
use hades_kat_bot::scoring::{parse_wallet_list, remove_wallet, WalletScoreEntry, WalletScorer};
use hades_kat_bot::strategies::{Action, Reason};
use hades_kat_bot::trading::Trade;

fn b(x: f64) -> Binary64 {
    Binary64 { bits: x.to_bits() }
}

fn f(x: Binary64) -> f64 {
    f64::from_bits(x.bits)
}

fn at(seconds: i64) -> Timestamp {
    Timestamp { nanos: seconds * 1_000_000_000 }
}

fn trade(amount: u64, profit_loss: Option<f64>) -> Trade {
    Trade {
        id: "id".to_string(),
        token_address: "mint".to_string(),
        action: Action::Sell,
        amount,
        price: b(0.5),
        timestamp: at(0),
        signature: Some("sig".to_string()),
        profit_loss: profit_loss.map(b),
        sol_received: profit_loss.map(|p| b(p + 1.0)),
    }
}

fn ids() -> AlertIds {
    AlertIds {
        drawdown: "one".to_string(),
        daily_loss: "two".to_string(),
        win_rate: "three".to_string(),
    }
}

fn info() -> TokenInfo {
    TokenInfo {
        address: "mint".to_string(),
        symbol: "S".to_string(),
        name: "N".to_string(),
        decimals: 6,
        market_cap: 1,
        holders: 2,
        age_hours: 3,
        liquidity: 4,
        price_usd: b(0.75),
        price_change_24h: b(1.5),
        volume_24h: 5,
        created_at: String::new(),
        just_graduated_at_secs: None,
    }
}

#[test]
fn wallet_lists_are_split_and_trimmed() {
    assert_eq!(parse_wallet_list(" a, ,b ,,c"), vec!["a", "b", "c"]);
    assert!(parse_wallet_list(" , ").is_empty());
    assert!(parse_wallet_list("").is_empty());
}

#[test]
fn known_scores_are_kept_and_new_wallets_start_even() {
    let mut left = Keyed::new();
    left.insert(
        "a".to_string(),
        WalletScoreEntry { score: b(1.75), trades: 4, total_pnl_sol: b(0.5) },
    );
    let scorer = WalletScorer::load(left, "a, b", b(1.0));
    assert_eq!(scorer.get_score("a"), Some(b(1.75)));
    assert_eq!(scorer.get_trades("a"), 4);
    assert_eq!(scorer.get_score("b"), Some(b(1.0)));
    assert_eq!(scorer.get_trades("b"), 0);
    assert_eq!(scorer.get_score("c"), None);
    assert_eq!(scorer.save().len(), 2);
}

#[test]
fn scores_follow_profit_and_stay_in_range() {
    let config = WalletScoring::default();
    let mut scorer = WalletScorer::load(Keyed::new(), "a", b(1.0));
    scorer.update("a", b(0.03), &config);
    assert_eq!(f(scorer.get_score("a").unwrap()), 1.0 + 0.03 * 5.0);
    assert_eq!(f(scorer.save().get("a").unwrap().total_pnl_sol), 0.03);
    scorer.update("a", b(9.0), &config);
    assert_eq!(f(scorer.get_score("a").unwrap()), 2.0);
    scorer.update("a", b(-9.0), &config);
    assert_eq!(f(scorer.get_score("a").unwrap()), 0.1);
    assert_eq!(scorer.get_trades("a"), 3);
    assert_eq!(f(scorer.save().get("a").unwrap().total_pnl_sol), (0.03 + 9.0) - 9.0);
    scorer.update("new", b(-0.1), &config);
    assert_eq!(f(scorer.get_score("new").unwrap()), 1.0 + -0.1 * 5.0);
    assert_eq!(scorer.get_trades("new"), 1);
}

#[test]
fn wallets_are_dropped_after_enough_bad_trades() {
    let mut config = WalletScoring::default();
    config.wallet_removal_score = b(0.2);
    let mut scorer = WalletScorer::load(Keyed::new(), "a", b(1.0));
    scorer.update("a", b(-5.0), &config);
    scorer.update("a", b(-5.0), &config);
    assert!(!scorer.should_remove("a", &config));
    scorer.update("a", b(-5.0), &config);
    assert!(scorer.should_remove("a", &config));
    config.wallet_removal_score = b(0.0);
    assert!(!scorer.should_remove("a", &config));
    config.wallet_removal_score = b(0.05);
    assert!(!scorer.should_remove("a", &config));
    assert!(!scorer.should_remove("stranger", &config));
}

#[test]
fn removed_wallet_leaves_the_file() {
    let content = "KEY=a,b\nTARGET_WALLETS=a, b ,c,,b\r\n# TARGET_WALLETS=b\nLAST=1\n";
    assert_eq!(
        remove_wallet(content, "b"),
        "KEY=a,b\nTARGET_WALLETS=a,c\n# TARGET_WALLETS=b\nLAST=1"
    );
    assert_eq!(remove_wallet("TARGET_WALLETS=b", "b"), "TARGET_WALLETS=");
    assert_eq!(remove_wallet("TARGET_WALLETS= a ,c", "b"), "TARGET_WALLETS= a ,c");
}

fn thresholds(drawdown: f64, loss: f64) -> AlertThresholds {
    AlertThresholds {
        max_drawdown_percent: b(drawdown),
        min_daily_profit_percent: b(5.0),
        max_daily_loss_percent: b(loss),
    }
}

#[test]
fn metrics_sum_up_the_trades() {
    let mut m = MonitoringSystem::new(None, thresholds(20.0, 15.0), at(100));
    assert_eq!(*m.get_metrics(), BotMetrics::initial(at(100)));
    let trades = vec![
        trade(10, None),
        trade(20, Some(0.5)),
        trade(30, Some(-0.25)),
        trade(40, Some(0.0)),
        trade(50, Some(-0.5)),
        trade(60, Some(0.125)),
    ];
    assert_eq!(traded_volume(&trades), Some(210));
    m.update_metrics(&trades, 3, at(160), ids());
    let got = *m.get_metrics();
    assert_eq!((got.total_trades, got.winning_trades, got.losing_trades), (6, 2, 2));
    assert_eq!(f(got.total_profit_loss), 0.5 - 0.25 - 0.5 + 0.125);
    assert_eq!(f(got.win_rate), (2.0 / 6.0) * 100.0);
    assert_eq!(f(got.average_profit), 0.625 / 2.0);
    assert_eq!(f(got.average_loss), 0.75 / 2.0);
    assert_eq!(f(got.max_drawdown), 0.75);
    assert_eq!((got.current_positions, got.total_volume_traded), (3, 210));
    assert_eq!((got.uptime_seconds, got.last_updated), (60, at(160)));
    assert!(m.get_unacknowledged_alerts().is_empty());
    assert_eq!(f(m.calculate_daily_pl_percent()), -0.125);
    m.update_metrics(&Vec::new(), 0, at(161), ids());
    let got = *m.get_metrics();
    assert_eq!((got.total_trades, f(got.total_profit_loss)), (0, 0.0));
    assert_eq!(f(got.win_rate), (2.0 / 6.0) * 100.0);
    assert_eq!(f(got.average_profit), 0.625 / 2.0);
}

#[test]
fn uptime_wraps_before_the_start() {
    let mut m = MonitoringSystem::new(None, thresholds(20.0, 15.0), at(100));
    m.update_metrics(&Vec::new(), 0, at(40), ids());
    assert_eq!(m.get_metrics().uptime_seconds, (-60_i64) as u64);
    m.update_metrics(&Vec::new(), 0, at(107), ids());
    assert_eq!(m.get_metrics().uptime_seconds, 7);
}

#[test]
fn drawdown_is_measured_from_the_peak() {
    let m = MonitoringSystem::new(None, thresholds(20.0, 15.0), at(0));
    let trades = |list: &[f64]| -> Vec<Trade> {
        list.iter().map(|p| trade(1, Some(*p))).collect()
    };
    assert_eq!(f(m.calculate_max_drawdown(&trades(&[]))), 0.0);
    assert_eq!(f(m.calculate_max_drawdown(&trades(&[1.0, 2.0]))), 0.0);
    assert_eq!(f(m.calculate_max_drawdown(&trades(&[-1.0]))), 1.0);
    assert_eq!(f(m.calculate_max_drawdown(&trades(&[4.0, -3.0, 2.0, -2.5, 9.0]))), 3.5);
}

#[test]
fn alerts_tell_what_went_wrong() {
    let mut m = MonitoringSystem::new(Some("hook".to_string()), thresholds(0.5, 0.25), at(0));
    let trades: Vec<Trade> = (0..11).map(|_| trade(1, Some(-0.0625))).collect();
    m.update_metrics(&trades, 0, at(9), ids());
    let alerts = m.get_unacknowledged_alerts();
    assert_eq!(alerts.len(), 3);
    assert_eq!((alerts[0].id.as_str(), alerts[0].level), ("one", AlertLevel::Warning));
    assert_eq!(
        alerts[0].cause,
        AlertCause::MaxDrawdown { drawdown: b(0.6875), threshold: b(0.5) }
    );
    assert_eq!((alerts[1].id.as_str(), alerts[1].level), ("two", AlertLevel::Error));
    assert_eq!(
        alerts[1].cause,
        AlertCause::DailyLoss { loss: b(0.6875), threshold: b(0.25) }
    );
    assert_eq!((alerts[2].id.as_str(), alerts[2].level), ("three", AlertLevel::Warning));
    assert_eq!(alerts[2].cause, AlertCause::LowWinRate { win_rate: b(0.0) });
    assert!(alerts.iter().all(|a| a.timestamp == at(9) && !a.acknowledged));
    let ten: Vec<Trade> = (0..10).map(|_| trade(1, Some(-0.015625))).collect();
    let mut quiet = MonitoringSystem::new(None, thresholds(0.5, 0.25), at(0));
    quiet.update_metrics(&ten, 0, at(9), ids());
    assert!(quiet.get_unacknowledged_alerts().is_empty());
}

#[test]
fn too_much_volume_is_noticed() {
    assert_eq!(traded_volume(&vec![trade(u64::MAX, None), trade(1, None)]), None);
    assert_eq!(traded_volume(&vec![trade(u64::MAX, None)]), Some(u64::MAX));
}

#[test]
fn journal_entries_carry_the_trade() {
    let mut bought = trade(123, None);
    bought.action = Action::Buy;
    let entry = log_buy(&info(), &bought, b(0.05), &Some("w".to_string()), at(7));
    assert_eq!(entry.timestamp, at(7));
    assert_eq!(entry.token.symbol, "S");
    assert_eq!((f(entry.sol_spent), entry.tokens_received), (0.05, 123));
    assert_eq!(entry.tx_signature, Some("sig".to_string()));
    assert_eq!(entry.source_wallet, Some("w".to_string()));

    let brief = PositionBrief {
        entry_price: b(0.5),
        sol_spent: b(2.0),
        peak_pnl_percent: b(33.0),
        source_wallet: None,
    };
    let sold = trade(9, Some(0.5));
    let reason = Reason::StopLoss { loss: b(12.0) };
    let entry = log_sell("mint", &brief, &info(), &sold, reason, at(8));
    assert_eq!(f(entry.pnl_percent), ((1.5 - 2.0) / 2.0) * 100.0);
    assert_eq!((f(entry.entry_price_sol), f(entry.peak_pnl_percent)), (0.5, 33.0));
    assert_eq!((entry.tokens_sold, entry.exit_reason), (9, reason));
    assert_eq!(entry.profit_loss_sol, Some(b(0.5)));
    assert_eq!(entry.sol_received, Some(b(1.5)));
    assert_eq!(entry.token_address, "mint");
    assert!(entry.source_wallet.is_none());
    let unknown = log_sell("mint", &brief, &info(), &trade(9, None), reason, at(8));
    assert_eq!(f(unknown.pnl_percent), 0.0);
}
