use hades_kat_bot::binary64::Binary64;
use hades_kat_bot::bot::{
    passes_copybot_filters, passes_trending_filters, BotMemory, BotParts, CopyPlan, CopySkip,
    Orders, TradingBot, Wake,
};
use hades_kat_bot::clock::{Instant, Timestamp};
use hades_kat_bot::config::{Config, CopyBotFilters, TrendingTokenFilters};
use hades_kat_bot::error::BotError;
use hades_kat_bot::keyed::Keyed;
use hades_kat_bot::monitoring::AlertIds;
use hades_kat_bot::pricing::PriceQuote;
use hades_kat_bot::pubkey::Pubkey;
use hades_kat_bot::pumpportal::{MigrationEvent, PumpSwapPoolInfo, TokenInfo};
use hades_kat_bot::rounds::{ExitOutcome, Round};
use hades_kat_bot::strategies::{Action, Reason, TradingSignal};
use hades_kat_bot::trading::{
    BuyOutcome, PriceReading, SellOutcome, SellPlan, SignalPlan, SkipReason, Trade, TradeAmount,
};
use hades_kat_bot::wallet::WalletManager;
use solana_sdk::signature::Keypair;

fn b(x: f64) -> Binary64 {
    Binary64 { bits: x.to_bits() }
}

fn f(x: Binary64) -> f64 {
    f64::from_bits(x.bits)
}

fn at(seconds: i64) -> Timestamp {
    Timestamp { nanos: seconds * 1_000_000_000 }
}

fn tick(seconds: u64) -> Instant {
    Instant { nanos: seconds * 1_000_000_000 }
}

fn mint(n: u8) -> String {
    Pubkey { bytes: [n; 32] }.to_text()
}

fn info(address: &str) -> TokenInfo {
    TokenInfo {
        address: address.to_string(),
        symbol: "S".to_string(),
        name: "N".to_string(),
        decimals: 6,
        market_cap: 10_000,
        holders: 50,
        age_hours: 10,
        liquidity: 200_000_000,
        price_usd: b(0.5),
        price_change_24h: b(0.0),
        volume_24h: 100,
        created_at: String::new(),
        just_graduated_at_secs: None,
    }
}

fn config() -> Config {
    let mut c = Config::default();
    c.trading.max_positions = 2;
    c.trading.cooldown_seconds = 60;
    c
}

fn bot_with(config: Config, dry_run: bool, list: &str) -> TradingBot {
    let parts = BotParts {
        wallet: WalletManager::new(Keypair::new().to_bytes()).unwrap(),
        thresholds: Vec::new(),
        stored: None,
        scores: Keyed::new(),
        target_list: list.to_string(),
        now: at(0),
    };
    TradingBot::new(config, dry_run, parts)
}

fn signal(address: &str, action: Action, confidence: f64) -> TradingSignal {
    TradingSignal {
        token: info(address),
        action,
        confidence: b(confidence),
        reason: Reason::CopyTrade,
        expected_price: None,
        override_buy_amount: None,
    }
}

fn outcome(tokens: u64, now: i64) -> BuyOutcome {
    BuyOutcome {
        id: "id".to_string(),
        signature: "sig".to_string(),
        tokens,
        fallback: None,
        discovered: None,
        traded_at: at(now),
        now: at(now),
    }
}

fn hold(bot: &mut TradingBot, n: u8, now: i64) -> Trade {
    let address = mint(n);
    bot.trading_engine.execute_buy(
        &address,
        Pubkey { bytes: [n; 32] },
        1_000_000_000,
        outcome(2_000_000, now),
    )
}

#[test]
fn buys_pass_the_guards_in_order() {
    let mut bot = bot_with(config(), false, "");
    match bot.trading_engine.execute_signal(&signal(&mint(1), Action::Buy, 0.5), at(0)).unwrap() {
        SignalPlan::Buy(plan) => {
            assert_eq!(plan.lamports, 500_000_000);
            assert_eq!(plan.mint.bytes, [1; 32]);
            let r = &plan.request;
            assert_eq!(r.public_key, bot.trading_engine.get_wallet().get_address().to_text());
            assert_eq!((r.action, r.mint.as_str()), (Action::Buy, mint(1).as_str()));
            assert_eq!(r.amount, TradeAmount::Sol(b(0.5)));
            assert!(r.denominated_in_sol);
            assert_eq!((r.slippage, f(r.priority_fee), r.pool), (5, 0.001, "auto"));
        }
        other => panic!("unexpected {:?}", other),
    }
    hold(&mut bot, 1, 100);
    let plan = |bot: &TradingBot, s: TradingSignal, now: i64| {
        bot.trading_engine.execute_signal(&s, at(now)).unwrap()
    };
    let skip = |p: SignalPlan| match p {
        SignalPlan::Skip(reason) => reason,
        other => panic!("unexpected {:?}", other),
    };
    assert_eq!(skip(plan(&bot, signal(&mint(1), Action::Buy, 1.0), 159)), SkipReason::Cooldown);
    assert_eq!(skip(plan(&bot, signal(&mint(1), Action::Hold, 1.0), 159)), SkipReason::Cooldown);
    assert_eq!(skip(plan(&bot, signal(&mint(1), Action::Buy, 1.0), 160)), SkipReason::AlreadyHeld);
    assert_eq!(skip(plan(&bot, signal(&mint(1), Action::Hold, 1.0), 160)), SkipReason::Hold);
    assert_eq!(skip(plan(&bot, signal(&mint(2), Action::Buy, 0.0), 0)), SkipReason::ZeroAmount);
    assert_eq!(skip(plan(&bot, signal(&mint(2), Action::Sell, 1.0), 0)), SkipReason::NotHeld);
    assert!(matches!(
        plan(&bot, signal(&mint(1), Action::Sell, 1.0), 101),
        SignalPlan::Sell(key) if key.bytes == [1; 32]
    ));
    hold(&mut bot, 2, 100);
    assert_eq!(skip(plan(&bot, signal(&mint(3), Action::Buy, 1.0), 0)), SkipReason::MaxPositions);
}

#[test]
fn unreadable_addresses_are_refused() {
    let bot = bot_with(config(), false, "");
    let error = bot
        .trading_engine
        .execute_signal(&signal("bad", Action::Buy, 1.0), at(0))
        .unwrap_err();
    assert_eq!(
        error.message(),
        "Invalid token address: Invalid token address: String is the wrong size"
    );
}

#[test]
fn buy_amount_follows_confidence_up_to_the_maximum() {
    let bot = bot_with(config(), false, "");
    let amount = |s: TradingSignal| bot.trading_engine.calculate_buy_amount(&s);
    assert_eq!(amount(signal("a", Action::Buy, 0.7)), (1_000_000_000f64 * 0.7) as u64);
    assert_eq!(amount(signal("a", Action::Buy, 3.0)), 1_000_000_000);
    assert_eq!(amount(signal("a", Action::Buy, -1.0)), 0);
    let mut fixed = signal("a", Action::Buy, 0.1);
    fixed.override_buy_amount = Some(7);
    assert_eq!(amount(fixed), 7);
    let mut large = signal("a", Action::Buy, 0.1);
    large.override_buy_amount = Some(2_000_000_000);
    assert_eq!(amount(large), 1_000_000_000);
}

#[test]
fn found_pools_are_remembered() {
    let mut bot = bot_with(config(), false, "");
    let pool = PumpSwapPoolInfo {
        pool_id: Pubkey { bytes: [1; 32] },
        base_vault: Pubkey { bytes: [2; 32] },
        quote_vault: Pubkey { bytes: [3; 32] },
    };
    let mut o = outcome(0, 5);
    o.fallback = Some(PriceQuote { price: b(0.25), pool: Some(pool), liquidity_sol: b(1.0) });
    let engine = &bot.trading_engine;
    assert!(engine.needs_pool(&mint(1), 10, 0, &None));
    assert!(!engine.needs_pool(&mint(1), 10, 0, &o.fallback));
    assert!(engine.needs_pool(&mint(1), 10, 5, &o.fallback));
    let trade = bot.trading_engine.execute_buy(&mint(1), Pubkey { bytes: [1; 32] }, 10, o);
    assert_eq!((trade.amount, f(trade.price)), (0, 0.25));
    assert!(bot.trading_engine.cached_pool(&mint(1)).is_some());
    assert!(!bot.trading_engine.needs_pool(&mint(1), 10, 0, &None));
    assert!(bot.trading_engine.cached_pool(&mint(2)).is_none());
    let mut o = outcome(5, 5);
    o.discovered = Some(pool);
    bot.trading_engine.execute_buy(&mint(2), Pubkey { bytes: [2; 32] }, 10, o);
    assert_eq!(bot.trading_engine.cached_pool(&mint(2)).unwrap().pool_id.bytes, [1; 32]);
}

#[test]
fn trending_filters_have_bounds() {
    let cfg = TrendingTokenFilters::default();
    let good = info("xpump");
    assert!(passes_trending_filters(&cfg, &good));
    assert!(!passes_trending_filters(&cfg, &info("x")));
    let reject = |change: fn(&mut TokenInfo)| {
        let mut t = info("xpump");
        change(&mut t);
        assert!(!passes_trending_filters(&TrendingTokenFilters::default(), &t));
    };
    reject(|t| t.market_cap = 2_799);
    reject(|t| t.market_cap = 10_000_001);
    reject(|t| t.holders = 9);
    reject(|t| t.age_hours = 49);
    reject(|t| t.liquidity = 99_999_999);
    let mut strict = cfg;
    strict.min_volume_24h = 101;
    assert!(!passes_trending_filters(&strict, &good));
    let mut dense = cfg;
    dense.min_holder_density = 50;
    assert!(passes_trending_filters(&dense, &good));
    dense.min_holder_density = 51;
    assert!(!passes_trending_filters(&dense, &good));
}

#[test]
fn copy_filters_reject_unknown_tokens() {
    let cfg = CopyBotFilters::default();
    let mut unknown = info("x");
    unknown.market_cap = 0;
    unknown.liquidity = 0;
    unknown.holders = 0;
    assert!(!passes_copybot_filters(&cfg, &unknown));
    let mut off = cfg;
    off.enabled = false;
    assert!(passes_copybot_filters(&off, &unknown));
    assert!(passes_copybot_filters(&cfg, &info("x")));
    let reject = |change: fn(&mut CopyBotFilters)| {
        let mut c = CopyBotFilters::default();
        change(&mut c);
        assert!(!passes_copybot_filters(&c, &info("x")));
    };
    reject(|c| c.min_market_cap = 10_001);
    reject(|c| c.max_market_cap = 9_999);
    reject(|c| c.min_holders = 51);
    reject(|c| c.min_liquidity = 200_000_001);
    reject(|c| c.max_age_hours = 9);
    reject(|c| c.min_volume_24h = 101);
    reject(|c| c.min_holder_density = 51);
}

#[test]
fn copies_are_gated_in_order() {
    let mut bot = bot_with(config(), false, "");
    let wallet = Some("w".to_string());
    assert_eq!(bot.begin_copy("m", &wallet, tick(0)), None);
    bot.memory.note_loss("m", tick(100));
    assert_eq!(bot.begin_copy("m", &wallet, tick(999)), Some(CopySkip::LossCooldown));
    assert_eq!(bot.begin_copy("m", &wallet, tick(1000)), None);
    assert_eq!(bot.begin_copy("other", &wallet, tick(200)), None);
    hold(&mut bot, 1, 0);
    assert_eq!(bot.begin_copy(&mint(1), &wallet, tick(0)), Some(CopySkip::AlreadyHeld));
    hold(&mut bot, 2, 0);
    assert_eq!(bot.begin_copy("other", &None, tick(0)), Some(CopySkip::MaxPositions));
    bot.memory.block("w");
    assert_eq!(bot.begin_copy("other", &wallet, tick(0)), Some(CopySkip::BlockedWallet));
    bot.config.copybotfilters.loss_cooldown_minutes = 0;
    bot.config.trading.max_positions = 9;
    assert_eq!(bot.begin_copy("m", &None, tick(101)), None);
}

#[test]
fn copies_without_analysis_spend_the_maximum() {
    let mut c = config();
    c.copybotfilters.analysis_step = false;
    let bot = bot_with(c, false, "");
    match bot.process_copy_trade(&info("m"), true) {
        CopyPlan::Trade(signals) => {
            assert_eq!(signals.len(), 1);
            assert_eq!(signals[0].override_buy_amount, Some(1_000_000_000));
            assert_eq!(signals[0].reason, Reason::CopyTrade);
            assert_eq!(f(signals[0].confidence), 1.0);
            assert_eq!(f(bot.sol_for(&signals[0])), 1.0);
        }
        other => panic!("unexpected {:?}", other),
    }
}

#[test]
fn copies_respect_the_venue_flags_and_the_strategies() {
    let skip = |bot: &TradingBot, on_curve: bool| match bot.process_copy_trade(&info("m"), on_curve)
    {
        CopyPlan::Skip(s) => s,
        other => panic!("unexpected {:?}", other),
    };
    let bot = bot_with(config(), false, "");
    assert!(!bot.asks_for_venue());
    assert_eq!(skip(&bot, true), CopySkip::NoSignals);
    let mut c = config();
    c.pumpfun_enabled = false;
    let bot = bot_with(c, false, "");
    assert!(bot.asks_for_venue());
    assert_eq!(skip(&bot, true), CopySkip::OnBondingCurve);
    assert_eq!(skip(&bot, false), CopySkip::NoSignals);
    let mut c = config();
    c.pumpswap_enabled = false;
    let bot = bot_with(c, false, "");
    assert_eq!(skip(&bot, false), CopySkip::Graduated);
    assert_eq!(skip(&bot, true), CopySkip::NoSignals);
    let bot = bot_with(config(), true, "");
    assert_eq!(skip(&bot, true), CopySkip::DryRun);
    let mut c = config();
    c.copybotfilters.min_holders = 51;
    assert_eq!(skip(&bot_with(c, true, ""), true), CopySkip::Filtered);
}

#[test]
fn unlisted_copies_get_a_plain_description() {
    let listed = TradingBot::copied_token("m", &vec![info("m")], "t");
    assert_eq!(listed.name, "N");
    let plain = TradingBot::copied_token("0123456789", &Vec::new(), "t");
    assert_eq!((plain.name.as_str(), plain.symbol.as_str()), ("COPY_TRADE", "01234567"));
    assert_eq!((plain.market_cap, plain.holders, plain.liquidity), (0, 0, 0));
    assert_eq!((plain.created_at.as_str(), f(plain.price_usd)), ("t", 0.0));
}

#[test]
fn weak_signals_are_not_traded() {
    let mut c = config();
    c.strategies.momentum = true;
    let bot = bot_with(c, false, "");
    let mut token = info("m");
    token.liquidity = 10;
    token.price_change_24h = b(49.0);
    match bot.analyze_and_trade_token(&token) {
        Orders::Execute(signals) => assert!(signals.is_empty()),
        other => panic!("unexpected {:?}", other),
    }
    token.price_change_24h = b(50.0);
    match bot.analyze_and_trade_token(&token) {
        Orders::Execute(signals) => {
            assert_eq!(signals.len(), 1);
            assert_eq!(f(bot.sol_for(&signals[0])), 1.0);
        }
        other => panic!("unexpected {:?}", other),
    }
    let mut dry = bot;
    dry.dry_run = true;
    assert!(matches!(dry.analyze_and_trade_token(&token), Orders::Show(s) if s.len() == 1));
}

#[test]
fn held_tokens_are_not_considered_again() {
    let mut bot = bot_with(config(), false, "");
    assert!(bot.considers(&info("xpump")));
    assert!(!bot.considers(&info("x")));
    bot.trading_engine.execute_buy("xpump", Pubkey { bytes: [1; 32] }, 1, outcome(1, 0));
    assert!(!bot.considers(&info("xpump")));
}

#[test]
fn each_graduation_is_taken_once() {
    let mut bot = bot_with(config(), false, "");
    let event = MigrationEvent {
        mint: "0123456789".to_string(),
        tx_type: String::new(),
        signature: String::new(),
        pool: String::new(),
    };
    let token = bot.process_graduation(&event, "t").unwrap();
    assert_eq!((token.symbol.as_str(), token.name.as_str()), ("01234567", "GRADUATED"));
    assert_eq!(token.just_graduated_at_secs, Some(0));
    assert_eq!(token.created_at, "t");
    assert!(bot.process_graduation(&event, "t").is_none());
}

#[test]
fn target_list_gives_wallets_and_scores() {
    let mut c = config();
    c.rpc_url = "https://rpc.example".to_string();
    c.target_wallet_token_feed = true;
    let one = mint(1);
    let bot = bot_with(c, false, &format!("{}, bad,{}", one, mint(2)));
    let bytes: Vec<u8> = bot.target_wallets.iter().map(|k| k.bytes[0]).collect();
    assert_eq!(bytes, vec![1, 2]);
    assert!(bot.feeds().target_wallets);
    assert_eq!(bot.wss_url, "wss://rpc.example");
    assert_eq!(bot.wallet_scorer.get_score("bad"), Some(b(1.0)));
    assert_eq!(bot.wallet_scorer.get_score(&one), Some(b(1.0)));
    assert!(!bot_with(config(), false, &one).feeds().target_wallets);
    let mut keyed = config();
    assert!(!bot_with(config(), false, "").feeds().birdeye);
    keyed.birdeye.api_key = "k".to_string();
    assert!(bot_with(keyed, false, "").feeds().birdeye);
    assert!(bot_with(config(), false, "").feeds().geckoterminal);
}

#[test]
fn losing_sales_block_token_and_wallet() {
    let mut c = config();
    c.walletscoring.wallet_removal_score = b(0.5);
    c.walletscoring.min_trades_for_scoring = 1;
    let mut bot = bot_with(c, false, "w");
    let address = mint(1);
    let bought = hold(&mut bot, 1, 0);
    let entry = bot.buy_made(
        &info(&address),
        &address,
        b(1.0),
        &Some("w".to_string()),
        bought,
        at(1),
    );
    assert_eq!(entry.source_wallet, Some("w".to_string()));
    let brief = bot.position_brief(&address).unwrap();
    assert_eq!((f(brief.sol_spent), f(brief.entry_price)), (1.0, 0.5));
    assert_eq!(brief.source_wallet, Some("w".to_string()));
    assert!(bot.can_score(&brief));
    let s = signal(&address, Action::Sell, 1.0);
    let amount = match bot.trading_engine.plan_sell(&address, 2_000_000) {
        SellPlan::Sell(order) => {
            assert_eq!((order.amount, order.full_exit), (2_000_000, true));
            assert_eq!(order.request.amount, TradeAmount::All);
            assert_eq!((order.request.action, order.request.slippage), (Action::Sell, 5));
            assert!(!order.request.denominated_in_sol);
            order.amount
        }
        other => panic!("unexpected {:?}", other),
    };
    let trade = bot.trading_engine.execute_sell(
        &s,
        amount,
        SellOutcome {
            id: "id".to_string(),
            signature: "sig".to_string(),
            received: Some(b(0.75)),
            traded_at: at(2),
            now: at(2),
        },
    );
    let follow = bot.sale_made(&s, &brief, trade, &Vec::new(), at(3), tick(50));
    assert_eq!(follow.entry.exit_token.symbol, "UNKNOWN");
    assert_eq!(f(follow.entry.exit_token.price_usd), 0.5);
    assert_eq!(f(follow.entry.pnl_percent), -25.0);
    assert_eq!(follow.removed_wallet, Some("w".to_string()));
    assert_eq!(f(bot.wallet_scorer.get_score("w").unwrap()), 0.1);
    assert!(bot.memory.is_blocked("w"));
    assert!(bot.memory.recently_lost(&address, 15, tick(60)));
    assert!(!bot.memory.recently_lost(&address, 15, tick(950)));
    assert_eq!(bot.trading_engine.get_trade_history().len(), 2);
    assert!(!bot.trading_engine.has_position(&address));
    assert!(bot.trading_engine.get_last_trade_times().contains_key(&address));
}

#[test]
fn gains_leave_no_marks() {
    let mut bot = bot_with(config(), false, "w");
    let address = mint(1);
    hold(&mut bot, 1, 0);
    bot.trading_engine.set_position_source_wallet(&address, "w".to_string());
    let brief = bot.position_brief(&address).unwrap();
    let s = signal(&address, Action::Sell, 1.0);
    let trade = bot.trading_engine.execute_sell(
        &s,
        2_000_000,
        SellOutcome {
            id: "id".to_string(),
            signature: "sig".to_string(),
            received: Some(b(1.125)),
            traded_at: at(2),
            now: at(2),
        },
    );
    let follow = bot.sale_made(&s, &brief, trade, &vec![info("listed")], at(3), tick(50));
    assert_eq!(follow.entry.exit_token.symbol, "S");
    assert!(follow.removed_wallet.is_none());
    assert_eq!(f(bot.wallet_scorer.get_score("w").unwrap()), 1.0 + 0.125 * 5.0);
    assert!(!bot.memory.recently_lost(&address, 15, tick(50)));
    assert!(!bot.memory.is_blocked("w"));
}

#[test]
fn exits_are_shown_in_a_dry_run() {
    let readings = || {
        vec![PriceReading {
            token_address: mint(1),
            now: at(10),
            quote: Ok(PriceQuote { price: b(0.25), pool: None, liquidity_sol: b(1.0) }),
        }]
    };
    let mut bot = bot_with(config(), false, "");
    hold(&mut bot, 1, 0);
    assert_eq!(bot.trading_engine.positions_to_price(at(10)), vec![(mint(1), 2_000_000)]);
    match bot.check_exit_conditions(&readings()) {
        Orders::Execute(signals) => {
            assert_eq!(signals.len(), 1);
            assert_eq!(signals[0].reason, Reason::StopLoss { loss: b(50.0) });
            assert_eq!(signals[0].action, Action::Sell);
        }
        other => panic!("unexpected {:?}", other),
    }
    bot.dry_run = true;
    assert!(matches!(bot.check_exit_conditions(&readings()), Orders::Show(s) if s.len() == 1));
    let failed = vec![PriceReading {
        token_address: mint(1),
        now: at(10),
        quote: Err(BotError::Unknown("x".to_string())),
    }];
    assert!(matches!(bot.check_exit_conditions(&failed), Orders::Show(s) if s.is_empty()));
    assert_eq!(bot.trading_engine.get_positions().get(&mint(1)).unwrap().price_failures, 1);
}

#[test]
fn monitoring_reads_the_trade_history() {
    let mut bot = bot_with(config(), false, "");
    let trade = hold(&mut bot, 1, 0);
    bot.trading_engine.add_trade(trade);
    let ids = AlertIds {
        drawdown: String::new(),
        daily_loss: String::new(),
        win_rate: String::new(),
    };
    bot.update_monitoring(at(30), ids);
    let metrics = bot.monitoring.get_metrics();
    assert_eq!((metrics.total_trades, metrics.current_positions), (1, 1));
    assert_eq!((metrics.total_volume_traded, metrics.uptime_seconds), (2_000_000, 30));
}

#[test]
fn memory_starts_empty() {
    let mut memory = BotMemory::new();
    assert!(!memory.is_blocked("w"));
    assert!(!memory.recently_lost("m", 15, tick(0)));
    assert!(memory.note_snipe("m"));
    assert!(!memory.note_snipe("m"));
}

#[test]
fn copy_filters_without_thresholds_accept_known_tokens() {
    let cfg = CopyBotFilters::default();
    let mut barely = info("x");
    barely.market_cap = 0;
    barely.liquidity = 0;
    barely.holders = 1;
    assert!(passes_copybot_filters(&cfg, &barely));
}

#[test]
fn wakes_are_acted_on_where_there_is_something_to_do() {
    let mut c = config();
    c.strategies.ps_sniper = true;
    let mut bot = bot_with(c, false, "");
    let acts = |bot: &TradingBot| {
        [
            Wake::Discovery,
            Wake::ExitCheck,
            Wake::Copy,
            Wake::Launch,
            Wake::Graduation,
            Wake::Watchlist,
            Wake::Enrichment,
            Wake::Status,
        ]
        .map(|wake| bot.acts_on(wake))
    };
    assert_eq!(acts(&bot), [true, false, true, false, true, false, false, true]);
    hold(&mut bot, 1, 0);
    bot.config.new_token_event_feed = true;
    assert_eq!(acts(&bot), [true, true, true, true, true, false, true, true]);
    bot.new_token_monitor.add_token("m".to_string(), String::new(), b(1.0), tick(0));
    assert!(bot.acts_on(Wake::Watchlist));
    bot.config.new_token_event_feed = false;
    bot.config.strategies.ps_sniper = false;
    assert_eq!(acts(&bot), [true, true, true, false, false, false, true, true]);
    assert!(!bot.feeds().launches && !bot.feeds().graduations);
}

fn current(round: &Round) -> Option<String> {
    round.current().map(|s| s.token.address.clone())
}

#[test]
fn first_failed_buy_ends_the_round() {
    let mut bot = bot_with(config(), false, "");
    let signals = (1..=4).map(|n| signal(&mint(n), Action::Buy, 1.0)).collect();
    let mut round = Round::new(signals);
    assert_eq!(current(&round), Some(mint(1)));

    let trade = hold(&mut bot, 1, 0);
    let wallet = Some("w".to_string());
    let entry = bot
        .buy_tried(&mut round, &mint(1), &wallet, Ok(Some(trade)), at(1))
        .unwrap()
        .unwrap();
    assert_eq!(entry.source_wallet, wallet);
    assert_eq!(f(entry.sol_spent), 1.0);
    assert_eq!(bot.position_brief(&mint(1)).unwrap().source_wallet, wallet);
    assert_eq!(bot.trading_engine.get_trade_history().len(), 1);

    assert_eq!(current(&round), Some(mint(2)));
    assert!(bot.buy_tried(&mut round, &mint(2), &None, Ok(None), at(2)).unwrap().is_none());
    assert_eq!(current(&round), Some(mint(3)));
    let refused = Err(BotError::Http("down".to_string()));
    match bot.buy_tried(&mut round, &mint(3), &None, refused, at(3)) {
        Err(BotError::Http(text)) => assert_eq!(text, "down"),
        other => panic!("unexpected {:?}", other),
    }
    assert_eq!(current(&round), None);
    assert_eq!(bot.trading_engine.get_trade_history().len(), 1);
    assert_eq!(bot.trading_engine.get_positions().len(), 1);
}

#[test]
fn failed_exits_are_counted_and_stop_nothing() {
    let mut bot = bot_with(config(), false, "w");
    for n in 1..=2 {
        hold(&mut bot, n, 0);
        bot.trading_engine.set_position_source_wallet(&mint(n), "w".to_string());
    }
    let signals = (1..=4).map(|n| signal(&mint(n), Action::Sell, 1.0)).collect();
    let mut round = Round::new(signals);
    assert!(bot.exit_tried(&mut round, ExitOutcome::Failed, at(7), tick(7)).is_none());
    let failures = |bot: &TradingBot, n: u8| {
        let p = bot.trading_engine.get_positions().get(&mint(n)).unwrap();
        (p.sell_failures, p.last_sell_failure)
    };
    assert_eq!(failures(&bot, 1), (1, Some(at(7))));
    assert_eq!(failures(&bot, 2), (0, None));
    assert!(bot.trading_engine.get_trade_history().is_empty());
    assert_eq!(f(bot.wallet_scorer.get_score("w").unwrap()), 1.0);
    assert!(!bot.memory.recently_lost(&mint(1), 15, tick(7)));

    assert_eq!(current(&round), Some(mint(2)));
    let brief = bot.position_brief(&mint(2));
    let trade = bot.trading_engine.execute_sell(
        &signal(&mint(2), Action::Sell, 1.0),
        2_000_000,
        SellOutcome {
            id: "id".to_string(),
            signature: "sig".to_string(),
            received: Some(b(0.75)),
            traded_at: at(8),
            now: at(8),
        },
    );
    let sold = ExitOutcome::Sold { trade, brief, enriched: Vec::new() };
    let left = bot.exit_tried(&mut round, sold, at(8), tick(8)).unwrap();
    assert_eq!(f(left.entry.pnl_percent), -25.0);
    assert!(bot.memory.recently_lost(&mint(2), 15, tick(8)));
    assert!(f(bot.wallet_scorer.get_score("w").unwrap()) < 1.0);
    assert_eq!(bot.trading_engine.get_trade_history().len(), 1);

    assert_eq!(current(&round), Some(mint(3)));
    assert!(bot.exit_tried(&mut round, ExitOutcome::NoTrade, at(9), tick(9)).is_none());
    assert_eq!(current(&round), Some(mint(4)));
    assert!(bot.exit_tried(&mut round, ExitOutcome::Failed, at(9), tick(9)).is_none());
    assert_eq!(current(&round), None);
    assert_eq!(failures(&bot, 1), (1, Some(at(7))));
}

#[test]
fn sales_of_unknown_positions_are_only_listed() {
    let mut bot = bot_with(config(), false, "");
    let trade = hold(&mut bot, 1, 0);
    let mut round = Round::new(vec![signal(&mint(9), Action::Sell, 1.0)]);
    let sold = ExitOutcome::Sold { trade, brief: None, enriched: Vec::new() };
    assert!(bot.exit_tried(&mut round, sold, at(1), tick(1)).is_none());
    assert_eq!(bot.trading_engine.get_trade_history().len(), 1);
    assert!(round.current().is_none());
}
