//! The bot: what it makes of the feeds and of its positions.
use crate::binary64::Binary64;
use crate::clock::{Instant, Timestamp};
use crate::config::{
    Config, CopyBotFilters, StrategyParams, StrategyToggles, Tier, TrendingTokenFilters,
};
use crate::journal::{log_buy, log_sell, BuyEntry, PositionBrief, SellEntry};
use crate::keyed::Keyed;
use crate::monitoring::{AlertIds, MonitoringSystem};
use crate::pricing::sol;
use crate::pubkey::Pubkey;
use crate::pumpportal::{MigrationEvent, TokenInfo, TokenInfoView};
use crate::scoring::{WalletScoreEntry, WalletScorer};
use crate::strategies::{
    Action, Reason, SignalView, StrategyConfig, StrategyEngine, StrategyView, TradingSignal,
    TradingStrategy,
};
use crate::storage::StoredSnapshot;
use crate::tokens::NewTokenMonitor;
use crate::trading::{EngineView, PriceReading, Trade, TradeView, TradingEngine};
use crate::wallet::WalletManager;
use vstd::prelude::*;

verus! {

/// Holders for each ten thousand dollars of market capitalisation.
pub open spec fn holder_density(token: TokenInfoView) -> int {
    (token.holders * 10_000) / (token.market_cap as int)
}

/// Whether a token has enough holders for its market capitalisation; a threshold of zero is
/// none, and so is a market capitalisation that is not known.
pub open spec fn dense_enough(token: TokenInfoView, min_density: u32) -> bool {
    min_density == 0 || token.market_cap == 0 || holder_density(token) >= min_density
}

fn is_dense_enough(token: &TokenInfo, min_density: u32) -> (r: bool)
    ensures
        r == dense_enough(token@, min_density),
{
    if min_density > 0 && token.market_cap > 0 {
        let density: u64 = (token.holders as u64 * 10_000) / token.market_cap;
        density >= min_density as u64
    } else {
        true
    }
}

/// Whether a trending token meets the filters. Only tokens of the launchpad can be traded; their
/// addresses end in `pump`.
pub open spec fn trending_meets(f: TrendingTokenFilters, token: TokenInfoView) -> bool {
    &&& crate::text::has_suffix(token.address, "pump"@)
    &&& f.min_market_cap <= token.market_cap <= f.max_market_cap
    &&& token.holders >= f.min_holders
    &&& token.age_hours <= f.max_age_hours
    &&& token.liquidity >= f.min_liquidity
    &&& f.min_volume_24h > 0 ==> token.volume_24h >= f.min_volume_24h
    &&& dense_enough(token, f.min_holder_density)
}

/// Whether a trending token meets the filters.
pub fn passes_trending_filters(cfg: &TrendingTokenFilters, token: &TokenInfo) -> (r: bool)
    ensures
        r == trending_meets(*cfg, token@),
{
    if !crate::text::ends_with(token.address.as_str(), "pump") {
        return false;
    }
    if token.market_cap < cfg.min_market_cap {
        return false;
    }
    if token.market_cap > cfg.max_market_cap {
        return false;
    }
    if token.holders < cfg.min_holders {
        return false;
    }
    if token.age_hours > cfg.max_age_hours {
        return false;
    }
    if token.liquidity < cfg.min_liquidity {
        return false;
    }
    if cfg.min_volume_24h > 0 && token.volume_24h < cfg.min_volume_24h {
        return false;
    }
    is_dense_enough(token, cfg.min_holder_density)
}

/// Whether a token that a target wallet bought meets the filters: where they are enabled, market
/// figures have to be known, and thresholds of zero are none.
pub open spec fn copy_meets(f: CopyBotFilters, token: TokenInfoView) -> bool {
    f.enabled ==> {
        &&& token.market_cap != 0 || token.liquidity != 0 || token.holders != 0
        &&& f.min_market_cap > 0 ==> token.market_cap >= f.min_market_cap
        &&& f.max_market_cap > 0 ==> token.market_cap <= f.max_market_cap
        &&& f.min_holders > 0 ==> token.holders >= f.min_holders
        &&& f.min_liquidity > 0 ==> token.liquidity >= f.min_liquidity
        &&& f.max_age_hours > 0 ==> token.age_hours <= f.max_age_hours
        &&& f.min_volume_24h > 0 ==> token.volume_24h >= f.min_volume_24h
        &&& dense_enough(token, f.min_holder_density)
    }
}

/// Whether a token that a target wallet bought meets the filters.
pub fn passes_copybot_filters(cfg: &CopyBotFilters, token: &TokenInfo) -> (r: bool)
    ensures
        r == copy_meets(*cfg, token@),
{
    if !cfg.enabled {
        return true;
    }
    if token.market_cap == 0 && token.liquidity == 0 && token.holders == 0 {
        return false;
    }
    if cfg.min_market_cap > 0 && token.market_cap < cfg.min_market_cap {
        return false;
    }
    if cfg.max_market_cap > 0 && token.market_cap > cfg.max_market_cap {
        return false;
    }
    if cfg.min_holders > 0 && token.holders < cfg.min_holders {
        return false;
    }
    if cfg.min_liquidity > 0 && token.liquidity < cfg.min_liquidity {
        return false;
    }
    if cfg.max_age_hours > 0 && token.age_hours > cfg.max_age_hours {
        return false;
    }
    if cfg.min_volume_24h > 0 && token.volume_24h < cfg.min_volume_24h {
        return false;
    }
    is_dense_enough(token, cfg.min_holder_density)
}

/// The strategies with their settings.
pub open spec fn strategies_of(p: StrategyParams, t: StrategyToggles) -> Seq<StrategyView> {
    let none = Map::<Seq<char>, Binary64>::empty();
    seq![
        StrategyView {
            strategy: TradingStrategy::Momentum,
            parameters: none.insert("min_price_change"@, p.min_price_change).insert(
                "min_volume_ratio"@,
                p.min_volume_ratio,
            ),
            enabled: t.momentum,
        },
        StrategyView {
            strategy: TradingStrategy::MeanReversion,
            parameters: none.insert("max_price_change"@, p.max_price_change).insert(
                "min_liquidity_ratio"@,
                p.min_liquidity_ratio,
            ),
            enabled: t.mean_reversion,
        },
        StrategyView {
            strategy: TradingStrategy::Breakout,
            parameters: none.insert("min_volume_spike"@, p.min_volume_spike).insert(
                "min_price_momentum"@,
                p.min_price_momentum,
            ),
            enabled: t.breakout,
        },
        StrategyView {
            strategy: TradingStrategy::VolumeSpike,
            parameters: none.insert("min_volume_multiplier"@, p.min_volume_multiplier).insert(
                "min_holder_count"@,
                p.min_holder_count,
            ),
            enabled: t.volume_spike,
        },
        StrategyView {
            strategy: TradingStrategy::HolderGrowth,
            parameters: none.insert("min_growth_holders"@, p.min_growth_holders).insert(
                "min_growth_market_cap"@,
                p.min_growth_market_cap,
            ),
            enabled: t.holder_growth,
        },
        StrategyView {
            strategy: TradingStrategy::LiquidityDepth,
            parameters: none.insert("min_liq_mcap_ratio"@, p.min_liq_mcap_ratio).insert(
                "min_liquidity_usd"@,
                p.min_liquidity_usd,
            ).insert("max_market_cap"@, p.liq_max_market_cap),
            enabled: t.liquidity_depth,
        },
        StrategyView {
            strategy: TradingStrategy::PumpSwapSniper,
            parameters: none.insert("ps_sniper_freshness_secs"@, p.ps_sniper_freshness_secs),
            enabled: t.ps_sniper,
        },
    ]
}

fn two_settings(first: &str, a: Binary64, second: &str, b: Binary64) -> (r: Keyed<Binary64>)
    ensures
        r@ == Map::<Seq<char>, Binary64>::empty().insert(first@, a).insert(second@, b),
{
    let mut settings: Keyed<Binary64> = Keyed::new();
    settings.insert(first.to_owned(), a);
    settings.insert(second.to_owned(), b);
    settings
}

/// Whether a strategy advises to buy a token.
pub open spec fn advises(s: StrategyView, token: TokenInfoView) -> bool {
    crate::strategies::strategy_signal(s.strategy, token, s.parameters) is Some
}

/// The settings are those by which the strategies decide: a strategy advises to buy a token just
/// where the token meets the thresholds that are set for it.
pub proof fn law_settings_decide(p: StrategyParams, t: StrategyToggles, token: TokenInfoView)
    ensures
        advises(strategies_of(p, t)[0], token) <==> p.min_price_change.le(token.price_change_24h)
            && p.min_volume_ratio.le(crate::strategies::volume_ratio(token)),
        advises(strategies_of(p, t)[1], token) <==> token.price_change_24h.le(p.max_price_change)
            && p.min_liquidity_ratio.le(crate::strategies::liquidity_ratio(token)),
        advises(strategies_of(p, t)[2], token) <==> p.min_price_momentum.le(token.price_change_24h)
            && p.min_volume_spike.le(crate::strategies::volume_ratio(token)),
        advises(strategies_of(p, t)[3], token) <==> token.holders >= p.min_holder_count.to_u32()
            && p.min_volume_multiplier.le(crate::strategies::volume_ratio(token)),
        advises(strategies_of(p, t)[4], token) <==> token.holders >= p.min_growth_holders.to_u32()
            && token.market_cap >= p.min_growth_market_cap.to_u64() && Binary64::ratio(1, 10).le(
            Binary64::from_u64(token.holders as u64).over(
                crate::strategies::market_cap_millions(token),
            ),
        ),
        advises(strategies_of(p, t)[5], token) <==> token.market_cap != 0 && token.liquidity
            >= p.min_liquidity_usd.to_u64() && token.market_cap <= p.liq_max_market_cap.to_u64()
            && p.min_liq_mcap_ratio.le(crate::strategies::liquidity_ratio(token)),
        advises(strategies_of(p, t)[6], token) <==> (match token.just_graduated_at_secs {
            Some(age) => age <= p.ps_sniper_freshness_secs.to_u64(),
            None => false,
        }),
{
    reveal_strlit("min_price_change");
    reveal_strlit("min_volume_ratio");
    reveal_strlit("max_price_change");
    reveal_strlit("min_liquidity_ratio");
    reveal_strlit("min_volume_spike");
    reveal_strlit("min_price_momentum");
    reveal_strlit("min_volume_multiplier");
    reveal_strlit("min_holder_count");
    reveal_strlit("min_growth_holders");
    reveal_strlit("min_growth_market_cap");
    reveal_strlit("min_liq_mcap_ratio");
    reveal_strlit("min_liquidity_usd");
    reveal_strlit("max_market_cap");
    assert("min_price_change"@[4] != "min_volume_ratio"@[4]);
    assert("max_price_change"@.len() != "min_liquidity_ratio"@.len());
    assert("min_volume_spike"@.len() != "min_price_momentum"@.len());
    assert("min_volume_multiplier"@.len() != "min_holder_count"@.len());
    assert("min_growth_holders"@.len() != "min_growth_market_cap"@.len());
    assert("min_liq_mcap_ratio"@.len() != "min_liquidity_usd"@.len());
    assert("min_liq_mcap_ratio"@.len() != "max_market_cap"@.len());
    assert("min_liquidity_usd"@.len() != "max_market_cap"@.len());
}

/// Builds the strategies with their settings.
pub fn build_strategies(p: &StrategyParams, t: &StrategyToggles) -> (r: Vec<StrategyConfig>)
    ensures
        crate::strategies::strategy_views(r@) == strategies_of(*p, *t),
{
    let mut liquidity: Keyed<Binary64> = two_settings(
        "min_liq_mcap_ratio",
        p.min_liq_mcap_ratio,
        "min_liquidity_usd",
        p.min_liquidity_usd,
    );
    liquidity.insert("max_market_cap".to_owned(), p.liq_max_market_cap);
    let mut sniper: Keyed<Binary64> = Keyed::new();
    sniper.insert("ps_sniper_freshness_secs".to_owned(), p.ps_sniper_freshness_secs);
    let mut r: Vec<StrategyConfig> = Vec::new();
    r.push(
        StrategyConfig {
            strategy: TradingStrategy::Momentum,
            parameters: two_settings(
                "min_price_change",
                p.min_price_change,
                "min_volume_ratio",
                p.min_volume_ratio,
            ),
            enabled: t.momentum,
        },
    );
    r.push(
        StrategyConfig {
            strategy: TradingStrategy::MeanReversion,
            parameters: two_settings(
                "max_price_change",
                p.max_price_change,
                "min_liquidity_ratio",
                p.min_liquidity_ratio,
            ),
            enabled: t.mean_reversion,
        },
    );
    r.push(
        StrategyConfig {
            strategy: TradingStrategy::Breakout,
            parameters: two_settings(
                "min_volume_spike",
                p.min_volume_spike,
                "min_price_momentum",
                p.min_price_momentum,
            ),
            enabled: t.breakout,
        },
    );
    r.push(
        StrategyConfig {
            strategy: TradingStrategy::VolumeSpike,
            parameters: two_settings(
                "min_volume_multiplier",
                p.min_volume_multiplier,
                "min_holder_count",
                p.min_holder_count,
            ),
            enabled: t.volume_spike,
        },
    );
    r.push(
        StrategyConfig {
            strategy: TradingStrategy::HolderGrowth,
            parameters: two_settings(
                "min_growth_holders",
                p.min_growth_holders,
                "min_growth_market_cap",
                p.min_growth_market_cap,
            ),
            enabled: t.holder_growth,
        },
    );
    r.push(
        StrategyConfig {
            strategy: TradingStrategy::LiquidityDepth,
            parameters: liquidity,
            enabled: t.liquidity_depth,
        },
    );
    r.push(
        StrategyConfig {
            strategy: TradingStrategy::PumpSwapSniper,
            parameters: sniper,
            enabled: t.ps_sniper,
        },
    );
    assert(crate::strategies::strategy_views(r@) =~= strategies_of(*p, *t));
    r
}

/// Signals that are confident enough to be acted on.
pub open spec fn confident(signals: Seq<SignalView>) -> Seq<SignalView>
    decreases signals.len(),
{
    if signals.len() == 0 {
        Seq::empty()
    } else if signals.last().confidence.lt(Binary64::ratio(1, 2)) {
        confident(signals.drop_last())
    } else {
        confident(signals.drop_last()).push(signals.last())
    }
}

fn keep_confident(signals: Vec<TradingSignal>) -> (r: Vec<TradingSignal>)
    ensures
        crate::strategies::signal_views(r@) == confident(
            crate::strategies::signal_views(signals@),
        ),
{
    let ghost all = crate::strategies::signal_views(signals@);
    let half = Binary64::ratio(1, 2);
    let mut rest: Vec<TradingSignal> = signals;
    let mut kept: Vec<TradingSignal> = Vec::new();
    let n: usize = rest.len();
    let mut i: usize = 0;
    assert(all.skip(0) =~= all);
    while i < n
        invariant
            i <= n,
            n == all.len(),
            half == Binary64::ratio(1, 2),
            crate::strategies::signal_views(rest@) =~= all.skip(i as int),
            crate::strategies::signal_views(kept@) =~= confident(all.take(i as int)),
        decreases n - i,
    {
        assert(all.take(i + 1).drop_last() =~= all.take(i as int));
        assert(crate::strategies::signal_views(rest@).len() == rest@.len());
        let ghost before = crate::strategies::signal_views(kept@);
        let ghost left = crate::strategies::signal_views(rest@);
        let signal: TradingSignal = rest.remove(0);
        assert(left[0] == signal@);
        assert(signal@ == all[i as int]);
        assert(crate::strategies::signal_views(rest@) =~= left.skip(1));
        if !signal.confidence.lt(half) {
            kept.push(signal);
            assert(crate::strategies::signal_views(kept@) =~= before.push(signal@));
        }
        i = i + 1;
    }
    assert(all.take(all.len() as int) =~= all);
    kept
}

/// Why a purchase of a target wallet is not copied.
#[derive(Clone, Copy, PartialEq, Eq, Structural, Debug)]
pub enum CopySkip {
    BlockedWallet,
    AlreadyHeld,
    LossCooldown,
    MaxPositions,
    Filtered,
    OnBondingCurve,
    Graduated,
    DryRun,
    NoSignals,
}

/// What a purchase of a target wallet leads to.
#[derive(Debug)]
pub enum CopyPlan {
    Skip(CopySkip),
    Trade(Vec<TradingSignal>),
}

pub enum CopyStep {
    Skip(CopySkip),
    Trade(Seq<SignalView>),
}

impl View for CopyPlan {
    type V = CopyStep;

    open spec fn view(&self) -> CopyStep {
        match self {
            CopyPlan::Skip(reason) => CopyStep::Skip(*reason),
            CopyPlan::Trade(signals) => CopyStep::Trade(
                crate::strategies::signal_views(signals@),
            ),
        }
    }
}

/// Signals, with what is to be done about them.
#[derive(Debug)]
pub enum Orders {
    Execute(Vec<TradingSignal>),
    /// In a dry run they are only shown.
    Show(Vec<TradingSignal>),
}

pub enum OrdersView {
    Execute(Seq<SignalView>),
    Show(Seq<SignalView>),
}

impl View for Orders {
    type V = OrdersView;

    open spec fn view(&self) -> OrdersView {
        match self {
            Orders::Execute(signals) => OrdersView::Execute(
                crate::strategies::signal_views(signals@),
            ),
            Orders::Show(signals) => OrdersView::Show(crate::strategies::signal_views(signals@)),
        }
    }
}

/// What is to be done about signals.
pub open spec fn orders_for(dry_run: bool, signals: Seq<SignalView>) -> OrdersView {
    if dry_run {
        OrdersView::Show(signals)
    } else {
        OrdersView::Execute(signals)
    }
}

/// What the bot holds besides what it is made of.
#[verifier::ext_equal]
pub struct BotNotes {
    /// When tokens were last sold at a loss.
    pub losses: Map<Seq<char>, Instant>,
    /// Wallets that are not followed any more.
    pub blocked: Set<Seq<char>>,
    /// Tokens whose graduation was acted on.
    pub sniped: Set<Seq<char>>,
}

/// What wakes the bot.
#[derive(Clone, Copy, PartialEq, Eq, Structural, Debug)]
pub enum Wake {
    /// The trending lists are to be read.
    Discovery,
    /// The positions are to be priced.
    ExitCheck,
    /// A target wallet bought.
    Copy,
    /// A token was launched.
    Launch,
    /// A token graduated.
    Graduation,
    /// The watchlist is to be looked through.
    Watchlist,
    /// The market figures of the positions are to be refreshed.
    Enrichment,
    /// The state of the bot is to be told.
    Status,
}

/// Whether there is anything to do: with so many positions and so many tokens watched.
pub open spec fn acts(config: Config, held: nat, watched: nat, wake: Wake) -> bool {
    match wake {
        Wake::Discovery | Wake::Copy | Wake::Status => true,
        Wake::ExitCheck | Wake::Enrichment => held > 0,
        Wake::Launch => config.new_token_event_feed,
        Wake::Graduation => config.strategies.ps_sniper,
        Wake::Watchlist => config.new_token_event_feed && watched > 0,
    }
}

/// The feeds that are asked or listened to.
#[derive(Clone, Copy, PartialEq, Eq, Structural, Debug)]
pub struct Feeds {
    pub birdeye: bool,
    pub geckoterminal: bool,
    pub target_wallets: bool,
    pub launches: bool,
    pub graduations: bool,
}

/// The feeds that are switched on. Birdeye takes a key, and wallets have to be named to be
/// followed.
pub open spec fn feeds_of(config: Config, targets: nat) -> Feeds {
    Feeds {
        birdeye: config.birdeye_token_feed && config.birdeye.api_key@.len() > 0,
        geckoterminal: config.coingecko_token_feed,
        target_wallets: config.target_wallet_token_feed && targets > 0,
        launches: config.new_token_event_feed,
        graduations: config.strategies.ps_sniper,
    }
}

/// Whether a graduation was not acted on before.
pub open spec fn is_new_graduation(notes: BotNotes, mint: Seq<char>) -> bool {
    !notes.sniped.contains(mint)
}

/// What is remembered once a graduation has been told of.
pub open spec fn after_graduation(notes: BotNotes, mint: Seq<char>) -> BotNotes {
    BotNotes { sniped: notes.sniped.insert(mint), ..notes }
}

/// What is remembered once graduations have been told of in turn.
pub open spec fn after_graduations(notes: BotNotes, mints: Seq<Seq<char>>) -> BotNotes
    decreases mints.len(),
{
    if mints.len() == 0 {
        notes
    } else {
        after_graduation(after_graduations(notes, mints.drop_last()), mints.last())
    }
}

/// What the bot is made of.
pub struct TradingBot {
    pub config: Config,
    pub strategy_engine: StrategyEngine,
    pub trading_engine: TradingEngine,
    pub monitoring: MonitoringSystem,
    pub dry_run: bool,
    pub target_wallets: Vec<Pubkey>,
    pub wss_url: String,
    pub wallet_scorer: WalletScorer,
    pub new_token_monitor: NewTokenMonitor,
    pub memory: BotMemory,
}

/// What the bot remembers while it runs.
pub struct BotMemory {
    loss_cooldown: Keyed<Instant>,
    blocked_wallets: Keyed<bool>,
    sniped_mints: Keyed<bool>,
}

impl View for BotMemory {
    type V = BotNotes;

    closed spec fn view(&self) -> BotNotes {
        BotNotes {
            losses: self.loss_cooldown@,
            blocked: self.blocked_wallets@.dom(),
            sniped: self.sniped_mints@.dom(),
        }
    }
}

impl BotMemory {
    pub fn new() -> (r: Self)
        ensures
            r@ == (BotNotes {
                losses: Map::empty(),
                blocked: Set::empty(),
                sniped: Set::empty(),
            }),
    {
        let r = BotMemory {
            loss_cooldown: Keyed::new(),
            blocked_wallets: Keyed::new(),
            sniped_mints: Keyed::new(),
        };
        assert(r@.blocked =~= Set::<Seq<char>>::empty());
        assert(r@.sniped =~= Set::<Seq<char>>::empty());
        r
    }

    /// Whether a wallet is not followed any more.
    pub fn is_blocked(&self, wallet: &str) -> (r: bool)
        ensures
            r == self@.blocked.contains(wallet@),
    {
        self.blocked_wallets.contains_key(wallet)
    }

    /// Follows a wallet no more.
    pub fn block(&mut self, wallet: &str)
        ensures
            final(self)@ == (BotNotes {
                blocked: old(self)@.blocked.insert(wallet@),
                ..old(self)@
            }),
    {
        self.blocked_wallets.insert(wallet.to_owned(), true);
        assert(self@.blocked =~= old(self)@.blocked.insert(wallet@));
    }

    /// Whether a token was sold at a loss so lately that it is not copied.
    pub fn recently_lost(&self, mint: &str, minutes: u32, now: Instant) -> (r: bool)
        ensures
            r == in_loss_cooldown(self@.losses, mint@, minutes, now),
    {
        if minutes > 0 {
            if let Some(lost_at) = self.loss_cooldown.get(mint) {
                return !now.elapsed_minutes(*lost_at, minutes as u64);
            }
        }
        false
    }

    /// Remembers that a token was sold at a loss.
    pub fn note_loss(&mut self, mint: &str, now: Instant)
        ensures
            final(self)@ == (BotNotes {
                losses: old(self)@.losses.insert(mint@, now),
                ..old(self)@
            }),
    {
        self.loss_cooldown.insert(mint.to_owned(), now);
    }

    /// Remembers that the graduation of a token was acted on. Says whether that is new.
    pub fn note_snipe(&mut self, mint: &str) -> (r: bool)
        ensures
            r == !old(self)@.sniped.contains(mint@),
            final(self)@ == (BotNotes {
                sniped: old(self)@.sniped.insert(mint@),
                ..old(self)@
            }),
    {
        if self.sniped_mints.contains_key(mint) {
            assert(self@.sniped.insert(mint@) =~= self@.sniped);
            return false;
        }
        self.sniped_mints.insert(mint.to_owned(), true);
        assert(self@.sniped =~= old(self)@.sniped.insert(mint@));
        true
    }
}

/// Whether a token was sold at a loss so lately that it is not copied.
pub open spec fn in_loss_cooldown(
    losses: Map<Seq<char>, Instant>,
    mint: Seq<char>,
    minutes: u32,
    now: Instant,
) -> bool {
    minutes > 0 && losses.dom().contains(mint) && !now.elapsed_minutes(losses[mint], minutes as u64)
}

/// Whether a purchase is passed over before anything is asked about the token.
pub open spec fn copy_gate(
    notes: BotNotes,
    e: EngineView,
    config: Config,
    mint: Seq<char>,
    wallet: Option<Seq<char>>,
    now: Instant,
) -> Option<CopySkip> {
    if wallet is Some && notes.blocked.contains(wallet->0) {
        Some(CopySkip::BlockedWallet)
    } else if e.positions.dom().contains(mint) {
        Some(CopySkip::AlreadyHeld)
    } else if in_loss_cooldown(
        notes.losses,
        mint,
        config.copybotfilters.loss_cooldown_minutes,
        now,
    ) {
        Some(CopySkip::LossCooldown)
    } else if e.positions.dom().len() >= config.trading.max_positions {
        Some(CopySkip::MaxPositions)
    } else {
        None
    }
}

/// The signal that copies a purchase without analysis.
pub open spec fn direct_copy(token: TokenInfoView, lamports: u64) -> SignalView {
    SignalView {
        token,
        action: Action::Buy,
        confidence: Binary64::from_u64(1),
        reason: Reason::CopyTrade,
        expected_price: None,
        override_buy_amount: Some(lamports),
    }
}

/// What a purchase leads to once the token is known.
pub open spec fn copy_step(
    config: Config,
    strategies: Seq<StrategyView>,
    dry_run: bool,
    token: TokenInfoView,
    on_curve: bool,
) -> CopyStep {
    let signals = crate::strategies::all_signals(strategies, token);
    if !copy_meets(config.copybotfilters, token) {
        CopyStep::Skip(CopySkip::Filtered)
    } else if on_curve && !config.pumpfun_enabled {
        CopyStep::Skip(CopySkip::OnBondingCurve)
    } else if !on_curve && !config.pumpswap_enabled {
        CopyStep::Skip(CopySkip::Graduated)
    } else if dry_run {
        CopyStep::Skip(CopySkip::DryRun)
    } else if !config.copybotfilters.analysis_step {
        CopyStep::Trade(seq![direct_copy(token, config.trading.max_buy_amount)])
    } else if signals.len() == 0 {
        CopyStep::Skip(CopySkip::NoSignals)
    } else {
        CopyStep::Trade(confident(signals))
    }
}

/// The SOL that a signal is journalled with.
pub open spec fn journalled_sol(signal: SignalView, max_buy_amount: u64) -> Binary64 {
    sol(
        match signal.override_buy_amount {
            Some(amount) => amount,
            None => max_buy_amount,
        },
    )
}

/// What is told of a token that was sold: DexScreener's figures where there are any, and in any
/// case the price of the sale.
pub open spec fn exit_token(
    address: Seq<char>,
    enriched: Seq<TokenInfoView>,
    price: Binary64,
) -> TokenInfoView {
    if enriched.len() > 0 {
        TokenInfoView { price_usd: price, ..enriched[0] }
    } else {
        crate::pumpportal::unlisted_token(address, "UNKNOWN"@, "Unknown"@, price, ""@, None)
    }
}

/// Whether a sale lost: less came in than was spent, or, where that is not known, the price was
/// below the entry price.
pub open spec fn is_loss(trade: TradeView, brief: PositionBrief, exit_price: Binary64) -> bool {
    match trade.sol_received {
        Some(received) => received.lt(brief.sol_spent),
        None => exit_price.lt(brief.entry_price),
    }
}

/// The result of a sale in SOL, zero where it is not known.
pub open spec fn realized_sol(trade: TradeView, brief: PositionBrief) -> Binary64 {
    match trade.sol_received {
        Some(received) => received.minus(brief.sol_spent),
        None => Binary64::from_u64(0),
    }
}

/// The scores after a sale.
pub open spec fn scores_after(
    scores: Map<Seq<char>, WalletScoreEntry>,
    config: Config,
    brief: PositionBrief,
    trade: TradeView,
) -> Map<Seq<char>, WalletScoreEntry> {
    let c = config.walletscoring;
    match brief.source_wallet {
        Some(wallet) if c.enabled => scores.insert(
            wallet@,
            crate::scoring::scored(
                crate::scoring::entry_or_new(scores, wallet@, c.initial_score),
                realized_sol(trade, brief),
                c,
            ),
        ),
        _ => scores,
    }
}

/// The wallet that is dropped after a sale.
pub open spec fn dropped_wallet(
    scores: Map<Seq<char>, WalletScoreEntry>,
    config: Config,
    brief: PositionBrief,
    trade: TradeView,
) -> Option<Seq<char>> {
    match brief.source_wallet {
        Some(wallet) if config.walletscoring.enabled && crate::scoring::removal_due(
            scores_after(scores, config, brief, trade),
            wallet@,
            config.walletscoring,
        ) => Some(wallet@),
        _ => None,
    }
}

/// The notes after a sale.
pub open spec fn notes_after(
    notes: BotNotes,
    address: Seq<char>,
    lost: bool,
    now: Instant,
    removed: Option<Seq<char>>,
) -> BotNotes {
    BotNotes {
        losses: if lost {
            notes.losses.insert(address, now)
        } else {
            notes.losses
        },
        blocked: match removed {
            Some(wallet) => notes.blocked.insert(wallet),
            None => notes.blocked,
        },
        ..notes
    }
}

/// A sale can be taken into the scores.
pub open spec fn scorable(
    scores: Map<Seq<char>, WalletScoreEntry>,
    config: Config,
    brief: PositionBrief,
) -> bool {
    let c = config.walletscoring;
    brief.source_wallet matches Some(wallet) ==> c.enabled ==> {
        &&& c.min_score.le(c.max_score)
        &&& crate::scoring::entry_or_new(scores, wallet@, c.initial_score).trades < u32::MAX
    }
}

/// What is left to do after a sale: the entry for the journal, and the wallet that is to be
/// taken out of the environment file.
#[derive(Debug)]
pub struct ExitFollowUp {
    pub entry: SellEntry,
    pub removed_wallet: Option<String>,
}

/// What an earlier run and the environment leave to a bot.
pub struct BotParts {
    pub wallet: WalletManager,
    pub thresholds: Vec<Tier>,
    /// The file of positions, where there is one that can be parsed.
    pub stored: Option<StoredSnapshot>,
    pub scores: Keyed<WalletScoreEntry>,
    pub target_list: String,
    pub now: Timestamp,
}

impl TradingBot {
    pub fn new(config: Config, dry_run: bool, parts: BotParts) -> (r: Self)
        ensures
            r.config == config,
            r.dry_run == dry_run,
            r.strategy_engine@ == strategies_of(config.params, config.strategies),
            r.trading_engine@ == (EngineView {
                keypair: parts.wallet@,
                positions: crate::storage::loaded_positions(parts.stored),
                trades: Seq::empty(),
                settings: (crate::trading::EngineSettings {
                    max_positions: config.trading.max_positions,
                    max_buy_amount: config.trading.max_buy_amount,
                    max_slippage: config.trading.max_slippage,
                    cooldown_seconds: config.trading.cooldown_seconds,
                    levels: (crate::exits::ExitLevels {
                        profit_target_percent: config.trading.profit_target_percent,
                        stop_loss_percent: config.trading.stop_loss_percent,
                        strategies: config.exitstrategies,
                    }),
                }),
                last_trade_time: crate::storage::loaded_times(parts.stored),
                tiers: parts.thresholds@,
                pools: Map::empty(),
            }),
            r.monitoring@.metrics == crate::monitoring::initial_metrics(parts.now),
            r.monitoring@.alerts == Seq::<crate::monitoring::AlertView>::empty(),
            r.monitoring@.start_time == parts.now,
            r.monitoring@.thresholds == config.monitoring.alert_thresholds,
            crate::trading::text_view(r.monitoring@.webhook_url) == crate::trading::text_view(
                config.monitoring.webhook_url,
            ),
            crate::pools::key_views(r.target_wallets@) == crate::pools::keys_among(
                crate::scoring::wallet_names(parts.target_list@),
            ),
            r.wss_url@ == crate::feeds::socket_scheme(config.rpc_url@),
            r.wallet_scorer@ == crate::scoring::with_wallets(
                parts.scores@,
                crate::scoring::wallet_names(parts.target_list@),
                config.walletscoring.initial_score,
            ),
            r.new_token_monitor@ == (crate::tokens::MonitorView {
                watchlist: Map::empty(),
                filters: config.newtokenfilters,
                forwards: config.strategies.ps_sniper,
            }),
            r.memory@ == (BotNotes {
                losses: Map::empty(),
                blocked: Set::empty(),
                sniped: Set::empty(),
            }),
    {
        let strategy_engine = StrategyEngine::new(
            build_strategies(&config.params, &config.strategies),
        );
        let trading_engine = TradingEngine::new(
            &parts.wallet,
            config.trading.max_positions,
            config.trading.max_buy_amount,
            config.trading.max_slippage,
            config.trading.profit_target_percent,
            config.trading.stop_loss_percent,
            config.trading.cooldown_seconds,
            parts.thresholds,
            config.exitstrategies,
            TradingEngine::load_positions(parts.stored),
        );
        let monitoring = MonitoringSystem::new(
            crate::journal::copy_text(&config.monitoring.webhook_url),
            config.monitoring.alert_thresholds,
            parts.now,
        );
        let names: Vec<String> = crate::scoring::parse_wallet_list(parts.target_list.as_str());
        let target_wallets: Vec<Pubkey> = crate::pools::parse_keys(&names, names.len());
        proof {
            let all = crate::text::texts(names@);
            assert(all.take(all.len() as int) =~= all);
        }
        let wss_url: String = crate::feeds::socket_url(config.rpc_url.as_str());
        let wallet_scorer = WalletScorer::load(
            parts.scores,
            parts.target_list.as_str(),
            config.walletscoring.initial_score,
        );
        let mut new_token_monitor = NewTokenMonitor::new(config.newtokenfilters);
        if config.strategies.ps_sniper {
            new_token_monitor.set_migration_tx();
        }
        let r = TradingBot {
            config,
            strategy_engine,
            trading_engine,
            monitoring,
            dry_run,
            target_wallets,
            wss_url,
            wallet_scorer,
            new_token_monitor,
            memory: BotMemory::new(),
        };
        r
    }

    /// The feeds that are asked or listened to.
    pub fn feeds(&self) -> (r: Feeds)
        ensures
            r == feeds_of(self.config, self.target_wallets@.len()),
    {
        Feeds {
            birdeye: self.config.birdeye_token_feed
                && !self.config.birdeye.api_key.as_str().is_empty(),
            geckoterminal: self.config.coingecko_token_feed,
            target_wallets: self.config.target_wallet_token_feed && self.target_wallets.len() > 0,
            launches: self.config.new_token_event_feed,
            graduations: self.config.strategies.ps_sniper,
        }
    }

    /// Whether there is anything to do.
    pub fn acts_on(&self, wake: Wake) -> (r: bool)
        ensures
            r == acts(
                self.config,
                self.trading_engine@.positions.dom().len(),
                self.new_token_monitor@.watchlist.dom().len(),
                wake,
            ),
    {
        match wake {
            Wake::Discovery | Wake::Copy | Wake::Status => true,
            Wake::ExitCheck | Wake::Enrichment => {
                let positions = self.trading_engine.get_positions();
                assert(crate::trading::position_views(positions@).dom() =~= positions@.dom());
                positions.len() > 0
            },
            Wake::Launch => self.config.new_token_event_feed,
            Wake::Graduation => self.config.strategies.ps_sniper,
            Wake::Watchlist => self.config.new_token_event_feed
                && self.new_token_monitor.watchlist_len() > 0,
        }
    }

    /// Whether a purchase of a target wallet is passed over before anything is asked about the
    /// token.
    pub fn begin_copy(&self, mint: &str, target_wallet: &Option<String>, now: Instant) -> (r: Option<
        CopySkip,
    >)
        ensures
            r == copy_gate(
                self.memory@,
                self.trading_engine@,
                self.config,
                mint@,
                crate::trading::text_view(*target_wallet),
                now,
            ),
    {
        if let Some(wallet) = target_wallet {
            if self.memory.is_blocked(wallet.as_str()) {
                return Some(CopySkip::BlockedWallet);
            }
        }
        if self.trading_engine.has_position(mint) {
            return Some(CopySkip::AlreadyHeld);
        }
        if self.memory.recently_lost(
            mint,
            self.config.copybotfilters.loss_cooldown_minutes,
            now,
        ) {
            return Some(CopySkip::LossCooldown);
        }
        let positions = self.trading_engine.get_positions();
        assert(positions@.dom() =~= self.trading_engine@.positions.dom());
        if positions.len() >= self.config.trading.max_positions {
            return Some(CopySkip::MaxPositions);
        }
        None
    }

    /// The token that a target wallet bought, as far as it is known.
    pub fn copied_token(mint: &str, enriched: &Vec<TokenInfo>, created_at: &str) -> (r: TokenInfo)
        requires
            enriched@.len() == 0 ==> crate::text::can_abbreviate(mint@),
        ensures
            enriched@.len() > 0 ==> r@ == enriched@[0]@,
            enriched@.len() == 0 ==> r@ == crate::pumpportal::unlisted_token(
                mint@,
                crate::text::abbreviation(mint@),
                "COPY_TRADE"@,
                Binary64::from_u64(0),
                created_at@,
                None,
            ),
    {
        if enriched.len() > 0 {
            enriched[0].clone()
        } else {
            let symbol: String = crate::text::abbreviate(mint);
            TokenInfo::unlisted(
                mint,
                symbol.as_str(),
                "COPY_TRADE",
                Binary64::from_u64(0),
                created_at,
                None,
            )
        }
    }

    /// Whether it matters where a token is traded.
    pub fn asks_for_venue(&self) -> (r: bool)
        ensures
            r == !(self.config.pumpfun_enabled && self.config.pumpswap_enabled),
    {
        !self.config.pumpfun_enabled || !self.config.pumpswap_enabled
    }

    /// Decides what a purchase of a target wallet leads to. Where it does not matter where the
    /// token is traded, `on_curve` may be either.
    pub fn process_copy_trade(&self, token: &TokenInfo, on_curve: bool) -> (r: CopyPlan)
        ensures
            r@ == copy_step(
                self.config,
                self.strategy_engine@,
                self.dry_run,
                token@,
                on_curve,
            ),
    {
        if !passes_copybot_filters(&self.config.copybotfilters, token) {
            return CopyPlan::Skip(CopySkip::Filtered);
        }
        if on_curve && !self.config.pumpfun_enabled {
            return CopyPlan::Skip(CopySkip::OnBondingCurve);
        }
        if !on_curve && !self.config.pumpswap_enabled {
            return CopyPlan::Skip(CopySkip::Graduated);
        }
        if self.dry_run {
            return CopyPlan::Skip(CopySkip::DryRun);
        }
        if self.config.copybotfilters.analysis_step {
            let signals: Vec<TradingSignal> = self.strategy_engine.analyze_token(token);
            assert(crate::strategies::signal_views(signals@).len() == signals@.len());
            if signals.len() == 0 {
                return CopyPlan::Skip(CopySkip::NoSignals);
            }
            CopyPlan::Trade(keep_confident(signals))
        } else {
            let signal = TradingSignal {
                token: token.clone(),
                action: Action::Buy,
                confidence: Binary64::from_u64(1),
                reason: Reason::CopyTrade,
                expected_price: None,
                override_buy_amount: Some(self.config.trading.max_buy_amount),
            };
            let mut signals: Vec<TradingSignal> = Vec::new();
            signals.push(signal);
            assert(crate::strategies::signal_views(signals@) =~= seq![signal@]);
            CopyPlan::Trade(signals)
        }
    }

    /// The SOL that a signal is journalled with.
    pub fn sol_for(&self, signal: &TradingSignal) -> (r: Binary64)
        ensures
            r == journalled_sol(signal@, self.config.trading.max_buy_amount),
    {
        match signal.override_buy_amount {
            Some(amount) => sol(amount),
            None => sol(self.config.trading.max_buy_amount),
        }
    }

    /// Takes in a buy that was made, after a target wallet or not. Gives its entry in the
    /// journal.
    pub fn buy_made(
        &mut self,
        token: &TokenInfo,
        mint: &str,
        sol_spent: Binary64,
        source_wallet: &Option<String>,
        trade: Trade,
        now: Timestamp,
    ) -> (r: BuyEntry)
        ensures
            r@ == crate::journal::buy_entry(
                token@,
                trade@,
                sol_spent,
                crate::trading::text_view(*source_wallet),
                now,
            ),
            final(self).trading_engine@ == with_buy(
                old(self).trading_engine@,
                mint@,
                crate::trading::text_view(*source_wallet),
                trade@,
            ),
            *final(self) == (TradingBot { trading_engine: final(self).trading_engine, ..*old(self) }),
    {
        if let Some(wallet) = source_wallet {
            self.trading_engine.set_position_source_wallet(mint, wallet.clone());
        }
        let entry: BuyEntry = log_buy(token, &trade, sol_spent, source_wallet, now);
        self.trading_engine.add_trade(trade);
        entry
    }

    /// Whether a trending token goes to the strategies: it is not held, and meets the filters.
    pub fn considers(&self, token: &TokenInfo) -> (r: bool)
        ensures
            r == (!self.trading_engine@.positions.dom().contains(token.address@) && trending_meets(
                self.config.trendingtokenfilters,
                token@,
            )),
            r == considered(self.trading_engine@, self.config.trendingtokenfilters, token@),
    {
        !self.trading_engine.has_position(token.address.as_str()) && passes_trending_filters(
            &self.config.trendingtokenfilters,
            token,
        )
    }

    fn orders(&self, signals: Vec<TradingSignal>) -> (r: Orders)
        ensures
            r@ == orders_for(self.dry_run, crate::strategies::signal_views(signals@)),
    {
        if self.dry_run {
            Orders::Show(signals)
        } else {
            Orders::Execute(signals)
        }
    }

    /// What the strategies make of a token: the signals that are confident enough.
    pub fn analyze_and_trade_token(&self, token: &TokenInfo) -> (r: Orders)
        ensures
            r@ == orders_for(
                self.dry_run,
                confident(crate::strategies::all_signals(self.strategy_engine@, token@)),
            ),
            r@ == token_orders(self.dry_run, self.strategy_engine@, token@),
    {
        self.orders(keep_confident(self.strategy_engine.analyze_token(token)))
    }

    /// What the prices that were found for positions lead to.
    pub fn check_exit_conditions(&mut self, readings: &Vec<PriceReading>) -> (r: Orders)
        requires
            crate::trading::countable(
                old(self).trading_engine@,
                crate::trading::reading_views(readings@),
            ),
        ensures
            r@ == orders_for(
                old(self).dry_run,
                crate::trading::reading_signals(
                    old(self).trading_engine@,
                    crate::trading::reading_views(readings@),
                ),
            ),
            final(self).trading_engine@ == crate::trading::after_readings(
                old(self).trading_engine@,
                crate::trading::reading_views(readings@),
            ),
            *final(self) == (TradingBot {
                trading_engine: final(self).trading_engine,
                ..*old(self)
            }),
    {
        let signals: Vec<TradingSignal> = self.trading_engine.check_exit_conditions(readings);
        self.orders(signals)
    }

    /// Takes in a graduation. Gives the token for the strategies, unless the graduation was
    /// acted on before.
    pub fn process_graduation(&mut self, event: &MigrationEvent, created_at: &str) -> (r: Option<
        TokenInfo,
    >)
        requires
            crate::text::can_abbreviate(event.mint@),
        ensures
            r is Some == is_new_graduation(old(self).memory@, event.mint@),
            r matches Some(token) ==> token@ == crate::pumpportal::unlisted_token(
                event.mint@,
                crate::text::abbreviation(event.mint@),
                "GRADUATED"@,
                Binary64::from_u64(0),
                created_at@,
                Some(0),
            ),
            final(self).memory@ == after_graduation(old(self).memory@, event.mint@),
            *final(self) == (TradingBot { memory: final(self).memory, ..*old(self) }),
    {
        let mint: &str = event.mint.as_str();
        if !self.memory.note_snipe(mint) {
            return None;
        }
        let symbol: String = crate::text::abbreviate(mint);
        Some(
            TokenInfo::unlisted(
                mint,
                symbol.as_str(),
                "GRADUATED",
                Binary64::from_u64(0),
                created_at,
                Some(0),
            ),
        )
    }

    /// What is to be remembered of a position that is about to be sold.
    pub fn position_brief(&self, address: &str) -> (r: Option<PositionBrief>)
        ensures
            match r {
                Some(brief) => {
                    let position = self.trading_engine@.positions[address@];
                    &&& self.trading_engine@.positions.dom().contains(address@)
                    &&& brief.entry_price == position.entry_price
                    &&& brief.sol_spent == position.sol_spent
                    &&& brief.peak_pnl_percent == position.peak_pnl_percent
                    &&& crate::trading::text_view(brief.source_wallet) == position.source_wallet
                },
                None => !self.trading_engine@.positions.dom().contains(address@),
            },
    {
        let positions = self.trading_engine.get_positions();
        assert(positions@.dom() =~= self.trading_engine@.positions.dom());
        match positions.get(address) {
            Some(position) => {
                assert(self.trading_engine@.positions[address@] == position@);
                Some(
                    PositionBrief {
                        entry_price: position.entry_price,
                        sol_spent: position.sol_spent,
                        peak_pnl_percent: position.peak_pnl_percent,
                        source_wallet: crate::journal::copy_text(&position.source_wallet),
                    },
                )
            },
            None => None,
        }
    }

    /// Whether the result of a sale can be taken into the scores.
    pub fn can_score(&self, brief: &PositionBrief) -> (r: bool)
        ensures
            r == scorable(self.wallet_scorer@, self.config, *brief),
    {
        let c = &self.config.walletscoring;
        match &brief.source_wallet {
            Some(wallet) => !c.enabled || (c.min_score.le(c.max_score)
                && self.wallet_scorer.get_trades(wallet.as_str()) < u32::MAX),
            None => true,
        }
    }

    /// Takes in a sale that was made: a loss starts the token's cooldown, and the wallet after
    /// which the position was opened is scored, and dropped where its score calls for it.
    pub fn sale_made(
        &mut self,
        signal: &TradingSignal,
        brief: &PositionBrief,
        trade: Trade,
        enriched: &Vec<TokenInfo>,
        now: Timestamp,
        instant: Instant,
    ) -> (r: ExitFollowUp)
        requires
            scorable(old(self).wallet_scorer@, old(self).config, *brief),
        ensures
            r.entry@ == crate::journal::sell_entry(
                signal.token.address@,
                *brief,
                exit_token(
                    signal.token.address@,
                    crate::trading::token_views(enriched@),
                    signal.token.price_usd,
                ),
                trade@,
                signal.reason,
                now,
            ),
            crate::trading::text_view(r.removed_wallet) == dropped_wallet(
                old(self).wallet_scorer@,
                old(self).config,
                *brief,
                trade@,
            ),
            final(self).wallet_scorer@ == scores_after(
                old(self).wallet_scorer@,
                old(self).config,
                *brief,
                trade@,
            ),
            final(self).memory@ == notes_after(
                old(self).memory@,
                signal.token.address@,
                is_loss(trade@, *brief, signal.token.price_usd),
                instant,
                crate::trading::text_view(r.removed_wallet),
            ),
            final(self).trading_engine@ == (EngineView {
                trades: old(self).trading_engine@.trades.push(trade@),
                ..old(self).trading_engine@
            }),
            *final(self) == (TradingBot { trading_engine: final(self).trading_engine, wallet_scorer: final(self).wallet_scorer, memory: final(self).memory, ..*old(self) }),
    {
        let address: &str = signal.token.address.as_str();
        let price = signal.token.price_usd;
        let mut told: TokenInfo = if enriched.len() > 0 {
            enriched[0].clone()
        } else {
            TokenInfo::unlisted(address, "UNKNOWN", "Unknown", price, "", None)
        };
        told.price_usd = price;
        assert(told@ =~= exit_token(address@, crate::trading::token_views(enriched@), price));
        let entry: SellEntry = log_sell(address, brief, &told, &trade, signal.reason, now);
        let lost: bool = match trade.sol_received {
            Some(received) => received.lt(brief.sol_spent),
            None => price.lt(brief.entry_price),
        };
        if lost {
            self.memory.note_loss(address, instant);
        }
        let mut removed_wallet: Option<String> = None;
        if self.config.walletscoring.enabled {
            if let Some(wallet) = &brief.source_wallet {
                let pnl_sol = match trade.sol_received {
                    Some(received) => received.minus(brief.sol_spent),
                    None => Binary64::from_u64(0),
                };
                self.wallet_scorer.update(wallet.as_str(), pnl_sol, &self.config.walletscoring);
                if self.wallet_scorer.should_remove(wallet.as_str(), &self.config.walletscoring) {
                    self.memory.block(wallet.as_str());
                    removed_wallet = Some(wallet.clone());
                }
            }
        }
        self.trading_engine.add_trade(trade);
        ExitFollowUp { entry, removed_wallet }
    }

    /// Brings the metrics up to date.
    pub fn update_monitoring(&mut self, now: Timestamp, ids: AlertIds)
        requires
            crate::monitoring::volume(old(self).trading_engine@.trades) <= u64::MAX,
        ensures
            final(self).monitoring@.metrics == crate::monitoring::metrics_of(
                old(self).monitoring@.metrics,
                old(self).trading_engine@.trades,
                old(self).trading_engine@.positions.dom().len(),
                old(self).monitoring@.start_time,
                now,
            ),
            final(self).monitoring@.alerts == old(self).monitoring@.alerts
                + crate::monitoring::alerts_of(
                final(self).monitoring@.metrics,
                old(self).monitoring@.thresholds,
                ids,
                now,
            ),
            final(self).monitoring@ == (crate::monitoring::MonitoringView {
                metrics: final(self).monitoring@.metrics,
                alerts: final(self).monitoring@.alerts,
                ..old(self).monitoring@
            }),
            *final(self) == (TradingBot { monitoring: final(self).monitoring, ..*old(self) }),
    {
        let positions = self.trading_engine.get_positions();
        assert(positions@.dom() =~= self.trading_engine@.positions.dom());
        let open: usize = positions.len();
        self.monitoring.update_metrics(self.trading_engine.get_trade_history(), open, now, ids);
    }
}

/// The engine after a buy was taken in.
pub open spec fn with_buy(
    e: EngineView,
    mint: Seq<char>,
    source_wallet: Option<Seq<char>>,
    trade: TradeView,
) -> EngineView {
    EngineView {
        positions: if source_wallet is Some && e.positions.dom().contains(mint) {
            e.positions.insert(
                mint,
                crate::trading::PositionView {
                    source_wallet: source_wallet,
                    ..e.positions[mint]
                },
            )
        } else {
            e.positions
        },
        trades: e.trades.push(trade),
        ..e
    }
}

proof fn lemma_confident(signals: Seq<SignalView>)
    ensures
        forall|i: int|
            0 <= i < confident(signals).len() ==> {
                &&& !(#[trigger] confident(signals)[i]).confidence.lt(Binary64::ratio(1, 2))
                &&& signals.contains(confident(signals)[i])
            },
    decreases signals.len(),
{
    if signals.len() > 0 {
        let front = signals.drop_last();
        lemma_confident(front);
        let kept = confident(front);
        let all = confident(signals);
        assert forall|i: int| 0 <= i < all.len() implies {
            &&& !(#[trigger] all[i]).confidence.lt(Binary64::ratio(1, 2))
            &&& signals.contains(all[i])
        } by {
            if i < kept.len() {
                assert(all[i] == kept[i]);
                let j = choose|j: int| 0 <= j < front.len() && front[j] == kept[i];
                assert(signals[j] == all[i]);
            } else {
                assert(signals[signals.len() - 1] == all[i]);
            }
        }
    }
}

/// No signal of less than half confidence is acted on, and none is made up.
pub proof fn law_weak_signals_are_dropped(signals: Seq<SignalView>, i: int)
    requires
        0 <= i < confident(signals).len(),
    ensures
        !confident(signals)[i].confidence.lt(Binary64::ratio(1, 2)),
        signals.contains(confident(signals)[i]),
{
    lemma_confident(signals);
}

/// A dry run acts on nothing: neither on the strategies' signals nor on exits nor on copies.
pub proof fn law_dry_run_trades_nothing(
    signals: Seq<SignalView>,
    config: Config,
    strategies: Seq<StrategyView>,
    token: TokenInfoView,
    on_curve: bool,
)
    ensures
        orders_for(true, signals) is Show,
        copy_step(config, strategies, true, token, on_curve) is Skip,
{
}

/// A wallet that is blocked is never followed.
pub proof fn law_blocked_wallets_are_not_followed(
    notes: BotNotes,
    e: EngineView,
    config: Config,
    mint: Seq<char>,
    wallet: Seq<char>,
    now: Instant,
)
    requires
        notes.blocked.contains(wallet),
    ensures
        copy_gate(notes, e, config, mint, Some(wallet), now) == Some(CopySkip::BlockedWallet),
{
}

/// A token that was sold at a loss is not copied until its cooldown has passed.
pub proof fn law_losses_start_a_cooldown(
    notes: BotNotes,
    e: EngineView,
    config: Config,
    mint: Seq<char>,
    wallet: Option<Seq<char>>,
    removed: Option<Seq<char>>,
    sold_at: Instant,
    now: Instant,
)
    requires
        config.copybotfilters.loss_cooldown_minutes > 0,
        !now.elapsed_minutes(sold_at, config.copybotfilters.loss_cooldown_minutes as u64),
    ensures
        copy_gate(
            notes_after(notes, mint, true, sold_at, removed),
            e,
            config,
            mint,
            wallet,
            now,
        ) is Some,
{
}

/// A wallet that is dropped after a sale is blocked from then on.
pub proof fn law_dropped_wallets_are_blocked(
    notes: BotNotes,
    e: EngineView,
    config: Config,
    address: Seq<char>,
    lost: bool,
    sold_at: Instant,
    wallet: Seq<char>,
    mint: Seq<char>,
    now: Instant,
)
    ensures
        copy_gate(
            notes_after(notes, address, lost, sold_at, Some(wallet)),
            e,
            config,
            mint,
            Some(wallet),
            now,
        ) == Some(CopySkip::BlockedWallet),
{
}

/// Copies are passed over while the positions are full, and while the token is held.
pub proof fn law_copies_respect_limits(
    notes: BotNotes,
    e: EngineView,
    config: Config,
    mint: Seq<char>,
    wallet: Option<Seq<char>>,
    now: Instant,
)
    requires
        copy_gate(notes, e, config, mint, wallet, now) is None,
    ensures
        !e.positions.dom().contains(mint),
        e.positions.dom().len() < config.trading.max_positions,
{
}

/// Filters that are switched off accept every token; filters that are switched on reject a token
/// of which nothing is known.
pub proof fn law_copy_filters_need_figures(f: CopyBotFilters, token: TokenInfoView)
    ensures
        !f.enabled ==> copy_meets(f, token),
        f.enabled && token.market_cap == 0 && token.liquidity == 0 && token.holders == 0
            ==> !copy_meets(f, token),
{
}

/// Where every threshold is zero, the filters accept every token of which something is known.
pub proof fn law_zero_copy_thresholds_accept_all(f: CopyBotFilters, token: TokenInfoView)
    requires
        f.min_market_cap == 0,
        f.max_market_cap == 0,
        f.min_holders == 0,
        f.min_liquidity == 0,
        f.max_age_hours == 0,
        f.min_volume_24h == 0,
        f.min_holder_density == 0,
        token.market_cap != 0 || token.liquidity != 0 || token.holders != 0,
    ensures
        copy_meets(f, token),
{
}

proof fn lemma_graduations_stay(notes: BotNotes, mints: Seq<Seq<char>>, i: int)
    requires
        0 <= i < mints.len(),
    ensures
        after_graduations(notes, mints).sniped.contains(mints[i]),
    decreases mints.len(),
{
    if i < mints.len() - 1 {
        lemma_graduations_stay(notes, mints.drop_last(), i);
    }
}

/// However often and from whichever source a graduation is told of, it is acted on once: every
/// later telling of the same mint is passed over.
pub proof fn law_each_graduation_is_taken_once(
    notes: BotNotes,
    mints: Seq<Seq<char>>,
    earlier: int,
    later: int,
)
    requires
        0 <= earlier < later < mints.len(),
        mints[earlier] == mints[later],
    ensures
        !is_new_graduation(after_graduations(notes, mints.take(later)), mints[later]),
{
    lemma_graduations_stay(notes, mints.take(later), earlier);
}

/// Every feed has a switch of its own: what is switched on or off beside it changes nothing.
pub proof fn law_feeds_are_switched_one_by_one(
    config: Config,
    other: Config,
    targets: nat,
    held: nat,
    watched: nat,
)
    ensures
        !config.birdeye_token_feed ==> !feeds_of(config, targets).birdeye,
        !config.coingecko_token_feed ==> !feeds_of(config, targets).geckoterminal,
        !config.target_wallet_token_feed ==> !feeds_of(config, targets).target_wallets,
        !config.new_token_event_feed ==> !feeds_of(config, targets).launches && !acts(
            config,
            held,
            watched,
            Wake::Launch,
        ) && !acts(config, held, watched, Wake::Watchlist),
        !config.strategies.ps_sniper ==> !feeds_of(config, targets).graduations && !acts(
            config,
            held,
            watched,
            Wake::Graduation,
        ),
        config.birdeye_token_feed == other.birdeye_token_feed && config.birdeye == other.birdeye
            ==> feeds_of(config, targets).birdeye == feeds_of(other, targets).birdeye,
        config.coingecko_token_feed == other.coingecko_token_feed ==> feeds_of(
            config,
            targets,
        ).geckoterminal == feeds_of(other, targets).geckoterminal,
        config.target_wallet_token_feed == other.target_wallet_token_feed ==> feeds_of(
            config,
            targets,
        ).target_wallets == feeds_of(other, targets).target_wallets,
        config.new_token_event_feed == other.new_token_event_feed ==> feeds_of(
            config,
            targets,
        ).launches == feeds_of(other, targets).launches,
{
}

/// Without analysis a copy spends exactly the largest amount.
pub proof fn law_direct_copies_spend_the_maximum(token: TokenInfoView, max: u64)
    ensures
        crate::trading::buy_amount(max, direct_copy(token, max)) == max,
{
}

/// So many holders for each ten thousand of market capitalisation are asked for at the least;
/// nothing is asked of a token whose capitalisation is not known.
pub proof fn law_density_is_holders_for_capital(token: TokenInfoView, min_density: u32)
    ensures
        dense_enough(token, min_density) <==> token.market_cap == 0 || token.holders * 10_000
            >= min_density * token.market_cap,
{
    if token.market_cap > 0 {
        let (h, m, d) = (token.holders * 10_000, token.market_cap as int, min_density as int);
        let q = h / m;
        assert(q * m <= h < (q + 1) * m) by (nonlinear_arith)
            requires
                q == h / m,
                m > 0,
        ;
        if d <= q {
            assert(d * m <= q * m) by (nonlinear_arith)
                requires
                    d <= q,
                    m > 0,
            ;
        } else {
            assert(d * m >= (q + 1) * m) by (nonlinear_arith)
                requires
                    d >= q + 1,
                    m > 0,
            ;
        }
    }
}

/// A trending token is considered exactly where it comes from the launchpad and meets every
/// limit that is set.
pub proof fn law_trending_tokens_meet_every_limit(f: TrendingTokenFilters, token: TokenInfoView)
    ensures
        trending_meets(f, token) <==> {
            &&& crate::text::has_suffix(token.address, "pump"@)
            &&& token.market_cap >= f.min_market_cap
            &&& token.market_cap <= f.max_market_cap
            &&& token.holders >= f.min_holders
            &&& token.age_hours <= f.max_age_hours
            &&& token.liquidity >= f.min_liquidity
            &&& token.volume_24h >= f.min_volume_24h
            &&& token.market_cap == 0 || token.holders * 10_000 >= f.min_holder_density
                * token.market_cap
        },
{
    law_density_is_holders_for_capital(token, f.min_holder_density);
}

/// A copied token passes exactly where the filters are off, or something is known of it and it
/// meets every limit; a limit of zero is none.
pub proof fn law_copied_tokens_meet_every_limit(f: CopyBotFilters, token: TokenInfoView)
    ensures
        copy_meets(f, token) <==> !f.enabled || {
            &&& token.market_cap + token.liquidity + token.holders > 0
            &&& token.market_cap >= f.min_market_cap
            &&& f.max_market_cap == 0 || token.market_cap <= f.max_market_cap
            &&& token.holders >= f.min_holders
            &&& token.liquidity >= f.min_liquidity
            &&& f.max_age_hours == 0 || token.age_hours <= f.max_age_hours
            &&& token.volume_24h >= f.min_volume_24h
            &&& token.market_cap == 0 || token.holders * 10_000 >= f.min_holder_density
                * token.market_cap
        },
{
    law_density_is_holders_for_capital(token, f.min_holder_density);
}

/// The strategies stand in their order, each switched by its own switch.
pub proof fn law_strategies_have_their_switches(p: StrategyParams, t: StrategyToggles)
    ensures
        ({
            let s = strategies_of(p, t);
            &&& s.len() == 7
            &&& s[0].strategy == TradingStrategy::Momentum && s[0].enabled == t.momentum
            &&& s[1].strategy == TradingStrategy::MeanReversion && s[1].enabled
                == t.mean_reversion
            &&& s[2].strategy == TradingStrategy::Breakout && s[2].enabled == t.breakout
            &&& s[3].strategy == TradingStrategy::VolumeSpike && s[3].enabled == t.volume_spike
            &&& s[4].strategy == TradingStrategy::HolderGrowth && s[4].enabled == t.holder_growth
            &&& s[5].strategy == TradingStrategy::LiquidityDepth && s[5].enabled
                == t.liquidity_depth
            &&& s[6].strategy == TradingStrategy::PumpSwapSniper && s[6].enabled == t.ps_sniper
        }),
{
}

/// Signals of at least half the confidence are acted on, all of them and in their order; weaker
/// ones are not.
pub proof fn law_confident_signals_are_kept(
    first: Seq<SignalView>,
    second: Seq<SignalView>,
    signal: SignalView,
)
    ensures
        confident(first + second) == confident(first) + confident(second),
        confident(seq![signal]) == (if signal.confidence.lt(Binary64::ratio(1, 2)) {
            Seq::empty()
        } else {
            seq![signal]
        }),
    decreases second.len(),
{
    let one = seq![signal];
    assert(one.drop_last() == Seq::<SignalView>::empty());
    assert(confident(one.drop_last()) == Seq::<SignalView>::empty());
    if second.len() == 0 {
        assert(first + second == first);
    } else {
        assert((first + second).drop_last() == first + second.drop_last());
        law_confident_signals_are_kept(first, second.drop_last(), signal);
    }
}

/// A token that was sold at a loss is not copied again until its minutes are over.
pub proof fn law_loss_cooldowns_last_their_minutes(
    losses: Map<Seq<char>, Instant>,
    mint: Seq<char>,
    minutes: u32,
    now: Instant,
)
    ensures
        in_loss_cooldown(losses, mint, minutes, now) <==> minutes > 0 && losses.dom().contains(mint)
            && now.nanos - losses[mint].nanos < minutes * 60_000_000_000,
{
}

/// What speaks against a copy before anything is known of the token: the wallet is not followed
/// any more, the token is held, it was lost with lately, or there is no room; the first of these
/// is told.
pub proof fn law_copies_are_declined_with_a_reason(
    notes: BotNotes,
    e: EngineView,
    config: Config,
    mint: Seq<char>,
    wallet: Option<Seq<char>>,
    now: Instant,
)
    ensures
        ({
            let gate = copy_gate(notes, e, config, mint, wallet, now);
            let followed = wallet is None || !notes.blocked.contains(wallet->0);
            let new = !e.positions.dom().contains(mint);
            let free = !in_loss_cooldown(
                notes.losses,
                mint,
                config.copybotfilters.loss_cooldown_minutes,
                now,
            );
            let room = e.positions.dom().len() < config.trading.max_positions;
            &&& gate == Some(CopySkip::BlockedWallet) <==> !followed
            &&& gate == Some(CopySkip::AlreadyHeld) <==> followed && !new
            &&& gate == Some(CopySkip::LossCooldown) <==> followed && new && !free
            &&& gate == Some(CopySkip::MaxPositions) <==> followed && new && free && !room
            &&& gate is None <==> followed && new && free && room
        }),
{
}

/// A copy is traded exactly where its token passes, is traded where the bot trades, and the bot
/// is not run dry; with analysis only where a strategy speaks for it, and then by the confident
/// signals.
pub proof fn law_copies_are_traded(
    config: Config,
    strategies: Seq<StrategyView>,
    dry_run: bool,
    token: TokenInfoView,
    on_curve: bool,
)
    ensures
        ({
            let step = copy_step(config, strategies, dry_run, token, on_curve);
            let signals = crate::strategies::all_signals(strategies, token);
            let passes = copy_meets(config.copybotfilters, token);
            let venue = if on_curve {
                config.pumpfun_enabled
            } else {
                config.pumpswap_enabled
            };
            let analysed = config.copybotfilters.analysis_step;
            &&& step is Trade <==> passes && venue && !dry_run && (analysed ==> signals.len() > 0)
            &&& step is Trade && analysed ==> step->Trade_0 == confident(signals)
            &&& step is Trade && !analysed ==> step->Trade_0.len() == 1 && {
                let order = step->Trade_0[0];
                &&& order.token == token
                &&& order.action == Action::Buy
                &&& order.confidence == Binary64::from_u64(1)
                &&& order.override_buy_amount == Some(config.trading.max_buy_amount)
                &&& order.reason == Reason::CopyTrade
            }
            &&& step == CopyStep::Skip(CopySkip::Filtered) <==> !passes
            &&& step == CopyStep::Skip(CopySkip::OnBondingCurve) <==> passes && on_curve && !venue
            &&& step == CopyStep::Skip(CopySkip::Graduated) <==> passes && !on_curve && !venue
            &&& step == CopyStep::Skip(CopySkip::DryRun) <==> passes && venue && dry_run
        }),
{
}

/// What is written down as spent is what the signal asks for, or else the limit.
pub proof fn law_spent_amounts_are_written_down(signal: SignalView, max_buy_amount: u64)
    ensures
        signal.override_buy_amount is Some ==> journalled_sol(signal, max_buy_amount) == sol(
            signal.override_buy_amount->0,
        ),
        signal.override_buy_amount is None ==> journalled_sol(signal, max_buy_amount) == sol(
            max_buy_amount,
        ),
{
}

/// The token that is written down for a sale has the price of the sale, and what was looked up
/// of it where that is known.
pub proof fn law_sold_tokens_have_the_price_of_the_sale(
    address: Seq<char>,
    enriched: Seq<TokenInfoView>,
    price: Binary64,
)
    ensures
        exit_token(address, enriched, price).price_usd == price,
        enriched.len() > 0 ==> exit_token(address, enriched, price) == (TokenInfoView {
            price_usd: price,
            ..enriched[0]
        }),
        enriched.len() == 0 ==> exit_token(address, enriched, price).address == address
            && exit_token(address, enriched, price).market_cap == 0,
{
}

/// A sale is a loss where it brought less than was spent; where that was not counted, where its
/// price is below that of the purchase. Its result is what it brought less what was spent.
pub proof fn law_losses_are_sales_below_cost(
    trade: TradeView,
    brief: PositionBrief,
    exit_price: Binary64,
)
    ensures
        match trade.sol_received {
            Some(received) => {
                &&& is_loss(trade, brief, exit_price) <==> received.lt(brief.sol_spent)
                &&& realized_sol(trade, brief) == received.minus(brief.sol_spent)
            },
            None => {
                &&& is_loss(trade, brief, exit_price) <==> exit_price.lt(brief.entry_price)
                &&& realized_sol(trade, brief) == Binary64::from_u64(0)
            },
        },
{
}

/// The wallet that a position was copied from is scored by what the sale brought, where scores
/// are kept; no other wallet is touched.
pub proof fn law_only_the_source_is_scored(
    scores: Map<Seq<char>, WalletScoreEntry>,
    config: Config,
    brief: PositionBrief,
    trade: TradeView,
    other: Seq<char>,
)
    ensures
        ({
            let after = scores_after(scores, config, brief, trade);
            let kept = config.walletscoring.enabled && brief.source_wallet is Some;
            &&& !kept ==> after == scores
            &&& kept ==> {
                let wallet = brief.source_wallet->0@;
                let before = if scores.dom().contains(wallet) {
                    scores[wallet]
                } else {
                    crate::scoring::unknown_wallet(config.walletscoring.initial_score)
                };
                &&& after.dom().contains(wallet)
                &&& after[wallet] == crate::scoring::scored(
                    before,
                    realized_sol(trade, brief),
                    config.walletscoring,
                )
                &&& other != wallet ==> after.dom().contains(other) == scores.dom().contains(other)
                    && after[other] == scores[other]
            }
        }),
{
}

/// The source of a position is dropped exactly where its score calls for that after the sale.
pub proof fn law_sources_are_dropped_after_their_sale(
    scores: Map<Seq<char>, WalletScoreEntry>,
    config: Config,
    brief: PositionBrief,
    trade: TradeView,
)
    ensures
        ({
            let dropped = dropped_wallet(scores, config, brief, trade);
            &&& dropped is Some ==> brief.source_wallet is Some && dropped == Some(
                brief.source_wallet->0@,
            )
            &&& dropped is Some <==> config.walletscoring.enabled && brief.source_wallet is Some
                && crate::scoring::removal_due(
                scores_after(scores, config, brief, trade),
                brief.source_wallet->0@,
                config.walletscoring,
            )
        }),
{
}

/// After a sale the bot remembers a loss with its time and the wallet that was dropped, and
/// forgets nothing.
pub proof fn law_sales_are_remembered(
    notes: BotNotes,
    address: Seq<char>,
    lost: bool,
    now: Instant,
    removed: Option<Seq<char>>,
    other: Seq<char>,
)
    ensures
        ({
            let after = notes_after(notes, address, lost, now, removed);
            &&& lost ==> after.losses.dom().contains(address) && after.losses[address] == now
            &&& !lost ==> after.losses == notes.losses
            &&& other != address ==> after.losses.dom().contains(other)
                == notes.losses.dom().contains(other) && after.losses[other] == notes.losses[other]
            &&& after.blocked.contains(other) <==> notes.blocked.contains(other) || removed == Some(
                other,
            )
            &&& after.sniped == notes.sniped
        }),
{
}

/// A purchase is added to the record; a position that it opened names the wallet it was copied
/// from, and nothing else changes.
pub proof fn law_purchases_name_their_source(
    e: EngineView,
    mint: Seq<char>,
    source_wallet: Option<Seq<char>>,
    trade: TradeView,
    other: Seq<char>,
)
    ensures
        ({
            let after = with_buy(e, mint, source_wallet, trade);
            &&& after.trades == e.trades.push(trade)
            &&& after.positions.dom() == e.positions.dom()
            &&& e.positions.dom().contains(mint) && source_wallet is Some
                ==> after.positions[mint].source_wallet == source_wallet
            &&& e.positions.dom().contains(mint) ==> after.positions[mint].amount
                == e.positions[mint].amount && after.positions[mint].entry_price
                == e.positions[mint].entry_price && after.positions[mint].sol_spent
                == e.positions[mint].sol_spent
            &&& source_wallet is None ==> after.positions == e.positions
            &&& other != mint ==> after.positions[other] == e.positions[other]
            &&& after.last_trade_time == e.last_trade_time && after.pools == e.pools
            &&& after.settings == e.settings
        }),
{
    let after = with_buy(e, mint, source_wallet, trade);
    assert(after.positions.dom() == e.positions.dom());
}

/// Signals are executed unless the bot is run dry, and all of them are.
pub proof fn law_orders_are_executed(dry_run: bool, signals: Seq<SignalView>)
    ensures
        !dry_run ==> orders_for(dry_run, signals) == OrdersView::Execute(signals),
        dry_run ==> orders_for(dry_run, signals) == OrdersView::Show(signals),
{
}

/// When the bot acts: on discoveries, copies and its status always; on exits and figures where it
/// holds something; and on the rest as it is set.
pub proof fn law_bot_acts_where_there_is_something_to_do(config: Config, held: nat, watched: nat)
    ensures
        acts(config, held, watched, Wake::Discovery),
        acts(config, held, watched, Wake::Copy),
        acts(config, held, watched, Wake::Status),
        acts(config, held, watched, Wake::ExitCheck) <==> held > 0,
        acts(config, held, watched, Wake::Enrichment) <==> held > 0,
        acts(config, held, watched, Wake::Launch) <==> config.new_token_event_feed,
        acts(config, held, watched, Wake::Graduation) <==> config.strategies.ps_sniper,
        acts(config, held, watched, Wake::Watchlist) <==> config.new_token_event_feed && watched
            > 0,
{
}

/// A feed that is switched on runs: that of Birdeye where there is a key for it, and that of the
/// target wallets where there are any.
pub proof fn law_feeds_run_where_they_can(config: Config, targets: nat)
    ensures
        feeds_of(config, targets).birdeye <==> config.birdeye_token_feed
            && config.birdeye.api_key@.len() > 0,
        feeds_of(config, targets).geckoterminal <==> config.coingecko_token_feed,
        feeds_of(config, targets).target_wallets <==> config.target_wallet_token_feed && targets
            > 0,
        feeds_of(config, targets).launches <==> config.new_token_event_feed,
        feeds_of(config, targets).graduations <==> config.strategies.ps_sniper,
{
}

/// A graduation is acted on where it was not before, and then it is remembered with all others.
pub proof fn law_graduations_are_remembered(notes: BotNotes, mint: Seq<char>, other: Seq<char>)
    ensures
        is_new_graduation(notes, mint) <==> !notes.sniped.contains(mint),
        after_graduation(notes, mint).sniped.contains(mint),
        other != mint ==> after_graduation(notes, mint).sniped.contains(other)
            == notes.sniped.contains(other),
        after_graduation(notes, mint).losses == notes.losses,
        after_graduation(notes, mint).blocked == notes.blocked,
{
}

/// What is done about a token that was found.
pub open spec fn token_orders(
    dry_run: bool,
    strategies: Seq<StrategyView>,
    token: TokenInfoView,
) -> OrdersView {
    orders_for(dry_run, confident(crate::strategies::all_signals(strategies, token)))
}

/// Whether a token that was found is looked at more closely.
pub open spec fn considered(e: EngineView, f: TrendingTokenFilters, token: TokenInfoView) -> bool {
    !e.positions.dom().contains(token.address) && trending_meets(f, token)
}

/// A token is looked at more closely where it passes and is not held.
pub proof fn law_held_tokens_are_not_considered(
    e: EngineView,
    f: TrendingTokenFilters,
    token: TokenInfoView,
)
    ensures
        e.positions.dom().contains(token.address) ==> !considered(e, f, token),
        !trending_meets(f, token) ==> !considered(e, f, token),
        !e.positions.dom().contains(token.address) && trending_meets(f, token) ==> considered(
            e,
            f,
            token,
        ),
{
}

/// Every strategy that is switched on and speaks with at least half its confidence is followed,
/// and nothing else is.
pub proof fn law_tokens_are_traded_on_confident_signals(
    strategies: Seq<StrategyView>,
    token: TokenInfoView,
    k: int,
    i: int,
)
    requires
        0 <= k < strategies.len(),
    ensures
        token_orders(false, strategies, token) is Execute,
        token_orders(true, strategies, token) is Show,
        ({
            let signal = crate::strategies::strategy_signal(
                strategies[k].strategy,
                token,
                strategies[k].parameters,
            );
            strategies[k].enabled && signal is Some && !signal->0.confidence.lt(
                Binary64::ratio(1, 2),
            ) ==> token_orders(false, strategies, token)->Execute_0.contains(signal->0)
        }),
        ({
            let orders = token_orders(false, strategies, token)->Execute_0;
            0 <= i < orders.len() ==> !orders[i].confidence.lt(Binary64::ratio(1, 2))
                && orders[i].action == Action::Buy && orders[i].token == token
        }),
{
    let signals = crate::strategies::all_signals(strategies, token);
    let signal = crate::strategies::strategy_signal(
        strategies[k].strategy,
        token,
        strategies[k].parameters,
    );
    if strategies[k].enabled && signal is Some && !signal->0.confidence.lt(Binary64::ratio(1, 2)) {
        crate::strategies::law_enabled_strategies_are_heard(strategies, token, k);
        let j = choose|j: int| 0 <= j < signals.len() && signals[j] == signal->0;
        let (before, one, rest) = (signals.take(j), seq![signals[j]], signals.skip(j + 1));
        assert(signals == before + (one + rest));
        law_confident_signals_are_kept(before, one + rest, signals[j]);
        law_confident_signals_are_kept(one, rest, signals[j]);
        assert(confident(signals)[confident(before).len() as int] == signals[j]);
    }
    if 0 <= i < confident(signals).len() {
        law_weak_signals_are_dropped(signals, i);
        let j = choose|j: int| 0 <= j < signals.len() && signals[j] == confident(signals)[i];
        crate::strategies::law_signals_come_from_enabled_strategies(strategies, token, j);
        let m = choose|m: int|
            0 <= m < strategies.len() && (#[trigger] strategies[m]).enabled
                && crate::strategies::strategy_signal(
                strategies[m].strategy,
                token,
                strategies[m].parameters,
            ) == Some(signals[j]);
        crate::strategies::law_strategies_only_buy(
            strategies[m].strategy,
            token,
            strategies[m].parameters,
        );
    }
}

} // verus!
