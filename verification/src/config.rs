//! The settings of the bot.
use crate::binary64::Binary64;
use crate::error::{joined, BotError, ErrorKind, ErrorView};
use vstd::prelude::*;

verus! {

/// All settings.
#[derive(Debug)]
pub struct Config {
    /// Where the chain is reached; the environment's `SOLANA_RPC_URL` comes first.
    pub rpc_url: String,
    pub wallet_path: String,
    pub birdeye_token_feed: bool,
    pub coingecko_token_feed: bool,
    pub target_wallet_token_feed: bool,
    pub new_token_event_feed: bool,
    pub pumpfun_enabled: bool,
    pub pumpswap_enabled: bool,
    pub trading: TradingConfig,
    pub birdeye: BirdeyeConfig,
    pub trendingtokenfilters: TrendingTokenFilters,
    pub newtokenfilters: NewTokenFilters,
    pub copybotfilters: CopyBotFilters,
    pub walletscoring: WalletScoring,
    pub exitstrategies: ExitStrategies,
    pub strategies: StrategyToggles,
    pub params: StrategyParams,
    pub monitoring: MonitoringConfig,
}

#[derive(Debug)]
pub struct TradingConfig {
    pub max_slippage: Binary64,
    pub max_buy_amount: u64,
    pub profit_target_percent: Binary64,
    pub stop_loss_percent: Binary64,
    pub cooldown_seconds: u64,
    pub max_positions: usize,
    pub exit_check_interval_ms: u64,
    /// Pairs of a gain and a trail, such as `6:4,12:5,20:6`.
    pub dynamic_trailing_stop_thresholds: String,
}

#[derive(Debug)]
pub struct BirdeyeConfig {
    pub api_key: String,
    pub trending_limit: u32,
    pub poll_interval_ms: u64,
}

/// What a trending token has to meet.
#[derive(Clone, Copy, PartialEq, Eq, Structural, Debug)]
pub struct TrendingTokenFilters {
    pub min_market_cap: u64,
    pub max_market_cap: u64,
    pub min_holders: u32,
    pub max_age_hours: u32,
    pub min_liquidity: u64,
    pub min_volume_24h: u64,
    pub min_holder_density: u32,
}

/// The numbers that the strategies compare with.
#[derive(Clone, Copy, PartialEq, Eq, Structural, Debug)]
pub struct StrategyParams {
    pub min_price_change: Binary64,
    pub min_volume_ratio: Binary64,
    pub max_price_change: Binary64,
    pub min_liquidity_ratio: Binary64,
    pub min_volume_spike: Binary64,
    pub min_price_momentum: Binary64,
    pub min_volume_multiplier: Binary64,
    pub min_holder_count: Binary64,
    pub min_growth_holders: Binary64,
    pub min_growth_market_cap: Binary64,
    pub min_liq_mcap_ratio: Binary64,
    pub min_liquidity_usd: Binary64,
    pub liq_max_market_cap: Binary64,
    /// How many seconds after its graduation a token is still bought.
    pub ps_sniper_freshness_secs: Binary64,
}

#[derive(Debug)]
pub struct MonitoringConfig {
    pub webhook_url: Option<String>,
    pub alert_thresholds: AlertThresholds,
}

#[derive(Clone, Copy, PartialEq, Eq, Structural, Debug)]
pub struct AlertThresholds {
    pub max_drawdown_percent: Binary64,
    pub min_daily_profit_percent: Binary64,
    pub max_daily_loss_percent: Binary64,
}

/// What a new token has to meet, and how it is watched.
#[derive(Clone, Copy, PartialEq, Eq, Structural, Debug)]
pub struct NewTokenFilters {
    /// The market capitalisation, in SOL, below which a token is not watched at all.
    pub min_initial_market_cap_sol: Binary64,
    pub min_market_cap: u64,
    pub max_market_cap: u64,
    pub min_holders: u32,
    pub min_liquidity: u64,
    pub min_volume_24h: u64,
    pub monitor_duration_minutes: u64,
    pub watchlist_cap: usize,
    pub poll_interval_secs: u64,
    pub reduced_poll_interval_secs: u64,
    pub reduced_poll_after_minutes: u64,
    /// The fall from the peak, in percent, that marks a token as dead.
    pub rug_drop_percent: Binary64,
}

/// What a token has to meet to be bought after a target wallet.
#[derive(Clone, Copy, PartialEq, Eq, Structural, Debug)]
pub struct CopyBotFilters {
    pub enabled: bool,
    pub min_market_cap: u64,
    pub max_market_cap: u64,
    pub min_holders: u32,
    pub min_liquidity: u64,
    pub max_age_hours: u32,
    pub min_volume_24h: u64,
    pub loss_cooldown_minutes: u32,
    pub min_holder_density: u32,
    /// Whether the strategies have to advise the buy.
    pub analysis_step: bool,
}

#[derive(Clone, Copy, PartialEq, Eq, Structural, Debug)]
pub struct WalletScoring {
    pub enabled: bool,
    pub initial_score: Binary64,
    pub sensitivity: Binary64,
    pub min_score: Binary64,
    pub max_score: Binary64,
    pub min_trades_for_scoring: u32,
    pub wallet_removal_score: Binary64,
}

#[derive(Clone, Copy, PartialEq, Eq, Structural, Debug)]
pub struct ExitStrategies {
    pub enrichment_interval_ms: u64,
    pub time_exit_enabled: bool,
    pub max_hold_minutes: u64,
    pub liquidity_exit_enabled: bool,
    pub min_liquidity_sol: Binary64,
    pub velocity_exit_enabled: bool,
    pub max_decline_rate_per_min: Binary64,
    pub momentum_reversal_enabled: bool,
    pub momentum_reversal_window_secs: u64,
    pub momentum_reversal_min_loss_pct: Binary64,
}

#[derive(Clone, Copy, PartialEq, Eq, Structural, Debug)]
pub struct StrategyToggles {
    pub momentum: bool,
    pub mean_reversion: bool,
    pub breakout: bool,
    pub volume_spike: bool,
    pub holder_growth: bool,
    pub liquidity_depth: bool,
    pub ps_sniper: bool,
}

pub fn default_min_initial_mcap_sol() -> (r: Binary64)
    ensures
        r == Binary64::ratio(1, 2),
{
    Binary64::ratio(1, 2)
}

pub fn default_monitor_duration() -> (r: u64)
    ensures
        r == 60,
{
    60
}

pub fn default_watchlist_cap() -> (r: usize)
    ensures
        r == 200,
{
    200
}

pub fn default_poll_interval() -> (r: u64)
    ensures
        r == 30,
{
    30
}

pub fn default_reduced_poll_interval() -> (r: u64)
    ensures
        r == 120,
{
    120
}

pub fn default_reduced_poll_after() -> (r: u64)
    ensures
        r == 15,
{
    15
}

pub fn default_rug_drop_percent() -> (r: Binary64)
    ensures
        r == Binary64::from_u64(90),
{
    Binary64::from_u64(90)
}

pub fn default_initial_score() -> (r: Binary64)
    ensures
        r == Binary64::from_u64(1),
{
    Binary64::from_u64(1)
}

pub fn default_sensitivity() -> (r: Binary64)
    ensures
        r == Binary64::from_u64(5),
{
    Binary64::from_u64(5)
}

pub fn default_min_score() -> (r: Binary64)
    ensures
        r == Binary64::ratio(1, 10),
{
    Binary64::ratio(1, 10)
}

pub fn default_max_score() -> (r: Binary64)
    ensures
        r == Binary64::from_u64(2),
{
    Binary64::from_u64(2)
}

pub fn default_min_trades() -> (r: u32)
    ensures
        r == 3,
{
    3
}

pub fn default_loss_cooldown() -> (r: u32)
    ensures
        r == 15,
{
    15
}

pub fn default_true() -> (r: bool)
    ensures
        r,
{
    true
}

pub fn default_enrichment_interval() -> (r: u64)
    ensures
        r == 30_000,
{
    30_000
}

pub fn default_liq_mcap_ratio() -> (r: Binary64)
    ensures
        r == Binary64::ratio(3, 100),
{
    Binary64::ratio(3, 100)
}

pub fn default_liq_min_usd() -> (r: Binary64)
    ensures
        r == Binary64::from_u64(5_000),
{
    Binary64::from_u64(5_000)
}

pub fn default_liq_max_mcap() -> (r: Binary64)
    ensures
        r == Binary64::from_u64(5_000_000),
{
    Binary64::from_u64(5_000_000)
}

pub fn default_ps_sniper_freshness_secs() -> (r: Binary64)
    ensures
        r == Binary64::from_u64(30),
{
    Binary64::from_u64(30)
}

pub fn default_rpc_url() -> (r: String)
    ensures
        r@ == "https://api.mainnet-beta.solana.com"@,
{
    "https://api.mainnet-beta.solana.com".to_owned()
}

impl Default for TradingConfig {
    fn default() -> (r: Self)
        ensures
            r.max_slippage == Binary64::from_u64(5),
            r.max_buy_amount == 1_000_000_000,
            r.profit_target_percent == Binary64::from_u64(20),
            r.stop_loss_percent == Binary64::from_u64(10),
            r.cooldown_seconds == 60,
            r.max_positions == 5,
            r.exit_check_interval_ms == 5_000,
            r.dynamic_trailing_stop_thresholds@ == Seq::<char>::empty(),
    {
        TradingConfig {
            max_slippage: Binary64::from_u64(5),
            max_buy_amount: 1_000_000_000,
            profit_target_percent: Binary64::from_u64(20),
            stop_loss_percent: Binary64::from_u64(10),
            cooldown_seconds: 60,
            max_positions: 5,
            exit_check_interval_ms: 5_000,
            dynamic_trailing_stop_thresholds: String::new(),
        }
    }
}

impl Default for BirdeyeConfig {
    fn default() -> (r: Self)
        ensures
            r.api_key@ == Seq::<char>::empty(),
            r.trending_limit == 100,
            r.poll_interval_ms == 300_000,
    {
        BirdeyeConfig { api_key: String::new(), trending_limit: 100, poll_interval_ms: 300_000 }
    }
}

impl Default for TrendingTokenFilters {
    fn default() -> (r: Self)
        ensures
            r == (TrendingTokenFilters {
                min_market_cap: 2_800,
                max_market_cap: 10_000_000,
                min_holders: 10,
                max_age_hours: 48,
                min_liquidity: 100_000_000,
                min_volume_24h: 0,
                min_holder_density: 0,
            }),
    {
        TrendingTokenFilters {
            min_market_cap: 2_800,
            max_market_cap: 10_000_000,
            min_holders: 10,
            max_age_hours: 48,
            min_liquidity: 100_000_000,
            min_volume_24h: 0,
            min_holder_density: 0,
        }
    }
}

impl Default for NewTokenFilters {
    fn default() -> (r: Self)
        ensures
            r == (NewTokenFilters {
                min_initial_market_cap_sol: Binary64::ratio(1, 2),
                min_market_cap: 0,
                max_market_cap: 0,
                min_holders: 0,
                min_liquidity: 0,
                min_volume_24h: 0,
                monitor_duration_minutes: 60,
                watchlist_cap: 200,
                poll_interval_secs: 30,
                reduced_poll_interval_secs: 120,
                reduced_poll_after_minutes: 15,
                rug_drop_percent: Binary64::from_u64(90),
            }),
    {
        NewTokenFilters {
            min_initial_market_cap_sol: default_min_initial_mcap_sol(),
            min_market_cap: 0,
            max_market_cap: 0,
            min_holders: 0,
            min_liquidity: 0,
            min_volume_24h: 0,
            monitor_duration_minutes: default_monitor_duration(),
            watchlist_cap: default_watchlist_cap(),
            poll_interval_secs: default_poll_interval(),
            reduced_poll_interval_secs: default_reduced_poll_interval(),
            reduced_poll_after_minutes: default_reduced_poll_after(),
            rug_drop_percent: default_rug_drop_percent(),
        }
    }
}

impl Default for WalletScoring {
    fn default() -> (r: Self)
        ensures
            r == (WalletScoring {
                enabled: true,
                initial_score: Binary64::from_u64(1),
                sensitivity: Binary64::from_u64(5),
                min_score: Binary64::ratio(1, 10),
                max_score: Binary64::from_u64(2),
                min_trades_for_scoring: 3,
                wallet_removal_score: Binary64::from_u64(0),
            }),
    {
        WalletScoring {
            enabled: default_true(),
            initial_score: default_initial_score(),
            sensitivity: default_sensitivity(),
            min_score: default_min_score(),
            max_score: default_max_score(),
            min_trades_for_scoring: default_min_trades(),
            wallet_removal_score: Binary64::from_u64(0),
        }
    }
}

impl Default for CopyBotFilters {
    fn default() -> (r: Self)
        ensures
            r == (CopyBotFilters {
                enabled: true,
                min_market_cap: 0,
                max_market_cap: 0,
                min_holders: 0,
                min_liquidity: 0,
                max_age_hours: 0,
                min_volume_24h: 0,
                loss_cooldown_minutes: 15,
                min_holder_density: 0,
                analysis_step: true,
            }),
    {
        CopyBotFilters {
            enabled: default_true(),
            min_market_cap: 0,
            max_market_cap: 0,
            min_holders: 0,
            min_liquidity: 0,
            max_age_hours: 0,
            min_volume_24h: 0,
            loss_cooldown_minutes: default_loss_cooldown(),
            min_holder_density: 0,
            analysis_step: default_true(),
        }
    }
}

impl Default for StrategyToggles {
    fn default() -> (r: Self)
        ensures
            r == (StrategyToggles {
                momentum: false,
                mean_reversion: false,
                breakout: false,
                volume_spike: false,
                holder_growth: false,
                liquidity_depth: false,
                ps_sniper: false,
            }),
    {
        StrategyToggles {
            momentum: false,
            mean_reversion: false,
            breakout: false,
            volume_spike: false,
            holder_growth: false,
            liquidity_depth: false,
            ps_sniper: false,
        }
    }
}

impl Default for ExitStrategies {
    fn default() -> (r: Self)
        ensures
            r == (ExitStrategies {
                enrichment_interval_ms: 30_000,
                time_exit_enabled: false,
                max_hold_minutes: 0,
                liquidity_exit_enabled: false,
                min_liquidity_sol: Binary64::from_u64(0),
                velocity_exit_enabled: false,
                max_decline_rate_per_min: Binary64::from_u64(0),
                momentum_reversal_enabled: false,
                momentum_reversal_window_secs: 60,
                momentum_reversal_min_loss_pct: Binary64::from_u64(3),
            }),
    {
        ExitStrategies {
            enrichment_interval_ms: default_enrichment_interval(),
            time_exit_enabled: false,
            max_hold_minutes: 0,
            liquidity_exit_enabled: false,
            min_liquidity_sol: Binary64::from_u64(0),
            velocity_exit_enabled: false,
            max_decline_rate_per_min: Binary64::from_u64(0),
            momentum_reversal_enabled: false,
            momentum_reversal_window_secs: 60,
            momentum_reversal_min_loss_pct: Binary64::from_u64(3),
        }
    }
}

impl Default for StrategyParams {
    fn default() -> (r: Self)
        ensures
            r == (StrategyParams {
                min_price_change: Binary64::from_u64(5),
                min_volume_ratio: Binary64::from_u64(2),
                max_price_change: Binary64::from_u64(5).negated(),
                min_liquidity_ratio: Binary64::ratio(5, 100),
                min_volume_spike: Binary64::ratio(15, 10),
                min_price_momentum: Binary64::from_u64(1),
                min_volume_multiplier: Binary64::from_u64(2),
                min_holder_count: Binary64::from_u64(5),
                min_growth_holders: Binary64::from_u64(10),
                min_growth_market_cap: Binary64::from_u64(3_000),
                min_liq_mcap_ratio: Binary64::ratio(3, 100),
                min_liquidity_usd: Binary64::from_u64(5_000),
                liq_max_market_cap: Binary64::from_u64(5_000_000),
                ps_sniper_freshness_secs: Binary64::from_u64(30),
            }),
    {
        StrategyParams {
            min_price_change: Binary64::from_u64(5),
            min_volume_ratio: Binary64::from_u64(2),
            max_price_change: Binary64::from_u64(5).negated(),
            min_liquidity_ratio: Binary64::ratio(5, 100),
            min_volume_spike: Binary64::ratio(15, 10),
            min_price_momentum: Binary64::from_u64(1),
            min_volume_multiplier: Binary64::from_u64(2),
            min_holder_count: Binary64::from_u64(5),
            min_growth_holders: Binary64::from_u64(10),
            min_growth_market_cap: Binary64::from_u64(3_000),
            min_liq_mcap_ratio: default_liq_mcap_ratio(),
            min_liquidity_usd: default_liq_min_usd(),
            liq_max_market_cap: default_liq_max_mcap(),
            ps_sniper_freshness_secs: default_ps_sniper_freshness_secs(),
        }
    }
}

impl Default for AlertThresholds {
    fn default() -> (r: Self)
        ensures
            r == (AlertThresholds {
                max_drawdown_percent: Binary64::from_u64(20),
                min_daily_profit_percent: Binary64::from_u64(5),
                max_daily_loss_percent: Binary64::from_u64(15),
            }),
    {
        AlertThresholds {
            max_drawdown_percent: Binary64::from_u64(20),
            min_daily_profit_percent: Binary64::from_u64(5),
            max_daily_loss_percent: Binary64::from_u64(15),
        }
    }
}

impl Default for MonitoringConfig {
    fn default() -> (r: Self)
        ensures
            r.webhook_url is None,
            call_ensures(AlertThresholds::default, (), r.alert_thresholds),
    {
        MonitoringConfig { webhook_url: None, alert_thresholds: AlertThresholds::default() }
    }
}

impl Default for Config {
    fn default() -> (r: Self)
        ensures
            r.rpc_url@ == "https://api.mainnet-beta.solana.com"@,
            r.wallet_path@ == "wallet.json"@,
            r.birdeye_token_feed,
            r.coingecko_token_feed,
            !r.target_wallet_token_feed,
            !r.new_token_event_feed,
            r.pumpfun_enabled,
            r.pumpswap_enabled,
            call_ensures(TradingConfig::default, (), r.trading),
            call_ensures(BirdeyeConfig::default, (), r.birdeye),
            call_ensures(TrendingTokenFilters::default, (), r.trendingtokenfilters),
            call_ensures(NewTokenFilters::default, (), r.newtokenfilters),
            call_ensures(CopyBotFilters::default, (), r.copybotfilters),
            call_ensures(WalletScoring::default, (), r.walletscoring),
            call_ensures(ExitStrategies::default, (), r.exitstrategies),
            call_ensures(StrategyToggles::default, (), r.strategies),
            call_ensures(StrategyParams::default, (), r.params),
            call_ensures(MonitoringConfig::default, (), r.monitoring),
    {
        Config {
            rpc_url: default_rpc_url(),
            wallet_path: "wallet.json".to_owned(),
            birdeye_token_feed: true,
            coingecko_token_feed: true,
            target_wallet_token_feed: false,
            new_token_event_feed: false,
            pumpfun_enabled: default_true(),
            pumpswap_enabled: default_true(),
            trading: TradingConfig::default(),
            birdeye: BirdeyeConfig::default(),
            trendingtokenfilters: TrendingTokenFilters::default(),
            newtokenfilters: NewTokenFilters::default(),
            copybotfilters: CopyBotFilters::default(),
            walletscoring: WalletScoring::default(),
            exitstrategies: ExitStrategies::default(),
            strategies: StrategyToggles::default(),
            params: StrategyParams::default(),
            monitoring: MonitoringConfig::default(),
        }
    }
}

/// A gain and the trail that holds from it on, both in percent.
pub type Tier = (Binary64, Binary64);

/// The two parts of a pair `gain:trail`, without the white space around them.
pub open spec fn pair_parts(pair: Seq<char>) -> Option<(Seq<char>, Seq<char>)> {
    let parts = crate::text::split_on(crate::text::spec_trim(pair), ':');
    if parts.len() == 2 {
        Some((crate::text::spec_trim(parts[0]), crate::text::spec_trim(parts[1])))
    } else {
        None
    }
}

/// The pairs among the parts between commas.
pub open spec fn pairs_among(parts: Seq<Seq<char>>) -> Seq<(Seq<char>, Seq<char>)>
    decreases parts.len(),
{
    if parts.len() == 0 {
        Seq::empty()
    } else {
        let before = pairs_among(parts.drop_last());
        match pair_parts(parts.last()) {
            Some(pair) => before.push(pair),
            None => before,
        }
    }
}

/// The pairs that a text of thresholds holds.
pub open spec fn threshold_pairs(text: Seq<char>) -> Seq<(Seq<char>, Seq<char>)> {
    pairs_among(crate::text::split_on(text, ','))
}

pub open spec fn pair_views(pairs: Seq<(String, String)>) -> Seq<(Seq<char>, Seq<char>)> {
    pairs.map_values(|p: (String, String)| (p.0@, p.1@))
}

/// The tiers whose gain and trail are both numbers.
pub open spec fn whole_tiers(numbers: Seq<(Option<Binary64>, Option<Binary64>)>) -> Seq<Tier>
    decreases numbers.len(),
{
    if numbers.len() == 0 {
        Seq::empty()
    } else {
        let before = whole_tiers(numbers.drop_last());
        match numbers.last() {
            (Some(gain), Some(trail)) => before.push((gain, trail)),
            _ => before,
        }
    }
}

/// `tiers` with one more, which stands behind every tier whose gain is not greater.
pub open spec fn with_tier(tiers: Seq<Tier>, tier: Tier) -> Seq<Tier>
    decreases tiers.len(),
{
    if tiers.len() == 0 || !tier.0.lt(tiers.last().0) {
        tiers.push(tier)
    } else {
        with_tier(tiers.drop_last(), tier).push(tiers.last())
    }
}

/// The tiers by rising gain; tiers of one gain keep their order.
pub open spec fn sorted_tiers(tiers: Seq<Tier>) -> Seq<Tier>
    decreases tiers.len(),
{
    if tiers.len() == 0 {
        tiers
    } else {
        with_tier(sorted_tiers(tiers.drop_last()), tiers.last())
    }
}

/// Gains can be compared with one another.
pub open spec fn comparable(tiers: Seq<Tier>) -> bool {
    tiers.len() < 2 || forall|i: int| 0 <= i < tiers.len() ==> !(#[trigger] tiers[i]).0.is_nan()
}

/// No tier stands before one of smaller gain.
pub open spec fn rising(tiers: Seq<Tier>) -> bool {
    forall|i: int, j: int|
        0 <= i < j < tiers.len() ==> !(#[trigger] tiers[j]).0.lt((#[trigger] tiers[i]).0)
}

proof fn lemma_with_tier(tiers: Seq<Tier>, tier: Tier)
    requires
        rising(tiers),
        comparable(tiers.push(tier)),
    ensures
        rising(with_tier(tiers, tier)),
        with_tier(tiers, tier).to_multiset() == tiers.to_multiset().insert(tier),
        with_tier(tiers, tier).len() == tiers.len() + 1,
        forall|i: int|
            0 <= i < tiers.len() + 1 ==> {
                ||| (#[trigger] with_tier(tiers, tier)[i]) == tier
                ||| tiers.contains(with_tier(tiers, tier)[i])
            },
    decreases tiers.len(),
{
    broadcast use vstd::seq_lib::group_to_multiset_ensures;

    let r = with_tier(tiers, tier);
    if tiers.len() == 0 || !tier.0.lt(tiers.last().0) {
        assert(r == tiers.push(tier));
        assert forall|i: int, j: int| 0 <= i < j < r.len() implies !(#[trigger] r[j]).0.lt(
            (#[trigger] r[i]).0,
        ) by {
            if j == tiers.len() {
                let last = tiers.len() - 1;
                assert(tiers.push(tier)[i] == tiers[i]);
                assert(tiers.push(tier)[last] == tiers[last]);
                assert(tiers.push(tier)[tiers.len() as int] == tier);
                if i < last {
                    assert(!tiers[last].0.lt(tiers[i].0));
                }
            }
        }
        assert forall|i: int| 0 <= i < r.len() implies {
            ||| (#[trigger] r[i]) == tier
            ||| tiers.contains(r[i])
        } by {
            if i < tiers.len() {
                assert(tiers[i] == r[i]);
            }
        }
    } else {
        let (front, last) = (tiers.drop_last(), tiers.last());
        assert forall|i: int| 0 <= i < front.push(tier).len() implies !(
        #[trigger] front.push(tier)[i]).0.is_nan() by {
            if i < front.len() {
                assert(tiers.push(tier)[i] == tiers[i]);
            } else {
                assert(tiers.push(tier)[tiers.len() as int] == tier);
            }
        }
        assert(rising(front));
        lemma_with_tier(front, tier);
        let inner = with_tier(front, tier);
        assert(r == inner.push(last));
        assert(tiers.push(tier)[tiers.len() - 1] == last);
        assert(tiers.push(tier)[tiers.len() as int] == tier);
        assert forall|i: int, j: int| 0 <= i < j < r.len() implies !(#[trigger] r[j]).0.lt(
            (#[trigger] r[i]).0,
        ) by {
            if j == inner.len() {
                assert(r[i] == inner[i]);
                if inner[i] != tier {
                    assert(front.contains(inner[i]));
                    let k = choose|k: int| 0 <= k < front.len() && front[k] == inner[i];
                    assert(tiers[k] == inner[i]);
                    assert(!tiers[tiers.len() - 1].0.lt(tiers[k].0));
                }
            } else {
                assert(r[i] == inner[i] && r[j] == inner[j]);
            }
        }
        assert(tiers =~= front.push(last));
        assert(r.to_multiset() =~= tiers.to_multiset().insert(tier));
        assert forall|i: int| 0 <= i < r.len() implies {
            ||| (#[trigger] r[i]) == tier
            ||| tiers.contains(r[i])
        } by {
            if i < inner.len() {
                assert(r[i] == inner[i]);
                if inner[i] != tier {
                    assert(front.contains(inner[i]));
                    let k = choose|k: int| 0 <= k < front.len() && front[k] == inner[i];
                    assert(tiers[k] == inner[i]);
                }
            } else {
                assert(tiers[tiers.len() - 1] == r[i]);
            }
        }
    }
}

/// Sorting tiers gives the same tiers, by rising gain.
pub proof fn law_tiers_are_sorted(tiers: Seq<Tier>)
    requires
        comparable(tiers),
    ensures
        rising(sorted_tiers(tiers)),
        sorted_tiers(tiers).to_multiset() == tiers.to_multiset(),
        sorted_tiers(tiers).len() == tiers.len(),
    decreases tiers.len(),
{
    broadcast use vstd::seq_lib::group_to_multiset_ensures;

    if tiers.len() > 0 {
        let front = tiers.drop_last();
        law_tiers_are_sorted(front);
        let sorted = sorted_tiers(front);
        assert forall|i: int|
            0 <= i < sorted.push(tiers.last()).len() && tiers.len() >= 2 implies !(
        #[trigger] sorted.push(tiers.last())[i]).0.is_nan() by {
            if i < sorted.len() {
                assert(sorted.contains(sorted[i]));
                assert(sorted.to_multiset().count(sorted[i]) > 0);
                assert(front.to_multiset().count(sorted[i]) > 0);
                assert(front.contains(sorted[i]));
                let k = choose|k: int| 0 <= k < front.len() && front[k] == sorted[i];
                assert(tiers[k] == sorted[i]);
            } else {
                assert(tiers[tiers.len() - 1] == tiers.last());
            }
        }
        lemma_with_tier(sorted, tiers.last());
        assert(tiers =~= front.push(tiers.last()));
    }
}

impl TradingConfig {
    /// The pairs of a gain and a trail, as texts.
    pub fn threshold_texts(&self) -> (r: Vec<(String, String)>)
        ensures
            pair_views(r@) == threshold_pairs(self.dynamic_trailing_stop_thresholds@),
    {
        let parts: Vec<String> = crate::text::split(
            self.dynamic_trailing_stop_thresholds.as_str(),
            ',',
        );
        let mut out: Vec<(String, String)> = Vec::new();
        let mut i: usize = 0;
        let ghost all = crate::text::texts(parts@);
        while i < parts.len()
            invariant
                i <= parts@.len(),
                all == crate::text::texts(parts@),
                pair_views(out@) =~= pairs_among(all.take(i as int)),
            decreases parts@.len() - i,
        {
            assert(all.take(i + 1).drop_last() =~= all.take(i as int));
            let ghost before = pair_views(out@);
            let pair: String = crate::text::trim(parts[i].as_str());
            let halves: Vec<String> = crate::text::split(pair.as_str(), ':');
            assert(crate::text::texts(halves@).len() == halves@.len());
            if halves.len() == 2 {
                assert(crate::text::texts(halves@)[0] == halves@[0]@);
                assert(crate::text::texts(halves@)[1] == halves@[1]@);
                let gain: String = crate::text::trim(halves[0].as_str());
                let trail: String = crate::text::trim(halves[1].as_str());
                out.push((gain, trail));
                assert(pair_views(out@) =~= before.push((gain@, trail@)));
            }
            i = i + 1;
        }
        assert(all.take(all.len() as int) =~= all);
        out
    }

    /// The tiers by rising gain, from what the texts of the pairs read as. Pairs that are not
    /// both numbers are passed over.
    pub fn parsed_trailing_thresholds(numbers: &Vec<(Option<Binary64>, Option<Binary64>)>) -> (r:
        Vec<Tier>)
        requires
            comparable(whole_tiers(numbers@)),
        ensures
            r@ == sorted_tiers(whole_tiers(numbers@)),
    {
        let mut tiers: Vec<Tier> = Vec::new();
        let mut i: usize = 0;
        while i < numbers.len()
            invariant
                i <= numbers@.len(),
                tiers@ == sorted_tiers(whole_tiers(numbers@.take(i as int))),
            decreases numbers@.len() - i,
        {
            assert(numbers@.take(i + 1).drop_last() =~= numbers@.take(i as int));
            let ghost before = whole_tiers(numbers@.take(i as int));
            match numbers[i] {
                (Some(gain), Some(trail)) => {
                    insert_tier(&mut tiers, (gain, trail));
                    assert(before.push((gain, trail)).drop_last() =~= before);
                },
                _ => {},
            }
            i = i + 1;
        }
        assert(numbers@.take(numbers@.len() as int) =~= numbers@);
        tiers
    }
}

fn insert_tier(tiers: &mut Vec<Tier>, tier: Tier)
    ensures
        final(tiers)@ == with_tier(old(tiers)@, tier),
{
    let ghost all = tiers@;
    let mut k: usize = tiers.len();
    assert(all.take(k as int) =~= all);
    assert(all.skip(k as int) =~= Seq::<Tier>::empty());
    assert(with_tier(all, tier) =~= with_tier(all.take(k as int), tier) + all.skip(k as int));
    while k > 0 && tier.0.lt(tiers[k - 1].0)
        invariant
            k <= tiers@.len(),
            tiers@ == all,
            with_tier(all, tier) =~= with_tier(all.take(k as int), tier) + all.skip(k as int),
        decreases k,
    {
        assert(all.take(k as int).drop_last() =~= all.take(k - 1));
        assert(all.take(k as int).last() == all[k - 1]);
        assert(with_tier(all.take(k - 1), tier).push(all[k - 1]) + all.skip(k as int) =~= with_tier(
            all.take(k - 1),
            tier,
        ) + all.skip(k - 1));
        k = k - 1;
    }
    assert(k > 0 ==> all.take(k as int).last() == all[k - 1]);
    tiers.insert(k, tier);
    assert(tiers@ =~= all.take(k as int).push(tier) + all.skip(k as int));
}

/// What became of the file of settings.
pub enum ConfigSource {
    Parsed(Config),
    Unreadable(String),
    Malformed(String),
}

/// What the environment holds.
pub struct Environment {
    pub solana_rpc_url: Option<String>,
    pub birdeye_api_key: Option<String>,
    pub discord_webhook_url: Option<String>,
}

/// A variable counts where it is set to more than white space.
pub open spec fn counts(variable: Option<String>) -> bool {
    variable is Some && crate::text::spec_trim(variable->0@).len() > 0
}

fn is_blank(s: &str) -> (r: bool)
    ensures
        r == (crate::text::spec_trim(s@).len() == 0),
{
    crate::text::trim(s).as_str().is_empty()
}

/// The RPC endpoint: the environment's, else the file's, else the public one.
pub open spec fn chosen_rpc_url(file: Seq<char>, variable: Option<String>) -> Seq<char> {
    if counts(variable) {
        variable->0@
    } else if crate::text::spec_trim(file).len() > 0 {
        file
    } else {
        "https://api.mainnet-beta.solana.com"@
    }
}

fn choose_rpc_url(file: String, variable: Option<String>) -> (r: String)
    ensures
        r@ == chosen_rpc_url(file@, variable),
{
    if let Some(url) = variable {
        if !is_blank(url.as_str()) {
            return url;
        }
    }
    if is_blank(file.as_str()) {
        default_rpc_url()
    } else {
        file
    }
}

fn choose_key(file: String, variable: Option<String>) -> (r: String)
    ensures
        r@ == (if counts(variable) {
            variable->0@
        } else {
            file@
        }),
{
    if let Some(key) = variable {
        if !is_blank(key.as_str()) {
            return key;
        }
    }
    file
}

fn choose_webhook(file: Option<String>, variable: Option<String>) -> (r: Option<String>)
    ensures
        r == (if counts(variable) {
            variable
        } else {
            file
        }),
{
    if let Some(url) = variable {
        if !is_blank(url.as_str()) {
            return Some(url);
        }
    }
    file
}

/// The settings are those of the file, with the environment's in place of the secret ones.
pub open spec fn settings_from(r: Config, file: Config, environment: Environment) -> bool {
    &&& r.rpc_url@ == chosen_rpc_url(file.rpc_url@, environment.solana_rpc_url)
    &&& r.birdeye.api_key@ == (if counts(environment.birdeye_api_key) {
        environment.birdeye_api_key->0@
    } else {
        file.birdeye.api_key@
    })
    &&& r.monitoring.webhook_url == (if counts(environment.discord_webhook_url) {
        environment.discord_webhook_url
    } else {
        file.monitoring.webhook_url
    })
    &&& r == (Config {
        rpc_url: r.rpc_url,
        birdeye: (BirdeyeConfig { api_key: r.birdeye.api_key, ..file.birdeye }),
        monitoring: (MonitoringConfig {
            webhook_url: r.monitoring.webhook_url,
            ..file.monitoring
        }),
        ..file
    })
}

impl Config {
    fn with_environment(file: Config, environment: Environment) -> (r: Config)
        ensures
            settings_from(r, file, environment),
    {
        Config {
            rpc_url: choose_rpc_url(file.rpc_url, environment.solana_rpc_url),
            birdeye: BirdeyeConfig {
                api_key: choose_key(file.birdeye.api_key, environment.birdeye_api_key),
                trending_limit: file.birdeye.trending_limit,
                poll_interval_ms: file.birdeye.poll_interval_ms,
            },
            monitoring: MonitoringConfig {
                webhook_url: choose_webhook(
                    file.monitoring.webhook_url,
                    environment.discord_webhook_url,
                ),
                alert_thresholds: file.monitoring.alert_thresholds,
            },
            wallet_path: file.wallet_path,
            birdeye_token_feed: file.birdeye_token_feed,
            coingecko_token_feed: file.coingecko_token_feed,
            target_wallet_token_feed: file.target_wallet_token_feed,
            new_token_event_feed: file.new_token_event_feed,
            pumpfun_enabled: file.pumpfun_enabled,
            pumpswap_enabled: file.pumpswap_enabled,
            trading: file.trading,
            trendingtokenfilters: file.trendingtokenfilters,
            newtokenfilters: file.newtokenfilters,
            copybotfilters: file.copybotfilters,
            walletscoring: file.walletscoring,
            exitstrategies: file.exitstrategies,
            strategies: file.strategies,
            params: file.params,
        }
    }

    /// The settings of the file, with the environment's in place of the secret ones.
    pub fn load(source: ConfigSource, environment: Environment) -> (r: Result<Config, BotError>)
        ensures
            match source {
                ConfigSource::Unreadable(e) => r is Err && r->Err_0@ == (ErrorView {
                    kind: ErrorKind::Config,
                    detail: "Failed to read config file: "@ + e@,
                }),
                ConfigSource::Malformed(e) => r is Err && r->Err_0@ == (ErrorView {
                    kind: ErrorKind::Config,
                    detail: "Failed to parse config: "@ + e@,
                }),
                ConfigSource::Parsed(file) => r is Ok && settings_from(
                    r->Ok_0,
                    file,
                    environment,
                ),
            },
    {
        match source {
            ConfigSource::Unreadable(e) => Err(
                BotError::Config(joined("Failed to read config file: ", e.as_str())),
            ),
            ConfigSource::Malformed(e) => Err(
                BotError::Config(joined("Failed to parse config: ", e.as_str())),
            ),
            ConfigSource::Parsed(file) => Ok(Config::with_environment(file, environment)),
        }
    }
}

/// Tiers are read pair by pair: a comma stands between two of them, and a colon between the gain
/// and the trail of each, with white space around them or not. What is no such pair is passed
/// over.
pub proof fn law_tiers_are_written_in_pairs(
    first: Seq<char>,
    second: Seq<char>,
    gain: Seq<char>,
    trail: Seq<char>,
)
    ensures
        threshold_pairs(first.push(',') + second) == threshold_pairs(first) + threshold_pairs(
            second,
        ),
        !first.contains(',') ==> threshold_pairs(first) == (match pair_parts(first) {
            Some(pair) => seq![pair],
            None => Seq::empty(),
        }),
        crate::text::spec_trim(first) == gain.push(':') + trail && !gain.contains(':')
            && !trail.contains(':') ==> pair_parts(first) == Some(
            (crate::text::spec_trim(gain), crate::text::spec_trim(trail)),
        ),
        !crate::text::spec_trim(first).contains(':') ==> pair_parts(first) is None,
{
    crate::text::law_texts_are_cut_at_separators(first, second, ',');
    lemma_pairs_in_turn(crate::text::split_on(first, ','), crate::text::split_on(second, ','));
    let one = seq![first];
    assert(one.drop_last() == Seq::<Seq<char>>::empty());
    assert(pairs_among(one.drop_last()) == Seq::<(Seq<char>, Seq<char>)>::empty());
    crate::text::law_texts_are_cut_at_separators(gain, trail, ':');
    crate::text::law_texts_are_cut_at_separators(trail, trail, ':');
    crate::text::law_texts_are_cut_at_separators(
        crate::text::spec_trim(first),
        Seq::empty(),
        ':',
    );
}

proof fn lemma_pairs_in_turn(first: Seq<Seq<char>>, second: Seq<Seq<char>>)
    ensures
        pairs_among(first + second) == pairs_among(first) + pairs_among(second),
    decreases second.len(),
{
    if second.len() == 0 {
        assert(first + second == first);
    } else {
        assert((first + second).drop_last() == first + second.drop_last());
        lemma_pairs_in_turn(first, second.drop_last());
    }
}

/// A pair of numbers makes a tier exactly where both could be read.
pub proof fn law_tiers_need_both_numbers(
    first: Seq<(Option<Binary64>, Option<Binary64>)>,
    second: Seq<(Option<Binary64>, Option<Binary64>)>,
    pair: (Option<Binary64>, Option<Binary64>),
)
    ensures
        whole_tiers(first + second) == whole_tiers(first) + whole_tiers(second),
        whole_tiers(seq![pair]) == (if pair.0 is Some && pair.1 is Some {
            seq![(pair.0->0, pair.1->0)]
        } else {
            Seq::empty()
        }),
    decreases second.len(),
{
    let one = seq![pair];
    assert(one.drop_last() == Seq::<(Option<Binary64>, Option<Binary64>)>::empty());
    assert(whole_tiers(one.drop_last()) == Seq::<Tier>::empty());
    if second.len() == 0 {
        assert(first + second == first);
    } else {
        assert((first + second).drop_last() == first + second.drop_last());
        law_tiers_need_both_numbers(first, second.drop_last(), pair);
    }
}

/// A variable of the environment counts where it holds more than white space.
pub proof fn law_blank_variables_do_not_count(variable: Option<String>)
    ensures
        counts(variable) <==> variable is Some && exists|i: int|
            0 <= i < variable->0@.len() && !crate::text::spec_is_whitespace(
                #[trigger] variable->0@[i],
            ),
{
    if variable is Some {
        let s = variable->0@;
        crate::text::law_trimming_takes_white_space_off(s);
        let t = crate::text::spec_trim(s);
        let i = choose|i: int| crate::text::set_in_white_space(s, t, i);
        if t.len() > 0 {
            assert(t[0] == s[i]);
        }
    }
}

/// What the environment says comes before what the file says, and nothing but the address of the
/// chain, the key and the webhook is taken from it.
pub proof fn law_environment_comes_first(r: Config, file: Config, environment: Environment)
    requires
        settings_from(r, file, environment),
    ensures
        counts(environment.solana_rpc_url) ==> r.rpc_url@ == environment.solana_rpc_url->0@,
        !counts(environment.solana_rpc_url) && crate::text::spec_trim(file.rpc_url@).len() > 0
            ==> r.rpc_url@ == file.rpc_url@,
        !counts(environment.solana_rpc_url) && crate::text::spec_trim(file.rpc_url@).len() == 0
            ==> r.rpc_url@ == "https://api.mainnet-beta.solana.com"@,
        counts(environment.birdeye_api_key) ==> r.birdeye.api_key@
            == environment.birdeye_api_key->0@,
        !counts(environment.birdeye_api_key) ==> r.birdeye.api_key@ == file.birdeye.api_key@,
        counts(environment.discord_webhook_url) ==> r.monitoring.webhook_url
            == environment.discord_webhook_url,
        !counts(environment.discord_webhook_url) ==> r.monitoring.webhook_url
            == file.monitoring.webhook_url,
        r.trading == file.trading && r.strategies == file.strategies && r.params == file.params,
        r.copybotfilters == file.copybotfilters && r.trendingtokenfilters
            == file.trendingtokenfilters && r.newtokenfilters == file.newtokenfilters,
        r.walletscoring == file.walletscoring && r.exitstrategies == file.exitstrategies,
        r.wallet_path == file.wallet_path,
{
}

/// Tiers of one gain stand in the order in which they were written.
pub proof fn law_equal_tiers_keep_their_order(tiers: Seq<Tier>, tier: Tier)
    requires
        comparable(tiers.push(tier)),
        forall|i: int| 0 <= i < tiers.len() ==> !tier.0.lt((#[trigger] tiers[i]).0),
    ensures
        sorted_tiers(tiers.push(tier)) == sorted_tiers(tiers).push(tier),
{
    assert(tiers.push(tier).drop_last() == tiers);
    if tiers.len() > 0 {
        assert forall|i: int| 0 <= i < tiers.len() implies !(#[trigger] tiers[i]).0.is_nan() by {
            assert(tiers.push(tier)[i] == tiers[i]);
        }
        law_tiers_are_sorted(tiers);
        let sorted = sorted_tiers(tiers);
        assert(sorted.len() == tiers.len());
        assert(sorted.to_multiset().count(sorted.last()) > 0) by {
            sorted.to_multiset_ensures();
            assert(sorted[sorted.len() - 1] == sorted.last());
        }
        tiers.to_multiset_ensures();
        assert(tiers.contains(sorted.last()));
        let i = choose|i: int| 0 <= i < tiers.len() && tiers[i] == sorted.last();
        assert(!tier.0.lt(tiers[i].0));
    }
}

} // verus!
