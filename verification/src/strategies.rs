//! The strategies that decide when to buy.
use crate::binary64::Binary64;
use crate::keyed::Keyed;
use crate::pumpportal::{TokenInfo, TokenInfoView};
use vstd::prelude::*;

verus! {

#[derive(Clone, Copy, PartialEq, Eq, Structural, Debug)]
pub enum TradingStrategy {
    Momentum,
    MeanReversion,
    Breakout,
    VolumeSpike,
    HolderGrowth,
    LiquidityDepth,
    PumpSwapSniper,
}

#[derive(Clone, Copy, PartialEq, Eq, Structural, Debug)]
pub enum Action {
    Buy,
    Sell,
    Hold,
}

/// Why a signal was given.
#[derive(Clone, Copy, PartialEq, Eq, Structural, Debug)]
pub enum Reason {
    Momentum { price_change: Binary64, volume_ratio: Binary64 },
    MeanReversion { price_change: Binary64, liquidity_ratio: Binary64 },
    Breakout { volume_spike: Binary64, price_change: Binary64 },
    VolumeSpike { multiplier: Binary64, holders: u32 },
    HolderGrowth { holders: u32, market_cap_millions: Binary64 },
    LiquidityDepth { ratio: Binary64, liquidity_usd: u64, market_cap: u64 },
    PumpSwapSniper { age_secs: u64, window_secs: u64 },
    CopyTrade,
    MomentumReversal { price: Binary64, average: Binary64, window_secs: u64, pnl: Binary64 },
    StopLoss { loss: Binary64 },
    TrailingStop {
        peak: Binary64,
        threshold: Binary64,
        trail: Binary64,
        pnl: Binary64,
        exit_at: Binary64,
    },
    ProfitTarget { pnl: Binary64 },
    TimeExit { minutes: u64, max_minutes: u64 },
    LiquidityExit { liquidity: Binary64, min_liquidity: Binary64 },
    VelocityExit { rate: Binary64, seconds: Binary64, max_rate: Binary64 },
}

/// Advice to trade a token.
#[derive(Debug)]
pub struct TradingSignal {
    pub token: TokenInfo,
    pub action: Action,
    pub confidence: Binary64,
    pub reason: Reason,
    pub expected_price: Option<Binary64>,
    /// The lamports to spend, in place of an amount that follows from the confidence.
    pub override_buy_amount: Option<u64>,
}

#[verifier::ext_equal]
pub struct SignalView {
    pub token: TokenInfoView,
    pub action: Action,
    pub confidence: Binary64,
    pub reason: Reason,
    pub expected_price: Option<Binary64>,
    pub override_buy_amount: Option<u64>,
}

impl View for TradingSignal {
    type V = SignalView;

    open spec fn view(&self) -> SignalView {
        SignalView {
            token: self.token@,
            action: self.action,
            confidence: self.confidence,
            reason: self.reason,
            expected_price: self.expected_price,
            override_buy_amount: self.override_buy_amount,
        }
    }
}

/// What signals say.
pub open spec fn signal_views(signals: Seq<TradingSignal>) -> Seq<SignalView> {
    signals.map_values(|s: TradingSignal| s@)
}

/// A strategy with its settings.
pub struct StrategyConfig {
    pub strategy: TradingStrategy,
    pub parameters: Keyed<Binary64>,
    pub enabled: bool,
}

/// The setting under `key`, or `otherwise` where there is none.
pub open spec fn setting(
    parameters: Map<Seq<char>, Binary64>,
    key: Seq<char>,
    otherwise: Binary64,
) -> Binary64 {
    if parameters.dom().contains(key) {
        parameters[key]
    } else {
        otherwise
    }
}

/// A buy signal for `token`.
pub open spec fn buy_signal(
    token: TokenInfoView,
    confidence: Binary64,
    reason: Reason,
    expected_price: Option<Binary64>,
) -> SignalView {
    SignalView {
        token,
        action: Action::Buy,
        confidence,
        reason,
        expected_price,
        override_buy_amount: None,
    }
}

/// 24-hour volume over liquidity.
pub open spec fn volume_ratio(token: TokenInfoView) -> Binary64 {
    Binary64::from_u64(token.volume_24h).over(Binary64::from_u64(token.liquidity))
}

/// Liquidity over market capitalisation.
pub open spec fn liquidity_ratio(token: TokenInfoView) -> Binary64 {
    Binary64::from_u64(token.liquidity).over(Binary64::from_u64(token.market_cap))
}

/// Market capitalisation in millions.
pub open spec fn market_cap_millions(token: TokenInfoView) -> Binary64 {
    Binary64::from_u64(token.market_cap).over(Binary64::from_u64(1_000_000))
}

/// The price raised by so many hundredths.
pub open spec fn price_times(token: TokenInfoView, hundredths: u64) -> Option<Binary64> {
    Some(token.price_usd.times(Binary64::ratio(hundredths, 100)))
}

/// A confidence: a figure over what counts as certainty, at most one.
pub open spec fn confidence_of(figure: Binary64, certainty: Binary64) -> Binary64 {
    figure.over(certainty).at_most(Binary64::from_u64(1))
}

/// What the sniper advises: to buy a token that graduated within the window.
pub open spec fn sniper_signal(token: TokenInfoView, p: Map<Seq<char>, Binary64>) -> Option<
    SignalView,
> {
    let window = setting(p, "ps_sniper_freshness_secs"@, Binary64::from_u64(30)).to_u64();
    match token.just_graduated_at_secs {
        Some(age) if age <= window => Some(
            buy_signal(
                token,
                Binary64::from_u64(1),
                Reason::PumpSwapSniper { age_secs: age, window_secs: window },
                None,
            ),
        ),
        _ => None,
    }
}

/// What momentum advises: to buy what rises under volume.
pub open spec fn momentum_signal(token: TokenInfoView, p: Map<Seq<char>, Binary64>) -> Option<
    SignalView,
> {
    let rises = setting(p, "min_price_change"@, Binary64::from_u64(5)).le(token.price_change_24h);
    let ratio = volume_ratio(token);
    if rises && setting(p, "min_volume_ratio"@, Binary64::from_u64(2)).le(ratio) {
        Some(
            buy_signal(
                token,
                confidence_of(token.price_change_24h, Binary64::from_u64(100)),
                Reason::Momentum { price_change: token.price_change_24h, volume_ratio: ratio },
                price_times(token, 110),
            ),
        )
    } else {
        None
    }
}

/// What mean reversion advises: to buy what fell and stayed liquid.
pub open spec fn mean_reversion_signal(token: TokenInfoView, p: Map<Seq<char>, Binary64>) -> Option<
    SignalView,
> {
    let fell = token.price_change_24h.le(
        setting(p, "max_price_change"@, Binary64::from_u64(5).negated()),
    );
    let ratio = liquidity_ratio(token);
    if fell && setting(p, "min_liquidity_ratio"@, Binary64::ratio(5, 100)).le(ratio) {
        Some(
            buy_signal(
                token,
                confidence_of(token.price_change_24h.negated(), Binary64::from_u64(100)),
                Reason::MeanReversion {
                    price_change: token.price_change_24h,
                    liquidity_ratio: ratio,
                },
                price_times(token, 105),
            ),
        )
    } else {
        None
    }
}

/// What breakout advises: to buy a volume spike with a rising price.
pub open spec fn breakout_signal(token: TokenInfoView, p: Map<Seq<char>, Binary64>) -> Option<
    SignalView,
> {
    let spike = volume_ratio(token);
    let rises = setting(p, "min_price_momentum"@, Binary64::from_u64(1)).le(token.price_change_24h);
    if rises && setting(p, "min_volume_spike"@, Binary64::ratio(15, 10)).le(spike) {
        Some(
            buy_signal(
                token,
                confidence_of(spike, Binary64::from_u64(10)),
                Reason::Breakout { volume_spike: spike, price_change: token.price_change_24h },
                price_times(token, 115),
            ),
        )
    } else {
        None
    }
}

/// What the volume spike advises: to buy on sudden volume with enough holders.
pub open spec fn volume_spike_signal(token: TokenInfoView, p: Map<Seq<char>, Binary64>) -> Option<
    SignalView,
> {
    let multiplier = volume_ratio(token);
    let held = token.holders >= setting(p, "min_holder_count"@, Binary64::from_u64(5)).to_u32();
    if held && setting(p, "min_volume_multiplier"@, Binary64::from_u64(2)).le(multiplier) {
        Some(
            buy_signal(
                token,
                confidence_of(multiplier, Binary64::from_u64(20)),
                Reason::VolumeSpike { multiplier, holders: token.holders },
                price_times(token, 120),
            ),
        )
    } else {
        None
    }
}

/// What holder growth advises: to buy what many hold, at a tenth of a holder for each million of
/// market capitalisation at least.
pub open spec fn holder_growth_signal(token: TokenInfoView, p: Map<Seq<char>, Binary64>) -> Option<
    SignalView,
> {
    let held = token.holders >= setting(p, "min_growth_holders"@, Binary64::from_u64(10)).to_u32();
    let capped = token.market_cap >= setting(
        p,
        "min_growth_market_cap"@,
        Binary64::from_u64(3_000),
    ).to_u64();
    let millions = market_cap_millions(token);
    let ratio = Binary64::from_u64(token.holders as u64).over(millions);
    if held && capped && Binary64::ratio(1, 10).le(ratio) {
        Some(
            buy_signal(
                token,
                confidence_of(ratio, Binary64::from_u64(2)),
                Reason::HolderGrowth { holders: token.holders, market_cap_millions: millions },
                price_times(token, 108),
            ),
        )
    } else {
        None
    }
}

/// What liquidity depth advises: to buy what is small and liquid.
pub open spec fn liquidity_depth_signal(
    token: TokenInfoView,
    p: Map<Seq<char>, Binary64>,
) -> Option<SignalView> {
    let liquid = token.liquidity >= setting(
        p,
        "min_liquidity_usd"@,
        Binary64::from_u64(5_000),
    ).to_u64();
    let small = token.market_cap <= setting(
        p,
        "max_market_cap"@,
        Binary64::from_u64(5_000_000),
    ).to_u64();
    let ratio = liquidity_ratio(token);
    if token.market_cap != 0 && liquid && small && setting(
        p,
        "min_liq_mcap_ratio"@,
        Binary64::ratio(3, 100),
    ).le(ratio) {
        Some(
            buy_signal(
                token,
                confidence_of(ratio, Binary64::ratio(2, 10)),
                Reason::LiquidityDepth {
                    ratio,
                    liquidity_usd: token.liquidity,
                    market_cap: token.market_cap,
                },
                price_times(token, 110),
            ),
        )
    } else {
        None
    }
}

/// What a strategy advises of a token.
pub open spec fn strategy_signal(
    strategy: TradingStrategy,
    token: TokenInfoView,
    p: Map<Seq<char>, Binary64>,
) -> Option<SignalView> {
    match strategy {
        TradingStrategy::Momentum => momentum_signal(token, p),
        TradingStrategy::MeanReversion => mean_reversion_signal(token, p),
        TradingStrategy::Breakout => breakout_signal(token, p),
        TradingStrategy::VolumeSpike => volume_spike_signal(token, p),
        TradingStrategy::HolderGrowth => holder_growth_signal(token, p),
        TradingStrategy::LiquidityDepth => liquidity_depth_signal(token, p),
        TradingStrategy::PumpSwapSniper => sniper_signal(token, p),
    }
}

/// A strategy with its settings, as values.
pub struct StrategyView {
    pub strategy: TradingStrategy,
    pub parameters: Map<Seq<char>, Binary64>,
    pub enabled: bool,
}

impl View for StrategyConfig {
    type V = StrategyView;

    open spec fn view(&self) -> StrategyView {
        StrategyView {
            strategy: self.strategy,
            parameters: self.parameters@,
            enabled: self.enabled,
        }
    }
}

pub open spec fn strategy_views(strategies: Seq<StrategyConfig>) -> Seq<StrategyView> {
    strategies.map_values(|s: StrategyConfig| s@)
}

/// The advice of all enabled strategies on a token, in the order of the strategies.
pub open spec fn all_signals(strategies: Seq<StrategyView>, token: TokenInfoView) -> Seq<SignalView>
    decreases strategies.len(),
{
    if strategies.len() == 0 {
        Seq::empty()
    } else {
        let before = all_signals(strategies.drop_last(), token);
        let s = strategies.last();
        if s.enabled {
            match strategy_signal(s.strategy, token, s.parameters) {
                Some(signal) => before.push(signal),
                None => before,
            }
        } else {
            before
        }
    }
}

/// The advice of a strategy matches what it is stated to be.
pub open spec fn gives(r: Option<TradingSignal>, signal: Option<SignalView>) -> bool {
    match r {
        Some(s) => signal == Some(s@),
        None => signal == None::<SignalView>,
    }
}

fn parameter(p: &Keyed<Binary64>, key: &str, otherwise: Binary64) -> (r: Binary64)
    ensures
        r == setting(p@, key@, otherwise),
{
    match p.get(key) {
        Some(v) => *v,
        None => otherwise,
    }
}

fn buy(
    token: &TokenInfo,
    confidence: Binary64,
    reason: Reason,
    expected_price: Option<Binary64>,
) -> (r: TradingSignal)
    ensures
        r@ == buy_signal(token@, confidence, reason, expected_price),
{
    TradingSignal {
        token: token.clone(),
        action: Action::Buy,
        confidence,
        reason,
        expected_price,
        override_buy_amount: None,
    }
}

fn capped_confidence(figure: Binary64, certainty: Binary64) -> (r: Binary64)
    ensures
        r == confidence_of(figure, certainty),
{
    figure.over(certainty).at_most(Binary64::from_u64(1))
}

fn raised_price(token: &TokenInfo, hundredths: u64) -> (r: Option<Binary64>)
    ensures
        r == price_times(token@, hundredths),
{
    Some(token.price_usd.times(Binary64::ratio(hundredths, 100)))
}

/// Applies the enabled strategies to tokens.
pub struct StrategyEngine {
    strategies: Vec<StrategyConfig>,
}

impl View for StrategyEngine {
    type V = Seq<StrategyView>;

    closed spec fn view(&self) -> Seq<StrategyView> {
        strategy_views(self.strategies@)
    }
}

impl StrategyEngine {
    pub fn new(strategies: Vec<StrategyConfig>) -> (r: Self)
        ensures
            r@ == strategy_views(strategies@),
    {
        StrategyEngine { strategies }
    }

    /// The advice of all enabled strategies on a token.
    pub fn analyze_token(&self, token: &TokenInfo) -> (r: Vec<TradingSignal>)
        ensures
            signal_views(r@) == all_signals(self@, token@),
    {
        let mut signals: Vec<TradingSignal> = Vec::new();
        let mut i: usize = 0;
        let ghost all = self@;
        while i < self.strategies.len()
            invariant
                i <= self.strategies@.len(),
                all == strategy_views(self.strategies@),
                signal_views(signals@) =~= all_signals(all.take(i as int), token@),
            decreases self.strategies@.len() - i,
        {
            let config: &StrategyConfig = &self.strategies[i];
            assert(all.take(i + 1).drop_last() =~= all.take(i as int));
            assert(all.take(i + 1).last() == config@);
            let ghost before = signal_views(signals@);
            if config.enabled {
                let signal: Option<TradingSignal> = match config.strategy {
                    TradingStrategy::Momentum => self.momentum_strategy(token, &config.parameters),
                    TradingStrategy::MeanReversion => self.mean_reversion_strategy(
                        token,
                        &config.parameters,
                    ),
                    TradingStrategy::Breakout => self.breakout_strategy(token, &config.parameters),
                    TradingStrategy::VolumeSpike => self.volume_spike_strategy(
                        token,
                        &config.parameters,
                    ),
                    TradingStrategy::HolderGrowth => self.holder_growth_strategy(
                        token,
                        &config.parameters,
                    ),
                    TradingStrategy::LiquidityDepth => self.liquidity_depth_strategy(
                        token,
                        &config.parameters,
                    ),
                    TradingStrategy::PumpSwapSniper => self.ps_sniper_strategy(
                        token,
                        &config.parameters,
                    ),
                };
                if let Some(s) = signal {
                    signals.push(s);
                    assert(signal_views(signals@) =~= before.push(s@));
                }
            }
            i = i + 1;
        }
        assert(all.take(all.len() as int) =~= all);
        signals
    }

    pub fn ps_sniper_strategy(&self, token: &TokenInfo, params: &Keyed<Binary64>) -> (r: Option<
        TradingSignal,
    >)
        ensures
            gives(r, sniper_signal(token@, params@)),
    {
        let window: u64 = parameter(
            params,
            "ps_sniper_freshness_secs",
            Binary64::from_u64(30),
        ).to_u64();
        match token.just_graduated_at_secs {
            Some(age) => {
                if age > window {
                    return None;
                }
                Some(
                    buy(
                        token,
                        Binary64::from_u64(1),
                        Reason::PumpSwapSniper { age_secs: age, window_secs: window },
                        None,
                    ),
                )
            },
            None => None,
        }
    }

    pub fn momentum_strategy(&self, token: &TokenInfo, params: &Keyed<Binary64>) -> (r: Option<
        TradingSignal,
    >)
        ensures
            gives(r, momentum_signal(token@, params@)),
    {
        let min_price_change = parameter(params, "min_price_change", Binary64::from_u64(5));
        let min_volume_ratio = parameter(params, "min_volume_ratio", Binary64::from_u64(2));
        if min_price_change.le(token.price_change_24h) {
            let ratio = Binary64::from_u64(token.volume_24h).over(
                Binary64::from_u64(token.liquidity),
            );
            if min_volume_ratio.le(ratio) {
                return Some(
                    buy(
                        token,
                        capped_confidence(token.price_change_24h, Binary64::from_u64(100)),
                        Reason::Momentum {
                            price_change: token.price_change_24h,
                            volume_ratio: ratio,
                        },
                        raised_price(token, 110),
                    ),
                );
            }
        }
        None
    }

    pub fn mean_reversion_strategy(&self, token: &TokenInfo, params: &Keyed<Binary64>) -> (r:
        Option<TradingSignal>)
        ensures
            gives(r, mean_reversion_signal(token@, params@)),
    {
        let max_price_change = parameter(
            params,
            "max_price_change",
            Binary64::from_u64(5).negated(),
        );
        let min_liquidity_ratio = parameter(
            params,
            "min_liquidity_ratio",
            Binary64::ratio(5, 100),
        );
        if token.price_change_24h.le(max_price_change) {
            let ratio = Binary64::from_u64(token.liquidity).over(
                Binary64::from_u64(token.market_cap),
            );
            if min_liquidity_ratio.le(ratio) {
                return Some(
                    buy(
                        token,
                        capped_confidence(
                            token.price_change_24h.negated(),
                            Binary64::from_u64(100),
                        ),
                        Reason::MeanReversion {
                            price_change: token.price_change_24h,
                            liquidity_ratio: ratio,
                        },
                        raised_price(token, 105),
                    ),
                );
            }
        }
        None
    }

    pub fn breakout_strategy(&self, token: &TokenInfo, params: &Keyed<Binary64>) -> (r: Option<
        TradingSignal,
    >)
        ensures
            gives(r, breakout_signal(token@, params@)),
    {
        let min_volume_spike = parameter(params, "min_volume_spike", Binary64::ratio(15, 10));
        let min_price_momentum = parameter(params, "min_price_momentum", Binary64::from_u64(1));
        let spike = Binary64::from_u64(token.volume_24h).over(Binary64::from_u64(token.liquidity));
        if min_volume_spike.le(spike) && min_price_momentum.le(token.price_change_24h) {
            return Some(
                buy(
                    token,
                    capped_confidence(spike, Binary64::from_u64(10)),
                    Reason::Breakout { volume_spike: spike, price_change: token.price_change_24h },
                    raised_price(token, 115),
                ),
            );
        }
        None
    }

    pub fn volume_spike_strategy(&self, token: &TokenInfo, params: &Keyed<Binary64>) -> (r: Option<
        TradingSignal,
    >)
        ensures
            gives(r, volume_spike_signal(token@, params@)),
    {
        let min_volume_multiplier = parameter(
            params,
            "min_volume_multiplier",
            Binary64::from_u64(2),
        );
        let min_holders: u32 = parameter(
            params,
            "min_holder_count",
            Binary64::from_u64(5),
        ).to_u32();
        let multiplier = Binary64::from_u64(token.volume_24h).over(
            Binary64::from_u64(token.liquidity),
        );
        if min_volume_multiplier.le(multiplier) && token.holders >= min_holders {
            return Some(
                buy(
                    token,
                    capped_confidence(multiplier, Binary64::from_u64(20)),
                    Reason::VolumeSpike { multiplier, holders: token.holders },
                    raised_price(token, 120),
                ),
            );
        }
        None
    }

    pub fn holder_growth_strategy(&self, token: &TokenInfo, params: &Keyed<Binary64>) -> (r: Option<
        TradingSignal,
    >)
        ensures
            gives(r, holder_growth_signal(token@, params@)),
    {
        let min_holders: u32 = parameter(
            params,
            "min_growth_holders",
            Binary64::from_u64(10),
        ).to_u32();
        let min_market_cap: u64 = parameter(
            params,
            "min_growth_market_cap",
            Binary64::from_u64(3_000),
        ).to_u64();
        if token.holders >= min_holders && token.market_cap >= min_market_cap {
            let millions = Binary64::from_u64(token.market_cap).over(Binary64::from_u64(1_000_000));
            let ratio = Binary64::from_u64(token.holders as u64).over(millions);
            if Binary64::ratio(1, 10).le(ratio) {
                return Some(
                    buy(
                        token,
                        capped_confidence(ratio, Binary64::from_u64(2)),
                        Reason::HolderGrowth {
                            holders: token.holders,
                            market_cap_millions: millions,
                        },
                        raised_price(token, 108),
                    ),
                );
            }
        }
        None
    }

    pub fn liquidity_depth_strategy(&self, token: &TokenInfo, params: &Keyed<Binary64>) -> (r:
        Option<TradingSignal>)
        ensures
            gives(r, liquidity_depth_signal(token@, params@)),
    {
        let min_ratio = parameter(params, "min_liq_mcap_ratio", Binary64::ratio(3, 100));
        let min_liquidity: u64 = parameter(
            params,
            "min_liquidity_usd",
            Binary64::from_u64(5_000),
        ).to_u64();
        let max_market_cap: u64 = parameter(
            params,
            "max_market_cap",
            Binary64::from_u64(5_000_000),
        ).to_u64();
        if token.market_cap == 0 || token.liquidity < min_liquidity {
            return None;
        }
        if token.market_cap > max_market_cap {
            return None;
        }
        let ratio = Binary64::from_u64(token.liquidity).over(Binary64::from_u64(token.market_cap));
        if min_ratio.le(ratio) {
            return Some(
                buy(
                    token,
                    capped_confidence(ratio, Binary64::ratio(2, 10)),
                    Reason::LiquidityDepth {
                        ratio,
                        liquidity_usd: token.liquidity,
                        market_cap: token.market_cap,
                    },
                    raised_price(token, 110),
                ),
            );
        }
        None
    }
}

/// A strategy only ever advises to buy the token it was asked about, with a confidence of at most
/// one, and leaves the amount open.
pub proof fn law_strategies_only_buy(
    strategy: TradingStrategy,
    token: TokenInfoView,
    p: Map<Seq<char>, Binary64>,
)
    ensures
        strategy_signal(strategy, token, p) matches Some(signal) ==> {
            &&& signal.action == Action::Buy
            &&& signal.token == token
            &&& signal.confidence.le(Binary64::from_u64(1))
            &&& signal.override_buy_amount is None
        },
{
    crate::binary64::law_whole_numbers_are_exact(1);
}

/// Every signal is the advice of an enabled strategy.
pub proof fn law_signals_come_from_enabled_strategies(
    strategies: Seq<StrategyView>,
    token: TokenInfoView,
    i: int,
)
    requires
        0 <= i < all_signals(strategies, token).len(),
    ensures
        exists|k: int|
            0 <= k < strategies.len() && (#[trigger] strategies[k]).enabled && strategy_signal(
                strategies[k].strategy,
                token,
                strategies[k].parameters,
            ) == Some(all_signals(strategies, token)[i]),
    decreases strategies.len(),
{
    let front = strategies.drop_last();
    let before = all_signals(front, token);
    let last = strategies.len() - 1;
    if i < before.len() {
        law_signals_come_from_enabled_strategies(front, token, i);
        let k = choose|k: int|
            0 <= k < front.len() && (#[trigger] front[k]).enabled && strategy_signal(
                front[k].strategy,
                token,
                front[k].parameters,
            ) == Some(before[i]);
        assert(strategies[k] == front[k]);
        assert(all_signals(strategies, token)[i] == before[i]);
    } else {
        assert(strategies[last] == strategies.last());
    }
}

/// There are no more signals than strategies.
pub proof fn law_one_signal_per_strategy(strategies: Seq<StrategyView>, token: TokenInfoView)
    ensures
        all_signals(strategies, token).len() <= strategies.len(),
    decreases strategies.len(),
{
    if strategies.len() > 0 {
        law_one_signal_per_strategy(strategies.drop_last(), token);
    }
}

/// The sniper fires on tokens that come from a graduation, and on no others.
pub proof fn law_sniper_needs_a_graduation(token: TokenInfoView, p: Map<Seq<char>, Binary64>)
    ensures
        token.just_graduated_at_secs is None ==> sniper_signal(token, p) is None,
        token.just_graduated_at_secs == Some(0u64) ==> sniper_signal(token, p) is Some
            && sniper_signal(token, p)->0.confidence == Binary64::from_u64(1),
{
}

/// The strategies do not know of each other: the advice of two lists of strategies, one behind
/// the other, is the advice of the first and then that of the second.
pub proof fn law_strategies_are_asked_one_by_one(
    first: Seq<StrategyView>,
    second: Seq<StrategyView>,
    token: TokenInfoView,
)
    ensures
        all_signals(first + second, token) == all_signals(first, token) + all_signals(
            second,
            token,
        ),
    decreases second.len(),
{
    if second.len() == 0 {
        assert(first + second =~= first);
        assert(all_signals(first, token) + all_signals(second, token) =~= all_signals(
            first,
            token,
        ));
    } else {
        let front = second.drop_last();
        law_strategies_are_asked_one_by_one(first, front, token);
        assert((first + second).drop_last() =~= first + front);
        assert((first + second).last() == second.last());
        assert(all_signals(first + second, token) =~= all_signals(first, token) + all_signals(
            second,
            token,
        ));
    }
}

/// Every enabled strategy is heard: where it advises to buy, its signal is among the signals,
/// whatever the other strategies say.
pub proof fn law_enabled_strategies_are_heard(
    strategies: Seq<StrategyView>,
    token: TokenInfoView,
    k: int,
)
    requires
        0 <= k < strategies.len(),
        strategies[k].enabled,
        strategy_signal(strategies[k].strategy, token, strategies[k].parameters) is Some,
    ensures
        all_signals(strategies, token).contains(
            strategy_signal(strategies[k].strategy, token, strategies[k].parameters)->0,
        ),
{
    let s = strategies[k];
    let signal = strategy_signal(s.strategy, token, s.parameters)->0;
    let (front, one, rest) = (strategies.take(k), seq![s], strategies.skip(k + 1));
    assert(strategies =~= front + (one + rest));
    law_strategies_are_asked_one_by_one(front, one + rest, token);
    law_strategies_are_asked_one_by_one(one, rest, token);
    assert(one.drop_last() =~= Seq::<StrategyView>::empty());
    reveal_with_fuel(all_signals, 2);
    assert(all_signals(one, token) =~= seq![signal]);
    let place = all_signals(front, token).len() as int;
    assert(all_signals(strategies, token)[place] == signal);
}

/// A strategy that is switched off, or that does not advise to buy, leaves no trace: the signals
/// are those without it.
pub proof fn law_silent_strategies_leave_no_trace(
    strategies: Seq<StrategyView>,
    token: TokenInfoView,
    k: int,
)
    requires
        0 <= k < strategies.len(),
        !strategies[k].enabled || strategy_signal(
            strategies[k].strategy,
            token,
            strategies[k].parameters,
        ) is None,
    ensures
        all_signals(strategies, token) == all_signals(strategies.remove(k), token),
{
    let s = strategies[k];
    let (front, one, rest) = (strategies.take(k), seq![s], strategies.skip(k + 1));
    assert(strategies =~= front + (one + rest));
    assert(strategies.remove(k) =~= front + rest);
    law_strategies_are_asked_one_by_one(front, one + rest, token);
    law_strategies_are_asked_one_by_one(one, rest, token);
    law_strategies_are_asked_one_by_one(front, rest, token);
    assert(one.drop_last() =~= Seq::<StrategyView>::empty());
    reveal_with_fuel(all_signals, 2);
    assert(all_signals(one, token) =~= Seq::<SignalView>::empty());
    assert(all_signals(strategies, token) =~= all_signals(strategies.remove(k), token));
}

/// What the strategies weigh: the volume of a day and the liquidity against one another, the
/// liquidity against the capitalisation, and the capitalisation in millions.
pub proof fn law_figures_are_weighed(token: TokenInfoView, other: TokenInfoView)
    requires
        token.volume_24h == other.volume_24h,
        token.liquidity == other.liquidity,
        token.market_cap == other.market_cap,
        0 < token.liquidity < 0x20_0000_0000_0000,
        0 < token.market_cap < 0x20_0000_0000_0000,
    ensures
        volume_ratio(token) == Binary64::ratio(token.volume_24h, token.liquidity),
        liquidity_ratio(token) == Binary64::ratio(token.liquidity, token.market_cap),
        market_cap_millions(token) == Binary64::ratio(token.market_cap, 1_000_000),
        volume_ratio(token) == volume_ratio(other),
        liquidity_ratio(token) == liquidity_ratio(other),
        market_cap_millions(token) == market_cap_millions(other),
        token.volume_24h == token.liquidity ==> volume_ratio(token) == Binary64::from_u64(1),
{
    crate::binary64::law_whole_numbers_are_exact(token.liquidity);
    crate::binary64::law_whole_quotients_are_exact(1, token.liquidity);
    assert(1 * token.liquidity == token.liquidity) by (nonlinear_arith);
}

/// Confidence grows with the figure up to the one that makes certain, and is full from there on.
pub proof fn law_confidence_is_full_from_certainty_on(figure: u64, certainty: u64)
    requires
        figure < 0x20_0000_0000_0000,
        0 < certainty < 0x20_0000_0000_0000,
    ensures
        figure >= certainty ==> confidence_of(
            Binary64::from_u64(figure),
            Binary64::from_u64(certainty),
        ).eq_number(Binary64::from_u64(1)),
        figure <= certainty ==> confidence_of(
            Binary64::from_u64(figure),
            Binary64::from_u64(certainty),
        ) == Binary64::ratio(figure, certainty),
{
    let (f, c, one) = (
        Binary64::from_u64(figure),
        Binary64::from_u64(certainty),
        Binary64::from_u64(1),
    );
    crate::binary64::law_whole_numbers_are_exact(figure);
    crate::binary64::law_whole_numbers_are_exact(certainty);
    crate::binary64::law_whole_numbers_are_exact(1);
    crate::binary64::law_whole_order_is_kept(figure, certainty);
    crate::binary64::law_whole_order_is_kept(certainty, figure);
    crate::binary64::law_whole_order_is_kept(0, certainty);
    crate::binary64::law_whole_quotients_are_exact(1, certainty);
    assert(1 * certainty == certainty) by (nonlinear_arith);
    crate::binary64::law_whole_quotients_have_a_sign(figure, certainty);
    if figure >= certainty {
        crate::binary64::law_quotients_keep_order(c, f, c);
    }
    if figure <= certainty {
        crate::binary64::law_quotients_keep_order(f, c, c);
    }
}

/// What a signal tells of its strategy: how sure it is and which price it expects.
pub proof fn law_signals_tell_their_expectations(token: TokenInfoView, p: Map<Seq<char>, Binary64>)
    ensures
        ({
            let expects = |signal: SignalView, hundredths: u64|
                signal.expected_price == Some(
                    token.price_usd.times(Binary64::ratio(hundredths, 100)),
                );
            let sure = |signal: SignalView, figure: Binary64, certainty: Binary64|
                signal.confidence == figure.over(certainty).at_most(Binary64::from_u64(1));
            let (change, volume, liquidity) = (
                token.price_change_24h,
                Binary64::from_u64(token.volume_24h).over(Binary64::from_u64(token.liquidity)),
                Binary64::from_u64(token.liquidity).over(Binary64::from_u64(token.market_cap)),
            );
            let held = Binary64::from_u64(token.holders as u64).over(
                Binary64::from_u64(token.market_cap).over(Binary64::from_u64(1_000_000)),
            );
            &&& strategy_signal(TradingStrategy::Momentum, token, p) matches Some(s) ==> sure(
                s,
                change,
                Binary64::from_u64(100),
            ) && expects(s, 110)
            &&& strategy_signal(TradingStrategy::MeanReversion, token, p) matches Some(s) ==> sure(
                s,
                change.negated(),
                Binary64::from_u64(100),
            ) && expects(s, 105)
            &&& strategy_signal(TradingStrategy::Breakout, token, p) matches Some(s) ==> sure(
                s,
                volume,
                Binary64::from_u64(10),
            ) && expects(s, 115)
            &&& strategy_signal(TradingStrategy::VolumeSpike, token, p) matches Some(s) ==> sure(
                s,
                volume,
                Binary64::from_u64(20),
            ) && expects(s, 120)
            &&& strategy_signal(TradingStrategy::HolderGrowth, token, p) matches Some(s) ==> sure(
                s,
                held,
                Binary64::from_u64(2),
            ) && expects(s, 108)
            &&& strategy_signal(TradingStrategy::LiquidityDepth, token, p) matches Some(s) ==> sure(
                s,
                liquidity,
                Binary64::ratio(2, 10),
            ) && expects(s, 110)
            &&& strategy_signal(TradingStrategy::PumpSwapSniper, token, p) matches Some(s)
                ==> s.confidence == Binary64::from_u64(1) && s.expected_price is None
        }),
{
}

/// Where nothing is set, the strategies go by limits of their own.
pub proof fn law_strategies_have_limits_of_their_own(token: TokenInfoView)
    ensures
        ({
            let p = Map::<Seq<char>, Binary64>::empty();
            let asks = |strategy: TradingStrategy| strategy_signal(strategy, token, p) is Some;
            let (change, volume, liquidity) = (
                token.price_change_24h,
                Binary64::from_u64(token.volume_24h).over(Binary64::from_u64(token.liquidity)),
                Binary64::from_u64(token.liquidity).over(Binary64::from_u64(token.market_cap)),
            );
            &&& asks(TradingStrategy::Momentum) <==> Binary64::from_u64(5).le(change)
                && Binary64::from_u64(2).le(volume)
            &&& asks(TradingStrategy::MeanReversion) <==> change.le(Binary64::from_u64(5).negated())
                && Binary64::ratio(5, 100).le(liquidity)
            &&& asks(TradingStrategy::Breakout) <==> Binary64::from_u64(1).le(change)
                && Binary64::ratio(15, 10).le(volume)
            &&& asks(TradingStrategy::VolumeSpike) <==> token.holders >= 5 && Binary64::from_u64(
                2,
            ).le(volume)
            &&& asks(TradingStrategy::HolderGrowth) ==> token.holders >= 10 && token.market_cap
                >= 3_000
            &&& asks(TradingStrategy::LiquidityDepth) <==> token.market_cap != 0 && token.liquidity
                >= 5_000 && token.market_cap <= 5_000_000 && Binary64::ratio(3, 100).le(liquidity)
            &&& asks(TradingStrategy::PumpSwapSniper) <==> match token.just_graduated_at_secs {
                Some(age) => age <= 30,
                None => false,
            }
        }),
{
    crate::binary64::law_whole_numbers_are_exact(5);
    crate::binary64::law_whole_numbers_are_exact(10);
    crate::binary64::law_whole_numbers_are_exact(30);
    crate::binary64::law_whole_numbers_are_exact(3_000);
    crate::binary64::law_whole_numbers_are_exact(5_000);
    crate::binary64::law_whole_numbers_are_exact(5_000_000);
}

} // verus!
