//! Positions, and the trades that open and close them.
use crate::binary64::Binary64;
use crate::clock::Timestamp;
use crate::config::{ExitStrategies, Tier};
use crate::error::{joined, BotError, ErrorKind, ErrorView};
use crate::exits::{add_price, gain_percent, ExitCheck, ExitLevels, PricePoint, Standing};
use crate::keyed::Keyed;
use crate::pricing::{display_tokens, price_of, sol, PriceQuote, QuoteView};
use crate::pubkey::Pubkey;
use crate::pumpportal::{PoolView, PumpSwapPoolInfo, TokenInfo, TokenInfoView};
use crate::storage::{StoredPosition, StoredSnapshot};
use crate::strategies::{Action, Reason, SignalView, TradingSignal};
use crate::wallet::WalletManager;
use vstd::prelude::*;

verus! {

/// Seconds between two tries to sell once the slippage cannot rise any more.
pub const RETRY_SECONDS: i64 = 30;

/// Failures to price a position after which it is left alone for a while.
pub const MAX_PRICE_FAILURES: u32 = 3;

/// How often the balance is read after a sale.
pub const SETTLEMENT_READINGS: u32 = 5;

/// The slippage, in percent, of the next try to sell: each failed try adds ten points to the
/// base, up to 99.
pub open spec fn spec_escalated_slippage(base_slippage: Binary64, failures: u32) -> Binary64 {
    base_slippage.plus(
        Binary64::from_u64(failures as u64).times(Binary64::from_u64(10)),
    ).at_most(Binary64::from_u64(99))
}

/// The slippage, in percent, of the next try to sell.
#[verifier::when_used_as_spec(spec_escalated_slippage)]
pub fn escalated_slippage(base_slippage: Binary64, failures: u32) -> (r: Binary64)
    ensures
        r == escalated_slippage(base_slippage, failures),
{
    base_slippage.plus(
        Binary64::from_u64(failures as u64).times(Binary64::from_u64(10)),
    ).at_most(Binary64::from_u64(99))
}

/// Half a point below `k` percent.
pub open spec fn half_below(k: u32) -> Binary64 {
    Binary64::ratio((2 * k - 1) as u64, 2)
}

/// The greatest whole percentage from 1 to `k` that is at most half a point above `x`, or 1.
pub open spec fn whole_percent_to(x: Binary64, k: u32) -> u32
    decreases k,
{
    if k <= 1 {
        1
    } else if half_below(k).le(x) {
        k
    } else {
        whole_percent_to(x, (k - 1) as u32)
    }
}

/// A slippage as a whole percentage: rounded, halves up, and held between 1 and 99; nothing
/// where it is not a number.
pub open spec fn whole_slippage(x: Binary64) -> u32 {
    if x.is_nan() {
        0
    } else {
        whole_percent_to(x, 99)
    }
}

/// A slippage as a whole percentage.
pub fn slippage_percent(x: Binary64) -> (r: u32)
    ensures
        r == whole_slippage(x),
{
    if x.is_nan() {
        return 0;
    }
    let mut k: u32 = 99;
    while k > 1
        invariant
            1 <= k <= 99,
            whole_percent_to(x, 99) == whole_percent_to(x, k),
        decreases k,
    {
        if Binary64::ratio((2 * k - 1) as u64, 2).le(x) {
            return k;
        }
        k = k - 1;
    }
    1
}

/// A token that is held.
#[derive(Debug)]
pub struct Position {
    pub token_address: String,
    pub token_mint: Pubkey,
    /// Raw token units.
    pub amount: u64,
    /// SOL per display token.
    pub entry_price: Binary64,
    pub entry_time: Timestamp,
    pub peak_pnl_percent: Binary64,
    pub source_wallet: Option<String>,
    pub sol_spent: Binary64,
    pub cached_market_cap: Option<u64>,
    pub cached_holders: Option<u32>,
    pub cached_volume_24h: Option<u64>,
    pub cached_liquidity: Option<u64>,
    pub last_enrichment: Option<Timestamp>,
    pub price_history: Vec<PricePoint>,
    /// Failed tries to sell since the position was opened or last sold from.
    pub sell_failures: u32,
    pub last_sell_failure: Option<Timestamp>,
    /// Failures to price the position since the last success.
    pub price_failures: u32,
    pub last_price_failure: Option<Timestamp>,
}

#[verifier::ext_equal]
pub struct PositionView {
    pub token_address: Seq<char>,
    pub token_mint: Seq<u8>,
    pub amount: u64,
    pub entry_price: Binary64,
    pub entry_time: Timestamp,
    pub peak_pnl_percent: Binary64,
    pub source_wallet: Option<Seq<char>>,
    pub sol_spent: Binary64,
    pub cached_market_cap: Option<u64>,
    pub cached_holders: Option<u32>,
    pub cached_volume_24h: Option<u64>,
    pub cached_liquidity: Option<u64>,
    pub last_enrichment: Option<Timestamp>,
    pub price_history: Seq<PricePoint>,
    pub sell_failures: u32,
    pub last_sell_failure: Option<Timestamp>,
    pub price_failures: u32,
    pub last_price_failure: Option<Timestamp>,
}

/// The characters of a text, where there is one.
pub open spec fn text_view(text: Option<String>) -> Option<Seq<char>> {
    match text {
        Some(t) => Some(t@),
        None => None,
    }
}

impl View for Position {
    type V = PositionView;

    open spec fn view(&self) -> PositionView {
        PositionView {
            token_address: self.token_address@,
            token_mint: self.token_mint@,
            amount: self.amount,
            entry_price: self.entry_price,
            entry_time: self.entry_time,
            peak_pnl_percent: self.peak_pnl_percent,
            source_wallet: text_view(self.source_wallet),
            sol_spent: self.sol_spent,
            cached_market_cap: self.cached_market_cap,
            cached_holders: self.cached_holders,
            cached_volume_24h: self.cached_volume_24h,
            cached_liquidity: self.cached_liquidity,
            last_enrichment: self.last_enrichment,
            price_history: self.price_history@,
            sell_failures: self.sell_failures,
            last_sell_failure: self.last_sell_failure,
            price_failures: self.price_failures,
            last_price_failure: self.last_price_failure,
        }
    }
}

/// A trade that was made.
#[derive(Debug)]
pub struct Trade {
    pub id: String,
    pub token_address: String,
    pub action: Action,
    pub amount: u64,
    pub price: Binary64,
    pub timestamp: Timestamp,
    pub signature: Option<String>,
    pub profit_loss: Option<Binary64>,
    pub sol_received: Option<Binary64>,
}

#[verifier::ext_equal]
pub struct TradeView {
    pub id: Seq<char>,
    pub token_address: Seq<char>,
    pub action: Action,
    pub amount: u64,
    pub price: Binary64,
    pub timestamp: Timestamp,
    pub signature: Option<Seq<char>>,
    pub profit_loss: Option<Binary64>,
    pub sol_received: Option<Binary64>,
}

impl View for Trade {
    type V = TradeView;

    open spec fn view(&self) -> TradeView {
        TradeView {
            id: self.id@,
            token_address: self.token_address@,
            action: self.action,
            amount: self.amount,
            price: self.price,
            timestamp: self.timestamp,
            signature: text_view(self.signature),
            profit_loss: self.profit_loss,
            sol_received: self.sol_received,
        }
    }
}

pub open spec fn trade_views(trades: Seq<Trade>) -> Seq<TradeView> {
    trades.map_values(|t: Trade| t@)
}

pub open spec fn position_views(positions: Map<Seq<char>, Position>) -> Map<
    Seq<char>,
    PositionView,
> {
    positions.map_values(|p: Position| p@)
}

pub open spec fn pool_views(pools: Map<Seq<char>, PumpSwapPoolInfo>) -> Map<Seq<char>, PoolView> {
    pools.map_values(|p: PumpSwapPoolInfo| p@)
}

/// What the engine was made with.
#[derive(Clone, Copy, PartialEq, Eq, Structural, Debug)]
pub struct EngineSettings {
    pub max_positions: usize,
    pub max_buy_amount: u64,
    pub max_slippage: Binary64,
    pub cooldown_seconds: u64,
    pub levels: ExitLevels,
}

/// Holds the positions and decides on trades.
pub struct TradingEngine {
    wallet: WalletManager,
    positions: Keyed<Position>,
    trade_history: Vec<Trade>,
    settings: EngineSettings,
    last_trade_time: Keyed<Timestamp>,
    trailing_thresholds: Vec<Tier>,
    pumpswap_pools: Keyed<PumpSwapPoolInfo>,
}

#[verifier::ext_equal]
pub struct EngineView {
    pub keypair: Seq<u8>,
    pub positions: Map<Seq<char>, PositionView>,
    pub trades: Seq<TradeView>,
    pub settings: EngineSettings,
    pub last_trade_time: Map<Seq<char>, Timestamp>,
    pub tiers: Seq<Tier>,
    pub pools: Map<Seq<char>, PoolView>,
}

impl View for TradingEngine {
    type V = EngineView;

    closed spec fn view(&self) -> EngineView {
        EngineView {
            keypair: self.wallet@,
            positions: position_views(self.positions@),
            trades: trade_views(self.trade_history@),
            settings: self.settings,
            last_trade_time: self.last_trade_time@,
            tiers: self.trailing_thresholds@,
            pools: pool_views(self.pumpswap_pools@),
        }
    }
}

/// The positions and the times of the last trades that a run starts with.
pub struct PositionSnapshot {
    pub positions: Keyed<Position>,
    pub last_trade_time: Keyed<Timestamp>,
}

/// What of a position outlasts a run: all but DexScreener's figures and the price history, which
/// the next run gathers anew.
pub open spec fn kept_position(position: PositionView) -> PositionView {
    PositionView {
        cached_market_cap: None,
        cached_holders: None,
        cached_volume_24h: None,
        cached_liquidity: None,
        last_enrichment: None,
        price_history: Seq::empty(),
        ..position
    }
}

pub open spec fn kept_positions(positions: Map<Seq<char>, PositionView>) -> Map<
    Seq<char>,
    PositionView,
> {
    positions.map_values(|p: PositionView| kept_position(p))
}

/// Whether a token was traded so lately that it is not bought again yet.
pub open spec fn in_cooldown(e: EngineView, address: Seq<char>, now: Timestamp) -> bool {
    e.last_trade_time.dom().contains(address) && now.seconds_since(e.last_trade_time[address])
        < e.settings.cooldown_seconds
}

/// The lamports that a buy spends: the signal's own amount, or the largest amount times the
/// confidence; in either case at most the largest amount.
pub open spec fn buy_amount(max: u64, signal: SignalView) -> u64 {
    let wanted = match signal.override_buy_amount {
        Some(amount) => amount,
        None => Binary64::from_u64(max).times(signal.confidence).to_u64(),
    };
    if wanted <= max {
        wanted
    } else {
        max
    }
}

/// Why a signal is not acted on.
#[derive(Clone, Copy, PartialEq, Eq, Structural, Debug)]
pub enum SkipReason {
    Cooldown,
    AlreadyHeld,
    MaxPositions,
    ZeroAmount,
    NotHeld,
    Hold,
}

/// How much a trade asks to be traded.
#[derive(Clone, Copy, PartialEq, Eq, Structural, Debug)]
pub enum TradeAmount {
    /// So much SOL is spent.
    Sol(Binary64),
    /// All of the tokens are sold.
    All,
    /// So many raw tokens are sold.
    Tokens(u64),
}

/// A request for an unsigned transaction that trades.
#[derive(Debug)]
pub struct TradeRequest {
    pub public_key: String,
    pub action: Action,
    pub mint: String,
    pub amount: TradeAmount,
    pub denominated_in_sol: bool,
    pub slippage: u32,
    pub priority_fee: Binary64,
    pub pool: &'static str,
}

#[verifier::ext_equal]
pub struct RequestView {
    pub public_key: Seq<char>,
    pub action: Action,
    pub mint: Seq<char>,
    pub amount: TradeAmount,
    pub denominated_in_sol: bool,
    pub slippage: u32,
    pub priority_fee: Binary64,
    pub pool: Seq<char>,
}

impl View for TradeRequest {
    type V = RequestView;

    open spec fn view(&self) -> RequestView {
        RequestView {
            public_key: self.public_key@,
            action: self.action,
            mint: self.mint@,
            amount: self.amount,
            denominated_in_sol: self.denominated_in_sol,
            slippage: self.slippage,
            priority_fee: self.priority_fee,
            pool: self.pool@,
        }
    }
}

/// The text of the wallet's address.
pub open spec fn wallet_text(e: EngineView) -> Seq<char> {
    crate::pubkey::base58_text(crate::wallet::keypair_address(e.keypair))
}

/// The request that buys a token for so many lamports.
pub open spec fn buy_request(e: EngineView, mint: Seq<char>, lamports: u64) -> RequestView {
    RequestView {
        public_key: wallet_text(e),
        action: Action::Buy,
        mint,
        amount: TradeAmount::Sol(sol(lamports)),
        denominated_in_sol: true,
        slippage: e.settings.max_slippage.to_u32(),
        priority_fee: Binary64::ratio(1, 1000),
        pool: "auto"@,
    }
}

/// The request that sells tokens.
pub open spec fn sell_request(
    e: EngineView,
    mint: Seq<char>,
    amount: u64,
    full_exit: bool,
    slippage: Binary64,
) -> RequestView {
    RequestView {
        public_key: wallet_text(e),
        action: Action::Sell,
        mint,
        amount: if full_exit {
            TradeAmount::All
        } else {
            TradeAmount::Tokens(amount)
        },
        denominated_in_sol: false,
        slippage: whole_slippage(slippage),
        priority_fee: Binary64::ratio(1, 1000),
        pool: "auto"@,
    }
}

/// A buy that is to be made.
#[derive(Debug)]
pub struct BuyPlan {
    pub lamports: u64,
    pub mint: Pubkey,
    pub request: TradeRequest,
}

/// What a signal leads to.
#[derive(Debug)]
pub enum SignalPlan {
    Skip(SkipReason),
    Buy(BuyPlan),
    /// The balance of this mint has to be read to sell it.
    Sell(Pubkey),
}

/// What a signal leads to, as a value.
pub enum SignalStep {
    Skip(SkipReason),
    Buy { lamports: u64, mint: Seq<u8>, request: RequestView },
    Sell(Seq<u8>),
    Fail(ErrorView),
}

impl View for SignalPlan {
    type V = SignalStep;

    open spec fn view(&self) -> SignalStep {
        match self {
            SignalPlan::Skip(reason) => SignalStep::Skip(*reason),
            SignalPlan::Buy(plan) => SignalStep::Buy {
                lamports: plan.lamports,
                mint: plan.mint@,
                request: plan.request@,
            },
            SignalPlan::Sell(mint) => SignalStep::Sell(mint@),
        }
    }
}

/// What a buy signal leads to.
pub open spec fn buy_step(e: EngineView, signal: SignalView) -> SignalStep {
    let lamports = buy_amount(e.settings.max_buy_amount, signal);
    if e.positions.dom().contains(signal.token.address) {
        SignalStep::Skip(SkipReason::AlreadyHeld)
    } else if e.positions.dom().len() >= e.settings.max_positions {
        SignalStep::Skip(SkipReason::MaxPositions)
    } else if lamports == 0 {
        SignalStep::Skip(SkipReason::ZeroAmount)
    } else {
        match crate::pubkey::base58_key(signal.token.address) {
            Ok(mint) => SignalStep::Buy {
                lamports,
                mint,
                request: buy_request(e, signal.token.address, lamports),
            },
            Err(error) => SignalStep::Fail(
                ErrorView {
                    kind: ErrorKind::InvalidTokenAddress,
                    detail: "Invalid token address: "@ + crate::pubkey::key_error_text(error),
                },
            ),
        }
    }
}

/// What a sell signal leads to.
pub open spec fn sell_step(e: EngineView, signal: SignalView) -> SignalStep {
    if e.positions.dom().contains(signal.token.address) {
        SignalStep::Sell(e.positions[signal.token.address].token_mint)
    } else {
        SignalStep::Skip(SkipReason::NotHeld)
    }
}

/// What a signal leads to. A cooldown holds everything but sales back.
pub open spec fn signal_step(e: EngineView, signal: SignalView, now: Timestamp) -> SignalStep {
    if signal.action != Action::Sell && in_cooldown(e, signal.token.address, now) {
        SignalStep::Skip(SkipReason::Cooldown)
    } else {
        match signal.action {
            Action::Buy => buy_step(e, signal),
            Action::Sell => sell_step(e, signal),
            Action::Hold => SignalStep::Skip(SkipReason::Hold),
        }
    }
}

impl TradingEngine {
    pub fn new(
        wallet: &WalletManager,
        max_positions: usize,
        max_buy_amount: u64,
        max_slippage: Binary64,
        profit_target_percent: Binary64,
        stop_loss_percent: Binary64,
        cooldown_seconds: u64,
        trailing_thresholds: Vec<Tier>,
        exit_strategies: ExitStrategies,
        snapshot: PositionSnapshot,
    ) -> (r: Self)
        ensures
            r@ == (EngineView {
                keypair: wallet@,
                positions: position_views(snapshot.positions@),
                trades: Seq::empty(),
                settings: (EngineSettings {
                    max_positions,
                    max_buy_amount,
                    max_slippage,
                    cooldown_seconds,
                    levels: (ExitLevels {
                        profit_target_percent,
                        stop_loss_percent,
                        strategies: exit_strategies,
                    }),
                }),
                last_trade_time: snapshot.last_trade_time@,
                tiers: trailing_thresholds@,
                pools: Map::empty(),
            }),
    {
        let r = TradingEngine {
            wallet: wallet.duplicate(),
            positions: snapshot.positions,
            trade_history: Vec::new(),
            settings: EngineSettings {
                max_positions,
                max_buy_amount,
                max_slippage,
                cooldown_seconds,
                levels: ExitLevels {
                    profit_target_percent,
                    stop_loss_percent,
                    strategies: exit_strategies,
                },
            },
            last_trade_time: snapshot.last_trade_time,
            trailing_thresholds,
            pumpswap_pools: Keyed::new(),
        };
        assert(r@.trades =~= Seq::<TradeView>::empty());
        assert(r@.pools =~= Map::<Seq<char>, PoolView>::empty());
        r
    }

    pub fn is_in_cooldown(&self, token_address: &str, now: Timestamp) -> (r: bool)
        ensures
            r == in_cooldown(self@, token_address@, now),
    {
        match self.last_trade_time.get(token_address) {
            Some(last) => (now.seconds_since(*last) as i128) < self.settings.cooldown_seconds
                as i128,
            None => false,
        }
    }

    pub fn calculate_buy_amount(&self, signal: &TradingSignal) -> (r: u64)
        ensures
            r == buy_amount(self@.settings.max_buy_amount, signal@),
            r <= self@.settings.max_buy_amount,
    {
        let max: u64 = self.settings.max_buy_amount;
        let wanted: u64 = match signal.override_buy_amount {
            Some(amount) => amount,
            None => Binary64::from_u64(max).times(signal.confidence).to_u64(),
        };
        if wanted <= max {
            wanted
        } else {
            max
        }
    }

    fn plan_buy(&self, signal: &TradingSignal) -> (r: Result<SignalPlan, BotError>)
        ensures
            match r {
                Ok(plan) => plan@ == buy_step(self@, signal@),
                Err(e) => buy_step(self@, signal@) == SignalStep::Fail(e@),
            },
    {
        let address: &str = signal.token.address.as_str();
        assert(self@.positions.dom() =~= self.positions@.dom());
        if self.positions.contains_key(address) {
            return Ok(SignalPlan::Skip(SkipReason::AlreadyHeld));
        }
        if self.positions.len() >= self.settings.max_positions {
            return Ok(SignalPlan::Skip(SkipReason::MaxPositions));
        }
        let lamports: u64 = self.calculate_buy_amount(signal);
        if lamports == 0 {
            return Ok(SignalPlan::Skip(SkipReason::ZeroAmount));
        }
        match Pubkey::parse(address) {
            Ok(mint) => {
                let request = TradeRequest {
                    public_key: self.wallet.get_address().to_text(),
                    action: Action::Buy,
                    mint: address.to_owned(),
                    amount: TradeAmount::Sol(sol(lamports)),
                    denominated_in_sol: true,
                    slippage: self.settings.max_slippage.to_u32(),
                    priority_fee: Binary64::ratio(1, 1000),
                    pool: "auto",
                };
                Ok(SignalPlan::Buy(BuyPlan { lamports, mint, request }))
            },
            Err(e) => Err(
                BotError::InvalidTokenAddress(joined("Invalid token address: ", e.message())),
            ),
        }
    }

    /// Decides what a signal leads to.
    pub fn execute_signal(&self, signal: &TradingSignal, now: Timestamp) -> (r: Result<
        SignalPlan,
        BotError,
    >)
        ensures
            match r {
                Ok(plan) => plan@ == signal_step(self@, signal@, now),
                Err(e) => signal_step(self@, signal@, now) == SignalStep::Fail(e@),
            },
    {
        let address: &str = signal.token.address.as_str();
        if signal.action != Action::Sell && self.is_in_cooldown(address, now) {
            return Ok(SignalPlan::Skip(SkipReason::Cooldown));
        }
        match signal.action {
            Action::Buy => self.plan_buy(signal),
            Action::Sell => match self.positions.get(address) {
                Some(position) => Ok(SignalPlan::Sell(position.token_mint)),
                None => Ok(SignalPlan::Skip(SkipReason::NotHeld)),
            },
            Action::Hold => Ok(SignalPlan::Skip(SkipReason::Hold)),
        }
    }
}

/// The price that a buy paid: what was spent over what came in. Where that is not known, the
/// price on the chain, and zero where that is not known either.
pub open spec fn entry_price(lamports: u64, tokens: u64, fallback: Option<QuoteView>) -> Binary64 {
    if executed(lamports, tokens) {
        price_of(lamports, tokens)
    } else {
        match fallback {
            Some(quote) if Binary64::from_u64(0).lt(quote.price) => quote.price,
            _ => Binary64::from_u64(0),
        }
    }
}

/// Whether a buy tells its own price.
pub open spec fn executed(lamports: u64, tokens: u64) -> bool {
    tokens > 0 && Binary64::from_u64(0).lt(sol(lamports))
}

/// Whether a price on the chain is needed in place of what a buy tells.
pub fn needs_fallback_price(lamports: u64, tokens: u64) -> (r: bool)
    ensures
        r == !executed(lamports, tokens),
{
    !(tokens > 0 && Binary64::from_u64(0).lt(sol(lamports)))
}

/// Whether a balance read right after a trade has to be read again.
pub fn needs_second_reading(balance: u64) -> (r: bool)
    ensures
        r == (balance == 0),
{
    balance == 0
}

/// What came of a buy.
#[derive(Debug)]
pub struct BuyOutcome {
    pub id: String,
    pub signature: String,
    /// Raw tokens that came in.
    pub tokens: u64,
    /// The price on the chain, where it was asked for and known.
    pub fallback: Option<PriceQuote>,
    /// The pool of the token, where one was looked for and found.
    pub discovered: Option<PumpSwapPoolInfo>,
    pub traded_at: Timestamp,
    pub now: Timestamp,
}

/// The quote as a value.
pub open spec fn quote_view(quote: Option<PriceQuote>) -> Option<QuoteView> {
    match quote {
        Some(q) => Some(q@),
        None => None,
    }
}

/// The pool that a fallback price brings along.
pub open spec fn fallback_pool(lamports: u64, tokens: u64, fallback: Option<QuoteView>) -> Option<
    PoolView,
> {
    match fallback {
        Some(quote) if !executed(lamports, tokens) && Binary64::from_u64(0).lt(
            quote.price,
        ) => quote.pool,
        _ => None,
    }
}

/// The known pools with one more, in place of an earlier one.
pub open spec fn with_pool(
    pools: Map<Seq<char>, PoolView>,
    address: Seq<char>,
    pool: Option<PoolView>,
) -> Map<Seq<char>, PoolView> {
    match pool {
        Some(p) => pools.insert(address, p),
        None => pools,
    }
}

/// The known pools with one more, unless one is known already.
pub open spec fn with_new_pool(
    pools: Map<Seq<char>, PoolView>,
    address: Seq<char>,
    pool: Option<PoolView>,
) -> Map<Seq<char>, PoolView> {
    if pools.dom().contains(address) {
        pools
    } else {
        with_pool(pools, address, pool)
    }
}

/// A position as it is opened.
pub open spec fn opened_position(
    address: Seq<char>,
    mint: Seq<u8>,
    lamports: u64,
    outcome: BuyOutcome,
) -> PositionView {
    PositionView {
        token_address: address,
        token_mint: mint,
        amount: outcome.tokens,
        entry_price: entry_price(lamports, outcome.tokens, quote_view(outcome.fallback)),
        entry_time: outcome.now,
        peak_pnl_percent: Binary64::from_u64(0),
        source_wallet: None,
        sol_spent: sol(lamports),
        cached_market_cap: None,
        cached_holders: None,
        cached_volume_24h: None,
        cached_liquidity: None,
        last_enrichment: None,
        price_history: Seq::empty(),
        sell_failures: 0,
        last_sell_failure: None,
        price_failures: 0,
        last_price_failure: None,
    }
}

/// The engine after a buy.
pub open spec fn after_buy(
    e: EngineView,
    address: Seq<char>,
    mint: Seq<u8>,
    lamports: u64,
    outcome: BuyOutcome,
) -> EngineView {
    let fallback = fallback_pool(lamports, outcome.tokens, quote_view(outcome.fallback));
    EngineView {
        positions: e.positions.insert(address, opened_position(address, mint, lamports, outcome)),
        last_trade_time: e.last_trade_time.insert(address, outcome.now),
        pools: with_new_pool(
            with_pool(e.pools, address, fallback),
            address,
            crate::pricing::pool_view(outcome.discovered),
        ),
        ..e
    }
}

/// The trade that a buy is recorded as.
pub open spec fn buy_trade(address: Seq<char>, lamports: u64, outcome: BuyOutcome) -> TradeView {
    TradeView {
        id: outcome.id@,
        token_address: address,
        action: Action::Buy,
        amount: outcome.tokens,
        price: entry_price(lamports, outcome.tokens, quote_view(outcome.fallback)),
        timestamp: outcome.traded_at,
        signature: Some(outcome.signature@),
        profit_loss: None,
        sol_received: None,
    }
}

/// What to do about a position that is to be sold, now that the balance is known.
#[derive(Debug)]
pub enum SellPlan {
    /// There is no such position.
    NotHeld,
    /// The tokens are gone, and so is the position.
    Stale,
    /// There is nothing to sell.
    Nothing,
    Sell(SellOrder),
}

#[derive(Debug)]
pub struct SellOrder {
    pub amount: u64,
    pub full_exit: bool,
    pub slippage: Binary64,
    pub request: TradeRequest,
}

pub enum SellStep {
    NotHeld,
    Stale,
    Nothing,
    Sell { amount: u64, full_exit: bool, slippage: Binary64, request: RequestView },
}

impl View for SellPlan {
    type V = SellStep;

    open spec fn view(&self) -> SellStep {
        match self {
            SellPlan::NotHeld => SellStep::NotHeld,
            SellPlan::Stale => SellStep::Stale,
            SellPlan::Nothing => SellStep::Nothing,
            SellPlan::Sell(order) => SellStep::Sell {
                amount: order.amount,
                full_exit: order.full_exit,
                slippage: order.slippage,
                request: order.request@,
            },
        }
    }
}

/// The tokens that are sold: all that the position has, as far as the wallet holds them.
pub open spec fn sell_amount(position: PositionView, balance: u64) -> u64 {
    if position.amount <= balance {
        position.amount
    } else {
        balance
    }
}

/// What to do about a position that is to be sold.
pub open spec fn sell_plan(e: EngineView, address: Seq<char>, balance: u64) -> SellStep {
    let position = e.positions[address];
    let amount = sell_amount(position, balance);
    let slippage = escalated_slippage(e.settings.max_slippage, position.sell_failures);
    if !e.positions.dom().contains(address) {
        SellStep::NotHeld
    } else if balance == 0 {
        SellStep::Stale
    } else if amount == 0 {
        SellStep::Nothing
    } else {
        SellStep::Sell {
            amount,
            full_exit: amount >= balance,
            slippage,
            request: sell_request(e, address, amount, amount >= balance, slippage),
        }
    }
}

/// What a reading of the balance after a sale says.
#[derive(Clone, Copy, PartialEq, Eq, Structural, Debug)]
pub enum Settlement {
    /// So much SOL came in.
    Received(Binary64),
    /// Nothing has come in yet: read again.
    Retry,
    /// Nothing has come in, and enough readings were taken.
    GaveUp,
}

/// What a plan to sell leaves: a position of which the wallet holds nothing is given up.
pub open spec fn after_sell_plan(e: EngineView, address: Seq<char>, balance: u64) -> EngineView {
    if e.positions.dom().contains(address) && balance == 0 {
        EngineView { positions: e.positions.remove(address), ..e }
    } else {
        e
    }
}

/// What reading number `attempt`, counted from zero, says.
pub open spec fn spec_settlement(before: u64, attempt: u32, after: u64) -> Settlement {
    if after > before {
        Settlement::Received(sol((after - before) as u64))
    } else if attempt + 1 < SETTLEMENT_READINGS {
        Settlement::Retry
    } else {
        Settlement::GaveUp
    }
}

/// What reading number `attempt`, counted from zero, of the balance after a sale says.
#[verifier::when_used_as_spec(spec_settlement)]
pub fn settlement(before: u64, attempt: u32, after: u64) -> (r: Settlement)
    ensures
        r == settlement(before, attempt, after),
{
    if after > before {
        Settlement::Received(sol(after - before))
    } else if attempt < SETTLEMENT_READINGS - 1 {
        Settlement::Retry
    } else {
        Settlement::GaveUp
    }
}

/// A cautious guess at what a sale brought: nine tenths of what the tokens cost.
pub open spec fn spec_estimate_sol_received(amount: u64, entry_price: Binary64) -> Binary64 {
    display_tokens(amount).times(entry_price).times(Binary64::ratio(9, 10))
}

/// A cautious guess at what a sale brought.
#[verifier::when_used_as_spec(spec_estimate_sol_received)]
pub fn estimate_sol_received(amount: u64, entry_price: Binary64) -> (r: Binary64)
    ensures
        r == estimate_sol_received(amount, entry_price),
{
    display_tokens(amount).times(entry_price).times(Binary64::ratio(9, 10))
}

/// What a sale brought: what came in, or a guess where nothing was seen to.
pub open spec fn proceeds(position: PositionView, received: Option<Binary64>) -> Binary64 {
    match received {
        Some(r) => r,
        None => estimate_sol_received(position.amount, position.entry_price),
    }
}

/// What came of a sale.
#[derive(Debug)]
pub struct SellOutcome {
    pub id: String,
    pub signature: String,
    pub received: Option<Binary64>,
    pub traded_at: Timestamp,
    pub now: Timestamp,
}

/// The engine after a sale: the position is gone, or has so many tokens fewer and no failures to
/// sell behind it.
pub open spec fn after_sell(e: EngineView, address: Seq<char>, amount: u64, now: Timestamp) -> EngineView {
    let position = e.positions[address];
    EngineView {
        positions: if amount >= position.amount {
            e.positions.remove(address)
        } else {
            e.positions.insert(
                address,
                PositionView {
                    amount: (position.amount - amount) as u64,
                    sell_failures: 0,
                    last_sell_failure: None,
                    ..position
                },
            )
        },
        last_trade_time: e.last_trade_time.insert(address, now),
        ..e
    }
}

/// The engine after a try to sell that failed: the position counts one failure more. Nothing else
/// changes, and nothing at all where the token is not held.
pub open spec fn after_failed_sale(e: EngineView, address: Seq<char>, now: Timestamp) -> EngineView {
    if e.positions.dom().contains(address) {
        EngineView {
            positions: e.positions.insert(
                address,
                PositionView {
                    sell_failures: (e.positions[address].sell_failures + 1) as u32,
                    last_sell_failure: Some(now),
                    ..e.positions[address]
                },
            ),
            ..e
        }
    } else {
        e
    }
}

/// Whether one more failure to sell a token can be counted.
pub open spec fn failure_countable(e: EngineView, address: Seq<char>) -> bool {
    e.positions.dom().contains(address) ==> e.positions[address].sell_failures < u32::MAX
}

/// The trade that a sale is recorded as.
pub open spec fn sell_trade(
    position: PositionView,
    signal: SignalView,
    amount: u64,
    outcome: SellOutcome,
) -> TradeView {
    let received = proceeds(position, outcome.received);
    TradeView {
        id: outcome.id@,
        token_address: signal.token.address,
        action: Action::Sell,
        amount,
        price: signal.token.price_usd,
        timestamp: outcome.traded_at,
        signature: Some(outcome.signature@),
        profit_loss: Some(received.minus(position.sol_spent)),
        sol_received: Some(received),
    }
}

impl TradingEngine {
    proof fn lemma_position_insert(&self, key: Seq<char>, value: Position)
        ensures
            position_views(self.positions@.insert(key, value)) == self@.positions.insert(
                key,
                value@,
            ),
            position_views(self.positions@.remove(key)) == self@.positions.remove(key),
    {
        assert(position_views(self.positions@.insert(key, value)) =~= self@.positions.insert(
            key,
            value@,
        ));
        assert(position_views(self.positions@.remove(key)) =~= self@.positions.remove(key));
    }

    /// Gives `address` the position, in place of an earlier one.
    fn put_position(&mut self, address: &str, position: Position)
        ensures
            final(self)@ == (EngineView {
                positions: old(self)@.positions.insert(address@, position@),
                ..old(self)@
            }),
    {
        proof {
            self.lemma_position_insert(address@, position);
        }
        self.positions.insert(address.to_owned(), position);
    }

    /// Takes a position out.
    fn take_position(&mut self, address: &str) -> (r: Option<Position>)
        ensures
            final(self)@ == (EngineView {
                positions: old(self)@.positions.remove(address@),
                ..old(self)@
            }),
            match r {
                Some(p) => old(self)@.positions.dom().contains(address@) && p@
                    == old(self)@.positions[address@],
                None => !old(self)@.positions.dom().contains(address@),
            },
    {
        proof {
            let any: Position = arbitrary();
            self.lemma_position_insert(address@, any);
        }
        self.positions.remove(address)
    }

    fn put_pool(&mut self, address: &str, pool: Option<PumpSwapPoolInfo>)
        ensures
            final(self)@ == (EngineView {
                pools: with_pool(
                    old(self)@.pools,
                    address@,
                    crate::pricing::pool_view(pool),
                ),
                ..old(self)@
            }),
    {
        if let Some(p) = pool {
            self.pumpswap_pools.insert(address.to_owned(), p);
            assert(pool_views(self.pumpswap_pools@) =~= old(self)@.pools.insert(address@, p@));
        }
    }

    fn put_new_pool(&mut self, address: &str, pool: Option<PumpSwapPoolInfo>)
        ensures
            final(self)@ == (EngineView {
                pools: with_new_pool(
                    old(self)@.pools,
                    address@,
                    crate::pricing::pool_view(pool),
                ),
                ..old(self)@
            }),
    {
        if !self.pumpswap_pools.contains_key(address) {
            self.put_pool(address, pool);
        }
    }

    /// The pool that is known of a token.
    pub fn cached_pool(&self, address: &str) -> (r: Option<&PumpSwapPoolInfo>)
        ensures
            match r {
                Some(pool) => self@.pools.dom().contains(address@) && self@.pools[address@]
                    == pool@,
                None => !self@.pools.dom().contains(address@),
            },
    {
        self.pumpswap_pools.get(address)
    }

    /// Records a buy that was made.
    pub fn execute_buy(&mut self, address: &str, mint: Pubkey, lamports: u64, outcome: BuyOutcome) -> (r:
        Trade)
        ensures
            final(self)@ == after_buy(old(self)@, address@, mint@, lamports, outcome),
            r@ == buy_trade(address@, lamports, outcome),
    {
        let zero = Binary64::from_u64(0);
        let price = if !needs_fallback_price(lamports, outcome.tokens) {
            price_of(lamports, outcome.tokens)
        } else {
            match &outcome.fallback {
                Some(quote) => {
                    if zero.lt(quote.price) {
                        self.put_pool(address, quote.pool);
                        quote.price
                    } else {
                        zero
                    }
                },
                None => zero,
            }
        };
        self.put_new_pool(address, outcome.discovered);
        let position = Position {
            token_address: address.to_owned(),
            token_mint: mint,
            amount: outcome.tokens,
            entry_price: price,
            entry_time: outcome.now,
            peak_pnl_percent: zero,
            source_wallet: None,
            sol_spent: sol(lamports),
            cached_market_cap: None,
            cached_holders: None,
            cached_volume_24h: None,
            cached_liquidity: None,
            last_enrichment: None,
            price_history: Vec::new(),
            sell_failures: 0,
            last_sell_failure: None,
            price_failures: 0,
            last_price_failure: None,
        };
        assert(position@.price_history =~= Seq::<PricePoint>::empty());
        self.put_position(address, position);
        self.last_trade_time.insert(address.to_owned(), outcome.now);
        Trade {
            id: outcome.id,
            token_address: address.to_owned(),
            action: Action::Buy,
            amount: outcome.tokens,
            price,
            timestamp: outcome.traded_at,
            signature: Some(outcome.signature),
            profit_loss: None,
            sol_received: None,
        }
    }

    pub fn calculate_sell_amount(&self, position: &Position) -> (r: u64)
        ensures
            r == position.amount,
    {
        position.amount
    }

    /// Decides how a position is sold, now that the wallet's balance of its token is known.
    pub fn plan_sell(&mut self, address: &str, balance: u64) -> (r: SellPlan)
        ensures
            r@ == sell_plan(old(self)@, address@, balance),
            final(self)@ == (if r is Stale {
                EngineView { positions: old(self)@.positions.remove(address@), ..old(self)@ }
            } else {
                old(self)@
            }),
            final(self)@ == after_sell_plan(old(self)@, address@, balance),
    {
        if !self.positions.contains_key(address) {
            return SellPlan::NotHeld;
        }
        if balance == 0 {
            let _ = self.take_position(address);
            return SellPlan::Stale;
        }
        match self.positions.get(address) {
            None => SellPlan::NotHeld,
            Some(position) => {
                let held: u64 = self.calculate_sell_amount(position);
                let amount: u64 = if held <= balance {
                    held
                } else {
                    balance
                };
                if amount == 0 {
                    return SellPlan::Nothing;
                }
                let full_exit: bool = amount >= balance;
                let slippage = escalated_slippage(
                    self.settings.max_slippage,
                    position.sell_failures,
                );
                let request = TradeRequest {
                    public_key: self.wallet.get_address().to_text(),
                    action: Action::Sell,
                    mint: address.to_owned(),
                    amount: if full_exit {
                        TradeAmount::All
                    } else {
                        TradeAmount::Tokens(amount)
                    },
                    denominated_in_sol: false,
                    slippage: slippage_percent(slippage),
                    priority_fee: Binary64::ratio(1, 1000),
                    pool: "auto",
                };
                SellPlan::Sell(SellOrder { amount, full_exit, slippage, request })
            },
        }
    }

    /// Records a sale that was made.
    pub fn execute_sell(&mut self, signal: &TradingSignal, amount: u64, outcome: SellOutcome) -> (r:
        Trade)
        requires
            old(self)@.positions.dom().contains(signal.token.address@),
        ensures
            final(self)@ == after_sell(
                old(self)@,
                signal.token.address@,
                amount,
                outcome.now,
            ),
            r@ == sell_trade(
                old(self)@.positions[signal.token.address@],
                signal@,
                amount,
                outcome,
            ),
    {
        let address: &str = signal.token.address.as_str();
        let mut received = Binary64::from_u64(0);
        let mut spent = Binary64::from_u64(0);
        let ghost e = self@;
        if let Some(position) = self.take_position(address) {
            received = match outcome.received {
                Some(r) => r,
                None => estimate_sol_received(position.amount, position.entry_price),
            };
            spent = position.sol_spent;
            if amount < position.amount {
                let mut position = position;
                position.amount = position.amount - amount;
                position.sell_failures = 0;
                position.last_sell_failure = None;
                self.put_position(address, position);
                assert(e.positions.remove(address@).insert(address@, position@)
                    =~= e.positions.insert(address@, position@));
            }
        }
        self.last_trade_time.insert(address.to_owned(), outcome.now);
        Trade {
            id: outcome.id,
            token_address: address.to_owned(),
            action: Action::Sell,
            amount,
            price: signal.token.price_usd,
            timestamp: outcome.traded_at,
            signature: Some(outcome.signature),
            profit_loss: Some(received.minus(spent)),
            sol_received: Some(received),
        }
    }

    /// Names the wallet after which a position was opened.
    pub fn set_position_source_wallet(&mut self, address: &str, wallet: String)
        ensures
            final(self)@ == (if old(self)@.positions.dom().contains(address@) {
                EngineView {
                    positions: old(self)@.positions.insert(
                        address@,
                        PositionView {
                            source_wallet: Some(wallet@),
                            ..old(self)@.positions[address@]
                        },
                    ),
                    ..old(self)@
                }
            } else {
                old(self)@
            }),
    {
        let ghost e = self@;
        if let Some(mut position) = self.take_position(address) {
            position.source_wallet = Some(wallet);
            self.put_position(address, position);
            assert(e.positions.remove(address@).insert(address@, position@)
                =~= e.positions.insert(address@, position@));
        } else {
            assert(e.positions.remove(address@) =~= e.positions);
        }
    }

    pub fn get_wallet(&self) -> (r: &WalletManager)
        ensures
            r@ == self@.keypair,
    {
        &self.wallet
    }

    pub fn has_position(&self, address: &str) -> (r: bool)
        ensures
            r == self@.positions.dom().contains(address@),
    {
        self.positions.contains_key(address)
    }

    pub fn get_positions(&self) -> (r: &Keyed<Position>)
        ensures
            position_views(r@) == self@.positions,
    {
        &self.positions
    }

    pub fn get_last_trade_times(&self) -> (r: &Keyed<Timestamp>)
        ensures
            r@ == self@.last_trade_time,
    {
        &self.last_trade_time
    }

    /// Whether the pool of a token that was bought is still to be looked for: none is known, and
    /// the fallback price brought none along.
    pub fn needs_pool(
        &self,
        address: &str,
        lamports: u64,
        tokens: u64,
        fallback: &Option<PriceQuote>,
    ) -> (r: bool)
        ensures
            r == !with_pool(
                self@.pools,
                address@,
                fallback_pool(lamports, tokens, quote_view(*fallback)),
            ).dom().contains(address@),
    {
        if self.cached_pool(address).is_some() {
            return false;
        }
        match fallback {
            Some(quote) => !(needs_fallback_price(lamports, tokens) && Binary64::from_u64(0).lt(
                quote.price,
            ) && quote.pool.is_some()),
            None => true,
        }
    }

    /// What is written down for the next run.
    pub fn save_positions(&self) -> (r: StoredSnapshot)
        ensures
            crate::storage::saved(self@, r),
    {
        let ghost e = self@;
        let held: Vec<String> = self.positions.keys();
        let ghost held_names = crate::text::texts(held@);
        let mut positions: Keyed<StoredPosition> = Keyed::new();
        let mut i: usize = 0;
        while i < held.len()
            invariant
                i <= held@.len(),
                e == self@,
                held_names == crate::text::texts(held@),
                held_names.to_set() == e.positions.dom(),
                forall|k: Seq<char>|
                    positions@.dom().contains(k) == held_names.take(i as int).contains(k),
                forall|k: Seq<char>|
                    positions@.dom().contains(k) ==> crate::storage::records(
                        (#[trigger] positions@[k])@,
                        e.positions[k],
                    ),
            decreases held@.len() - i,
        {
            let name: &String = &held[i];
            assert(held_names[i as int] == name@);
            assert(held_names.contains(name@));
            assert(e.positions.dom().contains(name@));
            proof {
                crate::text::lemma_takes_one_more(held_names, i as int);
            }
            if let Some(position) = self.positions.get(name.as_str()) {
                positions.insert(name.clone(), position.stored());
            }
            i = i + 1;
        }
        assert(held_names.take(held_names.len() as int) =~= held_names);
        assert forall|k: Seq<char>| positions@.dom().contains(k) == e.positions.dom().contains(k) by {
            assert(held_names.to_set().contains(k) == held_names.contains(k));
        }
        assert(crate::storage::stored_views(positions@).dom() =~= e.positions.dom());
        assert forall|k: Seq<char>| #[trigger]
            e.positions.dom().contains(k) implies crate::storage::records(
            crate::storage::stored_views(positions@)[k],
            e.positions[k],
        ) by {
            assert(positions@.dom().contains(k));
            assert(crate::storage::stored_views(positions@)[k] == positions@[k]@);
        }

        let traded: Vec<String> = self.last_trade_time.keys();
        let ghost traded_names = crate::text::texts(traded@);
        let mut last_trade_time: Keyed<Timestamp> = Keyed::new();
        let mut i: usize = 0;
        while i < traded.len()
            invariant
                i <= traded@.len(),
                e == self@,
                traded_names == crate::text::texts(traded@),
                traded_names.to_set() == e.last_trade_time.dom(),
                forall|k: Seq<char>|
                    last_trade_time@.dom().contains(k) == traded_names.take(i as int).contains(k),
                forall|k: Seq<char>|
                    last_trade_time@.dom().contains(k) ==> #[trigger] last_trade_time@[k]
                        == e.last_trade_time[k],
            decreases traded@.len() - i,
        {
            let name: &String = &traded[i];
            assert(traded_names[i as int] == name@);
            assert(traded_names.contains(name@));
            assert(e.last_trade_time.dom().contains(name@));
            proof {
                crate::text::lemma_takes_one_more(traded_names, i as int);
            }
            if let Some(time) = self.last_trade_time.get(name.as_str()) {
                last_trade_time.insert(name.clone(), *time);
            }
            i = i + 1;
        }
        assert(traded_names.take(traded_names.len() as int) =~= traded_names);
        assert forall|k: Seq<char>|
            last_trade_time@.dom().contains(k) == e.last_trade_time.dom().contains(k) by {
            assert(traded_names.to_set().contains(k) == traded_names.contains(k));
        }
        assert(last_trade_time@ =~= e.last_trade_time);
        StoredSnapshot { positions, last_trade_time }
    }

    pub fn get_trade_history(&self) -> (r: &Vec<Trade>)
        ensures
            trade_views(r@) == self@.trades,
    {
        &self.trade_history
    }

    pub fn add_trade(&mut self, trade: Trade)
        ensures
            final(self)@ == (EngineView { trades: old(self)@.trades.push(trade@), ..old(self)@ }),
    {
        self.trade_history.push(trade);
        assert(trade_views(self.trade_history@) =~= old(self)@.trades.push(trade@));
    }

    /// Counts a failed try to sell: the next one accepts a larger slippage.
    pub fn increment_sell_failures(&mut self, token_address: &str, now: Timestamp)
        requires
            failure_countable(old(self)@, token_address@),
        ensures
            final(self)@ == after_failed_sale(old(self)@, token_address@, now),
    {
        let ghost e = self@;
        if let Some(mut position) = self.take_position(token_address) {
            position.sell_failures = position.sell_failures + 1;
            position.last_sell_failure = Some(now);
            self.put_position(token_address, position);
            assert(e.positions.remove(token_address@).insert(token_address@, position@)
                =~= e.positions.insert(token_address@, position@));
        } else {
            assert(e.positions.remove(token_address@) =~= e.positions);
        }
    }
}

/// Whether a position waits for its next try to sell: the slippage cannot rise any more, and the
/// last try failed less than half a minute ago.
pub open spec fn throttled(position: PositionView, base_slippage: Binary64, now: Timestamp) -> bool {
    position.sell_failures > 0 && Binary64::from_u64(99).le(
        escalated_slippage(base_slippage, position.sell_failures),
    ) && match position.last_sell_failure {
        Some(last) => now.seconds_since(last) < RETRY_SECONDS,
        None => false,
    }
}

/// Whether a position that could not be priced is to be tried again: five minutes after its last
/// failure.
pub open spec fn price_retry_due(position: PositionView, now: Timestamp) -> bool {
    match position.last_price_failure {
        Some(last) => now.minutes_since(last) >= 5,
        None => true,
    }
}

/// Whether a position is to be priced now.
pub open spec fn pricing_due(position: PositionView, base_slippage: Binary64, now: Timestamp) -> bool {
    !throttled(position, base_slippage, now) && (position.price_failures < MAX_PRICE_FAILURES
        || price_retry_due(position, now))
}

/// A position that is to be priced, with its failures forgotten where there were too many.
pub open spec fn refreshed(position: PositionView, base_slippage: Binary64, now: Timestamp) -> PositionView {
    if pricing_due(position, base_slippage, now) && position.price_failures >= MAX_PRICE_FAILURES {
        PositionView { price_failures: 0, last_price_failure: None, ..position }
    } else {
        position
    }
}

/// A price, or the lack of one, that was found for a position.
#[derive(Debug)]
pub struct PriceReading {
    pub token_address: String,
    pub now: Timestamp,
    pub quote: Result<PriceQuote, BotError>,
}

pub struct ReadingView {
    pub token_address: Seq<char>,
    pub now: Timestamp,
    pub quote: Option<QuoteView>,
}

impl View for PriceReading {
    type V = ReadingView;

    open spec fn view(&self) -> ReadingView {
        ReadingView {
            token_address: self.token_address@,
            now: self.now,
            quote: match self.quote {
                Ok(q) => Some(q@),
                Err(_) => None,
            },
        }
    }
}

pub open spec fn reading_views(readings: Seq<PriceReading>) -> Seq<ReadingView> {
    readings.map_values(|r: PriceReading| r@)
}

/// A position that could not be priced.
pub open spec fn unpriced(position: PositionView, now: Timestamp) -> PositionView {
    PositionView {
        price_failures: (position.price_failures + 1) as u32,
        last_price_failure: Some(now),
        ..position
    }
}

/// A position with a new price in its history.
pub open spec fn priced(position: PositionView, now: Timestamp, price: Binary64) -> PositionView {
    PositionView {
        price_history: crate::exits::with_price(position.price_history, (now, price)),
        price_failures: 0,
        last_price_failure: if position.price_failures > 0 {
            None
        } else {
            position.last_price_failure
        },
        ..position
    }
}

/// Whether a gain can be measured against an entry price.
pub open spec fn valid_entry(price: Binary64) -> bool {
    price.is_finite() && !price.eq_number(Binary64::from_u64(0))
}

/// The highest gain, with the current one.
pub open spec fn raised_peak(position: PositionView, price: Binary64) -> Binary64 {
    let pnl = gain_percent(price, position.entry_price);
    if position.peak_pnl_percent.lt(pnl) {
        pnl
    } else {
        position.peak_pnl_percent
    }
}

/// A position as the exits see it.
pub open spec fn standing(position: PositionView, quote: QuoteView, now: Timestamp) -> Standing {
    Standing {
        history: crate::exits::with_price(position.price_history, (now, quote.price)),
        current: quote.price,
        entry: position.entry_price,
        peak: raised_peak(position, quote.price),
        held_since: position.entry_time,
        liquidity: quote.liquidity_sol,
        now,
    }
}

/// A position after a price has been looked at. Without a valid entry price, a valid price takes
/// its place.
pub open spec fn checked_position(position: PositionView, quote: QuoteView, now: Timestamp) -> PositionView {
    let p = priced(position, now, quote.price);
    if valid_entry(position.entry_price) {
        PositionView { peak_pnl_percent: raised_peak(position, quote.price), ..p }
    } else if Binary64::from_u64(0).lt(quote.price) && quote.price.is_finite() {
        PositionView { entry_price: quote.price, ..p }
    } else {
        p
    }
}

/// The signal to sell a token at a price.
pub open spec fn exit_signal(address: Seq<char>, price: Binary64, reason: Reason) -> SignalView {
    SignalView {
        token: crate::pumpportal::unlisted_token(
            address,
            "UNKNOWN"@,
            "Unknown"@,
            price,
            ""@,
            None,
        ),
        action: Action::Sell,
        confidence: Binary64::from_u64(1),
        reason,
        expected_price: Some(price),
        override_buy_amount: None,
    }
}

/// The signal that a price gives for a position.
pub open spec fn check_signal(
    e: EngineView,
    position: PositionView,
    address: Seq<char>,
    quote: QuoteView,
    now: Timestamp,
) -> Option<SignalView> {
    if valid_entry(position.entry_price) {
        match crate::exits::exit_reason(
            standing(position, quote, now),
            e.settings.levels,
            e.tiers,
        ) {
            Some(reason) => Some(exit_signal(address, quote.price, reason)),
            None => None,
        }
    } else {
        None
    }
}

/// What a reading makes of the engine.
pub open spec fn after_reading(e: EngineView, reading: ReadingView) -> EngineView {
    let address = reading.token_address;
    let position = e.positions[address];
    if !e.positions.dom().contains(address) {
        e
    } else {
        match reading.quote {
            None => EngineView {
                positions: e.positions.insert(address, unpriced(position, reading.now)),
                ..e
            },
            Some(quote) => EngineView {
                positions: e.positions.insert(
                    address,
                    checked_position(position, quote, reading.now),
                ),
                pools: with_new_pool(e.pools, address, quote.pool),
                ..e
            },
        }
    }
}

/// Whether a position that is to be priced now had failed so often that its failures are
/// forgotten, which is written down.
pub open spec fn forgets_failures(e: EngineView, now: Timestamp) -> bool {
    exists|address: Seq<char>| #[trigger]
        e.positions.dom().contains(address) && pricing_due(
            e.positions[address],
            e.settings.max_slippage,
            now,
        ) && e.positions[address].price_failures >= MAX_PRICE_FAILURES
}

/// Whether a reading is written down: it failed, or it ends the failures of its position.
pub open spec fn noteworthy(e: EngineView, reading: ReadingView) -> bool {
    e.positions.dom().contains(reading.token_address) && (reading.quote is None
        || e.positions[reading.token_address].price_failures > 0)
}

/// The signal that a reading gives.
pub open spec fn reading_signal(e: EngineView, reading: ReadingView) -> Option<SignalView> {
    let address = reading.token_address;
    match reading.quote {
        Some(quote) if e.positions.dom().contains(address) => check_signal(
            e,
            e.positions[address],
            address,
            quote,
            reading.now,
        ),
        _ => None,
    }
}

/// The engine after readings, one after another.
pub open spec fn after_readings(e: EngineView, readings: Seq<ReadingView>) -> EngineView
    decreases readings.len(),
{
    if readings.len() == 0 {
        e
    } else {
        after_reading(after_readings(e, readings.drop_last()), readings.last())
    }
}

/// The signals that readings give, one after another.
pub open spec fn reading_signals(e: EngineView, readings: Seq<ReadingView>) -> Seq<SignalView>
    decreases readings.len(),
{
    if readings.len() == 0 {
        Seq::empty()
    } else {
        let before = reading_signals(e, readings.drop_last());
        match reading_signal(after_readings(e, readings.drop_last()), readings.last()) {
            Some(signal) => before.push(signal),
            None => before,
        }
    }
}

/// Failures can be counted for each of the readings.
pub open spec fn countable(e: EngineView, readings: Seq<ReadingView>) -> bool {
    forall|i: int|
        0 <= i < readings.len() && e.positions.dom().contains(
            (#[trigger] readings[i]).token_address,
        ) ==> e.positions[readings[i].token_address].price_failures + readings.len() <= u32::MAX
}

proof fn lemma_failures_grow_by_one(e: EngineView, readings: Seq<ReadingView>, address: Seq<char>)
    requires
        e.positions.dom().contains(address),
        e.positions[address].price_failures + readings.len() <= u32::MAX,
    ensures
        after_readings(e, readings).positions.dom() == e.positions.dom(),
        after_readings(e, readings).positions[address].price_failures
            <= e.positions[address].price_failures + readings.len(),
    decreases readings.len(),
{
    if readings.len() > 0 {
        lemma_failures_grow_by_one(e, readings.drop_last(), address);
        let before = after_readings(e, readings.drop_last());
        assert(after_reading(before, readings.last()).positions.dom() =~= e.positions.dom());
    }
}

/// The position of a token with DexScreener's figures.
pub open spec fn enriched_position(
    position: PositionView,
    token: TokenInfoView,
    now: Timestamp,
) -> PositionView {
    PositionView {
        cached_market_cap: Some(token.market_cap),
        cached_holders: Some(token.holders),
        cached_volume_24h: Some(token.volume_24h),
        cached_liquidity: Some(token.liquidity),
        last_enrichment: Some(now),
        ..position
    }
}

/// The positions with DexScreener's figures; tokens that are not held are passed over.
pub open spec fn enriched_positions(
    positions: Map<Seq<char>, PositionView>,
    tokens: Seq<TokenInfoView>,
    now: Timestamp,
) -> Map<Seq<char>, PositionView>
    decreases tokens.len(),
{
    if tokens.len() == 0 {
        positions
    } else {
        let before = enriched_positions(positions, tokens.drop_last(), now);
        let token = tokens.last();
        if before.dom().contains(token.address) {
            before.insert(token.address, enriched_position(before[token.address], token, now))
        } else {
            before
        }
    }
}

pub open spec fn token_views(tokens: Seq<TokenInfo>) -> Seq<TokenInfoView> {
    tokens.map_values(|t: TokenInfo| t@)
}

impl Position {
    /// Whether the position waits for its next try to sell.
    pub fn should_throttle(&self, base_slippage: Binary64, now: Timestamp) -> (r: bool)
        ensures
            r == throttled(self@, base_slippage, now),
    {
        let next = escalated_slippage(base_slippage, self.sell_failures);
        if self.sell_failures > 0 && Binary64::from_u64(99).le(next) {
            match self.last_sell_failure {
                Some(last) => now.seconds_since(last) < RETRY_SECONDS,
                None => false,
            }
        } else {
            false
        }
    }

    fn is_due(&self, base_slippage: Binary64, now: Timestamp) -> (r: bool)
        ensures
            r == pricing_due(self@, base_slippage, now),
    {
        if self.should_throttle(base_slippage, now) {
            return false;
        }
        if self.price_failures < MAX_PRICE_FAILURES {
            return true;
        }
        match self.last_price_failure {
            Some(last) => now.minutes_since(last) >= 5,
            None => true,
        }
    }

    /// Looks at a new price: records it, and says why the position is to be left, if it is.
    fn check(&mut self, quote: &PriceQuote, now: Timestamp, levels: &ExitLevels, tiers: &Vec<Tier>) -> (r:
        Option<Reason>)
        ensures
            final(self)@ == checked_position(old(self)@, quote@, now),
            valid_entry(old(self)@.entry_price) ==> r == crate::exits::exit_reason(
                standing(old(self)@, quote@, now),
                *levels,
                tiers@,
            ),
            !valid_entry(old(self)@.entry_price) ==> r is None,
    {
        let price = quote.price;
        if self.price_failures > 0 {
            self.price_failures = 0;
            self.last_price_failure = None;
        }
        add_price(&mut self.price_history, (now, price));
        let zero = Binary64::from_u64(0);
        let entry = self.entry_price;
        if entry.eq_number(zero) || !entry.is_finite() {
            if zero.lt(price) && price.is_finite() {
                self.entry_price = price;
            }
            return None;
        }
        let pnl = gain_percent(price, entry);
        if self.peak_pnl_percent.lt(pnl) {
            self.peak_pnl_percent = pnl;
        }
        let check = ExitCheck {
            history: &self.price_history,
            current: price,
            entry,
            peak: self.peak_pnl_percent,
            held_since: self.entry_time,
            liquidity: quote.liquidity_sol,
            now,
        };
        check.decide(levels, tiers)
    }
}

impl TradingEngine {
    /// The positions that are to be priced now, with the tokens they hold. A position that could
    /// not be priced for a while gets a new chance.
    pub fn positions_to_price(&mut self, now: Timestamp) -> (r: Vec<(String, u64)>)
        ensures
            final(self)@ == (EngineView {
                positions: old(self)@.positions.map_values(
                    |p: PositionView| refreshed(p, old(self)@.settings.max_slippage, now),
                ),
                ..old(self)@
            }),
            forall|i: int|
                0 <= i < r@.len() ==> {
                    let address = (#[trigger] r@[i]).0@;
                    &&& old(self)@.positions.dom().contains(address)
                    &&& pricing_due(
                        old(self)@.positions[address],
                        old(self)@.settings.max_slippage,
                        now,
                    )
                    &&& r@[i].1 == old(self)@.positions[address].amount
                },
            forall|address: Seq<char>|
                #[trigger] old(self)@.positions.dom().contains(address) && pricing_due(
                    old(self)@.positions[address],
                    old(self)@.settings.max_slippage,
                    now,
                ) ==> exists|i: int| 0 <= i < r@.len() && (#[trigger] r@[i]).0@ == address,
            forall|i: int, j: int|
                0 <= i < j < r@.len() ==> (#[trigger] r@[i]).0@ != (#[trigger] r@[j]).0@,
    {
        let keys: Vec<String> = self.positions.keys();
        let ghost names = crate::text::texts(keys@);
        let ghost e = self@;
        let base = self.settings.max_slippage;
        let ghost fresh = |p: PositionView| refreshed(p, base, now);
        let mut due: Vec<(String, u64)> = Vec::new();
        let mut k: usize = 0;
        assert(e.positions.dom() =~= self.positions@.dom());
        assert forall|a: Seq<char>| e.positions.dom().contains(a) implies names.contains(a) by {
            assert(names.to_set().contains(a));
        }
        while k < keys.len()
            invariant
                k <= keys@.len(),
                names == crate::text::texts(keys@),
                names.no_duplicates(),
                names.to_set() == e.positions.dom(),
                base == e.settings.max_slippage,
                fresh == (|p: PositionView| refreshed(p, base, now)),
                self@ == (EngineView { positions: self@.positions, ..e }),
                self@.positions.dom() == e.positions.dom(),
                forall|i: int|
                    0 <= i < k ==> self@.positions[#[trigger] names[i]] == refreshed(
                        e.positions[names[i]],
                        base,
                        now,
                    ),
                forall|i: int|
                    k <= i < names.len() ==> self@.positions[#[trigger] names[i]]
                        == e.positions[names[i]],
                forall|i: int|
                    0 <= i < due@.len() ==> {
                        let address = (#[trigger] due@[i]).0@;
                        &&& e.positions.dom().contains(address)
                        &&& pricing_due(e.positions[address], base, now)
                        &&& due@[i].1 == e.positions[address].amount
                        &&& exists|j: int| 0 <= j < k && #[trigger] names[j] == address
                    },
                forall|j: int|
                    0 <= j < k && pricing_due(e.positions[#[trigger] names[j]], base, now)
                        ==> exists|i: int| 0 <= i < due@.len() && (#[trigger] due@[i]).0@
                        == names[j],
                forall|i: int, j: int|
                    0 <= i < j < due@.len() ==> (#[trigger] due@[i]).0@ != (
                    #[trigger] due@[j]).0@,
            decreases keys@.len() - k,
        {
            let address: &str = keys[k].as_str();
            let ghost before = self@;
            let ghost due_before = due@;
            assert(names[k as int] == address@);
            assert(names.to_set().contains(names[k as int]));
            if let Some(mut position) = self.take_position(address) {
                assert(position@ == e.positions[address@]);
                if position.is_due(base, now) {
                    if position.price_failures >= MAX_PRICE_FAILURES {
                        position.price_failures = 0;
                        position.last_price_failure = None;
                    }
                    due.push((address.to_owned(), position.amount));
                    assert(due@.last().0@ == address@);
                }
                assert(position@ == refreshed(e.positions[address@], base, now));
                self.put_position(address, position);
                assert(self@.positions =~= before.positions.insert(address@, position@));
            }
            assert forall|j: int|
                0 <= j < k + 1 && pricing_due(e.positions[#[trigger] names[j]], base, now) implies exists|
                i: int,
            |
                0 <= i < due@.len() && (#[trigger] due@[i]).0@ == names[j] by {
                if j < k {
                    let i = choose|i: int|
                        0 <= i < due_before.len() && (#[trigger] due_before[i]).0@ == names[j];
                    assert(due@[i] == due_before[i]);
                } else {
                    assert(due@[due@.len() - 1].0@ == names[j]);
                }
            }
            assert forall|i: int| 0 <= i < due@.len() implies {
                let address = (#[trigger] due@[i]).0@;
                &&& e.positions.dom().contains(address)
                &&& pricing_due(e.positions[address], base, now)
                &&& due@[i].1 == e.positions[address].amount
                &&& exists|j: int| 0 <= j < k + 1 && #[trigger] names[j] == address
            } by {
                if i < due_before.len() {
                    assert(due@[i] == due_before[i]);
                    let j = choose|j: int| 0 <= j < k && #[trigger] names[j] == due_before[i].0@;
                    assert(names[j] == due@[i].0@);
                } else {
                    assert(names[k as int] == due@[i].0@);
                }
            }
            assert forall|i: int, j: int| 0 <= i < j < due@.len() implies (#[trigger] due@[i]).0@
                != (#[trigger] due@[j]).0@ by {
                assert(due@[i] == due_before[i]);
                if j < due_before.len() {
                    assert(due@[j] == due_before[j]);
                } else {
                    let n = choose|n: int| 0 <= n < k && #[trigger] names[n] == due_before[i].0@;
                    assert(names[n] != names[k as int]);
                }
            }
            k = k + 1;
        }
        assert(self@.positions =~= e.positions.map_values(fresh)) by {
            assert forall|a: Seq<char>| e.positions.dom().contains(a) implies self@.positions[a]
                == refreshed(e.positions[a], base, now) by {
                assert(names.to_set().contains(a));
                let i = choose|i: int| 0 <= i < names.len() && names[i] == a;
                assert(names[i] == a);
            }
        }
        assert forall|address: Seq<char>|
            #[trigger] e.positions.dom().contains(address) && pricing_due(
                e.positions[address],
                base,
                now,
            ) implies exists|i: int| 0 <= i < due@.len() && (#[trigger] due@[i]).0@ == address by {
            assert(names.to_set().contains(address));
            let j = choose|j: int| 0 <= j < names.len() && names[j] == address;
            assert(names[j] == address);
        }
        due
    }

    /// Whether looking for positions to price changes what is to be written down.
    pub fn forgets_failures(&self, now: Timestamp) -> (r: bool)
        ensures
            r == forgets_failures(self@, now),
    {
        let keys: Vec<String> = self.positions.keys();
        let ghost names = crate::text::texts(keys@);
        let base = self.settings.max_slippage;
        let mut k: usize = 0;
        assert(self@.positions.dom() =~= self.positions@.dom());
        while k < keys.len()
            invariant
                k <= keys@.len(),
                names == crate::text::texts(keys@),
                names.to_set() == self@.positions.dom(),
                base == self@.settings.max_slippage,
                forall|i: int|
                    0 <= i < k ==> !(pricing_due(self@.positions[#[trigger] names[i]], base, now)
                        && self@.positions[names[i]].price_failures >= MAX_PRICE_FAILURES),
            decreases keys@.len() - k,
        {
            let address: &str = keys[k].as_str();
            assert(names[k as int] == address@);
            assert(names.to_set().contains(names[k as int]));
            if let Some(position) = self.positions.get(address) {
                assert(position@ == self@.positions[address@]);
                if position.price_failures >= MAX_PRICE_FAILURES && position.is_due(base, now) {
                    assert(self@.positions.dom().contains(address@));
                    return true;
                }
            }
            k = k + 1;
        }
        assert forall|address: Seq<char>| #[trigger]
            self@.positions.dom().contains(address) && pricing_due(
                self@.positions[address],
                base,
                now,
            ) implies self@.positions[address].price_failures < MAX_PRICE_FAILURES by {
            assert(names.to_set().contains(address));
            let i = choose|i: int| 0 <= i < names.len() && names[i] == address;
            assert(names[i] == address);
        }
        false
    }

    /// Whether readings change what is to be written down.
    pub fn notes_failures(&self, readings: &Vec<PriceReading>) -> (r: bool)
        ensures
            r == exists|i: int|
                0 <= i < readings@.len() && noteworthy(self@, (#[trigger] readings@[i])@),
    {
        let mut i: usize = 0;
        while i < readings.len()
            invariant
                i <= readings@.len(),
                forall|j: int| 0 <= j < i ==> !noteworthy(self@, (#[trigger] readings@[j])@),
            decreases readings@.len() - i,
        {
            if let Some(position) = self.positions.get(readings[i].token_address.as_str()) {
                assert(position@ == self@.positions[readings@[i as int].token_address@]);
                if readings[i].quote.is_err() || position.price_failures > 0 {
                    assert(noteworthy(self@, readings@[i as int]@));
                    return true;
                }
            }
            i = i + 1;
        }
        false
    }

    fn check_reading(&mut self, reading: &PriceReading) -> (r: Option<TradingSignal>)
        requires
            old(self)@.positions.dom().contains(reading.token_address@)
                ==> old(self)@.positions[reading.token_address@].price_failures < u32::MAX,
        ensures
            final(self)@ == after_reading(old(self)@, reading@),
            crate::strategies::gives(r, reading_signal(old(self)@, reading@)),
    {
        let address: &str = reading.token_address.as_str();
        let ghost e = self@;
        match self.take_position(address) {
            None => {
                assert(e.positions.remove(address@) =~= e.positions);
                None
            },
            Some(mut position) => {
                match &reading.quote {
                    Err(_) => {
                        position.price_failures = position.price_failures + 1;
                        position.last_price_failure = Some(reading.now);
                        self.put_position(address, position);
                        assert(e.positions.remove(address@).insert(address@, position@)
                            =~= e.positions.insert(address@, position@));
                        None
                    },
                    Ok(quote) => {
                        let reason: Option<Reason> = position.check(
                            quote,
                            reading.now,
                            &self.settings.levels,
                            &self.trailing_thresholds,
                        );
                        self.put_new_pool(address, quote.pool);
                        self.put_position(address, position);
                        assert(e.positions.remove(address@).insert(address@, position@)
                            =~= e.positions.insert(address@, position@));
                        match reason {
                            Some(reason) => Some(
                                TradingSignal {
                                    token: TokenInfo::unlisted(
                                        address,
                                        "UNKNOWN",
                                        "Unknown",
                                        quote.price,
                                        "",
                                        None,
                                    ),
                                    action: Action::Sell,
                                    confidence: Binary64::from_u64(1),
                                    reason,
                                    expected_price: Some(quote.price),
                                    override_buy_amount: None,
                                },
                            ),
                            None => None,
                        }
                    },
                }
            },
        }
    }

    /// Looks at the prices that were found for positions: records them, and gives a signal to
    /// sell for each position that is to be left.
    pub fn check_exit_conditions(&mut self, readings: &Vec<PriceReading>) -> (r: Vec<TradingSignal>)
        requires
            countable(old(self)@, reading_views(readings@)),
        ensures
            final(self)@ == after_readings(old(self)@, reading_views(readings@)),
            crate::strategies::signal_views(r@) == reading_signals(
                old(self)@,
                reading_views(readings@),
            ),
    {
        let ghost e = self@;
        let ghost all = reading_views(readings@);
        let mut signals: Vec<TradingSignal> = Vec::new();
        let mut i: usize = 0;
        while i < readings.len()
            invariant
                i <= readings@.len(),
                all == reading_views(readings@),
                countable(e, all),
                self@ == after_readings(e, all.take(i as int)),
                crate::strategies::signal_views(signals@) =~= reading_signals(
                    e,
                    all.take(i as int),
                ),
            decreases readings@.len() - i,
        {
            assert(all.take(i + 1).drop_last() =~= all.take(i as int));
            assert(all.take(i + 1).last() == all[i as int]);
            assert(all[i as int] == readings@[i as int]@);
            let ghost before = crate::strategies::signal_views(signals@);
            proof {
                let address = readings@[i as int].token_address@;
                if e.positions.dom().contains(address) {
                    lemma_failures_grow_by_one(e, all.take(i as int), address);
                } else {
                    lemma_positions_stay(e, all.take(i as int));
                }
            }
            if let Some(signal) = self.check_reading(&readings[i]) {
                signals.push(signal);
                assert(crate::strategies::signal_views(signals@) =~= before.push(signal@));
            }
            i = i + 1;
        }
        assert(all.take(all.len() as int) =~= all);
        signals
    }

    /// Keeps DexScreener's figures of the tokens that are held.
    pub fn enrich_positions(&mut self, tokens: &Vec<TokenInfo>, now: Timestamp)
        ensures
            final(self)@ == (EngineView {
                positions: enriched_positions(old(self)@.positions, token_views(tokens@), now),
                ..old(self)@
            }),
    {
        let ghost e = self@;
        let ghost all = token_views(tokens@);
        let mut i: usize = 0;
        while i < tokens.len()
            invariant
                i <= tokens@.len(),
                all == token_views(tokens@),
                self@ == (EngineView {
                    positions: enriched_positions(e.positions, all.take(i as int), now),
                    ..e
                }),
            decreases tokens@.len() - i,
        {
            assert(all.take(i + 1).drop_last() =~= all.take(i as int));
            let token: &TokenInfo = &tokens[i];
            let address: &str = token.address.as_str();
            let ghost before = self@.positions;
            match self.take_position(address) {
                Some(mut position) => {
                    position.cached_market_cap = Some(token.market_cap);
                    position.cached_holders = Some(token.holders);
                    position.cached_volume_24h = Some(token.volume_24h);
                    position.cached_liquidity = Some(token.liquidity);
                    position.last_enrichment = Some(now);
                    self.put_position(address, position);
                    assert(before.remove(address@).insert(address@, position@)
                        =~= before.insert(address@, position@));
                },
                None => {
                    assert(before.remove(address@) =~= before);
                },
            }
            i = i + 1;
        }
        assert(all.take(all.len() as int) =~= all);
    }
}

proof fn lemma_positions_stay(e: EngineView, readings: Seq<ReadingView>)
    ensures
        after_readings(e, readings).positions.dom() == e.positions.dom(),
    decreases readings.len(),
{
    if readings.len() > 0 {
        lemma_positions_stay(e, readings.drop_last());
        let before = after_readings(e, readings.drop_last());
        assert(after_reading(before, readings.last()).positions.dom() =~= e.positions.dom());
    }
}

/// The slippage never exceeds 99 percent.
pub proof fn law_slippage_is_capped(base_slippage: Binary64, failures: u32)
    ensures
        escalated_slippage(base_slippage, failures).le(Binary64::from_u64(99)),
{
    crate::binary64::law_whole_numbers_are_exact(99);
}

/// Every further failure leaves the slippage as high or raises it.
pub proof fn law_slippage_never_falls(base_slippage: Binary64, fewer: u32, more: u32)
    requires
        fewer <= more,
    ensures
        escalated_slippage(base_slippage, fewer).le(escalated_slippage(base_slippage, more)),
{
    let (x, y) = (Binary64::from_u64((fewer * 10) as u64), Binary64::from_u64((more * 10) as u64));
    crate::binary64::law_whole_products_are_exact(fewer as u64, 10);
    crate::binary64::law_whole_products_are_exact(more as u64, 10);
    crate::binary64::law_whole_order_is_kept((fewer * 10) as u64, (more * 10) as u64);
    crate::binary64::law_whole_numbers_are_exact(99);
    crate::binary64::law_whole_numbers_are_exact((fewer * 10) as u64);
    crate::binary64::law_whole_numbers_are_exact((more * 10) as u64);
    reveal(Binary64::spec_plus);
    if !base_slippage.is_nan() {
        if base_slippage.is_finite() {
            let (t, u) = (base_slippage.value() + x.value(), base_slippage.value() + y.value());
            crate::rounding::lemma_round_bound(t as nat, 1);
            crate::rounding::lemma_round_bound((-t) as nat, 1);
            crate::rounding::lemma_round_bound(u as nat, 1);
            crate::rounding::lemma_round_bound((-u) as nat, 1);
        }
        crate::binary64::law_sums_keep_order(base_slippage, x, y);
    }
}

/// Ten points for each failure.
pub open spec fn ten_points(failures: u32) -> Binary64 {
    Binary64::from_u64(failures as u64).times(Binary64::from_u64(10))
}

/// Whether the points of the failures are added to a base without rounding.
pub open spec fn adds_exactly(base_slippage: Binary64, failures: u32) -> bool {
    let sum = base_slippage.plus(ten_points(failures));
    sum.is_finite() && sum.value() == base_slippage.value() + ten_points(failures).value()
}

proof fn lemma_ten_points(failures: u32)
    ensures
        ten_points(failures) == Binary64::from_u64((failures * 10) as u64),
        ten_points(failures).is_finite(),
        !ten_points(failures).is_negative(),
        ten_points(failures).value() == failures * 10 * Binary64::one_value(),
{
    crate::binary64::law_whole_products_are_exact(failures as u64, 10);
    crate::binary64::law_whole_numbers_are_exact((failures * 10) as u64);
}

/// Every further failure raises the slippage by exactly ten points, up to 99. This holds of every
/// base to which the points of the earlier failures are added without rounding, and of every base
/// that has reached the cap.
pub proof fn law_slippage_rises_by_ten(base_slippage: Binary64, failures: u32)
    requires
        base_slippage.is_finite(),
        failures < u32::MAX,
        adds_exactly(base_slippage, failures) || escalated_slippage(base_slippage, failures)
            == Binary64::from_u64(99),
    ensures
        escalated_slippage(base_slippage, (failures + 1) as u32) == escalated_slippage(
            base_slippage,
            failures,
        ).plus(Binary64::from_u64(10)).at_most(Binary64::from_u64(99)),
{
    let (x, y) = (ten_points(failures), ten_points((failures + 1) as u32));
    let (ten, cap) = (Binary64::from_u64(10), Binary64::from_u64(99));
    let sum = base_slippage.plus(x);
    lemma_ten_points(failures);
    lemma_ten_points((failures + 1) as u32);
    crate::binary64::law_whole_numbers_are_exact(10);
    crate::binary64::law_whole_numbers_are_exact(99);
    if escalated_slippage(base_slippage, failures) == cap {
        crate::binary64::law_whole_sums_are_exact(99, 10);
        crate::binary64::law_whole_order_is_kept(99, 109);
        law_slippage_stays_at_the_cap(base_slippage, failures, (failures + 1) as u32);
    } else {
        let one = Binary64::one_value();
        assert((failures + 1) * 10 * one == failures * 10 * one + 10 * one) by (nonlinear_arith);
        assert(sum.value() + ten.value() == base_slippage.value() + y.value());
        reveal(Binary64::spec_plus);
        assert(sum.plus(ten) == base_slippage.plus(y));
    }
}

/// A slippage that has reached 99 stays there.
pub proof fn law_slippage_stays_at_the_cap(base_slippage: Binary64, failures: u32, later: u32)
    requires
        failures <= later,
        escalated_slippage(base_slippage, failures) == Binary64::from_u64(99),
    ensures
        escalated_slippage(base_slippage, later) == Binary64::from_u64(99),
{
    law_slippage_never_falls(base_slippage, failures, later);
    law_slippage_is_capped(base_slippage, later);
    crate::binary64::law_whole_numbers_are_exact(99);
    crate::binary64::law_whole_order_is_kept(0, 99);
    crate::binary64::law_whole_numbers_are_exact(0);
}

/// Without a failure the slippage is the base, where that is within the cap.
pub proof fn law_slippage_starts_at_the_base(base_slippage: Binary64)
    requires
        base_slippage.is_finite(),
        base_slippage.le(Binary64::from_u64(99)),
    ensures
        adds_exactly(base_slippage, 0),
        escalated_slippage(base_slippage, 0).eq_number(base_slippage),
{
    lemma_ten_points(0);
    let one = Binary64::one_value();
    assert(0 * 10 * one == 0) by (nonlinear_arith);
    crate::binary64::law_whole_numbers_are_exact(99);
    crate::rounding::law_rounding_keeps_numbers(base_slippage.magnitude());
    reveal(Binary64::spec_plus);
    let sum = base_slippage.plus(ten_points(0));
    let total = base_slippage.value() + ten_points(0).value();
    assert(total == base_slippage.value());
    if total == 0 {
        crate::binary64::lemma_zero_size(sum);
    } else {
        assert(sum.magnitude() == base_slippage.magnitude());
    }
    assert(sum.value() == base_slippage.value());
    crate::binary64::law_order_is_order_of_values(sum, base_slippage);
    crate::binary64::law_order_is_order_of_values(sum, Binary64::from_u64(99));
    crate::binary64::law_order_is_order_of_values(Binary64::from_u64(99), sum);
    crate::binary64::law_order_is_order_of_values(base_slippage, Binary64::from_u64(99));
}

/// A whole percentage is raised without rounding: it is the base and ten points for each failure,
/// up to 99.
pub proof fn law_whole_slippage_is_exact(base: u64, failures: u32)
    requires
        base <= 1_000_000_000_000,
    ensures
        adds_exactly(Binary64::from_u64(base), failures),
        escalated_slippage(Binary64::from_u64(base), failures) == Binary64::from_u64(
            if base + 10 * failures <= 99 {
                (base + 10 * failures) as u64
            } else {
                99
            },
        ),
{
    lemma_ten_points(failures);
    crate::binary64::law_whole_sums_are_exact(base, (failures * 10) as u64);
    crate::binary64::law_whole_order_is_kept(99, (base + failures * 10) as u64);
    crate::binary64::law_whole_numbers_are_exact((base + failures * 10) as u64);
    crate::binary64::law_whole_numbers_are_exact(base);
    let one = Binary64::one_value();
    assert((base + failures * 10) * one == base * one + failures * 10 * one) by (nonlinear_arith);
}

proof fn lemma_whole_percent_range(x: Binary64, k: u32)
    requires
        1 <= k,
    ensures
        1 <= whole_percent_to(x, k) <= k,
        whole_percent_to(x, k) > 1 ==> half_below(whole_percent_to(x, k)).le(x),
        whole_percent_to(x, k) < k ==> !half_below((whole_percent_to(x, k) + 1) as u32).le(x),
    decreases k,
{
    if k > 1 && !half_below(k).le(x) {
        lemma_whole_percent_range(x, (k - 1) as u32);
    }
}

/// A slippage that is a number is sent as a whole percentage from 1 to 99, the nearest one.
pub proof fn law_sent_slippage_is_in_range(x: Binary64)
    requires
        !x.is_nan(),
    ensures
        1 <= whole_slippage(x) <= 99,
        whole_slippage(x) > 1 ==> half_below(whole_slippage(x)).le(x),
        whole_slippage(x) < 99 ==> !half_below((whole_slippage(x) + 1) as u32).le(x),
{
    lemma_whole_percent_range(x, 99);
}

/// No position is given up: half a minute after its last failed sale it is not held back, however
/// often it failed.
pub proof fn law_throttle_ends(position: PositionView, base_slippage: Binary64, now: Timestamp)
    requires
        position.last_sell_failure matches Some(last) ==> now.nanos_since(last) >= 30_000_000_000,
    ensures
        !throttled(position, base_slippage, now),
{
    if let Some(last) = position.last_sell_failure {
        let d = now.nanos_since(last);
        assert(30 <= d / 1_000_000_000 <= d);
        assert(crate::clock::truncated(d, 1_000_000_000) == d / 1_000_000_000);
        assert(d <= 2 * 0x7FFF_FFFF_FFFF_FFFF + 1);
        assert(d / 1_000_000_000 <= 0x7FFF_FFFF_FFFF_FFFF);
    }
}

/// While the slippage can still rise, failed sales do not hold a position back.
pub proof fn law_no_throttle_while_rising(
    position: PositionView,
    base_slippage: Binary64,
    now: Timestamp,
)
    requires
        escalated_slippage(base_slippage, position.sell_failures).lt(Binary64::from_u64(99)),
    ensures
        !throttled(position, base_slippage, now),
{
}

/// Every position is looked at again: once five minutes have passed since its last failures, it
/// is priced, however often it failed.
pub proof fn law_position_is_never_abandoned(
    position: PositionView,
    base_slippage: Binary64,
    now: Timestamp,
)
    requires
        position.last_sell_failure matches Some(last) ==> now.nanos_since(last) >= 300_000_000_000,
        position.last_price_failure matches Some(last) ==> now.nanos_since(last)
            >= 300_000_000_000,
    ensures
        pricing_due(position, base_slippage, now),
        refreshed(position, base_slippage, now).price_failures < MAX_PRICE_FAILURES,
{
    law_throttle_ends(position, base_slippage, now);
    if let Some(last) = position.last_price_failure {
        let d = now.nanos_since(last);
        assert(5 <= d / 60_000_000_000 <= d);
        assert(d <= 2 * 0x7FFF_FFFF_FFFF_FFFF + 1);
        assert(d / 60_000_000_000 <= 0x7FFF_FFFF_FFFF_FFFF);
    }
}

/// A sale is never held back by a cooldown.
pub proof fn law_sales_have_no_cooldown(e: EngineView, signal: SignalView, now: Timestamp)
    requires
        signal.action == Action::Sell,
    ensures
        signal_step(e, signal, now) == sell_step(e, signal),
{
}

/// A buy is made only of a token that is not held, not in cooldown, while there is room for a
/// position, and for no more than the largest amount.
pub proof fn law_buys_are_guarded(e: EngineView, signal: SignalView, now: Timestamp)
    requires
        signal_step(e, signal, now) is Buy,
    ensures
        signal.action == Action::Buy,
        !e.positions.dom().contains(signal.token.address),
        !in_cooldown(e, signal.token.address, now),
        e.positions.dom().len() < e.settings.max_positions,
        0 < signal_step(e, signal, now)->lamports <= e.settings.max_buy_amount,
{
}

/// A buy that a signal led to leaves no more positions than are allowed.
pub proof fn law_positions_stay_within_limit(
    e: EngineView,
    signal: SignalView,
    now: Timestamp,
    outcome: BuyOutcome,
)
    requires
        e.positions.dom().finite(),
        signal_step(e, signal, now) is Buy,
    ensures
        ({
            let step = signal_step(e, signal, now);
            after_buy(
                e,
                signal.token.address,
                step->mint,
                step->lamports,
                outcome,
            ).positions.dom().len() <= e.settings.max_positions
        }),
{
    let step = signal_step(e, signal, now);
    let after = after_buy(e, signal.token.address, step->mint, step->lamports, outcome);
    assert(after.positions.dom() =~= e.positions.dom().insert(signal.token.address));
}

/// After a trade of a token, buy signals for it are skipped until the cooldown has passed.
pub proof fn law_trades_start_a_cooldown(
    e: EngineView,
    address: Seq<char>,
    mint: Seq<u8>,
    lamports: u64,
    outcome: BuyOutcome,
    amount: u64,
    sold_at: Timestamp,
    signal: SignalView,
    now: Timestamp,
)
    requires
        signal.token.address == address,
        signal.action == Action::Buy,
    ensures
        now.seconds_since(outcome.now) < e.settings.cooldown_seconds ==> signal_step(
            after_buy(e, address, mint, lamports, outcome),
            signal,
            now,
        ) == SignalStep::Skip(SkipReason::Cooldown),
        now.seconds_since(sold_at) < e.settings.cooldown_seconds ==> signal_step(
            after_sell(e, address, amount, sold_at),
            signal,
            now,
        ) == SignalStep::Skip(SkipReason::Cooldown),
{
}

/// A sale takes from a position exactly what it sells, and closes it when nothing is left. What
/// is left starts without failures to sell, at the base slippage. Other positions stay as they
/// are.
pub proof fn law_sale_takes_what_it_sells(
    e: EngineView,
    address: Seq<char>,
    balance: u64,
    now: Timestamp,
)
    requires
        sell_plan(e, address, balance) is Sell,
    ensures
        ({
            let amount = sell_plan(e, address, balance)->amount;
            let after = after_sell(e, address, amount, now);
            let before = e.positions[address];
            &&& 0 < amount <= balance
            &&& amount <= before.amount
            &&& after.positions.dom().contains(address) <==> amount < before.amount
            &&& after.positions.dom().contains(address) ==> {
                &&& after.positions[address].amount + amount == before.amount
                &&& after.positions[address].sell_failures == 0
                &&& after.positions[address].last_sell_failure is None
            }
            &&& forall|other: Seq<char>|
                other != address ==> {
                    &&& #[trigger] after.positions.dom().contains(other)
                        == e.positions.dom().contains(other)
                    &&& after.positions[other] == e.positions[other]
                }
        }),
{
}

/// A sale is always recorded with what it brought, and with that less what was spent.
pub proof fn law_sales_record_their_result(
    position: PositionView,
    signal: SignalView,
    amount: u64,
    outcome: SellOutcome,
)
    ensures
        sell_trade(position, signal, amount, outcome).sol_received matches Some(received)
            && sell_trade(position, signal, amount, outcome).profit_loss == Some(
            received.minus(position.sol_spent),
        ),
{
}

proof fn lemma_nine_tenths()
    ensures
        Binary64::ratio(9, 10).is_finite(),
        !Binary64::ratio(9, 10).is_negative(),
        Binary64::ratio(9, 10).size() <= Binary64::one_value(),
{
    let one = Binary64::one_value();
    crate::binary64::law_whole_numbers_are_exact(9);
    crate::binary64::law_whole_numbers_are_exact(10);
    crate::binary64::law_whole_numbers_are_exact(1);
    crate::rounding::lemma_exp2_positive(1074);
    assert(one >= 1);
    reveal(Binary64::spec_over);
    let (nine, ten, unit) = (Binary64::from_u64(9), Binary64::from_u64(10), Binary64::from_u64(1));
    assert(nine.size() == 9 * one && ten.size() == 10 * one && unit.size() == one);
    assert(10 * one > 0);
    if ten.zero() {
        crate::rounding::lemma_exp2_values();
        assert(0 * crate::rounding::exp2(0) == 0) by (nonlinear_arith);
    }
    assert(((9 * one) * one) * 1 <= one * (10 * one)) by (nonlinear_arith);
    crate::rounding::law_rounding_keeps_order((9 * one) * one, 10 * one, one, 1);
    crate::rounding::law_rounding_keeps_numbers(unit.magnitude());
    let r = Binary64::ratio(9, 10);
    if r.magnitude() < unit.magnitude() {
        crate::rounding::lemma_magnitude_order(r.magnitude(), unit.magnitude());
    }
}

/// The guess at what a sale brought is cautious: it is never more than what the tokens cost.
pub proof fn law_estimate_is_cautious(amount: u64, entry_price: Binary64)
    requires
        display_tokens(amount).times(entry_price).is_finite(),
        !display_tokens(amount).times(entry_price).is_negative(),
    ensures
        estimate_sol_received(amount, entry_price).le(display_tokens(amount).times(entry_price)),
{
    lemma_nine_tenths();
    crate::binary64::law_part_is_not_larger(
        display_tokens(amount).times(entry_price),
        Binary64::ratio(9, 10),
    );
}

/// Looking at prices opens and closes no position.
pub proof fn law_checks_keep_positions(e: EngineView, readings: Seq<ReadingView>)
    ensures
        after_readings(e, readings).positions.dom() == e.positions.dom(),
{
    lemma_positions_stay(e, readings);
}

/// The highest gain of a position never falls.
pub proof fn law_peak_never_falls(e: EngineView, readings: Seq<ReadingView>, address: Seq<char>)
    requires
        e.positions.dom().contains(address),
    ensures
        ({
            let before = e.positions[address].peak_pnl_percent;
            let after = after_readings(e, readings).positions[address].peak_pnl_percent;
            after == before || before.lt(after)
        }),
    decreases readings.len(),
{
    if readings.len() > 0 {
        lemma_positions_stay(e, readings.drop_last());
        law_peak_never_falls(e, readings.drop_last(), address);
    }
}

/// The entry price of a position is what the buy paid: the SOL spent over the tokens that came.
pub proof fn law_entry_price_is_what_was_paid(
    e: EngineView,
    address: Seq<char>,
    mint: Seq<u8>,
    lamports: u64,
    outcome: BuyOutcome,
)
    requires
        outcome.tokens > 0,
        Binary64::from_u64(0).lt(sol(lamports)),
    ensures
        after_buy(e, address, mint, lamports, outcome).positions[address].entry_price == price_of(
            lamports,
            outcome.tokens,
        ),
        after_buy(e, address, mint, lamports, outcome).positions[address].sol_spent == sol(lamports),
        buy_trade(address, lamports, outcome).price == price_of(lamports, outcome.tokens),
{
}

/// A valid entry price is never changed by looking at prices.
pub proof fn law_entry_price_is_kept(e: EngineView, readings: Seq<ReadingView>, address: Seq<char>)
    requires
        e.positions.dom().contains(address),
        valid_entry(e.positions[address].entry_price),
    ensures
        after_readings(e, readings).positions[address].entry_price
            == e.positions[address].entry_price,
    decreases readings.len(),
{
    if readings.len() > 0 {
        lemma_positions_stay(e, readings.drop_last());
        law_entry_price_is_kept(e, readings.drop_last(), address);
    }
}

/// A position without a valid entry price takes the first valid price, and is not left on it.
pub proof fn law_missing_entry_price_is_filled(e: EngineView, reading: ReadingView)
    requires
        e.positions.dom().contains(reading.token_address),
        !valid_entry(e.positions[reading.token_address].entry_price),
        reading.quote matches Some(quote) && Binary64::from_u64(0).lt(quote.price)
            && quote.price.is_finite(),
    ensures
        after_reading(e, reading).positions[reading.token_address].entry_price
            == reading.quote->0.price,
        reading_signal(e, reading) is None,
{
}

/// Prices of other tokens leave a position as it is.
pub proof fn law_other_positions_are_untouched(
    e: EngineView,
    readings: Seq<ReadingView>,
    address: Seq<char>,
)
    requires
        forall|i: int| 0 <= i < readings.len() ==> (#[trigger] readings[i]).token_address != address,
    ensures
        after_readings(e, readings).positions[address] == e.positions[address],
    decreases readings.len(),
{
    if readings.len() > 0 {
        let front = readings.drop_last();
        assert forall|i: int| 0 <= i < front.len() implies (#[trigger] front[i]).token_address
            != address by {
            assert(front[i] == readings[i]);
        }
        law_other_positions_are_untouched(e, front, address);
        assert(readings[readings.len() - 1] == readings.last());
        if let Some(_) = readings.last().quote {
        }
    }
}

/// Readings that are not written down leave the failures of all positions as they were.
pub proof fn law_unnoted_readings_keep_failures(
    e: EngineView,
    readings: Seq<ReadingView>,
    address: Seq<char>,
)
    requires
        e.positions.dom().contains(address),
        forall|i: int| 0 <= i < readings.len() ==> !noteworthy(e, #[trigger] readings[i]),
    ensures
        ({
            let after = after_readings(e, readings).positions[address];
            &&& after.price_failures == e.positions[address].price_failures
            &&& after.last_price_failure == e.positions[address].last_price_failure
            &&& after.sell_failures == e.positions[address].sell_failures
            &&& after.last_sell_failure == e.positions[address].last_sell_failure
        }),
    decreases readings.len(),
{
    if readings.len() > 0 {
        let front = readings.drop_last();
        assert forall|i: int| 0 <= i < front.len() implies !noteworthy(e, #[trigger] front[i]) by {
            assert(front[i] == readings[i]);
        }
        law_unnoted_readings_keep_failures(e, front, address);
        lemma_positions_stay(e, front);
        assert(!noteworthy(e, readings[readings.len() - 1]));
    }
}

/// Looking for positions to price leaves them as they are where nothing is to be written down.
pub proof fn law_failures_are_forgotten_openly(
    e: EngineView,
    now: Timestamp,
    address: Seq<char>,
)
    requires
        !forgets_failures(e, now),
        e.positions.dom().contains(address),
    ensures
        refreshed(e.positions[address], e.settings.max_slippage, now) == e.positions[address],
{
}

/// DexScreener's figures change neither what is held nor what was paid for it.
pub proof fn law_enrichment_keeps_holdings(
    positions: Map<Seq<char>, PositionView>,
    tokens: Seq<TokenInfoView>,
    now: Timestamp,
)
    ensures
        enriched_positions(positions, tokens, now).dom() == positions.dom(),
        forall|address: Seq<char>|
            positions.dom().contains(address) ==> {
                let after = #[trigger] enriched_positions(positions, tokens, now)[address];
                let before = positions[address];
                &&& after.amount == before.amount
                &&& after.entry_price == before.entry_price
                &&& after.peak_pnl_percent == before.peak_pnl_percent
                &&& after.sol_spent == before.sol_spent
                &&& after.price_history == before.price_history
                &&& after.sell_failures == before.sell_failures
                &&& after.price_failures == before.price_failures
            },
    decreases tokens.len(),
{
    if tokens.len() > 0 {
        law_enrichment_keeps_holdings(positions, tokens.drop_last(), now);
        assert(enriched_positions(positions, tokens, now).dom() =~= positions.dom());
    }
}

proof fn lemma_whole_percent(n: u32, k: u32)
    requires
        1 <= n <= 99,
        1 <= k <= 99,
    ensures
        whole_percent_to(Binary64::from_u64(n as u64), k) == (if n <= k {
            n
        } else {
            k
        }),
    decreases k,
{
    if k > 1 {
        lemma_whole_percent(n, (k - 1) as u32);
        lemma_half_below(n, k);
    }
}

/// Half a point below `k` percent is below `k` and above `k - 1`.
proof fn lemma_half_below(n: u32, k: u32)
    requires
        1 <= n <= 99,
        2 <= k <= 99,
    ensures
        half_below(k).le(Binary64::from_u64(n as u64)) <==> k <= n,
{
    let x = Binary64::from_u64(n as u64);
    let (a, two) = (Binary64::from_u64((2 * k - 1) as u64), Binary64::from_u64(2));
    let twice = Binary64::from_u64((2 * n) as u64);
    crate::binary64::law_whole_numbers_are_exact(n as u64);
    crate::binary64::law_whole_numbers_are_exact((2 * k - 1) as u64);
    crate::binary64::law_whole_numbers_are_exact((2 * n) as u64);
    crate::binary64::law_whole_numbers_are_exact(2);
    crate::binary64::law_whole_order_is_kept(0, 2);
    crate::binary64::law_whole_numbers_are_exact(0);
    crate::binary64::law_whole_order_is_kept((2 * k - 1) as u64, (2 * n) as u64);
    crate::binary64::law_whole_order_is_kept((2 * n) as u64, (2 * k - 1) as u64);
    // Twice the number, over two, is the number.
    let one = Binary64::one_value();
    reveal(Binary64::spec_over);
    reveal(Binary64::spec_from_u64);
    let v = (n * one) as nat;
    assert(((2 * n) * one) * one == v * (2 * one)) by (nonlinear_arith)
        requires
            v == n * one,
    ;
    assert(1 * (2 * one) == 2 * one) by (nonlinear_arith);
    crate::rounding::lemma_exp2_positive(1074);
    crate::rounding::lemma_round_scale(v, 1, (2 * one) as nat);
    assert(twice.over(two) == x);
    if k <= n {
        crate::binary64::law_quotients_keep_order(a, twice, two);
    } else {
        // The half lies strictly above the number, since it is held exactly.
        crate::binary64::law_quotients_keep_order(twice, a, two);
        lemma_halves_are_exact((2 * k - 1) as u64);
        crate::binary64::law_order_is_order_of_values(half_below(k), x);
        assert(2 * (n * one) < (2 * k - 1) * one) by (nonlinear_arith)
            requires
                2 * n < 2 * k - 1,
                one >= 1,
        ;
    }
}

proof fn lemma_halves_are_exact(m: u64)
    requires
        m < 1000,
    ensures
        Binary64::ratio(m, 2).is_finite(),
        2 * Binary64::ratio(m, 2).value() == m * Binary64::one_value(),
{
    let (a, two) = (Binary64::from_u64(m), Binary64::from_u64(2));
    let one = Binary64::one_value();
    crate::binary64::law_whole_numbers_are_exact(m);
    crate::binary64::law_whole_numbers_are_exact(2);
    crate::rounding::lemma_exp2_values();
    crate::rounding::lemma_exp2_sum(1073, 1);
    crate::rounding::lemma_exp2_step(0);
    crate::rounding::lemma_exp2_positive(1073);
    let half = crate::rounding::exp2(1073);
    assert(one == half * 2);
    reveal(Binary64::spec_over);
    let v = m as nat * half;
    assert((m * one) * one == v * (2 * one)) by (nonlinear_arith)
        requires
            v == m as nat * half,
            one == half * 2,
    ;
    assert(1 * (2 * one) == 2 * one) by (nonlinear_arith);
    assert(2 * one > 0);
    crate::rounding::lemma_round_scale(v, 1, (2 * one) as nat);
    let r = crate::rounding::round_ratio(v, 1);
    crate::rounding::lemma_round_bound(v, 1);
    if two.zero() {
        crate::binary64::lemma_zero_size(two);
    }
    assert(a.size() * one == v * (2 * one) && two.size() == 1 * (2 * one));
    assert(Binary64::ratio(m, 2) == Binary64::spec_signed(false, r));
    reveal(Binary64::spec_from_u64);
    assert(v * 1 <= (m as nat * one) * 1) by (nonlinear_arith)
        requires
            v == m as nat * half,
            one == half * 2,
    ;
    crate::rounding::law_rounding_keeps_order(v, 1, m as nat * one, 1);
    crate::rounding::lemma_round_representable(m as nat, 1073);
    assert(2 * (m as nat * half) == m * one) by (nonlinear_arith)
        requires
            one == half * 2,
    ;
}

/// The request to sell carries the slippage that the failures call for: with a whole base of `b`
/// percent and `f` failures behind it, `b + 10 f` percent, and never more than 99.
pub proof fn law_requests_carry_the_escalated_slippage(
    e: EngineView,
    address: Seq<char>,
    balance: u64,
    base: u64,
)
    requires
        1 <= base <= 99,
        e.settings.max_slippage == Binary64::from_u64(base),
        sell_plan(e, address, balance) is Sell,
    ensures
        sell_plan(e, address, balance)->request.slippage == (if base + 10
            * e.positions[address].sell_failures <= 99 {
            base + 10 * e.positions[address].sell_failures
        } else {
            99
        }),
{
    let failures = e.positions[address].sell_failures;
    law_whole_slippage_is_exact(base, failures);
    let whole: u32 = if base + 10 * failures <= 99 {
        (base + 10 * failures) as u32
    } else {
        99
    };
    crate::binary64::law_whole_numbers_are_exact(whole as u64);
    lemma_whole_percent(whole, 99);
}

/// Whatever the base, the request to sell carries the whole percentage from 1 to 99 nearest to the
/// base with ten points for each failure added, at most 99.
pub proof fn law_requests_carry_the_nearest_percentage(
    e: EngineView,
    address: Seq<char>,
    balance: u64,
)
    requires
        sell_plan(e, address, balance) is Sell,
        !e.settings.max_slippage.is_nan(),
    ensures
        ({
            let sent = sell_plan(e, address, balance)->request.slippage;
            let wanted = e.settings.max_slippage.plus(
                ten_points(e.positions[address].sell_failures),
            ).at_most(Binary64::from_u64(99));
            &&& 1 <= sent <= 99
            &&& sent > 1 ==> Binary64::ratio((2 * sent - 1) as u64, 2).le(wanted)
            &&& sent < 99 ==> !Binary64::ratio((2 * sent + 1) as u64, 2).le(wanted)
        }),
{
    let failures = e.positions[address].sell_failures;
    let wanted = escalated_slippage(e.settings.max_slippage, failures);
    crate::binary64::law_whole_numbers_are_exact(99);
    law_slippage_is_capped(e.settings.max_slippage, failures);
    law_sent_slippage_is_in_range(wanted);
}

/// A position that is held is sold as far as the wallet has its tokens, and all of the wallet's
/// tokens are asked for exactly where the order takes them all. The request names the wallet, the
/// token and a sale, and is not in SOL.
pub proof fn law_sales_ask_for_what_is_held(e: EngineView, address: Seq<char>, balance: u64)
    requires
        e.positions.dom().contains(address),
        0 < balance,
        0 < e.positions[address].amount,
    ensures
        sell_plan(e, address, balance) is Sell,
        ({
            let order = sell_plan(e, address, balance);
            let held = e.positions[address].amount;
            &&& order->amount <= held && order->amount <= balance
            &&& order->amount == held || order->amount == balance
            &&& order->full_exit <==> held >= balance
            &&& order->request.amount == (if held >= balance {
                TradeAmount::All
            } else {
                TradeAmount::Tokens(held)
            })
            &&& order->request.action == Action::Sell
            &&& order->request.mint == address
            &&& !order->request.denominated_in_sol
            &&& order->request.public_key == crate::pubkey::base58_text(
                crate::wallet::keypair_address(e.keypair),
            )
            &&& order->request.pool == "auto"@
            &&& order->request.priority_fee == Binary64::ratio(1, 1000)
        }),
{
}

/// Without the position, without tokens in the wallet and without tokens in the position nothing
/// is sold.
pub proof fn law_nothing_is_sold_without_tokens(e: EngineView, address: Seq<char>, balance: u64)
    ensures
        !e.positions.dom().contains(address) <==> sell_plan(e, address, balance) is NotHeld,
        e.positions.dom().contains(address) && balance == 0 <==> sell_plan(
            e,
            address,
            balance,
        ) is Stale,
        e.positions.dom().contains(address) && balance > 0 && e.positions[address].amount == 0
            <==> sell_plan(e, address, balance) is Nothing,
{
}

/// A token that was traded is not bought again until its cooldown is over, to the nanosecond; one
/// that was never traded has none.
pub proof fn law_cooldowns_last_their_seconds(e: EngineView, address: Seq<char>, now: Timestamp)
    ensures
        !e.last_trade_time.dom().contains(address) ==> !in_cooldown(e, address, now),
        e.last_trade_time.dom().contains(address) && e.settings.cooldown_seconds > 0 ==> (
        in_cooldown(e, address, now) <==> now.nanos - e.last_trade_time[address].nanos
            < e.settings.cooldown_seconds * 1_000_000_000),
{
}

/// An amount that is asked for is spent, as far as the limit allows.
pub proof fn law_wanted_amounts_are_spent(max: u64, signal: SignalView, wanted: u64)
    requires
        signal.override_buy_amount == Some(wanted),
    ensures
        wanted <= max ==> buy_amount(max, signal) == wanted,
        wanted > max ==> buy_amount(max, signal) == max,
{
}

/// Without such an amount the confidence decides: full confidence spends the limit, and any other
/// that share of it, down to the whole lamport.
pub proof fn law_confidence_is_a_share_of_the_limit(max: u64, signal: SignalView)
    requires
        max < 0x20_0000_0000_0000,
        signal.override_buy_amount is None,
        signal.confidence.is_finite(),
        !signal.confidence.is_negative(),
        signal.confidence.le(Binary64::from_u64(1)),
    ensures
        signal.confidence == Binary64::from_u64(1) ==> buy_amount(max, signal) == max,
        ({
            let share = Binary64::from_u64(max).times(signal.confidence);
            buy_amount(max, signal) * Binary64::one_value() <= share.value() < (buy_amount(
                max,
                signal,
            ) + 1) * Binary64::one_value()
        }),
{
    let (m, one) = (Binary64::from_u64(max), Binary64::from_u64(1));
    let share = m.times(signal.confidence);
    crate::binary64::law_whole_numbers_are_exact(max);
    crate::binary64::law_whole_numbers_are_exact(1);
    crate::binary64::law_whole_products_are_exact(max, 1);
    crate::binary64::law_products_keep_order(signal.confidence, one, m);
    crate::binary64::law_products_commute(m, signal.confidence);
    crate::binary64::law_products_commute(m, one);
    assert(share.le(m));
    assert(!share.is_negative() && share.is_finite()) by {
        reveal(Binary64::spec_times);
        crate::rounding::lemma_round_bound(
            m.size() * signal.confidence.size(),
            Binary64::one_value(),
        );
        crate::rounding::lemma_exp2_positive(1074);
    }
    crate::binary64::law_order_is_order_of_values(share, m);
    crate::rounding::lemma_exp2_positive(1074);
    assert(max * Binary64::one_value() < 0x1_0000_0000_0000_0000 * Binary64::one_value())
        by (nonlinear_arith)
        requires
            max < 0x20_0000_0000_0000,
            Binary64::one_value() >= 1,
    ;
    crate::binary64::law_whole_part_is_below(share);
    crate::binary64::law_whole_parts_keep_order(share, m);
}

/// More confidence spends no less.
pub proof fn law_confidence_never_lowers_the_amount(max: u64, less: SignalView, more: SignalView)
    requires
        max < 0x20_0000_0000_0000,
        less.override_buy_amount is None,
        more.override_buy_amount is None,
        less.confidence.is_finite(),
        more.confidence.is_finite(),
        less.confidence.le(more.confidence),
    ensures
        buy_amount(max, less) <= buy_amount(max, more),
{
    let m = Binary64::from_u64(max);
    crate::binary64::law_whole_numbers_are_exact(max);
    crate::binary64::law_products_keep_order(less.confidence, more.confidence, m);
    crate::binary64::law_products_commute(m, less.confidence);
    crate::binary64::law_products_commute(m, more.confidence);
    crate::binary64::law_whole_parts_keep_order(
        m.times(less.confidence),
        m.times(more.confidence),
    );
}

/// A signal to buy is followed wherever nothing speaks against it, and the request asks for the
/// token of the signal, to be paid in SOL by the wallet.
pub proof fn law_purchases_are_asked_for(
    e: EngineView,
    signal: SignalView,
    now: Timestamp,
    mint: Seq<u8>,
)
    requires
        signal.action == Action::Buy,
        !e.positions.dom().contains(signal.token.address),
        !in_cooldown(e, signal.token.address, now),
        e.positions.dom().len() < e.settings.max_positions,
        buy_amount(e.settings.max_buy_amount, signal) > 0,
        crate::pubkey::base58_key(signal.token.address) == Ok::<
            Seq<u8>,
            crate::pubkey::KeyError,
        >(mint),
    ensures
        ({
            let step = signal_step(e, signal, now);
            &&& step is Buy
            &&& step->mint == mint
            &&& step->lamports == buy_amount(e.settings.max_buy_amount, signal)
            &&& step->request.action == Action::Buy
            &&& step->request.mint == signal.token.address
            &&& step->request.denominated_in_sol
            &&& step->request.amount == TradeAmount::Sol(sol(step->lamports))
            &&& step->request.public_key == crate::pubkey::base58_text(
                crate::wallet::keypair_address(e.keypair),
            )
            &&& step->request.priority_fee == Binary64::ratio(1, 1000)
            &&& step->request.pool == "auto"@
        }),
{
}

/// A request to buy carries a whole slippage as it is set, however many sales have failed.
pub proof fn law_purchases_carry_the_base_slippage(
    e: EngineView,
    signal: SignalView,
    now: Timestamp,
    base: u32,
)
    requires
        e.settings.max_slippage == Binary64::from_u64(base as u64),
        signal_step(e, signal, now) is Buy,
    ensures
        signal_step(e, signal, now)->request.slippage == base,
{
    crate::binary64::law_whole_numbers_are_exact(base as u64);
}

/// What speaks against a purchase is told, the first reason of all.
pub proof fn law_purchases_are_declined_with_a_reason(
    e: EngineView,
    signal: SignalView,
    now: Timestamp,
)
    requires
        signal.action == Action::Buy,
    ensures
        ({
            let step = signal_step(e, signal, now);
            let address = signal.token.address;
            let amount = buy_amount(e.settings.max_buy_amount, signal);
            let free = !in_cooldown(e, address, now);
            let new = !e.positions.dom().contains(address);
            let room = e.positions.dom().len() < e.settings.max_positions;
            &&& step == SignalStep::Skip(SkipReason::Cooldown) <==> !free
            &&& step == SignalStep::Skip(SkipReason::AlreadyHeld) <==> free && !new
            &&& step == SignalStep::Skip(SkipReason::MaxPositions) <==> free && new && !room
            &&& step == SignalStep::Skip(SkipReason::ZeroAmount) <==> free && new && room && amount
                == 0
            &&& step is Fail <==> free && new && room && amount > 0 && crate::pubkey::base58_key(
                address,
            ) is Err
        }),
{
}

/// A signal to sell sells what is held, and one to hold does nothing.
pub proof fn law_other_signals_are_followed(e: EngineView, signal: SignalView, now: Timestamp)
    ensures
        signal.action == Action::Sell && e.positions.dom().contains(signal.token.address)
            ==> signal_step(e, signal, now) == SignalStep::Sell(
            e.positions[signal.token.address].token_mint,
        ),
        signal.action == Action::Sell && !e.positions.dom().contains(signal.token.address)
            ==> signal_step(e, signal, now) == SignalStep::Skip(SkipReason::NotHeld),
        signal.action == Action::Hold ==> signal_step(e, signal, now) is Skip,
{
}

/// A purchase opens a position with the tokens that came in and nothing against it, starts the
/// cooldown of its token, and touches no other token.
pub proof fn law_purchases_open_positions(
    e: EngineView,
    address: Seq<char>,
    mint: Seq<u8>,
    lamports: u64,
    outcome: BuyOutcome,
    other: Seq<char>,
)
    requires
        other != address,
    ensures
        ({
            let after = after_buy(e, address, mint, lamports, outcome);
            let p = after.positions[address];
            &&& after.positions.dom() == e.positions.dom().insert(address)
            &&& p.token_address == address
            &&& p.token_mint == mint
            &&& p.amount == outcome.tokens
            &&& p.entry_time == outcome.now
            &&& p.sol_spent == sol(lamports)
            &&& p.peak_pnl_percent == Binary64::from_u64(0)
            &&& p.price_history.len() == 0
            &&& p.source_wallet is None
            &&& p.sell_failures == 0 && p.last_sell_failure is None
            &&& p.price_failures == 0 && p.last_price_failure is None
            &&& after.last_trade_time.dom().contains(address)
            &&& after.last_trade_time[address] == outcome.now
            &&& after.positions[other] == e.positions[other]
            &&& after.last_trade_time.dom().contains(other) == e.last_trade_time.dom().contains(
                other,
            )
            &&& after.last_trade_time[other] == e.last_trade_time[other]
            &&& after.pools.dom().contains(other) == e.pools.dom().contains(other)
            &&& after.pools[other] == e.pools[other]
            &&& after.settings == e.settings && after.tiers == e.tiers
            &&& after.keypair == e.keypair && after.trades == e.trades
        }),
{
}

/// The price of a purchase is what was paid for each token. Where no tokens were counted it is
/// the price that was read instead, and where there is none of these it is zero.
pub proof fn law_entry_prices_have_a_source(
    e: EngineView,
    address: Seq<char>,
    mint: Seq<u8>,
    lamports: u64,
    outcome: BuyOutcome,
)
    requires
        lamports < 0x20_0000_0000_0000,
    ensures
        ({
            let price = after_buy(e, address, mint, lamports, outcome).positions[address].entry_price;
            &&& buy_trade(address, lamports, outcome).price == price
            &&& outcome.tokens > 0 && lamports > 0 ==> price == price_of(lamports, outcome.tokens)
            &&& outcome.tokens == 0 || lamports == 0 ==> match outcome.fallback {
                Some(quote) => price == (if Binary64::from_u64(0).lt(quote.price) {
                    quote.price
                } else {
                    Binary64::from_u64(0)
                }),
                None => price == Binary64::from_u64(0),
            }
        }),
{
    crate::pricing::law_more_lamports_are_a_higher_price(lamports, lamports, 1);
}

/// The record of a purchase tells what came in.
pub proof fn law_purchases_are_recorded(address: Seq<char>, lamports: u64, outcome: BuyOutcome)
    ensures
        ({
            let trade = buy_trade(address, lamports, outcome);
            &&& trade.action == Action::Buy
            &&& trade.token_address == address
            &&& trade.amount == outcome.tokens
            &&& trade.timestamp == outcome.traded_at
            &&& trade.id == outcome.id@
            &&& trade.signature == Some(outcome.signature@)
            &&& trade.profit_loss is None && trade.sol_received is None
        }),
{
}

/// The record of a sale tells what was sold and what it brought: what was counted, or an estimate
/// of all that was held where nothing was.
pub proof fn law_sales_are_recorded(
    position: PositionView,
    signal: SignalView,
    amount: u64,
    outcome: SellOutcome,
)
    ensures
        ({
            let trade = sell_trade(position, signal, amount, outcome);
            &&& trade.action == Action::Sell
            &&& trade.token_address == signal.token.address
            &&& trade.amount == amount
            &&& trade.price == signal.token.price_usd
            &&& trade.timestamp == outcome.traded_at
            &&& trade.id == outcome.id@
            &&& trade.signature == Some(outcome.signature@)
            &&& outcome.received is Some ==> trade.sol_received == outcome.received
            &&& outcome.received is None ==> trade.sol_received == Some(
                estimate_sol_received(position.amount, position.entry_price),
            )
        }),
{
}

/// A sale keeps what is known of the position that is left, and starts the cooldown.
pub proof fn law_sales_keep_the_rest(
    e: EngineView,
    address: Seq<char>,
    amount: u64,
    now: Timestamp,
    other: Seq<char>,
)
    requires
        e.positions.dom().contains(address),
        other != address,
    ensures
        ({
            let (after, before) = (after_sell(e, address, amount, now), e.positions[address]);
            &&& after.positions.dom().contains(address) <==> amount < before.amount
            &&& amount < before.amount ==> after.positions[address] == (PositionView {
                amount: (before.amount - amount) as u64,
                sell_failures: 0,
                last_sell_failure: None,
                ..before
            })
            &&& after.last_trade_time.dom().contains(address)
            &&& after.last_trade_time[address] == now
            &&& after.last_trade_time[other] == e.last_trade_time[other]
            &&& after.pools == e.pools && after.settings == e.settings && after.trades == e.trades
        }),
{
}

/// The money of a sale is there once the balance has risen, and is as much as it has risen by.
/// Until then it is looked for five times in all.
pub proof fn law_settlements_wait_for_the_money(before: u64, attempt: u32, after: u64)
    ensures
        after > before ==> settlement(before, attempt, after) == Settlement::Received(
            sol((after - before) as u64),
        ),
        after <= before && attempt < 4 ==> settlement(before, attempt, after) == Settlement::Retry,
        after <= before && attempt >= 4 ==> settlement(before, attempt, after)
            == Settlement::GaveUp,
{
}

/// An estimate is nine tenths of what the tokens cost.
pub proof fn law_estimates_are_nine_tenths(tokens: u64, price: u64)
    requires
        tokens * 1_000_000 < 0x20_0000_0000_0000,
        price < 0x20_0000_0000_0000,
        tokens * price < 0x20_0000_0000_0000,
    ensures
        estimate_sol_received((tokens * 1_000_000) as u64, Binary64::from_u64(price))
            == Binary64::from_u64((tokens * price) as u64).times(Binary64::ratio(9, 10)),
{
    crate::binary64::law_whole_quotients_are_exact(tokens, 1_000_000);
    crate::binary64::law_whole_products_are_exact(tokens, price);
}

/// A position is held back for thirty seconds after each failed sale, once the slippage that the
/// failures call for has reached 99 percent, and at no other time.
pub proof fn law_throttle_starts_at_the_cap(position: PositionView, base: u64, now: Timestamp)
    requires
        base <= 1_000_000_000_000,
    ensures
        throttled(position, Binary64::from_u64(base), now) <==> position.sell_failures > 0 && base
            + 10 * position.sell_failures >= 99 && match position.last_sell_failure {
            Some(last) => now.nanos - last.nanos < 30_000_000_000,
            None => false,
        },
{
    law_whole_slippage_is_exact(base, position.sell_failures);
    let n = if base + 10 * position.sell_failures <= 99 {
        (base + 10 * position.sell_failures) as u64
    } else {
        99
    };
    crate::binary64::law_whole_order_is_kept(99, n);
}

/// A position is priced unless its sale is held back, or three readings in a row have failed and
/// the last of them was less than five minutes ago. Then its failures are forgotten.
pub proof fn law_pricing_pauses_after_failures(
    position: PositionView,
    base_slippage: Binary64,
    now: Timestamp,
)
    ensures
        ({
            let rests = position.price_failures >= 3 && match position.last_price_failure {
                Some(last) => now.nanos - last.nanos < 300_000_000_000,
                None => false,
            };
            let due = !throttled(position, base_slippage, now) && !rests;
            let after = refreshed(position, base_slippage, now);
            &&& pricing_due(position, base_slippage, now) <==> due
            &&& due && position.price_failures >= 3 ==> after == (PositionView {
                price_failures: 0,
                last_price_failure: None,
                ..position
            })
            &&& !due || position.price_failures < 3 ==> after == position
        }),
{
}

/// A reading that failed is counted, and one that did not ends the count.
pub proof fn law_readings_are_counted(e: EngineView, reading: ReadingView)
    requires
        e.positions.dom().contains(reading.token_address),
        e.positions[reading.token_address].price_failures < u32::MAX,
    ensures
        ({
            let before = e.positions[reading.token_address];
            let after = after_reading(e, reading).positions[reading.token_address];
            match reading.quote {
                None => after == (PositionView {
                    price_failures: (before.price_failures + 1) as u32,
                    last_price_failure: Some(reading.now),
                    ..before
                }),
                Some(quote) => {
                    &&& after.price_failures == 0
                    &&& before.price_failures > 0 ==> after.last_price_failure is None
                    &&& after.price_history.len() > 0
                    &&& after.price_history.last() == (reading.now, quote.price)
                    &&& after.amount == before.amount
                    &&& after.sol_spent == before.sol_spent
                    &&& after.entry_time == before.entry_time
                    &&& after.sell_failures == before.sell_failures
                    &&& after.last_sell_failure == before.last_sell_failure
                    &&& after.source_wallet == before.source_wallet
                },
            }
        }),
{
}

/// The peak of a position is its highest gain: a reading raises it to the gain that it shows, and
/// never lowers it.
pub proof fn law_peaks_follow_the_gain(e: EngineView, reading: ReadingView)
    requires
        e.positions.dom().contains(reading.token_address),
        valid_entry(e.positions[reading.token_address].entry_price),
        reading.quote is Some,
    ensures
        ({
            let before = e.positions[reading.token_address];
            let after = after_reading(e, reading).positions[reading.token_address];
            let gain = gain_percent(reading.quote->0.price, before.entry_price);
            &&& before.peak_pnl_percent.lt(gain) ==> after.peak_pnl_percent == gain
            &&& !before.peak_pnl_percent.lt(gain) ==> after.peak_pnl_percent
                == before.peak_pnl_percent
            &&& after.entry_price == before.entry_price
        }),
{
}

/// What a reading asks for is a sale of the token that it is about, at the price that it shows.
pub proof fn law_readings_only_sell(e: EngineView, reading: ReadingView)
    requires
        reading_signal(e, reading) is Some,
    ensures
        ({
            let signal = reading_signal(e, reading)->0;
            &&& e.positions.dom().contains(reading.token_address)
            &&& reading.quote is Some
            &&& signal.action == Action::Sell
            &&& signal.token.address == reading.token_address
            &&& signal.token.price_usd == reading.quote->0.price
            &&& signal.expected_price == Some(reading.quote->0.price)
            &&& signal.confidence == Binary64::from_u64(1)
        }),
{
}

/// A reading asks for a sale wherever the position has lost as much as the stop allows, has
/// gained its target without a tier, has been held for too long without one, or could no longer
/// be sold for want of liquidity.
pub proof fn law_exits_are_signalled(e: EngineView, reading: ReadingView)
    requires
        e.positions.dom().contains(reading.token_address),
        valid_entry(e.positions[reading.token_address].entry_price),
        reading.quote is Some,
        ({
            let (p, quote) = (e.positions[reading.token_address], reading.quote->0);
            let (levels, x) = (e.settings.levels, e.settings.levels.strategies);
            let gain = gain_percent(quote.price, p.entry_price);
            ||| gain.le(levels.stop_loss_percent.negated())
            ||| e.tiers.len() == 0 && levels.profit_target_percent.le(gain)
            ||| e.tiers.len() == 0 && x.time_exit_enabled && x.max_hold_minutes > 0
                && reading.now.nanos - p.entry_time.nanos >= x.max_hold_minutes * 60_000_000_000
            ||| x.liquidity_exit_enabled && Binary64::from_u64(0).lt(x.min_liquidity_sol)
                && quote.liquidity_sol.lt(x.min_liquidity_sol)
        }),
    ensures
        reading_signal(e, reading) is Some,
{
    let (p, quote) = (e.positions[reading.token_address], reading.quote->0);
    crate::exits::law_stop_loss_is_a_gain_bound(
        quote.price,
        p.entry_price,
        e.settings.levels.stop_loss_percent,
    );
    crate::clock::law_spans_are_full_units(
        reading.now.nanos - p.entry_time.nanos,
        60_000_000_000,
    );
}

/// Readings are taken one after the other: two lists of them do and ask what the first does and
/// asks and then what the second does and asks.
pub proof fn law_readings_are_taken_in_turn(
    e: EngineView,
    first: Seq<ReadingView>,
    second: Seq<ReadingView>,
    reading: ReadingView,
)
    ensures
        after_readings(e, first + second) == after_readings(after_readings(e, first), second),
        reading_signals(e, first + second) == reading_signals(e, first) + reading_signals(
            after_readings(e, first),
            second,
        ),
        reading_signals(e, seq![reading]) == (match reading_signal(e, reading) {
            Some(signal) => seq![signal],
            None => Seq::empty(),
        }),
    decreases second.len(),
{
    let one = seq![reading];
    assert(one.drop_last() == Seq::<ReadingView>::empty());
    assert(after_readings(e, one.drop_last()) == e);
    assert(reading_signals(e, one.drop_last()) == Seq::<SignalView>::empty());
    if second.len() == 0 {
        assert(first + second == first);
    } else {
        assert((first + second).drop_last() == first + second.drop_last());
        law_readings_are_taken_in_turn(e, first, second.drop_last(), reading);
    }
}

/// Readings of different tokens do not meddle with one another: each does and asks what it would
/// alone.
pub proof fn law_tokens_are_judged_apart(e: EngineView, readings: Seq<ReadingView>, i: int)
    requires
        0 <= i < readings.len(),
        forall|j: int|
            0 <= j < readings.len() && j != i ==> (#[trigger] readings[j]).token_address
                != readings[i].token_address,
    ensures
        after_readings(e, readings).positions[readings[i].token_address] == after_reading(
            e,
            readings[i],
        ).positions[readings[i].token_address],
        reading_signal(e, readings[i]) is Some ==> reading_signals(e, readings).contains(
            reading_signal(e, readings[i])->0,
        ),
{
    let (before, rest) = (readings.take(i), readings.skip(i + 1));
    let (one, address) = (seq![readings[i]], readings[i].token_address);
    assert(readings == before + (one + rest));
    let mid = after_readings(e, before);
    law_readings_are_taken_in_turn(e, before, one + rest, readings[i]);
    law_readings_are_taken_in_turn(mid, one, rest, readings[i]);
    assert(one.drop_last() == Seq::<ReadingView>::empty());
    reveal_with_fuel(after_readings, 2);
    assert(after_readings(mid, one) == after_reading(mid, readings[i]));
    assert forall|j: int| 0 <= j < before.len() implies (#[trigger] before[j]).token_address
        != address by {
        assert(before[j] == readings[j]);
    }
    assert forall|j: int| 0 <= j < rest.len() implies (#[trigger] rest[j]).token_address
        != address by {
        assert(rest[j] == readings[i + 1 + j]);
    }
    law_other_positions_are_untouched(e, before, address);
    law_other_positions_are_untouched(after_reading(mid, readings[i]), rest, address);
    law_checks_keep_positions(e, before);
    lemma_readings_keep_settings(e, before);
    assert(reading_signal(mid, readings[i]) == reading_signal(e, readings[i]));
    if reading_signal(e, readings[i]) is Some {
        let signal = reading_signal(e, readings[i])->0;
        let early = reading_signals(e, before);
        let late = reading_signals(after_readings(mid, one), rest);
        assert(reading_signals(e, readings) == early + (seq![signal] + late));
        assert(reading_signals(e, readings)[early.len() as int] == signal);
    }
}

proof fn lemma_readings_keep_settings(e: EngineView, readings: Seq<ReadingView>)
    ensures
        after_readings(e, readings).settings == e.settings,
        after_readings(e, readings).tiers == e.tiers,
    decreases readings.len(),
{
    if readings.len() > 0 {
        lemma_readings_keep_settings(e, readings.drop_last());
    }
}

/// The pool that a reading names is remembered, and one that is known is not replaced.
pub proof fn law_pools_are_remembered(e: EngineView, reading: ReadingView)
    requires
        e.positions.dom().contains(reading.token_address),
        reading.quote is Some,
        reading.quote->0.pool is Some,
    ensures
        after_reading(e, reading).pools.dom().contains(reading.token_address),
        after_reading(e, reading).pools[reading.token_address] == (if e.pools.dom().contains(
            reading.token_address,
        ) {
            e.pools[reading.token_address]
        } else {
            reading.quote->0.pool->0
        }),
{
}

/// What was looked up of a token is kept with its position, the last figures of all, and the time
/// with it.
pub proof fn law_enrichment_fills_figures(
    positions: Map<Seq<char>, PositionView>,
    tokens: Seq<TokenInfoView>,
    now: Timestamp,
    i: int,
)
    requires
        0 <= i < tokens.len(),
        positions.dom().contains(tokens[i].address),
        forall|j: int|
            i < j < tokens.len() ==> (#[trigger] tokens[j]).address != tokens[i].address,
    ensures
        ({
            let after = enriched_positions(positions, tokens, now)[tokens[i].address];
            &&& after.cached_market_cap == Some(tokens[i].market_cap)
            &&& after.cached_holders == Some(tokens[i].holders)
            &&& after.cached_volume_24h == Some(tokens[i].volume_24h)
            &&& after.cached_liquidity == Some(tokens[i].liquidity)
            &&& after.last_enrichment == Some(now)
        }),
    decreases tokens.len(),
{
    let fewer = tokens.drop_last();
    law_enrichment_keeps_holdings(positions, fewer, now);
    if i < fewer.len() {
        assert(fewer[i] == tokens[i]);
        assert forall|j: int| i < j < fewer.len() implies (#[trigger] fewer[j]).address
            != fewer[i].address by {
            assert(fewer[j] == tokens[j]);
        }
        law_enrichment_fills_figures(positions, fewer, now, i);
        assert(tokens[tokens.len() - 1].address != tokens[i].address);
    }
}

/// A position of which the wallet holds nothing any more is given up, and no other plan to sell
/// changes anything.
pub proof fn law_gone_tokens_are_given_up(
    e: EngineView,
    address: Seq<char>,
    balance: u64,
    other: Seq<char>,
)
    ensures
        ({
            let after = after_sell_plan(e, address, balance);
            &&& balance == 0 ==> !after.positions.dom().contains(address)
            &&& balance > 0 ==> after == e
            &&& other != address ==> after.positions.dom().contains(other)
                == e.positions.dom().contains(other) && after.positions[other]
                == e.positions[other]
            &&& after.last_trade_time == e.last_trade_time && after.pools == e.pools
            &&& after.trades == e.trades && after.settings == e.settings
        }),
{
}

/// How a position stands after a reading: at the price that was read, with that price behind all
/// others, against the price of its purchase and since that time, with the peak raised.
pub proof fn law_positions_stand_as_read(
    position: PositionView,
    quote: QuoteView,
    now: Timestamp,
)
    ensures
        ({
            let s = standing(position, quote, now);
            let gain = gain_percent(quote.price, position.entry_price);
            &&& s.current == quote.price
            &&& s.liquidity == quote.liquidity_sol
            &&& s.entry == position.entry_price
            &&& s.held_since == position.entry_time
            &&& s.now == now
            &&& s.history.len() > 0 && s.history.last() == (now, quote.price)
            &&& position.peak_pnl_percent.lt(gain) ==> s.peak == gain
            &&& !position.peak_pnl_percent.lt(gain) ==> s.peak == position.peak_pnl_percent
        }),
{
}

/// The pool of a token is known after its purchase where one was found: that of the price that
/// had to stand in comes first, then the one that was known, then the one that was searched for.
pub proof fn law_purchases_remember_pools(
    e: EngineView,
    address: Seq<char>,
    mint: Seq<u8>,
    lamports: u64,
    outcome: BuyOutcome,
)
    requires
        lamports < 0x20_0000_0000_0000,
    ensures
        ({
            let after = after_buy(e, address, mint, lamports, outcome).pools;
            let stands_in = (outcome.tokens == 0 || lamports == 0) && outcome.fallback is Some
                && Binary64::from_u64(0).lt(outcome.fallback->0.price)
                && outcome.fallback->0.pool is Some;
            &&& stands_in ==> after.dom().contains(address) && after[address]
                == outcome.fallback->0.pool->0@
            &&& !stands_in && e.pools.dom().contains(address) ==> after.dom().contains(address)
                && after[address] == e.pools[address]
            &&& !stands_in && !e.pools.dom().contains(address) && outcome.discovered is Some
                ==> after.dom().contains(address) && after[address] == outcome.discovered->0@
            &&& !stands_in && !e.pools.dom().contains(address) && outcome.discovered is None
                ==> !after.dom().contains(address)
        }),
{
    crate::pricing::law_more_lamports_are_a_higher_price(lamports, lamports, 1);
}

} // verus!
