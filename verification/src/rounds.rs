//! Rounds of signals that are acted on one after another.
use crate::binary64::Binary64;
use crate::bot::{ExitFollowUp, TradingBot};
use crate::clock::{Instant, Timestamp};
use crate::error::BotError;
use crate::journal::{BuyEntry, PositionBrief};
use crate::pumpportal::TokenInfo;
use crate::strategies::{SignalView, TradingSignal};
use crate::trading::{EngineView, PositionView, Trade};
use vstd::prelude::*;

verus! {

/// Signals that are acted on in turn.
pub struct Round {
    signals: Vec<TradingSignal>,
    tried: usize,
    stopped: bool,
}

#[verifier::ext_equal]
pub struct RoundView {
    pub signals: Seq<SignalView>,
    /// How many of the signals were acted on.
    pub tried: nat,
    /// Whether the rest is left.
    pub stopped: bool,
}

impl View for Round {
    type V = RoundView;

    closed spec fn view(&self) -> RoundView {
        RoundView {
            signals: crate::strategies::signal_views(self.signals@),
            tried: self.tried as nat,
            stopped: self.stopped,
        }
    }
}

/// A round before its first signal.
pub open spec fn new_round(signals: Seq<SignalView>) -> RoundView {
    RoundView { signals, tried: 0, stopped: false }
}

/// The signal whose turn it is.
pub open spec fn upcoming(r: RoundView) -> Option<SignalView> {
    if !r.stopped && r.tried < r.signals.len() {
        Some(r.signals[r.tried as int])
    } else {
        None
    }
}

/// The round after a signal was acted on: the next one has its turn, unless the rest is left.
pub open spec fn after_signal(r: RoundView, stops: bool) -> RoundView {
    RoundView { tried: r.tried + 1, stopped: stops, ..r }
}

impl Round {
    pub fn new(signals: Vec<TradingSignal>) -> (r: Self)
        ensures
            r@ == new_round(crate::strategies::signal_views(signals@)),
    {
        Round { signals, tried: 0, stopped: false }
    }

    /// The signal whose turn it is.
    pub fn current(&self) -> (r: Option<&TradingSignal>)
        ensures
            match r {
                Some(signal) => upcoming(self@) == Some(signal@),
                None => upcoming(self@) is None,
            },
    {
        if !self.stopped && self.tried < self.signals.len() {
            Some(&self.signals[self.tried])
        } else {
            None
        }
    }

    fn signal(&self) -> (r: &TradingSignal)
        requires
            upcoming(self@) is Some,
        ensures
            r@ == upcoming(self@)->0,
    {
        assert(self.tried < self.signals.len());
        &self.signals[self.tried]
    }

    fn advance(&mut self, stops: bool)
        requires
            upcoming(old(self)@) is Some,
        ensures
            final(self)@ == after_signal(old(self)@, stops),
    {
        assert(self.tried < self.signals.len());
        self.tried = self.tried + 1;
        self.stopped = stops;
    }
}

/// What came of a signal to leave a position.
#[derive(Debug)]
pub enum ExitOutcome {
    /// A sale, with what is remembered of the position and what DexScreener tells of the token.
    Sold { trade: Trade, brief: Option<PositionBrief>, enriched: Vec<TokenInfo> },
    /// Nothing was sold, and nothing failed.
    NoTrade,
    Failed,
}

/// Whether an outcome can be taken in.
pub open spec fn takes_in(bot: TradingBot, signal: SignalView, outcome: ExitOutcome) -> bool {
    match outcome {
        ExitOutcome::Sold { brief: Some(brief), .. } => crate::bot::scorable(
            bot.wallet_scorer@,
            bot.config,
            brief,
        ),
        ExitOutcome::Sold { brief: None, .. } => true,
        ExitOutcome::NoTrade => true,
        ExitOutcome::Failed => crate::trading::failure_countable(
            bot.trading_engine@,
            signal.token.address,
        ),
    }
}

/// The bot after a sale, and what is left to do about it.
pub open spec fn after_sale(
    before: TradingBot,
    after: TradingBot,
    signal: SignalView,
    trade: Trade,
    brief: PositionBrief,
    enriched: Seq<TokenInfo>,
    now: Timestamp,
    instant: Instant,
    left: ExitFollowUp,
) -> bool {
    &&& left.entry@ == crate::journal::sell_entry(
        signal.token.address,
        brief,
        crate::bot::exit_token(
            signal.token.address,
            crate::trading::token_views(enriched),
            signal.token.price_usd,
        ),
        trade@,
        signal.reason,
        now,
    )
    &&& crate::trading::text_view(left.removed_wallet) == crate::bot::dropped_wallet(
        before.wallet_scorer@,
        before.config,
        brief,
        trade@,
    )
    &&& after.wallet_scorer@ == crate::bot::scores_after(
        before.wallet_scorer@,
        before.config,
        brief,
        trade@,
    )
    &&& after.memory@ == crate::bot::notes_after(
        before.memory@,
        signal.token.address,
        crate::bot::is_loss(trade@, brief, signal.token.price_usd),
        instant,
        crate::trading::text_view(left.removed_wallet),
    )
    &&& after.trading_engine@ == (EngineView {
        trades: before.trading_engine@.trades.push(trade@),
        ..before.trading_engine@
    })
    &&& after == (TradingBot {
        trading_engine: after.trading_engine,
        wallet_scorer: after.wallet_scorer,
        memory: after.memory,
        ..before
    })
}

/// The bot after the signal of a round to leave a position was acted on, and what is left to do:
/// a sale is recorded; a failure is counted, once, and that is all; without either nothing
/// changes.
pub open spec fn after_exit(
    before: TradingBot,
    after: TradingBot,
    signal: SignalView,
    outcome: ExitOutcome,
    now: Timestamp,
    instant: Instant,
    left: Option<ExitFollowUp>,
) -> bool {
    match outcome {
        ExitOutcome::Sold { trade, brief: Some(brief), enriched } => left matches Some(l)
            && after_sale(before, after, signal, trade, brief, enriched@, now, instant, l),
        ExitOutcome::Sold { trade, brief: None, enriched } => {
            &&& left is None
            &&& after.trading_engine@ == (EngineView {
                trades: before.trading_engine@.trades.push(trade@),
                ..before.trading_engine@
            })
            &&& after == (TradingBot { trading_engine: after.trading_engine, ..before })
        },
        ExitOutcome::NoTrade => left is None && after == before,
        ExitOutcome::Failed => {
            &&& left is None
            &&& after.trading_engine@ == crate::trading::after_failed_sale(
                before.trading_engine@,
                signal.token.address,
                now,
            )
            &&& after == (TradingBot { trading_engine: after.trading_engine, ..before })
        },
    }
}

impl TradingBot {
    /// Takes in what came of the signal of a round to buy. A buy is recorded, and its entry for
    /// the journal given. A failure is given back, and leaves the rest of the round.
    pub fn buy_tried(
        &mut self,
        round: &mut Round,
        mint: &str,
        source_wallet: &Option<String>,
        outcome: Result<Option<Trade>, BotError>,
        now: Timestamp,
    ) -> (r: Result<Option<BuyEntry>, BotError>)
        requires
            upcoming(old(round)@) is Some,
        ensures
            final(round)@ == after_signal(old(round)@, outcome is Err),
            match outcome {
                Ok(Some(trade)) => {
                    &&& r is Ok
                    &&& r->Ok_0 is Some
                    &&& r->Ok_0->0@ == crate::journal::buy_entry(
                        upcoming(old(round)@)->0.token,
                        trade@,
                        crate::bot::journalled_sol(
                            upcoming(old(round)@)->0,
                            old(self).config.trading.max_buy_amount,
                        ),
                        crate::trading::text_view(*source_wallet),
                        now,
                    )
                    &&& final(self).trading_engine@ == crate::bot::with_buy(
                        old(self).trading_engine@,
                        mint@,
                        crate::trading::text_view(*source_wallet),
                        trade@,
                    )
                    &&& *final(self) == (TradingBot {
                        trading_engine: final(self).trading_engine,
                        ..*old(self)
                    })
                },
                Ok(None) => r == Ok::<Option<BuyEntry>, BotError>(None) && *final(self) == *old(self),
                Err(e) => r == Err::<Option<BuyEntry>, BotError>(e) && *final(self) == *old(self),
            },
    {
        match outcome {
            Ok(Some(trade)) => {
                let signal: &TradingSignal = round.signal();
                let spent: Binary64 = self.sol_for(signal);
                let entry = self.buy_made(&signal.token, mint, spent, source_wallet, trade, now);
                round.advance(false);
                Ok(Some(entry))
            },
            Ok(None) => {
                round.advance(false);
                Ok(None)
            },
            Err(e) => {
                round.advance(true);
                Err(e)
            },
        }
    }

    /// Takes in what came of the signal of a round to leave a position, and goes on to the next
    /// signal in any case.
    pub fn exit_tried(
        &mut self,
        round: &mut Round,
        outcome: ExitOutcome,
        now: Timestamp,
        instant: Instant,
    ) -> (r: Option<ExitFollowUp>)
        requires
            upcoming(old(round)@) is Some,
            takes_in(*old(self), upcoming(old(round)@)->0, outcome),
        ensures
            final(round)@ == after_signal(old(round)@, false),
            after_exit(
                *old(self),
                *final(self),
                upcoming(old(round)@)->0,
                outcome,
                now,
                instant,
                r,
            ),
    {
        let mut left: Option<ExitFollowUp> = None;
        let signal: &TradingSignal = round.signal();
        match outcome {
            ExitOutcome::Sold { trade, brief: Some(brief), enriched } => {
                left = Some(self.sale_made(signal, &brief, trade, &enriched, now, instant));
            },
            ExitOutcome::Sold { trade, brief: None, enriched: _ } => {
                self.trading_engine.add_trade(trade);
            },
            ExitOutcome::NoTrade => {},
            ExitOutcome::Failed => {
                self.trading_engine.increment_sell_failures(signal.token.address.as_str(), now);
            },
        }
        round.advance(false);
        left
    }
}

/// A round after signals to buy were acted on in turn, each of which failed or did not.
pub open spec fn after_buys(r: RoundView, failed: Seq<bool>) -> RoundView
    decreases failed.len(),
{
    if failed.len() == 0 {
        r
    } else {
        let before = after_buys(r, failed.drop_last());
        if upcoming(before) is Some {
            after_signal(before, failed.last())
        } else {
            before
        }
    }
}

/// A round after so many signals to leave positions were acted on.
pub open spec fn after_exits(r: RoundView, n: nat) -> RoundView
    decreases n,
{
    if n == 0 {
        r
    } else {
        let before = after_exits(r, (n - 1) as nat);
        if upcoming(before) is Some {
            after_signal(before, false)
        } else {
            before
        }
    }
}

/// Signals to buy have their turn in their order, up to the first that fails; those behind it are
/// left.
pub proof fn law_first_failed_buy_ends_the_round(
    signals: Seq<SignalView>,
    failed: Seq<bool>,
    i: int,
)
    requires
        0 <= i <= failed.len() <= signals.len(),
    ensures
        (forall|j: int| 0 <= j < i ==> !failed[j]) && i < signals.len() ==> upcoming(
            after_buys(new_round(signals), failed.take(i)),
        ) == Some(signals[i]),
        (exists|j: int| 0 <= j < i && failed[j]) ==> upcoming(
            after_buys(new_round(signals), failed.take(i)),
        ) is None,
        i == signals.len() ==> upcoming(after_buys(new_round(signals), failed.take(i))) is None,
{
    lemma_buys(signals, failed.take(i));
    assert(forall|j: int| 0 <= j < i ==> failed.take(i)[j] == failed[j]);
}

proof fn lemma_buys(signals: Seq<SignalView>, failed: Seq<bool>)
    requires
        failed.len() <= signals.len(),
    ensures
        ({
            let r = after_buys(new_round(signals), failed);
            &&& r.signals == signals
            &&& r.stopped == (exists|j: int| 0 <= j < failed.len() && failed[j])
            &&& !r.stopped ==> r.tried == failed.len()
        }),
    decreases failed.len(),
{
    if failed.len() > 0 {
        let front = failed.drop_last();
        lemma_buys(signals, front);
        if exists|j: int| 0 <= j < front.len() && front[j] {
            let j = choose|j: int| 0 <= j < front.len() && front[j];
            assert(failed[j]);
        }
        if exists|j: int| 0 <= j < failed.len() && failed[j] {
            let j = choose|j: int| 0 <= j < failed.len() && failed[j];
            if j < front.len() {
                assert(front[j]);
            }
        }
        assert(failed[failed.len() - 1] == failed.last());
    }
}

/// Every signal to leave a position has its turn, whatever came of those before it.
pub proof fn law_failed_exits_stop_nothing(signals: Seq<SignalView>, n: nat)
    requires
        n <= signals.len(),
    ensures
        after_exits(new_round(signals), n) == (RoundView { signals, tried: n, stopped: false }),
        n < signals.len() ==> upcoming(after_exits(new_round(signals), n)) == Some(
            signals[n as int],
        ),
        n == signals.len() ==> upcoming(after_exits(new_round(signals), n)) is None,
    decreases n,
{
    if n > 0 {
        law_failed_exits_stop_nothing(signals, (n - 1) as nat);
    }
}

/// A try to sell that failed is counted once and leaves no other trace: no trade, no entry for
/// the journal, no loss to remember, no score, and every other position as it was.
pub proof fn law_failed_sales_are_only_counted(
    before: TradingBot,
    after: TradingBot,
    signal: SignalView,
    now: Timestamp,
    instant: Instant,
    left: Option<ExitFollowUp>,
)
    requires
        before.trading_engine@.positions.dom().contains(signal.token.address),
        takes_in(before, signal, ExitOutcome::Failed),
        after_exit(before, after, signal, ExitOutcome::Failed, now, instant, left),
    ensures
        left is None,
        after.trading_engine@.positions[signal.token.address] == (PositionView {
            sell_failures: (before.trading_engine@.positions[signal.token.address].sell_failures
                + 1) as u32,
            last_sell_failure: Some(now),
            ..before.trading_engine@.positions[signal.token.address]
        }),
        after.trading_engine@.positions.remove(signal.token.address)
            == before.trading_engine@.positions.remove(signal.token.address),
        after.trading_engine@.trades == before.trading_engine@.trades,
        after.trading_engine@.last_trade_time == before.trading_engine@.last_trade_time,
        after.wallet_scorer == before.wallet_scorer,
        after.memory == before.memory,
{
    assert(after.trading_engine@.positions.remove(signal.token.address)
        =~= before.trading_engine@.positions.remove(signal.token.address));
}

/// A sale is followed up: it is recorded and written down, the wallet that it was copied from is
/// scored, a loss is remembered with its time, and a wallet that is dropped is not followed any
/// more.
pub proof fn law_sales_are_followed_up(
    before: TradingBot,
    after: TradingBot,
    signal: SignalView,
    trade: Trade,
    brief: PositionBrief,
    enriched: Vec<TokenInfo>,
    now: Timestamp,
    instant: Instant,
    left: Option<ExitFollowUp>,
)
    requires
        after_exit(
            before,
            after,
            signal,
            ExitOutcome::Sold { trade, brief: Some(brief), enriched },
            now,
            instant,
            left,
        ),
    ensures
        left is Some,
        after.trading_engine@.trades == before.trading_engine@.trades.push(trade@),
        after.trading_engine@.positions == before.trading_engine@.positions,
        after.wallet_scorer@ == crate::bot::scores_after(
            before.wallet_scorer@,
            before.config,
            brief,
            trade@,
        ),
        ({
            let lost = match trade@.sol_received {
                Some(received) => received.lt(brief.sol_spent),
                None => signal.token.price_usd.lt(brief.entry_price),
            };
            &&& lost ==> after.memory@.losses.dom().contains(signal.token.address)
                && after.memory@.losses[signal.token.address] == instant
            &&& !lost ==> after.memory@.losses == before.memory@.losses
        }),
        left->0.removed_wallet is Some ==> after.memory@.blocked.contains(
            left->0.removed_wallet->0@,
        ),
        left->0.removed_wallet is None ==> after.memory@.blocked == before.memory@.blocked,
        left->0.entry@.token_address == signal.token.address,
        left->0.entry@.tokens_sold == trade@.amount,
        left->0.entry@.exit_reason == signal.reason,
        left->0.entry@.timestamp == now,
        after.config == before.config && after.monitoring == before.monitoring,
{
}

/// A sale of which nothing more is known is recorded, and without one nothing happens.
pub proof fn law_other_exits_leave_little(
    before: TradingBot,
    after: TradingBot,
    signal: SignalView,
    trade: Trade,
    enriched: Vec<TokenInfo>,
    now: Timestamp,
    instant: Instant,
    left: Option<ExitFollowUp>,
)
    ensures
        after_exit(before, after, signal, ExitOutcome::NoTrade, now, instant, left) ==> left is None
            && after == before,
        after_exit(
            before,
            after,
            signal,
            (ExitOutcome::Sold { trade, brief: None, enriched }),
            now,
            instant,
            left,
        ) ==> left is None && after.trading_engine@.trades == before.trading_engine@.trades.push(
            trade@,
        ) && after.memory == before.memory && after.wallet_scorer == before.wallet_scorer,
{
}

} // verus!
