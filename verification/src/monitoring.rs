//! How the bot is doing.
use crate::binary64::Binary64;
use crate::clock::Timestamp;
use crate::config::AlertThresholds;
use crate::trading::{Trade, TradeView};
use vstd::prelude::*;

verus! {

#[derive(Clone, Copy, PartialEq, Eq, Structural, Debug)]
pub struct BotMetrics {
    pub total_trades: usize,
    pub winning_trades: usize,
    pub losing_trades: usize,
    pub total_profit_loss: Binary64,
    pub win_rate: Binary64,
    pub average_profit: Binary64,
    pub average_loss: Binary64,
    pub max_drawdown: Binary64,
    pub current_positions: usize,
    pub total_volume_traded: u64,
    pub uptime_seconds: u64,
    pub last_updated: Timestamp,
}

#[derive(Clone, Copy, PartialEq, Eq, Structural, Debug)]
pub enum AlertLevel {
    Info,
    Warning,
    Error,
    Critical,
}

/// What an alert is about.
#[derive(Clone, Copy, PartialEq, Eq, Structural, Debug)]
pub enum AlertCause {
    MaxDrawdown { drawdown: Binary64, threshold: Binary64 },
    DailyLoss { loss: Binary64, threshold: Binary64 },
    LowWinRate { win_rate: Binary64 },
}

#[derive(Debug)]
pub struct Alert {
    pub id: String,
    pub level: AlertLevel,
    pub cause: AlertCause,
    pub timestamp: Timestamp,
    pub acknowledged: bool,
}

#[verifier::ext_equal]
pub struct AlertView {
    pub id: Seq<char>,
    pub level: AlertLevel,
    pub cause: AlertCause,
    pub timestamp: Timestamp,
    pub acknowledged: bool,
}

impl View for Alert {
    type V = AlertView;

    open spec fn view(&self) -> AlertView {
        AlertView {
            id: self.id@,
            level: self.level,
            cause: self.cause,
            timestamp: self.timestamp,
            acknowledged: self.acknowledged,
        }
    }
}

pub open spec fn alert_views(alerts: Seq<Alert>) -> Seq<AlertView> {
    alerts.map_values(|a: Alert| a@)
}

/// How a level is written.
pub open spec fn level_text(level: AlertLevel) -> Seq<char> {
    match level {
        AlertLevel::Info => "INFO"@,
        AlertLevel::Warning => "WARNING"@,
        AlertLevel::Error => "ERROR"@,
        AlertLevel::Critical => "CRITICAL"@,
    }
}

impl AlertLevel {
    pub fn label(&self) -> (r: &'static str)
        ensures
            r@ == level_text(*self),
    {
        match self {
            AlertLevel::Info => "INFO",
            AlertLevel::Warning => "WARNING",
            AlertLevel::Error => "ERROR",
            AlertLevel::Critical => "CRITICAL",
        }
    }
}

/// The tokens traded in all.
pub open spec fn volume(trades: Seq<TradeView>) -> nat
    decreases trades.len(),
{
    if trades.len() == 0 {
        0
    } else {
        volume(trades.drop_last()) + trades.last().amount as nat
    }
}

pub open spec fn wins(trade: TradeView) -> bool {
    trade.profit_loss matches Some(pl) && Binary64::from_u64(0).lt(pl)
}

pub open spec fn loses(trade: TradeView) -> bool {
    trade.profit_loss matches Some(pl) && pl.lt(Binary64::from_u64(0))
}

/// How many trades won.
pub open spec fn win_count(trades: Seq<TradeView>) -> nat
    decreases trades.len(),
{
    if trades.len() == 0 {
        0
    } else {
        win_count(trades.drop_last()) + if wins(trades.last()) {
            1nat
        } else {
            0nat
        }
    }
}

/// How many trades lost.
pub open spec fn loss_count(trades: Seq<TradeView>) -> nat
    decreases trades.len(),
{
    if trades.len() == 0 {
        0
    } else {
        loss_count(trades.drop_last()) + if loses(trades.last()) {
            1nat
        } else {
            0nat
        }
    }
}

/// The sum of the results of the trades that meet a condition, from the first to the last.
pub open spec fn result_sum(trades: Seq<TradeView>, counts: spec_fn(TradeView) -> bool) -> Binary64
    decreases trades.len(),
{
    if trades.len() == 0 {
        Binary64::from_u64(0)
    } else {
        let before = result_sum(trades.drop_last(), counts);
        match trades.last().profit_loss {
            Some(pl) if counts(trades.last()) => before.plus(pl),
            _ => before,
        }
    }
}

/// The result of all trades.
pub open spec fn total_result(trades: Seq<TradeView>) -> Binary64 {
    result_sum(trades, |t: TradeView| true)
}

/// The results up to a trade: the highest, the deepest fall from the highest, and the last.
pub struct Drawdown {
    pub peak: Binary64,
    pub deepest: Binary64,
    pub running: Binary64,
}

/// How the results of trades ran.
pub open spec fn drawdown(trades: Seq<TradeView>) -> Drawdown
    decreases trades.len(),
{
    if trades.len() == 0 {
        Drawdown {
            peak: Binary64::from_u64(0),
            deepest: Binary64::from_u64(0),
            running: Binary64::from_u64(0),
        }
    } else {
        let before = drawdown(trades.drop_last());
        match trades.last().profit_loss {
            None => before,
            Some(pl) => {
                let running = before.running.plus(pl);
                let peak = if before.peak.lt(running) {
                    running
                } else {
                    before.peak
                };
                let fall = peak.minus(running);
                Drawdown {
                    peak,
                    deepest: if before.deepest.lt(fall) {
                        fall
                    } else {
                        before.deepest
                    },
                    running,
                }
            },
        }
    }
}

/// The seconds from one time to another, as an unsigned number of 64 bits: where the start lies
/// ahead, they are counted back from its end.
pub open spec fn uptime(start: Timestamp, now: Timestamp) -> u64 {
    let seconds = now.seconds_since(start);
    if seconds >= 0 {
        seconds as u64
    } else {
        (seconds + 0x1_0000_0000_0000_0000) as u64
    }
}

/// The metrics that trades give. Rates and averages stay as they were where there is nothing to
/// take them of.
pub open spec fn metrics_of(
    before: BotMetrics,
    trades: Seq<TradeView>,
    positions: nat,
    start: Timestamp,
    now: Timestamp,
) -> BotMetrics {
    let (won, lost) = (win_count(trades), loss_count(trades));
    BotMetrics {
        total_trades: trades.len() as usize,
        winning_trades: won as usize,
        losing_trades: lost as usize,
        total_profit_loss: total_result(trades),
        win_rate: if trades.len() > 0 {
            Binary64::from_u64(won as u64).over(Binary64::from_u64(trades.len() as u64)).times(
                Binary64::from_u64(100),
            )
        } else {
            before.win_rate
        },
        average_profit: if won > 0 {
            result_sum(trades, |t: TradeView| wins(t)).over(Binary64::from_u64(won as u64))
        } else {
            before.average_profit
        },
        average_loss: if lost > 0 {
            result_sum(trades, |t: TradeView| loses(t)).absolute().over(
                Binary64::from_u64(lost as u64),
            )
        } else {
            before.average_loss
        },
        max_drawdown: drawdown(trades).deepest,
        current_positions: positions as usize,
        total_volume_traded: volume(trades) as u64,
        uptime_seconds: uptime(start, now),
        last_updated: now,
    }
}

/// Names for the alerts that an update may raise.
#[derive(Debug)]
pub struct AlertIds {
    pub drawdown: String,
    pub daily_loss: String,
    pub win_rate: String,
}

pub open spec fn alert_of(id: Seq<char>, level: AlertLevel, cause: AlertCause, now: Timestamp) -> AlertView {
    AlertView { id, level, cause, timestamp: now, acknowledged: false }
}

/// The alert about a fall from the highest result that is too deep.
pub open spec fn drawdown_alerts(
    m: BotMetrics,
    t: AlertThresholds,
    id: Seq<char>,
    now: Timestamp,
) -> Seq<AlertView> {
    if t.max_drawdown_percent.lt(m.max_drawdown) {
        seq![
            alert_of(
                id,
                AlertLevel::Warning,
                AlertCause::MaxDrawdown {
                    drawdown: m.max_drawdown,
                    threshold: t.max_drawdown_percent,
                },
                now,
            ),
        ]
    } else {
        Seq::empty()
    }
}

/// The alert about too large a loss.
pub open spec fn loss_alerts(
    m: BotMetrics,
    t: AlertThresholds,
    id: Seq<char>,
    now: Timestamp,
) -> Seq<AlertView> {
    if m.total_profit_loss.lt(t.max_daily_loss_percent.negated()) {
        seq![
            alert_of(
                id,
                AlertLevel::Error,
                AlertCause::DailyLoss {
                    loss: m.total_profit_loss.absolute(),
                    threshold: t.max_daily_loss_percent,
                },
                now,
            ),
        ]
    } else {
        Seq::empty()
    }
}

/// The alert about winning too seldom.
pub open spec fn win_rate_alerts(m: BotMetrics, id: Seq<char>, now: Timestamp) -> Seq<AlertView> {
    if m.total_trades > 10 && m.win_rate.lt(Binary64::from_u64(30)) {
        seq![
            alert_of(
                id,
                AlertLevel::Warning,
                AlertCause::LowWinRate { win_rate: m.win_rate },
                now,
            ),
        ]
    } else {
        Seq::empty()
    }
}

/// The alerts that metrics raise.
pub open spec fn alerts_of(m: BotMetrics, t: AlertThresholds, ids: AlertIds, now: Timestamp) -> Seq<
    AlertView,
> {
    drawdown_alerts(m, t, ids.drawdown@, now) + loss_alerts(m, t, ids.daily_loss@, now)
        + win_rate_alerts(m, ids.win_rate@, now)
}

/// The alerts that nobody has taken note of.
pub open spec fn unacknowledged(alerts: Seq<AlertView>) -> Seq<AlertView>
    decreases alerts.len(),
{
    if alerts.len() == 0 {
        Seq::empty()
    } else if alerts.last().acknowledged {
        unacknowledged(alerts.drop_last())
    } else {
        unacknowledged(alerts.drop_last()).push(alerts.last())
    }
}

pub struct MonitoringSystem {
    metrics: BotMetrics,
    alerts: Vec<Alert>,
    start_time: Timestamp,
    webhook_url: Option<String>,
    alert_thresholds: AlertThresholds,
}

#[verifier::ext_equal]
pub struct MonitoringView {
    pub metrics: BotMetrics,
    pub alerts: Seq<AlertView>,
    pub start_time: Timestamp,
    pub webhook_url: Option<String>,
    pub thresholds: AlertThresholds,
}

impl View for MonitoringSystem {
    type V = MonitoringView;

    closed spec fn view(&self) -> MonitoringView {
        MonitoringView {
            metrics: self.metrics,
            alerts: alert_views(self.alerts@),
            start_time: self.start_time,
            webhook_url: self.webhook_url,
            thresholds: self.alert_thresholds,
        }
    }
}

/// The metrics before any trade.
pub open spec fn initial_metrics(now: Timestamp) -> BotMetrics {
    BotMetrics {
        total_trades: 0,
        winning_trades: 0,
        losing_trades: 0,
        total_profit_loss: Binary64::from_u64(0),
        win_rate: Binary64::from_u64(0),
        average_profit: Binary64::from_u64(0),
        average_loss: Binary64::from_u64(0),
        max_drawdown: Binary64::from_u64(0),
        current_positions: 0,
        total_volume_traded: 0,
        uptime_seconds: 0,
        last_updated: now,
    }
}

impl BotMetrics {
    pub fn initial(now: Timestamp) -> (r: Self)
        ensures
            r == initial_metrics(now),
    {
        BotMetrics {
            total_trades: 0,
            winning_trades: 0,
            losing_trades: 0,
            total_profit_loss: Binary64::from_u64(0),
            win_rate: Binary64::from_u64(0),
            average_profit: Binary64::from_u64(0),
            average_loss: Binary64::from_u64(0),
            max_drawdown: Binary64::from_u64(0),
            current_positions: 0,
            total_volume_traded: 0,
            uptime_seconds: 0,
            last_updated: now,
        }
    }
}

proof fn lemma_counts(trades: Seq<TradeView>)
    ensures
        win_count(trades) + loss_count(trades) <= trades.len(),
    decreases trades.len(),
{
    if trades.len() > 0 {
        lemma_counts(trades.drop_last());
        let t = trades.last();
        assert(!(wins(t) && loses(t)));
    }
}

proof fn lemma_volume_grows(trades: Seq<TradeView>, i: int)
    requires
        0 <= i <= trades.len(),
    ensures
        volume(trades.take(i)) <= volume(trades),
    decreases trades.len() - i,
{
    if i < trades.len() {
        lemma_volume_grows(trades, i + 1);
        assert(trades.take(i + 1).drop_last() =~= trades.take(i));
    } else {
        assert(trades.take(i) =~= trades);
    }
}

/// The tokens traded in all, where the number fits.
pub fn traded_volume(trades: &Vec<Trade>) -> (r: Option<u64>)
    ensures
        match r {
            Some(v) => v == volume(crate::trading::trade_views(trades@)),
            None => volume(crate::trading::trade_views(trades@)) > u64::MAX,
        },
{
    let ghost all = crate::trading::trade_views(trades@);
    let mut total: u64 = 0;
    let mut i: usize = 0;
    while i < trades.len()
        invariant
            i <= trades@.len(),
            all == crate::trading::trade_views(trades@),
            total == volume(all.take(i as int)),
        decreases trades@.len() - i,
    {
        assert(all.take(i + 1).drop_last() =~= all.take(i as int));
        assert(all.take(i + 1).last() == trades@[i as int]@);
        match total.checked_add(trades[i].amount) {
            Some(sum) => {
                total = sum;
            },
            None => {
                proof {
                    lemma_volume_grows(all, i + 1);
                }
                return None;
            },
        }
        i = i + 1;
    }
    assert(all.take(all.len() as int) =~= all);
    Some(total)
}

impl MonitoringSystem {
    pub fn new(
        webhook_url: Option<String>,
        alert_thresholds: AlertThresholds,
        now: Timestamp,
    ) -> (r: Self)
        ensures
            r@ == (MonitoringView {
                metrics: initial_metrics(now),
                alerts: Seq::empty(),
                start_time: now,
                webhook_url,
                thresholds: alert_thresholds,
            }),
    {
        let r = MonitoringSystem {
            metrics: BotMetrics::initial(now),
            alerts: Vec::new(),
            start_time: now,
            webhook_url,
            alert_thresholds,
        };
        assert(r@.alerts =~= Seq::<AlertView>::empty());
        r
    }

    /// Brings the metrics up to date, and raises the alerts that they call for.
    pub fn update_metrics(
        &mut self,
        trades: &Vec<Trade>,
        positions: usize,
        now: Timestamp,
        ids: AlertIds,
    )
        requires
            volume(crate::trading::trade_views(trades@)) <= u64::MAX,
        ensures
            final(self)@.metrics == metrics_of(
                old(self)@.metrics,
                crate::trading::trade_views(trades@),
                positions as nat,
                old(self)@.start_time,
                now,
            ),
            final(self)@ == (MonitoringView {
                metrics: final(self)@.metrics,
                alerts: old(self)@.alerts + alerts_of(
                    final(self)@.metrics,
                    old(self)@.thresholds,
                    ids,
                    now,
                ),
                ..old(self)@
            }),
    {
        let ghost all = crate::trading::trade_views(trades@);
        let ghost won_only = |t: TradeView| wins(t);
        let ghost lost_only = |t: TradeView| loses(t);
        let ghost any = |t: TradeView| true;
        let zero = Binary64::from_u64(0);
        let mut total = zero;
        let mut total_wins = zero;
        let mut total_losses = zero;
        let mut won: usize = 0;
        let mut lost: usize = 0;
        let mut volume_traded: u64 = 0;
        let mut i: usize = 0;
        while i < trades.len()
            invariant
                i <= trades@.len(),
                all == crate::trading::trade_views(trades@),
                won_only == (|t: TradeView| wins(t)),
                lost_only == (|t: TradeView| loses(t)),
                any == (|t: TradeView| true),
                zero == Binary64::from_u64(0),
                volume(all) <= u64::MAX,
                total == result_sum(all.take(i as int), any),
                total_wins == result_sum(all.take(i as int), won_only),
                total_losses == result_sum(all.take(i as int), lost_only),
                won == win_count(all.take(i as int)),
                lost == loss_count(all.take(i as int)),
                won <= i,
                lost <= i,
                volume_traded == volume(all.take(i as int)),
            decreases trades@.len() - i,
        {
            assert(all.take(i + 1).drop_last() =~= all.take(i as int));
            assert(all.take(i + 1).last() == trades@[i as int]@);
            proof {
                lemma_volume_grows(all, i + 1);
            }
            let trade: &Trade = &trades[i];
            volume_traded = volume_traded + trade.amount;
            if let Some(pl) = trade.profit_loss {
                total = total.plus(pl);
                if zero.lt(pl) {
                    won = won + 1;
                    total_wins = total_wins.plus(pl);
                } else if pl.lt(zero) {
                    lost = lost + 1;
                    total_losses = total_losses.plus(pl);
                }
            }
            i = i + 1;
        }
        assert(all.take(all.len() as int) =~= all);
        let count: usize = trades.len();
        if count > 0 {
            self.metrics.win_rate = Binary64::from_u64(won as u64).over(
                Binary64::from_u64(count as u64),
            ).times(Binary64::from_u64(100));
        }
        if won > 0 {
            self.metrics.average_profit = total_wins.over(Binary64::from_u64(won as u64));
        }
        if lost > 0 {
            self.metrics.average_loss = total_losses.absolute().over(
                Binary64::from_u64(lost as u64),
            );
        }
        let seconds: i64 = now.seconds_since(self.start_time);
        self.metrics.total_trades = count;
        self.metrics.current_positions = positions;
        self.metrics.last_updated = now;
        self.metrics.uptime_seconds = if seconds >= 0 {
            seconds as u64
        } else {
            (seconds as i128 + 0x1_0000_0000_0000_0000) as u64
        };
        self.metrics.total_profit_loss = total;
        self.metrics.winning_trades = won;
        self.metrics.losing_trades = lost;
        self.metrics.total_volume_traded = volume_traded;
        self.metrics.max_drawdown = self.calculate_max_drawdown(trades);
        self.check_alerts(ids, now);
    }

    pub fn calculate_max_drawdown(&self, trades: &Vec<Trade>) -> (r: Binary64)
        ensures
            r == drawdown(crate::trading::trade_views(trades@)).deepest,
    {
        let ghost all = crate::trading::trade_views(trades@);
        let mut peak = Binary64::from_u64(0);
        let mut deepest = Binary64::from_u64(0);
        let mut running = Binary64::from_u64(0);
        let mut i: usize = 0;
        while i < trades.len()
            invariant
                i <= trades@.len(),
                all == crate::trading::trade_views(trades@),
                drawdown(all.take(i as int)) == (Drawdown { peak, deepest, running }),
            decreases trades@.len() - i,
        {
            assert(all.take(i + 1).drop_last() =~= all.take(i as int));
            assert(all.take(i + 1).last() == trades@[i as int]@);
            if let Some(pl) = trades[i].profit_loss {
                running = running.plus(pl);
                if peak.lt(running) {
                    peak = running;
                }
                let fall = peak.minus(running);
                if deepest.lt(fall) {
                    deepest = fall;
                }
            }
            i = i + 1;
        }
        assert(all.take(all.len() as int) =~= all);
        deepest
    }

    pub fn calculate_daily_pl_percent(&self) -> (r: Binary64)
        ensures
            r == self@.metrics.total_profit_loss,
    {
        self.metrics.total_profit_loss
    }

    fn add_alert(&mut self, id: String, level: AlertLevel, cause: AlertCause, now: Timestamp)
        ensures
            final(self)@ == (MonitoringView {
                alerts: old(self)@.alerts.push(alert_of(id@, level, cause, now)),
                ..old(self)@
            }),
    {
        let alert = Alert { id, level, cause, timestamp: now, acknowledged: false };
        self.alerts.push(alert);
        assert(alert_views(self.alerts@) =~= old(self)@.alerts.push(alert@));
    }

    /// Raises the alerts that the metrics call for.
    pub fn check_alerts(&mut self, ids: AlertIds, now: Timestamp)
        ensures
            final(self)@ == (MonitoringView {
                alerts: old(self)@.alerts + alerts_of(
                    old(self)@.metrics,
                    old(self)@.thresholds,
                    ids,
                    now,
                ),
                ..old(self)@
            }),
    {
        let ghost before = self@;
        let m: BotMetrics = self.metrics;
        let t: AlertThresholds = self.alert_thresholds;
        if t.max_drawdown_percent.lt(m.max_drawdown) {
            self.add_alert(
                ids.drawdown,
                AlertLevel::Warning,
                AlertCause::MaxDrawdown {
                    drawdown: m.max_drawdown,
                    threshold: t.max_drawdown_percent,
                },
                now,
            );
        }
        assert(self@.alerts =~= before.alerts + drawdown_alerts(m, t, ids.drawdown@, now));
        let daily = self.calculate_daily_pl_percent();
        if daily.lt(t.max_daily_loss_percent.negated()) {
            self.add_alert(
                ids.daily_loss,
                AlertLevel::Error,
                AlertCause::DailyLoss {
                    loss: daily.absolute(),
                    threshold: t.max_daily_loss_percent,
                },
                now,
            );
        }
        assert(self@.alerts =~= before.alerts + drawdown_alerts(m, t, ids.drawdown@, now)
            + loss_alerts(m, t, ids.daily_loss@, now));
        if m.total_trades > 10 && m.win_rate.lt(Binary64::from_u64(30)) {
            self.add_alert(
                ids.win_rate,
                AlertLevel::Warning,
                AlertCause::LowWinRate { win_rate: m.win_rate },
                now,
            );
        }
        assert(self@.alerts =~= before.alerts + alerts_of(m, t, ids, now));
    }

    pub fn get_metrics(&self) -> (r: &BotMetrics)
        ensures
            *r == self@.metrics,
    {
        &self.metrics
    }

    pub fn get_unacknowledged_alerts(&self) -> (r: Vec<&Alert>)
        ensures
            r@.map_values(|a: &Alert| a@) == unacknowledged(self@.alerts),
    {
        let ghost all = alert_views(self.alerts@);
        let ghost seen = |a: &Alert| a@;
        let mut out: Vec<&Alert> = Vec::new();
        let mut i: usize = 0;
        while i < self.alerts.len()
            invariant
                i <= self.alerts@.len(),
                all == alert_views(self.alerts@),
                seen == (|a: &Alert| a@),
                out@.map_values(seen) =~= unacknowledged(all.take(i as int)),
            decreases self.alerts@.len() - i,
        {
            assert(all.take(i + 1).drop_last() =~= all.take(i as int));
            assert(all.take(i + 1).last() == self.alerts@[i as int]@);
            let ghost before = out@.map_values(seen);
            if !self.alerts[i].acknowledged {
                out.push(&self.alerts[i]);
                assert(out@.map_values(seen) =~= before.push(all[i as int]));
            }
            i = i + 1;
        }
        assert(all.take(all.len() as int) =~= all);
        out
    }
}

/// No trade both wins and loses: wins and losses together are no more than the trades.
pub proof fn law_wins_and_losses_are_trades(trades: Seq<TradeView>)
    ensures
        win_count(trades) + loss_count(trades) <= trades.len(),
{
    lemma_counts(trades);
}

/// A further trade never makes the deepest fall less deep.
pub proof fn law_drawdown_never_shrinks(trades: Seq<TradeView>, trade: TradeView)
    ensures
        ({
            let (before, after) = (
                drawdown(trades).deepest,
                drawdown(trades.push(trade)).deepest,
            );
            after == before || before.lt(after)
        }),
{
    assert(trades.push(trade).drop_last() =~= trades);
}

/// Metrics that stay within the thresholds raise no alert.
pub proof fn law_quiet_metrics_raise_no_alert(
    m: BotMetrics,
    t: AlertThresholds,
    ids: AlertIds,
    now: Timestamp,
)
    requires
        !t.max_drawdown_percent.lt(m.max_drawdown),
        !m.total_profit_loss.lt(t.max_daily_loss_percent.negated()),
        m.total_trades <= 10 || !m.win_rate.lt(Binary64::from_u64(30)),
    ensures
        alerts_of(m, t, ids, now) == Seq::<AlertView>::empty(),
{
    assert(alerts_of(m, t, ids, now) =~= Seq::<AlertView>::empty());
}

/// Volume, wins and losses of two runs of trades add up; one trade counts with its amount, and as
/// won or lost by the sign of its result.
pub proof fn law_trades_are_counted_one_by_one(
    first: Seq<TradeView>,
    second: Seq<TradeView>,
    trade: TradeView,
)
    ensures
        volume(first + second) == volume(first) + volume(second),
        win_count(first + second) == win_count(first) + win_count(second),
        loss_count(first + second) == loss_count(first) + loss_count(second),
        volume(seq![trade]) == trade.amount,
        win_count(seq![trade]) == (if trade.profit_loss is Some && Binary64::from_u64(0).lt(
            trade.profit_loss->0,
        ) {
            1nat
        } else {
            0
        }),
        loss_count(seq![trade]) == (if trade.profit_loss is Some && trade.profit_loss->0.lt(
            Binary64::from_u64(0),
        ) {
            1nat
        } else {
            0
        }),
    decreases second.len(),
{
    let one = seq![trade];
    assert(one.drop_last() == Seq::<TradeView>::empty());
    assert(volume(one.drop_last()) == 0 && win_count(one.drop_last()) == 0 && loss_count(
        one.drop_last(),
    ) == 0);
    if second.len() == 0 {
        assert(first + second == first);
    } else {
        assert((first + second).drop_last() == first + second.drop_last());
        law_trades_are_counted_one_by_one(first, second.drop_last(), trade);
    }
}

/// A trade adds its result to those before it, where it has one that counts.
pub proof fn law_results_are_added_in_turn(
    trades: Seq<TradeView>,
    trade: TradeView,
    which: spec_fn(TradeView) -> bool,
)
    ensures
        result_sum(Seq::empty(), which) == Binary64::from_u64(0),
        trade.profit_loss is Some && which(trade) ==> result_sum(trades.push(trade), which)
            == result_sum(trades, which).plus(trade.profit_loss->0),
        trade.profit_loss is None || !which(trade) ==> result_sum(trades.push(trade), which)
            == result_sum(trades, which),
        total_result(trades.push(trade)) == (match trade.profit_loss {
            Some(result) => total_result(trades).plus(result),
            None => total_result(trades),
        }),
{
    assert(trades.push(trade).drop_last() == trades);
}

/// What the figures of the bot say: how many trades there were and how they went, what they
/// brought in all and on the average, and since when the bot runs.
pub proof fn law_metrics_sum_the_trades_up(
    before: BotMetrics,
    trades: Seq<TradeView>,
    positions: nat,
    start: Timestamp,
    now: Timestamp,
)
    requires
        0 < trades.len() <= usize::MAX,
        positions <= usize::MAX,
        volume(trades) <= u64::MAX,
        start.nanos <= now.nanos,
    ensures
        ({
            let m = metrics_of(before, trades, positions, start, now);
            let (won, lost) = (win_count(trades), loss_count(trades));
            let share = Binary64::from_u64(won as u64).over(Binary64::from_u64(trades.len() as u64));
            &&& m.total_trades == trades.len()
            &&& m.winning_trades == won
            &&& m.losing_trades == lost
            &&& m.total_profit_loss == total_result(trades)
            &&& m.win_rate == share.times(Binary64::from_u64(100))
            &&& won > 0 ==> m.average_profit == result_sum(
                trades,
                |t: TradeView| t.profit_loss is Some && Binary64::from_u64(0).lt(t.profit_loss->0),
            ).over(Binary64::from_u64(won as u64))
            &&& lost > 0 ==> m.average_loss == result_sum(
                trades,
                |t: TradeView| t.profit_loss is Some && t.profit_loss->0.lt(Binary64::from_u64(0)),
            ).absolute().over(Binary64::from_u64(lost as u64))
            &&& m.current_positions == positions
            &&& m.total_volume_traded == volume(trades)
            &&& m.uptime_seconds * 1_000_000_000 <= now.nanos - start.nanos < (m.uptime_seconds + 1)
                * 1_000_000_000
            &&& m.last_updated == now
        }),
{
    law_wins_and_losses_are_trades(trades);
    lemma_sums_agree(
        trades,
        |t: TradeView| wins(t),
        |t: TradeView| t.profit_loss is Some && Binary64::from_u64(0).lt(t.profit_loss->0),
    );
    lemma_sums_agree(
        trades,
        |t: TradeView| loses(t),
        |t: TradeView| t.profit_loss is Some && t.profit_loss->0.lt(Binary64::from_u64(0)),
    );
}

proof fn lemma_sums_agree(
    trades: Seq<TradeView>,
    one: spec_fn(TradeView) -> bool,
    other: spec_fn(TradeView) -> bool,
)
    requires
        forall|t: TradeView| #[trigger] one(t) == other(t),
    ensures
        result_sum(trades, one) == result_sum(trades, other),
    decreases trades.len(),
{
    if trades.len() > 0 {
        lemma_sums_agree(trades.drop_last(), one, other);
        assert(one(trades.last()) == other(trades.last()));
    }
}

/// All trades won make a hundred percent, and none of them none.
pub proof fn law_win_rate_is_a_percentage(
    before: BotMetrics,
    trades: Seq<TradeView>,
    positions: nat,
    start: Timestamp,
    now: Timestamp,
)
    requires
        0 < trades.len() < 0x20_0000_0000_0000,
    ensures
        win_count(trades) == trades.len() ==> metrics_of(
            before,
            trades,
            positions,
            start,
            now,
        ).win_rate == Binary64::from_u64(100),
        win_count(trades) == 0 ==> metrics_of(
            before,
            trades,
            positions,
            start,
            now,
        ).win_rate.eq_number(Binary64::from_u64(0)),
{
    let n = trades.len() as u64;
    crate::binary64::law_whole_numbers_are_exact(n);
    crate::binary64::law_whole_numbers_are_exact(0);
    crate::binary64::law_whole_quotients_are_exact(0, n);
    assert(1 * n == n && 0 * n == 0) by (nonlinear_arith);
    crate::binary64::law_whole_quotients_are_exact(1, n);
    crate::binary64::law_whole_products_are_exact(1, 100);
    crate::binary64::law_whole_products_are_exact(0, 100);
}

/// What the trades have brought up to the first `i` of them, less what they have up to the first
/// `j`: how far the result has fallen in between.
pub open spec fn fall_between(trades: Seq<TradeView>, i: int, j: int) -> Binary64 {
    total_result(trades.take(i)).minus(total_result(trades.take(j)))
}

/// Whether the results have stayed within what can be counted.
pub open spec fn results_stay_finite(trades: Seq<TradeView>) -> bool {
    forall|i: int| 0 <= i <= trades.len() ==> total_result(#[trigger] trades.take(i)).is_finite()
}

proof fn lemma_finite_before(trades: Seq<TradeView>)
    requires
        trades.len() > 0,
        results_stay_finite(trades),
    ensures
        results_stay_finite(trades.drop_last()),
        total_result(trades).is_finite(),
{
    let fewer = trades.drop_last();
    assert forall|i: int| 0 <= i <= fewer.len() implies total_result(
        #[trigger] fewer.take(i),
    ).is_finite() by {
        assert(fewer.take(i) == trades.take(i));
    }
    assert(trades.take(trades.len() as int) == trades);
}

proof fn lemma_drawdown(trades: Seq<TradeView>, i: int)
    requires
        0 <= i <= trades.len(),
        results_stay_finite(trades),
    ensures
        drawdown(trades).running == total_result(trades),
        drawdown(trades).running.is_finite(),
        drawdown(trades).peak.is_finite(),
        total_result(trades.take(i)).le(drawdown(trades).peak),
        drawdown(trades).peak.minus(drawdown(trades).running).le(drawdown(trades).deepest),
    decreases trades.len(),
{
    assert(trades.take(trades.len() as int) == trades);
    let zero = Binary64::from_u64(0);
    if trades.len() == 0 {
        assert(trades.take(i) == trades);
        crate::binary64::law_whole_numbers_are_exact(0);
        crate::exits::lemma_whole_share(0, 0, 1);
    } else {
        let fewer = trades.drop_last();
        lemma_finite_before(trades);
        let k = if i < trades.len() {
            i
        } else {
            fewer.len() as int
        };
        lemma_drawdown(fewer, k);
        assert(trades.take(k) == fewer.take(k));
        let d = drawdown(trades);
        assert(d.running == total_result(trades));
        if trades.last().profit_loss is Some {
            assert(!d.peak.minus(d.running).is_nan()) by {
                reveal(Binary64::spec_plus);
                crate::rounding::lemma_round_bound(
                    if d.peak.value() >= d.running.value() {
                        (d.peak.value() - d.running.value()) as nat
                    } else {
                        (d.running.value() - d.peak.value()) as nat
                    },
                    1,
                );
            }
        } else {
            assert(fewer.take(fewer.len() as int) == fewer);
            assert(total_result(trades) == total_result(fewer));
            lemma_drawdown(fewer, fewer.len() as int);
        }
    }
}

/// The drawdown is no less than the fall from any result to a later one.
pub proof fn law_drawdown_covers_every_fall(trades: Seq<TradeView>, i: int, j: int)
    requires
        0 <= i <= j <= trades.len(),
        results_stay_finite(trades),
        !fall_between(trades, i, j).is_nan(),
    ensures
        fall_between(trades, i, j).le(drawdown(trades).deepest),
    decreases trades.len(),
{
    if j == trades.len() {
        lemma_drawdown(trades, i);
        let d = drawdown(trades);
        assert(trades.take(j) == trades);
        let (high, low) = (total_result(trades.take(i)), d.running.negated());
        crate::binary64::law_sums_commute(high, low);
        crate::binary64::law_sums_commute(d.peak, low);
        crate::binary64::law_sums_keep_order(low, high, d.peak);
    } else {
        let fewer = trades.drop_last();
        lemma_finite_before(trades);
        assert(fewer.take(i) == trades.take(i) && fewer.take(j) == trades.take(j));
        law_drawdown_covers_every_fall(fewer, i, j);
        law_drawdown_never_shrinks(fewer, trades.last());
        assert(fewer.push(trades.last()) == trades);
    }
}

/// The drawdown is nothing, or the fall from one of the results to a later one.
pub proof fn law_drawdown_is_a_fall(trades: Seq<TradeView>)
    ensures
        drawdown(trades).deepest == Binary64::from_u64(0) || exists|i: int, j: int|
            0 <= i <= j <= trades.len() && drawdown(trades).deepest == #[trigger] fall_between(
                trades,
                i,
                j,
            ),
    decreases trades.len(),
{
    if trades.len() > 0 {
        let fewer = trades.drop_last();
        law_drawdown_is_a_fall(fewer);
        let (before, d) = (drawdown(fewer), drawdown(trades));
        if d.deepest == before.deepest {
            if before.deepest != Binary64::from_u64(0) {
                let (i, j) = choose|i: int, j: int|
                    0 <= i <= j <= fewer.len() && before.deepest == #[trigger] fall_between(
                        fewer,
                        i,
                        j,
                    );
                assert(fewer.take(i) == trades.take(i) && fewer.take(j) == trades.take(j));
                assert(d.deepest == fall_between(trades, i, j));
            }
        } else {
            lemma_peak_is_a_result(trades);
            let i = choose|i: int|
                0 <= i <= trades.len() && d.peak == total_result(#[trigger] trades.take(i));
            assert(trades.take(trades.len() as int) == trades);
            lemma_running(trades);
            assert(d.deepest == fall_between(trades, i, trades.len() as int));
        }
    }
}

proof fn lemma_running(trades: Seq<TradeView>)
    ensures
        drawdown(trades).running == total_result(trades),
    decreases trades.len(),
{
    if trades.len() > 0 {
        lemma_running(trades.drop_last());
    }
}

proof fn lemma_peak_is_a_result(trades: Seq<TradeView>)
    ensures
        exists|i: int|
            0 <= i <= trades.len() && drawdown(trades).peak == total_result(
                #[trigger] trades.take(i),
            ),
    decreases trades.len(),
{
    assert(trades.take(trades.len() as int) == trades);
    if trades.len() == 0 {
        assert(drawdown(trades).peak == total_result(trades.take(0)));
    } else {
        let fewer = trades.drop_last();
        lemma_peak_is_a_result(fewer);
        lemma_running(trades);
        let i = choose|i: int|
            0 <= i <= fewer.len() && drawdown(fewer).peak == total_result(#[trigger] fewer.take(i));
        assert(fewer.take(i) == trades.take(i));
        if drawdown(trades).peak != drawdown(fewer).peak {
            assert(drawdown(trades).peak == total_result(trades.take(trades.len() as int)));
        }
    }
}

/// An alert is raised for each of the three troubles that there are, in their order, and tells how
/// bad it is: a drawdown above its limit, a loss above its limit, and, after more than ten trades,
/// less than thirty percent of them won.
pub proof fn law_alerts_tell_each_trouble(
    m: BotMetrics,
    t: AlertThresholds,
    ids: AlertIds,
    now: Timestamp,
)
    ensures
        ({
            let alerts = alerts_of(m, t, ids, now);
            let falls = t.max_drawdown_percent.lt(m.max_drawdown);
            let loses = m.total_profit_loss.lt(t.max_daily_loss_percent.negated());
            let misses = m.total_trades > 10 && m.win_rate.lt(Binary64::from_u64(30));
            let (f, l, w): (int, int, int) = (
                if falls {
                    1
                } else {
                    0
                },
                if loses {
                    1
                } else {
                    0
                },
                if misses {
                    1
                } else {
                    0
                },
            );
            &&& alerts.len() == f + l + w
            &&& falls ==> alerts[0] == (AlertView {
                id: ids.drawdown@,
                level: AlertLevel::Warning,
                cause: AlertCause::MaxDrawdown {
                    drawdown: m.max_drawdown,
                    threshold: t.max_drawdown_percent,
                },
                timestamp: now,
                acknowledged: false,
            })
            &&& loses ==> alerts[f] == (AlertView {
                id: ids.daily_loss@,
                level: AlertLevel::Error,
                cause: AlertCause::DailyLoss {
                    loss: m.total_profit_loss.absolute(),
                    threshold: t.max_daily_loss_percent,
                },
                timestamp: now,
                acknowledged: false,
            })
            &&& misses ==> alerts[f + l] == (AlertView {
                id: ids.win_rate@,
                level: AlertLevel::Warning,
                cause: AlertCause::LowWinRate { win_rate: m.win_rate },
                timestamp: now,
                acknowledged: false,
            })
        }),
{
}

/// The alerts that are shown are those that nobody has acknowledged, in their order.
pub proof fn law_open_alerts_are_shown(
    first: Seq<AlertView>,
    second: Seq<AlertView>,
    alert: AlertView,
)
    ensures
        unacknowledged(first + second) == unacknowledged(first) + unacknowledged(second),
        unacknowledged(seq![alert]) == (if alert.acknowledged {
            Seq::empty()
        } else {
            seq![alert]
        }),
    decreases second.len(),
{
    let one = seq![alert];
    assert(one.drop_last() == Seq::<AlertView>::empty());
    assert(unacknowledged(one.drop_last()) == Seq::<AlertView>::empty());
    if second.len() == 0 {
        assert(first + second == first);
    } else {
        assert((first + second).drop_last() == first + second.drop_last());
        law_open_alerts_are_shown(first, second.drop_last(), alert);
    }
}

} // verus!
