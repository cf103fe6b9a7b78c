//! When a position is left.
use crate::binary64::Binary64;
use crate::clock::Timestamp;
use crate::config::{ExitStrategies, Tier};
use crate::strategies::Reason;
use vstd::prelude::*;

verus! {

/// A price and when it was seen.
pub type PricePoint = (Timestamp, Binary64);

/// The most prices that are kept of a position.
pub const MAX_HISTORY: usize = 1200;

/// The fewest prices that an average is taken of.
pub const MIN_AVERAGED: usize = 40;

/// The gain of `current` over `entry`, in percent.
pub open spec fn spec_gain_percent(current: Binary64, entry: Binary64) -> Binary64 {
    current.minus(entry).over(entry).times(Binary64::from_u64(100))
}

/// The gain of `current` over `entry`, in percent.
#[verifier::when_used_as_spec(spec_gain_percent)]
pub fn gain_percent(current: Binary64, entry: Binary64) -> (r: Binary64)
    ensures
        r == gain_percent(current, entry),
{
    current.minus(entry).over(entry).times(Binary64::from_u64(100))
}

/// The fall of `current` below `entry`, in percent.
pub open spec fn spec_fall_percent(current: Binary64, entry: Binary64) -> Binary64 {
    entry.minus(current).over(entry).times(Binary64::from_u64(100))
}

/// The fall of `current` below `entry`, in percent.
#[verifier::when_used_as_spec(spec_fall_percent)]
pub fn fall_percent(current: Binary64, entry: Binary64) -> (r: Binary64)
    ensures
        r == fall_percent(current, entry),
{
    entry.minus(current).over(entry).times(Binary64::from_u64(100))
}

/// A history with one more price; the oldest goes where there are too many.
pub open spec fn with_price(history: Seq<PricePoint>, point: PricePoint) -> Seq<PricePoint> {
    let longer = history.push(point);
    if longer.len() > MAX_HISTORY {
        longer.skip(1)
    } else {
        longer
    }
}

pub fn add_price(history: &mut Vec<PricePoint>, point: PricePoint)
    ensures
        final(history)@ == with_price(old(history)@, point),
{
    history.push(point);
    if history.len() > MAX_HISTORY {
        let ghost longer = history@;
        let _ = history.remove(0);
        assert(history@ =~= longer.skip(1));
    }
}

/// The prices seen in the last `seconds`.
pub open spec fn recent(history: Seq<PricePoint>, now: Timestamp, seconds: u64) -> Seq<PricePoint>
    decreases history.len(),
{
    if history.len() == 0 {
        history
    } else {
        let before = recent(history.drop_last(), now, seconds);
        if history.last().0.within(now, seconds) {
            before.push(history.last())
        } else {
            before
        }
    }
}

pub fn recent_prices(history: &Vec<PricePoint>, now: Timestamp, seconds: u64) -> (r: Vec<
    PricePoint,
>)
    ensures
        r@ == recent(history@, now, seconds),
{
    let mut out: Vec<PricePoint> = Vec::new();
    let mut i: usize = 0;
    while i < history.len()
        invariant
            i <= history@.len(),
            out@ == recent(history@.take(i as int), now, seconds),
        decreases history@.len() - i,
    {
        assert(history@.take(i + 1).drop_last() =~= history@.take(i as int));
        if history[i].0.within(now, seconds) {
            out.push(history[i]);
        }
        i = i + 1;
    }
    assert(history@.take(history@.len() as int) =~= history@);
    out
}

/// The sum of prices, taken from the first to the last.
pub open spec fn price_sum(points: Seq<PricePoint>) -> Binary64
    decreases points.len(),
{
    if points.len() == 0 {
        Binary64::from_u64(0)
    } else {
        price_sum(points.drop_last()).plus(points.last().1)
    }
}

/// The average of prices.
pub open spec fn average(points: Seq<PricePoint>) -> Binary64 {
    price_sum(points).over(Binary64::from_u64(points.len() as u64))
}

pub fn average_price(points: &Vec<PricePoint>) -> (r: Binary64)
    ensures
        r == average(points@),
{
    let mut sum = Binary64::from_u64(0);
    let mut i: usize = 0;
    while i < points.len()
        invariant
            i <= points@.len(),
            sum == price_sum(points@.take(i as int)),
        decreases points@.len() - i,
    {
        assert(points@.take(i + 1).drop_last() =~= points@.take(i as int));
        sum = sum.plus(points[i].1);
        i = i + 1;
    }
    assert(points@.take(points@.len() as int) =~= points@);
    sum.over(Binary64::from_u64(points.len() as u64))
}

/// The last tier whose gain the peak has reached.
pub open spec fn active_tier(tiers: Seq<Tier>, peak: Binary64) -> Option<Tier>
    decreases tiers.len(),
{
    if tiers.len() == 0 {
        None
    } else if tiers.last().0.le(peak) {
        Some(tiers.last())
    } else {
        active_tier(tiers.drop_last(), peak)
    }
}

pub fn find_tier(tiers: &Vec<Tier>, peak: Binary64) -> (r: Option<Tier>)
    ensures
        r == active_tier(tiers@, peak),
{
    let mut k: usize = tiers.len();
    assert(tiers@.take(k as int) =~= tiers@);
    while k > 0
        invariant
            k <= tiers@.len(),
            active_tier(tiers@, peak) == active_tier(tiers@.take(k as int), peak),
        decreases k,
    {
        assert(tiers@.take(k as int).drop_last() =~= tiers@.take(k - 1));
        assert(tiers@.take(k as int).last() == tiers@[k - 1]);
        if tiers[k - 1].0.le(peak) {
            return Some(tiers[k - 1]);
        }
        k = k - 1;
    }
    None
}

/// A position, as far as the exits look at it.
pub struct Standing {
    /// The prices seen, the current one last.
    pub history: Seq<PricePoint>,
    pub current: Binary64,
    pub entry: Binary64,
    /// The highest gain so far, the current one counted.
    pub peak: Binary64,
    pub held_since: Timestamp,
    /// The SOL that the venue holds.
    pub liquidity: Binary64,
    pub now: Timestamp,
}

/// The levels at which positions are left.
#[derive(Clone, Copy, PartialEq, Eq, Structural, Debug)]
pub struct ExitLevels {
    pub profit_target_percent: Binary64,
    pub stop_loss_percent: Binary64,
    pub strategies: ExitStrategies,
}

/// Leaves a position that loses and whose price is below its average.
pub open spec fn momentum_exit(s: Standing, x: ExitStrategies) -> Option<Reason> {
    let pnl = gain_percent(s.current, s.entry);
    let window = recent(s.history, s.now, x.momentum_reversal_window_secs);
    let min_loss = x.momentum_reversal_min_loss_pct;
    if x.momentum_reversal_enabled && x.momentum_reversal_window_secs > 0 && Binary64::from_u64(
        0,
    ).lt(min_loss) && pnl.lt(min_loss.negated()) && window.len() >= MIN_AVERAGED && s.current.lt(
        average(window),
    ) {
        Some(
            Reason::MomentumReversal {
                price: s.current,
                average: average(window),
                window_secs: x.momentum_reversal_window_secs,
                pnl,
            },
        )
    } else {
        None
    }
}

/// Leaves a position at the stop loss; else, with a tier reached, when the gain has fallen from
/// its peak by the tier's trail; else, without any tiers, at the profit target.
pub open spec fn price_exit(s: Standing, levels: ExitLevels, tiers: Seq<Tier>) -> Option<Reason> {
    let pnl = gain_percent(s.current, s.entry);
    let loss = fall_percent(s.current, s.entry);
    if levels.stop_loss_percent.le(loss) {
        Some(Reason::StopLoss { loss })
    } else {
        match active_tier(tiers, s.peak) {
            Some((threshold, trail)) => {
                let exit_at = s.peak.minus(trail);
                if pnl.le(exit_at) {
                    Some(Reason::TrailingStop { peak: s.peak, threshold, trail, pnl, exit_at })
                } else {
                    None
                }
            },
            None => if tiers.len() == 0 && levels.profit_target_percent.le(pnl) {
                Some(Reason::ProfitTarget { pnl })
            } else {
                None
            },
        }
    }
}

/// The whole minutes that a position has been held, none where it was entered later than now.
pub open spec fn spec_held_minutes(since: Timestamp, now: Timestamp) -> u64 {
    let minutes = now.minutes_since(since);
    if minutes >= 0 {
        minutes as u64
    } else {
        0
    }
}

#[verifier::when_used_as_spec(spec_held_minutes)]
pub fn held_minutes(since: Timestamp, now: Timestamp) -> (r: u64)
    ensures
        r == held_minutes(since, now),
{
    let minutes: i64 = now.minutes_since(since);
    if minutes >= 0 {
        minutes as u64
    } else {
        0
    }
}

/// Leaves a position that has been held too long, unless a trailing stop protects its gain.
pub open spec fn time_exit(s: Standing, x: ExitStrategies, tiers: Seq<Tier>) -> Option<Reason> {
    let minutes = held_minutes(s.held_since, s.now);
    let protected = active_tier(tiers, s.peak) is Some && Binary64::from_u64(0).lt(
        gain_percent(s.current, s.entry),
    );
    if x.time_exit_enabled && x.max_hold_minutes > 0 && minutes >= x.max_hold_minutes
        && !protected {
        Some(Reason::TimeExit { minutes, max_minutes: x.max_hold_minutes })
    } else {
        None
    }
}

/// Leaves a position whose venue holds too little SOL.
pub open spec fn liquidity_exit(s: Standing, x: ExitStrategies) -> Option<Reason> {
    if x.liquidity_exit_enabled && Binary64::from_u64(0).lt(x.min_liquidity_sol) && s.liquidity.lt(
        x.min_liquidity_sol,
    ) {
        Some(
            Reason::LiquidityExit { liquidity: s.liquidity, min_liquidity: x.min_liquidity_sol },
        )
    } else {
        None
    }
}

/// The minutes between two prices.
pub open spec fn minutes_between(first: PricePoint, last: PricePoint) -> Binary64 {
    Binary64::from_i64(last.0.millis_since(first.0)).over(Binary64::from_u64(60_000))
}

/// Leaves a position whose price fell too fast over the last 30 seconds.
pub open spec fn velocity_exit(s: Standing, x: ExitStrategies) -> Option<Reason> {
    let window = recent(s.history, s.now, 30);
    let (first, last) = (window.first(), window.last());
    let minutes = minutes_between(first, last);
    let rate = fall_percent(last.1, first.1).over(minutes);
    if x.velocity_exit_enabled && window.len() >= 2 && Binary64::from_u64(0).lt(minutes)
        && Binary64::from_u64(0).lt(first.1) && x.max_decline_rate_per_min.le(rate)
        && Binary64::from_u64(0).lt(x.max_decline_rate_per_min) {
        Some(
            Reason::VelocityExit {
                rate,
                seconds: minutes.times(Binary64::from_u64(60)),
                max_rate: x.max_decline_rate_per_min,
            },
        )
    } else {
        None
    }
}

/// Whether and why a position is left: the first exit that applies.
pub open spec fn exit_reason(s: Standing, levels: ExitLevels, tiers: Seq<Tier>) -> Option<Reason> {
    let x = levels.strategies;
    if momentum_exit(s, x) is Some {
        momentum_exit(s, x)
    } else if price_exit(s, levels, tiers) is Some {
        price_exit(s, levels, tiers)
    } else if time_exit(s, x, tiers) is Some {
        time_exit(s, x, tiers)
    } else if liquidity_exit(s, x) is Some {
        liquidity_exit(s, x)
    } else {
        velocity_exit(s, x)
    }
}

/// A position, as far as the exits look at it, in executable form.
pub struct ExitCheck<'a> {
    pub history: &'a Vec<PricePoint>,
    pub current: Binary64,
    pub entry: Binary64,
    pub peak: Binary64,
    pub held_since: Timestamp,
    pub liquidity: Binary64,
    pub now: Timestamp,
}

impl<'a> View for ExitCheck<'a> {
    type V = Standing;

    open spec fn view(&self) -> Standing {
        Standing {
            history: self.history@,
            current: self.current,
            entry: self.entry,
            peak: self.peak,
            held_since: self.held_since,
            liquidity: self.liquidity,
            now: self.now,
        }
    }
}

impl<'a> ExitCheck<'a> {
    fn momentum(&self, x: &ExitStrategies) -> (r: Option<Reason>)
        ensures
            r == momentum_exit(self@, *x),
    {
        if !x.momentum_reversal_enabled {
            return None;
        }
        let pnl = gain_percent(self.current, self.entry);
        let min_loss = x.momentum_reversal_min_loss_pct;
        if x.momentum_reversal_window_secs > 0 && Binary64::from_u64(0).lt(min_loss) && pnl.lt(
            min_loss.negated(),
        ) {
            let window: Vec<PricePoint> = recent_prices(
                self.history,
                self.now,
                x.momentum_reversal_window_secs,
            );
            if window.len() >= MIN_AVERAGED {
                let average = average_price(&window);
                if self.current.lt(average) {
                    return Some(
                        Reason::MomentumReversal {
                            price: self.current,
                            average,
                            window_secs: x.momentum_reversal_window_secs,
                            pnl,
                        },
                    );
                }
            }
        }
        None
    }

    fn price(&self, levels: &ExitLevels, tiers: &Vec<Tier>) -> (r: Option<Reason>)
        ensures
            r == price_exit(self@, *levels, tiers@),
    {
        let pnl = gain_percent(self.current, self.entry);
        let loss = fall_percent(self.current, self.entry);
        if levels.stop_loss_percent.le(loss) {
            return Some(Reason::StopLoss { loss });
        }
        match find_tier(tiers, self.peak) {
            Some((threshold, trail)) => {
                let exit_at = self.peak.minus(trail);
                if pnl.le(exit_at) {
                    Some(Reason::TrailingStop { peak: self.peak, threshold, trail, pnl, exit_at })
                } else {
                    None
                }
            },
            None => {
                if tiers.len() == 0 && levels.profit_target_percent.le(pnl) {
                    Some(Reason::ProfitTarget { pnl })
                } else {
                    None
                }
            },
        }
    }

    fn time(&self, x: &ExitStrategies, tiers: &Vec<Tier>) -> (r: Option<Reason>)
        ensures
            r == time_exit(self@, *x, tiers@),
    {
        if !x.time_exit_enabled {
            return None;
        }
        let minutes: u64 = held_minutes(self.held_since, self.now);
        if x.max_hold_minutes > 0 && minutes >= x.max_hold_minutes {
            let protected: bool = find_tier(tiers, self.peak).is_some() && Binary64::from_u64(0).lt(
                gain_percent(self.current, self.entry),
            );
            if !protected {
                return Some(Reason::TimeExit { minutes, max_minutes: x.max_hold_minutes });
            }
        }
        None
    }

    fn venue(&self, x: &ExitStrategies) -> (r: Option<Reason>)
        ensures
            r == liquidity_exit(self@, *x),
    {
        if x.liquidity_exit_enabled && Binary64::from_u64(0).lt(x.min_liquidity_sol)
            && self.liquidity.lt(x.min_liquidity_sol) {
            Some(
                Reason::LiquidityExit {
                    liquidity: self.liquidity,
                    min_liquidity: x.min_liquidity_sol,
                },
            )
        } else {
            None
        }
    }

    fn velocity(&self, x: &ExitStrategies) -> (r: Option<Reason>)
        ensures
            r == velocity_exit(self@, *x),
    {
        if !x.velocity_exit_enabled {
            return None;
        }
        let window: Vec<PricePoint> = recent_prices(self.history, self.now, 30);
        if window.len() >= 2 {
            let first: PricePoint = window[0];
            let last: PricePoint = window[window.len() - 1];
            let minutes = Binary64::from_i64(last.0.millis_since(first.0)).over(
                Binary64::from_u64(60_000),
            );
            if Binary64::from_u64(0).lt(minutes) && Binary64::from_u64(0).lt(first.1) {
                let rate = fall_percent(last.1, first.1).over(minutes);
                if x.max_decline_rate_per_min.le(rate) && Binary64::from_u64(0).lt(
                    x.max_decline_rate_per_min,
                ) {
                    return Some(
                        Reason::VelocityExit {
                            rate,
                            seconds: minutes.times(Binary64::from_u64(60)),
                            max_rate: x.max_decline_rate_per_min,
                        },
                    );
                }
            }
        }
        None
    }

    /// Whether and why the position is left.
    pub fn decide(&self, levels: &ExitLevels, tiers: &Vec<Tier>) -> (r: Option<Reason>)
        ensures
            r == exit_reason(self@, *levels, tiers@),
    {
        let x: &ExitStrategies = &levels.strategies;
        let momentum: Option<Reason> = self.momentum(x);
        if momentum.is_some() {
            return momentum;
        }
        let price: Option<Reason> = self.price(levels, tiers);
        if price.is_some() {
            return price;
        }
        let time: Option<Reason> = self.time(x, tiers);
        if time.is_some() {
            return time;
        }
        let venue: Option<Reason> = self.venue(x);
        if venue.is_some() {
            return venue;
        }
        self.velocity(x)
    }
}

/// The stop loss fires exactly where the gain is at or below the negated stop loss.
pub proof fn law_stop_loss_is_a_gain_bound(current: Binary64, entry: Binary64, stop: Binary64)
    ensures
        stop.le(fall_percent(current, entry)) <==> gain_percent(current, entry).le(stop.negated()),
{
    crate::binary64::law_differences_are_opposite(current, entry);
    crate::binary64::law_quotients_of_opposites(
        current.minus(entry),
        entry.minus(current),
        entry,
    );
    crate::binary64::law_products_of_opposites(
        current.minus(entry).over(entry),
        entry.minus(current).over(entry),
        Binary64::from_u64(100),
    );
}

/// The stop loss is always active: whatever else is set, a position whose gain is at or below
/// the negated stop loss is left.
pub proof fn law_stop_loss_always_holds(s: Standing, levels: ExitLevels, tiers: Seq<Tier>)
    requires
        gain_percent(s.current, s.entry).le(levels.stop_loss_percent.negated()),
    ensures
        exit_reason(s, levels, tiers) is Some,
{
    law_stop_loss_is_a_gain_bound(s.current, s.entry, levels.stop_loss_percent);
}

/// With tiers set, the profit target is never the reason.
pub proof fn law_tiers_suppress_profit_target(s: Standing, levels: ExitLevels, tiers: Seq<Tier>)
    requires
        tiers.len() > 0,
    ensures
        !(exit_reason(s, levels, tiers) matches Some(Reason::ProfitTarget { .. })),
{
}

/// Without tiers, a position that has reached the profit target is left.
pub proof fn law_profit_target_holds(s: Standing, levels: ExitLevels, tiers: Seq<Tier>)
    requires
        tiers.len() == 0,
        levels.profit_target_percent.le(gain_percent(s.current, s.entry)),
    ensures
        exit_reason(s, levels, tiers) is Some,
{
}

proof fn lemma_active_tier(tiers: Seq<Tier>, peak: Binary64)
    ensures
        match active_tier(tiers, peak) {
            Some(tier) => exists|k: int|
                0 <= k < tiers.len() && #[trigger] tiers[k] == tier && tier.0.le(peak) && (
                forall|j: int| k < j < tiers.len() ==> !(#[trigger] tiers[j]).0.le(peak)),
            None => forall|j: int| 0 <= j < tiers.len() ==> !(#[trigger] tiers[j]).0.le(peak),
        },
    decreases tiers.len(),
{
    if tiers.len() > 0 {
        let last = tiers.len() - 1;
        assert(tiers.last() == tiers[last]);
        if !tiers.last().0.le(peak) {
            let front = tiers.drop_last();
            lemma_active_tier(front, peak);
            match active_tier(front, peak) {
                Some(tier) => {
                    let k = choose|k: int|
                        0 <= k < front.len() && #[trigger] front[k] == tier && tier.0.le(peak) && (
                        forall|j: int| k < j < front.len() ==> !(#[trigger] front[j]).0.le(peak));
                    assert(tiers[k] == front[k]);
                    assert forall|j: int| k < j < tiers.len() implies !(
                    #[trigger] tiers[j]).0.le(peak) by {
                        if j < last {
                            assert(front[j] == tiers[j]);
                        }
                    }
                },
                None => {
                    assert forall|j: int| 0 <= j < tiers.len() implies !(
                    #[trigger] tiers[j]).0.le(peak) by {
                        if j < last {
                            assert(front[j] == tiers[j]);
                        }
                    }
                },
            }
        }
    }
}

/// Of the tiers that the peak has crossed, the highest wins; there is none only where the peak
/// has crossed none.
pub proof fn law_highest_crossed_tier_wins(tiers: Seq<Tier>, peak: Binary64)
    requires
        crate::config::rising(tiers),
    ensures
        match active_tier(tiers, peak) {
            Some(tier) => tiers.contains(tier) && tier.0.le(peak) && forall|j: int|
                0 <= j < tiers.len() && (#[trigger] tiers[j]).0.le(peak) ==> tiers[j].0.le(tier.0),
            None => forall|j: int| 0 <= j < tiers.len() ==> !(#[trigger] tiers[j]).0.le(peak),
        },
{
    lemma_active_tier(tiers, peak);
    if let Some(tier) = active_tier(tiers, peak) {
        let k = choose|k: int|
            0 <= k < tiers.len() && #[trigger] tiers[k] == tier && tier.0.le(peak) && (forall|
                j: int,
            |
                k < j < tiers.len() ==> !(#[trigger] tiers[j]).0.le(peak));
        assert forall|j: int|
            0 <= j < tiers.len() && (#[trigger] tiers[j]).0.le(peak) implies tiers[j].0.le(
            tier.0,
        ) by {
            if j < k {
                assert(!tiers[k].0.lt(tiers[j].0));
            }
        }
    }
}

/// Once a tier is crossed, a position whose gain has fallen from its peak by the tier's trail is
/// left.
pub proof fn law_trailing_stop_holds(s: Standing, levels: ExitLevels, tiers: Seq<Tier>, tier: Tier)
    requires
        active_tier(tiers, s.peak) == Some(tier),
        gain_percent(s.current, s.entry).le(s.peak.minus(tier.1)),
    ensures
        exit_reason(s, levels, tiers) is Some,
{
}

/// The exits that can be switched off are silent while they are.
pub proof fn law_disabled_exits_are_silent(s: Standing, levels: ExitLevels, tiers: Seq<Tier>)
    ensures
        !levels.strategies.momentum_reversal_enabled ==> !(exit_reason(s, levels, tiers) matches Some(
            Reason::MomentumReversal { .. },
        )),
        !levels.strategies.time_exit_enabled ==> !(exit_reason(s, levels, tiers) matches Some(
            Reason::TimeExit { .. },
        )),
        !levels.strategies.liquidity_exit_enabled ==> !(exit_reason(s, levels, tiers) matches Some(
            Reason::LiquidityExit { .. },
        )),
        !levels.strategies.velocity_exit_enabled ==> !(exit_reason(s, levels, tiers) matches Some(
            Reason::VelocityExit { .. },
        )),
{
}

/// A history never grows beyond its limit, and its last price is the newest.
pub proof fn law_history_is_bounded(history: Seq<PricePoint>, point: PricePoint)
    requires
        history.len() <= MAX_HISTORY,
    ensures
        with_price(history, point).len() <= MAX_HISTORY,
        with_price(history, point).last() == point,
{
}

/// Whether a price was seen no longer ago than so many seconds.
pub open spec fn seen_lately(point: PricePoint, now: Timestamp, seconds: u64) -> bool {
    now.nanos - point.0.nanos <= seconds * 1_000_000_000
}

/// The recent prices are those of the history that are not too old, in their order; none is left
/// out, and none is added.
pub proof fn law_recent_prices_are_the_young_ones(
    history: Seq<PricePoint>,
    now: Timestamp,
    seconds: u64,
)
    ensures
        recent(history, now, seconds) == history.filter(
            |p: PricePoint| seen_lately(p, now, seconds),
        ),
    decreases history.len(),
{
    reveal(Seq::filter);
    if history.len() > 0 {
        law_recent_prices_are_the_young_ones(history.drop_last(), now, seconds);
    }
    assert(recent(history, now, seconds) =~= history.filter(
        |p: PricePoint| seen_lately(p, now, seconds),
    ));
}

/// A momentum reversal is decided by the prices within its window alone: two histories with the
/// same prices there give the same answer, whatever is older.
pub proof fn law_momentum_sees_its_window_only(
    s: Standing,
    other: Seq<PricePoint>,
    levels: ExitLevels,
    tiers: Seq<Tier>,
)
    requires
        ({
            let seconds = levels.strategies.momentum_reversal_window_secs;
            let young = |p: PricePoint| seen_lately(p, s.now, seconds);
            s.history.filter(young) == other.filter(young)
        }),
    ensures
        momentum_exit(s, levels.strategies) == momentum_exit(
            Standing { history: other, ..s },
            levels.strategies,
        ),
        exit_reason(s, levels, tiers) is Some && exit_reason(
            s,
            levels,
            tiers,
        )->0 is MomentumReversal ==> exit_reason(
            Standing { history: other, ..s },
            levels,
            tiers,
        ) == exit_reason(s, levels, tiers),
{
    let seconds = levels.strategies.momentum_reversal_window_secs;
    law_recent_prices_are_the_young_ones(s.history, s.now, seconds);
    law_recent_prices_are_the_young_ones(other, s.now, seconds);
}

/// A position is left by momentum reversal exactly where that is switched on, the loss exceeds
/// its threshold, and the price is below the mean of at least forty prices within the window.
pub proof fn law_momentum_needs_a_price_below_the_mean(
    s: Standing,
    levels: ExitLevels,
    tiers: Seq<Tier>,
)
    ensures
        ({
            let x = levels.strategies;
            let young = s.history.filter(
                |p: PricePoint| seen_lately(p, s.now, x.momentum_reversal_window_secs),
            );
            let loses = gain_percent(s.current, s.entry).lt(
                x.momentum_reversal_min_loss_pct.negated(),
            );
            let reverses = x.momentum_reversal_enabled && x.momentum_reversal_window_secs > 0
                && Binary64::from_u64(0).lt(x.momentum_reversal_min_loss_pct) && loses
                && young.len() >= 40 && s.current.lt(average(young));
            let reason = exit_reason(s, levels, tiers);
            &&& reverses <==> reason is Some && reason->0 is MomentumReversal
            &&& reverses ==> reason == Some(
                Reason::MomentumReversal {
                    price: s.current,
                    average: average(young),
                    window_secs: x.momentum_reversal_window_secs,
                    pnl: gain_percent(s.current, s.entry),
                },
            )
        }),
{
    law_recent_prices_are_the_young_ones(
        s.history,
        s.now,
        levels.strategies.momentum_reversal_window_secs,
    );
}

/// The sum of whole numbers.
pub open spec fn whole_sum(prices: Seq<u64>) -> nat
    decreases prices.len(),
{
    if prices.len() == 0 {
        0
    } else {
        whole_sum(prices.drop_last()) + prices.last() as nat
    }
}

/// The average of whole prices is their sum over their number, rounded once.
pub proof fn law_average_is_sum_over_number(points: Seq<PricePoint>, prices: Seq<u64>)
    requires
        points.len() == prices.len(),
        forall|i: int|
            0 <= i < points.len() ==> (#[trigger] points[i]).1 == Binary64::from_u64(prices[i]),
        whole_sum(prices) < 0x20_0000_0000_0000,
        points.len() <= u64::MAX,
    ensures
        average(points) == Binary64::ratio(whole_sum(prices) as u64, points.len() as u64),
{
    lemma_whole_price_sum(points, prices);
}

proof fn lemma_whole_price_sum(points: Seq<PricePoint>, prices: Seq<u64>)
    requires
        points.len() == prices.len(),
        forall|i: int|
            0 <= i < points.len() ==> (#[trigger] points[i]).1 == Binary64::from_u64(prices[i]),
        whole_sum(prices) < 0x20_0000_0000_0000,
    ensures
        price_sum(points) == Binary64::from_u64(whole_sum(prices) as u64),
    decreases points.len(),
{
    if points.len() > 0 {
        let (front, less) = (points.drop_last(), prices.drop_last());
        assert forall|i: int| 0 <= i < front.len() implies (#[trigger] front[i]).1
            == Binary64::from_u64(less[i]) by {
            assert(front[i] == points[i]);
        }
        lemma_whole_price_sum(front, less);
        assert(points.last() == points[points.len() - 1]);
        crate::binary64::law_whole_sums_are_exact(whole_sum(less) as u64, prices.last());
    }
}

/// Where every price is as high or higher, so is the average.
pub proof fn law_higher_prices_raise_the_average(low: Seq<PricePoint>, high: Seq<PricePoint>)
    requires
        0 < low.len() == high.len() < 0x20_0000_0000_0000,
        forall|i: int| 0 <= i < low.len() ==> (#[trigger] low[i]).1.le(high[i].1),
        price_sum(low).is_finite(),
        price_sum(high).is_finite(),
    ensures
        average(low).le(average(high)),
{
    lemma_higher_prices_raise_the_sum(low, high);
    let n = low.len() as u64;
    crate::binary64::law_whole_numbers_are_exact(n);
    crate::binary64::law_whole_order_is_kept(0, n);
    crate::binary64::law_quotients_keep_order(
        price_sum(low),
        price_sum(high),
        Binary64::from_u64(n),
    );
}

proof fn lemma_finite_sum_has_finite_parts(a: Binary64, b: Binary64)
    requires
        a.plus(b).is_finite(),
    ensures
        a.is_finite(),
        b.is_finite(),
{
    reveal(Binary64::spec_plus);
}

proof fn lemma_higher_prices_raise_the_sum(low: Seq<PricePoint>, high: Seq<PricePoint>)
    requires
        low.len() == high.len(),
        forall|i: int| 0 <= i < low.len() ==> (#[trigger] low[i]).1.le(high[i].1),
        price_sum(low).is_finite(),
        price_sum(high).is_finite(),
    ensures
        price_sum(low).le(price_sum(high)),
    decreases low.len(),
{
    if low.len() > 0 {
        let (a, b) = (low.drop_last(), high.drop_last());
        let (x, y) = (low.last().1, high.last().1);
        assert(low.last() == low[low.len() - 1]);
        assert forall|i: int| 0 <= i < a.len() implies (#[trigger] a[i]).1.le(b[i].1) by {
            assert(a[i] == low[i]);
        }
        lemma_finite_sum_has_finite_parts(price_sum(a), x);
        lemma_finite_sum_has_finite_parts(price_sum(b), y);
        lemma_higher_prices_raise_the_sum(a, b);
        lemma_sums_keep_both_orders(price_sum(a), price_sum(b), x, y);
    }
}

proof fn lemma_sums_keep_both_orders(a: Binary64, b: Binary64, x: Binary64, y: Binary64)
    requires
        a.le(b),
        x.le(y),
        a.plus(x).is_finite(),
        b.plus(y).is_finite(),
    ensures
        a.plus(x).le(b.plus(y)),
{
    reveal(Binary64::spec_plus);
    crate::binary64::law_order_is_order_of_values(a, b);
    crate::binary64::law_order_is_order_of_values(x, y);
    let (s, t) = (a.value() + x.value(), b.value() + y.value());
    if s > 0 {
        crate::rounding::law_rounding_keeps_order(s as nat, 1, t as nat, 1);
        crate::rounding::lemma_round_bound(t as nat, 1);
        crate::rounding::lemma_round_bound(s as nat, 1);
    } else if s < 0 {
        crate::rounding::lemma_round_bound((-s) as nat, 1);
        if t < 0 {
            crate::rounding::law_rounding_keeps_order((-t) as nat, 1, (-s) as nat, 1);
            crate::rounding::lemma_round_bound((-t) as nat, 1);
        } else if t > 0 {
            crate::rounding::lemma_round_bound(t as nat, 1);
        }
    } else if t > 0 {
        crate::rounding::lemma_round_bound(t as nat, 1);
    }
}

/// The gain is measured against the entry price: for whole prices it is their difference over
/// the entry price, a hundred times; a fall is as negative as the rise would be positive.
pub proof fn law_gain_is_relative_to_the_entry(current: u64, entry: u64)
    requires
        0 < entry < 0x20_0000_0000_0000,
        current < 0x20_0000_0000_0000,
    ensures
        current >= entry ==> gain_percent(
            Binary64::from_u64(current),
            Binary64::from_u64(entry),
        ).eq_number(
            Binary64::ratio((current - entry) as u64, entry).times(Binary64::from_u64(100)),
        ),
        current < entry ==> gain_percent(
            Binary64::from_u64(current),
            Binary64::from_u64(entry),
        ).eq_number(
            Binary64::ratio((entry - current) as u64, entry).times(
                Binary64::from_u64(100),
            ).negated(),
        ),
        current <= entry ==> fall_percent(
            Binary64::from_u64(current),
            Binary64::from_u64(entry),
        ).eq_number(
            Binary64::ratio((entry - current) as u64, entry).times(Binary64::from_u64(100)),
        ),
{
    let (c, e, hundred) = (
        Binary64::from_u64(current),
        Binary64::from_u64(entry),
        Binary64::from_u64(100),
    );
    if current >= entry {
        lemma_whole_share(current, entry, entry);
    }
    if current <= entry {
        lemma_whole_share(entry, current, entry);
    }
    crate::binary64::law_differences_are_opposite(c, e);
    crate::binary64::law_quotients_of_opposites(c.minus(e), e.minus(c), e);
    crate::binary64::law_products_of_opposites(
        c.minus(e).over(e),
        e.minus(c).over(e),
        hundred,
    );
}

/// The difference of whole numbers is exact, and so is what follows from it.
pub proof fn lemma_whole_share(large: u64, small: u64, divisor: u64)
    requires
        small <= large < 0x20_0000_0000_0000,
        0 < divisor < 0x20_0000_0000_0000,
    ensures
        Binary64::from_u64(large).minus(Binary64::from_u64(small)) == Binary64::from_u64(
            (large - small) as u64,
        ),
        !Binary64::ratio((large - small) as u64, divisor).times(Binary64::from_u64(100)).is_nan(),
        !Binary64::ratio((large - small) as u64, divisor).is_nan(),
{
    let d = (large - small) as u64;
    let one = Binary64::one_value();
    crate::binary64::law_whole_numbers_are_exact(large);
    crate::binary64::law_whole_numbers_are_exact(small);
    crate::binary64::law_whole_numbers_are_exact(d);
    crate::binary64::law_whole_numbers_are_exact(divisor);
    crate::binary64::law_whole_numbers_are_exact(100);
    crate::binary64::law_whole_order_is_kept(0, divisor);
    crate::binary64::law_whole_order_is_kept(0, 100);
    assert(large * one - small * one == d * one) by (nonlinear_arith)
        requires
            d == large - small,
    ;
    reveal(Binary64::spec_plus);
    reveal(Binary64::spec_from_u64);
    crate::rounding::lemma_exp2_positive(1074);
    assert(d > 0 ==> d * one > 0) by (nonlinear_arith)
        requires
            one >= 1,
    ;
    assert(0 * one == 0) by (nonlinear_arith);
    crate::rounding::lemma_round_zero(1);
    reveal(Binary64::spec_over);
    reveal(Binary64::spec_times);
    crate::rounding::lemma_round_bound(
        Binary64::from_u64(d).size() * one,
        Binary64::from_u64(divisor).size(),
    );
    let q = Binary64::ratio(d, divisor);
    if q.is_finite() {
        crate::rounding::lemma_round_bound(q.size() * Binary64::from_u64(100).size(), one);
    }
}

/// A gain depends on the share of the price alone: prices that are both doubled so many times
/// give the same gain.
pub proof fn law_gain_is_relative(
    current: Binary64,
    entry: Binary64,
    current2: Binary64,
    entry2: Binary64,
    times: nat,
)
    requires
        current.doubled(current2, times),
        entry.doubled(entry2, times),
        !entry.zero(),
        current2.minus(entry2).is_finite(),
        !current.minus(entry).zero(),
    ensures
        gain_percent(current, entry) == gain_percent(current2, entry2),
{
    crate::binary64::law_differences_are_doubled(current, entry, current2, entry2, times);
    crate::binary64::law_doubled_numbers_have_one_quotient(
        current.minus(entry),
        entry,
        current2.minus(entry2),
        entry2,
        times,
    );
}

/// A higher price never shows a lower gain.
pub proof fn law_gain_rises_with_the_price(low: Binary64, high: Binary64, entry: Binary64)
    requires
        low.le(high),
        entry.is_finite(),
        Binary64::from_u64(0).lt(entry),
        low.minus(entry).is_finite(),
        high.minus(entry).is_finite(),
        low.minus(entry).over(entry).is_finite(),
        high.minus(entry).over(entry).is_finite(),
    ensures
        gain_percent(low, entry).le(gain_percent(high, entry)),
{
    lemma_finite_sum_has_finite_parts(low, entry.negated());
    lemma_finite_sum_has_finite_parts(high, entry.negated());
    lemma_sums_keep_both_orders(low, high, entry.negated(), entry.negated());
    crate::binary64::law_quotients_keep_order(low.minus(entry), high.minus(entry), entry);
    crate::binary64::law_whole_numbers_are_exact(100);
    crate::binary64::law_products_keep_order(
        low.minus(entry).over(entry),
        high.minus(entry).over(entry),
        Binary64::from_u64(100),
    );
}

/// Minutes are counted in full: a position has been held for so many exactly from when they have
/// passed.
pub proof fn law_minutes_held_are_full(since: Timestamp, now: Timestamp, minutes: u64)
    requires
        0 < minutes,
    ensures
        held_minutes(since, now) >= minutes <==> now.nanos - since.nanos >= minutes
            * 60_000_000_000,
{
    let d = now.nanos - since.nanos;
    assert(d >= 0 ==> (d / 60_000_000_000 >= minutes <==> d >= minutes * 60_000_000_000))
        by (nonlinear_arith)
        requires
            minutes > 0,
    ;
    assert(d >= 0 ==> d / 60_000_000_000 <= d);
    assert(d <= 2 * 0x7FFF_FFFF_FFFF_FFFF + 1);
    assert(d < 0 ==> (-d) / 60_000_000_000 >= 0);
    assert(d >= 0 ==> d / 60_000_000_000 <= 0x7FFF_FFFF_FFFF_FFFF);
    assert(d < 0 ==> -(-d) / 60_000_000_000 >= -0x8000_0000_0000_0000);
    assert(minutes * 60_000_000_000 > 0);
}

/// A position that has been held for the longest time is left, unless a tier is crossed and the
/// position gains.
pub proof fn law_time_exit_holds(s: Standing, levels: ExitLevels, tiers: Seq<Tier>)
    requires
        levels.strategies.time_exit_enabled,
        levels.strategies.max_hold_minutes > 0,
        s.now.nanos - s.held_since.nanos >= levels.strategies.max_hold_minutes * 60_000_000_000,
        gain_percent(s.current, s.entry).le(Binary64::from_u64(0)) || forall|j: int|
            0 <= j < tiers.len() ==> s.peak.lt((#[trigger] tiers[j]).0),
    ensures
        exit_reason(s, levels, tiers) is Some,
{
    law_minutes_held_are_full(s.held_since, s.now, levels.strategies.max_hold_minutes);
    lemma_active_tier(tiers, s.peak);
}

/// A position whose venue holds less than the least SOL is left.
pub proof fn law_liquidity_exit_holds(s: Standing, levels: ExitLevels, tiers: Seq<Tier>)
    requires
        levels.strategies.liquidity_exit_enabled,
        Binary64::from_u64(0).lt(levels.strategies.min_liquidity_sol),
        s.liquidity.lt(levels.strategies.min_liquidity_sol),
    ensures
        exit_reason(s, levels, tiers) is Some,
{
}

/// How fast the price fell between two prices, in percent a minute.
pub open spec fn fall_rate(first: PricePoint, last: PricePoint) -> Binary64 {
    fall_percent(last.1, first.1).over(
        Binary64::from_i64(last.0.millis_since(first.0)).over(Binary64::from_u64(60_000)),
    )
}

/// A position is left for its velocity exactly where that is switched on and no other exit
/// applies, and from the first to the last price of the last thirty seconds it fell at the
/// highest rate or faster. Older prices do not count.
pub proof fn law_velocity_is_that_of_the_last_half_minute(
    s: Standing,
    levels: ExitLevels,
    tiers: Seq<Tier>,
)
    ensures
        ({
            let x = levels.strategies;
            let young = s.history.filter(|p: PricePoint| seen_lately(p, s.now, 30));
            let falls = x.velocity_exit_enabled && Binary64::from_u64(0).lt(
                x.max_decline_rate_per_min,
            ) && young.len() >= 2 && Binary64::from_u64(0).lt(young.first().1)
                && Binary64::from_u64(0).lt(
                Binary64::from_i64(young.last().0.millis_since(young.first().0)).over(
                    Binary64::from_u64(60_000),
                ),
            ) && x.max_decline_rate_per_min.le(fall_rate(young.first(), young.last()));
            let reason = exit_reason(s, levels, tiers);
            &&& falls ==> reason is Some
            &&& reason is Some && reason->0 is VelocityExit ==> falls
            &&& falls <==> velocity_exit(s, x) is Some
        }),
{
    law_recent_prices_are_the_young_ones(s.history, s.now, 30);
}

/// Whether a reason for leaving a position holds of it.
pub open spec fn justified(
    reason: Reason,
    s: Standing,
    levels: ExitLevels,
    tiers: Seq<Tier>,
) -> bool {
    let gain = gain_percent(s.current, s.entry);
    let x = levels.strategies;
    match reason {
        Reason::MomentumReversal { price, pnl, .. } => {
            &&& x.momentum_reversal_enabled
            &&& price == s.current
            &&& pnl == gain
            &&& gain.lt(x.momentum_reversal_min_loss_pct.negated())
        },
        Reason::StopLoss { loss } => {
            &&& gain.le(levels.stop_loss_percent.negated())
            &&& loss.opposite(gain)
        },
        Reason::TrailingStop { peak, threshold, trail, pnl, exit_at } => {
            &&& tiers.contains((threshold, trail))
            &&& threshold.le(s.peak)
            &&& forall|j: int|
                0 <= j < tiers.len() && (#[trigger] tiers[j]).0.le(s.peak) && crate::config::rising(
                    tiers,
                ) ==> tiers[j].0.le(threshold)
            &&& peak == s.peak
            &&& pnl == gain
            &&& exit_at == s.peak.minus(trail)
            &&& gain.le(s.peak.minus(trail))
        },
        Reason::ProfitTarget { pnl } => {
            &&& tiers.len() == 0
            &&& pnl == gain
            &&& levels.profit_target_percent.le(gain)
        },
        Reason::TimeExit { minutes, max_minutes } => {
            &&& x.time_exit_enabled
            &&& max_minutes == x.max_hold_minutes
            &&& 0 < max_minutes <= minutes
            &&& s.now.nanos - s.held_since.nanos >= minutes * 60_000_000_000
            &&& s.now.nanos - s.held_since.nanos < (minutes + 1) * 60_000_000_000
            &&& !Binary64::from_u64(0).lt(gain) || forall|j: int|
                0 <= j < tiers.len() ==> !(#[trigger] tiers[j]).0.le(s.peak)
        },
        Reason::LiquidityExit { liquidity, min_liquidity } => {
            &&& x.liquidity_exit_enabled
            &&& liquidity == s.liquidity
            &&& min_liquidity == x.min_liquidity_sol
            &&& liquidity.lt(min_liquidity)
        },
        Reason::VelocityExit { max_rate, rate, .. } => {
            &&& x.velocity_exit_enabled
            &&& max_rate == x.max_decline_rate_per_min
            &&& Binary64::from_u64(0).lt(max_rate)
            &&& max_rate.le(rate)
        },
        _ => false,
    }
}

/// No position is left without a reason that holds of it: each exit tells what the position, its
/// prices and the levels show.
pub proof fn law_exits_are_justified(s: Standing, levels: ExitLevels, tiers: Seq<Tier>)
    ensures
        exit_reason(s, levels, tiers) matches Some(reason) ==> justified(reason, s, levels, tiers),
{
    let gain = gain_percent(s.current, s.entry);
    crate::binary64::law_differences_are_opposite(s.current, s.entry);
    crate::binary64::law_quotients_of_opposites(
        s.current.minus(s.entry),
        s.entry.minus(s.current),
        s.entry,
    );
    crate::binary64::law_products_of_opposites(
        s.current.minus(s.entry).over(s.entry),
        s.entry.minus(s.current).over(s.entry),
        Binary64::from_u64(100),
    );
    law_stop_loss_is_a_gain_bound(s.current, s.entry, levels.stop_loss_percent);
    lemma_active_tier(tiers, s.peak);
    if crate::config::rising(tiers) {
        law_highest_crossed_tier_wins(tiers, s.peak);
    }
    let held = held_minutes(s.held_since, s.now);
    if held > 0 {
        law_minutes_held_are_full(s.held_since, s.now, held);
        if held < u64::MAX {
            law_minutes_held_are_full(s.held_since, s.now, (held + 1) as u64);
        }
    }
}

/// The exits have an order: momentum reversal, then the stop loss, then trailing stop or profit
/// target, then time, liquidity and velocity.
pub proof fn law_exits_are_asked_in_order(s: Standing, levels: ExitLevels, tiers: Seq<Tier>)
    ensures
        ({
            let reason = exit_reason(s, levels, tiers);
            let stops = gain_percent(s.current, s.entry).le(levels.stop_loss_percent.negated());
            &&& reason is Some && stops ==> reason->0 is MomentumReversal || reason->0 is StopLoss
            &&& reason is Some && (reason->0 is LiquidityExit || reason->0 is VelocityExit)
                ==> time_exit(s, levels.strategies, tiers) is None
            &&& reason is Some && reason->0 is VelocityExit ==> liquidity_exit(
                s,
                levels.strategies,
            ) is None
            &&& reason is Some && (reason->0 is TimeExit || reason->0 is LiquidityExit
                || reason->0 is VelocityExit) ==> price_exit(s, levels, tiers) is None
        }),
{
    law_stop_loss_is_a_gain_bound(s.current, s.entry, levels.stop_loss_percent);
}

/// A history keeps the newest prices: a new one comes last, those before it keep their order, and
/// only the oldest goes where there would be too many.
pub proof fn law_history_keeps_the_newest(history: Seq<PricePoint>, point: PricePoint)
    requires
        history.len() <= 1200,
    ensures
        with_price(history, point).len() == (if history.len() < 1200 {
            history.len() + 1
        } else {
            1200
        }),
        forall|i: int|
            0 <= i < with_price(history, point).len() ==> #[trigger] with_price(history, point)[i]
                == history.push(point)[history.len() + 1 - with_price(history, point).len() + i],
{
}

} // verus!
