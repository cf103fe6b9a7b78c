//! The watchlist of new tokens.
use crate::binary64::Binary64;
use crate::clock::Instant;
use crate::config::NewTokenFilters;
use crate::keyed::Keyed;
use crate::pumpportal::{MigrationEvent, MigrationView, TokenInfo, TokenInfoView};
use vstd::prelude::*;

verus! {

/// Seconds between two requests for the market figures of a token.
pub const ENRICHMENT_SECONDS: u64 = 30;

/// Seconds after which a token without market figures goes on with those of its bonding curve.
pub const FALLBACK_SECONDS: u64 = 15;

/// A token that is watched.
#[derive(Debug)]
pub struct WatchlistEntry {
    pub added_at: Instant,
    /// The highest price seen on the bonding curve.
    pub peak_price_sol: Binary64,
    /// The last price seen on the bonding curve.
    pub last_price_sol: Binary64,
    pub last_poll: Instant,
    pub enriched: Option<TokenInfo>,
    pub last_enrichment: Option<Instant>,
    /// Whether the token was handed on to the strategies.
    pub signal_sent: bool,
}

#[verifier::ext_equal]
pub struct EntryView {
    pub added_at: Instant,
    pub peak_price_sol: Binary64,
    pub last_price_sol: Binary64,
    pub last_poll: Instant,
    pub enriched: Option<TokenInfoView>,
    pub last_enrichment: Option<Instant>,
    pub signal_sent: bool,
}

pub open spec fn info_view(info: Option<TokenInfo>) -> Option<TokenInfoView> {
    match info {
        Some(t) => Some(t@),
        None => None,
    }
}

impl View for WatchlistEntry {
    type V = EntryView;

    open spec fn view(&self) -> EntryView {
        EntryView {
            added_at: self.added_at,
            peak_price_sol: self.peak_price_sol,
            last_price_sol: self.last_price_sol,
            last_poll: self.last_poll,
            enriched: info_view(self.enriched),
            last_enrichment: self.last_enrichment,
            signal_sent: self.signal_sent,
        }
    }
}

pub open spec fn entry_views(entries: Map<Seq<char>, WatchlistEntry>) -> Map<Seq<char>, EntryView> {
    entries.map_values(|e: WatchlistEntry| e@)
}

/// A token as it comes onto the watchlist.
pub open spec fn fresh_entry(now: Instant) -> EntryView {
    EntryView {
        added_at: now,
        peak_price_sol: Binary64::from_u64(0),
        last_price_sol: Binary64::from_u64(0),
        last_poll: now,
        enriched: None,
        last_enrichment: None,
        signal_sent: false,
    }
}

/// No token has been watched for longer.
pub open spec fn is_oldest(entries: Map<Seq<char>, EntryView>, key: Seq<char>) -> bool {
    &&& entries.dom().contains(key)
    &&& forall|other: Seq<char>| #[trigger]
        entries.dom().contains(other) ==> entries[key].added_at.nanos
            <= entries[other].added_at.nanos
}

/// The watchlist after a token was taken on: where it was full, its oldest token has gone.
pub open spec fn taken_on(
    before: Map<Seq<char>, EntryView>,
    after: Map<Seq<char>, EntryView>,
    cap: usize,
    mint: Seq<char>,
    now: Instant,
) -> bool {
    if before.dom().len() >= cap && before.dom().len() > 0 {
        exists|oldest: Seq<char>|
            #[trigger] is_oldest(before, oldest) && after == before.remove(oldest).insert(
                mint,
                fresh_entry(now),
            )
    } else {
        after == before.insert(mint, fresh_entry(now))
    }
}

/// Whether a new token is taken on: one that is too small or watched already is not.
pub open spec fn takes_on(m: MonitorView, mint: Seq<char>, market_cap_sol: Binary64) -> bool {
    !market_cap_sol.lt(m.filters.min_initial_market_cap_sol) && !m.watchlist.dom().contains(mint)
}

/// The market figures that are kept of a token are its own.
pub open spec fn well_named(watchlist: Map<Seq<char>, EntryView>) -> bool {
    forall|k: Seq<char>| #[trigger]
        watchlist.dom().contains(k) && watchlist[k].enriched is Some
            ==> watchlist[k].enriched->0.address == k
}

/// Whether a token has been watched for as long as tokens are.
pub open spec fn expired(e: EntryView, filters: NewTokenFilters, now: Instant) -> bool {
    now.elapsed_minutes(e.added_at, filters.monitor_duration_minutes)
}

/// Whether the price of a token is to be read: in shorter intervals at first, in longer ones
/// later.
pub open spec fn poll_due(e: EntryView, filters: NewTokenFilters, now: Instant) -> bool {
    !e.signal_sent && now.elapsed_at_least(
        e.last_poll,
        if now.elapsed_minutes(e.added_at, filters.reduced_poll_after_minutes) {
            filters.reduced_poll_interval_secs
        } else {
            filters.poll_interval_secs
        },
    )
}

/// The watchlist without the tokens that have been watched long enough.
pub open spec fn unexpired(
    entries: Map<Seq<char>, EntryView>,
    filters: NewTokenFilters,
    now: Instant,
) -> Map<Seq<char>, EntryView> {
    entries.restrict(
        Set::new(
            |k: Seq<char>| entries.dom().contains(k) && !expired(entries[k], filters, now),
        ),
    )
}

/// The price that a list gives for a token; of several the last one counts.
pub open spec fn price_for(prices: Seq<(Seq<char>, Binary64)>, mint: Seq<char>) -> Option<Binary64>
    decreases prices.len(),
{
    if prices.len() == 0 {
        None
    } else if prices.last().0 == mint {
        Some(prices.last().1)
    } else {
        price_for(prices.drop_last(), mint)
    }
}

/// Whether a token seems to have graduated: it had a price on its bonding curve, and has none any
/// more.
pub open spec fn has_graduated(e: EntryView, price: Option<Binary64>) -> bool {
    Binary64::from_u64(0).lt(e.last_price_sol) && price is None
}

/// A token after its price was read.
pub open spec fn polled_entry(e: EntryView, price: Option<Binary64>, now: Instant) -> EntryView {
    match price {
        Some(p) => EntryView {
            last_poll: now,
            last_price_sol: p,
            peak_price_sol: if e.peak_price_sol.lt(p) {
                p
            } else {
                e.peak_price_sol
            },
            ..e
        },
        None => EntryView { last_poll: now, ..e },
    }
}

/// Whether a price has fallen so far from the peak that the token is dead.
pub open spec fn is_rug(peak: Binary64, price: Binary64, drop_percent: Binary64) -> bool {
    Binary64::from_u64(0).lt(peak) && drop_percent.over(Binary64::from_u64(100)).le(
        peak.minus(price).over(peak),
    )
}

/// Whether a token is dropped after its price was read.
pub open spec fn dropped(
    e: EntryView,
    price: Option<Binary64>,
    now: Instant,
    filters: NewTokenFilters,
    forwards: bool,
) -> bool {
    ||| forwards && has_graduated(e, price)
    ||| price is Some && is_rug(
        polled_entry(e, price, now).peak_price_sol,
        price->0,
        filters.rug_drop_percent,
    )
}

/// The watchlist after prices were read of the polled tokens.
pub open spec fn polled_watchlist(
    m: MonitorView,
    polled: Seq<Seq<char>>,
    prices: Seq<(Seq<char>, Binary64)>,
    now: Instant,
) -> Map<Seq<char>, EntryView> {
    Map::new(
        |k: Seq<char>|
            m.watchlist.dom().contains(k) && !(polled.contains(k) && dropped(
                m.watchlist[k],
                price_for(prices, k),
                now,
                m.filters,
                m.forwards,
            )),
        |k: Seq<char>|
            if polled.contains(k) {
                polled_entry(m.watchlist[k], price_for(prices, k), now)
            } else {
                m.watchlist[k]
            },
    )
}

/// The polled tokens that seem to have graduated.
pub open spec fn graduates(
    watchlist: Map<Seq<char>, EntryView>,
    polled: Seq<Seq<char>>,
    prices: Seq<(Seq<char>, Binary64)>,
) -> Seq<Seq<char>>
    decreases polled.len(),
{
    if polled.len() == 0 {
        Seq::empty()
    } else {
        let before = graduates(watchlist, polled.drop_last(), prices);
        let mint = polled.last();
        if watchlist.dom().contains(mint) && has_graduated(
            watchlist[mint],
            price_for(prices, mint),
        ) {
            before.push(mint)
        } else {
            before
        }
    }
}

/// The graduation that the watchlist tells of.
pub open spec fn transition_event(mint: Seq<char>) -> MigrationView {
    MigrationView {
        mint,
        tx_type: "watchlist_transition"@,
        signature: Seq::empty(),
        pool: Seq::empty(),
    }
}

pub open spec fn event_views(events: Seq<MigrationEvent>) -> Seq<MigrationView> {
    events.map_values(|e: MigrationEvent| e@)
}

/// Whether the market figures of a token are to be asked for.
pub open spec fn enrichment_due(e: EntryView, now: Instant) -> bool {
    !e.signal_sent && Binary64::from_u64(0).lt(e.last_price_sol) && match e.last_enrichment {
        Some(last) => now.elapsed_at_least(last, ENRICHMENT_SECONDS),
        None => true,
    }
}

/// The watchlist with the market figures that came in; tokens that are not watched are passed
/// over.
pub open spec fn with_figures(
    watchlist: Map<Seq<char>, EntryView>,
    tokens: Seq<TokenInfoView>,
    now: Instant,
) -> Map<Seq<char>, EntryView>
    decreases tokens.len(),
{
    if tokens.len() == 0 {
        watchlist
    } else {
        let before = with_figures(watchlist, tokens.drop_last(), now);
        let token = tokens.last();
        if before.dom().contains(token.address) {
            before.insert(
                token.address,
                EntryView {
                    enriched: Some(token),
                    last_enrichment: Some(now),
                    ..before[token.address]
                },
            )
        } else {
            before
        }
    }
}

/// The watchlist after market figures were asked for: what came in, and that it was asked.
pub open spec fn after_request(
    watchlist: Map<Seq<char>, EntryView>,
    requested: Seq<Seq<char>>,
    tokens: Seq<TokenInfoView>,
    now: Instant,
) -> Map<Seq<char>, EntryView> {
    let filled = with_figures(watchlist, tokens, now);
    Map::new(
        |k: Seq<char>| filled.dom().contains(k),
        |k: Seq<char>|
            if requested.contains(k) {
                EntryView { last_enrichment: Some(now), ..filled[k] }
            } else {
                filled[k]
            },
    )
}

/// The market figures that a price on the bonding curve stands for: a thousand million tokens, a
/// SOL at 185 dollars, and a liquidity of three tenths of the market capitalisation.
pub open spec fn synthesized(mint: Seq<char>, price: Binary64, created_at: Seq<char>) -> TokenInfoView {
    let usd = price.times(Binary64::from_u64(1_000_000_000)).times(Binary64::from_u64(185));
    let market_cap = usd.to_u64();
    let liquidity = usd.times(Binary64::ratio(3, 10)).to_u64();
    TokenInfoView {
        address: mint,
        symbol: crate::text::abbreviation(mint),
        name: "BONDING_CURVE"@,
        decimals: 6,
        market_cap: if market_cap < 1 {
            1
        } else {
            market_cap
        },
        holders: 100,
        age_hours: 0,
        liquidity: if liquidity < 1 {
            1
        } else {
            liquidity
        },
        price_usd: price,
        price_change_24h: Binary64::from_u64(0),
        volume_24h: 0,
        created_at,
        just_graduated_at_secs: None,
    }
}

/// Whether a token meets the filters; a threshold of zero is none.
pub open spec fn meets(f: NewTokenFilters, token: TokenInfoView) -> bool {
    &&& f.min_market_cap > 0 ==> token.market_cap >= f.min_market_cap
    &&& f.max_market_cap > 0 ==> token.market_cap <= f.max_market_cap
    &&& f.min_holders > 0 ==> token.holders >= f.min_holders
    &&& f.min_liquidity > 0 ==> token.liquidity >= f.min_liquidity
    &&& f.min_volume_24h > 0 ==> token.volume_24h >= f.min_volume_24h
}

/// Whether a token can be handed on: it has a price, and either market figures or enough age to
/// go on without.
pub open spec fn is_candidate(e: EntryView, now: Instant) -> bool {
    !e.signal_sent && !e.last_price_sol.eq_number(Binary64::from_u64(0)) && (e.enriched is Some
        || now.elapsed_at_least(e.added_at, FALLBACK_SECONDS))
}

/// What a token is handed on as.
pub open spec fn handed_on(mint: Seq<char>, e: EntryView, created_at: Seq<char>) -> TokenInfoView {
    match e.enriched {
        Some(token) => token,
        None => synthesized(mint, e.last_price_sol, created_at),
    }
}

/// Whether a token is handed on.
pub open spec fn is_ready(
    m: MonitorView,
    mint: Seq<char>,
    now: Instant,
    created_at: Seq<char>,
) -> bool {
    &&& m.watchlist.dom().contains(mint)
    &&& is_candidate(m.watchlist[mint], now)
    &&& meets(m.filters, handed_on(mint, m.watchlist[mint], created_at))
}

/// The name of every token that is handed on without market figures can be abbreviated.
pub open spec fn names_hold(m: MonitorView, now: Instant) -> bool {
    forall|k: Seq<char>| #[trigger]
        m.watchlist.dom().contains(k) && is_candidate(m.watchlist[k], now)
            && m.watchlist[k].enriched is None ==> crate::text::can_abbreviate(k)
}

/// The watchlist with the tokens marked that were handed on.
pub open spec fn marked(m: MonitorView, now: Instant, created_at: Seq<char>) -> Map<
    Seq<char>,
    EntryView,
> {
    Map::new(
        |k: Seq<char>| m.watchlist.dom().contains(k),
        |k: Seq<char>|
            if is_ready(m, k, now, created_at) {
                EntryView { signal_sent: true, ..m.watchlist[k] }
            } else {
                m.watchlist[k]
            },
    )
}

/// The tokens are those of the keys, in their order.
pub open spec fn tokens_of(
    m: MonitorView,
    keys: Seq<Seq<char>>,
    created_at: Seq<char>,
) -> Seq<TokenInfoView> {
    keys.map_values(|k: Seq<char>| handed_on(k, m.watchlist[k], created_at))
}

/// Watches new tokens until they are handed on, die, graduate or have been watched long enough.
pub struct NewTokenMonitor {
    watchlist: Keyed<WatchlistEntry>,
    filters: NewTokenFilters,
    forwards: bool,
}

#[verifier::ext_equal]
pub struct MonitorView {
    pub watchlist: Map<Seq<char>, EntryView>,
    pub filters: NewTokenFilters,
    /// Whether graduations are told of.
    pub forwards: bool,
}

impl View for NewTokenMonitor {
    type V = MonitorView;

    closed spec fn view(&self) -> MonitorView {
        MonitorView {
            watchlist: entry_views(self.watchlist@),
            filters: self.filters,
            forwards: self.forwards,
        }
    }
}

/// Builds the market figures that a price on the bonding curve stands for.
pub fn synthesize_from_bonding_curve(mint: &str, last_price_sol: Binary64, created_at: &str) -> (r:
    TokenInfo)
    requires
        crate::text::can_abbreviate(mint@),
    ensures
        r@ == synthesized(mint@, last_price_sol, created_at@),
{
    let usd = last_price_sol.times(Binary64::from_u64(1_000_000_000)).times(
        Binary64::from_u64(185),
    );
    let market_cap: u64 = usd.to_u64();
    let liquidity: u64 = usd.times(Binary64::ratio(3, 10)).to_u64();
    TokenInfo {
        address: mint.to_owned(),
        symbol: crate::text::abbreviate(mint),
        name: "BONDING_CURVE".to_owned(),
        decimals: 6,
        market_cap: if market_cap < 1 {
            1
        } else {
            market_cap
        },
        holders: 100,
        age_hours: 0,
        liquidity: if liquidity < 1 {
            1
        } else {
            liquidity
        },
        price_usd: last_price_sol,
        price_change_24h: Binary64::from_u64(0),
        volume_24h: 0,
        created_at: created_at.to_owned(),
        just_graduated_at_secs: None,
    }
}

fn find_price(prices: &Vec<(String, Binary64)>, mint: &str) -> (r: Option<Binary64>)
    ensures
        r == price_for(crate::pricing::price_views(prices@), mint@),
{
    let ghost all = crate::pricing::price_views(prices@);
    let mut k: usize = prices.len();
    assert(all.take(k as int) =~= all);
    while k > 0
        invariant
            k <= prices@.len(),
            all == crate::pricing::price_views(prices@),
            price_for(all, mint@) == price_for(all.take(k as int), mint@),
        decreases k,
    {
        assert(all.take(k as int).drop_last() =~= all.take(k - 1));
        assert(all.take(k as int).last() == (prices@[k - 1].0@, prices@[k - 1].1));
        if crate::text::same_text(prices[k - 1].0.as_str(), mint) {
            return Some(prices[k - 1].1);
        }
        k = k - 1;
    }
    None
}

impl WatchlistEntry {
    fn is_expired(&self, filters: &NewTokenFilters, now: Instant) -> (r: bool)
        ensures
            r == expired(self@, *filters, now),
    {
        now.elapsed_minutes(self.added_at, filters.monitor_duration_minutes)
    }

    fn needs_poll(&self, filters: &NewTokenFilters, now: Instant) -> (r: bool)
        ensures
            r == poll_due(self@, *filters, now),
    {
        if self.signal_sent {
            return false;
        }
        let interval: u64 = if now.elapsed_minutes(
            self.added_at,
            filters.reduced_poll_after_minutes,
        ) {
            filters.reduced_poll_interval_secs
        } else {
            filters.poll_interval_secs
        };
        now.elapsed_at_least(self.last_poll, interval)
    }

    fn needs_figures(&self, now: Instant) -> (r: bool)
        ensures
            r == enrichment_due(self@, now),
    {
        !self.signal_sent && Binary64::from_u64(0).lt(self.last_price_sol)
            && match self.last_enrichment {
            Some(last) => now.elapsed_at_least(last, ENRICHMENT_SECONDS),
            None => true,
        }
    }

    fn can_go_on(&self, now: Instant) -> (r: bool)
        ensures
            r == is_candidate(self@, now),
    {
        if self.signal_sent || self.last_price_sol.eq_number(Binary64::from_u64(0)) {
            return false;
        }
        self.enriched.is_some() || now.elapsed_at_least(self.added_at, FALLBACK_SECONDS)
    }

    fn graduated(&self, price: Option<Binary64>) -> (r: bool)
        ensures
            r == has_graduated(self@, price),
    {
        Binary64::from_u64(0).lt(self.last_price_sol) && price.is_none()
    }

    /// Takes in a price. Says whether the token is to be dropped.
    fn poll(
        &mut self,
        price: Option<Binary64>,
        now: Instant,
        filters: &NewTokenFilters,
        forwards: bool,
    ) -> (r: bool)
        ensures
            final(self)@ == polled_entry(old(self)@, price, now),
            r == dropped(old(self)@, price, now, *filters, forwards),
    {
        let graduated: bool = forwards && self.graduated(price);
        self.last_poll = now;
        match price {
            Some(p) => {
                self.last_price_sol = p;
                if self.peak_price_sol.lt(p) {
                    self.peak_price_sol = p;
                }
                let peak = self.peak_price_sol;
                let threshold = filters.rug_drop_percent.over(Binary64::from_u64(100));
                let rug: bool = Binary64::from_u64(0).lt(peak) && threshold.le(
                    peak.minus(p).over(peak),
                );
                graduated || rug
            },
            None => graduated,
        }
    }
}

impl NewTokenMonitor {
    pub fn new(filters: NewTokenFilters) -> (r: Self)
        ensures
            r@ == (MonitorView { watchlist: Map::empty(), filters, forwards: false }),
            well_named(r@.watchlist),
    {
        let r = NewTokenMonitor { watchlist: Keyed::new(), filters, forwards: false };
        assert(r@.watchlist =~= Map::<Seq<char>, EntryView>::empty());
        r
    }

    /// Has graduations told of from now on.
    pub fn set_migration_tx(&mut self)
        ensures
            final(self)@ == (MonitorView { forwards: true, ..old(self)@ }),
            leads_to(old(self)@, WatchStep::Forward, final(self)@),
            well_named(old(self)@.watchlist) ==> well_named(final(self)@.watchlist),
    {
        self.forwards = true;
    }

    pub fn watchlist_len(&self) -> (r: usize)
        ensures
            r == self@.watchlist.dom().len(),
            self@.watchlist.dom().finite(),
    {
        assert(self@.watchlist.dom() =~= self.watchlist@.dom());
        self.watchlist.len()
    }

    fn put(&mut self, mint: &str, entry: WatchlistEntry)
        ensures
            final(self)@ == (MonitorView {
                watchlist: old(self)@.watchlist.insert(mint@, entry@),
                ..old(self)@
            }),
    {
        self.watchlist.insert(mint.to_owned(), entry);
        assert(self@.watchlist =~= old(self)@.watchlist.insert(mint@, entry@));
    }

    fn take(&mut self, mint: &str) -> (r: Option<WatchlistEntry>)
        ensures
            final(self)@ == (MonitorView {
                watchlist: old(self)@.watchlist.remove(mint@),
                ..old(self)@
            }),
            match r {
                Some(e) => old(self)@.watchlist.dom().contains(mint@) && e@
                    == old(self)@.watchlist[mint@],
                None => !old(self)@.watchlist.dom().contains(mint@),
            },
    {
        let r = self.watchlist.remove(mint);
        assert(self@.watchlist =~= old(self)@.watchlist.remove(mint@));
        r
    }

    fn keys(&self) -> (r: Vec<String>)
        ensures
            crate::text::texts(r@).no_duplicates(),
            crate::text::texts(r@).to_set() == self@.watchlist.dom(),
            r@.len() == self@.watchlist.dom().len(),
    {
        assert(self@.watchlist.dom() =~= self.watchlist@.dom());
        self.watchlist.keys()
    }

    /// A token that has been watched for as long as any other.
    fn oldest(&self) -> (r: Option<String>)
        ensures
            match r {
                Some(key) => is_oldest(self@.watchlist, key@),
                None => self@.watchlist.dom().len() == 0,
            },
    {
        let keys: Vec<String> = self.keys();
        let ghost names = crate::text::texts(keys@);
        let mut best: Option<usize> = None;
        let mut best_added: u64 = 0;
        let mut i: usize = 0;
        while i < keys.len()
            invariant
                i <= keys@.len(),
                names == crate::text::texts(keys@),
                names.to_set() == self@.watchlist.dom(),
                i > 0 ==> best is Some,
                best matches Some(b) ==> {
                    &&& b < i
                    &&& self@.watchlist.dom().contains(names[b as int])
                    &&& self@.watchlist[names[b as int]].added_at.nanos == best_added
                    &&& forall|j: int|
                        0 <= j < i ==> best_added <= self@.watchlist[#[trigger] names[j]].added_at.nanos
                },
            decreases keys@.len() - i,
        {
            assert(names[i as int] == keys@[i as int]@);
            assert(names.to_set().contains(names[i as int]));
            if let Some(entry) = self.watchlist.get(keys[i].as_str()) {
                assert(entry@ == self@.watchlist[names[i as int]]);
                let added: u64 = entry.added_at.nanos;
                if best.is_none() || added < best_added {
                    best = Some(i);
                    best_added = added;
                }
            }
            i = i + 1;
        }
        match best {
            Some(b) => {
                assert forall|other: Seq<char>| #[trigger]
                    self@.watchlist.dom().contains(
                        other,
                    ) implies self@.watchlist[names[b as int]].added_at.nanos
                    <= self@.watchlist[other].added_at.nanos by {
                    assert(names.to_set().contains(other));
                    let j = choose|j: int| 0 <= j < names.len() && names[j] == other;
                    assert(names[j] == other);
                }
                Some(keys[b].clone())
            },
            None => None,
        }
    }

    /// Takes a new token on. Says whether it did: a token that is too small or watched already
    /// is not taken on.
    pub fn add_token(
        &mut self,
        mint: String,
        _bonding_curve_key: String,
        market_cap_sol: Binary64,
        now: Instant,
    ) -> (r: bool)
        ensures
            r == takes_on(old(self)@, mint@, market_cap_sol),
            !r ==> final(self)@ == old(self)@,
            r ==> taken_on(
                old(self)@.watchlist,
                final(self)@.watchlist,
                old(self)@.filters.watchlist_cap,
                mint@,
                now,
            ) && final(self)@.filters == old(self)@.filters && final(self)@.forwards == old(
                self,
            )@.forwards,
            leads_to(
                old(self)@,
                (WatchStep::Add { mint: mint@, market_cap_sol, now }),
                final(self)@,
            ),
            well_named(old(self)@.watchlist) ==> well_named(final(self)@.watchlist),
    {
        if market_cap_sol.lt(self.filters.min_initial_market_cap_sol) {
            return false;
        }
        if self.watchlist.contains_key(mint.as_str()) {
            return false;
        }
        let ghost before = self@.watchlist;
        let len: usize = self.watchlist_len();
        if len >= self.filters.watchlist_cap {
            if let Some(oldest) = self.oldest() {
                assert(is_oldest(before, oldest@));
                proof {
                    if before.dom().len() == 0 {
                        assert(before.dom() =~= Set::empty());
                    }
                }
                let _ = self.take(oldest.as_str());
            }
        }
        let entry = WatchlistEntry {
            added_at: now,
            peak_price_sol: Binary64::from_u64(0),
            last_price_sol: Binary64::from_u64(0),
            last_poll: now,
            enriched: None,
            last_enrichment: None,
            signal_sent: false,
        };
        self.put(mint.as_str(), entry);
        proof {
            if well_named(before) {
                let step = WatchStep::Add { mint: mint@, market_cap_sol, now };
                law_figures_stay_with_their_token(old(self)@, step, self@);
            }
        }
        true
    }

    pub fn passes_filters(&self, token: &TokenInfo) -> (r: bool)
        ensures
            r == meets(self@.filters, token@),
    {
        let f: &NewTokenFilters = &self.filters;
        if f.min_market_cap > 0 && token.market_cap < f.min_market_cap {
            return false;
        }
        if f.max_market_cap > 0 && token.market_cap > f.max_market_cap {
            return false;
        }
        if f.min_holders > 0 && token.holders < f.min_holders {
            return false;
        }
        if f.min_liquidity > 0 && token.liquidity < f.min_liquidity {
            return false;
        }
        if f.min_volume_24h > 0 && token.volume_24h < f.min_volume_24h {
            return false;
        }
        true
    }
}

/// The texts are the keys that meet the condition, each once.
pub open spec fn lists_keys(
    texts: Seq<Seq<char>>,
    entries: Map<Seq<char>, EntryView>,
    condition: spec_fn(EntryView) -> bool,
) -> bool {
    &&& texts.no_duplicates()
    &&& forall|k: Seq<char>| #[trigger]
        texts.contains(k) <==> entries.dom().contains(k) && condition(entries[k])
}

proof fn lemma_push_contains(s: Seq<Seq<char>>, x: Seq<char>, k: Seq<char>)
    ensures
        s.push(x).contains(k) <==> s.contains(k) || k == x,
        s.no_duplicates() && !s.contains(x) ==> s.push(x).no_duplicates(),
{
    if s.contains(k) {
        let i = choose|i: int| 0 <= i < s.len() && s[i] == k;
        assert(s.push(x)[i] == k);
    }
    assert(s.push(x)[s.len() as int] == x);
    if s.push(x).contains(k) && k != x {
        let i = choose|i: int| 0 <= i < s.push(x).len() && s.push(x)[i] == k;
        assert(s[i] == k);
    }
}

proof fn lemma_take_contains(s: Seq<Seq<char>>, i: int, k: Seq<char>)
    requires
        0 <= i < s.len(),
    ensures
        s.take(i + 1).contains(k) <==> s.take(i).contains(k) || k == s[i],
        s.no_duplicates() ==> !s.take(i).contains(s[i]),
        s.take(s.len() as int) == s,
{
    assert(s.take(i + 1) =~= s.take(i).push(s[i]));
    lemma_push_contains(s.take(i), s[i], k);
    assert(s.take(s.len() as int) =~= s);
    if s.no_duplicates() && s.take(i).contains(s[i]) {
        let j = choose|j: int| 0 <= j < i && s.take(i)[j] == s[i];
        assert(s[j] == s[i]);
    }
}

/// The mint of each event, as an event.
pub open spec fn transition_events(mints: Seq<Seq<char>>) -> Seq<MigrationView> {
    mints.map_values(|mint: Seq<char>| transition_event(mint))
}

impl NewTokenMonitor {
    /// Begins a round: drops the tokens that have been watched long enough, and gives those
    /// whose price is to be read. Where there are none, the round is over.
    pub fn tick(&mut self, now: Instant) -> (r: Vec<String>)
        ensures
            final(self)@ == (MonitorView {
                watchlist: unexpired(old(self)@.watchlist, old(self)@.filters, now),
                ..old(self)@
            }),
            lists_keys(
                crate::text::texts(r@),
                final(self)@.watchlist,
                |e: EntryView| poll_due(e, old(self)@.filters, now),
            ),
            leads_to(old(self)@, (WatchStep::Tick { now }), final(self)@),
            well_named(old(self)@.watchlist) ==> well_named(final(self)@.watchlist),
    {
        let keys: Vec<String> = self.keys();
        let ghost names = crate::text::texts(keys@);
        let ghost m = self@;
        let ghost due = |e: EntryView| poll_due(e, m.filters, now);
        let mut out: Vec<String> = Vec::new();
        let mut i: usize = 0;
        assert(names.take(0) =~= Seq::<Seq<char>>::empty());
        assert(crate::text::texts(out@) =~= Seq::<Seq<char>>::empty());
        while i < keys.len()
            invariant
                i <= keys@.len(),
                names == crate::text::texts(keys@),
                names.no_duplicates(),
                names.to_set() == m.watchlist.dom(),
                self@ == (MonitorView { watchlist: self@.watchlist, ..m }),
                forall|k: Seq<char>| #[trigger]
                    self@.watchlist.dom().contains(k) <==> m.watchlist.dom().contains(k) && !(
                    names.take(i as int).contains(k) && expired(m.watchlist[k], m.filters, now)),
                forall|k: Seq<char>| #[trigger]
                    self@.watchlist.dom().contains(k) ==> self@.watchlist[k] == m.watchlist[k],
                crate::text::texts(out@).no_duplicates(),
                forall|k: Seq<char>| #[trigger]
                    crate::text::texts(out@).contains(k) <==> names.take(i as int).contains(k)
                        && !expired(m.watchlist[k], m.filters, now) && poll_due(
                        m.watchlist[k],
                        m.filters,
                        now,
                    ),
            decreases keys@.len() - i,
        {
            let key: &str = keys[i].as_str();
            assert(names[i as int] == key@);
            assert(names.to_set().contains(names[i as int]));
            let ghost before = self@.watchlist;
            let ghost listed = crate::text::texts(out@);
            proof {
                lemma_take_contains(names, i as int, key@);
                crate::text::lemma_takes_one_more(names, i as int);
            }
            assert(before.dom().contains(key@));
            if let Some(entry) = self.watchlist.get(key) {
                assert(entry@ == m.watchlist[key@]);
                if entry.is_expired(&self.filters, now) {
                    let _ = self.take(key);
                } else if entry.needs_poll(&self.filters, now) {
                    out.push(keys[i].clone());
                    assert(crate::text::texts(out@) =~= listed.push(key@));
                    proof {
                        assert forall|k: Seq<char>| #[trigger]
                            listed.push(key@).contains(k) <==> listed.contains(k) || k == key@ by {
                            lemma_push_contains(listed, key@, k);
                        }
                        lemma_push_contains(listed, key@, key@);
                    }
                }
            }
            i = i + 1;
        }
        proof {
            assert(names.take(names.len() as int) =~= names);
            assert forall|k: Seq<char>| #[trigger]
                m.watchlist.dom().contains(k) <==> names.contains(k) by {
                assert(names.to_set().contains(k) <==> names.contains(k));
            }
            assert(self@.watchlist =~= unexpired(m.watchlist, m.filters, now));
            assert(lists_keys(crate::text::texts(out@), self@.watchlist, due));
            if well_named(m.watchlist) {
                law_figures_stay_with_their_token(m, WatchStep::Tick { now }, self@);
            }
        }
        out
    }

    /// Takes in the prices that were read of the polled tokens: dead tokens are dropped, and so
    /// are those that seem to have graduated where graduations are told of. Gives the
    /// graduations to tell of.
    pub fn after_prices(
        &mut self,
        polled: &Vec<String>,
        prices: &Vec<(String, Binary64)>,
        now: Instant,
    ) -> (r: Vec<MigrationEvent>)
        requires
            crate::text::texts(polled@).no_duplicates(),
        ensures
            final(self)@ == (MonitorView {
                watchlist: polled_watchlist(
                    old(self)@,
                    crate::text::texts(polled@),
                    crate::pricing::price_views(prices@),
                    now,
                ),
                ..old(self)@
            }),
            event_views(r@) == (if old(self)@.forwards {
                transition_events(
                    graduates(
                        old(self)@.watchlist,
                        crate::text::texts(polled@),
                        crate::pricing::price_views(prices@),
                    ),
                )
            } else {
                Seq::empty()
            }),
            leads_to(
                old(self)@,
                (WatchStep::Prices {
                    polled: crate::text::texts(polled@),
                    prices: crate::pricing::price_views(prices@),
                    now,
                }),
                final(self)@,
            ),
            event_views(r@) == told_graduates(
                old(self)@,
                crate::text::texts(polled@),
                crate::pricing::price_views(prices@),
            ),
            well_named(old(self)@.watchlist) ==> well_named(final(self)@.watchlist),
    {
        let ghost m = self@;
        let ghost names = crate::text::texts(polled@);
        let ghost quotes = crate::pricing::price_views(prices@);
        let mut events: Vec<MigrationEvent> = Vec::new();
        let mut i: usize = 0;
        assert(names.take(0) =~= Seq::<Seq<char>>::empty());
        assert(event_views(events@) =~= Seq::<MigrationView>::empty());
        assert(transition_events(graduates(m.watchlist, names.take(0), quotes)) =~= Seq::<
            MigrationView,
        >::empty());
        while i < polled.len()
            invariant
                i <= polled@.len(),
                names == crate::text::texts(polled@),
                names.no_duplicates(),
                quotes == crate::pricing::price_views(prices@),
                self@ == (MonitorView { watchlist: self@.watchlist, ..m }),
                forall|k: Seq<char>| #[trigger]
                    self@.watchlist.dom().contains(k) <==> m.watchlist.dom().contains(k) && !(
                    names.take(i as int).contains(k) && dropped(
                        m.watchlist[k],
                        price_for(quotes, k),
                        now,
                        m.filters,
                        m.forwards,
                    )),
                forall|k: Seq<char>| #[trigger]
                    self@.watchlist.dom().contains(k) ==> self@.watchlist[k] == (if names.take(
                        i as int,
                    ).contains(k) {
                        polled_entry(m.watchlist[k], price_for(quotes, k), now)
                    } else {
                        m.watchlist[k]
                    }),
                event_views(events@) =~= (if m.forwards {
                    transition_events(graduates(m.watchlist, names.take(i as int), quotes))
                } else {
                    Seq::empty()
                }),
            decreases polled@.len() - i,
        {
            let mint: &str = polled[i].as_str();
            assert(names[i as int] == mint@);
            let ghost before = self@.watchlist;
            let ghost told = event_views(events@);
            proof {
                lemma_take_contains(names, i as int, mint@);
                crate::text::lemma_takes_one_more(names, i as int);
                assert(names.take(i + 1).drop_last() =~= names.take(i as int));
                assert(names.take(i + 1).last() == mint@);
            }
            let ghost tops = graduates(m.watchlist, names.take(i as int), quotes);
            assert(transition_events(tops.push(mint@)) =~= transition_events(tops).push(
                transition_event(mint@),
            ));
            if let Some(mut entry) = self.take(mint) {
                assert(entry@ == m.watchlist[mint@]);
                let price: Option<Binary64> = find_price(prices, mint);
                if self.forwards && entry.graduated(price) {
                    let event = MigrationEvent {
                        mint: mint.to_owned(),
                        tx_type: "watchlist_transition".to_owned(),
                        signature: String::new(),
                        pool: String::new(),
                    };
                    assert(event@ =~= transition_event(mint@));
                    events.push(event);
                    assert(event_views(events@) =~= told.push(transition_event(mint@)));
                }
                if !entry.poll(price, now, &self.filters, self.forwards) {
                    self.put(mint, entry);
                }
            }
            i = i + 1;
        }
        proof {
            assert(names.take(names.len() as int) =~= names);
            assert(self@.watchlist =~= polled_watchlist(m, names, quotes, now));
            if well_named(m.watchlist) {
                let step = WatchStep::Prices { polled: names, prices: quotes, now };
                law_figures_stay_with_their_token(m, step, self@);
            }
        }
        events
    }

    /// The tokens whose market figures are to be asked for.
    pub fn tokens_to_enrich(&self, now: Instant) -> (r: Vec<String>)
        ensures
            lists_keys(
                crate::text::texts(r@),
                self@.watchlist,
                |e: EntryView| enrichment_due(e, now),
            ),
    {
        let keys: Vec<String> = self.keys();
        let ghost names = crate::text::texts(keys@);
        let mut out: Vec<String> = Vec::new();
        let mut i: usize = 0;
        assert(names.take(0) =~= Seq::<Seq<char>>::empty());
        assert(crate::text::texts(out@) =~= Seq::<Seq<char>>::empty());
        while i < keys.len()
            invariant
                i <= keys@.len(),
                names == crate::text::texts(keys@),
                names.no_duplicates(),
                names.to_set() == self@.watchlist.dom(),
                crate::text::texts(out@).no_duplicates(),
                forall|k: Seq<char>| #[trigger]
                    crate::text::texts(out@).contains(k) <==> names.take(i as int).contains(k)
                        && enrichment_due(self@.watchlist[k], now),
            decreases keys@.len() - i,
        {
            let key: &str = keys[i].as_str();
            assert(names[i as int] == key@);
            assert(names.to_set().contains(names[i as int]));
            let ghost listed = crate::text::texts(out@);
            proof {
                lemma_take_contains(names, i as int, key@);
                crate::text::lemma_takes_one_more(names, i as int);
            }
            if let Some(entry) = self.watchlist.get(key) {
                assert(entry@ == self@.watchlist[key@]);
                if entry.needs_figures(now) {
                    out.push(keys[i].clone());
                    assert(crate::text::texts(out@) =~= listed.push(key@));
                    proof {
                        assert forall|k: Seq<char>| #[trigger]
                            listed.push(key@).contains(k) <==> listed.contains(k) || k == key@ by {
                            lemma_push_contains(listed, key@, k);
                        }
                        lemma_push_contains(listed, key@, key@);
                    }
                }
            }
            i = i + 1;
        }
        proof {
            assert(names.take(names.len() as int) =~= names);
            assert forall|k: Seq<char>| #[trigger]
                crate::text::texts(out@).contains(k) <==> self@.watchlist.dom().contains(k)
                    && enrichment_due(self@.watchlist[k], now) by {
                assert(names.to_set().contains(k) <==> names.contains(k));
            }
        }
        out
    }

    /// Takes in the market figures that came of a request for them.
    pub fn after_enrichment(
        &mut self,
        requested: &Vec<String>,
        tokens: Vec<TokenInfo>,
        now: Instant,
    )
        ensures
            final(self)@ == (MonitorView {
                watchlist: after_request(
                    old(self)@.watchlist,
                    crate::text::texts(requested@),
                    crate::trading::token_views(tokens@),
                    now,
                ),
                ..old(self)@
            }),
            leads_to(
                old(self)@,
                (WatchStep::Figures {
                    requested: crate::text::texts(requested@),
                    tokens: crate::trading::token_views(tokens@),
                    now,
                }),
                final(self)@,
            ),
            well_named(old(self)@.watchlist) ==> well_named(final(self)@.watchlist),
    {
        let ghost m = self@;
        let ghost all = crate::trading::token_views(tokens@);
        let ghost names = crate::text::texts(requested@);
        let mut i: usize = 0;
        while i < tokens.len()
            invariant
                i <= tokens@.len(),
                all == crate::trading::token_views(tokens@),
                self@ == (MonitorView {
                    watchlist: with_figures(m.watchlist, all.take(i as int), now),
                    ..m
                }),
            decreases tokens@.len() - i,
        {
            assert(all.take(i + 1).drop_last() =~= all.take(i as int));
            let ghost before = self@.watchlist;
            let token: TokenInfo = tokens[i].clone();
            let address: String = token.address.clone();
            match self.take(address.as_str()) {
                Some(mut entry) => {
                    entry.enriched = Some(token);
                    entry.last_enrichment = Some(now);
                    self.put(address.as_str(), entry);
                    assert(before.remove(address@).insert(address@, entry@) =~= before.insert(
                        address@,
                        entry@,
                    ));
                },
                None => {
                    assert(before.remove(address@) =~= before);
                },
            }
            i = i + 1;
        }
        assert(all.take(all.len() as int) =~= all);
        let ghost filled = self@.watchlist;
        let mut j: usize = 0;
        assert(names.take(0) =~= Seq::<Seq<char>>::empty());
        while j < requested.len()
            invariant
                j <= requested@.len(),
                names == crate::text::texts(requested@),
                self@ == (MonitorView { watchlist: self@.watchlist, ..m }),
                self@.watchlist.dom() == filled.dom(),
                forall|k: Seq<char>| #[trigger]
                    filled.dom().contains(k) ==> self@.watchlist[k] == (if names.take(
                        j as int,
                    ).contains(k) {
                        EntryView { last_enrichment: Some(now), ..filled[k] }
                    } else {
                        filled[k]
                    }),
            decreases requested@.len() - j,
        {
            let mint: &str = requested[j].as_str();
            assert(names[j as int] == mint@);
            let ghost before = self@.watchlist;
            proof {
                crate::text::lemma_takes_one_more(names, j as int);
            }
            match self.take(mint) {
                Some(mut entry) => {
                    entry.last_enrichment = Some(now);
                    self.put(mint, entry);
                    assert(self@.watchlist =~= before.insert(mint@, entry@));
                    assert(self@.watchlist.dom() =~= filled.dom());
                },
                None => {
                    assert(self@.watchlist =~= before);
                },
            }
            j = j + 1;
        }
        assert(names.take(names.len() as int) =~= names);
        assert(self@.watchlist =~= after_request(m.watchlist, names, all, now));
        proof {
            if well_named(m.watchlist) {
                let step = WatchStep::Figures { requested: names, tokens: all, now };
                law_figures_stay_with_their_token(m, step, self@);
            }
        }
    }

    /// Whether every token that would be handed on without market figures has a name that can be
    /// abbreviated.
    pub fn has_sound_names(&self, now: Instant) -> (r: bool)
        ensures
            r == names_hold(self@, now),
    {
        let keys: Vec<String> = self.keys();
        let ghost names = crate::text::texts(keys@);
        let mut i: usize = 0;
        while i < keys.len()
            invariant
                i <= keys@.len(),
                names == crate::text::texts(keys@),
                names.to_set() == self@.watchlist.dom(),
                forall|j: int|
                    0 <= j < i && is_candidate(self@.watchlist[#[trigger] names[j]], now)
                        && self@.watchlist[names[j]].enriched is None
                        ==> crate::text::can_abbreviate(names[j]),
            decreases keys@.len() - i,
        {
            let key: &str = keys[i].as_str();
            assert(names[i as int] == key@);
            assert(names.to_set().contains(names[i as int]));
            if let Some(entry) = self.watchlist.get(key) {
                assert(entry@ == self@.watchlist[key@]);
                if entry.can_go_on(now) && entry.enriched.is_none()
                    && !crate::text::is_abbreviable(key) {
                    return false;
                }
            }
            i = i + 1;
        }
        assert forall|k: Seq<char>| #[trigger]
            self@.watchlist.dom().contains(k) && is_candidate(self@.watchlist[k], now)
                && self@.watchlist[k].enriched is None implies crate::text::can_abbreviate(k) by {
            assert(names.to_set().contains(k));
            let j = choose|j: int| 0 <= j < names.len() && names[j] == k;
            assert(names[j] == k);
        }
        true
    }

    /// Ends a round: hands on the tokens that are ready for the strategies, each once and under
    /// its own address.
    pub fn ready_tokens(&mut self, now: Instant, created_at: &str) -> (r: Vec<TokenInfo>)
        requires
            names_hold(old(self)@, now),
        ensures
            final(self)@ == (MonitorView {
                watchlist: marked(old(self)@, now, created_at@),
                ..old(self)@
            }),
            exists|keys: Seq<Seq<char>>|
                #![trigger tokens_of(old(self)@, keys, created_at@)]
                keys.no_duplicates() && (forall|k: Seq<char>| #[trigger]
                    keys.contains(k) <==> is_ready(old(self)@, k, now, created_at@))
                    && crate::trading::token_views(r@) == tokens_of(
                    old(self)@,
                    keys,
                    created_at@,
                ),
            leads_to(
                old(self)@,
                (WatchStep::HandOn { now, created_at: created_at@ }),
                final(self)@,
            ),
            well_named(old(self)@.watchlist) ==> {
                &&& well_named(final(self)@.watchlist)
                &&& crate::feeds::addresses_differ(crate::trading::token_views(r@))
                &&& forall|i: int|
                    0 <= i < r@.len() ==> is_ready(
                        old(self)@,
                        (#[trigger] r@[i])@.address,
                        now,
                        created_at@,
                    ) && meets(old(self)@.filters, r@[i]@)
            },
    {
        let ghost m = self@;
        let keys: Vec<String> = self.keys();
        let ghost names = crate::text::texts(keys@);
        let ghost mut chosen: Seq<Seq<char>> = Seq::empty();
        let mut ready: Vec<TokenInfo> = Vec::new();
        let mut i: usize = 0;
        assert(names.take(0) =~= Seq::<Seq<char>>::empty());
        assert(crate::trading::token_views(ready@) =~= tokens_of(m, chosen, created_at@));
        while i < keys.len()
            invariant
                i <= keys@.len(),
                names == crate::text::texts(keys@),
                names.no_duplicates(),
                names.to_set() == m.watchlist.dom(),
                names_hold(m, now),
                self@ == (MonitorView { watchlist: self@.watchlist, ..m }),
                self@.watchlist.dom() == m.watchlist.dom(),
                forall|k: Seq<char>| #[trigger]
                    m.watchlist.dom().contains(k) ==> self@.watchlist[k] == (if names.take(
                        i as int,
                    ).contains(k) && is_ready(m, k, now, created_at@) {
                        EntryView { signal_sent: true, ..m.watchlist[k] }
                    } else {
                        m.watchlist[k]
                    }),
                chosen.no_duplicates(),
                forall|k: Seq<char>| #[trigger]
                    chosen.contains(k) <==> names.take(i as int).contains(k) && is_ready(
                        m,
                        k,
                        now,
                        created_at@,
                    ),
                crate::trading::token_views(ready@) =~= tokens_of(m, chosen, created_at@),
            decreases keys@.len() - i,
        {
            let key: &str = keys[i].as_str();
            assert(names[i as int] == key@);
            assert(names.to_set().contains(names[i as int]));
            let ghost before = self@.watchlist;
            let ghost handed = crate::trading::token_views(ready@);
            proof {
                lemma_take_contains(names, i as int, key@);
                crate::text::lemma_takes_one_more(names, i as int);
                assert(m.watchlist.dom().contains(key@));
            }
            if let Some(mut entry) = self.take(key) {
                assert(entry@ == m.watchlist[key@]);
                if entry.can_go_on(now) {
                    let token: TokenInfo = match &entry.enriched {
                        Some(token) => token.clone(),
                        None => synthesize_from_bonding_curve(
                            key,
                            entry.last_price_sol,
                            created_at,
                        ),
                    };
                    assert(token@ == handed_on(key@, m.watchlist[key@], created_at@));
                    if self.passes_filters(&token) {
                        ready.push(token);
                        entry.signal_sent = true;
                        proof {
                            let grown = chosen.push(key@);
                            assert forall|k: Seq<char>| #[trigger]
                                grown.contains(k) <==> chosen.contains(k) || k == key@ by {
                                lemma_push_contains(chosen, key@, k);
                            }
                            lemma_push_contains(chosen, key@, key@);
                            assert(tokens_of(m, grown, created_at@) =~= tokens_of(
                                m,
                                chosen,
                                created_at@,
                            ).push(token@));
                            chosen = grown;
                        }
                        assert(crate::trading::token_views(ready@) =~= handed.push(token@));
                    }
                }
                self.put(key, entry);
                assert(self@.watchlist =~= before.insert(key@, entry@));
                assert(self@.watchlist.dom() =~= m.watchlist.dom());
            }
            i = i + 1;
        }
        proof {
            assert(names.take(names.len() as int) =~= names);
            assert forall|k: Seq<char>| #[trigger]
                m.watchlist.dom().contains(k) <==> names.contains(k) by {
                assert(names.to_set().contains(k) <==> names.contains(k));
            }
            assert(self@.watchlist =~= marked(m, now, created_at@));
            assert forall|k: Seq<char>| #[trigger]
                chosen.contains(k) <==> is_ready(m, k, now, created_at@) by {
                assert(m.watchlist.dom().contains(k) <==> names.contains(k));
            }
            assert(crate::trading::token_views(ready@) == tokens_of(m, chosen, created_at@));
            if well_named(m.watchlist) {
                let step = WatchStep::HandOn { now, created_at: created_at@ };
                law_figures_stay_with_their_token(m, step, self@);
                law_handed_on_tokens_keep_their_addresses(m, chosen, now, created_at@);
                assert forall|i: int| 0 <= i < ready@.len() implies is_ready(
                    m,
                    (#[trigger] ready@[i])@.address,
                    now,
                    created_at@,
                ) && meets(m.filters, ready@[i]@) by {
                    assert(crate::trading::token_views(ready@)[i] == ready@[i]@);
                }
            }
        }
        ready
    }
}

/// The most tokens that the watchlist comes to hold: its cap, or one where that is zero.
pub open spec fn watchlist_bound(cap: usize) -> nat {
    if cap > 0 {
        cap as nat
    } else {
        1
    }
}

/// Whatever happens to the watchlist, it does not grow beyond its cap, or beyond one token where
/// the cap is zero.
pub proof fn law_watchlist_is_bounded(before: MonitorView, step: WatchStep, after: MonitorView)
    requires
        leads_to(before, step, after),
        before.watchlist.dom().finite(),
        before.watchlist.dom().len() <= watchlist_bound(before.filters.watchlist_cap),
    ensures
        after.watchlist.dom().finite(),
        after.watchlist.dom().len() <= watchlist_bound(after.filters.watchlist_cap),
{
    let (old_keys, new_keys) = (before.watchlist.dom(), after.watchlist.dom());
    if let WatchStep::Add { mint, market_cap_sol, now } = step {
        if takes_on(before, mint, market_cap_sol) {
            let cap = before.filters.watchlist_cap;
            if old_keys.len() >= cap && old_keys.len() > 0 {
                let oldest = choose|oldest: Seq<char>|
                    #[trigger] is_oldest(before.watchlist, oldest) && after.watchlist
                        == before.watchlist.remove(oldest).insert(mint, fresh_entry(now));
                assert(new_keys =~= old_keys.remove(oldest).insert(mint));
            } else {
                assert(new_keys =~= old_keys.insert(mint));
            }
        }
    } else {
        if let WatchStep::Figures { requested, tokens, now } = step {
            lemma_with_figures(before.watchlist, tokens, now);
        }
        assert(new_keys.subset_of(old_keys));
        vstd::set_lib::lemma_len_subset(new_keys, old_keys);
    }
}

/// A token that is taken on was not watched before, and is from then on, without a price and
/// without market figures.
pub proof fn law_new_tokens_are_watched(
    before: MonitorView,
    after: MonitorView,
    mint: Seq<char>,
    market_cap_sol: Binary64,
    now: Instant,
)
    requires
        leads_to(before, WatchStep::Add { mint, market_cap_sol, now }, after),
        takes_on(before, mint, market_cap_sol),
    ensures
        !before.watchlist.dom().contains(mint),
        after.watchlist.dom().contains(mint),
        after.watchlist[mint] == fresh_entry(now),
{
}

/// Tokens that are handed on stand for the keys under which they are watched: no two have one
/// address, and each meets the filters.
pub proof fn law_handed_on_tokens_keep_their_addresses(
    m: MonitorView,
    keys: Seq<Seq<char>>,
    now: Instant,
    created_at: Seq<char>,
)
    requires
        well_named(m.watchlist),
        keys.no_duplicates(),
        forall|k: Seq<char>| #[trigger] keys.contains(k) <==> is_ready(m, k, now, created_at),
    ensures
        forall|i: int|
            0 <= i < keys.len() ==> (#[trigger] tokens_of(m, keys, created_at)[i]).address == keys[i]
                && is_ready(m, keys[i], now, created_at) && meets(
                m.filters,
                tokens_of(m, keys, created_at)[i],
            ),
        crate::feeds::addresses_differ(tokens_of(m, keys, created_at)),
{
    let tokens = tokens_of(m, keys, created_at);
    assert forall|i: int| 0 <= i < keys.len() implies (#[trigger] tokens[i]).address == keys[i]
        && is_ready(m, keys[i], now, created_at) && meets(m.filters, tokens[i]) by {
        assert(keys.contains(keys[i]));
        assert(m.watchlist.dom().contains(keys[i]));
    }
}

/// What can happen to the watchlist.
pub enum WatchStep {
    /// Graduations are told of from now on.
    Forward,
    /// A new token is heard of.
    Add { mint: Seq<char>, market_cap_sol: Binary64, now: Instant },
    /// A round begins.
    Tick { now: Instant },
    /// Prices are read of polled tokens.
    Prices { polled: Seq<Seq<char>>, prices: Seq<(Seq<char>, Binary64)>, now: Instant },
    /// Market figures come in.
    Figures { requested: Seq<Seq<char>>, tokens: Seq<TokenInfoView>, now: Instant },
    /// A round ends with the tokens that are handed on.
    HandOn { now: Instant, created_at: Seq<char> },
}

/// What a step makes of the watchlist.
pub open spec fn leads_to(before: MonitorView, step: WatchStep, after: MonitorView) -> bool {
    match step {
        WatchStep::Forward => after == (MonitorView { forwards: true, ..before }),
        WatchStep::Add { mint, market_cap_sol, now } => if takes_on(before, mint, market_cap_sol) {
            &&& taken_on(
                before.watchlist,
                after.watchlist,
                before.filters.watchlist_cap,
                mint,
                now,
            )
            &&& after == (MonitorView { watchlist: after.watchlist, ..before })
        } else {
            after == before
        },
        WatchStep::Tick { now } => after == (MonitorView {
            watchlist: unexpired(before.watchlist, before.filters, now),
            ..before
        }),
        WatchStep::Prices { polled, prices, now } => after == (MonitorView {
            watchlist: polled_watchlist(before, polled, prices, now),
            ..before
        }),
        WatchStep::Figures { requested, tokens, now } => after == (MonitorView {
            watchlist: after_request(before.watchlist, requested, tokens, now),
            ..before
        }),
        WatchStep::HandOn { now, created_at } => after == (MonitorView {
            watchlist: marked(before, now, created_at),
            ..before
        }),
    }
}

proof fn lemma_with_figures(
    watchlist: Map<Seq<char>, EntryView>,
    tokens: Seq<TokenInfoView>,
    now: Instant,
)
    ensures
        with_figures(watchlist, tokens, now).dom() == watchlist.dom(),
        well_named(watchlist) ==> well_named(with_figures(watchlist, tokens, now)),
        forall|k: Seq<char>| #[trigger]
            watchlist.dom().contains(k) ==> with_figures(watchlist, tokens, now)[k].signal_sent
                == watchlist[k].signal_sent,
    decreases tokens.len(),
{
    if tokens.len() > 0 {
        let before = with_figures(watchlist, tokens.drop_last(), now);
        lemma_with_figures(watchlist, tokens.drop_last(), now);
        assert(with_figures(watchlist, tokens, now).dom() =~= watchlist.dom());
        assert forall|k: Seq<char>| #[trigger] watchlist.dom().contains(k) implies with_figures(
            watchlist,
            tokens,
            now,
        )[k].signal_sent == watchlist[k].signal_sent by {
            assert(before.dom().contains(k));
        }
        if well_named(watchlist) {
            let filled = with_figures(watchlist, tokens, now);
            assert forall|k: Seq<char>| #[trigger]
                filled.dom().contains(k) && filled[k].enriched is Some implies filled[k].enriched->0.address
                == k by {
                assert(before.dom().contains(k));
            }
        }
    }
}

/// Whatever happens to the watchlist, the market figures that it keeps of a token are the token's
/// own.
pub proof fn law_figures_stay_with_their_token(
    before: MonitorView,
    step: WatchStep,
    after: MonitorView,
)
    requires
        leads_to(before, step, after),
        well_named(before.watchlist),
    ensures
        well_named(after.watchlist),
{
    if let WatchStep::Figures { requested, tokens, now } = step {
        lemma_with_figures(before.watchlist, tokens, now);
    }
    assert forall|k: Seq<char>| #[trigger]
        after.watchlist.dom().contains(k)
            && after.watchlist[k].enriched is Some implies after.watchlist[k].enriched->0.address
        == k by {
        if let WatchStep::Figures { requested, tokens, now } = step {
            assert(with_figures(before.watchlist, tokens, now).dom().contains(k));
        }
        assert(before.watchlist.dom().contains(k) || after.watchlist[k].enriched is None);
    }
}

/// Whatever happens to the watchlist, a token that was handed on stays marked for as long as it
/// stays on it.
pub proof fn law_tokens_stay_marked(
    before: MonitorView,
    step: WatchStep,
    after: MonitorView,
    mint: Seq<char>,
)
    requires
        leads_to(before, step, after),
        before.watchlist.dom().contains(mint),
        before.watchlist[mint].signal_sent,
        after.watchlist.dom().contains(mint),
    ensures
        after.watchlist[mint].signal_sent,
{
    if let WatchStep::Figures { requested, tokens, now } = step {
        lemma_with_figures(before.watchlist, tokens, now);
    }
}

/// The states that the watchlist goes through, each but the first after the step before it.
pub open spec fn is_course(states: Seq<MonitorView>, steps: Seq<WatchStep>) -> bool {
    &&& states.len() == steps.len() + 1
    &&& forall|i: int|
        0 <= i < steps.len() ==> leads_to(states[i], #[trigger] steps[i], states[i + 1])
}

/// A token that was handed on is not handed on again for as long as it stays on the watchlist,
/// and neither its price nor its market figures are asked for any more.
pub proof fn law_tokens_are_handed_on_once(
    states: Seq<MonitorView>,
    steps: Seq<WatchStep>,
    mint: Seq<char>,
    first: int,
    last: int,
)
    requires
        is_course(states, steps),
        0 <= first < last < states.len(),
        match steps[first] {
            WatchStep::HandOn { now, created_at } => is_ready(states[first], mint, now, created_at),
            _ => false,
        },
        forall|i: int| first < i <= last ==> (#[trigger] states[i]).watchlist.dom().contains(mint),
    ensures
        forall|later: Instant, created_at: Seq<char>|
            !#[trigger] is_ready(states[last], mint, later, created_at),
        forall|filters: NewTokenFilters, later: Instant|
            !#[trigger] poll_due(states[last].watchlist[mint], filters, later),
        forall|later: Instant| !#[trigger] enrichment_due(states[last].watchlist[mint], later),
{
    lemma_marked_in_course(states, steps, mint, first, last);
}

/// On its whole course from a start with sound names, the watchlist keeps market figures under
/// the token's own address.
pub proof fn law_figures_stay_on_course(
    states: Seq<MonitorView>,
    steps: Seq<WatchStep>,
    i: int,
)
    requires
        is_course(states, steps),
        well_named(states[0].watchlist),
        0 <= i < states.len(),
    ensures
        well_named(states[i].watchlist),
    decreases i,
{
    if i > 0 {
        law_figures_stay_on_course(states, steps, i - 1);
        assert(leads_to(states[i - 1], steps[i - 1], states[i - 1 + 1]));
        law_figures_stay_with_their_token(states[i - 1], steps[i - 1], states[i]);
    }
}

/// The address of a token that was handed on does not come up among the tokens that later rounds
/// hand on, for as long as the token stays on the watchlist.
pub proof fn law_addresses_come_up_once(
    states: Seq<MonitorView>,
    steps: Seq<WatchStep>,
    mint: Seq<char>,
    first: int,
    last: int,
    keys: Seq<Seq<char>>,
    later: Instant,
    created_at: Seq<char>,
)
    requires
        is_course(states, steps),
        well_named(states[0].watchlist),
        0 <= first < last < states.len(),
        match steps[first] {
            WatchStep::HandOn { now, created_at } => is_ready(states[first], mint, now, created_at),
            _ => false,
        },
        forall|i: int| first < i <= last ==> (#[trigger] states[i]).watchlist.dom().contains(mint),
        keys.no_duplicates(),
        forall|k: Seq<char>| #[trigger]
            keys.contains(k) <==> is_ready(states[last], k, later, created_at),
    ensures
        forall|i: int|
            0 <= i < keys.len() ==> (#[trigger] tokens_of(states[last], keys, created_at)[i]).address
                != mint,
{
    law_tokens_are_handed_on_once(states, steps, mint, first, last);
    law_figures_stay_on_course(states, steps, last);
    law_handed_on_tokens_keep_their_addresses(states[last], keys, later, created_at);
}

proof fn lemma_marked_in_course(
    states: Seq<MonitorView>,
    steps: Seq<WatchStep>,
    mint: Seq<char>,
    first: int,
    last: int,
)
    requires
        is_course(states, steps),
        0 <= first < last < states.len(),
        match steps[first] {
            WatchStep::HandOn { now, created_at } => is_ready(states[first], mint, now, created_at),
            _ => false,
        },
        forall|i: int| first < i <= last ==> (#[trigger] states[i]).watchlist.dom().contains(mint),
    ensures
        states[last].watchlist[mint].signal_sent,
    decreases last - first,
{
    assert(leads_to(states[last - 1], steps[last - 1], states[last - 1 + 1]));
    if last > first + 1 {
        lemma_marked_in_course(states, steps, mint, first, last - 1);
        assert(states[last - 1].watchlist.dom().contains(mint));
        law_tokens_stay_marked(states[last - 1], steps[last - 1], states[last], mint);
    }
}

/// Thresholds of zero hold nothing back.
pub proof fn law_zero_thresholds_accept_all(f: NewTokenFilters, token: TokenInfoView)
    requires
        f.min_market_cap == 0,
        f.max_market_cap == 0,
        f.min_holders == 0,
        f.min_liquidity == 0,
        f.min_volume_24h == 0,
    ensures
        meets(f, token),
{
}

/// The highest price of a token never falls, and is not below the price last read.
pub proof fn law_peak_price_is_the_highest(e: EntryView, price: Binary64, now: Instant)
    requires
        !price.is_nan(),
        !e.peak_price_sol.is_nan(),
    ensures
        e.peak_price_sol.le(polled_entry(e, Some(price), now).peak_price_sol),
        price.le(polled_entry(e, Some(price), now).peak_price_sol),
{
}

proof fn lemma_graduates(
    watchlist: Map<Seq<char>, EntryView>,
    polled: Seq<Seq<char>>,
    prices: Seq<(Seq<char>, Binary64)>,
    mint: Seq<char>,
)
    ensures
        graduates(watchlist, polled, prices).contains(mint) <==> polled.contains(mint)
            && watchlist.dom().contains(mint) && has_graduated(
            watchlist[mint],
            price_for(prices, mint),
        ),
    decreases polled.len(),
{
    if polled.len() > 0 {
        let front = polled.drop_last();
        lemma_graduates(watchlist, front, prices, mint);
        lemma_push_contains(front, polled.last(), mint);
        assert(polled =~= front.push(polled.last()));
        lemma_push_contains(graduates(watchlist, front, prices), polled.last(), mint);
    }
}

/// A graduation is told of once: a token that is told of leaves the watchlist with it.
pub proof fn law_graduates_leave_the_watchlist(
    m: MonitorView,
    polled: Seq<Seq<char>>,
    prices: Seq<(Seq<char>, Binary64)>,
    now: Instant,
    mint: Seq<char>,
)
    requires
        m.forwards,
        graduates(m.watchlist, polled, prices).contains(mint),
    ensures
        m.watchlist.dom().contains(mint),
        !polled_watchlist(m, polled, prices, now).dom().contains(mint),
{
    lemma_graduates(m.watchlist, polled, prices, mint);
}

/// Reading prices never brings a token onto the watchlist, and leaves the tokens that were not
/// polled as they are.
pub proof fn law_prices_touch_polled_tokens_only(
    m: MonitorView,
    polled: Seq<Seq<char>>,
    prices: Seq<(Seq<char>, Binary64)>,
    now: Instant,
    mint: Seq<char>,
)
    ensures
        polled_watchlist(m, polled, prices, now).dom().contains(mint)
            ==> m.watchlist.dom().contains(mint),
        !polled.contains(mint) && m.watchlist.dom().contains(mint) ==> polled_watchlist(
            m,
            polled,
            prices,
            now,
        ).dom().contains(mint) && polled_watchlist(m, polled, prices, now)[mint]
            == m.watchlist[mint],
{
}

/// A price of zero is a rug, whatever the peak was and however far a price may fall.
pub proof fn law_worthless_tokens_are_rugs(peak: Binary64, price: Binary64, drop_percent: Binary64)
    requires
        peak.is_finite(),
        Binary64::from_u64(0).lt(peak),
        price.zero(),
        drop_percent.is_finite(),
        drop_percent.le(Binary64::from_u64(100)),
    ensures
        is_rug(peak, price, drop_percent),
{
    let hundred = Binary64::from_u64(100);
    crate::binary64::law_whole_numbers_are_exact(0);
    crate::binary64::law_whole_numbers_are_exact(100);
    crate::binary64::law_whole_order_is_kept(0, 100);
    crate::binary64::law_adding_zero_changes_nothing(peak, price);
    assert(peak.minus(price) == peak);
    crate::binary64::law_quotient_by_itself_is_one(peak);
    crate::binary64::law_quotient_by_itself_is_one(hundred);
    crate::binary64::law_quotients_keep_order(drop_percent, hundred, hundred);
}

/// A price that has not fallen is no rug.
pub proof fn law_risen_prices_are_no_rugs(peak: Binary64, price: Binary64, drop_percent: Binary64)
    requires
        peak.is_finite(),
        price.is_finite(),
        peak.le(price),
        drop_percent.is_finite(),
        Binary64::from_u64(1).le(drop_percent),
    ensures
        !is_rug(peak, price, drop_percent),
{
    if Binary64::from_u64(0).lt(peak) {
        let (one, hundred) = (Binary64::from_u64(1), Binary64::from_u64(100));
        crate::binary64::law_whole_numbers_are_exact(0);
        crate::binary64::law_whole_numbers_are_exact(1);
        crate::binary64::law_whole_numbers_are_exact(100);
        crate::binary64::law_whole_order_is_kept(0, 1);
        crate::binary64::law_whole_order_is_kept(0, 100);
        crate::binary64::law_quotients_keep_order(one, drop_percent, hundred);
        crate::binary64::law_order_is_order_of_values(peak, price);
        reveal(Binary64::spec_plus);
        let fall = peak.minus(price);
        let total = peak.value() - price.value();
        if total < 0 {
            crate::rounding::lemma_round_bound((-total) as nat, 1);
        }
        assert(fall.order_key() <= 0);
        reveal(Binary64::spec_over);
        let q = fall.over(peak);
        if fall.is_finite() {
            crate::rounding::lemma_magnitude_order(0, peak.magnitude());
            crate::rounding::lemma_exp2_values();
            assert(0 * crate::rounding::exp2(0) == 0) by (nonlinear_arith);
            crate::rounding::lemma_round_bound(
                fall.size() * Binary64::one_value(),
                peak.size(),
            );
            if fall.zero() {
                crate::binary64::lemma_zero_size(fall);
                assert(0 * Binary64::one_value() == 0) by (nonlinear_arith);
                crate::rounding::lemma_round_zero(peak.size());
            }
        }
        assert(q.order_key() <= 0);
        lemma_hundredth_is_positive();
    }
}

proof fn lemma_hundredth_is_positive()
    ensures
        Binary64::from_u64(1).over(Binary64::from_u64(100)).order_key() > 0,
        !Binary64::from_u64(1).over(Binary64::from_u64(100)).is_nan(),
{
    let (a, b) = (Binary64::from_u64(1), Binary64::from_u64(100));
    let one = Binary64::one_value();
    crate::binary64::law_whole_numbers_are_exact(1);
    crate::binary64::law_whole_numbers_are_exact(100);
    crate::binary64::law_whole_order_is_kept(0, 100);
    crate::binary64::law_whole_numbers_are_exact(0);
    reveal(Binary64::spec_over);
    let (n, d) = (a.size() * one, b.size());
    crate::rounding::lemma_round_bound(n, d);
    // A hundredth is no less than a thousand units.
    crate::rounding::lemma_exp2_values();
    crate::rounding::lemma_exp2_sum(1073, 1);
    crate::rounding::lemma_exp2_step(0);
    crate::rounding::lemma_exp2_sum(1063, 11);
    crate::rounding::lemma_exp2_positive(1063);
    assert(one >= 2048) by (nonlinear_arith)
        requires
            one == crate::rounding::exp2(1063) * crate::rounding::exp2(11),
            crate::rounding::exp2(11) == 2048,
            crate::rounding::exp2(1063) >= 1,
    ;
    assert(1 * d <= n * 1) by (nonlinear_arith)
        requires
            n == (1 * one) * one,
            d == 100 * one,
            one >= 2048,
    ;
    crate::rounding::law_rounding_keeps_order(1, 1, n, d);
    crate::rounding::law_rounding_keeps_numbers(1);
    assert(1 * crate::rounding::exp2(0) == 1) by (nonlinear_arith)
        requires
            crate::rounding::exp2(0) == 1,
    ;
}

/// A fall counts as a share of the peak: where peak and price are both doubled equally often,
/// without leaving the range of numbers, the answer is the same.
pub proof fn law_rugs_are_relative_to_the_peak(
    peak: Binary64,
    price: Binary64,
    peak2: Binary64,
    price2: Binary64,
    times: nat,
    drop_percent: Binary64,
)
    requires
        peak.doubled(peak2, times),
        price.doubled(price2, times),
        !peak.is_negative(),
        !peak.zero(),
        peak2.minus(price2).is_finite(),
        !peak.minus(price).zero(),
    ensures
        is_rug(peak, price, drop_percent) == is_rug(peak2, price2, drop_percent),
{
    crate::binary64::law_whole_numbers_are_exact(0);
    crate::binary64::law_differences_are_doubled(peak, price, peak2, price2, times);
    crate::binary64::law_doubled_numbers_have_one_quotient(
        peak.minus(price),
        peak,
        peak2.minus(price2),
        peak2,
        times,
    );
    let x = crate::rounding::exp2(times);
    crate::rounding::lemma_exp2_positive(times);
    crate::rounding::lemma_magnitude_order(0, peak.magnitude());
    crate::rounding::lemma_exp2_values();
    assert(0 * crate::rounding::exp2(0) == 0) by (nonlinear_arith);
    assert(peak.value() * x > 0) by (nonlinear_arith)
        requires
            peak.value() > 0,
            x >= 1,
    ;
    if peak2.zero() {
        crate::binary64::lemma_zero_size(peak2);
    }
    assert(0 * Binary64::one_value() == 0) by (nonlinear_arith);
    crate::binary64::law_order_is_order_of_values(Binary64::from_u64(0), peak);
    crate::binary64::law_order_is_order_of_values(Binary64::from_u64(0), peak2);
}

/// For whole prices the fall is their difference over the peak, and a rug is one of at least the
/// given percentage.
pub proof fn law_rugs_are_falls_by_a_share(peak: u64, price: u64, drop_percent: Binary64)
    requires
        0 < peak < 0x20_0000_0000_0000,
        price <= peak,
    ensures
        is_rug(Binary64::from_u64(peak), Binary64::from_u64(price), drop_percent)
            <==> drop_percent.over(Binary64::from_u64(100)).le(
            Binary64::ratio((peak - price) as u64, peak),
        ),
{
    crate::binary64::law_whole_order_is_kept(0, peak);
    crate::exits::lemma_whole_share(peak, price, peak);
}

/// The lower of two prices is a rug where the higher one is.
pub proof fn law_lower_prices_are_rugs_too(
    peak: Binary64,
    low: Binary64,
    high: Binary64,
    drop_percent: Binary64,
)
    requires
        low.le(high),
        is_rug(peak, high, drop_percent),
        peak.is_finite(),
        peak.minus(low).is_finite(),
        peak.minus(high).is_finite(),
    ensures
        is_rug(peak, low, drop_percent),
{
    crate::binary64::law_sums_keep_order(peak, high.negated(), low.negated());
    crate::binary64::law_quotients_keep_order(peak.minus(high), peak.minus(low), peak);
}

/// A watched token is dropped after a price exactly where the price is a rug against the highest
/// price so far, this one counted; and after the lack of one exactly where it had one before and
/// graduations are told of.
pub proof fn law_only_rugs_and_graduates_are_dropped(
    m: MonitorView,
    polled: Seq<Seq<char>>,
    prices: Seq<(Seq<char>, Binary64)>,
    now: Instant,
    mint: Seq<char>,
)
    requires
        m.watchlist.dom().contains(mint),
        polled.contains(mint),
        !m.watchlist[mint].peak_price_sol.is_nan(),
    ensures
        ({
            let before = m.watchlist[mint];
            let stays = polled_watchlist(m, polled, prices, now).dom().contains(mint);
            match price_for(prices, mint) {
                Some(price) => {
                    let peak = if before.peak_price_sol.lt(price) {
                        price
                    } else {
                        before.peak_price_sol
                    };
                    stays <==> !is_rug(peak, price, m.filters.rug_drop_percent)
                },
                None => stays <==> !(m.forwards && Binary64::from_u64(0).lt(before.last_price_sol)),
            }
        }),
{
}

proof fn lemma_price_for(prices: Seq<(Seq<char>, Binary64)>, mint: Seq<char>, k: int)
    requires
        0 <= k < prices.len(),
        prices[k].0 == mint,
        forall|j: int| k < j < prices.len() ==> (#[trigger] prices[j]).0 != mint,
    ensures
        price_for(prices, mint) == Some(prices[k].1),
    decreases prices.len(),
{
    if k < prices.len() - 1 {
        assert(prices.last() == prices[prices.len() - 1]);
        lemma_price_for(prices.drop_last(), mint, k);
    }
}

/// The price of a token is the one that the list gives last for it; a token that the list does not
/// name has none.
pub proof fn law_last_price_counts(prices: Seq<(Seq<char>, Binary64)>, mint: Seq<char>, k: int)
    ensures
        0 <= k < prices.len() && prices[k].0 == mint && (forall|j: int|
            k < j < prices.len() ==> (#[trigger] prices[j]).0 != mint) ==> price_for(prices, mint)
            == Some(prices[k].1),
        (forall|j: int| 0 <= j < prices.len() ==> (#[trigger] prices[j]).0 != mint) ==> price_for(
            prices,
            mint,
        ) is None,
    decreases prices.len(),
{
    if 0 <= k < prices.len() && prices[k].0 == mint && (forall|j: int|
        k < j < prices.len() ==> (#[trigger] prices[j]).0 != mint) {
        lemma_price_for(prices, mint, k);
    }
    if prices.len() > 0 && (forall|j: int|
        0 <= j < prices.len() ==> (#[trigger] prices[j]).0 != mint) {
        let front = prices.drop_last();
        assert(prices.last() == prices[prices.len() - 1]);
        assert forall|j: int| 0 <= j < front.len() implies (#[trigger] front[j]).0 != mint by {
            assert(front[j] == prices[j]);
        }
        law_last_price_counts(front, mint, -1);
    }
}

/// A token is watched until its minutes are over, and as it was until then.
pub proof fn law_tokens_are_watched_for_their_minutes(
    entries: Map<Seq<char>, EntryView>,
    filters: NewTokenFilters,
    now: Instant,
    k: Seq<char>,
)
    ensures
        unexpired(entries, filters, now).dom().contains(k) <==> entries.dom().contains(k)
            && filters.monitor_duration_minutes > 0 && now.nanos - entries[k].added_at.nanos
            < filters.monitor_duration_minutes * 60_000_000_000,
        unexpired(entries, filters, now).dom().contains(k) ==> unexpired(entries, filters, now)[k]
            == entries[k],
{
}

/// A token is asked for its price once its interval is over, the longer one from the minute on
/// that is set for it, unless it was handed on.
pub proof fn law_polls_come_at_their_intervals(e: EntryView, f: NewTokenFilters, now: Instant)
    requires
        e.added_at.nanos <= now.nanos,
        e.last_poll.nanos <= now.nanos,
    ensures
        poll_due(e, f, now) <==> !e.signal_sent && now.nanos - e.last_poll.nanos >= (if now.nanos
            - e.added_at.nanos >= f.reduced_poll_after_minutes * 60_000_000_000 {
            f.reduced_poll_interval_secs
        } else {
            f.poll_interval_secs
        }) * 1_000_000_000,
{
}

/// Figures are looked up for a token that has a price and was not handed on, every thirty seconds.
pub proof fn law_figures_are_looked_up_at_intervals(e: EntryView, now: Instant)
    ensures
        enrichment_due(e, now) <==> !e.signal_sent && Binary64::from_u64(0).lt(e.last_price_sol)
            && match e.last_enrichment {
            Some(last) => now.nanos - last.nanos >= 30_000_000_000,
            None => true,
        },
{
}

/// A token can be handed on once it has a price and either figures or fifteen seconds behind it.
pub proof fn law_candidates_have_figures_or_age(e: EntryView, now: Instant)
    ensures
        is_candidate(e, now) <==> !e.signal_sent && !e.last_price_sol.eq_number(
            Binary64::from_u64(0),
        ) && (e.enriched is Some || now.nanos - e.added_at.nanos >= 15_000_000_000),
{
}

/// A launch is taken on where it is not below the least capitalisation and not watched yet.
pub proof fn law_launches_are_taken_on(m: MonitorView, mint: Seq<char>, market_cap_sol: Binary64)
    ensures
        takes_on(m, mint, market_cap_sol) <==> !m.watchlist.dom().contains(mint)
            && !market_cap_sol.lt(m.filters.min_initial_market_cap_sol),
        !market_cap_sol.is_nan() && !m.filters.min_initial_market_cap_sol.is_nan() ==> (takes_on(
            m,
            mint,
            market_cap_sol,
        ) <==> !m.watchlist.dom().contains(mint) && m.filters.min_initial_market_cap_sol.le(
            market_cap_sol,
        )),
{
}

/// A new token pushes none out while there is room, and else the one that was watched longest,
/// and only that.
pub proof fn law_longest_watched_makes_room(
    before: Map<Seq<char>, EntryView>,
    after: Map<Seq<char>, EntryView>,
    cap: usize,
    mint: Seq<char>,
    now: Instant,
)
    requires
        taken_on(before, after, cap, mint, now),
        !before.dom().contains(mint),
    ensures
        before.dom().len() < cap ==> forall|k: Seq<char>| #[trigger]
            before.dom().contains(k) ==> after.dom().contains(k) && after[k] == before[k],
        before.dom().len() >= cap && before.dom().len() > 0 ==> exists|gone: Seq<char>|
            #![trigger before.dom().contains(gone)]
            {
                &&& before.dom().contains(gone)
                &&& !after.dom().contains(gone)
                &&& forall|k: Seq<char>| #[trigger]
                    before.dom().contains(k) ==> before[gone].added_at.nanos
                        <= before[k].added_at.nanos && (k != gone ==> after.dom().contains(k)
                        && after[k] == before[k])
            },
        after.dom().contains(mint),
{
    if before.dom().len() >= cap && before.dom().len() > 0 {
        let oldest = choose|oldest: Seq<char>|
            #[trigger] is_oldest(before, oldest) && after == before.remove(oldest).insert(
                mint,
                fresh_entry(now),
            );
        assert(before.dom().contains(oldest));
        assert(!after.dom().contains(oldest));
    }
}

/// A price that was read is the last one, and the highest where none was higher; without one only
/// the time of the poll is kept.
pub proof fn law_prices_are_noted(e: EntryView, price: Binary64, now: Instant)
    ensures
        ({
            let after = polled_entry(e, Some(price), now);
            &&& after.last_price_sol == price
            &&& after.last_poll == now
            &&& e.peak_price_sol.lt(price) ==> after.peak_price_sol == price
            &&& !e.peak_price_sol.lt(price) ==> after.peak_price_sol == e.peak_price_sol
            &&& after.added_at == e.added_at && after.signal_sent == e.signal_sent
            &&& after.enriched == e.enriched && after.last_enrichment == e.last_enrichment
        }),
        polled_entry(e, None, now) == (EntryView { last_poll: now, ..e }),
{
}

/// A token that is polled and stays is kept with what the poll has shown.
pub proof fn law_polled_tokens_are_kept_up(
    m: MonitorView,
    polled: Seq<Seq<char>>,
    prices: Seq<(Seq<char>, Binary64)>,
    now: Instant,
    mint: Seq<char>,
)
    requires
        polled.contains(mint),
        polled_watchlist(m, polled, prices, now).dom().contains(mint),
    ensures
        polled_watchlist(m, polled, prices, now)[mint] == polled_entry(
            m.watchlist[mint],
            price_for(prices, mint),
            now,
        ),
{
}

/// A token has graduated exactly where it is watched, was polled, had a price and has none now.
pub proof fn law_graduates_have_lost_their_price(
    watchlist: Map<Seq<char>, EntryView>,
    polled: Seq<Seq<char>>,
    prices: Seq<(Seq<char>, Binary64)>,
    mint: Seq<char>,
)
    ensures
        graduates(watchlist, polled, prices).contains(mint) <==> polled.contains(mint)
            && watchlist.dom().contains(mint) && Binary64::from_u64(0).lt(
            watchlist[mint].last_price_sol,
        ) && price_for(prices, mint) is None,
    decreases polled.len(),
{
    if polled.len() > 0 {
        let fewer = polled.drop_last();
        law_graduates_have_lost_their_price(watchlist, fewer, prices, mint);
        lemma_push_contains(fewer, polled.last(), mint);
        assert(fewer.push(polled.last()) == polled);
        lemma_push_contains(graduates(watchlist, fewer, prices), polled.last(), mint);
    }
}

/// Graduates are told of one by one, as changes of the watchlist.
pub proof fn law_graduates_are_told_of(mints: Seq<Seq<char>>, i: int)
    requires
        0 <= i < mints.len(),
    ensures
        transition_events(mints).len() == mints.len(),
        transition_events(mints)[i].mint == mints[i],
        transition_events(mints)[i].tx_type == "watchlist_transition"@,
        transition_events(mints)[i].signature.len() == 0,
        transition_events(mints)[i].pool.len() == 0,
{
}

/// The figures that came for a token are kept with it, the last of all, and so is the time of the
/// request, whether figures came or not.
pub proof fn law_figures_are_kept(
    watchlist: Map<Seq<char>, EntryView>,
    requested: Seq<Seq<char>>,
    tokens: Seq<TokenInfoView>,
    now: Instant,
    mint: Seq<char>,
    i: int,
)
    requires
        watchlist.dom().contains(mint),
    ensures
        ({
            let after = after_request(watchlist, requested, tokens, now);
            &&& after.dom().contains(mint)
            &&& requested.contains(mint) ==> after[mint].last_enrichment == Some(now)
            &&& 0 <= i < tokens.len() && tokens[i].address == mint && (forall|j: int|
                i < j < tokens.len() ==> (#[trigger] tokens[j]).address != mint)
                ==> after[mint].enriched == Some(tokens[i]) && after[mint].last_enrichment == Some(
                now,
            )
            &&& (forall|j: int|
                0 <= j < tokens.len() ==> (#[trigger] tokens[j]).address != mint)
                ==> after[mint].enriched == watchlist[mint].enriched
            &&& after[mint].last_price_sol == watchlist[mint].last_price_sol
            &&& after[mint].peak_price_sol == watchlist[mint].peak_price_sol
            &&& after[mint].added_at == watchlist[mint].added_at
            &&& after[mint].signal_sent == watchlist[mint].signal_sent
        }),
{
    lemma_filled(watchlist, tokens, now, mint, i);
}

proof fn lemma_filled(
    watchlist: Map<Seq<char>, EntryView>,
    tokens: Seq<TokenInfoView>,
    now: Instant,
    mint: Seq<char>,
    i: int,
)
    requires
        watchlist.dom().contains(mint),
    ensures
        ({
            let after = with_figures(watchlist, tokens, now);
            &&& after.dom().contains(mint)
            &&& 0 <= i < tokens.len() && tokens[i].address == mint && (forall|j: int|
                i < j < tokens.len() ==> (#[trigger] tokens[j]).address != mint)
                ==> after[mint].enriched == Some(tokens[i]) && after[mint].last_enrichment == Some(
                now,
            )
            &&& (forall|j: int|
                0 <= j < tokens.len() ==> (#[trigger] tokens[j]).address != mint) ==> after[mint]
                == watchlist[mint]
            &&& after[mint].last_price_sol == watchlist[mint].last_price_sol
            &&& after[mint].peak_price_sol == watchlist[mint].peak_price_sol
            &&& after[mint].added_at == watchlist[mint].added_at
            &&& after[mint].signal_sent == watchlist[mint].signal_sent
        }),
    decreases tokens.len(),
{
    if tokens.len() > 0 {
        let fewer = tokens.drop_last();
        lemma_filled(watchlist, fewer, now, mint, i);
        assert(tokens[tokens.len() - 1] == tokens.last());
        if 0 <= i < fewer.len() {
            assert(fewer[i] == tokens[i]);
        }
        if 0 <= i && forall|j: int|
            i < j < tokens.len() ==> (#[trigger] tokens[j]).address != mint {
            assert forall|j: int| i < j < fewer.len() implies (#[trigger] fewer[j]).address
                != mint by {
                assert(fewer[j] == tokens[j]);
            }
        }
        if forall|j: int| 0 <= j < tokens.len() ==> (#[trigger] tokens[j]).address != mint {
            assert forall|j: int| 0 <= j < fewer.len() implies (#[trigger] fewer[j]).address
                != mint by {
                assert(fewer[j] == tokens[j]);
            }
        }
    }
}

/// Without figures a token is taken at a billion times its price, at 185 dollars for each SOL,
/// with three tenths of that as liquidity and a hundred holders.
pub proof fn law_missing_figures_are_estimated(mint: Seq<char>, price: u64, created_at: Seq<char>)
    requires
        0 < price,
        price * 185_000_000_000 < 0x20_0000_0000_0000,
    ensures
        ({
            let token = synthesized(mint, Binary64::from_u64(price), created_at);
            let liquidity = Binary64::from_u64((price * 185_000_000_000) as u64).times(
                Binary64::ratio(3, 10),
            ).to_u64();
            &&& token.market_cap == price * 185_000_000_000
            &&& token.liquidity == (if liquidity < 1 {
                1
            } else {
                liquidity
            })
            &&& token.holders == 100
            &&& token.price_usd == Binary64::from_u64(price)
            &&& token.address == mint
            &&& token.created_at == created_at
            &&& token.age_hours == 0 && token.volume_24h == 0
            &&& token.just_graduated_at_secs is None
        }),
{
    crate::binary64::law_whole_products_are_exact(price, 1_000_000_000);
    crate::binary64::law_whole_products_are_exact((price * 1_000_000_000) as u64, 185);
    crate::binary64::law_whole_numbers_are_exact((price * 185_000_000_000) as u64);
}

/// A new token passes exactly where it meets every limit; a limit of zero is none.
pub proof fn law_new_tokens_meet_every_limit(f: NewTokenFilters, token: TokenInfoView)
    ensures
        meets(f, token) <==> token.market_cap >= f.min_market_cap && (f.max_market_cap == 0
            || token.market_cap <= f.max_market_cap) && token.holders >= f.min_holders
            && token.liquidity >= f.min_liquidity && token.volume_24h >= f.min_volume_24h,
{
}

/// A token is handed on with its figures, or with an estimate where it has none, and only where
/// these pass; from then on it is marked, and no other token is.
pub proof fn law_passing_tokens_are_handed_on(
    m: MonitorView,
    mint: Seq<char>,
    now: Instant,
    created_at: Seq<char>,
)
    ensures
        ({
            let e = m.watchlist[mint];
            let token = if e.enriched is Some {
                e.enriched->0
            } else {
                synthesized(mint, e.last_price_sol, created_at)
            };
            let after = marked(m, now, created_at);
            &&& is_ready(m, mint, now, created_at) <==> m.watchlist.dom().contains(mint)
                && is_candidate(e, now) && meets(m.filters, token)
            &&& is_ready(m, mint, now, created_at) ==> after[mint] == (EntryView {
                signal_sent: true,
                ..e
            })
            &&& m.watchlist.dom().contains(mint) && !is_ready(m, mint, now, created_at)
                ==> after[mint] == e
            &&& after.dom().contains(mint) <==> m.watchlist.dom().contains(mint)
            &&& tokens_of(m, seq![mint], created_at) == seq![token]
        }),
{
    assert(tokens_of(m, seq![mint], created_at) == seq![
        handed_on(mint, m.watchlist[mint], created_at),
    ]);
}

/// What is told of graduates: nothing unless that was asked for.
pub open spec fn told_graduates(
    m: MonitorView,
    polled: Seq<Seq<char>>,
    prices: Seq<(Seq<char>, Binary64)>,
) -> Seq<MigrationView> {
    if m.forwards {
        transition_events(graduates(m.watchlist, polled, prices))
    } else {
        Seq::empty()
    }
}

/// A graduate is told of exactly where that was asked for: a token that is watched, was polled,
/// had a price and has none now.
pub proof fn law_graduations_are_told(
    m: MonitorView,
    polled: Seq<Seq<char>>,
    prices: Seq<(Seq<char>, Binary64)>,
    mint: Seq<char>,
)
    ensures
        (exists|i: int|
            0 <= i < told_graduates(m, polled, prices).len() && (#[trigger] told_graduates(
                m,
                polled,
                prices,
            )[i]).mint == mint) <==> m.forwards && polled.contains(mint)
            && m.watchlist.dom().contains(mint) && Binary64::from_u64(0).lt(
            m.watchlist[mint].last_price_sol,
        ) && price_for(prices, mint) is None,
{
    law_graduates_have_lost_their_price(m.watchlist, polled, prices, mint);
    let (mints, told) = (
        graduates(m.watchlist, polled, prices),
        told_graduates(m, polled, prices),
    );
    if m.forwards {
        assert forall|i: int| 0 <= i < told.len() implies (#[trigger] told[i]).mint == mints[i] by {
        }
        if mints.contains(mint) {
            let i = choose|i: int| 0 <= i < mints.len() && mints[i] == mint;
            assert(told[i].mint == mint);
        }
    }
}

} // verus!
