//! Positions as a file keeps them from one run to the next.
use crate::binary64::Binary64;
use crate::clock::Timestamp;
use crate::keyed::Keyed;
use crate::pubkey::{KeyError, Pubkey};
use crate::trading::{EngineView, Position, PositionSnapshot, PositionView, TradingEngine};
use vstd::prelude::*;

verus! {

/// A position in a file. Files of earlier versions do not tell of failures.
#[derive(Debug)]
pub struct StoredPosition {
    pub token_address: String,
    pub token_mint: String,
    pub amount: u64,
    pub entry_price: Binary64,
    pub entry_time: Timestamp,
    pub peak_pnl_percent: Binary64,
    pub source_wallet: Option<String>,
    pub sol_spent: Binary64,
    pub sell_failures: Option<u32>,
    pub last_sell_failure: Option<Timestamp>,
    pub price_failures: Option<u32>,
    pub last_price_failure: Option<Timestamp>,
}

#[verifier::ext_equal]
pub struct StoredView {
    pub token_address: Seq<char>,
    pub token_mint: Seq<char>,
    pub amount: u64,
    pub entry_price: Binary64,
    pub entry_time: Timestamp,
    pub peak_pnl_percent: Binary64,
    pub source_wallet: Option<Seq<char>>,
    pub sol_spent: Binary64,
    pub sell_failures: Option<u32>,
    pub last_sell_failure: Option<Timestamp>,
    pub price_failures: Option<u32>,
    pub last_price_failure: Option<Timestamp>,
}

impl View for StoredPosition {
    type V = StoredView;

    open spec fn view(&self) -> StoredView {
        StoredView {
            token_address: self.token_address@,
            token_mint: self.token_mint@,
            amount: self.amount,
            entry_price: self.entry_price,
            entry_time: self.entry_time,
            peak_pnl_percent: self.peak_pnl_percent,
            source_wallet: crate::trading::text_view(self.source_wallet),
            sol_spent: self.sol_spent,
            sell_failures: self.sell_failures,
            last_sell_failure: self.last_sell_failure,
            price_failures: self.price_failures,
            last_price_failure: self.last_price_failure,
        }
    }
}

/// What a file holds: the positions, and the times of the last trades.
pub struct StoredSnapshot {
    pub positions: Keyed<StoredPosition>,
    pub last_trade_time: Keyed<Timestamp>,
}

pub open spec fn stored_views(positions: Map<Seq<char>, StoredPosition>) -> Map<
    Seq<char>,
    StoredView,
> {
    positions.map_values(|p: StoredPosition| p@)
}

/// How a position is written down: all but DexScreener's figures and the price history, which
/// the next run gathers anew.
pub open spec fn stored_position(p: PositionView) -> StoredView {
    StoredView {
        token_address: p.token_address,
        token_mint: crate::pubkey::base58_text(p.token_mint),
        amount: p.amount,
        entry_price: p.entry_price,
        entry_time: p.entry_time,
        peak_pnl_percent: p.peak_pnl_percent,
        source_wallet: p.source_wallet,
        sol_spent: p.sol_spent,
        sell_failures: Some(p.sell_failures),
        last_sell_failure: p.last_sell_failure,
        price_failures: Some(p.price_failures),
        last_price_failure: p.last_price_failure,
    }
}

/// Whether a position is written down so that its mint can be read again.
pub open spec fn records(s: StoredView, p: PositionView) -> bool {
    s == stored_position(p) && crate::pubkey::base58_key(s.token_mint) == Ok::<Seq<u8>, KeyError>(
        p.token_mint,
    )
}

/// A count, zero where the file does not tell of it.
pub open spec fn count_or_zero(count: Option<u32>) -> u32 {
    match count {
        Some(n) => n,
        None => 0,
    }
}

/// The position that is taken up from what a file holds of it.
pub open spec fn loaded_position(s: StoredView) -> PositionView {
    PositionView {
        token_address: s.token_address,
        token_mint: crate::pubkey::base58_key(s.token_mint)->Ok_0,
        amount: s.amount,
        entry_price: s.entry_price,
        entry_time: s.entry_time,
        peak_pnl_percent: s.peak_pnl_percent,
        source_wallet: s.source_wallet,
        sol_spent: s.sol_spent,
        cached_market_cap: None,
        cached_holders: None,
        cached_volume_24h: None,
        cached_liquidity: None,
        last_enrichment: None,
        price_history: Seq::empty(),
        sell_failures: count_or_zero(s.sell_failures),
        last_sell_failure: s.last_sell_failure,
        price_failures: count_or_zero(s.price_failures),
        last_price_failure: s.last_price_failure,
    }
}

/// Whether the mints of all positions can be read.
pub open spec fn readable(positions: Map<Seq<char>, StoredView>) -> bool {
    forall|k: Seq<char>| #[trigger]
        positions.dom().contains(k) ==> crate::pubkey::base58_key(positions[k].token_mint) is Ok
}

/// Whether there is a file that can be taken up.
pub open spec fn loads(stored: Option<StoredSnapshot>) -> bool {
    match stored {
        Some(s) => readable(stored_views(s.positions@)),
        None => false,
    }
}

/// The positions that are taken up: none where the file is missing or cannot be read.
pub open spec fn loaded_positions(stored: Option<StoredSnapshot>) -> Map<Seq<char>, PositionView> {
    if loads(stored) {
        stored_views(stored->0.positions@).map_values(|s: StoredView| loaded_position(s))
    } else {
        Map::empty()
    }
}

/// The times of the last trades that are taken up.
pub open spec fn loaded_times(stored: Option<StoredSnapshot>) -> Map<Seq<char>, Timestamp> {
    if loads(stored) {
        stored->0.last_trade_time@
    } else {
        Map::empty()
    }
}

impl Position {
    /// The position as it is written down.
    pub(crate) fn stored(&self) -> (r: StoredPosition)
        ensures
            records(r@, self@),
    {
        StoredPosition {
            token_address: self.token_address.clone(),
            token_mint: self.token_mint.to_text(),
            amount: self.amount,
            entry_price: self.entry_price,
            entry_time: self.entry_time,
            peak_pnl_percent: self.peak_pnl_percent,
            source_wallet: crate::journal::copy_text(&self.source_wallet),
            sol_spent: self.sol_spent,
            sell_failures: Some(self.sell_failures),
            last_sell_failure: self.last_sell_failure,
            price_failures: Some(self.price_failures),
            last_price_failure: self.last_price_failure,
        }
    }
}

impl StoredPosition {
    /// The position that the file tells of, where its mint can be read.
    fn load(&self) -> (r: Option<Position>)
        ensures
            match r {
                Some(p) => crate::pubkey::base58_key(self@.token_mint) is Ok && p@
                    == loaded_position(self@),
                None => crate::pubkey::base58_key(self@.token_mint) is Err,
            },
    {
        let token_mint: Pubkey = match Pubkey::parse(self.token_mint.as_str()) {
            Ok(key) => key,
            Err(_) => {
                return None;
            },
        };
        let p = Position {
            token_address: self.token_address.clone(),
            token_mint,
            amount: self.amount,
            entry_price: self.entry_price,
            entry_time: self.entry_time,
            peak_pnl_percent: self.peak_pnl_percent,
            source_wallet: crate::journal::copy_text(&self.source_wallet),
            sol_spent: self.sol_spent,
            cached_market_cap: None,
            cached_holders: None,
            cached_volume_24h: None,
            cached_liquidity: None,
            last_enrichment: None,
            price_history: Vec::new(),
            sell_failures: match self.sell_failures {
                Some(n) => n,
                None => 0,
            },
            last_sell_failure: self.last_sell_failure,
            price_failures: match self.price_failures {
                Some(n) => n,
                None => 0,
            },
            last_price_failure: self.last_price_failure,
        };
        assert(p@ =~= loaded_position(self@));
        Some(p)
    }
}

fn nothing_loaded() -> (r: PositionSnapshot)
    ensures
        crate::trading::position_views(r.positions@) == Map::<Seq<char>, PositionView>::empty(),
        r.last_trade_time@ == Map::<Seq<char>, Timestamp>::empty(),
{
    let r = PositionSnapshot { positions: Keyed::new(), last_trade_time: Keyed::new() };
    assert(crate::trading::position_views(r.positions@) =~= Map::<
        Seq<char>,
        PositionView,
    >::empty());
    r
}

impl TradingEngine {
    /// Takes up what an earlier run wrote down. A file that is missing, or that holds a mint that
    /// cannot be read, gives nothing.
    pub fn load_positions(stored: Option<StoredSnapshot>) -> (r: PositionSnapshot)
        ensures
            crate::trading::position_views(r.positions@) == loaded_positions(stored),
            r.last_trade_time@ == loaded_times(stored),
    {
        let file: StoredSnapshot = match stored {
            Some(file) => file,
            None => {
                return nothing_loaded();
            },
        };
        let ghost all = stored_views(file.positions@);
        let keys: Vec<String> = file.positions.keys();
        let ghost names = crate::text::texts(keys@);
        let mut positions: Keyed<Position> = Keyed::new();
        let mut i: usize = 0;
        while i < keys.len()
            invariant
                i <= keys@.len(),
                stored == Some(file),
                all == stored_views(file.positions@),
                names == crate::text::texts(keys@),
                names.to_set() == all.dom(),
                forall|k: Seq<char>|
                    positions@.dom().contains(k) == names.take(i as int).contains(k),
                forall|k: Seq<char>| #[trigger]
                    positions@.dom().contains(k) ==> {
                        &&& crate::pubkey::base58_key(all[k].token_mint) is Ok
                        &&& positions@[k]@ == loaded_position(all[k])
                    },
            decreases keys@.len() - i,
        {
            let name: &String = &keys[i];
            assert(names[i as int] == name@);
            assert(names.to_set().contains(name@));
            proof {
                crate::text::lemma_takes_one_more(names, i as int);
            }
            assert(all.dom().contains(name@));
            if let Some(position) = file.positions.get(name.as_str()) {
                assert(all[name@] == position@);
                match position.load() {
                    Some(p) => {
                        positions.insert(name.clone(), p);
                    },
                    None => {
                        assert(!readable(all));
                        return nothing_loaded();
                    },
                }
            }
            i = i + 1;
        }
        assert(names.take(names.len() as int) =~= names);
        assert forall|k: Seq<char>| positions@.dom().contains(k) == all.dom().contains(k) by {
            assert(names.to_set().contains(k) == names.contains(k));
        }
        assert forall|k: Seq<char>| #[trigger] all.dom().contains(k) implies crate::pubkey::base58_key(
            all[k].token_mint,
        ) is Ok by {
            assert(positions@.dom().contains(k));
            assert(positions@[k]@ == loaded_position(all[k]));
        }
        assert(crate::trading::position_views(positions@) =~= loaded_positions(stored));
        PositionSnapshot { positions, last_trade_time: file.last_trade_time }
    }
}

/// What is written down of an engine.
pub open spec fn saved(e: EngineView, file: StoredSnapshot) -> bool {
    &&& stored_views(file.positions@).dom() == e.positions.dom()
    &&& forall|k: Seq<char>| #[trigger]
        e.positions.dom().contains(k) ==> records(stored_views(file.positions@)[k], e.positions[k])
    &&& file.last_trade_time@ == e.last_trade_time
}

/// A run that takes up what the last one wrote down holds the same positions, with the same
/// amounts, entry prices, highest gains, failures and cooldowns. Only DexScreener's figures and
/// the price history are gathered anew.
pub proof fn law_restart_keeps_positions(e: EngineView, file: StoredSnapshot)
    requires
        saved(e, file),
    ensures
        loads(Some(file)),
        loaded_times(Some(file)) == e.last_trade_time,
        loaded_positions(Some(file)) == crate::trading::kept_positions(e.positions),
{
    let all = stored_views(file.positions@);
    assert forall|k: Seq<char>| #[trigger] all.dom().contains(k) implies crate::pubkey::base58_key(
        all[k].token_mint,
    ) is Ok by {
        assert(e.positions.dom().contains(k));
    }
    assert forall|k: Seq<char>| #[trigger] e.positions.dom().contains(k) implies loaded_position(
        all[k],
    ) == crate::trading::kept_position(e.positions[k]) by {
        assert(loaded_position(all[k]) =~= crate::trading::kept_position(e.positions[k]));
    }
    assert(loaded_positions(Some(file)) =~= crate::trading::kept_positions(e.positions));
}

/// What outlasts a restart outlasts any number of them.
pub proof fn law_restarts_keep_the_same(positions: Map<Seq<char>, PositionView>)
    ensures
        crate::trading::kept_positions(crate::trading::kept_positions(positions))
            == crate::trading::kept_positions(positions),
{
    assert(crate::trading::kept_positions(crate::trading::kept_positions(positions))
        =~= crate::trading::kept_positions(positions));
}

/// A missing file, and one that cannot be read, start a run without positions and cooldowns.
pub proof fn law_unreadable_files_give_nothing(stored: Option<StoredSnapshot>, address: Seq<char>)
    requires
        stored is Some ==> stored_views(stored->0.positions@).dom().contains(address)
            && crate::pubkey::base58_key(
            stored_views(stored->0.positions@)[address].token_mint,
        ) is Err,
    ensures
        loaded_positions(stored) == Map::<Seq<char>, PositionView>::empty(),
        loaded_times(stored) == Map::<Seq<char>, Timestamp>::empty(),
{
}

/// A position in a file that tells of no failures is taken up without failures.
pub proof fn law_untold_failures_are_none(stored: StoredSnapshot, address: Seq<char>)
    requires
        loads(Some(stored)),
        stored_views(stored.positions@).dom().contains(address),
        stored_views(stored.positions@)[address].sell_failures is None,
        stored_views(stored.positions@)[address].last_sell_failure is None,
        stored_views(stored.positions@)[address].price_failures is None,
        stored_views(stored.positions@)[address].last_price_failure is None,
    ensures
        loaded_positions(Some(stored)).dom().contains(address),
        loaded_positions(Some(stored))[address].sell_failures == 0,
        loaded_positions(Some(stored))[address].last_sell_failure is None,
        loaded_positions(Some(stored))[address].price_failures == 0,
        loaded_positions(Some(stored))[address].last_price_failure is None,
{
}

/// What matters of a position is the same after a restart: what is held and what it cost, how it
/// has stood, where it came from and what has failed with it.
pub proof fn law_restarts_forget_nothing_that_matters(
    e: EngineView,
    file: StoredSnapshot,
    address: Seq<char>,
)
    requires
        saved(e, file),
        e.positions.dom().contains(address),
    ensures
        loaded_positions(Some(file)).dom() == e.positions.dom(),
        ({
            let (before, after) = (e.positions[address], loaded_positions(Some(file))[address]);
            &&& after.token_address == before.token_address
            &&& after.token_mint == before.token_mint
            &&& after.amount == before.amount
            &&& after.entry_price == before.entry_price
            &&& after.entry_time == before.entry_time
            &&& after.peak_pnl_percent == before.peak_pnl_percent
            &&& after.source_wallet == before.source_wallet
            &&& after.sol_spent == before.sol_spent
            &&& after.sell_failures == before.sell_failures
            &&& after.last_sell_failure == before.last_sell_failure
            &&& after.price_failures == before.price_failures
            &&& after.last_price_failure == before.last_price_failure
        }),
{
    law_restart_keeps_positions(e, file);
}

} // verus!
