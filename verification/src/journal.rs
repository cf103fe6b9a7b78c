//! The journal of trades.
use crate::binary64::Binary64;
use crate::clock::Timestamp;
use crate::exits::gain_percent;
use crate::pumpportal::{TokenInfo, TokenInfoView};
use crate::strategies::Reason;
use crate::trading::{Trade, TradeView};
use vstd::prelude::*;

verus! {

/// What the journal holds of a buy.
#[derive(Debug)]
pub struct BuyEntry {
    pub timestamp: Timestamp,
    pub token: TokenInfo,
    pub sol_spent: Binary64,
    pub tokens_received: u64,
    pub tx_signature: Option<String>,
    pub source_wallet: Option<String>,
}

#[verifier::ext_equal]
pub struct BuyEntryView {
    pub timestamp: Timestamp,
    pub token: TokenInfoView,
    pub sol_spent: Binary64,
    pub tokens_received: u64,
    pub tx_signature: Option<Seq<char>>,
    pub source_wallet: Option<Seq<char>>,
}

impl View for BuyEntry {
    type V = BuyEntryView;

    open spec fn view(&self) -> BuyEntryView {
        BuyEntryView {
            timestamp: self.timestamp,
            token: self.token@,
            sol_spent: self.sol_spent,
            tokens_received: self.tokens_received,
            tx_signature: crate::trading::text_view(self.tx_signature),
            source_wallet: crate::trading::text_view(self.source_wallet),
        }
    }
}

/// What the journal holds of a sale.
#[derive(Debug)]
pub struct SellEntry {
    pub timestamp: Timestamp,
    pub token_address: String,
    pub entry_price_sol: Binary64,
    pub exit_token: TokenInfo,
    pub pnl_percent: Binary64,
    pub peak_pnl_percent: Binary64,
    pub exit_reason: Reason,
    pub tokens_sold: u64,
    pub profit_loss_sol: Option<Binary64>,
    pub sol_spent: Binary64,
    pub sol_received: Option<Binary64>,
    pub tx_signature: Option<String>,
    pub source_wallet: Option<String>,
}

#[verifier::ext_equal]
pub struct SellEntryView {
    pub timestamp: Timestamp,
    pub token_address: Seq<char>,
    pub entry_price_sol: Binary64,
    pub exit_token: TokenInfoView,
    pub pnl_percent: Binary64,
    pub peak_pnl_percent: Binary64,
    pub exit_reason: Reason,
    pub tokens_sold: u64,
    pub profit_loss_sol: Option<Binary64>,
    pub sol_spent: Binary64,
    pub sol_received: Option<Binary64>,
    pub tx_signature: Option<Seq<char>>,
    pub source_wallet: Option<Seq<char>>,
}

impl View for SellEntry {
    type V = SellEntryView;

    open spec fn view(&self) -> SellEntryView {
        SellEntryView {
            timestamp: self.timestamp,
            token_address: self.token_address@,
            entry_price_sol: self.entry_price_sol,
            exit_token: self.exit_token@,
            pnl_percent: self.pnl_percent,
            peak_pnl_percent: self.peak_pnl_percent,
            exit_reason: self.exit_reason,
            tokens_sold: self.tokens_sold,
            profit_loss_sol: self.profit_loss_sol,
            sol_spent: self.sol_spent,
            sol_received: self.sol_received,
            tx_signature: crate::trading::text_view(self.tx_signature),
            source_wallet: crate::trading::text_view(self.source_wallet),
        }
    }
}

/// The entry of a buy.
pub open spec fn buy_entry(
    token: TokenInfoView,
    trade: TradeView,
    sol_spent: Binary64,
    source_wallet: Option<Seq<char>>,
    now: Timestamp,
) -> BuyEntryView {
    BuyEntryView {
        timestamp: now,
        token,
        sol_spent,
        tokens_received: trade.amount,
        tx_signature: trade.signature,
        source_wallet,
    }
}

/// The result of a sale, in percent of what was spent; zero where what came in is not known.
pub open spec fn realized_percent(received: Option<Binary64>, spent: Binary64) -> Binary64 {
    match received {
        Some(r) => gain_percent(r, spent),
        None => Binary64::from_u64(0),
    }
}

/// What the journal needs to know of a position.
#[derive(Debug)]
pub struct PositionBrief {
    pub entry_price: Binary64,
    pub sol_spent: Binary64,
    pub peak_pnl_percent: Binary64,
    pub source_wallet: Option<String>,
}

/// The entry of a sale.
pub open spec fn sell_entry(
    address: Seq<char>,
    brief: PositionBrief,
    exit_token: TokenInfoView,
    trade: TradeView,
    reason: Reason,
    now: Timestamp,
) -> SellEntryView {
    SellEntryView {
        timestamp: now,
        token_address: address,
        entry_price_sol: brief.entry_price,
        exit_token,
        pnl_percent: realized_percent(trade.sol_received, brief.sol_spent),
        peak_pnl_percent: brief.peak_pnl_percent,
        exit_reason: reason,
        tokens_sold: trade.amount,
        profit_loss_sol: trade.profit_loss,
        sol_spent: brief.sol_spent,
        sol_received: trade.sol_received,
        tx_signature: trade.signature,
        source_wallet: crate::trading::text_view(brief.source_wallet),
    }
}

pub(crate) fn copy_text(text: &Option<String>) -> (r: Option<String>)
    ensures
        crate::trading::text_view(r) == crate::trading::text_view(*text),
{
    match text {
        Some(t) => Some(t.clone()),
        None => None,
    }
}

/// Makes the entry of a buy.
pub fn log_buy(
    token: &TokenInfo,
    trade: &Trade,
    sol_spent: Binary64,
    source_wallet: &Option<String>,
    now: Timestamp,
) -> (r: BuyEntry)
    ensures
        r@ == buy_entry(
            token@,
            trade@,
            sol_spent,
            crate::trading::text_view(*source_wallet),
            now,
        ),
{
    BuyEntry {
        timestamp: now,
        token: token.clone(),
        sol_spent,
        tokens_received: trade.amount,
        tx_signature: copy_text(&trade.signature),
        source_wallet: copy_text(source_wallet),
    }
}

/// Makes the entry of a sale.
pub fn log_sell(
    token_address: &str,
    brief: &PositionBrief,
    exit_token: &TokenInfo,
    trade: &Trade,
    exit_reason: Reason,
    now: Timestamp,
) -> (r: SellEntry)
    ensures
        r@ == sell_entry(token_address@, *brief, exit_token@, trade@, exit_reason, now),
{
    let pnl_percent = match trade.sol_received {
        Some(received) => gain_percent(received, brief.sol_spent),
        None => Binary64::from_u64(0),
    };
    SellEntry {
        timestamp: now,
        token_address: token_address.to_owned(),
        entry_price_sol: brief.entry_price,
        exit_token: exit_token.clone(),
        pnl_percent,
        peak_pnl_percent: brief.peak_pnl_percent,
        exit_reason,
        tokens_sold: trade.amount,
        profit_loss_sol: trade.profit_loss,
        sol_spent: brief.sol_spent,
        sol_received: trade.sol_received,
        tx_signature: copy_text(&trade.signature),
        source_wallet: copy_text(&brief.source_wallet),
    }
}

/// What is written down of a purchase and of a sale is what was paid, what came in and what the
/// trade says of itself.
pub proof fn law_trades_are_written_down(
    token: TokenInfoView,
    trade: TradeView,
    sol_spent: Binary64,
    source_wallet: Option<Seq<char>>,
    address: Seq<char>,
    brief: PositionBrief,
    reason: Reason,
    now: Timestamp,
)
    ensures
        ({
            let bought = buy_entry(token, trade, sol_spent, source_wallet, now);
            &&& bought.timestamp == now
            &&& bought.token == token
            &&& bought.sol_spent == sol_spent
            &&& bought.tokens_received == trade.amount
            &&& bought.tx_signature == trade.signature
            &&& bought.source_wallet == source_wallet
        }),
        ({
            let sold = sell_entry(address, brief, token, trade, reason, now);
            &&& sold.timestamp == now
            &&& sold.token_address == address
            &&& sold.exit_token == token
            &&& sold.exit_reason == reason
            &&& sold.tokens_sold == trade.amount
            &&& sold.tx_signature == trade.signature
            &&& sold.profit_loss_sol == trade.profit_loss
            &&& sold.sol_received == trade.sol_received
            &&& sold.sol_spent == brief.sol_spent
            &&& sold.entry_price_sol == brief.entry_price
            &&& sold.peak_pnl_percent == brief.peak_pnl_percent
            &&& sold.source_wallet == crate::trading::text_view(brief.source_wallet)
        }),
{
}

/// The gain that is written down is what came in over what was spent, in percent of the latter;
/// without a count of what came in it is none.
pub proof fn law_written_gains_are_realized(
    address: Seq<char>,
    brief: PositionBrief,
    token: TokenInfoView,
    trade: TradeView,
    reason: Reason,
    now: Timestamp,
    spent: u64,
    received: u64,
)
    requires
        brief.sol_spent == Binary64::from_u64(spent),
        0 < spent <= received < 0x20_0000_0000_0000,
    ensures
        trade.sol_received == Some(Binary64::from_u64(received)) ==> sell_entry(
            address,
            brief,
            token,
            trade,
            reason,
            now,
        ).pnl_percent == Binary64::ratio((received - spent) as u64, spent).times(
            Binary64::from_u64(100),
        ),
        trade.sol_received is None ==> sell_entry(
            address,
            brief,
            token,
            trade,
            reason,
            now,
        ).pnl_percent == Binary64::from_u64(0),
{
    crate::exits::lemma_whole_share(received, spent, spent);
}

} // verus!
