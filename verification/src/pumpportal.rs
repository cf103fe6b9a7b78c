//! What the feeds and the chain tell of tokens.
use crate::binary64::Binary64;
use crate::pubkey::Pubkey;
use vstd::prelude::*;

verus! {

/// What is known of a token.
#[derive(Debug)]
pub struct TokenInfo {
    pub address: String,
    pub symbol: String,
    pub name: String,
    pub decimals: u8,
    pub market_cap: u64,
    pub holders: u32,
    pub age_hours: u32,
    pub liquidity: u64,
    pub price_usd: Binary64,
    pub price_change_24h: Binary64,
    pub volume_24h: u64,
    pub created_at: String,
    /// Seconds since the token graduated from the bonding curve to a pool. Set only where the
    /// token comes from a graduation event.
    pub just_graduated_at_secs: Option<u64>,
}

#[verifier::ext_equal]
pub struct TokenInfoView {
    pub address: Seq<char>,
    pub symbol: Seq<char>,
    pub name: Seq<char>,
    pub decimals: u8,
    pub market_cap: u64,
    pub holders: u32,
    pub age_hours: u32,
    pub liquidity: u64,
    pub price_usd: Binary64,
    pub price_change_24h: Binary64,
    pub volume_24h: u64,
    pub created_at: Seq<char>,
    pub just_graduated_at_secs: Option<u64>,
}

impl View for TokenInfo {
    type V = TokenInfoView;

    open spec fn view(&self) -> TokenInfoView {
        TokenInfoView {
            address: self.address@,
            symbol: self.symbol@,
            name: self.name@,
            decimals: self.decimals,
            market_cap: self.market_cap,
            holders: self.holders,
            age_hours: self.age_hours,
            liquidity: self.liquidity,
            price_usd: self.price_usd,
            price_change_24h: self.price_change_24h,
            volume_24h: self.volume_24h,
            created_at: self.created_at@,
            just_graduated_at_secs: self.just_graduated_at_secs,
        }
    }
}

impl Clone for TokenInfo {
    fn clone(&self) -> (r: Self)
        ensures
            r@ == self@,
    {
        TokenInfo {
            address: self.address.clone(),
            symbol: self.symbol.clone(),
            name: self.name.clone(),
            decimals: self.decimals,
            market_cap: self.market_cap,
            holders: self.holders,
            age_hours: self.age_hours,
            liquidity: self.liquidity,
            price_usd: self.price_usd,
            price_change_24h: self.price_change_24h,
            volume_24h: self.volume_24h,
            created_at: self.created_at.clone(),
            just_graduated_at_secs: self.just_graduated_at_secs,
        }
    }
}

/// A token of which no market figures are known.
pub open spec fn unlisted_token(
    address: Seq<char>,
    symbol: Seq<char>,
    name: Seq<char>,
    price: Binary64,
    created_at: Seq<char>,
    graduated: Option<u64>,
) -> TokenInfoView {
    TokenInfoView {
        address,
        symbol,
        name,
        decimals: 6,
        market_cap: 0,
        holders: 0,
        age_hours: 0,
        liquidity: 0,
        price_usd: price,
        price_change_24h: Binary64::from_u64(0),
        volume_24h: 0,
        created_at,
        just_graduated_at_secs: graduated,
    }
}

impl TokenInfo {
    pub(crate) fn unlisted(
        address: &str,
        symbol: &str,
        name: &str,
        price: Binary64,
        created_at: &str,
        graduated: Option<u64>,
    ) -> (r: TokenInfo)
        ensures
            r@ == unlisted_token(address@, symbol@, name@, price, created_at@, graduated),
    {
        TokenInfo {
            address: address.to_owned(),
            symbol: symbol.to_owned(),
            name: name.to_owned(),
            decimals: 6,
            market_cap: 0,
            holders: 0,
            age_hours: 0,
            liquidity: 0,
            price_usd: price,
            price_change_24h: Binary64::from_u64(0),
            volume_24h: 0,
            created_at: created_at.to_owned(),
            just_graduated_at_secs: graduated,
        }
    }
}

/// A pool that trades a graduated token against SOL.
#[derive(Clone, Copy, Debug)]
pub struct PumpSwapPoolInfo {
    pub pool_id: Pubkey,
    pub base_vault: Pubkey,
    pub quote_vault: Pubkey,
}

#[verifier::ext_equal]
pub struct PoolView {
    pub pool_id: Seq<u8>,
    pub base_vault: Seq<u8>,
    pub quote_vault: Seq<u8>,
}

impl View for PumpSwapPoolInfo {
    type V = PoolView;

    open spec fn view(&self) -> PoolView {
        PoolView {
            pool_id: self.pool_id@,
            base_vault: self.base_vault@,
            quote_vault: self.quote_vault@,
        }
    }
}

/// A token has been created.
#[derive(Debug)]
pub struct NewTokenEvent {
    pub mint: String,
    pub bonding_curve_key: String,
    pub market_cap_sol: Binary64,
}

/// A token has graduated from the bonding curve to a pool.
#[derive(Debug)]
pub struct MigrationEvent {
    pub mint: String,
    pub tx_type: String,
    pub signature: String,
    pub pool: String,
}

#[verifier::ext_equal]
pub struct MigrationView {
    pub mint: Seq<char>,
    pub tx_type: Seq<char>,
    pub signature: Seq<char>,
    pub pool: Seq<char>,
}

impl View for MigrationEvent {
    type V = MigrationView;

    open spec fn view(&self) -> MigrationView {
        MigrationView {
            mint: self.mint@,
            tx_type: self.tx_type@,
            signature: self.signature@,
            pool: self.pool@,
        }
    }
}

} // verus!
