//! Prices read from the chain: from bonding curves and from pools.
use crate::binary64::Binary64;
use crate::error::{joined, BotError, ErrorKind, ErrorView};
use crate::pubkey::{find_address, parse_mint, KeyError, Pubkey};
use crate::pumpportal::{PoolView, PumpSwapPoolInfo};
use crate::text::decimal_text;
use vstd::prelude::*;

verus! {

/// The program that owns the bonding curves.
pub const PUMPFUN_PROGRAM_ID: &'static str = "6EF8rrecthR5Dkzon8Nwu78hRvfCKubJ14M5uBEwF6P";

/// The program that owns the pools of graduated tokens.
pub const PUMP_SWAP_PROGRAM_ID: &'static str = "pAMMBay6oceH9fJKBRHGP5D4bD4sWpmSwMn52FMfXEA";

/// The mint of wrapped SOL.
pub const SOL_MINT_STR: &'static str = "So11111111111111111111111111111111111111112";

/// The number in `n` bytes from `at` on, lowest byte first.
pub open spec fn le_number(data: Seq<u8>, at: int, n: nat) -> nat
    decreases n,
{
    if n == 0 {
        0
    } else {
        data[at] as nat + 256 * le_number(data, at + 1, (n - 1) as nat)
    }
}

/// The 64-bit number from `at` on.
pub open spec fn le_u64(data: Seq<u8>, at: int) -> u64 {
    le_number(data, at, 8) as u64
}

fn read_u64(data: &Vec<u8>, at: usize) -> (r: u64)
    requires
        at + 8 <= data@.len(),
    ensures
        r == le_u64(data@, at as int),
        r == le_number(data@, at as int, 8),
{
    proof {
        reveal_with_fuel(le_number, 9);
    }
    let n: usize = data.len();
    assert(at + 8 <= n);
    let low: u64 = data[at] as u64 + 256 * (data[at + 1] as u64 + 256 * (data[at + 2] as u64 + 256
        * (data[at + 3] as u64)));
    let high: u64 = data[at + 4] as u64 + 256 * (data[at + 5] as u64 + 256 * (data[at + 6] as u64
        + 256 * (data[at + 7] as u64)));
    low + 4_294_967_296 * high
}

/// An error of pricing.
pub open spec fn portal_error(detail: Seq<char>) -> ErrorView {
    ErrorView { kind: ErrorKind::PumpPortal, detail }
}

/// The outcome is the expected value, or an error with the expected particulars.
pub open spec fn portal_gives<T>(r: Result<T, BotError>, expected: Result<T, Seq<char>>) -> bool {
    match r {
        Ok(v) => expected == Ok::<T, Seq<char>>(v),
        Err(e) => expected is Err && e@ == portal_error(expected->Err_0),
    }
}

fn portal<T>(detail: String) -> (r: Result<T, BotError>)
    ensures
        r is Err,
        r->Err_0@ == portal_error(detail@),
{
    Err(BotError::PumpPortal(detail))
}

/// The address of the bonding curve of a mint.
pub open spec fn curve_address(mint: Seq<u8>) -> Result<Seq<u8>, Seq<char>> {
    match crate::pubkey::base58_key(PUMPFUN_PROGRAM_ID@) {
        Err(e) => Err("Invalid program ID: "@ + crate::pubkey::key_error_text(e)),
        Ok(program) => match crate::pubkey::program_address(
            vstd::utf8::encode_utf8("bonding-curve"@),
            mint,
            program,
        ) {
            Some(address) => Ok(address),
            None => Err("No program address for the mint"@),
        },
    }
}

/// Derives the address of the bonding curve of a mint.
pub fn derive_bonding_curve_pda(mint: &Pubkey) -> (r: Result<Pubkey, BotError>)
    ensures
        match r {
            Ok(key) => curve_address(mint@) == Ok::<Seq<u8>, Seq<char>>(key@),
            Err(e) => curve_address(mint@) is Err && e@ == portal_error(
                curve_address(mint@)->Err_0,
            ),
        },
{
    let program: Pubkey = match Pubkey::parse(PUMPFUN_PROGRAM_ID) {
        Ok(key) => key,
        Err(e) => {
            return portal(joined("Invalid program ID: ", e.message()));
        },
    };
    match find_address("bonding-curve".as_bytes(), &mint.bytes, &program.bytes) {
        Some(bytes) => Ok(Pubkey { bytes }),
        None => portal("No program address for the mint".to_owned()),
    }
}

/// An amount over what one unit of it is.
pub open spec fn in_units(amount: u64, unit: u64) -> Binary64 {
    Binary64::from_u64(amount).over(Binary64::from_u64(unit))
}

/// Lamports as SOL.
pub open spec fn spec_sol(lamports: u64) -> Binary64 {
    in_units(lamports, 1_000_000_000)
}

/// Raw token units as display tokens.
pub open spec fn spec_display_tokens(raw: u64) -> Binary64 {
    in_units(raw, 1_000_000)
}

/// Lamports as SOL.
#[verifier::when_used_as_spec(spec_sol)]
pub fn sol(lamports: u64) -> (r: Binary64)
    ensures
        r == sol(lamports),
{
    Binary64::from_u64(lamports).over(Binary64::from_u64(1_000_000_000))
}

/// Raw token units as display tokens.
#[verifier::when_used_as_spec(spec_display_tokens)]
pub fn display_tokens(raw: u64) -> (r: Binary64)
    ensures
        r == display_tokens(raw),
{
    Binary64::from_u64(raw).over(Binary64::from_u64(1_000_000))
}

/// SOL per display token.
pub open spec fn spec_price_of(lamports: u64, raw: u64) -> Binary64 {
    sol(lamports).over(display_tokens(raw))
}

/// SOL per display token.
#[verifier::when_used_as_spec(spec_price_of)]
pub fn price_of(lamports: u64, raw: u64) -> (r: Binary64)
    ensures
        r == price_of(lamports, raw),
{
    sol(lamports).over(display_tokens(raw))
}

/// The virtual token reserves that a bonding curve account holds.
pub open spec fn curve_tokens(data: Seq<u8>) -> u64 {
    le_u64(data, 8)
}

/// The virtual SOL reserves, in lamports, that a bonding curve account holds.
pub open spec fn curve_sol(data: Seq<u8>) -> u64 {
    le_u64(data, 16)
}

/// The SOL, in lamports, that a bonding curve account really has.
pub open spec fn curve_real_sol(data: Seq<u8>) -> u64 {
    le_u64(data, 32)
}

/// The price that the account of a bonding curve gives, unless it is too short, complete (the
/// token has graduated) or without tokens.
pub open spec fn curve_price(data: Seq<u8>) -> Result<Binary64, Seq<char>> {
    if data.len() < 49 {
        Err("Bonding curve data too short: "@ + crate::text::decimal(data.len()) + " bytes"@)
    } else if data[48] != 0 {
        Err("Bonding curve complete — token graduated to PumpSwap"@)
    } else if curve_tokens(data) == 0 {
        Err("virtual_token_reserves is zero"@)
    } else {
        Ok(price_of(curve_sol(data), curve_tokens(data)))
    }
}

fn bytes_message(before: &str, n: usize, after: &str) -> (r: String)
    ensures
        r@ == before@ + crate::text::decimal(n as nat) + after@,
{
    let number: String = decimal_text(n as u64);
    let mut out: String = joined(before, number.as_str());
    out.append(after);
    out
}

/// The price that the account of a bonding curve gives.
pub fn price_from_curve(data: &Vec<u8>) -> (r: Result<Binary64, BotError>)
    ensures
        portal_gives(r, curve_price(data@)),
{
    if data.len() < 49 {
        return portal(bytes_message("Bonding curve data too short: ", data.len(), " bytes"));
    }
    let tokens: u64 = read_u64(data, 8);
    let lamports: u64 = read_u64(data, 16);
    if data[48] != 0 {
        return portal("Bonding curve complete — token graduated to PumpSwap".to_owned());
    }
    if tokens == 0 {
        return portal("virtual_token_reserves is zero".to_owned());
    }
    Ok(price_of(lamports, tokens))
}

/// What a request for an account brought.
#[derive(Debug)]
pub enum AccountReply {
    Found(Vec<u8>),
    Failed(String),
    TimedOut,
}

/// The price that the reply about a bonding curve gives.
pub open spec fn curve_reply_price(reply: AccountReply) -> Result<Binary64, Seq<char>> {
    match reply {
        AccountReply::Found(data) => curve_price(data@),
        AccountReply::Failed(e) => Err("Bonding curve account read failed: "@ + e@),
        AccountReply::TimedOut => Err("Bonding curve RPC timed out (500ms)"@),
    }
}

/// The price on the bonding curve, from the reply to the request for its account.
pub fn fetch_price_bonding_curve_rpc(reply: &AccountReply) -> (r: Result<Binary64, BotError>)
    ensures
        portal_gives(r, curve_reply_price(*reply)),
{
    match reply {
        AccountReply::Found(data) => price_from_curve(data),
        AccountReply::Failed(e) => portal(
            joined("Bonding curve account read failed: ", e.as_str()),
        ),
        AccountReply::TimedOut => portal("Bonding curve RPC timed out (500ms)".to_owned()),
    }
}

/// The lamports that a constant-product pool pays for `tokens_in`: what it must give up so that
/// the product of its reserves does not fall, whole lamports only.
pub open spec fn sale_lamports(base: u64, quote: u64, tokens_in: u64) -> int {
    quote - (base * quote) / (base + tokens_in)
}

/// The price that a sale into a constant-product pool gives, none where the pool is empty,
/// nothing is sold or paid, or the sale would take all of the pool's SOL.
pub open spec fn sale_price(base: u64, quote: u64, tokens_in: u64) -> Binary64 {
    if tokens_in == 0 || base == 0 || quote == 0 || sale_lamports(base, quote, tokens_in) == 0
        || sale_lamports(base, quote, tokens_in) == quote {
        Binary64::from_u64(0)
    } else {
        price_of(sale_lamports(base, quote, tokens_in) as u64, tokens_in)
    }
}

proof fn lemma_sale(base: u64, quote: u64, tokens_in: u64)
    requires
        base > 0,
    ensures
        0 <= sale_lamports(base, quote, tokens_in) <= quote,
        0 <= base * quote <= 0xFFFF_FFFF_FFFF_FFFF_FFFF_FFFF_FFFF_FFFF,
{
    let (b, q, d) = (base as int, quote as int, (base + tokens_in) as int);
    assert(0 <= b * q <= 0xFFFF_FFFF_FFFF_FFFF_FFFF_FFFF_FFFF_FFFF) by (nonlinear_arith)
        requires
            0 <= b <= 0xFFFF_FFFF_FFFF_FFFF,
            0 <= q <= 0xFFFF_FFFF_FFFF_FFFF,
    ;
    assert(b * q <= d * q) by (nonlinear_arith)
        requires
            b <= d,
            0 <= q,
    ;
    assert((b * q) / d <= q) by (nonlinear_arith)
        requires
            b * q <= d * q,
            d > 0,
            q >= 0,
    ;
    assert((b * q) / d >= 0) by (nonlinear_arith)
        requires
            b * q >= 0,
            d > 0,
    ;
}

/// The price per display token that selling `tokens_in_raw` into a constant-product pool gives.
pub fn simulate_sell_price_sol(
    reserve_base_raw: u64,
    reserve_quote_lamports: u64,
    tokens_in_raw: u64,
) -> (r: Binary64)
    ensures
        r == sale_price(reserve_base_raw, reserve_quote_lamports, tokens_in_raw),
{
    if tokens_in_raw == 0 || reserve_base_raw == 0 || reserve_quote_lamports == 0 {
        return Binary64::from_u64(0);
    }
    proof {
        lemma_sale(reserve_base_raw, reserve_quote_lamports, tokens_in_raw);
    }
    let product: u128 = reserve_base_raw as u128 * reserve_quote_lamports as u128;
    let new_base: u128 = reserve_base_raw as u128 + tokens_in_raw as u128;
    let new_quote: u128 = product / new_base;
    let lamports: u64 = (reserve_quote_lamports as u128 - new_quote) as u64;
    if lamports == 0 || new_quote == 0 {
        return Binary64::from_u64(0);
    }
    price_of(lamports, tokens_in_raw)
}

/// A sale takes at most a pool's whole reserve, and less than that where the product of the
/// reserves gives a lamport or more for each token that the pool then holds. It never pays more
/// than the spot price: the lamports paid for `tokens_in` are at most `tokens_in` times the quote
/// reserve over the base reserve, rounded up to a whole lamport.
pub proof fn law_sale_is_bounded(base: u64, quote: u64, tokens_in: u64)
    requires
        base > 0,
    ensures
        0 <= sale_lamports(base, quote, tokens_in) <= quote,
        base + tokens_in <= base * quote ==> sale_lamports(base, quote, tokens_in) < quote,
        (sale_lamports(base, quote, tokens_in) - 1) * base < tokens_in * quote,
{
    lemma_sale(base, quote, tokens_in);
    let (b, q, t) = (base as int, quote as int, tokens_in as int);
    let d = b + t;
    let k = (b * q) / d;
    assert(b * q == d * k + (b * q) % d) by (nonlinear_arith)
        requires
            d > 0,
            k == (b * q) / d,
    ;
    assert(0 <= (b * q) % d < d) by (nonlinear_arith)
        requires
            d > 0,
    ;
    if d <= b * q {
        assert(k >= 1) by (nonlinear_arith)
            requires
                d <= b * q,
                d > 0,
                k == (b * q) / d,
        ;
    }
    assert((q - k - 1) * d < t * q) by (nonlinear_arith)
        requires
            b * q < d * k + d,
            d == b + t,
    ;
    let x = q - k - 1;
    if x <= 0 {
        assert(x * b < t * q || x * b <= 0) by (nonlinear_arith)
            requires
                x <= 0,
                b > 0,
        ;
        assert(x * b <= 0) by (nonlinear_arith)
            requires
                x <= 0,
                b > 0,
        ;
        assert(t * q >= 0) by (nonlinear_arith)
            requires
                t >= 0,
                q >= 0,
        ;
        if x == 0 {
            assert(x * d == 0) by (nonlinear_arith)
                requires
                    x == 0,
            ;
            assert(x * b == 0) by (nonlinear_arith)
                requires
                    x == 0,
            ;
        } else {
            assert(x * b < 0) by (nonlinear_arith)
                requires
                    x < 0,
                    b > 0,
            ;
        }
    } else {
        assert(x * b <= x * d) by (nonlinear_arith)
            requires
                x > 0,
                b <= d,
        ;
    }
}

/// A sale that would take all of a pool's SOL has no price; one that has a price leaves some.
pub proof fn law_drained_pools_give_no_price(base: u64, quote: u64, tokens_in: u64)
    requires
        base > 0,
    ensures
        (base * quote) / (base + tokens_in) == 0 ==> sale_price(base, quote, tokens_in)
            == Binary64::from_u64(0),
        sale_price(base, quote, tokens_in) != Binary64::from_u64(0) ==> 0 < sale_lamports(
            base,
            quote,
            tokens_in,
        ) < quote,
{
    lemma_sale(base, quote, tokens_in);
}

/// Selling more never pays less.
pub proof fn law_larger_sale_pays_no_less(base: u64, quote: u64, less: u64, more: u64)
    requires
        base > 0,
        less <= more,
    ensures
        sale_lamports(base, quote, less) <= sale_lamports(base, quote, more),
{
    let p = base * quote;
    let (d, e) = (base + less, base + more);
    assert(p >= 0) by (nonlinear_arith)
        requires
            p == base * quote,
    ;
    assert(p / e <= p / d) by (nonlinear_arith)
        requires
            0 < d <= e,
            p >= 0,
    ;
}

/// What a request for the two vaults of a pool brought.
#[derive(Debug)]
pub enum VaultReply {
    Found { base: Option<Vec<u8>>, quote: Option<Vec<u8>> },
    Failed(String),
    TimedOut,
}

/// The balance that a token account holds.
pub open spec fn token_amount(data: Seq<u8>) -> u64 {
    le_u64(data, 64)
}

/// The spot price in a pool: the SOL in it over the tokens in it.
pub open spec fn pool_spot_price(pool: PoolView, reply: VaultReply) -> Result<Binary64, Seq<char>> {
    match reply {
        VaultReply::Failed(e) => Err("PumpSwap vault read failed: "@ + e@),
        VaultReply::TimedOut => Err("PumpSwap vault read timed out (500ms)"@),
        VaultReply::Found { base: None, .. } => Err(
            "PumpSwap base vault "@ + crate::pubkey::base58_text(pool.base_vault)
                + " does not exist"@,
        ),
        VaultReply::Found { base: Some(base), quote } => if base@.len() < 72 {
            Err(
                "PumpSwap base vault data too short: "@ + crate::text::decimal(base@.len())
                    + " bytes"@,
            )
        } else {
            match quote {
                None => Err(
                    "PumpSwap quote vault "@ + crate::pubkey::base58_text(pool.quote_vault)
                        + " does not exist"@,
                ),
                Some(quote) => if quote@.len() < 72 {
                    Err(
                        "PumpSwap quote vault data too short: "@ + crate::text::decimal(
                            quote@.len(),
                        ) + " bytes"@,
                    )
                } else if token_amount(base@) == 0 {
                    Err("PumpSwap base reserve is zero"@)
                } else {
                    Ok(price_of(token_amount(quote@), token_amount(base@)))
                },
            }
        },
    }
}

fn vault_message(before: &str, vault: &Pubkey, after: &str) -> (r: String)
    ensures
        r@ == before@ + crate::pubkey::base58_text(vault@) + after@,
{
    let key: String = vault.to_text();
    let mut out: String = joined(before, key.as_str());
    out.append(after);
    out
}

/// The spot price in a pool, from the reply to the request for its vaults.
pub fn fetch_price_pumpswap_sol(pool: &PumpSwapPoolInfo, reply: &VaultReply) -> (r: Result<
    Binary64,
    BotError,
>)
    ensures
        portal_gives(r, pool_spot_price(pool@, *reply)),
{
    match reply {
        VaultReply::Failed(e) => portal(joined("PumpSwap vault read failed: ", e.as_str())),
        VaultReply::TimedOut => portal("PumpSwap vault read timed out (500ms)".to_owned()),
        VaultReply::Found { base, quote } => {
            let base: &Vec<u8> = match base {
                Some(data) => data,
                None => {
                    return portal(
                        vault_message("PumpSwap base vault ", &pool.base_vault, " does not exist"),
                    );
                },
            };
            if base.len() < 72 {
                return portal(
                    bytes_message("PumpSwap base vault data too short: ", base.len(), " bytes"),
                );
            }
            let quote: &Vec<u8> = match quote {
                Some(data) => data,
                None => {
                    return portal(
                        vault_message(
                            "PumpSwap quote vault ",
                            &pool.quote_vault,
                            " does not exist",
                        ),
                    );
                },
            };
            if quote.len() < 72 {
                return portal(
                    bytes_message("PumpSwap quote vault data too short: ", quote.len(), " bytes"),
                );
            }
            let base_amount: u64 = read_u64(base, 64);
            let quote_amount: u64 = read_u64(quote, 64);
            if base_amount == 0 {
                return portal("PumpSwap base reserve is zero".to_owned());
            }
            Ok(price_of(quote_amount, base_amount))
        },
    }
}

/// A price, the pool that it comes from unless it comes from the bonding curve, and the SOL that
/// the venue holds.
#[derive(Clone, Copy, Debug)]
pub struct PriceQuote {
    pub price: Binary64,
    pub pool: Option<PumpSwapPoolInfo>,
    pub liquidity_sol: Binary64,
}

pub struct QuoteView {
    pub price: Binary64,
    pub pool: Option<PoolView>,
    pub liquidity_sol: Binary64,
}

/// The pool as a value.
pub open spec fn pool_view(pool: Option<PumpSwapPoolInfo>) -> Option<PoolView> {
    match pool {
        Some(p) => Some(p@),
        None => None,
    }
}

impl View for PriceQuote {
    type V = QuoteView;

    open spec fn view(&self) -> QuoteView {
        QuoteView {
            price: self.price,
            pool: pool_view(self.pool),
            liquidity_sol: self.liquidity_sol,
        }
    }
}

/// Which price is wanted: that of the next small trade, or that which a sale of so many raw
/// tokens would give.
#[derive(Clone, Copy, PartialEq, Eq, Structural, Debug)]
pub enum PriceKind {
    Spot,
    Realized { tokens: u64 },
}

/// What has to be done next to price a token.
#[derive(Debug)]
pub enum PriceAction {
    ReadCurve(Pubkey),
    FindPool,
    ReadVaults(PumpSwapPoolInfo),
    Finish(Result<PriceQuote, BotError>),
}

/// What has to be done next, as a value.
pub enum PriceStep {
    ReadCurve(Seq<u8>),
    FindPool,
    ReadVaults(PoolView),
    Finish(Result<QuoteView, ErrorView>),
}

impl View for PriceAction {
    type V = PriceStep;

    open spec fn view(&self) -> PriceStep {
        match self {
            PriceAction::ReadCurve(key) => PriceStep::ReadCurve(key@),
            PriceAction::FindPool => PriceStep::FindPool,
            PriceAction::ReadVaults(pool) => PriceStep::ReadVaults(pool@),
            PriceAction::Finish(Ok(quote)) => PriceStep::Finish(Ok(quote@)),
            PriceAction::Finish(Err(e)) => PriceStep::Finish(Err(e@)),
        }
    }
}

/// Without a price on the curve, the pool is next: the known one, or one to be found.
pub open spec fn pool_step(cached: Option<PoolView>) -> PriceStep {
    match cached {
        Some(pool) => PriceStep::ReadVaults(pool),
        None => PriceStep::FindPool,
    }
}

fn turn_to_pool(cached: Option<&PumpSwapPoolInfo>) -> (r: PriceAction)
    ensures
        r@ == pool_step(cached_view(cached)),
{
    match cached {
        Some(pool) => PriceAction::ReadVaults(*pool),
        None => PriceAction::FindPool,
    }
}

pub open spec fn cached_view(cached: Option<&PumpSwapPoolInfo>) -> Option<PoolView> {
    match cached {
        Some(pool) => Some(pool@),
        None => None,
    }
}

/// The first step of pricing: to read the bonding curve. Where that has no address, a realized
/// price is refused if the token's own address is at fault, and else the pool is next.
pub open spec fn first_price_step(
    kind: PriceKind,
    token_address: Seq<char>,
    cached: Option<PoolView>,
) -> PriceStep {
    match crate::pubkey::base58_key(token_address) {
        Ok(mint) => match curve_address(mint) {
            Ok(curve) => PriceStep::ReadCurve(curve),
            Err(_) => pool_step(cached),
        },
        Err(e) => match kind {
            PriceKind::Spot => pool_step(cached),
            PriceKind::Realized { .. } => PriceStep::Finish(Err(invalid_mint(e))),
        },
    }
}

pub open spec fn invalid_mint(e: KeyError) -> ErrorView {
    ErrorView {
        kind: ErrorKind::InvalidTokenAddress,
        detail: "Invalid mint: "@ + crate::pubkey::key_error_text(e),
    }
}

/// Starts to price a token.
pub fn begin_price(
    kind: PriceKind,
    token_address: &str,
    cached: Option<&PumpSwapPoolInfo>,
) -> (r: PriceAction)
    ensures
        r@ == first_price_step(kind, token_address@, cached_view(cached)),
{
    match parse_mint(token_address) {
        Ok(mint) => match derive_bonding_curve_pda(&mint) {
            Ok(curve) => PriceAction::ReadCurve(curve),
            Err(_) => turn_to_pool(cached),
        },
        Err(e) => match kind {
            PriceKind::Spot => turn_to_pool(cached),
            PriceKind::Realized { .. } => PriceAction::Finish(Err(e)),
        },
    }
}

/// The quote on the bonding curve, where its account gives a price.
pub open spec fn curve_quote(kind: PriceKind, reply: AccountReply) -> Option<QuoteView> {
    match (kind, reply) {
        (PriceKind::Spot, AccountReply::Found(data)) => match curve_price(data@) {
            Ok(price) => Some(
                QuoteView { price, pool: None, liquidity_sol: sol(curve_real_sol(data@)) },
            ),
            Err(_) => None,
        },
        (PriceKind::Realized { tokens }, AccountReply::Found(data)) => {
            let price = sale_price(curve_tokens(data@), curve_sol(data@), tokens);
            if data@.len() >= 49 && data@[48] == 0 && Binary64::from_u64(0).lt(price) {
                Some(QuoteView { price, pool: None, liquidity_sol: sol(curve_real_sol(data@)) })
            } else {
                None
            }
        },
        _ => None,
    }
}

/// The step after the bonding curve has been read.
pub open spec fn step_after_curve(
    kind: PriceKind,
    reply: AccountReply,
    cached: Option<PoolView>,
) -> PriceStep {
    match curve_quote(kind, reply) {
        Some(quote) => PriceStep::Finish(Ok(quote)),
        None => pool_step(cached),
    }
}

/// Goes on once the bonding curve has been read.
pub fn price_after_curve(
    kind: PriceKind,
    reply: &AccountReply,
    cached: Option<&PumpSwapPoolInfo>,
) -> (r: PriceAction)
    ensures
        r@ == step_after_curve(kind, *reply, cached_view(cached)),
{
    match kind {
        PriceKind::Spot => match fetch_price_bonding_curve_rpc(reply) {
            Ok(price) => match reply {
                AccountReply::Found(data) => {
                    let quote = PriceQuote {
                        price,
                        pool: None,
                        liquidity_sol: sol(read_u64(data, 32)),
                    };
                    PriceAction::Finish(Ok(quote))
                },
                _ => turn_to_pool(cached),
            },
            Err(_) => turn_to_pool(cached),
        },
        PriceKind::Realized { tokens } => match reply {
            AccountReply::Found(data) => {
                if data.len() >= 49 && data[48] == 0 {
                    let price = simulate_sell_price_sol(
                        read_u64(data, 8),
                        read_u64(data, 16),
                        tokens,
                    );
                    if Binary64::from_u64(0).lt(price) {
                        let quote = PriceQuote {
                            price,
                            pool: None,
                            liquidity_sol: sol(read_u64(data, 32)),
                        };
                        return PriceAction::Finish(Ok(quote));
                    }
                }
                turn_to_pool(cached)
            },
            _ => turn_to_pool(cached),
        },
    }
}

/// Goes on once a pool has been looked for.
pub fn price_after_search(found: Result<PumpSwapPoolInfo, BotError>) -> (r: PriceAction)
    ensures
        match found {
            Ok(pool) => r@ == PriceStep::ReadVaults(pool@),
            Err(e) => r@ == PriceStep::Finish(Err(e@)),
        },
{
    match found {
        Ok(pool) => PriceAction::ReadVaults(pool),
        Err(e) => PriceAction::Finish(Err(e)),
    }
}

/// The price that a sale into a pool would give.
pub open spec fn pool_sale_price(pool: PoolView, reply: VaultReply, tokens: u64) -> Result<
    Binary64,
    Seq<char>,
> {
    match reply {
        VaultReply::Failed(e) => Err("PumpSwap vault read failed: "@ + e@),
        VaultReply::TimedOut => Err("PumpSwap vault read timed out (500ms)"@),
        VaultReply::Found { base: None, .. } => Err(
            "PumpSwap base vault "@ + crate::pubkey::base58_text(pool.base_vault) + " missing"@,
        ),
        VaultReply::Found { base: Some(_), quote: None } => Err(
            "PumpSwap quote vault "@ + crate::pubkey::base58_text(pool.quote_vault) + " missing"@,
        ),
        VaultReply::Found { base: Some(base), quote: Some(quote) } => {
            if base@.len() < 72 || quote@.len() < 72 {
                Err("PumpSwap vault data too short"@)
            } else {
                let (b, q) = (token_amount(base@), token_amount(quote@));
                let price = sale_price(b, q, tokens);
                if price.le(Binary64::from_u64(0)) {
                    Err(
                        "PumpSwap simulate_sell returned non-positive price (base="@
                            + crate::text::decimal(b as nat) + ", quote="@ + crate::text::decimal(
                            q as nat,
                        ) + ", in="@ + crate::text::decimal(tokens as nat) + ")"@,
                    )
                } else {
                    Ok(price)
                }
            }
        },
    }
}

fn non_positive_message(base: u64, quote: u64, tokens: u64) -> (r: String)
    ensures
        r@ == "PumpSwap simulate_sell returned non-positive price (base="@ + crate::text::decimal(
            base as nat,
        ) + ", quote="@ + crate::text::decimal(quote as nat) + ", in="@ + crate::text::decimal(
            tokens as nat,
        ) + ")"@,
{
    let mut out: String = "PumpSwap simulate_sell returned non-positive price (base=".to_owned();
    let base_text: String = decimal_text(base);
    let quote_text: String = decimal_text(quote);
    let tokens_text: String = decimal_text(tokens);
    out.append(base_text.as_str());
    out.append(", quote=");
    out.append(quote_text.as_str());
    out.append(", in=");
    out.append(tokens_text.as_str());
    out.append(")");
    out
}

/// The price that a sale into a pool would give.
pub fn price_from_sale(pool: &PumpSwapPoolInfo, reply: &VaultReply, tokens: u64) -> (r: Result<
    Binary64,
    BotError,
>)
    ensures
        portal_gives(r, pool_sale_price(pool@, *reply, tokens)),
{
    match reply {
        VaultReply::Failed(e) => portal(joined("PumpSwap vault read failed: ", e.as_str())),
        VaultReply::TimedOut => portal("PumpSwap vault read timed out (500ms)".to_owned()),
        VaultReply::Found { base, quote } => {
            let base: &Vec<u8> = match base {
                Some(data) => data,
                None => {
                    return portal(
                        vault_message("PumpSwap base vault ", &pool.base_vault, " missing"),
                    );
                },
            };
            let quote: &Vec<u8> = match quote {
                Some(data) => data,
                None => {
                    return portal(
                        vault_message("PumpSwap quote vault ", &pool.quote_vault, " missing"),
                    );
                },
            };
            if base.len() < 72 || quote.len() < 72 {
                return portal("PumpSwap vault data too short".to_owned());
            }
            let base_amount: u64 = read_u64(base, 64);
            let quote_amount: u64 = read_u64(quote, 64);
            let price = simulate_sell_price_sol(base_amount, quote_amount, tokens);
            if price.le(Binary64::from_u64(0)) {
                return portal(non_positive_message(base_amount, quote_amount, tokens));
            }
            Ok(price)
        },
    }
}

/// The quote that the vaults of a pool give.
pub open spec fn pool_quote(kind: PriceKind, pool: PoolView, reply: VaultReply) -> Result<
    QuoteView,
    ErrorView,
> {
    let price = match kind {
        PriceKind::Spot => pool_spot_price(pool, reply),
        PriceKind::Realized { tokens } => pool_sale_price(pool, reply, tokens),
    };
    match price {
        Ok(price) => Ok(
            QuoteView {
                price,
                pool: Some(pool),
                liquidity_sol: sol(token_amount(reply->quote->0@)),
            },
        ),
        Err(detail) => Err(portal_error(detail)),
    }
}

/// Ends pricing once the vaults of the pool have been read.
pub fn price_after_vaults(kind: PriceKind, pool: &PumpSwapPoolInfo, reply: &VaultReply) -> (r:
    Result<PriceQuote, BotError>)
    ensures
        match r {
            Ok(quote) => pool_quote(kind, pool@, *reply) == Ok::<QuoteView, ErrorView>(quote@),
            Err(e) => pool_quote(kind, pool@, *reply) == Err::<QuoteView, ErrorView>(e@),
        },
{
    let price: Result<Binary64, BotError> = match kind {
        PriceKind::Spot => fetch_price_pumpswap_sol(pool, reply),
        PriceKind::Realized { tokens } => price_from_sale(pool, reply, tokens),
    };
    match price {
        Err(e) => Err(e),
        Ok(price) => {
            let liquidity_sol = match reply {
                VaultReply::Found { base: _, quote: Some(quote) } => sol(read_u64(quote, 64)),
                _ => Binary64::from_u64(0),
            };
            Ok(PriceQuote { price, pool: Some(*pool), liquidity_sol })
        },
    }
}

/// The bonding curves of the tokens that have one, each with its token.
pub open spec fn curves_of(addresses: Seq<Seq<char>>) -> Seq<(Seq<u8>, Seq<char>)>
    decreases addresses.len(),
{
    if addresses.len() == 0 {
        Seq::empty()
    } else {
        let before = curves_of(addresses.drop_last());
        match crate::pubkey::base58_key(addresses.last()) {
            Ok(mint) => match curve_address(mint) {
                Ok(curve) => before.push((curve, addresses.last())),
                Err(_) => before,
            },
            Err(_) => before,
        }
    }
}

pub open spec fn curve_views(curves: Seq<(Pubkey, String)>) -> Seq<(Seq<u8>, Seq<char>)> {
    curves.map_values(|c: (Pubkey, String)| (c.0@, c.1@))
}

/// The bonding curves that have to be read to price tokens.
pub fn curves_to_read(addresses: &Vec<String>) -> (r: Vec<(Pubkey, String)>)
    ensures
        curve_views(r@) == curves_of(crate::text::texts(addresses@)),
{
    let mut curves: Vec<(Pubkey, String)> = Vec::new();
    let mut i: usize = 0;
    let ghost all = crate::text::texts(addresses@);
    while i < addresses.len()
        invariant
            i <= addresses@.len(),
            all == crate::text::texts(addresses@),
            curve_views(curves@) =~= curves_of(all.take(i as int)),
        decreases addresses@.len() - i,
    {
        assert(all.take(i + 1).drop_last() =~= all.take(i as int));
        let ghost before = curve_views(curves@);
        if let Ok(mint) = Pubkey::parse(addresses[i].as_str()) {
            if let Ok(curve) = derive_bonding_curve_pda(&mint) {
                curves.push((curve, addresses[i].clone()));
                assert(curve_views(curves@) =~= before.push((curve@, all[i as int])));
            }
        }
        i = i + 1;
    }
    assert(all.take(all.len() as int) =~= all);
    curves
}

/// The prices that accounts give, the first of which is that of the token at `from`; accounts
/// without a price are passed over.
pub open spec fn batch_prices(
    tokens: Seq<Seq<char>>,
    from: int,
    accounts: Seq<Option<Vec<u8>>>,
) -> Seq<(Seq<char>, Binary64)>
    decreases accounts.len(),
{
    if accounts.len() == 0 {
        Seq::empty()
    } else {
        let before = batch_prices(tokens, from, accounts.drop_last());
        match accounts.last() {
            Some(data) => match curve_price(data@) {
                Ok(price) => before.push((tokens[from + accounts.len() - 1], price)),
                Err(_) => before,
            },
            None => before,
        }
    }
}

pub open spec fn price_views(prices: Seq<(String, Binary64)>) -> Seq<(Seq<char>, Binary64)> {
    prices.map_values(|p: (String, Binary64)| (p.0@, p.1))
}

/// The tokens of bonding curves.
pub open spec fn curve_tokens_of(curves: Seq<(Pubkey, String)>) -> Seq<Seq<char>> {
    curves.map_values(|c: (Pubkey, String)| c.1@)
}

/// Adds the prices that a batch of bonding curve accounts gives.
pub fn fetch_prices_bonding_curve_batch(
    prices: &mut Vec<(String, Binary64)>,
    curves: &Vec<(Pubkey, String)>,
    from: usize,
    accounts: &Vec<Option<Vec<u8>>>,
)
    requires
        from + accounts@.len() <= curves@.len(),
    ensures
        price_views(final(prices)@) == price_views(old(prices)@) + batch_prices(
            curve_tokens_of(curves@),
            from as int,
            accounts@,
        ),
{
    let n: usize = curves.len();
    let mut i: usize = 0;
    let ghost start = price_views(prices@);
    let ghost tokens = curve_tokens_of(curves@);
    while i < accounts.len()
        invariant
            n == curves@.len(),
            i <= accounts@.len(),
            from + accounts@.len() <= n,
            tokens == curve_tokens_of(curves@),
            price_views(prices@) =~= start + batch_prices(
                tokens,
                from as int,
                accounts@.take(i as int),
            ),
        decreases accounts@.len() - i,
    {
        assert(accounts@.take(i + 1).drop_last() =~= accounts@.take(i as int));
        let ghost before = price_views(prices@);
        if let Some(data) = &accounts[i] {
            if let Ok(price) = price_from_curve(data) {
                prices.push((curves[from + i].1.clone(), price));
                assert(price_views(prices@) =~= before.push((tokens[from + i], price)));
            }
        }
        i = i + 1;
    }
    assert(accounts@.take(accounts@.len() as int) =~= accounts@);
}

/// Once a bonding curve is complete, its token has graduated and is priced off its pool.
pub proof fn law_graduated_tokens_are_priced_off_pools(
    kind: PriceKind,
    reply: AccountReply,
    cached: Option<PoolView>,
)
    requires
        reply matches AccountReply::Found(data) && data@.len() >= 49 && data@[48] != 0,
    ensures
        step_after_curve(kind, reply, cached) == pool_step(cached),
{
}

/// A pool that is known is not looked for again.
pub proof fn law_known_pools_are_not_searched(
    kind: PriceKind,
    token_address: Seq<char>,
    reply: AccountReply,
    pool: PoolView,
)
    ensures
        !(first_price_step(kind, token_address, Some(pool)) is FindPool),
        !(step_after_curve(kind, reply, Some(pool)) is FindPool),
{
}

/// A quote for a sale is never zero or less.
pub proof fn law_sale_quotes_are_positive(
    tokens: u64,
    reply: AccountReply,
    pool: PoolView,
    vaults: VaultReply,
)
    ensures
        curve_quote(PriceKind::Realized { tokens }, reply) matches Some(quote)
            ==> !quote.price.le(Binary64::from_u64(0)),
        pool_quote(PriceKind::Realized { tokens }, pool, vaults) matches Ok(quote)
            ==> !quote.price.le(Binary64::from_u64(0)),
{
}

/// A quote tells its pool exactly where it comes from one, so that the pool can be remembered.
pub proof fn law_quotes_name_their_pool(
    kind: PriceKind,
    reply: AccountReply,
    pool: PoolView,
    vaults: VaultReply,
)
    ensures
        curve_quote(kind, reply) matches Some(quote) ==> quote.pool is None,
        pool_quote(kind, pool, vaults) matches Ok(quote) ==> quote.pool == Some(pool),
{
}

/// A number in an account is made of eight bytes, of which the first counts least.
pub proof fn law_numbers_are_read_byte_by_byte(data: Seq<u8>, at: int)
    ensures
        le_u64(data, at) == data[at] + 0x100 * data[at + 1] + 0x1_0000 * data[at + 2] + 0x100_0000
            * data[at + 3] + 0x1_0000_0000 * data[at + 4] + 0x100_0000_0000 * data[at + 5]
            + 0x1_0000_0000_0000 * data[at + 6] + 0x100_0000_0000_0000 * data[at + 7],
{
    reveal_with_fuel(le_number, 9);
}

/// Lamports for raw tokens make a price in SOL for each token shown.
pub proof fn law_prices_are_sol_per_token(sols: u64, tokens: u64)
    requires
        sols * 1_000_000_000 < 0x20_0000_0000_0000,
        0 < tokens,
        tokens * 1_000_000 < 0x20_0000_0000_0000,
    ensures
        sol((sols * 1_000_000_000) as u64) == Binary64::from_u64(sols),
        display_tokens((tokens * 1_000_000) as u64) == Binary64::from_u64(tokens),
        price_of((sols * 1_000_000_000) as u64, (tokens * 1_000_000) as u64) == Binary64::from_u64(
            sols,
        ).over(Binary64::from_u64(tokens)),
{
    crate::binary64::law_whole_quotients_are_exact(sols, 1_000_000_000);
    crate::binary64::law_whole_quotients_are_exact(tokens, 1_000_000);
}

/// More lamports for the same tokens are a price that is no lower, and some lamports are worth
/// something.
pub proof fn law_more_lamports_are_a_higher_price(fewer: u64, more: u64, raw: u64)
    requires
        fewer <= more < 0x20_0000_0000_0000,
        0 < raw < 0x20_0000_0000_0000,
    ensures
        price_of(fewer, raw).le(price_of(more, raw)),
        sol(fewer).le(sol(more)),
        Binary64::from_u64(0).lt(sol(more)) <==> 0 < more,
{
    crate::binary64::law_whole_order_is_kept(fewer, more);
    crate::binary64::law_whole_order_is_kept(0, 1_000_000_000);
    crate::binary64::law_whole_numbers_are_exact(fewer);
    crate::binary64::law_whole_numbers_are_exact(more);
    crate::binary64::law_whole_numbers_are_exact(1_000_000_000);
    crate::binary64::law_whole_quotients_have_a_sign(fewer, 1_000_000_000);
    crate::binary64::law_whole_quotients_have_a_sign(more, 1_000_000_000);
    crate::binary64::law_whole_quotients_have_a_sign(raw, 1_000_000);
    crate::binary64::law_quotients_keep_order(
        Binary64::from_u64(fewer),
        Binary64::from_u64(more),
        Binary64::from_u64(1_000_000_000),
    );
    crate::binary64::law_quotients_keep_order(sol(fewer), sol(more), display_tokens(raw));
}

/// A curve gives a price exactly where it is whole, has not been completed and still holds
/// tokens; the price is that of its SOL for its tokens.
pub proof fn law_open_curves_are_priced(data: Seq<u8>)
    ensures
        curve_price(data) is Ok <==> data.len() >= 49 && data[48] == 0 && le_u64(data, 8) > 0,
        curve_price(data) is Ok ==> curve_price(data)->Ok_0 == price_of(
            le_u64(data, 16),
            le_u64(data, 8),
        ),
        data.len() >= 49 && data[48] != 0 ==> curve_price(data) == Err::<Binary64, Seq<char>>(
            "Bonding curve complete — token graduated to PumpSwap"@,
        ),
{
}

/// A sale leaves the product of the reserves as it was, but for the part of a lamport by which
/// the pool is the better off.
pub proof fn law_sales_keep_the_product(base: u64, quote: u64, tokens_in: u64)
    requires
        base > 0,
    ensures
        ({
            let left = quote - sale_lamports(base, quote, tokens_in);
            left * (base + tokens_in) <= base * quote < (left + 1) * (base + tokens_in)
        }),
{
    let (p, d) = (base * quote, base + tokens_in);
    let q = p / d;
    assert(q * d <= p < (q + 1) * d) by (nonlinear_arith)
        requires
            q == p / d,
            d > 0,
    ;
}

/// What a sale brings is a price for each token sold; where it brings nothing, or would take all
/// that the pool has, there is no price.
pub proof fn law_sale_prices_are_for_the_tokens_sold(base: u64, quote: u64, tokens_in: u64)
    requires
        base > 0,
        quote > 0,
        tokens_in > 0,
    ensures
        ({
            let paid = sale_lamports(base, quote, tokens_in);
            sale_price(base, quote, tokens_in) == (if 0 < paid < quote {
                price_of(paid as u64, tokens_in)
            } else {
                Binary64::from_u64(0)
            })
        }),
        sale_price(0, quote, tokens_in) == Binary64::from_u64(0),
        sale_price(base, 0, tokens_in) == Binary64::from_u64(0),
        sale_price(base, quote, 0) == Binary64::from_u64(0),
{
    law_sale_is_bounded(base, quote, tokens_in);
}

/// An open curve is quoted without a pool and with the SOL that it really holds.
pub proof fn law_open_curves_are_quoted(kind: PriceKind, data: Vec<u8>)
    requires
        data@.len() >= 49,
        data@[48] == 0,
    ensures
        ({
            let (tokens, sols, held) = (le_u64(data@, 8), le_u64(data@, 16), le_u64(data@, 32));
            let price = match kind {
                PriceKind::Spot => price_of(sols, tokens),
                PriceKind::Realized { tokens: sold } => sale_price(tokens, sols, sold),
            };
            let priced = match kind {
                PriceKind::Spot => tokens > 0,
                PriceKind::Realized { .. } => Binary64::from_u64(0).lt(price),
            };
            let quote = curve_quote(kind, AccountReply::Found(data));
            &&& quote is Some <==> priced
            &&& priced ==> quote == Some(
                QuoteView { price, pool: None, liquidity_sol: sol(held) },
            )
        }),
{
}

/// A curve that was not read, is cut short or has been completed gives no quote.
pub proof fn law_other_curves_are_not_quoted(kind: PriceKind, reply: AccountReply)
    ensures
        !(reply is Found) ==> curve_quote(kind, reply) is None,
        reply is Found && (reply->Found_0@.len() < 49 || reply->Found_0@[48] != 0) ==> curve_quote(
            kind,
            reply,
        ) is None,
{
}

/// A pool is quoted by what its two vaults hold: the SOL for the tokens, or what the sale of so
/// many tokens would bring. The SOL is what the pool can pay with.
pub proof fn law_pools_are_quoted_by_their_vaults(
    kind: PriceKind,
    pool: PoolView,
    base: Vec<u8>,
    quote: Vec<u8>,
)
    requires
        base@.len() >= 72,
        quote@.len() >= 72,
    ensures
        ({
            let (tokens, sols) = (le_u64(base@, 64), le_u64(quote@, 64));
            let reply = VaultReply::Found { base: Some(base), quote: Some(quote) };
            let price = match kind {
                PriceKind::Spot => price_of(sols, tokens),
                PriceKind::Realized { tokens: sold } => sale_price(tokens, sols, sold),
            };
            let priced = match kind {
                PriceKind::Spot => tokens > 0,
                PriceKind::Realized { .. } => !price.le(Binary64::from_u64(0)),
            };
            &&& pool_quote(kind, pool, reply) is Ok <==> priced
            &&& priced ==> pool_quote(kind, pool, reply) == Ok::<QuoteView, ErrorView>(
                QuoteView { price, pool: Some(pool), liquidity_sol: sol(sols) },
            )
        }),
{
}

/// A pool gives no quote unless both of its vaults were read whole.
pub proof fn law_pools_need_both_vaults(kind: PriceKind, pool: PoolView, reply: VaultReply)
    ensures
        pool_quote(kind, pool, reply) is Ok ==> match reply {
            VaultReply::Found { base: Some(base), quote: Some(quote) } => base@.len() >= 72
                && quote@.len() >= 72,
            _ => false,
        },
{
}

/// A token that can be read is looked up at its curve first, whatever is asked and known of it;
/// one that cannot be read has a price off a pool only, and none for a sale.
pub proof fn law_curves_are_read_first(
    kind: PriceKind,
    token_address: Seq<char>,
    cached: Option<PoolView>,
)
    ensures
        ({
            let step = first_price_step(kind, token_address, cached);
            match crate::pubkey::base58_key(token_address) {
                Ok(mint) => curve_address(mint) is Ok ==> step == PriceStep::ReadCurve(
                    curve_address(mint)->Ok_0,
                ),
                Err(_) => if kind is Spot {
                    step == match cached {
                        Some(pool) => PriceStep::ReadVaults(pool),
                        None => PriceStep::FindPool,
                    }
                } else {
                    step is Finish && step->Finish_0 is Err
                },
            }
        }),
{
}

/// A quote off the curve ends the search; without one it goes on to the pool.
pub proof fn law_curve_quotes_end_the_search(
    kind: PriceKind,
    reply: AccountReply,
    cached: Option<PoolView>,
)
    ensures
        ({
            let step = step_after_curve(kind, reply, cached);
            match curve_quote(kind, reply) {
                Some(quote) => step == PriceStep::Finish(Ok::<QuoteView, ErrorView>(quote)),
                None => step == match cached {
                    Some(pool) => PriceStep::ReadVaults(pool),
                    None => PriceStep::FindPool,
                },
            }
        }),
{
}

/// The curves of two lists of tokens are those of the first and then those of the second, and
/// each token that has a curve comes with it.
pub proof fn law_curves_are_listed_one_by_one(
    first: Seq<Seq<char>>,
    second: Seq<Seq<char>>,
    address: Seq<char>,
)
    ensures
        curves_of(first + second) == curves_of(first) + curves_of(second),
        curves_of(seq![address]) == (match crate::pubkey::base58_key(address) {
            Ok(mint) => match curve_address(mint) {
                Ok(curve) => seq![(curve, address)],
                Err(_) => Seq::empty(),
            },
            Err(_) => Seq::empty(),
        }),
    decreases second.len(),
{
    let one = seq![address];
    assert(one.drop_last() == Seq::<Seq<char>>::empty());
    assert(curves_of(one.drop_last()) == Seq::<(Seq<u8>, Seq<char>)>::empty());
    if second.len() == 0 {
        assert(first + second == first);
    } else {
        assert((first + second).drop_last() == first + second.drop_last());
        law_curves_are_listed_one_by_one(first, second.drop_last(), address);
    }
}

/// The prices of two runs of accounts are those of the first and then those of the second, and
/// each account that gives a price gives it for the token in its place.
pub proof fn law_prices_are_listed_one_by_one(
    tokens: Seq<Seq<char>>,
    from: int,
    first: Seq<Option<Vec<u8>>>,
    second: Seq<Option<Vec<u8>>>,
    account: Option<Vec<u8>>,
)
    ensures
        batch_prices(tokens, from, first + second) == batch_prices(tokens, from, first)
            + batch_prices(tokens, from + first.len(), second),
        batch_prices(tokens, from, seq![account]) == (if account is Some && curve_price(
            account->0@,
        ) is Ok {
            seq![(tokens[from], curve_price(account->0@)->Ok_0)]
        } else {
            Seq::empty()
        }),
    decreases second.len(),
{
    let one = seq![account];
    assert(one.drop_last() == Seq::<Option<Vec<u8>>>::empty());
    assert(batch_prices(tokens, from, one.drop_last()) == Seq::<(Seq<char>, Binary64)>::empty());
    if second.len() == 0 {
        assert(first + second == first);
    } else {
        assert((first + second).drop_last() == first + second.drop_last());
        assert((first + second).last() == second.last());
        law_prices_are_listed_one_by_one(tokens, from, first, second.drop_last(), account);
    }
}

/// The curve of a token is at the address that its program derives for it.
pub proof fn law_curves_are_derived_from_the_mint(mint: Seq<u8>, program: Seq<u8>)
    requires
        crate::pubkey::base58_key(PUMPFUN_PROGRAM_ID@) == Ok::<Seq<u8>, KeyError>(program),
    ensures
        match crate::pubkey::program_address(
            vstd::utf8::encode_utf8("bonding-curve"@),
            mint,
            program,
        ) {
            Some(address) => curve_address(mint) == Ok::<Seq<u8>, Seq<char>>(address),
            None => curve_address(mint) is Err,
        },
{
}

/// An answer is given as it should be: the price where there is one, and else an error of the
/// portal that tells why.
pub proof fn law_answers_are_given_as_they_are(
    r: Result<Binary64, BotError>,
    expected: Result<Binary64, Seq<char>>,
)
    requires
        portal_gives(r, expected),
    ensures
        r is Ok <==> expected is Ok,
        r is Ok ==> r->Ok_0 == expected->Ok_0,
        r is Err ==> r->Err_0@ == (ErrorView {
            kind: ErrorKind::PumpPortal,
            detail: expected->Err_0,
        }),
{
}

} // verus!
