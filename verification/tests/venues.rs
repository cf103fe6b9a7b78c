use hades_kat_bot::binary64::Binary64;
use hades_kat_bot::error::BotError;
use hades_kat_bot::pools::{
    begin_search, search_after_accounts, search_after_largest, search_after_owners,
    search_after_quote, AccountsReply, LargestReply, ProgramsReply, QuoteReply,
};
use hades_kat_bot::pricing::{
    begin_price, curves_to_read, derive_bonding_curve_pda, fetch_price_bonding_curve_rpc,
    fetch_price_pumpswap_sol, fetch_prices_bonding_curve_batch, price_after_curve,
    price_after_search, price_after_vaults, simulate_sell_price_sol, AccountReply, PriceAction,
    PriceKind, VaultReply, PUMPFUN_PROGRAM_ID, PUMP_SWAP_PROGRAM_ID, SOL_MINT_STR,
};
use hades_kat_bot::pubkey::{parse_mint, KeyError, Pubkey};
use hades_kat_bot::pumpportal::PumpSwapPoolInfo;
use std::str::FromStr;

fn f(x: Binary64) -> f64 {
    f64::from_bits(x.bits)
}

fn curve(tokens: u64, lamports: u64, real: u64, complete: u8) -> Vec<u8> {
    let mut data = vec![0u8; 49];
    data[8..16].copy_from_slice(&tokens.to_le_bytes());
    data[16..24].copy_from_slice(&lamports.to_le_bytes());
    data[32..40].copy_from_slice(&real.to_le_bytes());
    data[48] = complete;
    data
}

fn vault(amount: u64) -> Vec<u8> {
    let mut data = vec![0u8; 72];
    data[64..72].copy_from_slice(&amount.to_le_bytes());
    data
}

fn key(n: u8) -> Pubkey {
    Pubkey { bytes: [n; 32] }
}

fn pool() -> PumpSwapPoolInfo {
    PumpSwapPoolInfo { pool_id: key(1), base_vault: key(2), quote_vault: key(3) }
}

fn message(e: BotError) -> String {
    e.message()
}

#[test]
fn keys_are_read_and_written_as_base58() {
    let sol = Pubkey::parse(SOL_MINT_STR).unwrap();
    let expected = solana_sdk::pubkey::Pubkey::from_str(SOL_MINT_STR).unwrap();
    assert_eq!(sol.bytes, expected.to_bytes());
    assert_eq!(sol.to_text(), SOL_MINT_STR);
    assert_eq!(Pubkey::parse("abc").unwrap_err(), KeyError::WrongSize);
    assert_eq!(Pubkey::parse(&"1".repeat(50)).unwrap_err(), KeyError::WrongSize);
    assert_eq!(Pubkey::parse("0OIl").unwrap_err(), KeyError::Invalid);
    assert_eq!(
        message(parse_mint("0OIl").unwrap_err()),
        "Invalid token address: Invalid mint: Invalid Base58 string"
    );
    assert_eq!(
        message(parse_mint("abc").unwrap_err()),
        "Invalid token address: Invalid mint: String is the wrong size"
    );
    assert!(sol.same(&sol) && !sol.same(&key(9)));
}

#[test]
fn curve_address_is_the_program_address() {
    let mint = Pubkey::parse(SOL_MINT_STR).unwrap();
    let found = derive_bonding_curve_pda(&mint).unwrap();
    let program = solana_sdk::pubkey::Pubkey::from_str(PUMPFUN_PROGRAM_ID).unwrap();
    let (expected, _) = solana_sdk::pubkey::Pubkey::find_program_address(
        &[b"bonding-curve", &mint.bytes],
        &program,
    );
    assert_eq!(found.bytes, expected.to_bytes());
}

#[test]
fn curve_price_is_sol_over_tokens() {
    let data = curve(1_073_000_000_000_000, 30_000_000_000, 5, 0);
    let price = fetch_price_bonding_curve_rpc(&AccountReply::Found(data)).unwrap();
    let expected = (30_000_000_000u64 as f64 / 1_000_000_000.0)
        / (1_073_000_000_000_000u64 as f64 / 1_000_000.0);
    assert_eq!(f(price), expected);
}

#[test]
fn curve_faults_are_told_apart() {
    let err = |reply: AccountReply| message(fetch_price_bonding_curve_rpc(&reply).unwrap_err());
    assert_eq!(
        err(AccountReply::Found(vec![0; 48])),
        "PumpPortal API error: Bonding curve data too short: 48 bytes"
    );
    assert_eq!(
        err(AccountReply::Found(curve(1, 1, 0, 1))),
        "PumpPortal API error: Bonding curve complete — token graduated to PumpSwap"
    );
    assert_eq!(
        err(AccountReply::Found(curve(0, 1, 0, 0))),
        "PumpPortal API error: virtual_token_reserves is zero"
    );
    assert_eq!(
        err(AccountReply::Failed("gone".to_string())),
        "PumpPortal API error: Bonding curve account read failed: gone"
    );
    assert_eq!(
        err(AccountReply::TimedOut),
        "PumpPortal API error: Bonding curve RPC timed out (500ms)"
    );
}

#[test]
fn pool_price_is_quote_over_base() {
    let reply = VaultReply::Found {
        base: Some(vault(46_700_000_000_000)),
        quote: Some(vault(30_000_000_000)),
    };
    let price = fetch_price_pumpswap_sol(&pool(), &reply).unwrap();
    assert_eq!(f(price), 30.0 / 46_700_000.0);
    let spot = price_after_vaults(PriceKind::Spot, &pool(), &reply).unwrap();
    assert_eq!(f(spot.price), 30.0 / 46_700_000.0);
    assert_eq!(f(spot.liquidity_sol), 30.0);
    assert!(spot.pool.unwrap().pool_id.same(&key(1)));
    let sale =
        price_after_vaults(PriceKind::Realized { tokens: 429_337_870_605 }, &pool(), &reply)
            .unwrap();
    assert_eq!(
        sale.price,
        simulate_sell_price_sol(46_700_000_000_000, 30_000_000_000, 429_337_870_605)
    );
}

#[test]
fn pool_faults_are_told_apart() {
    let err = |reply: VaultReply| message(fetch_price_pumpswap_sol(&pool(), &reply).unwrap_err());
    let two = key(2).to_text();
    let three = key(3).to_text();
    assert_eq!(
        err(VaultReply::Found { base: None, quote: None }),
        format!("PumpPortal API error: PumpSwap base vault {} does not exist", two)
    );
    assert_eq!(
        err(VaultReply::Found { base: Some(vec![0; 71]), quote: None }),
        "PumpPortal API error: PumpSwap base vault data too short: 71 bytes"
    );
    assert_eq!(
        err(VaultReply::Found { base: Some(vault(1)), quote: None }),
        format!("PumpPortal API error: PumpSwap quote vault {} does not exist", three)
    );
    assert_eq!(
        err(VaultReply::Found { base: Some(vault(1)), quote: Some(vec![]) }),
        "PumpPortal API error: PumpSwap quote vault data too short: 0 bytes"
    );
    assert_eq!(
        err(VaultReply::Found { base: Some(vault(0)), quote: Some(vault(1)) }),
        "PumpPortal API error: PumpSwap base reserve is zero"
    );
    assert_eq!(
        err(VaultReply::Failed("x".to_string())),
        "PumpPortal API error: PumpSwap vault read failed: x"
    );
    assert_eq!(
        err(VaultReply::TimedOut),
        "PumpPortal API error: PumpSwap vault read timed out (500ms)"
    );
    let sale = |reply: VaultReply| {
        message(
            price_after_vaults(PriceKind::Realized { tokens: 7 }, &pool(), &reply).unwrap_err(),
        )
    };
    assert_eq!(
        sale(VaultReply::Found { base: Some(vault(0)), quote: Some(vault(5)) }),
        "PumpPortal API error: PumpSwap simulate_sell returned non-positive price \
         (base=0, quote=5, in=7)"
    );
    assert_eq!(
        sale(VaultReply::Found { base: Some(vault(1)), quote: Some(vec![]) }),
        "PumpPortal API error: PumpSwap vault data too short"
    );
    assert_eq!(
        sale(VaultReply::Found { base: Some(vault(1)), quote: None }),
        format!("PumpPortal API error: PumpSwap quote vault {} missing", three)
    );
    assert_eq!(
        sale(VaultReply::Found { base: None, quote: None }),
        format!("PumpPortal API error: PumpSwap base vault {} missing", two)
    );
}

#[test]
fn sales_pay_no_more_than_spot_and_never_drain_the_pool() {
    for (base, quote, tokens) in [
        (1u64, 1u64, 1u64),
        (10, 1_000_000_000, 10),
        (u64::MAX, u64::MAX, u64::MAX),
        (1_000_000, 30_000_000_000, 999_999_999),
    ] {
        let price = f(simulate_sell_price_sol(base, quote, tokens));
        let new_quote = (base as u128 * quote as u128) / (base as u128 + tokens as u128);
        let out = quote as u128 - new_quote;
        let expected = if out == 0 || new_quote == 0 {
            0.0
        } else {
            (out as f64 / 1_000_000_000.0) / (tokens as f64 / 1_000_000.0)
        };
        assert_eq!(price, expected);
    }
    assert_eq!(f(simulate_sell_price_sol(1, 1, 1)), 0.0);
    assert_eq!(f(simulate_sell_price_sol(5, 7, 31)), 0.0);
    assert!(f(simulate_sell_price_sol(5, 7, 30)) > 0.0);
    let small = f(simulate_sell_price_sol(10_000, 10_000_000, 10)) * 10.0;
    let large = f(simulate_sell_price_sol(10_000, 10_000_000, 20)) * 20.0;
    assert!(large >= small);
}

#[test]
fn pricing_turns_to_the_pool_after_graduation() {
    let token = SOL_MINT_STR;
    let kind = PriceKind::Realized { tokens: 1_000_000 };
    assert!(matches!(begin_price(kind, token, None), PriceAction::ReadCurve(_)));
    match begin_price(kind, "bad", None) {
        PriceAction::Finish(Err(e)) => assert_eq!(
            message(e),
            "Invalid token address: Invalid mint: String is the wrong size"
        ),
        other => panic!("unexpected {:?}", other),
    }
    assert!(matches!(begin_price(PriceKind::Spot, "bad", None), PriceAction::FindPool));

    let active = AccountReply::Found(curve(1_000_000_000_000, 30_000_000_000, 7_000_000_000, 0));
    match price_after_curve(kind, &active, None) {
        PriceAction::Finish(Ok(quote)) => {
            assert_eq!(
                quote.price,
                simulate_sell_price_sol(1_000_000_000_000, 30_000_000_000, 1_000_000)
            );
            assert_eq!(f(quote.liquidity_sol), 7.0);
            assert!(quote.pool.is_none());
        }
        other => panic!("unexpected {:?}", other),
    }
    let done = AccountReply::Found(curve(1_000_000_000_000, 30_000_000_000, 0, 1));
    assert!(matches!(price_after_curve(kind, &done, None), PriceAction::FindPool));
    assert!(matches!(
        price_after_curve(PriceKind::Spot, &done, Some(&pool())),
        PriceAction::ReadVaults(_)
    ));
    assert!(matches!(
        price_after_curve(PriceKind::Spot, &active, None),
        PriceAction::Finish(Ok(_))
    ));
    assert!(matches!(
        price_after_curve(kind, &AccountReply::TimedOut, None),
        PriceAction::FindPool
    ));
    assert!(matches!(price_after_search(Ok(pool())), PriceAction::ReadVaults(_)));
    assert!(matches!(
        price_after_search(Err(BotError::Unknown("x".to_string()))),
        PriceAction::Finish(Err(_))
    ));
}

#[test]
fn batch_skips_accounts_without_a_price() {
    let tokens = vec![SOL_MINT_STR.to_string(), "bad".to_string(), key(7).to_text()];
    let curves = curves_to_read(&tokens);
    assert_eq!(curves.len(), 2);
    assert_eq!(curves[1].1, key(7).to_text());
    let mut prices = Vec::new();
    fetch_prices_bonding_curve_batch(
        &mut prices,
        &curves,
        0,
        &vec![Some(curve(1, 1, 0, 1)), Some(curve(2_000_000, 4_000_000_000, 0, 0))],
    );
    assert_eq!(prices.len(), 1);
    assert_eq!(prices[0].0, key(7).to_text());
    assert_eq!(f(prices[0].1), 2.0);
    fetch_prices_bonding_curve_batch(&mut prices, &curves, 1, &vec![None]);
    assert_eq!(prices.len(), 1);
}

#[test]
fn pool_search_follows_the_largest_holder() {
    let token = SOL_MINT_STR;
    assert!(begin_search(token).is_ok());
    assert!(begin_search("bad").is_err());
    let accounts: Vec<String> = (1..=12).map(|i| key(i).to_text()).collect();
    let keys = search_after_largest(token, &LargestReply::Found(accounts)).unwrap();
    assert_eq!(keys.len(), 10);

    let mut holder = vec![0u8; 72];
    holder[32..64].copy_from_slice(&[42u8; 32]);
    let mut stranger = vec![0u8; 72];
    stranger[32..64].copy_from_slice(&[41u8; 32]);
    let reply = AccountsReply::Found(vec![None, Some(vec![0; 10]), Some(stranger), Some(holder)]);
    let owners = search_after_accounts(token, &reply).unwrap();
    assert_eq!(owners.len(), 2);
    assert_eq!(owners[1].1, 3);

    let program = Pubkey::parse(PUMP_SWAP_PROGRAM_ID).unwrap();
    let programs = ProgramsReply::Found(vec![Some(key(99)), Some(program)]);
    let (pool_id, base_vault) = search_after_owners(token, &keys, &owners, &programs).unwrap();
    assert!(pool_id.same(&key(42)));
    assert!(base_vault.same(&key(4)));

    let quote = QuoteReply::Found(vec![key(77).to_text(), key(78).to_text()]);
    let info = search_after_quote(&pool_id, &base_vault, &quote).unwrap();
    assert!(info.pool_id.same(&key(42)));
    assert!(info.base_vault.same(&key(4)));
    assert!(info.quote_vault.same(&key(77)));
}

#[test]
fn pool_search_tells_where_it_failed() {
    let token = "TOKEN";
    let text = |e: BotError| message(e).replace("PumpPortal API error: ", "");
    assert_eq!(
        text(search_after_largest(token, &LargestReply::Found(vec![])).unwrap_err()),
        "No token accounts found for TOKEN"
    );
    assert_eq!(
        text(search_after_largest(token, &LargestReply::Failed("e".to_string())).unwrap_err()),
        "getTokenLargestAccounts failed for TOKEN: e"
    );
    assert_eq!(
        text(search_after_largest(token, &LargestReply::TimedOut).unwrap_err()),
        "getTokenLargestAccounts timed out (3s)"
    );
    assert_eq!(
        text(search_after_accounts(token, &AccountsReply::Found(vec![None])).unwrap_err()),
        "Could not extract owners from token accounts for TOKEN"
    );
    assert_eq!(
        text(search_after_accounts(token, &AccountsReply::Failed("e".to_string())).unwrap_err()),
        "Failed to read token accounts: e"
    );
    let owners = vec![(key(1), 0usize)];
    let keys = vec![key(5)];
    assert_eq!(
        text(
            search_after_owners(token, &keys, &owners, &ProgramsReply::Found(vec![None]))
                .unwrap_err()
        ),
        "No PumpSwap pool found among top holders for TOKEN"
    );
    assert_eq!(
        text(
            search_after_owners(token, &keys, &owners, &ProgramsReply::Failed("e".to_string()))
                .unwrap_err()
        ),
        "Failed to read owner accounts: e"
    );
    assert_eq!(
        text(search_after_quote(&key(1), &key(2), &QuoteReply::Found(vec![])).unwrap_err()),
        format!("No SOL vault found for PumpSwap pool {}", key(1).to_text())
    );
    assert_eq!(
        text(
            search_after_quote(&key(1), &key(2), &QuoteReply::Found(vec!["bad".to_string()]))
                .unwrap_err()
        ),
        format!("No SOL vault found for PumpSwap pool {}", key(1).to_text())
    );
    assert_eq!(
        text(
            search_after_quote(&key(1), &key(2), &QuoteReply::Failed("e".to_string()))
                .unwrap_err()
        ),
        format!("getTokenAccountsByOwner failed for pool {}: e", key(1).to_text())
    );
}
