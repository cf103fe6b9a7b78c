use hades_kat_bot::binary64::Binary64;
use hades_kat_bot::copying::{get_target_buy_info, TokenBalance, TransactionMeta};
use hades_kat_bot::feeds::{
    are_nameable, dexscreener_urls, enrich_tokens_dexscreener, extract_signature_from_ws,
    gecko_url, merge, parse_dexscreener_pair_standalone, pumpportal_data_url,
    pumpportal_trade_local_url, read_birdeye_page, read_pairs, reconnect_delay, socket_url,
    take_gecko_page, trending_addresses, BirdeyeCrawl, Connection, PageReply, PairFigures,
    PairRecord, Peer, SocketAction, SocketEvent,
};
use hades_kat_bot::pricing::SOL_MINT_STR;
use hades_kat_bot::pubkey::Pubkey;

fn b(x: f64) -> Binary64 {
    Binary64 { bits: x.to_bits() }
}

fn f(x: Binary64) -> f64 {
    f64::from_bits(x.bits)
}

fn body(text: &str) -> PageReply {
    PageReply::Body(text.to_string())
}

fn strings(list: &[&str]) -> Vec<String> {
    list.iter().map(|s| s.to_string()).collect()
}

fn pair(address: &str) -> PairRecord {
    PairRecord {
        address: Some(address.to_string()),
        symbol: None,
        name: None,
        price_usd: None,
        volume_h24: None,
        liquidity_usd: None,
        market_cap: None,
        fdv: None,
        price_change_h24: None,
        buys_h24: None,
        sells_h24: None,
        pair_created_at: None,
    }
}

#[test]
fn signature_is_read_from_log_notifications() {
    let text = r#"{"params":{"result":{"value":{"signature":"abc","logs":[]}}}}"#;
    assert_eq!(extract_signature_from_ws(text), Some("abc".to_string()));
    for other in [
        r#"{"params":{"result":{"value":{"signature":7}}}}"#,
        r#"{"params":{"result":{"value":{}}}}"#,
        r#"{"result":5}"#,
        "not json",
    ] {
        assert_eq!(extract_signature_from_ws(other), None);
    }
}

#[test]
fn birdeye_pages_are_collected_up_to_the_limit() {
    let mut crawl = BirdeyeCrawl::new(3);
    assert_eq!(
        crawl.next_request().unwrap(),
        "https://public-api.birdeye.so/defi/token_trending?sort_by=rank&sort_type=asc&offset=0&limit=20"
    );
    crawl.take_page(&body(r#"{"data":{"tokens":[{"address":"a"},{"x":1},{"address":"b"}]}}"#));
    assert_eq!(crawl.offset(), 20);
    assert!(crawl.next_request().unwrap().ends_with("offset=20&limit=20"));
    crawl.take_page(&body(r#"{"data":{"tokens":[{"address":"c"},{"address":"d"}]}}"#));
    assert!(crawl.next_request().is_none());
    assert_eq!(crawl.finish(), strings(&["a", "b", "c"]));
}

#[test]
fn birdeye_stops_at_an_empty_or_broken_page() {
    for reply in [
        body(r#"{"data":{"tokens":[]}}"#),
        body(r#"{"data":{}}"#),
        body("oops"),
        PageReply::Failed,
    ] {
        assert!(read_birdeye_page(&reply).is_none());
        let mut crawl = BirdeyeCrawl::new(50);
        crawl.take_page(&body(r#"{"data":{"tokens":[{"address":"a"}]}}"#));
        crawl.take_page(&reply);
        assert!(crawl.next_request().is_none());
        assert_eq!(crawl.finish(), strings(&["a"]));
    }
    assert!(BirdeyeCrawl::new(0).next_request().is_none());
}

#[test]
fn gecko_pages_are_merged_without_duplicates() {
    let mut found = Vec::new();
    let entry = |id: &str| {
        format!(r#"{{"relationships":{{"base_token":{{"data":{{"id":"{}"}}}}}}}}"#, id)
    };
    let page = format!(
        r#"{{"data":[{},{},{},{{}}]}}"#,
        entry("solana_aaa"),
        entry("bbb"),
        entry("aaa")
    );
    assert!(take_gecko_page(&mut found, &body(&page)));
    assert_eq!(found, strings(&["aaa", "bbb"]));
    assert!(!take_gecko_page(&mut found, &body(r#"{"data":[]}"#)));
    assert!(!take_gecko_page(&mut found, &body(r#"{}"#)));
    assert!(!take_gecko_page(&mut found, &PageReply::Failed));
    assert_eq!(found.len(), 2);
    assert_eq!(
        gecko_url(3),
        "https://api.geckoterminal.com/api/v2/networks/solana/trending_pools?page=3"
    );
}

#[test]
fn merged_lists_hold_each_address_once() {
    let mut list = strings(&["a", "b"]);
    merge(&mut list, &strings(&["b", "c", "c", "a", "d"]));
    assert_eq!(list, strings(&["a", "b", "c", "d"]));
    let birdeye = strings(&["Apump", "Bpump", "Apump"]);
    let gecko = strings(&["Bpump", "Cpump"]);
    assert_eq!(trending_addresses(&birdeye, &gecko), strings(&["Apump", "Bpump", "Cpump"]));
}

#[test]
fn pair_fields_have_their_fallbacks() {
    let token = parse_dexscreener_pair_standalone(&pair("0123456789"), 5, "t").unwrap();
    assert_eq!(token.address, "0123456789");
    assert_eq!(token.symbol, "01234567");
    assert_eq!(token.name, "Unknown");
    assert_eq!(token.decimals, 6);
    assert_eq!(f(token.price_usd), 0.0);
    assert_eq!((token.volume_24h, token.liquidity, token.market_cap), (0, 1, 0));
    assert_eq!((token.holders, token.age_hours), (1, 0));
    assert_eq!(token.created_at, "t");
    assert!(token.just_graduated_at_secs.is_none());
    let mut nameless = pair("x");
    nameless.address = None;
    assert!(parse_dexscreener_pair_standalone(&nameless, 5, "t").is_none());
}

#[test]
fn pair_fields_are_read() {
    let mut p = pair("mint");
    p.symbol = Some("SYM".to_string());
    p.name = Some("Name".to_string());
    p.price_usd = Some(b(0.25));
    p.volume_h24 = Some(b(1234.9));
    p.liquidity_usd = Some(b(0.4));
    p.fdv = Some(b(777.7));
    p.price_change_h24 = Some(b(-3.5));
    p.buys_h24 = Some(50);
    p.sells_h24 = Some(20);
    p.pair_created_at = Some(1_000);
    let token = parse_dexscreener_pair_standalone(&p, 1_000 + 3 * 3_600_000 + 5, "t").unwrap();
    assert_eq!((token.symbol.as_str(), token.name.as_str()), ("SYM", "Name"));
    assert_eq!(f(token.price_usd), 0.25);
    assert_eq!((token.volume_24h, token.liquidity, token.market_cap), (1234, 1, 777));
    assert_eq!((token.holders, token.age_hours), (30, 3));
    assert_eq!(f(token.price_change_24h), -3.5);
    p.market_cap = Some(b(5.0));
    p.sells_h24 = Some(90);
    let token = parse_dexscreener_pair_standalone(&p, 0, "t").unwrap();
    assert_eq!((token.market_cap, token.holders, token.age_hours), (5, 1, 0));
}

#[test]
fn first_pair_of_a_token_is_kept() {
    let mut first = pair("a");
    first.market_cap = Some(b(1.0));
    let mut second = pair("a");
    second.market_cap = Some(b(2.0));
    let pairs = vec![first, second, pair("b")];
    assert!(are_nameable(&pairs));
    let mut tokens = Vec::new();
    enrich_tokens_dexscreener(&mut tokens, &pairs, 0, "t");
    enrich_tokens_dexscreener(&mut tokens, &vec![pair("b"), pair("c")], 0, "t");
    let seen: Vec<&str> = tokens.iter().map(|t| t.address.as_str()).collect();
    assert_eq!(seen, vec!["a", "b", "c"]);
    assert_eq!(tokens[0].market_cap, 1);
    assert!(!are_nameable(&vec![pair("1234567\u{e9}x")]));
}

#[test]
fn urls_are_built_from_their_parts() {
    let many: Vec<String> = (0..31).map(|i| i.to_string()).collect();
    let urls = dexscreener_urls(&many);
    assert_eq!(urls.len(), 2);
    assert_eq!(
        urls[0],
        format!("https://api.dexscreener.com/tokens/v1/solana/{}", many[..30].join(","))
    );
    assert_eq!(urls[1], "https://api.dexscreener.com/tokens/v1/solana/30");
    assert!(dexscreener_urls(&Vec::new()).is_empty());
    assert_eq!(
        pumpportal_trade_local_url(&None),
        "https://pumpportal.fun/api/trade-local"
    );
    assert_eq!(
        pumpportal_trade_local_url(&Some("http://x//".to_string())),
        "http://x/api/trade-local"
    );
    assert_eq!(pumpportal_data_url(&None), "wss://pumpportal.fun/api/data");
    assert_eq!(
        pumpportal_data_url(&Some("http://x/".to_string())),
        "ws://x/api/data"
    );
    assert_eq!(socket_url("https://rpc?to=http://y"), "wss://rpc?to=ws://y");
}

#[test]
fn reconnect_delay_doubles_up_to_sixteen_seconds() {
    let delays: Vec<u64> = [0, 1, 2, 3, 4, 5, 1000].iter().map(|a| reconnect_delay(*a)).collect();
    assert_eq!(delays, vec![1, 2, 4, 8, 16, 16, 16]);
}

fn balance(mint: &str, owner: Option<&str>, amount: &str) -> TokenBalance {
    TokenBalance {
        mint: mint.to_string(),
        owner: owner.map(|s| s.to_string()),
        amount: amount.to_string(),
    }
}

#[test]
fn buys_of_followed_wallets_are_found() {
    let target = Pubkey { bytes: [8; 32] };
    let name = target.to_text();
    let meta = |pre: u64, post: u64| TransactionMeta {
        pre_balances: vec![pre, 1],
        post_balances: vec![post, 9],
        pre_token_balances: vec![
            balance("mint", Some("other"), "500"),
            balance("mint", Some(&name), "100"),
            balance("sold", Some(&name), "50"),
        ],
        post_token_balances: vec![
            balance("mint", Some("other"), "900"),
            balance("mint", None, "900"),
            balance(SOL_MINT_STR, Some(&name), "900"),
            balance("sold", Some(&name), "49"),
            balance("mint", Some(&name), "101"),
        ],
    };
    let buy = get_target_buy_info(&meta(1_000, 400), &vec![target]).unwrap();
    assert_eq!(
        (buy.wallet.as_str(), buy.mint.as_str(), buy.lamports_spent),
        (name.as_str(), "mint", 600)
    );
    assert!(get_target_buy_info(&meta(400, 400), &vec![target]).is_none());
    assert!(get_target_buy_info(&meta(400, 900), &vec![target]).is_none());
    assert!(get_target_buy_info(&meta(1_000, 400), &vec![]).is_none());
    let unreadable = TransactionMeta {
        pre_balances: vec![10],
        post_balances: vec![],
        pre_token_balances: vec![],
        post_token_balances: vec![balance("mint", Some(&name), "many")],
    };
    assert!(get_target_buy_info(&unreadable, &vec![target]).is_none());
}

#[test]
fn connections_are_tried_again_with_longer_waits() {
    let mut connection = Connection::new(Peer::Node);
    let wait = |connection: &mut Connection, event: SocketEvent| match connection.step(event) {
        SocketAction::Reconnect(delay) => delay,
        other => panic!("unexpected {:?}", other),
    };
    let mut waits = Vec::new();
    for _ in 0..6 {
        waits.push(wait(&mut connection, SocketEvent::Unreachable));
    }
    assert_eq!(waits, vec![1, 2, 4, 8, 16, 16]);
    assert!(matches!(connection.step(SocketEvent::Opened), SocketAction::Subscribe));
    match connection.step(SocketEvent::Text("t".to_string())) {
        SocketAction::Take(text) => assert_eq!(text, "t"),
        other => panic!("unexpected {:?}", other),
    }
    assert!(matches!(connection.step(SocketEvent::Ping), SocketAction::Answer));
    assert!(matches!(connection.step(SocketEvent::Other), SocketAction::Listen));
    assert_eq!(wait(&mut connection, SocketEvent::Closed), 1);
    assert_eq!(wait(&mut connection, SocketEvent::Broken), 2);
}

#[test]
fn failed_sends_are_met_by_who_listens() {
    let mut portal = Connection::new(Peer::PumpPortal);
    let mut node = Connection::new(Peer::Node);
    for connection in [&mut portal, &mut node] {
        assert!(matches!(connection.step(SocketEvent::Unreachable), SocketAction::Reconnect(1)));
        assert!(matches!(connection.step(SocketEvent::Opened), SocketAction::Subscribe));
    }
    assert!(matches!(portal.step(SocketEvent::NotSubscribed), SocketAction::Reconnect(0)));
    assert!(matches!(node.step(SocketEvent::NotSubscribed), SocketAction::Listen));
    assert!(matches!(portal.step(SocketEvent::NotAnswered), SocketAction::Listen));
    assert!(matches!(node.step(SocketEvent::NotAnswered), SocketAction::Reconnect(1)));
    assert!(matches!(portal.step(SocketEvent::Closed), SocketAction::Reconnect(1)));
    assert!(matches!(node.step(SocketEvent::Closed), SocketAction::Reconnect(2)));
}

#[test]
fn pairs_are_read_from_a_page() {
    let none = PairFigures {
        price_usd: None,
        volume_h24: None,
        liquidity_usd: None,
        market_cap: None,
        fdv: None,
        price_change_h24: None,
    };
    let told = PairFigures { price_usd: Some(b(0.25)), fdv: Some(b(9.0)), ..none };
    let page = r#"[
        {
            "baseToken": {"address": "mint", "symbol": "SYM", "name": "Name"},
            "txns": {"h24": {"buys": 7, "sells": 3}},
            "pairCreatedAt": -5
        },
        {"baseToken": {"address": 4}, "txns": {"h24": {"buys": -1, "sells": 1.5}}},
        "no pair"
    ]"#;
    let pairs = read_pairs(page, &vec![told]);
    assert_eq!(pairs.len(), 3);
    let first = &pairs[0];
    assert_eq!(first.address.as_deref(), Some("mint"));
    assert_eq!(first.symbol.as_deref(), Some("SYM"));
    assert_eq!(first.name.as_deref(), Some("Name"));
    assert_eq!((first.buys_h24, first.sells_h24), (Some(7), Some(3)));
    assert_eq!(first.pair_created_at, Some(-5));
    assert_eq!((first.price_usd, first.fdv), (Some(b(0.25)), Some(b(9.0))));
    assert_eq!(first.market_cap, None);
    for pair in &pairs[1..] {
        assert!(pair.address.is_none() && pair.symbol.is_none() && pair.name.is_none());
        assert!(pair.buys_h24.is_none() && pair.sells_h24.is_none());
        assert!(pair.pair_created_at.is_none() && pair.price_usd.is_none());
    }
    for other in ["{}", "[]", "7", "oops"] {
        assert!(read_pairs(other, &vec![told]).is_empty());
    }
}
