//! The feeds: what the web tells of tokens.
use crate::batching::batches;
use crate::binary64::Binary64;
use crate::error::joined;
use crate::pumpportal::{TokenInfo, TokenInfoView};
use vstd::prelude::*;

verus! {

/// Tokens on a page of Birdeye.
pub const BIRDEYE_PAGE: u32 = 20;

/// Tokens in a request to DexScreener.
pub const DEXSCREENER_BATCH: usize = 30;

/// The subscriptions that one connection carries.
pub const MAX_SUBS_PER_WS: usize = 10;

/// The text that a JSON document holds at a pointer, as `serde_json` parses it and `Value`'s
/// `pointer` and `as_str` find it.
pub uninterp spec fn json_text(document: Seq<char>, pointer: Seq<char>) -> Option<Seq<char>>;

/// The length of the array that a JSON document holds at a pointer, as `serde_json` parses it and
/// `Value`'s `pointer` and `as_array` find it.
pub uninterp spec fn json_length(document: Seq<char>, pointer: Seq<char>) -> Option<usize>;

/// `serde_json::from_str` to a `Value`, then its `pointer` and `as_str`: the text found, if any,
/// depends on the document and the pointer alone.
#[verifier::external_body]
fn find_json_text(document: &str, pointer: &str) -> (r: Option<String>)
    ensures
        match r {
            Some(text) => json_text(document@, pointer@) == Some(text@),
            None => json_text(document@, pointer@) == None::<Seq<char>>,
        },
{
    let value = serde_json::from_str::<serde_json::Value>(document).ok()?;
    value.pointer(pointer)?.as_str().map(|s| s.to_string())
}

/// `serde_json::from_str` to a `Value`, then its `pointer` and `as_array`: the length found, if
/// any, depends on the document and the pointer alone.
#[verifier::external_body]
fn find_json_length(document: &str, pointer: &str) -> (r: Option<usize>)
    ensures
        r == json_length(document@, pointer@),
{
    let value = serde_json::from_str::<serde_json::Value>(document).ok()?;
    value.pointer(pointer)?.as_array().map(|a| a.len())
}

/// The unsigned number that a JSON document holds at a pointer, as `serde_json` parses it and
/// `Value`'s `pointer` and `as_u64` find it.
pub uninterp spec fn json_unsigned(document: Seq<char>, pointer: Seq<char>) -> Option<u64>;

/// The signed number that a JSON document holds at a pointer, as `serde_json` parses it and
/// `Value`'s `pointer` and `as_i64` find it.
pub uninterp spec fn json_signed(document: Seq<char>, pointer: Seq<char>) -> Option<i64>;

/// `serde_json::from_str` to a `Value`, then its `pointer` and `as_u64`: the number found, if any,
/// depends on the document and the pointer alone.
#[verifier::external_body]
fn find_json_unsigned(document: &str, pointer: &str) -> (r: Option<u64>)
    ensures
        r == json_unsigned(document@, pointer@),
{
    let value = serde_json::from_str::<serde_json::Value>(document).ok()?;
    value.pointer(pointer)?.as_u64()
}

/// `serde_json::from_str` to a `Value`, then its `pointer` and `as_i64`: the number found, if any,
/// depends on the document and the pointer alone.
#[verifier::external_body]
fn find_json_signed(document: &str, pointer: &str) -> (r: Option<i64>)
    ensures
        r == json_signed(document@, pointer@),
{
    let value = serde_json::from_str::<serde_json::Value>(document).ok()?;
    value.pointer(pointer)?.as_i64()
}

/// The signature that a log notification is about.
pub fn extract_signature_from_ws(msg: &str) -> (r: Option<String>)
    ensures
        match r {
            Some(text) => json_text(msg@, "/params/result/value/signature"@) == Some(text@),
            None => json_text(msg@, "/params/result/value/signature"@) == None::<Seq<char>>,
        },
{
    find_json_text(msg, "/params/result/value/signature")
}

/// The pointer to a field of an item of an array.
pub open spec fn item_pointer(array: Seq<char>, i: nat, field: Seq<char>) -> Seq<char> {
    array + "/"@ + crate::text::decimal(i) + field
}

fn pointer_to(array: &str, i: usize, field: &str) -> (r: String)
    ensures
        r@ == item_pointer(array@, i as nat, field@),
{
    let mut out: String = joined(array, "/");
    let number: String = crate::text::decimal_text(i as u64);
    out.append(number.as_str());
    out.append(field);
    out
}

/// The texts at a field of the first `n` items of an array; items without one are passed over.
pub open spec fn item_texts(
    document: Seq<char>,
    array: Seq<char>,
    field: Seq<char>,
    n: nat,
) -> Seq<Seq<char>>
    decreases n,
{
    if n == 0 {
        Seq::empty()
    } else {
        let before = item_texts(document, array, field, (n - 1) as nat);
        match json_text(document, item_pointer(array, (n - 1) as nat, field)) {
            Some(text) => before.push(text),
            None => before,
        }
    }
}

/// The texts at a field of the items of an array, none where there is no array or an empty one.
pub open spec fn page_texts(document: Seq<char>, array: Seq<char>, field: Seq<char>) -> Option<
    Seq<Seq<char>>,
> {
    match json_length(document, array) {
        Some(n) => if n == 0 {
            None
        } else {
            Some(item_texts(document, array, field, n as nat))
        },
        None => None,
    }
}

fn read_page(document: &str, array: &str, field: &str) -> (r: Option<Vec<String>>)
    ensures
        match r {
            Some(v) => page_texts(document@, array@, field@) == Some(crate::text::texts(v@)),
            None => page_texts(document@, array@, field@) == None::<Seq<Seq<char>>>,
        },
{
    let n: usize = match find_json_length(document, array) {
        Some(n) => n,
        None => {
            return None;
        },
    };
    if n == 0 {
        return None;
    }
    let mut out: Vec<String> = Vec::new();
    let mut i: usize = 0;
    assert(crate::text::texts(out@) =~= item_texts(document@, array@, field@, 0));
    while i < n
        invariant
            i <= n,
            crate::text::texts(out@) =~= item_texts(document@, array@, field@, i as nat),
        decreases n - i,
    {
        let ghost before = crate::text::texts(out@);
        let pointer: String = pointer_to(array, i, field);
        if let Some(text) = find_json_text(document, pointer.as_str()) {
            out.push(text);
            assert(crate::text::texts(out@) =~= before.push(text@));
        }
        i = i + 1;
    }
    Some(out)
}

/// What a request for a page brought.
#[derive(Debug)]
pub enum PageReply {
    Body(String),
    Failed,
}

/// The addresses on a page of Birdeye; none where the pages have come to an end.
pub open spec fn birdeye_page(reply: PageReply) -> Option<Seq<Seq<char>>> {
    match reply {
        PageReply::Body(body) => page_texts(body@, "/data/tokens"@, "/address"@),
        PageReply::Failed => None,
    }
}

/// Reads the addresses on a page of Birdeye.
pub fn read_birdeye_page(reply: &PageReply) -> (r: Option<Vec<String>>)
    ensures
        match r {
            Some(v) => birdeye_page(*reply) == Some(crate::text::texts(v@)),
            None => birdeye_page(*reply) == None::<Seq<Seq<char>>>,
        },
{
    match reply {
        PageReply::Body(body) => read_page(body.as_str(), "/data/tokens", "/address"),
        PageReply::Failed => None,
    }
}

/// Collects the trending tokens of Birdeye, page by page.
pub struct BirdeyeCrawl {
    addresses: Vec<String>,
    offset: u32,
    limit: u32,
    ended: bool,
}

#[verifier::ext_equal]
pub struct CrawlView {
    pub addresses: Seq<Seq<char>>,
    pub offset: u32,
    pub limit: u32,
    pub ended: bool,
}

impl View for BirdeyeCrawl {
    type V = CrawlView;

    closed spec fn view(&self) -> CrawlView {
        CrawlView {
            addresses: crate::text::texts(self.addresses@),
            offset: self.offset,
            limit: self.limit,
            ended: self.ended,
        }
    }
}

/// Whether another page is to be asked for.
pub open spec fn wants_more(c: CrawlView) -> bool {
    !c.ended && c.addresses.len() < c.limit
}

/// The crawl after a page.
pub open spec fn after_page(c: CrawlView, page: Option<Seq<Seq<char>>>) -> CrawlView {
    match page {
        Some(addresses) => CrawlView {
            addresses: c.addresses + addresses,
            offset: (c.offset + BIRDEYE_PAGE) as u32,
            ..c
        },
        None => CrawlView { ended: true, ..c },
    }
}

/// The address of a page of Birdeye.
pub open spec fn birdeye_url(offset: u32) -> Seq<char> {
    "https://public-api.birdeye.so/defi/token_trending?sort_by=rank&sort_type=asc&offset="@
        + crate::text::decimal(offset as nat) + "&limit="@ + crate::text::decimal(
        BIRDEYE_PAGE as nat,
    )
}

impl BirdeyeCrawl {
    pub fn new(limit: u32) -> (r: Self)
        ensures
            r@ == (CrawlView { addresses: Seq::empty(), offset: 0, limit, ended: false }),
    {
        let r = BirdeyeCrawl { addresses: Vec::new(), offset: 0, limit, ended: false };
        assert(r@.addresses =~= Seq::<Seq<char>>::empty());
        r
    }

    /// Where the next page is, if another one is to be asked for.
    pub fn next_request(&self) -> (r: Option<String>)
        ensures
            match r {
                Some(url) => wants_more(self@) && url@ == birdeye_url(self@.offset),
                None => !wants_more(self@),
            },
    {
        if self.ended || self.addresses.len() as u64 >= self.limit as u64 {
            return None;
        }
        let mut url: String =
            "https://public-api.birdeye.so/defi/token_trending?sort_by=rank&sort_type=asc&offset=".to_owned();
        let offset: String = crate::text::decimal_text(self.offset as u64);
        url.append(offset.as_str());
        url.append("&limit=");
        let size: String = crate::text::decimal_text(BIRDEYE_PAGE as u64);
        url.append(size.as_str());
        Some(url)
    }

    /// Takes in a page.
    pub fn take_page(&mut self, reply: &PageReply)
        requires
            old(self)@.offset <= u32::MAX - BIRDEYE_PAGE,
        ensures
            final(self)@ == after_page(old(self)@, birdeye_page(*reply)),
    {
        let ghost c = self@;
        match read_birdeye_page(reply) {
            Some(page) => {
                let mut page: Vec<String> = page;
                let ghost added = crate::text::texts(page@);
                self.addresses.append(&mut page);
                assert(crate::text::texts(self.addresses@) =~= c.addresses + added);
                self.offset = self.offset + BIRDEYE_PAGE;
            },
            None => {
                self.ended = true;
            },
        }
    }

    pub fn offset(&self) -> (r: u32)
        ensures
            r == self@.offset,
    {
        self.offset
    }

    /// The addresses found, at most as many as were asked for.
    pub fn finish(self) -> (r: Vec<String>)
        ensures
            crate::text::texts(r@) == (if self@.addresses.len() <= self@.limit {
                self@.addresses
            } else {
                self@.addresses.take(self@.limit as int)
            }),
            crate::text::texts(r@) == crawled(self@),
            r@.len() <= self@.limit,
    {
        let mut addresses: Vec<String> = self.addresses;
        let ghost before = crate::text::texts(addresses@);
        if addresses.len() as u64 > self.limit as u64 {
            let n: usize = self.limit as usize;
            addresses.truncate(n);
            assert(crate::text::texts(addresses@) =~= before.take(n as int));
        }
        assert(crate::text::texts(addresses@).len() == addresses@.len());
        addresses
    }
}

/// The mint that a pool of GeckoTerminal names.
pub open spec fn gecko_mint(id: Seq<char>) -> Seq<char> {
    if crate::text::has_prefix(id, "solana_"@) {
        id.skip("solana_"@.len() as int)
    } else {
        id
    }
}

/// A list with those of further texts that it does not hold yet.
pub open spec fn merged(list: Seq<Seq<char>>, more: Seq<Seq<char>>) -> Seq<Seq<char>>
    decreases more.len(),
{
    if more.len() == 0 {
        list
    } else {
        let before = merged(list, more.drop_last());
        if before.contains(more.last()) {
            before
        } else {
            before.push(more.last())
        }
    }
}

fn contains_text(list: &Vec<String>, text: &str) -> (r: bool)
    ensures
        r == crate::text::texts(list@).contains(text@),
{
    let ghost all = crate::text::texts(list@);
    let mut i: usize = 0;
    while i < list.len()
        invariant
            i <= list@.len(),
            all == crate::text::texts(list@),
            forall|j: int| 0 <= j < i ==> all[j] != text@,
        decreases list@.len() - i,
    {
        if crate::text::same_text(list[i].as_str(), text) {
            assert(all[i as int] == text@);
            return true;
        }
        i = i + 1;
    }
    false
}

/// Adds those texts to a list that it does not hold yet.
pub fn merge(list: &mut Vec<String>, more: &Vec<String>)
    ensures
        crate::text::texts(final(list)@) == merged(
            crate::text::texts(old(list)@),
            crate::text::texts(more@),
        ),
{
    let ghost start = crate::text::texts(list@);
    let ghost all = crate::text::texts(more@);
    let mut i: usize = 0;
    while i < more.len()
        invariant
            i <= more@.len(),
            all == crate::text::texts(more@),
            crate::text::texts(list@) =~= merged(start, all.take(i as int)),
        decreases more@.len() - i,
    {
        assert(all.take(i + 1).drop_last() =~= all.take(i as int));
        let ghost before = crate::text::texts(list@);
        if !contains_text(list, more[i].as_str()) {
            list.push(more[i].clone());
            assert(crate::text::texts(list@) =~= before.push(all[i as int]));
        }
        i = i + 1;
    }
    assert(all.take(all.len() as int) =~= all);
}

/// The trending tokens of both lists, each once, in the order in which they first come.
pub fn trending_addresses(birdeye: &Vec<String>, gecko: &Vec<String>) -> (r: Vec<String>)
    ensures
        crate::text::texts(r@) == merged(
            merged(Seq::empty(), crate::text::texts(birdeye@)),
            crate::text::texts(gecko@),
        ),
{
    let mut addresses: Vec<String> = Vec::new();
    assert(crate::text::texts(addresses@) =~= Seq::<Seq<char>>::empty());
    merge(&mut addresses, birdeye);
    merge(&mut addresses, gecko);
    addresses
}

/// The mints on a page of GeckoTerminal; none where the pages have come to an end.
pub open spec fn gecko_page(reply: PageReply) -> Option<Seq<Seq<char>>> {
    match reply {
        PageReply::Body(body) => match page_texts(
            body@,
            "/data"@,
            "/relationships/base_token/data/id"@,
        ) {
            Some(ids) => Some(ids.map_values(|id: Seq<char>| gecko_mint(id))),
            None => None,
        },
        PageReply::Failed => None,
    }
}

/// Takes in a page of GeckoTerminal. Says whether there may be more.
pub fn take_gecko_page(addresses: &mut Vec<String>, reply: &PageReply) -> (r: bool)
    ensures
        r == gecko_page(*reply) is Some,
        crate::text::texts(final(addresses)@) == (match gecko_page(*reply) {
            Some(page) => merged(crate::text::texts(old(addresses)@), page),
            None => crate::text::texts(old(addresses)@),
        }),
{
    let body: &String = match reply {
        PageReply::Body(body) => body,
        PageReply::Failed => {
            return false;
        },
    };
    let ids: Vec<String> = match read_page(
        body.as_str(),
        "/data",
        "/relationships/base_token/data/id",
    ) {
        Some(ids) => ids,
        None => {
            return false;
        },
    };
    let ghost all = crate::text::texts(ids@);
    let mut mints: Vec<String> = Vec::new();
    let mut i: usize = 0;
    while i < ids.len()
        invariant
            i <= ids@.len(),
            all == crate::text::texts(ids@),
            crate::text::texts(mints@) =~= all.take(i as int).map_values(
                |id: Seq<char>| gecko_mint(id),
            ),
        decreases ids@.len() - i,
    {
        let ghost before = crate::text::texts(mints@);
        let id: &str = ids[i].as_str();
        let mint: String = if crate::text::starts_with(id, "solana_") {
            crate::text::skip_chars(id, "solana_".unicode_len())
        } else {
            id.to_owned()
        };
        mints.push(mint);
        assert(crate::text::texts(mints@) =~= before.push(gecko_mint(all[i as int])));
        i = i + 1;
    }
    assert(all.take(all.len() as int) =~= all);
    merge(addresses, &mints);
    true
}

/// The address of a page of GeckoTerminal.
pub fn gecko_url(page: u32) -> (r: String)
    ensures
        r@ == "https://api.geckoterminal.com/api/v2/networks/solana/trending_pools?page="@
            + crate::text::decimal(page as nat),
{
    let number: String = crate::text::decimal_text(page as u64);
    joined(
        "https://api.geckoterminal.com/api/v2/networks/solana/trending_pools?page=",
        number.as_str(),
    )
}

/// What DexScreener tells of a pair.
#[derive(Debug)]
pub struct PairRecord {
    pub address: Option<String>,
    pub symbol: Option<String>,
    pub name: Option<String>,
    pub price_usd: Option<Binary64>,
    pub volume_h24: Option<Binary64>,
    pub liquidity_usd: Option<Binary64>,
    pub market_cap: Option<Binary64>,
    pub fdv: Option<Binary64>,
    pub price_change_h24: Option<Binary64>,
    pub buys_h24: Option<u64>,
    pub sells_h24: Option<u64>,
    /// Milliseconds since 1970-01-01 00:00 UTC.
    pub pair_created_at: Option<i64>,
}

/// The prices and amounts that DexScreener tells of a pair.
#[derive(Debug, Clone, Copy)]
pub struct PairFigures {
    pub price_usd: Option<Binary64>,
    pub volume_h24: Option<Binary64>,
    pub liquidity_usd: Option<Binary64>,
    pub market_cap: Option<Binary64>,
    pub fdv: Option<Binary64>,
    pub price_change_h24: Option<Binary64>,
}

/// The figures of a pair, none where the list does not reach it.
pub open spec fn figures_at(figures: Seq<PairFigures>, i: int) -> PairFigures {
    if 0 <= i < figures.len() {
        figures[i]
    } else {
        PairFigures {
            price_usd: None,
            volume_h24: None,
            liquidity_usd: None,
            market_cap: None,
            fdv: None,
            price_change_h24: None,
        }
    }
}

/// What a page of DexScreener tells of a pair, with its figures.
pub open spec fn tells_of(
    document: Seq<char>,
    i: nat,
    figures: PairFigures,
    pair: PairRecord,
) -> bool {
    let at = |field: Seq<char>| item_pointer(""@, i, field);
    &&& crate::trading::text_view(pair.address) == json_text(document, at("/baseToken/address"@))
    &&& crate::trading::text_view(pair.symbol) == json_text(document, at("/baseToken/symbol"@))
    &&& crate::trading::text_view(pair.name) == json_text(document, at("/baseToken/name"@))
    &&& pair.buys_h24 == json_unsigned(document, at("/txns/h24/buys"@))
    &&& pair.sells_h24 == json_unsigned(document, at("/txns/h24/sells"@))
    &&& pair.pair_created_at == json_signed(document, at("/pairCreatedAt"@))
    &&& pair.price_usd == figures.price_usd
    &&& pair.volume_h24 == figures.volume_h24
    &&& pair.liquidity_usd == figures.liquidity_usd
    &&& pair.market_cap == figures.market_cap
    &&& pair.fdv == figures.fdv
    &&& pair.price_change_h24 == figures.price_change_h24
}

/// How many pairs a page of DexScreener holds: none where it is no array.
pub open spec fn pair_count(document: Seq<char>) -> usize {
    match json_length(document, ""@) {
        Some(n) => n,
        None => 0,
    }
}

fn read_pair(document: &str, i: usize, figures: PairFigures) -> (r: PairRecord)
    ensures
        tells_of(document@, i as nat, figures, r),
{
    let address: String = pointer_to("", i, "/baseToken/address");
    let symbol: String = pointer_to("", i, "/baseToken/symbol");
    let name: String = pointer_to("", i, "/baseToken/name");
    let buys: String = pointer_to("", i, "/txns/h24/buys");
    let sells: String = pointer_to("", i, "/txns/h24/sells");
    let created: String = pointer_to("", i, "/pairCreatedAt");
    PairRecord {
        address: find_json_text(document, address.as_str()),
        symbol: find_json_text(document, symbol.as_str()),
        name: find_json_text(document, name.as_str()),
        price_usd: figures.price_usd,
        volume_h24: figures.volume_h24,
        liquidity_usd: figures.liquidity_usd,
        market_cap: figures.market_cap,
        fdv: figures.fdv,
        price_change_h24: figures.price_change_h24,
        buys_h24: find_json_unsigned(document, buys.as_str()),
        sells_h24: find_json_unsigned(document, sells.as_str()),
        pair_created_at: find_json_signed(document, created.as_str()),
    }
}

/// Reads the pairs on a page of DexScreener. Their figures come beside it, in the same order.
pub fn read_pairs(document: &str, figures: &Vec<PairFigures>) -> (r: Vec<PairRecord>)
    ensures
        r@.len() == pair_count(document@),
        forall|i: int|
            0 <= i < r@.len() ==> tells_of(
                document@,
                i as nat,
                figures_at(figures@, i),
                #[trigger] r@[i],
            ),
{
    let n: usize = match find_json_length(document, "") {
        Some(n) => n,
        None => 0,
    };
    let mut pairs: Vec<PairRecord> = Vec::new();
    let mut i: usize = 0;
    while i < n
        invariant
            i <= n,
            pairs@.len() == i,
            forall|j: int|
                0 <= j < i ==> tells_of(
                    document@,
                    j as nat,
                    figures_at(figures@, j),
                    #[trigger] pairs@[j],
                ),
        decreases n - i,
    {
        let beside: PairFigures = if i < figures.len() {
            figures[i]
        } else {
            PairFigures {
                price_usd: None,
                volume_h24: None,
                liquidity_usd: None,
                market_cap: None,
                fdv: None,
                price_change_h24: None,
            }
        };
        pairs.push(read_pair(document, i, beside));
        i = i + 1;
    }
    pairs
}

pub open spec fn or_number(n: Option<Binary64>, otherwise: u64) -> Binary64 {
    match n {
        Some(x) => x,
        None => Binary64::from_u64(otherwise),
    }
}

pub open spec fn or_count(n: Option<u64>) -> u64 {
    match n {
        Some(x) => x,
        None => 0,
    }
}

/// How many hold a token, as far as purchases less sales tell: one where there are no more
/// purchases than sales. Of a larger number the low 32 bits are kept.
pub open spec fn estimated_holders(buys: u64, sells: u64) -> u32 {
    if buys > sells {
        ((buys - sells) % 0x1_0000_0000) as u32
    } else {
        1
    }
}

/// The whole hours from a time to another, both in milliseconds; none where it lies ahead.
pub open spec fn age_in_hours(created_ms: Option<i64>, now_ms: i64) -> u32 {
    match created_ms {
        Some(created) => if now_ms >= created {
            (((now_ms - created) / 3_600_000) % 0x1_0000_0000) as u32
        } else {
            0
        },
        None => 0,
    }
}

/// The token that a pair is about.
pub open spec fn pair_token(pair: PairRecord, now_ms: i64, created_at: Seq<char>) -> TokenInfoView
    recommends
        pair.address is Some,
{
    let address = pair.address->0@;
    TokenInfoView {
        address,
        symbol: match pair.symbol {
            Some(s) => s@,
            None => crate::text::abbreviation(address),
        },
        name: match pair.name {
            Some(s) => s@,
            None => "Unknown"@,
        },
        decimals: 6,
        market_cap: (match pair.market_cap {
            Some(x) => x,
            None => or_number(pair.fdv, 0),
        }).to_u64(),
        holders: estimated_holders(or_count(pair.buys_h24), or_count(pair.sells_h24)),
        age_hours: age_in_hours(pair.pair_created_at, now_ms),
        liquidity: or_number(pair.liquidity_usd, 1).at_least(Binary64::from_u64(1)).to_u64(),
        price_usd: or_number(pair.price_usd, 0),
        price_change_24h: or_number(pair.price_change_h24, 0),
        volume_24h: or_number(pair.volume_h24, 0).to_u64(),
        created_at,
        just_graduated_at_secs: None,
    }
}

fn number_or(n: Option<Binary64>, otherwise: u64) -> (r: Binary64)
    ensures
        r == or_number(n, otherwise),
{
    match n {
        Some(x) => x,
        None => Binary64::from_u64(otherwise),
    }
}

fn count_or_zero(n: Option<u64>) -> (r: u64)
    ensures
        r == or_count(n),
{
    match n {
        Some(x) => x,
        None => 0,
    }
}

/// The name of the token can be abbreviated, where the pair has one.
pub open spec fn nameable(pair: PairRecord) -> bool {
    pair.address matches Some(address) ==> crate::text::can_abbreviate(address@)
}

/// Reads what DexScreener tells of a pair.
pub fn parse_dexscreener_pair_standalone(pair: &PairRecord, now_ms: i64, created_at: &str) -> (r:
    Option<TokenInfo>)
    requires
        nameable(*pair),
    ensures
        match r {
            Some(token) => pair.address is Some && token@ == pair_token(
                *pair,
                now_ms,
                created_at@,
            ),
            None => pair.address is None,
        },
{
    let address: &String = match &pair.address {
        Some(a) => a,
        None => {
            return None;
        },
    };
    let symbol: String = match &pair.symbol {
        Some(s) => s.clone(),
        None => crate::text::abbreviate(address.as_str()),
    };
    let name: String = match &pair.name {
        Some(s) => s.clone(),
        None => "Unknown".to_owned(),
    };
    let market_cap = match pair.market_cap {
        Some(x) => x,
        None => number_or(pair.fdv, 0),
    };
    let buys: u64 = count_or_zero(pair.buys_h24);
    let sells: u64 = count_or_zero(pair.sells_h24);
    let holders: u32 = if buys > sells {
        ((buys - sells) % 0x1_0000_0000) as u32
    } else {
        1
    };
    let age_hours: u32 = match pair.pair_created_at {
        Some(created) => {
            if now_ms >= created {
                let span: u128 = (now_ms as i128 - created as i128) as u128;
                ((span / 3_600_000) % 0x1_0000_0000) as u32
            } else {
                0
            }
        },
        None => 0,
    };
    Some(
        TokenInfo {
            address: address.clone(),
            symbol,
            name,
            decimals: 6,
            market_cap: market_cap.to_u64(),
            holders,
            age_hours,
            liquidity: number_or(pair.liquidity_usd, 1).at_least(Binary64::from_u64(1)).to_u64(),
            price_usd: number_or(pair.price_usd, 0),
            price_change_24h: number_or(pair.price_change_h24, 0),
            volume_24h: number_or(pair.volume_h24, 0).to_u64(),
            created_at: created_at.to_owned(),
            just_graduated_at_secs: None,
        },
    )
}

/// Whether tokens hold one of the address.
pub open spec fn has_address(tokens: Seq<TokenInfoView>, address: Seq<char>) -> bool {
    exists|i: int| 0 <= i < tokens.len() && (#[trigger] tokens[i]).address == address
}

/// The tokens with those of further pairs; of several pairs of one token the first counts.
pub open spec fn with_pairs(
    tokens: Seq<TokenInfoView>,
    pairs: Seq<PairRecord>,
    now_ms: i64,
    created_at: Seq<char>,
) -> Seq<TokenInfoView>
    decreases pairs.len(),
{
    if pairs.len() == 0 {
        tokens
    } else {
        let before = with_pairs(tokens, pairs.drop_last(), now_ms, created_at);
        let pair = pairs.last();
        if pair.address is Some && !has_address(before, pair.address->0@) {
            before.push(pair_token(pair, now_ms, created_at))
        } else {
            before
        }
    }
}

/// Adds the tokens of the pairs in a reply of DexScreener, each token once.
pub fn enrich_tokens_dexscreener(
    tokens: &mut Vec<TokenInfo>,
    pairs: &Vec<PairRecord>,
    now_ms: i64,
    created_at: &str,
)
    requires
        forall|i: int| 0 <= i < pairs@.len() ==> nameable(#[trigger] pairs@[i]),
    ensures
        crate::trading::token_views(final(tokens)@) == with_pairs(
            crate::trading::token_views(old(tokens)@),
            pairs@,
            now_ms,
            created_at@,
        ),
{
    let ghost start = crate::trading::token_views(tokens@);
    let mut i: usize = 0;
    assert(pairs@.take(0) =~= Seq::<PairRecord>::empty());
    while i < pairs.len()
        invariant
            i <= pairs@.len(),
            forall|i: int| 0 <= i < pairs@.len() ==> nameable(#[trigger] pairs@[i]),
            crate::trading::token_views(tokens@) =~= with_pairs(
                start,
                pairs@.take(i as int),
                now_ms,
                created_at@,
            ),
        decreases pairs@.len() - i,
    {
        assert(pairs@.take(i + 1).drop_last() =~= pairs@.take(i as int));
        let ghost before = crate::trading::token_views(tokens@);
        if let Some(token) = parse_dexscreener_pair_standalone(&pairs[i], now_ms, created_at) {
            if !holds_address(tokens, token.address.as_str()) {
                tokens.push(token);
                assert(crate::trading::token_views(tokens@) =~= before.push(token@));
            }
        }
        i = i + 1;
    }
    assert(pairs@.take(pairs@.len() as int) =~= pairs@);
}

fn holds_address(tokens: &Vec<TokenInfo>, address: &str) -> (r: bool)
    ensures
        r == has_address(crate::trading::token_views(tokens@), address@),
{
    let ghost all = crate::trading::token_views(tokens@);
    let mut i: usize = 0;
    while i < tokens.len()
        invariant
            i <= tokens@.len(),
            all == crate::trading::token_views(tokens@),
            forall|j: int| 0 <= j < i ==> (#[trigger] all[j]).address != address@,
        decreases tokens@.len() - i,
    {
        if crate::text::same_text(tokens[i].address.as_str(), address) {
            assert(all[i as int].address == address@);
            return true;
        }
        i = i + 1;
    }
    false
}

/// Whether the names of all pairs can be abbreviated.
pub fn are_nameable(pairs: &Vec<PairRecord>) -> (r: bool)
    ensures
        r == (forall|i: int| 0 <= i < pairs@.len() ==> nameable(#[trigger] pairs@[i])),
{
    let mut i: usize = 0;
    while i < pairs.len()
        invariant
            i <= pairs@.len(),
            forall|j: int| 0 <= j < i ==> nameable(#[trigger] pairs@[j]),
        decreases pairs@.len() - i,
    {
        if let Some(address) = &pairs[i].address {
            if !crate::text::is_abbreviable(address.as_str()) {
                assert(!nameable(pairs@[i as int]));
                return false;
            }
        }
        i = i + 1;
    }
    true
}

/// The requests to DexScreener for addresses: each asks for at most thirty of them, in order.
pub open spec fn dexscreener_url(addresses: Seq<Seq<char>>) -> Seq<char> {
    "https://api.dexscreener.com/tokens/v1/solana/"@ + crate::text::join_with(addresses, ","@)
}

/// The requests to DexScreener for addresses.
pub fn dexscreener_urls(addresses: &Vec<String>) -> (r: Vec<String>)
    ensures
        r@.len() == crate::batching::batch_count(addresses@.len(), DEXSCREENER_BATCH as nat),
        forall|k: int|
            0 <= k < r@.len() ==> {
                let (from, to) = crate::batching::batch_range(
                    addresses@.len(),
                    DEXSCREENER_BATCH as nat,
                    k as nat,
                );
                (#[trigger] r@[k])@ == dexscreener_url(
                    crate::text::texts(addresses@).subrange(from as int, to as int),
                )
            },
{
    let ghost all = crate::text::texts(addresses@);
    let ranges: Vec<(usize, usize)> = batches(addresses.len(), DEXSCREENER_BATCH);
    let mut urls: Vec<String> = Vec::new();
    let mut k: usize = 0;
    proof {
        crate::batching::law_batches_cover(addresses@.len(), DEXSCREENER_BATCH as nat);
    }
    while k < ranges.len()
        invariant
            k <= ranges@.len(),
            urls@.len() == k,
            all == crate::text::texts(addresses@),
            ranges@.len() == crate::batching::batch_count(
                addresses@.len(),
                DEXSCREENER_BATCH as nat,
            ),
            forall|j: int|
                0 <= j < ranges@.len() ==> {
                    &&& (#[trigger] ranges@[j]).0 == crate::batching::batch_range(
                        addresses@.len(),
                        DEXSCREENER_BATCH as nat,
                        j as nat,
                    ).0
                    &&& ranges@[j].1 == crate::batching::batch_range(
                        addresses@.len(),
                        DEXSCREENER_BATCH as nat,
                        j as nat,
                    ).1
                },
            forall|j: nat|
                j < ranges@.len() ==> {
                    let (from, to) = #[trigger] crate::batching::batch_range(
                        addresses@.len(),
                        DEXSCREENER_BATCH as nat,
                        j,
                    );
                    from < to <= from + DEXSCREENER_BATCH
                },
            forall|j: int|
                0 <= j < k ==> {
                    let (from, to) = crate::batching::batch_range(
                        addresses@.len(),
                        DEXSCREENER_BATCH as nat,
                        j as nat,
                    );
                    (#[trigger] urls@[j])@ == dexscreener_url(
                        all.subrange(from as int, to as int),
                    )
                },
        decreases ranges@.len() - k,
    {
        let (from, to) = ranges[k];
        assert(from < to <= addresses@.len()) by {
            let range = crate::batching::batch_range(
                addresses@.len(),
                DEXSCREENER_BATCH as nat,
                k as nat,
            );
            assert(ranges@[k as int].0 == range.0);
        }
        let mut part: Vec<String> = Vec::new();
        let mut i: usize = from;
        while i < to
            invariant
                from <= i <= to,
                to <= addresses@.len(),
                all == crate::text::texts(addresses@),
                crate::text::texts(part@) =~= all.subrange(from as int, i as int),
            decreases to - i,
        {
            let ghost before = crate::text::texts(part@);
            part.push(addresses[i].clone());
            assert(crate::text::texts(part@) =~= before.push(all[i as int]));
            i = i + 1;
        }
        let list: String = crate::text::join(&part, ",");
        urls.push(joined("https://api.dexscreener.com/tokens/v1/solana/", list.as_str()));
        k = k + 1;
    }
    urls
}

/// The seconds to wait before a connection is tried again: they double from one to sixteen.
pub open spec fn spec_reconnect_delay(attempt: u32) -> u64 {
    if attempt == 0 {
        1
    } else if attempt == 1 {
        2
    } else if attempt == 2 {
        4
    } else if attempt == 3 {
        8
    } else {
        16
    }
}

/// The seconds to wait before a connection is tried again.
#[verifier::when_used_as_spec(spec_reconnect_delay)]
pub fn reconnect_delay(attempt: u32) -> (r: u64)
    ensures
        r == reconnect_delay(attempt),
{
    let doublings: u32 = if attempt < 4 {
        attempt
    } else {
        4
    };
    let mut delay: u64 = 1;
    let mut i: u32 = 0;
    while i < doublings
        invariant
            i <= doublings <= 4,
            delay == spec_reconnect_delay(i),
        decreases doublings - i,
    {
        delay = delay * 2;
        i = i + 1;
    }
    delay
}

/// Who is at the other end of a connection.
#[derive(Clone, Copy, PartialEq, Eq, Structural, Debug)]
pub enum Peer {
    /// PumpPortal's data feed.
    PumpPortal,
    /// The RPC node that tells of wallets.
    Node,
}

/// What happens to a connection.
#[derive(Debug)]
pub enum SocketEvent {
    Opened,
    Unreachable,
    /// A subscription could not be sent.
    NotSubscribed,
    Text(String),
    Ping,
    /// A ping could not be answered.
    NotAnswered,
    /// Something that calls for nothing.
    Other,
    Closed,
    Broken,
}

/// What there is to do about a connection.
#[derive(Debug)]
pub enum SocketAction {
    /// Send the subscriptions, up to the first that cannot be sent.
    Subscribe,
    /// Take in a text.
    Take(String),
    /// Answer a ping.
    Answer,
    /// Wait for what comes next.
    Listen,
    /// Connect again after so many seconds.
    Reconnect(u64),
}

/// What there is to do about a connection after so many failures, and how many there are then. A
/// connection that opens starts over; one that fails or ends is tried again after a wait. Without
/// its subscription PumpPortal is connected again at once, while a node may still tell of the
/// wallets before the failure. A node that cannot be answered is connected again; PumpPortal is
/// listened to all the same.
pub open spec fn socket_step(peer: Peer, failures: u32, event: SocketEvent) -> (u32, SocketAction) {
    let more = if failures < u32::MAX {
        (failures + 1) as u32
    } else {
        failures
    };
    let again = (more, SocketAction::Reconnect(reconnect_delay(failures)));
    match event {
        SocketEvent::Opened => (0, SocketAction::Subscribe),
        SocketEvent::NotSubscribed => match peer {
            Peer::PumpPortal => (failures, SocketAction::Reconnect(0)),
            Peer::Node => (failures, SocketAction::Listen),
        },
        SocketEvent::Text(text) => (failures, SocketAction::Take(text)),
        SocketEvent::Ping => (failures, SocketAction::Answer),
        SocketEvent::NotAnswered => match peer {
            Peer::PumpPortal => (failures, SocketAction::Listen),
            Peer::Node => again,
        },
        SocketEvent::Other => (failures, SocketAction::Listen),
        SocketEvent::Unreachable | SocketEvent::Closed | SocketEvent::Broken => again,
    }
}

/// A connection that is kept open.
pub struct Connection {
    peer: Peer,
    failures: u32,
}

pub struct ConnectionView {
    pub peer: Peer,
    /// How often the connection failed or ended since it last opened.
    pub failures: u32,
}

impl View for Connection {
    type V = ConnectionView;

    closed spec fn view(&self) -> ConnectionView {
        ConnectionView { peer: self.peer, failures: self.failures }
    }
}

impl Connection {
    pub fn new(peer: Peer) -> (r: Self)
        ensures
            r@ == (ConnectionView { peer, failures: 0 }),
    {
        Connection { peer, failures: 0 }
    }

    fn wait(&mut self) -> (r: SocketAction)
        ensures
            final(self)@.peer == old(self)@.peer,
            (final(self)@.failures, r) == socket_step(
                old(self)@.peer,
                old(self)@.failures,
                SocketEvent::Broken,
            ),
    {
        let delay: u64 = reconnect_delay(self.failures);
        if self.failures < u32::MAX {
            self.failures = self.failures + 1;
        }
        SocketAction::Reconnect(delay)
    }

    /// Takes in what happened, and gives what is to be done.
    pub fn step(&mut self, event: SocketEvent) -> (r: SocketAction)
        ensures
            final(self)@.peer == old(self)@.peer,
            (final(self)@.failures, r) == socket_step(
                old(self)@.peer,
                old(self)@.failures,
                event,
            ),
    {
        match event {
            SocketEvent::Opened => {
                self.failures = 0;
                SocketAction::Subscribe
            },
            SocketEvent::NotSubscribed => match self.peer {
                Peer::PumpPortal => SocketAction::Reconnect(0),
                Peer::Node => SocketAction::Listen,
            },
            SocketEvent::Text(text) => SocketAction::Take(text),
            SocketEvent::Ping => SocketAction::Answer,
            SocketEvent::NotAnswered => match self.peer {
                Peer::PumpPortal => SocketAction::Listen,
                Peer::Node => self.wait(),
            },
            SocketEvent::Other => SocketAction::Listen,
            SocketEvent::Unreachable | SocketEvent::Closed | SocketEvent::Broken => self.wait(),
        }
    }
}

/// The base of PumpPortal's addresses: the one that is set or the usual one, without slashes at
/// its end.
pub open spec fn portal_base(set: Option<Seq<char>>) -> Seq<char> {
    crate::text::trim_end_char(
        match set {
            Some(base) => base,
            None => "https://pumpportal.fun"@,
        },
        '/',
    )
}

fn find_portal_base(set: &Option<String>) -> (r: String)
    ensures
        r@ == portal_base(crate::trading::text_view(*set)),
{
    match set {
        Some(base) => crate::text::trim_end_matches(base.as_str(), '/'),
        None => crate::text::trim_end_matches("https://pumpportal.fun", '/'),
    }
}

/// Where trades are built.
pub fn pumpportal_trade_local_url(set: &Option<String>) -> (r: String)
    ensures
        r@ == portal_base(crate::trading::text_view(*set)) + "/api/trade-local"@,
{
    let base: String = find_portal_base(set);
    joined(base.as_str(), "/api/trade-local")
}

/// An address with the scheme of a socket in place of that of a page.
pub open spec fn socket_scheme(url: Seq<char>) -> Seq<char> {
    crate::text::replace_all(
        crate::text::replace_all(url, "https://"@, "wss://"@),
        "http://"@,
        "ws://"@,
    )
}

/// An address with the scheme of a socket in place of that of a page.
pub fn socket_url(url: &str) -> (r: String)
    ensures
        r@ == socket_scheme(url@),
{
    proof {
        reveal_strlit("https://");
        reveal_strlit("http://");
    }
    let secure: String = crate::text::replace(url, "https://", "wss://");
    crate::text::replace(secure.as_str(), "http://", "ws://")
}

/// Where the events of PumpPortal come from.
pub fn pumpportal_data_url(set: &Option<String>) -> (r: String)
    ensures
        r@ == socket_scheme(portal_base(crate::trading::text_view(*set))) + "/api/data"@,
{
    let base: String = find_portal_base(set);
    let socket: String = socket_url(base.as_str());
    joined(socket.as_str(), "/api/data")
}

proof fn lemma_merged_is_distinct(list: Seq<Seq<char>>, more: Seq<Seq<char>>, x: Seq<char>)
    ensures
        list.no_duplicates() ==> merged(list, more).no_duplicates(),
        merged(list, more).contains(x) <==> list.contains(x) || more.contains(x),
        list.is_prefix_of(merged(list, more)),
    decreases more.len(),
{
    if more.len() == 0 {
        assert(!more.contains(x));
    } else {
        let front = more.drop_last();
        lemma_merged_is_distinct(list, front, x);
        let before = merged(list, front);
        let last = more.last();
        lemma_merged_is_distinct(list, front, last);
        assert(more =~= front.push(last));
        assert(more.contains(x) <==> front.contains(x) || x == last) by {
            if front.contains(x) {
                let i = choose|i: int| 0 <= i < front.len() && front[i] == x;
                assert(more[i] == x);
            }
            assert(more[more.len() - 1] == last);
            if more.contains(x) && x != last {
                let i = choose|i: int| 0 <= i < more.len() && more[i] == x;
                assert(front[i] == x);
            }
        }
        if !before.contains(last) {
            let after = before.push(last);
            assert(after.contains(x) <==> before.contains(x) || x == last) by {
                if before.contains(x) {
                    let i = choose|i: int| 0 <= i < before.len() && before[i] == x;
                    assert(after[i] == x);
                }
                assert(after[before.len() as int] == last);
                if after.contains(x) && x != last {
                    let i = choose|i: int| 0 <= i < after.len() && after[i] == x;
                    assert(before[i] == x);
                }
            }
            assert(list.is_prefix_of(after)) by {
                assert forall|i: int| 0 <= i < list.len() implies list[i] == after[i] by {
                    assert(list[i] == before[i]);
                }
                assert(list =~= after.subrange(0, list.len() as int));
            }
        }
    }
}

/// Merging keeps a list without duplicates free of them, loses nothing, adds nothing else, and
/// leaves what was there in its place.
pub proof fn law_merging_removes_duplicates(
    list: Seq<Seq<char>>,
    more: Seq<Seq<char>>,
    x: Seq<char>,
)
    ensures
        list.no_duplicates() ==> merged(list, more).no_duplicates(),
        merged(list, more).contains(x) <==> list.contains(x) || more.contains(x),
        list.is_prefix_of(merged(list, more)),
{
    lemma_merged_is_distinct(list, more, x);
}

/// The trending list holds each address of either list once, and no others.
pub proof fn law_trending_addresses_are_unique(
    birdeye: Seq<Seq<char>>,
    gecko: Seq<Seq<char>>,
    x: Seq<char>,
)
    ensures
        merged(merged(Seq::empty(), birdeye), gecko).no_duplicates(),
        merged(merged(Seq::empty(), birdeye), gecko).contains(x) <==> birdeye.contains(x)
            || gecko.contains(x),
{
    lemma_merged_is_distinct(Seq::empty(), birdeye, x);
    lemma_merged_is_distinct(merged(Seq::empty(), birdeye), gecko, x);
}

/// No address stands for two tokens.
pub open spec fn addresses_differ(tokens: Seq<TokenInfoView>) -> bool {
    forall|i: int, j: int|
        0 <= i < j < tokens.len() ==> (#[trigger] tokens[i]).address != (
        #[trigger] tokens[j]).address
}

/// However many pairs a token has, it comes out once.
pub proof fn law_each_token_comes_once(
    tokens: Seq<TokenInfoView>,
    pairs: Seq<PairRecord>,
    now_ms: i64,
    created_at: Seq<char>,
)
    requires
        addresses_differ(tokens),
    ensures
        addresses_differ(with_pairs(tokens, pairs, now_ms, created_at)),
    decreases pairs.len(),
{
    if pairs.len() > 0 {
        law_each_token_comes_once(tokens, pairs.drop_last(), now_ms, created_at);
    }
}

/// The waits before a connection is tried again never get shorter, and stay between one second
/// and sixteen.
pub proof fn law_reconnect_delay_is_bounded(attempt: u32, later: u32)
    requires
        attempt <= later,
    ensures
        1 <= reconnect_delay(attempt) <= reconnect_delay(later) <= 16,
{
}

/// The failures of a connection after a number of tries that all failed.
pub open spec fn failures_after(peer: Peer, failures: u32, tries: nat) -> u32
    decreases tries,
{
    if tries == 0 {
        failures
    } else {
        socket_step(
            peer,
            failures_after(peer, failures, (tries - 1) as nat),
            SocketEvent::Unreachable,
        ).0
    }
}

proof fn lemma_failures_count(peer: Peer, tries: nat)
    ensures
        failures_after(peer, 0, tries) == (if tries < u32::MAX {
            tries as int
        } else {
            u32::MAX as int
        }),
    decreases tries,
{
    if tries > 0 {
        lemma_failures_count(peer, (tries - 1) as nat);
    }
}

/// A connection that was open is tried again after one second; while it cannot be opened, the
/// waits are one, two, four, eight and then sixteen seconds, and it is never given up.
pub proof fn law_connections_are_tried_again(peer: Peer, failures: u32, tries: nat)
    ensures
        socket_step(peer, socket_step(peer, failures, SocketEvent::Opened).0, SocketEvent::Closed).1
            == SocketAction::Reconnect(1),
        socket_step(peer, failures_after(peer, 0, tries), SocketEvent::Unreachable).1
            == SocketAction::Reconnect(
            if tries == 0 {
                1
            } else if tries == 1 {
                2
            } else if tries == 2 {
                4
            } else if tries == 3 {
                8
            } else {
                16
            },
        ),
{
    lemma_failures_count(peer, tries);
}

/// A list gives its texts in their order: one more entry adds its text where it has one.
pub proof fn law_entries_are_listed_in_order(
    document: Seq<char>,
    array: Seq<char>,
    field: Seq<char>,
    n: nat,
    text: Seq<char>,
)
    ensures
        item_texts(document, array, field, n + 1) == (match json_text(
            document,
            array + "/"@ + crate::text::decimal(n) + field,
        ) {
            Some(text) => item_texts(document, array, field, n).push(text),
            None => item_texts(document, array, field, n),
        }),
        item_texts(document, array, field, 0).len() == 0,
        item_texts(document, array, field, n).contains(text) <==> exists|i: nat|
            i < n && json_text(document, #[trigger] item_pointer(array, i, field)) == Some(text),
    decreases n,
{
    if n > 0 {
        let k = (n - 1) as nat;
        law_entries_are_listed_in_order(document, array, field, k, text);
        let (before, after) = (
            item_texts(document, array, field, k),
            item_texts(document, array, field, n),
        );
        let found = json_text(document, item_pointer(array, k, field));
        if before.contains(text) {
            let i = choose|i: int| 0 <= i < before.len() && before[i] == text;
            assert(after[i] == text);
        }
        if found == Some(text) {
            assert(after[after.len() - 1] == text);
        }
        if after.contains(text) && found != Some(text) {
            let i = choose|i: int| 0 <= i < after.len() && after[i] == text;
            assert(before[i] == text);
            assert(before.contains(text));
        }
        if exists|i: nat|
            i < n && json_text(document, #[trigger] item_pointer(array, i, field)) == Some(text) {
            let i = choose|i: nat|
                i < n && json_text(document, #[trigger] item_pointer(array, i, field)) == Some(
                    text,
                );
            if i < k {
                assert(before.contains(text));
            }
        }
    }
}

/// A page is one with entries; what holds none, or was not read, is no page.
pub proof fn law_pages_have_entries(document: Seq<char>, array: Seq<char>, field: Seq<char>)
    ensures
        page_texts(document, array, field) is Some <==> json_length(document, array) is Some
            && json_length(document, array)->0 > 0,
        page_texts(document, array, field) is Some ==> page_texts(document, array, field)->0
            == item_texts(document, array, field, json_length(document, array)->0 as nat),
        birdeye_page(PageReply::Failed) is None,
        gecko_page(PageReply::Failed) is None,
{
}

/// Pages are collected one after the other, twenty entries further each time, until one is
/// missing or there is enough.
pub proof fn law_pages_are_collected(c: CrawlView, page: Seq<Seq<char>>)
    requires
        c.offset <= u32::MAX - 20,
    ensures
        after_page(c, Some(page)).addresses == c.addresses + page,
        after_page(c, Some(page)).offset == c.offset + 20,
        after_page(c, Some(page)).ended == c.ended,
        after_page(c, None).addresses == c.addresses,
        !wants_more(after_page(c, None)),
        wants_more(c) <==> !c.ended && c.addresses.len() < c.limit,
        after_page(c, Some(page)).limit == c.limit,
{
}

/// The name of the chain is taken off a token of GeckoTerminal.
pub proof fn law_chain_is_taken_off(mint: Seq<char>)
    ensures
        gecko_mint("solana_"@ + mint) == mint,
        !crate::text::has_prefix(mint, "solana_"@) ==> gecko_mint(mint) == mint,
{
    crate::text::law_beginnings_and_ends_are_parts(mint, "solana_"@, mint);
    assert(("solana_"@ + mint).skip("solana_"@.len() as int) == mint);
}

/// The holders of a token are estimated at those that bought more than was sold, and one at the
/// least.
pub proof fn law_holders_are_estimated(buys: u64, sells: u64)
    ensures
        buys > sells && buys - sells <= u32::MAX ==> estimated_holders(buys, sells) == buys - sells,
        buys <= sells ==> estimated_holders(buys, sells) == 1,
{
}

/// A token is as many hours old as have passed in full since its pair was made.
pub proof fn law_ages_are_full_hours(created_ms: i64, now_ms: i64)
    ensures
        created_ms <= now_ms && now_ms - created_ms < 3_600_000 * 0x1_0000_0000 ==> {
            let age = age_in_hours(Some(created_ms), now_ms);
            age * 3_600_000 <= now_ms - created_ms < (age + 1) * 3_600_000
        },
        created_ms > now_ms ==> age_in_hours(Some(created_ms), now_ms) == 0,
        age_in_hours(None, now_ms) == 0,
{
}

/// What a pair tells of its token. Its capitalisation is the one that is given, or else the fully
/// diluted one; its liquidity is one dollar at the least.
pub proof fn law_pairs_tell_of_their_tokens(pair: PairRecord, now_ms: i64, created_at: Seq<char>)
    requires
        pair.address is Some,
    ensures
        ({
            let token = pair_token(pair, now_ms, created_at);
            let zero = Binary64::from_u64(0);
            &&& token.address == pair.address->0@
            &&& pair.symbol is Some ==> token.symbol == pair.symbol->0@
            &&& pair.name is Some ==> token.name == pair.name->0@
            &&& pair.market_cap is Some ==> token.market_cap == pair.market_cap->0.to_u64()
            &&& pair.market_cap is None && pair.fdv is Some ==> token.market_cap
                == pair.fdv->0.to_u64()
            &&& pair.market_cap is None && pair.fdv is None ==> token.market_cap == 0
            &&& pair.liquidity_usd is Some && Binary64::from_u64(1).le(pair.liquidity_usd->0)
                ==> token.liquidity == pair.liquidity_usd->0.to_u64()
            &&& pair.liquidity_usd is None || pair.liquidity_usd->0.lt(Binary64::from_u64(1))
                ==> token.liquidity == 1
            &&& pair.price_usd is Some ==> token.price_usd == pair.price_usd->0
            &&& pair.price_usd is None ==> token.price_usd == zero
            &&& pair.price_change_h24 is Some ==> token.price_change_24h
                == pair.price_change_h24->0
            &&& pair.price_change_h24 is None ==> token.price_change_24h == zero
            &&& pair.volume_h24 is Some ==> token.volume_24h == pair.volume_h24->0.to_u64()
            &&& pair.volume_h24 is None ==> token.volume_24h == 0
            &&& pair.buys_h24 is Some && pair.sells_h24 is Some ==> token.holders
                == estimated_holders(pair.buys_h24->0, pair.sells_h24->0)
            &&& pair.buys_h24 is None ==> token.holders == 1
            &&& token.age_hours == age_in_hours(pair.pair_created_at, now_ms)
            &&& token.created_at == created_at
            &&& token.just_graduated_at_secs is None
        }),
{
    crate::binary64::law_whole_numbers_are_exact(0);
    crate::binary64::law_whole_numbers_are_exact(1);
}

/// The first pair of a token tells of it, unless the token is known already; what is known stays
/// where it is.
pub proof fn law_first_pair_counts(
    tokens: Seq<TokenInfoView>,
    pairs: Seq<PairRecord>,
    now_ms: i64,
    created_at: Seq<char>,
    i: int,
)
    ensures
        tokens.is_prefix_of(with_pairs(tokens, pairs, now_ms, created_at)),
        0 <= i < pairs.len() && pairs[i].address is Some && !has_address(
            tokens,
            pairs[i].address->0@,
        ) && (forall|j: int|
            0 <= j < i ==> !((#[trigger] pairs[j]).address is Some && pairs[j].address->0@
                == pairs[i].address->0@)) ==> with_pairs(
            tokens,
            pairs,
            now_ms,
            created_at,
        ).contains(pair_token(pairs[i], now_ms, created_at)),
    decreases pairs.len(),
{
    if pairs.len() > 0 {
        let fewer = pairs.drop_last();
        let before = with_pairs(tokens, fewer, now_ms, created_at);
        let after = with_pairs(tokens, pairs, now_ms, created_at);
        law_first_pair_counts(tokens, fewer, now_ms, created_at, i);
        assert(before.is_prefix_of(after));
        if 0 <= i < fewer.len() {
            assert(fewer[i] == pairs[i]);
            if forall|j: int|
                0 <= j < i ==> !((#[trigger] pairs[j]).address is Some && pairs[j].address->0@
                    == pairs[i].address->0@) {
                assert forall|j: int| 0 <= j < i implies !((#[trigger] fewer[j]).address is Some
                    && fewer[j].address->0@ == fewer[i].address->0@) by {
                    assert(fewer[j] == pairs[j]);
                }
            }
            let token = pair_token(pairs[i], now_ms, created_at);
            if before.contains(token) {
                let k = choose|k: int| 0 <= k < before.len() && before[k] == token;
                assert(after[k] == token);
            }
        } else if i == fewer.len() && pairs[i].address is Some && !has_address(
            tokens,
            pairs[i].address->0@,
        ) && (forall|j: int|
            0 <= j < i ==> !((#[trigger] pairs[j]).address is Some && pairs[j].address->0@
                == pairs[i].address->0@)) {
            lemma_addresses_come_from_pairs(
                tokens,
                fewer,
                now_ms,
                created_at,
                pairs[i].address->0@,
            );
            if has_address(before, pairs[i].address->0@) {
                let j = choose|j: int|
                    0 <= j < fewer.len() && (#[trigger] fewer[j]).address is Some
                        && fewer[j].address->0@ == pairs[i].address->0@;
                assert(fewer[j] == pairs[j]);
            }
            assert(after.last() == pair_token(pairs[i], now_ms, created_at));
        }
    }
}

proof fn lemma_addresses_come_from_pairs(
    tokens: Seq<TokenInfoView>,
    pairs: Seq<PairRecord>,
    now_ms: i64,
    created_at: Seq<char>,
    address: Seq<char>,
)
    ensures
        has_address(with_pairs(tokens, pairs, now_ms, created_at), address) ==> has_address(
            tokens,
            address,
        ) || exists|j: int|
            0 <= j < pairs.len() && (#[trigger] pairs[j]).address is Some && pairs[j].address->0@
                == address,
    decreases pairs.len(),
{
    let after = with_pairs(tokens, pairs, now_ms, created_at);
    if pairs.len() > 0 && has_address(after, address) {
        let fewer = pairs.drop_last();
        let before = with_pairs(tokens, fewer, now_ms, created_at);
        lemma_addresses_come_from_pairs(tokens, fewer, now_ms, created_at, address);
        let i = choose|i: int| 0 <= i < after.len() && (#[trigger] after[i]).address == address;
        if i < before.len() {
            assert(before[i] == after[i]);
            if !has_address(tokens, address) {
                let j = choose|j: int|
                    0 <= j < fewer.len() && (#[trigger] fewer[j]).address is Some
                        && fewer[j].address->0@ == address;
                assert(pairs[j] == fewer[j]);
            }
        } else {
            assert(pairs[pairs.len() - 1] == pairs.last());
        }
    }
}

/// The tokens that are asked for stand in the address one behind the other, with commas between.
pub proof fn law_tokens_stand_in_the_address(addresses: Seq<Seq<char>>, address: Seq<char>)
    ensures
        dexscreener_url(seq![address]) == "https://api.dexscreener.com/tokens/v1/solana/"@
            + address,
        addresses.len() > 0 ==> dexscreener_url(addresses.push(address)) == dexscreener_url(
            addresses,
        ) + ","@ + address,
{
    assert(addresses.push(address).drop_last() == addresses);
    if addresses.len() > 0 {
        assert(dexscreener_url(addresses.push(address)) == dexscreener_url(addresses) + ","@
            + address);
    }
}

/// The address of PumpPortal is the one that is set, without a slash at its end.
pub proof fn law_portal_address_has_no_slash_at_its_end(set: Seq<char>)
    ensures
        portal_base(Some(set)).is_prefix_of(set),
        portal_base(Some(set)).len() > 0 ==> portal_base(Some(set)).last() != '/',
        set.len() > 0 && set.last() != '/' ==> portal_base(Some(set)) == set,
        portal_base(None) == "https://pumpportal.fun"@,
{
    crate::text::law_end_is_cleared_of_a_character(set, '/');
    reveal_strlit("https://pumpportal.fun");
}

/// An address of the web becomes one of a socket, a secure one a secure one.
pub proof fn law_sockets_keep_their_security(rest: Seq<char>)
    requires
        forall|i: int|
            0 <= i <= rest.len() ==> !crate::text::has_prefix(#[trigger] rest.skip(i), "https://"@)
                && !crate::text::has_prefix(rest.skip(i), "http://"@),
    ensures
        socket_scheme("https://"@ + rest) == "wss://"@ + rest,
        socket_scheme("http://"@ + rest) == "ws://"@ + rest,
{
    let (secure, plain) = ("https://"@, "http://"@);
    let (wss, ws) = ("wss://"@, "ws://"@);
    reveal_strlit("https://");
    reveal_strlit("http://");
    reveal_strlit("wss://");
    reveal_strlit("ws://");
    crate::text::law_occurrences_are_replaced(rest, secure, wss);
    assert forall|i: int| 0 <= i <= (wss + rest).len() implies !crate::text::has_prefix(
        #[trigger] (wss + rest).skip(i),
        plain,
    ) by {
        let s = (wss + rest).skip(i);
        if i >= wss.len() {
            assert(s == rest.skip(i - wss.len()));
        } else if crate::text::has_prefix(s, plain) {
            assert(s.take(plain.len() as int)[0] == plain[0]);
            assert(s[0] == wss[i]);
        }
    }
    crate::text::law_occurrences_are_replaced(wss + rest, plain, ws);
    assert forall|i: int| 0 <= i <= (plain + rest).len() implies !crate::text::has_prefix(
        #[trigger] (plain + rest).skip(i),
        secure,
    ) by {
        let s = (plain + rest).skip(i);
        if i >= plain.len() {
            assert(s == rest.skip(i - plain.len()));
        } else if crate::text::has_prefix(s, secure) {
            assert(s.take(secure.len() as int)[0] == secure[0]);
            assert(s[0] == plain[i]);
            assert(s.take(secure.len() as int)[4] == secure[4]);
            assert(i == 0);
            assert(s[4] == plain[4]);
        }
    }
    crate::text::law_occurrences_are_replaced(plain + rest, secure, wss);
    crate::text::law_occurrences_are_replaced(rest, plain, ws);
}

/// What comes over a socket is answered: a connection subscribes and forgets its failures, texts
/// are taken and pings answered, and a connection that is lost is made again after a pause.
pub proof fn law_sockets_answer_what_comes(peer: Peer, failures: u32, text: String)
    requires
        failures < u32::MAX,
    ensures
        socket_step(peer, failures, SocketEvent::Opened) == (0u32, SocketAction::Subscribe),
        socket_step(peer, failures, SocketEvent::Text(text)) == (
            failures,
            SocketAction::Take(text),
        ),
        socket_step(peer, failures, SocketEvent::Ping) == (failures, SocketAction::Answer),
        socket_step(peer, failures, SocketEvent::Other) == (failures, SocketAction::Listen),
        socket_step(peer, failures, SocketEvent::Closed) == (
            (failures + 1) as u32,
            SocketAction::Reconnect(reconnect_delay(failures)),
        ),
        socket_step(peer, failures, SocketEvent::Broken) == socket_step(
            peer,
            failures,
            SocketEvent::Closed,
        ),
        socket_step(peer, failures, SocketEvent::Unreachable) == socket_step(
            peer,
            failures,
            SocketEvent::Closed,
        ),
        socket_step(Peer::PumpPortal, failures, SocketEvent::NotSubscribed).1
            == SocketAction::Reconnect(0),
        socket_step(Peer::Node, failures, SocketEvent::NotSubscribed).1 == SocketAction::Listen,
        socket_step(Peer::PumpPortal, failures, SocketEvent::NotAnswered).1
            == SocketAction::Listen,
        socket_step(Peer::Node, failures, SocketEvent::NotAnswered) == socket_step(
            Peer::Node,
            failures,
            SocketEvent::Closed,
        ),
{
}

/// What a crawl has brought, no more than was asked for.
pub open spec fn crawled(c: CrawlView) -> Seq<Seq<char>> {
    if c.addresses.len() <= c.limit {
        c.addresses
    } else {
        c.addresses.take(c.limit as int)
    }
}

/// A crawl brings the first addresses that it met, as many as were asked for.
pub proof fn law_crawls_bring_what_was_asked_for(c: CrawlView)
    ensures
        crawled(c).is_prefix_of(c.addresses),
        crawled(c).len() == (if c.addresses.len() <= c.limit {
            c.addresses.len()
        } else {
            c.limit as nat
        }),
{
}

/// What a pair tells is read from its own entry, each part from its own field, and its figures
/// are those in the same place; what has no figures has none of them.
pub proof fn law_pairs_are_read_from_their_fields(
    document: Seq<char>,
    i: nat,
    figures: Seq<PairFigures>,
    pair: PairRecord,
)
    requires
        tells_of(document, i, figures_at(figures, i as int), pair),
    ensures
        ({
            let text = |field: Seq<char>| json_text(document, item_pointer(""@, i, field));
            let count = |field: Seq<char>| json_unsigned(document, item_pointer(""@, i, field));
            &&& crate::trading::text_view(pair.address) == text("/baseToken/address"@)
            &&& crate::trading::text_view(pair.symbol) == text("/baseToken/symbol"@)
            &&& crate::trading::text_view(pair.name) == text("/baseToken/name"@)
            &&& pair.buys_h24 == count("/txns/h24/buys"@)
            &&& pair.sells_h24 == count("/txns/h24/sells"@)
            &&& pair.pair_created_at == json_signed(
                document,
                item_pointer(""@, i, "/pairCreatedAt"@),
            )
        }),
        i < figures.len() ==> pair.price_usd == figures[i as int].price_usd && pair.volume_h24
            == figures[i as int].volume_h24 && pair.liquidity_usd == figures[i as int].liquidity_usd
            && pair.market_cap == figures[i as int].market_cap && pair.fdv == figures[i as int].fdv
            && pair.price_change_h24 == figures[i as int].price_change_h24,
        i >= figures.len() ==> pair.price_usd is None && pair.volume_h24 is None
            && pair.liquidity_usd is None && pair.market_cap is None && pair.fdv is None
            && pair.price_change_h24 is None,
        json_length(document, ""@) is Some ==> pair_count(document) == json_length(
            document,
            ""@,
        )->0,
        json_length(document, ""@) is None ==> pair_count(document) == 0,
{
}

} // verus!
