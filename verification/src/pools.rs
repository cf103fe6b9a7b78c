//! How the pool of a graduated token is found.
use crate::error::{joined, BotError, ErrorView};
use crate::pricing::PUMP_SWAP_PROGRAM_ID;
use crate::pubkey::{parse_mint, Pubkey};
use crate::pumpportal::{PoolView, PumpSwapPoolInfo};
use vstd::prelude::*;

verus! {

/// The bytes from `at` on that make an address.
fn read_key(data: &Vec<u8>, at: usize) -> (r: Pubkey)
    requires
        at + 32 <= data@.len(),
    ensures
        r@ == data@.subrange(at as int, at + 32),
{
    let n: usize = data.len();
    assert(at + 32 <= n);
    let mut bytes: [u8; 32] = [0u8;32];
    let mut i: usize = 0;
    while i < 32
        invariant
            i <= 32,
            at + 32 <= n,
            n == data@.len(),
            bytes@.len() == 32,
            forall|j: int| 0 <= j < i ==> bytes@[j] == data@[at + j],
        decreases 32 - i,
    {
        bytes[i] = data[at + i];
        i = i + 1;
    }
    assert(bytes@ =~= data@.subrange(at as int, at + 32));
    Pubkey { bytes }
}

/// The addresses among texts.
pub open spec fn keys_among(texts: Seq<Seq<char>>) -> Seq<Seq<u8>>
    decreases texts.len(),
{
    if texts.len() == 0 {
        Seq::empty()
    } else {
        match crate::pubkey::base58_key(texts.last()) {
            Ok(key) => keys_among(texts.drop_last()).push(key),
            Err(_) => keys_among(texts.drop_last()),
        }
    }
}

/// The bytes of addresses.
pub open spec fn key_views(keys: Seq<Pubkey>) -> Seq<Seq<u8>> {
    keys.map_values(|k: Pubkey| k@)
}

/// The addresses among texts.
pub fn parse_keys(texts: &Vec<String>, limit: usize) -> (r: Vec<Pubkey>)
    ensures
        key_views(r@) == keys_among(
            crate::text::texts(texts@).take(
                if limit < texts@.len() {
                    limit as int
                } else {
                    texts@.len() as int
                },
            ),
        ),
        r@.len() <= limit,
{
    let n: usize = if limit < texts.len() {
        limit
    } else {
        texts.len()
    };
    let mut keys: Vec<Pubkey> = Vec::new();
    let mut i: usize = 0;
    let ghost all = crate::text::texts(texts@);
    while i < n
        invariant
            i <= n,
            n <= texts@.len(),
            all == crate::text::texts(texts@),
            keys@.len() <= i,
            key_views(keys@) =~= keys_among(all.take(i as int)),
        decreases n - i,
    {
        assert(all.take(i + 1).drop_last() =~= all.take(i as int));
        let ghost before = key_views(keys@);
        match Pubkey::parse(texts[i].as_str()) {
            Ok(key) => {
                keys.push(key);
                assert(key_views(keys@) =~= before.push(key@));
            },
            Err(_) => {},
        }
        i = i + 1;
    }
    keys
}

/// The address of a pool program's accounts.
pub open spec fn pool_program() -> Result<Seq<u8>, ErrorView> {
    match crate::pubkey::base58_key(PUMP_SWAP_PROGRAM_ID@) {
        Ok(key) => Ok(key),
        Err(e) => Err(
            crate::pricing::portal_error(
                "Invalid PumpSwap program ID: "@ + crate::pubkey::key_error_text(e),
            ),
        ),
    }
}

/// A key, or the error in its place.
pub open spec fn key_or_error(r: Result<Pubkey, BotError>, expected: Result<Seq<u8>, ErrorView>) -> bool {
    match r {
        Ok(key) => expected == Ok::<Seq<u8>, ErrorView>(key@),
        Err(e) => expected == Err::<Seq<u8>, ErrorView>(e@),
    }
}

fn parse_pool_program() -> (r: Result<Pubkey, BotError>)
    ensures
        key_or_error(r, pool_program()),
{
    match Pubkey::parse(PUMP_SWAP_PROGRAM_ID) {
        Ok(key) => Ok(key),
        Err(e) => Err(
            BotError::PumpPortal(joined("Invalid PumpSwap program ID: ", e.message())),
        ),
    }
}

/// The mint whose largest accounts are asked for first.
pub open spec fn search_mint(token_address: Seq<char>) -> Result<Seq<u8>, ErrorView> {
    match crate::pubkey::base58_key(token_address) {
        Err(e) => Err(crate::pricing::invalid_mint(e)),
        Ok(mint) => match pool_program() {
            Err(e) => Err(e),
            Ok(_) => Ok(mint),
        },
    }
}

/// Starts the search: the mint whose largest accounts have to be asked for.
pub fn begin_search(token_address: &str) -> (r: Result<Pubkey, BotError>)
    ensures
        key_or_error(r, search_mint(token_address@)),
{
    let mint: Pubkey = match parse_mint(token_address) {
        Ok(key) => key,
        Err(e) => {
            return Err(e);
        },
    };
    match parse_pool_program() {
        Ok(_) => Ok(mint),
        Err(e) => Err(e),
    }
}

/// What a request for the largest accounts of a mint brought.
#[derive(Debug)]
pub enum LargestReply {
    Found(Vec<String>),
    Failed(String),
    TimedOut,
}

/// The token accounts to read: the addresses among the ten largest.
pub open spec fn largest_accounts(token_address: Seq<char>, reply: LargestReply) -> Result<
    Seq<Seq<u8>>,
    Seq<char>,
> {
    match reply {
        LargestReply::Found(texts) => if texts@.len() == 0 {
            Err("No token accounts found for "@ + token_address)
        } else {
            Ok(
                keys_among(
                    crate::text::texts(texts@).take(
                        if 10 < texts@.len() {
                            10
                        } else {
                            texts@.len() as int
                        },
                    ),
                ),
            )
        },
        LargestReply::Failed(e) => Err(
            "getTokenLargestAccounts failed for "@ + token_address + ": "@ + e@,
        ),
        LargestReply::TimedOut => Err("getTokenLargestAccounts timed out (3s)"@),
    }
}

fn refuse<T>(detail: String) -> (r: Result<T, BotError>)
    ensures
        r is Err,
        r->Err_0@ == crate::pricing::portal_error(detail@),
{
    Err(BotError::PumpPortal(detail))
}

/// The token accounts that have to be read.
pub fn search_after_largest(token_address: &str, reply: &LargestReply) -> (r: Result<
    Vec<Pubkey>,
    BotError,
>)
    ensures
        match r {
            Ok(keys) => largest_accounts(token_address@, *reply) == Ok::<Seq<Seq<u8>>, Seq<char>>(
                key_views(keys@),
            ) && keys@.len() <= 10,
            Err(e) => largest_accounts(token_address@, *reply) is Err && e@
                == crate::pricing::portal_error(largest_accounts(token_address@, *reply)->Err_0),
        },
{
    match reply {
        LargestReply::Found(texts) => {
            if texts.len() == 0 {
                return refuse(joined("No token accounts found for ", token_address));
            }
            Ok(parse_keys(texts, 10))
        },
        LargestReply::Failed(e) => {
            let mut detail: String = joined("getTokenLargestAccounts failed for ", token_address);
            detail.append(": ");
            detail.append(e.as_str());
            refuse(detail)
        },
        LargestReply::TimedOut => refuse("getTokenLargestAccounts timed out (3s)".to_owned()),
    }
}

/// What a request for several accounts brought: the data of each that exists.
#[derive(Debug)]
pub enum AccountsReply {
    Found(Vec<Option<Vec<u8>>>),
    Failed(String),
}

/// The owners that token accounts name in their bytes 32 to 63, each with the place of its
/// account.
pub open spec fn owners_of(accounts: Seq<Option<Vec<u8>>>) -> Seq<(Seq<u8>, nat)>
    decreases accounts.len(),
{
    if accounts.len() == 0 {
        Seq::empty()
    } else {
        let before = owners_of(accounts.drop_last());
        match accounts.last() {
            Some(data) if data@.len() >= 64 => before.push(
                (data@.subrange(32, 64), (accounts.len() - 1) as nat),
            ),
            _ => before,
        }
    }
}

pub open spec fn owner_views(owners: Seq<(Pubkey, usize)>) -> Seq<(Seq<u8>, nat)> {
    owners.map_values(|o: (Pubkey, usize)| (o.0@, o.1 as nat))
}

/// The possible pools: the owners of the token accounts.
pub open spec fn candidate_owners(token_address: Seq<char>, reply: AccountsReply) -> Result<
    Seq<(Seq<u8>, nat)>,
    Seq<char>,
> {
    match reply {
        AccountsReply::Found(accounts) => if owners_of(accounts@).len() == 0 {
            Err("Could not extract owners from token accounts for "@ + token_address)
        } else {
            Ok(owners_of(accounts@))
        },
        AccountsReply::Failed(e) => Err("Failed to read token accounts: "@ + e@),
    }
}

/// The owners whose accounts have to be read.
pub fn search_after_accounts(token_address: &str, reply: &AccountsReply) -> (r: Result<
    Vec<(Pubkey, usize)>,
    BotError,
>)
    ensures
        match r {
            Ok(owners) => candidate_owners(token_address@, *reply) == Ok::<
                Seq<(Seq<u8>, nat)>,
                Seq<char>,
            >(owner_views(owners@)),
            Err(e) => candidate_owners(token_address@, *reply) is Err && e@
                == crate::pricing::portal_error(candidate_owners(token_address@, *reply)->Err_0),
        },
{
    match reply {
        AccountsReply::Failed(e) => refuse(joined("Failed to read token accounts: ", e.as_str())),
        AccountsReply::Found(accounts) => {
            let mut owners: Vec<(Pubkey, usize)> = Vec::new();
            let mut i: usize = 0;
            while i < accounts.len()
                invariant
                    i <= accounts@.len(),
                    owner_views(owners@) =~= owners_of(accounts@.take(i as int)),
                decreases accounts@.len() - i,
            {
                assert(accounts@.take(i + 1).drop_last() =~= accounts@.take(i as int));
                let ghost before = owner_views(owners@);
                match &accounts[i] {
                    Some(data) => {
                        if data.len() >= 64 {
                            let owner: Pubkey = read_key(data, 32);
                            owners.push((owner, i));
                            assert(owner_views(owners@) =~= before.push((owner@, i as nat)));
                        }
                    },
                    None => {},
                }
                i = i + 1;
            }
            assert(accounts@.take(accounts@.len() as int) =~= accounts@);
            if owners.len() == 0 {
                return refuse(
                    joined(
                        "Could not extract owners from token accounts for ",
                        token_address,
                    ),
                );
            }
            Ok(owners)
        },
    }
}

/// What a request for the accounts of the owners brought: for each that exists, the program that
/// it belongs to.
#[derive(Debug)]
pub enum ProgramsReply {
    Found(Vec<Option<Pubkey>>),
    Failed(String),
}

/// The first place from `from` on that holds `program`.
pub open spec fn first_place(programs: Seq<Option<Pubkey>>, program: Seq<u8>, from: int) -> Option<
    int,
>
    decreases programs.len() - from,
{
    if from < 0 || from >= programs.len() {
        None
    } else if programs[from] is Some && programs[from]->0@ == program {
        Some(from)
    } else {
        first_place(programs, program, from + 1)
    }
}

/// The pool and its base vault: the first owner that belongs to the pool program, and the token
/// account that named it.
pub open spec fn pool_among(
    token_address: Seq<char>,
    keys: Seq<Seq<u8>>,
    owners: Seq<(Seq<u8>, nat)>,
    reply: ProgramsReply,
) -> Result<(Seq<u8>, Seq<u8>), ErrorView> {
    match reply {
        ProgramsReply::Failed(e) => Err(
            crate::pricing::portal_error("Failed to read owner accounts: "@ + e@),
        ),
        ProgramsReply::Found(programs) => match pool_program() {
            Err(e) => Err(e),
            Ok(program) => match first_place(programs@, program, 0) {
                Some(i) => Ok((owners[i].0, keys[owners[i].1 as int])),
                None => Err(
                    crate::pricing::portal_error(
                        "No PumpSwap pool found among top holders for "@ + token_address,
                    ),
                ),
            },
        },
    }
}

/// The pool and its base vault.
pub fn search_after_owners(
    token_address: &str,
    keys: &Vec<Pubkey>,
    owners: &Vec<(Pubkey, usize)>,
    reply: &ProgramsReply,
) -> (r: Result<(Pubkey, Pubkey), BotError>)
    requires
        reply is Found ==> reply->Found_0@.len() <= owners@.len(),
        forall|i: int| 0 <= i < owners@.len() ==> (#[trigger] owners@[i]).1 < keys@.len(),
    ensures
        ({
            let expected = pool_among(
                token_address@,
                key_views(keys@),
                owner_views(owners@),
                *reply,
            );
            match r {
                Ok((pool, vault)) => expected == Ok::<(Seq<u8>, Seq<u8>), ErrorView>(
                    (pool@, vault@),
                ),
                Err(e) => expected == Err::<(Seq<u8>, Seq<u8>), ErrorView>(e@),
            }
        }),
{
    match reply {
        ProgramsReply::Failed(e) => refuse(joined("Failed to read owner accounts: ", e.as_str())),
        ProgramsReply::Found(programs) => {
            let program: Pubkey = match parse_pool_program() {
                Ok(key) => key,
                Err(e) => {
                    return Err(e);
                },
            };
            let mut i: usize = 0;
            while i < programs.len()
                invariant
                    i <= programs@.len(),
                    reply == ProgramsReply::Found(*programs),
                    programs@.len() <= owners@.len(),
                    pool_program() == Ok::<Seq<u8>, ErrorView>(program@),
                    forall|k: int|
                        0 <= k < owners@.len() ==> (#[trigger] owners@[k]).1 < keys@.len(),
                    first_place(programs@, program@, 0) == first_place(
                        programs@,
                        program@,
                        i as int,
                    ),
                decreases programs@.len() - i,
            {
                match &programs[i] {
                    Some(p) => {
                        if p.same(&program) {
                            let place: usize = owners[i].1;
                            return Ok((owners[i].0, keys[place]));
                        }
                    },
                    None => {},
                }
                i = i + 1;
            }
            refuse(joined("No PumpSwap pool found among top holders for ", token_address))
        },
    }
}

/// What a request for the SOL accounts of the pool brought.
#[derive(Debug)]
pub enum QuoteReply {
    Found(Vec<String>),
    Failed(String),
}

/// The pool with its vaults: the quote vault is the first SOL account that the pool owns.
pub open spec fn pool_with_vaults(pool: Seq<u8>, base: Seq<u8>, reply: QuoteReply) -> Result<
    PoolView,
    Seq<char>,
> {
    let missing = Err("No SOL vault found for PumpSwap pool "@ + crate::pubkey::base58_text(pool));
    match reply {
        QuoteReply::Failed(e) => Err(
            "getTokenAccountsByOwner failed for pool "@ + crate::pubkey::base58_text(pool) + ": "@
                + e@,
        ),
        QuoteReply::Found(texts) => if texts@.len() == 0 {
            missing
        } else {
            match crate::pubkey::base58_key(texts@[0]@) {
                Ok(quote) => Ok(PoolView { pool_id: pool, base_vault: base, quote_vault: quote }),
                Err(_) => missing,
            }
        },
    }
}

/// Ends the search with the pool and its vaults.
pub fn search_after_quote(pool_id: &Pubkey, base_vault: &Pubkey, reply: &QuoteReply) -> (r: Result<
    PumpSwapPoolInfo,
    BotError,
>)
    ensures
        match r {
            Ok(pool) => pool_with_vaults(pool_id@, base_vault@, *reply) == Ok::<
                PoolView,
                Seq<char>,
            >(pool@),
            Err(e) => pool_with_vaults(pool_id@, base_vault@, *reply) is Err && e@
                == crate::pricing::portal_error(
                pool_with_vaults(pool_id@, base_vault@, *reply)->Err_0,
            ),
        },
{
    let pool_text: String = pool_id.to_text();
    match reply {
        QuoteReply::Failed(e) => {
            let mut detail: String = joined(
                "getTokenAccountsByOwner failed for pool ",
                pool_text.as_str(),
            );
            detail.append(": ");
            detail.append(e.as_str());
            refuse(detail)
        },
        QuoteReply::Found(texts) => {
            if texts.len() > 0 {
                if let Ok(quote) = Pubkey::parse(texts[0].as_str()) {
                    return Ok(
                        PumpSwapPoolInfo {
                            pool_id: *pool_id,
                            base_vault: *base_vault,
                            quote_vault: quote,
                        },
                    );
                }
            }
            refuse(joined("No SOL vault found for PumpSwap pool ", pool_text.as_str()))
        },
    }
}

proof fn lemma_owner_places(accounts: Seq<Option<Vec<u8>>>)
    ensures
        forall|i: int|
            0 <= i < owners_of(accounts).len() ==> (#[trigger] owners_of(accounts)[i]).1
                < accounts.len(),
    decreases accounts.len(),
{
    if accounts.len() > 0 {
        lemma_owner_places(accounts.drop_last());
        let before = owners_of(accounts.drop_last());
        assert forall|i: int| 0 <= i < owners_of(accounts).len() implies (
        #[trigger] owners_of(accounts)[i]).1 < accounts.len() by {
            if i < before.len() {
                assert(owners_of(accounts)[i] == before[i]);
            }
        }
    }
}

/// Every owner that the search goes on with is named by one of the token accounts that were
/// read, so that the place it comes with is one of theirs.
pub proof fn law_owners_come_from_accounts(token_address: Seq<char>, reply: AccountsReply)
    requires
        candidate_owners(token_address, reply) is Ok,
    ensures
        forall|i: int|
            0 <= i < candidate_owners(token_address, reply)->Ok_0.len() ==> (
            #[trigger] candidate_owners(token_address, reply)->Ok_0[i]).1
                < reply->Found_0@.len(),
{
    lemma_owner_places(reply->Found_0@);
}

/// The keys of two lists are those of the first and then those of the second; each text that can
/// be read gives its key, and each other one nothing.
pub proof fn law_keys_are_read_one_by_one(
    first: Seq<Seq<char>>,
    second: Seq<Seq<char>>,
    text: Seq<char>,
)
    ensures
        keys_among(first + second) == keys_among(first) + keys_among(second),
        keys_among(seq![text]) == (match crate::pubkey::base58_key(text) {
            Ok(key) => seq![key],
            Err(_) => Seq::empty(),
        }),
    decreases second.len(),
{
    let one = seq![text];
    assert(one.drop_last() == Seq::<Seq<char>>::empty());
    assert(keys_among(one.drop_last()) == Seq::<Seq<u8>>::empty());
    if second.len() == 0 {
        assert(first + second == first);
    } else {
        assert((first + second).drop_last() == first + second.drop_last());
        law_keys_are_read_one_by_one(first, second.drop_last(), text);
    }
}

/// Of the largest accounts the first ten are looked at, however many there are.
pub proof fn law_ten_largest_accounts_are_searched(token_address: Seq<char>, texts: Vec<String>)
    requires
        texts@.len() > 0,
    ensures
        ({
            let all = crate::text::texts(texts@);
            largest_accounts(token_address, LargestReply::Found(texts)) == Ok::<
                Seq<Seq<u8>>,
                Seq<char>,
            >(
                keys_among(
                    if all.len() <= 10 {
                        all
                    } else {
                        all.take(10)
                    },
                ),
            )
        }),
{
    let all = crate::text::texts(texts@);
    assert(all.len() == texts@.len());
    if all.len() <= 10 {
        assert(all.take(all.len() as int) == all);
    }
}

/// An account has an owner, its second 32 bytes, exactly where it was found with them.
pub open spec fn has_owner(account: Option<Vec<u8>>) -> bool {
    account is Some && account->0@.len() >= 64
}

/// The owners come in the order of their accounts: each account that has one is listed once, with
/// the place of the account, and nothing else is.
pub proof fn law_each_owner_is_listed_with_its_account(accounts: Seq<Option<Vec<u8>>>)
    ensures
        ({
            let owners = owners_of(accounts);
            &&& forall|i: int|
                0 <= i < owners.len() ==> {
                    let (owner, place) = #[trigger] owners[i];
                    &&& place < accounts.len()
                    &&& has_owner(accounts[place as int])
                    &&& owner == accounts[place as int]->0@.subrange(32, 64)
                }
            &&& forall|i: int, j: int|
                0 <= i < j < owners.len() ==> (#[trigger] owners[i]).1 < (#[trigger] owners[j]).1
            &&& forall|place: int|
                0 <= place < accounts.len() && has_owner(#[trigger] accounts[place])
                    ==> owners.contains((accounts[place]->0@.subrange(32, 64), place as nat))
        }),
    decreases accounts.len(),
{
    if accounts.len() > 0 {
        let before = owners_of(accounts.drop_last());
        let owners = owners_of(accounts);
        law_each_owner_is_listed_with_its_account(accounts.drop_last());
        assert forall|i: int| 0 <= i < owners.len() implies {
            let (owner, place) = #[trigger] owners[i];
            &&& place < accounts.len()
            &&& has_owner(accounts[place as int])
            &&& owner == accounts[place as int]->0@.subrange(32, 64)
        } by {
            if i < before.len() {
                assert(owners[i] == before[i]);
                assert(accounts.drop_last()[before[i].1 as int] == accounts[before[i].1 as int]);
            }
        }
        assert forall|i: int, j: int| 0 <= i < j < owners.len() implies (#[trigger] owners[i]).1 < (
        #[trigger] owners[j]).1 by {
            assert(owners[i] == before[i]);
            if j < before.len() {
                assert(owners[j] == before[j]);
            }
        }
        assert forall|place: int|
            0 <= place < accounts.len() && has_owner(
                #[trigger] accounts[place],
            ) implies owners.contains(
            (accounts[place]->0@.subrange(32, 64), place as nat),
        ) by {
            let pair = (accounts[place]->0@.subrange(32, 64), place as nat);
            if place < accounts.len() - 1 {
                assert(accounts.drop_last()[place] == accounts[place]);
                assert(before.contains(pair));
                let i = choose|i: int| 0 <= i < before.len() && before[i] == pair;
                assert(owners[i] == pair);
            } else {
                assert(owners.last() == pair);
            }
        }
    }
}

/// The pool is the first of the owners that belongs to the program: none before it does, and
/// where none is found none does.
pub proof fn law_first_pool_is_taken(
    token_address: Seq<char>,
    keys: Seq<Seq<u8>>,
    owners: Seq<(Seq<u8>, nat)>,
    programs: Vec<Option<Pubkey>>,
    program: Seq<u8>,
)
    requires
        pool_program() == Ok::<Seq<u8>, ErrorView>(program),
    ensures
        ({
            let is_pool = |i: int| programs@[i] is Some && programs@[i]->0@ == program;
            let found = pool_among(token_address, keys, owners, ProgramsReply::Found(programs));
            &&& found is Ok <==> exists|i: int| 0 <= i < programs@.len() && #[trigger] is_pool(i)
            &&& forall|i: int|
                0 <= i < programs@.len() && is_pool(i) && (forall|j: int|
                    0 <= j < i ==> !#[trigger] is_pool(j)) ==> found == Ok::<
                    (Seq<u8>, Seq<u8>),
                    ErrorView,
                >((#[trigger] owners[i].0, keys[owners[i].1 as int]))
        }),
{
    let is_pool = |i: int| programs@[i] is Some && programs@[i]->0@ == program;
    lemma_first_place(programs@, program, 0);
    let found = first_place(programs@, program, 0);
    if found is Some {
        assert(is_pool(found->0));
    }
    assert forall|i: int|
        0 <= i < programs@.len() && is_pool(i) && (forall|j: int|
            0 <= j < i ==> !#[trigger] is_pool(j)) implies found == Some(i) by {
        assert(programs@[i] is Some);
        assert(found is Some);
        if found->0 < i {
            assert(is_pool(found->0));
        }
    }
}

proof fn lemma_first_place(programs: Seq<Option<Pubkey>>, program: Seq<u8>, from: int)
    requires
        0 <= from <= programs.len(),
    ensures
        match first_place(programs, program, from) {
            Some(i) => from <= i < programs.len() && programs[i] is Some && programs[i]->0@
                == program && forall|j: int|
                from <= j < i ==> !((#[trigger] programs[j]) is Some && programs[j]->0@ == program),
            None => forall|j: int|
                from <= j < programs.len() ==> !((#[trigger] programs[j]) is Some
                    && programs[j]->0@ == program),
        },
    decreases programs.len() - from,
{
    if from < programs.len() {
        lemma_first_place(programs, program, from + 1);
    }
}

/// The SOL vault of a pool is the first account that the pool owns, where that can be read.
pub proof fn law_first_account_is_the_sol_vault(
    pool: Seq<u8>,
    base: Seq<u8>,
    texts: Vec<String>,
)
    ensures
        ({
            let found = pool_with_vaults(pool, base, QuoteReply::Found(texts));
            &&& found is Ok <==> texts@.len() > 0 && crate::pubkey::base58_key(texts@[0]@) is Ok
            &&& found is Ok ==> found->Ok_0.pool_id == pool && found->Ok_0.base_vault == base
                && crate::pubkey::base58_key(texts@[0]@) == Ok::<
                Seq<u8>,
                crate::pubkey::KeyError,
            >(
                found->Ok_0.quote_vault,
            )
        }),
{
}

/// A search starts where the address of the token can be read, with its key.
pub proof fn law_searches_need_a_readable_token(token_address: Seq<char>, program: Seq<u8>)
    requires
        pool_program() == Ok::<Seq<u8>, ErrorView>(program),
    ensures
        match crate::pubkey::base58_key(token_address) {
            Ok(mint) => search_mint(token_address) == Ok::<Seq<u8>, ErrorView>(mint),
            Err(_) => search_mint(token_address) is Err,
        },
{
}

/// A search goes on with the owners that were found, all of them, and ends where there are none.
pub proof fn law_searches_go_on_with_owners(token_address: Seq<char>, accounts: Vec<Option<Vec<u8>>>)
    ensures
        candidate_owners(token_address, AccountsReply::Found(accounts)) is Ok <==> owners_of(
            accounts@,
        ).len() > 0,
        owners_of(accounts@).len() > 0 ==> candidate_owners(
            token_address,
            AccountsReply::Found(accounts),
        ) == Ok::<Seq<(Seq<u8>, nat)>, Seq<char>>(owners_of(accounts@)),
{
}

} // verus!
