//! What the target wallets buy.
use crate::error::{joined, BotError, ErrorKind, ErrorView};
use crate::pricing::SOL_MINT_STR;
use crate::pubkey::{KeyError, Pubkey};
use solana_sdk::signature::{ParseSignatureError, Signature};
use std::str::FromStr;
use vstd::prelude::*;

verus! {

/// What `solana_sdk`'s `Signature::from_str` makes of a text.
pub uninterp spec fn base58_signature(text: Seq<char>) -> Result<Seq<u8>, KeyError>;

/// `Signature::from_str` of `solana_sdk`: whether a text is a signature, and which, depends on
/// the text alone.
#[verifier::external_body]
fn decode_signature(text: &str) -> (r: Result<[u8; 64], KeyError>)
    ensures
        match r {
            Ok(bytes) => base58_signature(text@) == Ok::<Seq<u8>, KeyError>(bytes@),
            Err(e) => base58_signature(text@) == Err::<Seq<u8>, KeyError>(e),
        },
{
    match Signature::from_str(text) {
        Ok(signature) => Ok(<[u8; 64]>::from(signature)),
        Err(ParseSignatureError::WrongSize) => Err(KeyError::WrongSize),
        Err(ParseSignatureError::Invalid) => Err(KeyError::Invalid),
    }
}

/// Why a text is not a signature.
pub open spec fn signature_error_text(e: KeyError) -> Seq<char> {
    match e {
        KeyError::WrongSize => "string decoded to wrong size for signature"@,
        KeyError::Invalid => "failed to decode string to signature"@,
    }
}

/// Reads the signature of a transaction.
pub fn parse_signature(text: &str) -> (r: Result<[u8; 64], BotError>)
    ensures
        match base58_signature(text@) {
            Ok(bytes) => r is Ok && r->Ok_0@ == bytes,
            Err(e) => r is Err && r->Err_0@ == (ErrorView {
                kind: ErrorKind::Trading,
                detail: "Bad signature: "@ + signature_error_text(e),
            }),
        },
{
    match decode_signature(text) {
        Ok(bytes) => Ok(bytes),
        Err(e) => {
            let cause: &'static str = match e {
                KeyError::WrongSize => "string decoded to wrong size for signature",
                KeyError::Invalid => "failed to decode string to signature",
            };
            Err(BotError::Trading(joined("Bad signature: ", cause)))
        },
    }
}

/// What an account holds of a token, before or after a transaction.
#[derive(Debug)]
pub struct TokenBalance {
    pub mint: String,
    pub owner: Option<String>,
    /// Raw token units, as a text.
    pub amount: String,
}

/// What a transaction changed.
#[derive(Debug)]
pub struct TransactionMeta {
    pub pre_balances: Vec<u64>,
    pub post_balances: Vec<u64>,
    pub pre_token_balances: Vec<TokenBalance>,
    pub post_token_balances: Vec<TokenBalance>,
}

/// A purchase by a target wallet.
#[derive(Debug)]
pub struct TargetBuy {
    pub wallet: String,
    pub mint: String,
    pub lamports_spent: u64,
}

pub open spec fn first_or_zero(balances: Seq<u64>) -> u64 {
    if balances.len() > 0 {
        balances[0]
    } else {
        0
    }
}

/// What the payer of a transaction spent.
pub open spec fn lamports_spent(meta: TransactionMeta) -> u64 {
    let (before, after) = (
        first_or_zero(meta.pre_balances@),
        first_or_zero(meta.post_balances@),
    );
    if before > after {
        (before - after) as u64
    } else {
        0
    }
}

/// The number that an amount stands for, zero where it is none.
pub open spec fn amount_of(balance: TokenBalance) -> nat {
    match crate::text::unsigned_number(balance.amount@, u64::MAX as nat) {
        Ok(n) => n,
        Err(_) => 0,
    }
}

/// Whether a balance is that of an owner in a token.
pub open spec fn belongs(balance: TokenBalance, mint: Seq<char>, owner: Seq<char>) -> bool {
    balance.mint@ == mint && balance.owner is Some && balance.owner->0@ == owner
}

/// What an owner held of a token: the first balance counts.
pub open spec fn amount_held(
    balances: Seq<TokenBalance>,
    mint: Seq<char>,
    owner: Seq<char>,
    from: int,
) -> nat
    decreases balances.len() - from,
{
    if from < 0 || from >= balances.len() {
        0
    } else if belongs(balances[from], mint, owner) {
        amount_of(balances[from])
    } else {
        amount_held(balances, mint, owner, from + 1)
    }
}

/// The texts of addresses.
pub open spec fn key_texts(keys: Seq<Pubkey>) -> Seq<Seq<char>> {
    keys.map_values(|k: Pubkey| crate::pubkey::base58_text(k@))
}

/// Whether a balance shows a purchase by a target wallet: the wallet holds more than before of a
/// token other than SOL.
pub open spec fn shows_buy(
    meta: TransactionMeta,
    wallets: Seq<Seq<char>>,
    after: TokenBalance,
) -> bool {
    &&& after.owner is Some
    &&& wallets.contains(after.owner->0@)
    &&& amount_of(after) > amount_held(
        meta.pre_token_balances@,
        after.mint@,
        after.owner->0@,
        0,
    )
    &&& after.mint@ != SOL_MINT_STR@
}

/// The first balance from `from` on that shows a purchase by a target wallet.
pub open spec fn first_buy(
    meta: TransactionMeta,
    wallets: Seq<Seq<char>>,
    from: int,
) -> Option<int>
    decreases meta.post_token_balances@.len() - from,
{
    let balances = meta.post_token_balances@;
    if from < 0 || from >= balances.len() {
        None
    } else if shows_buy(meta, wallets, balances[from]) {
        Some(from)
    } else {
        first_buy(meta, wallets, from + 1)
    }
}

fn read_amount(balance: &TokenBalance) -> (r: u64)
    ensures
        r == amount_of(*balance),
{
    match crate::text::parse_unsigned(balance.amount.as_str(), u64::MAX) {
        Ok(n) => n,
        Err(_) => 0,
    }
}

fn read_held(balances: &Vec<TokenBalance>, mint: &str, owner: &str) -> (r: u64)
    ensures
        r == amount_held(balances@, mint@, owner@, 0),
{
    let mut i: usize = 0;
    while i < balances.len()
        invariant
            i <= balances@.len(),
            amount_held(balances@, mint@, owner@, 0) == amount_held(
                balances@,
                mint@,
                owner@,
                i as int,
            ),
        decreases balances@.len() - i,
    {
        let balance: &TokenBalance = &balances[i];
        if crate::text::same_text(balance.mint.as_str(), mint) {
            if let Some(o) = &balance.owner {
                if crate::text::same_text(o.as_str(), owner) {
                    return read_amount(balance);
                }
            }
        }
        i = i + 1;
    }
    0
}

fn is_target(wallets: &Vec<Pubkey>, owner: &str) -> (r: bool)
    ensures
        r == key_texts(wallets@).contains(owner@),
{
    let ghost all = key_texts(wallets@);
    let mut i: usize = 0;
    while i < wallets.len()
        invariant
            i <= wallets@.len(),
            all == key_texts(wallets@),
            forall|j: int| 0 <= j < i ==> all[j] != owner@,
        decreases wallets@.len() - i,
    {
        let text: String = wallets[i].to_text();
        assert(all[i as int] == text@);
        if crate::text::same_text(text.as_str(), owner) {
            return true;
        }
        i = i + 1;
    }
    false
}

/// Finds the purchase by a target wallet that a transaction made, if it made one.
pub fn get_target_buy_info(meta: &TransactionMeta, target_wallets: &Vec<Pubkey>) -> (r: Option<
    TargetBuy,
>)
    ensures
        match r {
            Some(buy) => {
                let place = first_buy(*meta, key_texts(target_wallets@), 0);
                &&& lamports_spent(*meta) > 0
                &&& place is Some
                &&& buy.lamports_spent == lamports_spent(*meta)
                &&& buy.mint@ == meta.post_token_balances@[place->0].mint@
                &&& buy.wallet@ == meta.post_token_balances@[place->0].owner->0@
            },
            None => lamports_spent(*meta) == 0 || first_buy(
                *meta,
                key_texts(target_wallets@),
                0,
            ) is None,
        },
{
    let before: u64 = if meta.pre_balances.len() > 0 {
        meta.pre_balances[0]
    } else {
        0
    };
    let after: u64 = if meta.post_balances.len() > 0 {
        meta.post_balances[0]
    } else {
        0
    };
    if before <= after {
        return None;
    }
    let spent: u64 = before - after;
    let ghost wallets = key_texts(target_wallets@);
    let mut i: usize = 0;
    while i < meta.post_token_balances.len()
        invariant
            i <= meta.post_token_balances@.len(),
            spent == lamports_spent(*meta),
            spent > 0,
            wallets == key_texts(target_wallets@),
            first_buy(*meta, wallets, 0) == first_buy(*meta, wallets, i as int),
        decreases meta.post_token_balances@.len() - i,
    {
        let post: &TokenBalance = &meta.post_token_balances[i];
        if let Some(owner) = &post.owner {
            if is_target(target_wallets, owner.as_str()) {
                let held: u64 = read_held(
                    &meta.pre_token_balances,
                    post.mint.as_str(),
                    owner.as_str(),
                );
                if read_amount(post) > held && !crate::text::same_text(
                    post.mint.as_str(),
                    SOL_MINT_STR,
                ) {
                    return Some(
                        TargetBuy {
                            wallet: owner.clone(),
                            mint: post.mint.clone(),
                            lamports_spent: spent,
                        },
                    );
                }
            }
        }
        i = i + 1;
    }
    None
}

proof fn lemma_first_buy(meta: TransactionMeta, wallets: Seq<Seq<char>>, from: int)
    requires
        0 <= from,
    ensures
        first_buy(meta, wallets, from) matches Some(i) ==> from <= i
            < meta.post_token_balances@.len() && shows_buy(
            meta,
            wallets,
            meta.post_token_balances@[i],
        ),
    decreases meta.post_token_balances@.len() - from,
{
    if from < meta.post_token_balances@.len() && !shows_buy(
        meta,
        wallets,
        meta.post_token_balances@[from],
    ) {
        lemma_first_buy(meta, wallets, from + 1);
    }
}

/// Only purchases of target wallets are followed, and never those of SOL itself.
pub proof fn law_only_targets_are_followed(meta: TransactionMeta, wallets: Seq<Seq<char>>)
    requires
        first_buy(meta, wallets, 0) is Some,
    ensures
        ({
            let balance = meta.post_token_balances@[first_buy(meta, wallets, 0)->0];
            &&& balance.owner is Some
            &&& wallets.contains(balance.owner->0@)
            &&& balance.mint@ != SOL_MINT_STR@
        }),
{
    lemma_first_buy(meta, wallets, 0);
}

proof fn lemma_amount_held(
    balances: Seq<TokenBalance>,
    mint: Seq<char>,
    owner: Seq<char>,
    from: int,
)
    requires
        0 <= from <= balances.len(),
    ensures
        (forall|j: int| from <= j < balances.len() ==> !belongs(#[trigger] balances[j], mint, owner))
            ==> amount_held(balances, mint, owner, from) == 0,
        forall|k: int|
            #![trigger balances[k]]
            from <= k < balances.len() && belongs(balances[k], mint, owner) && (forall|j: int|
                from <= j < k ==> !belongs(#[trigger] balances[j], mint, owner)) ==> amount_held(
                balances,
                mint,
                owner,
                from,
            ) == amount_of(balances[k]),
    decreases balances.len() - from,
{
    if from < balances.len() {
        lemma_amount_held(balances, mint, owner, from + 1);
        if belongs(balances[from], mint, owner) {
            assert forall|k: int|
                #![trigger balances[k]]
                from <= k < balances.len() && belongs(balances[k], mint, owner) && (forall|j: int|
                    from <= j < k ==> !belongs(
                        #[trigger] balances[j],
                        mint,
                        owner,
                    )) implies amount_held(balances, mint, owner, from) == amount_of(balances[k]) by {
                if k > from {
                    assert(!belongs(balances[from], mint, owner));
                }
            }
        }
    }
}

/// What an owner held of a token is what the first balance of that owner in that token tells, and
/// nothing where there is none.
pub proof fn law_first_balance_counts(
    balances: Seq<TokenBalance>,
    mint: Seq<char>,
    owner: Seq<char>,
    k: int,
)
    ensures
        (forall|j: int|
            0 <= j < balances.len() ==> !((#[trigger] balances[j]).mint@ == mint
                && balances[j].owner is Some && balances[j].owner->0@ == owner)) ==> amount_held(
            balances,
            mint,
            owner,
            0,
        ) == 0,
        0 <= k < balances.len() && balances[k].mint@ == mint && balances[k].owner is Some
            && balances[k].owner->0@ == owner && (forall|j: int|
            0 <= j < k ==> !((#[trigger] balances[j]).mint@ == mint && balances[j].owner is Some
                && balances[j].owner->0@ == owner)) ==> amount_held(balances, mint, owner, 0)
            == amount_of(balances[k]),
{
    lemma_amount_held(balances, mint, owner, 0);
}

proof fn lemma_first_buy_is_first(
    meta: TransactionMeta,
    wallets: Seq<Seq<char>>,
    from: int,
    i: int,
)
    requires
        0 <= from <= i < meta.post_token_balances@.len(),
        shows_buy(meta, wallets, meta.post_token_balances@[i]),
    ensures
        first_buy(meta, wallets, from) is Some,
        from <= first_buy(meta, wallets, from)->0 <= i,
    decreases i - from,
{
    if !shows_buy(meta, wallets, meta.post_token_balances@[from]) {
        lemma_first_buy_is_first(meta, wallets, from + 1, i);
    }
}

/// Every purchase of a target wallet is seen: where the wallet holds more of a token other than
/// SOL than any balance before tells, and more than nothing, the transaction made a purchase, and
/// no later one than this is taken for it.
pub proof fn law_purchases_are_found(meta: TransactionMeta, wallets: Seq<Seq<char>>, i: int)
    requires
        0 <= i < meta.post_token_balances@.len(),
        meta.post_token_balances@[i].owner is Some,
        wallets.contains(meta.post_token_balances@[i].owner->0@),
        meta.post_token_balances@[i].mint@ != SOL_MINT_STR@,
        amount_of(meta.post_token_balances@[i]) > 0,
        forall|j: int|
            0 <= j < meta.pre_token_balances@.len() && (
            #[trigger] meta.pre_token_balances@[j]).mint@ == meta.post_token_balances@[i].mint@
                && meta.pre_token_balances@[j].owner is Some
                && meta.pre_token_balances@[j].owner->0@ == meta.post_token_balances@[i].owner->0@
                ==> amount_of(meta.pre_token_balances@[j]) < amount_of(
                meta.post_token_balances@[i],
            ),
    ensures
        first_buy(meta, wallets, 0) is Some,
        first_buy(meta, wallets, 0)->0 <= i,
{
    let after = meta.post_token_balances@[i];
    let (before, mint, owner) = (meta.pre_token_balances@, after.mint@, after.owner->0@);
    lemma_held_is_below(before, mint, owner, 0, amount_of(after));
    lemma_first_buy_is_first(meta, wallets, 0, i);
}

proof fn lemma_held_is_below(
    balances: Seq<TokenBalance>,
    mint: Seq<char>,
    owner: Seq<char>,
    from: int,
    bound: nat,
)
    requires
        0 <= from <= balances.len(),
        0 < bound,
        forall|j: int|
            0 <= j < balances.len() && (#[trigger] balances[j]).mint@ == mint
                && balances[j].owner is Some && balances[j].owner->0@ == owner ==> amount_of(
                balances[j],
            ) < bound,
    ensures
        amount_held(balances, mint, owner, from) < bound,
    decreases balances.len() - from,
{
    if from < balances.len() && !belongs(balances[from], mint, owner) {
        lemma_held_is_below(balances, mint, owner, from + 1, bound);
    }
}

/// A token that the wallet did not hold before is bought as soon as any of it is held after.
pub proof fn law_new_tokens_are_purchases(meta: TransactionMeta, wallets: Seq<Seq<char>>, i: int)
    requires
        0 <= i < meta.post_token_balances@.len(),
        meta.post_token_balances@[i].owner is Some,
        wallets.contains(meta.post_token_balances@[i].owner->0@),
        meta.post_token_balances@[i].mint@ != SOL_MINT_STR@,
        amount_of(meta.post_token_balances@[i]) > 0,
        forall|j: int|
            0 <= j < meta.pre_token_balances@.len() ==> (
            #[trigger] meta.pre_token_balances@[j]).mint@ != meta.post_token_balances@[i].mint@,
    ensures
        first_buy(meta, wallets, 0) is Some,
{
    law_purchases_are_found(meta, wallets, i);
}

/// What is taken for a purchase is one: some balance of a target wallet in a token other than SOL
/// exceeds what the first balance before tells of it, and is more than nothing where there is
/// none.
pub proof fn law_purchases_raise_a_balance(meta: TransactionMeta, wallets: Seq<Seq<char>>, k: int)
    requires
        first_buy(meta, wallets, 0) is Some,
    ensures
        ({
            let i = first_buy(meta, wallets, 0)->0;
            let after = meta.post_token_balances@[i];
            let before = meta.pre_token_balances@;
            let same = |b: TokenBalance|
                b.mint@ == after.mint@ && b.owner is Some && b.owner->0@ == after.owner->0@;
            &&& 0 <= i < meta.post_token_balances@.len()
            &&& after.owner is Some
            &&& wallets.contains(after.owner->0@)
            &&& after.mint@ != SOL_MINT_STR@
            &&& amount_of(after) > 0
            &&& 0 <= k < before.len() && same(before[k]) && (forall|j: int|
                0 <= j < k ==> !same(#[trigger] before[j])) ==> amount_of(after) > amount_of(
                before[k],
            )
        }),
{
    lemma_first_buy(meta, wallets, 0);
    let after = meta.post_token_balances@[first_buy(meta, wallets, 0)->0];
    law_first_balance_counts(meta.pre_token_balances@, after.mint@, after.owner->0@, k);
}

/// What was spent is what the first account has less than before, and nothing where it has not.
pub proof fn law_spending_is_the_payers_loss(meta: TransactionMeta)
    requires
        meta.pre_balances@.len() > 0,
        meta.post_balances@.len() > 0,
    ensures
        meta.pre_balances@[0] >= meta.post_balances@[0] ==> lamports_spent(meta)
            + meta.post_balances@[0] == meta.pre_balances@[0],
        meta.pre_balances@[0] <= meta.post_balances@[0] ==> lamports_spent(meta) == 0,
{
}

/// Where a balance is missing it counts as none: without any before there is nothing to spend,
/// and without any after all of it is spent.
pub proof fn law_missing_balances_are_none(meta: TransactionMeta)
    ensures
        meta.pre_balances@.len() == 0 ==> lamports_spent(meta) == 0,
        meta.post_balances@.len() == 0 && meta.pre_balances@.len() > 0 ==> lamports_spent(meta)
            == meta.pre_balances@[0],
{
}

/// The amount of a balance is the number that its text gives, and none where it gives none.
pub proof fn law_amounts_are_read(balance: TokenBalance, n: u64)
    ensures
        balance.amount@ == crate::text::decimal(n as nat) ==> amount_of(balance) == n,
        crate::text::unsigned_number(balance.amount@, u64::MAX as nat) is Err ==> amount_of(balance)
            == 0,
{
    crate::lockfile::law_written_numbers_read_back(n as nat, u64::MAX as nat);
}

} // verus!
