//! The wallet: its keys, and what it holds.
use crate::error::{joined, BotError, ErrorKind, ErrorView};
use crate::pubkey::Pubkey;
use crate::text::NumberError;
use solana_sdk::signature::Keypair;
use solana_sdk::signer::Signer;
use vstd::prelude::*;

verus! {

/// Whether `solana_sdk`'s `Keypair::from_bytes` takes the bytes as a secret key with the public
/// key that belongs to it.
pub uninterp spec fn is_keypair(bytes: Seq<u8>) -> bool;

/// The signature that `solana_sdk`'s `Keypair` gives a message.
pub uninterp spec fn message_signature(keypair: Seq<u8>, message: Seq<u8>) -> Seq<u8>;

/// `Keypair::from_bytes` of `solana_sdk`: whether 64 bytes are a key pair depends on them alone.
#[verifier::external_body]
fn check_keypair(bytes: &[u8; 64]) -> (r: bool)
    ensures
        r == is_keypair(bytes@),
{
    Keypair::from_bytes(bytes).is_ok()
}

/// `Keypair::sign_message` of `solana_sdk`: the signature depends on the keys and the message
/// alone.
#[verifier::external_body]
fn sign_bytes(keypair: &[u8; 64], message: &Vec<u8>) -> (r: [u8; 64])
    requires
        is_keypair(keypair@),
    ensures
        r@ == message_signature(keypair@, message@),
{
    <[u8; 64]>::from(Keypair::from_bytes(keypair).unwrap().sign_message(message))
}

/// The key pair that trades, with its address.
pub struct WalletManager {
    keypair: [u8; 64],
    wallet_address: Pubkey,
}

/// The bytes of a key pair: the secret key and behind it the public key.
impl View for WalletManager {
    type V = Seq<u8>;

    closed spec fn view(&self) -> Seq<u8> {
        self.keypair@
    }
}

/// The address of a key pair: its public key.
pub open spec fn keypair_address(keypair: Seq<u8>) -> Seq<u8> {
    keypair.subrange(32, 64)
}

impl WalletManager {
    #[verifier::type_invariant]
    spec fn sound(self) -> bool {
        &&& is_keypair(self.keypair@)
        &&& self.wallet_address@ == keypair_address(self.keypair@)
    }

    /// A wallet of a key pair; none where the bytes are not one.
    pub fn new(keypair: [u8; 64]) -> (r: Option<Self>)
        ensures
            match r {
                Some(wallet) => is_keypair(keypair@) && wallet@ == keypair@,
                None => !is_keypair(keypair@),
            },
    {
        if !check_keypair(&keypair) {
            return None;
        }
        let mut bytes: [u8; 32] = [0u8;32];
        let mut i: usize = 0;
        while i < 32
            invariant
                i <= 32,
                keypair@.len() == 64,
                bytes@.len() == 32,
                forall|j: int| 0 <= j < i ==> bytes@[j] == keypair@[32 + j],
            decreases 32 - i,
        {
            bytes[i] = keypair[32 + i];
            i = i + 1;
        }
        let wallet_address = Pubkey { bytes };
        assert(wallet_address@ =~= keypair_address(keypair@));
        Some(WalletManager { keypair, wallet_address })
    }

    pub fn get_address(&self) -> (r: Pubkey)
        ensures
            r@ == keypair_address(self@),
    {
        proof {
            use_type_invariant(self);
        }
        self.wallet_address
    }

    pub fn get_keypair(&self) -> (r: &[u8; 64])
        ensures
            r@ == self@,
            is_keypair(r@),
    {
        proof {
            use_type_invariant(self);
        }
        &self.keypair
    }

    /// Signs a message.
    pub fn sign(&self, message: &Vec<u8>) -> (r: [u8; 64])
        ensures
            r@ == message_signature(self@, message@),
    {
        proof {
            use_type_invariant(self);
        }
        sign_bytes(&self.keypair, message)
    }

    pub fn duplicate(&self) -> (r: Self)
        ensures
            r@ == self@,
    {
        proof {
            use_type_invariant(self);
        }
        WalletManager { keypair: self.keypair, wallet_address: self.wallet_address }
    }
}

/// What there is to do about a balance once the token accounts of the wallet are known.
#[derive(Debug)]
pub enum BalanceStep {
    /// The wallet has no such account: it holds nothing.
    Empty,
    /// The balance of this account has to be asked for.
    Ask(Pubkey),
}

/// How a message tells why a text is not a number.
pub open spec fn number_error_text(e: NumberError) -> Seq<char> {
    match e {
        NumberError::Empty => "cannot parse integer from empty string"@,
        NumberError::InvalidDigit => "invalid digit found in string"@,
        NumberError::TooLarge => "number too large to fit in target type"@,
    }
}

impl WalletManager {
    /// What there is to do once the token accounts of the wallet are known: the first one counts.
    pub fn token_account(accounts: &Vec<String>) -> (r: Result<BalanceStep, BotError>)
        ensures
            accounts@.len() == 0 ==> r == Ok::<BalanceStep, BotError>(BalanceStep::Empty),
            accounts@.len() > 0 ==> match crate::pubkey::base58_key(accounts@[0]@) {
                Ok(key) => r is Ok && r->Ok_0 is Ask && r->Ok_0->Ask_0@ == key,
                Err(e) => r is Err && r->Err_0@ == (ErrorView {
                    kind: ErrorKind::Wallet,
                    detail: "Invalid token account pubkey: "@ + crate::pubkey::key_error_text(e),
                }),
            },
    {
        if accounts.len() == 0 {
            return Ok(BalanceStep::Empty);
        }
        match Pubkey::parse(accounts[0].as_str()) {
            Ok(key) => Ok(BalanceStep::Ask(key)),
            Err(e) => Err(
                BotError::Wallet(joined("Invalid token account pubkey: ", e.message())),
            ),
        }
    }

    /// Reads the amount that an account is said to hold.
    pub fn get_token_balance(text: &str) -> (r: Result<u64, BotError>)
        ensures
            match crate::text::unsigned_number(text@, u64::MAX as nat) {
                Ok(n) => r is Ok && r->Ok_0 == n,
                Err(e) => r is Err && r->Err_0@ == (ErrorView {
                    kind: ErrorKind::Wallet,
                    detail: "Failed to parse token balance: "@ + number_error_text(e),
                }),
            },
    {
        match crate::text::parse_unsigned(text, u64::MAX) {
            Ok(n) => Ok(n),
            Err(e) => {
                let cause: &'static str = match e {
                    NumberError::Empty => "cannot parse integer from empty string",
                    NumberError::InvalidDigit => "invalid digit found in string",
                    NumberError::TooLarge => "number too large to fit in target type",
                };
                Err(BotError::Wallet(joined("Failed to parse token balance: ", cause)))
            },
        }
    }
}

/// A keypair is a secret and the address that belongs to it, in this order.
pub proof fn law_address_follows_the_secret(secret: Seq<u8>, address: Seq<u8>)
    requires
        secret.len() == 32,
        address.len() == 32,
    ensures
        keypair_address(secret + address) == address,
{
    assert((secret + address).subrange(32, 64) == address);
}

} // verus!
