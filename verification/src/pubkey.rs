//! Account addresses.
use crate::error::BotError;
use solana_sdk::pubkey::ParsePubkeyError;
use std::str::FromStr;
use vstd::prelude::*;

verus! {

/// The address of an account: 32 bytes, written as base58 text.
#[derive(Clone, Copy, Debug)]
pub struct Pubkey {
    pub bytes: [u8; 32],
}

impl View for Pubkey {
    type V = Seq<u8>;

    open spec fn view(&self) -> Seq<u8> {
        self.bytes@
    }
}

/// Why a text is not an address.
#[derive(Clone, Copy, PartialEq, Eq, Structural, Debug)]
pub enum KeyError {
    WrongSize,
    Invalid,
}

/// What `solana_sdk`'s `Pubkey::from_str` makes of a text.
pub uninterp spec fn base58_key(text: Seq<char>) -> Result<Seq<u8>, KeyError>;

/// The text that `solana_sdk`'s `Pubkey` displays itself as.
pub uninterp spec fn base58_text(key: Seq<u8>) -> Seq<char>;

/// What `solana_sdk`'s `Pubkey::try_find_program_address` finds for two seeds and a program.
pub uninterp spec fn program_address(
    first_seed: Seq<u8>,
    second_seed: Seq<u8>,
    program: Seq<u8>,
) -> Option<Seq<u8>>;

/// `Pubkey::from_str` of `solana_sdk`: whether a text is an address, and which, depends on the
/// text alone. An address is read from no text but the one that it is displayed as.
#[verifier::external_body]
pub(crate) fn decode_key(text: &str) -> (r: Result<[u8; 32], KeyError>)
    ensures
        match r {
            Ok(bytes) => base58_key(text@) == Ok::<Seq<u8>, KeyError>(bytes@) && base58_text(bytes@)
                == text@,
            Err(e) => base58_key(text@) == Err::<Seq<u8>, KeyError>(e),
        },
{
    match solana_sdk::pubkey::Pubkey::from_str(text) {
        Ok(key) => Ok(key.to_bytes()),
        Err(ParsePubkeyError::WrongSize) => Err(KeyError::WrongSize),
        Err(ParsePubkeyError::Invalid) => Err(KeyError::Invalid),
    }
}

/// The `Display` of `solana_sdk`'s `Pubkey`: its text depends on the 32 bytes alone, and
/// `Pubkey::from_str` reads the same bytes from it.
#[verifier::external_body]
pub(crate) fn encode_key(bytes: &[u8; 32]) -> (r: String)
    ensures
        r@ == base58_text(bytes@) && base58_key(r@) is Ok && base58_key(r@)->Ok_0 == bytes@,
{
    solana_sdk::pubkey::Pubkey::from(*bytes).to_string()
}

/// `Pubkey::try_find_program_address` of `solana_sdk` with two seeds: the address found, if
/// any, depends on the seeds and the program alone.
#[verifier::external_body]
pub(crate) fn find_address(first_seed: &[u8], second_seed: &[u8; 32], program: &[u8; 32]) -> (r:
    Option<[u8; 32]>)
    ensures
        match r {
            Some(bytes) => program_address(first_seed@, second_seed@, program@) == Some(bytes@),
            None => program_address(first_seed@, second_seed@, program@) == None::<Seq<u8>>,
        },
{
    let program = solana_sdk::pubkey::Pubkey::from(*program);
    match solana_sdk::pubkey::Pubkey::try_find_program_address(
        &[first_seed, second_seed],
        &program,
    ) {
        Some((key, _)) => Some(key.to_bytes()),
        None => None,
    }
}

/// How a message tells why a text is not an address.
pub open spec fn key_error_text(e: KeyError) -> Seq<char> {
    match e {
        KeyError::WrongSize => "String is the wrong size"@,
        KeyError::Invalid => "Invalid Base58 string"@,
    }
}

impl KeyError {
    pub fn message(&self) -> (r: &'static str)
        ensures
            r@ == key_error_text(*self),
    {
        match self {
            KeyError::WrongSize => "String is the wrong size",
            KeyError::Invalid => "Invalid Base58 string",
        }
    }
}

pub fn same_bytes(a: &[u8; 32], b: &[u8; 32]) -> (r: bool)
    ensures
        r == (a@ == b@),
{
    let mut i: usize = 0;
    while i < 32
        invariant
            i <= 32,
            a@.len() == 32,
            b@.len() == 32,
            forall|j: int| 0 <= j < i ==> a@[j] == b@[j],
        decreases 32 - i,
    {
        if a[i] != b[i] {
            return false;
        }
        i = i + 1;
    }
    assert(a@ =~= b@);
    true
}

impl Pubkey {
    /// Reads an address. Written out again, it gives the text that was read.
    pub fn parse(text: &str) -> (r: Result<Pubkey, KeyError>)
        ensures
            match r {
                Ok(key) => base58_key(text@) == Ok::<Seq<u8>, KeyError>(key@) && base58_text(key@)
                    == text@,
                Err(e) => base58_key(text@) == Err::<Seq<u8>, KeyError>(e),
            },
    {
        match decode_key(text) {
            Ok(bytes) => Ok(Pubkey { bytes }),
            Err(e) => Err(e),
        }
    }

    /// The address as text. Read again, the text gives the address.
    pub fn to_text(&self) -> (r: String)
        ensures
            r@ == base58_text(self@),
            base58_key(r@) == Ok::<Seq<u8>, KeyError>(self@),
    {
        encode_key(&self.bytes)
    }

    pub fn same(&self, other: &Pubkey) -> (r: bool)
        ensures
            r == (self@ == other@),
    {
        same_bytes(&self.bytes, &other.bytes)
    }
}

/// Reads the address of a token's mint.
pub fn parse_mint(text: &str) -> (r: Result<Pubkey, BotError>)
    ensures
        match r {
            Ok(key) => base58_key(text@) == Ok::<Seq<u8>, KeyError>(key@),
            Err(e) => base58_key(text@) is Err && e@ == (crate::error::ErrorView {
                kind: crate::error::ErrorKind::InvalidTokenAddress,
                detail: "Invalid mint: "@ + key_error_text(base58_key(text@)->Err_0),
            }),
        },
{
    match Pubkey::parse(text) {
        Ok(key) => Ok(key),
        Err(e) => Err(
            BotError::InvalidTokenAddress(crate::error::joined("Invalid mint: ", e.message())),
        ),
    }
}

} // verus!
