//! What can go wrong.
use vstd::prelude::*;

verus! {

#[derive(Debug)]
pub enum BotError {
    Config(String),
    SolanaClient(String),
    Http(String),
    Serialization(String),
    Wallet(String),
    Trading(String),
    PumpPortal(String),
    TransactionFailed(String),
    InvalidTokenAddress(String),
    Unknown(String),
}

/// What went wrong, without the particulars.
#[derive(Clone, Copy, PartialEq, Eq, Structural, Debug)]
pub enum ErrorKind {
    Config,
    SolanaClient,
    Http,
    Serialization,
    Wallet,
    Trading,
    PumpPortal,
    TransactionFailed,
    InvalidTokenAddress,
    Unknown,
}

/// An error as its kind and its particulars.
pub struct ErrorView {
    pub kind: ErrorKind,
    pub detail: Seq<char>,
}

impl View for BotError {
    type V = ErrorView;

    open spec fn view(&self) -> ErrorView {
        match self {
            BotError::Config(d) => ErrorView { kind: ErrorKind::Config, detail: d@ },
            BotError::SolanaClient(d) => ErrorView { kind: ErrorKind::SolanaClient, detail: d@ },
            BotError::Http(d) => ErrorView { kind: ErrorKind::Http, detail: d@ },
            BotError::Serialization(d) => ErrorView { kind: ErrorKind::Serialization, detail: d@ },
            BotError::Wallet(d) => ErrorView { kind: ErrorKind::Wallet, detail: d@ },
            BotError::Trading(d) => ErrorView { kind: ErrorKind::Trading, detail: d@ },
            BotError::PumpPortal(d) => ErrorView { kind: ErrorKind::PumpPortal, detail: d@ },
            BotError::TransactionFailed(d) => ErrorView {
                kind: ErrorKind::TransactionFailed,
                detail: d@,
            },
            BotError::InvalidTokenAddress(d) => ErrorView {
                kind: ErrorKind::InvalidTokenAddress,
                detail: d@,
            },
            BotError::Unknown(d) => ErrorView { kind: ErrorKind::Unknown, detail: d@ },
        }
    }
}

/// What a message about an error of this kind begins with.
pub open spec fn heading(kind: ErrorKind) -> Seq<char> {
    match kind {
        ErrorKind::Config => "Configuration error: "@,
        ErrorKind::SolanaClient => "Solana client error: "@,
        ErrorKind::Http => "HTTP request error: "@,
        ErrorKind::Serialization => "Serialization error: "@,
        ErrorKind::Wallet => "Wallet error: "@,
        ErrorKind::Trading => "Trading error: "@,
        ErrorKind::PumpPortal => "PumpPortal API error: "@,
        ErrorKind::TransactionFailed => "Transaction failed: "@,
        ErrorKind::InvalidTokenAddress => "Invalid token address: "@,
        ErrorKind::Unknown => "Unknown error: "@,
    }
}

/// One text after another.
pub(crate) fn joined(first: &str, second: &str) -> (r: String)
    ensures
        r@ == first@ + second@,
{
    let mut out: String = first.to_owned();
    out.append(second);
    out
}

impl BotError {
    /// The message that tells of the error.
    pub fn message(&self) -> (r: String)
        ensures
            r@ == heading(self@.kind) + self@.detail,
    {
        match self {
            BotError::Config(d) => joined("Configuration error: ", d.as_str()),
            BotError::SolanaClient(d) => joined("Solana client error: ", d.as_str()),
            BotError::Http(d) => joined("HTTP request error: ", d.as_str()),
            BotError::Serialization(d) => joined("Serialization error: ", d.as_str()),
            BotError::Wallet(d) => joined("Wallet error: ", d.as_str()),
            BotError::Trading(d) => joined("Trading error: ", d.as_str()),
            BotError::PumpPortal(d) => joined("PumpPortal API error: ", d.as_str()),
            BotError::TransactionFailed(d) => joined("Transaction failed: ", d.as_str()),
            BotError::InvalidTokenAddress(d) => joined("Invalid token address: ", d.as_str()),
            BotError::Unknown(d) => joined("Unknown error: ", d.as_str()),
        }
    }
}

} // verus!
