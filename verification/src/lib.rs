//! The decisions of a bot that trades pump.fun tokens on Solana.
//!
//! The library takes what the chain and the web answered as plain values and says what to do
//! next: what to ask for, which transaction to request and to sign, what to write down. It makes
//! no request of its own.
//!
//! - Numbers and text: [`rounding`], [`binary64`], [`text`], [`keyed`], [`clock`], [`batching`].
//! - Settings and errors: [`config`], [`error`], [`lockfile`].
//! - The chain: [`pubkey`], [`wallet`], [`transaction`], [`pricing`], [`pools`], [`copying`].
//! - Tokens: [`pumpportal`], [`feeds`], [`tokens`].
//! - Trading: [`strategies`], [`exits`], [`trading`], [`scoring`], [`journal`], [`monitoring`],
//!   [`storage`], [`bot`], which joins them, and [`rounds`], in which signals are acted on.
//!
//! Prices and percentages are binary64 numbers that are held by their bits, see [`binary64`].
//! Functions named `law_..` state what holds of the library as a whole.
pub mod batching;
pub mod binary64;
pub mod bot;
pub mod clock;
pub mod config;
pub mod copying;
pub mod error;
pub mod exits;
pub mod feeds;
pub mod journal;
pub mod keyed;
pub mod lockfile;
pub mod monitoring;
pub mod pools;
pub mod pricing;
pub mod pubkey;
pub mod pumpportal;
pub mod rounding;
pub mod rounds;
pub mod scoring;
pub mod storage;
pub mod strategies;
pub mod text;
pub mod tokens;
pub mod trading;
pub mod transaction;
pub mod wallet;
