//! Quotes and swap accounts for Archer markets: makers' books are decoded from
//! account bytes, laid out as one ladder of prices, and walked by a taker's
//! budget the way the on-chain program walks them.

pub mod address;
pub mod amm;
pub mod answers;
pub mod bytes;
pub mod comparing;
pub mod conversions;
pub mod decimal;
pub mod decode;
pub mod error;
pub mod fills;
pub mod gathering;
pub mod ladder;
pub mod laws;
pub mod layout;
pub mod lots;
pub mod matching;
pub mod monotone;
pub mod pricing;
pub mod pubkey;
pub mod quote;
pub mod refreshing;
pub mod router;
pub mod sdk;
pub mod settlement;
pub mod sharing;
pub mod state;
pub mod succeeding;
pub mod swapping;
pub mod token;
pub mod trades;

pub use amm::ArcherAmm;
pub use pubkey::ARCHER_PROGRAM_ID;
