//! A token-balance indexer: it reads the tagged event lines that a fungible
//! token contract writes into its execution logs, and projects them onto a
//! ledger of account balances that can be saved and resumed block by block.

pub mod decimal;
pub mod errors;
pub mod json;
pub mod text;
pub mod events;
pub mod ledger;
pub mod snapshot;
pub mod indexer;
