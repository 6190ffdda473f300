//! A two-party asset-swap escrow over a ledger of token balances.
//!
//! A maker locks an amount of one asset in a vault and names the amount of
//! another asset it wants back; a taker settles the trade, or the maker takes
//! the deposit back. The existence of the escrow record is the only flag that
//! says whether a trade is open.
pub mod state;
pub mod sums;
pub mod ledger;
pub mod instructions;
pub mod laws;

pub use instructions::{make, refund, take};
pub use ledger::{Ledger, Trade};
pub use state::{derive_escrow_address, Escrow, EscrowError, TradeKey, ESCROW_BUMP};
