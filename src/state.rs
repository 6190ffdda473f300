//! The escrow record, the errors of the protocol, and address derivation.
use vstd::prelude::*;

verus! {

/// The address of an escrow record: derived from the maker's identity and the
/// maker's seed, so two distinct pairs never share a record.
pub type TradeKey = (u64, u64);

/// The canonicalization value kept in every escrow record.
///
/// Here a record's address is the pair (maker, seed) itself, which no other
/// pair can produce, so no search for a canonical value is needed: the record
/// keeps this fixed value.
pub const ESCROW_BUMP: u8 = 255;

/// The durable description of one open trade.
#[derive(Clone, Copy, Debug, PartialEq, Eq, Structural)]
pub struct Escrow {
    /// Discriminator chosen by the maker.
    pub seed: u64,
    /// Identity entitled to the refund and to the taker's payment.
    pub maker: u64,
    /// Asset held in the vault.
    pub mint_a: u64,
    /// Asset the maker wants.
    pub mint_b: u64,
    /// Amount of `mint_b` the taker pays.
    pub receive: u64,
    /// Canonicalization value of the record's derived address.
    pub bump: u8,
}

/// Why an operation was rejected; a rejected operation changes nothing.
#[derive(Clone, Copy, Debug, PartialEq, Eq, Structural)]
pub enum EscrowError {
    /// The caller is not the identity the operation requires.
    Authorization,
    /// A funding account holds less than a transfer needs.
    InsufficientFunds,
    /// No open trade stands at the address: never made, or already settled.
    NotFound,
    /// An open trade already stands at the address that would be created.
    Collision,
    /// Issuing more of an asset would take its supply, all balances and vaults
    /// together, past the largest amount a balance holds.
    Overflow,
}

/// The address of the escrow record of `maker`'s trade `seed`, with its
/// canonicalization value.
pub open spec fn derived_address(maker: u64, seed: u64) -> (TradeKey, u8) {
    ((maker, seed), ESCROW_BUMP)
}

/// Derives the address of the escrow record of `maker`'s trade `seed`.
pub fn derive_escrow_address(maker: u64, seed: u64) -> (r: (TradeKey, u8))
    ensures
        r == derived_address(maker, seed),
{
    ((maker, seed), ESCROW_BUMP)
}

} // verus!
