//! The three entry points. Each is all-or-nothing: on an error the ledger is
//! left exactly as it was. What each does is stated by a spec function from
//! the ledger before to the result and the ledger after.
use vstd::prelude::*;
use crate::ledger::{Ledger, LedgerModel, Trade};
use crate::state::{derive_escrow_address, derived_address, Escrow, EscrowError, TradeKey};

verus! {

/// What `make` returns and leaves behind.
pub open spec fn make_outcome(
    l: LedgerModel,
    maker: u64,
    mint_a: u64,
    mint_b: u64,
    seed: u64,
    deposit: u64,
    receive: u64,
) -> (Result<(), EscrowError>, LedgerModel) {
    let (key, bump) = derived_address(maker, seed);
    if l.is_open(key) {
        (Err(EscrowError::Collision), l)
    } else if l.balance(maker, mint_a) < deposit {
        (Err(EscrowError::InsufficientFunds), l)
    } else {
        let escrow = Escrow { seed, maker, mint_a, mint_b, receive, bump };
        (
            Ok(()),
            LedgerModel {
                trades: l.trades.insert(key, Trade { escrow, vault: deposit }),
                ..l.debit(maker, mint_a, deposit)
            },
        )
    }
}

/// What `refund` returns and leaves behind.
pub open spec fn refund_outcome(l: LedgerModel, caller: u64, key: TradeKey) -> (
    Result<(), EscrowError>,
    LedgerModel,
) {
    if !l.is_open(key) {
        (Err(EscrowError::NotFound), l)
    } else {
        let t = l.trades[key];
        if caller != t.escrow.maker {
            (Err(EscrowError::Authorization), l)
        } else {
            (
                Ok(()),
                LedgerModel {
                    trades: l.trades.remove(key),
                    ..l.credit(t.escrow.maker, t.escrow.mint_a, t.vault)
                },
            )
        }
    }
}

/// What `take` returns and leaves behind: the taker pays the maker first,
/// then receives the vault's whole balance.
pub open spec fn take_outcome(l: LedgerModel, taker: u64, key: TradeKey) -> (
    Result<(), EscrowError>,
    LedgerModel,
) {
    if !l.is_open(key) {
        (Err(EscrowError::NotFound), l)
    } else {
        let t = l.trades[key];
        let e = t.escrow;
        if l.balance(taker, e.mint_b) < e.receive {
            (Err(EscrowError::InsufficientFunds), l)
        } else {
            let settled = l.debit(taker, e.mint_b, e.receive).credit(e.maker, e.mint_b, e.receive);
            (
                Ok(()),
                LedgerModel {
                    trades: settled.trades.remove(key),
                    ..settled.credit(taker, e.mint_a, t.vault)
                },
            )
        }
    }
}

/// Opens trade `seed` of `maker`: moves `deposit` of `mint_a` from the maker
/// into a new vault and records that the maker wants `receive` of `mint_b`.
pub fn make(
    ledger: &mut Ledger,
    maker: u64,
    mint_a: u64,
    mint_b: u64,
    seed: u64,
    deposit: u64,
    receive: u64,
) -> (r: Result<(), EscrowError>)
    requires
        old(ledger).wf(),
    ensures
        final(ledger).wf(),
        (r, final(ledger)@) == make_outcome(old(ledger)@, maker, mint_a, mint_b, seed, deposit, receive),
{
    let (key, bump) = derive_escrow_address(maker, seed);
    if ledger.trade(key).is_some() {
        return Err(EscrowError::Collision);
    }
    if ledger.balance(maker, mint_a) < deposit {
        return Err(EscrowError::InsufficientFunds);
    }
    let escrow = Escrow { seed, maker, mint_a, mint_b, receive, bump };
    ledger.lock_deposit(Trade { escrow, vault: deposit });
    Ok(())
}

/// Closes the trade at `key` for its maker: the vault's whole balance goes
/// back to the maker, and the vault and the record are gone.
pub fn refund(ledger: &mut Ledger, caller: u64, key: TradeKey) -> (r: Result<(), EscrowError>)
    requires
        old(ledger).wf(),
    ensures
        final(ledger).wf(),
        (r, final(ledger)@) == refund_outcome(old(ledger)@, caller, key),
{
    let t = match ledger.trade(key) {
        Some(t) => t,
        None => return Err(EscrowError::NotFound),
    };
    if caller != t.escrow.maker {
        return Err(EscrowError::Authorization);
    }
    ledger.release_vault(key, t.escrow.maker);
    Ok(())
}

/// Settles the trade at `key` with `taker`: the taker pays the maker the
/// amount asked, then receives the vault's whole balance, and the vault and
/// the record are gone.
pub fn take(ledger: &mut Ledger, taker: u64, key: TradeKey) -> (r: Result<(), EscrowError>)
    requires
        old(ledger).wf(),
    ensures
        final(ledger).wf(),
        (r, final(ledger)@) == take_outcome(old(ledger)@, taker, key),
{
    let t = match ledger.trade(key) {
        Some(t) => t,
        None => return Err(EscrowError::NotFound),
    };
    let e = t.escrow;
    if ledger.balance(taker, e.mint_b) < e.receive {
        return Err(EscrowError::InsufficientFunds);
    }
    ledger.transfer(taker, e.maker, e.mint_b, e.receive);
    ledger.release_vault(key, taker);
    Ok(())
}

} // verus!
