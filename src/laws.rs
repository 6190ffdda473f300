//! Properties of the protocol, proved over the operations' outcome functions.
use vstd::prelude::*;
use crate::instructions::{make_outcome, refund_outcome, take_outcome};
use crate::ledger::{LedgerModel, Trade};
use crate::state::{Escrow, EscrowError, TradeKey, ESCROW_BUMP};

verus! {

/// When no trade is open at `(maker, seed)` and the maker holds at least
/// `deposit` of `mint_a`, `make` succeeds: the vault holds exactly `deposit`,
/// the record holds exactly the inputs, and the maker holds `deposit` less.
pub proof fn lemma_make_locks_deposit(
    l: LedgerModel,
    maker: u64,
    mint_a: u64,
    mint_b: u64,
    seed: u64,
    deposit: u64,
    receive: u64,
)
    requires
        !l.is_open((maker, seed)),
        deposit <= l.balance(maker, mint_a),
    ensures
        ({
            let (r, after) = make_outcome(l, maker, mint_a, mint_b, seed, deposit, receive);
            &&& r == Ok::<(), EscrowError>(())
            &&& after.is_open((maker, seed))
            &&& after.trades[(maker, seed)] == Trade {
                escrow: Escrow { seed, maker, mint_a, mint_b, receive, bump: ESCROW_BUMP },
                vault: deposit,
            }
            &&& after.balance(maker, mint_a) == l.balance(maker, mint_a) - deposit
        }),
{
}

/// `make` at the address of a trade that is already open fails with
/// `Collision` and changes nothing.
pub proof fn lemma_make_collision(
    l: LedgerModel,
    maker: u64,
    mint_a: u64,
    mint_b: u64,
    seed: u64,
    deposit: u64,
    receive: u64,
)
    requires
        l.is_open((maker, seed)),
    ensures
        make_outcome(l, maker, mint_a, mint_b, seed, deposit, receive) == (
        Err::<(), EscrowError>(EscrowError::Collision),
        l,
        ),
{
}

/// `refund` by anyone but the trade's maker fails with `Authorization` and
/// changes nothing, the vault included.
pub proof fn lemma_refund_needs_maker(l: LedgerModel, caller: u64, key: TradeKey)
    requires
        l.is_open(key),
        caller != l.trades[key].escrow.maker,
    ensures
        refund_outcome(l, caller, key) == (Err::<(), EscrowError>(EscrowError::Authorization), l),
{
}

/// A `refund` of an open trade by its maker succeeds: the trade is closed,
/// the maker holds the vault's whole balance more of the offered asset, and
/// no other balance and no supply changes.
pub proof fn lemma_refund_returns_vault(l: LedgerModel, key: TradeKey)
    requires
        l.is_open(key),
    ensures
        ({
            let t = l.trades[key];
            let (r, after) = refund_outcome(l, t.escrow.maker, key);
            &&& r == Ok::<(), EscrowError>(())
            &&& !after.is_open(key)
            &&& after.balance(t.escrow.maker, t.escrow.mint_a) == l.balance(
                t.escrow.maker,
                t.escrow.mint_a,
            ) + t.vault
            &&& forall|owner: u64, mint: u64|
                (owner, mint) != (t.escrow.maker, t.escrow.mint_a) ==> after.balance(owner, mint)
                    == l.balance(owner, mint)
            &&& after.supply == l.supply
        }),
{
}

/// Right after a successful `make`, a `refund` by the maker succeeds, gives
/// back exactly the deposit, and leaves every balance and every trade as they
/// were before `make`.
pub proof fn lemma_make_then_refund(
    l: LedgerModel,
    maker: u64,
    mint_a: u64,
    mint_b: u64,
    seed: u64,
    deposit: u64,
    receive: u64,
)
    requires
        make_outcome(l, maker, mint_a, mint_b, seed, deposit, receive).0 is Ok,
    ensures
        ({
            let made = make_outcome(l, maker, mint_a, mint_b, seed, deposit, receive).1;
            let (r, after) = refund_outcome(made, maker, (maker, seed));
            &&& r == Ok::<(), EscrowError>(())
            &&& !after.is_open((maker, seed))
            &&& after.balance(maker, mint_a) == made.balance(maker, mint_a) + deposit
            &&& forall|owner: u64, mint: u64| after.balance(owner, mint) == l.balance(owner, mint)
            &&& after.trades == l.trades
        }),
{
    let made = make_outcome(l, maker, mint_a, mint_b, seed, deposit, receive).1;
    let after = refund_outcome(made, maker, (maker, seed)).1;
    assert(after.trades =~= l.trades);
}

/// A `take` of an open trade by a taker who holds at least the amount asked
/// succeeds and closes the trade, and the supply does not change. Where the
/// taker is not the maker and the two assets differ, the maker holds exactly
/// the amount asked more of the requested asset, and the taker holds the
/// vault's whole balance more of the offered asset and the amount asked less
/// of the requested one.
pub proof fn lemma_take_settles(l: LedgerModel, taker: u64, key: TradeKey)
    requires
        l.is_open(key),
        l.balance(taker, l.trades[key].escrow.mint_b) >= l.trades[key].escrow.receive,
    ensures
        ({
            let (r, after) = take_outcome(l, taker, key);
            let t = l.trades[key];
            let e = t.escrow;
            &&& r == Ok::<(), EscrowError>(())
            &&& !after.is_open(key)
            &&& after.supply == l.supply
            &&& taker != e.maker && e.mint_a != e.mint_b ==> {
                &&& after.balance(e.maker, e.mint_b) == l.balance(e.maker, e.mint_b) + e.receive
                &&& after.balance(taker, e.mint_a) == l.balance(taker, e.mint_a) + t.vault
                &&& after.balance(taker, e.mint_b) == l.balance(taker, e.mint_b) - e.receive
            }
        }),
{
}

/// Once no trade is open at `key`, every `take` and every `refund` of it
/// fails with `NotFound` and changes nothing.
pub proof fn lemma_closed_trade_rejects(l: LedgerModel, caller: u64, key: TradeKey)
    requires
        !l.is_open(key),
    ensures
        take_outcome(l, caller, key) == (Err::<(), EscrowError>(EscrowError::NotFound), l),
        refund_outcome(l, caller, key) == (Err::<(), EscrowError>(EscrowError::NotFound), l),
{
}

/// Of a `take` by a taker who holds the amount asked and a `refund` by the
/// maker of one open trade, whichever runs first succeeds and the other then
/// fails with `NotFound`: never both succeed, never both fail.
pub proof fn lemma_one_winner(l: LedgerModel, taker: u64, key: TradeKey)
    requires
        l.is_open(key),
        l.balance(taker, l.trades[key].escrow.mint_b) >= l.trades[key].escrow.receive,
    ensures
        ({
            let maker = l.trades[key].escrow.maker;
            let taken = take_outcome(l, taker, key);
            let refunded = refund_outcome(l, maker, key);
            &&& taken.0 == Ok::<(), EscrowError>(())
            &&& refund_outcome(taken.1, maker, key).0 == Err::<(), EscrowError>(
                EscrowError::NotFound,
            )
            &&& refunded.0 == Ok::<(), EscrowError>(())
            &&& take_outcome(refunded.1, taker, key).0 == Err::<(), EscrowError>(
                EscrowError::NotFound,
            )
        }),
{
}

/// An operation on one trade leaves every other open trade, its vault
/// included, exactly as it was.
pub proof fn lemma_other_trades_untouched(
    l: LedgerModel,
    key: TradeKey,
    other: TradeKey,
    caller: u64,
    mint_a: u64,
    mint_b: u64,
    deposit: u64,
    receive: u64,
)
    requires
        l.is_open(key),
        other != key,
    ensures
        ({
            let made = make_outcome(l, other.0, mint_a, mint_b, other.1, deposit, receive).1;
            let refunded = refund_outcome(l, caller, other).1;
            let taken = take_outcome(l, caller, other).1;
            &&& made.is_open(key) && made.trades[key] == l.trades[key]
            &&& refunded.is_open(key) && refunded.trades[key] == l.trades[key]
            &&& taken.is_open(key) && taken.trades[key] == l.trades[key]
        }),
{
}

} // verus!
