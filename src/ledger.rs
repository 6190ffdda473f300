//! The ledger: token balances keyed by owner and asset, and the open trades,
//! each an escrow record with the balance of its vault.
use vstd::prelude::*;
use crate::state::{Escrow, EscrowError, TradeKey};
use crate::sums::{
    all_nonneg, lemma_sum_bounds_element, lemma_sum_nonneg, lemma_sum_prefix, lemma_sum_push,
    lemma_sum_remove, lemma_sum_update, seq_sum,
};

verus! {

/// The balance that `owner` holds of asset `mint`.
#[derive(Clone, Copy, Debug)]
pub struct Holding {
    pub owner: u64,
    pub mint: u64,
    pub amount: u64,
}

/// An open trade: its record and the balance of its vault.
#[derive(Clone, Copy, Debug, PartialEq, Eq, Structural)]
pub struct Trade {
    pub escrow: Escrow,
    pub vault: u64,
}

/// What a ledger holds: each account's balance, the open trades by address,
/// and how much of each asset exists, all balances and vaults together. An
/// account missing from `balances` holds nothing.
pub ghost struct LedgerModel {
    pub balances: Map<(u64, u64), nat>,
    pub trades: Map<TradeKey, Trade>,
    pub supply: Map<u64, nat>,
}

impl LedgerModel {
    /// The amount of `mint` that `owner` holds.
    pub open spec fn balance(self, owner: u64, mint: u64) -> nat {
        if self.balances.contains_key((owner, mint)) {
            self.balances[(owner, mint)]
        } else {
            0
        }
    }

    /// Whether a trade is open at `key`.
    pub open spec fn is_open(self, key: TradeKey) -> bool {
        self.trades.contains_key(key)
    }

    /// The ledger with `amount` added to what `owner` holds of `mint`.
    pub open spec fn credit(self, owner: u64, mint: u64, amount: u64) -> LedgerModel {
        LedgerModel {
            balances: self.balances.insert((owner, mint), (self.balance(owner, mint) + amount) as nat),
            ..self
        }
    }

    /// The ledger with `amount` taken from what `owner` holds of `mint`.
    pub open spec fn debit(self, owner: u64, mint: u64, amount: u64) -> LedgerModel {
        LedgerModel {
            balances: self.balances.insert(
                (owner, mint),
                (self.balance(owner, mint) - amount) as nat,
            ),
            ..self
        }
    }
}

/// The account a holding belongs to: its owner and its asset.
pub open spec fn holding_key(h: Holding) -> (u64, u64) {
    (h.owner, h.mint)
}

/// The address of a trade's record, derived from its maker and seed.
pub open spec fn trade_key(t: Trade) -> TradeKey {
    (t.escrow.maker, t.escrow.seed)
}

/// `hs` holds distinct keys, and `m` is what it holds, by key.
pub open spec fn holdings_match(hs: Seq<Holding>, m: Map<(u64, u64), nat>) -> bool {
    &&& forall|i: int, j: int|
        0 <= i < hs.len() && 0 <= j < hs.len() && i != j
            ==> #[trigger] holding_key(hs[i]) != #[trigger] holding_key(hs[j])
    &&& forall|i: int|
        0 <= i < hs.len() ==> {
            &&& m.contains_key(#[trigger] holding_key(hs[i]))
            &&& m[holding_key(hs[i])] == hs[i].amount as nat
        }
    &&& forall|k: (u64, u64)|
        #[trigger] m.contains_key(k) ==> exists|i: int| 0 <= i < hs.len() && holding_key(hs[i]) == k
}

/// `ts` holds distinct keys, and `m` is what it holds, by key.
pub open spec fn trades_match(ts: Seq<Trade>, m: Map<TradeKey, Trade>) -> bool {
    &&& forall|i: int, j: int|
        0 <= i < ts.len() && 0 <= j < ts.len() && i != j
            ==> #[trigger] trade_key(ts[i]) != #[trigger] trade_key(ts[j])
    &&& forall|i: int|
        0 <= i < ts.len() ==> {
            &&& m.contains_key(#[trigger] trade_key(ts[i]))
            &&& m[trade_key(ts[i])] == ts[i]
        }
    &&& forall|k: TradeKey|
        #[trigger] m.contains_key(k) ==> exists|i: int| 0 <= i < ts.len() && trade_key(ts[i]) == k
}

/// What holding `h` contributes to the amount of `mint` in existence.
pub open spec fn held_part(h: Holding, mint: u64) -> int {
    if h.mint == mint {
        h.amount as int
    } else {
        0
    }
}

/// What trade `t`'s vault contributes to the amount of `mint` in existence.
pub open spec fn vault_part(t: Trade, mint: u64) -> int {
    if t.escrow.mint_a == mint {
        t.vault as int
    } else {
        0
    }
}

/// What each holding of `hs` contributes to the amount of `mint`.
pub open spec fn held_parts(hs: Seq<Holding>, mint: u64) -> Seq<int> {
    hs.map_values(|h: Holding| held_part(h, mint))
}

/// What each vault of `ts` contributes to the amount of `mint`.
pub open spec fn vault_parts(ts: Seq<Trade>, mint: u64) -> Seq<int> {
    ts.map_values(|t: Trade| vault_part(t, mint))
}

/// How much of `mint` the holdings `hs` and the vaults of `ts` hold together.
pub open spec fn issued(hs: Seq<Holding>, ts: Seq<Trade>, mint: u64) -> int {
    seq_sum(held_parts(hs, mint)) + seq_sum(vault_parts(ts, mint))
}

/// The ledger's state. Balances and trades are kept as lists with distinct
/// keys; `balances` and `open` are what those lists hold, by key.
pub struct Ledger {
    holdings: Vec<Holding>,
    trades: Vec<Trade>,
    balances: Ghost<Map<(u64, u64), nat>>,
    open: Ghost<Map<TradeKey, Trade>>,
}

impl View for Ledger {
    type V = LedgerModel;

    closed spec fn view(&self) -> LedgerModel {
        LedgerModel {
            balances: self.balances@,
            trades: self.open@,
            supply: Map::new(
                |m: u64| true,
                |m: u64| issued(self.holdings@, self.trades@, m) as nat,
            ),
        }
    }
}

impl Ledger {
    /// The lists hold distinct keys and match the model entry for entry.
    closed spec fn matches(&self) -> bool {
        &&& holdings_match(self.holdings@, self.balances@)
        &&& trades_match(self.trades@, self.open@)
    }

    /// The lists match the model, and of no asset does more exist than a
    /// balance can hold.
    pub closed spec fn wf(&self) -> bool {
        &&& self.matches()
        &&& forall|m: u64| #[trigger] issued(self.holdings@, self.trades@, m) <= u64::MAX
    }

    /// Of a well-formed ledger, no asset's supply passes the largest balance,
    /// and no balance or vault passes its asset's supply.
    pub proof fn lemma_supply_bounds(&self, owner: u64, mint: u64, key: TradeKey)
        requires
            self.wf(),
        ensures
            self@.supply.contains_key(mint),
            self@.supply[mint] <= u64::MAX,
            self@.balance(owner, mint) <= self@.supply[mint],
            self@.is_open(key) && self@.trades[key].escrow.mint_a == mint
                ==> self@.trades[key].vault <= self@.supply[mint],
    {
        self.lemma_parts(owner, mint);
        if self@.is_open(key) {
            let j = choose|j: int| 0 <= j < self.trades@.len() && trade_key(self.trades@[j]) == key;
            lemma_sum_bounds_element(vault_parts(self.trades@, mint), j);
        }
    }

    /// What a holding and the vaults add to the supply is at least zero, and
    /// `owner`'s balance of `mint` is at most what all holdings add.
    proof fn lemma_parts(&self, owner: u64, mint: u64)
        requires
            self.matches(),
        ensures
            all_nonneg(held_parts(self.holdings@, mint)),
            all_nonneg(vault_parts(self.trades@, mint)),
            seq_sum(vault_parts(self.trades@, mint)) >= 0,
            seq_sum(held_parts(self.holdings@, mint)) >= 0,
            self@.balance(owner, mint) <= seq_sum(held_parts(self.holdings@, mint)),
    {
        lemma_sum_nonneg(held_parts(self.holdings@, mint));
        lemma_sum_nonneg(vault_parts(self.trades@, mint));
        if self.balances@.contains_key((owner, mint)) {
            let i = choose|i: int|
                0 <= i < self.holdings@.len() && holding_key(self.holdings@[i]) == (owner, mint);
            lemma_sum_bounds_element(held_parts(self.holdings@, mint), i);
        }
    }

    /// An empty ledger: no balances, no trades, nothing issued.
    pub fn new() -> (r: Ledger)
        ensures
            r.wf(),
            r@.balances == Map::<(u64, u64), nat>::empty(),
            r@.trades == Map::<TradeKey, Trade>::empty(),
            forall|m: u64| r@.supply.contains_key(m) && #[trigger] r@.supply[m] == 0,
    {
        let r = Ledger {
            holdings: Vec::new(),
            trades: Vec::new(),
            balances: Ghost(Map::empty()),
            open: Ghost(Map::empty()),
        };
        assert forall|m: u64| #[trigger] issued(r.holdings@, r.trades@, m) == 0 by {
            assert(held_parts(r.holdings@, m).len() == 0);
            assert(vault_parts(r.trades@, m).len() == 0);
        }
        r
    }

    fn find_holding(&self, owner: u64, mint: u64) -> (r: Option<usize>)
        requires
            self.matches(),
        ensures
            match r {
                Some(i) => i < self.holdings@.len() && holding_key(self.holdings@[i as int])
                    == (owner, mint),
                None => !self@.balances.contains_key((owner, mint)),
            },
    {
        let mut i: usize = 0;
        while i < self.holdings.len()
            invariant
                self.matches(),
                i <= self.holdings@.len(),
                forall|j: int| 0 <= j < i ==> holding_key(self.holdings@[j]) != (owner, mint),
            decreases self.holdings@.len() - i,
        {
            if self.holdings[i].owner == owner && self.holdings[i].mint == mint {
                return Some(i);
            }
            i += 1;
        }
        None
    }

    fn balance_of(&self, owner: u64, mint: u64) -> (r: u64)
        requires
            self.matches(),
        ensures
            r == self@.balance(owner, mint),
    {
        match self.find_holding(owner, mint) {
            Some(i) => self.holdings[i].amount,
            None => 0,
        }
    }

    /// The amount of `mint` that `owner` holds.
    pub fn balance(&self, owner: u64, mint: u64) -> (r: u64)
        requires
            self.wf(),
        ensures
            r == self@.balance(owner, mint),
    {
        self.balance_of(owner, mint)
    }

    fn set_balance(&mut self, owner: u64, mint: u64, amount: u64)
        requires
            old(self).matches(),
        ensures
            final(self).matches(),
            final(self)@.balances == old(self)@.balances.insert((owner, mint), amount as nat),
            final(self)@.trades == old(self)@.trades,
            final(self).trades@ == old(self).trades@,
            forall|m: u64|
                #[trigger] seq_sum(held_parts(final(self).holdings@, m)) == seq_sum(
                    held_parts(old(self).holdings@, m),
                ) + if m == mint {
                    amount - old(self)@.balance(owner, mint)
                } else {
                    0
                },
    {
        let found = self.find_holding(owner, mint);
        let ghost old_h = self.holdings@;
        let h = Holding { owner, mint, amount };
        match found {
            Some(i) => {
                self.holdings.set(i, h);
                assert forall|m: u64|
                    #[trigger] seq_sum(held_parts(self.holdings@, m)) == seq_sum(held_parts(old_h, m))
                        - held_part(old_h[i as int], m) + held_part(h, m) by {
                    assert(held_parts(self.holdings@, m) =~= held_parts(old_h, m).update(
                        i as int,
                        held_part(h, m),
                    ));
                    lemma_sum_update(held_parts(old_h, m), i as int, held_part(h, m));
                }
            },
            None => {
                self.holdings.push(h);
                assert forall|m: u64|
                    #[trigger] seq_sum(held_parts(self.holdings@, m)) == seq_sum(held_parts(old_h, m))
                        + held_part(h, m) by {
                    assert(held_parts(self.holdings@, m) =~= held_parts(old_h, m).push(
                        held_part(h, m),
                    ));
                    lemma_sum_push(held_parts(old_h, m), held_part(h, m));
                }
            },
        }
        self.balances = Ghost(self.balances@.insert((owner, mint), amount as nat));
        assert forall|k: (u64, u64)| #[trigger] self.balances@.contains_key(k) implies exists|j: int|
            0 <= j < self.holdings@.len() && holding_key(self.holdings@[j]) == k by {
            if k != (owner, mint) {
                let j = choose|j: int| 0 <= j < old_h.len() && holding_key(old_h[j]) == k;
                assert(holding_key(self.holdings@[j]) == k);
            } else {
                match found {
                    Some(i) => assert(holding_key(self.holdings@[i as int]) == k),
                    None => assert(holding_key(self.holdings@[old_h.len() as int]) == k),
                }
            }
        }
    }

    /// Moves `amount` of `mint` from `from` to `to`; the supply is unchanged.
    pub(crate) fn transfer(&mut self, from: u64, to: u64, mint: u64, amount: u64)
        requires
            old(self).wf(),
            amount <= old(self)@.balance(from, mint),
        ensures
            final(self).wf(),
            final(self)@ == old(self)@.debit(from, mint, amount).credit(to, mint, amount),
    {
        let ghost before = *self;
        let b = self.balance_of(from, mint);
        self.set_balance(from, mint, b - amount);
        let ghost mid = *self;
        proof {
            mid.lemma_parts(to, mint);
            before.lemma_parts(to, mint);
            assert(issued(before.holdings@, before.trades@, mint) <= u64::MAX);
        }
        let c = self.balance_of(to, mint);
        self.set_balance(to, mint, c + amount);
        proof {
            assert forall|m: u64| #[trigger] issued(self.holdings@, self.trades@, m) == issued(
                before.holdings@,
                before.trades@,
                m,
            ) by {}
            assert(self@.balances =~= before@.debit(from, mint, amount).credit(
                to,
                mint,
                amount,
            ).balances);
            assert(self@.supply =~= before@.supply);
        }
    }

    /// Moves the deposit `t.vault` of `t`'s maker into the vault of the new
    /// trade `t`; the supply is unchanged.
    pub(crate) fn lock_deposit(&mut self, t: Trade)
        requires
            old(self).wf(),
            !old(self)@.is_open(trade_key(t)),
            t.vault <= old(self)@.balance(t.escrow.maker, t.escrow.mint_a),
        ensures
            final(self).wf(),
            final(self)@ == (LedgerModel {
                trades: old(self)@.trades.insert(trade_key(t), t),
                ..old(self)@.debit(t.escrow.maker, t.escrow.mint_a, t.vault)
            }),
    {
        let ghost before = *self;
        let b = self.balance_of(t.escrow.maker, t.escrow.mint_a);
        self.set_balance(t.escrow.maker, t.escrow.mint_a, b - t.vault);
        self.open_trade(t);
        proof {
            assert forall|m: u64| #[trigger] issued(self.holdings@, self.trades@, m) == issued(
                before.holdings@,
                before.trades@,
                m,
            ) by {}
            assert(self@.balances =~= before@.debit(t.escrow.maker, t.escrow.mint_a, t.vault).balances);
            assert(self@.supply =~= before@.supply);
        }
    }

    /// Closes the trade at `key` and pays its vault's whole balance to `to`;
    /// the supply is unchanged.
    pub(crate) fn release_vault(&mut self, key: TradeKey, to: u64) -> (r: Trade)
        requires
            old(self).wf(),
            old(self)@.is_open(key),
        ensures
            final(self).wf(),
            r == old(self)@.trades[key],
            final(self)@ == (LedgerModel {
                trades: old(self)@.trades.remove(key),
                ..old(self)@.credit(to, r.escrow.mint_a, r.vault)
            }),
    {
        let ghost before = *self;
        let t = self.close_trade(key);
        let ghost mid = *self;
        proof {
            mid.lemma_parts(to, t.escrow.mint_a);
            assert(issued(before.holdings@, before.trades@, t.escrow.mint_a) <= u64::MAX);
        }
        let b = self.balance_of(to, t.escrow.mint_a);
        self.set_balance(to, t.escrow.mint_a, b + t.vault);
        proof {
            assert forall|m: u64| #[trigger] issued(self.holdings@, self.trades@, m) == issued(
                before.holdings@,
                before.trades@,
                m,
            ) by {}
            assert(self@.balances =~= before@.credit(to, t.escrow.mint_a, t.vault).balances);
            assert(self@.supply =~= before@.supply);
        }
        t
    }

    /// How much of `mint` exists, all balances and vaults together.
    fn supply_of(&self, mint: u64) -> (r: u64)
        requires
            self.wf(),
        ensures
            r == self@.supply[mint],
    {
        proof {
            self.lemma_parts(0, mint);
            assert(issued(self.holdings@, self.trades@, mint) <= u64::MAX);
        }
        let ghost hp = held_parts(self.holdings@, mint);
        let ghost vp = vault_parts(self.trades@, mint);
        let mut total: u64 = 0;
        let mut i: usize = 0;
        while i < self.holdings.len()
            invariant
                self.wf(),
                hp == held_parts(self.holdings@, mint),
                all_nonneg(hp),
                seq_sum(vp) >= 0,
                vp == vault_parts(self.trades@, mint),
                seq_sum(hp) + seq_sum(vp) <= u64::MAX,
                i <= self.holdings@.len(),
                total == seq_sum(hp.subrange(0, i as int)),
            decreases self.holdings@.len() - i,
        {
            proof {
                lemma_sum_prefix(hp, i + 1);
                lemma_sum_prefix(hp, i as int);
            }
            if self.holdings[i].mint == mint {
                total = total + self.holdings[i].amount;
            }
            i += 1;
        }
        proof {
            assert(hp.subrange(0, hp.len() as int) =~= hp);
        }
        let mut j: usize = 0;
        while j < self.trades.len()
            invariant
                self.wf(),
                vp == vault_parts(self.trades@, mint),
                all_nonneg(vp),
                seq_sum(hp) + seq_sum(vp) <= u64::MAX,
                j <= self.trades@.len(),
                total == seq_sum(hp) + seq_sum(vp.subrange(0, j as int)),
            decreases self.trades@.len() - j,
        {
            proof {
                lemma_sum_prefix(vp, j + 1);
                lemma_sum_prefix(vp, j as int);
            }
            if self.trades[j].escrow.mint_a == mint {
                total = total + self.trades[j].vault;
            }
            j += 1;
        }
        proof {
            assert(vp.subrange(0, vp.len() as int) =~= vp);
        }
        total
    }

    /// Issues `amount` of `mint` to `owner`; fails with `Overflow`, changing
    /// nothing, where the asset's supply would pass the largest balance.
    pub fn mint_to(&mut self, owner: u64, mint: u64, amount: u64) -> (r: Result<(), EscrowError>)
        requires
            old(self).wf(),
        ensures
            final(self).wf(),
            old(self)@.supply[mint] + amount <= u64::MAX ==> r == Ok::<(), EscrowError>(())
                && final(self)@ == (LedgerModel {
                supply: old(self)@.supply.insert(mint, (old(self)@.supply[mint] + amount) as nat),
                ..old(self)@.credit(owner, mint, amount)
            }),
            old(self)@.supply[mint] + amount > u64::MAX ==> r == Err::<(), EscrowError>(
                EscrowError::Overflow,
            ) && final(self)@ == old(self)@,
    {
        let s = self.supply_of(mint);
        if s > u64::MAX - amount {
            return Err(EscrowError::Overflow);
        }
        let ghost before = *self;
        proof {
            self.lemma_parts(owner, mint);
        }
        let b = self.balance_of(owner, mint);
        self.set_balance(owner, mint, b + amount);
        proof {
            assert forall|m: u64| #[trigger] issued(self.holdings@, self.trades@, m) == issued(
                before.holdings@,
                before.trades@,
                m,
            ) + if m == mint {
                amount as int
            } else {
                0
            } by {}
            assert(self@.balances =~= before@.credit(owner, mint, amount).balances);
            assert(self@.supply =~= before@.supply.insert(mint, (before@.supply[mint] + amount) as nat));
        }
        Ok(())
    }

    fn find_trade(&self, key: TradeKey) -> (r: Option<usize>)
        requires
            self.matches(),
        ensures
            match r {
                Some(i) => i < self.trades@.len() && trade_key(self.trades@[i as int]) == key
                    && self@.trades.contains_key(key) && self@.trades[key] == self.trades@[i as int],
                None => !self@.trades.contains_key(key),
            },
    {
        let mut i: usize = 0;
        while i < self.trades.len()
            invariant
                self.matches(),
                i <= self.trades@.len(),
                forall|j: int| 0 <= j < i ==> trade_key(self.trades@[j]) != key,
            decreases self.trades@.len() - i,
        {
            if self.trades[i].escrow.maker == key.0 && self.trades[i].escrow.seed == key.1 {
                return Some(i);
            }
            i += 1;
        }
        None
    }

    /// The open trade at `key`, if any.
    pub fn trade(&self, key: TradeKey) -> (r: Option<Trade>)
        requires
            self.wf(),
        ensures
            match r {
                Some(t) => self@.trades.contains_key(key) && self@.trades[key] == t,
                None => !self@.trades.contains_key(key),
            },
    {
        match self.find_trade(key) {
            Some(i) => Some(self.trades[i]),
            None => None,
        }
    }

    /// Records `t` as open at its own address, which holds no trade yet.
    fn open_trade(&mut self, t: Trade)
        requires
            old(self).matches(),
            !old(self)@.trades.contains_key(trade_key(t)),
        ensures
            final(self).matches(),
            final(self)@.balances == old(self)@.balances,
            final(self)@.trades == old(self)@.trades.insert(trade_key(t), t),
            final(self).holdings@ == old(self).holdings@,
            forall|m: u64|
                #[trigger] seq_sum(vault_parts(final(self).trades@, m)) == seq_sum(
                    vault_parts(old(self).trades@, m),
                ) + vault_part(t, m),
    {
        let ghost old_t = self.trades@;
        self.trades.push(t);
        self.open = Ghost(self.open@.insert(trade_key(t), t));
        assert forall|m: u64|
            #[trigger] seq_sum(vault_parts(self.trades@, m)) == seq_sum(vault_parts(old_t, m))
                + vault_part(t, m) by {
            assert(vault_parts(self.trades@, m) =~= vault_parts(old_t, m).push(vault_part(t, m)));
            lemma_sum_push(vault_parts(old_t, m), vault_part(t, m));
        }
        assert forall|i: int, j: int|
            0 <= i < self.trades@.len() && 0 <= j < self.trades@.len() && i != j
                implies trade_key(self.trades@[i]) != trade_key(self.trades@[j]) by {
            if i == old_t.len() {
                assert(old(self).open@.contains_key(trade_key(old_t[j])));
            } else if j == old_t.len() {
                assert(old(self).open@.contains_key(trade_key(old_t[i])));
            }
        }
        assert forall|a: int| 0 <= a < self.trades@.len() implies {
            &&& self.open@.contains_key(#[trigger] trade_key(self.trades@[a]))
            &&& self.open@[trade_key(self.trades@[a])] == self.trades@[a]
        } by {
            if a < old_t.len() {
                assert(self.trades@[a] == old_t[a]);
                assert(old(self).open@.contains_key(trade_key(old_t[a])));
            }
        }
        assert forall|k: TradeKey| #[trigger] self.open@.contains_key(k) implies exists|j: int|
            0 <= j < self.trades@.len() && trade_key(self.trades@[j]) == k by {
            if k != trade_key(t) {
                let j = choose|j: int| 0 <= j < old_t.len() && trade_key(old_t[j]) == k;
                assert(trade_key(self.trades@[j]) == k);
            } else {
                assert(trade_key(self.trades@[old_t.len() as int]) == k);
            }
        }
        assert(self.matches());
    }

    /// Removes the open trade at `key` and hands it back.
    fn close_trade(&mut self, key: TradeKey) -> (r: Trade)
        requires
            old(self).matches(),
            old(self)@.trades.contains_key(key),
        ensures
            final(self).matches(),
            r == old(self)@.trades[key],
            final(self)@.balances == old(self)@.balances,
            final(self)@.trades == old(self)@.trades.remove(key),
            final(self).holdings@ == old(self).holdings@,
            forall|m: u64|
                #[trigger] seq_sum(vault_parts(final(self).trades@, m)) == seq_sum(
                    vault_parts(old(self).trades@, m),
                ) - vault_part(r, m),
    {
        let i = match self.find_trade(key) {
            Some(i) => i,
            None => {
                proof {
                    assert(false);
                }
                0
            },
        };
        let ghost old_t = self.trades@;
        let t = self.trades.remove(i);
        self.open = Ghost(self.open@.remove(key));
        assert forall|m: u64|
            #[trigger] seq_sum(vault_parts(self.trades@, m)) == seq_sum(vault_parts(old_t, m))
                - vault_part(t, m) by {
            assert(vault_parts(self.trades@, m) =~= vault_parts(old_t, m).remove(i as int));
            lemma_sum_remove(vault_parts(old_t, m), i as int);
        }
        assert forall|a: int, b: int|
            0 <= a < self.trades@.len() && 0 <= b < self.trades@.len() && a != b
                implies trade_key(self.trades@[a]) != trade_key(self.trades@[b]) by {
            let a0 = if a < i { a } else { a + 1 };
            let b0 = if b < i { b } else { b + 1 };
            assert(self.trades@[a] == old_t[a0]);
            assert(self.trades@[b] == old_t[b0]);
        }
        assert forall|a: int| 0 <= a < self.trades@.len() implies {
            &&& self.open@.contains_key(#[trigger] trade_key(self.trades@[a]))
            &&& self.open@[trade_key(self.trades@[a])] == self.trades@[a]
        } by {
            let a0 = if a < i { a } else { a + 1 };
            assert(self.trades@[a] == old_t[a0]);
            assert(a0 != i);
        }
        assert forall|k: TradeKey| #[trigger] self.open@.contains_key(k) implies exists|j: int|
            0 <= j < self.trades@.len() && trade_key(self.trades@[j]) == k by {
            let j = choose|j: int| 0 <= j < old_t.len() && trade_key(old_t[j]) == k;
            assert(j != i);
            if j < i {
                assert(self.trades@[j] == old_t[j]);
            } else {
                assert(self.trades@[j - 1] == old_t[j]);
            }
        }
        t
    }
}

} // verus!
