//! Global accounts: deposits held outside any single market that back
//! "global" resting orders.
//!
//! A global account keeps two indices in one arena: traders ordered by key,
//! and their deposits ordered by balance descending, so the index's best
//! entry is the largest balance and its worst the smallest (the candidate
//! for eviction). A trader block links to its deposit block by index.
//! Reading a balance never fails: an absent trader simply backs nothing.

use vstd::prelude::*;

use crate::account_key::{AccountKey, key_le};
use crate::arena::Arena;
use crate::constants::{GLOBAL_FIXED_DISCRIMINANT, MAX_GLOBAL_SEATS, NIL};
use crate::error::ManifestError;
use crate::ordered::{
    OrderedList, OrderedPayload, lemma_insert_contains, lemma_list_frame, list_insert,
    list_lookup, list_wf, payloads,
};
use crate::quantities::GlobalAtoms;
use crate::validation::ManifestAccount;

verus! {

#[derive(Clone, Copy, Debug)]
pub struct GlobalTrader {
    /// Trader who controls this global seat.
    pub trader: AccountKey,
    /// Arena index of this trader's deposit entry.
    pub deposit_index: u32,
}

impl GlobalTrader {
    pub fn new_empty(trader: AccountKey, deposit_index: u32) -> (r: Self)
        ensures
            r.trader == trader,
            r.deposit_index == deposit_index,
    {
        GlobalTrader { trader, deposit_index }
    }
}

#[derive(Clone, Copy, Debug)]
pub struct GlobalDeposit {
    /// Trader who controls this deposit.
    pub trader: AccountKey,
    /// Token balance backing this trader's global orders. Tokens received
    /// in trades stay in the market.
    pub balance_atoms: GlobalAtoms,
}

#[derive(Clone, Copy, Debug)]
pub enum GlobalPayload {
    Trader(GlobalTrader),
    Deposit(GlobalDeposit),
}

impl OrderedPayload for GlobalPayload {
    open spec fn before_spec(self, other: Self) -> bool {
        match (self, other) {
            (GlobalPayload::Trader(x), GlobalPayload::Trader(y)) => key_le(x.trader, y.trader),
            // Reversed, so the index's worst entry is the smallest balance.
            (GlobalPayload::Deposit(x), GlobalPayload::Deposit(y)) => x.balance_atoms.atoms
                >= y.balance_atoms.atoms,
            (GlobalPayload::Trader(_), GlobalPayload::Deposit(_)) => true,
            (GlobalPayload::Deposit(_), GlobalPayload::Trader(_)) => false,
        }
    }

    open spec fn key_match_spec(self, other: Self) -> bool {
        match (self, other) {
            (GlobalPayload::Trader(x), GlobalPayload::Trader(y)) => x.trader == y.trader,
            (GlobalPayload::Deposit(x), GlobalPayload::Deposit(y)) => x.trader == y.trader,
            _ => false,
        }
    }

    proof fn lemma_before_total(a: Self, b: Self) {
    }

    proof fn lemma_before_trans(a: Self, b: Self, c: Self) {
    }

    fn before(&self, other: &Self) -> (r: bool) {
        match (self, other) {
            (GlobalPayload::Trader(x), GlobalPayload::Trader(y)) => x.trader.le(&y.trader),
            (GlobalPayload::Deposit(x), GlobalPayload::Deposit(y)) => x.balance_atoms.atoms
                >= y.balance_atoms.atoms,
            (GlobalPayload::Trader(_), GlobalPayload::Deposit(_)) => true,
            (GlobalPayload::Deposit(_), GlobalPayload::Trader(_)) => false,
        }
    }

    fn key_match(&self, other: &Self) -> (r: bool) {
        match (self, other) {
            (GlobalPayload::Trader(x), GlobalPayload::Trader(y)) => x.trader.same(&y.trader),
            (GlobalPayload::Deposit(x), GlobalPayload::Deposit(y)) => x.trader.same(&y.trader),
            _ => false,
        }
    }
}

/// The fixed header of a global account.
#[derive(Clone, Copy, Debug)]
pub struct GlobalFixed {
    /// Discriminant identifying this type of account.
    pub discriminant: u64,
    /// Mint for this global account.
    pub mint: AccountKey,
    /// Vault address, derived outside and passed in as configuration.
    pub vault: AccountKey,
    pub vault_bump: u8,
    pub global_bump: u8,
    pub num_seats_claimed: u16,
}

impl GlobalFixed {
    /// A fresh header. Vault address and bumps are derived from the mint by
    /// the caller layer and handed in as plain values.
    pub fn new_empty(mint: AccountKey, vault: AccountKey, vault_bump: u8, global_bump: u8) -> (r:
        Self)
        ensures
            r.discriminant == GLOBAL_FIXED_DISCRIMINANT,
            r.mint == mint,
            r.vault == vault,
            r.vault_bump == vault_bump,
            r.global_bump == global_bump,
            r.num_seats_claimed == 0,
    {
        GlobalFixed {
            discriminant: GLOBAL_FIXED_DISCRIMINANT,
            mint,
            vault,
            vault_bump,
            global_bump,
            num_seats_claimed: 0,
        }
    }

    pub fn get_mint(&self) -> (r: &AccountKey)
        ensures
            *r == self.mint,
    {
        &self.mint
    }

    pub fn get_vault(&self) -> (r: &AccountKey)
        ensures
            *r == self.vault,
    {
        &self.vault
    }

    pub fn get_vault_bump(&self) -> (r: u8)
        ensures
            r == self.vault_bump,
    {
        self.vault_bump
    }
}

impl ManifestAccount for GlobalFixed {
    open spec fn discriminant_ok(self) -> bool {
        self.discriminant == GLOBAL_FIXED_DISCRIMINANT
    }

    fn verify_discriminant(&self) -> (r: Result<(), ManifestError>) {
        if self.discriminant == GLOBAL_FIXED_DISCRIMINANT {
            Ok(())
        } else {
            Err(ManifestError::InvalidAccountData)
        }
    }
}

/// A whole global account: fixed header plus the block region.
pub struct Global {
    pub fixed: GlobalFixed,
    pub arena: Arena<GlobalPayload>,
    pub traders: OrderedList,
    pub deposits: OrderedList,
}

impl Global {
    pub open spec fn traders_view(self) -> Seq<GlobalTrader> {
        payloads(self.traders, self.arena).map(|_k: int, p: GlobalPayload| p->Trader_0)
    }

    pub open spec fn has_global_trader(self, trader: AccountKey) -> bool {
        exists|k: int|
            0 <= k < self.traders_view().len() && self.traders_view()[k].trader == trader
    }

    /// The deposited balance backing `trader`, zero when the trader is
    /// absent (for example after an eviction).
    pub open spec fn balance_of(self, trader: AccountKey) -> u64 {
        if self.has_global_trader(trader) {
            let k = choose|k: int|
                0 <= k < self.traders_view().len() && self.traders_view()[k].trader == trader;
            self.arena.payload_of(
                self.traders_view()[k].deposit_index,
            )->Deposit_0.balance_atoms.atoms
        } else {
            0
        }
    }

    pub open spec fn traders_ok(self) -> bool {
        &&& (forall|k: int|
            0 <= k < self.traders.elems@.len() ==> {
                let p = #[trigger] payloads(self.traders, self.arena)[k];
                &&& p is Trader
                &&& self.deposits.elems@.contains(p->Trader_0.deposit_index)
                &&& self.arena.payload_of(p->Trader_0.deposit_index)->Deposit_0.trader
                    == p->Trader_0.trader
            })
        &&& (forall|j: int, k: int|
            0 <= j < k < self.traders.elems@.len() ==> payloads(
                self.traders,
                self.arena,
            )[j]->Trader_0.trader != payloads(self.traders, self.arena)[k]->Trader_0.trader)
    }

    pub open spec fn deposits_ok(self) -> bool {
        forall|k: int|
            0 <= k < self.deposits.elems@.len() ==> (#[trigger] payloads(
                self.deposits,
                self.arena,
            )[k]) is Deposit
    }

    pub open spec fn partition_ok(self) -> bool {
        &&& (forall|i: u32|
            #[trigger] self.arena.is_live(i) ==> self.traders.elems@.contains(i)
                || self.deposits.elems@.contains(i))
        &&& (forall|j: int, k: int|
            0 <= j < self.traders.elems@.len() && 0 <= k < self.deposits.elems@.len()
                ==> #[trigger] self.traders.elems@[j] != #[trigger] self.deposits.elems@[k])
    }

    pub open spec fn inv(self) -> bool {
        &&& self.arena.wf()
        &&& list_wf(self.traders, self.arena)
        &&& list_wf(self.deposits, self.arena)
        &&& self.traders_ok()
        &&& self.deposits_ok()
        &&& self.partition_ok()
    }

    /// An empty global account over `capacity_blocks` blocks.
    pub fn new_empty(
        mint: AccountKey,
        vault: AccountKey,
        vault_bump: u8,
        global_bump: u8,
        capacity_blocks: u32,
    ) -> (r: Global)
        requires
            capacity_blocks < NIL,
        ensures
            r.inv(),
            r.fixed.discriminant == GLOBAL_FIXED_DISCRIMINANT,
            r.fixed.mint == mint,
            r.fixed.vault == vault,
            r.traders_view().len() == 0,
            forall|t: AccountKey| r.balance_of(t) == 0,
    {
        Global {
            fixed: GlobalFixed::new_empty(mint, vault, vault_bump, global_bump),
            arena: Arena::new(capacity_blocks),
            traders: OrderedList::new(),
            deposits: OrderedList::new(),
        }
    }

    /// Registers `trader` with its deposited balance; fails when the trader
    /// is already seated, all global seats are taken, or fewer than two
    /// blocks are available for the trader and deposit entries.
    pub fn add_trader(&mut self, trader: AccountKey, balance: GlobalAtoms) -> (r: Result<
        (),
        ManifestError,
    >)
        requires
            old(self).inv(),
        ensures
            final(self).inv(),
            match r {
                Ok(_) => {
                    &&& !old(self).has_global_trader(trader)
                    &&& final(self).has_global_trader(trader)
                    &&& final(self).balance_of(trader) == balance.atoms
                    &&& final(self).fixed == (GlobalFixed {
                        num_seats_claimed: (old(self).fixed.num_seats_claimed + 1) as u16,
                        ..old(self).fixed
                    })
                },
                Err(e) => {
                    &&& *final(self) == *old(self)
                    &&& (e == ManifestError::AlreadyClaimedSeat <==> old(self).has_global_trader(
                        trader,
                    ))
                },
            },
    {
        let probe = GlobalPayload::Trader(GlobalTrader { trader, deposit_index: NIL });
        let found: u32 = list_lookup(&self.traders, &self.arena, &probe);
        if found != NIL {
            proof {
                let j = choose|j: int|
                    0 <= j < self.traders.elems@.len() && self.traders.elems@[j] == found
                        && payloads(self.traders, self.arena)[j].key_match_spec(probe) && (forall|
                        j2: int,
                    |
                        0 <= j2 < j ==> !payloads(self.traders, self.arena)[j2].key_match_spec(
                            probe,
                        ));
                assert(self.traders_view()[j].trader == trader);
            }
            return Err(ManifestError::AlreadyClaimedSeat);
        }
        proof {
            if old(self).has_global_trader(trader) {
                let k = choose|k: int|
                    0 <= k < self.traders_view().len() && self.traders_view()[k].trader == trader;
                assert(payloads(self.traders, self.arena)[k].key_match_spec(probe));
                assert(false);
            }
        }
        if self.fixed.num_seats_claimed >= MAX_GLOBAL_SEATS {
            return Err(ManifestError::CapacityExhausted);
        }
        let enough: bool = if self.arena.has_two_free() {
            true
        } else if self.arena.has_free_head() {
            self.arena.num_allocated < self.arena.blocks.len() as u32
        } else {
            self.arena.num_allocated < u32::MAX && self.arena.num_allocated + 1
                < self.arena.blocks.len() as u32
        };
        if !enough {
            return Err(ManifestError::CapacityExhausted);
        }
        let deposit = GlobalPayload::Deposit(GlobalDeposit { trader, balance_atoms: balance });
        let ghost pre = *self;
        let (dres, dpos_g) = list_insert(&mut self.deposits, &mut self.arena, deposit);
        let dep_idx: u32 = match dres {
            Ok(i) => i,
            Err(_) => vstd::pervasive::unreached(),
        };
        proof {
            lemma_global_deposit_insert(pre, *self, deposit, dep_idx, dpos_g@);
        }
        let ghost mid = *self;
        let entry = GlobalTrader { trader, deposit_index: dep_idx };
        let (tres, tpos_g) = list_insert(
            &mut self.traders,
            &mut self.arena,
            GlobalPayload::Trader(entry),
        );
        let trader_idx: u32 = match tres {
            Ok(i) => i,
            Err(_) => vstd::pervasive::unreached(),
        };
        self.fixed.num_seats_claimed = self.fixed.num_seats_claimed + 1;
        proof {
            lemma_global_trader_insert(mid, *self, entry, trader_idx, tpos_g@);
            assert(!mid.has_global_trader(trader)) by {
                if mid.has_global_trader(trader) {
                    let k = choose|k: int|
                        0 <= k < mid.traders_view().len() && mid.traders_view()[k].trader
                            == trader;
                    assert(pre.traders_view() =~= mid.traders_view());
                    assert(false);
                }
            }
            assert(self.balance_of(trader) == balance.atoms) by {
                let k = choose|k: int|
                    0 <= k < self.traders_view().len() && self.traders_view()[k].trader == trader;
                let pos = tpos_g@;
                if k != pos {
                    let km = if k < pos {
                        k
                    } else {
                        k - 1
                    };
                    assert(payloads(self.traders, self.arena)[k] == payloads(
                        mid.traders,
                        mid.arena,
                    )[km]);
                    assert(mid.traders_view()[km].trader == trader);
                    assert(false);
                }
                assert(self.traders_view()[k].deposit_index == dep_idx);
                assert(self.arena.payload_of(dep_idx) == deposit);
            }
        }
        Ok(())
    }

    /// The balance backing `trader`'s global orders; zero when the trader
    /// was never registered or has been evicted.
    pub fn get_balance_atoms(&self, trader: &AccountKey) -> (r: GlobalAtoms)
        requires
            self.inv(),
        ensures
            r.atoms == self.balance_of(*trader),
    {
        let probe = GlobalPayload::Trader(GlobalTrader { trader: *trader, deposit_index: NIL });
        let found: u32 = list_lookup(&self.traders, &self.arena, &probe);
        if found == NIL {
            proof {
                if self.has_global_trader(*trader) {
                    let k = choose|k: int|
                        0 <= k < self.traders_view().len() && self.traders_view()[k].trader
                            == *trader;
                    assert(payloads(self.traders, self.arena)[k].key_match_spec(probe));
                    assert(false);
                }
            }
            return GlobalAtoms::new(0);
        }
        proof {
            let j = choose|j: int|
                0 <= j < self.traders.elems@.len() && self.traders.elems@[j] == found && payloads(
                    self.traders,
                    self.arena,
                )[j].key_match_spec(probe) && (forall|j2: int|
                    0 <= j2 < j ==> !payloads(self.traders, self.arena)[j2].key_match_spec(probe));
            assert(self.traders_view()[j].trader == *trader);
            assert(self.has_global_trader(*trader));
            let k = choose|k: int|
                0 <= k < self.traders_view().len() && self.traders_view()[k].trader == *trader;
            if k != j {
                assert(payloads(self.traders, self.arena)[k]->Trader_0.trader == payloads(
                    self.traders,
                    self.arena,
                )[j]->Trader_0.trader);
                assert(false);
            }
            assert(self.arena.is_live(found));
            assert(payloads(self.traders, self.arena)[j] == self.arena.payload_of(found));
        }
        let entry: GlobalTrader = match self.arena.get_payload(found) {
            GlobalPayload::Trader(t) => *t,
            _ => vstd::pervasive::unreached(),
        };
        proof {
            let j = choose|j: int|
                0 <= j < self.traders.elems@.len() && self.traders.elems@[j] == found && payloads(
                    self.traders,
                    self.arena,
                )[j].key_match_spec(probe);
            assert(self.deposits.elems@.contains(entry.deposit_index));
            let dk = choose|dk: int|
                0 <= dk < self.deposits.elems@.len() && self.deposits.elems@[dk]
                    == entry.deposit_index;
            assert(self.arena.is_live(entry.deposit_index));
            assert(payloads(self.deposits, self.arena)[dk] is Deposit);
        }
        match self.arena.get_payload(entry.deposit_index) {
            GlobalPayload::Deposit(d) => d.balance_atoms,
            _ => vstd::pervasive::unreached(),
        }
    }
}

/// The context a matching call holds about the global account that could
/// back a side's global orders.
#[derive(Clone, Copy)]
pub enum GlobalBacking<'a> {
    /// No global accounts were supplied: a global order blocks the walk.
    Missing,
    /// Accounts were supplied but the ledger is exclusively held elsewhere
    /// in the call graph; conservatively nothing is backed.
    Contended,
    /// A readable ledger.
    Ledger(&'a Global),
}

/// What must hold of a backing context before it is consulted.
pub open spec fn backing_inv(b: GlobalBacking) -> bool {
    match b {
        GlobalBacking::Ledger(g) => g.inv(),
        _ => true,
    }
}

/// Whether `b` can back `desired` atoms for `trader`.
pub open spec fn can_back_spec(b: GlobalBacking, trader: AccountKey, desired: u64) -> bool {
    match b {
        GlobalBacking::Missing => false,
        GlobalBacking::Contended => false,
        GlobalBacking::Ledger(g) => desired <= g.balance_of(trader),
    }
}

/// Whether the global deposit behind a resting order covers the amount the
/// current match would need.
pub fn can_back_order(
    global_backing: &GlobalBacking<'_>,
    resting_order_trader: AccountKey,
    desired_global_atoms: GlobalAtoms,
) -> (r: bool)
    requires
        backing_inv(*global_backing),
    ensures
        r == can_back_spec(*global_backing, resting_order_trader, desired_global_atoms.atoms),
{
    match global_backing {
        GlobalBacking::Missing => false,
        GlobalBacking::Contended => false,
        GlobalBacking::Ledger(g) => {
            let num_deposited: GlobalAtoms = g.get_balance_atoms(&resting_order_trader);
            desired_global_atoms.atoms <= num_deposited.atoms
        },
    }
}

/// After a deposit entry is inserted, the global invariant holds again and
/// the traders index is untouched.
#[verifier::rlimit(100)]
proof fn lemma_global_deposit_insert(
    pre: Global,
    post: Global,
    payload: GlobalPayload,
    idx: u32,
    pos: int,
)
    requires
        pre.inv(),
        payload is Deposit,
        post.fixed == pre.fixed,
        post.traders == pre.traders,
        post.arena.wf(),
        list_wf(post.deposits, post.arena),
        0 <= pos <= pre.deposits.elems@.len(),
        post.deposits.elems@ == pre.deposits.elems@.insert(pos, idx),
        payloads(post.deposits, post.arena) == payloads(pre.deposits, pre.arena).insert(
            pos,
            payload,
        ),
        !pre.arena.is_live(idx),
        post.arena.is_live(idx),
        forall|i: u32| pre.arena.is_live(i) ==> #[trigger] post.arena.is_live(i),
        forall|i: u32| #[trigger] post.arena.is_live(i) ==> pre.arena.is_live(i) || i == idx,
        forall|i: u32|
            pre.arena.is_live(i) && !pre.deposits.elems@.contains(i)
                ==> #[trigger] post.arena.blocks@[i as int] == pre.arena.blocks@[i as int],
        post.arena.num_allocated >= pre.arena.num_allocated,
        post.arena.blocks@.len() >= pre.arena.blocks@.len(),
    ensures
        post.inv(),
        post.traders_view() == pre.traders_view(),
        post.arena.payload_of(idx) == payload,
        payloads(post.traders, post.arena) == payloads(pre.traders, pre.arena),
{
    lemma_insert_contains(pre.deposits.elems@, pos, idx);
    assert forall|k: int|
        0 <= k < pre.traders.elems@.len() implies post.arena.blocks@[#[trigger] pre.traders.elems@[k] as int]
        == pre.arena.blocks@[pre.traders.elems@[k] as int] by {
        assert(pre.arena.is_live(pre.traders.elems@[k]));
        if pre.deposits.elems@.contains(pre.traders.elems@[k]) {
            let j = choose|j: int|
                0 <= j < pre.deposits.elems@.len() && pre.deposits.elems@[j]
                    == pre.traders.elems@[k];
            assert(false);
        }
    }
    lemma_list_frame(pre.traders, pre.arena, post.arena);
    assert(post.traders_view() =~= pre.traders_view());
    assert(post.arena.payload_of(idx) == payloads(post.deposits, post.arena)[pos]);
    assert forall|k: int|
        0 <= k < post.deposits.elems@.len() implies (#[trigger] payloads(
        post.deposits,
        post.arena,
    )[k]) is Deposit by {
        if k > pos {
            assert(payloads(post.deposits, post.arena)[k] == payloads(pre.deposits, pre.arena)[k
                - 1]);
        }
    }
    assert forall|k: int|
        0 <= k < post.traders.elems@.len() implies {
        let p = #[trigger] payloads(post.traders, post.arena)[k];
        &&& p is Trader
        &&& post.deposits.elems@.contains(p->Trader_0.deposit_index)
        &&& post.arena.payload_of(p->Trader_0.deposit_index)->Deposit_0.trader
            == p->Trader_0.trader
    } by {
        assert(payloads(post.traders, post.arena)[k] == payloads(pre.traders, pre.arena)[k]);
        let di = payloads(pre.traders, pre.arena)[k]->Trader_0.deposit_index;
        assert(pre.deposits.elems@.contains(di));
        assert(pre.deposits.elems@.insert(pos, idx).contains(di));
        let dj = choose|dj: int|
            0 <= dj < pre.deposits.elems@.len() && pre.deposits.elems@[dj] == di;
        let djp = if dj < pos {
            dj
        } else {
            dj + 1
        };
        assert(post.deposits.elems@[djp] == di);
        assert(payloads(post.deposits, post.arena)[djp] == payloads(pre.deposits, pre.arena)[dj]);
        assert(post.arena.payload_of(di) == pre.arena.payload_of(di));
    }
    assert forall|i: u32| #[trigger] post.arena.is_live(i) implies post.traders.elems@.contains(i)
        || post.deposits.elems@.contains(i) by {
        if i != idx {
            assert(pre.arena.is_live(i));
            if pre.deposits.elems@.contains(i) {
                assert(pre.deposits.elems@.insert(pos, idx).contains(i));
            }
        }
    }
    assert forall|j: int, k: int|
        0 <= j < post.traders.elems@.len() && 0 <= k < post.deposits.elems@.len() implies #[trigger] post.traders.elems@[j]
        != #[trigger] post.deposits.elems@[k] by {
        if post.deposits.elems@[k] == idx {
            assert(pre.arena.is_live(pre.traders.elems@[j]));
        } else {
            assert(pre.deposits.elems@.contains(post.deposits.elems@[k]));
            let k2 = choose|k2: int|
                0 <= k2 < pre.deposits.elems@.len() && pre.deposits.elems@[k2]
                    == post.deposits.elems@[k];
        }
    }
    assert forall|j: int, k: int|
        0 <= j < k < post.traders.elems@.len() implies payloads(
        post.traders,
        post.arena,
    )[j]->Trader_0.trader != payloads(post.traders, post.arena)[k]->Trader_0.trader by {
        assert(payloads(post.traders, post.arena)[j] == payloads(pre.traders, pre.arena)[j]);
        assert(payloads(post.traders, post.arena)[k] == payloads(pre.traders, pre.arena)[k]);
    }
}

/// After a trader entry is inserted, the global invariant holds again and
/// the new entry is visible in the traders index.
#[verifier::rlimit(100)]
proof fn lemma_global_trader_insert(
    pre: Global,
    post: Global,
    entry: GlobalTrader,
    idx: u32,
    pos: int,
)
    requires
        pre.inv(),
        pre.deposits.elems@.contains(entry.deposit_index),
        pre.arena.payload_of(entry.deposit_index)->Deposit_0.trader == entry.trader,
        !pre.has_global_trader(entry.trader),
        post.fixed == (GlobalFixed {
            num_seats_claimed: post.fixed.num_seats_claimed,
            ..pre.fixed
        }),
        post.deposits == pre.deposits,
        post.arena.wf(),
        list_wf(post.traders, post.arena),
        0 <= pos <= pre.traders.elems@.len(),
        post.traders.elems@ == pre.traders.elems@.insert(pos, idx),
        payloads(post.traders, post.arena) == payloads(pre.traders, pre.arena).insert(
            pos,
            GlobalPayload::Trader(entry),
        ),
        !pre.arena.is_live(idx),
        post.arena.is_live(idx),
        forall|i: u32| pre.arena.is_live(i) ==> #[trigger] post.arena.is_live(i),
        forall|i: u32| #[trigger] post.arena.is_live(i) ==> pre.arena.is_live(i) || i == idx,
        forall|i: u32|
            pre.arena.is_live(i) && !pre.traders.elems@.contains(i)
                ==> #[trigger] post.arena.blocks@[i as int] == pre.arena.blocks@[i as int],
        post.arena.num_allocated >= pre.arena.num_allocated,
        post.arena.blocks@.len() >= pre.arena.blocks@.len(),
    ensures
        post.inv(),
        post.traders_view() == pre.traders_view().insert(pos, entry),
        post.has_global_trader(entry.trader),
        post.traders_view()[pos] == entry,
        post.arena.payload_of(entry.deposit_index) == pre.arena.payload_of(entry.deposit_index),
{
    let payload = GlobalPayload::Trader(entry);
    lemma_insert_contains(pre.traders.elems@, pos, idx);
    assert forall|k: int|
        0 <= k < pre.deposits.elems@.len() implies post.arena.blocks@[#[trigger] pre.deposits.elems@[k] as int]
        == pre.arena.blocks@[pre.deposits.elems@[k] as int] by {
        assert(pre.arena.is_live(pre.deposits.elems@[k]));
        if pre.traders.elems@.contains(pre.deposits.elems@[k]) {
            let j = choose|j: int|
                0 <= j < pre.traders.elems@.len() && pre.traders.elems@[j]
                    == pre.deposits.elems@[k];
            assert(false);
        }
    }
    lemma_list_frame(pre.deposits, pre.arena, post.arena);
    assert forall|k: int|
        0 <= k < post.deposits.elems@.len() implies (#[trigger] payloads(
        post.deposits,
        post.arena,
    )[k]) is Deposit by {
        assert(payloads(post.deposits, post.arena)[k] == payloads(pre.deposits, pre.arena)[k]);
    }
    // The deposit block the new entry references is in the deposits index,
    // so it reads the same after the insert.
    let dj = choose|dj: int|
        0 <= dj < pre.deposits.elems@.len() && pre.deposits.elems@[dj] == entry.deposit_index;
    assert(pre.arena.is_live(entry.deposit_index));
    if pre.traders.elems@.contains(entry.deposit_index) {
        let tj = choose|tj: int|
            0 <= tj < pre.traders.elems@.len() && pre.traders.elems@[tj] == entry.deposit_index;
        assert(pre.traders.elems@[tj] != pre.deposits.elems@[dj]);
        assert(false);
    }
    assert(!pre.traders.elems@.contains(entry.deposit_index));
    assert(post.arena.blocks@[entry.deposit_index as int] == pre.arena.blocks@[entry.deposit_index as int]);
    assert forall|k: int|
        0 <= k < post.traders.elems@.len() implies {
        let p = #[trigger] payloads(post.traders, post.arena)[k];
        &&& p is Trader
        &&& post.deposits.elems@.contains(p->Trader_0.deposit_index)
        &&& post.arena.payload_of(p->Trader_0.deposit_index)->Deposit_0.trader
            == p->Trader_0.trader
    } by {
        if k == pos {
            assert(payloads(post.traders, post.arena)[k] == payload);
        } else {
            let km = if k < pos {
                k
            } else {
                k - 1
            };
            assert(payloads(post.traders, post.arena)[k] == payloads(
                pre.traders,
                pre.arena,
            )[km]);
            let di = payloads(pre.traders, pre.arena)[km]->Trader_0.deposit_index;
            assert(pre.deposits.elems@.contains(di));
            let dj2 = choose|dj2: int|
                0 <= dj2 < pre.deposits.elems@.len() && pre.deposits.elems@[dj2] == di;
            assert(pre.arena.is_live(di));
            if pre.traders.elems@.contains(di) {
                let tj2 = choose|tj2: int|
                    0 <= tj2 < pre.traders.elems@.len() && pre.traders.elems@[tj2] == di;
                assert(false);
            }
            assert(post.arena.blocks@[di as int] == pre.arena.blocks@[di as int]);
        }
    }
    assert(post.traders_view() =~= pre.traders_view().insert(pos, entry));
    assert forall|j: int, k: int|
        0 <= j < k < post.traders.elems@.len() implies payloads(
        post.traders,
        post.arena,
    )[j]->Trader_0.trader != payloads(post.traders, post.arena)[k]->Trader_0.trader by {
        let pj = if j < pos {
            j
        } else {
            j - 1
        };
        let pk = if k < pos {
            k
        } else {
            k - 1
        };
        if j == pos {
            assert(payloads(post.traders, post.arena)[j] == payload);
            assert(pre.traders_view()[pk].trader != entry.trader);
        } else if k == pos {
            assert(payloads(post.traders, post.arena)[k] == payload);
            assert(pre.traders_view()[pj].trader != entry.trader);
        }
    }
    assert forall|i: u32| #[trigger] post.arena.is_live(i) implies post.traders.elems@.contains(i)
        || post.deposits.elems@.contains(i) by {
        if i != idx {
            assert(pre.arena.is_live(i));
            if pre.traders.elems@.contains(i) {
                assert(pre.traders.elems@.insert(pos, idx).contains(i));
            }
        } else {
            assert(post.traders.elems@.contains(idx));
        }
    }
    assert forall|j: int, k: int|
        0 <= j < post.traders.elems@.len() && 0 <= k < post.deposits.elems@.len() implies #[trigger] post.traders.elems@[j]
        != #[trigger] post.deposits.elems@[k] by {
        if post.traders.elems@[j] == idx {
            assert(pre.arena.is_live(pre.deposits.elems@[k]));
        } else {
            assert(pre.traders.elems@.contains(post.traders.elems@[j]));
            let j2 = choose|j2: int|
                0 <= j2 < pre.traders.elems@.len() && pre.traders.elems@[j2]
                    == post.traders.elems@[j];
        }
    }
    assert(post.traders_view()[pos] == entry);
}

} // verus!
