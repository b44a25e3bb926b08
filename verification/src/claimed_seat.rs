//! Per-trader seats: the unique registry entry a trader holds in a market.

use vstd::prelude::*;

use crate::account_key::AccountKey;
use crate::quantities::{BaseAtoms, QuoteAtoms};

verus! {

#[derive(Clone, Copy, Debug)]
pub struct ClaimedSeat {
    pub trader: AccountKey,
    /// Withdrawable balances only: funds locked in open orders are tracked
    /// by the orders themselves and never double-counted here.
    pub base_withdrawable_balance: BaseAtoms,
    pub quote_withdrawable_balance: QuoteAtoms,
    /// Lifetime quote volume; advisory, may overflow, double counts self
    /// trades. Nothing of value rests on it.
    pub quote_volume: QuoteAtoms,
}

impl ClaimedSeat {
    pub fn new_empty(trader: AccountKey) -> (r: Self)
        ensures
            r.trader == trader,
            r.base_withdrawable_balance.atoms == 0,
            r.quote_withdrawable_balance.atoms == 0,
            r.quote_volume.atoms == 0,
    {
        ClaimedSeat {
            trader,
            base_withdrawable_balance: BaseAtoms { atoms: 0 },
            quote_withdrawable_balance: QuoteAtoms { atoms: 0 },
            quote_volume: QuoteAtoms { atoms: 0 },
        }
    }
}

} // verus!
