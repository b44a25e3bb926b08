//! Quantity newtypes and the fixed-point price ratio.
//!
//! Base, quote and global quantities are token atom counts. A price is the
//! number of quote atoms per base atom, held as a fixed-point value scaled by
//! [`PRICE_SCALE`]. Conversions between the two axes round in an explicit,
//! caller-chosen direction and fail with a typed error instead of wrapping.

use vstd::prelude::*;

use crate::error::ManifestError;

verus! {

/// Fixed-point denominator for prices: a stored price of `PRICE_SCALE`
/// means exactly one quote atom per base atom.
pub const PRICE_SCALE: u128 = 1_000_000_000_000_000_000;

/// Quotient of `p / d` rounded down, or up when `round_up` is set.
pub open spec fn div_round(p: int, d: int, round_up: bool) -> int {
    if round_up && p % d != 0 {
        p / d + 1
    } else {
        p / d
    }
}

#[derive(Clone, Copy, Debug, PartialEq, Eq, Structural)]
pub struct BaseAtoms {
    pub atoms: u64,
}

#[derive(Clone, Copy, Debug, PartialEq, Eq, Structural)]
pub struct QuoteAtoms {
    pub atoms: u64,
}

#[derive(Clone, Copy, Debug, PartialEq, Eq, Structural)]
pub struct GlobalAtoms {
    pub atoms: u64,
}

impl BaseAtoms {
    pub fn new(atoms: u64) -> (r: Self)
        ensures
            r.atoms == atoms,
    {
        BaseAtoms { atoms }
    }

    pub fn zero() -> (r: Self)
        ensures
            r.atoms == 0,
    {
        BaseAtoms { atoms: 0 }
    }

    pub fn as_u64(self) -> (r: u64)
        ensures
            r == self.atoms,
    {
        self.atoms
    }

    pub fn min(self, other: Self) -> (r: Self)
        ensures
            r.atoms == if self.atoms <= other.atoms { self.atoms } else { other.atoms },
    {
        if self.atoms <= other.atoms {
            self
        } else {
            other
        }
    }

    pub fn checked_add(self, other: Self) -> (r: Result<Self, ManifestError>)
        ensures
            match r {
                Ok(s) => self.atoms + other.atoms <= u64::MAX && s.atoms == self.atoms
                    + other.atoms,
                Err(e) => self.atoms + other.atoms > u64::MAX && e
                    == ManifestError::ArithmeticOverflow,
            },
    {
        if self.atoms <= u64::MAX - other.atoms {
            Ok(BaseAtoms { atoms: self.atoms + other.atoms })
        } else {
            Err(ManifestError::ArithmeticOverflow)
        }
    }

    pub fn checked_sub(self, other: Self) -> (r: Result<Self, ManifestError>)
        ensures
            match r {
                Ok(s) => other.atoms <= self.atoms && s.atoms == self.atoms - other.atoms,
                Err(e) => other.atoms > self.atoms && e == ManifestError::ArithmeticOverflow,
            },
    {
        if other.atoms <= self.atoms {
            Ok(BaseAtoms { atoms: self.atoms - other.atoms })
        } else {
            Err(ManifestError::ArithmeticOverflow)
        }
    }
}

impl QuoteAtoms {
    pub fn new(atoms: u64) -> (r: Self)
        ensures
            r.atoms == atoms,
    {
        QuoteAtoms { atoms }
    }

    pub fn zero() -> (r: Self)
        ensures
            r.atoms == 0,
    {
        QuoteAtoms { atoms: 0 }
    }

    pub fn as_u64(self) -> (r: u64)
        ensures
            r == self.atoms,
    {
        self.atoms
    }

    pub fn checked_add(self, other: Self) -> (r: Result<Self, ManifestError>)
        ensures
            match r {
                Ok(s) => self.atoms + other.atoms <= u64::MAX && s.atoms == self.atoms
                    + other.atoms,
                Err(e) => self.atoms + other.atoms > u64::MAX && e
                    == ManifestError::ArithmeticOverflow,
            },
    {
        if self.atoms <= u64::MAX - other.atoms {
            Ok(QuoteAtoms { atoms: self.atoms + other.atoms })
        } else {
            Err(ManifestError::ArithmeticOverflow)
        }
    }

    pub fn checked_sub(self, other: Self) -> (r: Result<Self, ManifestError>)
        ensures
            match r {
                Ok(s) => other.atoms <= self.atoms && s.atoms == self.atoms - other.atoms,
                Err(e) => other.atoms > self.atoms && e == ManifestError::ArithmeticOverflow,
            },
    {
        if other.atoms <= self.atoms {
            Ok(QuoteAtoms { atoms: self.atoms - other.atoms })
        } else {
            Err(ManifestError::ArithmeticOverflow)
        }
    }
}

impl GlobalAtoms {
    pub fn new(atoms: u64) -> (r: Self)
        ensures
            r.atoms == atoms,
    {
        GlobalAtoms { atoms }
    }

    pub fn zero() -> (r: Self)
        ensures
            r.atoms == 0,
    {
        GlobalAtoms { atoms: 0 }
    }

    pub fn as_u64(self) -> (r: u64)
        ensures
            r == self.atoms,
    {
        self.atoms
    }
}

/// Quote atoms per base atom, fixed point with denominator [`PRICE_SCALE`].
#[derive(Clone, Copy, Debug, PartialEq, Eq, Structural)]
pub struct QuoteAtomsPerBaseAtom {
    pub inner: u128,
}

/// Quote amount bought or sold when `base` base atoms trade at `price`.
pub open spec fn quote_for_base_spec(price: QuoteAtomsPerBaseAtom, base: u64, round_up: bool)
    -> Option<u64> {
    let p = price.inner * base;
    if p > u128::MAX {
        None
    } else {
        let q = div_round(p, PRICE_SCALE as int, round_up);
        if q > u64::MAX {
            None
        } else {
            Some(q as u64)
        }
    }
}

/// Base amount that corresponds to `quote` quote atoms at `price`.
/// A zero price converts to nothing rather than dividing by zero.
pub open spec fn base_for_quote_spec(price: QuoteAtomsPerBaseAtom, quote: u64, round_up: bool)
    -> Option<u64> {
    if price.inner == 0 {
        Some(0u64)
    } else {
        let b = div_round(quote * PRICE_SCALE, price.inner as int, round_up);
        if b > u64::MAX {
            None
        } else {
            Some(b as u64)
        }
    }
}

/// The stored price multiplied by `num / den`, rounded directionally.
pub open spec fn multiply_rational_spec(
    price: QuoteAtomsPerBaseAtom,
    num: u32,
    den: u32,
    round_up: bool,
) -> Option<u128> {
    let p = price.inner * num;
    if p > u128::MAX {
        None
    } else {
        Some(div_round(p, den as int, round_up) as u128)
    }
}

impl QuoteAtomsPerBaseAtom {
    /// Builds a price directly from its scaled fixed-point representation.
    pub fn new_scaled(inner: u128) -> (r: Self)
        ensures
            r.inner == inner,
    {
        QuoteAtomsPerBaseAtom { inner }
    }

    pub fn zero() -> (r: Self)
        ensures
            r.inner == 0,
    {
        QuoteAtomsPerBaseAtom { inner: 0 }
    }

    pub fn checked_quote_for_base(self, base: BaseAtoms, round_up: bool) -> (r: Result<
        QuoteAtoms,
        ManifestError,
    >)
        ensures
            match r {
                Ok(q) => quote_for_base_spec(self, base.atoms, round_up) == Some(q.atoms),
                Err(e) => quote_for_base_spec(self, base.atoms, round_up) is None && e
                    == ManifestError::ArithmeticOverflow,
            },
    {
        match self.inner.checked_mul(base.atoms as u128) {
            None => Err(ManifestError::ArithmeticOverflow),
            Some(p) => {
                let d: u128 = p / PRICE_SCALE;
                let m: u128 = p % PRICE_SCALE;
                let q: u128 = if round_up && m != 0 {
                    proof {
                        assert(d < u128::MAX) by (nonlinear_arith)
                            requires
                                d == (p as int) / (PRICE_SCALE as int),
                                m == (p as int) % (PRICE_SCALE as int),
                                m != 0,
                                p <= u128::MAX,
                        ;
                    }
                    d + 1
                } else {
                    d
                };
                if q > u64::MAX as u128 {
                    Err(ManifestError::ArithmeticOverflow)
                } else {
                    Ok(QuoteAtoms { atoms: q as u64 })
                }
            },
        }
    }

    pub fn checked_base_for_quote(self, quote: QuoteAtoms, round_up: bool) -> (r: Result<
        BaseAtoms,
        ManifestError,
    >)
        ensures
            match r {
                Ok(b) => base_for_quote_spec(self, quote.atoms, round_up) == Some(b.atoms),
                Err(e) => base_for_quote_spec(self, quote.atoms, round_up) is None && e
                    == ManifestError::ArithmeticOverflow,
            },
    {
        if self.inner == 0 {
            return Ok(BaseAtoms { atoms: 0 });
        }
        proof {
            assert((u64::MAX as int) * (PRICE_SCALE as int) <= u128::MAX as int)
                by (nonlinear_arith);
            assert((quote.atoms as int) * (PRICE_SCALE as int) <= (u64::MAX as int) * (
            PRICE_SCALE as int)) by (nonlinear_arith)
                requires
                    quote.atoms as int <= u64::MAX as int,
            ;
        }
        let p: u128 = (quote.atoms as u128) * PRICE_SCALE;
        let d: u128 = p / self.inner;
        let m: u128 = p % self.inner;
        let b: u128 = if round_up && m != 0 {
            proof {
                assert(d < u128::MAX) by (nonlinear_arith)
                    requires
                        d == (p as int) / (self.inner as int),
                        m == (p as int) % (self.inner as int),
                        self.inner >= 1,
                        m != 0,
                        p <= u128::MAX,
                ;
            }
            d + 1
        } else {
            d
        };
        if b > u64::MAX as u128 {
            Err(ManifestError::ArithmeticOverflow)
        } else {
            Ok(BaseAtoms { atoms: b as u64 })
        }
    }

    pub fn checked_multiply_rational(self, num: u32, den: u32, round_up: bool) -> (r: Result<
        Self,
        ManifestError,
    >)
        requires
            den > 0,
        ensures
            match r {
                Ok(p) => multiply_rational_spec(self, num, den, round_up) == Some(p.inner),
                Err(e) => multiply_rational_spec(self, num, den, round_up) is None && e
                    == ManifestError::ArithmeticOverflow,
            },
    {
        match self.inner.checked_mul(num as u128) {
            None => Err(ManifestError::ArithmeticOverflow),
            Some(p) => {
                let d: u128 = p / (den as u128);
                let m: u128 = p % (den as u128);
                if round_up && m != 0 {
                    proof {
                        assert(d < u128::MAX) by (nonlinear_arith)
                            requires
                                d == (p as int) / (den as int),
                                m == (p as int) % (den as int),
                                den as int >= 1,
                                m != 0,
                                p <= u128::MAX,
                        ;
                    }
                    Ok(QuoteAtomsPerBaseAtom { inner: d + 1 })
                } else {
                    Ok(QuoteAtomsPerBaseAtom { inner: d })
                }
            },
        }
    }
}

} // verus!
