//! Fixed-point decimal amounts.
//!
//! Financial amounts are held as an integer count of base units, where one
//! whole currency unit is `UNITS_PER_WHOLE` (10^8) base units, so an amount
//! carries 8 exact fractional digits. Balances are rounded to 4 fractional
//! digits, i.e. to a multiple of `QUANTUM` base units, with ties going to the
//! even multiple.

use vstd::prelude::*;

verus! {

/// Number of base units in one whole currency unit (8 fractional digits).
pub const UNITS_PER_WHOLE: i128 = 100_000_000;

/// Balances are rounded to 4 fractional digits, i.e. to a multiple of this
/// many base units.
pub const QUANTUM: i128 = 10_000;

/// Half of `QUANTUM`; a remainder equal to this is a tie when rounding.
pub const HALF_QUANTUM: i128 = 5_000;

/// Largest magnitude, in base units, that an amount may hold (10^32 base
/// units, i.e. 10^24 whole currency units). The bound is a multiple of
/// `QUANTUM` and small enough that the sum of any two amounts fits in `i128`.
pub const MAX_UNITS: i128 = 100_000_000_000_000_000_000_000_000_000_000;

/// True when `x` base units lie within the range an `Amount` may hold.
pub open spec fn fits(x: int) -> bool {
    -(MAX_UNITS as int) <= x <= MAX_UNITS as int
}

/// Rounding of a non-negative count of base units to the nearest multiple of
/// `QUANTUM`, ties to the even multiple.
pub open spec fn round_nonneg(x: int) -> int {
    let q = QUANTUM as int;
    let rem = x % q;
    let base = x - rem;
    if rem < HALF_QUANTUM as int {
        base
    } else if rem > HALF_QUANTUM as int {
        base + q
    } else if (base / q) % 2 == 0 {
        base
    } else {
        base + q
    }
}

/// Rounding of a count of base units to the nearest multiple of `QUANTUM`
/// (4 fractional digits), ties to the even multiple, symmetric around zero.
pub open spec fn round_to_quantum(x: int) -> int {
    if x >= 0 {
        round_nonneg(x)
    } else {
        -round_nonneg(-x)
    }
}

/// True when `x` base units lie exactly on the 4-fractional-digit boundary,
/// i.e. on a multiple of `QUANTUM`.
pub open spec fn quantized(x: int) -> bool {
    x % (QUANTUM as int) == 0
}

/// The negation of a quantized value is quantized.
pub proof fn lemma_quantized_neg(x: int)
    requires
        quantized(x),
    ensures
        quantized(-x),
{
    let q = QUANTUM as int;
    vstd::arithmetic::div_mod::lemma_fundamental_div_mod(x, q);
    let k = x / q;
    assert(-x == (-k) * q) by (nonlinear_arith)
        requires
            x == q * k + x % q,
            x % q == 0,
    ;
    vstd::arithmetic::div_mod::lemma_mod_multiples_basic(-k, q);
}

/// The sum of two quantized values is quantized.
pub proof fn lemma_quantized_add(x: int, y: int)
    requires
        quantized(x),
        quantized(y),
    ensures
        quantized(x + y),
{
    let q = QUANTUM as int;
    vstd::arithmetic::div_mod::lemma_add_mod_noop(x, y, q);
}

/// The difference of two quantized values is quantized.
pub proof fn lemma_quantized_sub(x: int, y: int)
    requires
        quantized(x),
        quantized(y),
    ensures
        quantized(x - y),
{
    let q = QUANTUM as int;
    vstd::arithmetic::div_mod::lemma_sub_mod_noop(x, y, q);
}

/// Rounding always lands on the 4-fractional-digit boundary.
pub proof fn lemma_round_quantized(x: int)
    ensures
        quantized(round_to_quantum(x)),
{
    let q = QUANTUM as int;
    if x >= 0 {
        lemma_round_nonneg_quantized(x);
    } else {
        lemma_round_nonneg_quantized(-x);
        lemma_quantized_neg(round_nonneg(-x));
    }
}

proof fn lemma_round_nonneg_quantized(x: int)
    requires
        x >= 0,
    ensures
        quantized(round_nonneg(x)),
{
    let q = QUANTUM as int;
    let rem = x % q;
    let base = x - rem;
    vstd::arithmetic::div_mod::lemma_fundamental_div_mod(x, q);
    let k = x / q;
    assert(base == k * q) by (nonlinear_arith)
        requires
            x == q * k + rem,
            base == x - rem,
    ;
    vstd::arithmetic::div_mod::lemma_mod_multiples_basic(k, q);
    vstd::arithmetic::div_mod::lemma_mod_multiples_basic(k + 1, q);
    assert(base + q == (k + 1) * q) by (nonlinear_arith)
        requires
            base == k * q,
    ;
}

/// Rounding moves nothing that is already on the 4-fractional-digit
/// boundary.
pub proof fn lemma_round_identity(x: int)
    requires
        quantized(x),
    ensures
        round_to_quantum(x) == x,
{
    let q = QUANTUM as int;
    if x >= 0 {
        assert(round_nonneg(x) == x);
    } else {
        lemma_quantized_neg(x);
        assert(round_nonneg(-x) == -x);
    }
}

/// An exact fixed-point decimal: a count of base units of 10^-8 whole
/// currency units, bounded in magnitude by `MAX_UNITS`.
#[derive(Clone, Copy, Debug, PartialEq, Eq, Structural)]
pub struct Amount {
    units: i128,
}

impl View for Amount {
    type V = int;

    closed spec fn view(&self) -> int {
        self.units as int
    }
}

impl Amount {
    /// Every amount stays within the representable range; established at
    /// construction and maintained by every operation.
    #[verifier::type_invariant]
    pub open spec fn bounded(self) -> bool {
        fits(self@)
    }

    /// An amount of `units` base units.
    pub fn new(units: i128) -> (a: Amount)
        requires
            fits(units as int),
        ensures
            a@ == units as int,
    {
        Amount { units }
    }

    /// The zero amount.
    pub fn zero() -> (a: Amount)
        ensures
            a@ == 0,
    {
        Amount { units: 0 }
    }

    /// The count of base units this amount holds.
    pub fn units(&self) -> (u: i128)
        ensures
            u as int == self@,
    {
        self.units
    }

    /// True when this amount is strictly positive.
    pub fn is_positive(&self) -> (r: bool)
        ensures
            r == (self@ > 0),
    {
        self.units > 0
    }

    /// True when this amount is strictly below `other`.
    pub fn lt(&self, other: &Amount) -> (r: bool)
        ensures
            r == (self@ < other@),
    {
        self.units < other.units
    }

    /// The sum of two amounts, or `None` when it would leave the
    /// representable range.
    pub fn checked_add(self, other: Amount) -> (r: Option<Amount>)
        ensures
            match r {
                Some(a) => fits(self@ + other@) && a@ == self@ + other@,
                None => !fits(self@ + other@),
            },
    {
        proof {
            use_type_invariant(self);
            use_type_invariant(other);
        }
        let s = self.units + other.units;
        if -MAX_UNITS <= s && s <= MAX_UNITS {
            Some(Amount { units: s })
        } else {
            None
        }
    }

    /// The difference of two amounts, or `None` when it would leave the
    /// representable range.
    pub fn checked_sub(self, other: Amount) -> (r: Option<Amount>)
        ensures
            match r {
                Some(a) => fits(self@ - other@) && a@ == self@ - other@,
                None => !fits(self@ - other@),
            },
    {
        proof {
            use_type_invariant(self);
            use_type_invariant(other);
        }
        let s = self.units - other.units;
        if -MAX_UNITS <= s && s <= MAX_UNITS {
            Some(Amount { units: s })
        } else {
            None
        }
    }

    /// The sum of two amounts, which the caller knows stays in the
    /// representable range.
    pub fn add_exact(self, other: Amount) -> (r: Amount)
        requires
            fits(self@ + other@),
        ensures
            r@ == self@ + other@,
    {
        proof {
            use_type_invariant(self);
            use_type_invariant(other);
        }
        Amount { units: self.units + other.units }
    }

    /// The difference of two amounts, which the caller knows stays in the
    /// representable range.
    pub fn sub_exact(self, other: Amount) -> (r: Amount)
        requires
            fits(self@ - other@),
        ensures
            r@ == self@ - other@,
    {
        proof {
            use_type_invariant(self);
            use_type_invariant(other);
        }
        Amount { units: self.units - other.units }
    }

    /// This amount rounded to 4 fractional digits, ties to the even multiple
    /// of `QUANTUM`.
    pub fn rounded(self) -> (r: Amount)
        ensures
            r@ == round_to_quantum(self@),
    {
        proof {
            use_type_invariant(self);
        }
        if self.units >= 0 {
            Amount { units: round_nonneg_units(self.units) }
        } else {
            Amount { units: -round_nonneg_units(-self.units) }
        }
    }
}

/// Rounding of a non-negative count of base units to the nearest multiple of
/// `QUANTUM`, ties to the even multiple.
fn round_nonneg_units(x: i128) -> (r: i128)
    requires
        0 <= x <= MAX_UNITS,
    ensures
        r as int == round_nonneg(x as int),
        0 <= r <= MAX_UNITS,
{
    let rem = x % QUANTUM;
    let base = x - rem;
    proof {
        lemma_round_nonneg_bounds(x as int);
    }
    if rem < HALF_QUANTUM {
        base
    } else if rem > HALF_QUANTUM {
        base + QUANTUM
    } else {
        let k = base / QUANTUM;
        if k % 2 == 0 {
            base
        } else {
            base + QUANTUM
        }
    }
}

/// The rounding of a representable non-negative value is representable.
proof fn lemma_round_nonneg_bounds(x: int)
    requires
        0 <= x <= MAX_UNITS as int,
    ensures
        0 <= round_nonneg(x) <= MAX_UNITS as int,
{
    let q = QUANTUM as int;
    let rem = x % q;
    let base = x - rem;
    assert(0 <= rem < q);
    if rem >= HALF_QUANTUM as int {
        assert(base <= MAX_UNITS as int - q) by {
            assert(base % q == 0) by (nonlinear_arith)
                requires
                    rem == x % q,
                    base == x - rem,
                    q == QUANTUM as int,
            ;
            assert(MAX_UNITS as int % q == 0);
            assert(base < MAX_UNITS as int);
            lemma_multiple_below(base, MAX_UNITS as int, q);
        }
    }
}

/// Two multiples of a positive `q` that are strictly ordered differ by at
/// least `q`.
proof fn lemma_multiple_below(a: int, b: int, q: int)
    requires
        q > 0,
        a % q == 0,
        b % q == 0,
        a < b,
    ensures
        a <= b - q,
{
    let ka = a / q;
    let kb = b / q;
    assert(a == q * ka && b == q * kb) by (nonlinear_arith)
        requires
            q > 0,
            a % q == 0,
            b % q == 0,
            ka == a / q,
            kb == b / q,
    ;
    assert(ka < kb) by (nonlinear_arith)
        requires
            q > 0,
            a == q * ka,
            b == q * kb,
            a < b,
    ;
    assert(q * ka <= q * kb - q) by (nonlinear_arith)
        requires
            q > 0,
            ka <= kb - 1,
    ;
}

} // verus!
