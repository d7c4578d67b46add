//! The engine's canonical scalar type.
//!
//! `Real` is a signed fixed-point number with fourteen decimal places,
//! a software model of the extended-precision scalar the legacy runtime
//! computed on its FPU stack. One unit is 10^-14, so the comparison
//! tolerance of 10^-13 is exactly representable, and the decimal
//! constants games are written with (0.1, 0.2, 0.5) are exact. All
//! comparisons are tolerant: two values closer than the tolerance are
//! equal, and the ordering is the total preorder induced by it.

use vstd::prelude::*;

verus! {

/// Number of fixed-point units in 1.0.
pub const SCALE: i128 = 100_000_000_000_000;

/// Half of one whole unit; the midpoint used by banker's rounding.
pub const HALF_UNIT: i128 = 50_000_000_000_000;

/// The comparison tolerance (10^-13) in fixed-point units.
pub const EPSILON_UNITS: i128 = 10;

/// Greatest magnitude a `Real` may hold, in units (10^18 whole units).
pub const MAX_UNITS: i128 = 100_000_000_000_000_000_000_000_000_000_000;

/// Greatest integer accepted by [`Real::from_int`].
pub const MAX_INT: i64 = 1_000_000_000_000_000_000;

/// Fixed-point value of pi, truncated to units.
pub const PI_UNITS: i128 = 314_159_265_358_979;

/// Magnitude of an integer.
pub open spec fn iabs(x: int) -> int {
    if x >= 0 {
        x
    } else {
        -x
    }
}

/// A unit count a `Real` is allowed to hold.
pub open spec fn in_range(v: int) -> bool {
    -(MAX_UNITS as int) <= v <= MAX_UNITS as int
}

/// Division truncating toward zero, as the hardware divides.
pub open spec fn trunc_div(x: int, y: int) -> int {
    if (x >= 0) == (y >= 0) {
        iabs(x) / iabs(y)
    } else {
        -(iabs(x) / iabs(y))
    }
}

/// Remainder of division truncating toward zero (sign of the dividend),
/// as the hardware takes remainders; meaningful for positive `y`.
pub open spec fn trunc_rem(x: int, y: int) -> int {
    if x >= 0 {
        x % y
    } else {
        -((-x) % y)
    }
}

/// Tolerant equality on unit counts: closer than the tolerance is equal.
pub open spec fn real_eq(a: int, b: int) -> bool {
    -(EPSILON_UNITS as int) < a - b < EPSILON_UNITS as int
}

/// Tolerant three-way comparison on unit counts.
pub open spec fn real_cmp(a: int, b: int) -> core::cmp::Ordering {
    if a - b >= EPSILON_UNITS as int {
        core::cmp::Ordering::Greater
    } else if a - b <= -(EPSILON_UNITS as int) {
        core::cmp::Ordering::Less
    } else {
        core::cmp::Ordering::Equal
    }
}

/// Round a non-negative unit count to the nearest whole number of units,
/// ties to the even neighbour.
pub open spec fn round_even_nonneg(m: int) -> int {
    let q = m / (SCALE as int);
    let r = m % (SCALE as int);
    if r > HALF_UNIT as int {
        q + 1
    } else if r < HALF_UNIT as int {
        q
    } else if q % 2 == 0 {
        q
    } else {
        q + 1
    }
}

/// Round a unit count to the nearest whole number, ties to even,
/// mirrored around zero as the hardware rounds.
pub open spec fn round_even(v: int) -> int {
    if v >= 0 {
        round_even_nonneg(v)
    } else {
        -round_even_nonneg(-v)
    }
}

/// Two's-complement wrap of an integer into the 32-bit signed range.
pub open spec fn wrap_i32(n: int) -> int {
    let m = n % 0x1_0000_0000;
    if m >= 0x8000_0000 {
        m - 0x1_0000_0000
    } else {
        m
    }
}

/// The extended-precision scalar: a fixed-point count of 10^-14 units.
#[derive(Clone, Copy, Debug, Default)]
pub struct Real {
    units: i128,
}

impl View for Real {
    type V = int;

    closed spec fn view(&self) -> int {
        self.units as int
    }
}

/// The `Real` value of a whole number, as a spec-level constructor;
/// meaningful for `i` within the representable range.
pub closed spec fn real_int(i: int) -> Real {
    Real { units: (i * SCALE) as i128 }
}

/// The `Real` value that [`Real::to_radians`] yields for `a`.
pub closed spec fn real_rad(a: Real) -> Real {
    Real { units: trunc_div(a@ * PI_UNITS, 180 * SCALE) as i128 }
}

impl Real {
    /// Every `Real` stays within the representable range.
    #[verifier::type_invariant]
    pub closed spec fn wf(self) -> bool {
        in_range(self.units as int)
    }

    /// The scalar holding the whole number `i`.
    pub fn from_int(i: i64) -> (r: Real)
        requires
            -MAX_INT <= i <= MAX_INT,
        ensures
            r@ == i * SCALE,
            r == real_int(i as int),
    {
        Real { units: (i as i128) * SCALE }
    }

    /// The scalar holding exactly `u` fixed-point units.
    pub fn from_units(u: i128) -> (r: Real)
        requires
            in_range(u as int),
        ensures
            r@ == u,
    {
        Real { units: u }
    }

    /// The unit count the scalar holds.
    pub fn units(self) -> (r: i128)
        ensures
            r as int == self@,
    {
        self.units
    }

    /// The scalar zero.
    pub fn zero() -> (r: Real)
        ensures
            r@ == 0,
            r == real_int(0),
    {
        Real { units: 0 }
    }

    /// The scalar nearest `num / den` (truncated toward zero).
    pub fn from_frac(num: i64, den: i64) -> (r: Real)
        requires
            den != 0,
            -MAX_INT <= num <= MAX_INT,
        ensures
            r@ == trunc_div(num * SCALE, den as int),
    {
        let wide: i128 = (num as i128) * SCALE;
        let neg: bool = (wide < 0) != (den < 0);
        let n: u128 = if wide >= 0 {
            wide as u128
        } else {
            (-wide) as u128
        };
        let d: u128 = if den >= 0 {
            (den as i128) as u128
        } else {
            (-(den as i128)) as u128
        };
        let q: u128 = n / d;
        proof {
            vstd::arithmetic::div_mod::lemma_div_nonincreasing(n as int, d as int);
        }
        let units: i128 = if neg {
            -(q as i128)
        } else {
            q as i128
        };
        Real { units }
    }

    /// Sum, exact in the fixed-point model.
    pub fn add(self, other: Real) -> (r: Real)
        requires
            in_range(self@ + other@),
        ensures
            r@ == self@ + other@,
    {
        proof {
            use_type_invariant(&self);
            use_type_invariant(&other);
        }
        Real { units: self.units + other.units }
    }

    /// Difference, exact in the fixed-point model.
    pub fn sub(self, other: Real) -> (r: Real)
        requires
            in_range(self@ - other@),
        ensures
            r@ == self@ - other@,
    {
        proof {
            use_type_invariant(&self);
            use_type_invariant(&other);
        }
        Real { units: self.units - other.units }
    }

    /// Product, truncated toward zero at the last unit.
    pub fn mul(self, other: Real) -> (r: Real)
        requires
            iabs(self@) * iabs(other@) <= i128::MAX as int,
        ensures
            r@ == trunc_div(self@ * other@, SCALE as int),
    {
        proof {
            use_type_invariant(&self);
            use_type_invariant(&other);
            assert(iabs(self@ * other@) == iabs(self@) * iabs(other@)) by (nonlinear_arith);
        }
        let p: i128 = self.units * other.units;
        let neg: bool = p < 0;
        let m: u128 = if p >= 0 {
            p as u128
        } else {
            (-p) as u128
        };
        let q: u128 = m / (SCALE as u128);
        let units: i128 = if neg {
            -(q as i128)
        } else {
            q as i128
        };
        Real { units }
    }

    /// Quotient, truncated toward zero at the last unit.
    pub fn div(self, other: Real) -> (r: Real)
        requires
            other@ != 0,
            iabs(self@) * SCALE <= i128::MAX as int,
            in_range(trunc_div(self@ * SCALE, other@)),
        ensures
            r@ == trunc_div(self@ * SCALE, other@),
    {
        proof {
            use_type_invariant(&self);
            use_type_invariant(&other);
            assert(iabs(self@ * SCALE) == iabs(self@) * SCALE) by (nonlinear_arith);
        }
        let p: i128 = self.units * SCALE;
        let neg: bool = (p < 0) != (other.units < 0);
        let n: u128 = if p >= 0 {
            p as u128
        } else {
            (-p) as u128
        };
        let d: u128 = if other.units >= 0 {
            other.units as u128
        } else {
            (-other.units) as u128
        };
        let q: u128 = n / d;
        let units: i128 = if neg {
            -(q as i128)
        } else {
            q as i128
        };
        Real { units }
    }

    /// Negation.
    pub fn neg(self) -> (r: Real)
        ensures
            r@ == -self@,
    {
        proof {
            use_type_invariant(&self);
        }
        Real { units: -self.units }
    }

    /// Magnitude.
    pub fn abs(self) -> (r: Real)
        ensures
            r@ == iabs(self@),
    {
        proof {
            use_type_invariant(&self);
        }
        if self.units >= 0 {
            self
        } else {
            Real { units: -self.units }
        }
    }

    /// Nearest whole number, ties to even, as a 64-bit integer.
    pub fn round64(self) -> (r: i64)
        ensures
            r as int == round_even(self@),
            -MAX_INT - 1 <= r <= MAX_INT + 1,
    {
        proof {
            use_type_invariant(&self);
        }
        let neg: bool = self.units < 0;
        let m: u128 = if self.units >= 0 {
            self.units as u128
        } else {
            (-self.units) as u128
        };
        let q: u128 = m / (SCALE as u128);
        let rem: u128 = m % (SCALE as u128);
        proof {
            vstd::arithmetic::div_mod::lemma_div_is_ordered(m as int, MAX_UNITS as int, SCALE as int);
        }
        let up: bool = rem > HALF_UNIT as u128 || (rem == HALF_UNIT as u128 && q % 2 == 1);
        let rounded: u128 = if up {
            q + 1
        } else {
            q
        };
        if neg {
            -(rounded as i64)
        } else {
            rounded as i64
        }
    }

    /// Nearest whole number, ties to even, wrapped into 32 bits.
    pub fn round(self) -> (r: i32)
        ensures
            r as int == wrap_i32(round_even(self@)),
    {
        let r64: i64 = self.round64();
        let d: i64 = 0x1_0000_0000;
        let m: i64 = r64 % d;
        let m2: i64 = if m < 0 {
            m + d
        } else {
            m
        };
        proof {
            let x = r64 as int;
            let di = 0x1_0000_0000 as int;
            if r64 < 0 {
                let rm = (-x) % di;
                vstd::arithmetic::div_mod::lemma_fundamental_div_mod(-x, di);
                if rm == 0 {
                    vstd::arithmetic::div_mod::lemma_fundamental_div_mod_converse_mod(
                        x,
                        di,
                        -((-x) / di),
                        0,
                    );
                } else {
                    vstd::arithmetic::div_mod::lemma_fundamental_div_mod_converse_mod(
                        x,
                        di,
                        -((-x) / di) - 1,
                        di - rm,
                    );
                }
            }
            assert(m2 as int == x % di);
        }
        if m2 >= 0x8000_0000 {
            (m2 - d) as i32
        } else {
            m2 as i32
        }
    }

    /// Greatest whole number not above the value.
    pub fn floor(self) -> (r: i64)
        ensures
            r as int == self@ / (SCALE as int),
            -MAX_INT <= r <= MAX_INT,
    {
        proof {
            use_type_invariant(&self);
        }
        let neg: bool = self.units < 0;
        let m: u128 = if self.units >= 0 {
            self.units as u128
        } else {
            (-self.units) as u128
        };
        let q: u128 = m / (SCALE as u128);
        let rem: u128 = m % (SCALE as u128);
        if neg {
            if rem == 0 {
                -(q as i64)
            } else {
                -(q as i64) - 1
            }
        } else {
            q as i64
        }
    }

    /// Degrees to radians: the value times pi over 180.
    pub fn to_radians(self) -> (r: Real)
        requires
            iabs(self@) * PI_UNITS <= i128::MAX as int,
        ensures
            r@ == trunc_div(self@ * PI_UNITS, 180 * SCALE),
            r == real_rad(self),
    {
        proof {
            use_type_invariant(&self);
            assert(iabs(self@ * PI_UNITS) == iabs(self@) * PI_UNITS) by (nonlinear_arith);
        }
        let p: i128 = self.units * PI_UNITS;
        let neg: bool = p < 0;
        let m: u128 = if p >= 0 {
            p as u128
        } else {
            (-p) as u128
        };
        let q: u128 = m / ((180 * SCALE) as u128);
        proof {
            vstd::arithmetic::div_mod::lemma_div_is_ordered(
                m as int,
                i128::MAX as int,
                180 * SCALE as int,
            );
        }
        let units: i128 = if neg {
            -(q as i128)
        } else {
            q as i128
        };
        Real { units }
    }

    /// Tolerant three-way comparison, usable where a total order is needed.
    pub fn cmp_real(&self, other: &Real) -> (r: core::cmp::Ordering)
        ensures
            r == real_cmp(self@, other@),
    {
        proof {
            use_type_invariant(self);
            use_type_invariant(other);
        }
        let d: i128 = self.units - other.units;
        if d >= EPSILON_UNITS {
            core::cmp::Ordering::Greater
        } else if d <= -EPSILON_UNITS {
            core::cmp::Ordering::Less
        } else {
            core::cmp::Ordering::Equal
        }
    }
}

impl PartialEq for Real {
    fn eq(&self, other: &Real) -> (r: bool) {
        proof {
            use_type_invariant(self);
            use_type_invariant(other);
        }
        let d: i128 = self.units - other.units;
        -EPSILON_UNITS < d && d < EPSILON_UNITS
    }
}

impl vstd::std_specs::cmp::PartialEqSpecImpl for Real {
    open spec fn obeys_eq_spec() -> bool {
        true
    }

    open spec fn eq_spec(&self, other: &Real) -> bool {
        real_eq(self@, other@)
    }
}

impl PartialOrd for Real {
    fn partial_cmp(&self, other: &Real) -> (r: Option<core::cmp::Ordering>) {
        Some(self.cmp_real(other))
    }
}

impl vstd::std_specs::cmp::PartialOrdSpecImpl for Real {
    open spec fn obeys_partial_cmp_spec() -> bool {
        true
    }

    open spec fn partial_cmp_spec(&self, other: &Real) -> Option<core::cmp::Ordering> {
        Some(real_cmp(self@, other@))
    }
}

/// Adding any `b` of magnitude at most one million and subtracting it
/// again returns to the starting value, under tolerant equality.
pub proof fn lemma_add_sub_cancel(a: Real, b: Real)
    requires
        iabs(b@) <= 1_000_000 * SCALE,
    ensures
        real_eq((a@ + b@) - b@, a@),
{
}

/// A whole number plus one half always rounds to an even number, also
/// after the wrap into 32 bits.
pub proof fn lemma_round_half_even(i: int)
    requires
        0 <= i < 1000,
    ensures
        round_even(i * SCALE + HALF_UNIT) % 2 == 0,
        wrap_i32(round_even(i * SCALE + HALF_UNIT)) % 2 == 0,
{
    let v = i * SCALE + HALF_UNIT;
    assert(v >= 0) by (nonlinear_arith)
        requires
            v == i * SCALE + HALF_UNIT && 0 <= i,
    ;
    assert(v / (SCALE as int) == i && v % (SCALE as int) == HALF_UNIT as int) by (nonlinear_arith)
        requires
            v == i * SCALE + HALF_UNIT && 0 <= i,
    ;
    if i % 2 == 0 {
        assert(round_even(v) == i);
    } else {
        assert(round_even(v) == i + 1);
    }
}

} // verus!
