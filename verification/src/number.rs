//! Binary64 numbers kept as bit patterns, so that bounds on them are exact integer facts.
use vstd::arithmetic::power2::*;
use vstd::prelude::*;

verus! {

/// The number of magnitudes that share one exponent: two to the power of 52.
pub const SPAN: u64 = 0x0010_0000_0000_0000;

/// The sign bit.
pub const SIGN: u64 = 0x8000_0000_0000_0000;

/// The magnitude of an infinity; every magnitude from here on is not finite.
pub const INFINITE: u64 = 0x7ff0_0000_0000_0000;

/// A binary64 floating-point number as its bit pattern.
#[derive(Clone, Copy, Debug, PartialEq, Eq, Structural)]
pub struct Binary64 {
    pub bits: u64,
}

/// The bit pattern of 1.
pub const ONE: u64 = 0x3ff0_0000_0000_0000;

/// The bit pattern of 32768, the largest relative motion or scroll amount.
pub const MOTION_LIMIT: u64 = 0x40e0_0000_0000_0000;

/// The size of a finite magnitude, counted in the smallest positive number (two to the power of
/// -1074). The upper bits are the exponent, the lower 52 the fraction.
pub open spec fn magnitude_units(magnitude: int) -> int {
    if magnitude < SPAN {
        magnitude
    } else {
        (SPAN + magnitude % (SPAN as int)) * pow2((magnitude / (SPAN as int) - 1) as nat)
    }
}

impl Binary64 {
    #[verifier::allow_in_spec]
    pub fn zero() -> Binary64
        returns
            (Binary64 { bits: 0 }),
    {
        Binary64 { bits: 0 }
    }

    #[verifier::allow_in_spec]
    pub fn one() -> Binary64
        returns
            (Binary64 { bits: ONE }),
    {
        Binary64 { bits: ONE }
    }

    #[verifier::allow_in_spec]
    pub fn motion_limit() -> Binary64
        returns
            (Binary64 { bits: MOTION_LIMIT }),
    {
        Binary64 { bits: MOTION_LIMIT }
    }

    pub open spec fn negative(self) -> bool {
        self.bits >= SIGN
    }

    pub open spec fn magnitude(self) -> int {
        if self.negative() {
            self.bits - SIGN
        } else {
            self.bits as int
        }
    }

    pub open spec fn finite(self) -> bool {
        self.magnitude() < INFINITE
    }

    /// The exact value of a finite number, counted in the smallest positive number.
    pub open spec fn units(self) -> int {
        if self.negative() {
            -magnitude_units(self.magnitude())
        } else {
            magnitude_units(self.magnitude())
        }
    }

    /// The number lies between two finite bounds, both included.
    pub open spec fn within(self, low: Binary64, high: Binary64) -> bool {
        &&& self.finite()
        &&& low.units() <= self.units() <= high.units()
    }

    /// The number is finite and its distance from zero is at most `limit`.
    pub open spec fn bounded(self, limit: Binary64) -> bool {
        &&& self.finite()
        &&& -limit.units() <= self.units() <= limit.units()
    }

    fn get_magnitude(self) -> (r: u64)
        ensures
            r == self.magnitude(),
    {
        if self.bits >= SIGN {
            self.bits - SIGN
        } else {
            self.bits
        }
    }

    pub fn is_finite(self) -> (r: bool)
        ensures
            r == self.finite(),
    {
        self.get_magnitude() < INFINITE
    }

    /// Orders two finite numbers by value; the two zeros are equal.
    pub fn at_most(self, other: Binary64) -> (r: bool)
        requires
            self.finite(),
            other.finite(),
        ensures
            r == (self.units() <= other.units()),
    {
        let a: u64 = self.get_magnitude();
        let b: u64 = other.get_magnitude();
        proof {
            lemma_magnitude_order(a as int, b as int);
            lemma_magnitude_order(b as int, a as int);
            lemma_magnitude_order(0, a as int);
            lemma_magnitude_order(0, b as int);
        }
        if self.bits >= SIGN {
            if other.bits >= SIGN {
                b <= a
            } else {
                true
            }
        } else if other.bits >= SIGN {
            a == 0 && b == 0
        } else {
            a <= b
        }
    }

    pub fn less_than(self, other: Binary64) -> (r: bool)
        requires
            self.finite(),
            other.finite(),
        ensures
            r == (self.units() < other.units()),
    {
        !other.at_most(self)
    }

    pub fn is_within(self, low: Binary64, high: Binary64) -> (r: bool)
        requires
            low.finite(),
            high.finite(),
        ensures
            r == self.within(low, high),
    {
        self.is_finite() && low.at_most(self) && self.at_most(high)
    }

    pub fn is_bounded(self, limit: Binary64) -> (r: bool)
        requires
            limit.finite(),
            !limit.negative(),
        ensures
            r == self.bounded(limit),
    {
        let magnitude: u64 = self.get_magnitude();
        proof {
            lemma_magnitude_order(magnitude as int, limit.magnitude());
            lemma_magnitude_order(limit.magnitude(), magnitude as int);
            lemma_magnitude_order(0, magnitude as int);
            lemma_magnitude_order(0, limit.magnitude());
        }
        magnitude < INFINITE && magnitude <= limit.bits
    }

    /// The nearest number between zero and one; what is no number stays as it is.
    pub open spec fn clamped(self) -> Binary64 {
        if self.magnitude() > INFINITE {
            self
        } else if self.magnitude() == INFINITE {
            if self.negative() {
                Binary64::zero()
            } else {
                Binary64::one()
            }
        } else if self.units() < 0 {
            Binary64::zero()
        } else if self.units() > Binary64::one().units() {
            Binary64::one()
        } else {
            self
        }
    }

    pub fn clamp_to_unit(self) -> (r: Binary64)
        ensures
            r == self.clamped(),
            self.magnitude() <= INFINITE ==> r.within(Binary64::zero(), Binary64::one()),
    {
        let magnitude: u64 = self.get_magnitude();
        proof {
            lemma_constants();
            lemma_pow2_pos(1074);
        }
        if magnitude > INFINITE {
            return self;
        }
        if magnitude == INFINITE {
            return if self.bits >= SIGN {
                Binary64::zero()
            } else {
                Binary64::one()
            };
        }
        if self.less_than(Binary64::zero()) {
            Binary64::zero()
        } else if Binary64::one().less_than(self) {
            Binary64::one()
        } else {
            self
        }
    }
}

/// One more than the largest magnitude that a sum may have without overflowing, in the unit that
/// is two to the power of 2044: sums from here on are rounded to an infinity.
pub const SUM_LIMIT: u64 = 0x003f_ffff_ffff_ffff;

/// The exponent field of the largest finite numbers.
pub const TOP_EXPONENT: u64 = 2046;

impl Binary64 {
    /// The sum of two numbers, rounded to the nearest number, is finite.
    pub open spec fn sum_finite(self, other: Binary64) -> bool {
        &&& self.finite()
        &&& other.finite()
        &&& -SUM_LIMIT * pow2(2044) < self.units() + other.units() < SUM_LIMIT * pow2(2044)
    }

    pub fn sum_is_finite(self, other: Binary64) -> (r: bool)
        ensures
            r == self.sum_finite(other),
    {
        if !self.is_finite() || !other.is_finite() {
            return false;
        }
        let a: u64 = self.get_magnitude();
        let b: u64 = other.get_magnitude();
        proof {
            lemma_top_magnitude(a as int);
            lemma_top_magnitude(b as int);
            lemma_pow2_pos(2044);
            let unit = pow2(2044) as int;
            assert((SUM_LIMIT - 1) * unit < SUM_LIMIT * unit && (-SUM_LIMIT) * unit == -(SUM_LIMIT
                * unit)) by (nonlinear_arith)
                requires
                    unit > 0,
            ;
        }
        if (self.bits >= SIGN) != (other.bits >= SIGN) {
            return true;
        }
        if a >= b {
            magnitudes_stay_finite(a, b)
        } else {
            magnitudes_stay_finite(b, a)
        }
    }
}

/// The largest finite magnitude is two units below the limit of sums.
proof fn lemma_top_magnitude(a: int)
    requires
        0 <= a < INFINITE,
    ensures
        0 <= magnitude_units(a) <= (SUM_LIMIT - 1) * pow2(2044),
        a / (SPAN as int) < TOP_EXPONENT ==> 2 * magnitude_units(a) < SUM_LIMIT * pow2(2044),
        a / (SPAN as int) >= TOP_EXPONENT ==> magnitude_units(a) == 2 * (SPAN + a % (SPAN as int))
            * pow2(2044),
{
    let span = SPAN as int;
    let unit = pow2(2044) as int;
    lemma_pow2_pos(2044);
    lemma_magnitude_order(0, a);
    lemma_pow2_adds(1, 2044);
    lemma2_to64();
    assert(pow2(2045) == 2 * unit);
    if a < span {
        assert(unit >= 1);
        assert(a <= (SUM_LIMIT - 1) * unit && 2 * a < SUM_LIMIT * unit) by (nonlinear_arith)
            requires
                unit >= 1,
                2 * a < SUM_LIMIT,
                0 <= a,
        ;
    } else {
        let exponent = a / span;
        let rest = a % span;
        assert(exponent <= TOP_EXPONENT) by (nonlinear_arith)
            requires
                a < INFINITE,
                exponent == a / span,
                span == SPAN,
        ;
        let power = pow2((exponent - 1) as nat) as int;
        if exponent < TOP_EXPONENT {
            if exponent - 1 < 2044 {
                lemma_pow2_strictly_increases((exponent - 1) as nat, 2044);
            }
            assert((span + rest) * power * 2 <= (SUM_LIMIT - 1) * unit) by (nonlinear_arith)
                requires
                    0 <= power <= unit,
                    0 <= span + rest,
                    (span + rest) * 2 <= SUM_LIMIT - 1,
            ;
            assert((SUM_LIMIT - 1) * unit < SUM_LIMIT * unit) by (nonlinear_arith)
                requires
                    unit > 0,
            ;
        } else {
            assert((span + rest) * (2 * unit) == 2 * (span + rest) * unit) by (nonlinear_arith);
            assert((span + rest) * (2 * unit) <= (SUM_LIMIT - 1) * unit) by (nonlinear_arith)
                requires
                    unit > 0,
                    (span + rest) * 2 <= SUM_LIMIT - 1,
            ;
        }
    }
}

fn power_of_two(k: u64) -> (r: u64)
    requires
        k < 53,
    ensures
        r == pow2(k as nat),
        r <= SPAN,
{
    let mut power: u64 = 1;
    proof {
        lemma2_to64();
        lemma2_to64_rest();
    }
    for i in 0..k
        invariant
            k < 53,
            power == pow2(i as nat),
    {
        proof {
            lemma2_to64();
            lemma2_to64_rest();
            lemma_pow2_adds(1, i as nat);
            lemma_pow2_strictly_increases(i as nat, 53);
        }
        power = power * 2;
    }
    proof {
        if k < 52 {
            lemma_pow2_strictly_increases(k as nat, 52);
        }
        assert(pow2(52) == SPAN);
    }
    power
}

fn magnitudes_stay_finite(large: u64, small: u64) -> (r: bool)
    requires
        small <= large < INFINITE,
    ensures
        r == (magnitude_units(large as int) + magnitude_units(small as int) < SUM_LIMIT * pow2(
            2044,
        )),
{
    let ghost unit = pow2(2044) as int;
    proof {
        lemma_pow2_pos(2044);
        lemma_top_magnitude(large as int);
        lemma_top_magnitude(small as int);
        lemma_magnitude_order(small as int, large as int);
    }
    if large / SPAN < TOP_EXPONENT {
        return true;
    }
    let head: u64 = SPAN + large % SPAN;
    let room: u64 = SUM_LIMIT - 2 * head;
    let ghost extra = magnitude_units(small as int);
    assert(magnitude_units(large as int) + extra < SUM_LIMIT * unit <==> extra < room * unit)
        by (nonlinear_arith)
        requires
            magnitude_units(large as int) == 2 * head * unit,
            room == SUM_LIMIT - 2 * head,
    ;
    let exponent: u64 = small / SPAN;
    if exponent >= TOP_EXPONENT {
        let tail: u64 = SPAN + small % SPAN;
        assert(extra < room * unit <==> 2 * tail < room) by (nonlinear_arith)
            requires
                extra == 2 * tail * unit,
                unit > 0,
        ;
        return 2 * tail < room;
    }
    if exponent <= 1992 {
        proof {
            lemma_small_magnitude(small as int);
            assert(unit <= room * unit) by (nonlinear_arith)
                requires
                    room >= 1,
                    unit > 0,
            ;
        }
        return true;
    }
    let tail: u64 = SPAN + small % SPAN;
    let shift: u64 = 2045 - exponent;
    let power: u64 = power_of_two(shift);
    proof {
        let step = pow2((exponent - 1) as nat) as int;
        lemma_pow2_adds((exponent - 1) as nat, shift as nat);
        lemma_pow2_pos((exponent - 1) as nat);
        assert(unit == step * power);
        assert(extra == tail * step);
        assert(tail * step < room * (step * power) <==> tail < room * power) by (nonlinear_arith)
            requires
                step > 0,
        ;
    }
    assert(room as u128 * power as u128 <= 0x1_0000_0000_0000_0000 * 0x1_0000_0000_0000_0000 - 1)
        by (nonlinear_arith)
        requires
            0 <= room < 0x1_0000_0000_0000_0000,
            0 <= power < 0x1_0000_0000_0000_0000,
    ;
    (tail as u128) < (room as u128) * (power as u128)
}

/// A magnitude of a small exponent is less than one unit of the limit of sums.
proof fn lemma_small_magnitude(a: int)
    requires
        0 <= a,
        a / (SPAN as int) <= 1992,
    ensures
        magnitude_units(a) < pow2(2044),
{
    let span = SPAN as int;
    lemma2_to64();
    lemma2_to64_rest();
    lemma_pow2_adds(53, 1991);
    lemma_pow2_pos(1991);
    if a < span {
        lemma_pow2_strictly_increases(52, 2044);
    } else {
        let exponent = a / span;
        let power = pow2((exponent - 1) as nat) as int;
        if exponent - 1 < 1991 {
            lemma_pow2_strictly_increases((exponent - 1) as nat, 1991);
        }
        assert(pow2(53) == 2 * span);
        assert((span + a % span) * power < 2 * span * pow2(1991)) by (nonlinear_arith)
            requires
                0 <= a % span < span,
                0 <= power <= pow2(1991),
                pow2(1991) > 0,
        ;
    }
}

/// A larger magnitude is a larger number.
pub proof fn lemma_magnitude_order(a: int, b: int)
    requires
        0 <= a,
        0 <= b,
    ensures
        a < b ==> magnitude_units(a) < magnitude_units(b),
        a <= b ==> magnitude_units(a) <= magnitude_units(b),
        a == 0 ==> magnitude_units(a) == 0,
{
    let span = SPAN as int;
    if a < b {
        if b < span {
        } else if a < span {
            let power = pow2((b / span - 1) as nat) as int;
            lemma_pow2_pos((b / span - 1) as nat);
            assert((span + b % span) * power >= span) by (nonlinear_arith)
                requires
                    power >= 1,
                    span >= 1,
                    b >= 0,
                    0 <= b % span,
            ;
        } else {
            let ea = (a / span - 1) as nat;
            let eb = (b / span - 1) as nat;
            lemma_pow2_pos(ea);
            lemma_pow2_pos(eb);
            assert(a == span * (a / span) + a % span) by (nonlinear_arith)
                requires
                    span > 0,
            ;
            assert(b == span * (b / span) + b % span) by (nonlinear_arith)
                requires
                    span > 0,
            ;
            if ea == eb {
                assert((span + a % span) * pow2(ea) < (span + b % span) * pow2(eb))
                    by (nonlinear_arith)
                    requires
                        a % span < b % span,
                        pow2(ea) == pow2(eb),
                        pow2(ea) > 0,
                ;
            } else {
                assert(ea < eb) by {
                    assert(a / span <= b / span) by (nonlinear_arith)
                        requires
                            a < b,
                            span > 0,
                    ;
                }
                lemma_pow2_adds(1, ea);
                lemma2_to64();
                assert(pow2(ea + 1) == 2 * pow2(ea));
                if ea + 1 < eb {
                    lemma_pow2_strictly_increases(ea + 1, eb);
                }
                assert((span + a % span) * pow2(ea) < (span + b % span) * pow2(eb))
                    by (nonlinear_arith)
                    requires
                        0 <= a % span < span,
                        0 <= b % span,
                        pow2(eb) >= 2 * pow2(ea),
                        pow2(ea) > 0,
                ;
            }
        }
    }
}

/// The bit patterns of one and of the motion limit stand for the numbers 1 and 32768.
pub proof fn lemma_constants()
    ensures
        Binary64::zero().units() == 0,
        Binary64::one().units() == pow2(1074),
        Binary64::motion_limit().units() == 32768 * pow2(1074),
{
    lemma2_to64();
    lemma2_to64_rest();
    lemma_pow2_adds(52, 1022);
    lemma_pow2_adds(52, 1037);
    lemma_pow2_adds(15, 1074);
    assert(Binary64::one().magnitude() % (SPAN as int) == 0);
    assert(Binary64::one().magnitude() / (SPAN as int) == 1023);
    assert(Binary64::motion_limit().magnitude() % (SPAN as int) == 0);
    assert(Binary64::motion_limit().magnitude() / (SPAN as int) == 1038);
    assert(pow2(52) == SPAN);
}

} // verus!
