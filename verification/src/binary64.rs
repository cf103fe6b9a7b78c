//! IEEE 754 binary64 arithmetic on the bits of the numbers.
//!
//! Prices, percentages and scores are binary64 numbers. The library holds them by their bits
//! and computes on them with integers, so that every result is the exact result of the
//! operation, rounded to the nearest number with ties to even.
use vstd::prelude::*;
use crate::rounding::{power_of_two, round_cell, BLOCK, INFINITY};

verus! {

/// The bit that marks a negative number.
pub const SIGN: u64 = 0x8000_0000_0000_0000;

/// The bits of the not-a-number value that invalid operations give.
pub const NAN_BITS: u64 = 0x7FF8_0000_0000_0000;

/// One is two to this power times the unit in which magnitudes are measured.
pub const UNIT_EXPONENT: u32 = 1074;

/// A binary64 number. `==` compares the bits; `eq_number` compares the numbers.
#[derive(Clone, Copy, PartialEq, Eq, Structural, Debug)]
pub struct Binary64 {
    pub bits: u64,
}

impl Binary64 {
    pub open spec fn spec_is_negative(self) -> bool {
        self.bits >= SIGN
    }

    /// The bits without the sign.
    pub open spec fn spec_magnitude(self) -> u64 {
        if self.bits >= SIGN {
            (self.bits - SIGN) as u64
        } else {
            self.bits
        }
    }

    pub open spec fn spec_is_nan(self) -> bool {
        self.spec_magnitude() > INFINITY
    }

    pub open spec fn spec_is_finite(self) -> bool {
        self.spec_magnitude() < INFINITY
    }

    pub open spec fn infinite(self) -> bool {
        self.spec_magnitude() == INFINITY
    }

    pub open spec fn zero(self) -> bool {
        self.spec_magnitude() == 0
    }

    /// The number with the given sign and magnitude bits.
    pub open spec fn spec_signed(negative: bool, magnitude: u64) -> Binary64 {
        Binary64 { bits: if negative { (SIGN + magnitude) as u64 } else { magnitude } }
    }

    pub open spec fn spec_nan() -> Binary64 {
        Binary64 { bits: NAN_BITS }
    }

    /// The size of a finite number, in units of two to the power -1074.
    pub open spec fn size(self) -> nat {
        crate::rounding::magnitude_value(self.spec_magnitude())
    }

    /// A finite number, in units of two to the power -1074.
    pub open spec fn value(self) -> int {
        if self.spec_is_negative() {
            -(self.size() as int)
        } else {
            self.size() as int
        }
    }

    /// Numbers that are not not-a-number are ordered as these integers are.
    pub open spec fn order_key(self) -> int {
        if self.spec_is_negative() {
            -(self.spec_magnitude() as int)
        } else {
            self.spec_magnitude() as int
        }
    }

    /// The value of one, in units of two to the power -1074.
    pub open spec fn one_value() -> nat {
        crate::rounding::exp2(UNIT_EXPONENT as nat)
    }

    pub open spec fn spec_lt(self, other: Binary64) -> bool {
        !self.spec_is_nan() && !other.spec_is_nan() && self.order_key() < other.order_key()
    }

    pub open spec fn spec_le(self, other: Binary64) -> bool {
        !self.spec_is_nan() && !other.spec_is_nan() && self.order_key() <= other.order_key()
    }

    pub open spec fn spec_eq_number(self, other: Binary64) -> bool {
        !self.spec_is_nan() && !other.spec_is_nan() && self.order_key() == other.order_key()
    }

    pub open spec fn spec_negated(self) -> Binary64 {
        Self::spec_signed(!self.spec_is_negative(), self.spec_magnitude())
    }

    pub open spec fn spec_absolute(self) -> Binary64 {
        Self::spec_signed(false, self.spec_magnitude())
    }

    /// The sum, rounded.
    #[verifier::opaque]
    pub open spec fn spec_plus(self, other: Binary64) -> Binary64 {
        if self.spec_is_nan() || other.spec_is_nan() {
            Self::spec_nan()
        } else if self.infinite() {
            if other.infinite() && self.spec_is_negative() != other.spec_is_negative() {
                Self::spec_nan()
            } else {
                self
            }
        } else if other.infinite() {
            other
        } else {
            let total = self.value() + other.value();
            if total == 0 {
                Self::spec_signed(self.spec_is_negative() && other.spec_is_negative(), 0)
            } else if total < 0 {
                Self::spec_signed(true, crate::rounding::round_ratio((-total) as nat, 1))
            } else {
                Self::spec_signed(false, crate::rounding::round_ratio(total as nat, 1))
            }
        }
    }

    pub open spec fn spec_minus(self, other: Binary64) -> Binary64 {
        self.spec_plus(other.spec_negated())
    }

    /// The product, rounded.
    #[verifier::opaque]
    pub open spec fn spec_times(self, other: Binary64) -> Binary64 {
        let negative = self.spec_is_negative() != other.spec_is_negative();
        if self.spec_is_nan() || other.spec_is_nan() {
            Self::spec_nan()
        } else if self.infinite() || other.infinite() {
            if self.zero() || other.zero() {
                Self::spec_nan()
            } else {
                Self::spec_signed(negative, INFINITY)
            }
        } else {
            Self::spec_signed(
                negative,
                crate::rounding::round_ratio(self.size() * other.size(), Self::one_value()),
            )
        }
    }

    /// The quotient, rounded.
    #[verifier::opaque]
    pub open spec fn spec_over(self, other: Binary64) -> Binary64 {
        let negative = self.spec_is_negative() != other.spec_is_negative();
        if self.spec_is_nan() || other.spec_is_nan() {
            Self::spec_nan()
        } else if self.infinite() {
            if other.infinite() {
                Self::spec_nan()
            } else {
                Self::spec_signed(negative, INFINITY)
            }
        } else if other.infinite() {
            Self::spec_signed(negative, 0)
        } else if other.zero() {
            if self.zero() {
                Self::spec_nan()
            } else {
                Self::spec_signed(negative, INFINITY)
            }
        } else {
            Self::spec_signed(
                negative,
                crate::rounding::round_ratio(self.size() * Self::one_value(), other.size()),
            )
        }
    }

    /// The number nearest to the whole number `n`.
    #[verifier::opaque]
    pub open spec fn spec_from_u64(n: u64) -> Binary64 {
        Self::spec_signed(false, crate::rounding::round_ratio(n as nat * Self::one_value(), 1))
    }

    pub open spec fn spec_from_i64(n: i64) -> Binary64 {
        if n < 0 {
            Self::spec_from_u64((-n) as u64).spec_negated()
        } else {
            Self::spec_from_u64(n as u64)
        }
    }

    /// The decimal number `n / d`, rounded.
    pub open spec fn spec_ratio(n: u64, d: u64) -> Binary64 {
        Self::spec_from_u64(n).spec_over(Self::spec_from_u64(d))
    }

    /// The whole part, held to the range of the result; nothing is left of not-a-number.
    #[verifier::opaque]
    pub open spec fn spec_to_u64(self) -> u64 {
        if self.spec_is_nan() || self.spec_is_negative() {
            0
        } else if self.infinite() || self.size() / Self::one_value() > u64::MAX {
            u64::MAX
        } else {
            (self.size() / Self::one_value()) as u64
        }
    }

    pub open spec fn spec_to_u32(self) -> u32 {
        let whole = self.spec_to_u64();
        if whole > u32::MAX {
            u32::MAX
        } else {
            whole as u32
        }
    }

    pub open spec fn spec_at_most(self, bound: Binary64) -> Binary64 {
        if self.spec_is_nan() || bound.spec_lt(self) {
            bound
        } else {
            self
        }
    }

    pub open spec fn spec_at_least(self, bound: Binary64) -> Binary64 {
        if self.spec_is_nan() || self.spec_lt(bound) {
            bound
        } else {
            self
        }
    }

    pub open spec fn spec_clamped(self, low: Binary64, high: Binary64) -> Binary64 {
        if self.spec_lt(low) {
            low
        } else if high.spec_lt(self) {
            high
        } else {
            self
        }
    }

    #[verifier::when_used_as_spec(spec_is_negative)]
    pub fn is_negative(self) -> (r: bool)
        ensures
            r == self.spec_is_negative(),
    {
        self.bits >= SIGN
    }

    #[verifier::when_used_as_spec(spec_magnitude)]
    pub fn magnitude(self) -> (r: u64)
        ensures
            r == self.spec_magnitude(),
    {
        if self.bits >= SIGN {
            self.bits - SIGN
        } else {
            self.bits
        }
    }

    #[verifier::when_used_as_spec(spec_is_nan)]
    pub fn is_nan(self) -> (r: bool)
        ensures
            r == self.spec_is_nan(),
    {
        self.magnitude() > INFINITY
    }

    #[verifier::when_used_as_spec(spec_is_finite)]
    pub fn is_finite(self) -> (r: bool)
        ensures
            r == self.spec_is_finite(),
    {
        self.magnitude() < INFINITY
    }

    /// Only for magnitudes below the sign bit.
    #[verifier::when_used_as_spec(spec_signed)]
    fn signed(negative: bool, magnitude: u64) -> (r: Binary64)
        requires
            magnitude < SIGN,
        ensures
            r == Self::spec_signed(negative, magnitude),
    {
        Binary64 {
            bits: if negative {
                SIGN + magnitude
            } else {
                magnitude
            },
        }
    }

    #[verifier::when_used_as_spec(spec_nan)]
    pub fn nan() -> (r: Binary64)
        ensures
            r == Self::spec_nan(),
    {
        Binary64 { bits: NAN_BITS }
    }

    #[verifier::when_used_as_spec(spec_lt)]
    pub fn lt(self, other: Binary64) -> (r: bool)
        ensures
            r == self.spec_lt(other),
    {
        if self.is_nan() || other.is_nan() {
            return false;
        }
        let a: u64 = self.magnitude();
        let b: u64 = other.magnitude();
        if self.is_negative() {
            if other.is_negative() {
                b < a
            } else {
                a > 0 || b > 0
            }
        } else {
            !other.is_negative() && a < b
        }
    }

    #[verifier::when_used_as_spec(spec_le)]
    pub fn le(self, other: Binary64) -> (r: bool)
        ensures
            r == self.spec_le(other),
    {
        !self.is_nan() && !other.is_nan() && !other.lt(self)
    }

    #[verifier::when_used_as_spec(spec_eq_number)]
    pub fn eq_number(self, other: Binary64) -> (r: bool)
        ensures
            r == self.spec_eq_number(other),
    {
        self.le(other) && other.le(self)
    }

    #[verifier::when_used_as_spec(spec_negated)]
    pub fn negated(self) -> (r: Binary64)
        ensures
            r == self.spec_negated(),
    {
        Self::signed(!self.is_negative(), self.magnitude())
    }

    #[verifier::when_used_as_spec(spec_absolute)]
    pub fn absolute(self) -> (r: Binary64)
        ensures
            r == self.spec_absolute(),
    {
        Self::signed(false, self.magnitude())
    }

    #[verifier::when_used_as_spec(spec_at_most)]
    pub fn at_most(self, bound: Binary64) -> (r: Binary64)
        ensures
            r == self.spec_at_most(bound),
    {
        if self.is_nan() || bound.lt(self) {
            bound
        } else {
            self
        }
    }

    #[verifier::when_used_as_spec(spec_at_least)]
    pub fn at_least(self, bound: Binary64) -> (r: Binary64)
        ensures
            r == self.spec_at_least(bound),
    {
        if self.is_nan() || self.lt(bound) {
            bound
        } else {
            self
        }
    }

    #[verifier::when_used_as_spec(spec_clamped)]
    pub fn clamped(self, low: Binary64, high: Binary64) -> (r: Binary64)
        ensures
            r == self.spec_clamped(low, high),
    {
        if self.lt(low) {
            low
        } else if high.lt(self) {
            high
        } else {
            self
        }
    }

    #[verifier::when_used_as_spec(spec_from_u64)]
    pub fn from_u64(n: u64) -> (r: Binary64)
        ensures
            r == Self::spec_from_u64(n),
            !r.spec_is_negative(),
    {
        proof {
            reveal(Binary64::spec_from_u64);
        }
        if n == 0 {
            proof {
                crate::rounding::lemma_round_zero(1);
                assert(0 * Self::one_value() == 0) by (nonlinear_arith);
            }
            return Binary64 { bits: 0 };
        }
        let ghost num = n as nat * Self::one_value();
        proof {
            crate::rounding::lemma_exp2_values();
            crate::rounding::lemma_exp2_monotone(64, 127);
            lemma_exact_cell(num, 0, n as nat, UNIT_EXPONENT as nat);
        }
        let m: u64 = round_cell(n as u128, 1074, false, Ghost(num), Ghost(1nat));
        proof {
            crate::rounding::lemma_round_bound(num, 1);
        }
        Self::signed(false, m)
    }

    #[verifier::when_used_as_spec(spec_from_i64)]
    pub fn from_i64(n: i64) -> (r: Binary64)
        ensures
            r == Self::spec_from_i64(n),
    {
        if n < 0 {
            let size: u64 = (-(n as i128)) as u64;
            Self::from_u64(size).negated()
        } else {
            Self::from_u64(n as u64)
        }
    }

    #[verifier::when_used_as_spec(spec_times)]
    pub fn times(self, other: Binary64) -> (r: Binary64)
        ensures
            r == self.spec_times(other),
    {
        proof {
            reveal(Binary64::spec_times);
        }
        if self.is_nan() || other.is_nan() {
            return Self::nan();
        }
        let negative: bool = self.is_negative() != other.is_negative();
        let (ma, mb) = (self.magnitude(), other.magnitude());
        if ma == INFINITY || mb == INFINITY {
            if ma == 0 || mb == 0 {
                return Self::nan();
            }
            return Self::signed(negative, INFINITY);
        }
        let (sa, ga) = split_magnitude(ma);
        let (sb, gb) = split_magnitude(mb);
        let ghost num = self.size() * other.size();
        let ghost den = Self::one_value();
        proof {
            crate::rounding::lemma_exp2_values();
            crate::rounding::lemma_exp2_positive(UNIT_EXPONENT as nat);
            assert(sa as nat * sb as nat <= (2 * BLOCK) * (2 * BLOCK)) by (nonlinear_arith)
                requires
                    sa < 2 * BLOCK,
                    sb < 2 * BLOCK,
            ;
        }
        if ma == 0 || mb == 0 {
            proof {
                assert(num == 0) by (nonlinear_arith)
                    requires
                        num == self.size() * other.size(),
                        self.size() == sa as nat * crate::rounding::exp2(ga as nat),
                        other.size() == sb as nat * crate::rounding::exp2(gb as nat),
                        sa == 0 || sb == 0,
                ;
                crate::rounding::lemma_round_zero(den);
            }
            return Self::signed(negative, 0);
        }
        let sig: u128 = sa as u128 * sb as u128;
        proof {
            crate::rounding::lemma_exp2_sum(ga as nat, gb as nat);
            let x = crate::rounding::exp2(ga as nat);
            let y = crate::rounding::exp2(gb as nat);
            assert((sa as nat * x) * (sb as nat * y) == (sa as nat * sb as nat) * (x * y))
                by (nonlinear_arith);
            assert(sig > 0) by (nonlinear_arith)
                requires
                    sig == sa * sb,
                    sa > 0,
                    sb > 0,
            ;
            crate::rounding::lemma_exp2_sum(53, 53);
            assert(sig < crate::rounding::exp2(106)) by (nonlinear_arith)
                requires
                    sig == sa * sb,
                    sa < crate::rounding::exp2(53),
                    sb < crate::rounding::exp2(53),
                    crate::rounding::exp2(106) == crate::rounding::exp2(53)
                        * crate::rounding::exp2(53),
            ;
            crate::rounding::lemma_exp2_monotone(106, 127);
            lemma_exact_cell(num, UNIT_EXPONENT as nat, sig as nat, ga as nat + gb as nat);
            crate::rounding::lemma_round_bound(num, den);
        }
        let m: u64 = round_cell(sig, ga + gb - 1074, false, Ghost(num), Ghost(den));
        Self::signed(negative, m)
    }

    #[verifier::when_used_as_spec(spec_over)]
    pub fn over(self, other: Binary64) -> (r: Binary64)
        ensures
            r == self.spec_over(other),
    {
        proof {
            reveal(Binary64::spec_over);
        }
        if self.is_nan() || other.is_nan() {
            return Self::nan();
        }
        let negative: bool = self.is_negative() != other.is_negative();
        let (ma, mb) = (self.magnitude(), other.magnitude());
        if ma == INFINITY {
            if mb == INFINITY {
                return Self::nan();
            }
            return Self::signed(negative, INFINITY);
        }
        if mb == INFINITY {
            return Self::signed(negative, 0);
        }
        if mb == 0 {
            if ma == 0 {
                return Self::nan();
            }
            return Self::signed(negative, INFINITY);
        }
        let (sa, ga) = split_magnitude(ma);
        let (sb, gb) = split_magnitude(mb);
        let ghost num = self.size() * Self::one_value();
        let ghost den = other.size();
        proof {
            crate::rounding::lemma_exp2_values();
            crate::rounding::lemma_exp2_positive(gb as nat);
            assert(den > 0) by (nonlinear_arith)
                requires
                    den == sb as nat * crate::rounding::exp2(gb as nat),
                    sb > 0,
                    crate::rounding::exp2(gb as nat) >= 1,
            ;
        }
        if ma == 0 {
            proof {
                assert(num == 0) by (nonlinear_arith)
                    requires
                        num == self.size() * Self::one_value(),
                        self.size() == sa as nat * crate::rounding::exp2(ga as nat),
                        sa == 0,
                ;
                crate::rounding::lemma_round_zero(den);
            }
            return Self::signed(negative, 0);
        }
        let (na, j) = normalized(sa);
        let factor: u128 = power_of_two(74);
        proof {
            crate::rounding::lemma_exp2_sum(53, 74);
            crate::rounding::lemma_exp2_sum(52, 74);
            crate::rounding::lemma_exp2_monotone(127, 128);
            assert((na as nat) * (factor as nat) < crate::rounding::exp2(127)) by (nonlinear_arith)
                requires
                    na < crate::rounding::exp2(53),
                    factor == crate::rounding::exp2(74),
                    factor > 0,
                    crate::rounding::exp2(127) == crate::rounding::exp2(53)
                        * crate::rounding::exp2(74),
            ;
        }
        let wide: u128 = na as u128 * factor;
        let sig: u128 = wide / sb as u128;
        let inexact: bool = wide % sb as u128 != 0;
        let e: i32 = ga - j as i32 + 1000 - gb;
        proof {
            vstd::arithmetic::div_mod::lemma_fundamental_div_mod(wide as int, sb as int);
            crate::rounding::lemma_exp2_sum(73, 53);
            crate::rounding::lemma_exp2_monotone(54, 73);
            assert(sig >= crate::rounding::exp2(73)) by (nonlinear_arith)
                requires
                    wide == sb * sig + wide % sb as u128,
                    (wide % (sb as u128)) < sb,
                    wide == na * factor,
                    na >= crate::rounding::exp2(52),
                    factor == crate::rounding::exp2(74),
                    crate::rounding::exp2(126) == crate::rounding::exp2(52)
                        * crate::rounding::exp2(74),
                    crate::rounding::exp2(126) == crate::rounding::exp2(73)
                        * crate::rounding::exp2(53),
                    sb < crate::rounding::exp2(53),
            ;
            assert(sig <= wide) by (nonlinear_arith)
                requires
                    wide == sb * sig + wide % sb as u128,
                    wide % sb as u128 >= 0,
                    sb >= 1,
            ;
            lemma_quotient_cell(
                num,
                den,
                sa as nat,
                ga as nat,
                sb as nat,
                gb as nat,
                j as nat,
                na as nat,
                sig as nat,
                (wide % sb as u128) as nat,
                e as int,
            );
            crate::rounding::lemma_exp2_positive(73);
            crate::rounding::lemma_round_bound(num, den);
        }
        let m: u64 = round_cell(sig, e, inexact, Ghost(num), Ghost(den));
        Self::signed(negative, m)
    }

    #[verifier::when_used_as_spec(spec_ratio)]
    pub fn ratio(n: u64, d: u64) -> (r: Binary64)
        ensures
            r == Self::spec_ratio(n, d),
    {
        Self::from_u64(n).over(Self::from_u64(d))
    }

    #[verifier::when_used_as_spec(spec_plus)]
    pub fn plus(self, other: Binary64) -> (r: Binary64)
        ensures
            r == self.spec_plus(other),
    {
        proof {
            reveal(Binary64::spec_plus);
        }
        if self.is_nan() || other.is_nan() {
            return Self::nan();
        }
        let (ma, mb) = (self.magnitude(), other.magnitude());
        if ma == INFINITY {
            if mb == INFINITY && self.is_negative() != other.is_negative() {
                return Self::nan();
            }
            return self;
        }
        if mb == INFINITY {
            return other;
        }
        if ma >= mb {
            sum_of_finite(self, other)
        } else {
            sum_of_finite(other, self)
        }
    }

    #[verifier::when_used_as_spec(spec_minus)]
    pub fn minus(self, other: Binary64) -> (r: Binary64)
        ensures
            r == self.spec_minus(other),
    {
        self.plus(other.negated())
    }

    #[verifier::when_used_as_spec(spec_to_u64)]
    pub fn to_u64(self) -> (r: u64)
        ensures
            r == self.spec_to_u64(),
    {
        proof {
            reveal(Binary64::spec_to_u64);
        }
        if self.is_nan() || self.is_negative() {
            return 0;
        }
        let m: u64 = self.magnitude();
        if m == INFINITY {
            return u64::MAX;
        }
        let (steps, gap) = split_magnitude(m);
        let ghost one = Self::one_value();
        proof {
            crate::rounding::lemma_exp2_values();
            crate::rounding::lemma_exp2_positive(UNIT_EXPONENT as nat);
        }
        if gap >= 1074 {
            let k: i32 = gap - 1074;
            let ghost x = crate::rounding::exp2(k as nat);
            proof {
                crate::rounding::lemma_exp2_sum(1074, k as nat);
                assert(self.size() == (steps as nat * x) * one + 0) by (nonlinear_arith)
                    requires
                        self.size() == steps as nat * crate::rounding::exp2(gap as nat),
                        crate::rounding::exp2(gap as nat) == one * x,
                ;
                crate::rounding::lemma_quotient(self.size(), one, steps as nat * x, 0);
            }
            if k >= 12 {
                proof {
                    crate::rounding::lemma_exp2_monotone(12, k as nat);
                    crate::rounding::lemma_exp2_sum(52, 12);
                    assert(steps as nat * x >= crate::rounding::exp2(64)) by (nonlinear_arith)
                        requires
                            steps >= crate::rounding::exp2(52),
                            x >= crate::rounding::exp2(12),
                            crate::rounding::exp2(64) == crate::rounding::exp2(52)
                                * crate::rounding::exp2(12),
                    ;
                }
                return u64::MAX;
            }
            let factor: u128 = power_of_two(k as u32);
            proof {
                crate::rounding::lemma_exp2_monotone(k as nat, 11);
                assert(steps as nat * factor as nat <= (2 * BLOCK) * 2048) by (nonlinear_arith)
                    requires
                        steps < 2 * BLOCK,
                        factor <= 2048,
                ;
            }
            let whole: u128 = steps as u128 * factor;
            if whole > u64::MAX as u128 {
                u64::MAX
            } else {
                whole as u64
            }
        } else {
            let k: i32 = 1074 - gap;
            let ghost x = crate::rounding::exp2(gap as nat);
            let ghost y = crate::rounding::exp2(k as nat);
            proof {
                crate::rounding::lemma_exp2_sum(k as nat, gap as nat);
                crate::rounding::lemma_exp2_positive(gap as nat);
                crate::rounding::lemma_exp2_positive(k as nat);
                vstd::arithmetic::div_mod::lemma_fundamental_div_mod(steps as int, y as int);
                let q = steps as nat / y;
                let rem = steps as nat % y;
                assert(self.size() == q * one + rem * x) by (nonlinear_arith)
                    requires
                        self.size() == steps as nat * x,
                        steps == y * q + rem,
                        one == y * x,
                ;
                assert(rem * x < one) by (nonlinear_arith)
                    requires
                        rem < y,
                        one == y * x,
                        x >= 1,
                ;
                crate::rounding::lemma_quotient(self.size(), one, q, rem * x);
            }
            if k >= 53 {
                proof {
                    crate::rounding::lemma_exp2_monotone(53, k as nat);
                    crate::rounding::lemma_quotient(steps as nat, y, 0, steps as nat);
                }
                return 0;
            }
            let divisor: u128 = power_of_two(k as u32);
            (steps as u128 / divisor) as u64
        }
    }

    #[verifier::when_used_as_spec(spec_to_u32)]
    pub fn to_u32(self) -> (r: u32)
        ensures
            r == self.spec_to_u32(),
    {
        let whole: u64 = self.to_u64();
        if whole > u32::MAX as u64 {
            u32::MAX
        } else {
            whole as u32
        }
    }
}

/// Doubles the steps of a nonzero magnitude until they fill a block; the second part counts
/// the doublings.
fn normalized(steps: u64) -> (r: (u64, u32))
    requires
        0 < steps < 2 * BLOCK,
    ensures
        BLOCK <= r.0 < 2 * BLOCK,
        r.1 <= 52,
        r.0 == steps * crate::rounding::exp2(r.1 as nat),
{
    let mut n: u64 = steps;
    let mut j: u32 = 0;
    proof {
        crate::rounding::lemma_exp2_values();
        assert(steps * 1 == steps) by (nonlinear_arith);
    }
    while n < BLOCK
        invariant
            0 < steps,
            0 < n < 2 * BLOCK,
            n == steps * crate::rounding::exp2(j as nat),
            j <= 52,
        decreases 2 * BLOCK - n,
    {
        proof {
            crate::rounding::lemma_exp2_step(j as nat);
            crate::rounding::lemma_exp2_values();
            let x = crate::rounding::exp2(j as nat);
            assert(steps * x >= x) by (nonlinear_arith)
                requires
                    steps >= 1,
            ;
            if j == 52 {
                assert(x == BLOCK);
            }
            assert(steps * (2 * x) == 2 * (steps * x)) by (nonlinear_arith);
        }
        n = n * 2;
        j = j + 1;
    }
    (n, j)
}

/// The cell of a quotient, from the quotient of the normalized steps.
proof fn lemma_quotient_cell(
    num: nat,
    den: nat,
    sa: nat,
    ga: nat,
    sb: nat,
    gb: nat,
    j: nat,
    na: nat,
    sig: nat,
    rem: nat,
    e: int,
)
    requires
        num == (sa * crate::rounding::exp2(ga)) * crate::rounding::exp2(1074),
        den == sb * crate::rounding::exp2(gb),
        na == sa * crate::rounding::exp2(j),
        na * crate::rounding::exp2(74) == sb * sig + rem,
        rem < sb,
        e == ga - j + 1000 - gb,
    ensures
        crate::rounding::in_cell(num, den, sig, e, rem != 0),
{
    let a: nat = if e < 0 {
        (-e) as nat
    } else {
        0
    };
    let b: nat = if e < 0 {
        0
    } else {
        e as nat
    };
    let w = gb + b;
    let x = crate::rounding::exp2(w);
    crate::rounding::lemma_exp2_positive(w);
    crate::rounding::lemma_exp2_sum(gb, b);
    crate::rounding::lemma_exp2_sum(ga, 1074);
    crate::rounding::lemma_exp2_sum(ga + 1074, a);
    crate::rounding::lemma_exp2_sum(j, 74);
    crate::rounding::lemma_exp2_sum(j + 74, w);
    assert(ga + 1074 + a == j + 74 + w);
    let scaled = num * crate::rounding::exp2(a);
    let cell = den * crate::rounding::exp2(b);
    assert(cell == sb * x) by (nonlinear_arith)
        requires
            cell == (sb * crate::rounding::exp2(gb)) * crate::rounding::exp2(b),
            x == crate::rounding::exp2(gb) * crate::rounding::exp2(b),
    ;
    let u = crate::rounding::exp2(ga);
    let v = crate::rounding::exp2(1074);
    let y = crate::rounding::exp2(a);
    let p = crate::rounding::exp2(j);
    let q = crate::rounding::exp2(74);
    assert(scaled == sa * ((u * v) * y)) by (nonlinear_arith)
        requires
            scaled == ((sa * u) * v) * y,
    ;
    assert((sa * p) * q * x == sa * ((p * q) * x)) by (nonlinear_arith);
    assert(scaled == (sb * sig + rem) * x);
    assert((sb * sig + rem) * x == sig * (sb * x) + rem * x) by (nonlinear_arith);
    assert((sig + 1) * cell == sig * cell + cell) by (nonlinear_arith);
    assert(rem * x < sb * x) by (nonlinear_arith)
        requires
            rem < sb,
            x >= 1,
    ;
    assert(rem != 0 ==> rem * x > 0) by (nonlinear_arith)
        requires
            x >= 1,
    ;
    assert(rem == 0 ==> rem * x == 0) by (nonlinear_arith);
}

/// The rounded sum of finite numbers, the larger one first.
fn sum_of_finite(large: Binary64, small: Binary64) -> (r: Binary64)
    requires
        large.spec_is_finite(),
        small.spec_is_finite(),
        large.spec_magnitude() >= small.spec_magnitude(),
    ensures
        r == large.spec_plus(small),
        r == small.spec_plus(large),
{
    let opposite: bool = large.is_negative() != small.is_negative();
    let (sa, ga) = split_magnitude(large.magnitude());
    let (sb, gb) = split_magnitude(small.magnitude());
    let ghost total = if opposite {
        large.size() - small.size()
    } else {
        large.size() as int + small.size()
    };
    proof {
        reveal(Binary64::spec_plus);
        crate::rounding::lemma_exp2_values();
        crate::rounding::lemma_exp2_positive(gb as nat);
        crate::rounding::lemma_exp2_monotone(117, 127);
    }
    let d: i32 = ga - gb;
    if d <= 64 {
        let factor: u128 = power_of_two(d as u32);
        proof {
            crate::rounding::lemma_exp2_monotone(d as nat, 64);
            crate::rounding::lemma_exp2_sum(53, 64);
            crate::rounding::lemma_exp2_step(117);
            crate::rounding::lemma_exp2_monotone(118, 127);
            assert(sa as nat * factor as nat <= crate::rounding::exp2(117)) by (nonlinear_arith)
                requires
                    sa < crate::rounding::exp2(53),
                    factor <= crate::rounding::exp2(64),
                    crate::rounding::exp2(117) == crate::rounding::exp2(53)
                        * crate::rounding::exp2(64),
            ;
            crate::rounding::lemma_exp2_monotone(53, 117);
            crate::rounding::lemma_exp2_monotone(118, 128);
            crate::rounding::lemma_exp2_sum(gb as nat, d as nat);
            let x = crate::rounding::exp2(gb as nat);
            assert(sa as nat * crate::rounding::exp2(ga as nat) == (sa as nat * factor as nat) * x)
                by (nonlinear_arith)
                requires
                    crate::rounding::exp2(ga as nat) == x * factor,
            ;
            assert(factor >= 1);
            assert(sa as nat * factor as nat >= sa) by (nonlinear_arith)
                requires
                    factor >= 1,
            ;
            if d > 0 {
                crate::rounding::lemma_exp2_monotone(1, d as nat);
                assert(sa as nat * factor as nat >= 2 * sa as nat) by (nonlinear_arith)
                    requires
                        factor >= 2,
                ;
            }
        }
        let wide: u128 = sa as u128 * factor;
        let sig: u128 = if opposite {
            wide - sb as u128
        } else {
            wide + sb as u128
        };
        proof {
            let x = crate::rounding::exp2(gb as nat);
            assert(total == sig as nat * x) by (nonlinear_arith)
                requires
                    opposite ==> total == wide as nat * x - sb as nat * x,
                    !opposite ==> total == wide as nat * x + sb as nat * x,
                    opposite ==> sig == wide - sb,
                    !opposite ==> sig == wide + sb,
            ;
            assert(sig > 0 ==> total > 0) by (nonlinear_arith)
                requires
                    total == sig as nat * x,
                    x >= 1,
            ;
            assert(sig == 0 ==> total == 0) by (nonlinear_arith)
                requires
                    total == sig as nat * x,
            ;
            lemma_exact_cell(total as nat, 0, sig as nat, gb as nat);
        }
        if sig == 0 {
            return Binary64::signed(large.is_negative() && small.is_negative(), 0);
        }
        let m: u64 = round_cell(sig, gb, false, Ghost(total as nat), Ghost(1nat));
        proof {
            crate::rounding::lemma_round_bound(total as nat, 1);
        }
        Binary64::signed(large.is_negative(), m)
    } else {
        let inexact: bool = sb != 0;
        let whole: u128 = sa as u128 * 2048;
        let sig: u128 = if opposite && inexact {
            whole - 1
        } else {
            whole
        };
        proof {
            lemma_distant_cell(
                total,
                sa as nat,
                ga as nat,
                sb as nat,
                gb as nat,
                opposite,
            );
            crate::rounding::lemma_exp2_sum(53, 11);
            crate::rounding::lemma_exp2_monotone(64, 127);
            crate::rounding::lemma_round_bound(total as nat, 1);
        }
        let m: u64 = round_cell(sig, ga - 11, inexact, Ghost(total as nat), Ghost(1nat));
        Binary64::signed(large.is_negative(), m)
    }
}

/// The cell of the sum or difference of numbers far apart.
proof fn lemma_distant_cell(total: int, sa: nat, ga: nat, sb: nat, gb: nat, opposite: bool)
    requires
        BLOCK <= sa < 2 * BLOCK,
        sb < 2 * BLOCK,
        ga > gb + 64,
        opposite ==> total == sa * crate::rounding::exp2(ga) - sb * crate::rounding::exp2(gb),
        !opposite ==> total == sa * crate::rounding::exp2(ga) + sb * crate::rounding::exp2(gb),
    ensures
        total > 0,
        crate::rounding::in_cell(
            total as nat,
            1,
            (if opposite && sb != 0 {
                sa * 2048 - 1
            } else {
                sa * 2048 as int
            }) as nat,
            ga - 11,
            sb != 0,
        ),
{
    crate::rounding::lemma_exp2_values();
    let k = (ga - 11) as nat;
    let cell = crate::rounding::exp2(k);
    let x = crate::rounding::exp2(gb);
    let y = crate::rounding::exp2((k - gb) as nat);
    crate::rounding::lemma_exp2_sum(k, 11);
    crate::rounding::lemma_exp2_sum(gb, (k - gb) as nat);
    crate::rounding::lemma_exp2_monotone(54, (k - gb) as nat);
    crate::rounding::lemma_exp2_positive(gb);
    assert(sb * x < cell) by (nonlinear_arith)
        requires
            sb < 2 * BLOCK,
            y >= 4 * BLOCK,
            cell == x * y,
            x >= 1,
    ;
    assert(sb > 0 ==> sb * x > 0) by (nonlinear_arith)
        requires
            x >= 1,
    ;
    assert(sb == 0 ==> sb * x == 0) by (nonlinear_arith);
    assert(sa * crate::rounding::exp2(ga) == (sa * 2048) * cell) by (nonlinear_arith)
        requires
            crate::rounding::exp2(ga) == cell * 2048,
    ;
    assert(1 * cell == cell) by (nonlinear_arith);
    assert(total * 1 == total) by (nonlinear_arith);
    assert((sa * 2048) * cell >= cell) by (nonlinear_arith)
        requires
            sa >= 1,
            cell >= 1,
    ;
    assert((sa * 2048 - 1) * cell == (sa * 2048) * cell - cell) by (nonlinear_arith);
    assert((sa * 2048 + 1) * cell == (sa * 2048) * cell + cell) by (nonlinear_arith);
}

/// The steps and the gap of a finite magnitude.
fn split_magnitude(m: u64) -> (r: (u64, i32))
    requires
        m < INFINITY,
    ensures
        r.0 == crate::rounding::magnitude_steps(m),
        r.1 == crate::rounding::magnitude_gap(m),
        r.0 < 2 * BLOCK,
        0 <= r.1 <= 2045,
        r.1 > 0 ==> r.0 >= BLOCK,
        r.0 == 0 <==> m == 0,
        r.1 == 0 ==> r.0 == m,
{
    if m < BLOCK {
        (m, 0)
    } else {
        let gap: u64 = m / BLOCK - 1;
        (m - gap * BLOCK, gap as i32)
    }
}

/// A multiple of a power of two is the start of its cell.
proof fn lemma_exact_cell(num: nat, den_exponent: nat, sig: nat, exponent: nat)
    requires
        num == sig * crate::rounding::exp2(exponent),
    ensures
        crate::rounding::in_cell(
            num,
            crate::rounding::exp2(den_exponent),
            sig,
            exponent - den_exponent,
            false,
        ),
{
    let e = exponent - den_exponent;
    let a: nat = if e < 0 {
        (-e) as nat
    } else {
        0
    };
    let b: nat = if e < 0 {
        0
    } else {
        e as nat
    };
    crate::rounding::lemma_exp2_sum(exponent, a);
    crate::rounding::lemma_exp2_sum(den_exponent, b);
    assert(exponent + a == den_exponent + b);
    let cell = crate::rounding::exp2(den_exponent) * crate::rounding::exp2(b);
    crate::rounding::lemma_exp2_positive(den_exponent + b);
    assert(num * crate::rounding::exp2(a) == sig * cell) by (nonlinear_arith)
        requires
            num == sig * crate::rounding::exp2(exponent),
            crate::rounding::exp2(exponent) * crate::rounding::exp2(a) == cell,
    ;
    assert((sig + 1) * cell == sig * cell + cell) by (nonlinear_arith);
}

/// Finite numbers compare as the values they stand for.
pub proof fn law_order_is_order_of_values(a: Binary64, b: Binary64)
    requires
        a.is_finite(),
        b.is_finite(),
    ensures
        a.lt(b) <==> a.value() < b.value(),
        a.le(b) <==> a.value() <= b.value(),
        a.eq_number(b) <==> a.value() == b.value(),
{
    let (x, y) = (a.magnitude(), b.magnitude());
    if x < y {
        crate::rounding::lemma_magnitude_order(x, y);
    } else if y < x {
        crate::rounding::lemma_magnitude_order(y, x);
    }
    crate::rounding::lemma_exp2_values();
    if x > 0 {
        crate::rounding::lemma_magnitude_order(0, x);
    }
    if y > 0 {
        crate::rounding::lemma_magnitude_order(0, y);
    }
    assert(0 * crate::rounding::exp2(0) == 0) by (nonlinear_arith);
}

/// Whole numbers of at most 53 binary digits are held exactly.
pub proof fn law_whole_numbers_are_exact(n: u64)
    requires
        n < 2 * BLOCK,
    ensures
        Binary64::from_u64(n).is_finite(),
        Binary64::from_u64(n).value() == n * Binary64::one_value(),
        Binary64::from_u64(n).to_u64() == n,
        !Binary64::from_u64(n).is_negative(),
{
    let one = Binary64::one_value();
    let num = n as nat * one;
    reveal(Binary64::spec_from_u64);
    crate::rounding::lemma_round_bound(num, 1);
    lemma_whole_is_finite(n);
    crate::rounding::lemma_round_representable(n as nat, UNIT_EXPONENT as nat);
    reveal(Binary64::spec_to_u64);
    crate::rounding::lemma_exp2_positive(UNIT_EXPONENT as nat);
    crate::rounding::lemma_quotient(num, one, n as nat, 0);
}

proof fn lemma_whole_is_finite(n: u64)
    requires
        n < 2 * BLOCK,
    ensures
        crate::rounding::round_ratio(n as nat * Binary64::one_value(), 1) < INFINITY,
{
    let one = Binary64::one_value();
    let num = n as nat * one;
    crate::rounding::lemma_exp2_values();
    crate::rounding::lemma_exp2_positive(1074);
    if n == 0 {
        assert(num == 0) by (nonlinear_arith)
            requires
                num == n as nat * one,
                n == 0,
        ;
        crate::rounding::lemma_round_zero(1);
    } else {
        crate::rounding::lemma_bit_length_range(n as nat);
        let digits = crate::rounding::bit_length(n as nat);
        if digits > 53 {
            crate::rounding::lemma_exp2_monotone(53, (digits - 1) as nat);
        }
        lemma_exact_cell(num, 0, n as nat, 1074);
        crate::rounding::lemma_cell_digits(num, 1, n as nat, 1074, false, digits);
        let gap = crate::rounding::spacing(num, 1);
        assert(gap == digits + 1021);
        crate::rounding::lemma_half_even_exact(num, 1, n as nat, 1074, gap);
        let k = (1074 - gap) as nat;
        crate::rounding::lemma_exp2_sum(digits, k);
        let y = crate::rounding::exp2(k);
        crate::rounding::lemma_exp2_positive(k);
        assert(n as nat * y < crate::rounding::exp2(digits) * y) by (nonlinear_arith)
            requires
                n < crate::rounding::exp2(digits),
                y >= 1,
        ;
        assert(digits + k == 53);
        reveal(crate::rounding::round_ratio);
    }
}

/// Whole numbers whose sum has at most 53 binary digits are added exactly.
pub proof fn law_whole_sums_are_exact(a: u64, b: u64)
    requires
        a + b < 2 * BLOCK,
    ensures
        Binary64::from_u64(a).plus(Binary64::from_u64(b)) == Binary64::from_u64((a + b) as u64),
{
    law_whole_numbers_are_exact(a);
    law_whole_numbers_are_exact(b);
    let one = Binary64::one_value();
    reveal(Binary64::spec_plus);
    reveal(Binary64::spec_from_u64);
    assert(a * one + b * one == (a + b) * one) by (nonlinear_arith);
    crate::rounding::lemma_exp2_positive(1074);
    assert((a + b) * one == 0 <==> a + b == 0) by (nonlinear_arith)
        requires
            one >= 1,
    ;
    crate::rounding::lemma_round_zero(1);
    assert(0 * one == 0) by (nonlinear_arith);
}

/// Whole numbers whose product has at most 53 binary digits are multiplied exactly.
pub proof fn law_whole_products_are_exact(a: u64, b: u64)
    requires
        a < 2 * BLOCK,
        b < 2 * BLOCK,
        a * b < 2 * BLOCK,
    ensures
        Binary64::from_u64(a).times(Binary64::from_u64(b)) == Binary64::from_u64((a * b) as u64),
{
    law_whole_numbers_are_exact(a);
    law_whole_numbers_are_exact(b);
    let one = Binary64::one_value();
    reveal(Binary64::spec_times);
    reveal(Binary64::spec_from_u64);
    let num = (a * one) * (b * one);
    assert(num == ((a * b) * one) * one) by (nonlinear_arith)
        requires
            num == (a * one) * (b * one),
    ;
    assert(a * b >= 0) by (nonlinear_arith);
    crate::rounding::lemma_exp2_positive(1074);
    crate::rounding::lemma_round_scale(((a * b) * one) as nat, 1, one);
    assert(1 * one == one) by (nonlinear_arith);
}

/// The order of whole numbers of at most 53 binary digits is kept.
pub proof fn law_whole_order_is_kept(a: u64, b: u64)
    requires
        a < 2 * BLOCK,
        b < 2 * BLOCK,
    ensures
        Binary64::from_u64(a).lt(Binary64::from_u64(b)) <==> a < b,
        Binary64::from_u64(a).le(Binary64::from_u64(b)) <==> a <= b,
{
    law_whole_numbers_are_exact(a);
    law_whole_numbers_are_exact(b);
    law_order_is_order_of_values(Binary64::from_u64(a), Binary64::from_u64(b));
    let one = Binary64::one_value();
    crate::rounding::lemma_exp2_positive(1074);
    assert(a < b ==> a * one < b * one) by (nonlinear_arith)
        requires
            one >= 1,
    ;
    assert(a >= b ==> a * one >= b * one) by (nonlinear_arith);
    assert(a > b ==> a * one > b * one) by (nonlinear_arith)
        requires
            one >= 1,
    ;
}

impl Binary64 {
    /// Two numbers that differ in the sign alone; zeros count as such whatever their signs, and
    /// so do two that are no numbers.
    pub open spec fn opposite(self, other: Binary64) -> bool {
        ||| self.is_nan() && other.is_nan()
        ||| !self.is_nan() && !other.is_nan() && self.order_key() == -other.order_key()
    }
}

/// A difference taken the other way round has the opposite sign.
pub proof fn law_differences_are_opposite(a: Binary64, b: Binary64)
    ensures
        a.minus(b).opposite(b.minus(a)),
{
    reveal(Binary64::spec_plus);
    if a.is_finite() && b.is_finite() {
        let total = a.value() - b.value();
        if total < 0 {
            crate::rounding::lemma_round_bound((-total) as nat, 1);
        } else {
            crate::rounding::lemma_round_bound(total as nat, 1);
        }
    }
}

/// Quotients of opposite numbers by one number are opposite.
pub proof fn law_quotients_of_opposites(a: Binary64, b: Binary64, divisor: Binary64)
    requires
        a.opposite(b),
    ensures
        a.over(divisor).opposite(b.over(divisor)),
{
    reveal(Binary64::spec_over);
    if !a.is_nan() && !divisor.is_nan() {
        assert(a.magnitude() == b.magnitude());
        if a.is_finite() && divisor.is_finite() && !divisor.zero() {
            crate::rounding::lemma_magnitude_order(0, divisor.magnitude());
            crate::rounding::lemma_round_bound(a.size() * Binary64::one_value(), divisor.size());
            if a.zero() {
                lemma_zero_size(a);
                assert(0 * Binary64::one_value() == 0) by (nonlinear_arith);
                crate::rounding::lemma_round_zero(divisor.size());
            }
        }
    }
}

/// Products of opposite numbers with one number are opposite.
pub proof fn law_products_of_opposites(a: Binary64, b: Binary64, factor: Binary64)
    requires
        a.opposite(b),
    ensures
        a.times(factor).opposite(b.times(factor)),
{
    reveal(Binary64::spec_times);
    if !a.is_nan() && !factor.is_nan() {
        assert(a.magnitude() == b.magnitude());
        if a.is_finite() && factor.is_finite() {
            crate::rounding::lemma_exp2_positive(UNIT_EXPONENT as nat);
            crate::rounding::lemma_round_bound(a.size() * factor.size(), Binary64::one_value());
            if a.zero() {
                lemma_zero_size(a);
                assert(0 * factor.size() == 0) by (nonlinear_arith);
                crate::rounding::lemma_round_zero(Binary64::one_value());
            }
        }
    }
}

pub proof fn lemma_zero_size(a: Binary64)
    requires
        a.zero(),
    ensures
        a.size() == 0,
{
    crate::rounding::lemma_exp2_values();
    assert(0 * crate::rounding::exp2(0) == 0) by (nonlinear_arith);
}

/// A sum keeps the order of what is added.
pub proof fn law_sums_keep_order(a: Binary64, b: Binary64, c: Binary64)
    requires
        b.le(c),
        !a.plus(b).is_nan(),
        !a.plus(c).is_nan(),
    ensures
        a.plus(b).le(a.plus(c)),
{
    reveal(Binary64::spec_plus);
    if a.is_finite() && b.is_finite() && c.is_finite() {
        law_order_is_order_of_values(b, c);
        let (x, y) = (a.value() + b.value(), a.value() + c.value());
        if x > 0 {
            crate::rounding::law_rounding_keeps_order(x as nat, 1, y as nat, 1);
            crate::rounding::lemma_round_bound(y as nat, 1);
        } else if x < 0 {
            crate::rounding::lemma_round_bound((-x) as nat, 1);
            if y < 0 {
                crate::rounding::law_rounding_keeps_order((-y) as nat, 1, (-x) as nat, 1);
            } else if y > 0 {
                crate::rounding::lemma_round_bound(y as nat, 1);
            }
        } else if y > 0 {
            crate::rounding::lemma_round_bound(y as nat, 1);
        }
    } else if a.is_finite() {
        if b.is_finite() {
            let x = a.value() + b.value();
            if x < 0 {
                crate::rounding::lemma_round_bound((-x) as nat, 1);
            } else {
                crate::rounding::lemma_round_bound(x as nat, 1);
            }
        } else if c.is_finite() {
            let y = a.value() + c.value();
            if y < 0 {
                crate::rounding::lemma_round_bound((-y) as nat, 1);
            } else {
                crate::rounding::lemma_round_bound(y as nat, 1);
            }
        }
    }
}

/// A product of a number that is not negative with a number from zero to one is not larger than
/// the number.
pub proof fn law_part_is_not_larger(a: Binary64, part: Binary64)
    requires
        a.is_finite(),
        !a.is_negative(),
        part.is_finite(),
        !part.is_negative(),
        part.size() <= Binary64::one_value(),
    ensures
        a.times(part).le(a),
        a.times(part).is_finite(),
        !a.times(part).is_negative(),
{
    reveal(Binary64::spec_times);
    let one = Binary64::one_value();
    let num = a.size() * part.size();
    crate::rounding::lemma_exp2_positive(UNIT_EXPONENT as nat);
    assert(num * 1 <= a.size() * one) by (nonlinear_arith)
        requires
            num == a.size() * part.size(),
            part.size() <= one,
    ;
    crate::rounding::law_rounding_keeps_order(num, one, a.size(), 1);
    crate::rounding::law_rounding_keeps_numbers(a.magnitude());
}

/// How far two whole numbers are apart.
pub open spec fn apart(a: int, b: int) -> int {
    if a >= b {
        a - b
    } else {
        b - a
    }
}

/// A sum is the nearest number: no finite number is nearer to the exact sum than a finite result.
pub proof fn law_sums_are_nearest(a: Binary64, b: Binary64, other: Binary64)
    requires
        a.is_finite(),
        b.is_finite(),
        a.plus(b).is_finite(),
        other.is_finite(),
    ensures
        apart(a.plus(b).value(), a.value() + b.value()) <= apart(
            other.value(),
            a.value() + b.value(),
        ),
{
    reveal(Binary64::spec_plus);
    let total = a.value() + b.value();
    let n: nat = if total < 0 {
        (-total) as nat
    } else {
        total as nat
    };
    crate::rounding::lemma_round_bound(n, 1);
    if total == 0 {
        lemma_zero_size(a.plus(b));
    } else {
        lemma_zero_size(Binary64 { bits: 0 });
        crate::rounding::law_rounding_is_nearest(n, 1, other.magnitude());
        crate::rounding::law_rounding_is_nearest(n, 1, 0);
        let v = crate::rounding::magnitude_value(crate::rounding::round_ratio(n, 1));
        assert(v * 1 == v && other.size() * 1 == other.size() && 0 * 1 == 0) by (nonlinear_arith);
    }
}

/// A product is the nearest number to the exact product.
pub proof fn law_products_are_nearest(a: Binary64, b: Binary64, other: Binary64)
    requires
        a.is_finite(),
        b.is_finite(),
        a.times(b).is_finite(),
        other.is_finite(),
    ensures
        apart(a.times(b).value() * Binary64::one_value(), a.value() * b.value()) <= apart(
            other.value() * Binary64::one_value(),
            a.value() * b.value(),
        ),
{
    reveal(Binary64::spec_times);
    let one = Binary64::one_value();
    let n = a.size() * b.size();
    crate::rounding::lemma_exp2_positive(UNIT_EXPONENT as nat);
    crate::rounding::lemma_round_bound(n, one);
    crate::rounding::law_rounding_is_nearest(n, one, other.magnitude());
    lemma_zero_size(Binary64 { bits: 0 });
    crate::rounding::law_rounding_is_nearest(n, one, 0);
    assert(0 * one == 0) by (nonlinear_arith);
    let (x, y) = (a.size() as int, b.size() as int);
    assert((-x) * y == -(x * y) && x * (-y) == -(x * y) && (-x) * (-y) == x * y)
        by (nonlinear_arith);
    let (v, w) = (a.times(b).size() as int, other.size() as int);
    assert((-v) * one == -(v * one) && (-w) * one == -(w * one)) by (nonlinear_arith);
    assert(v * one >= 0 && w * one >= 0 && x * y >= 0) by (nonlinear_arith)
        requires
            v >= 0,
            w >= 0,
            x >= 0,
            y >= 0,
    ;
}

/// A quotient is the nearest number to the exact quotient.
pub proof fn law_quotients_are_nearest(a: Binary64, b: Binary64, other: Binary64)
    requires
        a.is_finite(),
        b.is_finite(),
        !b.zero(),
        a.over(b).is_finite(),
        other.is_finite(),
    ensures
        apart(a.over(b).value() * b.value(), a.value() * Binary64::one_value()) <= apart(
            other.value() * b.value(),
            a.value() * Binary64::one_value(),
        ),
{
    reveal(Binary64::spec_over);
    let one = Binary64::one_value();
    let (n, d) = (a.size() * one, b.size());
    lemma_zero_size(Binary64 { bits: 0 });
    crate::rounding::lemma_magnitude_order(0, b.magnitude());
    crate::rounding::lemma_round_bound(n, d);
    crate::rounding::law_rounding_is_nearest(n, d, other.magnitude());
    crate::rounding::law_rounding_is_nearest(n, d, 0);
    assert(0 * d == 0) by (nonlinear_arith);
    let (v, w, x, y) = (
        a.over(b).size() as int,
        other.size() as int,
        a.size() as int,
        b.size() as int,
    );
    assert((-v) * y == -(v * y) && v * (-y) == -(v * y) && (-v) * (-y) == v * y)
        by (nonlinear_arith);
    assert((-w) * y == -(w * y) && w * (-y) == -(w * y) && (-w) * (-y) == w * y)
        by (nonlinear_arith);
    assert((-x) * one == -(x * one)) by (nonlinear_arith);
    assert(v * y >= 0 && w * y >= 0 && x * one >= 0) by (nonlinear_arith)
        requires
            v >= 0,
            w >= 0,
            x >= 0,
            y >= 0,
    ;
}

/// A finite number other than zero, over itself, is one.
pub proof fn law_quotient_by_itself_is_one(a: Binary64)
    requires
        a.is_finite(),
        !a.zero(),
    ensures
        a.over(a) == Binary64::from_u64(1),
{
    reveal(Binary64::spec_over);
    reveal(Binary64::spec_from_u64);
    let one = Binary64::one_value();
    let d = a.size();
    lemma_zero_size(Binary64 { bits: 0 });
    crate::rounding::lemma_magnitude_order(0, a.magnitude());
    crate::rounding::lemma_round_scale(one, 1, d);
    assert(one * d == d * one && 1 * d == d && 1 * one == one) by (nonlinear_arith);
}

/// A zero that is added changes nothing.
pub proof fn law_adding_zero_changes_nothing(a: Binary64, z: Binary64)
    requires
        a.is_finite(),
        z.zero(),
    ensures
        a.plus(z).eq_number(a),
        a.minus(z).eq_number(a),
{
    reveal(Binary64::spec_plus);
    lemma_zero_size(z);
    lemma_zero_size(z.negated());
    crate::rounding::law_rounding_keeps_numbers(a.magnitude());
    lemma_zero_size(Binary64 { bits: 0 });
    if a.magnitude() > 0 {
        crate::rounding::lemma_magnitude_order(0, a.magnitude());
    } else {
        lemma_zero_size(a);
    }
}

/// A quotient by a positive number keeps the order.
pub proof fn law_quotients_keep_order(a: Binary64, b: Binary64, divisor: Binary64)
    requires
        a.le(b),
        a.is_finite(),
        b.is_finite(),
        divisor.is_finite(),
        Binary64::from_u64(0).lt(divisor),
    ensures
        a.over(divisor).le(b.over(divisor)),
{
    reveal(Binary64::spec_over);
    law_whole_numbers_are_exact(0);
    let one = Binary64::one_value();
    let d = divisor.size();
    assert(0 * one == 0) by (nonlinear_arith);
    law_order_is_order_of_values(Binary64::from_u64(0), divisor);
    law_order_is_order_of_values(a, b);
    let (x, y) = (a.size(), b.size());
    crate::rounding::lemma_round_bound(x * one, d);
    crate::rounding::lemma_round_bound(y * one, d);
    if x <= y {
        assert((x * one) * d <= (y * one) * d) by (nonlinear_arith)
            requires
                x <= y,
        ;
        crate::rounding::law_rounding_keeps_order(x * one, d, y * one, d);
    }
    if y <= x {
        assert((y * one) * d <= (x * one) * d) by (nonlinear_arith)
            requires
                y <= x,
        ;
        crate::rounding::law_rounding_keeps_order(y * one, d, x * one, d);
    }
    if x == 0 || y == 0 {
        crate::rounding::lemma_round_zero(d);
    }
}

/// A product with a number that is not negative keeps the order.
pub proof fn law_products_keep_order(a: Binary64, b: Binary64, factor: Binary64)
    requires
        a.le(b),
        a.is_finite(),
        b.is_finite(),
        factor.is_finite(),
        !factor.is_negative(),
    ensures
        a.times(factor).le(b.times(factor)),
{
    reveal(Binary64::spec_times);
    let one = Binary64::one_value();
    let f = factor.size();
    crate::rounding::lemma_exp2_positive(UNIT_EXPONENT as nat);
    law_order_is_order_of_values(a, b);
    let (x, y) = (a.size(), b.size());
    crate::rounding::lemma_round_bound(x * f, one);
    crate::rounding::lemma_round_bound(y * f, one);
    if x <= y {
        assert((x * f) * one <= (y * f) * one) by (nonlinear_arith)
            requires
                x <= y,
        ;
        crate::rounding::law_rounding_keeps_order(x * f, one, y * f, one);
    }
    if y <= x {
        assert((y * f) * one <= (x * f) * one) by (nonlinear_arith)
            requires
                y <= x,
        ;
        crate::rounding::law_rounding_keeps_order(y * f, one, x * f, one);
    }
    if x == 0 || y == 0 {
        crate::rounding::lemma_round_zero(one);
        assert(0 * f == 0) by (nonlinear_arith);
    }
}

impl Binary64 {
    /// `other` is this finite number, doubled so many times.
    pub open spec fn doubled(self, other: Binary64, times: nat) -> bool {
        &&& self.is_finite()
        &&& other.is_finite()
        &&& other.value() == self.value() * crate::rounding::exp2(times)
    }
}

/// The difference of two numbers that are both doubled so many times is doubled as often.
pub proof fn law_differences_are_doubled(
    a: Binary64,
    b: Binary64,
    a2: Binary64,
    b2: Binary64,
    times: nat,
)
    requires
        a.doubled(a2, times),
        b.doubled(b2, times),
        a2.minus(b2).is_finite(),
    ensures
        a.minus(b).doubled(a2.minus(b2), times),
{
    reveal(Binary64::spec_plus);
    let x = crate::rounding::exp2(times);
    crate::rounding::lemma_exp2_positive(times);
    let (total, total2) = (a.value() - b.value(), a2.value() - b2.value());
    assert(total2 == total * x) by (nonlinear_arith)
        requires
            total2 == a.value() * x - b.value() * x,
            total == a.value() - b.value(),
    ;
    assert((-total) * x == -(total * x)) by (nonlinear_arith);
    assert(total > 0 ==> total * x > 0) by (nonlinear_arith)
        requires
            x >= 1,
    ;
    assert(total < 0 ==> total * x < 0) by (nonlinear_arith)
        requires
            x >= 1,
    ;
    assert(0 * x == 0) by (nonlinear_arith);
    if total == 0 {
        lemma_zero_size(a.minus(b));
        lemma_zero_size(a2.minus(b2));
    } else {
        let n: nat = if total < 0 {
            (-total) as nat
        } else {
            total as nat
        };
        crate::rounding::lemma_round_bound(n, 1);
        crate::rounding::lemma_round_bound(n * x, 1);
        crate::rounding::law_rounding_keeps_powers_of_two(n, times);
        let v = a.minus(b).size() as int;
        assert((-v) * x == -(v * x)) by (nonlinear_arith);
    }
}

/// The quotient of two numbers stays the same where both are doubled equally often.
pub proof fn law_doubled_numbers_have_one_quotient(
    a: Binary64,
    b: Binary64,
    a2: Binary64,
    b2: Binary64,
    times: nat,
)
    requires
        a.doubled(a2, times),
        b.doubled(b2, times),
        !a.zero(),
        !b.zero(),
    ensures
        a.over(b) == a2.over(b2),
{
    reveal(Binary64::spec_over);
    let x = crate::rounding::exp2(times);
    let one = Binary64::one_value();
    crate::rounding::lemma_exp2_positive(times);
    lemma_doubled_size(a, a2, times);
    lemma_doubled_size(b, b2, times);
    crate::rounding::lemma_round_scale(a.size() * one, b.size(), x);
    assert((a.size() * x) * one == (a.size() * one) * x) by (nonlinear_arith);
}

proof fn lemma_doubled_size(a: Binary64, b: Binary64, times: nat)
    requires
        a.doubled(b, times),
        !a.zero(),
    ensures
        a.size() > 0,
        b.size() == a.size() * crate::rounding::exp2(times),
        b.is_negative() == a.is_negative(),
        !b.zero(),
{
    let x = crate::rounding::exp2(times);
    crate::rounding::lemma_exp2_positive(times);
    lemma_zero_size(Binary64 { bits: 0 });
    crate::rounding::lemma_magnitude_order(0, a.magnitude());
    let v = a.size() as int;
    assert((-v) * x == -(v * x) && v * x > 0) by (nonlinear_arith)
        requires
            v > 0,
            x >= 1,
    ;
    if b.zero() {
        lemma_zero_size(b);
    }
}

proof fn lemma_whole_quotient(a: u64, b: u64)
    requires
        a < 2 * BLOCK,
        0 < b < 2 * BLOCK,
    ensures
        0 < b * Binary64::one_value(),
        0 <= (a * Binary64::one_value()) * Binary64::one_value(),
        Binary64::from_u64(a).over(Binary64::from_u64(b)) == Binary64::spec_signed(
            false,
            crate::rounding::round_ratio(
                ((a * Binary64::one_value()) * Binary64::one_value()) as nat,
                (b * Binary64::one_value()) as nat,
            ),
        ),
{
    let one = Binary64::one_value();
    law_whole_numbers_are_exact(a);
    law_whole_numbers_are_exact(b);
    crate::rounding::lemma_exp2_positive(1074);
    assert(0 < b * one && 0 <= (a * one) * one) by (nonlinear_arith)
        requires
            0 < b,
            one >= 1,
    ;
    if Binary64::from_u64(b).zero() {
        lemma_zero_size(Binary64::from_u64(b));
    }
    reveal(Binary64::spec_over);
}

/// A factor that two whole numbers share does not change their quotient.
pub proof fn law_common_factors_cancel(a: u64, b: u64, factor: u64)
    requires
        0 < b,
        0 < factor,
        a * factor < 2 * BLOCK,
        b * factor < 2 * BLOCK,
    ensures
        Binary64::from_u64((a * factor) as u64).over(Binary64::from_u64((b * factor) as u64))
            == Binary64::from_u64(a).over(Binary64::from_u64(b)),
{
    let one = Binary64::one_value();
    let (x, y) = ((a * factor) as u64, (b * factor) as u64);
    assert(a <= a * factor && b <= b * factor && 0 < b * factor && 0 <= a * factor)
        by (nonlinear_arith)
        requires
            0 < factor,
            0 < b,
    ;
    lemma_whole_quotient(a, b);
    lemma_whole_quotient(x, y);
    let (num, den) = ((a * one) * one, b * one);
    assert((x * one) * one == num * factor && y * one == den * factor) by (nonlinear_arith)
        requires
            num == (a * one) * one,
            den == b * one,
            x == a * factor,
            y == b * factor,
    ;
    crate::rounding::lemma_round_scale(num as nat, den as nat, factor as nat);
}

/// A whole number divided by one of its divisors gives the other one exactly.
pub proof fn law_whole_quotients_are_exact(a: u64, b: u64)
    requires
        0 < b,
        a * b < 2 * BLOCK,
        b < 2 * BLOCK,
    ensures
        Binary64::from_u64((a * b) as u64).over(Binary64::from_u64(b)) == Binary64::from_u64(a),
{
    assert(1 * b == b) by (nonlinear_arith);
    law_common_factors_cancel(a, 1, b);
    let one = Binary64::one_value();
    assert(a <= a * b) by (nonlinear_arith)
        requires
            0 < b,
    ;
    lemma_whole_quotient(a, 1);
    crate::rounding::lemma_exp2_positive(1074);
    assert(a * one >= 0 && 1 * one == one) by (nonlinear_arith)
        requires
            one >= 1,
    ;
    crate::rounding::lemma_round_scale((a * one) as nat, 1, one);
    reveal(Binary64::spec_from_u64);
}

/// The quotient of two whole numbers is positive where the first one is, and zero where it is.
pub proof fn law_whole_quotients_have_a_sign(a: u64, b: u64)
    requires
        a < 2 * BLOCK,
        0 < b < 2 * BLOCK,
    ensures
        Binary64::from_u64(a).over(Binary64::from_u64(b)).is_finite(),
        !Binary64::from_u64(a).over(Binary64::from_u64(b)).is_negative(),
        Binary64::from_u64(0).lt(Binary64::from_u64(a).over(Binary64::from_u64(b))) <==> 0 < a,
        Binary64::from_u64(0).eq_number(Binary64::from_u64(a).over(Binary64::from_u64(b))) <==> a
            == 0,
{
    lemma_whole_quotient(a, b);
    let one = Binary64::one_value();
    law_whole_numbers_are_exact(a);
    law_whole_numbers_are_exact(b);
    law_whole_numbers_are_exact(0);
    crate::rounding::lemma_exp2_positive(1074);
    crate::rounding::lemma_exp2_positive(1021);
    crate::rounding::lemma_exp2_sum(1021, 53);
    crate::rounding::lemma_exp2_values();
    let (num, den) = ((a * one) * one, b * one);
    assert(0 < den && num >= 0) by (nonlinear_arith)
        requires
            den == b * one,
            num == (a * one) * one,
            0 < b,
            one >= 1,
    ;
    // The quotient is at most the dividend, and at least the smallest number unless it is zero.
    assert(num * 1 <= (a * one) * den) by (nonlinear_arith)
        requires
            num == (a * one) * one,
            den == b * one,
            0 < b,
            one >= 1,
    ;
    crate::rounding::law_rounding_keeps_order(num as nat, den as nat, (a * one) as nat, 1);
    lemma_whole_is_finite(a);
    if a > 0 {
        let small = crate::rounding::exp2(1021);
        assert(1 * den <= num * 1) by (nonlinear_arith)
            requires
                den == b * one,
                num == (a * one) * one,
                0 < a,
                b < 0x20_0000_0000_0000,
                one == small * 0x20_0000_0000_0000,
                small >= 1,
        ;
        crate::rounding::law_rounding_keeps_order(1, 1, num as nat, den as nat);
        crate::rounding::lemma_round_representable(1, 0);
        assert(1 * crate::rounding::exp2(0) == 1) by (nonlinear_arith)
            requires
                crate::rounding::exp2(0) == 1,
        ;
    } else {
        assert(num == 0) by (nonlinear_arith)
            requires
                num == (a * one) * one,
                a == 0,
        ;
        crate::rounding::lemma_round_zero(den as nat);
    }
    let q = Binary64::from_u64(a).over(Binary64::from_u64(b));
    law_order_is_order_of_values(Binary64::from_u64(0), q);
    if q.magnitude() > 0 {
        crate::rounding::lemma_magnitude_order(0, q.magnitude());
    } else {
        lemma_zero_size(q);
    }
}

/// The whole part of a number that is not negative is the largest whole number that is not above
/// it, as far as the result can hold that.
pub proof fn law_whole_part_is_below(x: Binary64)
    requires
        x.is_finite(),
        !x.is_negative(),
        x.value() < 0x1_0000_0000_0000_0000 * Binary64::one_value(),
    ensures
        x.to_u64() * Binary64::one_value() <= x.value() < (x.to_u64() + 1)
            * Binary64::one_value(),
{
    let one = Binary64::one_value();
    crate::rounding::lemma_exp2_positive(1074);
    reveal(Binary64::spec_to_u64);
    let (s, q) = (x.size() as int, x.size() as int / one as int);
    assert(q * one <= s < (q + 1) * one) by (nonlinear_arith)
        requires
            q == s / one as int,
            one >= 1,
    ;
    assert(q < 0x1_0000_0000_0000_0000) by (nonlinear_arith)
        requires
            q * one <= s,
            s < 0x1_0000_0000_0000_0000 * one,
            one >= 1,
    ;
}

/// The whole parts of two numbers are ordered as the numbers are.
pub proof fn law_whole_parts_keep_order(a: Binary64, b: Binary64)
    requires
        a.le(b),
    ensures
        a.to_u64() <= b.to_u64(),
{
    let one = Binary64::one_value();
    crate::rounding::lemma_exp2_positive(1074);
    reveal(Binary64::spec_to_u64);
    if a.is_finite() && b.is_finite() {
        law_order_is_order_of_values(a, b);
        if !a.is_negative() {
            let (s, t) = (a.size() as int, b.size() as int);
            if b.is_negative() {
                lemma_zero_size(a);
                lemma_zero_size(b);
            } else {
                assert(s / one as int <= t / one as int) by (nonlinear_arith)
                    requires
                        s <= t,
                        one >= 1,
                ;
            }
        }
    }
}

/// The order of two factors does not matter.
pub proof fn law_products_commute(a: Binary64, b: Binary64)
    ensures
        a.times(b) == b.times(a),
{
    reveal(Binary64::spec_times);
    assert(a.size() * b.size() == b.size() * a.size()) by (nonlinear_arith);
}

/// The order of two summands does not matter.
pub proof fn law_sums_commute(a: Binary64, b: Binary64)
    ensures
        a.plus(b) == b.plus(a),
{
    reveal(Binary64::spec_plus);
}

/// A number within its limits stays as it is, and one beyond them is held to the nearer one.
pub proof fn law_limits_hold_what_is_beyond_them(x: Binary64, low: Binary64, high: Binary64)
    requires
        !x.is_nan(),
        low.le(high),
    ensures
        x.le(high) ==> x.at_most(high) == x,
        high.lt(x) ==> x.at_most(high) == high,
        low.le(x) ==> x.at_least(low) == x,
        x.lt(low) ==> x.at_least(low) == low,
        low.le(x) && x.le(high) ==> x.clamped(low, high) == x,
        x.lt(low) ==> x.clamped(low, high) == low,
        high.lt(x) ==> x.clamped(low, high) == high,
{
}

/// Negation changes the sign of a number, and its absolute value has none; whole numbers below
/// zero are as exact as those above.
pub proof fn law_signs_are_kept_apart(x: Binary64, n: i64)
    requires
        x.is_finite(),
        -2 * BLOCK < n < 2 * BLOCK,
    ensures
        x.negated().is_finite(),
        x.negated().value() == -x.value(),
        x.absolute().value() == (if x.value() < 0 {
            -x.value()
        } else {
            x.value()
        }),
        x.absolute().is_finite(),
        Binary64::from_i64(n).is_finite(),
        Binary64::from_i64(n).value() == n * Binary64::one_value(),
{
    let one = Binary64::one_value();
    if n < 0 {
        law_whole_numbers_are_exact((-n) as u64);
        assert(-((-n) * one) == n * one) by (nonlinear_arith);
    } else {
        law_whole_numbers_are_exact(n as u64);
    }
}

/// A whole part that is too large is held to the largest number that the result can hold.
pub proof fn law_small_whole_parts_are_held(x: Binary64)
    ensures
        x.to_u64() <= u32::MAX ==> x.to_u32() == x.to_u64(),
        x.to_u64() > u32::MAX ==> x.to_u32() == u32::MAX,
        x.is_nan() ==> x.to_u64() == 0,
        x.is_negative() ==> x.to_u64() == 0,
{
    reveal(Binary64::spec_to_u64);
}

} // verus!
