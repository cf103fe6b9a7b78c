//! Rounding of exact ratios to binary64 magnitudes.
//!
//! Every finite binary64 number is a whole multiple of two to the power -1074. This module
//! measures magnitudes in that unit, so that an exact result of an arithmetic operation is a
//! ratio of two natural numbers, and defines the magnitude such a ratio is rounded to.
use vstd::prelude::*;

verus! {

/// The magnitude bits of infinity; larger magnitudes are not-a-number.
pub const INFINITY: u64 = 0x7FF0_0000_0000_0000;

/// Two to the power 52: the number of magnitudes that share one exponent.
pub const BLOCK: u64 = 0x10_0000_0000_0000;

/// Two to the power `e`.
#[verifier::opaque]
pub open spec fn exp2(e: nat) -> nat
    decreases e,
{
    if e == 0 {
        1
    } else {
        2 * exp2((e - 1) as nat)
    }
}

/// The number of binary digits of `n`; zero has none.
#[verifier::opaque]
pub open spec fn bit_length(n: nat) -> nat
    decreases n,
{
    if n == 0 {
        0
    } else {
        1 + bit_length(n / 2)
    }
}

/// The whole number nearest to `num / den`; of two equally near ones the even one.
pub open spec fn half_even(num: nat, den: nat) -> nat {
    let q = num / den;
    let twice = 2 * (num % den);
    if twice < den {
        q
    } else if twice > den {
        q + 1
    } else {
        q + q % 2
    }
}

/// The distance between neighbouring magnitudes around `num / den` is two to this power.
pub open spec fn spacing(num: nat, den: nat) -> nat {
    let digits = bit_length(num / den);
    if digits <= 53 {
        0
    } else {
        (digits - 53) as nat
    }
}

/// The magnitude bits that `num / den` (in units of two to the power -1074) is rounded to.
#[verifier::opaque]
pub open spec fn round_ratio(num: nat, den: nat) -> u64 {
    let gap = spacing(num, den);
    let m = gap * BLOCK + half_even(num, den * exp2(gap));
    if m < INFINITY {
        m as u64
    } else {
        INFINITY
    }
}

/// The power of two that one step of the magnitude `m` stands for.
pub open spec fn magnitude_gap(m: u64) -> nat {
    if m < BLOCK {
        0
    } else {
        (m as nat / BLOCK as nat - 1) as nat
    }
}

/// The whole multiple of its step that the magnitude `m` stands for.
pub open spec fn magnitude_steps(m: u64) -> nat {
    (m - magnitude_gap(m) * BLOCK) as nat
}

/// The value of the finite magnitude `m`, in units of two to the power -1074.
pub open spec fn magnitude_value(m: u64) -> nat {
    magnitude_steps(m) * exp2(magnitude_gap(m))
}

/// `num / den` lies in the cell that starts at `sig` times two to the power `e`, and is its
/// start exactly when `inexact` does not hold.
pub open spec fn in_cell(num: nat, den: nat, sig: nat, e: int, inexact: bool) -> bool {
    let scaled = num * exp2(if e < 0 { (-e) as nat } else { 0 });
    let cell = den * exp2(if e < 0 { 0 } else { e as nat });
    &&& sig * cell <= scaled < (sig + 1) * cell
    &&& inexact == (scaled != sig * cell)
}

pub proof fn lemma_exp2_positive(e: nat)
    ensures
        exp2(e) >= 1,
    decreases e,
{
    reveal(exp2);
    if e > 0 {
        lemma_exp2_positive((e - 1) as nat);
    }
}

pub proof fn lemma_exp2_step(e: nat)
    ensures
        exp2(e + 1) == 2 * exp2(e),
        exp2(0) == 1,
{
    reveal(exp2);
    reveal_with_fuel(exp2, 2);
}

pub proof fn lemma_exp2_sum(a: nat, b: nat)
    ensures
        exp2(a + b) == exp2(a) * exp2(b),
    decreases b,
{
    lemma_exp2_step(a);
    if b > 0 {
        let c = (b - 1) as nat;
        lemma_exp2_sum(a, c);
        lemma_exp2_step(c);
        lemma_exp2_step(a + c);
        assert(a + c + 1 == a + b);
        assert(2 * (exp2(a) * exp2(c)) == exp2(a) * (2 * exp2(c))) by (nonlinear_arith);
    } else {
        assert(exp2(a) * 1 == exp2(a)) by (nonlinear_arith);
        assert(exp2(0) == 1);
    }
}

pub proof fn lemma_exp2_monotone(a: nat, b: nat)
    requires
        a <= b,
    ensures
        exp2(a) <= exp2(b),
        a < b ==> 2 * exp2(a) <= exp2(b),
    decreases b,
{
    lemma_exp2_positive(a);
    if a < b {
        lemma_exp2_monotone(a, (b - 1) as nat);
        lemma_exp2_step((b - 1) as nat);
    }
}

pub proof fn lemma_exp2_values()
    ensures
        exp2(0) == 1,
        exp2(1) == 2,
        exp2(11) == 2048,
        exp2(52) == BLOCK,
        exp2(53) == 2 * BLOCK,
        exp2(54) == 4 * BLOCK,
        exp2(63) == 0x8000_0000_0000_0000,
        exp2(64) == 0x1_0000_0000_0000_0000,
        exp2(128) == 0x1_0000_0000_0000_0000_0000_0000_0000_0000,
{
    reveal_with_fuel(exp2, 14);
    assert(exp2(13) == 8192);
    lemma_exp2_sum(13, 13);
    assert(exp2(13) * exp2(13) == 67108864int) by (nonlinear_arith)
        requires
            exp2(13) == 8192,
    ;
    lemma_exp2_sum(26, 26);
    assert(exp2(26) * exp2(26) == 4503599627370496int) by (nonlinear_arith)
        requires
            exp2(26) == 67108864,
    ;
    lemma_exp2_step(52);
    lemma_exp2_step(53);
    lemma_exp2_sum(52, 11);
    assert(exp2(52) * exp2(11) == 9223372036854775808int) by (nonlinear_arith)
        requires
            exp2(52) == 4503599627370496,
            exp2(11) == 2048,
    ;
    lemma_exp2_step(63);
    lemma_exp2_sum(64, 64);
    assert(exp2(64) * exp2(64) == 340282366920938463463374607431768211456int) by (nonlinear_arith)
        requires
            exp2(64) == 18446744073709551616,
    ;
}

/// A number has `k` binary digits exactly when it lies in the `k`-th doubling range.
pub proof fn lemma_bit_length(n: nat, k: nat)
    requires
        k > 0 ==> exp2((k - 1) as nat) <= n,
        n < exp2(k),
    ensures
        bit_length(n) == k,
    decreases k,
{
    reveal(bit_length);
    if k == 0 {
        lemma_exp2_step(0);
    } else {
        lemma_exp2_positive((k - 1) as nat);
        lemma_exp2_step((k - 1) as nat);
        if k > 1 {
            lemma_exp2_step((k - 2) as nat);
        } else {
            lemma_exp2_step(0);
        }
        lemma_bit_length(n / 2, (k - 1) as nat);
    }
}

/// The quotient and remainder of a number given by them.
pub proof fn lemma_quotient(x: nat, d: nat, q: nat, r: nat)
    requires
        r < d,
        x == q * d + r,
    ensures
        x / d == q,
        x % d == r,
{
    vstd::arithmetic::div_mod::lemma_fundamental_div_mod_converse(
        x as int,
        d as int,
        q as int,
        r as int,
    );
}

/// Scaling both parts of a ratio leaves the nearest whole number unchanged.
pub proof fn lemma_half_even_scale(num: nat, den: nat, c: nat)
    requires
        den > 0,
        c > 0,
    ensures
        half_even(num * c, den * c) == half_even(num, den),
{
    let q = num / den;
    let r = num % den;
    vstd::arithmetic::div_mod::lemma_fundamental_div_mod(num as int, den as int);
    assert(num == q * den + r) by (nonlinear_arith)
        requires
            num == den * q + r,
    ;
    assert(num * c == q * (den * c) + r * c) by (nonlinear_arith)
        requires
            num == q * den + r,
    ;
    assert(r * c < den * c) by (nonlinear_arith)
        requires
            r < den,
            c > 0,
    ;
    lemma_quotient(num * c, den * c, q, r * c);
    assert(2 * (r * c) == (2 * r) * c) by (nonlinear_arith);
    assert(2 * r < den ==> (2 * r) * c < den * c) by (nonlinear_arith)
        requires
            c > 0,
    ;
    assert(2 * r > den ==> (2 * r) * c > den * c) by (nonlinear_arith)
        requires
            c > 0,
    ;
    assert(2 * r == den ==> (2 * r) * c == den * c);
}

/// The nearest whole number to a ratio whose cell is known, from the digits of the cell.
proof fn lemma_half_even_cell(scaled: nat, cell: nat, sig: nat, p: nat, half: nat)
    requires
        cell > 0,
        half > 0,
        p == 2 * half,
        sig * cell <= scaled < (sig + 1) * cell,
    ensures
        ({
            let rem = sig % p;
            let q = sig / p;
            let up = rem > half || (rem == half && (scaled != sig * cell || q % 2 == 1));
            half_even(scaled, cell * p) == q + (if up { 1nat } else { 0nat })
        }),
{
    let rem = sig % p;
    let q = sig / p;
    let rho = (scaled - sig * cell) as nat;
    vstd::arithmetic::div_mod::lemma_fundamental_div_mod(sig as int, p as int);
    assert((sig + 1) * cell == sig * cell + cell) by (nonlinear_arith);
    assert(rho < cell);
    assert(scaled == q * (cell * p) + (rem * cell + rho)) by (nonlinear_arith)
        requires
            sig == p * q + rem,
            scaled == sig * cell + rho,
    ;
    assert(rem * cell + rho < cell * p) by (nonlinear_arith)
        requires
            rem + 1 <= p,
            rho < cell,
    ;
    lemma_quotient(scaled, cell * p, q, rem * cell + rho);
    assert(cell * p == 2 * (half * cell)) by (nonlinear_arith)
        requires
            p == 2 * half,
    ;
    assert(rem < half ==> rem * cell + cell <= half * cell) by (nonlinear_arith);
    assert(rem > half ==> rem * cell >= half * cell + cell) by (nonlinear_arith);
}

/// The number of binary digits of `n`.
fn count_digits(n: u128) -> (r: u32)
    ensures
        r == bit_length(n as nat),
        r <= 128,
        n < exp2(r as nat),
        r > 0 ==> exp2((r - 1) as nat) <= n,
{
    let mut rest: u128 = n;
    let mut r: u32 = 0;
    proof {
        lemma_exp2_values();
        assert(n as nat == rest as nat * exp2(0)) by (nonlinear_arith)
            requires
                rest == n,
                exp2(0) == 1,
        ;
    }
    while rest > 0
        invariant
            r <= 128,
            rest as nat * exp2(r as nat) <= n < (rest as nat + 1) * exp2(r as nat),
            rest < exp2((128 - r) as nat),
            r > 0 ==> exp2((r - 1) as nat) <= n,
        decreases rest,
    {
        let ghost old_rest = rest as nat;
        let ghost old_r = r as nat;
        proof {
            lemma_exp2_step(0);
            if r == 128 {
                assert(exp2(0) == 1);
            }
            lemma_exp2_step((127 - r) as nat);
            lemma_exp2_step(old_r);
        }
        rest = rest / 2;
        r = r + 1;
        proof {
            let e = exp2(old_r);
            let w = rest as nat;
            lemma_exp2_positive(old_r);
            assert(w * (2 * e) <= old_rest * e) by (nonlinear_arith)
                requires
                    2 * w <= old_rest,
            ;
            assert((old_rest + 1) * e <= (w + 1) * (2 * e)) by (nonlinear_arith)
                requires
                    old_rest <= 2 * w + 1,
            ;
            assert(e <= old_rest * e) by (nonlinear_arith)
                requires
                    old_rest >= 1,
            ;
        }
    }
    proof {
        assert((rest as nat + 1) * exp2(r as nat) == exp2(r as nat)) by (nonlinear_arith)
            requires
                rest == 0,
        ;
        lemma_bit_length(n as nat, r as nat);
    }
    r
}

/// Nothing rounds to nothing.
pub proof fn lemma_round_zero(den: nat)
    requires
        den > 0,
    ensures
        round_ratio(0, den) == 0,
{
    reveal(round_ratio);
    reveal(bit_length);
    lemma_exp2_step(0);
    lemma_quotient(0, den, 0, 0);
    assert(den * exp2(0) == den) by (nonlinear_arith)
        requires
            exp2(0) == 1,
    ;
}

/// Rounding gives a number or infinity.
pub proof fn lemma_round_bound(num: nat, den: nat)
    ensures
        round_ratio(num, den) <= INFINITY,
{
    reveal(round_ratio);
}

/// Two to the power `e`, for exponents whose power fits.
pub(crate) fn power_of_two(e: u32) -> (r: u128)
    requires
        e < 128,
    ensures
        r == exp2(e as nat),
        r > 0,
{
    let mut r: u128 = 1;
    let mut i: u32 = 0;
    proof {
        lemma_exp2_step(0);
    }
    while i < e
        invariant
            i <= e < 128,
            r == exp2(i as nat),
        decreases e - i,
    {
        proof {
            lemma_exp2_values();
            lemma_exp2_step(i as nat);
            lemma_exp2_monotone(i as nat + 1, 127);
            lemma_exp2_step(127);
        }
        r = r * 2;
        i = i + 1;
    }
    proof {
        lemma_exp2_positive(e as nat);
    }
    r
}

/// The number of binary digits of a ratio whose cell is known.
pub(crate) proof fn lemma_cell_digits(num: nat, den: nat, sig: nat, e: int, inexact: bool, digits: nat)
    requires
        den > 0,
        digits > 0,
        in_cell(num, den, sig, e, inexact),
        exp2((digits - 1) as nat) <= sig < exp2(digits),
    ensures
        bit_length(num / den) == (if digits + e <= 0 {
            0
        } else {
            digits + e
        }),
{
    let low = exp2((digits - 1) as nat);
    let high = exp2(digits);
    lemma_exp2_step(0);
    vstd::arithmetic::div_mod::lemma_fundamental_div_mod(num as int, den as int);
    let q = num / den;
    if e >= 0 {
        let k = e as nat;
        let x = exp2(k);
        assert(num * 1 == num) by (nonlinear_arith);
        assert(low * x <= q) by (nonlinear_arith)
            requires
                sig * (den * x) <= num,
                low <= sig,
                num == den * q + num % den,
                num % den < den,
                den > 0,
        ;
        assert(q < high * x) by (nonlinear_arith)
            requires
                num < (sig + 1) * (den * x),
                sig + 1 <= high,
                num == den * q + num % den,
                num % den >= 0,
                den > 0,
        ;
        lemma_exp2_sum((digits - 1) as nat, k);
        lemma_exp2_sum(digits, k);
        lemma_bit_length(q, digits + k);
    } else {
        let a = (-e) as nat;
        let y = exp2(a);
        lemma_exp2_positive(a);
        assert(den * 1 == den) by (nonlinear_arith);
        assert(num * y < high * den) by (nonlinear_arith)
            requires
                num * y < (sig + 1) * den,
                sig + 1 <= high,
        ;
        assert(low * den <= num * y) by (nonlinear_arith)
            requires
                sig * den <= num * y,
                low <= sig,
        ;
        if digits <= a {
            lemma_exp2_monotone(digits, a);
            assert(num < den) by (nonlinear_arith)
                requires
                    num * y < high * den,
                    high <= y,
                    y > 0,
            ;
            lemma_quotient(num, den, 0, num);
            lemma_bit_length(0, 0);
        } else {
            let k = (digits - a) as nat;
            lemma_exp2_sum((k - 1) as nat, a);
            lemma_exp2_sum(k, a);
            let l2 = exp2((k - 1) as nat);
            let h2 = exp2(k);
            assert(l2 * den <= num) by (nonlinear_arith)
                requires
                    low * den <= num * y,
                    low == l2 * y,
                    y > 0,
            ;
            assert(num < h2 * den) by (nonlinear_arith)
                requires
                    num * y < high * den,
                    high == h2 * y,
                    y > 0,
            ;
            assert(l2 <= q) by (nonlinear_arith)
                requires
                    l2 * den <= num,
                    num == den * q + num % den,
                    num % den < den,
                    den > 0,
            ;
            assert(q < h2) by (nonlinear_arith)
                requires
                    num < h2 * den,
                    num == den * q + num % den,
                    num % den >= 0,
                    den > 0,
            ;
            lemma_bit_length(q, k);
        }
    }
}

/// The nearest whole number to a ratio over a step no coarser than its cell, when the ratio is
/// the start of the cell.
pub(crate) proof fn lemma_half_even_exact(num: nat, den: nat, sig: nat, e: int, gap: nat)
    requires
        den > 0,
        in_cell(num, den, sig, e, false),
        gap <= e,
    ensures
        half_even(num, den * exp2(gap)) == sig * exp2((e - gap) as nat),
{
    let b = e as nat;
    let k = (e - gap) as nat;
    lemma_exp2_step(0);
    lemma_exp2_sum(gap, k);
    lemma_exp2_positive(gap);
    assert(gap + k == b);
    let d = den * exp2(gap);
    assert(num * 1 == num) by (nonlinear_arith);
    assert(num == (sig * exp2(k)) * d + 0) by (nonlinear_arith)
        requires
            num == sig * (den * exp2(b)),
            exp2(b) == exp2(gap) * exp2(k),
            d == den * exp2(gap),
    ;
    assert(d > 0) by (nonlinear_arith)
        requires
            d == den * exp2(gap),
            den > 0,
            exp2(gap) >= 1,
    ;
    lemma_quotient(num, d, sig * exp2(k), 0);
}

/// The nearest whole number to a ratio over a step coarser than its cell.
proof fn lemma_half_even_shift(num: nat, den: nat, sig: nat, e: int, inexact: bool, gap: nat)
    requires
        den > 0,
        in_cell(num, den, sig, e, inexact),
        gap > e,
    ensures
        ({
            let p = exp2((gap - e) as nat);
            let half = exp2((gap - e - 1) as nat);
            let rem = sig % p;
            let q = sig / p;
            let up = rem > half || (rem == half && (inexact || q % 2 == 1));
            &&& p == 2 * half
            &&& half >= 1
            &&& half_even(num, den * exp2(gap)) == q + (if up {
                1nat
            } else {
                0nat
            })
        }),
{
    let a: nat = if e < 0 {
        (-e) as nat
    } else {
        0
    };
    let b: nat = if e < 0 {
        0
    } else {
        e as nat
    };
    let s = (gap - e) as nat;
    let p = exp2(s);
    let half = exp2((s - 1) as nat);
    lemma_exp2_step((s - 1) as nat);
    lemma_exp2_positive((s - 1) as nat);
    lemma_exp2_positive(a);
    lemma_exp2_positive(b);
    lemma_exp2_positive(gap);
    let scaled = num * exp2(a);
    let cell = den * exp2(b);
    assert(cell > 0) by (nonlinear_arith)
        requires
            cell == den * exp2(b),
            den > 0,
            exp2(b) >= 1,
    ;
    lemma_half_even_cell(scaled, cell, sig, p, half);
    lemma_exp2_sum(gap, a);
    lemma_exp2_sum(b, s);
    assert(gap + a == b + s);
    assert((den * exp2(gap)) * exp2(a) == cell * p) by (nonlinear_arith)
        requires
            cell == den * exp2(b),
            exp2(gap) * exp2(a) == exp2(b) * p,
    ;
    assert(den * exp2(gap) > 0) by (nonlinear_arith)
        requires
            den > 0,
            exp2(gap) >= 1,
    ;
    lemma_half_even_scale(num, den * exp2(gap), exp2(a));
}

/// Rounds the ratio `num / den`, known by its cell: the cell is fine enough to hold every
/// digit that decides the rounding.
pub(crate) fn round_cell(
    sig: u128,
    e: i32,
    inexact: bool,
    Ghost(num): Ghost<nat>,
    Ghost(den): Ghost<nat>,
) -> (r: u64)
    requires
        den > 0,
        0 < sig < exp2(127),
        -3000 <= e <= 4000,
        in_cell(num, den, sig as nat, e as int, inexact),
        inexact ==> sig >= exp2(54),
    ensures
        r == round_ratio(num, den),
{
    let digits: u32 = count_digits(sig);
    proof {
        reveal(bit_length);
        lemma_cell_digits(num, den, sig as nat, e as int, inexact, digits as nat);
        lemma_exp2_values();
        if digits <= 54 {
            lemma_exp2_monotone(digits as nat, 54);
        }
        if digits >= 128 {
            lemma_exp2_monotone(127, (digits - 1) as nat);
        }
        reveal(round_ratio);
    }
    let excess: i32 = digits as i32 + e - 53;
    let gap: i32 = if excess < 0 {
        0
    } else {
        excess
    };
    assert(gap == spacing(num, den));
    if gap >= 2047 {
        return INFINITY;
    }
    let shift: i32 = gap - e;
    let steps: u64 = if shift <= 0 {
        let k: u32 = (-shift) as u32;
        proof {
            lemma_half_even_exact(num, den, sig as nat, e as int, gap as nat);
            lemma_exp2_sum(digits as nat, k as nat);
            lemma_exp2_monotone(digits as nat + k as nat, 53);
            lemma_exp2_positive(k as nat);
            assert(sig * exp2(k as nat) <= exp2(digits as nat) * exp2(k as nat))
                by (nonlinear_arith)
                requires
                    sig <= exp2(digits as nat),
            ;
        }
        let factor: u128 = power_of_two(k);
        (sig * factor) as u64
    } else if shift >= 128 {
        proof {
            lemma_half_even_shift(num, den, sig as nat, e as int, inexact, gap as nat);
            lemma_exp2_monotone(127, (shift - 1) as nat);
            lemma_quotient(sig as nat, exp2(shift as nat), 0, sig as nat);
        }
        0
    } else {
        let p: u128 = power_of_two(shift as u32);
        let half: u128 = power_of_two((shift - 1) as u32);
        proof {
            lemma_half_even_shift(num, den, sig as nat, e as int, inexact, gap as nat);
            lemma_exp2_sum(shift as nat, 53);
            lemma_exp2_monotone(digits as nat, shift as nat + 53);
            let q = sig as nat / p as nat;
            vstd::arithmetic::div_mod::lemma_fundamental_div_mod(sig as int, p as int);
            assert(q < exp2(53)) by (nonlinear_arith)
                requires
                    sig == p * q + sig % p,
                    sig % p >= 0,
                    sig < p * exp2(53),
                    p > 0,
            ;
        }
        let q: u128 = sig / p;
        let rem: u128 = sig % p;
        if rem > half || (rem == half && (inexact || q % 2 == 1)) {
            (q + 1) as u64
        } else {
            q as u64
        }
    };
    let m: u64 = gap as u64 * BLOCK + steps;
    if m < INFINITY {
        m
    } else {
        INFINITY
    }
}

/// The steps of a finite magnitude fill at most one block, and more than half of it beyond the
/// finest gap.
proof fn lemma_magnitude_steps(m: u64)
    requires
        m < INFINITY,
    ensures
        magnitude_steps(m) < 2 * BLOCK,
        magnitude_gap(m) > 0 ==> magnitude_steps(m) >= BLOCK,
        m == magnitude_gap(m) * BLOCK + magnitude_steps(m),
        magnitude_gap(m) <= 2045,
{
}

/// Larger magnitudes stand for larger values.
pub proof fn lemma_magnitude_order(a: u64, b: u64)
    requires
        a < b < INFINITY,
    ensures
        magnitude_value(a) < magnitude_value(b),
{
    lemma_magnitude_steps(a);
    lemma_magnitude_steps(b);
    let (ga, gb) = (magnitude_gap(a), magnitude_gap(b));
    let (sa, sb) = (magnitude_steps(a), magnitude_steps(b));
    lemma_exp2_positive(ga);
    let x = exp2(ga);
    if ga == gb {
        assert(sa * x < sb * x) by (nonlinear_arith)
            requires
                sa < sb,
                x >= 1,
        ;
    } else {
        lemma_exp2_monotone(ga, gb);
        let y = exp2(gb);
        assert(sa * x < sb * y) by (nonlinear_arith)
            requires
                sa < 2 * BLOCK,
                BLOCK <= sb,
                2 * x <= y,
                x >= 1,
        ;
    }
}

/// A value of at most 53 binary digits, times a power of two, is rounded to itself.
pub proof fn lemma_round_representable(sig: nat, e: nat)
    requires
        sig < 2 * BLOCK,
        round_ratio(sig * exp2(e), 1) < INFINITY,
    ensures
        magnitude_value(round_ratio(sig * exp2(e), 1)) == sig * exp2(e),
{
    let v = sig * exp2(e);
    lemma_exp2_values();
    lemma_exp2_positive(e);
    if sig == 0 {
        assert(v == 0) by (nonlinear_arith)
            requires
                v == sig * exp2(e),
                sig == 0,
        ;
        lemma_round_zero(1);
        assert(0 * exp2(0) == 0) by (nonlinear_arith);
    } else {
        let digits = bit_length(sig);
        lemma_bit_length_range(sig);
        if digits > 53 {
            lemma_exp2_monotone(53, (digits - 1) as nat);
        }
        assert(v * 1 == v) by (nonlinear_arith);
        assert(1 * exp2(e) == exp2(e)) by (nonlinear_arith);
        assert((sig + 1) * exp2(e) == v + exp2(e)) by (nonlinear_arith)
            requires
                v == sig * exp2(e),
        ;
        assert(in_cell(v, 1, sig, e as int, false));
        lemma_cell_digits(v, 1, sig, e as int, false, digits);
        let gap = spacing(v, 1);
        lemma_half_even_exact(v, 1, sig, e as int, gap);
        let k = (e - gap) as nat;
        let h = sig * exp2(k);
        lemma_exp2_sum(digits, k);
        lemma_exp2_sum((digits - 1) as nat, k);
        lemma_exp2_positive(k);
        lemma_exp2_monotone(digits + k, 53);
        assert(h < exp2(digits) * exp2(k)) by (nonlinear_arith)
            requires
                h == sig * exp2(k),
                sig < exp2(digits),
                exp2(k) >= 1,
        ;
        assert(h >= exp2((digits - 1) as nat) * exp2(k)) by (nonlinear_arith)
            requires
                h == sig * exp2(k),
                sig >= exp2((digits - 1) as nat),
        ;
        assert(gap > 0 ==> digits + k == 53);
        reveal(round_ratio);
        let m = round_ratio(v, 1);
        assert(1 * exp2(gap) == exp2(gap)) by (nonlinear_arith);
        assert(m == gap * BLOCK + h);
        assert(magnitude_gap(m) == gap);
        lemma_exp2_sum(gap, k);
        assert(h * exp2(gap) == v) by (nonlinear_arith)
            requires
                h == sig * exp2(k),
                v == sig * exp2(e),
                exp2(e) == exp2(gap) * exp2(k),
        ;
    }
}

/// The doubling range in which a number lies, from its number of binary digits.
pub proof fn lemma_bit_length_range(n: nat)
    ensures
        n < exp2(bit_length(n)),
        n > 0 ==> bit_length(n) > 0 && exp2((bit_length(n) - 1) as nat) <= n,
    decreases n,
{
    reveal(bit_length);
    lemma_exp2_step(0);
    if n > 0 {
        lemma_bit_length_range(n / 2);
        lemma_exp2_step(bit_length(n / 2));
        if n / 2 > 0 {
            lemma_exp2_step((bit_length(n / 2) - 1) as nat);
        }
    }
}

/// Scaling both parts of a ratio leaves what it is rounded to unchanged.
pub proof fn lemma_round_scale(num: nat, den: nat, c: nat)
    requires
        den > 0,
        c > 0,
    ensures
        round_ratio(num * c, den * c) == round_ratio(num, den),
{
    reveal(round_ratio);
    vstd::arithmetic::div_mod::lemma_fundamental_div_mod(num as int, den as int);
    let q = num / den;
    let r = num % den;
    assert(num * c == q * (den * c) + r * c) by (nonlinear_arith)
        requires
            num == den * q + r,
    ;
    assert(r * c < den * c) by (nonlinear_arith)
        requires
            r < den,
            c > 0,
    ;
    lemma_quotient(num * c, den * c, q, r * c);
    let x = exp2(spacing(num, den));
    lemma_exp2_positive(spacing(num, den));
    assert((den * c) * x == (den * x) * c) by (nonlinear_arith);
    assert(den * x > 0) by (nonlinear_arith)
        requires
            den > 0,
            x >= 1,
    ;
    lemma_half_even_scale(num, den * x, c);
}

/// The distance of `num / den` from the value `v`, over the denominator.
pub open spec fn distance(num: nat, den: nat, v: nat) -> nat {
    if num >= v * den {
        (num - v * den) as nat
    } else {
        (v * den - num) as nat
    }
}

/// No whole number of steps is nearer than the nearest one.
proof fn lemma_half_even_nearest(num: nat, d: nat, k: nat)
    requires
        d > 0,
    ensures
        distance(num, d, half_even(num, d)) <= distance(num, d, k),
{
    let q = num / d;
    let r = num % d;
    let h = half_even(num, d);
    vstd::arithmetic::div_mod::lemma_fundamental_div_mod(num as int, d as int);
    assert(num == q * d + r) by (nonlinear_arith)
        requires
            num == d * q + r,
    ;
    assert((q + 1) * d == q * d + d) by (nonlinear_arith);
    if k <= q {
        assert(k * d <= q * d) by (nonlinear_arith)
            requires
                k <= q,
        ;
    } else {
        assert(k * d >= q * d + d) by (nonlinear_arith)
            requires
                k >= q + 1,
        ;
    }
    assert(h == q || h == q + 1);
}

/// Rounding gives the nearest number: no finite magnitude is nearer to a ratio than the finite
/// one to which the ratio is rounded.
pub proof fn law_rounding_is_nearest(num: nat, den: nat, other: u64)
    requires
        den > 0,
        round_ratio(num, den) < INFINITY,
        other < INFINITY,
    ensures
        distance(num, den, magnitude_value(round_ratio(num, den)))
            <= distance(num, den, magnitude_value(other)),
{
    lemma_exp2_values();
    let gap = spacing(num, den);
    let x = exp2(gap);
    let d = den * x;
    lemma_exp2_positive(gap);
    assert(d > 0) by (nonlinear_arith)
        requires
            d == den * x,
            den > 0,
            x >= 1,
    ;
    let h = half_even(num, d);
    reveal(round_ratio);
    let m = round_ratio(num, den);
    assert(m == gap * BLOCK + h);
    // The rounded value is `h` steps of the gap.
    let whole = num / den;
    vstd::arithmetic::div_mod::lemma_fundamental_div_mod(num as int, den as int);
    lemma_bit_length_range(whole);
    let digits = bit_length(whole);
    lemma_half_even_nearest(num, d, BLOCK as nat);
    lemma_half_even_nearest(num, d, (2 * BLOCK) as nat);
    vstd::arithmetic::div_mod::lemma_fundamental_div_mod(num as int, d as int);
    assert(num < (2 * BLOCK) * d) by {
        if digits < 53 {
            lemma_exp2_monotone(digits, 53);
        }
        lemma_exp2_sum(53, gap);
        assert(whole < exp2(53 + gap));
        assert(num < (2 * BLOCK) * d) by (nonlinear_arith)
            requires
                num == den * whole + num % den,
                num % den < den,
                whole < (2 * BLOCK) * x,
                d == den * x,
                den > 0,
        ;
    }
    if gap > 0 {
        lemma_exp2_sum(52, gap);
        assert((digits - 1) as nat == 52 + gap);
        assert(whole > 0) by {
            reveal(bit_length);
        }
        assert(BLOCK * d <= num) by (nonlinear_arith)
            requires
                num == den * whole + num % den,
                num % den >= 0,
                whole >= BLOCK * x,
                d == den * x,
        ;
    }
    let q = num / d;
    assert(q < 2 * BLOCK) by (nonlinear_arith)
        requires
            num == d * q + num % d,
            num % d >= 0,
            num < (2 * BLOCK) * d,
            d > 0,
    ;
    if gap > 0 {
        assert(q >= BLOCK) by (nonlinear_arith)
            requires
                num == d * q + num % d,
                num % d < d,
                BLOCK * d <= num,
                d > 0,
        ;
    }
    assert(h <= 2 * BLOCK);
    assert(magnitude_value(m) * den == h * d) by {
        if h < 2 * BLOCK {
            assert(magnitude_gap(m) == gap);
            assert((h * x) * den == h * (den * x)) by (nonlinear_arith);
        } else {
            assert(magnitude_gap(m) == gap + 1);
            lemma_exp2_step(gap);
            assert((BLOCK * (2 * x)) * den == h * (den * x)) by (nonlinear_arith)
                requires
                    h == 2 * BLOCK,
            ;
        }
    }
    // Any other value is a whole number of steps, or below the range of the gap.
    lemma_magnitude_steps(other);
    let g = magnitude_gap(other);
    let s = magnitude_steps(other);
    if g >= gap {
        let k = (g - gap) as nat;
        lemma_exp2_sum(gap, k);
        let y = exp2(k);
        assert((s * exp2(g)) * den == (s * y) * d) by (nonlinear_arith)
            requires
                exp2(g) == x * y,
                d == den * x,
        ;
        lemma_half_even_nearest(num, d, s * y);
    } else {
        lemma_exp2_monotone(g, gap);
        assert((s * exp2(g)) * den <= BLOCK * d) by (nonlinear_arith)
            requires
                s < 2 * BLOCK,
                2 * exp2(g) <= x,
                d == den * x,
        ;
    }
}

/// Every finite magnitude is rounded to itself.
pub proof fn law_rounding_keeps_numbers(m: u64)
    requires
        m < INFINITY,
    ensures
        round_ratio(magnitude_value(m), 1) == m,
{
    lemma_magnitude_steps(m);
    let r = round_ratio(magnitude_value(m), 1);
    lemma_round_bound(magnitude_value(m), 1);
    if r < INFINITY {
        lemma_round_representable(magnitude_steps(m), magnitude_gap(m));
        if r < m {
            lemma_magnitude_order(r, m);
        } else if m < r {
            lemma_magnitude_order(m, r);
        }
    } else {
        lemma_round_finite(m);
    }
}

/// A finite value is not rounded up to infinity.
proof fn lemma_round_finite(m: u64)
    requires
        m < INFINITY,
    ensures
        round_ratio(magnitude_value(m), 1) < INFINITY,
{
    let v = magnitude_value(m);
    lemma_magnitude_steps(m);
    lemma_exp2_values();
    let g = magnitude_gap(m);
    let s = magnitude_steps(m);
    lemma_exp2_positive(g);
    if s == 0 {
        assert(v == 0) by (nonlinear_arith)
            requires
                v == s * exp2(g),
                s == 0,
        ;
        lemma_round_zero(1);
    } else {
        let digits = bit_length(s);
        lemma_bit_length_range(s);
        if digits > 53 {
            lemma_exp2_monotone(53, (digits - 1) as nat);
        }
        if g > 0 && digits < 53 {
            lemma_exp2_monotone(digits, 52);
        }
        assert(v * 1 == v) by (nonlinear_arith);
        assert(1 * exp2(g) == exp2(g)) by (nonlinear_arith);
        assert((s + 1) * exp2(g) == v + exp2(g)) by (nonlinear_arith)
            requires
                v == s * exp2(g),
        ;
        lemma_cell_digits(v, 1, s, g as int, false, digits);
        assert(spacing(v, 1) == g);
        lemma_half_even_exact(v, 1, s, g as int, g);
        assert(s * exp2(0) == s) by (nonlinear_arith)
            requires
                exp2(0) == 1,
        ;
        reveal(round_ratio);
        assert(1 * exp2(g) == exp2(g)) by (nonlinear_arith);
    }
}

/// Where the ratio lies among the steps of its gap: below twice the block, and from the block on
/// where the gap is wide.
proof fn lemma_steps_range(num: nat, den: nat)
    requires
        den > 0,
    ensures
        exp2(spacing(num, den)) >= 1,
        den * exp2(spacing(num, den)) > 0,
        half_even(num, den * exp2(spacing(num, den))) <= 2 * BLOCK,
        spacing(num, den) > 0 ==> half_even(num, den * exp2(spacing(num, den))) >= BLOCK,
{
    lemma_exp2_values();
    let gap = spacing(num, den);
    let x = exp2(gap);
    let d = den * x;
    lemma_exp2_positive(gap);
    assert(d > 0) by (nonlinear_arith)
        requires
            d == den * x,
            den > 0,
            x >= 1,
    ;
    let whole = num / den;
    vstd::arithmetic::div_mod::lemma_fundamental_div_mod(num as int, den as int);
    vstd::arithmetic::div_mod::lemma_fundamental_div_mod(num as int, d as int);
    lemma_bit_length_range(whole);
    let digits = bit_length(whole);
    if digits < 53 {
        lemma_exp2_monotone(digits, 53);
    }
    lemma_exp2_sum(53, gap);
    assert(num < (2 * BLOCK) * d) by (nonlinear_arith)
        requires
            num == den * whole + num % den,
            num % den < den,
            whole < (2 * BLOCK) * x,
            d == den * x,
            den > 0,
    ;
    let q = num / d;
    assert(q < 2 * BLOCK) by (nonlinear_arith)
        requires
            num == d * q + num % d,
            num % d >= 0,
            num < (2 * BLOCK) * d,
            d > 0,
    ;
    if gap > 0 {
        lemma_exp2_sum(52, gap);
        assert((digits - 1) as nat == 52 + gap);
        assert(whole > 0) by {
            reveal(bit_length);
        }
        assert(BLOCK * d <= num) by (nonlinear_arith)
            requires
                num == den * whole + num % den,
                num % den >= 0,
                whole >= BLOCK * x,
                d == den * x,
        ;
        assert(q >= BLOCK) by (nonlinear_arith)
            requires
                num == d * q + num % d,
                num % d < d,
                BLOCK * d <= num,
                d > 0,
        ;
    }
}

/// A smaller ratio has no more whole parts.
proof fn lemma_quotient_order(a: nat, c: nat, b: nat, d: nat)
    requires
        c > 0,
        d > 0,
        a * d <= b * c,
    ensures
        a / c <= b / d,
{
    vstd::arithmetic::div_mod::lemma_fundamental_div_mod(a as int, c as int);
    vstd::arithmetic::div_mod::lemma_fundamental_div_mod(b as int, d as int);
    let (p, q) = (a / c, b / d);
    if p > q {
        assert(a * d > b * c) by (nonlinear_arith)
            requires
                a == c * p + a % c,
                a % c >= 0,
                b == d * q + b % d,
                b % d < d,
                p >= q + 1,
                c > 0,
                d > 0,
        ;
    }
}

proof fn lemma_half_even_order(a: nat, c: nat, b: nat, d: nat)
    requires
        c > 0,
        d > 0,
        a * d <= b * c,
    ensures
        half_even(a, c) <= half_even(b, d),
{
    lemma_quotient_order(a, c, b, d);
    let (p, q) = (a / c, b / d);
    if p == q {
        vstd::arithmetic::div_mod::lemma_fundamental_div_mod(a as int, c as int);
        vstd::arithmetic::div_mod::lemma_fundamental_div_mod(b as int, d as int);
        let (r, s) = (a % c, b % d);
        assert(r * d <= s * c) by (nonlinear_arith)
            requires
                a == c * p + r,
                b == d * p + s,
                a * d <= b * c,
        ;
        if 2 * r > c {
            assert(2 * s > d) by (nonlinear_arith)
                requires
                    2 * r > c,
                    r * d <= s * c,
                    c > 0,
                    d > 0,
            ;
        } else if 2 * r == c {
            assert(2 * s >= d) by (nonlinear_arith)
                requires
                    2 * r == c,
                    r * d <= s * c,
                    c > 0,
                    d > 0,
            ;
        }
    }
}

/// Rounding keeps the order: a smaller ratio is not rounded to a larger number.
pub proof fn law_rounding_keeps_order(a: nat, c: nat, b: nat, d: nat)
    requires
        c > 0,
        d > 0,
        a * d <= b * c,
    ensures
        round_ratio(a, c) <= round_ratio(b, d),
{
    reveal(round_ratio);
    lemma_quotient_order(a, c, b, d);
    lemma_steps_range(a, c);
    lemma_steps_range(b, d);
    let (p, q) = (a / c, b / d);
    lemma_bit_length_range(p);
    lemma_bit_length_range(q);
    if bit_length(p) > bit_length(q) {
        lemma_exp2_monotone(bit_length(q), (bit_length(p) - 1) as nat);
        assert(p > 0) by {
            reveal(bit_length);
        }
    }
    let (g, h) = (spacing(a, c), spacing(b, d));
    assert(g <= h);
    let x = exp2(g);
    if g == h {
        assert(a * (d * x) <= b * (c * x)) by (nonlinear_arith)
            requires
                a * d <= b * c,
                x >= 1,
        ;
        lemma_half_even_order(a, c * x, b, d * x);
    } else {
        assert(g * BLOCK + BLOCK <= h * BLOCK) by (nonlinear_arith)
            requires
                g + 1 <= h,
        ;
    }
}

/// Doubling a whole number of units so many times doubles what it is rounded to as often.
pub proof fn law_rounding_keeps_powers_of_two(n: nat, k: nat)
    requires
        round_ratio(n * exp2(k), 1) < INFINITY,
    ensures
        round_ratio(n, 1) < INFINITY,
        magnitude_value(round_ratio(n * exp2(k), 1)) == magnitude_value(round_ratio(n, 1)) * exp2(k),
{
    let (x, big) = (exp2(k), n * exp2(k));
    lemma_exp2_values();
    lemma_exp2_positive(k);
    assert(n * 1 <= big * 1) by (nonlinear_arith)
        requires
            big == n * x,
            x >= 1,
    ;
    law_rounding_keeps_order(n, 1, big, 1);
    if n < 2 * BLOCK {
        assert(n * exp2(0) == n) by (nonlinear_arith)
            requires
                exp2(0) == 1,
        ;
        lemma_round_representable(n, 0);
        lemma_round_representable(n, k);
    } else {
        let digits = bit_length(n);
        lemma_bit_length_range(n);
        if digits <= 53 {
            lemma_exp2_monotone(digits, 53);
        }
        lemma_exp2_sum(digits, k);
        lemma_exp2_sum((digits - 1) as nat, k);
        assert(exp2((digits - 1) as nat) * x <= big < exp2(digits) * x) by (nonlinear_arith)
            requires
                exp2((digits - 1) as nat) <= n < exp2(digits),
                big == n * x,
                x >= 1,
        ;
        lemma_bit_length(big, digits + k);
        assert(n / 1 == n && big / 1 == big);
        let gap = spacing(n, 1);
        assert(gap == digits - 53);
        assert(spacing(big, 1) == gap + k);
        let d = exp2(gap);
        lemma_exp2_positive(gap);
        lemma_exp2_sum(gap, k);
        assert(1 * d == d && 1 * exp2(gap + k) == exp2(gap + k)) by (nonlinear_arith);
        lemma_half_even_scale(n, d, x);
        lemma_steps_range(n, 1);
        let h = half_even(n, d);
        reveal(round_ratio);
        let (m, m2) = (round_ratio(n, 1), round_ratio(big, 1));
        assert((gap + k) * BLOCK == gap * BLOCK + k * BLOCK) by (nonlinear_arith);
        assert(m == gap * BLOCK + h);
        assert(m2 == (gap + k) * BLOCK + h);
        if h < 2 * BLOCK {
            assert(magnitude_gap(m) == gap);
            assert(magnitude_gap(m2) == gap + k);
            assert(h * (d * x) == (h * d) * x) by (nonlinear_arith);
        } else {
            assert(magnitude_gap(m) == gap + 1);
            assert(magnitude_gap(m2) == gap + k + 1);
            lemma_exp2_step(gap);
            lemma_exp2_step(gap + k);
            assert(BLOCK * (2 * (d * x)) == (BLOCK * (2 * d)) * x) by (nonlinear_arith);
        }
    }
}

} // verus!
