//! Numbers of limited precision, and the size that the frames of a video are scaled to.
//!
//! The scale is a double-precision number, and so is the product of a side with it. Both are worked
//! out here in integers: a number is held as 53 bits and a power of two, and what does not fit is
//! rounded to the nearest, to an even one where two are equally near.

use vstd::arithmetic::power2::{lemma_pow2_pos, lemma_pow2_unfold, pow2};
use vstd::prelude::*;

verus! {

/// The smallest number that takes all 53 bits.
pub const LEAST_53_BITS: u64 = 0x10_0000_0000_0000;

/// The smallest number that takes all 24 bits of single precision.
pub const LEAST_24_BITS: u64 = 0x80_0000;

/// `n / d` to the nearest integer, to the even one where two are equally near.
pub open spec fn nearest(n: nat, d: nat) -> nat {
    let (q, r) = (n / d, n % d);
    if 2 * r < d || (2 * r == d && q % 2 == 0) {
        q
    } else {
        q + 1
    }
}

/// How often `a` has to be doubled until `a / b` takes 53 bits.
pub open spec fn doublings(a: nat, b: nat) -> nat
    decreases
        if a < LEAST_53_BITS * b {
            LEAST_53_BITS * b - a
        } else {
            0
        },
{
    if a == 0 || a >= LEAST_53_BITS * b {
        0
    } else {
        1 + doublings(2 * a, b)
    }
}

/// How often `n` has to be halved until it takes no more bits than `least` does.
pub open spec fn excess_bits(n: nat, least: nat) -> nat
    decreases n,
{
    if n < 2 * least || n == 0 {
        0
    } else {
        1 + excess_bits(n / 2, least)
    }
}

/// `n` with no more bits than `least` has, the rest rounded.
pub open spec fn in_bits_of(n: nat, least: nat) -> nat {
    nearest(n, pow2(excess_bits(n, least))) * pow2(excess_bits(n, least))
}

/// The whole part of `side * (p / q)` in double precision, which is at most what 32 bits hold.
pub open spec fn scaled_side(side: nat, p: nat, q: nat) -> nat {
    let k = doublings(p, q);
    let whole = in_bits_of(side * nearest(p * pow2(k), q), LEAST_53_BITS as nat) / pow2(k);
    if whole > u32::MAX {
        u32::MAX as nat
    } else {
        whole
    }
}

/// The largest even number that is not above `n`, and two at least.
pub open spec fn even_side(n: nat) -> nat {
    if n < 2 {
        2
    } else {
        (n - n % 2) as nat
    }
}

/// The scale, as a fraction: the smaller of the two at which a side fits. Rounding keeps their order.
/// A side of no length fits at any scale.
pub open spec fn fitting_scale(src_w: nat, src_h: nat, max_w: nat, max_h: nat) -> (nat, nat) {
    if src_h == 0 || (src_w > 0 && max_w * src_h <= max_h * src_w) {
        (max_w, src_w)
    } else {
        (max_h, src_h)
    }
}

/// The size at which a frame fits: its own where it does, else both sides scaled down, to even
/// numbers.
pub open spec fn fitted(src_w: nat, src_h: nat, max_w: nat, max_h: nat) -> (nat, nat) {
    if src_w <= max_w && src_h <= max_h {
        (src_w, src_h)
    } else {
        let (p, q) = fitting_scale(src_w, src_h, max_w, max_h);
        (even_side(scaled_side(src_w, p, q)), even_side(scaled_side(src_h, p, q)))
    }
}

fn round_nearest(n: u128, d: u128) -> (r: u128)
    requires
        0 < d < 0x8000_0000_0000_0000_0000_0000_0000_0000,
        n < 0x8000_0000_0000_0000_0000_0000_0000_0000,
    ensures
        r == nearest(n as nat, d as nat),
        r <= n,
{
    let q: u128 = n / d;
    let rest: u128 = n % d;
    proof {
        vstd::arithmetic::div_mod::lemma_fundamental_div_mod(n as int, d as int);
        assert(q <= n) by (nonlinear_arith)
            requires
                n as int == (d as int) * (q as int) + rest as int,
                d >= 1,
                rest >= 0,
        ;
        if rest > 0 {
            assert(q < n) by (nonlinear_arith)
                requires
                    n as int == (d as int) * (q as int) + rest as int,
                    d >= 1,
                    rest >= 1,
            ;
        }
    }
    if 2 * rest < d || (2 * rest == d && q % 2 == 0) {
        q
    } else {
        q + 1
    }
}

/// `a` after the doublings, and two to their number.
fn double_up(a: u32, b: u32) -> (r: (u128, u128))
    requires
        b > 0,
    ensures
        r.0 == a * pow2(doublings(a as nat, b as nat)),
        r.1 == pow2(doublings(a as nat, b as nat)),
        r.0 < 2 * (LEAST_53_BITS * b),
        r.0 <= 2 * LEAST_53_BITS * 0xffff_ffff,
{
    proof {
        assert(LEAST_53_BITS <= LEAST_53_BITS * b <= LEAST_53_BITS * 0xffff_ffff)
            by (nonlinear_arith)
            requires
                1 <= b <= 0xffff_ffff,
        ;
    }
    let least: u128 = LEAST_53_BITS as u128 * b as u128;
    let mut n: u128 = a as u128;
    let mut power: u128 = 1;
    let ghost mut k: nat = 0;
    proof {
        vstd::arithmetic::power2::lemma2_to64();
    }
    while n != 0 && n < least
        invariant
            b > 0,
            least == LEAST_53_BITS * b,
            LEAST_53_BITS <= least <= LEAST_53_BITS * 0xffff_ffff,
            n < 2 * least,
            power == pow2(k),
            n == a * power,
            n == 0 <==> a == 0,
            power <= n || n == 0,
            n == 0 ==> k == 0,
            doublings(a as nat, b as nat) == k + doublings(n as nat, b as nat),
        decreases
            if n < least {
                least - n
            } else {
                0
            },
    {
        proof {
            lemma_pow2_unfold(k + 1);
            assert(2 * n == a * (2 * power)) by (nonlinear_arith)
                requires
                    n == a * power,
            ;
            k = k + 1;
        }
        n = 2 * n;
        power = 2 * power;
    }
    (n, power)
}

/// Two to the power of the number of halvings.
fn excess_power(n: u128, least: u64) -> (power: u128)
    requires
        least > 0,
    ensures
        power == pow2(excess_bits(n as nat, least as nat)),
        0 < power,
        power <= n || power == 1,
{
    let mut rest: u128 = n;
    let mut power: u128 = 1;
    let ghost mut k: nat = 0;
    proof {
        vstd::arithmetic::power2::lemma2_to64();
    }
    while rest >= 2 * least as u128
        invariant
            least > 0,
            power == pow2(k),
            power >= 1,
            rest * power <= n,
            rest >= 1 || k == 0,
            excess_bits(n as nat, least as nat) == k + excess_bits(rest as nat, least as nat),
        decreases rest,
    {
        proof {
            lemma_pow2_unfold(k + 1);
            assert((rest / 2) * (2 * power) <= n && 2 * power <= n) by (nonlinear_arith)
                requires
                    rest * power <= n,
                    rest >= 2,
                    power >= 1,
            ;
            k = k + 1;
        }
        rest = rest / 2;
        power = 2 * power;
    }
    proof {
        if k > 0 {
            assert(power <= n) by (nonlinear_arith)
                requires
                    rest * power <= n,
                    rest >= 1,
                    power >= 1,
            ;
        }
    }
    power
}

/// The whole part of `side * (p / q)` in double precision.
fn scale_side(side: u32, p: u32, q: u32) -> (r: u32)
    requires
        q > 0,
    ensures
        r == scaled_side(side as nat, p as nat, q as nat),
{
    let (n, power) = double_up(p, q);
    let ghost k = doublings(p as nat, q as nat);
    proof {
        lemma_pow2_pos(k);
        lemma_quotient(n as nat, q as nat);
    }
    let m: u128 = round_nearest(n, q as u128);
    proof {
        assert(side * m <= 0xffff_ffff * 0x20_0000_0000_0000) by (nonlinear_arith)
            requires
                side <= 0xffff_ffff,
                m <= 0x20_0000_0000_0000,
        ;
    }
    let product: u128 = side as u128 * m;
    let unit: u128 = excess_power(product, LEAST_53_BITS);
    proof {
        lemma_rounded_size(product as nat, unit as nat);
    }
    let whole: u128 = round_nearest(product, unit) * unit / power;
    if whole > u32::MAX as u128 {
        u32::MAX
    } else {
        whole as u32
    }
}

/// A fraction of 53 bits rounds to a number of 53 bits, or to the next one.
proof fn lemma_quotient(n: nat, d: nat)
    requires
        0 < d,
        n < 2 * (LEAST_53_BITS * d),
    ensures
        nearest(n, d) <= 2 * LEAST_53_BITS,
{
    vstd::arithmetic::div_mod::lemma_fundamental_div_mod(n as int, d as int);
    assert(n / d < 2 * LEAST_53_BITS) by (nonlinear_arith)
        requires
            n as int == (d as int) * (n as int / d as int) + n as int % d as int,
            n as int % d as int >= 0,
            n < 2 * (LEAST_53_BITS * d),
            d > 0,
    ;
}

/// Rounding to a multiple adds no more than one unit.
proof fn lemma_rounded_size(n: nat, d: nat)
    requires
        0 < d,
    ensures
        nearest(n, d) * d <= n + d,
{
    vstd::arithmetic::div_mod::lemma_fundamental_div_mod(n as int, d as int);
    let q = n / d;
    assert((q + 1) * d == d * q + d) by (nonlinear_arith);
    assert(q * d == d * q) by (nonlinear_arith);
}

/// A number in single precision.
pub open spec fn in_single(n: nat) -> nat {
    in_bits_of(n, LEAST_24_BITS as nat)
}

/// A number in single precision.
pub fn to_single(n: u32) -> (r: u64)
    ensures
        r == in_single(n as nat),
        r <= 0x2_0000_0000,
        n == 0 <==> r == 0,
{
    let unit: u128 = excess_power(n as u128, LEAST_24_BITS);
    proof {
        lemma_rounded_size(n as nat, unit as nat);
        lemma_rounded_least(n as nat, unit as nat);
    }
    (round_nearest(n as u128, unit) * unit) as u64
}

/// Rounding to a multiple of something no greater does not lose a number altogether.
proof fn lemma_rounded_least(n: nat, d: nat)
    requires
        0 < d,
        d <= n || d == 1,
    ensures
        nearest(n, d) * d == 0 <==> n == 0,
{
    vstd::arithmetic::div_mod::lemma_fundamental_div_mod(n as int, d as int);
    let q = n / d;
    if n > 0 {
        assert(q >= 1) by (nonlinear_arith)
            requires
                n as int == (d as int) * (q as int) + n as int % d as int,
                n as int % (d as int) < d,
                d <= n,
                0 < d,
        ;
        assert(nearest(n, d) * d > 0) by (nonlinear_arith)
            requires
                nearest(n, d) >= 1,
                d > 0,
        ;
    }
}

/// The size that frames of `src_w` by `src_h` are scaled to so that they fit into `max_w` by
/// `max_h`. Frames that fit keep their size; others keep their proportions, and both sides are even.
pub fn fit_dimensions(src_w: u32, src_h: u32, max_w: u32, max_h: u32) -> (r: (u32, u32))
    ensures
        (r.0 as nat, r.1 as nat) == fitted(
            src_w as nat,
            src_h as nat,
            max_w as nat,
            max_h as nat,
        ),
{
    if src_w <= max_w && src_h <= max_h {
        return (src_w, src_h);
    }
    proof {
        assert(max_w * src_h <= 0xffff_ffff * 0xffff_ffff && max_h * src_w <= 0xffff_ffff
            * 0xffff_ffff) by (nonlinear_arith)
            requires
                max_w <= 0xffff_ffff,
                max_h <= 0xffff_ffff,
                src_w <= 0xffff_ffff,
                src_h <= 0xffff_ffff,
        ;
    }
    let by_width: bool = src_h == 0 || (src_w > 0 && max_w as u64 * src_h as u64 <= max_h as u64
        * src_w as u64);
    let (p, q) = if by_width {
        (max_w, src_w)
    } else {
        (max_h, src_h)
    };
    (even(scale_side(src_w, p, q)), even(scale_side(src_h, p, q)))
}

/// Dropping the bits that 53 do not hold loses little: the unit that is left is small beside the
/// number.
proof fn lemma_unit_is_small(n: nat)
    ensures
        excess_bits(n, LEAST_53_BITS as nat) > 0 ==> LEAST_53_BITS * pow2(
            excess_bits(n, LEAST_53_BITS as nat),
        ) <= n,
    decreases n,
{
    if n >= 2 * LEAST_53_BITS {
        let j = excess_bits(n / 2, LEAST_53_BITS as nat);
        lemma_unit_is_small(n / 2);
        lemma_pow2_unfold(j + 1);
        vstd::arithmetic::power2::lemma2_to64();
    }
}

/// The doublings end where the fraction takes 53 bits.
proof fn lemma_doubled(a: nat, b: nat)
    requires
        a > 0,
        b > 0,
    ensures
        LEAST_53_BITS * b <= a * pow2(doublings(a, b)),
    decreases
        if a < LEAST_53_BITS * b {
            LEAST_53_BITS * b - a
        } else {
            0
        },
{
    vstd::arithmetic::power2::lemma2_to64();
    if a < LEAST_53_BITS * b {
        let k = doublings(2 * a, b);
        lemma_doubled(2 * a, b);
        lemma_pow2_unfold(k + 1);
        assert((2 * a) * pow2(k) == a * (2 * pow2(k))) by (nonlinear_arith);
    } else {
        assert(a * pow2(0) == a) by (nonlinear_arith)
            requires
                pow2(0) == 1,
        ;
    }
}

/// The exact scaled length, and what rounding the scale adds to it.
proof fn lemma_product_bound(side: nat, m: nat, p: nat, q: nat, power: nat, bound: nat)
    requires
        2 * (m * q) <= 2 * (p * power) + q,
        side * p <= bound * q,
        q > 0,
    ensures
        2 * (side * m) <= 2 * (bound * power) + side,
{
    assert(side * (2 * (m * q)) <= side * (2 * (p * power) + q)) by (nonlinear_arith)
        requires
            2 * (m * q) <= 2 * (p * power) + q,
    ;
    assert(2 * (side * m) * q == side * (2 * (m * q))) by (nonlinear_arith);
    assert(side * (2 * (p * power) + q) == 2 * (side * p * power) + side * q) by (nonlinear_arith);
    assert((side * p) * power <= (bound * q) * power) by (nonlinear_arith)
        requires
            side * p <= bound * q,
    ;
    assert((2 * (bound * power) + side) * q == 2 * (bound * q * power) + side * q)
        by (nonlinear_arith);
    assert(2 * (side * m) <= 2 * (bound * power) + side) by (nonlinear_arith)
        requires
            2 * (side * m) * q <= (2 * (bound * power) + side) * q,
            q > 0,
    ;
}

/// A side whose exact scaled length is within a bound is within it after the roundings too.
pub proof fn lemma_side_fits(side: nat, p: nat, q: nat, bound: nat)
    requires
        p < q,
        side <= u32::MAX,
        bound <= u32::MAX,
        side * p <= bound * q,
    ensures
        scaled_side(side, p, q) <= bound,
{
    let k = doublings(p, q);
    let power = pow2(k);
    let m = nearest(p * power, q);
    let product = side * m;
    let unit = pow2(excess_bits(product, LEAST_53_BITS as nat));
    lemma_pow2_pos(k);
    lemma_pow2_pos(excess_bits(product, LEAST_53_BITS as nat));
    if p == 0 {
        assert(p * power == 0) by (nonlinear_arith)
            requires
                p == 0,
        ;
        assert(m == 0);
        assert(product == 0) by (nonlinear_arith)
            requires
                product == side * m,
                m == 0,
        ;
        vstd::arithmetic::power2::lemma2_to64();
        assert(in_bits_of(product, LEAST_53_BITS as nat) == 0);
    } else {
        lemma_doubled(p, q);
        assert(power > LEAST_53_BITS) by (nonlinear_arith)
            requires
                LEAST_53_BITS * q <= p * power,
                0 < p < q,
        ;
        lemma_nearest_error(p * power, q);
        lemma_product_bound(side, m, p, q, power, bound);
        lemma_unit_is_small(product);
        lemma_rounded_size(product, unit);
        assert(bound * power <= 0xffff_ffff * power) by (nonlinear_arith)
            requires
                bound <= 0xffff_ffff,
        ;
        vstd::arithmetic::power2::lemma2_to64();
        assert(in_bits_of(product, LEAST_53_BITS as nat) < bound * power + power);
        assert(in_bits_of(product, LEAST_53_BITS as nat) / power <= bound) by (nonlinear_arith)
            requires
                in_bits_of(product, LEAST_53_BITS as nat) < bound * power + power,
                power > 0,
        ;
    }
}

/// A side is not scaled further down than its exact scaled length, but for less than two pixels.
pub proof fn lemma_side_keeps(side: nat, p: nat, q: nat)
    requires
        0 < p < q,
        side <= u32::MAX,
    ensures
        side * p < (scaled_side(side, p, q) + 2) * q,
{
    let k = doublings(p, q);
    let power = pow2(k);
    let m = nearest(p * power, q);
    let product = side * m;
    let unit = pow2(excess_bits(product, LEAST_53_BITS as nat));
    let rounded = in_bits_of(product, LEAST_53_BITS as nat);
    let whole = rounded / power;
    lemma_pow2_pos(k);
    lemma_pow2_pos(excess_bits(product, LEAST_53_BITS as nat));
    lemma_doubled(p, q);
    assert(power > LEAST_53_BITS) by (nonlinear_arith)
        requires
            LEAST_53_BITS * q <= p * power,
            0 < p < q,
    ;
    lemma_nearest_error(p * power, q);
    lemma_nearest_error(product, unit);
    lemma_unit_is_small(product);
    vstd::arithmetic::power2::lemma2_to64();
    assert(side * p <= side * q) by (nonlinear_arith)
        requires
            p < q,
    ;
    lemma_product_bound(side, m, p, q, power, side);
    assert(side * power <= 0xffff_ffff * power) by (nonlinear_arith)
        requires
            side <= 0xffff_ffff,
    ;
    assert(2 * product <= 2 * rounded + unit);
    assert(side + 2 * unit <= 2 * power);
    vstd::arithmetic::div_mod::lemma_fundamental_div_mod(rounded as int, power as int);
    assert(rounded < (whole + 1) * power) by (nonlinear_arith)
        requires
            rounded as int == (power as int) * (whole as int) + rounded as int % power as int,
            rounded as int % (power as int) < power as int,
    ;
    assert(2 * (side * p) * power <= 2 * product * q + side * q) by (nonlinear_arith)
        requires
            product == side * m,
            2 * (p * power) <= 2 * (m * q) + q,
    ;
    assert(side * p < (whole + 2) * q) by (nonlinear_arith)
        requires
            2 * (side * p) * power <= 2 * product * q + side * q,
            2 * product <= 2 * rounded + unit,
            rounded < (whole + 1) * power,
            side + 2 * unit <= 2 * power,
            power > 0,
            q > 0,
    {
        assert(2 * product * q <= (2 * rounded + unit) * q);
        assert(2 * rounded * q < 2 * ((whole + 1) * power) * q);
        assert((unit + side) * q <= 2 * power * q);
        assert(2 * (side * p) * power < 2 * ((whole + 2) * q) * power);
    }
    lemma_side_fits(side, p, q, side);
    assert(rounded < side * power + power);
    assert(whole <= side) by (nonlinear_arith)
        requires
            whole == rounded / power,
            rounded < side * power + power,
            power > 0,
    ;
}

/// Rounding to the nearest is off by half a unit at most.
proof fn lemma_nearest_error(n: nat, d: nat)
    requires
        0 < d,
    ensures
        2 * (nearest(n, d) * d) <= 2 * n + d,
        2 * n <= 2 * (nearest(n, d) * d) + d,
{
    vstd::arithmetic::div_mod::lemma_fundamental_div_mod(n as int, d as int);
    let q = n / d;
    assert((q + 1) * d == d * q + d) by (nonlinear_arith);
    assert(q * d == d * q) by (nonlinear_arith);
}

/// Whatever the size of a frame, it fits once it is scaled, as far as an even size of two at least
/// can fit at all.
pub proof fn lemma_fitted_fits(src_w: nat, src_h: nat, max_w: nat, max_h: nat)
    requires
        src_w <= u32::MAX,
        src_h <= u32::MAX,
        2 <= max_w <= u32::MAX,
        2 <= max_h <= u32::MAX,
    ensures
        fitted(src_w, src_h, max_w, max_h).0 <= max_w,
        fitted(src_w, src_h, max_w, max_h).1 <= max_h,
{
    if src_w > max_w || src_h > max_h {
        let (p, q) = fitting_scale(src_w, src_h, max_w, max_h);
        assert(p < q) by (nonlinear_arith)
            requires
                src_w > max_w || src_h > max_h,
                max_w >= 2,
                max_h >= 2,
                (p, q) == (if src_h == 0 || (src_w > 0 && max_w * src_h <= max_h * src_w) {
                    (max_w, src_w)
                } else {
                    (max_h, src_h)
                }),
        ;
        assert(src_w * p <= max_w * q && src_h * p <= max_h * q) by (nonlinear_arith)
            requires
                (p, q) == (if src_h == 0 || (src_w > 0 && max_w * src_h <= max_h * src_w) {
                    (max_w, src_w)
                } else {
                    (max_h, src_h)
                }),
        ;
        lemma_side_fits(src_w, p, q, max_w);
        lemma_side_fits(src_h, p, q, max_h);
    }
}

fn even(n: u32) -> (r: u32)
    ensures
        r == even_side(n as nat),
{
    if n < 2 {
        2
    } else {
        n - n % 2
    }
}

} // verus!
