//! Times of a video, in whole microseconds.

use vstd::prelude::*;

verus! {

/// An integer brought into the range of a time.
pub open spec fn clamped(v: int) -> int {
    if v < i64::MIN {
        i64::MIN as int
    } else if v > i64::MAX {
        i64::MAX as int
    } else {
        v
    }
}

/// The time next to `v`: `v` itself, wherever it is one.
pub fn clamp_micros(v: i128) -> (r: i64)
    ensures
        r == clamped(v as int),
{
    if v < i64::MIN as i128 {
        i64::MIN
    } else if v > i64::MAX as i128 {
        i64::MAX
    } else {
        v as i64
    }
}

/// The time from `start` to `now`; none if `now` is earlier.
pub open spec fn elapsed(start: i64, now: i64) -> int {
    if now > start {
        now - start
    } else {
        0
    }
}

/// The time from `start` to `now`; none if `now` is earlier.
pub fn elapsed_micros(start: i64, now: i64) -> (r: i128)
    ensures
        r == elapsed(start, now),
        0 <= r <= u64::MAX,
{
    if now > start {
        now as i128 - start as i128
    } else {
        0
    }
}

/// The largest multiple of `1 / d` that is not above `n / d`.
fn floor_div(n: i128, d: i128) -> (r: i128)
    requires
        d > 0,
        n > i128::MIN,
        -n + d <= i128::MAX,
    ensures
        r == n as int / d as int,
{
    if n >= 0 {
        n / d
    } else {
        let m: i128 = -n;
        let k: i128 = (m + (d - 1)) / d;
        proof {
            let total = m + d - 1;
            let rest = total % (d as int);
            vstd::arithmetic::div_mod::lemma_fundamental_div_mod(total, d as int);
            assert(n as int == -(k as int) * (d as int) + (d - 1 - rest)) by (nonlinear_arith)
                requires
                    m == -n,
                    total == m + d - 1,
                    total == (d as int) * (k as int) + rest,
            ;
            vstd::arithmetic::div_mod::lemma_fundamental_div_mod_converse(
                n as int,
                d as int,
                -(k as int),
                d - 1 - rest,
            );
        }
        -k
    }
}

/// What `ticks` of `num / den` seconds each come to, rounded down.
pub open spec fn ticks_time(ticks: int, num: int, den: int) -> int {
    clamped((ticks * num * 1_000_000) / den)
}

/// The time that `ticks` of `num / den` seconds each come to.
pub fn ticks_to_micros(ticks: i64, num: i32, den: i32) -> (r: i64)
    requires
        den > 0,
    ensures
        r == ticks_time(ticks as int, num as int, den as int),
{
    proof {
        let t = ticks as int;
        let n = num as int;
        assert(-0x8000_0000_0000_0000 * 0x8000_0000 <= t * n <= 0x8000_0000_0000_0000
            * 0x8000_0000) by (nonlinear_arith)
            requires
                -0x8000_0000_0000_0000 <= t <= 0x7fff_ffff_ffff_ffff,
                -0x8000_0000 <= n <= 0x7fff_ffff,
        ;
    }
    let total: i128 = ticks as i128 * num as i128 * 1_000_000;
    clamp_micros(floor_div(total, den as i128))
}

/// How long a video is: what its stream says where it says so, else what its container says.
pub open spec fn media_time(stream: int, num: int, den: int, container: int) -> int {
    if stream > 0 {
        ticks_time(stream, num, den)
    } else {
        container
    }
}

/// How long a video is, given what its stream says in ticks and its container in microseconds.
pub fn media_duration(stream: i64, num: i32, den: i32, container: i64) -> (r: i64)
    requires
        den > 0,
    ensures
        r == media_time(stream as int, num as int, den as int, container as int),
{
    if stream > 0 {
        ticks_to_micros(stream, num, den)
    } else {
        container
    }
}

} // verus!
