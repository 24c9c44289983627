//! The animation clock: a time-normalized cubic ease-in-out curve over a
//! fixed duration, computed in integers.
//!
//! Time is measured in milliseconds; the eased fraction is measured in
//! millionths. An eased quantity moves from `start` to `end` as the elapsed
//! time grows from 0 to the duration, and is clamped to `end` afterwards.

use vstd::prelude::*;
use vstd::arithmetic::div_mod::{lemma_div_is_ordered, lemma_div_multiples_vanish};

verus! {

/// How long a slide or fade animation runs, in milliseconds.
pub const ANIMATE_DURATION_MS: u64 = 200;

/// Largest `duration` the clock accepts, in milliseconds.
pub const MAX_DURATION_MS: u64 = 1_000_000;

/// Largest magnitude of an eased quantity.
pub const EASE_RANGE: i64 = 2_000_000_000;

/// Normalized time in thousandths of the duration, clamped to `0 ..= 1000`.
/// A zero duration counts as already over.
pub open spec fn spec_time_frac(elapsed: int, duration: int) -> int {
    if duration <= 0 || elapsed >= duration {
        1000
    } else if elapsed < 0 {
        0
    } else {
        elapsed * 1000 / duration
    }
}

/// Cubic ease-in-out fraction, in millionths, of a normalized time given in
/// thousandths: slow start, fast middle, slow arrival.
pub open spec fn spec_ease_frac(t: int) -> int {
    if t >= 1000 {
        1_000_000
    } else if t >= 500 {
        1_000_000 - 4 * (1000 - t) * (1000 - t) * (1000 - t) / 1000
    } else if t >= 0 {
        4 * t * t * t / 1000
    } else {
        0
    }
}

/// The eased value between `start` and `end` after `elapsed` of `duration`
/// milliseconds.
pub open spec fn spec_ease(start: int, end: int, elapsed: int, duration: int) -> int {
    let f = spec_ease_frac(spec_time_frac(elapsed, duration));
    if end >= start {
        start + (end - start) * f / 1_000_000
    } else {
        start - (start - end) * f / 1_000_000
    }
}

/// The easing fraction stays within one full unit (a million millionths)
/// and hits the ends exactly.
proof fn lemma_ease_frac_bounds(t: int)
    ensures
        0 <= spec_ease_frac(t) <= 1_000_000,
        t <= 0 ==> spec_ease_frac(t) == 0,
        t >= 1000 ==> spec_ease_frac(t) == 1_000_000,
{
    if t == 0 {
        assert(4 * t * t * t == 0) by (nonlinear_arith)
            requires
                t == 0,
        ;
    } else if 500 <= t < 1000 {
        let u = 1000 - t;
        assert(0 <= 4 * u * u * u <= 500_000_000) by (nonlinear_arith)
            requires
                0 < u <= 500,
        ;
        lemma_div_is_ordered(0, 4 * u * u * u, 1000);
        lemma_div_is_ordered(4 * u * u * u, 500_000_000, 1000);
    } else if 0 <= t < 500 {
        assert(0 <= 4 * t * t * t <= 500_000_000) by (nonlinear_arith)
            requires
                0 <= t < 500,
        ;
        lemma_div_is_ordered(0, 4 * t * t * t, 1000);
        lemma_div_is_ordered(4 * t * t * t, 500_000_000, 1000);
    }
}

/// Scaling a nonnegative distance by an easing fraction keeps it between
/// zero and the full distance.
proof fn lemma_ease_scale(d: int, f: int)
    requires
        0 <= d,
        0 <= f <= 1_000_000,
    ensures
        0 <= d * f / 1_000_000 <= d,
{
    assert(0 <= d * f <= d * 1_000_000) by (nonlinear_arith)
        requires
            0 <= d && 0 <= f <= 1_000_000,
    ;
    lemma_div_is_ordered(0, d * f, 1_000_000);
    lemma_div_is_ordered(d * f, d * 1_000_000, 1_000_000);
    lemma_div_multiples_vanish(d, 1_000_000);
    assert(d * 1_000_000 == 1_000_000 * d) by (nonlinear_arith);
}

fn ease_frac(t: u64) -> (f: i64)
    requires
        t <= 1000,
    ensures
        f == spec_ease_frac(t as int),
        0 <= f <= 1_000_000,
{
    proof {
        lemma_ease_frac_bounds(t as int);
    }
    if t >= 1000 {
        1_000_000
    } else if t >= 500 {
        let u = 1000 - t;
        assert(4 * u * u <= 1_000_000 && 4 * u * u * u <= 500_000_000) by (nonlinear_arith)
            requires
                0 < u <= 500,
        ;
        1_000_000 - (4 * u * u * u / 1000) as i64
    } else {
        assert(4 * t * t <= 1_000_000 && 4 * t * t * t <= 500_000_000) by (nonlinear_arith)
            requires
                0 <= t < 500,
        ;
        (4 * t * t * t / 1000) as i64
    }
}

/// The cubic ease-in-out interpolation from `start` to `end`, sampled
/// `elapsed` milliseconds into an animation of `duration` milliseconds.
pub fn ease_in_out_cubic(start: i64, end: i64, elapsed: u64, duration: u64) -> (r: i64)
    requires
        -EASE_RANGE <= start <= EASE_RANGE,
        -EASE_RANGE <= end <= EASE_RANGE,
        duration <= MAX_DURATION_MS,
    ensures
        r == spec_ease(start as int, end as int, elapsed as int, duration as int),
        start <= end ==> start <= r <= end,
        end <= start ==> end <= r <= start,
        elapsed >= duration ==> r == end,
        elapsed == 0 && duration > 0 ==> r == start,
{
    let t: u64 = if duration == 0 || elapsed >= duration {
        1000
    } else {
        proof {
            if elapsed == 0 {
                vstd::arithmetic::div_mod::lemma_div_of0(duration as int);
            }
            lemma_div_is_ordered(elapsed * 1000, duration * 1000, duration as int);
            assert(duration * 1000 / (duration as int) == 1000) by {
                lemma_div_multiples_vanish(1000, duration as int);
                assert(duration * 1000 == (duration as int) * 1000) by (nonlinear_arith);
            }
        }
        elapsed * 1000 / duration
    };
    let f = ease_frac(t);
    proof {
        lemma_ease_frac_bounds(t as int);
        if t == 1000 {
            lemma_div_multiples_vanish((end - start) as int, 1_000_000);
            lemma_div_multiples_vanish((start - end) as int, 1_000_000);
        }
    }
    let fu = f as u64;
    if end >= start {
        let d = (end - start) as u64;
        proof {
            lemma_ease_scale(d as int, f as int);
            assert(d * fu <= 0xffff_ffff_ffff_ffff && d * fu == (d as int) * (f as int))
                by (nonlinear_arith)
                requires
                    0 <= d <= 2 * EASE_RANGE && 0 <= fu <= 1_000_000 && fu == f,
            ;
        }
        let step = (d * fu / 1_000_000) as i64;
        start + step
    } else {
        let d = (start - end) as u64;
        proof {
            lemma_ease_scale(d as int, f as int);
            assert(d * fu <= 0xffff_ffff_ffff_ffff && d * fu == (d as int) * (f as int))
                by (nonlinear_arith)
                requires
                    0 <= d <= 2 * EASE_RANGE && 0 <= fu <= 1_000_000 && fu == f,
            ;
        }
        let step = (d * fu / 1_000_000) as i64;
        start - step
    }
}

} // verus!
