//! Values between two ends.

use vstd::prelude::*;

verus! {

/// A value, held between two ends.
pub open spec fn clamped(value: int, low: int, high: int) -> int {
    if value < low {
        low
    } else if value > high {
        high
    } else {
        value
    }
}

/// Holds a value between two ends.
pub fn clamp(value: i64, low: i64, high: i64) -> (held: i64)
    requires
        low <= high,
    ensures
        held == clamped(value as int, low as int, high as int),
        low <= held <= high,
{
    if value < low {
        low
    } else if value > high {
        high
    } else {
        value
    }
}

/// The value that lies as far from `low` to `high` as `part` lies from nothing to `max`.
pub open spec fn blended(low: int, high: int, part: int, max: int) -> int {
    let held = if part <= max {
        part
    } else {
        max
    };
    if low <= high {
        low + (high - low) * held / max
    } else {
        low - (low - high) * held / max
    }
}

/// The value that lies as far from `low` to `high` as `part` lies from nothing to `max`. A part
/// past `max` counts as all of it.
pub fn lerp(low: i64, high: i64, part: u64, max: u64) -> (value: i64)
    requires
        max > 0,
    ensures
        value == blended(low as int, high as int, part as int, max as int),
{
    let held: u64 = if part <= max {
        part
    } else {
        max
    };
    if low <= high {
        let rise: u64 = share((high as i128 - low as i128) as u64, held, max);
        (low as i128 + rise as i128) as i64
    } else {
        let fall: u64 = share((low as i128 - high as i128) as u64, held, max);
        (low as i128 - fall as i128) as i64
    }
}

fn share(span: u64, held: u64, max: u64) -> (part: u64)
    requires
        0 < max,
        held <= max,
    ensures
        part == span * held / (max as int),
        part <= span,
{
    proof {
        lemma_share(span as int, held as int, max as int);
        assert(0 <= span * held <= 0xffff_ffff_ffff_ffff * 0xffff_ffff_ffff_ffff)
            by (nonlinear_arith)
            requires
                0 <= span <= 0xffff_ffff_ffff_ffff,
                0 <= held <= 0xffff_ffff_ffff_ffff,
        ;
    }
    let product: u128 = span as u128 * held as u128;
    (product / max as u128) as u64
}

/// A share is no more than the whole.
proof fn lemma_share(span: int, held: int, max: int)
    requires
        0 <= span,
        0 <= held <= max,
        0 < max,
    ensures
        0 <= span * held / max <= span,
        held == max ==> span * held / max == span,
        held == 0 ==> span * held / max == 0,
{
    vstd::arithmetic::div_mod::lemma_fundamental_div_mod(span * held, max);
    let q = span * held / max;
    let r = (span * held) % max;
    assert(0 <= q <= span && (held == max ==> q == span) && (held == 0 ==> q == 0))
        by (nonlinear_arith)
        requires
            span * held == max * q + r,
            0 <= r < max,
            0 <= span,
            0 <= held <= max,
    ;
}

/// A blend stays between its ends and meets both.
pub proof fn lemma_blend_stays_in_range(low: int, high: int, part: int, max: int)
    requires
        low <= high,
        part >= 0,
        max > 0,
    ensures
        low <= blended(low, high, part, max) <= high,
        blended(low, high, 0, max) == low,
        part >= max ==> blended(low, high, part, max) == high,
{
    let held = if part <= max {
        part
    } else {
        max
    };
    lemma_share(high - low, held, max);
    lemma_share(high - low, 0, max);
}

/// A larger part never makes for a smaller blend.
pub proof fn lemma_blend_is_monotone(low: int, high: int, less: int, more: int, max: int)
    requires
        low <= high,
        0 <= less <= more,
        max > 0,
    ensures
        blended(low, high, less, max) <= blended(low, high, more, max),
{
    let a = if less <= max {
        less
    } else {
        max
    };
    let b = if more <= max {
        more
    } else {
        max
    };
    assert((high - low) * a <= (high - low) * b) by (nonlinear_arith)
        requires
            0 <= high - low,
            a <= b,
    ;
    vstd::arithmetic::div_mod::lemma_div_is_ordered((high - low) * a, (high - low) * b, max);
}

/// A quotient rounded down lies within one of the exact one.
pub proof fn lemma_quotient(x: int, d: int)
    requires
        d > 0,
    ensures
        (x / d) * d <= x < (x / d + 1) * d,
        x >= 0 ==> x / d >= 0,
{
    let q = x / d;
    vstd::arithmetic::div_mod::lemma_fundamental_div_mod(x, d);
    assert(q * d <= x < (q + 1) * d) by (nonlinear_arith)
        requires
            x == d * q + x % d,
            0 <= x % d < d,
    ;
    if x >= 0 {
        vstd::arithmetic::div_mod::lemma_div_pos_is_pos(x, d);
    }
}

/// Of two quotients with the same divisor, that of the larger number is no smaller.
pub proof fn lemma_quotients_keep_order(x: int, y: int, d: int)
    requires
        d > 0,
        x <= y,
    ensures
        x / d <= y / d,
{
    vstd::arithmetic::div_mod::lemma_div_is_ordered(x, y, d);
}

/// A blend lies as far between its ends as the part lies between nothing and the whole, up to
/// rounding.
pub proof fn lemma_blend_is_in_proportion(low: i64, high: i64, part: u64, max: u64, value: i64)
    requires
        max > 0,
        call_ensures(lerp, (low, high, part, max), value),
    ensures
        part == 0 ==> value == low,
        part >= max ==> value == high,
        part <= max && low <= high ==> (value - low) * max <= (high - low) * part < (value - low
            + 1) * max,
        part <= max && low >= high ==> (low - value) * max <= (low - high) * part < (low - value
            + 1) * max,
{
    lemma_blended_in_proportion(low as int, high as int, part as int, max as int);
}

/// The same of the value that a blend stands for.
pub proof fn lemma_blended_in_proportion(low: int, high: int, part: int, max: int)
    requires
        part >= 0,
        max > 0,
    ensures
        ({
            let value = blended(low, high, part, max);
            &&& part == 0 ==> value == low
            &&& part >= max ==> value == high
            &&& part <= max && low <= high ==> (value - low) * max <= (high - low) * part < (value
                - low + 1) * max
            &&& part <= max && low >= high ==> (low - value) * max <= (low - high) * part < (low
                - value + 1) * max
        }),
{
    let span = if low <= high {
        high - low
    } else {
        low - high
    };
    let held = if part <= max {
        part
    } else {
        max
    };
    lemma_quotient(span * held, max);
    assert(span * 0 == 0);
    if low == high {
        assert(span * held == 0 && (low - high) * part == 0) by (nonlinear_arith)
            requires
                span == 0,
                low == high,
        ;
    }
    vstd::arithmetic::div_mod::lemma_div_basics(max);
    vstd::arithmetic::div_mod::lemma_div_by_multiple(span, max);
}

/// A value held between two ends is the value itself wherever it lies between them, and else the
/// nearer end.
pub proof fn lemma_held_between_ends(value: i64, low: i64, high: i64, held: i64)
    requires
        low <= high,
        call_ensures(clamp, (value, low, high), held),
    ensures
        low <= held <= high,
        low <= value <= high ==> held == value,
        value < low ==> held == low,
        value > high ==> held == high,
{
}

} // verus!
