//! Powers of two, for the trace length.
//!
//! A proving backend consumes traces whose row count is a power of two, so
//! the generator pads every trace up to [`next_power_of_two`] rows.

use vstd::prelude::*;

verus! {

/// Whether `n` is a power of two.
pub open spec fn is_pow2(n: int) -> bool
    decreases n,
{
    if n <= 0 {
        false
    } else if n == 1 {
        true
    } else {
        n % 2 == 0 && is_pow2(n / 2)
    }
}

/// A power of two is at least one.
pub proof fn lemma_pow2_pos(n: int)
    requires
        is_pow2(n),
    ensures
        n >= 1,
{
}

/// The least power of two that is at least `n`.  The bound `r < 2 * n`
/// pins the result: no smaller power of two is at least `n`.
pub fn next_power_of_two(n: usize) -> (r: usize)
    requires
        1 <= n <= usize::MAX / 2,
    ensures
        is_pow2(r as int),
        n <= r,
        r < 2 * n,
{
    let mut p: usize = 1;
    while p < n
        invariant
            1 <= p,
            is_pow2(p as int),
            p < 2 * n,
            n <= usize::MAX / 2,
        decreases 2 * n - p,
    {
        p = p * 2;
    }
    p
}

/// Two powers of two that both lie in `[n, 2n)` are equal, so the bounds in
/// [`next_power_of_two`]'s contract determine its result uniquely.
pub proof fn lemma_next_pow2_unique(n: int, a: int, b: int)
    requires
        1 <= n,
        is_pow2(a),
        is_pow2(b),
        n <= a < 2 * n,
        n <= b < 2 * n,
    ensures
        a == b,
{
    if a < b {
        lemma_pow2_double_gap(a, b);
    } else if b < a {
        lemma_pow2_double_gap(b, a);
    }
}

/// A strictly larger power of two is at least the double.
proof fn lemma_pow2_double_gap(a: int, b: int)
    requires
        is_pow2(a),
        is_pow2(b),
        a < b,
    ensures
        2 * a <= b,
    decreases b,
{
    if a == 1 {
        if b > 1 {
            assert(b % 2 == 0);
        }
    } else {
        lemma_pow2_double_gap(a / 2, b / 2);
    }
}

} // verus!
