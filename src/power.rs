use vstd::prelude::*;

verus! {

/// `n` is a power of two (`1, 2, 4, ...`).
pub open spec fn is_pow2(n: int) -> bool
    decreases n,
{
    if n <= 0 {
        false
    } else if n == 1 {
        true
    } else {
        n % 2 == 0 && is_pow2(n / 2)
    }
}

/// A power of two of at least four is a multiple of four.
pub proof fn lemma_pow2_multiple_of_four(n: int)
    requires
        is_pow2(n),
        n >= 4,
    ensures
        n % 4 == 0,
{
    reveal_with_fuel(is_pow2, 2);
}

/// Largest power of two `n` with `2 * n >= x` and `n < x`, or `1` for `x <= 2`.
/// For a power of two `x >= 2` this is `x / 2`.
pub fn nearest_power_of_two_below(x: u32) -> (r: u32)
    requires
        x <= 0x8000_0000,
    ensures
        is_pow2(r as int),
        x <= 2 * r,
        r == 1 || r < x,
{
    let mut n: u32 = 1;
    while n * 2 < x
        invariant
            is_pow2(n as int),
            n == 1 || n < x,
            x <= 0x8000_0000,
        decreases x - n,
    {
        assert(is_pow2(2 * n as int));
        n = n * 2;
    }
    n
}

/// Smallest power of two that is at least `x` (`1` for `x <= 1`).
pub fn nearest_power_of_two_above(x: u32) -> (r: u32)
    requires
        x <= 0x8000_0000,
    ensures
        is_pow2(r as int),
        x <= r,
        r == 1 || r < 2 * x,
{
    let mut n: u32 = 1;
    while n < x
        invariant
            is_pow2(n as int),
            n == 1 || n < 2 * x,
            x <= 0x8000_0000,
        decreases 2 * x - n,
    {
        assert(is_pow2(2 * n as int));
        n = n * 2;
    }
    n
}

} // verus!
