//! Row-major positions.
use vstd::prelude::*;

verus! {

/// A row-major position tells its row from its column.
pub proof fn lemma_digits(base: int, high: int, low: int, high2: int, low2: int)
    requires
        0 <= low < base,
        0 <= low2 < base,
        high * base + low == high2 * base + low2,
    ensures
        high == high2,
        low == low2,
{
    assert(high == high2) by (nonlinear_arith)
        requires
            0 <= low < base,
            0 <= low2 < base,
            high * base + low == high2 * base + low2,
    ;
}

/// A position in an earlier row, or earlier in the same row, comes earlier.
pub proof fn lemma_earlier(base: int, high: int, low: int, high2: int, low2: int)
    requires
        0 <= low < base,
        0 <= low2,
        0 <= high,
        high < high2 || (high == high2 && low < low2),
    ensures
        0 <= high * base + low < high2 * base + low2,
{
    assert(0 <= high * base) by (nonlinear_arith)
        requires
            0 <= high,
            0 < base,
    ;
    if high < high2 {
        assert(high * base + base <= high2 * base) by (nonlinear_arith)
            requires
                high + 1 <= high2,
                0 < base,
        ;
    }
}

}
