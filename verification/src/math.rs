use vstd::prelude::*;

verus! {

/// `r` is the integer square root of `n`: the largest `r` with `r * r <= n`.
pub open spec fn is_floor_sqrt(n: int, r: int) -> bool {
    &&& 0 <= r
    &&& r * r <= n
    &&& n < (r + 1) * (r + 1)
}

pub proof fn lemma_newton_step_stays_above(n: int, x: int, q: int, y: int)
    requires
        n >= 0,
        x > 0,
        q == n / x,
        y == (x + q) / 2,
    ensures
        n < (y + 1) * (y + 1),
{
    assert(n < x * (q + 1)) by (nonlinear_arith)
        requires x > 0, q == n / x, n >= 0;
    assert(x + q + 1 <= 2 * (y + 1));
    assert(4 * x * (q + 1) <= (x + q + 1) * (x + q + 1)) by (nonlinear_arith);
    assert((x + q + 1) * (x + q + 1) <= (2 * (y + 1)) * (2 * (y + 1))) by (nonlinear_arith)
        requires x + q + 1 <= 2 * (y + 1), x + q + 1 >= 0;
    assert(n < (y + 1) * (y + 1)) by (nonlinear_arith)
        requires
            n < x * (q + 1),
            4 * x * (q + 1) <= (x + q + 1) * (x + q + 1),
            (x + q + 1) * (x + q + 1) <= (2 * (y + 1)) * (2 * (y + 1));
}

pub proof fn lemma_newton_no_overflow(n: int, x: int)
    requires
        1 <= x,
        x <= (n + 1) / 2,
        n < (x + 1) * (x + 1),
    ensures
        x + n / x <= n + 3,
        x >= 2 ==> x + n / x <= n,
{
    if x == 1 {
        assert(n < 4) by (nonlinear_arith) requires x == 1, n < (x + 1) * (x + 1);
    } else {
        assert(n / x <= n / 2) by (nonlinear_arith) requires x >= 2, n >= 0;
    }
}

/// The integer square root of a non-negative `n`.
pub open spec fn floor_sqrt(n: int) -> int {
    choose|r: int| is_floor_sqrt(n, r)
}

/// Integer square roots are unique.
pub proof fn lemma_floor_sqrt_unique(n: int, r: int)
    requires
        is_floor_sqrt(n, r),
    ensures
        floor_sqrt(n) == r,
{
    let s = floor_sqrt(n);
    assert(is_floor_sqrt(n, s));
    if s < r {
        assert((s + 1) * (s + 1) <= r * r) by (nonlinear_arith) requires 0 <= s < r;
    } else if r < s {
        assert((r + 1) * (r + 1) <= s * s) by (nonlinear_arith) requires 0 <= r < s;
    }
}

} // verus!
