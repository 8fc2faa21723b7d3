use vstd::prelude::*;
use vstd::arithmetic::div_mod::{lemma_fundamental_div_mod, lemma_mod_bound};

verus! {

/// Floor division brackets its dividend: `d·(x / d) <= x < d·(x / d + 1)`.
pub proof fn lemma_div_bracket(x: int, d: int)
    requires
        d > 0,
    ensures
        d * (x / d) <= x < d * (x / d + 1),
{
    lemma_fundamental_div_mod(x, d);
    lemma_mod_bound(x, d);
    let q = x / d;
    assert(d * q <= x < d * (q + 1)) by (nonlinear_arith)
        requires
            x == d * q + x % d,
            0 <= x % d < d,
    ;
}

/// A quotient of a dividend between `d·lo` and `d·hi` lies between `lo` and `hi`.
pub proof fn lemma_div_between(x: int, d: int, lo: int, hi: int)
    requires
        d > 0,
        d * lo <= x <= d * hi,
    ensures
        lo <= x / d <= hi,
{
    lemma_div_bracket(x, d);
    let q = x / d;
    assert(lo <= q <= hi) by (nonlinear_arith)
        requires
            d > 0,
            d * lo <= x <= d * hi,
            d * q <= x < d * (q + 1),
    ;
}

/// `(d·q) / d == q`.
pub proof fn lemma_div_exact(q: int, d: int)
    requires
        d > 0,
    ensures
        (d * q) / d == q,
{
    lemma_div_between(d * q, d, q, q);
}

/// A product of two factors of magnitude at most `bx` and `by` has magnitude
/// at most `bx·by`.
pub proof fn lemma_mul_magnitude(x: int, y: int, bx: int, by: int)
    requires
        -bx <= x <= bx,
        -by <= y <= by,
    ensures
        -(bx * by) <= x * y <= bx * by,
{
    assert(-(bx * by) <= x * y <= bx * by) by (nonlinear_arith)
        requires
            -bx <= x <= bx,
            -by <= y <= by,
    ;
}

} // verus!
