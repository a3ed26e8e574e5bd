//! Facts about row-major indices.
use vstd::prelude::*;

verus! {

/// A row-major index within rows of `w` determines its row and column.
pub proof fn lemma_row_major_unique(a: int, b: int, c: int, d: int, w: int)
    requires
        0 <= a,
        0 <= c,
        0 <= b < w,
        0 <= d < w,
        a * w + b == c * w + d,
    ensures
        a == c,
        b == d,
{
    if a < c {
        assert(a * w + w <= c * w) by (nonlinear_arith)
            requires
                a < c,
                0 <= w,
        ;
    } else if c < a {
        assert(c * w + w <= a * w) by (nonlinear_arith)
            requires
                c < a,
                0 <= w,
        ;
    }
}

/// Row `a` of `h` rows of `w` ends within the `h * w` items.
pub proof fn lemma_row_major_bound(a: int, b: int, w: int, h: int)
    requires
        0 <= a < h,
        0 <= b < w,
    ensures
        0 <= a * w + b < h * w,
        a * w + b < w * h,
        a * w <= a * w + b,
{
    assert(0 <= a * w + b < h * w && h * w == w * h) by (nonlinear_arith)
        requires
            0 <= a < h,
            0 <= b < w,
    ;
}

/// An item of a later row comes after every item of an earlier one.
pub proof fn lemma_row_major_later(a: int, b: int, c: int, d: int, w: int)
    requires
        0 <= a < c,
        0 <= b < w,
        0 <= d,
    ensures
        a * w + b < c * w + d,
{
    assert(a * w + b < c * w + d) by (nonlinear_arith)
        requires
            0 <= a < c,
            0 <= b < w,
            0 <= d,
    ;
}

} // verus!
