//! Machine words and the wide integers in which intermediate results are
//! computed.

use vstd::prelude::*;
use crate::line_laws::lemma_blend;
use crate::rounding::wide_limit;
use crate::shapes::blend;

verus! {

/// Whether an integer fits the machine's signed word.
pub open spec fn fits_word(x: int) -> bool {
    isize::MIN <= x <= isize::MAX
}

/// The machine word that holds `x`.
pub(crate) fn narrow(x: i128) -> (out: isize)
    requires
        fits_word(x as int),
    ensures
        out == x,
{
    x as isize
}

/// Whether a wide integer fits the machine word.
pub(crate) fn fits(x: i128) -> (out: bool)
    ensures
        out == fits_word(x as int),
{
    isize::MIN as i128 <= x && x <= isize::MAX as i128
}

/// Blending two machine words over a denominator that fits a machine word
/// stays far inside the wide integers.
pub proof fn lemma_blend_fits(a: int, b: int, i: int, n: int)
    requires
        fits_word(a),
        fits_word(b),
        0 <= i <= n < isize::MAX,
        n > 0,
    ensures
        -wide_limit() < blend(a, b, i, n) < wide_limit(),
        -wide_limit() < a * (n - i) < wide_limit(),
        -wide_limit() < b * i < wide_limit(),
{
    let w: int = 0x8000_0000_0000_0000;
    assert(-w <= a < w && -w <= b < w);
    assert(n < w - 1);
    assert(-w * (w - 2) <= a * (n - i) <= w * (w - 2)) by (nonlinear_arith)
        requires
            -w <= a < w,
            0 <= n - i <= w - 2,
    ;
    assert(-w * (w - 2) <= b * i <= w * (w - 2)) by (nonlinear_arith)
        requires
            -w <= b < w,
            0 <= i <= w - 2,
    ;
    lemma_blend(a, b, i, n);
    assert(-w * (w - 2) <= a * n <= w * (w - 2)) by (nonlinear_arith)
        requires
            -w <= a < w,
            0 <= n <= w - 2,
    ;
    assert(-w * (w - 2) <= b * n <= w * (w - 2)) by (nonlinear_arith)
        requires
            -w <= b < w,
            0 <= n <= w - 2,
    ;
    assert(w * (w - 2) < wide_limit()) by (nonlinear_arith)
        requires
            w == 0x8000_0000_0000_0000,
            wide_limit() == 0x4000_0000_0000_0000_0000_0000_0000_0000,
    ;
}

/// The product of a machine word and a factor that fits two machine words
/// fits the wide integers.
pub proof fn lemma_product_fits(x: int, k: int)
    requires
        fits_word(x),
        -0x1_0000_0000_0000_0000 < k < 0x1_0000_0000_0000_0000,
    ensures
        i128::MIN <= x * k <= i128::MAX,
{
    assert(-0x8000_0000_0000_0000 <= x < 0x8000_0000_0000_0000);
    assert(-0x8000_0000_0000_0000 * 0x1_0000_0000_0000_0000 < x * k < 0x8000_0000_0000_0000
        * 0x1_0000_0000_0000_0000) by (nonlinear_arith)
        requires
            -0x8000_0000_0000_0000 <= x < 0x8000_0000_0000_0000,
            -0x1_0000_0000_0000_0000 < k < 0x1_0000_0000_0000_0000,
    ;
}

} // verus!
