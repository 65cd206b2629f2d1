//! Small arithmetic helpers shared by the board and the traversal.

use vstd::prelude::*;

verus! {

/// Quotient and remainder of `left` by `right` in one call, as used to
/// unflatten a row-major tile index into its row and column.
pub fn div_mod(left: usize, right: usize) -> (r: (usize, usize))
    requires
        right != 0,
    ensures
        r.0 == left / right,
        r.1 == left % right,
        left == r.0 * right + r.1,
{
    let quotient = left / right;
    proof {
        vstd::arithmetic::div_mod::lemma_fundamental_div_mod(left as int, right as int);
        vstd::arithmetic::div_mod::lemma_mod_bound(left as int, right as int);
        assert(quotient * right == right * quotient) by (nonlinear_arith);
        assert(quotient * right <= left);
    }
    let modulus = left - quotient * right;
    (quotient, modulus)
}

} // verus!
