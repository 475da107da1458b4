//! Small arithmetic helpers.

use vstd::prelude::*;
use crate::dispatch::ceil_div;

verus! {

/// Rounds `v` up to the next multiple of `a`.
pub fn align_up(v: usize, a: usize) -> (r: usize)
    requires
        a > 0,
        v + a <= usize::MAX,
    ensures
        r == ceil_div(v as int, a as int) * a,
        r % a == 0,
        v <= r < v + a,
{
    proof {
        let c = ceil_div(v as int, a as int);
        vstd::arithmetic::div_mod::lemma_fundamental_div_mod(v + a - 1, a as int);
        vstd::arithmetic::div_mod::lemma_mod_bound(v + a - 1, a as int);
        assert(a * c == c * a) by (nonlinear_arith);
        vstd::arithmetic::div_mod::lemma_mod_multiples_basic(c, a as int);
        assert(c >= 0) by {
            vstd::arithmetic::div_mod::lemma_div_pos_is_pos(v + a - 1, a as int);
        }
    }
    (v + a - 1) / a * a
}

} // verus!
