//! Small numeric helpers shared across the engine.

use vstd::prelude::*;

verus! {

/// Python-style modulo: the result of `super_mod(num, basis)` always lies in
/// `[0, basis)`, so negative inputs are re-interpreted as positive offsets
/// counted from `basis`.
pub fn super_mod(num: i64, basis: i64) -> (r: i64)
    requires
        basis > 0,
    ensures
        r == num as int % basis as int,
        0 <= r < basis,
{
    let q: i128 = crate::fixed::div_floor128(num as i128, basis as i128);
    proof {
        vstd::arithmetic::div_mod::lemma_fundamental_div_mod(num as int, basis as int);
        vstd::arithmetic::div_mod::lemma_mod_division_less_than_divisor(
            num as int, basis as int);
        assert(q * (basis as i128) == num as int - num as int % basis as int)
            by (nonlinear_arith)
            requires
                q == num as int / basis as int,
                num as int == basis as int * (num as int / basis as int)
                    + num as int % basis as int,
        ;
    }
    (num as i128 - q * (basis as i128)) as i64
}

} // verus!
