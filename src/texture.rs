use vstd::arithmetic::div_mod::{lemma_fundamental_div_mod, lemma_fundamental_div_mod_converse};
use vstd::prelude::*;

verus! {

/// Wraps a texel index into `0..bound`: indices past the end start over at
/// zero, and negative indices count back from the end.
pub fn wrap_index(t: i32, bound: u32) -> (r: u32)
    requires
        bound > 0,
    ensures
        r < bound,
        r as int == (t as int) % (bound as int),
{
    if t >= 0 {
        (t as u32) % bound
    } else {
        let a: u64 = (-(t as i64)) as u64;
        let m: u64 = a % (bound as u64);
        proof {
            let q = a as int / bound as int;
            lemma_fundamental_div_mod(a as int, bound as int);
            assert(a as int == bound as int * q + m as int);
            assert(t as int == -(a as int));
            if m == 0 {
                assert(t as int == (-q) * (bound as int) + 0) by (nonlinear_arith)
                    requires
                        t as int == -(a as int),
                        a as int == bound as int * q + m as int,
                        m == 0,
                ;
                lemma_fundamental_div_mod_converse(t as int, bound as int, -q, 0);
            } else {
                assert(t as int == (-q - 1) * (bound as int) + (bound - m as int)) by (nonlinear_arith)
                    requires
                        t as int == -(a as int),
                        a as int == bound as int * q + m as int,
                ;
                lemma_fundamental_div_mod_converse(
                    t as int,
                    bound as int,
                    -q - 1,
                    bound - m as int,
                );
            }
        }
        if m == 0 {
            0
        } else {
            bound - m as u32
        }
    }
}

} // verus!
