//! The order statistics that a linearly interpolated percentile reads.

use vstd::prelude::*;

verus! {

/// For the `q`-th percentile of `n` sorted values, the position is
/// `(n - 1) * q / 100`; the result interpolates between the value at
/// `floor` of that position and the next one (the last one at the top end).
/// Returns the two indices `(lo, hi)`.
pub fn percentile_bracket(n: usize, q: usize) -> (r: (usize, usize))
    requires
        n >= 1,
        q <= 100,
    ensures
        r.0 == (n - 1) * q / 100,
        r.1 == if r.0 + 1 < n { r.0 + 1 } else { r.0 as int },
        r.0 <= r.1 <= n - 1,
        r.1 <= r.0 + 1,
{
    proof {
        let a = (n - 1) as int;
        assert(a <= 0xffff_ffff_ffff_ffff);
        assert(a * q <= 0xffff_ffff_ffff_ffff * 100) by (nonlinear_arith)
            requires
                0 <= a <= 0xffff_ffff_ffff_ffff,
                0 <= q <= 100,
        ;
    }
    let m: u128 = (n as u128 - 1) * (q as u128);
    let lo128: u128 = m / 100;
    proof {
        let a = (n - 1) as int;
        assert(a * q <= a * 100) by (nonlinear_arith)
            requires
                0 <= a,
                q <= 100,
        ;
        assert((a * q) / 100 <= a) by (nonlinear_arith)
            requires
                0 <= a * q <= a * 100,
                0 <= a,
        ;
    }
    let lo = lo128 as usize;
    let hi = if lo + 1 < n {
        lo + 1
    } else {
        lo
    };
    (lo, hi)
}

} // verus!
