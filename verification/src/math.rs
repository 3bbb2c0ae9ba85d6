//! Integer scalar arithmetic for the simulation: floor division on wide
//! signed values and the floor of the integer square root. All simulation
//! coordinates are plain integers in an application-chosen unit, so every
//! operation here is exact and total on its stated domain.
use vstd::prelude::*;
use vstd::arithmetic::div_mod::{
    lemma_div_is_ordered, lemma_div_nonincreasing, lemma_div_pos_is_pos,
    lemma_fundamental_div_mod, lemma_fundamental_div_mod_converse_div,
};

verus! {

/// Floor division of a signed value by a positive divisor, matching the
/// Euclidean quotient of the specification language.
pub fn div_floor(a: i128, b: i128) -> (q: i128)
    requires
        0 < b,
        i128::MIN < a,
    ensures
        q == a as int / b as int,
        a >= 0 ==> 0 <= q <= a,
        a < 0 ==> a <= q <= 0,
{
    if a >= 0 {
        let au: u128 = a as u128;
        let bu: u128 = b as u128;
        let qu: u128 = au / bu;
        proof {
            lemma_div_nonincreasing(au as int, bu as int);
            lemma_div_pos_is_pos(au as int, bu as int);
        }
        qu as i128
    } else {
        let nu: u128 = (-a) as u128;
        let bu: u128 = b as u128;
        let q0: u128 = nu / bu;
        let r0: u128 = nu % bu;
        proof {
            lemma_fundamental_div_mod(nu as int, bu as int);
            lemma_div_nonincreasing(nu as int, bu as int);
            lemma_div_pos_is_pos(nu as int, bu as int);
        }
        if r0 == 0 {
            proof {
                assert(a as int == (-(q0 as int)) * (b as int) + 0) by (nonlinear_arith)
                    requires
                        nu as int == (bu as int) * (q0 as int) + (r0 as int),
                        r0 == 0,
                        a as int == -(nu as int),
                        bu == b,
                {}
                lemma_fundamental_div_mod_converse_div(
                    a as int,
                    b as int,
                    -(q0 as int),
                    0,
                );
            }
            -(q0 as i128)
        } else {
            proof {
                assert(a as int == (-(q0 as int) - 1) * (b as int) + ((b as int) - (r0 as int)))
                    by (nonlinear_arith)
                    requires
                        nu as int == (bu as int) * (q0 as int) + (r0 as int),
                        a as int == -(nu as int),
                        bu == b,
                {}
                lemma_fundamental_div_mod_converse_div(
                    a as int,
                    b as int,
                    -(q0 as int) - 1,
                    (b as int) - (r0 as int),
                );
                // With a strictly positive remainder the divisor is at least
                // two, so the quotient is strictly below the dividend.
                assert((q0 as int) < (nu as int)) by (nonlinear_arith)
                    requires
                        nu as int == (bu as int) * (q0 as int) + (r0 as int),
                        0 < r0 as int,
                        (r0 as int) < (bu as int),
                        q0 as int >= 0,
                        nu as int >= 1,
                {}
            }
            -(q0 as i128) - 1
        }
    }
}

/// Holds when `r` is the floor of the square root of `n`.
pub open spec fn is_sqrt_floor(n: int, r: int) -> bool {
    0 <= r && r * r <= n && n < (r + 1) * (r + 1)
}

/// The floor of the square root of a non-negative integer.
pub open spec fn sqrt_floor(n: int) -> int {
    choose|r: int| is_sqrt_floor(n, r)
}

pub proof fn lemma_sqrt_floor_unique(n: int, r: int)
    requires
        is_sqrt_floor(n, r),
    ensures
        r == sqrt_floor(n),
{
    let c = sqrt_floor(n);
    assert(is_sqrt_floor(n, c));
    if c < r {
        assert(false) by (nonlinear_arith)
            requires
                0 <= c < r,
                r * r <= n,
                n < (c + 1) * (c + 1),
        {}
    }
    if r < c {
        assert(false) by (nonlinear_arith)
            requires
                0 <= r < c,
                c * c <= n,
                n < (r + 1) * (r + 1),
        {}
    }
}

/// Floor of the integer square root, by bisection.
pub fn isqrt(n: u128) -> (r: u64)
    requires
        (n as int) < 0x4000_0000_0000_0000_0000_0000_0000_0000,
    ensures
        is_sqrt_floor(n as int, r as int),
        r as int == sqrt_floor(n as int),
{
    if n == 0 {
        proof {
            lemma_sqrt_floor_unique(0, 0);
        }
        return 0;
    }
    let mut lo: u128 = 0;
    let mut hi: u128 = 0x8000_0000_0000_0000;
    proof {
        assert((hi as int) * (hi as int) == 0x4000_0000_0000_0000_0000_0000_0000_0000)
            by (nonlinear_arith)
            requires
                hi as int == 0x8000_0000_0000_0000,
        {}
    }
    while lo + 1 < hi
        invariant
            0 <= lo < hi,
            hi <= 0x8000_0000_0000_0000,
            (lo as int) * (lo as int) <= n as int,
            (n as int) < (hi as int) * (hi as int),
        decreases hi - lo,
    {
        let mid: u128 = lo + (hi - lo) / 2;
        assert(lo < mid < hi);
        assert((mid as int) * (mid as int) <= 0x4000_0000_0000_0000_0000_0000_0000_0000)
            by (nonlinear_arith)
            requires
                0 < mid as int <= 0x8000_0000_0000_0000,
        {}
        if mid * mid <= n {
            lo = mid;
        } else {
            hi = mid;
        }
    }
    proof {
        lemma_sqrt_floor_unique(n as int, lo as int);
    }
    lo as u64
}

} // verus!
