//! Integer arithmetic helpers: a floor square root.

use vstd::prelude::*;

verus! {

/// Mathematical floor of the square root, defined by the classic
/// divide-by-four recurrence.
pub open spec fn sqrt_floor(n: nat) -> nat
    decreases n,
{
    if n == 0 {
        0
    } else {
        let r = 2 * sqrt_floor((n / 4) as nat);
        if (r + 1) * (r + 1) <= n {
            (r + 1) as nat
        } else {
            r
        }
    }
}

/// `sqrt_floor` really is the floor of the square root.
pub proof fn lemma_sqrt_floor(n: nat)
    ensures
        (sqrt_floor(n) as int) * (sqrt_floor(n) as int) <= n as int,
        (n as int) < (sqrt_floor(n) as int + 1) * (sqrt_floor(n) as int + 1),
    decreases n,
{
    if n > 0 {
        lemma_sqrt_floor((n / 4) as nat);
        let s = sqrt_floor((n / 4) as nat);
        let r = 2 * s;
        assert(r * r <= 4 * (n / 4)) by (nonlinear_arith)
            requires s * s <= n / 4, r == 2 * s;
        assert(4 * (n / 4) <= n);
        assert(n / 4 < (s + 1) * (s + 1));
        assert(n < 4 * (s + 1) * (s + 1)) by (nonlinear_arith)
            requires n / 4 < (s + 1) * (s + 1), n >= 0;
        assert((r + 2) * (r + 2) == 4 * (s + 1) * (s + 1)) by (nonlinear_arith)
            requires r == 2 * s;
        if (r + 1) * (r + 1) <= n {
            assert(sqrt_floor(n) == r + 1);
            assert((sqrt_floor(n) as int) * (sqrt_floor(n) as int) <= n as int)
                by (nonlinear_arith)
                requires sqrt_floor(n) == r + 1, (r + 1) * (r + 1) <= n;
            assert((n as int) < (sqrt_floor(n) as int + 1) * (sqrt_floor(n) as int + 1))
                by (nonlinear_arith)
                requires sqrt_floor(n) == r + 1, n < (r + 2) * (r + 2);
        } else {
            assert(sqrt_floor(n) == r);
            assert((sqrt_floor(n) as int) * (sqrt_floor(n) as int) <= n as int)
                by (nonlinear_arith)
                requires sqrt_floor(n) == r, r * r <= n;
            assert((n as int) < (sqrt_floor(n) as int + 1) * (sqrt_floor(n) as int + 1))
                by (nonlinear_arith)
                requires sqrt_floor(n) == r, n < (r + 1) * (r + 1);
        }
    } else {
        assert(sqrt_floor(n) == 0);
        assert((sqrt_floor(n) as int) * (sqrt_floor(n) as int) == 0) by (nonlinear_arith)
            requires sqrt_floor(n) == 0;
    }
}

/// Squares stay ordered: a bound on a number follows from a bound on its square.
pub proof fn lemma_square_bound(x: nat, b: nat)
    requires
        x * x < b * b,
    ensures
        x < b,
{
    if x >= b {
        assert(x * x >= b * b) by (nonlinear_arith)
            requires x >= b, b >= 0;
    }
}

/// Floor square root on `u128`, matching `sqrt_floor`.
pub fn isqrt(n: u128) -> (r: u128)
    requires
        n < 0x40000000000000000000000000000000,
    ensures
        r == sqrt_floor(n as nat),
        r * r <= n < (r + 1) * (r + 1),
    decreases n,
{
    proof {
        lemma_sqrt_floor(n as nat);
    }
    if n == 0 {
        0
    } else {
        let s = isqrt(n / 4);
        proof {
            assert((0x4000000000000000u128 as nat) * (0x4000000000000000u128 as nat)
                > (n / 4) as nat);
            lemma_square_bound(s as nat, 0x4000000000000000u128 as nat);
        }
        let r = 2 * s;
        proof {
            assert((r + 1) * (r + 1) < 0x100000000000000000000000000000000int)
                by (nonlinear_arith)
                requires r < 0x8000000000000000int;
        }
        if (r + 1) * (r + 1) <= n {
            r + 1
        } else {
            r
        }
    }
}

} // verus!
