//! Integer square roots, used wherever a Euclidean length is needed.
use vstd::prelude::*;

verus! {

/// The floor of the square root of `n`, defined by counting up from zero.
pub open spec fn isqrt(n: nat) -> nat
    decreases n,
{
    if n == 0 {
        0
    } else {
        let r = isqrt((n - 1) as nat);
        if (r + 1) * (r + 1) <= n {
            r + 1
        } else {
            r
        }
    }
}

/// The ceiling of the square root of `n`.
pub open spec fn csqrt(n: nat) -> nat {
    let r = isqrt(n);
    if r * r == n {
        r
    } else {
        r + 1
    }
}

pub open spec fn is_floor_root(r: nat, n: nat) -> bool {
    r * r <= n && n < (r + 1) * (r + 1)
}

/// `isqrt` is the floor of the square root.
pub proof fn lemma_isqrt_bounds(n: nat)
    ensures
        is_floor_root(isqrt(n), n),
    decreases n,
{
    if n > 0 {
        let m = (n - 1) as nat;
        lemma_isqrt_bounds(m);
        let r = isqrt(m);
        if (r + 1) * (r + 1) <= n {
            assert(n < (r + 2) * (r + 2)) by (nonlinear_arith)
                requires
                    m < (r + 1) * (r + 1),
                    n == m + 1,
            ;
            assert(isqrt(n) == r + 1);
            assert(is_floor_root(r + 1, n));
        } else {
            assert(isqrt(n) == r);
            assert(r * r <= n);
            assert(is_floor_root(r, n));
        }
    } else {
        assert(is_floor_root(0, 0)) by (nonlinear_arith);
    }
}

/// There is only one floor root.
pub proof fn lemma_floor_root_unique(a: nat, b: nat, n: nat)
    requires
        is_floor_root(a, n),
        is_floor_root(b, n),
    ensures
        a == b,
{
    if a < b {
        assert((a + 1) * (a + 1) <= b * b) by (nonlinear_arith)
            requires
                a + 1 <= b,
        ;
    }
    if b < a {
        assert((b + 1) * (b + 1) <= a * a) by (nonlinear_arith)
            requires
                b + 1 <= a,
        ;
    }
}

/// Any value whose square bounds `n` from both sides is `isqrt(n)`.
pub proof fn lemma_isqrt_is(r: nat, n: nat)
    requires
        is_floor_root(r, n),
    ensures
        isqrt(n) == r,
{
    lemma_isqrt_bounds(n);
    lemma_floor_root_unique(r, isqrt(n), n);
}

/// The ceiling root is the least value whose square reaches `n`.
pub proof fn lemma_csqrt_bounds(n: nat)
    ensures
        n <= csqrt(n) * csqrt(n),
        csqrt(n) == 0 || (csqrt(n) - 1) * (csqrt(n) - 1) < n,
{
    lemma_isqrt_bounds(n);
    let r = isqrt(n);
    if r * r == n && r > 0 {
        assert((r - 1) * (r - 1) < r * r) by (nonlinear_arith)
            requires
                r > 0,
        ;
    }
}

/// The square of an exact root is recovered exactly.
pub proof fn lemma_isqrt_of_square(r: nat)
    ensures
        isqrt(r * r) == r,
{
    assert(r * r < (r + 1) * (r + 1)) by (nonlinear_arith);
    lemma_isqrt_is(r, r * r);
}

pub const ROOT_LIMIT: u128 = 0x100_0000_0000_0000_0000_0000_0000_0000;

/// Floor square root of `n`, by bisection.
pub fn floor_sqrt(n: u128) -> (r: u128)
    requires
        n < ROOT_LIMIT,
    ensures
        r as nat == isqrt(n as nat),
{
    let mut lo: u128 = 0;
    let mut hi: u128 = 0x1000_0000_0000_0000;
    assert(0x1000_0000_0000_0000u128 * 0x1000_0000_0000_0000u128 == ROOT_LIMIT) by (nonlinear_arith);
    while hi - lo > 1
        invariant
            lo < hi <= 0x1000_0000_0000_0000,
            lo * lo <= n,
            n < hi * hi,
        decreases hi - lo,
    {
        let mid: u128 = lo + (hi - lo) / 2;
        assert(mid * mid <= 0x1000_0000_0000_0000 * 0x1000_0000_0000_0000) by (nonlinear_arith)
            requires
                mid < 0x1000_0000_0000_0000,
        ;
        if mid * mid <= n {
            lo = mid;
        } else {
            hi = mid;
        }
    }
    assert(hi == lo + 1);
    proof {
        lemma_isqrt_is(lo as nat, n as nat);
    }
    lo
}

/// Ceiling square root of `n`.
pub fn ceil_sqrt(n: u128) -> (r: u128)
    requires
        n < ROOT_LIMIT,
    ensures
        r as nat == csqrt(n as nat),
{
    let r: u128 = floor_sqrt(n);
    proof {
        lemma_isqrt_bounds(n as nat);
        lemma_csqrt_bounds(n as nat);
        assert(r < 0x1000_0000_0000_0000) by (nonlinear_arith)
            requires
                r * r < ROOT_LIMIT,
                ROOT_LIMIT == 0x1000_0000_0000_0000u128 * 0x1000_0000_0000_0000u128,
        ;
    }
    if r * r == n {
        r
    } else {
        r + 1
    }
}

} // verus!
