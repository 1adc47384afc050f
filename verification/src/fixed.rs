//! Fixed-point arithmetic with sixteen fractional bits.

use vstd::prelude::*;
use vstd::arithmetic::div_mod::lemma_fundamental_div_mod_converse;
use vstd::arithmetic::div_mod::lemma_fundamental_div_mod;
use vstd::arithmetic::div_mod::lemma_div_is_ordered;

verus! {

/// A number with sixteen fractional bits: the value times [`ONE`].
pub type Fixed = i64;

/// The fixed-point number 1.
pub const ONE: i64 = 65536;

/// The largest magnitude of a coordinate of a point of a ray or of a wall segment.
pub const LIMIT: i64 = 0x100_0000_0000;

/// Whether `a` is a coordinate within [`LIMIT`].
pub open spec fn in_range(a: int) -> bool {
    -(LIMIT as int) <= a <= LIMIT as int
}

/// The product of two fixed-point numbers, rounded down.
pub open spec fn mul_spec(a: int, b: int) -> int {
    (a * b) / (ONE as int)
}

/// The quotient of two fixed-point numbers, rounded down.
pub open spec fn div_spec(a: int, b: int) -> int
    recommends
        b != 0,
{
    (a * (ONE as int)) / b
}

/// The largest whole number not above the fixed-point number `a`.
pub open spec fn floor_spec(a: int) -> int {
    a / (ONE as int)
}

/// Quotient rounded towards minus infinity, for a positive divisor.
pub fn floor_div(n: i128, d: i128) -> (q: i128)
    requires
        d > 0,
    ensures
        q == (n as int) / (d as int),
{
    if n >= 0 {
        n / d
    } else {
        let m: i128 = -(n + 1);
        let qm: i128 = m / d;
        proof {
            let rm: int = (m as int) % (d as int);
            lemma_fundamental_div_mod(m as int, d as int);
            assert(n as int == (d as int) * (-(qm as int) - 1) + ((d as int) - rm - 1)) by (nonlinear_arith)
                requires
                    m as int == (d as int) * (qm as int) + rm,
                    n as int == -(m as int) - 1,
            ;
            lemma_fundamental_div_mod_converse(n as int, d as int, -(qm as int) - 1, (d as int) - rm - 1);
        }
        -qm - 1
    }
}

/// Quotient rounded towards zero, for a positive divisor.
pub open spec fn trunc_div_spec(n: int, d: int) -> int
    recommends
        d > 0,
{
    if n >= 0 {
        n / d
    } else {
        -((-n) / d)
    }
}

/// Quotient rounded towards zero, for a positive divisor.
pub fn trunc_div(n: i128, d: i128) -> (q: i128)
    requires
        d > 0,
    ensures
        q == trunc_div_spec(n as int, d as int),
{
    if n >= 0 {
        n / d
    } else {
        let m: i128 = -(n + 1);
        let qm: i128 = m / d;
        let rm: i128 = m % d;
        proof {
            lemma_fundamental_div_mod(m as int, d as int);
            if rm == d - 1 {
                assert(-(n as int) == (d as int) * ((qm as int) + 1) + 0) by (nonlinear_arith)
                    requires
                        m as int == (d as int) * (qm as int) + rm,
                        n as int == -(m as int) - 1,
                        rm == d - 1,
                ;
                lemma_fundamental_div_mod_converse(-(n as int), d as int, (qm as int) + 1, 0);
            } else {
                lemma_fundamental_div_mod_converse(-(n as int), d as int, qm as int, (rm as int) + 1);
            }
        }
        if rm == d - 1 {
            -qm - 1
        } else {
            -qm
        }
    }
}

/// The product of two fixed-point numbers, rounded down.
pub fn mul_floor(a: Fixed, b: Fixed) -> (r: Fixed)
    requires
        i64::MIN <= mul_spec(a as int, b as int) <= i64::MAX,
    ensures
        r == mul_spec(a as int, b as int),
{
    proof {
        lemma_product_bound(a as int, b as int, 0x8000_0000_0000_0000, 0x8000_0000_0000_0000);
    }
    let p: i128 = (a as i128) * (b as i128);
    let q: i128 = floor_div(p, ONE as i128);
    q as i64
}

/// The whole part of a fixed-point number, rounded down.
pub fn floor(a: Fixed) -> (r: i64)
    ensures
        r == floor_spec(a as int),
        r * ONE <= a < r * ONE + ONE,
{
    let q: i128 = floor_div(a as i128, ONE as i128);
    proof {
        lemma_fundamental_div_mod(a as int, ONE as int);
    }
    q as i64
}

/// A product lies between the products of the bounds of its factors.
pub proof fn lemma_product_bound(a: int, b: int, ma: int, mb: int)
    requires
        -ma <= a <= ma,
        -mb <= b <= mb,
    ensures
        -(ma * mb) <= a * b <= ma * mb,
{
    assert(-(ma * mb) <= a * b <= ma * mb) by (nonlinear_arith)
        requires
            -ma <= a <= ma,
            -mb <= b <= mb,
    ;
}

/// A fixed-point product lies between the scaled products of the bounds of its factors.
pub proof fn lemma_mul_bound(a: int, b: int, ma: int, mb: int)
    requires
        -ma <= a <= ma,
        -mb <= b <= mb,
    ensures
        (-(ma * mb)) / (ONE as int) <= mul_spec(a, b) <= (ma * mb) / (ONE as int),
{
    lemma_product_bound(a, b, ma, mb);
    lemma_div_is_ordered(-(ma * mb), a * b, ONE as int);
    lemma_div_is_ordered(a * b, ma * mb, ONE as int);
}

/// Whether `r` is the square root of `n`, rounded down.
pub open spec fn is_sqrt(n: int, r: int) -> bool {
    0 <= r && r * r <= n < (r + 1) * (r + 1)
}

/// The square root of `n`, rounded down.
pub open spec fn sqrt_floor(n: int) -> int {
    choose|r: int| is_sqrt(n, r)
}

/// Distance between two points as the crow flies, rounded down; the largest
/// fixed-point number where the distance is beyond it.
pub open spec fn distance(p: (Fixed, Fixed), q: (Fixed, Fixed)) -> Fixed {
    let a = q.0 - p.0;
    let b = q.1 - p.1;
    if a * a + b * b > i64::MAX * i64::MAX {
        i64::MAX
    } else {
        sqrt_floor(a * a + b * b) as i64
    }
}

/// A number has one square root rounded down, and no other.
pub proof fn lemma_sqrt_unique(n: int, r: int)
    requires
        is_sqrt(n, r),
    ensures
        sqrt_floor(n) == r,
{
    let q = sqrt_floor(n);
    assert(is_sqrt(n, q));
    if q < r {
        assert((q + 1) * (q + 1) <= r * r) by (nonlinear_arith)
            requires
                0 <= q,
                q + 1 <= r,
        ;
    }
    if r < q {
        assert((r + 1) * (r + 1) <= q * q) by (nonlinear_arith)
            requires
                0 <= r,
                r + 1 <= q,
        ;
    }
}

/// The square root of `n`, rounded down.
pub fn isqrt(n: u128) -> (r: u64)
    ensures
        is_sqrt(n as int, r as int),
{
    let mut lo: u128 = 0;
    let mut hi: u128 = 0x1_0000_0000_0000_0000;
    while hi - lo > 1
        invariant
            0 <= lo < hi <= 0x1_0000_0000_0000_0000,
            lo * lo <= n,
            hi == 0x1_0000_0000_0000_0000 || n < hi * hi,
        decreases hi - lo,
    {
        let mid: u128 = lo + (hi - lo) / 2;
        proof {
            assert(mid * mid <= 0xffff_ffff_ffff_ffff * 0xffff_ffff_ffff_ffff) by (nonlinear_arith)
                requires
                    0 <= mid <= 0xffff_ffff_ffff_ffff,
            ;
        }
        if mid * mid <= n {
            lo = mid;
        } else {
            hi = mid;
        }
    }
    proof {
        assert(hi == lo + 1);
    }
    lo as u64
}

/// Distance between two points as the crow flies, rounded down; the largest
/// fixed-point number where the distance is beyond it.
pub fn length_between(p: (Fixed, Fixed), q: (Fixed, Fixed)) -> (d: Fixed)
    ensures
        d == distance(p, q),
        d >= 0,
{
    let a: i128 = (q.0 as i128) - (p.0 as i128);
    let b: i128 = (q.1 as i128) - (p.1 as i128);
    let ua: u128 = if a < 0 {
        (-a) as u128
    } else {
        a as u128
    };
    let ub: u128 = if b < 0 {
        (-b) as u128
    } else {
        b as u128
    };
    let top: u128 = i64::MAX as u128;
    proof {
        assert(ua * ua == a * a) by (nonlinear_arith)
            requires
                ua == a || ua == -a,
        ;
        assert(ub * ub == b * b) by (nonlinear_arith)
            requires
                ub == b || ub == -b,
        ;
        assert(a * a >= 0 && b * b >= 0) by (nonlinear_arith);
        if ua > top {
            assert(ua * ua > top * top) by (nonlinear_arith)
                requires
                    ua > top,
                    top >= 0,
            ;
        } else {
            assert(ua * ua <= top * top) by (nonlinear_arith)
                requires
                    0 <= ua <= top,
            ;
        }
        if ub > top {
            assert(ub * ub > top * top) by (nonlinear_arith)
                requires
                    ub > top,
                    top >= 0,
            ;
        } else {
            assert(ub * ub <= top * top) by (nonlinear_arith)
                requires
                    0 <= ub <= top,
            ;
        }
        assert(top * top == 0x3fff_ffff_ffff_ffff_0000_0000_0000_0001) by (nonlinear_arith)
            requires
                top == 0x7fff_ffff_ffff_ffff,
        ;
    }
    if ua > top || ub > top {
        return i64::MAX;
    }
    let sq: u128 = ua * ua + ub * ub;
    if sq > top * top {
        i64::MAX
    } else {
        let r: u64 = isqrt(sq);
        proof {
            lemma_sqrt_unique(sq as int, r as int);
            if r > top {
                assert(r * r > top * top) by (nonlinear_arith)
                    requires
                        r > top,
                        top >= 0,
                ;
            }
        }
        r as i64
    }
}

} // verus!
