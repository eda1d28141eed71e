use vstd::arithmetic::div_mod::lemma_fundamental_div_mod_converse;
use vstd::prelude::*;

verus! {

/// The fixed-point unit: the integer `v` stands for the real number `v / ONE`.
/// Lengths are counted in grid cells, angles in radians.
pub const ONE: i64 = 65536;

/// One half.
pub const HALF: i64 = 32768;

/// Half a turn, in radians.
pub const PI: i64 = 205887;

/// A full turn, in radians.
pub const TWO_PI: i64 = 411774;

/// The absolute value of `v`.
pub open spec fn abs(v: int) -> int {
    if v < 0 {
        -v
    } else {
        v
    }
}

/// The sign of `v`: -1, 0 or 1.
pub open spec fn sign(v: int) -> int {
    if v < 0 {
        -1
    } else if v > 0 {
        1
    } else {
        0
    }
}

/// The grid cell that the coordinate `v` lies in: `v / ONE` rounded down.
pub open spec fn cell_of(v: int) -> int {
    v / (ONE as int)
}

/// How far the coordinate `v` lies into its cell, in `[0, ONE)`.
pub open spec fn fract(v: int) -> int {
    v % (ONE as int)
}

/// The angle `a` brought into `[0, TWO_PI)` by whole turns.
pub open spec fn normalized(a: int) -> int {
    a % (TWO_PI as int)
}

/// Quotient rounded down and remainder of `n` by a positive `d`.
pub fn div_floor(n: i128, d: i128) -> (r: (i128, i128))
    requires
        d > 0,
        n > i128::MIN,
    ensures
        r.0 == n as int / d as int,
        r.1 == n as int % d as int,
        0 <= r.1 < d,
{
    if n >= 0 {
        let q: i128 = n / d;
        let m: i128 = n % d;
        (q, m)
    } else {
        let p: i128 = -n;
        let q: i128 = p / d;
        let m: i128 = p % d;
        proof {
            assert(p == q * d + m) by {
                vstd::arithmetic::div_mod::lemma_fundamental_div_mod(p as int, d as int);
                assert(d * q == q * d) by (nonlinear_arith);
            }
        }
        if m == 0 {
            proof {
                assert(n == (-q) * d + 0) by (nonlinear_arith)
                    requires
                        p == q * d + m,
                        m == 0,
                        p == -n,
                ;
                lemma_fundamental_div_mod_converse(n as int, d as int, -q as int, 0);
            }
            (-q, 0)
        } else {
            proof {
                assert(n == (-q - 1) * d + (d - m)) by (nonlinear_arith)
                    requires
                        p == q * d + m,
                        p == -n,
                ;
                lemma_fundamental_div_mod_converse(
                    n as int,
                    d as int,
                    -q as int - 1,
                    d as int - m as int,
                );
            }
            (-q - 1, d - m)
        }
    }
}

/// The grid cell of the coordinate `v`.
pub fn cell(v: i64) -> (c: i64)
    ensures
        c == cell_of(v as int),
        c * ONE <= v < c * ONE + ONE,
{
    let r = div_floor(v as i128, ONE as i128);
    proof {
        vstd::arithmetic::div_mod::lemma_fundamental_div_mod(v as int, ONE as int);
    }
    r.0 as i64
}

/// The angle `a` brought into `[0, TWO_PI)` by whole turns.
pub fn normalize_angle(a: i64) -> (r: i64)
    ensures
        r == normalized(a as int),
        0 <= r < TWO_PI,
{
    let r = div_floor(a as i128, TWO_PI as i128);
    r.1 as i64
}

} // verus!
