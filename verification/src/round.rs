//! Rounding of exact quotients, so that a number is decided once and by one rule.

use vstd::prelude::*;

verus! {

/// The integer nearest to `n / d`, the even one of two that are equally near.
pub open spec fn half_even(n: int, d: int) -> int {
    let q = n / d;
    let r = n % d;
    if 2 * r < d || (2 * r == d && q % 2 == 0) {
        q
    } else {
        q + 1
    }
}

/// The integer nearest to `n / d`, the one further from zero of two that are equally near.
pub open spec fn half_away(n: int, d: int) -> int {
    if n >= 0 {
        (2 * n + d) / (2 * d)
    } else {
        -((2 * -n + d) / (2 * d))
    }
}

/// A bound within which the arithmetic here cannot overflow.
pub open spec fn roundable(n: int, d: int) -> bool {
    0 < d < 0x1000_0000_0000_0000_0000_0000_0000 && -0x1000_0000_0000_0000_0000_0000_0000_0000 < n
        < 0x1000_0000_0000_0000_0000_0000_0000_0000
}

/// The quotient and remainder of the division that leaves a remainder of at least zero.
fn floor_div_rem(n: i128, d: i128) -> (r: (i128, i128))
    requires
        roundable(n as int, d as int),
    ensures
        r.0 == n as int / d as int,
        r.1 == n as int % d as int,
{
    if n >= 0 {
        (n / d, n % d)
    } else {
        let m: i128 = -n;
        let q: i128 = m / d;
        let r: i128 = m % d;
        proof {
            vstd::arithmetic::div_mod::lemma_fundamental_div_mod(m as int, d as int);
            assert(d * (-q) == -(d * q)) by (nonlinear_arith);
            assert(d * (-q - 1) == -(d * q) - d) by (nonlinear_arith);
            vstd::arithmetic::div_mod::lemma_div_is_ordered_by_denominator(m as int, 1, d as int);
            assert(m as int / 1 == m);
        }
        if r == 0 {
            proof {
                vstd::arithmetic::div_mod::lemma_fundamental_div_mod_converse(
                    n as int,
                    d as int,
                    -q as int,
                    0,
                );
            }
            (-q, 0)
        } else {
            proof {
                vstd::arithmetic::div_mod::lemma_fundamental_div_mod_converse(
                    n as int,
                    d as int,
                    -q - 1,
                    d - r,
                );
            }
            (-q - 1, d - r)
        }
    }
}

pub fn nearest_even(n: i128, d: i128) -> (r: i128)
    requires
        roundable(n as int, d as int),
    ensures
        r == half_even(n as int, d as int),
{
    let (q, r) = floor_div_rem(n, d);
    proof {
        vstd::arithmetic::div_mod::lemma_div_is_ordered_by_denominator(
            if n >= 0 { n as int } else { -n as int },
            1,
            d as int,
        );
        lemma_quotient_bound(n as int, d as int);
        vstd::arithmetic::div_mod::lemma_mod_bound(n as int, d as int);
    }
    let even: bool = q % 2 == 0;
    if r < d - r || (r == d - r && even) {
        q
    } else {
        q + 1
    }
}

proof fn lemma_quotient_bound(n: int, d: int)
    requires
        d > 0,
    ensures
        n >= 0 ==> 0 <= n / d <= n,
        n < 0 ==> n <= n / d <= 0,
{
    vstd::arithmetic::div_mod::lemma_fundamental_div_mod(n, d);
    vstd::arithmetic::div_mod::lemma_mod_bound(n, d);
    let q = n / d;
    assert(n >= 0 ==> 0 <= q <= n) by (nonlinear_arith)
        requires
            n == d * q + n % d,
            0 <= n % d < d,
            d > 0,
    ;
    assert(n < 0 ==> n <= q <= 0) by (nonlinear_arith)
        requires
            n == d * q + n % d,
            0 <= n % d < d,
            d > 0,
    ;
}

pub fn nearest_away(n: i128, d: i128) -> (r: i128)
    requires
        roundable(n as int, d as int),
    ensures
        r == half_away(n as int, d as int),
{
    let m: i128 = if n >= 0 {
        n
    } else {
        -n
    };
    proof {
        lemma_quotient_bound(2 * m + d, 2 * d);
    }
    let q: i128 = (2 * m + d) / (2 * d);
    if n >= 0 {
        q
    } else {
        -q
    }
}

/// A rounded quotient is no further from the exact one than any integer can help being: half a
/// unit, by either rule.
pub proof fn law_rounding_is_to_the_nearest(n: int, d: int)
    requires
        d > 0,
    ensures
        -d <= 2 * (d * half_even(n, d) - n) <= d,
        -d <= 2 * (d * half_away(n, d) - n) <= d,
{
    vstd::arithmetic::div_mod::lemma_fundamental_div_mod(n, d);
    vstd::arithmetic::div_mod::lemma_mod_bound(n, d);
    let q = n / d;
    assert(d * (q + 1) == d * q + d) by (nonlinear_arith);
    let m = if n >= 0 {
        n
    } else {
        -n
    };
    let a = (2 * m + d) / (2 * d);
    vstd::arithmetic::div_mod::lemma_fundamental_div_mod(2 * m + d, 2 * d);
    vstd::arithmetic::div_mod::lemma_mod_bound(2 * m + d, 2 * d);
    assert((2 * d) * a == 2 * (d * a)) by (nonlinear_arith);
    assert(d * -a == -(d * a)) by (nonlinear_arith);
}

/// Of two integers that are equally near, one rule takes the even one and the other the one
/// further from zero.
pub proof fn law_ties_go_one_way(n: int, d: int)
    requires
        d > 0,
    ensures
        2 * (d * half_even(n, d) - n) == d || 2 * (d * half_even(n, d) - n) == -d ==> half_even(n, d)
            % 2 == 0,
        2 * (d * half_away(n, d) - n) == d ==> n > 0,
        2 * (d * half_away(n, d) - n) == -d ==> n < 0,
{
    law_rounding_is_to_the_nearest(n, d);
    vstd::arithmetic::div_mod::lemma_fundamental_div_mod(n, d);
    vstd::arithmetic::div_mod::lemma_mod_bound(n, d);
    let q = n / d;
    assert(d * (q + 1) == d * q + d) by (nonlinear_arith);
    let m = if n >= 0 {
        n
    } else {
        -n
    };
    let a = (2 * m + d) / (2 * d);
    vstd::arithmetic::div_mod::lemma_fundamental_div_mod(2 * m + d, 2 * d);
    vstd::arithmetic::div_mod::lemma_mod_bound(2 * m + d, 2 * d);
    assert((2 * d) * a == 2 * (d * a)) by (nonlinear_arith);
    assert(d * -a == -(d * a)) by (nonlinear_arith);
    if n == 0 {
        assert(a == 0) by (nonlinear_arith)
            requires
                d == (2 * d) * a + d % (2 * d),
                0 <= d % (2 * d) < 2 * d,
                d > 0,
        ;
    }
}

/// Whether a whole number of units is as near to an amount as it can be, and the even one of two
/// that are equally near.
pub open spec fn nearest(n: int, unit: int, amount: int) -> bool {
    &&& -unit <= 2 * (n * unit - amount) <= unit
    &&& 2 * (n * unit - amount) == unit || 2 * (n * unit - amount) == -unit ==> n % 2 == 0
}

/// Where the even one of two is taken, a rounded quotient is the nearest whole number.
pub proof fn law_half_even_is_nearest(n: int, d: int)
    requires
        d > 0,
    ensures
        nearest(half_even(n, d), d, n),
{
    law_rounding_is_to_the_nearest(n, d);
    law_ties_go_one_way(n, d);
    let q = half_even(n, d);
    assert(d * q == q * d) by (nonlinear_arith);
}

/// A rounded quotient grows with what is divided.
pub proof fn law_rounding_keeps_the_order(m: int, n: int, d: int)
    requires
        d > 0,
        m <= n,
    ensures
        half_even(m, d) <= half_even(n, d),
        half_away(m, d) <= half_away(n, d),
{
    law_rounding_is_to_the_nearest(m, d);
    law_rounding_is_to_the_nearest(n, d);
    law_ties_go_one_way(m, d);
    law_ties_go_one_way(n, d);
    let (a, b) = (half_even(m, d), half_even(n, d));
    if a > b {
        assert(d * a >= d * b + d) by (nonlinear_arith)
            requires
                a >= b + 1,
                d > 0,
        ;
        assert(a == b + 1) by (nonlinear_arith)
            requires
                2 * (d * a - m) <= d,
                2 * (d * b - n) >= -d,
                m <= n,
                a >= b + 1,
                d > 0,
        ;
    }
    let (a, b) = (half_away(m, d), half_away(n, d));
    if a > b {
        assert(d * a >= d * b + d) by (nonlinear_arith)
            requires
                a >= b + 1,
                d > 0,
        ;
    }
}

} // verus!
