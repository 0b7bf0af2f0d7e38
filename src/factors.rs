//! Greatest common divisor and least common multiple of unsigned integers.

use vstd::arithmetic::div_mod::{
    lemma_div_multiples_vanish, lemma_fundamental_div_mod, lemma_mod_multiples_basic,
    lemma_mod_self_0, lemma_small_mod, lemma_truncate_middle,
};
use vstd::prelude::*;

verus! {

/// Greatest common divisor, by Euclid's rule `gcd(a, b) == gcd(b, a % b)`.
/// By convention `gcd(a, 0) == a`, so `gcd(0, 0) == 0`.
pub open spec fn gcd(a: nat, b: nat) -> nat
    decreases b,
{
    if b == 0 {
        a
    } else {
        gcd(b, a % b)
    }
}

/// `d` divides `n`. Zero divides zero alone.
pub open spec fn divides(d: nat, n: nat) -> bool {
    if d == 0 {
        n == 0
    } else {
        n % d == 0
    }
}

/// Least common multiple; zero as soon as one argument is zero.
pub open spec fn lcm(a: nat, b: nat) -> nat {
    if a == 0 || b == 0 {
        0
    } else {
        (a * b / gcd(a, b)) as nat
    }
}

/// A combination `x * q + y` of two multiples of `d` is a multiple of `d`.
proof fn lemma_mod_combination(d: int, x: int, y: int, q: int)
    requires
        d > 0,
        x % d == 0,
        y % d == 0,
    ensures
        (x * q + y) % d == 0,
{
    lemma_fundamental_div_mod(x, d);
    lemma_fundamental_div_mod(y, d);
    let i = x / d;
    let j = y / d;
    assert(x * q + y == (i * q + j) * d) by (nonlinear_arith)
        requires
            x == d * i,
            y == d * j,
    ;
    lemma_mod_multiples_basic(i * q + j, d);
}

/// `gcd(a, 0) == a`, for every `a`.
pub proof fn lemma_gcd_zero(a: nat)
    ensures
        gcd(a, 0) == a,
{
}

/// The order of the arguments does not matter: `gcd(a, b) == gcd(b, a)`.
pub proof fn lemma_gcd_commutative(a: nat, b: nat)
    ensures
        gcd(a, b) == gcd(b, a),
{
    reveal_with_fuel(gcd, 2);
    if a != 0 && b != 0 && a != b {
        if a < b {
            lemma_small_mod(a, b);
        } else {
            lemma_small_mod(b, a);
        }
    }
}

/// `gcd(a, b)` divides both `a` and `b`.
pub proof fn lemma_gcd_divides(a: nat, b: nat)
    ensures
        divides(gcd(a, b), a),
        divides(gcd(a, b), b),
    decreases b,
{
    if b == 0 {
        if a != 0 {
            lemma_mod_self_0(a as int);
        }
    } else {
        lemma_gcd_divides(b, a % b);
        let g = gcd(a, b);
        let q: int = a as int / b as int;
        let r: int = a as int % b as int;
        lemma_fundamental_div_mod(a as int, b as int);
        assert(g > 0);
        lemma_mod_combination(g as int, b as int, r, q);
        assert(b * q + r == a);
    }
}

/// Every common divisor of `a` and `b` divides `gcd(a, b)`: no common divisor is larger.
pub proof fn lemma_gcd_greatest(a: nat, b: nat, d: nat)
    requires
        divides(d, a),
        divides(d, b),
    ensures
        divides(d, gcd(a, b)),
        gcd(a, b) > 0 ==> d <= gcd(a, b),
    decreases b,
{
    if b != 0 {
        lemma_fundamental_div_mod(a as int, b as int);
        let q: int = a as int / b as int;
        let r: int = a as int % b as int;
        lemma_mod_combination(d as int, b as int, a as int, -q);
        assert(b * -q + a == r) by (nonlinear_arith)
            requires
                a == b * q + r,
        ;
        lemma_gcd_greatest(b, a % b, d);
    }
    let g = gcd(a, b);
    if g > 0 && d > 0 {
        lemma_fundamental_div_mod(g as int, d as int);
        assert(d <= g) by (nonlinear_arith)
            requires
                g > 0,
                d > 0,
                g == d * (g / d),
        ;
    }
}

/// `gcd(a, b)` is zero only when both are zero.
pub proof fn lemma_gcd_positive(a: nat, b: nat)
    requires
        a > 0 || b > 0,
    ensures
        gcd(a, b) > 0,
{
    lemma_gcd_divides(a, b);
}

/// A common factor comes out of the gcd: `gcd(k * a, k * b) == k * gcd(a, b)`.
pub proof fn lemma_gcd_scale(k: nat, a: nat, b: nat)
    ensures
        gcd(k * a, k * b) == k * gcd(a, b),
    decreases b,
{
    if b == 0 {
        assert(k * b == 0);
    } else if k == 0 {
        assert(k * a == 0 && k * b == 0);
    } else {
        lemma_truncate_middle(a as int, k as int, b as int);
        lemma_gcd_scale(k, b, a % b);
    }
}

/// For positive arguments the least common multiple is `(a / gcd(a, b)) * b`,
/// which is also `a * (b / gcd(a, b))`.
pub proof fn lemma_lcm_formula(a: nat, b: nat)
    requires
        a > 0,
        b > 0,
    ensures
        gcd(a, b) > 0,
        lcm(a, b) == (a / gcd(a, b)) * b,
        lcm(a, b) == a * (b / gcd(a, b)),
        lcm(a, b) > 0,
{
    let g = gcd(a, b);
    lemma_gcd_positive(a, b);
    lemma_gcd_divides(a, b);
    lemma_fundamental_div_mod(a as int, g as int);
    lemma_fundamental_div_mod(b as int, g as int);
    let a1 = a / g;
    let b1 = b / g;
    assert(a * b == g * (a1 * b) && a1 * b == a * b1 && a1 * b > 0) by (nonlinear_arith)
        requires
            a == g * a1,
            b == g * b1,
            a > 0,
            b > 0,
    ;
    lemma_div_multiples_vanish((a1 * b) as int, g as int);
}

/// For positive `a` and `b`, `lcm(a, b)` is a multiple of both.
pub proof fn lemma_lcm_common_multiple(a: nat, b: nat)
    requires
        a > 0,
        b > 0,
    ensures
        lcm(a, b) % a == 0,
        lcm(a, b) % b == 0,
{
    lemma_lcm_formula(a, b);
    let g = gcd(a, b);
    lemma_mod_multiples_basic((a / g) as int, b as int);
    lemma_mod_multiples_basic((b / g) as int, a as int);
    assert((a / g) * b == b * (a / g) && a * (b / g) == (b / g) * a) by (nonlinear_arith);
}

/// The least common multiple is zero as soon as one argument is zero.
pub proof fn lemma_lcm_zero(a: nat)
    ensures
        lcm(a, 0) == 0,
        lcm(0, a) == 0,
{
}

/// For positive `a` and `b`, `lcm(a, b)` divides every common multiple of `a` and `b`,
/// so it is the smallest positive one.
pub proof fn lemma_lcm_least(a: nat, b: nat, m: nat)
    requires
        a > 0,
        b > 0,
        m > 0,
        m % a == 0,
        m % b == 0,
    ensures
        m % lcm(a, b) == 0,
        0 < lcm(a, b) <= m,
{
    lemma_lcm_formula(a, b);
    let g = gcd(a, b);
    let l = lcm(a, b);
    lemma_gcd_divides(a, b);
    lemma_fundamental_div_mod(m as int, a as int);
    lemma_fundamental_div_mod(m as int, b as int);
    lemma_fundamental_div_mod(a as int, g as int);
    let s = m / a;
    let u = m / b;
    let a1 = a / g;
    // a * b divides both m * a and m * b, hence their gcd, which is m * g
    assert(m * a == (a * b) * u && m * b == (a * b) * s && a * b > 0) by (nonlinear_arith)
        requires
            m == a * s,
            m == b * u,
            a > 0,
            b > 0,
    ;
    lemma_mod_multiples_basic(u as int, (a * b) as int);
    lemma_mod_multiples_basic(s as int, (a * b) as int);
    assert((u * (a * b)) % (a * b) == ((a * b) * u) % (a * b)) by (nonlinear_arith);
    assert((s * (a * b)) % (a * b) == ((a * b) * s) % (a * b)) by (nonlinear_arith);
    lemma_gcd_greatest(m * a, m * b, a * b);
    lemma_gcd_scale(m, a, b);
    let mg = m * g;
    lemma_fundamental_div_mod(mg as int, (a * b) as int);
    let t = mg / (a * b);
    assert(m == l * t && t > 0) by (nonlinear_arith)
        requires
            mg == m * g,
            mg == (a * b) * t,
            a == g * a1,
            l == a1 * b,
            g > 0,
            m > 0,
            l > 0,
    ;
    lemma_mod_multiples_basic(t as int, l as int);
    assert(l * t == t * l && l <= l * t) by (nonlinear_arith)
        requires
            t > 0,
            l > 0,
    ;
}

/// Greatest common divisor, by Euclid's algorithm.
pub fn pgcd(a: u64, b: u64) -> (r: u64)
    ensures
        r == gcd(a as nat, b as nat),
    decreases b,
{
    if b == 0 {
        return a;
    }
    pgcd(b, a % b)
}

/// Least common multiple; zero when either argument is zero.
pub fn ppcm(a: u64, b: u64) -> (r: u64)
    requires
        lcm(a as nat, b as nat) <= u64::MAX,
    ensures
        r == lcm(a as nat, b as nat),
{
    if a == 0 || b == 0 {
        return 0;
    }
    let g = pgcd(a, b);
    proof {
        lemma_lcm_formula(a as nat, b as nat);
    }
    a / g * b
}

} // verus!
