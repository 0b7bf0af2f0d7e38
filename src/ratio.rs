//! Fractions as pairs `(numerator, denominator)` of natural numbers: reduction,
//! value equality, common denominators and sums, with their laws.

use crate::factors::{
    gcd, lcm, lemma_gcd_divides, lemma_gcd_greatest, lemma_gcd_positive, lemma_gcd_scale,
    lemma_lcm_common_multiple, lemma_lcm_formula,
};
use vstd::arithmetic::div_mod::{
    lemma_div_by_self, lemma_div_multiples_vanish, lemma_fundamental_div_mod,
    lemma_mod_multiples_basic,
};
use vstd::prelude::*;

verus! {

/// The fraction with the common factor of its two terms divided out.
pub open spec fn reduced(f: (nat, nat)) -> (nat, nat) {
    (f.0 / gcd(f.0, f.1), f.1 / gcd(f.0, f.1))
}

/// The two terms have no common factor above one.
pub open spec fn is_reduced(f: (nat, nat)) -> bool {
    gcd(f.0, f.1) == 1
}

/// Two fractions stand for the same number when their reduced forms coincide.
pub open spec fn same_value(a: (nat, nat), b: (nat, nat)) -> bool {
    reduced(a) == reduced(b)
}

/// Both terms multiplied by `k`.
pub open spec fn scaled(f: (nat, nat), k: nat) -> (nat, nat) {
    (f.0 * k, f.1 * k)
}

/// Both terms fit in a `u64`.
pub open spec fn fits(f: (nat, nat)) -> bool {
    f.0 <= u64::MAX && f.1 <= u64::MAX
}

/// `f` restated over the denominator `l`, a multiple of its own: `f.0 * (l / f.1)` over `l`.
pub open spec fn over_denominator(f: (nat, nat), l: nat) -> (nat, nat) {
    (f.0 * (l / f.1), l)
}

/// Both fractions restated over the least common multiple of their denominators.
pub open spec fn common_denominators(a: (nat, nat), b: (nat, nat)) -> ((nat, nat), (nat, nat)) {
    (over_denominator(a, lcm(a.1, b.1)), over_denominator(b, lcm(a.1, b.1)))
}

/// The terms of both fractions over their common denominator fit in a `u64`.
pub open spec fn common_denominators_fit(a: (nat, nat), b: (nat, nat)) -> bool {
    &&& lcm(a.1, b.1) <= u64::MAX
    &&& fits(common_denominators(a, b).0)
    &&& fits(common_denominators(a, b).1)
}

/// Both fractions reduced first, then restated over a common denominator.
pub open spec fn common_basis(a: (nat, nat), b: (nat, nat)) -> ((nat, nat), (nat, nat)) {
    common_denominators(reduced(a), reduced(b))
}

/// The sum as computed: over a shared denominator the numerators are added;
/// otherwise both fractions are first brought to their common basis.
pub open spec fn sum(a: (nat, nat), b: (nat, nat)) -> (nat, nat) {
    if a.1 == b.1 {
        (a.0 + b.0, a.1)
    } else {
        let (x, y) = common_basis(a, b);
        (x.0 + y.0, x.1)
    }
}

/// Every term met while adding `a` and `b` fits in a `u64`.
pub open spec fn sum_fits(a: (nat, nat), b: (nat, nat)) -> bool {
    if a.1 == b.1 {
        a.0 + b.0 <= u64::MAX
    } else {
        common_denominators_fit(reduced(a), reduced(b)) && sum(a, b).0 <= u64::MAX
    }
}

/// The reduced form of a fraction with a positive denominator: `gcd(n, d)` times it
/// gives back `(n, d)`, its own terms are coprime, and its denominator is positive.
pub proof fn lemma_reduced(f: (nat, nat))
    requires
        f.1 > 0,
    ensures
        gcd(f.0, f.1) > 0,
        f.0 == gcd(f.0, f.1) * reduced(f).0,
        f.1 == gcd(f.0, f.1) * reduced(f).1,
        reduced(f).1 > 0,
        is_reduced(reduced(f)),
{
    let g = gcd(f.0, f.1);
    let r = reduced(f);
    lemma_gcd_positive(f.0, f.1);
    lemma_gcd_divides(f.0, f.1);
    lemma_fundamental_div_mod(f.0 as int, g as int);
    lemma_fundamental_div_mod(f.1 as int, g as int);
    lemma_gcd_scale(g, r.0, r.1);
    assert(gcd(r.0, r.1) == 1 && r.1 > 0) by (nonlinear_arith)
        requires
            g > 0,
            f.1 > 0,
            f.1 == g * r.1,
            g == g * gcd(r.0, r.1),
    ;
}

/// A fraction whose terms are coprime is its own reduced form.
pub(crate) proof fn lemma_reduced_of_coprime(f: (nat, nat))
    requires
        is_reduced(f),
    ensures
        reduced(f) == f,
{
}

/// Simplification is idempotent, and its result is always in simplified form.
pub proof fn lemma_simplify_idempotent(f: (nat, nat))
    requires
        f.1 > 0,
    ensures
        reduced(reduced(f)) == reduced(f),
        is_reduced(reduced(f)),
{
    lemma_reduced(f);
    lemma_reduced_of_coprime(reduced(f));
}

/// Scaling both terms by a positive `k` keeps the value: `n/d` equals `(n*k)/(d*k)`.
pub proof fn lemma_same_value_scaled(f: (nat, nat), k: nat)
    requires
        f.1 > 0,
        k > 0,
    ensures
        same_value(scaled(f, k), f),
{
    let g = gcd(f.0, f.1);
    let r = reduced(f);
    let s = scaled(f, k);
    lemma_reduced(f);
    assert(s.0 == k * f.0 && s.1 == k * f.1 && s.0 == (k * g) * r.0 && s.1 == (k * g) * r.1
        && k * g > 0) by (nonlinear_arith)
        requires
            s == scaled(f, k),
            f.0 == g * r.0,
            f.1 == g * r.1,
            k > 0,
            g > 0,
    ;
    lemma_gcd_scale(k, f.0, f.1);
    lemma_div_multiples_vanish(r.0 as int, (k * g) as int);
    lemma_div_multiples_vanish(r.1 as int, (k * g) as int);
}

/// Over a positive multiple `l` of the denominator, the fraction is scaled by `l / f.1`.
pub(crate) proof fn lemma_over_denominator(f: (nat, nat), l: nat)
    requires
        f.1 > 0,
        l > 0,
        l % f.1 == 0,
    ensures
        l / f.1 > 0,
        over_denominator(f, l) == scaled(f, l / f.1),
{
    lemma_fundamental_div_mod(l as int, f.1 as int);
    let m = l / f.1;
    assert(m > 0 && f.1 * m == l) by (nonlinear_arith)
        requires
            l == f.1 * m,
            l > 0,
            f.1 > 0,
    ;
}

/// Fractions that already share a denominator are their own common denominators.
pub(crate) proof fn lemma_common_denominators_same(a: (nat, nat), b: (nat, nat))
    requires
        a.1 > 0,
        a.1 == b.1,
    ensures
        common_denominators(a, b) == (a, b),
{
    let d = a.1;
    reveal_with_fuel(gcd, 2);
    lemma_div_multiples_vanish(d as int, d as int);
    lemma_div_by_self(d as int);
    assert(lcm(d, d) == d);
}

/// Restating two fractions over a common denominator keeps the value of each.
pub proof fn lemma_common_denominators_keep_value(a: (nat, nat), b: (nat, nat))
    requires
        a.1 > 0,
        b.1 > 0,
    ensures
        same_value(common_denominators(a, b).0, a),
        same_value(common_denominators(a, b).1, b),
        common_denominators(a, b).0.1 == common_denominators(a, b).1.1,
{
    let l = lcm(a.1, b.1);
    lemma_lcm_formula(a.1, b.1);
    lemma_lcm_common_multiple(a.1, b.1);
    lemma_over_denominator(a, l);
    lemma_over_denominator(b, l);
    lemma_same_value_scaled(a, l / a.1);
    lemma_same_value_scaled(b, l / b.1);
}

/// The common basis of two fractions keeps the value of each.
pub proof fn lemma_common_basis_keeps_value(a: (nat, nat), b: (nat, nat))
    requires
        a.1 > 0,
        b.1 > 0,
    ensures
        same_value(common_basis(a, b).0, a),
        same_value(common_basis(a, b).1, b),
        common_basis(a, b).0.1 == common_basis(a, b).1.1,
{
    lemma_simplify_idempotent(a);
    lemma_simplify_idempotent(b);
    lemma_reduced(a);
    lemma_reduced(b);
    lemma_common_denominators_keep_value(reduced(a), reduced(b));
}

/// When `n/d` is reduced and `d` divides `n * m`, then `d` divides `m`.
proof fn lemma_reduced_denominator_divides(f: (nat, nat), m: nat)
    requires
        f.1 > 0,
        m > 0,
        is_reduced(f),
        (f.0 * m) % f.1 == 0,
    ensures
        m % f.1 == 0,
{
    lemma_gcd_scale(m, f.0, f.1);
    lemma_mod_multiples_basic(m as int, f.1 as int);
    assert(m * f.0 == f.0 * m);
    lemma_gcd_greatest(m * f.0, m * f.1, f.1);
}

/// Two fractions with positive denominators have the same value exactly when their
/// cross products agree: `a.0 * b.1 == b.0 * a.1`.
pub proof fn lemma_same_value_cross(a: (nat, nat), b: (nat, nat))
    requires
        a.1 > 0,
        b.1 > 0,
    ensures
        same_value(a, b) <==> a.0 * b.1 == b.0 * a.1,
{
    let ga = gcd(a.0, a.1);
    let gb = gcd(b.0, b.1);
    let ra = reduced(a);
    let rb = reduced(b);
    lemma_reduced(a);
    lemma_reduced(b);
    assert(a.0 * b.1 == (ga * gb) * (ra.0 * rb.1) && b.0 * a.1 == (ga * gb) * (rb.0 * ra.1)
        && ga * gb > 0) by (nonlinear_arith)
        requires
            a.0 == ga * ra.0,
            a.1 == ga * ra.1,
            b.0 == gb * rb.0,
            b.1 == gb * rb.1,
            ga > 0,
            gb > 0,
    ;
    if a.0 * b.1 == b.0 * a.1 {
        assert(ra.0 * rb.1 == rb.0 * ra.1) by (nonlinear_arith)
            requires
                (ga * gb) * (ra.0 * rb.1) == (ga * gb) * (rb.0 * ra.1),
                ga * gb > 0,
        ;
        lemma_mod_multiples_basic(ra.0 as int, rb.1 as int);
        lemma_mod_multiples_basic(rb.0 as int, ra.1 as int);
        assert((rb.0 * ra.1) % rb.1 == 0 && (ra.0 * rb.1) % ra.1 == 0) by (nonlinear_arith)
            requires
                ra.0 * rb.1 == rb.0 * ra.1,
                (ra.0 as int * rb.1 as int) % (rb.1 as int) == 0,
                (rb.0 as int * ra.1 as int) % (ra.1 as int) == 0,
        ;
        lemma_reduced_denominator_divides(rb, ra.1);
        lemma_reduced_denominator_divides(ra, rb.1);
        lemma_fundamental_div_mod(ra.1 as int, rb.1 as int);
        lemma_fundamental_div_mod(rb.1 as int, ra.1 as int);
        assert(ra.1 == rb.1) by (nonlinear_arith)
            requires
                ra.1 == rb.1 * (ra.1 / rb.1),
                rb.1 == ra.1 * (rb.1 / ra.1),
                ra.1 > 0,
                rb.1 > 0,
        ;
        assert(ra.0 == rb.0) by (nonlinear_arith)
            requires
                ra.0 * rb.1 == rb.0 * ra.1,
                ra.1 == rb.1,
                ra.1 > 0,
        ;
    }
}

/// The sum is exact: `sum(a, b)` has a positive denominator and the value
/// `a.0 / a.1 + b.0 / b.1`.
pub proof fn lemma_sum_is_exact(a: (nat, nat), b: (nat, nat))
    requires
        a.1 > 0,
        b.1 > 0,
    ensures
        sum(a, b).1 > 0,
        sum(a, b).0 * (a.1 * b.1) == (a.0 * b.1 + b.0 * a.1) * sum(a, b).1,
{
    let s = sum(a, b);
    if a.1 == b.1 {
        assert(s.0 * (a.1 * b.1) == (a.0 * b.1 + b.0 * a.1) * s.1) by (nonlinear_arith)
            requires
                s == (a.0 + b.0, a.1),
                a.1 == b.1,
        ;
    } else {
        let (x, y) = common_basis(a, b);
        lemma_common_basis_keeps_value(a, b);
        lemma_reduced(a);
        lemma_reduced(b);
        lemma_lcm_formula(reduced(a).1, reduced(b).1);
        lemma_same_value_cross(x, a);
        lemma_same_value_cross(y, b);
        let l = x.1;
        assert(s.0 * (a.1 * b.1) == (a.0 * b.1 + b.0 * a.1) * s.1) by (nonlinear_arith)
            requires
                s == (x.0 + y.0, l),
                y.1 == l,
                x.0 * a.1 == a.0 * l,
                y.0 * b.1 == b.0 * l,
        ;
    }
}

/// Value equality is reflexive.
pub proof fn lemma_same_value_reflexive(a: (nat, nat))
    ensures
        same_value(a, a),
{
}

/// Value equality is symmetric.
pub proof fn lemma_same_value_symmetric(a: (nat, nat), b: (nat, nat))
    ensures
        same_value(a, b) == same_value(b, a),
{
}

/// Value equality is transitive.
pub proof fn lemma_same_value_transitive(a: (nat, nat), b: (nat, nat), c: (nat, nat))
    requires
        same_value(a, b),
        same_value(b, c),
    ensures
        same_value(a, c),
{
}

} // verus!
