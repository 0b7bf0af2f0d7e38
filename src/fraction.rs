//! Fractions of unsigned 64-bit integers, kept as written and compared by value.

use crate::factors::{lemma_lcm_common_multiple, lemma_lcm_formula, pgcd, ppcm};
use crate::ratio::{
    common_basis, common_denominators, common_denominators_fit, fits, is_reduced,
    lemma_common_denominators_same, lemma_over_denominator, lemma_reduced,
    lemma_reduced_of_coprime, reduced, same_value, scaled, sum, sum_fits,
};
use crate::text::{decimal, push_decimal};
use vstd::prelude::*;

verus! {

/// `numerator/denominator` in decimal.
pub open spec fn plain_text(f: (nat, nat)) -> Seq<char> {
    decimal(f.0) + seq!['/'] + decimal(f.1)
}

/// The rendering of a fraction: `n/d` when simplified, else `n/d (<==> a/b)` where
/// `a/b` is the simplified form, which renders plainly.
pub open spec fn text(f: (nat, nat)) -> Seq<char> {
    if is_reduced(f) {
        plain_text(f)
    } else {
        plain_text(f) + seq![' ', '(', '<', '=', '=', '>', ' '] + plain_text(reduced(f)) + seq![')']
    }
}

/// The error of building a fraction whose denominator is zero.
#[derive(Debug, Clone, Copy, PartialEq, Eq)]
pub struct InvalidFraction;

/// A numerator over a non-zero denominator. The terms are kept as given:
/// a fraction is reduced only by `simplify`.
#[derive(Debug, Clone, Copy)]
pub struct Fraction {
    numerator: u64,
    denominator: u64,
}

impl View for Fraction {
    type V = (nat, nat);

    closed spec fn view(&self) -> (nat, nat) {
        (self.numerator as nat, self.denominator as nat)
    }
}

impl Fraction {
    #[verifier::type_invariant]
    spec fn denominator_not_zero(self) -> bool {
        self.denominator != 0
    }

    /// `numerator / denominator`; refused when the denominator is zero.
    pub fn new(numerator: u64, denominator: u64) -> (r: Result<Fraction, InvalidFraction>)
        ensures
            denominator == 0 <==> r is Err,
            r is Ok ==> r->Ok_0@ == (numerator as nat, denominator as nat),
    {
        if denominator == 0 {
            return Err(InvalidFraction);
        }
        Ok(Fraction { numerator, denominator })
    }

    /// Same as `new`: `numerator / denominator`, refused when the denominator is zero.
    pub fn from(numerator: u64, denominator: u64) -> (r: Result<Fraction, InvalidFraction>)
        ensures
            denominator == 0 <==> r is Err,
            r is Ok ==> r->Ok_0@ == (numerator as nat, denominator as nat),
    {
        Fraction::new(numerator, denominator)
    }

    /// The numerator, as given.
    pub fn numerator(&self) -> (r: u64)
        ensures
            r == self@.0,
    {
        self.numerator
    }

    /// The denominator, as given; never zero.
    pub fn denominator(&self) -> (r: u64)
        ensures
            r == self@.1,
            r > 0,
    {
        proof {
            use_type_invariant(self);
        }
        self.denominator
    }

    /// Whether the numerator and denominator have no common factor above one.
    pub fn is_simplified(&self) -> (r: bool)
        ensures
            r == is_reduced(self@),
    {
        pgcd(self.numerator, self.denominator) == 1
    }

    /// The same value with the greatest common divisor of the terms divided out;
    /// a fraction already in simplified form comes back unchanged.
    pub fn simplify(&self) -> (r: Fraction)
        ensures
            r@ == reduced(self@),
    {
        proof {
            use_type_invariant(self);
            lemma_reduced(self@);
        }
        if self.is_simplified() {
            proof {
                lemma_reduced_of_coprime(self@);
            }
            return Fraction { numerator: self.numerator, denominator: self.denominator };
        }
        let g = pgcd(self.numerator, self.denominator);
        Fraction { numerator: self.numerator / g, denominator: self.denominator / g }
    }

    /// The product: numerator times numerator over denominator times denominator,
    /// not simplified.
    pub fn multiply_by(&self, other: Fraction) -> (r: Fraction)
        requires
            fits((self@.0 * other@.0, self@.1 * other@.1)),
        ensures
            r@ == (self@.0 * other@.0, self@.1 * other@.1),
    {
        proof {
            use_type_invariant(self);
            use_type_invariant(&other);
            assert(self@.1 * other@.1 > 0) by (nonlinear_arith)
                requires
                    self@.1 > 0,
                    other@.1 > 0,
            ;
        }
        Fraction {
            numerator: self.numerator * other.numerator,
            denominator: self.denominator * other.denominator,
        }
    }

    /// Both terms multiplied by `n`, that is the product with `n / n`: the value is kept.
    pub fn multiply_by_unity_fraction(&self, n: u64) -> (r: Fraction)
        requires
            n > 0,
            fits(scaled(self@, n as nat)),
        ensures
            r@ == scaled(self@, n as nat),
    {
        self.multiply_by(Fraction { numerator: n, denominator: n })
    }

    /// Appends `numerator/denominator` to `s`.
    fn push_plain(&self, s: &mut String)
        ensures
            final(s)@ == old(s)@ + plain_text(self@),
    {
        push_decimal(s, self.numerator);
        proof {
            reveal_strlit("/");
        }
        s.append("/");
        push_decimal(s, self.denominator);
        assert(s@ =~= old(s)@ + plain_text(self@));
    }

    /// Human-readable text: `n/d` when simplified, else `n/d (<==> a/b)` with the
    /// simplified form `a/b`.
    pub fn to_text(&self) -> (r: String)
        ensures
            r@ == text(self@),
    {
        let mut s = String::new();
        self.push_plain(&mut s);
        if !self.is_simplified() {
            let simple = self.simplify();
            proof {
                reveal_strlit(" (<==> ");
                reveal_strlit(")");
            }
            s.append(" (<==> ");
            simple.push_plain(&mut s);
            s.append(")");
        }
        assert(s@ =~= text(self@));
        s
    }

    /// The sum, not simplified. Over a shared denominator the numerators are added;
    /// otherwise both fractions are first brought to their common basis.
    pub fn add_fraction(self, other: Fraction) -> (r: Fraction)
        requires
            sum_fits(self@, other@),
        ensures
            r@ == sum(self@, other@),
    {
        proof {
            use_type_invariant(&self);
            use_type_invariant(&other);
        }
        if self.denominator == other.denominator {
            return Fraction {
                numerator: self.numerator + other.numerator,
                denominator: self.denominator,
            };
        }
        let (fraction1, fraction2) = find_common_basis(self, other);
        proof {
            use_type_invariant(&fraction1);
        }
        Fraction {
            numerator: fraction1.numerator + fraction2.numerator,
            denominator: fraction1.denominator,
        }
    }
}

/// Both fractions restated over the least common multiple of their denominators;
/// fractions that already share a denominator come back unchanged.
fn restate_over_common_denominator(fraction1: Fraction, fraction2: Fraction) -> (r: (Fraction, Fraction))
    requires
        common_denominators_fit(fraction1@, fraction2@),
    ensures
        r.0@ == common_denominators(fraction1@, fraction2@).0,
        r.1@ == common_denominators(fraction1@, fraction2@).1,
{
    proof {
        use_type_invariant(&fraction1);
        use_type_invariant(&fraction2);
    }
    if fraction1.denominator == fraction2.denominator {
        proof {
            lemma_common_denominators_same(fraction1@, fraction2@);
        }
        return (fraction1, fraction2);
    }
    let pcm = ppcm(fraction1.denominator, fraction2.denominator);
    proof {
        lemma_lcm_formula(fraction1@.1, fraction2@.1);
        lemma_lcm_common_multiple(fraction1@.1, fraction2@.1);
        lemma_over_denominator(fraction1@, pcm as nat);
        lemma_over_denominator(fraction2@, pcm as nat);
    }
    let f1_coeff = pcm / fraction1.denominator;
    let f2_coeff = pcm / fraction2.denominator;
    (
        fraction1.multiply_by_unity_fraction(f1_coeff),
        fraction2.multiply_by_unity_fraction(f2_coeff),
    )
}

/// Both fractions simplified, then restated over the least common multiple of the
/// simplified denominators, which keeps that common denominator as small as it can be.
/// Simplified fractions that already share a denominator come back as they are.
pub fn find_common_basis(fraction1: Fraction, fraction2: Fraction) -> (r: (Fraction, Fraction))
    requires
        common_denominators_fit(reduced(fraction1@), reduced(fraction2@)),
    ensures
        r.0@ == common_basis(fraction1@, fraction2@).0,
        r.1@ == common_basis(fraction1@, fraction2@).1,
{
    restate_over_common_denominator(fraction1.simplify(), fraction2.simplify())
}

/// The common-denominator conversion: both fractions simplified first, then restated
/// over the least common multiple of their simplified denominators.
pub fn convert_to_same_denominator(fraction1: Fraction, fraction2: Fraction) -> (r: (Fraction, Fraction))
    requires
        common_denominators_fit(reduced(fraction1@), reduced(fraction2@)),
    ensures
        r.0@ == common_basis(fraction1@, fraction2@).0,
        r.1@ == common_basis(fraction1@, fraction2@).1,
{
    find_common_basis(fraction1, fraction2)
}

/// `numerator / denominator`; refused when the denominator is zero.
pub fn fraction(numerator: u64, denominator: u64) -> (r: Result<Fraction, InvalidFraction>)
    ensures
        denominator == 0 <==> r is Err,
        r is Ok ==> r->Ok_0@ == (numerator as nat, denominator as nat),
{
    Fraction::new(numerator, denominator)
}

impl PartialEq for Fraction {
    /// Equal values, though the terms may differ: `1/2 == 2/4`.
    fn eq(&self, other: &Fraction) -> (r: bool) {
        let a = self.simplify();
        let b = other.simplify();
        a.numerator == b.numerator && a.denominator == b.denominator
    }
}

impl vstd::std_specs::cmp::PartialEqSpecImpl for Fraction {
    open spec fn obeys_eq_spec() -> bool {
        true
    }

    open spec fn eq_spec(&self, other: &Fraction) -> bool {
        same_value(self@, other@)
    }
}

} // verus!
