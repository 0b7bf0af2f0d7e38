use fractions::fraction::{convert_to_same_denominator, fraction, Fraction};

#[test]
fn leaves_intact_fractions_if_same_denominator() {
    let fraction1 = Fraction::from(1, 2).unwrap();
    let fraction2 = Fraction::from(3, 2).unwrap();
    let (fraction1, fraction2) = convert_to_same_denominator(fraction1, fraction2);
    assert_eq!(fraction1, fraction1);
    assert_eq!(fraction2, Fraction::from(3, 2).unwrap());
}

#[test]
fn checks_for_same_fraction_but_not_simplified() {
    let fraction1 = Fraction::from(1, 2).unwrap();
    let fraction2 = Fraction::from(2, 4).unwrap();
    let (fraction1, fraction2) = convert_to_same_denominator(fraction1, fraction2);
    assert_eq!(fraction1, Fraction::from(2, 4).unwrap());
    assert_eq!(fraction2, fraction2);
}

#[test]
fn convert_one_fraction() {
    let fraction1 = Fraction::from(1, 2).unwrap();
    let fraction2 = Fraction::from(1, 4).unwrap();
    let (fraction1, fraction2) = convert_to_same_denominator(fraction1, fraction2);
    assert_eq!(fraction1, Fraction::from(2, 4).unwrap());
    assert_eq!(fraction2, fraction2);
}

#[test]
fn convert_both_fractions() {
    let fraction1 = Fraction::from(1, 3).unwrap();
    let fraction2 = Fraction::from(1, 4).unwrap();
    let (fraction1, fraction2) = convert_to_same_denominator(fraction1, fraction2);
    assert_eq!(fraction1, Fraction::from(4, 12).unwrap());
    assert_eq!(fraction2, Fraction::from(3, 12).unwrap());
}

#[test]
fn convert_simplifies_first() {
    let fraction1 = Fraction::from(2, 4).unwrap();
    let fraction2 = Fraction::from(1, 6).unwrap();
    let (a, b) = convert_to_same_denominator(fraction1, fraction2);
    assert_eq!((a.numerator(), a.denominator()), (3, 6));
    assert_eq!((b.numerator(), b.denominator()), (1, 6));
}

#[test]
fn convert_equal_values_gives_simplified_terms() {
    let fraction1 = Fraction::from(1, 2).unwrap();
    let fraction2 = Fraction::from(2, 4).unwrap();
    let (a, b) = convert_to_same_denominator(fraction1, fraction2);
    assert_eq!((a.numerator(), a.denominator()), (1, 2));
    assert_eq!((b.numerator(), b.denominator()), (1, 2));
}

#[test]
fn convert_shared_denominator_is_simplified_too() {
    let fraction1 = Fraction::from(2, 4).unwrap();
    let fraction2 = Fraction::from(6, 4).unwrap();
    let (a, b) = convert_to_same_denominator(fraction1, fraction2);
    assert_eq!((a.numerator(), a.denominator()), (1, 2));
    assert_eq!((b.numerator(), b.denominator()), (3, 2));
}

#[test]
fn test_equality_when_obviously_equals() {
    let f1 = Fraction::from(1, 5).unwrap();
    let f2 = Fraction::from(1, 5).unwrap();
    assert_eq!(f1, f2);
}

#[test]
fn test_equality_when_equals_when_simplified() {
    let f1 = Fraction::from(1, 5).unwrap();
    let f2 = Fraction::from(2, 10).unwrap();
    let f3 = Fraction::from(10, 50).unwrap();
    assert_eq!(f1, f2);
    assert_eq!(f1, f3);
    assert_eq!(f2, f3);
}

#[test]
fn test_equality_when_not_equals() {
    let f1 = Fraction::from(1, 5).unwrap();
    let f2 = Fraction::from(2, 6).unwrap();
    assert_ne!(f1, f2);
}

#[test]
fn fraction_test_multiply_by_unity_fraction() {
    let n = 3;
    let f = Fraction::from(3, 5).unwrap();
    assert_eq!(f.multiply_by_unity_fraction(n), Fraction::from(9, 15).unwrap());
}

#[test]
fn add_fractions_with_same_denominators() {
    let f1 = Fraction::from(1, 2).unwrap();
    let f2 = Fraction::from(2, 2).unwrap();
    assert_eq!(f1.add_fraction(f2), Fraction::from(3, 2).unwrap());
}

#[test]
fn add_fractions_with_different_denominators() {
    let f1 = Fraction::from(1, 2).unwrap();
    let f2 = Fraction::from(1, 4).unwrap();
    assert_eq!(f1.add_fraction(f2), Fraction::from(3, 4).unwrap());
}

#[test]
fn fraction_test_is_simplified() {
    let fraction1 = Fraction::from(1, 2).unwrap();
    assert!(fraction1.is_simplified())
}

#[test]
#[should_panic]
fn fraction_test_is_simplified_with_zero_denominator() {
    let fraction1 = Fraction::from(1, 0).unwrap();
    fraction1.is_simplified();
}

#[test]
fn fraction_test_is_simplified_with_non_simplified() {
    let fraction1 = Fraction::from(2, 4).unwrap();
    assert_eq!(fraction1.is_simplified(), false)
}

#[test]
fn simplify_when_necessary() {
    let fraction = Fraction::from(2, 8).unwrap();
    assert_eq!(fraction.simplify(), Fraction::from(1, 4).unwrap());
}

#[test]
fn does_not_simplify_when_not_necessary() {
    let fraction = Fraction::from(1, 4).unwrap();
    assert_eq!(fraction.simplify(), fraction);
}

#[test]
fn simplify_gives_reduced_terms() {
    let s = fraction(2, 8).unwrap().simplify();
    assert_eq!((s.numerator(), s.denominator()), (1, 4));
    let z = fraction(0, 6).unwrap().simplify();
    assert_eq!((z.numerator(), z.denominator()), (0, 1));
    let same = fraction(3, 7).unwrap().simplify();
    assert_eq!((same.numerator(), same.denominator()), (3, 7));
}

#[test]
fn simplify_twice_is_simplify_once() {
    let f = fraction(36, 48).unwrap();
    let once = f.simplify();
    let twice = once.simplify();
    assert!(once.is_simplified());
    assert_eq!((once.numerator(), once.denominator()), (3, 4));
    assert_eq!((twice.numerator(), twice.denominator()), (3, 4));
}

#[test]
fn equality_is_kept_under_scaling() {
    let f = fraction(3, 7).unwrap();
    for k in [1u64, 2, 5, 1000] {
        assert_eq!(f, fraction(3 * k, 7 * k).unwrap());
        assert_eq!(f, f.multiply_by_unity_fraction(k));
    }
}

#[test]
fn equality_is_an_equivalence() {
    let a = fraction(2, 6).unwrap();
    let b = fraction(1, 3).unwrap();
    let c = fraction(5, 15).unwrap();
    assert_eq!(a, a);
    assert_eq!(a, b);
    assert_eq!(b, a);
    assert_eq!(b, c);
    assert_eq!(a, c);
    assert_ne!(a, fraction(1, 2).unwrap());
}

#[test]
fn unity_fraction_keeps_terms_unsimplified() {
    let f = fraction(3, 5).unwrap().multiply_by_unity_fraction(3);
    assert_eq!((f.numerator(), f.denominator()), (9, 15));
    assert!(!f.is_simplified());
}

#[test]
fn multiply_by_multiplies_terms() {
    let p = fraction(2, 3).unwrap().multiply_by(fraction(3, 4).unwrap());
    assert_eq!((p.numerator(), p.denominator()), (6, 12));
    assert_eq!(p, fraction(1, 2).unwrap());
}

#[test]
fn add_keeps_shared_denominator() {
    let s = fraction(2, 4).unwrap().add_fraction(fraction(1, 4).unwrap());
    assert_eq!((s.numerator(), s.denominator()), (3, 4));
    let t = fraction(1, 4).unwrap().add_fraction(fraction(1, 4).unwrap());
    assert_eq!((t.numerator(), t.denominator()), (2, 4));
}

#[test]
fn add_over_common_basis() {
    let s = fraction(2, 4).unwrap().add_fraction(fraction(1, 3).unwrap());
    assert_eq!((s.numerator(), s.denominator()), (5, 6));
    let t = fraction(1, 2).unwrap().add_fraction(fraction(1, 4).unwrap());
    assert_eq!((t.numerator(), t.denominator()), (3, 4));
}

#[test]
fn text_of_simplified_fraction() {
    assert_eq!(fraction(1, 2).unwrap().to_text(), "1/2");
    assert_eq!(fraction(0, 1).unwrap().to_text(), "0/1");
    assert_eq!(fraction(120, 7).unwrap().to_text(), "120/7");
    assert_eq!(
        fraction(u64::MAX, 1).unwrap().to_text(),
        "18446744073709551615/1"
    );
}

#[test]
fn text_of_unsimplified_fraction() {
    assert_eq!(fraction(2, 4).unwrap().to_text(), "2/4 (<==> 1/2)");
    assert_eq!(fraction(10, 50).unwrap().to_text(), "10/50 (<==> 1/5)");
    assert_eq!(fraction(0, 10).unwrap().to_text(), "0/10 (<==> 0/1)");
}
