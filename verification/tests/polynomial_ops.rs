use symdiff::{InvalidExpression, Polynomial, Real};

fn r(x: f64) -> Real {
    Real::from_bits(x.to_bits())
}

fn f(x: Real) -> f64 {
    f64::from_bits(x.to_bits())
}

fn poly(cs: &[f64]) -> Polynomial {
    let v: Vec<Real> = cs.iter().map(|c| r(*c)).collect();
    Polynomial::new(v, cs.len() - 1).unwrap()
}

#[test]
fn new_rejects_empty_coefficients() {
    assert_eq!(
        Polynomial::new(Vec::new(), 0).unwrap_err(),
        InvalidExpression::EmptyOperandList
    );
}

#[test]
fn new_rejects_degree_mismatch() {
    let v = vec![r(1.0), r(2.0)];
    assert_eq!(
        Polynomial::new(v, 3).unwrap_err(),
        InvalidExpression::DegreeMismatch
    );
}

#[test]
fn new_accepts_matching_degree() {
    let p = poly(&[1.0, 2.0, 3.0]);
    assert_eq!(p.degree(), 2);
    assert_eq!(p.coefficient_count(), 3);
    assert_eq!(f(p.coefficient(1)), 2.0);
}

#[test]
fn evaluate_sums_powers() {
    let p = poly(&[1.0, 2.0, 3.0]);
    assert_eq!(f(p.evaluate(r(2.0))), 1.0 + 2.0 * 2.0 + 3.0 * 4.0);
}

#[test]
fn evaluate_degree_zero() {
    let p = poly(&[7.25]);
    assert_eq!(f(p.evaluate(r(123.0))), 7.25);
}

#[test]
fn derivative_shifts_coefficients() {
    let a1 = 2.0;
    let a2 = 4.0;
    let p = poly(&[3.5, a1, a2]);
    assert_eq!(p.derivative(), poly(&[a1, 2.0 * a2]));
}

#[test]
fn derivative_of_degree_zero_is_zero() {
    let p = poly(&[7.0]);
    assert_eq!(p.derivative(), poly(&[0.0]));
}

#[test]
fn derivative_multiplies_by_power() {
    // the coefficient at power three is scaled by three, not left alone
    let p = poly(&[0.0, 0.0, 0.0, 2.0]);
    assert_eq!(p.derivative(), poly(&[0.0, 0.0, 6.0]));
}

#[test]
fn p_add_zip_pads_shorter_operand() {
    let a = poly(&[1.0, 2.0]);
    let b = poly(&[0.5, 1.0, 3.0]);
    assert_eq!(a.p_add(&b), poly(&[1.5, 3.0, 3.0]));
    assert_eq!(b.p_add(&a), poly(&[1.5, 3.0, 3.0]));
}

#[test]
fn p_sub_negates_right_tail() {
    let a = poly(&[1.0, 2.0]);
    let b = poly(&[0.5, 1.0, 3.0]);
    assert_eq!(a.p_sub(&b), poly(&[0.5, 1.0, -3.0]));
    assert_eq!(b.p_sub(&a), poly(&[-0.5, -1.0, 3.0]));
}

#[test]
fn p_mul_is_full_convolution() {
    let a = poly(&[1.0, 2.0]);
    let b = poly(&[3.0, 4.0]);
    assert_eq!(a.p_mul(&b), poly(&[3.0, 10.0, 8.0]));
}

#[test]
fn p_mul_degree_adds() {
    let a = poly(&[1.0, 1.0, 1.0]);
    let b = poly(&[1.0, 1.0]);
    let c = a.p_mul(&b);
    assert_eq!(c.degree(), 3);
    assert_eq!(c, poly(&[1.0, 2.0, 2.0, 1.0]));
}

#[test]
fn scalar_mul_scales_every_coefficient() {
    let a = poly(&[1.5, 2.0]);
    assert_eq!(a.scalar_mul(r(2.0)), poly(&[3.0, 4.0]));
}

#[test]
fn scalar_div_divides_every_coefficient() {
    let a = poly(&[3.0, 4.0]);
    assert_eq!(a.scalar_div(r(2.0)), poly(&[1.5, 2.0]));
}

#[test]
fn scalar_add_touches_constant_coefficient_only() {
    let a = poly(&[1.0, 2.0]);
    assert_eq!(a.scalar_add(r(0.5)), poly(&[1.5, 2.0]));
}

#[test]
fn scalar_sub_touches_constant_coefficient_only() {
    let a = poly(&[1.0, 2.0]);
    assert_eq!(a.scalar_sub(r(0.5)), poly(&[0.5, 2.0]));
}

#[test]
fn p_add_assign_matches_p_add() {
    let mut a = poly(&[1.0, 2.0]);
    let b = poly(&[0.5, 1.0, 3.0]);
    a.p_add_assign(&b);
    assert_eq!(a, poly(&[1.5, 3.0, 3.0]));
}

#[test]
fn p_sub_assign_matches_p_sub() {
    let mut a = poly(&[1.0, 2.0]);
    let b = poly(&[0.5, 1.0, 3.0]);
    a.p_sub_assign(&b);
    assert_eq!(a, poly(&[0.5, 1.0, -3.0]));
}

#[test]
fn p_mul_assign_matches_p_mul() {
    let mut a = poly(&[1.0, 2.0]);
    let b = poly(&[3.0, 4.0]);
    a.p_mul_assign(&b);
    assert_eq!(a, poly(&[3.0, 10.0, 8.0]));
}

#[test]
fn clone_preserves_coefficients() {
    let a = poly(&[1.0, -2.5, 3.0]);
    assert_eq!(a.clone(), a);
}

#[test]
fn real_zero_test_accepts_both_zeros() {
    assert!(r(0.0).is_zero());
    assert!(r(-0.0).is_zero());
    assert!(!r(1.0).is_zero());
    assert!(!r(f64::NAN).is_zero());
}

#[test]
fn real_constants_match_doubles() {
    assert_eq!(f(Real::zero()), 0.0);
    assert_eq!(f(Real::one()), 1.0);
    assert_eq!(f(Real::neg_one()), -1.0);
    assert_eq!(Real::from_bits(5.5f64.to_bits()).to_bits(), 5.5f64.to_bits());
}
