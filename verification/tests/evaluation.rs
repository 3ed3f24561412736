use symdiff::{
    Expression, ExpressionType, FunctionType, InvalidExpression, Polynomial, Real, TrigCall,
    TrigonometricFunction,
};

fn r(x: f64) -> Real {
    Real::from_bits(x.to_bits())
}

fn f(x: Real) -> f64 {
    f64::from_bits(x.to_bits())
}

fn poly(cs: &[f64]) -> Polynomial {
    let v: Vec<Real> = cs.iter().map(|c| r(*c)).collect();
    Polynomial::new(v, cs.len() - 1).unwrap()
}

fn trig_driver(k: TrigCall, v: Real) -> Real {
    let x = f64::from_bits(v.to_bits());
    let y = match k {
        TrigCall::Sine => x.sin(),
        TrigCall::Cosine => x.cos(),
        TrigCall::Tangent => x.tan(),
    };
    Real::from_bits(y.to_bits())
}

fn ev(e: &Expression, x: f64) -> f64 {
    f(e.evaluate(r(x), &trig_driver).unwrap())
}

fn ident(input: ExpressionType) -> Expression {
    Expression { function: FunctionType::Identity, input }
}

#[test]
fn constant_evaluates_to_itself() {
    let e = ident(ExpressionType::Constant(r(5.5)));
    assert_eq!(ev(&e, 100.0), 5.5);
}

#[test]
fn identity_polynomial_evaluates() {
    let e = ident(ExpressionType::Polynomial(poly(&[1.0, 0.0, 2.0])));
    assert_eq!(ev(&e, 3.0), 1.0 + 2.0 * 9.0);
}

#[test]
fn trig_base_functions_evaluate() {
    let x = 0.7f64;
    for (t, want) in [
        (TrigonometricFunction::Sine, x.sin()),
        (TrigonometricFunction::Cosine, x.cos()),
        (TrigonometricFunction::Tangent, x.tan()),
        (TrigonometricFunction::Cotangent, 1.0 / x.tan()),
        (TrigonometricFunction::Secant, 1.0 / x.cos()),
        (TrigonometricFunction::Cosecant, 1.0 / x.sin()),
    ] {
        assert_eq!(f(t.evaluate(r(x), &trig_driver).unwrap()), want);
    }
}

#[test]
fn negative_trig_negates() {
    let t = TrigonometricFunction::Negative(Box::new(TrigonometricFunction::Sine));
    assert_eq!(f(t.evaluate(r(0.4), &trig_driver).unwrap()), -(0.4f64.sin()));
}

#[test]
fn composite_trig_multiplies_members() {
    let t = TrigonometricFunction::Composite(vec![
        TrigonometricFunction::Sine,
        TrigonometricFunction::Cosine,
        TrigonometricFunction::Tangent,
    ]);
    let x = 0.3f64;
    assert_eq!(
        f(t.evaluate(r(x), &trig_driver).unwrap()),
        x.sin() * x.cos() * x.tan()
    );
}

#[test]
fn empty_composite_is_rejected() {
    let t = TrigonometricFunction::Composite(Vec::new());
    assert_eq!(
        t.evaluate(r(1.0), &trig_driver).unwrap_err(),
        InvalidExpression::EmptyOperandList
    );
}

#[test]
fn sum_node_adds_children() {
    let e = ident(ExpressionType::Expressions(vec![
        ident(ExpressionType::Constant(r(1.25))),
        ident(ExpressionType::Constant(r(2.5))),
        ident(ExpressionType::Constant(r(4.0))),
    ]));
    assert_eq!(ev(&e, 0.0), 1.25 + 2.5 + 4.0);
}

#[test]
fn product_node_multiplies_children() {
    let e = ident(ExpressionType::MultipliedExpressions(vec![
        ident(ExpressionType::Constant(r(1.5))),
        ident(ExpressionType::Constant(r(2.0))),
        ident(ExpressionType::Constant(r(3.0))),
    ]));
    assert_eq!(ev(&e, 0.0), 1.5 * 2.0 * 3.0);
}

#[test]
fn quotient_node_divides() {
    let e = ident(ExpressionType::DividedExpressions(
        Box::new(ident(ExpressionType::Constant(r(3.0)))),
        Box::new(ident(ExpressionType::Constant(r(4.0)))),
    ));
    assert_eq!(ev(&e, 0.0), 0.75);
}

#[test]
fn empty_sum_is_rejected() {
    let e = ExpressionType::Expressions(Vec::new());
    assert_eq!(
        e.evaluate(r(1.0), &trig_driver).unwrap_err(),
        InvalidExpression::EmptyOperandList
    );
}

#[test]
fn empty_product_is_rejected() {
    let e = ExpressionType::MultipliedExpressions(Vec::new());
    assert_eq!(
        e.evaluate(r(1.0), &trig_driver).unwrap_err(),
        InvalidExpression::EmptyOperandList
    );
}

#[test]
fn zero_denominator_fails_fast() {
    let e = ident(ExpressionType::DividedExpressions(
        Box::new(ident(ExpressionType::Constant(r(1.0)))),
        Box::new(ident(ExpressionType::Polynomial(poly(&[0.0, 1.0])))),
    ));
    assert_eq!(
        e.evaluate(r(0.0), &trig_driver).unwrap_err(),
        InvalidExpression::DivisionByZero
    );
    assert_eq!(ev(&e, 2.0), 0.5);
}

#[test]
fn outer_function_applies_to_inner_value() {
    // sin(q(x)) with q = 2.5x^2 + 2.5
    let e = Expression {
        function: FunctionType::Trigonometric(TrigonometricFunction::Sine),
        input: ExpressionType::Polynomial(poly(&[2.5, 0.0, 2.5])),
    };
    assert_eq!(ev(&e, 4.0), 42.5f64.sin());
}

#[test]
fn scenario_sine_of_half_pi_plus_cosine_of_polynomial() {
    // e = Sine(pi/2) + Cosine(2.5x^2 + 2.5); e(4) == 1 + cos(42.5)
    let e = ident(ExpressionType::Expressions(vec![
        Expression {
            function: FunctionType::Trigonometric(TrigonometricFunction::Sine),
            input: ExpressionType::Constant(r(std::f64::consts::FRAC_PI_2)),
        },
        Expression {
            function: FunctionType::Trigonometric(TrigonometricFunction::Cosine),
            input: ExpressionType::Polynomial(poly(&[2.5, 0.0, 2.5])),
        },
    ]));
    assert_eq!(ev(&e, 4.0), 1.0 + 42.5f64.cos());
}

#[test]
fn new_is_the_constant_one() {
    let e = Expression::new();
    assert_eq!(ev(&e, 17.0), 1.0);
    assert!(e.is_constant());
}

#[test]
fn new_from_builds_a_product() {
    let children = vec![
        ident(ExpressionType::Constant(r(2.0))),
        ident(ExpressionType::Polynomial(poly(&[0.0, 1.0]))),
    ];
    let e = Expression::new_from(&children);
    assert_eq!(ev(&e, 3.0), 6.0);
}

#[test]
fn is_constant_polynomial_iff_single_coefficient() {
    assert!(ExpressionType::Polynomial(poly(&[5.0])).is_constant());
    assert!(!ExpressionType::Polynomial(poly(&[5.0, 0.0])).is_constant());
    assert!(ident(ExpressionType::Polynomial(poly(&[5.0]))).is_constant());
    assert!(!ident(ExpressionType::Polynomial(poly(&[5.0, 1.0]))).is_constant());
}

#[test]
fn is_constant_follows_the_tree() {
    let c = ident(ExpressionType::Constant(r(1.0)));
    let x = ident(ExpressionType::Polynomial(poly(&[0.0, 1.0])));
    assert!(ident(ExpressionType::Expressions(vec![c.clone(), c.clone()])).is_constant());
    assert!(!ident(ExpressionType::Expressions(vec![c.clone(), x.clone()])).is_constant());
    assert!(!ident(ExpressionType::MultipliedExpressions(vec![x.clone(), c.clone()]))
        .is_constant());
    assert!(ident(ExpressionType::DividedExpressions(
        Box::new(c.clone()),
        Box::new(c.clone())
    ))
    .is_constant());
    assert!(!ident(ExpressionType::DividedExpressions(Box::new(c), Box::new(x))).is_constant());
}
