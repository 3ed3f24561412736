use symdiff::{
    Expression, ExpressionType, FunctionType, InvalidExpression, Polynomial, Real, TrigCall,
    TrigonometricFunction,
};
use symdiff::TrigonometricFunction::{
    Cosecant, Cosine, Cotangent, Composite, Negative, Secant, Sine, Tangent,
};

fn r(x: f64) -> Real {
    Real::from_bits(x.to_bits())
}

fn f(x: Real) -> f64 {
    f64::from_bits(x.to_bits())
}

fn poly(cs: &[f64]) -> Polynomial {
    let v: Vec<Real> = cs.iter().map(|c| r(*c)).collect();
    Polynomial::new(v, cs.len() - 1).unwrap()
}

fn trig_driver(k: TrigCall, v: Real) -> Real {
    let x = f64::from_bits(v.to_bits());
    let y = match k {
        TrigCall::Sine => x.sin(),
        TrigCall::Cosine => x.cos(),
        TrigCall::Tangent => x.tan(),
    };
    Real::from_bits(y.to_bits())
}

fn ev(e: &Expression, x: f64) -> f64 {
    f(e.evaluate(r(x), &trig_driver).unwrap())
}

fn ident(input: ExpressionType) -> Expression {
    Expression { function: FunctionType::Identity, input }
}

fn sin_x() -> Expression {
    Expression {
        function: FunctionType::Trigonometric(TrigonometricFunction::Sine),
        input: ExpressionType::Polynomial(poly(&[0.0, 1.0])),
    }
}

fn cos_x() -> Expression {
    Expression {
        function: FunctionType::Trigonometric(TrigonometricFunction::Cosine),
        input: ExpressionType::Polynomial(poly(&[0.0, 1.0])),
    }
}

#[test]
fn constant_derivative_evaluates_to_zero() {
    let e = ident(ExpressionType::Constant(r(5.5)));
    let d = e.derivative().unwrap();
    assert_eq!(ev(&d, -3.0), 0.0);
    assert_eq!(ev(&d, 1234.5), 0.0);
}

#[test]
fn sum_rule_holds_numerically() {
    let x = 0.7;
    let a = sin_x();
    let b = cos_x();
    let sum = ident(ExpressionType::Expressions(vec![a.clone(), b.clone()]));
    let lhs = ev(&sum.derivative().unwrap(), x);
    let rhs = ev(&a.derivative().unwrap(), x) + ev(&b.derivative().unwrap(), x);
    assert_eq!(lhs, rhs);
}

#[test]
fn product_rule_holds_numerically() {
    let x = 0.7;
    let a = sin_x();
    let b = cos_x();
    let prod = ident(ExpressionType::MultipliedExpressions(vec![a.clone(), b.clone()]));
    let lhs = ev(&prod.derivative().unwrap(), x);
    let rhs = ev(&a.derivative().unwrap(), x) * ev(&b, x) + ev(&a, x) * ev(&b.derivative().unwrap(), x);
    assert_eq!(lhs, rhs);
}

#[test]
fn quotient_rule_holds_numerically() {
    let x = 0.9;
    let a = sin_x();
    let b = cos_x();
    let quot = ident(ExpressionType::DividedExpressions(
        Box::new(a.clone()),
        Box::new(b.clone()),
    ));
    let lhs = ev(&quot.derivative().unwrap(), x);
    let va = ev(&a, x);
    let vb = ev(&b, x);
    let da = ev(&a.derivative().unwrap(), x);
    let db = ev(&b.derivative().unwrap(), x);
    let rhs = (da * vb - db * va) / (vb * vb);
    assert_eq!(lhs, rhs);
}

#[test]
fn trig_derivative_table_is_symbolic() {
    assert_eq!(Sine.derivative().unwrap(), Cosine);
    assert_eq!(Cosine.derivative().unwrap(), Negative(Box::new(Sine)));
    assert_eq!(Tangent.derivative().unwrap(), Composite(vec![Secant, Secant]));
    assert_eq!(
        Cotangent.derivative().unwrap(),
        Negative(Box::new(Composite(vec![Cosecant, Cosecant])))
    );
    assert_eq!(Secant.derivative().unwrap(), Composite(vec![Secant, Tangent]));
    assert_eq!(
        Cosecant.derivative().unwrap(),
        Negative(Box::new(Composite(vec![Cosecant, Cotangent])))
    );
    assert_eq!(
        Negative(Box::new(Cosine)).derivative().unwrap(),
        Negative(Box::new(Negative(Box::new(Sine))))
    );
}

#[test]
fn composite_trig_has_no_derivative_rule() {
    let t = TrigonometricFunction::Composite(vec![
        TrigonometricFunction::Sine,
        TrigonometricFunction::Cosine,
    ]);
    assert_eq!(
        t.derivative().unwrap_err(),
        InvalidExpression::UnsupportedDerivative
    );
}

#[test]
fn composite_wrapped_expression_has_no_derivative() {
    let e = Expression {
        function: FunctionType::Trigonometric(TrigonometricFunction::Composite(vec![
            TrigonometricFunction::Sine,
            TrigonometricFunction::Cosine,
        ])),
        input: ExpressionType::Polynomial(poly(&[0.0, 1.0])),
    };
    assert_eq!(
        e.derivative().unwrap_err(),
        InvalidExpression::UnsupportedDerivative
    );
}

#[test]
fn wrapped_quotient_has_no_derivative() {
    let e = Expression {
        function: FunctionType::Trigonometric(TrigonometricFunction::Sine),
        input: ExpressionType::DividedExpressions(
            Box::new(sin_x()),
            Box::new(cos_x()),
        ),
    };
    assert_eq!(
        e.derivative().unwrap_err(),
        InvalidExpression::UnsupportedDerivative
    );
}

#[test]
fn empty_sum_has_no_derivative() {
    let e = ExpressionType::Expressions(Vec::new());
    assert_eq!(
        e.derivative().unwrap_err(),
        InvalidExpression::EmptyOperandList
    );
}

#[test]
fn empty_product_has_no_derivative() {
    let e = ExpressionType::MultipliedExpressions(Vec::new());
    assert_eq!(
        e.derivative().unwrap_err(),
        InvalidExpression::EmptyOperandList
    );
}

#[test]
fn fully_constant_sum_differentiates_to_zero() {
    let c1 = ident(ExpressionType::Constant(r(3.0)));
    let c2 = ident(ExpressionType::Constant(r(4.0)));
    let e = ident(ExpressionType::Expressions(vec![c1, c2]));
    let d = e.derivative().unwrap();
    assert_eq!(ev(&d, 9.0), 0.0);
}

#[test]
fn constant_factors_are_kept_inside_product_terms() {
    // (3 * sin(x))' == 3 * cos(x): the constant factor survives in the term
    let x = 0.6;
    let e = ident(ExpressionType::MultipliedExpressions(vec![
        ident(ExpressionType::Constant(r(3.0))),
        sin_x(),
    ]));
    let d = e.derivative().unwrap();
    assert_eq!(ev(&d, x), 3.0 * (1.0 * x.cos()));
}

#[test]
fn identity_polynomial_derivative_is_the_shift() {
    // with an identity outer transform, (p(x))' is p'(x) and nothing else
    let e = ident(ExpressionType::Polynomial(poly(&[1.0, 2.0, 3.0])));
    let d = e.derivative().unwrap();
    assert_eq!(ev(&d, 2.0), 2.0 + 6.0 * 2.0);
}

#[test]
fn chain_rule_through_outer_function() {
    // (sin(q(x)))' == q'(x) * cos(q(x)), built as that product
    let x = 1.1;
    let q = poly(&[2.5, 0.0, 2.5]);
    let e = Expression {
        function: FunctionType::Trigonometric(TrigonometricFunction::Sine),
        input: ExpressionType::Polynomial(q),
    };
    let d = e.derivative().unwrap();
    let q_at = 2.5 + 0.0 * x + 2.5 * (x * x);
    let dq_at = 0.0 + 5.0 * x;
    assert_eq!(ev(&d, x), dq_at * q_at.cos());
}

#[test]
fn scenario_second_derivative_at_four() {
    // e = Sine(x) + Cosine(q), q = 2.5x^3 + 5x^2 - 2.5;
    // e'' evaluates at 4 to -sin(4) + (q''(4)(-sin q(4)) + q'(4)^2 (-cos q(4)))
    let e = ident(ExpressionType::Expressions(vec![
        sin_x(),
        Expression {
            function: FunctionType::Trigonometric(TrigonometricFunction::Cosine),
            input: ExpressionType::Polynomial(poly(&[-2.5, 0.0, 5.0, 2.5])),
        },
    ]));
    let d2 = e.derivative().unwrap().derivative().unwrap();
    let got = ev(&d2, 4.0);
    let q4 = 237.5f64; // 2.5*64 + 5*16 - 2.5
    let dq4 = 160.0f64; // 10*4 + 7.5*16
    let ddq4 = 70.0f64; // 10 + 15*4
    let expected = 1.0 * (1.0 * (-(4.0f64.sin())))
        + ((-(q4.sin())) * ddq4 + dq4 * (dq4 * (-(q4.cos()))));
    assert_eq!(got, expected);
}

#[test]
fn derivative_matches_finite_difference() {
    // central finite difference at a generic point, within a small tolerance
    let e = ident(ExpressionType::Expressions(vec![
        sin_x(),
        Expression {
            function: FunctionType::Trigonometric(TrigonometricFunction::Cosine),
            input: ExpressionType::Polynomial(poly(&[-0.5, 0.25, 0.5])),
        },
        ident(ExpressionType::DividedExpressions(
            Box::new(ident(ExpressionType::Polynomial(poly(&[1.0, 1.0])))),
            Box::new(ident(ExpressionType::Polynomial(poly(&[3.0, 0.0, 1.0])))),
        )),
    ]));
    let x = 1.3;
    let h = 1e-6;
    let estimate = (ev(&e, x + h) - ev(&e, x - h)) / (2.0 * h);
    let exact = ev(&e.derivative().unwrap(), x);
    assert!((estimate - exact).abs() < 1e-5);
}

#[test]
fn derivative_never_mutates_its_input() {
    let e = ident(ExpressionType::MultipliedExpressions(vec![sin_x(), cos_x()]));
    let copy = e.clone();
    let _ = e.derivative().unwrap();
    assert_eq!(e, copy);
}
