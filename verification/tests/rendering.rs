use symdiff::{
    Expression, ExpressionType, FunctionType, Polynomial, Real, TrigonometricFunction,
};
use symdiff::TrigonometricFunction::{Cosecant, Cosine, Cotangent, Secant, Sine, Tangent};

fn r(x: f64) -> Real {
    Real::from_bits(x.to_bits())
}

fn poly(cs: &[f64]) -> Polynomial {
    let v: Vec<Real> = cs.iter().map(|c| r(*c)).collect();
    Polynomial::new(v, cs.len() - 1).unwrap()
}

fn ident(input: ExpressionType) -> Expression {
    Expression { function: FunctionType::Identity, input }
}

#[test]
fn polynomial_render_skips_zero_coefficients() {
    assert_eq!(poly(&[2.5, 0.0, 0.0, 1.0]).to_string(), "2.5 + 1x^(3)");
}

#[test]
fn polynomial_render_uses_power_indexing() {
    assert_eq!(poly(&[1.5, 2.0, 3.25]).to_string(), "1.5 + 2x + 3.25x^(2)");
}

#[test]
fn polynomial_render_of_all_zero_is_empty() {
    assert_eq!(poly(&[0.0, 0.0]).to_string(), "");
}

#[test]
fn polynomial_render_negative_and_double_digit_power() {
    let mut cs = vec![0.0; 11];
    cs[10] = -1.5;
    assert_eq!(poly(&cs).to_string(), "-1.5x^(10)");
}

#[test]
fn trig_render_base_symbols() {
    assert_eq!(Sine.to_string(), "sin");
    assert_eq!(Cosine.to_string(), "cos");
    assert_eq!(Tangent.to_string(), "tan");
    assert_eq!(Cotangent.to_string(), "cot");
    assert_eq!(Secant.to_string(), "sec");
    assert_eq!(Cosecant.to_string(), "cosec");
}

#[test]
fn trig_render_negative_prefixes_minus() {
    let t = TrigonometricFunction::Negative(Box::new(TrigonometricFunction::Cosecant));
    assert_eq!(t.to_string(), "-cosec");
    let tt = TrigonometricFunction::Negative(Box::new(t));
    assert_eq!(tt.to_string(), "--cosec");
}

#[test]
fn trig_render_composite_is_empty() {
    let t = TrigonometricFunction::Composite(vec![TrigonometricFunction::Sine]);
    assert_eq!(t.to_string(), "");
}

#[test]
fn function_type_render() {
    assert_eq!(FunctionType::Identity.to_string(), "");
    assert_eq!(
        FunctionType::Trigonometric(TrigonometricFunction::Sine).to_string(),
        "sin"
    );
    assert_eq!(FunctionType::Polynomial(poly(&[1.5, 1.0])).to_string(), "1.5 + 1x");
}

#[test]
fn constant_renders_as_decimal() {
    assert_eq!(ident(ExpressionType::Constant(r(2.5))).to_string(), "2.5");
    assert_eq!(ident(ExpressionType::Constant(r(2.0))).to_string(), "2");
    assert_eq!(ident(ExpressionType::Constant(r(-0.25))).to_string(), "-0.25");
}

#[test]
fn polynomial_node_renders_in_parentheses() {
    let e = ident(ExpressionType::Polynomial(poly(&[0.0, 1.0])));
    assert_eq!(e.to_string(), "(1x)");
}

#[test]
fn wrapped_expression_renders_function_around_input() {
    let e = Expression {
        function: FunctionType::Trigonometric(TrigonometricFunction::Sine),
        input: ExpressionType::Polynomial(poly(&[0.0, 1.0])),
    };
    assert_eq!(e.to_string(), "sin((1x))");
}

#[test]
fn sum_renders_with_plus_separators() {
    let e = ident(ExpressionType::Expressions(vec![
        ident(ExpressionType::Constant(r(1.5))),
        ident(ExpressionType::Constant(r(2.0))),
        ident(ExpressionType::Constant(r(3.5))),
    ]));
    assert_eq!(e.to_string(), "1.5 + 2 + 3.5");
}

#[test]
fn product_renders_with_star_separators() {
    let e = ident(ExpressionType::MultipliedExpressions(vec![
        ident(ExpressionType::Constant(r(1.5))),
        Expression {
            function: FunctionType::Trigonometric(TrigonometricFunction::Cosine),
            input: ExpressionType::Polynomial(poly(&[0.0, 2.0])),
        },
    ]));
    assert_eq!(e.to_string(), "1.5 * cos((2x))");
}

#[test]
fn quotient_renders_both_sides_in_parentheses() {
    let e = ident(ExpressionType::DividedExpressions(
        Box::new(ident(ExpressionType::Constant(r(1.5)))),
        Box::new(ident(ExpressionType::Constant(r(2.0)))),
    ));
    assert_eq!(e.to_string(), "(1.5) / (2)");
}
