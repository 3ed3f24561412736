use symdiff::TrigonometricFunction;
use symdiff::TrigonometricFunction::{Composite, Cosine, Negative, Secant, Sine, Tangent};

#[test]
fn flatten_splices_nested_composites() {
    let t = Composite(vec![
        Sine,
        Composite(vec![Cosine, Tangent]),
        Negative(Box::new(Secant)),
    ]);
    assert_eq!(
        t.flatten_composite(),
        Composite(vec![Sine, Cosine, Tangent, Negative(Box::new(Secant))])
    );
}

#[test]
fn flatten_reaches_deep_nesting() {
    let t = Composite(vec![Composite(vec![Composite(vec![Sine]), Cosine])]);
    assert_eq!(t.flatten_composite(), Composite(vec![Sine, Cosine]));
}

#[test]
fn flatten_leaves_other_functions_alone() {
    assert_eq!(Sine.flatten_composite(), Sine);
    assert_eq!(
        Negative(Box::new(Tangent)).flatten_composite(),
        Negative(Box::new(Tangent))
    );
}

#[test]
fn flatten_keeps_an_empty_composite_empty() {
    let t = Composite(Vec::new());
    assert_eq!(t.flatten_composite(), Composite(Vec::new()));
}

#[test]
fn composite_constructor_flattens() {
    let t = TrigonometricFunction::composite(vec![
        Composite(vec![Sine, Cosine]),
        Tangent,
    ]);
    assert_eq!(t, Composite(vec![Sine, Cosine, Tangent]));
}

#[test]
fn clone_is_a_deep_copy() {
    let t = Composite(vec![Sine, Negative(Box::new(Composite(vec![Cosine])))]);
    assert_eq!(t.clone(), t);
}
