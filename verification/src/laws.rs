use vstd::prelude::*;

use crate::errors::InvalidExpression;
use crate::expression::{eval_expr_m, expr_const_m, expr_deriv_m, ExprModel};
use crate::expression_type::{
    derive_nonconst_m, eval_prod_m, eval_sum_m, input_deriv_m, product_terms_m, remove_at,
    InputModel,
};
use crate::function_type::FuncModel;
use crate::scalar::{
    add_bits, div_bits, is_zero_bits, mul_bits, neg_one_real, zero_real, Real, NEG_ONE_BITS,
    POS_ZERO_BITS,
};
use crate::trigonometric::{trig_deriv_m, TrigCall, TrigModel};

verus! {

/// The bare constant `c`: a constant node under the identity transform.
pub open spec fn constant_expr_m(c: Real) -> ExprModel {
    ExprModel { func: FuncModel::Identity, input: InputModel::Const(c) }
}

/// The sum `a + b`: a two-child sum node under the identity transform.
pub open spec fn sum_expr_m(a: ExprModel, b: ExprModel) -> ExprModel {
    ExprModel { func: FuncModel::Identity, input: InputModel::Sum(seq![a, b]) }
}

/// The product `a * b`: a two-child product node under the identity
/// transform.
pub open spec fn product_expr_m(a: ExprModel, b: ExprModel) -> ExprModel {
    ExprModel { func: FuncModel::Identity, input: InputModel::Product(seq![a, b]) }
}

/// The quotient `a / b`: a quotient node under the identity transform.
pub open spec fn quotient_expr_m(a: ExprModel, b: ExprModel) -> ExprModel {
    ExprModel { func: FuncModel::Identity, input: InputModel::Quotient(Box::new(a), Box::new(b)) }
}

/// The derivative of a bare constant is the constant `0`, and it evaluates
/// to `0.0` at every point, whatever the trigonometric oracle.
pub proof fn lemma_constant_derivative(c: Real, x: u64, g: spec_fn(TrigCall, u64) -> u64)
    ensures
        expr_deriv_m(constant_expr_m(c)) == Ok::<ExprModel, InvalidExpression>(
            constant_expr_m(zero_real()),
        ),
        eval_expr_m(constant_expr_m(zero_real()), x, g) == Ok::<u64, InvalidExpression>(
            POS_ZERO_BITS,
        ),
{
}

/// The sum rule. For non-constant `a` and `b`, the derivative of `a + b` is
/// the sum of the derivatives of `a` and `b`; wherever both derivatives
/// exist and evaluate, the derivative of `a + b` evaluates to the
/// floating-point sum of their values, whatever the trigonometric oracle.
pub proof fn lemma_sum_rule(a: ExprModel, b: ExprModel, x: u64, g: spec_fn(TrigCall, u64) -> u64)
    requires
        !expr_const_m(a),
        !expr_const_m(b),
        expr_deriv_m(a) is Ok,
        expr_deriv_m(b) is Ok,
        eval_expr_m(expr_deriv_m(a)->Ok_0, x, g) is Ok,
        eval_expr_m(expr_deriv_m(b)->Ok_0, x, g) is Ok,
    ensures
        expr_deriv_m(sum_expr_m(a, b)) == Ok::<ExprModel, InvalidExpression>(
            ExprModel {
                func: FuncModel::Identity,
                input: InputModel::Sum(seq![expr_deriv_m(a)->Ok_0, expr_deriv_m(b)->Ok_0]),
            },
        ),
        eval_expr_m(expr_deriv_m(sum_expr_m(a, b))->Ok_0, x, g) == Ok::<u64, InvalidExpression>(
            add_bits(
                eval_expr_m(expr_deriv_m(a)->Ok_0, x, g)->Ok_0,
                eval_expr_m(expr_deriv_m(b)->Ok_0, x, g)->Ok_0,
            ),
        ),
{
    let s = seq![a, b];
    let da = expr_deriv_m(a)->Ok_0;
    let db = expr_deriv_m(b)->Ok_0;
    assert(derive_nonconst_m(s, 0) == Ok::<Seq<ExprModel>, InvalidExpression>(Seq::empty()));
    assert(derive_nonconst_m(s, 1) == Ok::<Seq<ExprModel>, InvalidExpression>(
        Seq::empty().push(da),
    ));
    assert(derive_nonconst_m(s, 2) == Ok::<Seq<ExprModel>, InvalidExpression>(
        Seq::empty().push(da).push(db),
    ));
    assert(Seq::empty().push(da).push(db) =~= seq![da, db]);
    let ds = seq![da, db];
    assert(ds.drop_last() =~= seq![da]);
    assert(eval_sum_m(seq![da], x, g) == Ok::<u64, InvalidExpression>(
        eval_expr_m(da, x, g)->Ok_0,
    ));
    assert(eval_sum_m(ds, x, g) == Ok::<u64, InvalidExpression>(
        add_bits(eval_expr_m(da, x, g)->Ok_0, eval_expr_m(db, x, g)->Ok_0),
    ));
}

/// The generalized product rule, for two factors. For non-constant `a` and
/// `b`, the derivative of `a * b` is the sum of one term per factor: the
/// remaining factor times the differentiated factor's derivative, the
/// derivative appended last. Wherever the factors and both derivatives
/// evaluate, the derivative of `a * b` evaluates to `b·a' + a·b'` in
/// floating-point arithmetic, with each product multiplied in that order,
/// whatever the trigonometric oracle.
pub proof fn lemma_product_rule(
    a: ExprModel,
    b: ExprModel,
    x: u64,
    g: spec_fn(TrigCall, u64) -> u64,
)
    requires
        !expr_const_m(a),
        !expr_const_m(b),
        expr_deriv_m(a) is Ok,
        expr_deriv_m(b) is Ok,
        eval_expr_m(a, x, g) is Ok,
        eval_expr_m(b, x, g) is Ok,
        eval_expr_m(expr_deriv_m(a)->Ok_0, x, g) is Ok,
        eval_expr_m(expr_deriv_m(b)->Ok_0, x, g) is Ok,
    ensures
        expr_deriv_m(product_expr_m(a, b)) is Ok,
        eval_expr_m(expr_deriv_m(product_expr_m(a, b))->Ok_0, x, g) == Ok::<
            u64,
            InvalidExpression,
        >(
            add_bits(
                mul_bits(
                    eval_expr_m(b, x, g)->Ok_0,
                    eval_expr_m(expr_deriv_m(a)->Ok_0, x, g)->Ok_0,
                ),
                mul_bits(
                    eval_expr_m(a, x, g)->Ok_0,
                    eval_expr_m(expr_deriv_m(b)->Ok_0, x, g)->Ok_0,
                ),
            ),
        ),
{
    let s = seq![a, b];
    let da = expr_deriv_m(a)->Ok_0;
    let db = expr_deriv_m(b)->Ok_0;
    assert(remove_at(s, 0) =~= seq![b]);
    assert(remove_at(s, 1) =~= seq![a]);
    let t0 = ExprModel {
        func: FuncModel::Identity,
        input: InputModel::Product(remove_at(s, 0).push(da)),
    };
    let t1 = ExprModel {
        func: FuncModel::Identity,
        input: InputModel::Product(remove_at(s, 1).push(db)),
    };
    assert(product_terms_m(s, 0) == Ok::<Seq<ExprModel>, InvalidExpression>(Seq::empty()));
    assert(product_terms_m(s, 1) == Ok::<Seq<ExprModel>, InvalidExpression>(
        Seq::empty().push(t0),
    ));
    assert(product_terms_m(s, 2) == Ok::<Seq<ExprModel>, InvalidExpression>(
        Seq::empty().push(t0).push(t1),
    ));
    assert(Seq::empty().push(t0).push(t1) =~= seq![t0, t1]);
    let va = eval_expr_m(a, x, g)->Ok_0;
    let vb = eval_expr_m(b, x, g)->Ok_0;
    let dva = eval_expr_m(da, x, g)->Ok_0;
    let dvb = eval_expr_m(db, x, g)->Ok_0;
    assert(remove_at(s, 0).push(da) =~= seq![b, da]);
    assert(remove_at(s, 1).push(db) =~= seq![a, db]);
    assert(seq![b, da].drop_last() =~= seq![b]);
    assert(seq![a, db].drop_last() =~= seq![a]);
    assert(eval_prod_m(seq![b], x, g) == Ok::<u64, InvalidExpression>(vb));
    assert(eval_prod_m(seq![b, da], x, g) == Ok::<u64, InvalidExpression>(mul_bits(vb, dva)));
    assert(eval_prod_m(seq![a], x, g) == Ok::<u64, InvalidExpression>(va));
    assert(eval_prod_m(seq![a, db], x, g) == Ok::<u64, InvalidExpression>(mul_bits(va, dvb)));
    assert(eval_expr_m(t0, x, g) == Ok::<u64, InvalidExpression>(mul_bits(vb, dva)));
    assert(eval_expr_m(t1, x, g) == Ok::<u64, InvalidExpression>(mul_bits(va, dvb)));
    let ts = seq![t0, t1];
    assert(ts.drop_last() =~= seq![t0]);
    assert(eval_sum_m(seq![t0], x, g) == Ok::<u64, InvalidExpression>(mul_bits(vb, dva)));
    assert(eval_sum_m(ts, x, g) == Ok::<u64, InvalidExpression>(
        add_bits(mul_bits(vb, dva), mul_bits(va, dvb)),
    ));
}

/// The quotient rule. The derivative of `a / b` is
/// `(a'·b + b'·a·(-1)) / (b·b)`, built explicitly as a sum of two product
/// terms over the square of the denominator. Wherever the operands and both
/// derivatives evaluate, and the denominator's square is not a
/// floating-point zero, the derivative of `a / b` evaluates to exactly that
/// quotient in floating-point arithmetic, whatever the trigonometric oracle.
pub proof fn lemma_quotient_rule(
    a: ExprModel,
    b: ExprModel,
    x: u64,
    g: spec_fn(TrigCall, u64) -> u64,
)
    requires
        expr_deriv_m(a) is Ok,
        expr_deriv_m(b) is Ok,
        eval_expr_m(a, x, g) is Ok,
        eval_expr_m(b, x, g) is Ok,
        eval_expr_m(expr_deriv_m(a)->Ok_0, x, g) is Ok,
        eval_expr_m(expr_deriv_m(b)->Ok_0, x, g) is Ok,
        !is_zero_bits(mul_bits(eval_expr_m(b, x, g)->Ok_0, eval_expr_m(b, x, g)->Ok_0)),
    ensures
        expr_deriv_m(quotient_expr_m(a, b)) is Ok,
        eval_expr_m(expr_deriv_m(quotient_expr_m(a, b))->Ok_0, x, g) == Ok::<
            u64,
            InvalidExpression,
        >(
            div_bits(
                add_bits(
                    mul_bits(
                        eval_expr_m(expr_deriv_m(a)->Ok_0, x, g)->Ok_0,
                        eval_expr_m(b, x, g)->Ok_0,
                    ),
                    mul_bits(
                        mul_bits(
                            eval_expr_m(expr_deriv_m(b)->Ok_0, x, g)->Ok_0,
                            eval_expr_m(a, x, g)->Ok_0,
                        ),
                        NEG_ONE_BITS,
                    ),
                ),
                mul_bits(eval_expr_m(b, x, g)->Ok_0, eval_expr_m(b, x, g)->Ok_0),
            ),
        ),
{
    let da = expr_deriv_m(a)->Ok_0;
    let db = expr_deriv_m(b)->Ok_0;
    let va = eval_expr_m(a, x, g)->Ok_0;
    let vb = eval_expr_m(b, x, g)->Ok_0;
    let dva = eval_expr_m(da, x, g)->Ok_0;
    let dvb = eval_expr_m(db, x, g)->Ok_0;
    let neg_one = ExprModel { func: FuncModel::Identity, input: InputModel::Const(neg_one_real()) };
    let t1 = ExprModel { func: FuncModel::Identity, input: InputModel::Product(seq![da, b]) };
    let t2 = ExprModel {
        func: FuncModel::Identity,
        input: InputModel::Product(seq![db, a, neg_one]),
    };
    assert(seq![da, b].drop_last() =~= seq![da]);
    assert(eval_prod_m(seq![da], x, g) == Ok::<u64, InvalidExpression>(dva));
    assert(eval_prod_m(seq![da, b], x, g) == Ok::<u64, InvalidExpression>(mul_bits(dva, vb)));
    assert(eval_expr_m(neg_one, x, g) == Ok::<u64, InvalidExpression>(NEG_ONE_BITS));
    assert(seq![db, a, neg_one].drop_last() =~= seq![db, a]);
    assert(seq![db, a].drop_last() =~= seq![db]);
    assert(eval_prod_m(seq![db], x, g) == Ok::<u64, InvalidExpression>(dvb));
    assert(eval_prod_m(seq![db, a], x, g) == Ok::<u64, InvalidExpression>(mul_bits(dvb, va)));
    assert(eval_prod_m(seq![db, a, neg_one], x, g) == Ok::<u64, InvalidExpression>(
        mul_bits(mul_bits(dvb, va), NEG_ONE_BITS),
    ));
    assert(eval_expr_m(t1, x, g) == Ok::<u64, InvalidExpression>(mul_bits(dva, vb)));
    assert(eval_expr_m(t2, x, g) == Ok::<u64, InvalidExpression>(
        mul_bits(mul_bits(dvb, va), NEG_ONE_BITS),
    ));
    let upper = add_bits(mul_bits(dva, vb), mul_bits(mul_bits(dvb, va), NEG_ONE_BITS));
    let num = ExprModel { func: FuncModel::Identity, input: InputModel::Sum(seq![t1, t2]) };
    assert(seq![t1, t2].drop_last() =~= seq![t1]);
    assert(eval_sum_m(seq![t1], x, g) == Ok::<u64, InvalidExpression>(mul_bits(dva, vb)));
    assert(eval_sum_m(seq![t1, t2], x, g) == Ok::<u64, InvalidExpression>(upper));
    assert(eval_expr_m(num, x, g) == Ok::<u64, InvalidExpression>(upper));
    let den = ExprModel { func: FuncModel::Identity, input: InputModel::Product(seq![b, b]) };
    assert(seq![b, b].drop_last() =~= seq![b]);
    assert(eval_prod_m(seq![b], x, g) == Ok::<u64, InvalidExpression>(vb));
    assert(eval_prod_m(seq![b, b], x, g) == Ok::<u64, InvalidExpression>(mul_bits(vb, vb)));
    assert(eval_expr_m(den, x, g) == Ok::<u64, InvalidExpression>(mul_bits(vb, vb)));
}

/// The trigonometric derivative table, held symbolically: the derivative of
/// each base function is exactly the tabulated shape, and negation
/// differentiates inside the sign flip.
pub proof fn lemma_trig_derivative_table()
    ensures
        trig_deriv_m(TrigModel::Sin) == Ok::<TrigModel, InvalidExpression>(TrigModel::Cos),
        trig_deriv_m(TrigModel::Cos) == Ok::<TrigModel, InvalidExpression>(
            TrigModel::Negated(Box::new(TrigModel::Sin)),
        ),
        trig_deriv_m(TrigModel::Tan) == Ok::<TrigModel, InvalidExpression>(
            TrigModel::Product(seq![TrigModel::Sec, TrigModel::Sec]),
        ),
        trig_deriv_m(TrigModel::Cot) == Ok::<TrigModel, InvalidExpression>(
            TrigModel::Negated(Box::new(TrigModel::Product(seq![TrigModel::Csc, TrigModel::Csc]))),
        ),
        trig_deriv_m(TrigModel::Sec) == Ok::<TrigModel, InvalidExpression>(
            TrigModel::Product(seq![TrigModel::Sec, TrigModel::Tan]),
        ),
        trig_deriv_m(TrigModel::Csc) == Ok::<TrigModel, InvalidExpression>(
            TrigModel::Negated(Box::new(TrigModel::Product(seq![TrigModel::Csc, TrigModel::Cot]))),
        ),
        forall|t: TrigModel| #[trigger] trig_deriv_m(TrigModel::Negated(Box::new(t)))
            == (match trig_deriv_m(t) {
            Ok(d) => Ok::<TrigModel, InvalidExpression>(TrigModel::Negated(Box::new(d))),
            Err(e) => Err(e),
        }),
{
}

} // verus!
