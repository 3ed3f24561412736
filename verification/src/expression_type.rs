use vstd::prelude::*;
use vstd::string::StringExecFns;

use crate::errors::InvalidExpression;
use crate::expression::{
    eval_expr_m, expr_const_m, expr_deriv_m, render_expr_m, ExprModel, Expression,
};
use crate::function_type::{FuncModel, FunctionType};
use crate::polynomial::{shift_coeffs, Polynomial};
use crate::scalar::{
    add_bits, div_bits, is_zero_bits, lift_real, mul_bits, neg_one_real, real_add, real_decimal,
    real_div, real_mul, zero_real, Real,
};
use crate::trigonometric::{trig_consistent, TrigCall};

verus! {

/// The inner structure of an expression node: a constant, a polynomial, a
/// sum of children, a product of children, or a quotient of two children.
#[derive(Debug, PartialEq)]
pub enum ExpressionType {
    Expressions(Vec<Expression>),
    Constant(Real),
    Polynomial(Polynomial),
    MultipliedExpressions(Vec<Expression>),
    DividedExpressions(Box<Expression>, Box<Expression>),
}

/// The mathematical shape of an inner structure: the view of
/// [`ExpressionType`] that contracts speak about.
pub enum InputModel {
    Sum(Seq<ExprModel>),
    Const(Real),
    Poly(Seq<Real>),
    Product(Seq<ExprModel>),
    Quotient(Box<ExprModel>, Box<ExprModel>),
}

impl ExpressionType {
    /// The mathematical shape of this structure.
    pub open spec fn model(self) -> InputModel
        decreases self, 0int,
    {
        match self {
            ExpressionType::Expressions(vs) => InputModel::Sum(expr_models(vs@)),
            ExpressionType::Constant(c) => InputModel::Const(c),
            ExpressionType::Polynomial(p) => InputModel::Poly(p.coeffs()),
            ExpressionType::MultipliedExpressions(vs) => InputModel::Product(expr_models(vs@)),
            ExpressionType::DividedExpressions(n, d) => InputModel::Quotient(
                Box::new((*n).model()),
                Box::new((*d).model()),
            ),
        }
    }
}

/// The shapes of a sequence of expressions, in order.
pub open spec fn expr_models(s: Seq<Expression>) -> Seq<ExprModel>
    decreases s, 0int,
{
    if s.len() == 0 {
        Seq::empty()
    } else {
        seq![s[0].model()] + expr_models(s.drop_first())
    }
}

/// The shapes of a sequence of expressions, taken pointwise.
pub proof fn lemma_expr_models_index(s: Seq<Expression>)
    ensures
        expr_models(s).len() == s.len(),
        forall|i: int| 0 <= i < s.len() ==> expr_models(s)[i] == s[i].model(),
    decreases s,
{
    if s.len() > 0 {
        lemma_expr_models_index(s.drop_first());
    }
}

/// The value of an inner structure at `x`, relative to the trigonometric
/// oracle `g`: a constant is itself; a polynomial is its value; a sum or
/// product is the left-to-right sum or product of its children's values,
/// failing on an empty child list; a quotient divides the numerator's value
/// by the denominator's, failing fast when the denominator's value is a
/// floating-point zero.
pub open spec fn eval_input_m(im: InputModel, x: u64, g: spec_fn(TrigCall, u64) -> u64) -> Result<
    u64,
    InvalidExpression,
>
    decreases im, 0int,
{
    match im {
        InputModel::Const(c) => Ok(c.bits),
        InputModel::Poly(c) => Ok(crate::polynomial::poly_eval_bits(c, x)),
        InputModel::Sum(s) => eval_sum_m(s, x, g),
        InputModel::Product(s) => eval_prod_m(s, x, g),
        InputModel::Quotient(n, d) => match eval_expr_m(*n, x, g) {
            Ok(nv) => match eval_expr_m(*d, x, g) {
                Ok(dv) => {
                    if is_zero_bits(dv) {
                        Err(InvalidExpression::DivisionByZero)
                    } else {
                        Ok(div_bits(nv, dv))
                    }
                },
                Err(e) => Err(e),
            },
            Err(e) => Err(e),
        },
    }
}

/// The left-to-right sum of the children's values; an empty child list
/// fails with `EmptyOperandList`.
pub open spec fn eval_sum_m(s: Seq<ExprModel>, x: u64, g: spec_fn(TrigCall, u64) -> u64) -> Result<
    u64,
    InvalidExpression,
>
    decreases s, 1int,
{
    if s.len() == 0 {
        Err(InvalidExpression::EmptyOperandList)
    } else if s.len() == 1 {
        eval_expr_m(s[0], x, g)
    } else {
        match eval_sum_m(s.drop_last(), x, g) {
            Ok(acc) => match eval_expr_m(s.last(), x, g) {
                Ok(v) => Ok(add_bits(acc, v)),
                Err(e) => Err(e),
            },
            Err(e) => Err(e),
        }
    }
}

/// The left-to-right product of the children's values; an empty child list
/// fails with `EmptyOperandList`.
pub open spec fn eval_prod_m(s: Seq<ExprModel>, x: u64, g: spec_fn(TrigCall, u64) -> u64) -> Result<
    u64,
    InvalidExpression,
>
    decreases s, 1int,
{
    if s.len() == 0 {
        Err(InvalidExpression::EmptyOperandList)
    } else if s.len() == 1 {
        eval_expr_m(s[0], x, g)
    } else {
        match eval_prod_m(s.drop_last(), x, g) {
            Ok(acc) => match eval_expr_m(s.last(), x, g) {
                Ok(v) => Ok(mul_bits(acc, v)),
                Err(e) => Err(e),
            },
            Err(e) => Err(e),
        }
    }
}

/// Once a prefix of a sum fails, the whole sum fails the same way.
pub proof fn lemma_sum_err(
    s: Seq<ExprModel>,
    x: u64,
    g: spec_fn(TrigCall, u64) -> u64,
    m: int,
    n: int,
)
    requires
        1 <= m <= n <= s.len(),
        eval_sum_m(s.subrange(0, m), x, g) is Err,
    ensures
        eval_sum_m(s.subrange(0, n), x, g) == eval_sum_m(s.subrange(0, m), x, g),
    decreases n - m,
{
    if m < n {
        lemma_sum_err(s, x, g, m, n - 1);
        assert(s.subrange(0, n).drop_last() =~= s.subrange(0, n - 1));
    }
}

/// Once a prefix of a product fails, the whole product fails the same way.
pub proof fn lemma_prod_err(
    s: Seq<ExprModel>,
    x: u64,
    g: spec_fn(TrigCall, u64) -> u64,
    m: int,
    n: int,
)
    requires
        1 <= m <= n <= s.len(),
        eval_prod_m(s.subrange(0, m), x, g) is Err,
    ensures
        eval_prod_m(s.subrange(0, n), x, g) == eval_prod_m(s.subrange(0, m), x, g),
    decreases n - m,
{
    if m < n {
        lemma_prod_err(s, x, g, m, n - 1);
        assert(s.subrange(0, n).drop_last() =~= s.subrange(0, n - 1));
    }
}

/// Whether every expression of the sequence is constant.
pub open spec fn all_const_m(s: Seq<ExprModel>) -> bool
    decreases s, 1int,
{
    forall|i: int| 0 <= i < s.len() ==> expr_const_m(s[i])
}

/// Whether an inner structure is constant: a constant always; a polynomial
/// exactly when it has a single coefficient (degree zero); a sum or product
/// exactly when every child is constant; a quotient exactly when both
/// operands are.
pub open spec fn input_const_m(im: InputModel) -> bool
    decreases im, 0int,
{
    match im {
        InputModel::Const(_) => true,
        InputModel::Poly(c) => c.len() == 1,
        InputModel::Sum(s) => all_const_m(s),
        InputModel::Product(s) => all_const_m(s),
        InputModel::Quotient(n, d) => expr_const_m(*n) && expr_const_m(*d),
    }
}

/// The sequence without the element at index `i`.
pub open spec fn remove_at(s: Seq<ExprModel>, i: int) -> Seq<ExprModel> {
    s.subrange(0, i) + s.subrange(i + 1, s.len() as int)
}

/// The derivatives of the non-constant expressions among the first `n`, in
/// order; constant expressions contribute nothing. Fails with the error of
/// the leftmost non-constant expression whose derivative fails.
pub open spec fn derive_nonconst_m(s: Seq<ExprModel>, n: int) -> Result<
    Seq<ExprModel>,
    InvalidExpression,
>
    decreases s, n,
{
    if n <= 0 || n > s.len() {
        Ok(Seq::empty())
    } else {
        match derive_nonconst_m(s, n - 1) {
            Ok(ds) => {
                if expr_const_m(s[n - 1]) {
                    Ok(ds)
                } else {
                    match expr_deriv_m(s[n - 1]) {
                        Ok(d) => Ok(ds.push(d)),
                        Err(e) => Err(e),
                    }
                }
            },
            Err(e) => Err(e),
        }
    }
}

/// The product-rule terms for the non-constant factors among the first `n`:
/// for each non-constant factor, the product of all the other factors, in
/// order, with the factor's derivative appended last. Fails with the error
/// of the leftmost non-constant factor whose derivative fails.
pub open spec fn product_terms_m(s: Seq<ExprModel>, n: int) -> Result<
    Seq<ExprModel>,
    InvalidExpression,
>
    decreases s, n,
{
    if n <= 0 || n > s.len() {
        Ok(Seq::empty())
    } else {
        match product_terms_m(s, n - 1) {
            Ok(ts) => {
                if expr_const_m(s[n - 1]) {
                    Ok(ts)
                } else {
                    match expr_deriv_m(s[n - 1]) {
                        Ok(d) => Ok(
                            ts.push(
                                ExprModel {
                                    func: FuncModel::Identity,
                                    input: InputModel::Product(remove_at(s, n - 1).push(d)),
                                },
                            ),
                        ),
                        Err(e) => Err(e),
                    }
                }
            },
            Err(e) => Err(e),
        }
    }
}

/// Once a prefix of the non-constant derivatives fails, the whole fails the
/// same way.
pub proof fn lemma_nonconst_err(s: Seq<ExprModel>, m: int, n: int)
    requires
        0 <= m <= n <= s.len(),
        derive_nonconst_m(s, m) is Err,
    ensures
        derive_nonconst_m(s, n) == derive_nonconst_m(s, m),
    decreases n - m,
{
    if m < n {
        lemma_nonconst_err(s, m, n - 1);
    }
}

/// Once a prefix of the product-rule terms fails, the whole fails the same
/// way.
pub proof fn lemma_terms_err(s: Seq<ExprModel>, m: int, n: int)
    requires
        0 <= m <= n <= s.len(),
        product_terms_m(s, m) is Err,
    ensures
        product_terms_m(s, n) == product_terms_m(s, m),
    decreases n - m,
{
    if m < n {
        lemma_terms_err(s, m, n - 1);
    }
}

/// The quotient rule, built explicitly: `(n' * d + d' * n * (-1)) / (d * d)`.
pub open spec fn quotient_rule_m(
    n: ExprModel,
    d: ExprModel,
    dn: ExprModel,
    dd: ExprModel,
) -> InputModel {
    InputModel::Quotient(
        Box::new(
            ExprModel {
                func: FuncModel::Identity,
                input: InputModel::Sum(
                    seq![
                        ExprModel {
                            func: FuncModel::Identity,
                            input: InputModel::Product(seq![dn, d]),
                        },
                        ExprModel {
                            func: FuncModel::Identity,
                            input: InputModel::Product(
                                seq![
                                    dd,
                                    n,
                                    ExprModel {
                                        func: FuncModel::Identity,
                                        input: InputModel::Const(neg_one_real()),
                                    },
                                ],
                            ),
                        },
                    ],
                ),
            },
        ),
        Box::new(
            ExprModel { func: FuncModel::Identity, input: InputModel::Product(seq![d, d]) },
        ),
    )
}

/// The symbolic derivative of an inner structure:
/// - a constant becomes the constant `0`;
/// - a polynomial becomes its coefficient shift;
/// - a sum becomes the sum of the derivatives of its non-constant children
///   (linearity), or the constant `0` when every child is constant;
/// - a product becomes the sum of the product-rule terms of its non-constant
///   factors, or the constant `0` when every factor is constant;
/// - a quotient follows the quotient rule.
///
/// An empty sum or product cannot be differentiated and fails with
/// `EmptyOperandList`.
pub open spec fn input_deriv_m(im: InputModel) -> Result<InputModel, InvalidExpression>
    decreases im, 0int,
{
    match im {
        InputModel::Const(_) => Ok(InputModel::Const(zero_real())),
        InputModel::Poly(c) => Ok(InputModel::Poly(shift_coeffs(c))),
        InputModel::Sum(s) => {
            if s.len() == 0 {
                Err(InvalidExpression::EmptyOperandList)
            } else {
                match derive_nonconst_m(s, s.len() as int) {
                    Ok(ds) => {
                        if ds.len() == 0 {
                            Ok(InputModel::Const(zero_real()))
                        } else {
                            Ok(InputModel::Sum(ds))
                        }
                    },
                    Err(e) => Err(e),
                }
            }
        },
        InputModel::Product(s) => {
            if s.len() == 0 {
                Err(InvalidExpression::EmptyOperandList)
            } else {
                match product_terms_m(s, s.len() as int) {
                    Ok(ts) => {
                        if ts.len() == 0 {
                            Ok(InputModel::Const(zero_real()))
                        } else {
                            Ok(InputModel::Sum(ts))
                        }
                    },
                    Err(e) => Err(e),
                }
            }
        },
        InputModel::Quotient(n, d) => match expr_deriv_m(*n) {
            Ok(dn) => match expr_deriv_m(*d) {
                Ok(dd) => Ok(quotient_rule_m(*n, *d, dn, dd)),
                Err(e) => Err(e),
            },
            Err(e) => Err(e),
        },
    }
}

/// The canonical rendering of an inner structure: a constant as its decimal
/// text; a polynomial in parentheses; a sum or product as its children's
/// renderings joined by `" + "` or `" * "`; a quotient as
/// `(numerator) / (denominator)`.
pub open spec fn render_input_m(im: InputModel) -> Seq<char>
    decreases im, 0int,
{
    match im {
        InputModel::Const(c) => crate::scalar::decimal_of(c.bits),
        InputModel::Poly(c) => "("@ + crate::polynomial::poly_render(c) + ")"@,
        InputModel::Sum(s) => join_renders(s, " + "@),
        InputModel::Product(s) => join_renders(s, " * "@),
        InputModel::Quotient(n, d) => "("@ + render_expr_m(*n) + ") / ("@ + render_expr_m(*d)
            + ")"@,
    }
}

/// The children's renderings joined by a separator.
pub open spec fn join_renders(s: Seq<ExprModel>, sep: Seq<char>) -> Seq<char>
    decreases s, 1int,
{
    if s.len() == 0 {
        Seq::empty()
    } else if s.len() == 1 {
        render_expr_m(s[0])
    } else {
        join_renders(s.drop_last(), sep) + sep + render_expr_m(s.last())
    }
}

/// A result over inner structures, seen as a result over their shapes.
pub open spec fn lift_input(r: Result<ExpressionType, InvalidExpression>) -> Result<
    InputModel,
    InvalidExpression,
> {
    match r {
        Ok(t) => Ok(t.model()),
        Err(e) => Err(e),
    }
}

/// Whether every expression of a vector is constant.
fn all_constant(vs: &Vec<Expression>) -> (r: bool)
    ensures
        r == all_const_m(expr_models(vs@)),
    decreases vs,
{
    proof {
        lemma_expr_models_index(vs@);
    }
    let n = vs.len();
    let mut i: usize = 0;
    while i < n
        invariant
            0 <= i <= n,
            n == vs@.len(),
            expr_models(vs@).len() == n,
            forall|j: int| 0 <= j < n ==> expr_models(vs@)[j] == vs@[j].model(),
            forall|j: int| 0 <= j < i ==> expr_const_m(#[trigger] expr_models(vs@)[j]),
        decreases n - i,
    {
        proof {
            assert(decreases_to!(vs => vs@));
            assert(decreases_to!(vs@ => vs@[i as int]));
        }
        if !vs[i].is_constant() {
            proof {
                assert(!expr_const_m(expr_models(vs@)[i as int]));
            }
            return false;
        }
        i += 1;
    }
    true
}

/// A deep copy of a vector of expressions; the shapes are preserved
/// pointwise.
pub(crate) fn clone_expr_vec(vs: &Vec<Expression>) -> (r: Vec<Expression>)
    ensures
        r@.len() == vs@.len(),
        forall|j: int| 0 <= j < vs@.len() ==> #[trigger] r@[j].model() == vs@[j].model(),
    decreases vs, 1int,
{
    let n = vs.len();
    let mut out: Vec<Expression> = Vec::new();
    let mut i: usize = 0;
    while i < n
        invariant
            0 <= i <= n,
            n == vs@.len(),
            out@.len() == i,
            forall|j: int| 0 <= j < i ==> #[trigger] out@[j].model() == vs@[j].model(),
        decreases n - i,
    {
        proof {
            assert(decreases_to!(vs => vs@));
            assert(decreases_to!(vs@ => vs@[i as int]));
        }
        out.push(vs[i].clone());
        i += 1;
    }
    out
}

/// The children's renderings, joined by `" * "` when `product` holds and by
/// `" + "` otherwise.
fn join_expressions(vs: &Vec<Expression>, product: bool) -> (s: String)
    ensures
        s@ == join_renders(
            expr_models(vs@),
            if product {
                " * "@
            } else {
                " + "@
            },
        ),
    decreases vs, 1int,
{
    proof {
        lemma_expr_models_index(vs@);
    }
    let ghost ms = expr_models(vs@);
    let ghost sep: Seq<char> = if product {
        " * "@
    } else {
        " + "@
    };
    let n = vs.len();
    if n == 0 {
        proof {
            assert(ms =~= Seq::<ExprModel>::empty());
        }
        return String::new();
    }
    proof {
        assert(decreases_to!(vs => vs@));
        assert(decreases_to!(vs@ => vs@[0]));
    }
    let mut out = vs[0].to_string();
    proof {
        assert(ms.subrange(0, 1) =~= seq![ms[0]]);
    }
    let mut i: usize = 1;
    while i < n
        invariant
            1 <= i <= n,
            n == vs@.len(),
            ms == expr_models(vs@),
            ms.len() == n,
            forall|j: int| 0 <= j < n ==> ms[j] == vs@[j].model(),
            sep == (if product {
                " * "@
            } else {
                " + "@
            }),
            out@ == join_renders(ms.subrange(0, i as int), sep),
        decreases n - i,
    {
        proof {
            assert(decreases_to!(vs => vs@));
            assert(decreases_to!(vs@ => vs@[i as int]));
        }
        let ghost before = out@;
        if product {
            out.append(" * ");
        } else {
            out.append(" + ");
        }
        let t = vs[i].to_string();
        out.append(t.as_str());
        proof {
            assert(ms.subrange(0, i as int + 1).drop_last() =~= ms.subrange(0, i as int));
            assert(ms.subrange(0, i as int + 1).last() == ms[i as int]);
            assert(out@ =~= before + sep + render_expr_m(ms[i as int]));
            assert(out@ =~= join_renders(ms.subrange(0, i as int + 1), sep));
        }
        i += 1;
    }
    proof {
        assert(ms.subrange(0, n as int) =~= ms);
    }
    out
}

impl ExpressionType {
    /// Whether the structure is constant; see [`input_const_m`].
    pub fn is_constant(&self) -> (r: bool)
        ensures
            r == input_const_m(self.model()),
        decreases self, 0int,
    {
        match self {
            ExpressionType::Constant(_) => true,
            ExpressionType::Polynomial(p) => p.degree() == 0,
            ExpressionType::DividedExpressions(n, d) => (&**n).is_constant() && (&**d).is_constant(),
            ExpressionType::Expressions(vs) => all_constant(vs),
            ExpressionType::MultipliedExpressions(vs) => all_constant(vs),
        }
    }

    /// Evaluates the structure at `x`; see [`eval_input_m`]. The caller
    /// supplies the three trigonometric primitives through `trig`.
    pub fn evaluate<F: Fn(TrigCall, Real) -> Real>(&self, x: Real, trig: &F) -> (r: Result<
        Real,
        InvalidExpression,
    >)
        requires
            forall|k: TrigCall, v: Real| call_requires(*trig, (k, v)),
        ensures
            forall|g: spec_fn(TrigCall, u64) -> u64|
                trig_consistent::<F>(*trig, g) ==> lift_real(r) == eval_input_m(
                    self.model(),
                    x.bits,
                    g,
                ),
        decreases self, 0int,
    {
        match self {
            ExpressionType::Constant(c) => Ok(*c),
            ExpressionType::Polynomial(p) => Ok(p.evaluate(x)),
            ExpressionType::DividedExpressions(n, d) => {
                let nv = match (&**n).evaluate(x, trig) {
                    Ok(v) => v,
                    Err(e) => {
                        return Err(e);
                    },
                };
                let dv = match (&**d).evaluate(x, trig) {
                    Ok(v) => v,
                    Err(e) => {
                        return Err(e);
                    },
                };
                if dv.is_zero() {
                    Err(InvalidExpression::DivisionByZero)
                } else {
                    Ok(real_div(nv, dv))
                }
            },
            ExpressionType::Expressions(vs) => {
                let n = vs.len();
                if n == 0 {
                    proof {
                        assert(expr_models(vs@) =~= Seq::<ExprModel>::empty());
                    }
                    return Err(InvalidExpression::EmptyOperandList);
                }
                proof {
                    lemma_expr_models_index(vs@);
                    assert(decreases_to!(*self => self->Expressions_0));
                    assert(decreases_to!(self->Expressions_0 => self->Expressions_0@));
                    assert(decreases_to!(self->Expressions_0@ => self->Expressions_0@[0]));
                }
                let ghost ms = expr_models(vs@);
                let r0 = vs[0].evaluate(x, trig);
                let mut acc = match r0 {
                    Ok(v) => v,
                    Err(e) => {
                        proof {
                            assert forall|g: spec_fn(TrigCall, u64) -> u64|
                                trig_consistent::<F>(*trig, g) implies lift_real(
                                Err::<Real, InvalidExpression>(e),
                            ) == eval_input_m(self.model(), x.bits, g) by {
                                assert(ms.subrange(0, 1) =~= seq![ms[0]]);
                                assert(eval_sum_m(ms.subrange(0, 1), x.bits, g) == Err::<
                                    u64,
                                    InvalidExpression,
                                >(e));
                                lemma_sum_err(ms, x.bits, g, 1, n as int);
                                assert(ms.subrange(0, n as int) =~= ms);
                            }
                        }
                        return Err(e);
                    },
                };
                proof {
                    assert forall|g: spec_fn(TrigCall, u64) -> u64|
                        trig_consistent::<F>(*trig, g) implies Ok::<u64, InvalidExpression>(
                        acc.bits,
                    ) == eval_sum_m(ms.subrange(0, 1), x.bits, g) by {
                        assert(ms.subrange(0, 1) =~= seq![ms[0]]);
                    }
                }
                let mut i: usize = 1;
                while i < n
                    invariant
                        1 <= i <= n,
                        n == vs@.len(),
                        *self is Expressions,
                        self->Expressions_0@ == vs@,
                        ms == expr_models(vs@),
                        ms.len() == n,
                        forall|j: int| 0 <= j < n ==> ms[j] == vs@[j].model(),
                        forall|k: TrigCall, v: Real| call_requires(*trig, (k, v)),
                        forall|g: spec_fn(TrigCall, u64) -> u64|
                            trig_consistent::<F>(*trig, g) ==> Ok::<u64, InvalidExpression>(
                                acc.bits,
                            ) == eval_sum_m(ms.subrange(0, i as int), x.bits, g),
                    decreases n - i,
                {
                    proof {
                        assert(decreases_to!(*self => self->Expressions_0));
                        assert(decreases_to!(self->Expressions_0 => self->Expressions_0@));
                        assert(decreases_to!(self->Expressions_0@ => self->Expressions_0@[
                            i as int
                        ]));
                    }
                    let ri = vs[i].evaluate(x, trig);
                    match ri {
                        Ok(v) => {
                            acc = real_add(acc, v);
                            proof {
                                assert forall|g: spec_fn(TrigCall, u64) -> u64|
                                    trig_consistent::<F>(*trig, g) implies Ok::<
                                    u64,
                                    InvalidExpression,
                                >(acc.bits) == eval_sum_m(
                                    ms.subrange(0, i as int + 1),
                                    x.bits,
                                    g,
                                ) by {
                                    assert(ms.subrange(0, i as int + 1).drop_last() =~= ms.subrange(
                                        0,
                                        i as int,
                                    ));
                                    assert(ms.subrange(0, i as int + 1).last() == ms[i as int]);
                                }
                            }
                        },
                        Err(e) => {
                            proof {
                                assert forall|g: spec_fn(TrigCall, u64) -> u64|
                                    trig_consistent::<F>(*trig, g) implies lift_real(
                                    Err::<Real, InvalidExpression>(e),
                                ) == eval_input_m(self.model(), x.bits, g) by {
                                    assert(ms.subrange(0, i as int + 1).drop_last() =~= ms.subrange(
                                        0,
                                        i as int,
                                    ));
                                    assert(ms.subrange(0, i as int + 1).last() == ms[i as int]);
                                    assert(eval_sum_m(ms.subrange(0, i as int + 1), x.bits, g)
                                        == Err::<u64, InvalidExpression>(e));
                                    lemma_sum_err(ms, x.bits, g, i as int + 1, n as int);
                                    assert(ms.subrange(0, n as int) =~= ms);
                                }
                            }
                            return Err(e);
                        },
                    }
                    i += 1;
                }
                proof {
                    assert(ms.subrange(0, n as int) =~= ms);
                }
                Ok(acc)
            },
            ExpressionType::MultipliedExpressions(vs) => {
                let n = vs.len();
                if n == 0 {
                    proof {
                        assert(expr_models(vs@) =~= Seq::<ExprModel>::empty());
                    }
                    return Err(InvalidExpression::EmptyOperandList);
                }
                proof {
                    lemma_expr_models_index(vs@);
                    assert(decreases_to!(*self => self->MultipliedExpressions_0));
                    assert(decreases_to!(self->MultipliedExpressions_0
                        => self->MultipliedExpressions_0@));
                    assert(decreases_to!(self->MultipliedExpressions_0@
                        => self->MultipliedExpressions_0@[0]));
                }
                let ghost ms = expr_models(vs@);
                let r0 = vs[0].evaluate(x, trig);
                let mut acc = match r0 {
                    Ok(v) => v,
                    Err(e) => {
                        proof {
                            assert forall|g: spec_fn(TrigCall, u64) -> u64|
                                trig_consistent::<F>(*trig, g) implies lift_real(
                                Err::<Real, InvalidExpression>(e),
                            ) == eval_input_m(self.model(), x.bits, g) by {
                                assert(ms.subrange(0, 1) =~= seq![ms[0]]);
                                assert(eval_prod_m(ms.subrange(0, 1), x.bits, g) == Err::<
                                    u64,
                                    InvalidExpression,
                                >(e));
                                lemma_prod_err(ms, x.bits, g, 1, n as int);
                                assert(ms.subrange(0, n as int) =~= ms);
                            }
                        }
                        return Err(e);
                    },
                };
                proof {
                    assert forall|g: spec_fn(TrigCall, u64) -> u64|
                        trig_consistent::<F>(*trig, g) implies Ok::<u64, InvalidExpression>(
                        acc.bits,
                    ) == eval_prod_m(ms.subrange(0, 1), x.bits, g) by {
                        assert(ms.subrange(0, 1) =~= seq![ms[0]]);
                    }
                }
                let mut i: usize = 1;
                while i < n
                    invariant
                        1 <= i <= n,
                        n == vs@.len(),
                        *self is MultipliedExpressions,
                        self->MultipliedExpressions_0@ == vs@,
                        ms == expr_models(vs@),
                        ms.len() == n,
                        forall|j: int| 0 <= j < n ==> ms[j] == vs@[j].model(),
                        forall|k: TrigCall, v: Real| call_requires(*trig, (k, v)),
                        forall|g: spec_fn(TrigCall, u64) -> u64|
                            trig_consistent::<F>(*trig, g) ==> Ok::<u64, InvalidExpression>(
                                acc.bits,
                            ) == eval_prod_m(ms.subrange(0, i as int), x.bits, g),
                    decreases n - i,
                {
                    proof {
                        assert(decreases_to!(*self => self->MultipliedExpressions_0));
                        assert(decreases_to!(self->MultipliedExpressions_0
                            => self->MultipliedExpressions_0@));
                        assert(decreases_to!(self->MultipliedExpressions_0@
                            => self->MultipliedExpressions_0@[i as int]));
                    }
                    let ri = vs[i].evaluate(x, trig);
                    match ri {
                        Ok(v) => {
                            acc = real_mul(acc, v);
                            proof {
                                assert forall|g: spec_fn(TrigCall, u64) -> u64|
                                    trig_consistent::<F>(*trig, g) implies Ok::<
                                    u64,
                                    InvalidExpression,
                                >(acc.bits) == eval_prod_m(
                                    ms.subrange(0, i as int + 1),
                                    x.bits,
                                    g,
                                ) by {
                                    assert(ms.subrange(0, i as int + 1).drop_last() =~= ms.subrange(
                                        0,
                                        i as int,
                                    ));
                                    assert(ms.subrange(0, i as int + 1).last() == ms[i as int]);
                                }
                            }
                        },
                        Err(e) => {
                            proof {
                                assert forall|g: spec_fn(TrigCall, u64) -> u64|
                                    trig_consistent::<F>(*trig, g) implies lift_real(
                                    Err::<Real, InvalidExpression>(e),
                                ) == eval_input_m(self.model(), x.bits, g) by {
                                    assert(ms.subrange(0, i as int + 1).drop_last() =~= ms.subrange(
                                        0,
                                        i as int,
                                    ));
                                    assert(ms.subrange(0, i as int + 1).last() == ms[i as int]);
                                    assert(eval_prod_m(ms.subrange(0, i as int + 1), x.bits, g)
                                        == Err::<u64, InvalidExpression>(e));
                                    lemma_prod_err(ms, x.bits, g, i as int + 1, n as int);
                                    assert(ms.subrange(0, n as int) =~= ms);
                                }
                            }
                            return Err(e);
                        },
                    }
                    i += 1;
                }
                proof {
                    assert(ms.subrange(0, n as int) =~= ms);
                }
                Ok(acc)
            },
        }
    }

    /// The symbolic derivative of the structure, as a freshly built tree;
    /// see [`input_deriv_m`] for the rules.
    pub fn derivative(&self) -> (r: Result<ExpressionType, InvalidExpression>)
        ensures
            lift_input(r) == input_deriv_m(self.model()),
        decreases self, 0int,
    {
        match self {
            ExpressionType::Constant(_) => Ok(ExpressionType::Constant(Real::zero())),
            ExpressionType::Polynomial(p) => Ok(ExpressionType::Polynomial(p.derivative())),
            ExpressionType::Expressions(vs) => {
                let n = vs.len();
                if n == 0 {
                    proof {
                        assert(expr_models(vs@) =~= Seq::<ExprModel>::empty());
                    }
                    return Err(InvalidExpression::EmptyOperandList);
                }
                proof {
                    lemma_expr_models_index(vs@);
                }
                let ghost ms = expr_models(vs@);
                let mut ds: Vec<Expression> = Vec::new();
                let mut i: usize = 0;
                while i < n
                    invariant
                        0 <= i <= n,
                        n == vs@.len(),
                        *self is Expressions,
                        self->Expressions_0@ == vs@,
                        ms == expr_models(vs@),
                        ms.len() == n,
                        forall|j: int| 0 <= j < n ==> ms[j] == vs@[j].model(),
                        derive_nonconst_m(ms, i as int) == Ok::<Seq<ExprModel>, InvalidExpression>(
                            expr_models(ds@),
                        ),
                    decreases n - i,
                {
                    proof {
                        assert(decreases_to!(*self => self->Expressions_0));
                        assert(decreases_to!(self->Expressions_0 => self->Expressions_0@));
                        assert(decreases_to!(self->Expressions_0@ => self->Expressions_0@[
                            i as int
                        ]));
                    }
                    if !vs[i].is_constant() {
                        match vs[i].derivative() {
                            Ok(d) => {
                                let ghost old_ds = ds@;
                                let ghost dm = d.model();
                                ds.push(d);
                                proof {
                                    lemma_expr_models_index(old_ds);
                                    lemma_expr_models_index(ds@);
                                    assert(expr_models(ds@) =~= expr_models(old_ds).push(dm));
                                }
                            },
                            Err(e) => {
                                proof {
                                    assert(derive_nonconst_m(ms, i as int + 1) == Err::<
                                        Seq<ExprModel>,
                                        InvalidExpression,
                                    >(e));
                                    lemma_nonconst_err(ms, i as int + 1, n as int);
                                }
                                return Err(e);
                            },
                        }
                    }
                    i += 1;
                }
                if ds.len() == 0 {
                    proof {
                        assert(expr_models(ds@) =~= Seq::<ExprModel>::empty());
                    }
                    Ok(ExpressionType::Constant(Real::zero()))
                } else {
                    proof {
                        lemma_expr_models_index(ds@);
                    }
                    Ok(ExpressionType::Expressions(ds))
                }
            },
            ExpressionType::MultipliedExpressions(vs) => {
                let n = vs.len();
                if n == 0 {
                    proof {
                        assert(expr_models(vs@) =~= Seq::<ExprModel>::empty());
                    }
                    return Err(InvalidExpression::EmptyOperandList);
                }
                proof {
                    lemma_expr_models_index(vs@);
                }
                let ghost ms = expr_models(vs@);
                let mut terms: Vec<Expression> = Vec::new();
                let mut i: usize = 0;
                while i < n
                    invariant
                        0 <= i <= n,
                        n == vs@.len(),
                        *self is MultipliedExpressions,
                        self->MultipliedExpressions_0@ == vs@,
                        ms == expr_models(vs@),
                        ms.len() == n,
                        forall|j: int| 0 <= j < n ==> ms[j] == vs@[j].model(),
                        product_terms_m(ms, i as int) == Ok::<Seq<ExprModel>, InvalidExpression>(
                            expr_models(terms@),
                        ),
                    decreases n - i,
                {
                    proof {
                        assert(decreases_to!(*self => self->MultipliedExpressions_0));
                        assert(decreases_to!(self->MultipliedExpressions_0
                            => self->MultipliedExpressions_0@));
                        assert(decreases_to!(self->MultipliedExpressions_0@
                            => self->MultipliedExpressions_0@[i as int]));
                    }
                    if !vs[i].is_constant() {
                        match vs[i].derivative() {
                            Ok(d) => {
                                let ghost dm = d.model();
                                let mut factors: Vec<Expression> = Vec::new();
                                let mut j: usize = 0;
                                while j < n
                                    invariant
                                        0 <= j <= n,
                                        0 <= i < n,
                                        n == vs@.len(),
                                        ms == expr_models(vs@),
                                        ms.len() == n,
                                        forall|q: int| 0 <= q < n ==> ms[q] == vs@[q].model(),
                                        factors@.len() == (if j <= i {
                                            j as int
                                        } else {
                                            j as int - 1
                                        }),
                                        forall|q: int|
                                            0 <= q < factors@.len() ==> #[trigger] factors@[
                                                q
                                            ].model() == remove_at(ms, i as int)[q],
                                    decreases n - j,
                                {
                                    if j != i {
                                        factors.push(vs[j].clone());
                                        proof {
                                            if j < i {
                                                assert(remove_at(ms, i as int)[j as int] == ms[
                                                    j as int
                                                ]);
                                            } else {
                                                assert(remove_at(ms, i as int)[j as int - 1] == ms[
                                                    j as int
                                                ]);
                                            }
                                        }
                                    }
                                    j += 1;
                                }
                                factors.push(d);
                                let ghost fv = factors@;
                                let term = Expression {
                                    function: FunctionType::Identity,
                                    input: ExpressionType::MultipliedExpressions(factors),
                                };
                                let ghost tm = term.model();
                                proof {
                                    lemma_expr_models_index(fv);
                                    assert(expr_models(fv) =~= remove_at(ms, i as int).push(dm));
                                    assert(tm == (ExprModel {
                                        func: FuncModel::Identity,
                                        input: InputModel::Product(
                                            remove_at(ms, i as int).push(dm),
                                        ),
                                    }));
                                }
                                let ghost old_terms = terms@;
                                terms.push(term);
                                proof {
                                    lemma_expr_models_index(old_terms);
                                    lemma_expr_models_index(terms@);
                                    assert(expr_models(terms@) =~= expr_models(old_terms).push(tm));
                                }
                            },
                            Err(e) => {
                                proof {
                                    assert(product_terms_m(ms, i as int + 1) == Err::<
                                        Seq<ExprModel>,
                                        InvalidExpression,
                                    >(e));
                                    lemma_terms_err(ms, i as int + 1, n as int);
                                }
                                return Err(e);
                            },
                        }
                    }
                    i += 1;
                }
                if terms.len() == 0 {
                    proof {
                        assert(expr_models(terms@) =~= Seq::<ExprModel>::empty());
                    }
                    Ok(ExpressionType::Constant(Real::zero()))
                } else {
                    proof {
                        lemma_expr_models_index(terms@);
                    }
                    Ok(ExpressionType::Expressions(terms))
                }
            },
            ExpressionType::DividedExpressions(nb, db) => {
                let ghost nm = (**nb).model();
                let ghost dem = (**db).model();
                let dn = match (&**nb).derivative() {
                    Ok(v) => v,
                    Err(e) => {
                        return Err(e);
                    },
                };
                let dd = match (&**db).derivative() {
                    Ok(v) => v,
                    Err(e) => {
                        return Err(e);
                    },
                };
                let ghost dnm = dn.model();
                let ghost ddm = dd.model();
                let mut f1: Vec<Expression> = Vec::new();
                f1.push(dn);
                f1.push((&**db).clone());
                let ghost f1v = f1@;
                let t1 = Expression {
                    function: FunctionType::Identity,
                    input: ExpressionType::MultipliedExpressions(f1),
                };
                let neg_one = Expression {
                    function: FunctionType::Identity,
                    input: ExpressionType::Constant(Real::neg_one()),
                };
                let ghost neg_one_m = neg_one.model();
                let mut f2: Vec<Expression> = Vec::new();
                f2.push(dd);
                f2.push((&**nb).clone());
                f2.push(neg_one);
                let ghost f2v = f2@;
                let t2 = Expression {
                    function: FunctionType::Identity,
                    input: ExpressionType::MultipliedExpressions(f2),
                };
                let ghost t1m = t1.model();
                let ghost t2m = t2.model();
                let mut sv: Vec<Expression> = Vec::new();
                sv.push(t1);
                sv.push(t2);
                let ghost svv = sv@;
                let a = Expression {
                    function: FunctionType::Identity,
                    input: ExpressionType::Expressions(sv),
                };
                let mut bv: Vec<Expression> = Vec::new();
                bv.push((&**db).clone());
                bv.push((&**db).clone());
                let ghost bvv = bv@;
                let b = Expression {
                    function: FunctionType::Identity,
                    input: ExpressionType::MultipliedExpressions(bv),
                };
                let ghost am = a.model();
                let ghost bm = b.model();
                proof {
                    lemma_expr_models_index(f1v);
                    lemma_expr_models_index(f2v);
                    lemma_expr_models_index(svv);
                    lemma_expr_models_index(bvv);
                    assert(neg_one_m == (ExprModel {
                        func: FuncModel::Identity,
                        input: InputModel::Const(neg_one_real()),
                    }));
                    assert(expr_models(f1v) =~= seq![dnm, dem]);
                    assert(expr_models(f2v) =~= seq![ddm, nm, neg_one_m]);
                    assert(expr_models(svv) =~= seq![t1m, t2m]);
                    assert(expr_models(bvv) =~= seq![dem, dem]);
                    assert(t1m == (ExprModel {
                        func: FuncModel::Identity,
                        input: InputModel::Product(seq![dnm, dem]),
                    }));
                    assert(t2m == (ExprModel {
                        func: FuncModel::Identity,
                        input: InputModel::Product(seq![ddm, nm, neg_one_m]),
                    }));
                    assert(am == (ExprModel {
                        func: FuncModel::Identity,
                        input: InputModel::Sum(seq![t1m, t2m]),
                    }));
                    assert(bm == (ExprModel {
                        func: FuncModel::Identity,
                        input: InputModel::Product(seq![dem, dem]),
                    }));
                    assert(quotient_rule_m(nm, dem, dnm, ddm) == InputModel::Quotient(
                        Box::new(am),
                        Box::new(bm),
                    ));
                }
                Ok(ExpressionType::DividedExpressions(Box::new(a), Box::new(b)))
            },
        }
    }

    /// Renders the structure canonically; see [`render_input_m`].
    pub fn to_string(&self) -> (s: String)
        ensures
            s@ == render_input_m(self.model()),
        decreases self, 0int,
    {
        match self {
            ExpressionType::Constant(c) => real_decimal(*c),
            ExpressionType::Polynomial(p) => {
                let mut s = "(".to_owned();
                let inner = p.to_string();
                s.append(inner.as_str());
                s.append(")");
                proof {
                    assert(s@ =~= "("@ + crate::polynomial::poly_render(p.coeffs()) + ")"@);
                }
                s
            },
            ExpressionType::DividedExpressions(nb, db) => {
                let mut s = "(".to_owned();
                let ns = (&**nb).to_string();
                s.append(ns.as_str());
                s.append(") / (");
                let dsx = (&**db).to_string();
                s.append(dsx.as_str());
                s.append(")");
                proof {
                    assert(s@ =~= "("@ + render_expr_m((**nb).model()) + ") / ("@ + render_expr_m(
                        (**db).model(),
                    ) + ")"@);
                }
                s
            },
            ExpressionType::Expressions(vs) => {
                proof {
                    assert(decreases_to!(*self => self->Expressions_0));
                }
                join_expressions(vs, false)
            },
            ExpressionType::MultipliedExpressions(vs) => {
                proof {
                    assert(decreases_to!(*self => self->MultipliedExpressions_0));
                }
                join_expressions(vs, true)
            },
        }
    }
}

impl Clone for ExpressionType {
    /// Deep copy; the mathematical shape is preserved exactly.
    fn clone(&self) -> (r: Self)
        ensures
            r.model() == self.model(),
        decreases self, 0int,
    {
        match self {
            ExpressionType::Constant(c) => ExpressionType::Constant(*c),
            ExpressionType::Polynomial(p) => ExpressionType::Polynomial(p.clone()),
            ExpressionType::DividedExpressions(nb, db) => ExpressionType::DividedExpressions(
                Box::new((&**nb).clone()),
                Box::new((&**db).clone()),
            ),
            ExpressionType::Expressions(vs) => {
                proof {
                    assert(decreases_to!(*self => self->Expressions_0));
                }
                let c = clone_expr_vec(vs);
                proof {
                    lemma_expr_models_index(c@);
                    lemma_expr_models_index(vs@);
                    assert(expr_models(c@) =~= expr_models(vs@));
                }
                ExpressionType::Expressions(c)
            },
            ExpressionType::MultipliedExpressions(vs) => {
                proof {
                    assert(decreases_to!(*self => self->MultipliedExpressions_0));
                }
                let c = clone_expr_vec(vs);
                proof {
                    lemma_expr_models_index(c@);
                    lemma_expr_models_index(vs@);
                    assert(expr_models(c@) =~= expr_models(vs@));
                }
                ExpressionType::MultipliedExpressions(c)
            },
        }
    }
}

} // verus!
