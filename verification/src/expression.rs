use vstd::prelude::*;
use vstd::string::StringExecFns;

use crate::errors::InvalidExpression;
use crate::expression_type::{
    clone_expr_vec, eval_input_m, expr_models, input_const_m, input_deriv_m, lemma_expr_models_index,
    render_input_m, ExpressionType, InputModel,
};
use crate::function_type::{eval_func_m, func_deriv_m, func_render, FuncModel, FunctionType};
use crate::scalar::{lift_real, one_real, zero_real, Real};
use crate::trigonometric::{trig_consistent, TrigCall};

verus! {

/// A node of an expression tree: an outer transform applied to an inner
/// structure, denoting `function(input(x))`.
#[derive(Debug, PartialEq)]
pub struct Expression {
    pub function: FunctionType,
    pub input: ExpressionType,
}

/// The mathematical shape of an expression node: the view of [`Expression`]
/// that contracts speak about.
pub struct ExprModel {
    pub func: FuncModel,
    pub input: InputModel,
}

impl Expression {
    /// The mathematical shape of this node.
    pub open spec fn model(self) -> ExprModel
        decreases self, 1int,
    {
        ExprModel { func: self.function.model(), input: self.input.model() }
    }
}

/// The value of an expression node at `x`, relative to the trigonometric
/// oracle `g`: the inner structure's value, passed through the outer
/// transform.
pub open spec fn eval_expr_m(m: ExprModel, x: u64, g: spec_fn(TrigCall, u64) -> u64) -> Result<
    u64,
    InvalidExpression,
>
    decreases m, 1int,
{
    match eval_input_m(m.input, x, g) {
        Ok(v) => eval_func_m(m.func, v, g),
        Err(e) => Err(e),
    }
}

/// Whether an expression node is constant: whether its inner structure is.
pub open spec fn expr_const_m(m: ExprModel) -> bool
    decreases m, 1int,
{
    input_const_m(m.input)
}

/// The symbolic derivative of an expression node, by case on the inner
/// structure:
/// - a constant differentiates to the constant `0`;
/// - a polynomial under the identity differentiates to its coefficient
///   shift, and under an outer transform `F` to the chain-rule product
///   `p'(x) * F'(p(x))`;
/// - a sum or product differentiates by the rules on its inner structure;
///   an outer transform on such a node is not chained through;
/// - a quotient under the identity differentiates by the quotient rule; a
///   quotient under any other transform has no rule and is rejected as
///   `UnsupportedDerivative`.
pub open spec fn expr_deriv_m(m: ExprModel) -> Result<ExprModel, InvalidExpression>
    decreases m, 1int,
{
    match m.input {
        InputModel::Const(_) => Ok(
            ExprModel { func: FuncModel::Identity, input: InputModel::Const(zero_real()) },
        ),
        InputModel::Poly(c) => {
            if m.func is Identity {
                match input_deriv_m(m.input) {
                    Ok(di) => Ok(ExprModel { func: FuncModel::Identity, input: di }),
                    Err(e) => Err(e),
                }
            } else {
                match func_deriv_m(m.func) {
                    Ok(df) => match input_deriv_m(m.input) {
                        Ok(di) => Ok(
                            ExprModel {
                                func: FuncModel::Identity,
                                input: InputModel::Product(
                                    seq![
                                        ExprModel { func: FuncModel::Identity, input: di },
                                        ExprModel { func: df, input: m.input },
                                    ],
                                ),
                            },
                        ),
                        Err(e) => Err(e),
                    },
                    Err(e) => Err(e),
                }
            }
        },
        InputModel::Sum(_) => match input_deriv_m(m.input) {
            Ok(di) => Ok(ExprModel { func: FuncModel::Identity, input: di }),
            Err(e) => Err(e),
        },
        InputModel::Product(_) => match input_deriv_m(m.input) {
            Ok(di) => Ok(ExprModel { func: FuncModel::Identity, input: di }),
            Err(e) => Err(e),
        },
        InputModel::Quotient(_, _) => {
            if m.func is Identity {
                match input_deriv_m(m.input) {
                    Ok(di) => Ok(ExprModel { func: FuncModel::Identity, input: di }),
                    Err(e) => Err(e),
                }
            } else {
                Err(InvalidExpression::UnsupportedDerivative)
            }
        },
    }
}

/// The canonical rendering of an expression node: the inner structure alone
/// under the identity, else `function(input)`.
pub open spec fn render_expr_m(m: ExprModel) -> Seq<char>
    decreases m, 1int,
{
    if m.func is Identity {
        render_input_m(m.input)
    } else {
        func_render(m.func) + "("@ + render_input_m(m.input) + ")"@
    }
}

/// A result over expressions, seen as a result over their shapes.
pub open spec fn lift_expr(r: Result<Expression, InvalidExpression>) -> Result<
    ExprModel,
    InvalidExpression,
> {
    match r {
        Ok(e) => Ok(e.model()),
        Err(e) => Err(e),
    }
}

impl Expression {
    /// The expression `1`, the unit of multiplication: an identity transform
    /// over the constant `1.0`.
    pub fn new() -> (r: Expression)
        ensures
            r.model() == (ExprModel {
                func: FuncModel::Identity,
                input: InputModel::Const(one_real()),
            }),
    {
        Expression { function: FunctionType::Identity, input: ExpressionType::Constant(Real::one()) }
    }

    /// The product of the given expressions, under the identity transform.
    pub fn new_from(expr: &Vec<Expression>) -> (r: Expression)
        ensures
            r.model() == (ExprModel {
                func: FuncModel::Identity,
                input: InputModel::Product(expr_models(expr@)),
            }),
    {
        let copies = clone_expr_vec(expr);
        proof {
            lemma_expr_models_index(copies@);
            lemma_expr_models_index(expr@);
            assert(expr_models(copies@) =~= expr_models(expr@));
        }
        Expression {
            function: FunctionType::Identity,
            input: ExpressionType::MultipliedExpressions(copies),
        }
    }

    /// Whether the expression is constant: whether every leaf it reaches is
    /// constant.
    pub fn is_constant(&self) -> (r: bool)
        ensures
            r == expr_const_m(self.model()),
        decreases self, 1int,
    {
        self.input.is_constant()
    }

    /// Evaluates the expression at `x`: the inner structure's value, passed
    /// through the outer transform. The caller supplies the three
    /// trigonometric primitives through `trig`; for any mathematical oracle
    /// `g` that the driver refines, the result is exactly the node's value
    /// relative to `g`.
    pub fn evaluate<F: Fn(TrigCall, Real) -> Real>(&self, x: Real, trig: &F) -> (r: Result<
        Real,
        InvalidExpression,
    >)
        requires
            forall|k: TrigCall, v: Real| call_requires(*trig, (k, v)),
        ensures
            forall|g: spec_fn(TrigCall, u64) -> u64|
                trig_consistent::<F>(*trig, g) ==> lift_real(r) == eval_expr_m(
                    self.model(),
                    x.bits,
                    g,
                ),
        decreases self, 1int,
    {
        match self.input.evaluate(x, trig) {
            Ok(v) => self.function.evaluate(v, trig),
            Err(e) => Err(e),
        }
    }

    /// The symbolic derivative, as a freshly built tree; see
    /// [`expr_deriv_m`] for the rules, case by case on the inner structure.
    pub fn derivative(&self) -> (r: Result<Expression, InvalidExpression>)
        ensures
            lift_expr(r) == expr_deriv_m(self.model()),
        decreases self, 1int,
    {
        match &self.input {
            ExpressionType::Constant(_) => Ok(
                Expression {
                    function: FunctionType::Identity,
                    input: ExpressionType::Constant(Real::zero()),
                },
            ),
            ExpressionType::Polynomial(_) => {
                match &self.function {
                    FunctionType::Identity => {
                        match self.input.derivative() {
                            Ok(di) => Ok(
                                Expression { function: FunctionType::Identity, input: di },
                            ),
                            Err(e) => Err(e),
                        }
                    },
                    _ => {
                        match self.function.derivative() {
                            Ok(df) => match self.input.derivative() {
                                Ok(di) => {
                                    let d1 = Expression {
                                        function: FunctionType::Identity,
                                        input: di,
                                    };
                                    let d2 = Expression {
                                        function: df,
                                        input: self.input.clone(),
                                    };
                                    let ghost d1m = d1.model();
                                    let ghost d2m = d2.model();
                                    let mut factors: Vec<Expression> = Vec::new();
                                    factors.push(d1);
                                    factors.push(d2);
                                    proof {
                                        lemma_expr_models_index(factors@);
                                        assert(expr_models(factors@) =~= seq![d1m, d2m]);
                                    }
                                    Ok(
                                        Expression {
                                            function: FunctionType::Identity,
                                            input: ExpressionType::MultipliedExpressions(factors),
                                        },
                                    )
                                },
                                Err(e) => Err(e),
                            },
                            Err(e) => Err(e),
                        }
                    },
                }
            },
            ExpressionType::Expressions(_) => {
                match self.input.derivative() {
                    Ok(di) => Ok(Expression { function: FunctionType::Identity, input: di }),
                    Err(e) => Err(e),
                }
            },
            ExpressionType::MultipliedExpressions(_) => {
                match self.input.derivative() {
                    Ok(di) => Ok(Expression { function: FunctionType::Identity, input: di }),
                    Err(e) => Err(e),
                }
            },
            ExpressionType::DividedExpressions(_, _) => {
                match &self.function {
                    FunctionType::Identity => {
                        match self.input.derivative() {
                            Ok(di) => Ok(
                                Expression { function: FunctionType::Identity, input: di },
                            ),
                            Err(e) => Err(e),
                        }
                    },
                    _ => Err(InvalidExpression::UnsupportedDerivative),
                }
            },
        }
    }

    /// Renders the expression: the inner structure alone under the identity
    /// transform, else `function(input)`.
    pub fn to_string(&self) -> (s: String)
        ensures
            s@ == render_expr_m(self.model()),
        decreases self, 1int,
    {
        match &self.function {
            FunctionType::Identity => self.input.to_string(),
            _ => {
                let mut s = self.function.to_string();
                s.append("(");
                let inner = self.input.to_string();
                s.append(inner.as_str());
                s.append(")");
                proof {
                    assert(s@ =~= func_render(self.model().func) + "("@ + render_input_m(
                        self.model().input,
                    ) + ")"@);
                }
                s
            },
        }
    }
}

impl Clone for Expression {
    /// Deep copy; the mathematical shape is preserved exactly.
    fn clone(&self) -> (r: Self)
        ensures
            r.model() == self.model(),
        decreases self, 1int,
    {
        Expression { function: self.function.clone(), input: self.input.clone() }
    }
}

} // verus!
