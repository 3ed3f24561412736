use vstd::prelude::*;

use crate::errors::InvalidExpression;
use crate::polynomial::{poly_eval_bits, poly_render, shift_coeffs, Polynomial};
use crate::scalar::{lift_real, Real};
use crate::trigonometric::{
    eval_trig_m, trig_consistent, trig_deriv_m, trig_render, TrigCall, TrigModel,
    TrigonometricFunction,
};

verus! {

/// The outer transform wrapping a node's numeric input: the identity, a
/// polynomial, or a trigonometric function.
#[derive(Debug, PartialEq)]
pub enum FunctionType {
    Trigonometric(TrigonometricFunction),
    Identity,
    Polynomial(Polynomial),
}

/// The mathematical shape of an outer transform: the view of
/// [`FunctionType`] that contracts speak about.
pub enum FuncModel {
    Trig(TrigModel),
    Identity,
    Poly(Seq<Real>),
}

impl FunctionType {
    /// The mathematical shape of this transform.
    pub open spec fn model(self) -> FuncModel {
        match self {
            FunctionType::Trigonometric(t) => FuncModel::Trig(t.model()),
            FunctionType::Identity => FuncModel::Identity,
            FunctionType::Polynomial(p) => FuncModel::Poly(p.coeffs()),
        }
    }
}

/// The value of an outer transform applied to `x`, relative to the
/// trigonometric oracle `g`: `x` itself for the identity, the polynomial's
/// value, or the trigonometric function's value.
pub open spec fn eval_func_m(f: FuncModel, x: u64, g: spec_fn(TrigCall, u64) -> u64) -> Result<
    u64,
    InvalidExpression,
> {
    match f {
        FuncModel::Identity => Ok(x),
        FuncModel::Poly(c) => Ok(poly_eval_bits(c, x)),
        FuncModel::Trig(t) => eval_trig_m(t, x, g),
    }
}

/// The derivative of an outer transform: the identity stays the identity,
/// a polynomial becomes its coefficient shift, and a trigonometric function
/// follows the derivative table.
pub open spec fn func_deriv_m(f: FuncModel) -> Result<FuncModel, InvalidExpression> {
    match f {
        FuncModel::Identity => Ok(FuncModel::Identity),
        FuncModel::Poly(c) => Ok(FuncModel::Poly(shift_coeffs(c))),
        FuncModel::Trig(t) => match trig_deriv_m(t) {
            Ok(d) => Ok(FuncModel::Trig(d)),
            Err(e) => Err(e),
        },
    }
}

/// The canonical rendering of an outer transform: empty for the identity,
/// else the wrapped value's own rendering.
pub open spec fn func_render(f: FuncModel) -> Seq<char> {
    match f {
        FuncModel::Identity => Seq::empty(),
        FuncModel::Poly(c) => poly_render(c),
        FuncModel::Trig(t) => trig_render(t),
    }
}

/// A result over transforms, seen as a result over their shapes.
pub open spec fn lift_func(r: Result<FunctionType, InvalidExpression>) -> Result<
    FuncModel,
    InvalidExpression,
> {
    match r {
        Ok(f) => Ok(f.model()),
        Err(e) => Err(e),
    }
}

impl FunctionType {
    /// Applies the transform to `x`: `x` unchanged for the identity, else
    /// the wrapped polynomial's or trigonometric function's value. The
    /// caller supplies the trigonometric primitives through `trig`.
    pub fn evaluate<F: Fn(TrigCall, Real) -> Real>(&self, x: Real, trig: &F) -> (r: Result<
        Real,
        InvalidExpression,
    >)
        requires
            forall|k: TrigCall, v: Real| call_requires(*trig, (k, v)),
        ensures
            forall|g: spec_fn(TrigCall, u64) -> u64|
                trig_consistent::<F>(*trig, g) ==> lift_real(r) == eval_func_m(
                    self.model(),
                    x.bits,
                    g,
                ),
    {
        match self {
            FunctionType::Identity => Ok(x),
            FunctionType::Polynomial(p) => Ok(p.evaluate(x)),
            FunctionType::Trigonometric(t) => t.evaluate(x, trig),
        }
    }

    /// The symbolic derivative of the transform: the identity stays the
    /// identity, a polynomial becomes its coefficient-shift derivative, and
    /// a trigonometric function follows the derivative table.
    pub fn derivative(&self) -> (r: Result<FunctionType, InvalidExpression>)
        ensures
            lift_func(r) == func_deriv_m(self.model()),
    {
        match self {
            FunctionType::Identity => Ok(FunctionType::Identity),
            FunctionType::Polynomial(p) => Ok(FunctionType::Polynomial(p.derivative())),
            FunctionType::Trigonometric(t) => match t.derivative() {
                Ok(d) => Ok(FunctionType::Trigonometric(d)),
                Err(e) => Err(e),
            },
        }
    }

    /// Renders the transform: the empty text for the identity, else the
    /// wrapped value's rendering.
    pub fn to_string(&self) -> (s: String)
        ensures
            s@ == func_render(self.model()),
    {
        match self {
            FunctionType::Identity => String::new(),
            FunctionType::Polynomial(p) => p.to_string(),
            FunctionType::Trigonometric(t) => t.to_string(),
        }
    }
}

impl Clone for FunctionType {
    /// Deep copy; the mathematical shape is preserved exactly.
    fn clone(&self) -> (r: Self)
        ensures
            r.model() == self.model(),
    {
        match self {
            FunctionType::Identity => FunctionType::Identity,
            FunctionType::Polynomial(p) => FunctionType::Polynomial(p.clone()),
            FunctionType::Trigonometric(t) => FunctionType::Trigonometric(t.clone()),
        }
    }
}

} // verus!
