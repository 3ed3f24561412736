use vstd::prelude::*;
use vstd::string::StringExecFns;

use crate::errors::InvalidExpression;
use crate::scalar::{div_bits, lift_real, mul_bits, neg_bits, real_div, real_mul, real_neg, Real, ONE_BITS};

verus! {

/// The three primitive transcendental evaluations that a trigonometric
/// driver supplies. Everything else (`cot`, `sec`, `cosec`, products,
/// negation) is computed from these by verified code.
#[derive(Debug, Clone, Copy, PartialEq, Eq)]
pub enum TrigCall {
    Sine,
    Cosine,
    Tangent,
}

/// An elementary trigonometric function: one of the six base functions, a
/// finite ordered product of functions (`Composite`), or a sign flip
/// (`Negative`).
#[derive(Debug, PartialEq)]
pub enum TrigonometricFunction {
    Sine,
    Cosine,
    Tangent,
    Cotangent,
    Secant,
    Cosecant,
    Composite(Vec<TrigonometricFunction>),
    Negative(Box<TrigonometricFunction>),
}

/// The mathematical shape of a trigonometric function: the view of
/// [`TrigonometricFunction`] that contracts speak about.
pub enum TrigModel {
    Sin,
    Cos,
    Tan,
    Cot,
    Sec,
    Csc,
    Product(Seq<TrigModel>),
    Negated(Box<TrigModel>),
}

impl TrigonometricFunction {
    /// The mathematical shape of this function.
    pub open spec fn model(self) -> TrigModel
        decreases self, 0int,
    {
        match self {
            TrigonometricFunction::Sine => TrigModel::Sin,
            TrigonometricFunction::Cosine => TrigModel::Cos,
            TrigonometricFunction::Tangent => TrigModel::Tan,
            TrigonometricFunction::Cotangent => TrigModel::Cot,
            TrigonometricFunction::Secant => TrigModel::Sec,
            TrigonometricFunction::Cosecant => TrigModel::Csc,
            TrigonometricFunction::Composite(fs) => TrigModel::Product(trig_models(fs@)),
            TrigonometricFunction::Negative(f) => TrigModel::Negated(Box::new((*f).model())),
        }
    }
}

/// The shapes of a sequence of trigonometric functions, in order.
pub open spec fn trig_models(s: Seq<TrigonometricFunction>) -> Seq<TrigModel>
    decreases s, 0int,
{
    if s.len() == 0 {
        Seq::empty()
    } else {
        seq![s[0].model()] + trig_models(s.drop_first())
    }
}

/// The shapes of a sequence of functions, taken pointwise.
pub proof fn lemma_trig_models_index(s: Seq<TrigonometricFunction>)
    ensures
        trig_models(s).len() == s.len(),
        forall|i: int| 0 <= i < s.len() ==> trig_models(s)[i] == s[i].model(),
    decreases s,
{
    if s.len() > 0 {
        lemma_trig_models_index(s.drop_first());
    }
}

/// A trigonometric driver `f` refines the mathematical oracle `g`: every
/// value the driver can return is exactly what the oracle says.
pub open spec fn trig_consistent<F: Fn(TrigCall, Real) -> Real>(
    f: F,
    g: spec_fn(TrigCall, u64) -> u64,
) -> bool {
    forall|k: TrigCall, v: Real, out: Real| call_ensures(f, (k, v), out) ==> out.bits == g(k, v.bits)
}

/// The value of a trigonometric function at `x`, relative to the oracle `g`
/// for the three primitives: `cot`, `sec` and `cosec` are the reciprocals of
/// `tan`, `cos` and `sin`; a `Product` is the left-to-right product of its
/// members' values and fails on an empty member list; `Negated` negates.
pub open spec fn eval_trig_m(t: TrigModel, x: u64, g: spec_fn(TrigCall, u64) -> u64) -> Result<
    u64,
    InvalidExpression,
>
    decreases t, 0int,
{
    match t {
        TrigModel::Sin => Ok(g(TrigCall::Sine, x)),
        TrigModel::Cos => Ok(g(TrigCall::Cosine, x)),
        TrigModel::Tan => Ok(g(TrigCall::Tangent, x)),
        TrigModel::Cot => Ok(div_bits(ONE_BITS, g(TrigCall::Tangent, x))),
        TrigModel::Sec => Ok(div_bits(ONE_BITS, g(TrigCall::Cosine, x))),
        TrigModel::Csc => Ok(div_bits(ONE_BITS, g(TrigCall::Sine, x))),
        TrigModel::Product(fs) => eval_trig_prod_m(fs, x, g),
        TrigModel::Negated(f) => {
            match eval_trig_m(*f, x, g) {
                Ok(v) => Ok(neg_bits(v)),
                Err(e) => Err(e),
            }
        },
    }
}

/// The left-to-right product of the values of the members: the first
/// member's value, then one multiplication per further member. An empty
/// member list fails with `EmptyOperandList`.
pub open spec fn eval_trig_prod_m(
    fs: Seq<TrigModel>,
    x: u64,
    g: spec_fn(TrigCall, u64) -> u64,
) -> Result<u64, InvalidExpression>
    decreases fs, 0int,
{
    if fs.len() == 0 {
        Err(InvalidExpression::EmptyOperandList)
    } else if fs.len() == 1 {
        eval_trig_m(fs[0], x, g)
    } else {
        match eval_trig_prod_m(fs.drop_last(), x, g) {
            Ok(acc) => match eval_trig_m(fs.last(), x, g) {
                Ok(v) => Ok(mul_bits(acc, v)),
                Err(e) => Err(e),
            },
            Err(e) => Err(e),
        }
    }
}

/// Once a prefix of a product fails, the whole product fails the same way.
pub proof fn lemma_trig_prod_err(
    fs: Seq<TrigModel>,
    x: u64,
    g: spec_fn(TrigCall, u64) -> u64,
    m: int,
    n: int,
)
    requires
        1 <= m <= n <= fs.len(),
        eval_trig_prod_m(fs.subrange(0, m), x, g) is Err,
    ensures
        eval_trig_prod_m(fs.subrange(0, n), x, g) == eval_trig_prod_m(fs.subrange(0, m), x, g),
    decreases n - m,
{
    if m < n {
        lemma_trig_prod_err(fs, x, g, m, n - 1);
        assert(fs.subrange(0, n).drop_last() =~= fs.subrange(0, n - 1));
    }
}

/// The symbolic derivative table: the derivative of each base function, with
/// `Negated` differentiated inside the sign flip. A `Product` has no rule
/// and is reported as `UnsupportedDerivative`.
pub open spec fn trig_deriv_m(t: TrigModel) -> Result<TrigModel, InvalidExpression>
    decreases t,
{
    match t {
        TrigModel::Sin => Ok(TrigModel::Cos),
        TrigModel::Cos => Ok(TrigModel::Negated(Box::new(TrigModel::Sin))),
        TrigModel::Tan => Ok(TrigModel::Product(seq![TrigModel::Sec, TrigModel::Sec])),
        TrigModel::Cot => Ok(
            TrigModel::Negated(Box::new(TrigModel::Product(seq![TrigModel::Csc, TrigModel::Csc]))),
        ),
        TrigModel::Sec => Ok(TrigModel::Product(seq![TrigModel::Sec, TrigModel::Tan])),
        TrigModel::Csc => Ok(
            TrigModel::Negated(Box::new(TrigModel::Product(seq![TrigModel::Csc, TrigModel::Cot]))),
        ),
        TrigModel::Negated(f) => {
            match trig_deriv_m(*f) {
                Ok(d) => Ok(TrigModel::Negated(Box::new(d))),
                Err(e) => Err(e),
            }
        },
        TrigModel::Product(_) => Err(InvalidExpression::UnsupportedDerivative),
    }
}

/// A result over functions, seen as a result over their shapes.
pub open spec fn lift_trig(r: Result<TrigonometricFunction, InvalidExpression>) -> Result<
    TrigModel,
    InvalidExpression,
> {
    match r {
        Ok(d) => Ok(d.model()),
        Err(e) => Err(e),
    }
}

/// The canonical rendering: a short symbol per base function, a leading `-`
/// for `Negated`, and the empty text for a `Product`.
pub open spec fn trig_render(t: TrigModel) -> Seq<char>
    decreases t,
{
    match t {
        TrigModel::Sin => "sin"@,
        TrigModel::Cos => "cos"@,
        TrigModel::Tan => "tan"@,
        TrigModel::Cot => "cot"@,
        TrigModel::Sec => "sec"@,
        TrigModel::Csc => "cosec"@,
        TrigModel::Product(_) => Seq::empty(),
        TrigModel::Negated(f) => "-"@ + trig_render(*f),
    }
}

/// The flattening of one function: a `Product` has its members flattened and
/// any member that is itself a `Product` spliced into the list; every other
/// function is left as it is.
pub open spec fn flatten_trig_m(t: TrigModel) -> TrigModel
    decreases t, 0int,
{
    match t {
        TrigModel::Product(fs) => TrigModel::Product(flatten_list_m(fs)),
        _ => t,
    }
}

/// The flattening of a member list: each member flattened, and flattened
/// members that are `Product`s spliced in place.
pub open spec fn flatten_list_m(s: Seq<TrigModel>) -> Seq<TrigModel>
    decreases s, 0int,
{
    if s.len() == 0 {
        Seq::empty()
    } else {
        let rest = flatten_list_m(s.drop_first());
        match flatten_trig_m(s[0]) {
            TrigModel::Product(inner) => inner + rest,
            h => seq![h] + rest,
        }
    }
}

/// Whether a shape is flat: a `Product` holds no `Product` directly among
/// its members.
pub open spec fn is_flat_m(t: TrigModel) -> bool {
    match t {
        TrigModel::Product(fs) => forall|i: int| 0 <= i < fs.len() ==> !(fs[i] is Product),
        _ => true,
    }
}

/// Flattening a member list leaves no `Product` among the members.
pub proof fn lemma_flatten_list_flat(s: Seq<TrigModel>)
    ensures
        forall|i: int| 0 <= i < flatten_list_m(s).len() ==> !(#[trigger] flatten_list_m(s)[i]
            is Product),
    decreases s, 0int,
{
    if s.len() > 0 {
        lemma_flatten_list_flat(s.drop_first());
        let rest = flatten_list_m(s.drop_first());
        match s[0] {
            TrigModel::Product(inner) => {
                lemma_flatten_list_flat(inner);
                let spliced = flatten_list_m(inner);
                assert(flatten_list_m(s) == spliced + rest);
                assert forall|i: int| 0 <= i < flatten_list_m(s).len() implies !(
                #[trigger] flatten_list_m(s)[i] is Product) by {
                    if i < spliced.len() {
                        assert(flatten_list_m(s)[i] == spliced[i]);
                    } else {
                        assert(flatten_list_m(s)[i] == rest[i - spliced.len()]);
                    }
                }
            },
            _ => {
                let h = flatten_trig_m(s[0]);
                assert(!(h is Product));
                assert(flatten_list_m(s) == seq![h] + rest);
                assert forall|i: int| 0 <= i < flatten_list_m(s).len() implies !(
                #[trigger] flatten_list_m(s)[i] is Product) by {
                    if i >= 1 {
                        assert(flatten_list_m(s)[i] == rest[i - 1]);
                    }
                }
            },
        }
    }
}

/// The flattening of a one-member list: the member's own flattening, spliced
/// if it is a `Product` and kept whole otherwise.
pub proof fn lemma_flatten_list_singleton(m: TrigModel)
    ensures
        flatten_list_m(seq![m]) == (match flatten_trig_m(m) {
            TrigModel::Product(inner) => inner,
            h => seq![h],
        }),
{
    assert(seq![m].drop_first() =~= Seq::<TrigModel>::empty());
    assert(flatten_list_m(Seq::<TrigModel>::empty()) == Seq::<TrigModel>::empty());
    match flatten_trig_m(m) {
        TrigModel::Product(inner) => {
            assert(flatten_list_m(seq![m]) =~= inner);
        },
        h => {
            assert(flatten_list_m(seq![m]) =~= seq![h]);
        },
    }
}

/// Flattening always yields a flat shape: the law that `flatten_composite`
/// establishes as a post-construction invariant.
pub proof fn lemma_flatten_is_flat(t: TrigModel)
    ensures
        is_flat_m(flatten_trig_m(t)),
{
    match t {
        TrigModel::Product(fs) => {
            lemma_flatten_list_flat(fs);
        },
        _ => {},
    }
}

/// Flattening distributes over concatenation of member lists.
pub proof fn lemma_flatten_list_concat(a: Seq<TrigModel>, b: Seq<TrigModel>)
    ensures
        flatten_list_m(a + b) == flatten_list_m(a) + flatten_list_m(b),
    decreases a,
{
    if a.len() == 0 {
        assert(a + b =~= b);
        assert(flatten_list_m(a) + flatten_list_m(b) =~= flatten_list_m(b));
    } else {
        lemma_flatten_list_concat(a.drop_first(), b);
        assert((a + b).drop_first() =~= a.drop_first() + b);
        assert((a + b)[0] == a[0]);
        match flatten_trig_m(a[0]) {
            TrigModel::Product(inner) => {
                assert(inner + (flatten_list_m(a.drop_first()) + flatten_list_m(b)) =~= (inner
                    + flatten_list_m(a.drop_first())) + flatten_list_m(b));
            },
            h => {
                assert(seq![h] + (flatten_list_m(a.drop_first()) + flatten_list_m(b)) =~= (seq![h]
                    + flatten_list_m(a.drop_first())) + flatten_list_m(b));
            },
        }
    }
}

impl TrigonometricFunction {
    /// Renders the function: `sin`, `cos`, `tan`, `cot`, `sec` or `cosec`;
    /// `-` followed by the operand's rendering for `Negative`; the empty
    /// text for `Composite`.
    pub fn to_string(&self) -> (s: String)
        ensures
            s@ == trig_render(self.model()),
        decreases self,
    {
        match self {
            TrigonometricFunction::Sine => "sin".to_owned(),
            TrigonometricFunction::Cosine => "cos".to_owned(),
            TrigonometricFunction::Tangent => "tan".to_owned(),
            TrigonometricFunction::Cotangent => "cot".to_owned(),
            TrigonometricFunction::Secant => "sec".to_owned(),
            TrigonometricFunction::Cosecant => "cosec".to_owned(),
            TrigonometricFunction::Composite(_) => String::new(),
            TrigonometricFunction::Negative(f) => {
                let mut s = "-".to_owned();
                let inner = (&**f).to_string();
                s.append(inner.as_str());
                s
            },
        }
    }

    /// Evaluates the function at `x`. The caller supplies the three
    /// transcendental primitives through `trig`; everything else is computed
    /// here: the reciprocals for `cot`, `sec` and `cosec`, the left-to-right
    /// product of a `Composite`'s members (an empty member list is rejected
    /// as `EmptyOperandList`), and negation.
    ///
    /// For any mathematical oracle `g` that the driver refines, the result
    /// is exactly the value of the function relative to `g`.
    pub fn evaluate<F: Fn(TrigCall, Real) -> Real>(&self, x: Real, trig: &F) -> (r: Result<
        Real,
        InvalidExpression,
    >)
        requires
            forall|k: TrigCall, v: Real| call_requires(*trig, (k, v)),
        ensures
            forall|g: spec_fn(TrigCall, u64) -> u64|
                trig_consistent::<F>(*trig, g) ==> lift_real(r) == eval_trig_m(
                    self.model(),
                    x.bits,
                    g,
                ),
        decreases self,
    {
        match self {
            TrigonometricFunction::Sine => Ok(trig(TrigCall::Sine, x)),
            TrigonometricFunction::Cosine => Ok(trig(TrigCall::Cosine, x)),
            TrigonometricFunction::Tangent => Ok(trig(TrigCall::Tangent, x)),
            TrigonometricFunction::Cotangent => {
                let t = trig(TrigCall::Tangent, x);
                Ok(real_div(Real::one(), t))
            },
            TrigonometricFunction::Secant => {
                let t = trig(TrigCall::Cosine, x);
                Ok(real_div(Real::one(), t))
            },
            TrigonometricFunction::Cosecant => {
                let t = trig(TrigCall::Sine, x);
                Ok(real_div(Real::one(), t))
            },
            TrigonometricFunction::Negative(f) => {
                match (&**f).evaluate(x, trig) {
                    Ok(v) => Ok(real_neg(v)),
                    Err(e) => Err(e),
                }
            },
            TrigonometricFunction::Composite(fs) => {
                let n = fs.len();
                if n == 0 {
                    proof {
                        let m = self.model();
                        assert(m == TrigModel::Product(trig_models(fs@)));
                        assert(trig_models(fs@) =~= Seq::<TrigModel>::empty());
                        assert forall|g: spec_fn(TrigCall, u64) -> u64|
                            eval_trig_m(m, x.bits, g) == Err::<u64, InvalidExpression>(
                            InvalidExpression::EmptyOperandList,
                        ) by {
                            assert(eval_trig_prod_m(trig_models(fs@), x.bits, g) == Err::<
                                u64,
                                InvalidExpression,
                            >(InvalidExpression::EmptyOperandList));
                        }
                    }
                    return Err(InvalidExpression::EmptyOperandList);
                }
                proof {
                    lemma_trig_models_index(fs@);
                }
                let ghost ms = trig_models(fs@);
                proof {
                    assert(decreases_to!(*self => self->Composite_0));
                    assert(decreases_to!(self->Composite_0 => self->Composite_0@));
                    assert(decreases_to!(self->Composite_0@ => self->Composite_0@[0]));
                }
                let r0 = fs[0].evaluate(x, trig);
                let mut acc = match r0 {
                    Ok(v) => v,
                    Err(e) => {
                        proof {
                            assert forall|g: spec_fn(TrigCall, u64) -> u64|
                                trig_consistent::<F>(*trig, g) implies lift_real(
                                Err::<Real, InvalidExpression>(e),
                            ) == eval_trig_m(self.model(), x.bits, g) by {
                                assert(ms.subrange(0, 1) =~= seq![ms[0]]);
                                assert(eval_trig_prod_m(ms.subrange(0, 1), x.bits, g)
                                    == Err::<u64, InvalidExpression>(e));
                                lemma_trig_prod_err(ms, x.bits, g, 1, n as int);
                                assert(ms.subrange(0, n as int) =~= ms);
                            }
                        }
                        return Err(e);
                    },
                };
                proof {
                    assert forall|g: spec_fn(TrigCall, u64) -> u64|
                        trig_consistent::<F>(*trig, g) implies Ok::<u64, InvalidExpression>(
                        acc.bits,
                    ) == eval_trig_prod_m(ms.subrange(0, 1), x.bits, g) by {
                        assert(ms.subrange(0, 1) =~= seq![ms[0]]);
                    }
                }
                let mut i: usize = 1;
                while i < n
                    invariant
                        1 <= i <= n,
                        n == fs@.len(),
                        *self is Composite,
                        self->Composite_0@ == fs@,
                        ms == trig_models(fs@),
                        ms.len() == n,
                        forall|j: int| 0 <= j < n ==> ms[j] == fs@[j].model(),
                        forall|k: TrigCall, v: Real| call_requires(*trig, (k, v)),
                        forall|g: spec_fn(TrigCall, u64) -> u64|
                            trig_consistent::<F>(*trig, g) ==> Ok::<u64, InvalidExpression>(
                                acc.bits,
                            ) == eval_trig_prod_m(ms.subrange(0, i as int), x.bits, g),
                    decreases n - i,
                {
                    proof {
                        assert(decreases_to!(*self => self->Composite_0));
                        assert(decreases_to!(self->Composite_0 => self->Composite_0@));
                        assert(decreases_to!(self->Composite_0@ => self->Composite_0@[i as int]));
                    }
                    let ri = fs[i].evaluate(x, trig);
                    match ri {
                        Ok(v) => {
                            let ghost prev = acc;
                            acc = real_mul(acc, v);
                            proof {
                                assert forall|g: spec_fn(TrigCall, u64) -> u64|
                                    trig_consistent::<F>(*trig, g) implies Ok::<
                                    u64,
                                    InvalidExpression,
                                >(acc.bits) == eval_trig_prod_m(
                                    ms.subrange(0, i as int + 1),
                                    x.bits,
                                    g,
                                ) by {
                                    assert(ms.subrange(0, i as int + 1).drop_last() =~= ms.subrange(
                                        0,
                                        i as int,
                                    ));
                                    assert(ms.subrange(0, i as int + 1).last() == ms[i as int]);
                                }
                            }
                        },
                        Err(e) => {
                            proof {
                                assert forall|g: spec_fn(TrigCall, u64) -> u64|
                                    trig_consistent::<F>(*trig, g) implies lift_real(
                                    Err::<Real, InvalidExpression>(e),
                                ) == eval_trig_m(self.model(), x.bits, g) by {
                                    assert(ms.subrange(0, i as int + 1).drop_last() =~= ms.subrange(
                                        0,
                                        i as int,
                                    ));
                                    assert(ms.subrange(0, i as int + 1).last() == ms[i as int]);
                                    assert(eval_trig_prod_m(ms.subrange(0, i as int + 1), x.bits, g)
                                        == Err::<u64, InvalidExpression>(e));
                                    lemma_trig_prod_err(ms, x.bits, g, i as int + 1, n as int);
                                    assert(ms.subrange(0, n as int) =~= ms);
                                }
                            }
                            return Err(e);
                        },
                    }
                    i += 1;
                }
                proof {
                    assert(ms.subrange(0, n as int) =~= ms);
                }
                Ok(acc)
            },
        }
    }

    /// The symbolic derivative, by the fixed table: `sin' = cos`,
    /// `cos' = -sin`, `tan' = sec·sec`, `cot' = -(cosec·cosec)`,
    /// `sec' = sec·tan`, `cosec' = -(cosec·cot)`, and
    /// `(-f)' = -(f')`. Differentiating a `Composite` has no defined rule
    /// and is rejected as `UnsupportedDerivative`.
    pub fn derivative(&self) -> (r: Result<TrigonometricFunction, InvalidExpression>)
        ensures
            lift_trig(r) == trig_deriv_m(self.model()),
        decreases self,
    {
        match self {
            TrigonometricFunction::Sine => Ok(TrigonometricFunction::Cosine),
            TrigonometricFunction::Cosine => {
                proof {
                    assert(TrigonometricFunction::Sine.model() == TrigModel::Sin);
                }
                Ok(TrigonometricFunction::Negative(Box::new(TrigonometricFunction::Sine)))
            },
            TrigonometricFunction::Tangent => {
                let mut v: Vec<TrigonometricFunction> = Vec::new();
                v.push(TrigonometricFunction::Secant);
                v.push(TrigonometricFunction::Secant);
                proof {
                    lemma_trig_models_index(v@);
                    assert(trig_models(v@) =~= seq![TrigModel::Sec, TrigModel::Sec]);
                }
                Ok(TrigonometricFunction::Composite(v))
            },
            TrigonometricFunction::Cotangent => {
                let mut v: Vec<TrigonometricFunction> = Vec::new();
                v.push(TrigonometricFunction::Cosecant);
                v.push(TrigonometricFunction::Cosecant);
                proof {
                    lemma_trig_models_index(v@);
                    assert(trig_models(v@) =~= seq![TrigModel::Csc, TrigModel::Csc]);
                }
                let inner = TrigonometricFunction::Composite(v);
                proof {
                    assert(inner.model() == TrigModel::Product(seq![TrigModel::Csc, TrigModel::Csc]));
                }
                Ok(TrigonometricFunction::Negative(Box::new(inner)))
            },
            TrigonometricFunction::Secant => {
                let mut v: Vec<TrigonometricFunction> = Vec::new();
                v.push(TrigonometricFunction::Secant);
                v.push(TrigonometricFunction::Tangent);
                proof {
                    lemma_trig_models_index(v@);
                    assert(trig_models(v@) =~= seq![TrigModel::Sec, TrigModel::Tan]);
                }
                Ok(TrigonometricFunction::Composite(v))
            },
            TrigonometricFunction::Cosecant => {
                let mut v: Vec<TrigonometricFunction> = Vec::new();
                v.push(TrigonometricFunction::Cosecant);
                v.push(TrigonometricFunction::Cotangent);
                proof {
                    lemma_trig_models_index(v@);
                    assert(trig_models(v@) =~= seq![TrigModel::Csc, TrigModel::Cot]);
                }
                let inner = TrigonometricFunction::Composite(v);
                proof {
                    assert(inner.model() == TrigModel::Product(seq![TrigModel::Csc, TrigModel::Cot]));
                }
                Ok(TrigonometricFunction::Negative(Box::new(inner)))
            },
            TrigonometricFunction::Negative(f) => {
                match (&**f).derivative() {
                    Ok(d) => Ok(TrigonometricFunction::Negative(Box::new(d))),
                    Err(e) => Err(e),
                }
            },
            TrigonometricFunction::Composite(_) => Err(InvalidExpression::UnsupportedDerivative),
        }
    }

    /// Flattens the function: the members of a `Composite` are flattened,
    /// and any member that is itself a `Composite` is spliced into the list
    /// in place; every other function is returned unchanged.
    pub fn flatten_composite(&self) -> (r: TrigonometricFunction)
        ensures
            r.model() == flatten_trig_m(self.model()),
        decreases self,
    {
        match self {
            TrigonometricFunction::Composite(fs) => {
                let n = fs.len();
                let ghost ms = trig_models(fs@);
                proof {
                    lemma_trig_models_index(fs@);
                }
                let mut out: Vec<TrigonometricFunction> = Vec::new();
                let mut i: usize = 0;
                while i < n
                    invariant
                        0 <= i <= n,
                        n == fs@.len(),
                        *self is Composite,
                        self->Composite_0@ == fs@,
                        ms == trig_models(fs@),
                        ms.len() == n,
                        forall|j: int| 0 <= j < n ==> ms[j] == fs@[j].model(),
                        out@.len() == flatten_list_m(ms.subrange(0, i as int)).len(),
                        forall|j: int| 0 <= j < out@.len() ==> #[trigger] out@[j].model()
                            == flatten_list_m(ms.subrange(0, i as int))[j],
                    decreases n - i,
                {
                    let ghost prefix = flatten_list_m(ms.subrange(0, i as int));
                    proof {
                        assert(ms.subrange(0, i as int + 1) =~= ms.subrange(0, i as int) + seq![
                            ms[i as int],
                        ]);
                        lemma_flatten_list_concat(ms.subrange(0, i as int), seq![ms[i as int]]);
                        lemma_flatten_list_singleton(ms[i as int]);
                        assert(decreases_to!(*self => self->Composite_0));
                        assert(decreases_to!(self->Composite_0 => self->Composite_0@));
                        assert(decreases_to!(self->Composite_0@ => self->Composite_0@[i as int]));
                    }
                    let fi = fs[i].flatten_composite();
                    match fi {
                        TrigonometricFunction::Composite(inner) => {
                            proof {
                                lemma_trig_models_index(inner@);
                                assert(flatten_list_m(seq![ms[i as int]]) == trig_models(inner@));
                            }
                            let m = inner.len();
                            let mut j: usize = 0;
                            while j < m
                                invariant
                                    0 <= j <= m,
                                    m == inner@.len(),
                                    trig_models(inner@).len() == m,
                                    forall|q: int| 0 <= q < m ==> trig_models(inner@)[q]
                                        == inner@[q].model(),
                                    out@.len() == prefix.len() + j,
                                    forall|q: int| 0 <= q < prefix.len() ==> #[trigger] out@[
                                        q
                                    ].model() == prefix[q],
                                    forall|q: int|
                                        prefix.len() <= q < prefix.len() + j ==> #[trigger] out@[
                                            q
                                        ].model() == inner@[q - prefix.len()].model(),
                                decreases m - j,
                            {
                                out.push(inner[j].clone());
                                j += 1;
                            }
                            proof {
                                assert forall|q: int| 0 <= q < out@.len() implies #[trigger] out@[
                                    q
                                ].model() == flatten_list_m(ms.subrange(0, i as int + 1))[q] by {
                                    if q >= prefix.len() {
                                        assert(out@[q].model() == inner@[q - prefix.len()].model());
                                        assert(flatten_list_m(ms.subrange(0, i as int + 1))[q]
                                            == trig_models(inner@)[q - prefix.len()]);
                                    }
                                }
                            }
                        },
                        other => {
                            proof {
                                assert(flatten_list_m(seq![ms[i as int]]) == seq![
                                    flatten_trig_m(ms[i as int]),
                                ]);
                            }
                            out.push(other);
                        },
                    }
                    i += 1;
                }
                proof {
                    assert(ms.subrange(0, n as int) =~= ms);
                    lemma_trig_models_index(out@);
                    assert(trig_models(out@) =~= flatten_list_m(ms));
                }
                TrigonometricFunction::Composite(out)
            },
            _ => self.clone(),
        }
    }

    /// Builds the product of the given functions, flattened at construction:
    /// the returned `Composite` holds no `Composite` directly among its
    /// members.
    pub fn composite(members: Vec<TrigonometricFunction>) -> (r: TrigonometricFunction)
        ensures
            r.model() == flatten_trig_m(TrigModel::Product(trig_models(members@))),
            is_flat_m(r.model()),
    {
        let c = TrigonometricFunction::Composite(members);
        let r = c.flatten_composite();
        proof {
            lemma_flatten_is_flat(c.model());
        }
        r
    }
}

impl Clone for TrigonometricFunction {
    /// Deep copy; the mathematical shape is preserved exactly.
    fn clone(&self) -> (r: Self)
        ensures
            r.model() == self.model(),
        decreases self,
    {
        match self {
            TrigonometricFunction::Sine => TrigonometricFunction::Sine,
            TrigonometricFunction::Cosine => TrigonometricFunction::Cosine,
            TrigonometricFunction::Tangent => TrigonometricFunction::Tangent,
            TrigonometricFunction::Cotangent => TrigonometricFunction::Cotangent,
            TrigonometricFunction::Secant => TrigonometricFunction::Secant,
            TrigonometricFunction::Cosecant => TrigonometricFunction::Cosecant,
            TrigonometricFunction::Negative(f) => TrigonometricFunction::Negative(
                Box::new((&**f).clone()),
            ),
            TrigonometricFunction::Composite(fs) => {
                let n = fs.len();
                let mut v: Vec<TrigonometricFunction> = Vec::new();
                let mut i: usize = 0;
                while i < n
                    invariant
                        0 <= i <= n,
                        n == fs@.len(),
                        *self is Composite,
                        self->Composite_0@ == fs@,
                        v@.len() == i,
                        forall|j: int| 0 <= j < i ==> #[trigger] v@[j].model() == fs@[j].model(),
                    decreases n - i,
                {
                    proof {
                        assert(decreases_to!(*self => self->Composite_0));
                        assert(decreases_to!(self->Composite_0 => self->Composite_0@));
                        assert(decreases_to!(self->Composite_0@ => self->Composite_0@[i as int]));
                    }
                    v.push(fs[i].clone());
                    i += 1;
                }
                proof {
                    lemma_trig_models_index(v@);
                    lemma_trig_models_index(fs@);
                    assert(trig_models(v@) =~= trig_models(fs@));
                }
                TrigonometricFunction::Composite(v)
            },
        }
    }
}

} // verus!
