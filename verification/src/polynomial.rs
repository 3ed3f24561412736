use vstd::prelude::*;
use vstd::string::StringExecFns;

use crate::digits::{usize_decimal, usize_to_decimal};
use crate::errors::InvalidExpression;
use crate::scalar::{
    add_bits, bits_of_usize, decimal_of, div_bits, is_zero_bits, mul_bits, neg_bits, real_add,
    real_decimal, real_div, real_mul, real_neg, real_of_usize, real_sub, sub_bits, zero_real, Real,
    ONE_BITS,
};

verus! {

/// A dense polynomial over the reals: the coefficient at index `i` is the
/// coefficient of the power `x^i`.
///
/// The coefficient sequence is never empty, and the degree is always exactly
/// one less than its length; both are enforced at construction, so the two
/// can never drift apart.
#[derive(Debug, PartialEq)]
pub struct Polynomial {
    poly: Vec<Real>,
}

/// The `i`-th power of `x`, computed by repeated multiplication from `1.0`.
pub open spec fn pow_bits(x: u64, n: nat) -> u64
    decreases n,
{
    if n == 0 {
        ONE_BITS
    } else {
        mul_bits(pow_bits(x, (n - 1) as nat), x)
    }
}

/// The term `c[i] * x^i` of a polynomial evaluation.
pub open spec fn poly_term_bits(c: Seq<Real>, x: u64, i: int) -> u64 {
    mul_bits(c[i].bits, pow_bits(x, i as nat))
}

/// The left-to-right sum of the first `n` terms of a polynomial evaluation.
pub open spec fn poly_eval_prefix(c: Seq<Real>, x: u64, n: int) -> u64
    decreases n,
{
    if n <= 1 {
        poly_term_bits(c, x, 0)
    } else {
        add_bits(poly_eval_prefix(c, x, n - 1), poly_term_bits(c, x, n - 1))
    }
}

/// The value of a polynomial with coefficients `c` at the point `x`: the sum
/// over all coefficients of `c[i] * x^i`, added left to right.
pub open spec fn poly_eval_bits(c: Seq<Real>, x: u64) -> u64 {
    poly_eval_prefix(c, x, c.len() as int)
}

/// The coefficients of the derivative of a polynomial with coefficients `c`:
/// the coefficient shift `c[i]' == i * c[i]` for `i >= 1`. A polynomial of
/// degree zero keeps degree zero, with the single coefficient `0.0`.
pub open spec fn shift_coeffs(c: Seq<Real>) -> Seq<Real> {
    if c.len() <= 1 {
        seq![zero_real()]
    } else {
        Seq::new(
            (c.len() - 1) as nat,
            |i: int| Real { bits: mul_bits(bits_of_usize((i + 1) as usize), c[i + 1].bits) },
        )
    }
}

/// The coefficients of the sum of two polynomials: indexes held by both are
/// added; the tail of the longer operand is kept as it is.
pub open spec fn zip_add_coeffs(a: Seq<Real>, b: Seq<Real>) -> Seq<Real> {
    Seq::new(
        if a.len() >= b.len() {
            a.len()
        } else {
            b.len()
        },
        |i: int|
            if i < a.len() && i < b.len() {
                Real { bits: add_bits(a[i].bits, b[i].bits) }
            } else if i < a.len() {
                a[i]
            } else {
                b[i]
            },
    )
}

/// The coefficients of the difference of two polynomials: indexes held by
/// both are subtracted; the tail of a longer left operand is kept, and the
/// tail of a longer right operand is negated.
pub open spec fn zip_sub_coeffs(a: Seq<Real>, b: Seq<Real>) -> Seq<Real> {
    Seq::new(
        if a.len() >= b.len() {
            a.len()
        } else {
            b.len()
        },
        |i: int|
            if i < a.len() && i < b.len() {
                Real { bits: sub_bits(a[i].bits, b[i].bits) }
            } else if i < a.len() {
                a[i]
            } else {
                Real { bits: neg_bits(b[i].bits) }
            },
    )
}

/// The value of the convolution cell `k` after the first `rows` rows: the
/// running sum, seeded with `0.0`, of `a[i] * b[k - i]` over `i < rows`
/// wherever `k - i` is a valid index of `b`, added in order of `i`.
pub open spec fn conv_cell(a: Seq<Real>, b: Seq<Real>, k: int, rows: int) -> u64
    decreases rows,
{
    if rows <= 0 {
        crate::scalar::POS_ZERO_BITS
    } else {
        let prev = conv_cell(a, b, k, rows - 1);
        let i = rows - 1;
        if 0 <= k - i < b.len() {
            add_bits(prev, mul_bits(a[i].bits, b[k - i].bits))
        } else {
            prev
        }
    }
}

/// The coefficients of the full convolution (polynomial product) of `a` and
/// `b`.
pub open spec fn conv_coeffs(a: Seq<Real>, b: Seq<Real>) -> Seq<Real> {
    Seq::new((a.len() + b.len() - 1) as nat, |k: int| Real { bits: conv_cell(a, b, k, a.len() as int) })
}

/// The coefficients scaled: each coefficient multiplied by the scalar.
pub open spec fn scale_coeffs(c: Seq<Real>, s: Real) -> Seq<Real> {
    Seq::new(c.len(), |i: int| Real { bits: mul_bits(c[i].bits, s.bits) })
}

/// The coefficients divided: each coefficient divided by the scalar.
pub open spec fn scale_div_coeffs(c: Seq<Real>, s: Real) -> Seq<Real> {
    Seq::new(c.len(), |i: int| Real { bits: div_bits(c[i].bits, s.bits) })
}

/// One term of the canonical polynomial rendering: the bare coefficient at
/// power zero, `{c}x` at power one, and `{c}x^({i})` at higher powers.
pub open spec fn poly_term_text(c: Real, i: int) -> Seq<char> {
    if i == 0 {
        decimal_of(c.bits)
    } else if i == 1 {
        decimal_of(c.bits) + "x"@
    } else {
        decimal_of(c.bits) + "x^("@ + usize_decimal(i as nat) + ")"@
    }
}

/// The canonical rendering of the coefficients from index `i` on: one term
/// per coefficient that is not a floating-point zero, joined by `" + "`.
/// `first` records whether no term has been emitted yet.
pub open spec fn poly_text_from(c: Seq<Real>, i: int, first: bool) -> Seq<char>
    decreases c.len() - i,
{
    if i < 0 || i >= c.len() {
        Seq::empty()
    } else if is_zero_bits(c[i].bits) {
        poly_text_from(c, i + 1, first)
    } else if first {
        poly_term_text(c[i], i) + poly_text_from(c, i + 1, false)
    } else {
        " + "@ + poly_term_text(c[i], i) + poly_text_from(c, i + 1, false)
    }
}

/// The canonical rendering of a whole polynomial.
pub open spec fn poly_render(c: Seq<Real>) -> Seq<char> {
    poly_text_from(c, 0, true)
}

impl Polynomial {
    /// The coefficient sequence, index equals power.
    pub closed spec fn coeffs(self) -> Seq<Real> {
        self.poly@
    }

    #[verifier::type_invariant]
    spec fn coeffs_nonempty(self) -> bool {
        self.poly@.len() >= 1
    }

    /// Builds a polynomial from its coefficients and its degree.
    ///
    /// An empty coefficient sequence is rejected as `EmptyOperandList`; a
    /// degree that is not exactly one less than the coefficient count is
    /// rejected as `DegreeMismatch`.
    pub fn new(coefficients: Vec<Real>, degree: usize) -> (r: Result<Polynomial, InvalidExpression>)
        ensures
            coefficients@.len() == 0 ==> r == Err::<Polynomial, InvalidExpression>(
                InvalidExpression::EmptyOperandList,
            ),
            coefficients@.len() >= 1 && degree != coefficients@.len() - 1 ==> r == Err::<
                Polynomial,
                InvalidExpression,
            >(InvalidExpression::DegreeMismatch),
            coefficients@.len() >= 1 && degree == coefficients@.len() - 1 ==> (r matches Ok(p)
                && p.coeffs() == coefficients@),
    {
        if coefficients.len() == 0 {
            Err(InvalidExpression::EmptyOperandList)
        } else if degree != coefficients.len() - 1 {
            Err(InvalidExpression::DegreeMismatch)
        } else {
            Ok(Polynomial { poly: coefficients })
        }
    }

    /// The degree: always one less than the coefficient count.
    pub fn degree(&self) -> (d: usize)
        ensures
            d == self.coeffs().len() - 1,
    {
        proof {
            use_type_invariant(self);
        }
        self.poly.len() - 1
    }

    /// The number of coefficients; always at least one.
    pub fn coefficient_count(&self) -> (n: usize)
        ensures
            n == self.coeffs().len(),
            n >= 1,
    {
        proof {
            use_type_invariant(self);
        }
        self.poly.len()
    }

    /// The coefficient of the power `x^i`.
    pub fn coefficient(&self, i: usize) -> (c: Real)
        requires
            i < self.coeffs().len(),
        ensures
            c == self.coeffs()[i as int],
    {
        self.poly[i]
    }

    /// Evaluates the polynomial at `x`: the sum of `c[i] * x^i` over all
    /// coefficients, with the powers built by repeated multiplication and the
    /// terms added left to right.
    pub fn evaluate(&self, x: Real) -> (r: Real)
        ensures
            r.bits == poly_eval_bits(self.coeffs(), x.bits),
    {
        proof {
            use_type_invariant(self);
        }
        let n = self.poly.len();
        let mut pow = Real::one();
        let mut acc = real_mul(self.poly[0], pow);
        let mut i: usize = 1;
        while i < n
            invariant
                1 <= i <= n,
                n == self.coeffs().len(),
                pow.bits == pow_bits(x.bits, (i - 1) as nat),
                acc.bits == poly_eval_prefix(self.coeffs(), x.bits, i as int),
            decreases n - i,
        {
            pow = real_mul(pow, x);
            let term = real_mul(self.poly[i], pow);
            acc = real_add(acc, term);
            i += 1;
        }
        acc
    }

    /// The symbolic derivative: the coefficient shift `c[i]' == i * c[i]`
    /// for `i >= 1`. The derivative of a degree-zero polynomial is the
    /// degree-zero polynomial `0.0`.
    pub fn derivative(&self) -> (r: Polynomial)
        ensures
            r.coeffs() == shift_coeffs(self.coeffs()),
    {
        proof {
            use_type_invariant(self);
        }
        let n = self.poly.len();
        if n == 1 {
            let mut v: Vec<Real> = Vec::new();
            v.push(Real::zero());
            proof {
                assert(v@ =~= shift_coeffs(self.coeffs()));
            }
            Polynomial { poly: v }
        } else {
            let mut v: Vec<Real> = Vec::new();
            let mut i: usize = 1;
            while i < n
                invariant
                    1 <= i <= n,
                    2 <= n == self.coeffs().len(),
                    v@.len() == i - 1,
                    forall|j: int| 0 <= j < i - 1 ==> v@[j] == shift_coeffs(self.coeffs())[j],
                decreases n - i,
            {
                let m = real_of_usize(i);
                v.push(real_mul(m, self.poly[i]));
                i += 1;
            }
            proof {
                assert(v@ =~= shift_coeffs(self.coeffs()));
            }
            Polynomial { poly: v }
        }
    }

    /// Adds two polynomials: coefficients held by both are added pointwise,
    /// and the tail of the longer operand is kept as it is.
    pub fn p_add(&self, other: &Polynomial) -> (r: Polynomial)
        ensures
            r.coeffs() == zip_add_coeffs(self.coeffs(), other.coeffs()),
    {
        proof {
            use_type_invariant(self);
            use_type_invariant(other);
        }
        let a = self.poly.len();
        let b = other.poly.len();
        let n = if a >= b {
            a
        } else {
            b
        };
        let mut v: Vec<Real> = Vec::new();
        let mut i: usize = 0;
        while i < n
            invariant
                0 <= i <= n,
                a == self.coeffs().len(),
                b == other.coeffs().len(),
                n == zip_add_coeffs(self.coeffs(), other.coeffs()).len(),
                v@.len() == i,
                forall|j: int| 0 <= j < i ==> v@[j] == zip_add_coeffs(self.coeffs(), other.coeffs())[j],
            decreases n - i,
        {
            if i < a && i < b {
                v.push(real_add(self.poly[i], other.poly[i]));
            } else if i < a {
                v.push(self.poly[i]);
            } else {
                v.push(other.poly[i]);
            }
            i += 1;
        }
        proof {
            assert(v@ =~= zip_add_coeffs(self.coeffs(), other.coeffs()));
        }
        Polynomial { poly: v }
    }

    /// Subtracts a polynomial from this one: coefficients held by both are
    /// subtracted pointwise; the tail of a longer left operand is kept, and
    /// the tail of a longer right operand is negated.
    pub fn p_sub(&self, other: &Polynomial) -> (r: Polynomial)
        ensures
            r.coeffs() == zip_sub_coeffs(self.coeffs(), other.coeffs()),
    {
        proof {
            use_type_invariant(self);
            use_type_invariant(other);
        }
        let a = self.poly.len();
        let b = other.poly.len();
        let n = if a >= b {
            a
        } else {
            b
        };
        let mut v: Vec<Real> = Vec::new();
        let mut i: usize = 0;
        while i < n
            invariant
                0 <= i <= n,
                a == self.coeffs().len(),
                b == other.coeffs().len(),
                n == zip_sub_coeffs(self.coeffs(), other.coeffs()).len(),
                v@.len() == i,
                forall|j: int| 0 <= j < i ==> v@[j] == zip_sub_coeffs(self.coeffs(), other.coeffs())[j],
            decreases n - i,
        {
            if i < a && i < b {
                v.push(real_sub(self.poly[i], other.poly[i]));
            } else if i < a {
                v.push(self.poly[i]);
            } else {
                v.push(real_neg(other.poly[i]));
            }
            i += 1;
        }
        proof {
            assert(v@ =~= zip_sub_coeffs(self.coeffs(), other.coeffs()));
        }
        Polynomial { poly: v }
    }

    /// Multiplies two polynomials by full convolution: the coefficient at
    /// power `k` accumulates `a[i] * b[k - i]`, starting from `0.0`, in order
    /// of `i`. The degree of the result is the sum of the degrees.
    pub fn p_mul(&self, other: &Polynomial) -> (r: Polynomial)
        requires
            self.coeffs().len() + other.coeffs().len() <= usize::MAX,
        ensures
            r.coeffs() == conv_coeffs(self.coeffs(), other.coeffs()),
    {
        proof {
            use_type_invariant(self);
            use_type_invariant(other);
        }
        let a = self.poly.len();
        let b = other.poly.len();
        let n = a + b - 1;
        let ghost ac = self.coeffs();
        let ghost bc = other.coeffs();
        let mut v: Vec<Real> = Vec::new();
        let mut k: usize = 0;
        while k < n
            invariant
                0 <= k <= n,
                v@.len() == k,
                forall|j: int| 0 <= j < k ==> v@[j] == (Real { bits: conv_cell(ac, bc, j, 0) }),
            decreases n - k,
        {
            v.push(Real::zero());
            k += 1;
        }
        let mut i: usize = 0;
        while i < a
            invariant
                0 <= i <= a,
                a == ac.len() && a >= 1,
                b == bc.len() && b >= 1,
                n == a + b - 1,
                ac == self.coeffs(),
                bc == other.coeffs(),
                v@.len() == n,
                forall|j: int| 0 <= j < n ==> v@[j] == (Real { bits: conv_cell(ac, bc, j, i as int) }),
            decreases a - i,
        {
            let mut j: usize = 0;
            while j < b
                invariant
                    0 <= j <= b,
                    0 <= i < a,
                    a == ac.len(),
                    b == bc.len(),
                    n == a + b - 1,
                    ac == self.coeffs(),
                    bc == other.coeffs(),
                    v@.len() == n,
                    forall|kk: int|
                        0 <= kk < n ==> v@[kk] == (Real {
                            bits: if i <= kk < i + j {
                                conv_cell(ac, bc, kk, i as int + 1)
                            } else {
                                conv_cell(ac, bc, kk, i as int)
                            },
                        }),
                decreases b - j,
            {
                let idx = i + j;
                let prod = real_mul(self.poly[i], other.poly[j]);
                let cur = v[idx];
                v[idx] = real_add(cur, prod);
                j += 1;
            }
            proof {
                assert forall|kk: int| 0 <= kk < n implies v@[kk] == (Real {
                    bits: conv_cell(ac, bc, kk, i as int + 1),
                }) by {
                    if !(i <= kk < i + b) {
                        assert(conv_cell(ac, bc, kk, i as int + 1) == conv_cell(
                            ac,
                            bc,
                            kk,
                            i as int,
                        ));
                    }
                }
            }
            i += 1;
        }
        proof {
            assert(v@ =~= conv_coeffs(ac, bc));
        }
        Polynomial { poly: v }
    }

    /// Multiplies every coefficient by a scalar.
    pub fn scalar_mul(&self, rhs: Real) -> (r: Polynomial)
        ensures
            r.coeffs() == scale_coeffs(self.coeffs(), rhs),
    {
        proof {
            use_type_invariant(self);
        }
        let n = self.poly.len();
        let mut v: Vec<Real> = Vec::new();
        let mut i: usize = 0;
        while i < n
            invariant
                0 <= i <= n,
                n == self.coeffs().len(),
                v@.len() == i,
                forall|j: int| 0 <= j < i ==> v@[j] == scale_coeffs(self.coeffs(), rhs)[j],
            decreases n - i,
        {
            v.push(real_mul(self.poly[i], rhs));
            i += 1;
        }
        proof {
            assert(v@ =~= scale_coeffs(self.coeffs(), rhs));
        }
        Polynomial { poly: v }
    }

    /// Divides every coefficient by a scalar. A zero scalar is not rejected:
    /// as in IEEE arithmetic, the coefficients become infinities or NaNs.
    pub fn scalar_div(&self, rhs: Real) -> (r: Polynomial)
        ensures
            r.coeffs() == scale_div_coeffs(self.coeffs(), rhs),
    {
        proof {
            use_type_invariant(self);
        }
        let n = self.poly.len();
        let mut v: Vec<Real> = Vec::new();
        let mut i: usize = 0;
        while i < n
            invariant
                0 <= i <= n,
                n == self.coeffs().len(),
                v@.len() == i,
                forall|j: int| 0 <= j < i ==> v@[j] == scale_div_coeffs(self.coeffs(), rhs)[j],
            decreases n - i,
        {
            v.push(real_div(self.poly[i], rhs));
            i += 1;
        }
        proof {
            assert(v@ =~= scale_div_coeffs(self.coeffs(), rhs));
        }
        Polynomial { poly: v }
    }

    /// Adds a scalar to the constant coefficient, leaving the others as they
    /// are.
    pub fn scalar_add(&self, rhs: Real) -> (r: Polynomial)
        ensures
            r.coeffs() == self.coeffs().update(
                0,
                (Real { bits: add_bits(self.coeffs()[0].bits, rhs.bits) }),
            ),
    {
        proof {
            use_type_invariant(self);
        }
        let mut r = self.clone();
        let c0 = r.poly[0];
        r.poly[0] = real_add(c0, rhs);
        proof {
            assert(r.coeffs() =~= self.coeffs().update(
                0,
                (Real { bits: add_bits(self.coeffs()[0].bits, rhs.bits) }),
            ));
        }
        r
    }

    /// Subtracts a scalar from the constant coefficient, leaving the others
    /// as they are.
    pub fn scalar_sub(&self, rhs: Real) -> (r: Polynomial)
        ensures
            r.coeffs() == self.coeffs().update(
                0,
                (Real { bits: sub_bits(self.coeffs()[0].bits, rhs.bits) }),
            ),
    {
        proof {
            use_type_invariant(self);
        }
        let mut r = self.clone();
        let c0 = r.poly[0];
        r.poly[0] = real_sub(c0, rhs);
        proof {
            assert(r.coeffs() =~= self.coeffs().update(
                0,
                (Real { bits: sub_bits(self.coeffs()[0].bits, rhs.bits) }),
            ));
        }
        r
    }

    /// Adds another polynomial into this one, in place, with the same
    /// zip-padded semantics as `p_add`.
    pub fn p_add_assign(&mut self, rhs: &Polynomial)
        ensures
            final(self).coeffs() == zip_add_coeffs(old(self).coeffs(), rhs.coeffs()),
    {
        let r = self.p_add(rhs);
        proof {
            use_type_invariant(&r);
        }
        self.poly = r.poly;
    }

    /// Subtracts another polynomial from this one, in place, with the same
    /// zip-padded semantics as `p_sub`.
    pub fn p_sub_assign(&mut self, rhs: &Polynomial)
        ensures
            final(self).coeffs() == zip_sub_coeffs(old(self).coeffs(), rhs.coeffs()),
    {
        let r = self.p_sub(rhs);
        proof {
            use_type_invariant(&r);
        }
        self.poly = r.poly;
    }

    /// Multiplies another polynomial into this one, in place, by the same
    /// full convolution as `p_mul`.
    pub fn p_mul_assign(&mut self, rhs: &Polynomial)
        requires
            old(self).coeffs().len() + rhs.coeffs().len() <= usize::MAX,
        ensures
            final(self).coeffs() == conv_coeffs(old(self).coeffs(), rhs.coeffs()),
    {
        let r = self.p_mul(rhs);
        proof {
            use_type_invariant(&r);
        }
        self.poly = r.poly;
    }

    /// Renders the polynomial canonically: one term per coefficient that is
    /// not a floating-point zero, joined by `" + "`, with the coefficient
    /// index as the power.
    pub fn to_string(&self) -> (s: String)
        ensures
            s@ == poly_render(self.coeffs()),
    {
        proof {
            use_type_invariant(self);
        }
        let ghost c = self.coeffs();
        let n = self.poly.len();
        let mut out = String::new();
        let mut first = true;
        let mut i: usize = 0;
        while i < n
            invariant
                0 <= i <= n,
                n == self.coeffs().len(),
                c == self.coeffs(),
                poly_render(c) == out@ + poly_text_from(c, i as int, first),
            decreases n - i,
        {
            let cf = self.poly[i];
            if !cf.is_zero() {
                let ghost before = out@;
                let ghost was_first = first;
                if !first {
                    out.append(" + ");
                }
                let t = poly_term_to_string(cf, i);
                out.append(t.as_str());
                first = false;
                proof {
                    if was_first {
                        assert(poly_text_from(c, i as int, true) == poly_term_text(c[i as int], i as int)
                            + poly_text_from(c, i as int + 1, false));
                        assert(out@ + poly_text_from(c, i as int + 1, false) =~= before
                            + poly_text_from(c, i as int, true));
                    } else {
                        assert(poly_text_from(c, i as int, false) == " + "@ + poly_term_text(
                            c[i as int],
                            i as int,
                        ) + poly_text_from(c, i as int + 1, false));
                        assert(out@ + poly_text_from(c, i as int + 1, false) =~= before
                            + poly_text_from(c, i as int, false));
                    }
                }
            }
            i += 1;
        }
        proof {
            assert(out@ =~= poly_render(c));
        }
        out
    }
}

/// Renders one term of a polynomial: the coefficient at the given power.
fn poly_term_to_string(c: Real, i: usize) -> (t: String)
    ensures
        t@ == poly_term_text(c, i as int),
{
    let mut t = real_decimal(c);
    if i == 1 {
        proof {
            reveal_strlit("x");
        }
        t.append("x");
    } else if i >= 2 {
        proof {
            reveal_strlit("x^(");
            reveal_strlit(")");
        }
        t.append("x^(");
        let d = usize_to_decimal(i);
        t.append(d.as_str());
        t.append(")");
    }
    proof {
        assert(t@ =~= poly_term_text(c, i as int));
    }
    t
}

impl Clone for Polynomial {
    /// Deep copy; the coefficients are preserved exactly.
    fn clone(&self) -> (r: Self)
        ensures
            r.coeffs() == self.coeffs(),
    {
        proof {
            use_type_invariant(self);
        }
        let n = self.poly.len();
        let mut v: Vec<Real> = Vec::new();
        let mut i: usize = 0;
        while i < n
            invariant
                0 <= i <= n,
                n == self.coeffs().len(),
                v@.len() == i,
                forall|j: int| 0 <= j < i ==> v@[j] == self.coeffs()[j],
            decreases n - i,
        {
            v.push(self.poly[i]);
            i += 1;
        }
        proof {
            assert(v@ =~= self.coeffs());
        }
        Polynomial { poly: v }
    }
}

} // verus!
