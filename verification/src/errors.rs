use vstd::prelude::*;

verus! {

/// The failures that evaluating or differentiating an expression can report.
///
/// Every operation that can fail returns one of these explicitly; no verified
/// function of this crate panics.
#[derive(Debug, Clone, Copy, PartialEq, Eq)]
pub enum InvalidExpression {
    /// A sum, product or quotient node — or a polynomial constructor — was
    /// given zero operands.
    EmptyOperandList,
    /// A quotient node's denominator evaluated to zero. Evaluation fails fast
    /// rather than propagating an IEEE infinity, so results are deterministic.
    DivisionByZero,
    /// A polynomial was constructed with a degree that disagrees with its
    /// coefficient count.
    DegreeMismatch,
    /// No differentiation rule exists for the node: a composite trigonometric
    /// product, or a quotient wrapped in a non-identity outer function.
    UnsupportedDerivative,
}

} // verus!
