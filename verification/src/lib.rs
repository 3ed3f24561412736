//! A symbolic differentiation and evaluation engine for single-variable
//! real-valued expressions built from constants, polynomials and elementary
//! trigonometric functions, combined through sum, product and quotient nodes.
//!
//! Real numbers are carried as the bit patterns of IEEE 754 doubles; the
//! floating-point operations themselves are named, trusted primitives
//! (see [`scalar`]), and everything built on top of them — evaluation order,
//! the differentiation rules, constancy, rendering — is verified.

pub mod digits;
pub mod errors;
pub mod expression;
pub mod expression_type;
pub mod function_type;
pub mod laws;
pub mod polynomial;
pub mod scalar;
pub mod trigonometric;

pub use errors::InvalidExpression;
pub use expression::Expression;
pub use expression_type::ExpressionType;
pub use function_type::FunctionType;
pub use polynomial::Polynomial;
pub use scalar::Real;
pub use trigonometric::{TrigCall, TrigonometricFunction};
