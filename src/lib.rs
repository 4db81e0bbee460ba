//! Symbolic algebra over a single variable: an expression tree, constructors that
//! keep sums and products flat, a simplifier that rewrites a tree to a canonical
//! normal form, symbolic differentiation, and LaTeX rendering.

pub mod expr;
pub mod order;
pub mod construct;
pub mod rules;
pub mod rewrite;
pub mod simplify;
pub mod derivative;
pub mod latex;

pub use expr::{Expr, Term};
pub use rules::SimplifyError;
pub use simplify::MAX_PASSES;
