//! Fast expression evaluators.
//!
//! Source text is lexed into infix tokens, compiled by a shunting-yard pass
//! (folding constant sub-expressions on the way) into a postfix instruction
//! list, and that list is evaluated on a caller-owned stack against a
//! [`Context`] of name resolvers.
//!
//! The library is generic over the numbers the expressions compute in: a
//! caller describes them, the callable values that function names resolve
//! to, and what operators do, through [`Arithmetic`].
pub mod arith;
mod cache;
pub mod compiler;
pub mod context;
pub mod error;
pub mod eval;
pub mod evaluator;
pub mod expr;
pub mod folding;
pub mod laws;
pub mod lexer;
pub mod op;
pub mod parsing;
pub mod resolver;

pub use crate::arith::Arithmetic;
pub use crate::compiler::parse_irpn;
pub use crate::context::Context;
pub use crate::error::{Error, EvalError, ParseError};
pub use crate::evaluator::{IRpnEvaluator, RpnEvaluator};
pub use crate::expr::{Expr, Rpn};
pub use crate::lexer::{lex, Token};
pub use crate::op::Op;
pub use crate::parsing::parse_usize;
pub use crate::resolver::constant::ConstantResolver;
pub use crate::resolver::default::DefaultResolver;
pub use crate::resolver::empty::EmptyResolver;
pub use crate::resolver::indexed::IndexedResolver;
pub use crate::resolver::small::SmallResolver;
pub use crate::resolver::{Locked, LockedResolver, Ptr, Resolver, ResolverState, Slot, Unlocked, UnlockedResolver};
