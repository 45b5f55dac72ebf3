//! The tree-shaped intermediate representation of a script.
pub mod expr;
pub mod instruction;
pub mod literal;
pub mod operators;

pub use expr::Expr;
pub use expr::ExprBuiltin;
pub use instruction::Assignable;
pub use instruction::Instruction;
pub use instruction::Script;
pub use literal::Literal;
pub use operators::BinOp;
pub use operators::UnaryOp;
