//! A model of the virtual machine's side of the lowering: the constants and
//! operations it executes and the environment that code is linked against.
pub mod code;
pub mod constant;
pub mod environment;
pub mod operation;

pub use code::CodeBlock;
pub use code::Function;
pub use code::LinkedCode;
pub use constant::Constant;
pub use environment::Environment;
pub use operation::Label;
pub use operation::Operand;
pub use operation::Operation;
pub use operation::Variable;
