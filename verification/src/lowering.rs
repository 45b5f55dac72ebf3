//! Lowering: the walk over the tree that emits the flat code.
pub mod builder;
pub mod expr;
pub mod instruction;
pub mod literal;
pub mod measure;
pub mod script;

pub use builder::Binding;
pub use builder::Builder;
