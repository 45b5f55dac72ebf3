//! What holds of every lowering: laws that relate the tree to the code it is
//! lowered to.
pub mod bindings;
pub mod comparison;
pub mod execution;
pub mod intrinsics;
pub mod labels;
pub mod linked;
pub mod operands;
pub mod reads;
pub mod renumbering;
pub mod scopes;
pub mod variables;
