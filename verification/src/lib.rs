//! Front end of a small scripting language: a tree-shaped intermediate
//! representation of scripts and its lowering into the flat code of a
//! virtual machine that works on numbered variables.
//!
//! * [`ir`] holds the tree: scripts, instructions, expressions, literals.
//! * [`target`] models what the virtual machine consumes: constants,
//!   operations, code blocks, and the environment that code is linked against.
//! * [`lowering`] walks the tree once and emits operations through a builder.
//! * [`linking`] resolves the intrinsics that lowered code calls by name.
//! * [`semantics`] says what scripts mean and how code runs.
//! * [`laws`] states and proves what holds of every lowering, up to this:
//!   compiled code ends as the script does.
//!
//! [`ir::Script::compile`] takes a script all the way.
pub mod ir;
pub mod laws;
pub mod linking;
pub mod lowering;
pub mod semantics;
pub mod target;
