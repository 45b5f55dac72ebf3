//! What scripts and code mean: the value that a script yields, and the run
//! of code on the virtual machine. The laws relate the two.
pub mod machine;
pub mod script;
