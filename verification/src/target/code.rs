//! Code blocks: what lowering produces and what linking turns into code that
//! the virtual machine runs.
use vstd::prelude::*;
use crate::target::operation::code_view;
use crate::target::operation::Operation;
use crate::target::operation::OperationView;
use crate::target::operation::Variable;

verus! {

/// A compiled function: a unit of its own, entered with its parameters set.
#[derive(Debug, PartialEq, Eq)]
pub struct Function<I> {
    /// The variables that hold the arguments when the unit starts, in the
    /// order of the parameters.
    pub parameters: Vec<Variable>,
    pub code: Vec<Operation<I>>,
}

/// The mathematical value of a [`Function`].
pub struct FunctionView<I> {
    pub parameters: Seq<nat>,
    pub code: Seq<OperationView<I>>,
}

/// The values of a list of variables, element by element.
pub open spec fn variables_view(variables: Seq<Variable>) -> Seq<nat> {
    Seq::new(variables.len(), |i: int| variables[i]@)
}

impl<I: View> View for Function<I> {
    type V = FunctionView<I::V>;

    open spec fn view(&self) -> FunctionView<I::V> {
        FunctionView { parameters: variables_view(self.parameters@), code: code_view(self.code@) }
    }
}

/// The values of a list of functions, element by element.
pub open spec fn functions_view<I: View>(functions: Seq<Function<I>>) -> Seq<FunctionView<I::V>> {
    Seq::new(functions.len(), |i: int| functions[i]@)
}

/// The code of a script with the functions it defines. `I` is how a call
/// refers to an intrinsic: by name before linking, by handle after it.
#[derive(Debug, PartialEq, Eq)]
pub struct CodeBlock<I> {
    /// The operations of the script itself, in the order of execution.
    pub code: Vec<Operation<I>>,
    /// How many variables the code uses: they are numbered from zero.
    pub variables: usize,
    /// The functions that the script defines, in the order in which their
    /// lowering was completed.
    pub functions: Vec<Function<I>>,
}

/// The mathematical value of a [`CodeBlock`].
pub struct CodeBlockView<I> {
    pub code: Seq<OperationView<I>>,
    pub variables: nat,
    pub functions: Seq<FunctionView<I>>,
}

impl<I: View> View for CodeBlock<I> {
    type V = CodeBlockView<I::V>;

    open spec fn view(&self) -> CodeBlockView<I::V> {
        CodeBlockView {
            code: code_view(self.code@),
            variables: self.variables as nat,
            functions: functions_view(self.functions@),
        }
    }
}

/// Code whose calls hold handles of the environment it was linked against.
pub type LinkedCode = CodeBlock<usize>;

} // verus!
