//! The flat operations that the virtual machine executes.
use vstd::prelude::*;
use crate::ir::operators::BinOp;
use crate::ir::operators::UnaryOp;
use crate::target::constant::Constant;
use crate::target::constant::ConstantView;

verus! {

/// A storage slot of the virtual machine, known by its number.
#[derive(Clone, Copy, Debug, PartialEq, Eq)]
pub struct Variable {
    pub index: usize,
}

impl View for Variable {
    type V = nat;

    open spec fn view(&self) -> nat {
        self.index as nat
    }
}

/// A position in a code block that an operation can leave to, known by its
/// number.
#[derive(Clone, Copy, Debug, PartialEq, Eq)]
pub struct Label {
    pub index: usize,
}

impl View for Label {
    type V = nat;

    open spec fn view(&self) -> nat {
        self.index as nat
    }
}

/// What an operation reads: a constant, or the content of a variable.
#[derive(Debug, PartialEq, Eq)]
pub enum Operand {
    Constant(Constant),
    Variable(Variable),
}

/// The mathematical value of an [`Operand`].
pub enum OperandView {
    Constant(ConstantView),
    Variable(nat),
}

impl View for Operand {
    type V = OperandView;

    open spec fn view(&self) -> OperandView {
        match self {
            Operand::Constant(constant) => OperandView::Constant(constant@),
            Operand::Variable(variable) => OperandView::Variable(variable@),
        }
    }
}

/// The values of a list of operands, element by element.
pub open spec fn operands_view(operands: Seq<Operand>) -> Seq<OperandView> {
    Seq::new(operands.len(), |i: int| operands[i]@)
}

/// One operation of the virtual machine. `I` is how an operation refers to an
/// intrinsic of the runtime environment: by name before linking, by handle
/// after it.
#[derive(Debug, PartialEq, Eq)]
#[allow(inconsistent_fields)]
pub enum Operation<I> {
    /// Store `value` in `variable`.
    Load { variable: Variable, value: Operand },
    /// Apply `op` to `left` and `right` and store the result in `destination`.
    Binary { op: BinOp, left: Operand, right: Operand, destination: Variable },
    /// Apply `op` to `operand` and store the result in `destination`.
    Unary { op: UnaryOp, operand: Operand, destination: Variable },
    /// Call `intrinsic` on `arguments`, in order, and store the result in
    /// `destination`.
    Call { intrinsic: I, arguments: Vec<Operand>, destination: Variable },
    /// End the execution of the code block with `value` as its result.
    Return(Operand),
    /// End the execution of the block that `scope` closes, with `value` as the
    /// block's result, and go on behind `scope`.
    Leave { scope: Label, value: Operand },
    /// The position just behind the last operation of a block.
    Label(Label),
}

/// The mathematical value of an [`Operation`].
#[allow(inconsistent_fields)]
pub enum OperationView<I> {
    Load { variable: nat, value: OperandView },
    Binary { op: BinOp, left: OperandView, right: OperandView, destination: nat },
    Unary { op: UnaryOp, operand: OperandView, destination: nat },
    Call { intrinsic: I, arguments: Seq<OperandView>, destination: nat },
    Return(OperandView),
    Leave { scope: nat, value: OperandView },
    Label(nat),
}

impl<I: View> View for Operation<I> {
    type V = OperationView<I::V>;

    open spec fn view(&self) -> OperationView<I::V> {
        match self {
            Operation::Load { variable, value } => OperationView::Load {
                variable: variable@,
                value: value@,
            },
            Operation::Binary { op, left, right, destination } => OperationView::Binary {
                op: *op,
                left: left@,
                right: right@,
                destination: destination@,
            },
            Operation::Unary { op, operand, destination } => OperationView::Unary {
                op: *op,
                operand: operand@,
                destination: destination@,
            },
            Operation::Call { intrinsic, arguments, destination } => OperationView::Call {
                intrinsic: intrinsic@,
                arguments: operands_view(arguments@),
                destination: destination@,
            },
            Operation::Return(value) => OperationView::Return(value@),
            Operation::Leave { scope, value } => OperationView::Leave { scope: scope@, value: value@ },
            Operation::Label(label) => OperationView::Label(label@),
        }
    }
}

/// The values of a list of operations, element by element.
pub open spec fn code_view<I: View>(code: Seq<Operation<I>>) -> Seq<OperationView<I::V>> {
    Seq::new(code.len(), |i: int| code[i]@)
}

impl<I> OperationView<I> {
    /// The variable that the operation writes, if it writes one.
    pub open spec fn destination(self) -> Option<nat> {
        match self {
            OperationView::Load { variable, value } => Some(variable),
            OperationView::Binary { op, left, right, destination } => Some(destination),
            OperationView::Unary { op, operand, destination } => Some(destination),
            OperationView::Call { intrinsic, arguments, destination } => Some(destination),
            OperationView::Return(value) => None,
            OperationView::Leave { scope, value } => None,
            OperationView::Label(label) => None,
        }
    }

    /// The operands that the operation reads, in the order in which it names
    /// them.
    pub open spec fn operands(self) -> Seq<OperandView> {
        match self {
            OperationView::Load { variable, value } => seq![value],
            OperationView::Binary { op, left, right, destination } => seq![left, right],
            OperationView::Unary { op, operand, destination } => seq![operand],
            OperationView::Call { intrinsic, arguments, destination } => arguments,
            OperationView::Return(value) => seq![value],
            OperationView::Leave { scope, value } => seq![value],
            OperationView::Label(label) => Seq::empty(),
        }
    }
}

} // verus!
