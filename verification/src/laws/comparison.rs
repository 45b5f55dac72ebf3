//! What can be compared: everything that holds no host-supplied operator,
//! and so every script that was read from a document.
use vstd::prelude::*;
use crate::ir::expr::comparable;
use crate::ir::expr::ExprBuiltinView;
use crate::ir::expr::ExprView;
use crate::ir::instruction::instruction_comparable;
use crate::ir::instruction::instructions_comparable;
use crate::ir::instruction::AssignableView;
use crate::ir::instruction::InstructionView;

verus! {

/// Whether `expr` holds no host-supplied operator, at any depth.
pub open spec fn expr_is_plain(expr: ExprView) -> bool
    decreases expr,
{
    match expr {
        ExprView::Dynamic { operator, args } => false,
        ExprView::Builtin(ExprBuiltinView::Binary { op, left, right }) => expr_is_plain(*left)
            && expr_is_plain(*right),
        ExprView::Builtin(ExprBuiltinView::Unary { op, operand }) => expr_is_plain(*operand),
        ExprView::Literal(_) => true,
    }
}

/// Whether `instruction` holds no host-supplied operator, at any depth.
pub open spec fn instruction_is_plain(instruction: InstructionView) -> bool
    decreases instruction,
{
    match instruction {
        InstructionView::Assign { name, assignment: AssignableView::Expression(expr) } => expr_is_plain(
            expr,
        ),
        InstructionView::Assign {
            name,
            assignment: AssignableView::Function { arguments, instructions },
        } => instructions_are_plain(instructions),
        InstructionView::Scope { name, instructions } => instructions_are_plain(instructions),
        InstructionView::Exit { scope, value } => expr_is_plain(value),
    }
}

/// Whether `instructions` hold no host-supplied operator, at any depth.
pub open spec fn instructions_are_plain(instructions: Seq<InstructionView>) -> bool
    decreases instructions,
{
    instructions.len() == 0 || (instructions_are_plain(instructions.drop_last())
        && instruction_is_plain(instructions.last()))
}

/// An expression without host-supplied operators can be compared with any
/// expression, from either side.
pub proof fn lemma_plain_expr_is_comparable(first: ExprView, second: ExprView)
    requires
        expr_is_plain(first) || expr_is_plain(second),
    ensures
        comparable(first, second),
    decreases first,
{
    match (first, second) {
        (
            ExprView::Builtin(ExprBuiltinView::Binary { op: a, left: a_left, right: a_right }),
            ExprView::Builtin(ExprBuiltinView::Binary { op: b, left: b_left, right: b_right }),
        ) => {
            lemma_plain_expr_is_comparable(*a_left, *b_left);
            lemma_plain_expr_is_comparable(*a_right, *b_right);
        },
        (
            ExprView::Builtin(ExprBuiltinView::Unary { op: a, operand: a_operand }),
            ExprView::Builtin(ExprBuiltinView::Unary { op: b, operand: b_operand }),
        ) => {
            lemma_plain_expr_is_comparable(*a_operand, *b_operand);
        },
        _ => {},
    }
}

/// An instruction without host-supplied operators can be compared with any
/// instruction, from either side.
pub proof fn lemma_plain_instruction_is_comparable(first: InstructionView, second: InstructionView)
    requires
        instruction_is_plain(first) || instruction_is_plain(second),
    ensures
        instruction_comparable(first, second),
    decreases first, 0nat,
{
    match (first, second) {
        (
            InstructionView::Assign { name: a, assignment: a_assignment },
            InstructionView::Assign { name: b, assignment: b_assignment },
        ) => {
            match (a_assignment, b_assignment) {
                (
                    AssignableView::Function { arguments: a_arguments, instructions: a_instructions },
                    AssignableView::Function { arguments: b_arguments, instructions: b_instructions },
                ) => {
                    lemma_plain_instructions_are_comparable(a_instructions, b_instructions);
                },
                (AssignableView::Expression(a_expr), AssignableView::Expression(b_expr)) => {
                    lemma_plain_expr_is_comparable(a_expr, b_expr);
                },
                _ => {},
            }
        },
        (
            InstructionView::Scope { name: a, instructions: a_instructions },
            InstructionView::Scope { name: b, instructions: b_instructions },
        ) => {
            lemma_plain_instructions_are_comparable(a_instructions, b_instructions);
        },
        (
            InstructionView::Exit { scope: a, value: a_value },
            InstructionView::Exit { scope: b, value: b_value },
        ) => {
            lemma_plain_expr_is_comparable(a_value, b_value);
        },
        _ => {},
    }
}

/// A list of instructions without host-supplied operators can be compared
/// with any list of instructions, from either side.
pub proof fn lemma_plain_instructions_are_comparable(
    first: Seq<InstructionView>,
    second: Seq<InstructionView>,
)
    requires
        instructions_are_plain(first) || instructions_are_plain(second),
    ensures
        instructions_comparable(first, second),
    decreases first, 1nat,
{
    if first.len() == second.len() && first.len() > 0 {
        lemma_plain_instructions_are_comparable(first.drop_last(), second.drop_last());
        lemma_plain_instruction_is_comparable(first.last(), second.last());
    }
}

} // verus!
