//! The numbers of the variables do not matter: where an expression is
//! lowered later, after more variables were taken, its code is the same
//! but for the numbers, which are all higher by as much.
use vstd::prelude::*;
use crate::ir::expr::ExprBuiltinView;
use crate::ir::expr::ExprView;
use crate::laws::operands::lemma_exprs_results_length;
use crate::lowering::expr::expr_code;
use crate::lowering::expr::expr_size;
use crate::lowering::expr::exprs_code;
use crate::lowering::expr::exprs_results;
use crate::lowering::expr::exprs_size;
use crate::target::operation::OperandView;
use crate::target::operation::OperationView;

verus! {

/// `operand` with the number of its variable raised by `by`.
pub open spec fn raised_operand(operand: OperandView, by: nat) -> OperandView {
    match operand {
        OperandView::Constant(constant) => OperandView::Constant(constant),
        OperandView::Variable(variable) => OperandView::Variable(variable + by),
    }
}

/// `operands` with the numbers of their variables raised by `by`.
pub open spec fn raised_operands(operands: Seq<OperandView>, by: nat) -> Seq<OperandView> {
    Seq::new(operands.len(), |i: int| raised_operand(operands[i], by))
}

/// `operation` with the numbers of all its variables raised by `by`. Labels
/// stay as they are.
pub open spec fn raised_operation<I>(operation: OperationView<I>, by: nat) -> OperationView<I> {
    match operation {
        OperationView::Load { variable, value } => OperationView::Load {
            variable: variable + by,
            value: raised_operand(value, by),
        },
        OperationView::Binary { op, left, right, destination } => OperationView::Binary {
            op,
            left: raised_operand(left, by),
            right: raised_operand(right, by),
            destination: destination + by,
        },
        OperationView::Unary { op, operand, destination } => OperationView::Unary {
            op,
            operand: raised_operand(operand, by),
            destination: destination + by,
        },
        OperationView::Call { intrinsic, arguments, destination } => OperationView::Call {
            intrinsic,
            arguments: raised_operands(arguments, by),
            destination: destination + by,
        },
        OperationView::Return(value) => OperationView::Return(raised_operand(value, by)),
        OperationView::Leave { scope, value } => OperationView::Leave {
            scope,
            value: raised_operand(value, by),
        },
        OperationView::Label(label) => OperationView::Label(label),
    }
}

/// `code` with the numbers of all its variables raised by `by`.
pub open spec fn raised_code<I>(code: Seq<OperationView<I>>, by: nat) -> Seq<OperationView<I>> {
    Seq::new(code.len(), |i: int| raised_operation(code[i], by))
}

/// Raising the numbers goes through the pieces of a code.
pub proof fn lemma_raised_concat<I>(
    first: Seq<OperationView<I>>,
    second: Seq<OperationView<I>>,
    by: nat,
)
    ensures
        raised_code(first + second, by) == raised_code(first, by) + raised_code(second, by),
{
    assert(raised_code(first + second, by) =~= raised_code(first, by) + raised_code(second, by));
}

/// The code of an expression that is lowered `by` variables later is the
/// code of the expression with all numbers raised by `by`.
pub proof fn lemma_expr_code_renumbered(expr: ExprView, first: nat, by: nat)
    ensures
        expr_code(expr, first + by) == raised_code(expr_code(expr, first), by),
    decreases expr, 0nat,
{
    let code = expr_code(expr, first);
    let later = expr_code(expr, first + by);
    match expr {
        ExprView::Dynamic { operator, args } => {
            lemma_exprs_code_renumbered(args, first + 1, by);
            lemma_exprs_results_renumbered(args, first + 1, by);
            assert(first + by + 1 == first + 1 + by);
            assert(later =~= raised_code(code, by));
        },
        ExprView::Builtin(ExprBuiltinView::Binary { op, left, right }) => {
            lemma_expr_code_renumbered(*left, first + 1, by);
            lemma_expr_code_renumbered(*right, first + 1 + expr_size(*left), by);
            assert(first + by + 1 == first + 1 + by);
            assert(first + by + 1 + expr_size(*left) == first + 1 + expr_size(*left) + by);
            assert(later =~= raised_code(code, by));
        },
        ExprView::Builtin(ExprBuiltinView::Unary { op, operand }) => {
            lemma_expr_code_renumbered(*operand, first + 1, by);
            assert(first + by + 1 == first + 1 + by);
            assert(later =~= raised_code(code, by));
        },
        ExprView::Literal(literal) => {
            assert(later =~= raised_code(code, by));
        },
    }
}

/// The code of a list of expressions that is lowered `by` variables later
/// is the code of the expressions with all numbers raised by `by`.
pub proof fn lemma_exprs_code_renumbered(exprs: Seq<ExprView>, first: nat, by: nat)
    ensures
        exprs_code(exprs, first + by) == raised_code(exprs_code(exprs, first), by),
    decreases exprs, 1nat,
{
    if exprs.len() > 0 {
        let shorter = exprs.drop_last();
        lemma_exprs_code_renumbered(shorter, first, by);
        lemma_expr_code_renumbered(exprs.last(), first + exprs_size(shorter), by);
        assert(first + by + exprs_size(shorter) == first + exprs_size(shorter) + by);
        lemma_raised_concat(
            exprs_code(shorter, first),
            expr_code(exprs.last(), first + exprs_size(shorter)),
            by,
        );
    } else {
        assert(exprs_code(exprs, first + by) =~= raised_code(exprs_code(exprs, first), by));
    }
}

/// The results of a list of expressions that is lowered `by` variables
/// later are the results with their numbers raised by `by`.
pub proof fn lemma_exprs_results_renumbered(exprs: Seq<ExprView>, first: nat, by: nat)
    ensures
        exprs_results(exprs, first + by) == raised_operands(exprs_results(exprs, first), by),
    decreases exprs.len(),
{
    if exprs.len() > 0 {
        let shorter = exprs.drop_last();
        lemma_exprs_results_renumbered(shorter, first, by);
        lemma_exprs_results_length(shorter, first);
        lemma_exprs_results_length(shorter, first + by);
        assert(first + by + exprs_size(shorter) == first + exprs_size(shorter) + by);
        assert(exprs_results(exprs, first + by) =~= raised_operands(
            exprs_results(exprs, first),
            by,
        ));
    } else {
        assert(exprs_results(exprs, first + by) =~= raised_operands(
            exprs_results(exprs, first),
            by,
        ));
    }
}

} // verus!
