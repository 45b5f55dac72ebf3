//! Operators and their operands: each operator lowers its operands from the
//! left to the right before its own operation, which reads their results.
use vstd::prelude::*;
use crate::lowering::literal::constant_literal;
use crate::lowering::literal::lemma_literal_round_trip;
use crate::ir::expr::ExprBuiltinView;
use crate::ir::expr::ExprView;
use crate::ir::operators::BinOp;
use crate::ir::operators::UnaryOp;
use crate::lowering::expr::expr_code;
use crate::lowering::expr::expr_size;
use crate::lowering::expr::exprs_code;
use crate::lowering::expr::exprs_results;
use crate::lowering::expr::exprs_size;
use crate::lowering::literal::literal_constant;
use crate::ir::literal::LiteralView;
use crate::target::operation::OperandView;
use crate::target::operation::OperationView;

verus! {

/// The code of an expression holds one operation for each node of the
/// expression, and its last operation writes the value of the expression to
/// the first variable that the expression takes.
pub proof fn lemma_expr_code_result(expr: ExprView, first: nat)
    ensures
        expr_code(expr, first).len() == expr_size(expr),
        expr_size(expr) >= 1,
        expr_code(expr, first).last().destination() == Some(first),
    decreases expr, 0nat,
{
    match expr {
        ExprView::Dynamic { operator, args } => {
            lemma_exprs_code_length(args, first + 1);
        },
        ExprView::Builtin(ExprBuiltinView::Binary { op, left, right }) => {
            lemma_expr_code_result(*left, first + 1);
            lemma_expr_code_result(*right, first + 1 + expr_size(*left));
        },
        ExprView::Builtin(ExprBuiltinView::Unary { op, operand }) => {
            lemma_expr_code_result(*operand, first + 1);
        },
        ExprView::Literal(literal) => {},
    }
}

/// The code of a list of expressions holds one operation for each node of
/// the expressions.
pub proof fn lemma_exprs_code_length(exprs: Seq<ExprView>, first: nat)
    ensures
        exprs_code(exprs, first).len() == exprs_size(exprs),
    decreases exprs, 1nat,
{
    if exprs.len() > 0 {
        lemma_exprs_code_length(exprs.drop_last(), first);
        lemma_expr_code_result(exprs.last(), first + exprs_size(exprs.drop_last()));
    }
}

/// A binary operator lowers exactly two operands, the left one first: its
/// code is the code of the left operand, then the code of the right operand,
/// then one operation of the operator. This operation reads the variable
/// that the code of the left operand writes last as its left operand, and
/// the variable that the code of the right operand writes last as its right
/// operand.
pub proof fn lemma_binary_lowers_two_operands(op: BinOp, left: ExprView, right: ExprView, first: nat)
    ensures
        ({
            let expr = ExprView::Builtin(
                ExprBuiltinView::Binary { op, left: Box::new(left), right: Box::new(right) },
            );
            let left_code = expr_code(left, first + 1);
            let right_code = expr_code(right, first + 1 + expr_size(left));
            let operation = expr_code(expr, first).last();
            &&& expr_code(expr, first) == (left_code + right_code).push(operation)
            &&& operation matches OperationView::Binary {
                op: applied,
                left: left_operand,
                right: right_operand,
                destination,
            }
            &&& applied == op
            &&& destination == first
            &&& left_operand matches OperandView::Variable(left_result)
            &&& right_operand matches OperandView::Variable(right_result)
            &&& left_code.last().destination() == Some(left_result)
            &&& right_code.last().destination() == Some(right_result)
            &&& left_result != right_result
        }),
{
    lemma_expr_code_result(left, first + 1);
    lemma_expr_code_result(right, first + 1 + expr_size(left));
}

/// A unary operator lowers exactly one operand: its code is the code of the
/// operand, then one operation of the operator, which reads the variable
/// that the code of the operand writes last.
pub proof fn lemma_unary_lowers_one_operand(op: UnaryOp, operand: ExprView, first: nat)
    ensures
        ({
            let expr = ExprView::Builtin(ExprBuiltinView::Unary { op, operand: Box::new(operand) });
            let operand_code = expr_code(operand, first + 1);
            let operation = expr_code(expr, first).last();
            &&& expr_code(expr, first) == operand_code.push(operation)
            &&& operation matches OperationView::Unary { op: applied, operand: read, destination }
            &&& applied == op
            &&& destination == first
            &&& read matches OperandView::Variable(result)
            &&& operand_code.last().destination() == Some(result)
        }),
{
    lemma_expr_code_result(operand, first + 1);
}

/// A host-supplied operator is called with one argument for each of its
/// argument expressions, in their order: the operand at a position is the
/// variable that receives the value of the expression at this position.
pub proof fn lemma_call_passes_arguments_in_order(
    operator: Seq<char>,
    args: Seq<ExprView>,
    first: nat,
    position: int,
)
    requires
        0 <= position < args.len(),
    ensures
        ({
            let expr = ExprView::Dynamic { operator, args };
            let operation = expr_code(expr, first).last();
            &&& operation matches OperationView::Call { intrinsic, arguments, destination }
            &&& intrinsic == operator
            &&& destination == first
            &&& arguments.len() == args.len()
            &&& arguments[position] == OperandView::Variable(
                first + 1 + exprs_size(args.take(position)),
            )
            &&& expr_code(
                args[position],
                first + 1 + exprs_size(args.take(position)),
            ).last().destination() == Some(first + 1 + exprs_size(args.take(position)))
        }),
{
    lemma_exprs_results(args, first + 1, position);
    lemma_expr_code_result(args[position], first + 1 + exprs_size(args.take(position)));
}

/// The results of a list of expressions are as many as the expressions, and
/// the one at a position is the first variable that the expression at this
/// position takes.
pub proof fn lemma_exprs_results(exprs: Seq<ExprView>, first: nat, position: int)
    requires
        0 <= position < exprs.len(),
    ensures
        exprs_results(exprs, first).len() == exprs.len(),
        exprs_results(exprs, first)[position] == OperandView::Variable(
            first + exprs_size(exprs.take(position)),
        ),
    decreases exprs.len(),
{
    lemma_exprs_results_length(exprs, first);
    if position == exprs.len() - 1 {
        assert(exprs.take(position) =~= exprs.drop_last());
    } else {
        lemma_exprs_results(exprs.drop_last(), first, position);
        assert(exprs.drop_last().take(position) =~= exprs.take(position));
    }
}

/// The results of a list of expressions are as many as the expressions.
pub proof fn lemma_exprs_results_length(exprs: Seq<ExprView>, first: nat)
    ensures
        exprs_results(exprs, first).len() == exprs.len(),
    decreases exprs.len(),
{
    if exprs.len() > 0 {
        lemma_exprs_results_length(exprs.drop_last(), first);
    }
}

/// A literal lowers to one operation, which loads the constant of the
/// literal; the literal can be read back from what is loaded.
pub proof fn lemma_literal_is_loaded(literal: LiteralView, first: nat)
    ensures
        expr_code(ExprView::Literal(literal), first) == seq![
            OperationView::<Seq<char>>::Load {
                variable: first,
                value: OperandView::Constant(literal_constant(literal)),
            },
        ],
        constant_literal(literal_constant(literal)) == literal,
{
    lemma_literal_round_trip(literal);
}

} // verus!
