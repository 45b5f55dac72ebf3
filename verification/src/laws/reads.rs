//! Reads and writes: an operation reads only variables that an earlier
//! operation of the same unit has written.
use vstd::prelude::*;
use crate::ir::expr::ExprBuiltinView;
use crate::ir::expr::ExprView;
use crate::ir::instruction::AssignableView;
use crate::ir::instruction::InstructionView;
use crate::ir::instruction::ScriptView;
use crate::laws::operands::lemma_expr_code_result;
use crate::laws::operands::lemma_exprs_results_length;
use crate::lowering::builder::BuilderView;
use crate::lowering::expr::expr_code;
use crate::lowering::expr::expr_size;
use crate::lowering::expr::exprs_code;
use crate::lowering::expr::exprs_results;
use crate::lowering::expr::exprs_size;
use crate::lowering::expr::lower_expr;
use crate::lowering::instruction::exit_operation;
use crate::lowering::instruction::lemma_lower_block_place;
use crate::lowering::instruction::lower_block;
use crate::lowering::instruction::lower_instruction;
use crate::lowering::script::lowered_script;
use crate::target::operation::OperandView;
use crate::target::operation::OperationView;

verus! {

/// Whether `operation` reads `variable`.
pub open spec fn reads<I>(operation: OperationView<I>, variable: nat) -> bool {
    operation.operands().contains(OperandView::Variable(variable))
}

/// Whether one of the first `count` operations of `code` writes `variable`.
pub open spec fn written_before<I>(code: Seq<OperationView<I>>, count: int, variable: nat) -> bool {
    exists|j: int|
        0 <= j < count && j < code.len() && (#[trigger] code[j]).destination() == Some(variable)
}

/// Whether the operation at the position `i` of `code` reads only what the
/// operations before it have written.
pub open spec fn grounded_at<I>(code: Seq<OperationView<I>>, i: int) -> bool {
    forall|variable: nat| #[trigger] reads(code[i], variable) ==> written_before(code, i, variable)
}

/// Whether every operation of `code` reads only what the operations before
/// it have written.
pub open spec fn grounded<I>(code: Seq<OperationView<I>>) -> bool {
    forall|i: int| 0 <= i < code.len() ==> #[trigger] grounded_at(code, i)
}

/// What is written before a position of a code is written before the
/// position in any code that goes on from it.
pub proof fn lemma_written_before_longer<I>(
    code: Seq<OperationView<I>>,
    more: Seq<OperationView<I>>,
    count: int,
    variable: nat,
)
    requires
        written_before(code, count, variable),
    ensures
        written_before(code + more, count, variable),
{
    let j = choose|j: int|
        0 <= j < count && j < code.len() && (#[trigger] code[j]).destination() == Some(variable);
    assert((code + more)[j] == code[j]);
}

/// What is written in the second of two pieces of code is written in the
/// whole, as far behind as the first piece is long.
pub proof fn lemma_written_before_shifted<I>(
    code: Seq<OperationView<I>>,
    more: Seq<OperationView<I>>,
    count: int,
    variable: nat,
)
    requires
        written_before(more, count, variable),
    ensures
        written_before(code + more, code.len() + count, variable),
{
    let j = choose|j: int|
        0 <= j < count && j < more.len() && (#[trigger] more[j]).destination() == Some(variable);
    assert((code + more)[code.len() + j] == more[j]);
}

/// Two pieces of code that read only what they have written before make up
/// code of this kind.
pub proof fn lemma_grounded_concat<I>(code: Seq<OperationView<I>>, more: Seq<OperationView<I>>)
    requires
        grounded(code),
        grounded(more),
    ensures
        grounded(code + more),
{
    let whole = code + more;
    assert forall|i: int| 0 <= i < whole.len() implies #[trigger] grounded_at(whole, i) by {
        assert forall|variable: nat| #[trigger] reads(whole[i], variable) implies written_before(
            whole,
            i,
            variable,
        ) by {
            if i < code.len() {
                assert(whole[i] == code[i]);
                assert(grounded_at(code, i));
                assert(reads(code[i], variable));
                lemma_written_before_longer(code, more, i, variable);
            } else {
                assert(whole[i] == more[i - code.len()]);
                assert(grounded_at(more, i - code.len()));
                assert(reads(more[i - code.len()], variable));
                lemma_written_before_shifted(code, more, i - code.len(), variable);
            }
        }
    }
}

/// An operation that reads only what the code before it has written can be
/// added to the code.
pub proof fn lemma_grounded_push<I>(code: Seq<OperationView<I>>, operation: OperationView<I>)
    requires
        grounded(code),
        forall|variable: nat| #[trigger]
            reads(operation, variable) ==> written_before(code, code.len() as int, variable),
    ensures
        grounded(code.push(operation)),
{
    let whole = code.push(operation);
    assert(whole =~= code + seq![operation]);
    assert forall|i: int| 0 <= i < whole.len() implies #[trigger] grounded_at(whole, i) by {
        assert forall|variable: nat| #[trigger] reads(whole[i], variable) implies written_before(
            whole,
            i,
            variable,
        ) by {
            if i < code.len() {
                assert(grounded_at(code, i));
                assert(reads(code[i], variable));
                lemma_written_before_longer(code, seq![operation], i, variable);
            } else {
                assert(reads(operation, variable));
                lemma_written_before_longer(code, seq![operation], i, variable);
            }
        }
    }
}

/// The code of an expression writes the variable of its value.
pub proof fn lemma_expr_result_written(expr: ExprView, first: nat)
    ensures
        written_before(expr_code(expr, first), expr_code(expr, first).len() as int, first),
{
    lemma_expr_code_result(expr, first);
    let code = expr_code(expr, first);
    assert(code[code.len() - 1].destination() == Some(first));
}

/// The code of an expression reads only what it has written before.
pub proof fn lemma_expr_grounded(expr: ExprView, first: nat)
    ensures
        grounded(expr_code(expr, first)),
    decreases expr, 0nat,
{
    match expr {
        ExprView::Dynamic { operator, args } => {
            let code = exprs_code(args, first + 1);
            lemma_exprs_grounded(args, first + 1);
            let operation = OperationView::Call {
                intrinsic: operator,
                arguments: exprs_results(args, first + 1),
                destination: first,
            };
            assert forall|variable: nat| #[trigger] reads(operation, variable) implies written_before(
                code,
                code.len() as int,
                variable,
            ) by {
                let results = exprs_results(args, first + 1);
                let position = choose|position: int|
                    0 <= position < results.len() && results[position] == OperandView::Variable(
                        variable,
                    );
                lemma_exprs_results_length(args, first + 1);
                lemma_exprs_result_written(args, first + 1, position);
            }
            lemma_grounded_push(code, operation);
        },
        ExprView::Builtin(ExprBuiltinView::Binary { op, left, right }) => {
            let left_code = expr_code(*left, first + 1);
            let right_first = first + 1 + expr_size(*left);
            let right_code = expr_code(*right, right_first);
            lemma_expr_grounded(*left, first + 1);
            lemma_expr_grounded(*right, right_first);
            lemma_grounded_concat(left_code, right_code);
            let operation = OperationView::<Seq<char>>::Binary {
                op,
                left: OperandView::Variable(first + 1),
                right: OperandView::Variable(right_first),
                destination: first,
            };
            let both = left_code + right_code;
            assert forall|variable: nat| #[trigger] reads(operation, variable) implies written_before(
                both,
                both.len() as int,
                variable,
            ) by {
                if variable == first + 1 {
                    lemma_expr_result_written(*left, first + 1);
                    lemma_written_before_longer(
                        left_code,
                        right_code,
                        left_code.len() as int,
                        variable,
                    );
                } else {
                    assert(variable == right_first);
                    lemma_expr_result_written(*right, right_first);
                    lemma_written_before_shifted(
                        left_code,
                        right_code,
                        right_code.len() as int,
                        variable,
                    );
                }
            }
            lemma_grounded_push(both, operation);
        },
        ExprView::Builtin(ExprBuiltinView::Unary { op, operand }) => {
            let code = expr_code(*operand, first + 1);
            lemma_expr_grounded(*operand, first + 1);
            lemma_expr_result_written(*operand, first + 1);
            let operation = OperationView::<Seq<char>>::Unary {
                op,
                operand: OperandView::Variable(first + 1),
                destination: first,
            };
            assert forall|variable: nat| #[trigger] reads(operation, variable) implies written_before(
                code,
                code.len() as int,
                variable,
            ) by {
                assert(variable == first + 1);
            }
            lemma_grounded_push(code, operation);
        },
        ExprView::Literal(literal) => {
            let code = expr_code(expr, first);
            assert forall|i: int| 0 <= i < code.len() implies #[trigger] grounded_at(code, i) by {
                assert forall|variable: nat| #[trigger] reads(code[i], variable) implies written_before(
                    code,
                    i,
                    variable,
                ) by {
                    assert(code[i].operands()[0] is Constant);
                }
            }
        },
    }
}

/// The code of a list of expressions reads only what it has written before.
pub proof fn lemma_exprs_grounded(exprs: Seq<ExprView>, first: nat)
    ensures
        grounded(exprs_code(exprs, first)),
    decreases exprs, 1nat,
{
    if exprs.len() > 0 {
        lemma_exprs_grounded(exprs.drop_last(), first);
        lemma_expr_grounded(exprs.last(), first + exprs_size(exprs.drop_last()));
        lemma_grounded_concat(
            exprs_code(exprs.drop_last(), first),
            expr_code(exprs.last(), first + exprs_size(exprs.drop_last())),
        );
    } else {
        assert(grounded(exprs_code(exprs, first)));
    }
}

/// The code of a list of expressions writes the variable of the value of
/// each of them.
pub proof fn lemma_exprs_result_written(exprs: Seq<ExprView>, first: nat, position: int)
    requires
        0 <= position < exprs.len(),
    ensures
        exprs_results(exprs, first).len() == exprs.len(),
        exprs_results(exprs, first)[position] matches OperandView::Variable(result)
            && written_before(
            exprs_code(exprs, first),
            exprs_code(exprs, first).len() as int,
            result,
        ),
    decreases exprs.len(),
{
    lemma_exprs_results_length(exprs, first);
    let shorter = exprs.drop_last();
    let before = exprs_code(shorter, first);
    let last_first = first + exprs_size(shorter);
    let last_code = expr_code(exprs.last(), last_first);
    lemma_exprs_results_length(shorter, first);
    if position == exprs.len() - 1 {
        lemma_expr_result_written(exprs.last(), last_first);
        lemma_written_before_shifted(before, last_code, last_code.len() as int, last_first);
    } else {
        lemma_exprs_result_written(shorter, first, position);
        let result = exprs_results(shorter, first)[position]->Variable_0;
        lemma_written_before_longer(before, last_code, before.len() as int, result);
        assert(exprs_results(exprs, first)[position] == exprs_results(shorter, first)[position]);
    }
}

/// Whether every piece of code that a builder holds reads only what it has
/// written before.
pub open spec fn all_grounded(builder: BuilderView) -> bool {
    &&& grounded(builder.unit.code)
    &&& forall|u: int|
        0 <= u < builder.suspended.len() ==> grounded((#[trigger] builder.suspended[u]).code)
    &&& forall|f: int|
        0 <= f < builder.functions.len() ==> grounded((#[trigger] builder.functions[f]).code)
}

/// After an expression was lowered, the code still reads only what it has
/// written before, and it has written the variable of the value.
pub proof fn lemma_lower_expr_grounded(expr: ExprView, builder: BuilderView)
    requires
        all_grounded(builder),
    ensures
        all_grounded(lower_expr(expr, builder)),
        written_before(
            lower_expr(expr, builder).unit.code,
            lower_expr(expr, builder).unit.code.len() as int,
            builder.variables,
        ),
{
    let code = expr_code(expr, builder.variables);
    lemma_expr_grounded(expr, builder.variables);
    lemma_grounded_concat(builder.unit.code, code);
    lemma_expr_result_written(expr, builder.variables);
    lemma_written_before_shifted(builder.unit.code, code, code.len() as int, builder.variables);
}

/// After an instruction was lowered, every piece of code still reads only
/// what it has written before.
pub proof fn lemma_lower_instruction_grounded(instruction: InstructionView, builder: BuilderView)
    requires
        builder.wf(),
        all_grounded(builder),
    ensures
        all_grounded(lower_instruction(instruction, builder)),
    decreases instruction, 0nat,
{
    match instruction {
        InstructionView::Assign { name, assignment: AssignableView::Expression(expr) } => {
            lemma_lower_expr_grounded(expr, builder);
        },
        InstructionView::Assign {
            name,
            assignment: AssignableView::Function { arguments, instructions },
        } => {
            let begun = builder.begin(arguments);
            assert(grounded(begun.unit.code));
            assert forall|u: int| 0 <= u < begun.suspended.len() implies grounded(
                (#[trigger] begun.suspended[u]).code,
            ) by {
                if u < builder.suspended.len() {
                    assert(begun.suspended[u] == builder.suspended[u]);
                }
            }
            let body = lower_block(instructions, begun);
            lemma_lower_block_grounded(instructions, begun);
            lemma_lower_block_place(instructions, begun);
            let ended = body.end();
            assert(ended.unit == builder.unit);
            assert(ended.suspended =~= builder.suspended);
            assert forall|f: int| 0 <= f < ended.functions.len() implies grounded(
                (#[trigger] ended.functions[f]).code,
            ) by {
                if f < body.functions.len() {
                    assert(ended.functions[f] == body.functions[f]);
                }
            }
        },
        InstructionView::Scope { name, instructions } => {
            let entered = builder.enter(name);
            let body = lower_block(instructions, entered);
            lemma_lower_block_grounded(instructions, entered);
            let operation = OperationView::<Seq<char>>::Label(builder.labels);
            assert forall|variable: nat| #[trigger] reads(operation, variable) implies written_before(
                body.unit.code,
                body.unit.code.len() as int,
                variable,
            ) by {
                assert(operation.operands().len() == 0);
            }
            lemma_grounded_push(body.unit.code, operation);
            assert(body.leave().push(operation).unit.code =~= body.unit.code.push(operation));
        },
        InstructionView::Exit { scope, value } => {
            let lowered = lower_expr(value, builder);
            lemma_lower_expr_grounded(value, builder);
            let result = OperandView::Variable(builder.variables);
            let operation = exit_operation(scope, result, builder);
            assert forall|variable: nat| #[trigger] reads(operation, variable) implies written_before(
                lowered.unit.code,
                lowered.unit.code.len() as int,
                variable,
            ) by {
                assert(operation.operands() =~= seq![result]);
                assert(variable == builder.variables);
            }
            lemma_grounded_push(lowered.unit.code, operation);
            assert(lowered.push(operation).unit.code =~= lowered.unit.code.push(operation));
        },
    }
}

/// After a list of instructions was lowered, every piece of code still
/// reads only what it has written before.
pub proof fn lemma_lower_block_grounded(instructions: Seq<InstructionView>, builder: BuilderView)
    requires
        builder.wf(),
        all_grounded(builder),
    ensures
        all_grounded(lower_block(instructions, builder)),
    decreases instructions, 1nat,
{
    if instructions.len() > 0 {
        lemma_lower_block_grounded(instructions.drop_last(), builder);
        lemma_lower_block_place(instructions.drop_last(), builder);
        lemma_lower_instruction_grounded(
            instructions.last(),
            lower_block(instructions.drop_last(), builder),
        );
    }
}

/// In the code block that a script is lowered to, every operation reads
/// only variables that an earlier operation of the same unit has written:
/// the numbering of the variables is consistent in itself.
pub proof fn lemma_reads_follow_writes(script: ScriptView)
    ensures
        grounded(lowered_script(script).code),
        forall|f: int|
            0 <= f < lowered_script(script).functions.len() ==> grounded(
                (#[trigger] lowered_script(script).functions[f]).code,
            ),
{
    let start = BuilderView::initial();
    assert(grounded(start.unit.code));
    lemma_lower_block_grounded(script.instructions, start);
}

} // verus!
