//! The intrinsics that code calls: compilation succeeds exactly if the
//! environment has every host-supplied operator that the script names.
use vstd::prelude::*;
use crate::ir::expr::ExprBuiltinView;
use crate::ir::expr::ExprView;
use crate::ir::instruction::AssignableView;
use crate::ir::instruction::InstructionView;
use crate::ir::instruction::ScriptView;
use crate::linking::linked_block;
use crate::linking::linked_code;
use crate::linking::linked_functions;
use crate::linking::LinkErrorView;
use crate::lowering::builder::BuilderView;
use crate::lowering::builder::UnitView;
use crate::lowering::expr::expr_code;
use crate::lowering::expr::expr_size;
use crate::lowering::expr::exprs_code;
use crate::lowering::expr::exprs_size;
use crate::lowering::instruction::lemma_lower_block_place;
use crate::lowering::instruction::lower_block;
use crate::lowering::instruction::lower_instruction;
use crate::lowering::script::compiled_script;
use crate::lowering::script::lowered_script;
use crate::target::code::CodeBlockView;
use crate::target::code::FunctionView;
use crate::target::environment::lemma_resolve_contains;
use crate::target::operation::OperationView;

verus! {

/// Whether `operation` is a call of the intrinsic of the name `name`.
pub open spec fn is_call(operation: OperationView<Seq<char>>, name: Seq<char>) -> bool {
    operation matches OperationView::Call { intrinsic, .. } && intrinsic == name
}

/// Whether an operation of `code` calls the intrinsic of the name `name`.
pub open spec fn calls(code: Seq<OperationView<Seq<char>>>, name: Seq<char>) -> bool
    decreases code.len(),
{
    code.len() > 0 && (calls(code.drop_last(), name) || is_call(code.last(), name))
}

/// Whether one of `functions` calls the intrinsic of the name `name`.
pub open spec fn functions_call(functions: Seq<FunctionView<Seq<char>>>, name: Seq<char>) -> bool
    decreases functions.len(),
{
    functions.len() > 0 && (functions_call(functions.drop_last(), name) || calls(
        functions.last().code,
        name,
    ))
}

/// Whether the code block calls the intrinsic of the name `name`, in its
/// code or in one of its functions.
pub open spec fn block_calls(block: CodeBlockView<Seq<char>>, name: Seq<char>) -> bool {
    calls(block.code, name) || functions_call(block.functions, name)
}

/// Whether a host-supplied operator of the name `name` occurs in `expr`.
pub open spec fn expr_mentions(expr: ExprView, name: Seq<char>) -> bool
    decreases expr,
{
    match expr {
        ExprView::Dynamic { operator, args } => operator == name || exprs_mention(args, name),
        ExprView::Builtin(ExprBuiltinView::Binary { op, left, right }) => expr_mentions(
            *left,
            name,
        ) || expr_mentions(*right, name),
        ExprView::Builtin(ExprBuiltinView::Unary { op, operand }) => expr_mentions(*operand, name),
        ExprView::Literal(_) => false,
    }
}

/// Whether a host-supplied operator of the name `name` occurs in one of
/// `exprs`.
pub open spec fn exprs_mention(exprs: Seq<ExprView>, name: Seq<char>) -> bool
    decreases exprs,
{
    exprs.len() > 0 && (exprs_mention(exprs.drop_last(), name) || expr_mentions(
        exprs.last(),
        name,
    ))
}

/// Whether a host-supplied operator of the name `name` occurs in
/// `instruction`, at any depth.
pub open spec fn instruction_mentions(instruction: InstructionView, name: Seq<char>) -> bool
    decreases instruction,
{
    match instruction {
        InstructionView::Assign {
            name: bound,
            assignment: AssignableView::Expression(expr),
        } => expr_mentions(expr, name),
        InstructionView::Assign {
            name: bound,
            assignment: AssignableView::Function { arguments, instructions },
        } => block_mentions(instructions, name),
        InstructionView::Scope { name: block, instructions } => block_mentions(instructions, name),
        InstructionView::Exit { scope, value } => expr_mentions(value, name),
    }
}

/// Whether a host-supplied operator of the name `name` occurs in one of
/// `instructions`, at any depth.
pub open spec fn block_mentions(instructions: Seq<InstructionView>, name: Seq<char>) -> bool
    decreases instructions,
{
    instructions.len() > 0 && (block_mentions(instructions.drop_last(), name)
        || instruction_mentions(instructions.last(), name))
}

/// Whether a unit that waits calls the intrinsic of the name `name`.
pub open spec fn units_call(units: Seq<UnitView>, name: Seq<char>) -> bool
    decreases units.len(),
{
    units.len() > 0 && (units_call(units.drop_last(), name) || calls(units.last().code, name))
}

/// Whether anything that the builder holds calls the intrinsic of the name
/// `name`.
pub open spec fn builder_calls(builder: BuilderView, name: Seq<char>) -> bool {
    calls(builder.unit.code, name) || units_call(builder.suspended, name) || functions_call(
        builder.functions,
        name,
    )
}

/// Code of two pieces calls what one of the pieces calls.
pub proof fn lemma_calls_concat(
    first: Seq<OperationView<Seq<char>>>,
    second: Seq<OperationView<Seq<char>>>,
    name: Seq<char>,
)
    ensures
        calls(first + second, name) <==> calls(first, name) || calls(second, name),
    decreases second.len(),
{
    if second.len() == 0 {
        assert(first + second =~= first);
    } else {
        lemma_calls_concat(first, second.drop_last(), name);
        assert((first + second).drop_last() =~= first + second.drop_last());
        assert((first + second).last() == second.last());
    }
}

/// The code of an expression calls exactly the host-supplied operators that
/// occur in the expression.
pub proof fn lemma_expr_calls(expr: ExprView, first: nat, name: Seq<char>)
    ensures
        calls(expr_code(expr, first), name) <==> expr_mentions(expr, name),
    decreases expr, 0nat,
{
    let code = expr_code(expr, first);
    match expr {
        ExprView::Dynamic { operator, args } => {
            lemma_exprs_calls(args, first + 1, name);
            assert(code.drop_last() =~= exprs_code(args, first + 1));
        },
        ExprView::Builtin(ExprBuiltinView::Binary { op, left, right }) => {
            let left_code = expr_code(*left, first + 1);
            let right_code = expr_code(*right, first + 1 + expr_size(*left));
            lemma_expr_calls(*left, first + 1, name);
            lemma_expr_calls(*right, first + 1 + expr_size(*left), name);
            lemma_calls_concat(left_code, right_code, name);
            assert(code.drop_last() =~= left_code + right_code);
        },
        ExprView::Builtin(ExprBuiltinView::Unary { op, operand }) => {
            lemma_expr_calls(*operand, first + 1, name);
            assert(code.drop_last() =~= expr_code(*operand, first + 1));
        },
        ExprView::Literal(literal) => {
            assert(code.drop_last() =~= Seq::empty());
            assert(!calls(code.drop_last(), name));
        },
    }
}

/// The code of a list of expressions calls exactly the host-supplied
/// operators that occur in the expressions.
pub proof fn lemma_exprs_calls(exprs: Seq<ExprView>, first: nat, name: Seq<char>)
    ensures
        calls(exprs_code(exprs, first), name) <==> exprs_mention(exprs, name),
    decreases exprs, 1nat,
{
    if exprs.len() > 0 {
        lemma_exprs_calls(exprs.drop_last(), first, name);
        lemma_expr_calls(exprs.last(), first + exprs_size(exprs.drop_last()), name);
        lemma_calls_concat(
            exprs_code(exprs.drop_last(), first),
            expr_code(exprs.last(), first + exprs_size(exprs.drop_last())),
            name,
        );
    }
}

/// After an instruction was lowered, the builder calls what it called
/// before and the host-supplied operators that occur in the instruction.
pub proof fn lemma_lower_instruction_calls(
    instruction: InstructionView,
    builder: BuilderView,
    name: Seq<char>,
)
    requires
        builder.wf(),
    ensures
        builder_calls(lower_instruction(instruction, builder), name) <==> builder_calls(
            builder,
            name,
        ) || instruction_mentions(instruction, name),
    decreases instruction, 0nat,
{
    match instruction {
        InstructionView::Assign { name: bound, assignment: AssignableView::Expression(expr) } => {
            lemma_expr_calls(expr, builder.variables, name);
            lemma_calls_concat(builder.unit.code, expr_code(expr, builder.variables), name);
        },
        InstructionView::Assign {
            name: bound,
            assignment: AssignableView::Function { arguments, instructions },
        } => {
            let begun = builder.begin(arguments);
            let body = lower_block(instructions, begun);
            lemma_lower_block_calls(instructions, begun, name);
            lemma_lower_block_place(instructions, begun);
            assert(begun.suspended.drop_last() =~= builder.suspended);
            assert(!calls(begun.unit.code, name));
            let ended = body.end();
            assert(ended.functions.drop_last() =~= body.functions);
            assert(body.suspended.drop_last() =~= builder.suspended);
        },
        InstructionView::Scope { name: block, instructions } => {
            let entered = builder.enter(block);
            let body = lower_block(instructions, entered);
            lemma_lower_block_calls(instructions, entered, name);
            let left = body.leave();
            assert(left.push(OperationView::Label(builder.labels)).unit.code.drop_last()
                =~= body.unit.code);
        },
        InstructionView::Exit { scope, value } => {
            lemma_expr_calls(value, builder.variables, name);
            lemma_calls_concat(builder.unit.code, expr_code(value, builder.variables), name);
            let lowered = builder.emit(expr_code(value, builder.variables)).allocate(
                expr_size(value),
            );
            assert(lower_instruction(instruction, builder).unit.code.drop_last()
                =~= lowered.unit.code);
        },
    }
}

/// After a list of instructions was lowered, the builder calls what it
/// called before and the host-supplied operators that occur in the
/// instructions.
pub proof fn lemma_lower_block_calls(
    instructions: Seq<InstructionView>,
    builder: BuilderView,
    name: Seq<char>,
)
    requires
        builder.wf(),
    ensures
        builder_calls(lower_block(instructions, builder), name) <==> builder_calls(builder, name)
            || block_mentions(instructions, name),
    decreases instructions, 1nat,
{
    if instructions.len() > 0 {
        let before = lower_block(instructions.drop_last(), builder);
        lemma_lower_block_calls(instructions.drop_last(), builder, name);
        lemma_lower_block_place(instructions.drop_last(), builder);
        lemma_lower_instruction_calls(instructions.last(), before, name);
    }
}

/// The code block that a script is lowered to calls exactly the
/// host-supplied operators that occur in the script.
pub proof fn lemma_lowered_script_calls(script: ScriptView, name: Seq<char>)
    ensures
        block_calls(lowered_script(script), name) <==> block_mentions(script.instructions, name),
{
    let start = BuilderView::initial();
    lemma_lower_block_calls(script.instructions, start, name);
    lemma_lower_block_place(script.instructions, start);
    assert(!calls(start.unit.code, name));
}

/// Code links exactly if the environment has every intrinsic that it calls;
/// else the error names an intrinsic that the code calls and the environment
/// lacks.
pub proof fn lemma_linked_code_calls(
    code: Seq<OperationView<Seq<char>>>,
    environment: Seq<Seq<char>>,
)
    ensures
        match linked_code(code, environment) {
            Ok(linked) => forall|name: Seq<char>| #[trigger]
                calls(code, name) ==> environment.contains(name),
            Err(name) => calls(code, name) && !environment.contains(name),
        },
    decreases code.len(),
{
    if code.len() > 0 {
        let shorter = code.drop_last();
        lemma_linked_code_calls(shorter, environment);
        match code.last() {
            OperationView::Call { intrinsic, arguments, destination } => {
                lemma_resolve_contains(environment, intrinsic);
            },
            _ => {},
        }
        if linked_code(code, environment) is Ok {
            assert forall|name: Seq<char>| #[trigger] calls(code, name) implies environment.contains(
                name,
            ) by {
                if calls(shorter, name) {
                    assert(environment.contains(name));
                }
            }
        }
    }
}

/// Functions link exactly if the environment has every intrinsic that they
/// call; else the error names an intrinsic that one of them calls and the
/// environment lacks.
pub proof fn lemma_linked_functions_calls(
    functions: Seq<FunctionView<Seq<char>>>,
    environment: Seq<Seq<char>>,
)
    ensures
        match linked_functions(functions, environment) {
            Ok(linked) => forall|name: Seq<char>| #[trigger]
                functions_call(functions, name) ==> environment.contains(name),
            Err(name) => functions_call(functions, name) && !environment.contains(name),
        },
    decreases functions.len(),
{
    if functions.len() > 0 {
        let shorter = functions.drop_last();
        lemma_linked_functions_calls(shorter, environment);
        lemma_linked_code_calls(functions.last().code, environment);
        if linked_functions(functions, environment) is Ok {
            assert forall|name: Seq<char>| #[trigger]
                functions_call(functions, name) implies environment.contains(name) by {
                if functions_call(shorter, name) {
                    assert(environment.contains(name));
                }
                if calls(functions.last().code, name) {
                    assert(environment.contains(name));
                }
            }
        }
    }
}

/// A code block links exactly if the environment has every intrinsic that
/// the block calls; else the error names an intrinsic that the block calls
/// and the environment lacks.
pub proof fn lemma_linked_block_calls(block: CodeBlockView<Seq<char>>, environment: Seq<Seq<char>>)
    ensures
        match linked_block(block, environment) {
            Ok(linked) => forall|name: Seq<char>| #[trigger]
                block_calls(block, name) ==> environment.contains(name),
            Err(LinkErrorView::UnresolvedIntrinsic(name)) => block_calls(block, name)
                && !environment.contains(name),
        },
{
    lemma_linked_code_calls(block.code, environment);
    lemma_linked_functions_calls(block.functions, environment);
}

/// Compiling a script succeeds exactly if the environment has every
/// host-supplied operator that occurs in the script, at any depth. Where it
/// fails, the error names such an operator that the environment lacks.
pub proof fn lemma_compile_fails_on_missing_intrinsic(
    script: ScriptView,
    environment: Seq<Seq<char>>,
)
    ensures
        match compiled_script(script, environment) {
            Ok(code) => forall|name: Seq<char>| #[trigger]
                block_mentions(script.instructions, name) ==> environment.contains(name),
            Err(LinkErrorView::UnresolvedIntrinsic(name)) => block_mentions(
                script.instructions,
                name,
            ) && !environment.contains(name),
        },
{
    let lowered = lowered_script(script);
    lemma_linked_block_calls(lowered, environment);
    match compiled_script(script, environment) {
        Ok(code) => {
            assert forall|name: Seq<char>| #[trigger]
                block_mentions(script.instructions, name) implies environment.contains(name) by {
                lemma_lowered_script_calls(script, name);
            }
        },
        Err(LinkErrorView::UnresolvedIntrinsic(name)) => {
            lemma_lowered_script_calls(script, name);
        },
    }
}

} // verus!
