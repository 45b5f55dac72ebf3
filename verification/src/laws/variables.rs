//! The numbering of variables: the lowering hands out each variable once,
//! and what it hands out is written exactly once.
use vstd::prelude::*;
use crate::ir::expr::ExprBuiltinView;
use crate::ir::expr::ExprView;
use crate::ir::instruction::AssignableView;
use crate::ir::instruction::InstructionView;
use crate::ir::instruction::ScriptView;
use crate::linking::linked_code;
use crate::linking::linked_functions;
use crate::lowering::builder::BuilderView;
use crate::lowering::builder::UnitView;
use crate::lowering::expr::expr_code;
use crate::lowering::expr::expr_size;
use crate::lowering::expr::exprs_code;
use crate::lowering::expr::exprs_size;
use crate::lowering::instruction::block_variables;
use crate::lowering::instruction::instruction_variables;
use crate::lowering::instruction::lemma_lower_block_place;
use crate::lowering::instruction::lower_block;
use crate::lowering::instruction::lower_instruction;
use crate::lowering::script::compiled_script;
use crate::lowering::script::lowered_script;
use crate::target::code::CodeBlockView;
use crate::target::code::FunctionView;
use crate::target::operation::OperationView;

verus! {

/// How many operations of `code` write `variable`.
pub open spec fn writes<I>(code: Seq<OperationView<I>>, variable: nat) -> nat
    decreases code.len(),
{
    if code.len() == 0 {
        0
    } else {
        writes(code.drop_last(), variable) + if code.last().destination() == Some(variable) {
            1nat
        } else {
            0nat
        }
    }
}

/// How often `variable` occurs among `parameters`.
pub open spec fn occurrences(parameters: Seq<nat>, variable: nat) -> nat
    decreases parameters.len(),
{
    if parameters.len() == 0 {
        0
    } else {
        occurrences(parameters.drop_last(), variable) + if parameters.last() == variable {
            1nat
        } else {
            0nat
        }
    }
}

/// How often `variable` is set in the functions: as a parameter, or by an
/// operation.
pub open spec fn functions_writes<I>(functions: Seq<FunctionView<I>>, variable: nat) -> nat
    decreases functions.len(),
{
    if functions.len() == 0 {
        0
    } else {
        functions_writes(functions.drop_last(), variable) + occurrences(
            functions.last().parameters,
            variable,
        ) + writes(functions.last().code, variable)
    }
}

/// How often `variable` is set in a code block: by an operation of its code,
/// or in one of its functions.
pub open spec fn block_writes<I>(block: CodeBlockView<I>, variable: nat) -> nat {
    writes(block.code, variable) + functions_writes(block.functions, variable)
}

/// One if `variable` lies in the range from `low` up to, not including,
/// `high`; zero otherwise.
pub open spec fn within(variable: nat, low: nat, high: nat) -> nat {
    if low <= variable < high {
        1
    } else {
        0
    }
}

/// How often `variable` is set in the units that wait.
pub open spec fn units_writes(units: Seq<UnitView>, variable: nat) -> nat
    decreases units.len(),
{
    if units.len() == 0 {
        0
    } else {
        units_writes(units.drop_last(), variable) + occurrences(units.last().parameters, variable)
            + writes(units.last().code, variable)
    }
}

/// How often `variable` is set in all that a builder holds.
pub open spec fn builder_writes(builder: BuilderView, variable: nat) -> nat {
    occurrences(builder.unit.parameters, variable) + writes(builder.unit.code, variable)
        + units_writes(builder.suspended, variable) + functions_writes(builder.functions, variable)
}

/// The writes of two pieces of code add up.
pub proof fn lemma_writes_concat<I>(
    first: Seq<OperationView<I>>,
    second: Seq<OperationView<I>>,
    variable: nat,
)
    ensures
        writes(first + second, variable) == writes(first, variable) + writes(second, variable),
    decreases second.len(),
{
    if second.len() == 0 {
        assert(first + second =~= first);
    } else {
        lemma_writes_concat(first, second.drop_last(), variable);
        assert((first + second).drop_last() =~= first + second.drop_last());
        assert((first + second).last() == second.last());
    }
}

/// The code of an expression writes each of the variables that the
/// expression takes exactly once, and no other.
pub proof fn lemma_expr_writes(expr: ExprView, first: nat, variable: nat)
    ensures
        writes(expr_code(expr, first), variable) == within(
            variable,
            first,
            first + expr_size(expr),
        ),
    decreases expr, 0nat,
{
    let code = expr_code(expr, first);
    match expr {
        ExprView::Dynamic { operator, args } => {
            lemma_exprs_writes(args, first + 1, variable);
            assert(code.drop_last() =~= exprs_code(args, first + 1));
        },
        ExprView::Builtin(ExprBuiltinView::Binary { op, left, right }) => {
            let left_code = expr_code(*left, first + 1);
            let right_code = expr_code(*right, first + 1 + expr_size(*left));
            lemma_expr_writes(*left, first + 1, variable);
            lemma_expr_writes(*right, first + 1 + expr_size(*left), variable);
            lemma_writes_concat(left_code, right_code, variable);
            assert(code.drop_last() =~= left_code + right_code);
        },
        ExprView::Builtin(ExprBuiltinView::Unary { op, operand }) => {
            lemma_expr_writes(*operand, first + 1, variable);
            assert(code.drop_last() =~= expr_code(*operand, first + 1));
        },
        ExprView::Literal(literal) => {
            assert(code.drop_last() =~= Seq::empty());
            assert(writes(code.drop_last(), variable) == 0);
        },
    }
}

/// The code of a list of expressions writes each of the variables that the
/// expressions take exactly once, and no other.
pub proof fn lemma_exprs_writes(exprs: Seq<ExprView>, first: nat, variable: nat)
    ensures
        writes(exprs_code(exprs, first), variable) == within(
            variable,
            first,
            first + exprs_size(exprs),
        ),
    decreases exprs, 1nat,
{
    if exprs.len() > 0 {
        lemma_exprs_writes(exprs.drop_last(), first, variable);
        lemma_expr_writes(exprs.last(), first + exprs_size(exprs.drop_last()), variable);
        lemma_writes_concat(
            exprs_code(exprs.drop_last(), first),
            expr_code(exprs.last(), first + exprs_size(exprs.drop_last())),
            variable,
        );
    }
}

/// Consecutive variables from `first` on hold each variable of their range
/// once.
pub proof fn lemma_parameters_occurrences(first: nat, count: nat, variable: nat)
    ensures
        occurrences(Seq::new(count, |i: int| (first + i) as nat), variable) == within(
            variable,
            first,
            first + count,
        ),
    decreases count,
{
    let parameters = Seq::new(count, |i: int| (first + i) as nat);
    if count > 0 {
        lemma_parameters_occurrences(first, (count - 1) as nat, variable);
        assert(parameters.drop_last() =~= Seq::new((count - 1) as nat, |i: int| (first + i) as nat));
    }
}

/// Lowering an instruction sets each of the variables that the instruction
/// takes exactly once, and sets no other variable.
pub proof fn lemma_lower_instruction_writes(
    instruction: InstructionView,
    builder: BuilderView,
    variable: nat,
)
    requires
        builder.wf(),
    ensures
        builder_writes(lower_instruction(instruction, builder), variable) == builder_writes(
            builder,
            variable,
        ) + within(variable, builder.variables, builder.variables + instruction_variables(instruction)),
    decreases instruction, 0nat,
{
    match instruction {
        InstructionView::Assign { name, assignment: AssignableView::Expression(expr) } => {
            lemma_expr_writes(expr, builder.variables, variable);
            lemma_writes_concat(builder.unit.code, expr_code(expr, builder.variables), variable);
        },
        InstructionView::Assign {
            name,
            assignment: AssignableView::Function { arguments, instructions },
        } => {
            let begun = builder.begin(arguments);
            let body = lower_block(instructions, begun);
            lemma_lower_block_writes(instructions, begun, variable);
            lemma_lower_block_place(instructions, begun);
            lemma_parameters_occurrences(builder.variables, arguments.len(), variable);
            assert(begun.suspended.drop_last() =~= builder.suspended);
            assert(writes(begun.unit.code, variable) == 0);
            let ended = body.end();
            assert(ended.functions.drop_last() =~= body.functions);
            assert(body.suspended.drop_last() =~= builder.suspended);
        },
        InstructionView::Scope { name, instructions } => {
            let entered = builder.enter(name);
            let body = lower_block(instructions, entered);
            lemma_lower_block_writes(instructions, entered, variable);
            let left = body.leave();
            assert(left.push(OperationView::Label(builder.labels)).unit.code.drop_last()
                =~= body.unit.code);
        },
        InstructionView::Exit { scope, value } => {
            lemma_expr_writes(value, builder.variables, variable);
            lemma_writes_concat(builder.unit.code, expr_code(value, builder.variables), variable);
            let lowered = builder.emit(expr_code(value, builder.variables)).allocate(
                expr_size(value),
            );
            assert(lower_instruction(instruction, builder).unit.code.drop_last()
                =~= lowered.unit.code);
        },
    }
}

/// Lowering a list of instructions sets each of the variables that the
/// instructions take exactly once, and sets no other variable.
pub proof fn lemma_lower_block_writes(
    instructions: Seq<InstructionView>,
    builder: BuilderView,
    variable: nat,
)
    requires
        builder.wf(),
    ensures
        builder_writes(lower_block(instructions, builder), variable) == builder_writes(
            builder,
            variable,
        ) + within(variable, builder.variables, builder.variables + block_variables(instructions)),
    decreases instructions, 1nat,
{
    if instructions.len() > 0 {
        let before = lower_block(instructions.drop_last(), builder);
        lemma_lower_block_writes(instructions.drop_last(), builder, variable);
        lemma_lower_block_place(instructions.drop_last(), builder);
        lemma_lower_instruction_writes(instructions.last(), before, variable);
    }
}

/// In the code block that a script is lowered to, each variable below the
/// count of variables is set exactly once, by one operation or as one
/// parameter of one function, and no variable at or above the count is set
/// at all: the numbers of the variables do not collide.
pub proof fn lemma_variables_set_once(script: ScriptView, variable: nat)
    ensures
        block_writes(lowered_script(script), variable) == within(
            variable,
            0,
            lowered_script(script).variables,
        ),
        lowered_script(script).variables == block_variables(script.instructions),
{
    let start = BuilderView::initial();
    let end = lower_block(script.instructions, start);
    lemma_lower_block_writes(script.instructions, start, variable);
    lemma_lower_block_place(script.instructions, start);
    assert(writes(start.unit.code, variable) == 0);
}

/// Linking leaves the writes of code as they are.
pub proof fn lemma_linked_code_writes(
    code: Seq<OperationView<Seq<char>>>,
    environment: Seq<Seq<char>>,
    variable: nat,
)
    requires
        linked_code(code, environment) is Ok,
    ensures
        writes(linked_code(code, environment)->Ok_0, variable) == writes(code, variable),
    decreases code.len(),
{
    if code.len() > 0 {
        lemma_linked_code_writes(code.drop_last(), environment, variable);
        let linked = linked_code(code, environment)->Ok_0;
        assert(linked.drop_last() =~= linked_code(code.drop_last(), environment)->Ok_0);
    }
}

/// Linking leaves the writes of functions as they are.
pub proof fn lemma_linked_functions_writes(
    functions: Seq<FunctionView<Seq<char>>>,
    environment: Seq<Seq<char>>,
    variable: nat,
)
    requires
        linked_functions(functions, environment) is Ok,
    ensures
        functions_writes(linked_functions(functions, environment)->Ok_0, variable)
            == functions_writes(functions, variable),
    decreases functions.len(),
{
    if functions.len() > 0 {
        lemma_linked_functions_writes(functions.drop_last(), environment, variable);
        lemma_linked_code_writes(functions.last().code, environment, variable);
        let linked = linked_functions(functions, environment)->Ok_0;
        assert(linked.drop_last() =~= linked_functions(functions.drop_last(), environment)->Ok_0);
    }
}

/// In the code that compiling a script yields, each variable below the
/// count of variables is set exactly once, by one operation or as one
/// parameter of one function, and no variable at or above the count is set
/// at all.
pub proof fn lemma_compiled_variables_set_once(
    script: ScriptView,
    environment: Seq<Seq<char>>,
    variable: nat,
)
    requires
        compiled_script(script, environment) is Ok,
    ensures
        block_writes(compiled_script(script, environment)->Ok_0, variable) == within(
            variable,
            0,
            compiled_script(script, environment)->Ok_0.variables,
        ),
{
    let lowered = lowered_script(script);
    lemma_variables_set_once(script, variable);
    lemma_linked_code_writes(lowered.code, environment, variable);
    lemma_linked_functions_writes(lowered.functions, environment, variable);
}

} // verus!
