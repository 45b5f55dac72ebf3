//! Lowering of instructions: one pass over the tree, in the order of the
//! script, each instruction taking the builder from where the one before it
//! left it.
use vstd::prelude::*;
use crate::ir::instruction::instructions_view;
use crate::ir::instruction::Assignable;
use crate::ir::instruction::AssignableView;
use crate::ir::instruction::Instruction;
use crate::ir::instruction::InstructionView;
use crate::lowering::builder::Binding;
use crate::lowering::builder::BindingView;
use crate::lowering::builder::Builder;
use crate::lowering::builder::BuilderView;
use crate::lowering::expr::expr_size;
use crate::lowering::expr::lower_expr;
use crate::target::operation::Operand;
use crate::target::operation::Operation;
use crate::target::operation::OperandView;
use crate::target::operation::OperationView;

verus! {

/// The number of variables that the lowering of `instruction` takes: one for
/// each node of its expressions and one for each parameter of its functions.
pub open spec fn instruction_variables(instruction: InstructionView) -> nat
    decreases instruction,
{
    match instruction {
        InstructionView::Assign { name, assignment: AssignableView::Expression(expr) } => expr_size(
            expr,
        ),
        InstructionView::Assign {
            name,
            assignment: AssignableView::Function { arguments, instructions },
        } => arguments.len() + block_variables(instructions),
        InstructionView::Scope { name, instructions } => block_variables(instructions),
        InstructionView::Exit { scope, value } => expr_size(value),
    }
}

/// The number of variables that the lowering of `instructions` takes.
pub open spec fn block_variables(instructions: Seq<InstructionView>) -> nat
    decreases instructions,
{
    if instructions.len() == 0 {
        0
    } else {
        block_variables(instructions.drop_last()) + instruction_variables(instructions.last())
    }
}

/// The number of labels that the lowering of `instruction` takes: one for
/// each block in it.
pub open spec fn instruction_labels(instruction: InstructionView) -> nat
    decreases instruction,
{
    match instruction {
        InstructionView::Assign { name, assignment: AssignableView::Expression(expr) } => 0,
        InstructionView::Assign {
            name,
            assignment: AssignableView::Function { arguments, instructions },
        } => block_labels(instructions),
        InstructionView::Scope { name, instructions } => 1 + block_labels(instructions),
        InstructionView::Exit { scope, value } => 0,
    }
}

/// The number of labels that the lowering of `instructions` takes.
pub open spec fn block_labels(instructions: Seq<InstructionView>) -> nat
    decreases instructions,
{
    if instructions.len() == 0 {
        0
    } else {
        block_labels(instructions.drop_last()) + instruction_labels(instructions.last())
    }
}

/// The operation that ends execution for an exit whose value is in `value`:
/// where the exit names a block that encloses it in the unit, the block is
/// left; where it names none, or names one that does not enclose it, the
/// unit returns.
pub open spec fn exit_operation(
    scope: Option<Seq<char>>,
    value: OperandView,
    builder: BuilderView,
) -> OperationView<Seq<char>> {
    match scope {
        Some(name) => match builder.target(name) {
            Some(end) => OperationView::Leave { scope: end, value },
            None => OperationView::Return(value),
        },
        None => OperationView::Return(value),
    }
}

/// The builder after `instruction` was lowered.
///
/// * An exit lowers its value and then ends execution by
///   [`exit_operation`].
/// * A block is lowered inside a scope of its own, closed by a fresh label
///   that is placed behind its last operation.
/// * An assignment of an expression lowers the expression and binds the name
///   to the variable that holds its value.
/// * An assignment of a function lowers the body as a unit of its own, whose
///   root scope binds the parameters, and binds the name to the function.
pub open spec fn lower_instruction(instruction: InstructionView, builder: BuilderView) -> BuilderView
    decreases instruction,
{
    match instruction {
        InstructionView::Assign { name, assignment: AssignableView::Expression(expr) } => lower_expr(
            expr,
            builder,
        ).bind(name, BindingView::Variable(builder.variables)),
        InstructionView::Assign {
            name,
            assignment: AssignableView::Function { arguments, instructions },
        } => {
            let body = lower_block(instructions, builder.begin(arguments));
            body.end().bind(name, BindingView::Function(body.functions.len()))
        },
        InstructionView::Scope { name, instructions } => lower_block(
            instructions,
            builder.enter(name),
        ).leave().push(OperationView::Label(builder.labels)),
        InstructionView::Exit { scope, value } => lower_expr(value, builder).push(
            exit_operation(scope, OperandView::Variable(builder.variables), builder),
        ),
    }
}

/// The builder after `instructions` were lowered one after the other.
pub open spec fn lower_block(instructions: Seq<InstructionView>, builder: BuilderView) -> BuilderView
    decreases instructions,
{
    if instructions.len() == 0 {
        builder
    } else {
        lower_instruction(instructions.last(), lower_block(instructions.drop_last(), builder))
    }
}

/// Whether `after` is at the same place of the tree as `before`: in the same
/// unit, with the same units waiting, inside the same scopes. Only what is
/// bound in the innermost scope may differ.
pub open spec fn same_place(before: BuilderView, after: BuilderView) -> bool {
    &&& after.wf()
    &&& after.suspended == before.suspended
    &&& after.unit.parameters == before.unit.parameters
    &&& after.unit.frames.len() == before.unit.frames.len()
    &&& after.unit.frames.drop_last() == before.unit.frames.drop_last()
    &&& after.unit.frames.last().scope == before.unit.frames.last().scope
}

/// Lowering an instruction leaves the builder at the place where it was, and
/// takes as many variables and labels as the instruction counts.
pub proof fn lemma_lower_instruction_place(instruction: InstructionView, builder: BuilderView)
    requires
        builder.wf(),
    ensures
        same_place(builder, lower_instruction(instruction, builder)),
        lower_instruction(instruction, builder).variables == builder.variables
            + instruction_variables(instruction),
        lower_instruction(instruction, builder).labels == builder.labels + instruction_labels(
            instruction,
        ),
    decreases instruction, 0nat,
{
    match instruction {
        InstructionView::Assign { name, assignment: AssignableView::Expression(expr) } => {
            let lowered = lower_expr(expr, builder);
            assert(lowered.bind(name, BindingView::Variable(builder.variables)).unit.frames.drop_last()
                =~= builder.unit.frames.drop_last());
        },
        InstructionView::Assign {
            name,
            assignment: AssignableView::Function { arguments, instructions },
        } => {
            let begun = builder.begin(arguments);
            let body = lower_block(instructions, begun);
            lemma_lower_block_place(instructions, begun);
            assert(body.suspended.last() == builder.unit);
            assert(body.suspended.drop_last() =~= builder.suspended);
            let ended = body.end();
            assert(ended.bind(name, BindingView::Function(body.functions.len())).unit.frames.drop_last()
                =~= builder.unit.frames.drop_last());
        },
        InstructionView::Scope { name, instructions } => {
            let entered = builder.enter(name);
            lemma_lower_block_place(instructions, entered);
            let body = lower_block(instructions, entered);
            assert(entered.unit.frames.drop_last() =~= builder.unit.frames);
            assert(body.leave().unit.frames =~= builder.unit.frames);
        },
        InstructionView::Exit { scope, value } => {},
    }
}

/// Lowering a list of instructions leaves the builder at the place where it
/// was, and takes as many variables and labels as the instructions count.
pub proof fn lemma_lower_block_place(instructions: Seq<InstructionView>, builder: BuilderView)
    requires
        builder.wf(),
    ensures
        same_place(builder, lower_block(instructions, builder)),
        lower_block(instructions, builder).variables == builder.variables + block_variables(
            instructions,
        ),
        lower_block(instructions, builder).labels == builder.labels + block_labels(instructions),
    decreases instructions, 1nat,
{
    if instructions.len() > 0 {
        lemma_lower_block_place(instructions.drop_last(), builder);
        lemma_lower_instruction_place(
            instructions.last(),
            lower_block(instructions.drop_last(), builder),
        );
    }
}

/// The first instructions of a list take no more variables and labels than
/// the list.
pub proof fn lemma_block_prefix(instructions: Seq<InstructionView>, count: int)
    requires
        0 <= count <= instructions.len(),
    ensures
        block_variables(instructions.take(count)) <= block_variables(instructions),
        block_labels(instructions.take(count)) <= block_labels(instructions),
    decreases instructions.len(),
{
    if count == instructions.len() {
        assert(instructions.take(count) =~= instructions);
    } else {
        lemma_block_prefix(instructions.drop_last(), count);
        assert(instructions.drop_last().take(count) =~= instructions.take(count));
    }
}

impl Instruction {
    /// Lowers the instruction into `builder`.
    pub fn compile(&self, builder: &mut Builder)
        requires
            old(builder)@.wf(),
            old(builder)@.variables + instruction_variables(self@) <= usize::MAX,
            old(builder)@.labels + instruction_labels(self@) <= usize::MAX,
        ensures
            final(builder)@ == lower_instruction(self@, old(builder)@),
        decreases self,
    {
        let ghost start = builder@;
        match self {
            Instruction::Assign { name, assignment } => match assignment {
                Assignable::Expression(expr) => {
                    let value = expr.compile(builder);
                    match value {
                        Operand::Variable(variable) => {
                            builder.bind(name.clone(), Binding::Variable(variable));
                        },
                        Operand::Constant(_) => unreached(),
                    }
                },
                Assignable::Function { arguments, instructions } => {
                    builder.begin_function(arguments);
                    proof {
                        lemma_lower_block_place(instructions_view(instructions@), builder@);
                    }
                    compile_block(instructions, builder);
                    let index = builder.end_function();
                    builder.bind(name.clone(), Binding::Function(index));
                },
            },
            Instruction::Scope { name, instructions } => {
                let end = builder.enter_scope(name.clone());
                proof {
                    lemma_lower_block_place(instructions_view(instructions@), builder@);
                }
                compile_block(instructions, builder);
                builder.leave_scope();
                builder.push(Operation::Label(end));
            },
            Instruction::Exit { scope, value } => {
                let end = match scope {
                    Some(name) => builder.target(name),
                    None => None,
                };
                let result = value.compile(builder);
                match end {
                    Some(label) => {
                        builder.push(Operation::Leave { scope: label, value: result });
                    },
                    None => {
                        builder.push(Operation::Return(result));
                    },
                }
            },
        }
    }
}

/// Lowers `instructions` into `builder`, one after the other, in their order.
pub fn compile_block(instructions: &Vec<Instruction>, builder: &mut Builder)
    requires
        old(builder)@.wf(),
        old(builder)@.variables + block_variables(instructions_view(instructions@)) <= usize::MAX,
        old(builder)@.labels + block_labels(instructions_view(instructions@)) <= usize::MAX,
    ensures
        final(builder)@ == lower_block(instructions_view(instructions@), old(builder)@),
    decreases instructions,
{
    let ghost start = builder@;
    let ghost block = instructions_view(instructions@);
    let mut i: usize = 0;
    proof {
        assert(block.take(0) =~= Seq::empty());
    }
    while i < instructions.len()
        invariant
            i <= instructions.len(),
            block.len() == instructions@.len(),
            forall|k: int| 0 <= k < instructions@.len() ==> block[k] == (#[trigger] instructions@[k])@,
            start.wf(),
            start.variables + block_variables(block) <= usize::MAX,
            start.labels + block_labels(block) <= usize::MAX,
            builder@ == lower_block(block.take(i as int), start),
        decreases instructions.len() - i,
    {
        proof {
            assert(block.take(i + 1).drop_last() =~= block.take(i as int));
            assert(block.take(i + 1).last() == instructions@[i as int]@);
            lemma_block_prefix(block, i + 1);
            lemma_lower_block_place(block.take(i as int), start);
        }
        instructions[i].compile(builder);
        i = i + 1;
    }
    proof {
        assert(block.take(i as int) =~= block);
    }
}

} // verus!
