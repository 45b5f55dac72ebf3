//! The numbering of labels: each block takes one fresh label, and the label
//! is placed exactly once, behind the block.
use vstd::prelude::*;
use crate::laws::scopes::plain;
use crate::lowering::builder::BindingView;
use crate::lowering::expr::lower_expr;
use crate::ir::instruction::AssignableView;
use crate::ir::instruction::InstructionView;
use crate::ir::instruction::ScriptView;
use crate::laws::scopes::all_plain;
use crate::laws::scopes::lemma_expr_code_plain;
use crate::laws::variables::within;
use crate::lowering::builder::BuilderView;
use crate::lowering::builder::FrameView;
use crate::lowering::builder::UnitView;
use crate::lowering::expr::expr_code;
use crate::lowering::expr::expr_size;
use crate::lowering::instruction::block_labels;
use crate::lowering::instruction::instruction_labels;
use crate::lowering::instruction::lemma_lower_block_place;
use crate::lowering::instruction::lower_block;
use crate::lowering::instruction::lower_instruction;
use crate::lowering::script::lowered_script;
use crate::target::code::CodeBlockView;
use crate::target::code::FunctionView;
use crate::target::operation::OperationView;

verus! {

/// How often `label` is placed in `code`.
pub open spec fn places<I>(code: Seq<OperationView<I>>, label: nat) -> nat
    decreases code.len(),
{
    if code.len() == 0 {
        0
    } else {
        places(code.drop_last(), label) + if code.last() == OperationView::<I>::Label(label) {
            1nat
        } else {
            0nat
        }
    }
}

/// How often `label` is placed in the code of `functions`.
pub open spec fn functions_place<I>(functions: Seq<FunctionView<I>>, label: nat) -> nat
    decreases functions.len(),
{
    if functions.len() == 0 {
        0
    } else {
        functions_place(functions.drop_last(), label) + places(functions.last().code, label)
    }
}

/// How often `label` is placed in a code block: in its code, or in the code
/// of one of its functions.
pub open spec fn block_places<I>(block: CodeBlockView<I>, label: nat) -> nat {
    places(block.code, label) + functions_place(block.functions, label)
}

/// How many of `frames` are blocks that `label` closes.
pub open spec fn awaits(frames: Seq<FrameView>, label: nat) -> nat
    decreases frames.len(),
{
    if frames.len() == 0 {
        0
    } else {
        awaits(frames.drop_last(), label) + if frames.last().scope is Some
            && frames.last().scope->Some_0.1 == label {
            1nat
        } else {
            0nat
        }
    }
}

/// How often `label` is placed or awaited in the units that wait.
pub open spec fn units_place(units: Seq<UnitView>, label: nat) -> nat
    decreases units.len(),
{
    if units.len() == 0 {
        0
    } else {
        units_place(units.drop_last(), label) + places(units.last().code, label) + awaits(
            units.last().frames,
            label,
        )
    }
}

/// How often `label` is placed, or awaited by an open block, in all that a
/// builder holds.
pub open spec fn builder_places(builder: BuilderView, label: nat) -> nat {
    places(builder.unit.code, label) + awaits(builder.unit.frames, label) + units_place(
        builder.suspended,
        label,
    ) + functions_place(builder.functions, label)
}

/// Plain operations place no label.
pub proof fn lemma_places_plain<I>(
    code: Seq<OperationView<I>>,
    more: Seq<OperationView<I>>,
    label: nat,
)
    requires
        all_plain(more),
    ensures
        places(code + more, label) == places(code, label),
    decreases more.len(),
{
    if more.len() == 0 {
        assert(code + more =~= code);
    } else {
        assert(all_plain(more.drop_last())) by {
            assert forall|i: int| 0 <= i < more.drop_last().len() implies plain(
                #[trigger] more.drop_last()[i],
            ) by {
                assert(more.drop_last()[i] == more[i]);
            }
        }
        lemma_places_plain(code, more.drop_last(), label);
        assert((code + more).drop_last() =~= code + more.drop_last());
        assert((code + more).last() == more[more.len() - 1]);
    }
}

/// Binding a name changes nothing about the blocks that are open.
pub proof fn lemma_bind_places(
    builder: BuilderView,
    name: Seq<char>,
    binding: BindingView,
    label: nat,
)
    requires
        builder.wf(),
    ensures
        builder_places(builder.bind(name, binding), label) == builder_places(builder, label),
{
    let bound = builder.bind(name, binding);
    assert(bound.unit.frames.drop_last() =~= builder.unit.frames.drop_last());
}

/// A unit at its start awaits no label.
pub proof fn lemma_root_awaits(frames: Seq<FrameView>, label: nat)
    requires
        frames.len() == 1,
        frames[0].scope is None,
    ensures
        awaits(frames, label) == 0,
{
    assert(frames.drop_last() =~= Seq::<FrameView>::empty());
    assert(awaits(Seq::<FrameView>::empty(), label) == 0);
}

/// Lowering an instruction places each of the labels that the instruction
/// takes exactly once, and places no other label.
pub proof fn lemma_lower_instruction_places(
    instruction: InstructionView,
    builder: BuilderView,
    label: nat,
)
    requires
        builder.wf(),
    ensures
        builder_places(lower_instruction(instruction, builder), label) == builder_places(
            builder,
            label,
        ) + within(label, builder.labels, builder.labels + instruction_labels(instruction)),
    decreases instruction, 0nat,
{
    match instruction {
        InstructionView::Assign { name, assignment: AssignableView::Expression(expr) } => {
            lemma_expr_code_plain(expr, builder.variables);
            lemma_places_plain(builder.unit.code, expr_code(expr, builder.variables), label);
            lemma_bind_places(
                lower_expr(expr, builder),
                name,
                BindingView::Variable(builder.variables),
                label,
            );
        },
        InstructionView::Assign {
            name,
            assignment: AssignableView::Function { arguments, instructions },
        } => {
            let begun = builder.begin(arguments);
            let body = lower_block(instructions, begun);
            lemma_lower_block_places(instructions, begun, label);
            lemma_lower_block_place(instructions, begun);
            assert(begun.suspended.drop_last() =~= builder.suspended);
            assert(places(begun.unit.code, label) == 0);
            lemma_root_awaits(begun.unit.frames, label);
            lemma_root_awaits(body.unit.frames, label);
            let ended = body.end();
            assert(ended.functions.drop_last() =~= body.functions);
            assert(body.suspended.drop_last() =~= builder.suspended);
            lemma_bind_places(
                ended,
                name,
                BindingView::Function(body.functions.len()),
                label,
            );
        },
        InstructionView::Scope { name, instructions } => {
            let entered = builder.enter(name);
            let body = lower_block(instructions, entered);
            lemma_lower_block_places(instructions, entered, label);
            lemma_lower_block_place(instructions, entered);
            assert(entered.unit.frames.drop_last() =~= builder.unit.frames);
            assert(body.unit.frames.drop_last() =~= builder.unit.frames);
            let left = body.leave();
            assert(left.push(OperationView::Label(builder.labels)).unit.code.drop_last()
                =~= body.unit.code);
        },
        InstructionView::Exit { scope, value } => {
            lemma_expr_code_plain(value, builder.variables);
            lemma_places_plain(builder.unit.code, expr_code(value, builder.variables), label);
            let lowered = builder.emit(expr_code(value, builder.variables)).allocate(
                expr_size(value),
            );
            assert(lower_instruction(instruction, builder).unit.code.drop_last()
                =~= lowered.unit.code);
        },
    }
}

/// Lowering a list of instructions places each of the labels that the
/// instructions take exactly once, and places no other label.
pub proof fn lemma_lower_block_places(
    instructions: Seq<InstructionView>,
    builder: BuilderView,
    label: nat,
)
    requires
        builder.wf(),
    ensures
        builder_places(lower_block(instructions, builder), label) == builder_places(
            builder,
            label,
        ) + within(label, builder.labels, builder.labels + block_labels(instructions)),
    decreases instructions, 1nat,
{
    if instructions.len() > 0 {
        let before = lower_block(instructions.drop_last(), builder);
        lemma_lower_block_places(instructions.drop_last(), builder, label);
        lemma_lower_block_place(instructions.drop_last(), builder);
        lemma_lower_instruction_places(instructions.last(), before, label);
    }
}

/// In the code block that a script is lowered to, each label that the
/// script takes is placed exactly once, and no other label is placed: a
/// label stands for one position in one unit.
pub proof fn lemma_labels_placed_once(script: ScriptView, label: nat)
    ensures
        block_places(lowered_script(script), label) == within(
            label,
            0,
            block_labels(script.instructions),
        ),
{
    let start = BuilderView::initial();
    let end = lower_block(script.instructions, start);
    lemma_lower_block_places(script.instructions, start, label);
    lemma_lower_block_place(script.instructions, start);
    assert(places(start.unit.code, label) == 0);
    lemma_root_awaits(start.unit.frames, label);
    lemma_root_awaits(end.unit.frames, label);
}

} // verus!
