//! Names and what they stand for: the last binding of a name in a scope
//! counts, and an inner scope hides the outer ones.
use vstd::prelude::*;
use crate::ir::expr::ExprView;
use crate::ir::instruction::AssignableView;
use crate::ir::instruction::InstructionView;
use crate::lowering::builder::BindingView;
use crate::lowering::builder::BuilderView;
use crate::lowering::instruction::lower_instruction;

verus! {

/// A name stands for what it was bound to last.
pub proof fn lemma_last_binding_counts(
    builder: BuilderView,
    name: Seq<char>,
    first: BindingView,
    second: BindingView,
)
    requires
        builder.wf(),
    ensures
        builder.bind(name, first).lookup(name) == Some(first),
        builder.bind(name, first).bind(name, second).lookup(name) == Some(second),
{
}

/// Binding a name changes nothing about what another name stands for.
pub proof fn lemma_binding_keeps_other_names(
    builder: BuilderView,
    name: Seq<char>,
    binding: BindingView,
    other: Seq<char>,
)
    requires
        builder.wf(),
        other != name,
    ensures
        builder.bind(name, binding).lookup(other) == builder.lookup(other),
{
    let bound = builder.bind(name, binding);
    assert(bound.unit.frames.drop_last() =~= builder.unit.frames.drop_last());
}

/// After an expression was assigned to a name, the name stands for the
/// variable that holds the value of the expression; of two assignments to
/// one name in one scope, the later one counts.
pub proof fn lemma_assignment_binds_result(
    builder: BuilderView,
    name: Seq<char>,
    first: ExprView,
    second: ExprView,
)
    requires
        builder.wf(),
    ensures
        ({
            let once = lower_instruction(
                InstructionView::Assign { name, assignment: AssignableView::Expression(first) },
                builder,
            );
            let twice = lower_instruction(
                InstructionView::Assign { name, assignment: AssignableView::Expression(second) },
                once,
            );
            &&& once.lookup(name) == Some(BindingView::Variable(builder.variables))
            &&& twice.lookup(name) == Some(BindingView::Variable(once.variables))
        }),
{
}

/// A block starts without bindings of its own: inside it, a name stands for
/// what it stood for outside, until the block binds it.
pub proof fn lemma_block_sees_outer_names(builder: BuilderView, block: Seq<char>, name: Seq<char>)
    ensures
        builder.enter(block).lookup(name) == builder.lookup(name),
{
    assert(builder.enter(block).unit.frames.drop_last() =~= builder.unit.frames);
}

} // verus!
