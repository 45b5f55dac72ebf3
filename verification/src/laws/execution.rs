//! Lowering keeps the meaning: the code of an expression computes the value
//! of the expression, and the code of a script ends as the script does.
use vstd::prelude::*;
use crate::ir::expr::ExprBuiltinView;
use crate::ir::expr::ExprView;
use crate::laws::linked::lemma_linked_code_length;
use crate::laws::linked::lemma_linked_code_positions;
use crate::laws::operands::lemma_exprs_results_length;
use crate::linking::linked_operation;
use crate::ir::instruction::AssignableView;
use crate::ir::instruction::InstructionView;
use crate::laws::scopes::lemma_expr_code_plain;
use crate::lowering::builder::scope_target;
use crate::lowering::builder::BindingView;
use crate::lowering::builder::BuilderView;
use crate::lowering::builder::FrameView;
use crate::lowering::expr::expr_code;
use crate::lowering::expr::expr_size;
use crate::lowering::expr::exprs_code;
use crate::lowering::expr::exprs_results;
use crate::lowering::expr::exprs_size;
use crate::lowering::expr::lower_expr;
use crate::lowering::instruction::exit_operation;
use crate::lowering::instruction::lemma_lower_block_place;
use crate::lowering::instruction::lower_block;
use crate::lowering::instruction::lower_instruction;
use crate::semantics::machine::lemma_run_concat;
use crate::semantics::machine::lemma_run_step;
use crate::semantics::machine::read;
use crate::semantics::machine::read_all;
use crate::semantics::machine::run;
use crate::semantics::machine::step;
use crate::semantics::machine::Machine;
use crate::semantics::machine::Outcome;
use crate::semantics::machine::Store;
use crate::ir::instruction::ScriptView;
use crate::lowering::script::compiled_script;
use crate::lowering::script::lowered_script;
use crate::semantics::script::block_flow;
use crate::semantics::script::eval;
use crate::semantics::script::instruction_flow;
use crate::semantics::script::script_result;
use crate::semantics::script::Flow;
use crate::semantics::script::eval_all;
use crate::target::constant::ConstantView;
use crate::target::environment::lemma_resolve_name;
use crate::target::operation::OperandView;
use crate::target::operation::OperationView;

verus! {

/// Whether a run ran to its end, with the variables below `first` as they
/// were in `before`.
pub open spec fn completed_above(outcome: Outcome, before: Store, first: nat) -> bool {
    &&& outcome is Completed
    &&& forall|variable: nat| variable < first ==> outcome->Completed_store[variable]
        == before[variable]
}

/// Every expression has at least one node.
pub proof fn lemma_expr_size_positive(expr: ExprView)
    ensures
        expr_size(expr) >= 1,
{
}

/// The result of each of a list of expressions lies in a variable that the
/// expressions take.
pub proof fn lemma_exprs_results_within(exprs: Seq<ExprView>, first: nat, position: int)
    requires
        0 <= position < exprs.len(),
    ensures
        exprs_results(exprs, first).len() == exprs.len(),
        exprs_results(exprs, first)[position] matches OperandView::Variable(result) && first
            <= result < first + exprs_size(exprs),
    decreases exprs.len(),
{
    lemma_exprs_results_length(exprs, first);
    lemma_exprs_results_length(exprs.drop_last(), first);
    lemma_expr_size_positive(exprs.last());
    if position < exprs.len() - 1 {
        lemma_exprs_results_within(exprs.drop_last(), first, position);
    }
}

/// The code of an expression runs to its end and leaves the value of the
/// expression in the first variable that the expression takes. It changes
/// no variable below this one.
pub proof fn lemma_expr_code_computes_value(
    machine: Machine<Seq<char>>,
    expr: ExprView,
    first: nat,
    store: Store,
)
    ensures
        completed_above(run(machine, expr_code(expr, first), store, None), store, first),
        run(machine, expr_code(expr, first), store, None)->Completed_store[first] == eval(
            machine,
            expr,
        ),
    decreases expr, 0nat,
{
    match expr {
        ExprView::Dynamic { operator, args } => {
            let code = exprs_code(args, first + 1);
            let operation = OperationView::Call {
                intrinsic: operator,
                arguments: exprs_results(args, first + 1),
                destination: first,
            };
            lemma_exprs_code_computes_values(machine, args, first + 1, store);
            let between = run(machine, code, store, None)->Completed_store;
            lemma_run_concat(machine, code, seq![operation], store, None);
            lemma_run_step(machine, operation, between);
            assert(expr_code(expr, first) =~= code + seq![operation]);
        },
        ExprView::Builtin(ExprBuiltinView::Binary { op, left, right }) => {
            let left_first = first + 1;
            let right_first = first + 1 + expr_size(*left);
            let left_code = expr_code(*left, left_first);
            let right_code = expr_code(*right, right_first);
            let operation = OperationView::<Seq<char>>::Binary {
                op,
                left: OperandView::Variable(left_first),
                right: OperandView::Variable(right_first),
                destination: first,
            };
            lemma_expr_size_positive(*left);
            lemma_expr_code_computes_value(machine, *left, left_first, store);
            let after_left = run(machine, left_code, store, None)->Completed_store;
            lemma_expr_code_computes_value(machine, *right, right_first, after_left);
            let after_right = run(machine, right_code, after_left, None)->Completed_store;
            lemma_run_concat(machine, left_code, right_code, store, None);
            lemma_run_concat(machine, left_code + right_code, seq![operation], store, None);
            lemma_run_step(machine, operation, after_right);
            assert(expr_code(expr, first) =~= (left_code + right_code) + seq![operation]);
            assert(after_right[left_first] == after_left[left_first]);
        },
        ExprView::Builtin(ExprBuiltinView::Unary { op, operand }) => {
            let code = expr_code(*operand, first + 1);
            let operation = OperationView::<Seq<char>>::Unary {
                op,
                operand: OperandView::Variable(first + 1),
                destination: first,
            };
            lemma_expr_code_computes_value(machine, *operand, first + 1, store);
            let between = run(machine, code, store, None)->Completed_store;
            lemma_run_concat(machine, code, seq![operation], store, None);
            lemma_run_step(machine, operation, between);
            assert(expr_code(expr, first) =~= code + seq![operation]);
        },
        ExprView::Literal(literal) => {
            lemma_run_step(machine, expr_code(expr, first)[0], store);
            assert(expr_code(expr, first) =~= seq![expr_code(expr, first)[0]]);
        },
    }
}

/// The code of a list of expressions runs to its end and leaves the value
/// of each expression in the variable of its result. It changes no variable
/// below the first one that the expressions take.
pub proof fn lemma_exprs_code_computes_values(
    machine: Machine<Seq<char>>,
    exprs: Seq<ExprView>,
    first: nat,
    store: Store,
)
    ensures
        completed_above(run(machine, exprs_code(exprs, first), store, None), store, first),
        read_all(
            exprs_results(exprs, first),
            run(machine, exprs_code(exprs, first), store, None)->Completed_store,
        ) == eval_all(machine, exprs),
    decreases exprs, 1nat,
{
    if exprs.len() == 0 {
        assert(read_all(exprs_results(exprs, first), store) =~= eval_all(machine, exprs));
    } else {
        let shorter = exprs.drop_last();
        let last_first = first + exprs_size(shorter);
        let shorter_code = exprs_code(shorter, first);
        let last_code = expr_code(exprs.last(), last_first);
        lemma_exprs_code_computes_values(machine, shorter, first, store);
        let between = run(machine, shorter_code, store, None)->Completed_store;
        lemma_expr_code_computes_value(machine, exprs.last(), last_first, between);
        let after = run(machine, last_code, between, None)->Completed_store;
        lemma_run_concat(machine, shorter_code, last_code, store, None);
        lemma_exprs_results_length(exprs, first);
        lemma_exprs_results_length(shorter, first);
        let results = exprs_results(exprs, first);
        let values = eval_all(machine, exprs);
        assert(read_all(results, after).len() == values.len());
        assert forall|i: int| 0 <= i < results.len() implies read_all(results, after)[i]
            == values[i] by {
            if i < shorter.len() {
                lemma_exprs_results_within(shorter, first, i);
                assert(results[i] == exprs_results(shorter, first)[i]);
                assert(read_all(exprs_results(shorter, first), between)[i] == eval_all(
                    machine,
                    shorter,
                )[i]);
            }
        }
        assert(read_all(results, after) =~= values);
    }
}

/// The code that was emitted into the current unit between two states of a
/// builder.
pub open spec fn emitted(before: BuilderView, after: BuilderView) -> Seq<OperationView<Seq<char>>> {
    after.unit.code.skip(before.unit.code.len() as int)
}

/// Whether `after` holds the code of `before` and, behind it, what was
/// emitted since.
pub open spec fn extends(before: BuilderView, after: BuilderView) -> bool {
    after.unit.code == before.unit.code + emitted(before, after)
}

/// Whether every label that is placed in `code` lies in the range from
/// `low` up to, not including, `high`.
pub open spec fn labels_within(code: Seq<OperationView<Seq<char>>>, low: nat, high: nat) -> bool {
    forall|i: int|
        0 <= i < code.len() ==> ((#[trigger] code[i]) matches OperationView::Label(label) ==> low
            <= label < high)
}

/// Whether the label of every block among `frames` is below `bound`.
pub open spec fn frames_below(frames: Seq<FrameView>, bound: nat) -> bool {
    forall|k: int|
        0 <= k < frames.len() ==> ((#[trigger] frames[k]).scope matches Some(block) ==> block.1
            < bound)
}

/// The names of the blocks among `frames`, in their order.
pub open spec fn frame_names(frames: Seq<FrameView>) -> Seq<Seq<char>>
    decreases frames.len(),
{
    if frames.len() == 0 {
        Seq::empty()
    } else {
        match frames.last().scope {
            Some(block) => frame_names(frames.drop_last()).push(block.0),
            None => frame_names(frames.drop_last()),
        }
    }
}

/// Whether two lists of frames hold the same blocks at the same places.
pub open spec fn same_scopes(first: Seq<FrameView>, second: Seq<FrameView>) -> bool {
    &&& first.len() == second.len()
    &&& forall|k: int| 0 <= k < first.len() ==> (#[trigger] first[k]).scope == second[k].scope
}

/// Frames with the same blocks have the same names.
pub proof fn lemma_same_scopes_names(first: Seq<FrameView>, second: Seq<FrameView>)
    requires
        same_scopes(first, second),
    ensures
        frame_names(first) == frame_names(second),
    decreases first.len(),
{
    if first.len() > 0 {
        assert(first.last().scope == second.last().scope) by {
            assert(first[first.len() - 1].scope == second[first.len() - 1].scope);
        }
        assert(same_scopes(first.drop_last(), second.drop_last())) by {
            assert forall|k: int| 0 <= k < first.drop_last().len() implies (
            #[trigger] first.drop_last()[k]).scope == second.drop_last()[k].scope by {
                assert(first[k].scope == second[k].scope);
            }
        }
        lemma_same_scopes_names(first.drop_last(), second.drop_last());
    }
}

/// Frames with the same blocks have the same targets.
pub proof fn lemma_same_scopes_target(
    first: Seq<FrameView>,
    second: Seq<FrameView>,
    name: Seq<char>,
)
    requires
        same_scopes(first, second),
    ensures
        scope_target(first, name) == scope_target(second, name),
    decreases first.len(),
{
    if first.len() > 0 {
        assert(first.last().scope == second.last().scope) by {
            assert(first[first.len() - 1].scope == second[first.len() - 1].scope);
        }
        assert(same_scopes(first.drop_last(), second.drop_last())) by {
            assert forall|k: int| 0 <= k < first.drop_last().len() implies (
            #[trigger] first.drop_last()[k]).scope == second.drop_last()[k].scope by {
                assert(first[k].scope == second[k].scope);
            }
        }
        lemma_same_scopes_target(first.drop_last(), second.drop_last(), name);
    }
}

/// A name has a target exactly if a block of this name encloses the
/// position.
pub proof fn lemma_target_of_enclosing(frames: Seq<FrameView>, name: Seq<char>)
    ensures
        scope_target(frames, name) is Some <==> frame_names(frames).contains(name),
    decreases frames.len(),
{
    if frames.len() > 0 {
        let outer = frames.drop_last();
        lemma_target_of_enclosing(outer, name);
        match frames.last().scope {
            Some(block) => {
                let names = frame_names(outer).push(block.0);
                if block.0 == name {
                    assert(names[names.len() - 1] == name);
                } else {
                    if frame_names(outer).contains(name) {
                        let i = choose|i: int|
                            0 <= i < frame_names(outer).len() && frame_names(outer)[i] == name;
                        assert(names[i] == name);
                    }
                    if names.contains(name) {
                        let i = choose|i: int| 0 <= i < names.len() && names[i] == name;
                        assert(frame_names(outer)[i] == name);
                    }
                }
            },
            None => {},
        }
    }
}

/// Where a block is being left whose label is not placed in the code, the
/// run passes over all of the code.
pub proof fn lemma_run_passes_over<I>(
    machine: Machine<I>,
    code: Seq<OperationView<I>>,
    store: Store,
    label: nat,
    value: ConstantView,
)
    requires
        forall|i: int| 0 <= i < code.len() ==> #[trigger] code[i] != OperationView::<I>::Label(label),
    ensures
        run(machine, code, store, Some((label, value))) == (Outcome::Left { label, value, store }),
    decreases code.len(),
{
    if code.len() > 0 {
        let rest = code.skip(1);
        assert forall|i: int| 0 <= i < rest.len() implies #[trigger] rest[i] != OperationView::<
            I,
        >::Label(label) by {
            assert(rest[i] == code[i + 1]);
        }
        assert(code[0] != OperationView::<I>::Label(label));
        lemma_run_passes_over(machine, rest, store, label, value);
    }
}

/// Whether `after` came out of `before` by emitting code behind its code,
/// with fresh labels only, and inside the same blocks.
pub open spec fn emits(before: BuilderView, after: BuilderView) -> bool {
    &&& extends(before, after)
    &&& before.labels <= after.labels
    &&& labels_within(emitted(before, after), before.labels, after.labels)
    &&& same_scopes(after.unit.frames, before.unit.frames)
}

/// What is emitted in two steps is what is emitted in the first step and,
/// behind it, what is emitted in the second.
pub proof fn lemma_emits_in_two_steps(before: BuilderView, between: BuilderView, after: BuilderView)
    requires
        emits(before, between),
        emits(between, after),
    ensures
        emits(before, after),
        emitted(before, after) == emitted(before, between) + emitted(between, after),
{
    assert(emitted(before, after) =~= emitted(before, between) + emitted(between, after));
    assert(after.unit.code =~= before.unit.code + emitted(before, after));
    assert forall|k: int| 0 <= k < after.unit.frames.len() implies (
    #[trigger] after.unit.frames[k]).scope == before.unit.frames[k].scope by {
        assert(between.unit.frames[k].scope == before.unit.frames[k].scope);
    }
}

/// Lowering an expression emits the code of the expression.
pub proof fn lemma_lower_expr_emits(expr: ExprView, builder: BuilderView)
    ensures
        emits(builder, lower_expr(expr, builder)),
        emitted(builder, lower_expr(expr, builder)) == expr_code(expr, builder.variables),
{
    let code = expr_code(expr, builder.variables);
    lemma_expr_code_plain(expr, builder.variables);
    assert(emitted(builder, lower_expr(expr, builder)) =~= code);
}

/// Binding a name emits nothing.
pub proof fn lemma_bind_emits(builder: BuilderView, name: Seq<char>, binding: BindingView)
    requires
        builder.wf(),
    ensures
        emits(builder, builder.bind(name, binding)),
        emitted(builder, builder.bind(name, binding)) == Seq::<OperationView<Seq<char>>>::empty(),
{
    let bound = builder.bind(name, binding);
    assert(emitted(builder, bound) =~= Seq::<OperationView<Seq<char>>>::empty());
    assert(bound.unit.code =~= builder.unit.code + emitted(builder, bound));
}

/// Lowering an instruction emits code behind the code of the current unit,
/// places only labels that it has taken, and ends inside the same blocks.
pub proof fn lemma_lower_instruction_emits(instruction: InstructionView, builder: BuilderView)
    requires
        builder.wf(),
    ensures
        emits(builder, lower_instruction(instruction, builder)),
    decreases instruction, 0nat,
{
    let after = lower_instruction(instruction, builder);
    match instruction {
        InstructionView::Assign { name, assignment: AssignableView::Expression(expr) } => {
            let lowered = lower_expr(expr, builder);
            lemma_lower_expr_emits(expr, builder);
            lemma_bind_emits(lowered, name, BindingView::Variable(builder.variables));
            lemma_emits_in_two_steps(builder, lowered, after);
        },
        InstructionView::Assign {
            name,
            assignment: AssignableView::Function { arguments, instructions },
        } => {
            let begun = builder.begin(arguments);
            let body = lower_block(instructions, begun);
            lemma_lower_block_place(instructions, begun);
            lemma_lower_block_emits(instructions, begun);
            let ended = body.end();
            assert(ended.unit == builder.unit);
            assert(emitted(builder, ended) =~= Seq::<OperationView<Seq<char>>>::empty());
            assert(ended.unit.code =~= builder.unit.code + emitted(builder, ended));
            assert(emits(builder, ended));
            lemma_bind_emits(ended, name, BindingView::Function(body.functions.len()));
            lemma_emits_in_two_steps(builder, ended, after);
        },
        InstructionView::Scope { name, instructions } => {
            let entered = builder.enter(name);
            let body = lower_block(instructions, entered);
            lemma_lower_block_emits(instructions, entered);
            lemma_lower_block_place(instructions, entered);
            let end = builder.labels;
            assert(emitted(builder, after) =~= emitted(entered, body).push(
                OperationView::Label(end),
            ));
            assert(after.unit.code =~= builder.unit.code + emitted(builder, after));
            assert(entered.unit.frames.drop_last() =~= builder.unit.frames);
            assert(after.unit.frames =~= builder.unit.frames);
        },
        InstructionView::Exit { scope, value } => {
            let lowered = lower_expr(value, builder);
            lemma_lower_expr_emits(value, builder);
            let operation = exit_operation(
                scope,
                OperandView::Variable(builder.variables),
                builder,
            );
            assert(emitted(builder, after) =~= emitted(builder, lowered).push(operation));
            assert(after.unit.code =~= builder.unit.code + emitted(builder, after));
        },
    }
}

/// Lowering a list of instructions emits code behind the code of the
/// current unit, places only labels that it has taken, and ends inside the
/// same blocks.
pub proof fn lemma_lower_block_emits(instructions: Seq<InstructionView>, builder: BuilderView)
    requires
        builder.wf(),
    ensures
        emits(builder, lower_block(instructions, builder)),
    decreases instructions, 1nat,
{
    if instructions.len() > 0 {
        let between = lower_block(instructions.drop_last(), builder);
        lemma_lower_block_emits(instructions.drop_last(), builder);
        lemma_lower_block_place(instructions.drop_last(), builder);
        lemma_lower_instruction_emits(instructions.last(), between);
        lemma_emits_in_two_steps(builder, between, lower_block(instructions, builder));
    } else {
        assert(emitted(builder, builder) =~= Seq::<OperationView<Seq<char>>>::empty());
        assert(builder.unit.code =~= builder.unit.code + emitted(builder, builder));
    }
}

/// Whether a run of code ends as the execution of instructions does: it
/// runs to its end where execution goes on, it returns the value with which
/// an exit ends the unit, and it has left the label of the block that an
/// exit ends, with the value of the exit.
pub open spec fn ends_as(outcome: Outcome, flow: Flow, frames: Seq<FrameView>) -> bool {
    match flow {
        Flow::Normal => outcome is Completed,
        Flow::Leaving { name, value } => {
            &&& outcome is Left
            &&& scope_target(frames, name) == Some(outcome->Left_label)
            &&& outcome->Left_value == value
        },
        Flow::Returning { value } => outcome == (Outcome::Returned { value }),
    }
}

/// The label of a block that encloses the position is below the bound of
/// the labels of all such blocks.
pub proof fn lemma_target_below(frames: Seq<FrameView>, name: Seq<char>, bound: nat)
    requires
        frames_below(frames, bound),
    ensures
        scope_target(frames, name) matches Some(end) ==> end < bound,
    decreases frames.len(),
{
    if frames.len() > 0 {
        assert(frames_below(frames.drop_last(), bound)) by {
            assert forall|k: int| 0 <= k < frames.drop_last().len() implies ((
            #[trigger] frames.drop_last()[k]).scope matches Some(block) ==> block.1 < bound) by {
                assert(frames[k] == frames.drop_last()[k]);
            }
        }
        lemma_target_below(frames.drop_last(), name, bound);
        assert(frames[frames.len() - 1] == frames.last());
    }
}

/// Where a block is being left whose label is below those that the code
/// places, the run passes over all of the code.
pub proof fn lemma_run_passes_over_fresh(
    machine: Machine<Seq<char>>,
    code: Seq<OperationView<Seq<char>>>,
    store: Store,
    label: nat,
    value: ConstantView,
    low: nat,
    high: nat,
)
    requires
        labels_within(code, low, high),
        label < low,
    ensures
        run(machine, code, store, Some((label, value))) == (Outcome::Left { label, value, store }),
{
    assert forall|i: int| 0 <= i < code.len() implies #[trigger] code[i] != OperationView::<
        Seq<char>,
    >::Label(label) by {}
    lemma_run_passes_over(machine, code, store, label, value);
}

/// The code that the lowering of an instruction emits ends as the
/// instruction does.
pub proof fn lemma_instruction_code_ends_as(
    machine: Machine<Seq<char>>,
    instruction: InstructionView,
    builder: BuilderView,
    store: Store,
)
    requires
        builder.wf(),
        frames_below(builder.unit.frames, builder.labels),
    ensures
        ends_as(
            run(machine, emitted(builder, lower_instruction(instruction, builder)), store, None),
            instruction_flow(machine, instruction, frame_names(builder.unit.frames)),
            builder.unit.frames,
        ),
    decreases instruction, 0nat,
{
    let after = lower_instruction(instruction, builder);
    let code = emitted(builder, after);
    let frames = builder.unit.frames;
    match instruction {
        InstructionView::Assign { name, assignment: AssignableView::Expression(expr) } => {
            let lowered = lower_expr(expr, builder);
            lemma_lower_expr_emits(expr, builder);
            lemma_bind_emits(lowered, name, BindingView::Variable(builder.variables));
            lemma_emits_in_two_steps(builder, lowered, after);
            assert(code =~= expr_code(expr, builder.variables));
            lemma_expr_code_computes_value(machine, expr, builder.variables, store);
        },
        InstructionView::Assign {
            name,
            assignment: AssignableView::Function { arguments, instructions },
        } => {
            let begun = builder.begin(arguments);
            let body = lower_block(instructions, begun);
            lemma_lower_block_place(instructions, begun);
            assert(after.unit.code == builder.unit.code);
            assert(code =~= Seq::<OperationView<Seq<char>>>::empty());
        },
        InstructionView::Scope { name, instructions } => {
            let entered = builder.enter(name);
            let body = lower_block(instructions, entered);
            let end = builder.labels;
            let inner = emitted(entered, body);
            let label = OperationView::<Seq<char>>::Label(end);
            lemma_lower_block_emits(instructions, entered);
            assert(entered.unit.frames.drop_last() =~= frames);
            assert(frames_below(entered.unit.frames, entered.labels)) by {
                assert forall|k: int| 0 <= k < entered.unit.frames.len() implies ((
                #[trigger] entered.unit.frames[k]).scope matches Some(block) ==> block.1
                    < entered.labels) by {
                    if k < frames.len() {
                        assert(entered.unit.frames[k] == frames[k]);
                    }
                }
            }
            lemma_block_code_ends_as(machine, instructions, entered, store);
            assert(frame_names(entered.unit.frames) == frame_names(frames).push(name));
            assert(code =~= inner + seq![label]);
            lemma_run_concat(machine, inner, seq![label], store, None);
            assert(seq![label].skip(1) =~= Seq::<OperationView<Seq<char>>>::empty());
            let flow = block_flow(machine, instructions, frame_names(frames).push(name));
            let outcome = run(machine, inner, store, None);
            match flow {
                Flow::Normal => {
                    let between = outcome->Completed_store;
                    assert(run(machine, seq![label].skip(1), between, None) is Completed);
                },
                Flow::Leaving { name: left, value } => {
                    let between = outcome->Left_store;
                    let target = outcome->Left_label;
                    if left == name {
                        assert(target == end);
                        assert(run(machine, seq![label].skip(1), between, None) is Completed);
                    } else {
                        assert(scope_target(entered.unit.frames, left) == scope_target(frames, left));
                        lemma_target_below(frames, left, builder.labels);
                        assert(target != end);
                        assert(run(machine, seq![label].skip(1), between, Some((target, value)))
                            == (Outcome::Left { label: target, value, store: between }));
                    }
                },
                Flow::Returning { value } => {},
            }
        },
        InstructionView::Exit { scope, value } => {
            let lowered = lower_expr(value, builder);
            let result = OperandView::Variable(builder.variables);
            let operation = exit_operation(scope, result, builder);
            let value_code = expr_code(value, builder.variables);
            lemma_lower_expr_emits(value, builder);
            assert(code =~= value_code + seq![operation]);
            lemma_expr_code_computes_value(machine, value, builder.variables, store);
            lemma_run_concat(machine, value_code, seq![operation], store, None);
            let between = run(machine, value_code, store, None)->Completed_store;
            assert(seq![operation].skip(1) =~= Seq::<OperationView<Seq<char>>>::empty());
            match scope {
                Some(name) => {
                    lemma_target_of_enclosing(frames, name);
                    match builder.target(name) {
                        Some(end) => {
                            assert(run(
                                machine,
                                seq![operation].skip(1),
                                between,
                                Some((end, between[builder.variables])),
                            ) == (Outcome::Left {
                                label: end,
                                value: between[builder.variables],
                                store: between,
                            }));
                        },
                        None => {},
                    }
                },
                None => {},
            }
        },
    }
}

/// The code that the lowering of a list of instructions emits ends as the
/// instructions do.
pub proof fn lemma_block_code_ends_as(
    machine: Machine<Seq<char>>,
    instructions: Seq<InstructionView>,
    builder: BuilderView,
    store: Store,
)
    requires
        builder.wf(),
        frames_below(builder.unit.frames, builder.labels),
    ensures
        ends_as(
            run(machine, emitted(builder, lower_block(instructions, builder)), store, None),
            block_flow(machine, instructions, frame_names(builder.unit.frames)),
            builder.unit.frames,
        ),
    decreases instructions, 1nat,
{
    let frames = builder.unit.frames;
    if instructions.len() == 0 {
        assert(emitted(builder, builder) =~= Seq::<OperationView<Seq<char>>>::empty());
    } else {
        let shorter = instructions.drop_last();
        let between = lower_block(shorter, builder);
        let after = lower_block(instructions, builder);
        let first_code = emitted(builder, between);
        let last_code = emitted(between, after);
        lemma_lower_block_emits(shorter, builder);
        lemma_lower_block_place(shorter, builder);
        lemma_lower_instruction_emits(instructions.last(), between);
        lemma_emits_in_two_steps(builder, between, after);
        lemma_block_code_ends_as(machine, shorter, builder, store);
        lemma_run_concat(machine, first_code, last_code, store, None);
        lemma_same_scopes_names(between.unit.frames, frames);
        assert(frames_below(between.unit.frames, between.labels)) by {
            assert forall|k: int| 0 <= k < between.unit.frames.len() implies ((
            #[trigger] between.unit.frames[k]).scope matches Some(block) ==> block.1
                < between.labels) by {
                assert(between.unit.frames[k].scope == frames[k].scope);
            }
        }
        let outcome = run(machine, first_code, store, None);
        match block_flow(machine, shorter, frame_names(frames)) {
            Flow::Normal => {
                let middle = outcome->Completed_store;
                lemma_instruction_code_ends_as(machine, instructions.last(), between, middle);
                match instruction_flow(machine, instructions.last(), frame_names(frames)) {
                    Flow::Leaving { name, value } => {
                        lemma_same_scopes_target(between.unit.frames, frames, name);
                    },
                    _ => {},
                }
            },
            Flow::Leaving { name, value } => {
                let middle = outcome->Left_store;
                let target = outcome->Left_label;
                lemma_target_below(frames, name, builder.labels);
                lemma_run_passes_over_fresh(
                    machine,
                    last_code,
                    middle,
                    target,
                    value,
                    between.labels,
                    after.labels,
                );
            },
            Flow::Returning { value } => {},
        }
    }
}

/// The code of a script ends as the script does: where an exit ends the
/// script, the code returns the value of the exit; where none does, the
/// code runs to its end. An exit that names an enclosing block ends this
/// block alone, and execution goes on behind it.
pub proof fn lemma_script_code_ends_as_script(
    machine: Machine<Seq<char>>,
    script: ScriptView,
    store: Store,
)
    ensures
        match script_result(machine, script) {
            Some(value) => run(machine, lowered_script(script).code, store, None) == (
            Outcome::Returned { value }),
            None => run(machine, lowered_script(script).code, store, None) is Completed,
        },
{
    let start = BuilderView::initial();
    let end = lower_block(script.instructions, start);
    assert(start.unit.frames.drop_last() =~= Seq::<FrameView>::empty());
    assert(frame_names(Seq::<FrameView>::empty()) == Seq::<Seq<char>>::empty());
    assert(frame_names(start.unit.frames) == Seq::<Seq<char>>::empty());
    lemma_block_code_ends_as(machine, script.instructions, start, store);
    assert(emitted(start, end) =~= end.unit.code);
    match block_flow(machine, script.instructions, Seq::empty()) {
        Flow::Leaving { name, value } => {
            assert(scope_target(Seq::<FrameView>::empty(), name) is None);
            assert(scope_target(start.unit.frames, name) is None);
        },
        _ => {},
    }
}

/// The machine whose code refers to an intrinsic by its handle in
/// `environment`, and which computes what `machine` computes for the name
/// of the intrinsic.
pub open spec fn by_handle(machine: Machine<Seq<char>>, environment: Seq<Seq<char>>) -> Machine<
    usize,
> {
    Machine {
        binary: machine.binary,
        unary: machine.unary,
        call: |handle: usize, arguments: Seq<ConstantView>|
            (machine.call)(environment[handle as int], arguments),
    }
}

/// Whether `linked` is `code` linked against `environment`, operation by
/// operation.
pub open spec fn links_to(
    code: Seq<OperationView<Seq<char>>>,
    linked: Seq<OperationView<usize>>,
    environment: Seq<Seq<char>>,
) -> bool {
    &&& linked.len() == code.len()
    &&& forall|i: int|
        0 <= i < code.len() ==> linked_operation(#[trigger] code[i], environment) == Ok::<
            OperationView<usize>,
            Seq<char>,
        >(linked[i])
}

/// Linked code runs as the code that it was linked from.
pub proof fn lemma_linked_run(
    machine: Machine<Seq<char>>,
    code: Seq<OperationView<Seq<char>>>,
    linked: Seq<OperationView<usize>>,
    environment: Seq<Seq<char>>,
    store: Store,
    leaving: Option<(nat, ConstantView)>,
)
    requires
        environment.len() <= usize::MAX,
        links_to(code, linked, environment),
    ensures
        run(by_handle(machine, environment), linked, store, leaving) == run(
            machine,
            code,
            store,
            leaving,
        ),
    decreases code.len(),
{
    if code.len() > 0 {
        let rest = code.skip(1);
        let linked_rest = linked.skip(1);
        assert(links_to(rest, linked_rest, environment)) by {
            assert forall|i: int| 0 <= i < rest.len() implies linked_operation(
                #[trigger] rest[i],
                environment,
            ) == Ok::<OperationView<usize>, Seq<char>>(linked_rest[i]) by {
                assert(rest[i] == code[i + 1]);
                assert(linked_rest[i] == linked[i + 1]);
            }
        }
        assert(linked_operation(code[0], environment) == Ok::<OperationView<usize>, Seq<char>>(
            linked[0],
        ));
        let handled = by_handle(machine, environment);
        match leaving {
            Some((label, value)) => {
                if code[0] == OperationView::<Seq<char>>::Label(label) {
                    lemma_linked_run(machine, rest, linked_rest, environment, store, None);
                } else {
                    lemma_linked_run(machine, rest, linked_rest, environment, store, leaving);
                }
            },
            None => {
                match code[0] {
                    OperationView::Return(value) => {},
                    OperationView::Leave { scope, value } => {
                        lemma_linked_run(
                            machine,
                            rest,
                            linked_rest,
                            environment,
                            store,
                            Some((scope, read(value, store))),
                        );
                    },
                    OperationView::Call { intrinsic, arguments, destination } => {
                        lemma_resolve_name(environment, intrinsic);
                        assert(step(handled, linked[0], store) == step(machine, code[0], store));
                        lemma_linked_run(
                            machine,
                            rest,
                            linked_rest,
                            environment,
                            step(machine, code[0], store),
                            None,
                        );
                    },
                    _ => {
                        assert(step(handled, linked[0], store) == step(machine, code[0], store));
                        lemma_linked_run(
                            machine,
                            rest,
                            linked_rest,
                            environment,
                            step(machine, code[0], store),
                            None,
                        );
                    },
                }
            },
        }
    }
}

/// The code that compiling a script yields ends as the script does, on a
/// machine that computes for each handle what the host computes for the
/// name: where an exit ends the script, the code returns the value of the
/// exit; where none does, the code runs to its end.
pub proof fn lemma_compiled_code_ends_as_script(
    machine: Machine<Seq<char>>,
    script: ScriptView,
    environment: Seq<Seq<char>>,
    store: Store,
)
    requires
        environment.len() <= usize::MAX,
        compiled_script(script, environment) is Ok,
    ensures
        match script_result(machine, script) {
            Some(value) => run(
                by_handle(machine, environment),
                compiled_script(script, environment)->Ok_0.code,
                store,
                None,
            ) == (Outcome::Returned { value }),
            None => run(
                by_handle(machine, environment),
                compiled_script(script, environment)->Ok_0.code,
                store,
                None,
            ) is Completed,
        },
{
    let lowered = lowered_script(script).code;
    let linked = compiled_script(script, environment)->Ok_0.code;
    lemma_script_code_ends_as_script(machine, script, store);
    lemma_linked_code_length(lowered, environment);
    assert(links_to(lowered, linked, environment)) by {
        assert forall|i: int| 0 <= i < lowered.len() implies linked_operation(
            #[trigger] lowered[i],
            environment,
        ) == Ok::<OperationView<usize>, Seq<char>>(linked[i]) by {
            lemma_linked_code_positions(lowered, environment, i);
        }
    }
    lemma_linked_run(machine, lowered, linked, environment, store, None);
}

/// The code of a function ends as its body does. The body is a unit of its
/// own: no block of the surrounding unit encloses it, so that an exit in it
/// ends a block of the body or the function.
pub proof fn lemma_function_code_ends_as_body(
    machine: Machine<Seq<char>>,
    name: Seq<char>,
    arguments: Seq<Seq<char>>,
    instructions: Seq<InstructionView>,
    builder: BuilderView,
    store: Store,
)
    requires
        builder.wf(),
    ensures
        ({
            let after = lower_instruction(
                InstructionView::Assign {
                    name,
                    assignment: AssignableView::Function { arguments, instructions },
                },
                builder,
            );
            let function = after.functions.last();
            &&& after.functions.len() >= 1
            &&& after.lookup(name) == Some(BindingView::Function((after.functions.len() - 1) as nat))
            &&& function.parameters.len() == arguments.len()
            &&& match block_flow(machine, instructions, Seq::empty()) {
                Flow::Returning { value } => run(machine, function.code, store, None) == (
                Outcome::Returned { value }),
                _ => run(machine, function.code, store, None) is Completed,
            }
        }),
{
    let begun = builder.begin(arguments);
    let body = lower_block(instructions, begun);
    assert(begun.unit.frames.drop_last() =~= Seq::<FrameView>::empty());
    assert(frame_names(Seq::<FrameView>::empty()) == Seq::<Seq<char>>::empty());
    assert(frame_names(begun.unit.frames) == Seq::<Seq<char>>::empty());
    lemma_block_code_ends_as(machine, instructions, begun, store);
    lemma_lower_block_place(instructions, begun);
    assert(emitted(begun, body) =~= body.unit.code);
    match block_flow(machine, instructions, Seq::empty()) {
        Flow::Leaving { name: left, value } => {
            assert(scope_target(Seq::<FrameView>::empty(), left) is None);
            assert(scope_target(begun.unit.frames, left) is None);
        },
        _ => {},
    }
}

} // verus!
