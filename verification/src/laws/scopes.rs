//! Exits and the blocks they end: an exit that names an enclosing block
//! leaves to the label that closes this block, which stands later in the
//! code of the same unit, and each label is placed once.
use vstd::prelude::*;
use crate::lowering::builder::BindingView;
use crate::ir::expr::ExprBuiltinView;
use crate::ir::expr::ExprView;
use crate::ir::instruction::AssignableView;
use crate::ir::instruction::InstructionView;
use crate::ir::instruction::ScriptView;
use crate::lowering::builder::scope_target;
use crate::lowering::builder::BuilderView;
use crate::lowering::builder::FrameView;
use crate::lowering::builder::UnitView;
use crate::lowering::expr::expr_code;
use crate::lowering::expr::expr_size;
use crate::lowering::expr::exprs_code;
use crate::lowering::expr::exprs_size;
use crate::lowering::expr::lower_expr;
use crate::lowering::instruction::exit_operation;
use crate::lowering::instruction::lemma_lower_block_place;
use crate::lowering::instruction::lower_block;
use crate::lowering::instruction::lower_instruction;
use crate::lowering::script::lowered_script;
use crate::target::operation::OperandView;
use crate::target::operation::OperationView;

verus! {

/// Whether the label `label` is placed in `code` at the position `from` or
/// behind it.
pub open spec fn closes<I>(code: Seq<OperationView<I>>, label: nat, from: int) -> bool {
    exists|j: int| from <= j < code.len() && #[trigger] code[j] == OperationView::<I>::Label(label)
}

/// Whether one of `frames` is a block that `label` closes.
pub open spec fn open_label(frames: Seq<FrameView>, label: nat) -> bool {
    exists|k: int|
        0 <= k < frames.len() && (#[trigger] frames[k]).scope is Some && frames[k].scope->Some_0.1
            == label
}

/// Whether the operation at the position `i` of `code`, if it leaves a
/// block, has its label later in `code`, or leaves one of the blocks `frames`,
/// which are still open.
pub open spec fn settled<I>(code: Seq<OperationView<I>>, frames: Seq<FrameView>, i: int) -> bool {
    match code[i] {
        OperationView::Leave { scope, value } => closes(code, scope, i + 1) || open_label(
            frames,
            scope,
        ),
        _ => true,
    }
}

/// Whether each operation of `code` that leaves a block has its label later
/// in `code` or leaves one of the blocks `frames`.
pub open spec fn leaves_settled<I>(code: Seq<OperationView<I>>, frames: Seq<FrameView>) -> bool {
    forall|i: int| 0 <= i < code.len() ==> #[trigger] settled(code, frames, i)
}

/// Whether each operation of `code` that leaves a block has its label later
/// in `code`: execution that leaves a block goes on in the same code, behind
/// the block.
pub open spec fn leaves_closed<I>(code: Seq<OperationView<I>>) -> bool {
    leaves_settled(code, Seq::empty())
}

/// Whether `operation` neither leaves a block nor places a label.
pub open spec fn plain<I>(operation: OperationView<I>) -> bool {
    !(operation is Leave) && !(operation is Label)
}

/// Whether all operations of `code` are plain.
pub open spec fn all_plain<I>(code: Seq<OperationView<I>>) -> bool {
    forall|i: int| 0 <= i < code.len() ==> plain(#[trigger] code[i])
}

/// The code of an expression neither leaves a block nor places a label.
pub proof fn lemma_expr_code_plain(expr: ExprView, first: nat)
    ensures
        all_plain(expr_code(expr, first)),
    decreases expr, 0nat,
{
    match expr {
        ExprView::Dynamic { operator, args } => {
            lemma_exprs_code_plain(args, first + 1);
        },
        ExprView::Builtin(ExprBuiltinView::Binary { op, left, right }) => {
            lemma_expr_code_plain(*left, first + 1);
            lemma_expr_code_plain(*right, first + 1 + expr_size(*left));
        },
        ExprView::Builtin(ExprBuiltinView::Unary { op, operand }) => {
            lemma_expr_code_plain(*operand, first + 1);
        },
        ExprView::Literal(literal) => {},
    }
}

/// The code of a list of expressions neither leaves a block nor places a
/// label.
pub proof fn lemma_exprs_code_plain(exprs: Seq<ExprView>, first: nat)
    ensures
        all_plain(exprs_code(exprs, first)),
    decreases exprs, 1nat,
{
    if exprs.len() > 0 {
        lemma_exprs_code_plain(exprs.drop_last(), first);
        lemma_expr_code_plain(exprs.last(), first + exprs_size(exprs.drop_last()));
    }
}

/// Plain operations added behind settled code leave it settled.
pub proof fn lemma_settled_plain<I>(
    code: Seq<OperationView<I>>,
    more: Seq<OperationView<I>>,
    frames: Seq<FrameView>,
)
    requires
        leaves_settled(code, frames),
        all_plain(more),
    ensures
        leaves_settled(code + more, frames),
{
    let longer = code + more;
    assert forall|i: int| 0 <= i < longer.len() implies #[trigger] settled(longer, frames, i) by {
        if i < code.len() {
            assert(settled(code, frames, i));
            assert(longer[i] == code[i]);
            match code[i] {
                OperationView::Leave { scope, value } => {
                    if closes(code, scope, i + 1) {
                        let j = choose|j: int|
                            i + 1 <= j < code.len() && #[trigger] code[j] == OperationView::<
                                I,
                            >::Label(scope);
                        assert(longer[j] == OperationView::<I>::Label(scope));
                    }
                },
                _ => {},
            }
        } else {
            assert(longer[i] == more[i - code.len()]);
            assert(plain(more[i - code.len()]));
        }
    }
}

/// The label that an exit leaves to closes one of the enclosing blocks.
pub proof fn lemma_target_is_open(frames: Seq<FrameView>, name: Seq<char>)
    ensures
        scope_target(frames, name) matches Some(end) ==> open_label(frames, end),
    decreases frames.len(),
{
    if frames.len() > 0 {
        let outer = frames.drop_last();
        lemma_target_is_open(outer, name);
        match scope_target(frames, name) {
            Some(end) => {
                if scope_target(outer, name) == Some(end) && open_label(outer, end) {
                    let k = choose|k: int|
                        0 <= k < outer.len() && (#[trigger] outer[k]).scope is Some
                            && outer[k].scope->Some_0.1 == end;
                    assert(frames[k] == outer[k]);
                } else {
                    assert(frames[frames.len() - 1].scope->Some_0.1 == end);
                }
            },
            None => {},
        }
    }
}

/// Whether every block among `inner` is among `outer` too.
pub open spec fn covers(outer: Seq<FrameView>, inner: Seq<FrameView>) -> bool {
    forall|label: nat| #[trigger] open_label(inner, label) ==> open_label(outer, label)
}

/// Settled code stays settled where no block was closed.
pub proof fn lemma_settled_frames<I>(
    code: Seq<OperationView<I>>,
    inner: Seq<FrameView>,
    outer: Seq<FrameView>,
)
    requires
        leaves_settled(code, inner),
        covers(outer, inner),
    ensures
        leaves_settled(code, outer),
{
    assert forall|i: int| 0 <= i < code.len() implies #[trigger] settled(code, outer, i) by {
        assert(settled(code, inner, i));
    }
}

/// An operation added behind settled code leaves it settled, unless it
/// leaves a block that is not open.
pub proof fn lemma_settled_push<I>(
    code: Seq<OperationView<I>>,
    operation: OperationView<I>,
    frames: Seq<FrameView>,
)
    requires
        leaves_settled(code, frames),
        operation matches OperationView::Leave { scope, value } ==> open_label(frames, scope),
    ensures
        leaves_settled(code.push(operation), frames),
{
    let longer = code.push(operation);
    assert forall|i: int| 0 <= i < longer.len() implies #[trigger] settled(longer, frames, i) by {
        if i < code.len() {
            assert(settled(code, frames, i));
            assert(longer[i] == code[i]);
            match code[i] {
                OperationView::Leave { scope, value } => {
                    if closes(code, scope, i + 1) {
                        let j = choose|j: int|
                            i + 1 <= j < code.len() && #[trigger] code[j] == OperationView::<
                                I,
                            >::Label(scope);
                        assert(longer[j] == OperationView::<I>::Label(scope));
                    }
                },
                _ => {},
            }
        }
    }
}

/// Frames with the same blocks at the same places have the same labels
/// open.
pub proof fn lemma_covers_same_scopes(outer: Seq<FrameView>, inner: Seq<FrameView>)
    requires
        outer.len() == inner.len(),
        forall|k: int| 0 <= k < inner.len() ==> (#[trigger] outer[k]).scope == inner[k].scope,
    ensures
        covers(outer, inner),
{
    assert forall|label: nat| #[trigger] open_label(inner, label) implies open_label(
        outer,
        label,
    ) by {
        let k = choose|k: int|
            0 <= k < inner.len() && (#[trigger] inner[k]).scope is Some && inner[k].scope->Some_0.1
                == label;
        assert(outer[k].scope == inner[k].scope);
    }
}

/// Whether a unit has its root scope, which is no block, and its code is
/// settled with respect to the blocks that are open in it.
pub open spec fn unit_settled(unit: UnitView) -> bool {
    &&& unit.frames.len() >= 1
    &&& unit.frames[0].scope is None
    &&& leaves_settled(unit.code, unit.frames)
}

/// Whether all that a builder holds is settled: the units under construction
/// with respect to their open blocks, the completed functions without
/// condition.
pub open spec fn scoped(builder: BuilderView) -> bool {
    &&& unit_settled(builder.unit)
    &&& forall|u: int| 0 <= u < builder.suspended.len() ==> unit_settled(#[trigger] builder.suspended[u])
    &&& forall|f: int|
        0 <= f < builder.functions.len() ==> leaves_closed((#[trigger] builder.functions[f]).code)
}

/// Binding a name leaves a settled builder settled.
pub proof fn lemma_bind_scoped(
    builder: BuilderView,
    name: Seq<char>,
    binding: BindingView,
)
    requires
        scoped(builder),
    ensures
        scoped(builder.bind(name, binding)),
{
    let bound = builder.bind(name, binding);
    lemma_covers_same_scopes(bound.unit.frames, builder.unit.frames);
    lemma_settled_frames(builder.unit.code, builder.unit.frames, bound.unit.frames);
}

/// Lowering an expression leaves a settled builder settled.
pub proof fn lemma_lower_expr_scoped(expr: ExprView, builder: BuilderView)
    requires
        scoped(builder),
    ensures
        scoped(lower_expr(expr, builder)),
{
    lemma_expr_code_plain(expr, builder.variables);
    lemma_settled_plain(builder.unit.code, expr_code(expr, builder.variables), builder.unit.frames);
}

/// Lowering an instruction leaves a settled builder settled.
pub proof fn lemma_lower_instruction_scoped(instruction: InstructionView, builder: BuilderView)
    requires
        builder.wf(),
        scoped(builder),
    ensures
        scoped(lower_instruction(instruction, builder)),
    decreases instruction, 0nat,
{
    match instruction {
        InstructionView::Assign { name, assignment: AssignableView::Expression(expr) } => {
            lemma_lower_expr_scoped(expr, builder);
            lemma_bind_scoped(
                lower_expr(expr, builder),
                name,
                BindingView::Variable(builder.variables),
            );
        },
        InstructionView::Assign {
            name,
            assignment: AssignableView::Function { arguments, instructions },
        } => {
            let begun = builder.begin(arguments);
            assert(leaves_settled(begun.unit.code, begun.unit.frames));
            assert forall|u: int| 0 <= u < begun.suspended.len() implies unit_settled(
                #[trigger] begun.suspended[u],
            ) by {
                if u < builder.suspended.len() {
                    assert(begun.suspended[u] == builder.suspended[u]);
                }
            }
            let body = lower_block(instructions, begun);
            lemma_lower_block_scoped(instructions, begun);
            lemma_lower_block_place(instructions, begun);
            let ended = body.end();
            assert(ended.unit == builder.unit);
            assert(ended.suspended =~= builder.suspended);
            assert(leaves_closed(body.unit.code)) by {
                assert forall|i: int| 0 <= i < body.unit.code.len() implies #[trigger] settled(
                    body.unit.code,
                    Seq::<FrameView>::empty(),
                    i,
                ) by {
                    assert(settled(body.unit.code, body.unit.frames, i));
                    assert(body.unit.frames.len() == 1);
                    assert(body.unit.frames.last().scope is None);
                }
            }
            assert forall|f: int| 0 <= f < ended.functions.len() implies leaves_closed(
                (#[trigger] ended.functions[f]).code,
            ) by {
                if f < body.functions.len() {
                    assert(ended.functions[f] == body.functions[f]);
                }
            }
            lemma_bind_scoped(
                ended,
                name,
                BindingView::Function(body.functions.len()),
            );
        },
        InstructionView::Scope { name, instructions } => {
            let entered = builder.enter(name);
            assert(covers(entered.unit.frames, builder.unit.frames)) by {
                assert forall|label: nat| #[trigger]
                    open_label(builder.unit.frames, label) implies open_label(
                    entered.unit.frames,
                    label,
                ) by {
                    let k = choose|k: int|
                        0 <= k < builder.unit.frames.len() && (
                        #[trigger] builder.unit.frames[k]).scope is Some
                            && builder.unit.frames[k].scope->Some_0.1 == label;
                    assert(entered.unit.frames[k] == builder.unit.frames[k]);
                }
            }
            lemma_settled_frames(builder.unit.code, builder.unit.frames, entered.unit.frames);
            let body = lower_block(instructions, entered);
            lemma_lower_block_scoped(instructions, entered);
            lemma_lower_block_place(instructions, entered);
            let end = builder.labels;
            let closed = body.leave().push(OperationView::Label(end));
            let code = closed.unit.code;
            assert(code =~= body.unit.code.push(OperationView::Label(end)));
            assert(body.unit.frames.drop_last() =~= builder.unit.frames);
            assert(closed.unit.frames =~= builder.unit.frames);
            assert forall|i: int| 0 <= i < code.len() implies #[trigger] settled(
                code,
                closed.unit.frames,
                i,
            ) by {
                if i < body.unit.code.len() {
                    assert(settled(body.unit.code, body.unit.frames, i));
                    assert(code[i] == body.unit.code[i]);
                    match body.unit.code[i] {
                        OperationView::Leave { scope, value } => {
                            if closes(body.unit.code, scope, i + 1) {
                                let j = choose|j: int|
                                    i + 1 <= j < body.unit.code.len() && #[trigger] body.unit.code[j]
                                        == OperationView::<Seq<char>>::Label(scope);
                                assert(code[j] == OperationView::<Seq<char>>::Label(scope));
                            } else {
                                let k = choose|k: int|
                                    0 <= k < body.unit.frames.len() && (
                                    #[trigger] body.unit.frames[k]).scope is Some
                                        && body.unit.frames[k].scope->Some_0.1 == scope;
                                if k < body.unit.frames.len() - 1 {
                                    assert(closed.unit.frames[k] == body.unit.frames[k]);
                                } else {
                                    assert(body.unit.frames.last().scope == Some((name, end)));
                                    assert(code[body.unit.code.len() as int] == OperationView::<
                                        Seq<char>,
                                    >::Label(scope));
                                }
                            }
                        },
                        _ => {},
                    }
                }
            }
        },
        InstructionView::Exit { scope, value } => {
            let lowered = lower_expr(value, builder);
            lemma_lower_expr_scoped(value, builder);
            let operation = exit_operation(
                scope,
                OperandView::Variable(builder.variables),
                builder,
            );
            match scope {
                Some(name) => {
                    lemma_target_is_open(builder.unit.frames, name);
                },
                None => {},
            }
            lemma_settled_push(lowered.unit.code, operation, lowered.unit.frames);
            assert(lowered.push(operation).unit.code =~= lowered.unit.code.push(operation));
        },
    }
}

/// Lowering a list of instructions leaves a settled builder settled.
pub proof fn lemma_lower_block_scoped(instructions: Seq<InstructionView>, builder: BuilderView)
    requires
        builder.wf(),
        scoped(builder),
    ensures
        scoped(lower_block(instructions, builder)),
    decreases instructions, 1nat,
{
    if instructions.len() > 0 {
        lemma_lower_block_scoped(instructions.drop_last(), builder);
        lemma_lower_block_place(instructions.drop_last(), builder);
        lemma_lower_instruction_scoped(
            instructions.last(),
            lower_block(instructions.drop_last(), builder),
        );
    }
}

/// In the code block that a script is lowered to, every operation that
/// leaves a block finds the label of the block later in its own code: in the
/// code of the script, and in the code of each function. An exit never
/// leaves the unit that holds it.
pub proof fn lemma_exits_stay_in_unit(script: ScriptView)
    ensures
        leaves_closed(lowered_script(script).code),
        forall|f: int|
            0 <= f < lowered_script(script).functions.len() ==> leaves_closed(
                (#[trigger] lowered_script(script).functions[f]).code,
            ),
{
    let start = BuilderView::initial();
    let end = lower_block(script.instructions, start);
    assert(leaves_settled(start.unit.code, start.unit.frames));
    lemma_lower_block_scoped(script.instructions, start);
    lemma_lower_block_place(script.instructions, start);
    assert forall|i: int| 0 <= i < end.unit.code.len() implies #[trigger] settled(
        end.unit.code,
        Seq::<FrameView>::empty(),
        i,
    ) by {
        assert(settled(end.unit.code, end.unit.frames, i));
        assert(end.unit.frames.len() == 1);
        assert(end.unit.frames.last().scope is None);
    }
}

/// An exit that names the block it stands in leaves this block: it leaves to
/// the label that the block took when it was entered. Of two enclosing
/// blocks of the same name, the inner one is left.
pub proof fn lemma_exit_leaves_innermost_block(
    builder: BuilderView,
    name: Seq<char>,
    value: ExprView,
)
    ensures
        builder.enter(name).target(name) == Some(builder.labels),
        lower_instruction(
            InstructionView::Exit { scope: Some(name), value },
            builder.enter(name),
        ).unit.code.last() == (OperationView::<Seq<char>>::Leave {
            scope: builder.labels,
            value: OperandView::Variable(builder.variables),
        }),
{
}

/// An exit that names an enclosing block leaves that block from inside a
/// block of another name too.
pub proof fn lemma_exit_passes_other_blocks(builder: BuilderView, inner: Seq<char>, name: Seq<char>)
    requires
        inner != name,
    ensures
        builder.enter(inner).target(name) == builder.target(name),
{
    assert(builder.enter(inner).unit.frames.drop_last() =~= builder.unit.frames);
}

/// An exit without a name ends the unit: it lowers to a return. So does an
/// exit whose name is that of no enclosing block of the unit.
pub proof fn lemma_exit_returns(builder: BuilderView, scope: Option<Seq<char>>, value: ExprView)
    requires
        scope matches Some(name) ==> builder.target(name) is None,
    ensures
        lower_instruction(InstructionView::Exit { scope, value }, builder).unit.code.last() == (
        OperationView::<Seq<char>>::Return(OperandView::Variable(builder.variables))),
{
}

/// The body of a function is a unit of its own: at its start no block
/// encloses it, so that an exit in it can only leave blocks of the body.
pub proof fn lemma_function_starts_outside_blocks(
    builder: BuilderView,
    arguments: Seq<Seq<char>>,
    name: Seq<char>,
)
    ensures
        builder.begin(arguments).target(name) is None,
{
    let frames = builder.begin(arguments).unit.frames;
    assert(frames.drop_last() =~= Seq::<FrameView>::empty());
    assert(scope_target(Seq::<FrameView>::empty(), name) is None);
}

/// The label of a block stands just behind the code of its body, and once
/// the block is closed the scopes are as they were before it: what was bound
/// inside the block is not visible behind it.
pub proof fn lemma_block_closes_behind_body(
    builder: BuilderView,
    name: Seq<char>,
    instructions: Seq<InstructionView>,
)
    requires
        builder.wf(),
    ensures
        ({
            let closed = lower_instruction(InstructionView::Scope { name, instructions }, builder);
            let body = lower_block(instructions, builder.enter(name));
            &&& closed.unit.code == body.unit.code.push(OperationView::Label(builder.labels))
            &&& closed.unit.frames == builder.unit.frames
            &&& forall|bound: Seq<char>| closed.lookup(bound) == builder.lookup(bound)
        }),
{
    let entered = builder.enter(name);
    let body = lower_block(instructions, entered);
    let closed = lower_instruction(InstructionView::Scope { name, instructions }, builder);
    lemma_lower_block_place(instructions, entered);
    assert(entered.unit.frames.drop_last() =~= builder.unit.frames);
    assert(closed.unit.frames =~= builder.unit.frames);
    assert(closed.unit.code =~= body.unit.code.push(OperationView::Label(builder.labels)));
}

} // verus!
