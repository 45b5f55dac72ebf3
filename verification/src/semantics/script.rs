//! What a script means: the value of an expression, and the way in which
//! the execution of instructions ends.
use vstd::prelude::*;
use crate::ir::expr::ExprBuiltinView;
use crate::ir::expr::ExprView;
use crate::ir::instruction::AssignableView;
use crate::ir::instruction::InstructionView;
use crate::ir::instruction::ScriptView;
use crate::lowering::literal::literal_constant;
use crate::semantics::machine::Machine;
use crate::target::constant::ConstantView;

verus! {

/// The value of `expr`: that of its literal, or what its operator computes
/// from the values of its operands.
pub open spec fn eval(machine: Machine<Seq<char>>, expr: ExprView) -> ConstantView
    decreases expr,
{
    match expr {
        ExprView::Dynamic { operator, args } => (machine.call)(operator, eval_all(machine, args)),
        ExprView::Builtin(ExprBuiltinView::Binary { op, left, right }) => (machine.binary)(
            op,
            eval(machine, *left),
            eval(machine, *right),
        ),
        ExprView::Builtin(ExprBuiltinView::Unary { op, operand }) => (machine.unary)(
            op,
            eval(machine, *operand),
        ),
        ExprView::Literal(literal) => literal_constant(literal),
    }
}

/// The values of `exprs`, in their order.
pub open spec fn eval_all(machine: Machine<Seq<char>>, exprs: Seq<ExprView>) -> Seq<ConstantView>
    decreases exprs,
{
    if exprs.len() == 0 {
        Seq::empty()
    } else {
        eval_all(machine, exprs.drop_last()).push(eval(machine, exprs.last()))
    }
}

/// How the execution of instructions ends.
pub enum Flow {
    /// Execution goes on with what follows.
    Normal,
    /// An exit ends the enclosing block of the name `name`, with `value` as
    /// the result of the block.
    Leaving { name: Seq<char>, value: ConstantView },
    /// An exit ends the unit, which returns `value`.
    Returning { value: ConstantView },
}

/// How the execution of `instruction` ends, inside blocks of the names
/// `enclosing`, the innermost last.
///
/// * An exit without a name ends the unit. An exit with the name of an
///   enclosing block ends the innermost block of this name; with another
///   name, it ends the unit.
/// * A block ends as its instructions do, except that it takes up an exit
///   that names it: execution goes on behind the block.
/// * An assignment is followed by what comes next.
pub open spec fn instruction_flow(
    machine: Machine<Seq<char>>,
    instruction: InstructionView,
    enclosing: Seq<Seq<char>>,
) -> Flow
    decreases instruction,
{
    match instruction {
        InstructionView::Assign { name, assignment } => Flow::Normal,
        InstructionView::Scope { name, instructions } => match block_flow(
            machine,
            instructions,
            enclosing.push(name),
        ) {
            Flow::Leaving { name: left, value } if left == name => Flow::Normal,
            flow => flow,
        },
        InstructionView::Exit { scope: Some(name), value } => if enclosing.contains(name) {
            Flow::Leaving { name, value: eval(machine, value) }
        } else {
            Flow::Returning { value: eval(machine, value) }
        },
        InstructionView::Exit { scope: None, value } => Flow::Returning {
            value: eval(machine, value),
        },
    }
}

/// How the execution of `instructions` ends: as the first of them that does
/// not let execution go on.
pub open spec fn block_flow(
    machine: Machine<Seq<char>>,
    instructions: Seq<InstructionView>,
    enclosing: Seq<Seq<char>>,
) -> Flow
    decreases instructions,
{
    if instructions.len() == 0 {
        Flow::Normal
    } else {
        match block_flow(machine, instructions.drop_last(), enclosing) {
            Flow::Normal => instruction_flow(machine, instructions.last(), enclosing),
            flow => flow,
        }
    }
}

/// What `script` returns, if an exit ends it.
pub open spec fn script_result(machine: Machine<Seq<char>>, script: ScriptView) -> Option<
    ConstantView,
> {
    match block_flow(machine, script.instructions, Seq::empty()) {
        Flow::Returning { value } => Some(value),
        _ => None,
    }
}

} // verus!
