//! Lowering of expressions. Each node of an expression takes one fresh
//! variable, which receives the node's value; the operands of a node are
//! lowered before the operation of the node is emitted.
use vstd::prelude::*;
use crate::ir::expr::exprs_view;
use crate::ir::expr::Expr;
use crate::ir::expr::ExprBuiltin;
use crate::ir::expr::ExprBuiltinView;
use crate::ir::expr::ExprView;
use crate::lowering::builder::Builder;
use crate::lowering::builder::BuilderView;
use crate::lowering::literal::literal_constant;
use crate::target::operation::operands_view;
use crate::target::operation::Operand;
use crate::target::operation::OperandView;
use crate::target::operation::Operation;
use crate::target::operation::OperationView;

verus! {

/// The number of nodes of `expr`, which is the number of variables that its
/// lowering takes.
pub open spec fn expr_size(expr: ExprView) -> nat
    decreases expr,
{
    match expr {
        ExprView::Dynamic { operator, args } => 1 + exprs_size(args),
        ExprView::Builtin(ExprBuiltinView::Binary { op, left, right }) => 1 + expr_size(*left)
            + expr_size(*right),
        ExprView::Builtin(ExprBuiltinView::Unary { op, operand }) => 1 + expr_size(*operand),
        ExprView::Literal(_) => 1,
    }
}

/// The number of nodes of all of `exprs` together.
pub open spec fn exprs_size(exprs: Seq<ExprView>) -> nat
    decreases exprs,
{
    if exprs.len() == 0 {
        0
    } else {
        exprs_size(exprs.drop_last()) + expr_size(exprs.last())
    }
}

/// The code of `expr` where `first` is the next fresh variable. The value of
/// `expr` ends up in the variable `first`; the nodes below take the variables
/// from `first + 1` on, an operand's nodes all before those of the operand to
/// its right.
///
/// * A literal is loaded as its constant.
/// * A binary operator has the code of its left operand, then that of its
///   right operand, then its own operation, which reads the two results.
/// * A unary operator has the code of its operand, then its own operation.
/// * A host-supplied operator has the code of its arguments, from the first
///   to the last, then a call of the operator by its name, which reads the
///   results in the same order.
pub open spec fn expr_code(expr: ExprView, first: nat) -> Seq<OperationView<Seq<char>>>
    decreases expr,
{
    match expr {
        ExprView::Dynamic { operator, args } => exprs_code(args, first + 1).push(
            OperationView::Call {
                intrinsic: operator,
                arguments: exprs_results(args, first + 1),
                destination: first,
            },
        ),
        ExprView::Builtin(ExprBuiltinView::Binary { op, left, right }) => (expr_code(
            *left,
            first + 1,
        ) + expr_code(*right, first + 1 + expr_size(*left))).push(
            OperationView::Binary {
                op,
                left: OperandView::Variable(first + 1),
                right: OperandView::Variable(first + 1 + expr_size(*left)),
                destination: first,
            },
        ),
        ExprView::Builtin(ExprBuiltinView::Unary { op, operand }) => expr_code(
            *operand,
            first + 1,
        ).push(
            OperationView::Unary {
                op,
                operand: OperandView::Variable(first + 1),
                destination: first,
            },
        ),
        ExprView::Literal(literal) => seq![
            OperationView::Load {
                variable: first,
                value: OperandView::Constant(literal_constant(literal)),
            },
        ],
    }
}

/// The code of `exprs`, one after the other, where `first` is the next fresh
/// variable.
pub open spec fn exprs_code(exprs: Seq<ExprView>, first: nat) -> Seq<OperationView<Seq<char>>>
    decreases exprs,
{
    if exprs.len() == 0 {
        Seq::empty()
    } else {
        exprs_code(exprs.drop_last(), first) + expr_code(
            exprs.last(),
            first + exprs_size(exprs.drop_last()),
        )
    }
}

/// The operands that hold the values of `exprs` after [`exprs_code`] has
/// run, in the order of `exprs`.
pub open spec fn exprs_results(exprs: Seq<ExprView>, first: nat) -> Seq<OperandView>
    decreases exprs.len(),
{
    if exprs.len() == 0 {
        Seq::empty()
    } else {
        exprs_results(exprs.drop_last(), first).push(
            OperandView::Variable(first + exprs_size(exprs.drop_last())),
        )
    }
}

/// The builder after `expr` was lowered: the code of `expr` is emitted and
/// its variables are taken.
pub open spec fn lower_expr(expr: ExprView, builder: BuilderView) -> BuilderView {
    builder.emit(expr_code(expr, builder.variables)).allocate(expr_size(expr))
}

/// The first expressions of a list need no more variables than the list.
pub proof fn lemma_exprs_size_prefix(exprs: Seq<ExprView>, count: int)
    requires
        0 <= count <= exprs.len(),
    ensures
        exprs_size(exprs.take(count)) <= exprs_size(exprs),
    decreases exprs.len(),
{
    if count == exprs.len() {
        assert(exprs.take(count) =~= exprs);
    } else {
        lemma_exprs_size_prefix(exprs.drop_last(), count);
        assert(exprs.drop_last().take(count) =~= exprs.take(count));
    }
}

impl Expr {
    /// Lowers the expression: emits its code into `builder` and returns the
    /// operand that holds its value, which is the first variable the lowering
    /// took.
    pub fn compile(&self, builder: &mut Builder) -> (result: Operand)
        requires
            old(builder)@.variables + expr_size(self@) <= usize::MAX,
        ensures
            final(builder)@ == lower_expr(self@, old(builder)@),
            result@ == OperandView::Variable(old(builder)@.variables),
        decreases self,
    {
        let ghost start = builder@;
        let tmp = builder.new_temporary_variable();
        match self {
            Expr::Dynamic { operator, args } => {
                let ghost inputs = exprs_view(args@);
                let mut arguments: Vec<Operand> = Vec::new();
                let mut i: usize = 0;
                proof {
                    assert(inputs.take(0) =~= Seq::empty());
                    assert(builder@ == start.allocate(1).emit(exprs_code(inputs.take(0), start.variables + 1)));
                }
                while i < args.len()
                    invariant
                        i <= args.len(),
                        inputs.len() == args@.len(),
                        forall|k: int| 0 <= k < args@.len() ==> inputs[k] == (#[trigger] args@[k])@,
                        forall|k: int| 0 <= k < args@.len() ==> decreases_to!(self => args@[k]),
                        start.variables + 1 + exprs_size(inputs) <= usize::MAX,
                        builder@ == start.allocate(1).emit(
                            exprs_code(inputs.take(i as int), start.variables + 1),
                        ).allocate(exprs_size(inputs.take(i as int))),
                        operands_view(arguments@) == exprs_results(
                            inputs.take(i as int),
                            start.variables + 1,
                        ),
                    decreases args.len() - i,
                {
                    let ghost before = arguments@;
                    proof {
                        assert(inputs.take(i + 1).drop_last() =~= inputs.take(i as int));
                        assert(inputs.take(i + 1).last() == args@[i as int]@);
                        lemma_exprs_size_prefix(inputs, i + 1);
                    }
                    let argument = args[i].compile(builder);
                    arguments.push(argument);
                    proof {
                        assert(operands_view(arguments@) =~= operands_view(before).push(argument@));
                        assert(builder@.unit.code =~= start.unit.code + exprs_code(
                            inputs.take(i + 1),
                            start.variables + 1,
                        ));
                    }
                    i = i + 1;
                }
                proof {
                    assert(inputs.take(i as int) =~= inputs);
                }
                builder.push(
                    Operation::Call { intrinsic: operator.clone(), arguments, destination: tmp },
                );
                proof {
                    assert(builder@.unit.code =~= start.unit.code + expr_code(self@, start.variables));
                }
            },
            Expr::Builtin(ExprBuiltin::Binary { op, operand }) => {
                let left = operand.0.compile(builder);
                let right = operand.1.compile(builder);
                builder.push(Operation::Binary { op: *op, left, right, destination: tmp });
                proof {
                    assert(builder@.unit.code =~= start.unit.code + expr_code(self@, start.variables));
                }
            },
            Expr::Builtin(ExprBuiltin::Unary { op, operand }) => {
                let value = operand.compile(builder);
                builder.push(Operation::Unary { op: *op, operand: value, destination: tmp });
                proof {
                    assert(builder@.unit.code =~= start.unit.code + expr_code(self@, start.variables));
                }
            },
            Expr::Literal(literal) => {
                let constant = literal.to_constant();
                builder.push(Operation::Load { variable: tmp, value: Operand::Constant(constant) });
                proof {
                    assert(builder@.unit.code =~= start.unit.code + expr_code(self@, start.variables));
                }
            },
        }
        Operand::Variable(tmp)
    }
}

} // verus!
