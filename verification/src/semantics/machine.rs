//! The run of code on the virtual machine, as far as lowering relies on it:
//! operations run one after the other, a return ends the unit, and an
//! operation that leaves a block goes on behind the label of the block.
use vstd::prelude::*;
use crate::ir::operators::BinOp;
use crate::ir::operators::UnaryOp;
use crate::target::constant::ConstantView;
use crate::target::operation::OperandView;
use crate::target::operation::OperationView;

verus! {

/// What the operators and the intrinsics of a virtual machine compute. `I`
/// is how code refers to an intrinsic.
#[verifier::reject_recursive_types(I)]
pub struct Machine<I> {
    pub binary: spec_fn(BinOp, ConstantView, ConstantView) -> ConstantView,
    pub unary: spec_fn(UnaryOp, ConstantView) -> ConstantView,
    pub call: spec_fn(I, Seq<ConstantView>) -> ConstantView,
}

/// What the variables hold.
pub type Store = Map<nat, ConstantView>;

/// How a run of code ends.
pub enum Outcome {
    /// The code ran to its end.
    Completed { store: Store },
    /// An operation left the block that `label` closes, with `value` as the
    /// result of the block, and `label` is not placed behind it in the code.
    Left { label: nat, value: ConstantView, store: Store },
    /// The unit returned `value`.
    Returned { value: ConstantView },
}

/// The value that `operand` stands for.
pub open spec fn read(operand: OperandView, store: Store) -> ConstantView {
    match operand {
        OperandView::Constant(constant) => constant,
        OperandView::Variable(variable) => store[variable],
    }
}

/// The values that `operands` stand for, in their order.
pub open spec fn read_all(operands: Seq<OperandView>, store: Store) -> Seq<ConstantView> {
    Seq::new(operands.len(), |i: int| read(operands[i], store))
}

/// The store behind `operation`, where it is one that writes a variable;
/// the store as it is, where it is none.
pub open spec fn step<I>(machine: Machine<I>, operation: OperationView<I>, store: Store) -> Store {
    match operation {
        OperationView::Load { variable, value } => store.insert(variable, read(value, store)),
        OperationView::Binary { op, left, right, destination } => store.insert(
            destination,
            (machine.binary)(op, read(left, store), read(right, store)),
        ),
        OperationView::Unary { op, operand, destination } => store.insert(
            destination,
            (machine.unary)(op, read(operand, store)),
        ),
        OperationView::Call { intrinsic, arguments, destination } => store.insert(
            destination,
            (machine.call)(intrinsic, read_all(arguments, store)),
        ),
        OperationView::Return(value) => store,
        OperationView::Leave { scope, value } => store,
        OperationView::Label(label) => store,
    }
}

/// The run of `code` from `store`. With `leaving` set, a block is being
/// left: operations are passed over until the label of the block is met,
/// behind which the run goes on.
pub open spec fn run<I>(
    machine: Machine<I>,
    code: Seq<OperationView<I>>,
    store: Store,
    leaving: Option<(nat, ConstantView)>,
) -> Outcome
    decreases code.len(),
{
    if code.len() == 0 {
        match leaving {
            Some((label, value)) => Outcome::Left { label, value, store },
            None => Outcome::Completed { store },
        }
    } else {
        let rest = code.skip(1);
        match leaving {
            Some((label, value)) => if code[0] == OperationView::<I>::Label(label) {
                run(machine, rest, store, None)
            } else {
                run(machine, rest, store, leaving)
            },
            None => match code[0] {
                OperationView::Return(value) => Outcome::Returned { value: read(value, store) },
                OperationView::Leave { scope, value } => run(
                    machine,
                    rest,
                    store,
                    Some((scope, read(value, store))),
                ),
                _ => run(machine, rest, step(machine, code[0], store), None),
            },
        }
    }
}

/// The run of two pieces of code is the run of the first and then, unless
/// it returned, the run of the second from where the first ended.
pub proof fn lemma_run_concat<I>(
    machine: Machine<I>,
    first: Seq<OperationView<I>>,
    second: Seq<OperationView<I>>,
    store: Store,
    leaving: Option<(nat, ConstantView)>,
)
    ensures
        run(machine, first + second, store, leaving) == match run(machine, first, store, leaving) {
            Outcome::Completed { store: between } => run(machine, second, between, None),
            Outcome::Left { label, value, store: between } => run(
                machine,
                second,
                between,
                Some((label, value)),
            ),
            Outcome::Returned { value } => Outcome::Returned { value },
        },
    decreases first.len(),
{
    if first.len() == 0 {
        assert(first + second =~= second);
    } else {
        let whole = first + second;
        assert(whole[0] == first[0]);
        assert(whole.skip(1) =~= first.skip(1) + second);
        let rest = first.skip(1);
        match leaving {
            Some((label, value)) => {
                if first[0] == OperationView::<I>::Label(label) {
                    lemma_run_concat(machine, rest, second, store, None);
                } else {
                    lemma_run_concat(machine, rest, second, store, leaving);
                }
            },
            None => {
                match first[0] {
                    OperationView::Return(value) => {},
                    OperationView::Leave { scope, value } => {
                        lemma_run_concat(
                            machine,
                            rest,
                            second,
                            store,
                            Some((scope, read(value, store))),
                        );
                    },
                    _ => {
                        lemma_run_concat(machine, rest, second, step(machine, first[0], store), None);
                    },
                }
            },
        }
    }
}

/// The run of one operation that writes a variable.
pub proof fn lemma_run_step<I>(machine: Machine<I>, operation: OperationView<I>, store: Store)
    requires
        operation.destination() is Some,
    ensures
        run(machine, seq![operation], store, None) == (Outcome::Completed {
            store: step(machine, operation, store),
        }),
{
    let code = seq![operation];
    assert(code.skip(1) =~= Seq::empty());
    assert(run(machine, code.skip(1), step(machine, operation, store), None) == (
    Outcome::Completed { store: step(machine, operation, store) }));
}

} // verus!
