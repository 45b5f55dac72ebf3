//! How many variables and labels a lowering takes, counted before the
//! lowering: the numbers must fit the machine's integers.
use vstd::prelude::*;
use crate::ir::expr::exprs_view;
use crate::ir::expr::Expr;
use crate::ir::expr::ExprBuiltin;
use crate::ir::instruction::instructions_view;
use crate::ir::instruction::Assignable;
use crate::ir::instruction::Instruction;
use crate::ir::instruction::Script;
use crate::lowering::expr::expr_size;
use crate::lowering::expr::exprs_size;
use crate::lowering::expr::lemma_exprs_size_prefix;
use crate::lowering::instruction::block_labels;
use crate::lowering::instruction::block_variables;
use crate::lowering::instruction::instruction_labels;
use crate::lowering::instruction::instruction_variables;
use crate::lowering::instruction::lemma_block_prefix;

verus! {

impl Expr {
    /// The number of nodes of the expression, which is the number of
    /// variables that its lowering takes; `None` where the number is above
    /// `usize::MAX`.
    pub fn size(&self) -> (size: Option<usize>)
        ensures
            match size {
                Some(count) => count == expr_size(self@),
                None => expr_size(self@) > usize::MAX,
            },
        decreases self,
    {
        match self {
            Expr::Dynamic { operator, args } => {
                let ghost inputs = exprs_view(args@);
                let mut total: usize = 0;
                let mut i: usize = 0;
                proof {
                    assert(inputs.take(0) =~= Seq::empty());
                }
                while i < args.len()
                    invariant
                        i <= args.len(),
                        inputs.len() == args@.len(),
                        forall|k: int| 0 <= k < args@.len() ==> inputs[k] == (#[trigger] args@[k])@,
                        forall|k: int| 0 <= k < args@.len() ==> decreases_to!(self => args@[k]),
                        total == exprs_size(inputs.take(i as int)),
                        self@ is Dynamic && self@->Dynamic_args == inputs,
                    decreases args.len() - i,
                {
                    proof {
                        assert(inputs.take(i + 1).drop_last() =~= inputs.take(i as int));
                        assert(inputs.take(i + 1).last() == args@[i as int]@);
                        lemma_exprs_size_prefix(inputs, i + 1);
                    }
                    let next = match args[i].size() {
                        Some(count) => total.checked_add(count),
                        None => None,
                    };
                    match next {
                        Some(sum) => {
                            total = sum;
                        },
                        None => {
                            return None;
                        },
                    }
                    i = i + 1;
                }
                proof {
                    assert(inputs.take(i as int) =~= inputs);
                }
                total.checked_add(1)
            },
            Expr::Builtin(ExprBuiltin::Binary { op, operand }) => {
                match (operand.0.size(), operand.1.size()) {
                    (Some(left), Some(right)) => match left.checked_add(right) {
                        Some(both) => both.checked_add(1),
                        None => None,
                    },
                    _ => None,
                }
            },
            Expr::Builtin(ExprBuiltin::Unary { op, operand }) => {
                match operand.size() {
                    Some(inner) => inner.checked_add(1),
                    None => None,
                }
            },
            Expr::Literal(_) => Some(1),
        }
    }
}

impl Instruction {
    /// The numbers of variables and of labels that the lowering of the
    /// instruction takes; `None` where one of them is above `usize::MAX`.
    pub fn demand(&self) -> (demand: Option<(usize, usize)>)
        ensures
            match demand {
                Some((variables, labels)) => variables == instruction_variables(self@) && labels
                    == instruction_labels(self@),
                None => instruction_variables(self@) > usize::MAX || instruction_labels(self@)
                    > usize::MAX,
            },
        decreases self,
    {
        match self {
            Instruction::Assign { name, assignment } => match assignment {
                Assignable::Expression(expr) => match expr.size() {
                    Some(variables) => Some((variables, 0)),
                    None => None,
                },
                Assignable::Function { arguments, instructions } => {
                    match block_demand(instructions) {
                        Some((variables, labels)) => match variables.checked_add(arguments.len()) {
                            Some(all) => Some((all, labels)),
                            None => None,
                        },
                        None => None,
                    }
                },
            },
            Instruction::Scope { name, instructions } => match block_demand(instructions) {
                Some((variables, labels)) => match labels.checked_add(1) {
                    Some(all) => Some((variables, all)),
                    None => None,
                },
                None => None,
            },
            Instruction::Exit { scope, value } => match value.size() {
                Some(variables) => Some((variables, 0)),
                None => None,
            },
        }
    }
}

/// The numbers of variables and of labels that the lowering of
/// `instructions` takes; `None` where one of them is above `usize::MAX`.
pub fn block_demand(instructions: &Vec<Instruction>) -> (demand: Option<(usize, usize)>)
    ensures
        match demand {
            Some((variables, labels)) => variables == block_variables(
                instructions_view(instructions@),
            ) && labels == block_labels(instructions_view(instructions@)),
            None => block_variables(instructions_view(instructions@)) > usize::MAX || block_labels(
                instructions_view(instructions@),
            ) > usize::MAX,
        },
    decreases instructions,
{
    let ghost block = instructions_view(instructions@);
    let mut variables: usize = 0;
    let mut labels: usize = 0;
    let mut i: usize = 0;
    proof {
        assert(block.take(0) =~= Seq::empty());
    }
    while i < instructions.len()
        invariant
            i <= instructions.len(),
            block == instructions_view(instructions@),
            block.len() == instructions@.len(),
            forall|k: int| 0 <= k < instructions@.len() ==> block[k] == (#[trigger] instructions@[k])@,
            variables == block_variables(block.take(i as int)),
            labels == block_labels(block.take(i as int)),
        decreases instructions.len() - i,
    {
        proof {
            assert(block.take(i + 1).drop_last() =~= block.take(i as int));
            assert(block.take(i + 1).last() == instructions@[i as int]@);
            lemma_block_prefix(block, i + 1);
        }
        let next = match instructions[i].demand() {
            Some((more_variables, more_labels)) => match (
                variables.checked_add(more_variables),
                labels.checked_add(more_labels),
            ) {
                (Some(all_variables), Some(all_labels)) => Some((all_variables, all_labels)),
                _ => None,
            },
            None => None,
        };
        match next {
            Some((all_variables, all_labels)) => {
                variables = all_variables;
                labels = all_labels;
            },
            None => {
                return None;
            },
        }
        i = i + 1;
    }
    proof {
        assert(block.take(i as int) =~= block);
    }
    Some((variables, labels))
}

impl Script {
    /// Tells whether the script can be compiled on this machine: whether the
    /// variables and the labels of its lowering can be numbered.
    pub fn is_compilable(&self) -> (compilable: bool)
        ensures
            compilable == self.fits(),
    {
        block_demand(&self.instructions).is_some()
    }
}

} // verus!
