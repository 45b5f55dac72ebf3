//! Statements of a script: assignments, named scopes and exits.
use vstd::prelude::*;
use crate::ir::expr::comparable;
use crate::ir::expr::expr_eq;
use crate::ir::expr::Expr;
use crate::ir::expr::ExprView;

verus! {

/// A script: the instructions of its root scope, in order.
#[derive(Debug)]
pub struct Script {
    pub instructions: Vec<Instruction>,
}

/// One statement of a script.
#[derive(Debug)]
pub enum Instruction {
    /// Bind `name` in the current scope to what `assignment` yields.
    Assign { name: String, assignment: Assignable },
    /// A nested block. An [`Instruction::Exit`] inside it that gives `name`
    /// as its scope ends the block.
    Scope { name: String, instructions: Vec<Instruction> },
    /// Evaluate `value` and end the enclosing scope of the name `scope`
    /// with it; without a name, end the unit that is being executed.
    Exit { scope: Option<String>, value: Expr },
}

/// What a name can be bound to.
#[derive(Debug)]
pub enum Assignable {
    /// A function with the names of its parameters and its body.
    Function { arguments: Vec<String>, instructions: Vec<Instruction> },
    Expression(Expr),
}

/// The mathematical value of an [`Instruction`].
pub enum InstructionView {
    Assign { name: Seq<char>, assignment: AssignableView },
    Scope { name: Seq<char>, instructions: Seq<InstructionView> },
    Exit { scope: Option<Seq<char>>, value: ExprView },
}

/// The mathematical value of an [`Assignable`].
pub enum AssignableView {
    Function { arguments: Seq<Seq<char>>, instructions: Seq<InstructionView> },
    Expression(ExprView),
}

/// The mathematical value of a [`Script`].
pub struct ScriptView {
    pub instructions: Seq<InstructionView>,
}

/// The values of a list of instructions, element by element.
pub open spec fn instructions_view(instructions: Seq<Instruction>) -> Seq<InstructionView>
    decreases instructions,
{
    Seq::new(
        instructions.len(),
        |i: int|
            if 0 <= i < instructions.len() {
                instructions[i]@
            } else {
                InstructionView::Scope { name: Seq::empty(), instructions: Seq::empty() }
            },
    )
}

/// The values of a list of names, element by element.
pub open spec fn names_view(names: Seq<String>) -> Seq<Seq<char>> {
    Seq::new(names.len(), |i: int| names[i]@)
}

/// The value of a name that may be absent.
pub open spec fn name_view(name: Option<String>) -> Option<Seq<char>> {
    match name {
        Some(text) => Some(text@),
        None => None,
    }
}

impl View for Instruction {
    type V = InstructionView;

    open spec fn view(&self) -> InstructionView
        decreases self,
    {
        match self {
            Instruction::Assign { name, assignment } => InstructionView::Assign {
                name: name@,
                assignment: assignable_view(*assignment),
            },
            Instruction::Scope { name, instructions } => InstructionView::Scope {
                name: name@,
                instructions: instructions_view(instructions@),
            },
            Instruction::Exit { scope, value } => InstructionView::Exit {
                scope: name_view(*scope),
                value: value@,
            },
        }
    }
}

/// The value of what a name is bound to.
pub open spec fn assignable_view(assignment: Assignable) -> AssignableView
    decreases assignment,
{
    match assignment {
        Assignable::Function { arguments, instructions } => AssignableView::Function {
            arguments: names_view(arguments@),
            instructions: instructions_view(instructions@),
        },
        Assignable::Expression(expr) => AssignableView::Expression(expr@),
    }
}

impl View for Assignable {
    type V = AssignableView;

    open spec fn view(&self) -> AssignableView {
        assignable_view(*self)
    }
}

impl View for Script {
    type V = ScriptView;

    open spec fn view(&self) -> ScriptView {
        ScriptView { instructions: instructions_view(self.instructions@) }
    }
}

/// Whether two instructions are equal: they are of the same kind, with the
/// same names and equal parts.
pub open spec fn instruction_eq(first: InstructionView, second: InstructionView) -> bool
    decreases first,
{
    match (first, second) {
        (
            InstructionView::Assign { name: a, assignment: a_assignment },
            InstructionView::Assign { name: b, assignment: b_assignment },
        ) => a == b && assignable_eq(a_assignment, b_assignment),
        (
            InstructionView::Scope { name: a, instructions: a_instructions },
            InstructionView::Scope { name: b, instructions: b_instructions },
        ) => a == b && instructions_eq(a_instructions, b_instructions),
        (
            InstructionView::Exit { scope: a, value: a_value },
            InstructionView::Exit { scope: b, value: b_value },
        ) => a == b && expr_eq(a_value, b_value),
        _ => false,
    }
}

/// Whether two things that a name can be bound to are equal.
pub open spec fn assignable_eq(first: AssignableView, second: AssignableView) -> bool
    decreases first,
{
    match (first, second) {
        (
            AssignableView::Function { arguments: a, instructions: a_instructions },
            AssignableView::Function { arguments: b, instructions: b_instructions },
        ) => a == b && instructions_eq(a_instructions, b_instructions),
        (AssignableView::Expression(a), AssignableView::Expression(b)) => expr_eq(a, b),
        _ => false,
    }
}

/// Whether two lists of instructions are equal: they are of the same length
/// and hold equal instructions at each position.
pub open spec fn instructions_eq(first: Seq<InstructionView>, second: Seq<InstructionView>) -> bool
    decreases first,
{
    first.len() == second.len() && (first.len() == 0 || (instructions_eq(
        first.drop_last(),
        second.drop_last(),
    ) && instruction_eq(first.last(), second.last())))
}

/// Whether two instructions can be compared: the comparison, which takes
/// the parts in their order and stops at the first difference, never has to
/// compare two host-supplied operators.
pub open spec fn instruction_comparable(first: InstructionView, second: InstructionView) -> bool
    decreases first,
{
    match (first, second) {
        (
            InstructionView::Assign { name: a, assignment: a_assignment },
            InstructionView::Assign { name: b, assignment: b_assignment },
        ) => a != b || assignable_comparable(a_assignment, b_assignment),
        (
            InstructionView::Scope { name: a, instructions: a_instructions },
            InstructionView::Scope { name: b, instructions: b_instructions },
        ) => a != b || instructions_comparable(a_instructions, b_instructions),
        (
            InstructionView::Exit { scope: a, value: a_value },
            InstructionView::Exit { scope: b, value: b_value },
        ) => a != b || comparable(a_value, b_value),
        _ => true,
    }
}

/// Whether two things that a name can be bound to can be compared.
pub open spec fn assignable_comparable(first: AssignableView, second: AssignableView) -> bool
    decreases first,
{
    match (first, second) {
        (
            AssignableView::Function { arguments: a, instructions: a_instructions },
            AssignableView::Function { arguments: b, instructions: b_instructions },
        ) => a != b || instructions_comparable(a_instructions, b_instructions),
        (AssignableView::Expression(a), AssignableView::Expression(b)) => comparable(a, b),
        _ => true,
    }
}

/// Whether two lists of instructions can be compared: they differ in
/// length, or the instructions at each position can be compared as far as
/// all before them are equal.
pub open spec fn instructions_comparable(
    first: Seq<InstructionView>,
    second: Seq<InstructionView>,
) -> bool
    decreases first,
{
    first.len() != second.len() || first.len() == 0 || (instructions_comparable(
        first.drop_last(),
        second.drop_last(),
    ) && (!instructions_eq(first.drop_last(), second.drop_last()) || instruction_comparable(
        first.last(),
        second.last(),
    )))
}

/// Lists that can be compared can be compared up to any position.
pub proof fn lemma_instructions_comparable_prefix(
    first: Seq<InstructionView>,
    second: Seq<InstructionView>,
    count: int,
)
    requires
        first.len() == second.len(),
        instructions_comparable(first, second),
        0 <= count <= first.len(),
    ensures
        instructions_comparable(first.take(count), second.take(count)),
    decreases first.len(),
{
    if count == first.len() {
        assert(first.take(count) =~= first);
        assert(second.take(count) =~= second);
    } else {
        assert(first.drop_last().take(count) =~= first.take(count));
        assert(second.drop_last().take(count) =~= second.take(count));
        lemma_instructions_comparable_prefix(first.drop_last(), second.drop_last(), count);
    }
}

/// Equal lists are equal up to any position.
pub proof fn lemma_instructions_eq_prefix(
    first: Seq<InstructionView>,
    second: Seq<InstructionView>,
    count: int,
)
    requires
        instructions_eq(first, second),
        0 <= count <= first.len(),
    ensures
        instructions_eq(first.take(count), second.take(count)),
    decreases first.len(),
{
    if count == first.len() {
        assert(first.take(count) =~= first);
        assert(second.take(count) =~= second);
    } else {
        assert(first.drop_last().take(count) =~= first.take(count));
        assert(second.drop_last().take(count) =~= second.take(count));
        lemma_instructions_eq_prefix(first.drop_last(), second.drop_last(), count);
    }
}

/// Compares two lists of names.
fn names_equal(first: &Vec<String>, second: &Vec<String>) -> (equal: bool)
    ensures
        equal == (names_view(first@) == names_view(second@)),
{
    if first.len() != second.len() {
        proof {
            assert(names_view(first@).len() != names_view(second@).len());
        }
        return false;
    }
    let mut i: usize = 0;
    while i < first.len()
        invariant
            i <= first.len(),
            first@.len() == second@.len(),
            forall|k: int| 0 <= k < i ==> (#[trigger] first@[k])@ == second@[k]@,
        decreases first.len() - i,
    {
        if first[i] != second[i] {
            proof {
                assert(names_view(first@)[i as int] != names_view(second@)[i as int]);
            }
            return false;
        }
        i = i + 1;
    }
    proof {
        assert(names_view(first@) =~= names_view(second@));
    }
    true
}

/// Compares two lists of instructions, from the first position on, up to
/// the first difference.
pub fn instructions_equal(first: &Vec<Instruction>, second: &Vec<Instruction>) -> (equal: bool)
    requires
        instructions_comparable(instructions_view(first@), instructions_view(second@)),
    ensures
        equal == instructions_eq(instructions_view(first@), instructions_view(second@)),
    decreases first,
{
    let ghost a = instructions_view(first@);
    let ghost b = instructions_view(second@);
    if first.len() != second.len() {
        return false;
    }
    let mut i: usize = 0;
    proof {
        assert(a.take(0) =~= Seq::empty());
        assert(b.take(0) =~= Seq::empty());
        assert(instructions_eq(a.take(0), b.take(0)));
    }
    while i < first.len()
        invariant
            i <= first.len(),
            first@.len() == second@.len(),
            a == instructions_view(first@),
            b == instructions_view(second@),
            a.len() == first@.len(),
            b.len() == second@.len(),
            forall|k: int| 0 <= k < first@.len() ==> a[k] == (#[trigger] first@[k])@,
            forall|k: int| 0 <= k < second@.len() ==> b[k] == (#[trigger] second@[k])@,
            forall|k: int| 0 <= k < first@.len() ==> decreases_to!(first => first@[k]),
            instructions_comparable(a, b),
            instructions_eq(a.take(i as int), b.take(i as int)),
        decreases first.len() - i,
    {
        proof {
            lemma_instructions_comparable_prefix(a, b, i + 1);
            assert(a.take(i + 1).drop_last() =~= a.take(i as int));
            assert(b.take(i + 1).drop_last() =~= b.take(i as int));
            assert(a.take(i + 1).last() == a[i as int]);
            assert(b.take(i + 1).last() == b[i as int]);
            assert(instructions_comparable(a.take(i + 1), b.take(i + 1)));
            assert(instruction_comparable(a[i as int], b[i as int]));
        }
        if !first[i].eq(&second[i]) {
            proof {
                assert(!instructions_eq(a.take(i + 1), b.take(i + 1)));
                if instructions_eq(a, b) {
                    lemma_instructions_eq_prefix(a, b, i + 1);
                }
            }
            return false;
        }
        proof {
            assert(instructions_eq(a.take(i + 1), b.take(i + 1)));
        }
        i = i + 1;
    }
    proof {
        assert(a.take(i as int) =~= a);
        assert(b.take(i as int) =~= b);
    }
    true
}

impl Instruction {
    /// Compares two instructions. Two host-supplied operators cannot be
    /// compared: the caller sees to it that the comparison meets no such
    /// pair.
    pub fn eq(&self, other: &Instruction) -> (equal: bool)
        requires
            instruction_comparable(self@, other@),
        ensures
            equal == instruction_eq(self@, other@),
        decreases self,
    {
        match (self, other) {
            (
                Instruction::Assign { name: a, assignment: a_assignment },
                Instruction::Assign { name: b, assignment: b_assignment },
            ) => *a == *b && a_assignment.eq(b_assignment),
            (
                Instruction::Scope { name: a, instructions: a_instructions },
                Instruction::Scope { name: b, instructions: b_instructions },
            ) => *a == *b && instructions_equal(a_instructions, b_instructions),
            (
                Instruction::Exit { scope: a, value: a_value },
                Instruction::Exit { scope: b, value: b_value },
            ) => {
                let same_scope = match (a, b) {
                    (Some(a_name), Some(b_name)) => *a_name == *b_name,
                    (None, None) => true,
                    _ => false,
                };
                same_scope && a_value.eq(b_value)
            },
            _ => false,
        }
    }
}

impl Assignable {
    /// Compares two things that a name can be bound to.
    pub fn eq(&self, other: &Assignable) -> (equal: bool)
        requires
            assignable_comparable(self@, other@),
        ensures
            equal == assignable_eq(self@, other@),
        decreases self,
    {
        match (self, other) {
            (
                Assignable::Function { arguments: a, instructions: a_instructions },
                Assignable::Function { arguments: b, instructions: b_instructions },
            ) => names_equal(a, b) && instructions_equal(a_instructions, b_instructions),
            (Assignable::Expression(a), Assignable::Expression(b)) => a.eq(b),
            _ => false,
        }
    }
}

impl Script {
    /// Compares two scripts, instruction by instruction.
    pub fn eq(&self, other: &Script) -> (equal: bool)
        requires
            instructions_comparable(self@.instructions, other@.instructions),
        ensures
            equal == instructions_eq(self@.instructions, other@.instructions),
    {
        instructions_equal(&self.instructions, &other.instructions)
    }
}

} // verus!
