//! The builder context of one lowering: the code emitted so far, the counters
//! that fresh variables and labels come from, and the lexical scopes.
use vstd::prelude::*;
use crate::ir::instruction::names_view;
use crate::target::code::functions_view;
use crate::target::code::variables_view;
use crate::target::code::CodeBlock;
use crate::target::code::CodeBlockView;
use crate::target::code::Function;
use crate::target::code::FunctionView;
use crate::target::operation::code_view;
use crate::target::operation::Label;
use crate::target::operation::Operation;
use crate::target::operation::OperationView;
use crate::target::operation::Variable;

verus! {

/// What a name stands for in a scope.
#[derive(Clone, Copy, Debug, PartialEq, Eq)]
pub enum Binding {
    /// The variable that holds the value.
    Variable(Variable),
    /// The function of this number among the functions of the code block.
    Function(usize),
}

/// The mathematical value of a [`Binding`].
pub enum BindingView {
    Variable(nat),
    Function(nat),
}

impl View for Binding {
    type V = BindingView;

    open spec fn view(&self) -> BindingView {
        match self {
            Binding::Variable(variable) => BindingView::Variable(variable@),
            Binding::Function(index) => BindingView::Function(*index as nat),
        }
    }
}

/// One lexical scope: the root of a unit, or a named block with the label
/// that closes it.
struct Frame {
    scope: Option<(String, Label)>,
    bindings: Vec<(String, Binding)>,
}

/// The mathematical value of a lexical scope.
pub struct FrameView {
    /// The name of the block and the label that closes it; `None` for the
    /// root scope of a unit.
    pub scope: Option<(Seq<char>, nat)>,
    /// What each name that was bound in this scope stands for.
    pub bindings: Map<Seq<char>, BindingView>,
}

/// A unit under construction: the script itself or one function.
struct Unit {
    code: Vec<Operation<String>>,
    frames: Vec<Frame>,
    parameters: Vec<Variable>,
}

/// The mathematical value of a unit under construction.
pub struct UnitView {
    pub code: Seq<OperationView<Seq<char>>>,
    /// The scopes that enclose the current position, the innermost last.
    pub frames: Seq<FrameView>,
    pub parameters: Seq<nat>,
}

/// The builder context of one lowering.
pub struct Builder {
    unit: Unit,
    suspended: Vec<Unit>,
    functions: Vec<Function<String>>,
    variables: usize,
    labels: usize,
}

/// The mathematical value of a [`Builder`].
pub struct BuilderView {
    /// The unit that operations are emitted into.
    pub unit: UnitView,
    /// The units whose lowering waits for a function in them to be
    /// completed, the outermost first.
    pub suspended: Seq<UnitView>,
    /// The functions whose lowering is complete.
    pub functions: Seq<FunctionView<Seq<char>>>,
    /// The number of the next fresh variable.
    pub variables: nat,
    /// The number of the next fresh label.
    pub labels: nat,
}

/// What a list of bindings stands for: each is written in turn, a later one
/// replacing an earlier one of the same name.
pub open spec fn bindings_view(entries: Seq<(String, Binding)>) -> Map<Seq<char>, BindingView>
    decreases entries.len(),
{
    if entries.len() == 0 {
        Map::empty()
    } else {
        bindings_view(entries.drop_last()).insert(entries.last().0@, entries.last().1@)
    }
}

/// The bindings of the parameters of a function whose first parameter is held
/// by the variable `first`: the parameters take consecutive variables.
pub open spec fn parameter_bindings(arguments: Seq<Seq<char>>, first: nat) -> Map<
    Seq<char>,
    BindingView,
>
    decreases arguments.len(),
{
    if arguments.len() == 0 {
        Map::empty()
    } else {
        parameter_bindings(arguments.drop_last(), first).insert(
            arguments.last(),
            BindingView::Variable((first + arguments.len() - 1) as nat),
        )
    }
}

/// The label that closes the innermost of `frames` that is a block of the
/// name `name`.
pub open spec fn scope_target(frames: Seq<FrameView>, name: Seq<char>) -> Option<nat>
    decreases frames.len(),
{
    if frames.len() == 0 {
        None
    } else {
        match frames.last().scope {
            Some((block, end)) if block == name => Some(end),
            _ => scope_target(frames.drop_last(), name),
        }
    }
}

/// What `name` stands for in the innermost of `frames` that binds it.
pub open spec fn scope_lookup(frames: Seq<FrameView>, name: Seq<char>) -> Option<BindingView>
    decreases frames.len(),
{
    if frames.len() == 0 {
        None
    } else if frames.last().bindings.contains_key(name) {
        Some(frames.last().bindings[name])
    } else {
        scope_lookup(frames.drop_last(), name)
    }
}

impl UnitView {
    /// A unit at its start: no code, and the root scope alone.
    pub open spec fn start(parameters: Seq<nat>, bindings: Map<Seq<char>, BindingView>) -> UnitView {
        UnitView {
            code: Seq::empty(),
            frames: seq![FrameView { scope: None, bindings }],
            parameters,
        }
    }
}

impl BuilderView {
    /// The builder before anything was lowered.
    pub open spec fn initial() -> BuilderView {
        BuilderView {
            unit: UnitView::start(Seq::empty(), Map::empty()),
            suspended: Seq::empty(),
            functions: Seq::empty(),
            variables: 0,
            labels: 0,
        }
    }

    /// Every unit under construction has its root scope.
    pub open spec fn wf(self) -> bool {
        &&& self.unit.frames.len() >= 1
        &&& forall|i: int| 0 <= i < self.suspended.len() ==> (#[trigger] self.suspended[i]).frames.len() >= 1
    }

    /// The builder with `operations` added at the end of the current unit.
    pub open spec fn emit(self, operations: Seq<OperationView<Seq<char>>>) -> BuilderView {
        BuilderView { unit: UnitView { code: self.unit.code + operations, ..self.unit }, ..self }
    }

    /// The builder with `operation` added at the end of the current unit.
    pub open spec fn push(self, operation: OperationView<Seq<char>>) -> BuilderView {
        self.emit(seq![operation])
    }

    /// The builder after `count` fresh variables were taken.
    pub open spec fn allocate(self, count: nat) -> BuilderView {
        BuilderView { variables: self.variables + count, ..self }
    }

    /// The builder with `name` bound in the innermost scope.
    pub open spec fn bind(self, name: Seq<char>, binding: BindingView) -> BuilderView {
        let innermost = self.unit.frames.last();
        let bound = FrameView { bindings: innermost.bindings.insert(name, binding), ..innermost };
        BuilderView {
            unit: UnitView { frames: self.unit.frames.drop_last().push(bound), ..self.unit },
            ..self
        }
    }

    /// The builder inside a new block of the name `name`, which the next
    /// fresh label closes.
    pub open spec fn enter(self, name: Seq<char>) -> BuilderView {
        let frame = FrameView { scope: Some((name, self.labels)), bindings: Map::empty() };
        BuilderView {
            unit: UnitView { frames: self.unit.frames.push(frame), ..self.unit },
            labels: self.labels + 1,
            ..self
        }
    }

    /// The builder outside the innermost scope: what was bound in it is
    /// forgotten.
    pub open spec fn leave(self) -> BuilderView {
        BuilderView { unit: UnitView { frames: self.unit.frames.drop_last(), ..self.unit }, ..self }
    }

    /// The label that closes the innermost enclosing block of the name `name`.
    pub open spec fn target(self, name: Seq<char>) -> Option<nat> {
        scope_target(self.unit.frames, name)
    }

    /// What `name` stands for at the current position.
    pub open spec fn lookup(self, name: Seq<char>) -> Option<BindingView> {
        scope_lookup(self.unit.frames, name)
    }

    /// The builder at the start of a function with the parameters
    /// `arguments`: the current unit waits, and the function is a unit of its
    /// own, whose root scope binds each parameter to a fresh variable.
    pub open spec fn begin(self, arguments: Seq<Seq<char>>) -> BuilderView {
        BuilderView {
            unit: UnitView::start(
                Seq::new(arguments.len(), |i: int| (self.variables + i) as nat),
                parameter_bindings(arguments, self.variables),
            ),
            suspended: self.suspended.push(self.unit),
            variables: self.variables + arguments.len(),
            ..self
        }
    }

    /// The builder after the function under construction was completed: it
    /// joins the functions, and the unit that waited for it goes on.
    pub open spec fn end(self) -> BuilderView {
        BuilderView {
            unit: self.suspended.last(),
            suspended: self.suspended.drop_last(),
            functions: self.functions.push(
                FunctionView { parameters: self.unit.parameters, code: self.unit.code },
            ),
            ..self
        }
    }

    /// The code block that the builder holds: the code of the current unit,
    /// the number of variables taken, and the completed functions.
    pub open spec fn finish(self) -> CodeBlockView<Seq<char>> {
        CodeBlockView { code: self.unit.code, variables: self.variables, functions: self.functions }
    }
}

impl View for Frame {
    type V = FrameView;

    closed spec fn view(&self) -> FrameView {
        FrameView {
            scope: match self.scope {
                Some((name, end)) => Some((name@, end@)),
                None => None,
            },
            bindings: bindings_view(self.bindings@),
        }
    }
}

impl View for Unit {
    type V = UnitView;

    closed spec fn view(&self) -> UnitView {
        UnitView {
            code: code_view(self.code@),
            frames: Seq::new(self.frames@.len(), |i: int| self.frames@[i]@),
            parameters: variables_view(self.parameters@),
        }
    }
}

impl View for Builder {
    type V = BuilderView;

    closed spec fn view(&self) -> BuilderView {
        BuilderView {
            unit: self.unit@,
            suspended: Seq::new(self.suspended@.len(), |i: int| self.suspended@[i]@),
            functions: functions_view(self.functions@),
            variables: self.variables as nat,
            labels: self.labels as nat,
        }
    }
}

impl Default for Builder {
    /// A builder that has lowered nothing yet.
    fn default() -> (builder: Builder)
        ensures
            builder@ == BuilderView::initial(),
            builder@.wf(),
    {
        Builder::new()
    }
}

impl Builder {
    /// A builder that has lowered nothing yet.
    pub fn new() -> (builder: Builder)
        ensures
            builder@ == BuilderView::initial(),
            builder@.wf(),
    {
        let mut frames: Vec<Frame> = Vec::new();
        frames.push(Frame { scope: None, bindings: Vec::new() });
        let unit = Unit { code: Vec::new(), frames, parameters: Vec::new() };
        let builder = Builder {
            unit,
            suspended: Vec::new(),
            functions: Vec::new(),
            variables: 0,
            labels: 0,
        };
        proof {
            assert(builder@.unit.frames =~= BuilderView::initial().unit.frames);
            assert(builder@.unit.code =~= BuilderView::initial().unit.code);
            assert(builder@.unit.parameters =~= BuilderView::initial().unit.parameters);
            assert(builder@.suspended =~= BuilderView::initial().suspended);
            assert(builder@.functions =~= BuilderView::initial().functions);
        }
        builder
    }

    /// Takes the next fresh variable. No variable is handed out twice.
    pub fn new_temporary_variable(&mut self) -> (variable: Variable)
        requires
            old(self)@.variables < usize::MAX,
        ensures
            variable@ == old(self)@.variables,
            final(self)@ == old(self)@.allocate(1),
    {
        let variable = Variable { index: self.variables };
        self.variables = self.variables + 1;
        variable
    }

    /// Adds `operation` at the end of the code of the current unit.
    pub fn push(&mut self, operation: Operation<String>)
        ensures
            final(self)@ == old(self)@.push(operation@),
    {
        self.unit.code.push(operation);
        proof {
            assert(self@.unit.code =~= old(self)@.unit.code + seq![operation@]);
        }
    }

    /// Binds `name` in the innermost scope. An earlier binding of the name in
    /// that scope is replaced; one in an enclosing scope is hidden until the
    /// innermost scope is left.
    pub fn bind(&mut self, name: String, binding: Binding)
        requires
            old(self)@.wf(),
        ensures
            final(self)@ == old(self)@.bind(name@, binding@),
            final(self)@.wf(),
    {
        let ghost before = self.unit.frames@;
        let mut frame = self.unit.frames.pop().unwrap();
        let ghost entries = frame.bindings@;
        frame.bindings.push((name, binding));
        proof {
            assert(frame.bindings@.drop_last() =~= entries);
        }
        self.unit.frames.push(frame);
        proof {
            assert(self@.unit.frames =~= old(self)@.bind(name@, binding@).unit.frames);
        }
    }

    /// What `name` stands for at the current position: its binding in the
    /// innermost scope that binds it, if any does.
    pub fn lookup(&self, name: &String) -> (binding: Option<Binding>)
        ensures
            match binding {
                Some(found) => self@.lookup(name@) == Some(found@),
                None => self@.lookup(name@) is None,
            },
    {
        let ghost frames = self@.unit.frames;
        let mut i: usize = self.unit.frames.len();
        assert(frames.take(i as int) =~= frames);
        while i > 0
            invariant
                i <= self.unit.frames.len(),
                frames == self@.unit.frames,
                scope_lookup(frames, name@) == scope_lookup(frames.take(i as int), name@),
            decreases i,
        {
            i = i - 1;
            let frame = &self.unit.frames[i];
            proof {
                assert(frames.take(i + 1).drop_last() =~= frames.take(i as int));
                assert(frames.take(i + 1).last() == frame@);
            }
            match find_binding(&frame.bindings, name) {
                Some(found) => {
                    return Some(found);
                },
                None => {},
            }
        }
        None
    }

    /// Opens a block of the name `name` and returns the label that closes
    /// it, a fresh one.
    pub fn enter_scope(&mut self, name: String) -> (end: Label)
        requires
            old(self)@.wf(),
            old(self)@.labels < usize::MAX,
        ensures
            end@ == old(self)@.labels,
            final(self)@ == old(self)@.enter(name@),
            final(self)@.wf(),
    {
        let end = Label { index: self.labels };
        self.labels = self.labels + 1;
        self.unit.frames.push(Frame { scope: Some((name, end)), bindings: Vec::new() });
        proof {
            assert(self@.unit.frames =~= old(self)@.enter(name@).unit.frames);
        }
        end
    }

    /// Leaves the innermost block. The names bound in it are no longer
    /// visible.
    pub fn leave_scope(&mut self)
        requires
            old(self)@.wf(),
            old(self)@.unit.frames.len() >= 2,
        ensures
            final(self)@ == old(self)@.leave(),
            final(self)@.wf(),
    {
        let _ = self.unit.frames.pop();
        proof {
            assert(self@.unit.frames =~= old(self)@.leave().unit.frames);
        }
    }

    /// The label that closes the innermost enclosing block of the name
    /// `name`, if the current position lies in such a block of the unit.
    pub fn target(&self, name: &String) -> (end: Option<Label>)
        ensures
            match end {
                Some(label) => self@.target(name@) == Some(label@),
                None => self@.target(name@) is None,
            },
    {
        let ghost frames = self@.unit.frames;
        let mut i: usize = self.unit.frames.len();
        assert(frames.take(i as int) =~= frames);
        while i > 0
            invariant
                i <= self.unit.frames.len(),
                frames == self@.unit.frames,
                scope_target(frames, name@) == scope_target(frames.take(i as int), name@),
            decreases i,
        {
            i = i - 1;
            let frame = &self.unit.frames[i];
            proof {
                assert(frames.take(i + 1).drop_last() =~= frames.take(i as int));
                assert(frames.take(i + 1).last() == frame@);
            }
            match &frame.scope {
                Some((block, end)) => {
                    if *block == *name {
                        return Some(*end);
                    }
                },
                None => {},
            }
        }
        None
    }

    /// Starts a function with the parameters `arguments`. The current unit
    /// waits until [`Builder::end_function`]; what is emitted until then is
    /// the function's code. Each parameter is bound to a fresh variable in the
    /// root scope of the function.
    pub fn begin_function(&mut self, arguments: &Vec<String>)
        requires
            old(self)@.wf(),
            old(self)@.variables + arguments@.len() <= usize::MAX,
        ensures
            final(self)@ == old(self)@.begin(names_view(arguments@)),
            final(self)@.wf(),
    {
        let ghost names = names_view(arguments@);
        let ghost first = self@.variables;
        let base: usize = self.variables;
        let mut parameters: Vec<Variable> = Vec::new();
        let mut bindings: Vec<(String, Binding)> = Vec::new();
        let mut i: usize = 0;
        while i < arguments.len()
            invariant
                i <= arguments.len(),
                names == names_view(arguments@),
                base == first,
                first + arguments@.len() <= usize::MAX,
                parameters@.len() == i,
                forall|k: int| 0 <= k < i ==> (#[trigger] parameters@[k]).index == first + k,
                bindings_view(bindings@) == parameter_bindings(names.take(i as int), first),
            decreases arguments.len() - i,
        {
            let variable = Variable { index: base + i };
            let ghost entries = bindings@;
            parameters.push(variable);
            bindings.push((arguments[i].clone(), Binding::Variable(variable)));
            proof {
                assert(bindings@.drop_last() =~= entries);
                assert(names.take(i + 1).drop_last() =~= names.take(i as int));
                assert(names.take(i + 1).last() == arguments@[i as int]@);
            }
            i = i + 1;
        }
        proof {
            assert(names.take(i as int) =~= names);
        }
        self.variables = base + arguments.len();
        let mut frames: Vec<Frame> = Vec::new();
        frames.push(Frame { scope: None, bindings });
        let mut unit = Unit { code: Vec::new(), frames, parameters };
        core::mem::swap(&mut self.unit, &mut unit);
        self.suspended.push(unit);
        proof {
            let after = old(self)@.begin(names);
            assert(self@.unit.frames =~= after.unit.frames);
            assert(self@.unit.code =~= after.unit.code);
            assert(self@.unit.parameters =~= after.unit.parameters);
            assert(self@.suspended =~= after.suspended);
        }
    }

    /// Completes the function under construction and returns its number
    /// among the functions of the code block. The unit that waited for it is
    /// the current one again.
    pub fn end_function(&mut self) -> (index: usize)
        requires
            old(self)@.wf(),
            old(self)@.suspended.len() >= 1,
        ensures
            index == old(self)@.functions.len(),
            final(self)@ == old(self)@.end(),
            final(self)@.wf(),
    {
        let mut unit = self.suspended.pop().unwrap();
        core::mem::swap(&mut self.unit, &mut unit);
        let index = self.functions.len();
        self.functions.push(Function { parameters: unit.parameters, code: unit.code });
        proof {
            let after = old(self)@.end();
            assert(self@.suspended =~= after.suspended);
            assert(self@.functions =~= after.functions);
        }
        index
    }

    /// Ends the lowering and hands out what was built: the code of the
    /// current unit, the number of variables taken, and the functions.
    pub fn finish(self) -> (block: CodeBlock<String>)
        ensures
            block@ == self@.finish(),
    {
        CodeBlock { code: self.unit.code, variables: self.variables, functions: self.functions }
    }
}

/// What `name` stands for in a list of bindings, where a later binding
/// replaces an earlier one.
fn find_binding(entries: &Vec<(String, Binding)>, name: &String) -> (binding: Option<Binding>)
    ensures
        match binding {
            Some(found) => bindings_view(entries@).contains_key(name@) && bindings_view(
                entries@,
            )[name@] == found@,
            None => !bindings_view(entries@).contains_key(name@),
        },
{
    let mut i: usize = entries.len();
    assert(entries@.take(i as int) =~= entries@);
    while i > 0
        invariant
            i <= entries.len(),
            bindings_view(entries@).contains_key(name@) <==> bindings_view(
                entries@.take(i as int),
            ).contains_key(name@),
            bindings_view(entries@).contains_key(name@) ==> bindings_view(entries@)[name@]
                == bindings_view(entries@.take(i as int))[name@],
        decreases i,
    {
        i = i - 1;
        proof {
            assert(entries@.take(i + 1).drop_last() =~= entries@.take(i as int));
            assert(entries@.take(i + 1).last() == entries@[i as int]);
        }
        if entries[i].0 == *name {
            return Some(entries[i].1);
        }
    }
    None
}

} // verus!
