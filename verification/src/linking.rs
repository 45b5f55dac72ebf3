//! Linking: every intrinsic that lowered code calls by name is resolved to
//! its handle in a runtime environment.
use vstd::prelude::*;
use crate::target::code::functions_view;
use crate::target::code::CodeBlock;
use crate::target::code::CodeBlockView;
use crate::target::code::Function;
use crate::target::code::FunctionView;
use crate::target::code::LinkedCode;
use crate::target::environment::resolve_name;
use crate::target::environment::Environment;
use crate::target::operation::code_view;
use crate::target::operation::Operation;
use crate::target::operation::OperationView;

verus! {

/// Why code could not be linked.
#[derive(Debug, PartialEq, Eq)]
pub enum LinkError {
    /// The code calls an intrinsic of this name, and the environment has
    /// none.
    UnresolvedIntrinsic(String),
}

/// The mathematical value of a [`LinkError`].
pub enum LinkErrorView {
    UnresolvedIntrinsic(Seq<char>),
}

impl View for LinkError {
    type V = LinkErrorView;

    open spec fn view(&self) -> LinkErrorView {
        match self {
            LinkError::UnresolvedIntrinsic(name) => LinkErrorView::UnresolvedIntrinsic(name@),
        }
    }
}

/// `operation` linked against `environment`: a call holds the handle of its
/// intrinsic in place of the name, and any other operation is unchanged. The
/// error is the name of the intrinsic that the environment lacks.
pub open spec fn linked_operation(
    operation: OperationView<Seq<char>>,
    environment: Seq<Seq<char>>,
) -> Result<OperationView<usize>, Seq<char>> {
    match operation {
        OperationView::Load { variable, value } => Ok(OperationView::Load { variable, value }),
        OperationView::Binary { op, left, right, destination } => Ok(
            OperationView::Binary { op, left, right, destination },
        ),
        OperationView::Unary { op, operand, destination } => Ok(
            OperationView::Unary { op, operand, destination },
        ),
        OperationView::Call { intrinsic, arguments, destination } => match resolve_name(
            environment,
            intrinsic,
        ) {
            Some(handle) => Ok(OperationView::Call { intrinsic: handle, arguments, destination }),
            None => Err(intrinsic),
        },
        OperationView::Return(value) => Ok(OperationView::Return(value)),
        OperationView::Leave { scope, value } => Ok(OperationView::Leave { scope, value }),
        OperationView::Label(label) => Ok(OperationView::Label(label)),
    }
}

/// `code` linked against `environment`, operation by operation. The error
/// is that of the first operation that cannot be linked.
pub open spec fn linked_code(code: Seq<OperationView<Seq<char>>>, environment: Seq<Seq<char>>) -> Result<
    Seq<OperationView<usize>>,
    Seq<char>,
>
    decreases code.len(),
{
    if code.len() == 0 {
        Ok(Seq::empty())
    } else {
        match linked_code(code.drop_last(), environment) {
            Ok(linked) => match linked_operation(code.last(), environment) {
                Ok(operation) => Ok(linked.push(operation)),
                Err(name) => Err(name),
            },
            Err(name) => Err(name),
        }
    }
}

/// `functions` linked against `environment`, function by function. The
/// error is that of the first function whose code cannot be linked.
pub open spec fn linked_functions(
    functions: Seq<FunctionView<Seq<char>>>,
    environment: Seq<Seq<char>>,
) -> Result<Seq<FunctionView<usize>>, Seq<char>>
    decreases functions.len(),
{
    if functions.len() == 0 {
        Ok(Seq::empty())
    } else {
        match linked_functions(functions.drop_last(), environment) {
            Ok(linked) => match linked_code(functions.last().code, environment) {
                Ok(code) => Ok(
                    linked.push(FunctionView { parameters: functions.last().parameters, code }),
                ),
                Err(name) => Err(name),
            },
            Err(name) => Err(name),
        }
    }
}

/// `block` linked against `environment`: its code first, then its functions
/// in their order. Linking succeeds exactly if the environment has every
/// intrinsic that the block calls; else the error names the first one,
/// in this order, that it lacks.
pub open spec fn linked_block(block: CodeBlockView<Seq<char>>, environment: Seq<Seq<char>>) -> Result<
    CodeBlockView<usize>,
    LinkErrorView,
> {
    match linked_code(block.code, environment) {
        Ok(code) => match linked_functions(block.functions, environment) {
            Ok(functions) => Ok(CodeBlockView { code, variables: block.variables, functions }),
            Err(name) => Err(LinkErrorView::UnresolvedIntrinsic(name)),
        },
        Err(name) => Err(LinkErrorView::UnresolvedIntrinsic(name)),
    }
}

/// The mathematical value of what linking hands back.
pub open spec fn link_result_view(result: Result<LinkedCode, LinkError>) -> Result<
    CodeBlockView<usize>,
    LinkErrorView,
> {
    match result {
        Ok(code) => Ok(code@),
        Err(error) => Err(error@),
    }
}

/// Links one operation: resolves the intrinsic of a call.
fn link_operation(operation: Operation<String>, environment: &Environment) -> (result: Result<
    Operation<usize>,
    String,
>)
    ensures
        match result {
            Ok(linked) => linked_operation(operation@, environment@) == Ok::<
                OperationView<usize>,
                Seq<char>,
            >(linked@),
            Err(name) => linked_operation(operation@, environment@) == Err::<
                OperationView<usize>,
                Seq<char>,
            >(name@),
        },
{
    match operation {
        Operation::Load { variable, value } => Ok(Operation::Load { variable, value }),
        Operation::Binary { op, left, right, destination } => Ok(
            Operation::Binary { op, left, right, destination },
        ),
        Operation::Unary { op, operand, destination } => Ok(
            Operation::Unary { op, operand, destination },
        ),
        Operation::Call { intrinsic, arguments, destination } => {
            match environment.resolve(&intrinsic) {
                Some(handle) => Ok(Operation::Call { intrinsic: handle, arguments, destination }),
                None => Err(intrinsic),
            }
        },
        Operation::Return(value) => Ok(Operation::Return(value)),
        Operation::Leave { scope, value } => Ok(Operation::Leave { scope, value }),
        Operation::Label(label) => Ok(Operation::Label(label)),
    }
}

/// Links code operation by operation, up to the first that cannot be
/// linked.
fn link_code(code: Vec<Operation<String>>, environment: &Environment) -> (result: Result<
    Vec<Operation<usize>>,
    String,
>)
    ensures
        match result {
            Ok(linked) => linked_code(code_view(code@), environment@) == Ok::<
                Seq<OperationView<usize>>,
                Seq<char>,
            >(code_view(linked@)),
            Err(name) => linked_code(code_view(code@), environment@) == Err::<
                Seq<OperationView<usize>>,
                Seq<char>,
            >(name@),
        },
{
    let ghost unlinked = code_view(code@);
    let mut linked: Vec<Operation<usize>> = Vec::new();
    proof {
        assert(unlinked.take(0) =~= Seq::empty());
        assert(code_view(linked@) =~= Seq::empty());
    }
    for operation in iter: code
        invariant
            unlinked == code_view(iter.seq()),
            linked_code(unlinked.take(iter.index() as int), environment@) == Ok::<
                Seq<OperationView<usize>>,
                Seq<char>,
            >(code_view(linked@)),
    {
        let ghost before = code_view(linked@);
        proof {
            assert(unlinked.take(iter.index() + 1).drop_last() =~= unlinked.take(iter.index() as int));
            assert(unlinked.take(iter.index() + 1).last() == operation@);
        }
        match link_operation(operation, environment) {
            Ok(operation) => {
                linked.push(operation);
                proof {
                    assert(code_view(linked@) =~= before.push(operation@));
                }
            },
            Err(name) => {
                proof {
                    lemma_linked_code_error(unlinked, iter.index() + 1, environment@);
                }
                return Err(name);
            },
        }
    }
    proof {
        assert(unlinked.take(unlinked.len() as int) =~= unlinked);
    }
    Ok(linked)
}

/// Where the first operations of a code cannot be linked, the code cannot,
/// and for the same missing intrinsic.
proof fn lemma_linked_code_error(
    code: Seq<OperationView<Seq<char>>>,
    count: int,
    environment: Seq<Seq<char>>,
)
    requires
        0 <= count <= code.len(),
        linked_code(code.take(count), environment) is Err,
    ensures
        linked_code(code, environment) == linked_code(code.take(count), environment),
    decreases code.len(),
{
    if count == code.len() {
        assert(code.take(count) =~= code);
    } else {
        assert(code.drop_last().take(count) =~= code.take(count));
        lemma_linked_code_error(code.drop_last(), count, environment);
    }
}

/// Links functions one by one, up to the first that cannot be linked.
fn link_functions(functions: Vec<Function<String>>, environment: &Environment) -> (result: Result<
    Vec<Function<usize>>,
    String,
>)
    ensures
        match result {
            Ok(linked) => linked_functions(functions_view(functions@), environment@) == Ok::<
                Seq<FunctionView<usize>>,
                Seq<char>,
            >(functions_view(linked@)),
            Err(name) => linked_functions(functions_view(functions@), environment@) == Err::<
                Seq<FunctionView<usize>>,
                Seq<char>,
            >(name@),
        },
{
    let ghost unlinked = functions_view(functions@);
    let mut linked: Vec<Function<usize>> = Vec::new();
    proof {
        assert(unlinked.take(0) =~= Seq::empty());
        assert(functions_view(linked@) =~= Seq::empty());
    }
    for function in iter: functions
        invariant
            unlinked == functions_view(iter.seq()),
            linked_functions(unlinked.take(iter.index() as int), environment@) == Ok::<
                Seq<FunctionView<usize>>,
                Seq<char>,
            >(functions_view(linked@)),
    {
        let ghost before = functions_view(linked@);
        proof {
            assert(unlinked.take(iter.index() + 1).drop_last() =~= unlinked.take(iter.index() as int));
            assert(unlinked.take(iter.index() + 1).last() == function@);
        }
        match link_code(function.code, environment) {
            Ok(code) => {
                let function = Function { parameters: function.parameters, code };
                linked.push(function);
                proof {
                    assert(functions_view(linked@) =~= before.push(function@));
                }
            },
            Err(name) => {
                proof {
                    lemma_linked_functions_error(unlinked, iter.index() + 1, environment@);
                }
                return Err(name);
            },
        }
    }
    proof {
        assert(unlinked.take(unlinked.len() as int) =~= unlinked);
    }
    Ok(linked)
}

/// Where the first functions of a list cannot be linked, the list cannot,
/// and for the same missing intrinsic.
proof fn lemma_linked_functions_error(
    functions: Seq<FunctionView<Seq<char>>>,
    count: int,
    environment: Seq<Seq<char>>,
)
    requires
        0 <= count <= functions.len(),
        linked_functions(functions.take(count), environment) is Err,
    ensures
        linked_functions(functions, environment) == linked_functions(
            functions.take(count),
            environment,
        ),
    decreases functions.len(),
{
    if count == functions.len() {
        assert(functions.take(count) =~= functions);
    } else {
        assert(functions.drop_last().take(count) =~= functions.take(count));
        lemma_linked_functions_error(functions.drop_last(), count, environment);
    }
}

impl CodeBlock<String> {
    /// Links the block against `environment`. Each call of an intrinsic gets
    /// the handle that the environment has for the name; nothing else
    /// changes. If the environment lacks an intrinsic that the block calls,
    /// no code is handed out, and the error names the intrinsic: of several,
    /// the first in the code of the script, or else the first in the
    /// functions.
    pub fn link(self, environment: &Environment) -> (result: Result<LinkedCode, LinkError>)
        ensures
            link_result_view(result) == linked_block(self@, environment@),
    {
        match link_code(self.code, environment) {
            Ok(code) => match link_functions(self.functions, environment) {
                Ok(functions) => Ok(CodeBlock { code, variables: self.variables, functions }),
                Err(name) => Err(LinkError::UnresolvedIntrinsic(name)),
            },
            Err(name) => Err(LinkError::UnresolvedIntrinsic(name)),
        }
    }
}

} // verus!
