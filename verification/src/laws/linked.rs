//! What linking keeps: linked code is the lowered code, operation by
//! operation, with handles in place of names.
use vstd::prelude::*;
use crate::ir::instruction::Script;
use crate::ir::instruction::ScriptView;
use crate::laws::scopes::leaves_closed;
use crate::laws::scopes::lemma_exits_stay_in_unit;
use crate::laws::scopes::settled;
use crate::linking::linked_code;
use crate::linking::linked_functions;
use crate::linking::linked_operation;
use crate::lowering::builder::FrameView;
use crate::lowering::script::compiled_script;
use crate::lowering::script::lowered_script;
use crate::target::code::FunctionView;
use crate::target::environment::Environment;
use crate::target::operation::OperationView;

verus! {

/// Compiling is a function of the script and the environment: scripts of the
/// same value, compiled against environments with the same intrinsics, give
/// the same code or the same error.
pub proof fn lemma_compile_is_deterministic(
    first: Script,
    second: Script,
    first_environment: Environment,
    second_environment: Environment,
)
    requires
        first@ == second@,
        first_environment@ == second_environment@,
    ensures
        compiled_script(first@, first_environment@) == compiled_script(
            second@,
            second_environment@,
        ),
{
}

/// Linked code has one operation for each operation of the code it was
/// linked from, at the same position.
pub proof fn lemma_linked_code_positions(
    code: Seq<OperationView<Seq<char>>>,
    environment: Seq<Seq<char>>,
    position: int,
)
    requires
        linked_code(code, environment) is Ok,
        0 <= position < code.len(),
    ensures
        linked_code(code, environment)->Ok_0.len() == code.len(),
        linked_operation(code[position], environment) == Ok::<OperationView<usize>, Seq<char>>(
            linked_code(code, environment)->Ok_0[position],
        ),
    decreases code.len(),
{
    lemma_linked_code_length(code, environment);
    if position < code.len() - 1 {
        lemma_linked_code_positions(code.drop_last(), environment, position);
    }
}

/// Linked code is as long as the code it was linked from.
pub proof fn lemma_linked_code_length(
    code: Seq<OperationView<Seq<char>>>,
    environment: Seq<Seq<char>>,
)
    requires
        linked_code(code, environment) is Ok,
    ensures
        linked_code(code, environment)->Ok_0.len() == code.len(),
    decreases code.len(),
{
    if code.len() > 0 {
        lemma_linked_code_length(code.drop_last(), environment);
    }
}

/// Linked functions are as many as the functions they were linked from, and
/// the one at a position is linked from the one at the same position.
pub proof fn lemma_linked_functions_positions(
    functions: Seq<FunctionView<Seq<char>>>,
    environment: Seq<Seq<char>>,
    position: int,
)
    requires
        linked_functions(functions, environment) is Ok,
        0 <= position < functions.len(),
    ensures
        linked_functions(functions, environment)->Ok_0.len() == functions.len(),
        linked_code(functions[position].code, environment) == Ok::<
            Seq<OperationView<usize>>,
            Seq<char>,
        >(linked_functions(functions, environment)->Ok_0[position].code),
        linked_functions(functions, environment)->Ok_0[position].parameters
            == functions[position].parameters,
    decreases functions.len(),
{
    lemma_linked_functions_length(functions, environment);
    if position < functions.len() - 1 {
        lemma_linked_functions_positions(functions.drop_last(), environment, position);
    }
}

/// Linked functions are as many as the functions they were linked from.
pub proof fn lemma_linked_functions_length(
    functions: Seq<FunctionView<Seq<char>>>,
    environment: Seq<Seq<char>>,
)
    requires
        linked_functions(functions, environment) is Ok,
    ensures
        linked_functions(functions, environment)->Ok_0.len() == functions.len(),
    decreases functions.len(),
{
    if functions.len() > 0 {
        lemma_linked_functions_length(functions.drop_last(), environment);
    }
}

/// Where every operation of a code that leaves a block finds its label
/// later in the code, the same holds of the linked code.
pub proof fn lemma_linked_code_leaves_closed(
    code: Seq<OperationView<Seq<char>>>,
    environment: Seq<Seq<char>>,
)
    requires
        linked_code(code, environment) is Ok,
        leaves_closed(code),
    ensures
        leaves_closed(linked_code(code, environment)->Ok_0),
{
    let linked = linked_code(code, environment)->Ok_0;
    lemma_linked_code_length(code, environment);
    assert forall|i: int| 0 <= i < linked.len() implies #[trigger] settled(
        linked,
        Seq::<FrameView>::empty(),
        i,
    ) by {
        lemma_linked_code_positions(code, environment, i);
        assert(settled(code, Seq::<FrameView>::empty(), i));
        match code[i] {
            OperationView::Leave { scope, value } => {
                let j = choose|j: int|
                    i + 1 <= j < code.len() && #[trigger] code[j] == OperationView::<
                        Seq<char>,
                    >::Label(scope);
                lemma_linked_code_positions(code, environment, j);
                assert(linked[j] == OperationView::<usize>::Label(scope));
            },
            _ => {},
        }
    }
}

/// In the code that compiling a script yields, every operation that leaves
/// a block finds the label of the block later in its own code: in the code
/// of the script, and in the code of each function.
pub proof fn lemma_compiled_exits_stay_in_unit(script: ScriptView, environment: Seq<Seq<char>>)
    requires
        compiled_script(script, environment) is Ok,
    ensures
        leaves_closed(compiled_script(script, environment)->Ok_0.code),
        forall|f: int|
            0 <= f < compiled_script(script, environment)->Ok_0.functions.len()
                ==> leaves_closed(
                (#[trigger] compiled_script(script, environment)->Ok_0.functions[f]).code,
            ),
{
    let lowered = lowered_script(script);
    let compiled = compiled_script(script, environment)->Ok_0;
    lemma_exits_stay_in_unit(script);
    lemma_linked_code_leaves_closed(lowered.code, environment);
    lemma_linked_functions_length(lowered.functions, environment);
    assert forall|f: int| 0 <= f < compiled.functions.len() implies leaves_closed(
        (#[trigger] compiled.functions[f]).code,
    ) by {
        lemma_linked_functions_positions(lowered.functions, environment, f);
        assert(leaves_closed(lowered.functions[f].code));
        lemma_linked_code_leaves_closed(lowered.functions[f].code, environment);
    }
}

} // verus!
