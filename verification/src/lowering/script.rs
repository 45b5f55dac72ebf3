//! Compilation of a whole script: lowering, then linking.
use vstd::prelude::*;
use crate::ir::instruction::Script;
use crate::ir::instruction::ScriptView;
use crate::linking::link_result_view;
use crate::linking::linked_block;
use crate::linking::LinkError;
use crate::linking::LinkErrorView;
use crate::lowering::builder::Builder;
use crate::lowering::builder::BuilderView;
use crate::lowering::instruction::block_labels;
use crate::lowering::instruction::block_variables;
use crate::lowering::instruction::compile_block;
use crate::lowering::instruction::lower_block;
use crate::target::code::CodeBlockView;
use crate::target::code::LinkedCode;
use crate::target::environment::Environment;

verus! {

/// The code block that `script` lowers to, before it is linked.
pub open spec fn lowered_script(script: ScriptView) -> CodeBlockView<Seq<char>> {
    lower_block(script.instructions, BuilderView::initial()).finish()
}

/// What compiling `script` against `environment` yields.
pub open spec fn compiled_script(script: ScriptView, environment: Seq<Seq<char>>) -> Result<
    CodeBlockView<usize>,
    LinkErrorView,
> {
    linked_block(lowered_script(script), environment)
}

impl Script {
    /// Whether the variables and labels of the lowered script can be
    /// numbered by `usize`.
    pub open spec fn fits(self) -> bool {
        &&& block_variables(self@.instructions) <= usize::MAX
        &&& block_labels(self@.instructions) <= usize::MAX
    }

    /// Compiles the script: lowers its instructions in their order and links
    /// the code against `environment`, which is left as it was. The result
    /// depends on the script and on the environment alone.
    pub fn compile(&self, environment: &mut Environment) -> (result: Result<LinkedCode, LinkError>)
        requires
            self.fits(),
        ensures
            link_result_view(result) == compiled_script(self@, old(environment)@),
            final(environment)@ == old(environment)@,
    {
        let mut code_block = Builder::default();
        compile_block(&self.instructions, &mut code_block);
        let code_block = code_block.finish();
        code_block.link(environment)
    }
}

} // verus!
