//! A program that the user declares to be a compiler.

use crate::configuration::CompilerWrapper;
use crate::semantic::tool::tool_gcc::{compilation_of, GccLike};
use crate::semantic::tool::verdict_view;
use crate::semantic::{
    CompileSemantic, CompileSemanticView, RecognitionError, RecognitionErrorView, Semantic,
    SemanticView,
};
use crate::text;
use crate::{Execution, ExecutionView};
use vstd::prelude::*;

verus! {

#[derive(Debug, Clone)]
pub struct ToolExtendingWrapper {
    compiler_to_recognize: CompilerWrapper,
}

/// The verdict with `flags` added at the end of the flags of a compilation.
pub open spec fn extended(
    verdict: Result<Option<SemanticView>, RecognitionErrorView>,
    flags: Seq<Seq<char>>,
) -> Result<Option<SemanticView>, RecognitionErrorView> {
    match verdict {
        Ok(Some(SemanticView::Compile(compile))) => Ok(
            Some(
                SemanticView::Compile(
                    CompileSemanticView {
                        working_dir: compile.working_dir,
                        compiler: compile.compiler,
                        flags: compile.flags + flags,
                        sources: compile.sources,
                        output: compile.output,
                    },
                ),
            ),
        ),
        other => other,
    }
}

impl ToolExtendingWrapper {
    /// The program that the tool claims.
    pub closed spec fn executable(&self) -> Seq<char> {
        self.compiler_to_recognize.executable@
    }

    /// The flags that the tool adds to each compilation.
    pub closed spec fn additional_flags(&self) -> Seq<Seq<char>> {
        self.compiler_to_recognize.additional_flags.deep_view()
    }

    pub fn new(compiler_to_recognize: CompilerWrapper) -> (result: Self)
        ensures
            result.executable() == compiler_to_recognize.executable@,
            result.additional_flags() == compiler_to_recognize.additional_flags.deep_view(),
    {
        Self { compiler_to_recognize }
    }

    /// What the tool says of an execution.
    pub open spec fn verdict(&self, execution: ExecutionView) -> Result<
        Option<SemanticView>,
        RecognitionErrorView,
    > {
        if self.claims(execution.executable) {
            extended(compilation_of(execution), self.additional_flags())
        } else {
            Ok(None)
        }
    }

    pub fn recognize(&self, execution: &Execution) -> (result: Result<
        Option<Semantic>,
        RecognitionError,
    >)
        ensures
            verdict_view(result) == self.verdict(execution@),
            result matches Ok(Some(Semantic::Compile(compile))) ==> compile.sources.len() > 0,
    {
        match self.recognize_execution(execution) {
            Ok(Some(Semantic::Compile(compile))) => {
                let CompileSemantic { working_dir, compiler, flags, sources, output } = compile;
                let mut flags = flags;
                let ghost before = flags.deep_view();
                let mut more = text::copy_of(&self.compiler_to_recognize.additional_flags);
                flags.append(&mut more);
                assert(flags.deep_view() =~= before + self.additional_flags());
                Ok(
                    Some(
                        Semantic::Compile(
                            CompileSemantic { working_dir, compiler, flags, sources, output },
                        ),
                    ),
                )
            },
            other => other,
        }
    }
}

impl GccLike for ToolExtendingWrapper {
    open spec fn claims(&self, program: Seq<char>) -> bool {
        self.executable() == program
    }

    fn recognize_program(&self, program: &str) -> (result: bool) {
        text::same(self.compiler_to_recognize.executable.as_str(), program)
    }
}

} // verus!
