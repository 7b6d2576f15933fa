//! The tools that may claim an execution, and the verdict that each gives.

use crate::resolver::Resolver;
use crate::semantic::tool::tool_clang::ToolClang;
use crate::semantic::tool::tool_cuda::ToolCuda;
use crate::semantic::tool::tool_extending_wrapper::ToolExtendingWrapper;
use crate::semantic::tool::tool_gcc::{compilation_of, GccLike, ToolGcc};
use crate::semantic::tool::tool_wrapper::{wrapper_verdict, ToolWrapper};
use crate::semantic::{RecognitionError, RecognitionErrorView, Semantic, SemanticView};
use crate::{Execution, ExecutionView};
use vstd::prelude::*;

pub mod tool_any;
pub mod tool_clang;
pub mod tool_cuda;
pub mod tool_extending_wrapper;
pub mod tool_gcc;
pub mod tool_wrapper;

verus! {

/// The verdict of a tool on an execution, over the views of what it holds.
pub open spec fn verdict_view(result: Result<Option<Semantic>, RecognitionError>) -> Result<
    Option<SemanticView>,
    RecognitionErrorView,
> {
    match result {
        Ok(Some(semantic)) => Ok(Some(semantic@)),
        Ok(None) => Ok(None),
        Err(error) => Err(error@),
    }
}

/// One of the tools that the recogniser knows.
pub enum Tool {
    Gcc(ToolGcc),
    Clang(ToolClang),
    Cuda(ToolCuda),
    Wrapper(ToolWrapper),
    ExtendingWrapper(ToolExtendingWrapper),
}

/// The verdict of a gcc-like tool that claims, or does not claim, the
/// program of an execution.
pub open spec fn claimed_verdict(claims: bool, execution: ExecutionView) -> Result<
    Option<SemanticView>,
    RecognitionErrorView,
> {
    if claims {
        compilation_of(execution)
    } else {
        Ok(None)
    }
}

impl Tool {
    /// What the tool says of an execution. Only a launcher reads
    /// `resolved`, the place that was found for the compiler behind it.
    pub open spec fn verdict(&self, execution: ExecutionView, resolved: Option<Seq<char>>) -> Result<
        Option<SemanticView>,
        RecognitionErrorView,
    > {
        match self {
            Tool::Gcc(tool) => claimed_verdict(tool.claims(execution.executable), execution),
            Tool::Clang(tool) => claimed_verdict(tool.claims(execution.executable), execution),
            Tool::Cuda(tool) => claimed_verdict(tool.claims(execution.executable), execution),
            Tool::Wrapper(_) => wrapper_verdict(execution, resolved),
            Tool::ExtendingWrapper(tool) => tool.verdict(execution),
        }
    }

    /// Whether a tool claims an execution does not depend on what the
    /// resolver finds, and a compilation that it recognises has a source
    /// file.
    pub proof fn lemma_claim_is_fixed(&self, execution: ExecutionView, resolved: Option<Seq<char>>)
        ensures
            forall|other: Option<Seq<char>>|
                (self.verdict(execution, resolved) matches Ok(None)) == (#[trigger] self.verdict(
                    execution,
                    other,
                ) matches Ok(None)),
            self.verdict(execution, resolved) matches Ok(Some(SemanticView::Compile(compile)))
                ==> compile.sources.len() > 0,
    {
    }

    pub fn recognize<R: Resolver>(&self, resolver: &R, execution: &Execution) -> (result: Result<
        Option<Semantic>,
        RecognitionError,
    >)
        ensures
            exists|resolved: Option<Seq<char>>|
                verdict_view(result) == #[trigger] self.verdict(execution@, resolved),
            result matches Ok(Some(Semantic::Compile(compile))) ==> compile.sources.len() > 0,
    {
        match self {
            Tool::Gcc(tool) => {
                let result = tool.recognize(execution);
                assert(verdict_view(result) == self.verdict(execution@, None));
                result
            },
            Tool::Clang(tool) => {
                let result = tool.recognize(execution);
                assert(verdict_view(result) == self.verdict(execution@, None));
                result
            },
            Tool::Cuda(tool) => {
                let result = tool.recognize(execution);
                assert(verdict_view(result) == self.verdict(execution@, None));
                result
            },
            Tool::Wrapper(tool) => {
                let result = tool.recognize(resolver, execution);
                let ghost resolved = choose|resolved: Option<Seq<char>>|
                    verdict_view(result) == wrapper_verdict(execution@, resolved);
                assert(verdict_view(result) == self.verdict(execution@, resolved));
                result
            },
            Tool::ExtendingWrapper(tool) => {
                let result = tool.recognize(execution);
                assert(verdict_view(result) == self.verdict(execution@, None));
                result
            },
        }
    }
}

/// The tool claimed the execution and says what it means.
pub fn recognized_ok(result: &Result<Option<Semantic>, RecognitionError>) -> (answer: bool)
    ensures
        answer == (result matches Ok(Some(_))),
{
    if let Ok(semantic) = result {
        semantic.is_some()
    } else {
        false
    }
}

/// The tool claimed the execution and could not make sense of it.
pub fn recognized_with_error(result: &Result<Option<Semantic>, RecognitionError>) -> (answer: bool)
    ensures
        answer == (result is Err),
{
    result.is_err()
}

/// The tool does not claim the execution.
pub fn not_recognized(result: &Result<Option<Semantic>, RecognitionError>) -> (answer: bool)
    ensures
        answer == (result matches Ok(None)),
{
    if let Ok(semantic) = result {
        semantic.is_none()
    } else {
        false
    }
}

/// A verdict is of exactly one of the three kinds.
pub proof fn lemma_verdict_kinds(result: Result<Option<Semantic>, RecognitionError>)
    ensures
        (result matches Ok(Some(_))) || (result is Err) || (result matches Ok(None)),
        !((result matches Ok(Some(_))) && (result is Err)),
        !((result matches Ok(Some(_))) && (result matches Ok(None))),
        !((result is Err) && (result matches Ok(None))),
{
}

} // verus!
