//! The CUDA compiler.

use crate::semantic::tool::tool_gcc::{
    compilation_of, matches_program, program_matches, GccLike,
};
use crate::semantic::tool::verdict_view;
use crate::semantic::{RecognitionError, Semantic};
use crate::Execution;
use vstd::prelude::*;

verus! {

/// The program name of the CUDA compiler.
pub const CUDA_PATTERN: &'static str = r#"^nvcc$"#;

#[derive(Debug, Clone, Copy, Default)]
pub struct ToolCuda;

impl GccLike for ToolCuda {
    open spec fn claims(&self, program: Seq<char>) -> bool {
        program_matches(CUDA_PATTERN@, program)
    }

    fn recognize_program(&self, program: &str) -> (result: bool) {
        matches_program(CUDA_PATTERN, program)
    }
}

impl ToolCuda {
    pub fn recognize(&self, execution: &Execution) -> (result: Result<
        Option<Semantic>,
        RecognitionError,
    >)
        ensures
            verdict_view(result) == if self.claims(execution@.executable) {
                compilation_of(execution@)
            } else {
                Ok(None)
            },
    {
        self.recognize_execution(execution)
    }
}

} // verus!
