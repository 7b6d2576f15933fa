//! The compilers of the clang family.

use crate::semantic::tool::tool_gcc::{
    compilation_of, matches_program, program_matches, GccLike,
};
use crate::semantic::tool::verdict_view;
use crate::semantic::{RecognitionError, Semantic};
use crate::Execution;
use vstd::prelude::*;

verus! {

/// The program names of the clang family.
pub const CLANG_PATTERN: &'static str = r#"^(([^-]*-)*clang(|\+\+)(-?\d+(\.\d+){0,2})?)$"#;

#[derive(Debug, Clone, Copy, Default)]
pub struct ToolClang;

impl GccLike for ToolClang {
    open spec fn claims(&self, program: Seq<char>) -> bool {
        program_matches(CLANG_PATTERN@, program)
    }

    fn recognize_program(&self, program: &str) -> (result: bool) {
        matches_program(CLANG_PATTERN, program)
    }
}

impl ToolClang {
    pub fn recognize(&self, execution: &Execution) -> (result: Result<
        Option<Semantic>,
        RecognitionError,
    >)
        ensures
            verdict_view(result) == if self.claims(execution@.executable) {
                compilation_of(execution@)
            } else {
                Ok(None)
            },
    {
        self.recognize_execution(execution)
    }
}

} // verus!
