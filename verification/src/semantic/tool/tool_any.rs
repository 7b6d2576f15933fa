//! The tools taken together.

use crate::paths;
use crate::resolver::Resolver;
use crate::semantic::tool::{verdict_view, Tool};
use crate::semantic::{RecognitionError, RecognitionErrorView, Semantic, SemanticView};
use crate::text;
use crate::{Execution, ExecutionView};
use vstd::prelude::*;

verus! {

/// Asks a list of tools in order, after a look at the list of programs to
/// leave out.
pub struct ToolAny {
    tools: Vec<Tool>,
    to_exclude: Vec<String>,
}

/// The verdict of the first tool that claims the execution.
pub open spec fn first_verdict(
    tools: Seq<Tool>,
    execution: ExecutionView,
    resolved: Option<Seq<char>>,
) -> Result<Option<SemanticView>, RecognitionErrorView>
    decreases tools.len(),
{
    if tools.len() == 0 {
        Err(RecognitionErrorView::NoToolRecognized)
    } else {
        match tools.first().verdict(execution, resolved) {
            Ok(None) => first_verdict(tools.drop_first(), execution, resolved),
            verdict => verdict,
        }
    }
}

/// The verdict of a list of tools: an error for a program that is left out,
/// else what the first tool that claims the execution says, and an error
/// where none does.
pub open spec fn any_verdict(
    tools: Seq<Tool>,
    to_exclude: Seq<Seq<char>>,
    execution: ExecutionView,
    resolved: Option<Seq<char>>,
) -> Result<Option<SemanticView>, RecognitionErrorView> {
    if to_exclude.contains(execution.executable) {
        Err(RecognitionErrorView::Excluded)
    } else {
        first_verdict(tools, execution, resolved)
    }
}

/// A list of tools never says that it does not know, and a compilation that
/// it recognises has a source file.
pub proof fn lemma_first_verdict(
    tools: Seq<Tool>,
    execution: ExecutionView,
    resolved: Option<Seq<char>>,
)
    ensures
        !(first_verdict(tools, execution, resolved) matches Ok(None)),
        first_verdict(tools, execution, resolved) matches Ok(Some(SemanticView::Compile(compile)))
            ==> compile.sources.len() > 0,
    decreases tools.len(),
{
    if tools.len() > 0 {
        lemma_first_verdict(tools.drop_first(), execution, resolved);
    }
}

/// What was found for the compiler behind a launcher matters to the verdict
/// on a launcher's execution only.
pub proof fn lemma_only_launchers_resolve(
    tools: Seq<Tool>,
    to_exclude: Seq<Seq<char>>,
    execution: ExecutionView,
    one: Option<Seq<char>>,
    other: Option<Seq<char>>,
)
    requires
        paths::file_stem(execution.executable) != "ccache"@,
        paths::file_stem(execution.executable) != "distcc"@,
    ensures
        first_verdict(tools, execution, one) == first_verdict(tools, execution, other),
        any_verdict(tools, to_exclude, execution, one) == any_verdict(
            tools,
            to_exclude,
            execution,
            other,
        ),
    decreases tools.len(),
{
    if tools.len() > 0 {
        lemma_only_launchers_resolve(tools.drop_first(), to_exclude, execution, one, other);
    }
}

impl ToolAny {
    pub closed spec fn tools(&self) -> Seq<Tool> {
        self.tools@
    }

    pub closed spec fn to_exclude(&self) -> Seq<Seq<char>> {
        self.to_exclude.deep_view()
    }

    pub fn new(tools: Vec<Tool>, to_exclude: Vec<String>) -> (result: Self)
        ensures
            result.tools() == tools@,
            result.to_exclude() == to_exclude.deep_view(),
    {
        Self { tools, to_exclude }
    }

    /// Whether the program is on the list of those to leave out.
    fn excludes(&self, program: &str) -> (result: bool)
        ensures
            result == self.to_exclude().contains(program@),
    {
        let mut i: usize = 0;
        while i < self.to_exclude.len()
            invariant
                i <= self.to_exclude.len(),
                forall|j: int| 0 <= j < i ==> self.to_exclude.deep_view()[j] != program@,
            decreases self.to_exclude.len() - i,
        {
            if text::same(self.to_exclude[i].as_str(), program) {
                assert(self.to_exclude.deep_view()[i as int] == program@);
                return true;
            }
            i += 1;
        }
        false
    }

    /// The verdict of the tools on an execution. A tool may ask the resolver
    /// for the compiler behind a launcher; whatever it answers, the verdict
    /// is the one that belongs to that answer.
    pub fn recognize<R: Resolver>(&self, resolver: &R, execution: &Execution) -> (result: Result<
        Option<Semantic>,
        RecognitionError,
    >)
        ensures
            exists|resolved: Option<Seq<char>>|
                verdict_view(result) == #[trigger] any_verdict(
                    self.tools(),
                    self.to_exclude(),
                    execution@,
                    resolved,
                ),
            !(result matches Ok(None)),
            self.to_exclude().contains(execution@.executable) ==> result == Err::<
                Option<Semantic>,
                RecognitionError,
            >(RecognitionError::Excluded),
            result matches Ok(Some(Semantic::Compile(compile))) ==> compile.sources.len() > 0,
    {
        if self.excludes(execution.executable.as_str()) {
            assert(any_verdict(self.tools(), self.to_exclude(), execution@, None) == Err::<
                Option<SemanticView>,
                RecognitionErrorView,
            >(RecognitionErrorView::Excluded));
            return Err(RecognitionError::Excluded);
        }
        let mut i: usize = 0;
        assert(self.tools@.skip(0) =~= self.tools@);
        while i < self.tools.len()
            invariant
                i <= self.tools.len(),
                !self.to_exclude().contains(execution@.executable),
                forall|resolved: Option<Seq<char>>|
                    #[trigger] first_verdict(self.tools@, execution@, resolved) == first_verdict(
                        self.tools@.skip(i as int),
                        execution@,
                        resolved,
                    ),
            decreases self.tools.len() - i,
        {
            let result = self.tools[i].recognize(resolver, execution);
            let ghost rest = self.tools@.skip(i as int);
            proof {
                assert(rest.first() == self.tools@[i as int]);
                assert(rest.drop_first() =~= self.tools@.skip(i + 1));
            }
            if !matches!(result, Ok(None)) {
                proof {
                    let resolved = choose|resolved: Option<Seq<char>>|
                        verdict_view(result) == self.tools@[i as int].verdict(execution@, resolved);
                    assert(verdict_view(result) == any_verdict(
                        self.tools(),
                        self.to_exclude(),
                        execution@,
                        resolved,
                    ));
                }
                return result;
            }
            proof {
                assert forall|resolved: Option<Seq<char>>|
                    #[trigger] first_verdict(self.tools@, execution@, resolved) == first_verdict(
                        self.tools@.skip(i + 1),
                        execution@,
                        resolved,
                    ) by {
                    self.tools@[i as int].lemma_claim_is_fixed(execution@, resolved);
                }
            }
            i += 1;
        }
        assert(any_verdict(self.tools(), self.to_exclude(), execution@, None) == Err::<
            Option<SemanticView>,
            RecognitionErrorView,
        >(RecognitionErrorView::NoToolRecognized));
        Err(RecognitionError::NoToolRecognized)
    }
}

} // verus!
