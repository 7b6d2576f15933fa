//! The launchers that run a compiler for the build: ccache and distcc.

use crate::paths;
use crate::resolver::{found_in, Resolver};
use crate::semantic::tool::tool_gcc::{compilation, compilation_of, lemma_compiler_is_named};
use crate::semantic::tool::verdict_view;
use crate::semantic::{
    CompileSemantic, CompileSemanticView, RecognitionError, RecognitionErrorView, Semantic,
    SemanticView,
};
use crate::text;
use crate::{Execution, ExecutionView};
use vstd::prelude::*;
use vstd::string::*;

verus! {

#[derive(Debug, Clone, Copy, Default)]
pub struct ToolWrapper;

/// The arguments of a call of ccache that is no call of a compiler: none
/// after the program's name, or a parameter of ccache itself.
pub open spec fn ccache_query(arguments: Seq<Seq<char>>) -> bool {
    arguments.len() <= 1 || ccache_parameter(arguments[1])
}

/// A parameter of ccache: an argument that is empty or begins with a dash.
pub open spec fn ccache_parameter(candidate: Seq<char>) -> bool {
    candidate.len() == 0 || candidate[0] == '-'
}

/// The arguments of a call of distcc that is no call of a compiler.
pub open spec fn distcc_query(arguments: Seq<Seq<char>>) -> bool {
    arguments.len() <= 1 || distcc_parameter(arguments[1])
}

/// The flags that distcc answers by itself.
pub open spec fn distcc_flag(candidate: Seq<char>) -> bool {
    ||| candidate == "--help"@
    ||| candidate == "--version"@
    ||| candidate == "--show-hosts"@
    ||| candidate == "--scan-includes"@
    ||| candidate == "-j"@
    ||| candidate == "--show-principal"@
}

/// A parameter of distcc: an argument that is empty, begins with a dash, or
/// is one of the flags that distcc answers by itself.
pub open spec fn distcc_parameter(candidate: Seq<char>) -> bool {
    candidate.len() == 0 || candidate[0] == '-' || distcc_flag(candidate)
}

/// The execution of the compiler that a launcher was asked to run: the
/// launcher's name is dropped from the arguments, and the program is the
/// place that was found for the compiler's name, or the name as it stands
/// where none was found.
pub open spec fn unwrapped(execution: ExecutionView, resolved: Option<Seq<char>>) -> ExecutionView {
    ExecutionView {
        executable: match resolved {
            Some(program) => program,
            None => execution.arguments[1],
        },
        arguments: execution.arguments.skip(1),
        working_dir: execution.working_dir,
        environment: execution.environment,
    }
}

/// The verdict with `compiler` as the compiler of a compilation.
pub open spec fn compiled_by(
    verdict: Result<Option<SemanticView>, RecognitionErrorView>,
    compiler: Seq<char>,
) -> Result<Option<SemanticView>, RecognitionErrorView> {
    match verdict {
        Ok(Some(SemanticView::Compile(compile))) => Ok(
            Some(
                SemanticView::Compile(
                    CompileSemanticView {
                        working_dir: compile.working_dir,
                        compiler,
                        flags: compile.flags,
                        sources: compile.sources,
                        output: compile.output,
                    },
                ),
            ),
        ),
        other => other,
    }
}

/// What the call behind a launcher means. It is read as a call of a gcc-like
/// compiler; the compiler of a compilation is the program of the call: the
/// place that was found for it, or its name where none was found.
pub open spec fn behind_launcher(execution: ExecutionView) -> Result<
    Option<SemanticView>,
    RecognitionErrorView,
> {
    compiled_by(compilation_of(execution), execution.executable)
}

/// What the tool says of an execution, for the place that was found for the
/// compiler behind the launcher.
pub open spec fn wrapper_verdict(execution: ExecutionView, resolved: Option<Seq<char>>) -> Result<
    Option<SemanticView>,
    RecognitionErrorView,
> {
    if paths::file_stem(execution.executable) == "ccache"@ {
        if ccache_query(execution.arguments) {
            Ok(Some(SemanticView::QueryCompiler))
        } else {
            behind_launcher(unwrapped(execution, resolved))
        }
    } else if paths::file_stem(execution.executable) == "distcc"@ {
        if distcc_query(execution.arguments) {
            Ok(Some(SemanticView::QueryCompiler))
        } else {
            behind_launcher(unwrapped(execution, resolved))
        }
    } else {
        Ok(None)
    }
}

/// What was found for the compiler behind a launcher is the compiler of the
/// compilation, and matters to nothing else: the verdict for a place that
/// was found is the verdict for none with that place as the compiler. Where
/// none was found, the compiler is the name that the launcher was given.
pub proof fn lemma_launcher_compiler(execution: ExecutionView, place: Seq<char>)
    ensures
        wrapper_verdict(execution, Some(place)) == compiled_by(
            wrapper_verdict(execution, None),
            place,
        ),
        wrapper_verdict(execution, Some(place)) matches Ok(Some(SemanticView::Compile(compile)))
            ==> compile.compiler == place,
        wrapper_verdict(execution, None) matches Ok(Some(SemanticView::Compile(compile)))
            ==> execution.arguments.len() >= 2 && compile.compiler == execution.arguments[1],
{
    let found = unwrapped(execution, Some(place));
    let plain = unwrapped(execution, None);
    lemma_compiler_is_named(plain, found);
}

/// A launcher's call of a compiler, in a file system that is searched along
/// the `PATH` of the call: where the call is a compilation, its compiler is
/// the place that the file system holds for the compiler's name, or the
/// name where it holds none, and everything else is what the call behind
/// the launcher says.
pub proof fn lemma_launcher_in_file_system(
    execution: ExecutionView,
    file_system: Map<Seq<char>, Seq<char>>,
)
    requires
        execution.arguments.len() >= 2,
        execution.environment.contains_key("PATH"@),
    ensures
        ({
            let place = found_in(file_system, execution.arguments[1], execution.environment["PATH"@]);
            let behind = compilation_of(unwrapped(execution, None));
            wrapper_verdict(execution, place) matches Ok(Some(SemanticView::Compile(compile)))
                ==> {
                &&& compile.compiler == match place {
                    Some(found) => found,
                    None => execution.arguments[1],
                }
                &&& behind matches Ok(Some(SemanticView::Compile(named)))
                &&& compile.working_dir == execution.working_dir
                &&& compile.flags == behind->Ok_0->Some_0->Compile_0.flags
                &&& compile.sources == behind->Ok_0->Some_0->Compile_0.sources
                &&& compile.output == behind->Ok_0->Some_0->Compile_0.output
            }
        }),
{
    let place = found_in(file_system, execution.arguments[1], execution.environment["PATH"@]);
    if let Some(found) = place {
        lemma_launcher_compiler(execution, found);
    }
    lemma_compiler_is_named(unwrapped(execution, None), unwrapped(execution, place));
}

impl ToolWrapper {
    /// Recognises a call through a launcher. The resolver is asked for the
    /// compiler behind it; whatever it answers, the verdict is the one that
    /// belongs to that answer.
    pub fn recognize<R: Resolver>(&self, resolver: &R, execution: &Execution) -> (result: Result<
        Option<Semantic>,
        RecognitionError,
    >)
        ensures
            exists|resolved: Option<Seq<char>>|
                verdict_view(result) == #[trigger] wrapper_verdict(execution@, resolved),
            result matches Ok(Some(Semantic::Compile(compile))) ==> compile.sources.len() > 0,
    {
        if is_ccache_call(execution.executable.as_str()) {
            if is_ccache_query(execution.arguments.as_slice()) {
                assert(wrapper_verdict(execution@, None) == Ok::<
                    Option<SemanticView>,
                    RecognitionErrorView,
                >(Some(SemanticView::QueryCompiler)));
                Ok(Some(Semantic::QueryCompiler))
            } else {
                let inner = remove_wrapper_with_resolver(resolver, execution);
                let ghost resolved = choose|resolved: Option<Seq<char>>|
                    inner@ == unwrapped(execution@, resolved);
                let result = compilation_behind(&inner);
                assert(verdict_view(result) == wrapper_verdict(execution@, resolved));
                result
            }
        } else if is_distcc_call(execution.executable.as_str()) {
            if is_distcc_query(execution.arguments.as_slice()) {
                assert(wrapper_verdict(execution@, None) == Ok::<
                    Option<SemanticView>,
                    RecognitionErrorView,
                >(Some(SemanticView::QueryCompiler)));
                Ok(Some(Semantic::QueryCompiler))
            } else {
                let inner = remove_wrapper_with_resolver(resolver, execution);
                let ghost resolved = choose|resolved: Option<Seq<char>>|
                    inner@ == unwrapped(execution@, resolved);
                let result = compilation_behind(&inner);
                assert(verdict_view(result) == wrapper_verdict(execution@, resolved));
                result
            }
        } else {
            assert(wrapper_verdict(execution@, None) == Ok::<
                Option<SemanticView>,
                RecognitionErrorView,
            >(None));
            Ok(None)
        }
    }

    /// The verdict for a place that was already looked up.
    pub fn recognize_resolved(&self, execution: &Execution, resolved: Option<String>) -> (result:
        Result<Option<Semantic>, RecognitionError>)
        ensures
            verdict_view(result) == wrapper_verdict(execution@, resolved.deep_view()),
    {
        if is_ccache_call(execution.executable.as_str()) {
            if is_ccache_query(execution.arguments.as_slice()) {
                Ok(Some(Semantic::QueryCompiler))
            } else {
                compilation_behind(&remove_wrapper(execution, resolved))
            }
        } else if is_distcc_call(execution.executable.as_str()) {
            if is_distcc_query(execution.arguments.as_slice()) {
                Ok(Some(Semantic::QueryCompiler))
            } else {
                compilation_behind(&remove_wrapper(execution, resolved))
            }
        } else {
            Ok(None)
        }
    }
}

/// The meaning of the call behind a launcher.
pub fn compilation_behind(execution: &Execution) -> (result: Result<
    Option<Semantic>,
    RecognitionError,
>)
    ensures
        verdict_view(result) == behind_launcher(execution@),
        result matches Ok(Some(Semantic::Compile(compile))) ==> compile.sources.len() > 0,
{
    match compilation(execution) {
        Ok(Some(Semantic::Compile(compile))) => {
            let CompileSemantic { working_dir, compiler: _, flags, sources, output } = compile;
            Ok(
                Some(
                    Semantic::Compile(
                        CompileSemantic {
                            working_dir,
                            compiler: execution.executable.clone(),
                            flags,
                            sources,
                            output,
                        },
                    ),
                ),
            )
        },
        other => other,
    }
}

pub fn is_ccache_call(program: &str) -> (result: bool)
    ensures
        result == (paths::file_stem(program@) == "ccache"@),
{
    text::same(paths::stem_of(program), "ccache")
}

pub fn is_ccache_query(arguments: &[String]) -> (result: bool)
    ensures
        result == ccache_query(arguments.deep_view()),
{
    if arguments.len() <= 1 {
        return true;
    }
    looks_like_ccache_parameter(arguments[1].as_str())
}

pub fn looks_like_ccache_parameter(candidate: &str) -> (result: bool)
    ensures
        result == ccache_parameter(candidate@),
{
    if candidate.unicode_len() == 0 {
        true
    } else {
        candidate.get_char(0) == '-'
    }
}

pub fn is_distcc_call(program: &str) -> (result: bool)
    ensures
        result == (paths::file_stem(program@) == "distcc"@),
{
    text::same(paths::stem_of(program), "distcc")
}

pub fn is_distcc_query(arguments: &[String]) -> (result: bool)
    ensures
        result == distcc_query(arguments.deep_view()),
{
    if arguments.len() <= 1 {
        return true;
    }
    looks_like_distcc_parameter(arguments[1].as_str())
}

pub fn looks_like_distcc_parameter(candidate: &str) -> (result: bool)
    ensures
        result == distcc_parameter(candidate@),
{
    if candidate.unicode_len() == 0 {
        return true;
    }
    if candidate.get_char(0) == '-' {
        return true;
    }
    text::same(candidate, "--help") || text::same(candidate, "--version") || text::same(
        candidate,
        "--show-hosts",
    ) || text::same(candidate, "--scan-includes") || text::same(candidate, "-j") || text::same(
        candidate,
        "--show-principal",
    )
}

/// The execution of the compiler behind a launcher, for the place that was
/// found for the compiler.
pub fn remove_wrapper(execution: &Execution, resolved: Option<String>) -> (result: Execution)
    requires
        execution.arguments.len() >= 2,
    ensures
        result@ == unwrapped(execution@, resolved.deep_view()),
{
    let mut arguments = text::copy_of(&execution.arguments);
    arguments.remove(0);
    assert(arguments.deep_view() =~= execution.arguments.deep_view().skip(1));
    let executable = match resolved {
        Some(program) => program,
        None => execution.arguments[1].clone(),
    };
    Execution {
        executable,
        arguments,
        working_dir: execution.working_dir.clone(),
        environment: crate::Environment { variables: copy_variables(&execution.environment) },
    }
}

/// A copy of the variables of an environment.
fn copy_variables(environment: &crate::Environment) -> (result: Vec<(String, String)>)
    ensures
        result.deep_view() == environment.variables.deep_view(),
{
    let mut result: Vec<(String, String)> = Vec::new();
    let mut i: usize = 0;
    while i < environment.variables.len()
        invariant
            i <= environment.variables.len(),
            result.len() == i,
            forall|j: int|
                0 <= j < i ==> (#[trigger] result[j]).deep_view()
                    == environment.variables[j].deep_view(),
        decreases environment.variables.len() - i,
    {
        let name = environment.variables[i].0.clone();
        let value = environment.variables[i].1.clone();
        result.push((name, value));
        i += 1;
    }
    assert(result.deep_view() =~= environment.variables.deep_view());
    result
}

/// Asks the resolver for the compiler behind a launcher, along the `PATH`
/// of the execution, and gives the execution of that compiler. Without a
/// `PATH` nothing is asked.
pub fn remove_wrapper_with_resolver<R: Resolver>(resolver: &R, execution: &Execution) -> (result:
    Execution)
    requires
        execution.arguments.len() >= 2,
    ensures
        exists|resolved: Option<Seq<char>>| result@ == #[trigger] unwrapped(execution@, resolved),
        !execution@.environment.contains_key("PATH"@) ==> result@ == unwrapped(execution@, None),
{
    let resolved = match execution.environment.get("PATH") {
        Some(search_path) => resolver.from_search_path(
            execution.arguments[1].as_str(),
            search_path.as_str(),
        ),
        None => None,
    };
    let ghost answer = resolved.deep_view();
    let result = remove_wrapper(execution, resolved);
    assert(result@ == unwrapped(execution@, answer));
    result
}

} // verus!
