//! The meaning of an observed execution.

use crate::configuration::{Compilation, CompilerWrapper};
use crate::paths;
use crate::resolver::Resolver;
use crate::semantic::tool::tool_any::{any_verdict, ToolAny};
use crate::semantic::tool::tool_clang::ToolClang;
use crate::semantic::tool::tool_cuda::ToolCuda;
use crate::semantic::tool::tool_extending_wrapper::ToolExtendingWrapper;
use crate::semantic::tool::tool_gcc::ToolGcc;
use crate::semantic::tool::tool_wrapper::ToolWrapper;
use crate::semantic::tool::{verdict_view, Tool};
use crate::text;
use crate::{Entry, EntryView, ExecutionView, Run};
use vstd::prelude::*;
use vstd::string::*;

pub mod parsers;
pub mod tool;

verus! {

/// Why an execution was not recognised as a compiler call.
#[derive(Debug, Clone, PartialEq, Eq)]
pub enum RecognitionError {
    /// The execution has no arguments, not even the program's name.
    NoArguments,
    /// The arguments from here on were not understood.
    Unparsed(Vec<String>),
    /// The call names no source file.
    NoSources,
    /// The program is on the list of compilers to leave out.
    Excluded,
    /// No tool claims the program.
    NoToolRecognized,
}

pub enum RecognitionErrorView {
    NoArguments,
    Unparsed(Seq<Seq<char>>),
    NoSources,
    Excluded,
    NoToolRecognized,
}

impl View for RecognitionError {
    type V = RecognitionErrorView;

    open spec fn view(&self) -> RecognitionErrorView {
        match self {
            RecognitionError::NoArguments => RecognitionErrorView::NoArguments,
            RecognitionError::Unparsed(rest) => RecognitionErrorView::Unparsed(rest.deep_view()),
            RecognitionError::NoSources => RecognitionErrorView::NoSources,
            RecognitionError::Excluded => RecognitionErrorView::Excluded,
            RecognitionError::NoToolRecognized => RecognitionErrorView::NoToolRecognized,
        }
    }
}

impl RecognitionError {
    /// What the error says, in words.
    pub open spec fn spec_message(error: RecognitionErrorView) -> Seq<char> {
        match error {
            RecognitionErrorView::NoArguments => "Failed to recognize: no arguments found."@,
            RecognitionErrorView::Unparsed(rest) => "Failed to recognize: "@ + text::join(
                rest,
                ", "@,
            ),
            RecognitionErrorView::NoSources => "Source files not found for compilation."@,
            RecognitionErrorView::Excluded => "The tool is on the exclude list from configuration."@,
            RecognitionErrorView::NoToolRecognized => "No tools recognize this execution."@,
        }
    }

    /// What the error says, in words.
    pub fn message(&self) -> (result: String)
        ensures
            result@ == Self::spec_message(self@),
    {
        match self {
            RecognitionError::NoArguments => "Failed to recognize: no arguments found.".to_owned(),
            RecognitionError::Unparsed(rest) => {
                let mut result = "Failed to recognize: ".to_owned();
                let joined = text::join_with(rest, ", ");
                result.append(joined.as_str());
                result
            },
            RecognitionError::NoSources => "Source files not found for compilation.".to_owned(),
            RecognitionError::Excluded => "The tool is on the exclude list from configuration.".to_owned(),
            RecognitionError::NoToolRecognized => "No tools recognize this execution.".to_owned(),
        }
    }
}

/// What an execution means for the compilation database.
#[derive(Debug, Clone, PartialEq, Eq)]
pub enum Semantic {
    /// The compiler was asked about itself.
    QueryCompiler,
    /// The compiler was run as a preprocessor only.
    Preprocess,
    /// Source files were compiled.
    Compile(CompileSemantic),
}

/// A compilation: the compiler, its flags, and the files it read and wrote.
#[derive(Debug, Clone, PartialEq, Eq)]
pub struct CompileSemantic {
    pub working_dir: String,
    pub compiler: String,
    pub flags: Vec<String>,
    pub sources: Vec<String>,
    pub output: Option<String>,
}

pub struct CompileSemanticView {
    pub working_dir: Seq<char>,
    pub compiler: Seq<char>,
    pub flags: Seq<Seq<char>>,
    pub sources: Seq<Seq<char>>,
    pub output: Option<Seq<char>>,
}

pub enum SemanticView {
    QueryCompiler,
    Preprocess,
    Compile(CompileSemanticView),
}

impl View for CompileSemantic {
    type V = CompileSemanticView;

    open spec fn view(&self) -> CompileSemanticView {
        CompileSemanticView {
            working_dir: self.working_dir@,
            compiler: self.compiler@,
            flags: self.flags.deep_view(),
            sources: self.sources.deep_view(),
            output: self.output.deep_view(),
        }
    }
}

impl View for Semantic {
    type V = SemanticView;

    open spec fn view(&self) -> SemanticView {
        match self {
            Semantic::QueryCompiler => SemanticView::QueryCompiler,
            Semantic::Preprocess => SemanticView::Preprocess,
            Semantic::Compile(compile) => SemanticView::Compile(compile@),
        }
    }
}

impl DeepView for Semantic {
    type V = SemanticView;

    open spec fn deep_view(&self) -> SemanticView {
        self@
    }
}

/// The output of a compilation as the command line names it: nothing, or
/// `-o` and the file.
pub open spec fn output_arguments(output: Option<Seq<char>>) -> Seq<Seq<char>> {
    match output {
        Some(file) => seq!["-o"@, file],
        None => Seq::empty(),
    }
}

/// The database entry for one source file of a compilation. The file and the
/// output are made absolute against the working directory; the arguments are
/// the compiler, the flags, the output and the source as the call named it.
pub open spec fn entry_of(compile: CompileSemanticView, source: Seq<char>) -> EntryView {
    EntryView {
        file: paths::absolute(compile.working_dir, source),
        directory: compile.working_dir,
        output: match compile.output {
            Some(file) => Some(paths::absolute(compile.working_dir, file)),
            None => None,
        },
        arguments: seq![compile.compiler] + compile.flags + output_arguments(compile.output)
            + seq![source],
    }
}

/// The database entries of a compilation: one for each source, in order.
pub open spec fn entries_of(compile: CompileSemanticView) -> Seq<EntryView> {
    Seq::new(compile.sources.len(), |i: int| entry_of(compile, compile.sources[i]))
}

/// Whether an entry holds what the database asks of each record: a file, a
/// directory, an output that is not empty where there is one, and at least
/// one argument.
pub open spec fn well_formed(entry: EntryView) -> bool {
    &&& entry.file.len() > 0
    &&& entry.directory.len() > 0
    &&& entry.output matches Some(file) ==> file.len() > 0
    &&& entry.arguments.len() > 0
}

/// Every entry of a compilation that has a working directory is well formed,
/// and its first argument is the compiler.
pub proof fn lemma_entries_well_formed(compile: CompileSemanticView, i: int)
    requires
        compile.working_dir.len() > 0,
        0 <= i < compile.sources.len(),
    ensures
        well_formed(entries_of(compile)[i]),
        entries_of(compile)[i].arguments[0] == compile.compiler,
{
    paths::lemma_absolute_not_empty(compile.working_dir, compile.sources[i]);
    if let Some(file) = compile.output {
        paths::lemma_absolute_not_empty(compile.working_dir, file);
    }
}

impl CompileSemantic {
    /// The entry for the source at `index`.
    fn entry(&self, index: usize) -> (result: Entry)
        requires
            index < self.sources.len(),
        ensures
            result@ == entry_of(self@, self.sources[index as int]@),
    {
        let source = &self.sources[index];
        let mut arguments: Vec<String> = Vec::new();
        arguments.push(self.compiler.clone());
        let mut flags = text::copy_of(&self.flags);
        arguments.append(&mut flags);
        let output = match &self.output {
            Some(file) => {
                arguments.push("-o".to_owned());
                arguments.push(file.clone());
                Some(paths::make_absolute(self.working_dir.as_str(), file.as_str()))
            },
            None => None,
        };
        arguments.push(source.clone());
        assert(arguments.deep_view() =~= entry_of(self@, source@).arguments);
        Entry {
            file: paths::make_absolute(self.working_dir.as_str(), source.as_str()),
            directory: self.working_dir.clone(),
            output,
            arguments,
        }
    }
}

impl Semantic {
    /// The database entries of a compilation; nothing for the other meanings.
    pub fn into_entries(&self) -> (result: Option<Vec<Entry>>)
        ensures
            match self@ {
                SemanticView::Compile(compile) => {
                    &&& result is Some
                    &&& result->Some_0.deep_view() == entries_of(compile)
                    &&& compile.working_dir.len() > 0 ==> forall|i: int|
                        0 <= i < result->Some_0.len() ==> well_formed(
                            #[trigger] result->Some_0[i]@,
                        ) && result->Some_0[i]@.arguments[0] == compile.compiler
                },
                _ => result is None,
            },
    {
        match self {
            Semantic::Compile(compile) => {
                let mut result: Vec<Entry> = Vec::new();
                let mut i: usize = 0;
                while i < compile.sources.len()
                    invariant
                        i <= compile.sources.len(),
                        result.len() == i,
                        forall|j: int|
                            0 <= j < i ==> (#[trigger] result[j])@ == entries_of(compile@)[j],
                    decreases compile.sources.len() - i,
                {
                    result.push(compile.entry(i));
                    i += 1;
                }
                proof {
                    assert(result.deep_view() =~= entries_of(compile@));
                    if compile@.working_dir.len() > 0 {
                        assert forall|i: int| 0 <= i < result.len() implies well_formed(
                            #[trigger] result[i]@,
                        ) && result[i]@.arguments[0] == compile@.compiler by {
                            lemma_entries_well_formed(compile@, i);
                        }
                    }
                }
                Some(result)
            },
            _ => None,
        }
    }
}

/// The recogniser: the tools that are built in, and those of the
/// configuration.
pub struct Build {
    tools: ToolAny,
}

impl Build {
    /// The tools in the order in which they are asked.
    pub closed spec fn tools(&self) -> Seq<Tool> {
        self.tools.tools()
    }

    /// The programs that are left out.
    pub closed spec fn to_exclude(&self) -> Seq<Seq<char>> {
        self.tools.to_exclude()
    }

    /// The recogniser for a configuration: gcc, clang, the launchers and
    /// CUDA, then one tool for each compiler that the configuration
    /// declares.
    pub fn new(cfg: Compilation) -> (result: Self)
        ensures
            result.to_exclude() == cfg.compilers_to_exclude.deep_view(),
            result.tools().len() == 4 + cfg.compilers_to_recognize.len(),
            result.tools()[0] == Tool::Gcc(ToolGcc),
            result.tools()[1] == Tool::Clang(ToolClang),
            result.tools()[2] == Tool::Wrapper(ToolWrapper),
            result.tools()[3] == Tool::Cuda(ToolCuda),
            forall|i: int|
                0 <= i < cfg.compilers_to_recognize.len() ==> match #[trigger] result.tools()[4
                    + i] {
                    Tool::ExtendingWrapper(tool) => {
                        &&& tool.executable() == cfg.compilers_to_recognize[i].executable@
                        &&& tool.additional_flags()
                            == cfg.compilers_to_recognize[i].additional_flags.deep_view()
                    },
                    _ => false,
                },
    {
        let mut tools: Vec<Tool> = Vec::new();
        tools.push(Tool::Gcc(ToolGcc));
        tools.push(Tool::Clang(ToolClang));
        tools.push(Tool::Wrapper(ToolWrapper));
        tools.push(Tool::Cuda(ToolCuda));
        let mut i: usize = 0;
        while i < cfg.compilers_to_recognize.len()
            invariant
                i <= cfg.compilers_to_recognize.len(),
                tools.len() == 4 + i,
                tools[0] == Tool::Gcc(ToolGcc),
                tools[1] == Tool::Clang(ToolClang),
                tools[2] == Tool::Wrapper(ToolWrapper),
                tools[3] == Tool::Cuda(ToolCuda),
                forall|j: int|
                    0 <= j < i ==> match #[trigger] tools[4 + j] {
                        Tool::ExtendingWrapper(tool) => {
                            &&& tool.executable() == cfg.compilers_to_recognize[j].executable@
                            &&& tool.additional_flags()
                                == cfg.compilers_to_recognize[j].additional_flags.deep_view()
                        },
                        _ => false,
                    },
            decreases cfg.compilers_to_recognize.len() - i,
        {
            let compiler = &cfg.compilers_to_recognize[i];
            let copy = CompilerWrapper {
                executable: compiler.executable.clone(),
                additional_flags: text::copy_of(&compiler.additional_flags),
            };
            tools.push(Tool::ExtendingWrapper(ToolExtendingWrapper::new(copy)));
            i += 1;
        }
        Self { tools: ToolAny::new(tools, cfg.compilers_to_exclude) }
    }

    /// The meaning of a run. A launcher's tool may ask the resolver for the
    /// compiler behind the launcher; whatever it answers, the verdict is the
    /// one that belongs to that answer.
    pub fn recognize<R: Resolver>(&self, resolver: &R, event: &Run) -> (result: Result<
        Option<Semantic>,
        RecognitionError,
    >)
        ensures
            exists|resolved: Option<Seq<char>>|
                verdict_view(result) == #[trigger] any_verdict(
                    self.tools(),
                    self.to_exclude(),
                    event.execution@,
                    resolved,
                ),
            !(result matches Ok(None)),
            result matches Ok(Some(Semantic::Compile(compile))) ==> compile.sources.len() > 0,
    {
        let result = self.tools.recognize(resolver, &event.execution);
        proof {
            let resolved = choose|resolved: Option<Seq<char>>|
                verdict_view(result) == any_verdict(
                    self.tools.tools(),
                    self.tools.to_exclude(),
                    event.execution@,
                    resolved,
                );
            assert(verdict_view(result) == any_verdict(
                self.tools(),
                self.to_exclude(),
                event.execution@,
                resolved,
            ));
        }
        result
    }
}

/// The database entries that a verdict stands for: those of a compilation,
/// none for anything else.
pub open spec fn entries_of_verdict(
    verdict: Result<Option<SemanticView>, RecognitionErrorView>,
) -> Seq<EntryView> {
    match verdict {
        Ok(Some(SemanticView::Compile(compile))) => entries_of(compile),
        _ => Seq::empty(),
    }
}

/// The database entries of a list of executions, in the order of the list,
/// for what was found for the compiler behind the launcher of each.
pub open spec fn entries_of_runs(
    tools: Seq<Tool>,
    to_exclude: Seq<Seq<char>>,
    executions: Seq<ExecutionView>,
    resolved: Seq<Option<Seq<char>>>,
) -> Seq<EntryView>
    decreases executions.len(),
{
    if executions.len() == 0 || resolved.len() == 0 {
        Seq::empty()
    } else {
        entries_of_runs(tools, to_exclude, executions.drop_last(), resolved.drop_last())
            + entries_of_verdict(
            any_verdict(tools, to_exclude, executions.last(), resolved.last()),
        )
    }
}

/// The executions of a list of runs.
pub open spec fn executions_of(runs: Seq<Run>) -> Seq<ExecutionView> {
    Seq::new(runs.len(), |i: int| runs[i].execution@)
}

impl Build {
    /// The database entries of the runs: those of the compilations among
    /// them, in the order of the runs. Runs that are not recognised add
    /// nothing. A launcher's tool may ask the resolver; whatever it answers
    /// for each run, the entries are those that belong to the answers.
    pub fn entries<R: Resolver>(&self, resolver: &R, runs: &Vec<Run>) -> (result: Vec<Entry>)
        ensures
            exists|resolved: Seq<Option<Seq<char>>>|
                resolved.len() == runs.len() && result.deep_view() == #[trigger] entries_of_runs(
                    self.tools(),
                    self.to_exclude(),
                    executions_of(runs@),
                    resolved,
                ),
    {
        let mut result: Vec<Entry> = Vec::new();
        let ghost mut resolved: Seq<Option<Seq<char>>> = Seq::empty();
        let mut i: usize = 0;
        proof {
            assert(executions_of(runs@).take(0) =~= Seq::<ExecutionView>::empty());
            assert(result.deep_view() =~= Seq::<EntryView>::empty());
        }
        while i < runs.len()
            invariant
                i <= runs.len(),
                resolved.len() == i,
                result.deep_view() == entries_of_runs(
                    self.tools(),
                    self.to_exclude(),
                    executions_of(runs@).take(i as int),
                    resolved,
                ),
            decreases runs.len() - i,
        {
            let verdict = self.recognize(resolver, &runs[i]);
            let ghost answer = choose|answer: Option<Seq<char>>|
                verdict_view(verdict) == any_verdict(
                    self.tools(),
                    self.to_exclude(),
                    runs[i as int].execution@,
                    answer,
                );
            let ghost before = result.deep_view();
            let ghost taken = executions_of(runs@).take(i + 1);
            proof {
                assert(taken.drop_last() =~= executions_of(runs@).take(i as int));
                assert(taken.last() == runs[i as int].execution@);
                assert(resolved.push(answer).drop_last() =~= resolved);
            }
            if let Ok(Some(semantic)) = verdict {
                if let Some(mut entries) = semantic.into_entries() {
                    let ghost more = entries.deep_view();
                    result.append(&mut entries);
                    assert(result.deep_view() =~= before + more);
                } else {
                    assert(result.deep_view() =~= before + Seq::<EntryView>::empty());
                }
            } else {
                assert(result.deep_view() =~= before + Seq::<EntryView>::empty());
            }
            proof {
                resolved = resolved.push(answer);
            }
            i += 1;
        }
        assert(executions_of(runs@).take(runs.len() as int) =~= executions_of(runs@));
        result
    }
}

} // verus!
