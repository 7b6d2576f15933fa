//! The compilers that are driven like gcc: how their program names are
//! recognised, how their arguments are read, and what a call means.

use crate::paths;
use crate::semantic::parsers::{
    everything_else_accepts, flag_accepts, lemma_repeat_with_flags, lemma_repeat_with_same, one_of,
    parse, repeat_with, source_accepts, table_of, CompilerFlag, CompilerFlagType,
    CompilerFlagView, EverythingElseFlagMatcher, FlagDefinition, FlagParser, FullParser,
    Instruction, Match, OneOf, Parser, Repeat, SourceMatcher,
};
use crate::semantic::tool::verdict_view;
use crate::semantic::{
    CompileSemantic, CompileSemanticView, RecognitionError, RecognitionErrorView, Semantic,
    SemanticView,
};
use crate::text;
use crate::{Environment, Execution, ExecutionView};
use vstd::prelude::*;
use vstd::string::*;

verus! {

/// The program names of the gcc family.
pub const GCC_PATTERN: &'static str =
    r#"^(cc|c\+\+|cxx|CC|([^-]*-)*([mg](cc|\+\+)|g?fortran)(-?\d+(\.\d+){0,2})?)$"#;

/// Whether the `regex` crate takes `pattern` for a regular expression.
pub uninterp spec fn regex_valid(pattern: Seq<char>) -> bool;

/// Whether the regular expression `pattern` has a match in `text`.
pub uninterp spec fn regex_is_match(pattern: Seq<char>, text: Seq<char>) -> bool;

/// Builds a regular expression from `pattern` with `regex::Regex::new` and
/// asks it with `regex::Regex::is_match` whether it has a match in `text`.
/// The contract only names the two answers: `None` where the crate refuses
/// the pattern, else whether there is a match.
#[verifier::external_body]
pub(crate) fn regex_match(pattern: &str, text: &str) -> (result: Option<bool>)
    ensures
        result == if regex_valid(pattern@) {
            Some(regex_is_match(pattern@, text@))
        } else {
            None
        },
{
    match regex::Regex::new(pattern) {
        Ok(expression) => Some(expression.is_match(text)),
        Err(_) => None,
    }
}

/// Whether the stem of `program` matches `pattern`.
pub open spec fn program_matches(pattern: Seq<char>, program: Seq<char>) -> bool {
    regex_valid(pattern) && regex_is_match(pattern, paths::file_stem(program))
}

/// Whether the answer of a regular expression is a match.
pub fn is_match(answer: Option<bool>) -> (result: bool)
    ensures
        result == (answer == Some(true)),
{
    match answer {
        Some(matched) => matched,
        None => false,
    }
}

/// Whether the stem of `program` matches `pattern`.
pub fn matches_program(pattern: &str, program: &str) -> (result: bool)
    ensures
        result == program_matches(pattern@, program@),
{
    is_match(regex_match(pattern, paths::stem_of(program)))
}

/// A tool that reads its arguments as gcc does.
pub trait GccLike {
    /// Whether the tool claims the program.
    spec fn claims(&self, program: Seq<char>) -> bool;

    fn recognize_program(&self, program: &str) -> (result: bool)
        ensures
            result == self.claims(program@),
    ;

    /// The meaning of the execution where the tool claims its program.
    fn recognize_execution(&self, execution: &Execution) -> (result: Result<
        Option<Semantic>,
        RecognitionError,
    >)
        ensures
            verdict_view(result) == if self.claims(execution@.executable) {
                compilation_of(execution@)
            } else {
                Ok(None)
            },
    {
        if self.recognize_program(execution.executable.as_str()) {
            compilation(execution)
        } else {
            Ok(None)
        }
    }
}

/// What one argument, with those that belong to it, is taken for: a flag
/// of the table first, then a source file, then anything that is not empty.
pub open spec fn gcc_accepts(input: Seq<Seq<char>>) -> Option<(nat, CompilerFlagType)> {
    one_of(
        flag_accepts(gcc_flags(), input),
        one_of(source_accepts(input), everything_else_accepts(input)),
    )
}

/// The flags of an execution: its arguments after the program's name.
pub open spec fn flags_of(execution: ExecutionView) -> Result<
    Seq<CompilerFlagView>,
    RecognitionErrorView,
> {
    if execution.arguments.len() == 0 {
        Err(RecognitionErrorView::NoArguments)
    } else {
        match repeat_with(|input: Seq<Seq<char>>| gcc_accepts(input), execution.arguments.skip(1)) {
            Ok(flags) => Ok(flags),
            Err(rest) => Err(RecognitionErrorView::Unparsed(rest)),
        }
    }
}

/// A call without flags, or with a flag that asks the compiler about
/// itself, compiles nothing.
pub open spec fn is_query(flags: Seq<CompilerFlagView>) -> bool {
    flags.len() == 0 || exists|i: int|
        0 <= i < flags.len() && (#[trigger] flags[i]).type_ == CompilerFlagType::KindOfOutputInfo
}

/// Whether the flag stops the compiler after preprocessing: `-E`, or one of
/// `-M` and `-MM`, which write dependencies in place of the output.
pub open spec fn stops_after_preprocessing(flag: CompilerFlagView) -> bool {
    flag.arguments.len() > 0 && ((flag.type_ == CompilerFlagType::KindOfOutputNoLinking
        && flag.arguments[0] == "-E"@) || (flag.type_ == CompilerFlagType::PreprocessorMake && (
    flag.arguments[0] == "-M"@ || flag.arguments[0] == "-MM"@)))
}

pub open spec fn is_preprocess(flags: Seq<CompilerFlagView>) -> bool {
    exists|i: int| 0 <= i < flags.len() && stops_after_preprocessing(#[trigger] flags[i])
}

/// Whether the call would link: no flag stops it before.
pub open spec fn links(flags: Seq<CompilerFlagView>) -> bool {
    forall|i: int|
        0 <= i < flags.len() ==> (#[trigger] flags[i]).type_
            != CompilerFlagType::KindOfOutputNoLinking
}

/// The categories whose flags a compilation keeps. Sources and the output
/// are held apart; what concerns the linker or the dependency files is
/// dropped.
pub open spec fn is_kept(type_: CompilerFlagType) -> bool {
    &&& type_ != CompilerFlagType::Source
    &&& type_ != CompilerFlagType::KindOfOutputOutput
    &&& type_ != CompilerFlagType::Linker
    &&& type_ != CompilerFlagType::PreprocessorMake
    &&& type_ != CompilerFlagType::DirectorySearchLinker
}

/// The arguments of the flags that are kept, in order.
pub open spec fn kept_arguments(flags: Seq<CompilerFlagView>) -> Seq<Seq<char>>
    decreases flags.len(),
{
    if flags.len() == 0 {
        Seq::empty()
    } else if is_kept(flags.last().type_) {
        kept_arguments(flags.drop_last()) + flags.last().arguments
    } else {
        kept_arguments(flags.drop_last())
    }
}

/// The source files, in order.
pub open spec fn sources_of(flags: Seq<CompilerFlagView>) -> Seq<Seq<char>>
    decreases flags.len(),
{
    if flags.len() == 0 {
        Seq::empty()
    } else if flags.last().type_ == CompilerFlagType::Source && flags.last().arguments.len() > 0 {
        sources_of(flags.drop_last()).push(flags.last().arguments.first())
    } else {
        sources_of(flags.drop_last())
    }
}

/// The output file: the value of the last flag that names one.
pub open spec fn output_of(flags: Seq<CompilerFlagView>) -> Option<Seq<char>>
    decreases flags.len(),
{
    if flags.len() == 0 {
        None
    } else if flags.last().type_ == CompilerFlagType::KindOfOutputOutput
        && flags.last().arguments.len() > 0 {
        Some(flags.last().arguments.last())
    } else {
        output_of(flags.drop_last())
    }
}

/// `flag` before each directory of a list; an empty entry of the list
/// stands for the current directory.
pub open spec fn include_flags(flag: Seq<char>, directories: Seq<Seq<char>>) -> Seq<Seq<char>>
    decreases directories.len(),
{
    if directories.len() == 0 {
        Seq::empty()
    } else {
        include_flags(flag, directories.drop_last()) + seq![
            flag,
            if directories.last().len() == 0 {
                "."@
            } else {
                directories.last()
            },
        ]
    }
}

/// The flags that the variable `name` stands for.
pub open spec fn variable_flags(
    environment: Map<Seq<char>, Seq<char>>,
    name: Seq<char>,
    flag: Seq<char>,
) -> Seq<Seq<char>> {
    if environment.contains_key(name) {
        include_flags(flag, text::split_on(environment[name], paths::LIST_SEPARATOR))
    } else {
        Seq::empty()
    }
}

/// The include directories that the environment adds to a compilation.
pub open spec fn environment_flags(environment: Map<Seq<char>, Seq<char>>) -> Seq<Seq<char>> {
    variable_flags(environment, "CPATH"@, "-I"@) + variable_flags(
        environment,
        "C_INCLUDE_PATH"@,
        "-I"@,
    ) + variable_flags(environment, "CPLUS_INCLUDE_PATH"@, "-I"@) + variable_flags(
        environment,
        "OBJC_INCLUDE_PATH"@,
        "-isystem"@,
    )
}

/// What an execution of a gcc-like compiler means. The compiler of a
/// compilation is the name that the call was made with: its first argument.
pub open spec fn compilation_of(execution: ExecutionView) -> Result<
    Option<SemanticView>,
    RecognitionErrorView,
> {
    match flags_of(execution) {
        Err(error) => Err(error),
        Ok(flags) => if is_query(flags) {
            Ok(Some(SemanticView::QueryCompiler))
        } else if is_preprocess(flags) {
            Ok(Some(SemanticView::Preprocess))
        } else if sources_of(flags).len() == 0 {
            Err(RecognitionErrorView::NoSources)
        } else {
            Ok(
                Some(
                    SemanticView::Compile(
                        CompileSemanticView {
                            working_dir: execution.working_dir,
                            compiler: execution.arguments[0],
                            flags: (if links(flags) {
                                seq!["-c"@]
                            } else {
                                Seq::empty()
                            }) + kept_arguments(flags) + environment_flags(execution.environment),
                            sources: sources_of(flags),
                            output: output_of(flags),
                        },
                    ),
                ),
            )
        },
    }
}

/// A compilation always has a source file.
pub proof fn lemma_compilation_has_sources(execution: ExecutionView)
    ensures
        compilation_of(execution) matches Ok(Some(SemanticView::Compile(compile)))
            ==> compile.sources.len() > 0,
{
}

/// The compiler of a compilation is the name that the call was made with,
/// and its working directory is that of the execution. The program that
/// ran, the executable, does not matter to what the call means.
pub proof fn lemma_compiler_is_named(execution: ExecutionView, other: ExecutionView)
    requires
        other.arguments == execution.arguments,
        other.working_dir == execution.working_dir,
        other.environment == execution.environment,
    ensures
        compilation_of(execution) matches Ok(Some(SemanticView::Compile(compile)))
            ==> execution.arguments.len() > 0 && compile.compiler == execution.arguments[0]
            && compile.working_dir == execution.working_dir,
        compilation_of(other) == compilation_of(execution),
{
}

pub fn compilation(execution: &Execution) -> (result: Result<Option<Semantic>, RecognitionError>)
    ensures
        verdict_view(result) == compilation_of(execution@),
        result matches Ok(Some(Semantic::Compile(compile))) ==> compile.sources.len() > 0,
{
    match parse_flags(execution) {
        Ok(flags) => {
            assert(execution.arguments.len() > 0);
            if is_compiler_query(flags.as_slice()) {
                return Ok(Some(Semantic::QueryCompiler));
            }
            if is_preprocessor(flags.as_slice()) {
                return Ok(Some(Semantic::Preprocess));
            }
            let (mut arguments, sources, output) = split(flags.as_slice());
            if sources.len() == 0 {
                return Err(RecognitionError::NoSources);
            }
            let ghost kept = arguments.deep_view();
            if linking(flags.as_slice()) {
                arguments.insert(0, "-c".to_owned());
                assert(arguments.deep_view() =~= seq!["-c"@] + kept);
            } else {
                assert(arguments.deep_view() =~= Seq::<Seq<char>>::empty() + kept);
            }
            let ghost front = arguments.deep_view();
            let mut extra = flags_from_environment(&execution.environment);
            let ghost back = extra.deep_view();
            arguments.append(&mut extra);
            assert(arguments.deep_view() =~= front + back);
            Ok(
                Some(
                    Semantic::Compile(
                        CompileSemantic {
                            working_dir: execution.working_dir.clone(),
                            compiler: execution.arguments[0].clone(),
                            flags: arguments,
                            sources,
                            output,
                        },
                    ),
                ),
            )
        },
        Err(error) => Err(error),
    }
}

/// The compilers of the gcc family.
#[derive(Debug, Clone, Copy, Default)]
pub struct ToolGcc;

impl GccLike for ToolGcc {
    open spec fn claims(&self, program: Seq<char>) -> bool {
        program_matches(GCC_PATTERN@, program)
    }

    fn recognize_program(&self, program: &str) -> (result: bool) {
        matches_program(GCC_PATTERN, program)
    }
}

impl ToolGcc {
    pub fn recognize(&self, execution: &Execution) -> (result: Result<
        Option<Semantic>,
        RecognitionError,
    >)
        ensures
            verdict_view(result) == if self.claims(execution@.executable) {
                compilation_of(execution@)
            } else {
                Ok(None)
            },
    {
        self.recognize_execution(execution)
    }
}

pub fn parse_flags(execution: &Execution) -> (result: Result<Vec<CompilerFlag>, RecognitionError>)
    ensures
        match flags_of(execution@) {
            Ok(flags) => result is Ok && result->Ok_0.deep_view() == flags,
            Err(error) => result is Err && result->Err_0@ == error,
        },
        result matches Ok(flags) ==> forall|i: int|
            0 <= i < flags.len() ==> (#[trigger] flags[i]).arguments.len() > 0,
{
    let parser = Repeat::new(
        OneOf::new(
            FlagParser::new(flag_definitions()),
            OneOf::new(SourceMatcher, EverythingElseFlagMatcher),
        ),
    );
    proof {
        let input = execution@.arguments.skip(1);
        let first = |any: Seq<Seq<char>>| parser.parser().accepts(any);
        let second = |any: Seq<Seq<char>>| gcc_accepts(any);
        assert forall|any: Seq<Seq<char>>| #[trigger] first(any) == second(any) by {}
        lemma_repeat_with_same(first, second, input);
        lemma_repeat_with_flags(second, input);
    }
    let result = parse(&parser, execution);
    proof {
        if let Ok(flags) = &result {
            assert forall|i: int| 0 <= i < flags.len() implies (#[trigger] flags[i]).arguments.len()
                > 0 by {
                assert(flags.deep_view()[i].arguments.len() > 0);
            }
        }
    }
    result
}

/// Writes `flag` and a directory for each entry of the list `value`.
fn push_include_flags(flags: &mut Vec<String>, value: &str, flag: &str)
    ensures
        final(flags).deep_view() == old(flags).deep_view() + include_flags(
            flag@,
            text::split_on(value@, paths::LIST_SEPARATOR),
        ),
{
    let directories = text::split(value, paths::LIST_SEPARATOR);
    let mut i: usize = 0;
    proof {
        assert(directories.deep_view().take(0) =~= Seq::<Seq<char>>::empty());
        assert(flags.deep_view() =~= old(flags).deep_view() + include_flags(
            flag@,
            directories.deep_view().take(0),
        ));
    }
    while i < directories.len()
        invariant
            i <= directories.len(),
            flags.deep_view() == old(flags).deep_view() + include_flags(
                flag@,
                directories.deep_view().take(i as int),
            ),
        decreases directories.len() - i,
    {
        let ghost before = flags.deep_view();
        let ghost taken = directories.deep_view().take(i + 1);
        flags.push(flag.to_owned());
        if directories[i].as_str().unicode_len() == 0 {
            flags.push(".".to_owned());
        } else {
            flags.push(directories[i].clone());
        }
        proof {
            assert(taken.drop_last() =~= directories.deep_view().take(i as int));
            assert(taken.last() == directories[i as int]@);
            assert(flags.deep_view() =~= before + seq![
                flag@,
                if taken.last().len() == 0 {
                    "."@
                } else {
                    taken.last()
                },
            ]);
        }
        i += 1;
    }
    assert(directories.deep_view().take(directories.len() as int) =~= directories.deep_view());
}

/// Writes the flags that the variable `name` stands for.
fn push_variable_flags(flags: &mut Vec<String>, environment: &Environment, name: &str, flag: &str)
    ensures
        final(flags).deep_view() == old(flags).deep_view() + variable_flags(
            environment@,
            name@,
            flag@,
        ),
{
    match environment.get(name) {
        Some(value) => push_include_flags(flags, value.as_str(), flag),
        None => {
            assert(flags.deep_view() + Seq::<Seq<char>>::empty() =~= flags.deep_view());
        },
    }
}

pub fn flags_from_environment(environment: &Environment) -> (result: Vec<String>)
    ensures
        result.deep_view() == environment_flags(environment@),
{
    let mut flags: Vec<String> = Vec::new();
    assert(flags.deep_view() =~= Seq::<Seq<char>>::empty());
    push_variable_flags(&mut flags, environment, "CPATH", "-I");
    push_variable_flags(&mut flags, environment, "C_INCLUDE_PATH", "-I");
    push_variable_flags(&mut flags, environment, "CPLUS_INCLUDE_PATH", "-I");
    push_variable_flags(&mut flags, environment, "OBJC_INCLUDE_PATH", "-isystem");
    assert(flags.deep_view() =~= environment_flags(environment@));
    flags
}

pub fn is_compiler_query(flags: &[CompilerFlag]) -> (result: bool)
    ensures
        result == is_query(flags.deep_view()),
{
    if flags.len() == 0 {
        return true;
    }
    let mut i: usize = 0;
    while i < flags.len()
        invariant
            i <= flags.len(),
            forall|j: int|
                0 <= j < i ==> (#[trigger] flags.deep_view()[j]).type_
                    != CompilerFlagType::KindOfOutputInfo,
        decreases flags.len() - i,
    {
        if flags[i].type_ == CompilerFlagType::KindOfOutputInfo {
            assert(flags.deep_view()[i as int].type_ == CompilerFlagType::KindOfOutputInfo);
            return true;
        }
        assert(flags.deep_view()[i as int].type_ == flags[i as int].type_);
        i += 1;
    }
    false
}

/// Whether the flag stops the compiler after preprocessing.
fn preprocesses(flag: &CompilerFlag) -> (result: bool)
    ensures
        result == stops_after_preprocessing(flag@),
{
    if flag.arguments.len() == 0 {
        return false;
    }
    let candidate = flag.arguments[0].as_str();
    assert(flag@.arguments[0] == candidate@);
    (flag.type_ == CompilerFlagType::KindOfOutputNoLinking && text::same(candidate, "-E")) || (
    flag.type_ == CompilerFlagType::PreprocessorMake && (text::same(candidate, "-M") || text::same(
        candidate,
        "-MM",
    )))
}

pub fn is_preprocessor(flags: &[CompilerFlag]) -> (result: bool)
    ensures
        result == is_preprocess(flags.deep_view()),
{
    let mut i: usize = 0;
    while i < flags.len()
        invariant
            i <= flags.len(),
            forall|j: int| 0 <= j < i ==> !stops_after_preprocessing(#[trigger] flags.deep_view()[j]),
        decreases flags.len() - i,
    {
        assert(flags.deep_view()[i as int] == flags[i as int]@);
        if preprocesses(&flags[i]) {
            return true;
        }
        i += 1;
    }
    false
}

pub fn linking(flags: &[CompilerFlag]) -> (result: bool)
    ensures
        result == links(flags.deep_view()),
{
    let mut i: usize = 0;
    while i < flags.len()
        invariant
            i <= flags.len(),
            forall|j: int|
                0 <= j < i ==> (#[trigger] flags.deep_view()[j]).type_
                    != CompilerFlagType::KindOfOutputNoLinking,
        decreases flags.len() - i,
    {
        assert(flags.deep_view()[i as int].type_ == flags[i as int].type_);
        if flags[i].type_ == CompilerFlagType::KindOfOutputNoLinking {
            return false;
        }
        i += 1;
    }
    true
}

/// Parts the flags of a compilation: the arguments that are kept, the
/// sources, and the output.
pub fn split(flags: &[CompilerFlag]) -> (result: (Vec<String>, Vec<String>, Option<String>))
    ensures
        result.0.deep_view() == kept_arguments(flags.deep_view()),
        result.1.deep_view() == sources_of(flags.deep_view()),
        result.2.deep_view() == output_of(flags.deep_view()),
{
    let mut arguments: Vec<String> = Vec::new();
    let mut sources: Vec<String> = Vec::new();
    let mut output: Option<String> = None;
    let mut i: usize = 0;
    proof {
        assert(flags.deep_view().take(0) =~= Seq::<CompilerFlagView>::empty());
        assert(arguments.deep_view() =~= Seq::<Seq<char>>::empty());
        assert(sources.deep_view() =~= Seq::<Seq<char>>::empty());
    }
    while i < flags.len()
        invariant
            i <= flags.len(),
            arguments.deep_view() == kept_arguments(flags.deep_view().take(i as int)),
            sources.deep_view() == sources_of(flags.deep_view().take(i as int)),
            output.deep_view() == output_of(flags.deep_view().take(i as int)),
        decreases flags.len() - i,
    {
        let flag = &flags[i];
        let ghost taken = flags.deep_view().take(i + 1);
        proof {
            assert(taken.drop_last() =~= flags.deep_view().take(i as int));
            assert(taken.last() == flag@);
        }
        match flag.type_ {
            CompilerFlagType::Source => {
                if flag.arguments.len() > 0 {
                    let ghost before = sources.deep_view();
                    sources.push(flag.arguments[0].clone());
                    assert(sources.deep_view() =~= before.push(flag@.arguments.first()));
                }
            },
            CompilerFlagType::KindOfOutputOutput => {
                if flag.arguments.len() > 0 {
                    output = Some(flag.arguments[flag.arguments.len() - 1].clone());
                }
            },
            CompilerFlagType::Linker
            | CompilerFlagType::PreprocessorMake
            | CompilerFlagType::DirectorySearchLinker => {},
            _ => {
                let ghost before = arguments.deep_view();
                let mut copy = text::copy_of(&flag.arguments);
                arguments.append(&mut copy);
                assert(arguments.deep_view() =~= before + flag@.arguments);
            },
        }
        i += 1;
    }
    assert(flags.deep_view().take(flags.len() as int) =~= flags.deep_view());
    (arguments, sources, output)
}

/// A table entry: a key and what it stands for.
pub open spec fn flag(
    key: Seq<char>,
    count: u8,
    match_: Match,
    equal: bool,
    type_: CompilerFlagType,
) -> (Seq<char>, FlagDefinition) {
    (key, FlagDefinition { consumption: Instruction { count, match_, equal }, type_ })
}

fn entry(
    key: &'static str,
    count: u8,
    match_: Match,
    equal: bool,
    type_: CompilerFlagType,
) -> (result: (&'static str, FlagDefinition))
    ensures
        (result.0@, result.1) == flag(key@, count, match_, equal, type_),
{
    (key, FlagDefinition { consumption: Instruction::new(count, match_, equal), type_ })
}

/// The flags of gcc.
pub open spec fn gcc_flags() -> Seq<(Seq<char>, FlagDefinition)> {
    output_flags() + preprocessor_flags() + dependency_flags() + directory_flags() + linker_flags()
        + other_flags()
}

/// The table of the flags of gcc.
pub fn flag_definitions() -> (result: Vec<(&'static str, FlagDefinition)>)
    ensures
        table_of(result@) == gcc_flags(),
{
    let mut table: Vec<(&'static str, FlagDefinition)> = Vec::new();
    assert(table_of(table@) =~= Seq::<(Seq<char>, FlagDefinition)>::empty());
    push_output_flags(&mut table);
    push_preprocessor_flags(&mut table);
    push_dependency_flags(&mut table);
    push_directory_flags(&mut table);
    push_linker_flags(&mut table);
    push_other_flags(&mut table);
    assert(table_of(table@) =~= gcc_flags());
    table
}

/// Flags that choose the kind of output, and options of the driver.
pub open spec fn output_flags() -> Seq<(Seq<char>, FlagDefinition)> {
    seq![
        flag("-x"@, 1, Match::Exact, false, CompilerFlagType::KindOfOutput),
        flag("-c"@, 0, Match::Exact, false, CompilerFlagType::KindOfOutputNoLinking),
        flag("-S"@, 0, Match::Exact, false, CompilerFlagType::KindOfOutputNoLinking),
        flag("-E"@, 0, Match::Exact, false, CompilerFlagType::KindOfOutputNoLinking),
        flag("-o"@, 1, Match::Exact, false, CompilerFlagType::KindOfOutputOutput),
        flag("-dumpbase"@, 1, Match::Exact, false, CompilerFlagType::KindOfOutput),
        flag("-dumpbase-ext"@, 1, Match::Exact, false, CompilerFlagType::KindOfOutput),
        flag("-dumpdir"@, 1, Match::Exact, false, CompilerFlagType::KindOfOutput),
        flag("-v"@, 0, Match::Exact, false, CompilerFlagType::KindOfOutput),
        flag("-###"@, 0, Match::Exact, false, CompilerFlagType::KindOfOutput),
        flag("--help"@, 0, Match::Both, true, CompilerFlagType::KindOfOutputInfo),
        flag("--target-help"@, 0, Match::Exact, false, CompilerFlagType::KindOfOutputInfo),
        flag("--version"@, 0, Match::Exact, false, CompilerFlagType::KindOfOutputInfo),
        flag("-pass-exit-codes"@, 0, Match::Exact, false, CompilerFlagType::KindOfOutput),
        flag("-pipe"@, 0, Match::Exact, false, CompilerFlagType::KindOfOutput),
        flag("-specs"@, 0, Match::Partial, true, CompilerFlagType::KindOfOutput),
        flag("-wrapper"@, 1, Match::Exact, false, CompilerFlagType::KindOfOutput),
        flag("-ffile-prefix-map"@, 0, Match::Partial, true, CompilerFlagType::KindOfOutput),
        flag("-fplugin"@, 0, Match::Partial, true, CompilerFlagType::KindOfOutput),
        flag("@"@, 0, Match::Partial, false, CompilerFlagType::KindOfOutput),
    ]
}

/// Flags for the preprocessor.
pub open spec fn preprocessor_flags() -> Seq<(Seq<char>, FlagDefinition)> {
    seq![
        flag("-A"@, 1, Match::Both, false, CompilerFlagType::Preprocessor),
        flag("-D"@, 1, Match::Both, false, CompilerFlagType::Preprocessor),
        flag("-U"@, 1, Match::Both, false, CompilerFlagType::Preprocessor),
        flag("-include"@, 1, Match::Exact, false, CompilerFlagType::Preprocessor),
        flag("-imacros"@, 1, Match::Exact, false, CompilerFlagType::Preprocessor),
        flag("-undef"@, 0, Match::Exact, false, CompilerFlagType::Preprocessor),
        flag("-pthread"@, 0, Match::Exact, false, CompilerFlagType::Preprocessor),
        flag("-C"@, 0, Match::Exact, false, CompilerFlagType::Preprocessor),
        flag("-CC"@, 0, Match::Exact, false, CompilerFlagType::Preprocessor),
        flag("-P"@, 0, Match::Exact, false, CompilerFlagType::Preprocessor),
        flag("-traditional"@, 0, Match::Both, false, CompilerFlagType::Preprocessor),
        flag("-trigraphs"@, 0, Match::Exact, false, CompilerFlagType::Preprocessor),
        flag("-remap"@, 0, Match::Exact, false, CompilerFlagType::Preprocessor),
        flag("-H"@, 0, Match::Exact, false, CompilerFlagType::Preprocessor),
        flag("-Xpreprocessor"@, 1, Match::Exact, false, CompilerFlagType::Preprocessor),
        flag("-Wp,"@, 0, Match::Partial, false, CompilerFlagType::Preprocessor),
    ]
}

/// Flags that make the preprocessor write dependencies.
pub open spec fn dependency_flags() -> Seq<(Seq<char>, FlagDefinition)> {
    seq![
        flag("-M"@, 0, Match::Exact, false, CompilerFlagType::PreprocessorMake),
        flag("-MM"@, 0, Match::Exact, false, CompilerFlagType::PreprocessorMake),
        flag("-MG"@, 0, Match::Exact, false, CompilerFlagType::PreprocessorMake),
        flag("-MP"@, 0, Match::Exact, false, CompilerFlagType::PreprocessorMake),
        flag("-MD"@, 0, Match::Exact, false, CompilerFlagType::PreprocessorMake),
        flag("-MMD"@, 0, Match::Exact, false, CompilerFlagType::PreprocessorMake),
        flag("-MF"@, 1, Match::Exact, false, CompilerFlagType::PreprocessorMake),
        flag("-MT"@, 1, Match::Exact, false, CompilerFlagType::PreprocessorMake),
        flag("-MQ"@, 1, Match::Exact, false, CompilerFlagType::PreprocessorMake),
    ]
}

/// Flags that name the directories to search.
pub open spec fn directory_flags() -> Seq<(Seq<char>, FlagDefinition)> {
    seq![
        flag("-I"@, 1, Match::Both, false, CompilerFlagType::DirectorySearch),
        flag("-iplugindir"@, 0, Match::Partial, true, CompilerFlagType::DirectorySearch),
        flag("-iquote"@, 1, Match::Exact, false, CompilerFlagType::DirectorySearch),
        flag("-isystem"@, 1, Match::Exact, false, CompilerFlagType::DirectorySearch),
        flag("-idirafter"@, 1, Match::Exact, false, CompilerFlagType::DirectorySearch),
        flag("-iprefix"@, 1, Match::Exact, false, CompilerFlagType::DirectorySearch),
        flag("-iwithprefix"@, 1, Match::Exact, false, CompilerFlagType::DirectorySearch),
        flag("-iwithprefixbefore"@, 1, Match::Exact, false, CompilerFlagType::DirectorySearch),
        flag("-isysroot"@, 1, Match::Exact, false, CompilerFlagType::DirectorySearch),
        flag("-imultilib"@, 1, Match::Exact, false, CompilerFlagType::DirectorySearch),
        flag("-L"@, 1, Match::Both, false, CompilerFlagType::DirectorySearchLinker),
        flag("-B"@, 1, Match::Both, false, CompilerFlagType::DirectorySearch),
        flag("--sysroot"@, 1, Match::Both, true, CompilerFlagType::DirectorySearch),
    ]
}

/// Flags for the linker.
pub open spec fn linker_flags() -> Seq<(Seq<char>, FlagDefinition)> {
    seq![
        flag("-flinker-output"@, 0, Match::Partial, true, CompilerFlagType::Linker),
        flag("-fuse-ld"@, 0, Match::Partial, true, CompilerFlagType::Linker),
        flag("-l"@, 1, Match::Both, false, CompilerFlagType::Linker),
        flag("-nostartfiles"@, 0, Match::Exact, false, CompilerFlagType::Linker),
        flag("-nodefaultlibs"@, 0, Match::Exact, false, CompilerFlagType::Linker),
        flag("-nolibc"@, 0, Match::Exact, false, CompilerFlagType::Linker),
        flag("-nostdlib"@, 0, Match::Exact, false, CompilerFlagType::Linker),
        flag("-e"@, 1, Match::Exact, false, CompilerFlagType::Linker),
        flag("-entry"@, 0, Match::Partial, true, CompilerFlagType::Linker),
        flag("-pie"@, 0, Match::Exact, false, CompilerFlagType::Linker),
        flag("-no-pie"@, 0, Match::Exact, false, CompilerFlagType::Linker),
        flag("-static-pie"@, 0, Match::Exact, false, CompilerFlagType::Linker),
        flag("-r"@, 0, Match::Exact, false, CompilerFlagType::Linker),
        flag("-rdynamic"@, 0, Match::Exact, false, CompilerFlagType::Linker),
        flag("-s"@, 0, Match::Exact, false, CompilerFlagType::Linker),
        flag("-symbolic"@, 0, Match::Exact, false, CompilerFlagType::Linker),
        flag("-static"@, 0, Match::Both, false, CompilerFlagType::Linker),
        flag("-shared"@, 0, Match::Both, false, CompilerFlagType::Linker),
        flag("-T"@, 1, Match::Exact, false, CompilerFlagType::Linker),
        flag("-Xlinker"@, 1, Match::Exact, false, CompilerFlagType::Linker),
        flag("-Wl,"@, 0, Match::Partial, false, CompilerFlagType::Linker),
        flag("-u"@, 1, Match::Exact, false, CompilerFlagType::Linker),
        flag("-z"@, 1, Match::Exact, false, CompilerFlagType::Linker),
    ]
}

/// Flags for the assembler, the language, optimisation, debugging, code generation and warnings.
pub open spec fn other_flags() -> Seq<(Seq<char>, FlagDefinition)> {
    seq![
        flag("-Xassembler"@, 1, Match::Exact, false, CompilerFlagType::Other),
        flag("-Wa,"@, 0, Match::Partial, false, CompilerFlagType::Other),
        flag("-ansi"@, 0, Match::Exact, false, CompilerFlagType::Other),
        flag("-aux-info"@, 1, Match::Exact, false, CompilerFlagType::Other),
        flag("-std"@, 0, Match::Partial, true, CompilerFlagType::Other),
        flag("-O"@, 0, Match::Both, false, CompilerFlagType::Other),
        flag("-g"@, 0, Match::Both, false, CompilerFlagType::Other),
        flag("-f"@, 0, Match::Partial, false, CompilerFlagType::Other),
        flag("-m"@, 0, Match::Partial, false, CompilerFlagType::Other),
        flag("-p"@, 0, Match::Partial, false, CompilerFlagType::Other),
        flag("-W"@, 0, Match::Partial, false, CompilerFlagType::Other),
        flag("-no"@, 0, Match::Partial, false, CompilerFlagType::Other),
        flag("-tno"@, 0, Match::Partial, false, CompilerFlagType::Other),
        flag("-save"@, 0, Match::Partial, false, CompilerFlagType::Other),
        flag("-d"@, 0, Match::Partial, false, CompilerFlagType::Other),
        flag("-Q"@, 0, Match::Partial, false, CompilerFlagType::Other),
        flag("-X"@, 0, Match::Partial, false, CompilerFlagType::Other),
        flag("-Y"@, 0, Match::Partial, false, CompilerFlagType::Other),
        flag("--"@, 0, Match::Partial, false, CompilerFlagType::Other),
    ]
}

fn push_output_flags(table: &mut Vec<(&'static str, FlagDefinition)>)
    ensures
        table_of(final(table)@) == table_of(old(table)@) + output_flags(),
{
    table.push(entry("-x", 1, Match::Exact, false, CompilerFlagType::KindOfOutput));
    table.push(entry("-c", 0, Match::Exact, false, CompilerFlagType::KindOfOutputNoLinking));
    table.push(entry("-S", 0, Match::Exact, false, CompilerFlagType::KindOfOutputNoLinking));
    table.push(entry("-E", 0, Match::Exact, false, CompilerFlagType::KindOfOutputNoLinking));
    table.push(entry("-o", 1, Match::Exact, false, CompilerFlagType::KindOfOutputOutput));
    table.push(entry("-dumpbase", 1, Match::Exact, false, CompilerFlagType::KindOfOutput));
    table.push(entry("-dumpbase-ext", 1, Match::Exact, false, CompilerFlagType::KindOfOutput));
    table.push(entry("-dumpdir", 1, Match::Exact, false, CompilerFlagType::KindOfOutput));
    table.push(entry("-v", 0, Match::Exact, false, CompilerFlagType::KindOfOutput));
    table.push(entry("-###", 0, Match::Exact, false, CompilerFlagType::KindOfOutput));
    table.push(entry("--help", 0, Match::Both, true, CompilerFlagType::KindOfOutputInfo));
    table.push(entry("--target-help", 0, Match::Exact, false, CompilerFlagType::KindOfOutputInfo));
    table.push(entry("--version", 0, Match::Exact, false, CompilerFlagType::KindOfOutputInfo));
    table.push(entry("-pass-exit-codes", 0, Match::Exact, false, CompilerFlagType::KindOfOutput));
    table.push(entry("-pipe", 0, Match::Exact, false, CompilerFlagType::KindOfOutput));
    table.push(entry("-specs", 0, Match::Partial, true, CompilerFlagType::KindOfOutput));
    table.push(entry("-wrapper", 1, Match::Exact, false, CompilerFlagType::KindOfOutput));
    table.push(entry("-ffile-prefix-map", 0, Match::Partial, true, CompilerFlagType::KindOfOutput));
    table.push(entry("-fplugin", 0, Match::Partial, true, CompilerFlagType::KindOfOutput));
    table.push(entry("@", 0, Match::Partial, false, CompilerFlagType::KindOfOutput));
    assert(table_of(table@) =~= table_of(old(table)@) + output_flags());
}

fn push_preprocessor_flags(table: &mut Vec<(&'static str, FlagDefinition)>)
    ensures
        table_of(final(table)@) == table_of(old(table)@) + preprocessor_flags(),
{
    table.push(entry("-A", 1, Match::Both, false, CompilerFlagType::Preprocessor));
    table.push(entry("-D", 1, Match::Both, false, CompilerFlagType::Preprocessor));
    table.push(entry("-U", 1, Match::Both, false, CompilerFlagType::Preprocessor));
    table.push(entry("-include", 1, Match::Exact, false, CompilerFlagType::Preprocessor));
    table.push(entry("-imacros", 1, Match::Exact, false, CompilerFlagType::Preprocessor));
    table.push(entry("-undef", 0, Match::Exact, false, CompilerFlagType::Preprocessor));
    table.push(entry("-pthread", 0, Match::Exact, false, CompilerFlagType::Preprocessor));
    table.push(entry("-C", 0, Match::Exact, false, CompilerFlagType::Preprocessor));
    table.push(entry("-CC", 0, Match::Exact, false, CompilerFlagType::Preprocessor));
    table.push(entry("-P", 0, Match::Exact, false, CompilerFlagType::Preprocessor));
    table.push(entry("-traditional", 0, Match::Both, false, CompilerFlagType::Preprocessor));
    table.push(entry("-trigraphs", 0, Match::Exact, false, CompilerFlagType::Preprocessor));
    table.push(entry("-remap", 0, Match::Exact, false, CompilerFlagType::Preprocessor));
    table.push(entry("-H", 0, Match::Exact, false, CompilerFlagType::Preprocessor));
    table.push(entry("-Xpreprocessor", 1, Match::Exact, false, CompilerFlagType::Preprocessor));
    table.push(entry("-Wp,", 0, Match::Partial, false, CompilerFlagType::Preprocessor));
    assert(table_of(table@) =~= table_of(old(table)@) + preprocessor_flags());
}

fn push_dependency_flags(table: &mut Vec<(&'static str, FlagDefinition)>)
    ensures
        table_of(final(table)@) == table_of(old(table)@) + dependency_flags(),
{
    table.push(entry("-M", 0, Match::Exact, false, CompilerFlagType::PreprocessorMake));
    table.push(entry("-MM", 0, Match::Exact, false, CompilerFlagType::PreprocessorMake));
    table.push(entry("-MG", 0, Match::Exact, false, CompilerFlagType::PreprocessorMake));
    table.push(entry("-MP", 0, Match::Exact, false, CompilerFlagType::PreprocessorMake));
    table.push(entry("-MD", 0, Match::Exact, false, CompilerFlagType::PreprocessorMake));
    table.push(entry("-MMD", 0, Match::Exact, false, CompilerFlagType::PreprocessorMake));
    table.push(entry("-MF", 1, Match::Exact, false, CompilerFlagType::PreprocessorMake));
    table.push(entry("-MT", 1, Match::Exact, false, CompilerFlagType::PreprocessorMake));
    table.push(entry("-MQ", 1, Match::Exact, false, CompilerFlagType::PreprocessorMake));
    assert(table_of(table@) =~= table_of(old(table)@) + dependency_flags());
}

fn push_directory_flags(table: &mut Vec<(&'static str, FlagDefinition)>)
    ensures
        table_of(final(table)@) == table_of(old(table)@) + directory_flags(),
{
    table.push(entry("-I", 1, Match::Both, false, CompilerFlagType::DirectorySearch));
    table.push(entry("-iplugindir", 0, Match::Partial, true, CompilerFlagType::DirectorySearch));
    table.push(entry("-iquote", 1, Match::Exact, false, CompilerFlagType::DirectorySearch));
    table.push(entry("-isystem", 1, Match::Exact, false, CompilerFlagType::DirectorySearch));
    table.push(entry("-idirafter", 1, Match::Exact, false, CompilerFlagType::DirectorySearch));
    table.push(entry("-iprefix", 1, Match::Exact, false, CompilerFlagType::DirectorySearch));
    table.push(entry("-iwithprefix", 1, Match::Exact, false, CompilerFlagType::DirectorySearch));
    table.push(entry("-iwithprefixbefore", 1, Match::Exact, false, CompilerFlagType::DirectorySearch));
    table.push(entry("-isysroot", 1, Match::Exact, false, CompilerFlagType::DirectorySearch));
    table.push(entry("-imultilib", 1, Match::Exact, false, CompilerFlagType::DirectorySearch));
    table.push(entry("-L", 1, Match::Both, false, CompilerFlagType::DirectorySearchLinker));
    table.push(entry("-B", 1, Match::Both, false, CompilerFlagType::DirectorySearch));
    table.push(entry("--sysroot", 1, Match::Both, true, CompilerFlagType::DirectorySearch));
    assert(table_of(table@) =~= table_of(old(table)@) + directory_flags());
}

fn push_linker_flags(table: &mut Vec<(&'static str, FlagDefinition)>)
    ensures
        table_of(final(table)@) == table_of(old(table)@) + linker_flags(),
{
    table.push(entry("-flinker-output", 0, Match::Partial, true, CompilerFlagType::Linker));
    table.push(entry("-fuse-ld", 0, Match::Partial, true, CompilerFlagType::Linker));
    table.push(entry("-l", 1, Match::Both, false, CompilerFlagType::Linker));
    table.push(entry("-nostartfiles", 0, Match::Exact, false, CompilerFlagType::Linker));
    table.push(entry("-nodefaultlibs", 0, Match::Exact, false, CompilerFlagType::Linker));
    table.push(entry("-nolibc", 0, Match::Exact, false, CompilerFlagType::Linker));
    table.push(entry("-nostdlib", 0, Match::Exact, false, CompilerFlagType::Linker));
    table.push(entry("-e", 1, Match::Exact, false, CompilerFlagType::Linker));
    table.push(entry("-entry", 0, Match::Partial, true, CompilerFlagType::Linker));
    table.push(entry("-pie", 0, Match::Exact, false, CompilerFlagType::Linker));
    table.push(entry("-no-pie", 0, Match::Exact, false, CompilerFlagType::Linker));
    table.push(entry("-static-pie", 0, Match::Exact, false, CompilerFlagType::Linker));
    table.push(entry("-r", 0, Match::Exact, false, CompilerFlagType::Linker));
    table.push(entry("-rdynamic", 0, Match::Exact, false, CompilerFlagType::Linker));
    table.push(entry("-s", 0, Match::Exact, false, CompilerFlagType::Linker));
    table.push(entry("-symbolic", 0, Match::Exact, false, CompilerFlagType::Linker));
    table.push(entry("-static", 0, Match::Both, false, CompilerFlagType::Linker));
    table.push(entry("-shared", 0, Match::Both, false, CompilerFlagType::Linker));
    table.push(entry("-T", 1, Match::Exact, false, CompilerFlagType::Linker));
    table.push(entry("-Xlinker", 1, Match::Exact, false, CompilerFlagType::Linker));
    table.push(entry("-Wl,", 0, Match::Partial, false, CompilerFlagType::Linker));
    table.push(entry("-u", 1, Match::Exact, false, CompilerFlagType::Linker));
    table.push(entry("-z", 1, Match::Exact, false, CompilerFlagType::Linker));
    assert(table_of(table@) =~= table_of(old(table)@) + linker_flags());
}

fn push_other_flags(table: &mut Vec<(&'static str, FlagDefinition)>)
    ensures
        table_of(final(table)@) == table_of(old(table)@) + other_flags(),
{
    table.push(entry("-Xassembler", 1, Match::Exact, false, CompilerFlagType::Other));
    table.push(entry("-Wa,", 0, Match::Partial, false, CompilerFlagType::Other));
    table.push(entry("-ansi", 0, Match::Exact, false, CompilerFlagType::Other));
    table.push(entry("-aux-info", 1, Match::Exact, false, CompilerFlagType::Other));
    table.push(entry("-std", 0, Match::Partial, true, CompilerFlagType::Other));
    table.push(entry("-O", 0, Match::Both, false, CompilerFlagType::Other));
    table.push(entry("-g", 0, Match::Both, false, CompilerFlagType::Other));
    table.push(entry("-f", 0, Match::Partial, false, CompilerFlagType::Other));
    table.push(entry("-m", 0, Match::Partial, false, CompilerFlagType::Other));
    table.push(entry("-p", 0, Match::Partial, false, CompilerFlagType::Other));
    table.push(entry("-W", 0, Match::Partial, false, CompilerFlagType::Other));
    table.push(entry("-no", 0, Match::Partial, false, CompilerFlagType::Other));
    table.push(entry("-tno", 0, Match::Partial, false, CompilerFlagType::Other));
    table.push(entry("-save", 0, Match::Partial, false, CompilerFlagType::Other));
    table.push(entry("-d", 0, Match::Partial, false, CompilerFlagType::Other));
    table.push(entry("-Q", 0, Match::Partial, false, CompilerFlagType::Other));
    table.push(entry("-X", 0, Match::Partial, false, CompilerFlagType::Other));
    table.push(entry("-Y", 0, Match::Partial, false, CompilerFlagType::Other));
    table.push(entry("--", 0, Match::Partial, false, CompilerFlagType::Other));
    assert(table_of(table@) =~= table_of(old(table)@) + other_flags());
}

} // verus!
