//! The flag grammar and the parsers that turn an argument vector into a
//! sequence of categorised flags.

use crate::semantic::{RecognitionError, RecognitionErrorView};
use crate::text;
use crate::Execution;
use vstd::prelude::*;
use vstd::slice::*;
use vstd::string::*;

verus! {

/// What a flag takes and what it is for.
#[derive(Debug, Clone, Copy)]
pub struct FlagDefinition {
    pub consumption: Instruction,
    pub type_: CompilerFlagType,
}

/// The category of a compiler flag.
#[derive(Debug, Clone, Copy, PartialEq, Eq, Structural)]
pub enum CompilerFlagType {
    KindOfOutput,
    KindOfOutputNoLinking,
    KindOfOutputInfo,
    KindOfOutputOutput,
    Preprocessor,
    PreprocessorMake,
    Linker,
    LinkerObjectFile,
    DirectorySearch,
    DirectorySearchLinker,
    Source,
    Other,
}

/// A flag with the arguments that belong to it.
#[derive(Debug, Clone)]
pub struct CompilerFlag {
    pub arguments: Vec<String>,
    pub type_: CompilerFlagType,
}

pub struct CompilerFlagView {
    pub arguments: Seq<Seq<char>>,
    pub type_: CompilerFlagType,
}

impl View for CompilerFlag {
    type V = CompilerFlagView;

    open spec fn view(&self) -> CompilerFlagView {
        CompilerFlagView { arguments: self.arguments.deep_view(), type_: self.type_ }
    }
}

impl DeepView for CompilerFlag {
    type V = CompilerFlagView;

    open spec fn deep_view(&self) -> CompilerFlagView {
        self@
    }
}

/// How many arguments a flag takes, and in which shapes it may be written.
#[derive(Debug, Clone, Copy)]
pub struct Instruction {
    pub count: u8,
    pub match_: Match,
    pub equal: bool,
}

impl Instruction {
    pub fn new(count: u8, match_: Match, equal: bool) -> (result: Self)
        ensures
            result == (Instruction { count, match_, equal }),
    {
        Self { count, match_, equal }
    }

    /// The number of arguments that follow the flag: all of its values after
    /// an exact match, one less where the first value is glued to the key.
    pub open spec fn spec_count(&self, exact_match: bool) -> nat {
        if self.count > 0 && !exact_match {
            (self.count - 1) as nat
        } else {
            self.count as nat
        }
    }

    pub fn count(&self, exact_match: bool) -> (result: usize)
        ensures
            result == self.spec_count(exact_match),
    {
        if self.count > 0 {
            if exact_match {
                self.count as usize
            } else {
                (self.count - 1) as usize
            }
        } else {
            0
        }
    }

    pub open spec fn spec_exact_match_allowed(&self) -> bool {
        self.match_ == Match::Exact || self.match_ == Match::Both
    }

    #[verifier::when_used_as_spec(spec_exact_match_allowed)]
    pub fn exact_match_allowed(&self) -> (result: bool)
        ensures
            result == self.spec_exact_match_allowed(),
    {
        match self.match_ {
            Match::Exact | Match::Both => true,
            _ => false,
        }
    }

    pub open spec fn spec_partial_match_allowed(&self) -> bool {
        self.match_ == Match::Partial || self.match_ == Match::Both
    }

    #[verifier::when_used_as_spec(spec_partial_match_allowed)]
    pub fn partial_match_allowed(&self) -> (result: bool)
        ensures
            result == self.spec_partial_match_allowed(),
    {
        match self.match_ {
            Match::Partial | Match::Both => true,
            _ => false,
        }
    }

    /// Whether the value may follow the key after an equal sign.
    pub fn equal(&self) -> (result: bool)
        ensures
            result == self.equal,
    {
        self.equal
    }
}

/// How the key of a flag definition may match an argument.
#[derive(Debug, Clone, Copy, PartialEq, Eq, Structural)]
pub enum Match {
    /// The argument is the key.
    Exact,
    /// The argument begins with the key, its value glued to it.
    Partial,
    /// Either of the two.
    Both,
}

/// The table entry `(key, definition)` accepts `argument` as it stands.
pub open spec fn exact_match(entry: (Seq<char>, FlagDefinition), argument: Seq<char>) -> bool {
    &&& argument.len() > 0
    &&& entry.0 == argument
    &&& entry.1.consumption.exact_match_allowed()
}

/// The table entry accepts `argument` as its key with a value attached: the
/// key begins the argument, and either the definition lets a value be glued
/// to the key, or it lets one follow an equal sign and the argument has the
/// sign right after the key.
pub open spec fn partial_match(entry: (Seq<char>, FlagDefinition), argument: Seq<char>) -> bool {
    &&& argument.len() > 0
    &&& entry.0.is_prefix_of(argument)
    &&& (entry.1.consumption.partial_match_allowed() || (entry.1.consumption.equal
        && entry.0.len() < argument.len() && argument[entry.0.len() as int] == '='))
}

/// The first entry of the table that matches `argument` exactly.
pub open spec fn first_exact(table: Seq<(Seq<char>, FlagDefinition)>, argument: Seq<char>) -> Option<
    int,
>
    decreases table.len(),
{
    if table.len() == 0 {
        None
    } else {
        match first_exact(table.drop_last(), argument) {
            Some(i) => Some(i),
            None => if exact_match(table.last(), argument) {
                Some(table.len() - 1)
            } else {
                None
            },
        }
    }
}

/// Among the entries that match `argument` partially, the one with the
/// longest key; the first of them where several keys are equally long.
pub open spec fn best_partial(table: Seq<(Seq<char>, FlagDefinition)>, argument: Seq<char>) -> Option<
    int,
>
    decreases table.len(),
{
    if table.len() == 0 {
        None
    } else {
        let before = best_partial(table.drop_last(), argument);
        if partial_match(table.last(), argument) && (before is None || table.last().0.len()
            > table[before.unwrap()].0.len()) {
            Some(table.len() - 1)
        } else {
            before
        }
    }
}

/// What the table says of `argument`: the number of arguments that follow it
/// and belong to it, and its category. An exact match is preferred to a
/// partial one.
pub open spec fn lookup_in(table: Seq<(Seq<char>, FlagDefinition)>, argument: Seq<char>) -> Option<
    (nat, CompilerFlagType),
> {
    match first_exact(table, argument) {
        Some(i) => Some((table[i].1.consumption.spec_count(true), table[i].1.type_)),
        None => match best_partial(table, argument) {
            Some(i) => Some((table[i].1.consumption.spec_count(false), table[i].1.type_)),
            None => None,
        },
    }
}

/// `first_exact` finds an exact match, the first one, whenever there is one.
pub proof fn lemma_first_exact(table: Seq<(Seq<char>, FlagDefinition)>, argument: Seq<char>)
    ensures
        match first_exact(table, argument) {
            Some(i) => {
                &&& 0 <= i < table.len()
                &&& exact_match(table[i], argument)
                &&& forall|j: int| 0 <= j < i ==> !exact_match(table[j], argument)
            },
            None => forall|j: int| 0 <= j < table.len() ==> !exact_match(table[j], argument),
        },
    decreases table.len(),
{
    if table.len() > 0 {
        lemma_first_exact(table.drop_last(), argument);
        assert forall|j: int| 0 <= j < table.len() - 1 implies table[j] == table.drop_last()[j] by {}
    }
}

/// `best_partial` finds a partial match whenever there is one, and no other
/// partial match has a longer key, nor stands earlier with a key as long.
pub proof fn lemma_best_partial(table: Seq<(Seq<char>, FlagDefinition)>, argument: Seq<char>)
    ensures
        match best_partial(table, argument) {
            Some(i) => {
                &&& 0 <= i < table.len()
                &&& partial_match(table[i], argument)
                &&& forall|j: int|
                    0 <= j < table.len() && partial_match(#[trigger] table[j], argument)
                        ==> table[j].0.len() <= table[i].0.len()
                &&& forall|j: int|
                    0 <= j < i && partial_match(#[trigger] table[j], argument) ==> table[j].0.len()
                        < table[i].0.len()
            },
            None => forall|j: int| 0 <= j < table.len() ==> !partial_match(table[j], argument),
        },
    decreases table.len(),
{
    if table.len() > 0 {
        lemma_best_partial(table.drop_last(), argument);
        assert forall|j: int| 0 <= j < table.len() - 1 implies table[j] == table.drop_last()[j] by {}
    }
}

/// What the flag table takes from the front of `input`: the flag that it
/// finds for the first argument together with the arguments that follow and
/// belong to it, where the input holds them all.
pub open spec fn flag_accepts(table: Seq<(Seq<char>, FlagDefinition)>, input: Seq<Seq<char>>) -> Option<
    (nat, CompilerFlagType),
> {
    if input.len() == 0 {
        None
    } else {
        match lookup_in(table, input[0]) {
            Some((count, type_)) => if count + 1 <= input.len() {
                Some((count + 1, type_))
            } else {
                None
            },
            None => None,
        }
    }
}

/// One argument, where its extension names a source file.
pub open spec fn source_accepts(input: Seq<Seq<char>>) -> Option<(nat, CompilerFlagType)> {
    if input.len() > 0 && is_source_extension(extension_of(input[0])) {
        Some((1, CompilerFlagType::Source))
    } else {
        None
    }
}

/// One argument that is not empty, as an object file for the linker.
pub open spec fn everything_else_accepts(input: Seq<Seq<char>>) -> Option<(nat, CompilerFlagType)> {
    if input.len() > 0 && input[0].len() > 0 {
        Some((1, CompilerFlagType::LinkerObjectFile))
    } else {
        None
    }
}

/// The first of two answers that accepts.
pub open spec fn one_of(
    first: Option<(nat, CompilerFlagType)>,
    second: Option<(nat, CompilerFlagType)>,
) -> Option<(nat, CompilerFlagType)> {
    match first {
        Some(found) => Some(found),
        None => second,
    }
}

/// The flags that are taken from `input` one after the other, each as
/// `accepts` says, until the input is used up; or the input that is left
/// where `accepts` takes nothing from it.
pub open spec fn repeat_with(
    accepts: spec_fn(Seq<Seq<char>>) -> Option<(nat, CompilerFlagType)>,
    input: Seq<Seq<char>>,
) -> Result<Seq<CompilerFlagView>, Seq<Seq<char>>>
    decreases input.len(),
{
    if input.len() == 0 {
        Ok(Seq::empty())
    } else {
        match accepts(input) {
            Some((count, type_)) => if 1 <= count <= input.len() {
                match repeat_with(accepts, input.skip(count as int)) {
                    Ok(flags) => Ok(
                        seq![CompilerFlagView { arguments: input.take(count as int), type_ }]
                            + flags,
                    ),
                    Err(rest) => Err(rest),
                }
            } else {
                Err(input)
            },
            None => Err(input),
        }
    }
}

/// Two ways to accept that agree on every input give the same flags.
pub proof fn lemma_repeat_with_same(
    first: spec_fn(Seq<Seq<char>>) -> Option<(nat, CompilerFlagType)>,
    second: spec_fn(Seq<Seq<char>>) -> Option<(nat, CompilerFlagType)>,
    input: Seq<Seq<char>>,
)
    requires
        forall|any: Seq<Seq<char>>| #[trigger] first(any) == second(any),
    ensures
        repeat_with(first, input) == repeat_with(second, input),
    decreases input.len(),
{
    if input.len() > 0 {
        if let Some((count, type_)) = first(input) {
            if 1 <= count <= input.len() {
                lemma_repeat_with_same(first, second, input.skip(count as int));
            }
        }
    }
}

/// Every flag that `repeat_with` gives holds at least one argument.
pub proof fn lemma_repeat_with_flags(
    accepts: spec_fn(Seq<Seq<char>>) -> Option<(nat, CompilerFlagType)>,
    input: Seq<Seq<char>>,
)
    ensures
        repeat_with(accepts, input) matches Ok(flags) ==> forall|i: int|
            0 <= i < flags.len() ==> (#[trigger] flags[i]).arguments.len() > 0,
    decreases input.len(),
{
    if input.len() > 0 {
        if let Some((count, type_)) = accepts(input) {
            if 1 <= count <= input.len() {
                lemma_repeat_with_flags(accepts, input.skip(count as int));
            }
        }
    }
}

/// The outcome of one parser on an input, read against what the parser
/// accepts: on success the flag holds the first `count` arguments and the
/// rest of the input is handed back; on failure the input is handed back
/// whole.
pub open spec fn parse_outcome(
    accepted: Option<(nat, CompilerFlagType)>,
    input: &[String],
    result: Result<(CompilerFlag, &[String]), &[String]>,
) -> bool {
    match accepted {
        Some((count, type_)) => {
            &&& result is Ok
            &&& result->Ok_0.0@ == (CompilerFlagView {
                arguments: input.deep_view().take(count as int),
                type_,
            })
            &&& result->Ok_0.1@ == input@.skip(count as int)
        },
        None => result is Err && result->Err_0@ == input@,
    }
}

/// A parser that takes one flag from the front of an argument vector.
pub trait Parser {
    /// The number of leading arguments that the parser takes as one flag,
    /// and the flag's category; `None` where it does not accept the input.
    spec fn accepts(&self, input: Seq<Seq<char>>) -> Option<(nat, CompilerFlagType)>;

    /// An accepted flag takes at least one argument, and no more than there
    /// are.
    proof fn accepts_within(&self, input: Seq<Seq<char>>)
        ensures
            self.accepts(input) matches Some((count, _)) ==> 1 <= count <= input.len(),
    ;

    fn parse<'a>(&self, input: &'a [String]) -> (result: Result<
        (CompilerFlag, &'a [String]),
        &'a [String],
    >)
        ensures
            parse_outcome(self.accepts(input.deep_view()), input, result),
    ;
}

/// A parser that takes a whole argument vector.
pub trait FullParser {
    /// The flags of the input, or what is left of it where the parser is
    /// stuck.
    spec fn accepts_all(&self, input: Seq<Seq<char>>) -> Result<
        Seq<CompilerFlagView>,
        Seq<Seq<char>>,
    >;

    fn parse<'a>(&self, input: &'a [String]) -> (result: Result<Vec<CompilerFlag>, &'a [String]>)
        ensures
            match self.accepts_all(input.deep_view()) {
                Ok(flags) => result is Ok && result->Ok_0.deep_view() == flags,
                Err(rest) => result is Err && result->Err_0.deep_view() == rest,
            },
    ;
}

/// The views of the keys of a flag table, with their definitions.
pub open spec fn table_of(flags: Seq<(&'static str, FlagDefinition)>) -> Seq<
    (Seq<char>, FlagDefinition),
> {
    flags.map_values(|entry: (&'static str, FlagDefinition)| (entry.0@, entry.1))
}

/// Recognises the flags of a table.
#[derive(Debug, Clone)]
pub struct FlagParser {
    flags: Vec<(&'static str, FlagDefinition)>,
}

impl FlagParser {
    /// The table that the parser reads.
    pub closed spec fn table(&self) -> Seq<(Seq<char>, FlagDefinition)> {
        table_of(self.flags@)
    }

    pub fn new(flags: Vec<(&'static str, FlagDefinition)>) -> (result: Self)
        ensures
            result.table() == table_of(flags@),
    {
        Self { flags }
    }

    /// Looks `key` up in the table.
    pub fn lookup(&self, key: &str) -> (result: Option<(usize, CompilerFlagType)>)
        ensures
            match lookup_in(self.table(), key@) {
                Some((count, type_)) => result == Some((count as usize, type_)) && count <= u8::MAX,
                None => result is None,
            },
    {
        let ghost table = self.table();
        let mut i: usize = 0;
        while i < self.flags.len()
            invariant
                table == self.table(),
                i <= self.flags.len(),
                table.len() == self.flags.len(),
                first_exact(table.take(i as int), key@) is None,
            decreases self.flags.len() - i,
        {
            let found = Self::check_equal(key, &self.flags[i]);
            proof {
                assert(table.take(i + 1).drop_last() =~= table.take(i as int));
                assert(table.take(i + 1).last() == (self.flags[i as int].0@, self.flags[i as int].1));
            }
            if found.is_some() {
                proof {
                    assert(table.take(table.len() as int) =~= table);
                    lemma_first_exact(table, key@);
                    lemma_first_exact(table.take(i + 1), key@);
                    assert(table.take(i + 1)[i as int] == table[i as int]);
                    assert forall|j: int| 0 <= j < i implies !exact_match(table[j], key@) by {
                        assert(table.take(i + 1)[j] == table[j]);
                    }
                }
                return found;
            }
            i += 1;
        }
        assert(table.take(table.len() as int) =~= table);
        let mut best: Option<(usize, CompilerFlagType)> = None;
        let mut best_length: usize = 0;
        let mut i: usize = 0;
        while i < self.flags.len()
            invariant
                table == self.table(),
                i <= self.flags.len(),
                table.len() == self.flags.len(),
                match best_partial(table.take(i as int), key@) {
                    Some(b) => {
                        &&& 0 <= b < i
                        &&& best == Some(
                            (
                                table[b].1.consumption.spec_count(false) as usize,
                                table[b].1.type_,
                            ),
                        )
                        &&& best_length == table[b].0.len()
                    },
                    None => best is None,
                },
            decreases self.flags.len() - i,
        {
            let found = Self::check_partial(key, &self.flags[i]);
            proof {
                assert(table.take(i + 1).drop_last() =~= table.take(i as int));
                assert(table.take(i + 1).last() == (self.flags[i as int].0@, self.flags[i as int].1));
                lemma_best_partial(table.take(i as int), key@);
            }
            if found.is_some() {
                let length = self.flags[i].0.unicode_len();
                if best.is_none() || length > best_length {
                    best = found;
                    best_length = length;
                }
            }
            i += 1;
        }
        assert(table.take(table.len() as int) =~= table);
        best
    }

    /// What `candidate` says of `key` where the two are equal.
    pub fn check_equal(key: &str, candidate: &(&'static str, FlagDefinition)) -> (result: Option<
        (usize, CompilerFlagType),
    >)
        ensures
            result == if exact_match((candidate.0@, candidate.1), key@) {
                Some((candidate.1.consumption.spec_count(true) as usize, candidate.1.type_))
            } else {
                None
            },
    {
        if key.unicode_len() == 0 {
            return None;
        }
        if !text::same(candidate.0, key) {
            return None;
        }
        if !candidate.1.consumption.exact_match_allowed() {
            return None;
        }
        Some((candidate.1.consumption.count(true), candidate.1.type_))
    }

    /// What `candidate` says of `key` where `key` begins with its key.
    pub fn check_partial(
        key: &str,
        candidate: &(&'static str, FlagDefinition),
    ) -> (result: Option<(usize, CompilerFlagType)>)
        ensures
            result == if partial_match((candidate.0@, candidate.1), key@) {
                Some((candidate.1.consumption.spec_count(false) as usize, candidate.1.type_))
            } else {
                None
            },
    {
        let length = key.unicode_len();
        if length == 0 {
            return None;
        }
        if !text::starts_with(key, candidate.0) {
            return None;
        }
        if !candidate.1.consumption.partial_match_allowed() {
            if !candidate.1.consumption.equal() {
                return None;
            }
            let at = candidate.0.unicode_len();
            if at >= length || key.get_char(at) != '=' {
                return None;
            }
        }
        Some((candidate.1.consumption.count(false), candidate.1.type_))
    }
}

impl Parser for FlagParser {
    open spec fn accepts(&self, input: Seq<Seq<char>>) -> Option<(nat, CompilerFlagType)> {
        flag_accepts(self.table(), input)
    }

    proof fn accepts_within(&self, input: Seq<Seq<char>>) {
    }

    fn parse<'a>(&self, input: &'a [String]) -> (result: Result<
        (CompilerFlag, &'a [String]),
        &'a [String],
    >) {
        if input.len() == 0 {
            return Err(input);
        }
        if let Some((count, type_)) = self.lookup(input[0].as_str()) {
            if count < input.len() {
                return Ok(parse_result(input, count + 1, type_));
            }
        }
        Err(input)
    }
}

/// Recognises source files by their extension.
#[derive(Debug, Clone, Copy, Default)]
pub struct SourceMatcher;

/// The part of a file name from its last dot on; the whole name where it has
/// no dot.
pub open spec fn extension_of(file: Seq<char>) -> Seq<char> {
    let dot = text::last_index_of(file, '.');
    if dot >= 0 {
        file.skip(dot)
    } else {
        file
    }
}

/// The extensions that name a source file.
pub open spec fn is_source_extension(e: Seq<char>) -> bool {
    // header files
    ||| e == ".h"@ || e == ".hh"@ || e == ".H"@ || e == ".hp"@ || e == ".hxx"@ || e == ".hpp"@
    ||| e == ".HPP"@ || e == ".h++"@ || e == ".tcc"@
    // C
    ||| e == ".c"@ || e == ".C"@
    // C++
    ||| e == ".cc"@ || e == ".CC"@ || e == ".c++"@ || e == ".C++"@ || e == ".cxx"@ || e == ".cpp"@
    ||| e == ".cp"@
    // CUDA
    ||| e == ".cu"@
    // ObjectiveC
    ||| e == ".m"@ || e == ".mi"@ || e == ".mm"@ || e == ".M"@ || e == ".mii"@
    // Preprocessed
    ||| e == ".i"@ || e == ".ii"@
    // Assembly
    ||| e == ".s"@ || e == ".S"@ || e == ".sx"@ || e == ".asm"@
    // Fortran
    ||| e == ".f"@ || e == ".for"@ || e == ".ftn"@ || e == ".F"@ || e == ".FOR"@ || e == ".fpp"@
    ||| e == ".FPP"@ || e == ".FTN"@ || e == ".f90"@ || e == ".f95"@ || e == ".f03"@ || e
        == ".f08"@
    ||| e == ".F90"@ || e == ".F95"@ || e == ".F03"@ || e == ".F08"@
    // go
    ||| e == ".go"@
    // brig
    ||| e == ".brig"@
    // D
    ||| e == ".d"@ || e == ".di"@ || e == ".dd"@
    // Ada
    ||| e == ".ads"@ || e == ".abd"@
}

impl SourceMatcher {
    pub fn take_extension(file: &str) -> (result: &str)
        ensures
            result@ == extension_of(file@),
    {
        proof {
            text::lemma_last_index_of(file@, '.');
        }
        match text::find_last(file, '.') {
            Some(index) => file.substring_char(index, file.unicode_len()),
            None => file,
        }
    }

    /// Whether `e` is one of the extensions of source files.
    pub fn is_extension(e: &str) -> (result: bool)
        ensures
            result == is_source_extension(e@),
    {
        let s = |x: &str| -> (r: bool)
            ensures
                r == (e@ == x@),
            { text::same(e, x) };
        s(".h") || s(".hh") || s(".H") || s(".hp") || s(".hxx") || s(".hpp") || s(".HPP") || s(
            ".h++",
        ) || s(".tcc") || s(".c") || s(".C") || s(".cc") || s(".CC") || s(".c++") || s(".C++")
            || s(".cxx") || s(".cpp") || s(".cp") || s(".cu") || s(".m") || s(".mi") || s(".mm")
            || s(".M") || s(".mii") || s(".i") || s(".ii") || s(".s") || s(".S") || s(".sx") || s(
            ".asm",
        ) || s(".f") || s(".for") || s(".ftn") || s(".F") || s(".FOR") || s(".fpp") || s(".FPP")
            || s(".FTN") || s(".f90") || s(".f95") || s(".f03") || s(".f08") || s(".F90") || s(
            ".F95",
        ) || s(".F03") || s(".F08") || s(".go") || s(".brig") || s(".d") || s(".di") || s(".dd")
            || s(".ads") || s(".abd")
    }
}

impl Parser for SourceMatcher {
    open spec fn accepts(&self, input: Seq<Seq<char>>) -> Option<(nat, CompilerFlagType)> {
        source_accepts(input)
    }

    proof fn accepts_within(&self, input: Seq<Seq<char>>) {
    }

    fn parse<'a>(&self, input: &'a [String]) -> (result: Result<
        (CompilerFlag, &'a [String]),
        &'a [String],
    >) {
        if input.len() == 0 {
            return Err(input);
        }
        let candidate = Self::take_extension(input[0].as_str());
        if Self::is_extension(candidate) {
            return Ok(parse_result(input, 1, CompilerFlagType::Source));
        }
        Err(input)
    }
}

/// Takes any argument that is not empty, as an object file for the linker.
#[derive(Debug, Clone, Copy, Default)]
pub struct EverythingElseFlagMatcher;

impl Parser for EverythingElseFlagMatcher {
    open spec fn accepts(&self, input: Seq<Seq<char>>) -> Option<(nat, CompilerFlagType)> {
        everything_else_accepts(input)
    }

    proof fn accepts_within(&self, input: Seq<Seq<char>>) {
    }

    fn parse<'a>(&self, input: &'a [String]) -> (result: Result<
        (CompilerFlag, &'a [String]),
        &'a [String],
    >) {
        if input.len() == 0 {
            return Err(input);
        }
        if input[0].as_str().unicode_len() != 0 {
            return Ok(parse_result(input, 1, CompilerFlagType::LinkerObjectFile));
        }
        Err(input)
    }
}

/// The flag made of the first `count` arguments of the input, and the
/// arguments after them.
pub fn parse_result<'a>(input: &'a [String], count: usize, type_: CompilerFlagType) -> (result: (
    CompilerFlag,
    &'a [String],
))
    requires
        count <= input@.len(),
    ensures
        result.0@ == (CompilerFlagView {
            arguments: input.deep_view().take(count as int),
            type_,
        }),
        result.1@ == input@.skip(count as int),
{
    let mut arguments: Vec<String> = Vec::new();
    let mut i: usize = 0;
    while i < count
        invariant
            i <= count <= input@.len(),
            arguments.deep_view() == input.deep_view().take(i as int),
        decreases count - i,
    {
        let ghost before = arguments.deep_view();
        arguments.push(input[i].clone());
        assert(arguments.deep_view() =~= before.push(input@[i as int]@));
        assert(input.deep_view().take(i + 1) =~= input.deep_view().take(i as int).push(
            input@[i as int]@,
        ));
        i += 1;
    }
    let remainder = slice_subrange(input, count, input.len());
    (CompilerFlag { arguments, type_ }, remainder)
}

/// Tries one parser, and the other where the first does not accept.
pub struct OneOf<A: Parser, B: Parser> {
    first: A,
    second: B,
}

impl<A: Parser, B: Parser> OneOf<A, B> {
    pub closed spec fn first(&self) -> A {
        self.first
    }

    pub closed spec fn second(&self) -> B {
        self.second
    }

    pub fn new(first: A, second: B) -> (result: Self)
        ensures
            result.first() == first,
            result.second() == second,
    {
        Self { first, second }
    }
}

impl<A: Parser, B: Parser> Parser for OneOf<A, B> {
    open spec fn accepts(&self, input: Seq<Seq<char>>) -> Option<(nat, CompilerFlagType)> {
        one_of(self.first().accepts(input), self.second().accepts(input))
    }

    proof fn accepts_within(&self, input: Seq<Seq<char>>) {
        self.first().accepts_within(input);
        self.second().accepts_within(input);
    }

    fn parse<'a>(&self, input: &'a [String]) -> (result: Result<
        (CompilerFlag, &'a [String]),
        &'a [String],
    >) {
        match self.first.parse(input) {
            Ok(found) => Ok(found),
            Err(_) => self.second.parse(input),
        }
    }
}

/// Applies a parser until the input is used up.
pub struct Repeat<P: Parser> {
    parser: P,
}

impl<P: Parser> Repeat<P> {
    pub closed spec fn parser(&self) -> P {
        self.parser
    }

    pub fn new(parser: P) -> (result: Self)
        ensures
            result.parser() == parser,
    {
        Self { parser }
    }
}

impl<P: Parser> FullParser for Repeat<P> {
    open spec fn accepts_all(&self, input: Seq<Seq<char>>) -> Result<
        Seq<CompilerFlagView>,
        Seq<Seq<char>>,
    > {
        repeat_with(|any: Seq<Seq<char>>| self.parser().accepts(any), input)
    }

    fn parse<'a>(&self, input: &'a [String]) -> (result: Result<Vec<CompilerFlag>, &'a [String]>) {
        let mut flags: Vec<CompilerFlag> = Vec::new();
        let mut it = input;
        let ghost accepts = |any: Seq<Seq<char>>| self.parser().accepts(any);
        proof {
            assert(flags.deep_view() =~= Seq::<CompilerFlagView>::empty());
            match repeat_with(accepts, input.deep_view()) {
                Ok(rest) => {
                    assert(flags.deep_view() + rest =~= rest);
                },
                Err(rest) => {},
            }
        }
        while it.len() != 0
            invariant
                accepts == |any: Seq<Seq<char>>| self.parser().accepts(any),
                match repeat_with(accepts, it.deep_view()) {
                    Ok(rest) => repeat_with(accepts, input.deep_view()) == Ok::<
                        Seq<CompilerFlagView>,
                        Seq<Seq<char>>,
                    >(flags.deep_view() + rest),
                    Err(rest) => repeat_with(accepts, input.deep_view()) == Err::<
                        Seq<CompilerFlagView>,
                        Seq<Seq<char>>,
                    >(rest),
                },
            decreases it@.len(),
        {
            proof {
                self.parser().accepts_within(it.deep_view());
            }
            match self.parser.parse(it) {
                Ok((flag, remainder)) => {
                    let ghost before = flags.deep_view();
                    let ghost taken = self.parser().accepts(it.deep_view())->Some_0.0;
                    flags.push(flag);
                    proof {
                        assert(flags.deep_view() =~= before.push(flag@));
                        assert(remainder.deep_view() =~= it.deep_view().skip(taken as int));
                        match repeat_with(accepts, remainder.deep_view()) {
                            Ok(rest) => {
                                assert(before + (seq![flag@] + rest) =~= flags.deep_view() + rest);
                            },
                            Err(rest) => {},
                        }
                    }
                    it = remainder;
                },
                Err(_) => {
                    return Err(it);
                },
            }
        }
        proof {
            assert(flags.deep_view() + Seq::<CompilerFlagView>::empty() =~= flags.deep_view());
        }
        Ok(flags)
    }
}

/// The flags of an execution: its arguments after the first, read by
/// `parser`.
pub open spec fn parsed<P: FullParser>(parser: P, execution: crate::ExecutionView) -> Result<
    Seq<CompilerFlagView>,
    RecognitionErrorView,
> {
    if execution.arguments.len() == 0 {
        Err(RecognitionErrorView::NoArguments)
    } else {
        match parser.accepts_all(execution.arguments.skip(1)) {
            Ok(flags) => Ok(flags),
            Err(rest) => Err(RecognitionErrorView::Unparsed(rest)),
        }
    }
}

/// Reads the arguments of an execution, the program's name left out.
pub fn parse<P: FullParser>(parser: &P, execution: &Execution) -> (result: Result<
    Vec<CompilerFlag>,
    RecognitionError,
>)
    ensures
        match parsed(*parser, execution@) {
            Ok(flags) => result is Ok && result->Ok_0.deep_view() == flags,
            Err(error) => result is Err && result->Err_0@ == error,
        },
{
    if execution.arguments.len() == 0 {
        return Err(RecognitionError::NoArguments);
    }
    let input = slice_subrange(execution.arguments.as_slice(), 1, execution.arguments.len());
    assert(input.deep_view() =~= execution.arguments.deep_view().skip(1));
    match parser.parse(input) {
        Ok(flags) => Ok(flags),
        Err(remainder) => {
            let mut rest: Vec<String> = Vec::new();
            let mut i: usize = 0;
            while i < remainder.len()
                invariant
                    i <= remainder@.len(),
                    rest.deep_view() == remainder.deep_view().take(i as int),
                decreases remainder@.len() - i,
            {
                let ghost before = rest.deep_view();
                rest.push(remainder[i].clone());
                assert(rest.deep_view() =~= before.push(remainder@[i as int]@));
                assert(remainder.deep_view().take(i + 1) =~= remainder.deep_view().take(
                    i as int,
                ).push(remainder@[i as int]@));
                i += 1;
            }
            assert(remainder.deep_view().take(remainder@.len() as int) =~= remainder.deep_view());
            Err(RecognitionError::Unparsed(rest))
        },
    }
}

} // verus!
