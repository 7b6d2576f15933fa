use winbear::semantic::parsers::{
    CompilerFlagType, EverythingElseFlagMatcher, FlagDefinition, FlagParser, FullParser,
    Instruction, Match, OneOf, Parser, Repeat, SourceMatcher,
};
use winbear::semantic::tool::tool_gcc;

fn strings(items: &[&str]) -> Vec<String> {
    items.iter().copied().map(String::from).collect()
}

fn definition(count: u8, match_: Match, equal: bool, type_: CompilerFlagType) -> FlagDefinition {
    FlagDefinition {
        consumption: Instruction::new(count, match_, equal),
        type_,
    }
}

#[test]
fn instruction_counts_the_arguments_that_follow() {
    let one = Instruction::new(1, Match::Both, false);
    assert_eq!(1, one.count(true));
    assert_eq!(0, one.count(false));
    let none = Instruction::new(0, Match::Partial, true);
    assert_eq!(0, none.count(true));
    assert_eq!(0, none.count(false));
    let two = Instruction::new(2, Match::Exact, false);
    assert_eq!(2, two.count(true));
    assert_eq!(1, two.count(false));

    assert!(one.exact_match_allowed() && one.partial_match_allowed());
    assert!(none.partial_match_allowed() && !none.exact_match_allowed());
    assert!(two.exact_match_allowed() && !two.partial_match_allowed());
    assert!(none.equal() && !one.equal());
}

#[test]
fn exact_beats_partial_and_the_longest_key_wins() {
    let sut = FlagParser::new(vec![
        ("-f", definition(0, Match::Partial, false, CompilerFlagType::Other)),
        ("-fplugin", definition(0, Match::Partial, true, CompilerFlagType::KindOfOutput)),
        ("-fpl", definition(1, Match::Both, false, CompilerFlagType::Linker)),
        ("-x", definition(1, Match::Exact, true, CompilerFlagType::Preprocessor)),
    ]);

    assert_eq!(Some((0, CompilerFlagType::Other)), sut.lookup("-fz"));
    assert_eq!(Some((0, CompilerFlagType::Other)), sut.lookup("-f"));
    assert_eq!(Some((1, CompilerFlagType::Linker)), sut.lookup("-fpl"));
    assert_eq!(Some((0, CompilerFlagType::Linker)), sut.lookup("-fplu"));
    assert_eq!(
        Some((0, CompilerFlagType::KindOfOutput)),
        sut.lookup("-fplugin=a.so")
    );
    assert_eq!(Some((1, CompilerFlagType::Preprocessor)), sut.lookup("-x"));
    // A key that only matches exactly takes a value after an equal sign.
    assert_eq!(Some((0, CompilerFlagType::Preprocessor)), sut.lookup("-x=c"));
    assert_eq!(None, sut.lookup("-xc"));
    assert_eq!(None, sut.lookup("-"));
    assert_eq!(None, sut.lookup(""));
    assert_eq!(None, sut.lookup("a.c"));
}

#[test]
fn the_gcc_table_knows_its_flags() {
    let table = tool_gcc::flag_definitions();
    assert_eq!(100, table.len());
    let sut = FlagParser::new(table);

    assert_eq!(Some((0, CompilerFlagType::KindOfOutputNoLinking)), sut.lookup("-E"));
    assert_eq!(Some((0, CompilerFlagType::KindOfOutputNoLinking)), sut.lookup("-c"));
    assert_eq!(Some((1, CompilerFlagType::KindOfOutputOutput)), sut.lookup("-o"));
    assert_eq!(Some((1, CompilerFlagType::DirectorySearch)), sut.lookup("-I"));
    assert_eq!(Some((0, CompilerFlagType::DirectorySearch)), sut.lookup("-I/usr/include"));
    assert_eq!(Some((0, CompilerFlagType::DirectorySearch)), sut.lookup("--sysroot=/x"));
    assert_eq!(Some((0, CompilerFlagType::KindOfOutputInfo)), sut.lookup("--help=common"));
    assert_eq!(Some((0, CompilerFlagType::Other)), sut.lookup("--param"));
    assert_eq!(Some((0, CompilerFlagType::Other)), sut.lookup("-fPIC"));
    assert_eq!(Some((0, CompilerFlagType::Other)), sut.lookup("-dumpversion"));
    assert_eq!(Some((1, CompilerFlagType::KindOfOutput)), sut.lookup("-dumpbase"));
    assert_eq!(Some((0, CompilerFlagType::Linker)), sut.lookup("-static-libgcc"));
    assert_eq!(Some((0, CompilerFlagType::PreprocessorMake)), sut.lookup("-MD"));
    assert_eq!(Some((1, CompilerFlagType::PreprocessorMake)), sut.lookup("-MF"));
    assert_eq!(Some((0, CompilerFlagType::KindOfOutput)), sut.lookup("@args.rsp"));
    assert_eq!(None, sut.lookup("-cfoo"));
    assert_eq!(None, sut.lookup("source.c"));
}

#[test]
fn source_files_are_known_by_their_extension() {
    assert_eq!(".c", SourceMatcher::take_extension("a.b.c"));
    assert_eq!("Makefile", SourceMatcher::take_extension("Makefile"));
    assert_eq!(".", SourceMatcher::take_extension("odd."));

    let all = [
        ".h", ".hh", ".H", ".hp", ".hxx", ".hpp", ".HPP", ".h++", ".tcc", ".c", ".C", ".cc",
        ".CC", ".c++", ".C++", ".cxx", ".cpp", ".cp", ".cu", ".m", ".mi", ".mm", ".M", ".mii",
        ".i", ".ii", ".s", ".S", ".sx", ".asm", ".f", ".for", ".ftn", ".F", ".FOR", ".fpp",
        ".FPP", ".FTN", ".f90", ".f95", ".f03", ".f08", ".F90", ".F95", ".F03", ".F08", ".go",
        ".brig", ".d", ".di", ".dd", ".ads", ".abd",
    ];
    assert_eq!(53, all.len());
    for extension in all {
        assert!(SourceMatcher::is_extension(extension));
    }
    for extension in [".o", ".obj", ".Cpp", ".a", "", "c", ".rs"] {
        assert!(!SourceMatcher::is_extension(extension));
    }

    let input = strings(&["dir/file.cpp", "-c"]);
    match SourceMatcher.parse(&input) {
        Ok((flag, rest)) => {
            assert_eq!(strings(&["dir/file.cpp"]), flag.arguments);
            assert_eq!(CompilerFlagType::Source, flag.type_);
            assert_eq!(strings(&["-c"]).as_slice(), rest);
        }
        Err(_) => panic!(),
    }
    assert!(SourceMatcher.parse(&strings(&["file.o"])).is_err());
    assert!(SourceMatcher.parse(&[]).is_err());
}

#[test]
fn everything_else_is_an_object_file() {
    let input = strings(&["lib.a", "x"]);
    match EverythingElseFlagMatcher.parse(&input) {
        Ok((flag, rest)) => {
            assert_eq!(CompilerFlagType::LinkerObjectFile, flag.type_);
            assert_eq!(strings(&["lib.a"]), flag.arguments);
            assert_eq!(1, rest.len());
        }
        Err(_) => panic!(),
    }
    let empty = strings(&["", "x"]);
    assert_eq!(Err(empty.as_slice()), EverythingElseFlagMatcher.parse(&empty).map(|_| ()));
    assert!(EverythingElseFlagMatcher.parse(&[]).is_err());
}

#[test]
fn repeat_takes_flags_until_the_input_is_used_up() {
    let flags = FlagParser::new(vec![
        ("-o", definition(1, Match::Exact, false, CompilerFlagType::KindOfOutputOutput)),
        ("-c", definition(0, Match::Exact, false, CompilerFlagType::KindOfOutputNoLinking)),
    ]);
    let sut = Repeat::new(OneOf::new(flags, SourceMatcher));

    let input = strings(&["-c", "-o", "a.o", "a.c"]);
    let parsed = sut.parse(&input).unwrap();
    let shapes: Vec<(usize, CompilerFlagType)> = parsed
        .iter()
        .map(|flag| (flag.arguments.len(), flag.type_))
        .collect();
    assert_eq!(
        vec![
            (1, CompilerFlagType::KindOfOutputNoLinking),
            (2, CompilerFlagType::KindOfOutputOutput),
            (1, CompilerFlagType::Source),
        ],
        shapes
    );
    assert_eq!(strings(&["-o", "a.o"]), parsed[1].arguments);

    // Where no parser takes an argument, what is left is handed back.
    let input = strings(&["-c", "lib.a", "a.c"]);
    assert_eq!(Err(&input[1..]), sut.parse(&input).map(|_| ()));
    assert_eq!(Ok(0), sut.parse(&[]).map(|flags| flags.len()));
}
