use winbear::configuration::{Compilation, CompilerWrapper};
use winbear::resolver::Resolver;
use winbear::semantic::tool::tool_clang::ToolClang;
use winbear::semantic::tool::tool_cuda::ToolCuda;
use winbear::semantic::tool::tool_extending_wrapper::ToolExtendingWrapper;
use winbear::semantic::tool::tool_gcc::{self, GccLike, ToolGcc};
use winbear::semantic::tool::tool_wrapper::ToolWrapper;
use winbear::semantic::tool::{not_recognized, recognized_ok, recognized_with_error};
use winbear::semantic::{Build, CompileSemantic, RecognitionError, Semantic};
use winbear::{Entry, Environment, Execution, Run};

fn strings(items: &[&str]) -> Vec<String> {
    items.iter().copied().map(String::from).collect()
}

fn execution(executable: &str, arguments: &[&str]) -> Execution {
    Execution {
        executable: executable.into(),
        arguments: strings(arguments),
        working_dir: "C:\\proj".into(),
        environment: Environment::new(),
    }
}

/// Finds programs in one directory only.
struct OneDirectory {
    directory: &'static str,
    program: &'static str,
}

impl Resolver for OneDirectory {
    fn from_current_directory(&self, file: &str) -> Option<String> {
        if file == format!("{}\\{}", self.directory, self.program) {
            Some(format!("{}\\{}.exe", self.directory, self.program))
        } else {
            None
        }
    }

    fn from_path(&self, file: &str, environment: &Environment) -> Option<String> {
        winbear::resolver::resolve_in_path(self, file, environment)
    }

    fn from_search_path(&self, file: &str, search_path: &str) -> Option<String> {
        winbear::resolver::resolve_in_search_path(self, file, search_path)
    }
}

const NOWHERE: OneDirectory = OneDirectory {
    directory: "",
    program: "",
};

#[test]
fn simple_compile_gives_one_entry() {
    let input = execution("C:\\cc.exe", &["cc", "-c", "-o", "source.o", "source.c"]);

    let semantic = ToolGcc.recognize(&input).unwrap().unwrap();

    assert_eq!(
        Semantic::Compile(CompileSemantic {
            working_dir: "C:\\proj".into(),
            compiler: "cc".into(),
            flags: strings(&["-c"]),
            sources: strings(&["source.c"]),
            output: Some("source.o".into()),
        }),
        semantic
    );
    assert_eq!(
        Some(vec![Entry {
            file: "C:\\proj\\source.c".into(),
            directory: "C:\\proj".into(),
            output: Some("C:\\proj\\source.o".into()),
            arguments: strings(&["cc", "-c", "-o", "source.o", "source.c"]),
        }]),
        semantic.into_entries()
    );
}

#[test]
fn entries_keep_absolute_paths_and_have_one_entry_for_each_source() {
    let semantic = Semantic::Compile(CompileSemantic {
        working_dir: "C:\\proj\\".into(),
        compiler: "cc".into(),
        flags: strings(&["-c", "-O2"]),
        sources: strings(&["a.c", "D:\\lib\\b.c", "/abs/c.c"]),
        output: None,
    });

    let entries = semantic.into_entries().unwrap();

    assert_eq!(3, entries.len());
    assert_eq!("C:\\proj\\a.c", entries[0].file);
    assert_eq!("D:\\lib\\b.c", entries[1].file);
    assert_eq!("C:/abs/c.c", entries[2].file);
    for entry in &entries {
        assert_eq!("C:\\proj\\", entry.directory);
        assert_eq!("cc", entry.arguments[0]);
        assert_eq!(None, entry.output);
        assert!(!entry.file.is_empty());
    }
    assert_eq!(strings(&["cc", "-c", "-O2", "D:\\lib\\b.c"]), entries[1].arguments);
}

#[test]
fn queries_and_preprocessing_have_no_entries() {
    assert_eq!(None, Semantic::QueryCompiler.into_entries());
    assert_eq!(None, Semantic::Preprocess.into_entries());
}

#[test]
fn a_call_without_flags_is_a_query() {
    let result = ToolGcc.recognize(&execution("gcc", &["gcc"]));
    assert_eq!(Ok(Some(Semantic::QueryCompiler)), result);
}

#[test]
fn preprocessing_is_told_from_compiling() {
    for flag in ["-E", "-M", "-MM"] {
        let result = ToolGcc.recognize(&execution("gcc", &["gcc", flag, "source.c"]));
        assert_eq!(Ok(Some(Semantic::Preprocess)), result);
    }
    // Other dependency flags are dropped, and the call is a compilation.
    let result = ToolGcc.recognize(&execution("gcc", &["gcc", "-MD", "-MF", "x.d", "-c", "a.c"]));
    match result {
        Ok(Some(Semantic::Compile(compile))) => assert_eq!(strings(&["-c"]), compile.flags),
        other => panic!("{:?}", other),
    }
}

#[test]
fn a_compilation_needs_a_source() {
    let result = ToolGcc.recognize(&execution("gcc", &["gcc", "-c", "-o", "a.o"]));
    assert!(recognized_with_error(&result));
    assert_eq!(Err(RecognitionError::NoSources), result);
    assert_eq!(
        "Source files not found for compilation.",
        RecognitionError::NoSources.message()
    );
}

#[test]
fn an_execution_without_arguments_is_an_error() {
    let result = ToolGcc.recognize(&execution("gcc", &[]));
    assert_eq!(Err(RecognitionError::NoArguments), result);
}

#[test]
fn an_empty_argument_is_not_understood() {
    let result = ToolGcc.recognize(&execution("gcc", &["gcc", "-c", "", "a.c"]));
    assert_eq!(
        Err(RecognitionError::Unparsed(strings(&["", "a.c"]))),
        result
    );
    assert_eq!(
        "Failed to recognize: , a.c",
        RecognitionError::Unparsed(strings(&["", "a.c"])).message()
    );
}

#[test]
fn flags_are_kept_in_order_and_the_last_output_counts() {
    let input = execution(
        "gcc",
        &[
            "gcc", "-Wall", "-I", "inc", "-Ifoo", "-DX=1", "-o", "first.o", "-std=c99", "lib.o",
            "-lm", "-Wl,-rpath", "-o", "second.o", "-c", "a.c", "b.cpp",
        ],
    );

    match ToolGcc.recognize(&input) {
        Ok(Some(Semantic::Compile(compile))) => {
            assert_eq!(
                strings(&["-Wall", "-I", "inc", "-Ifoo", "-DX=1", "-std=c99", "lib.o", "-c"]),
                compile.flags
            );
            assert_eq!(strings(&["a.c", "b.cpp"]), compile.sources);
            assert_eq!(Some("second.o".to_string()), compile.output);
        }
        other => panic!("{:?}", other),
    }
}

#[test]
fn a_flag_without_its_value_is_taken_as_a_file() {
    match ToolGcc.recognize(&execution("gcc", &["gcc", "-c", "a.c", "-o"])) {
        Ok(Some(Semantic::Compile(compile))) => {
            assert_eq!(strings(&["-c", "-o"]), compile.flags);
            assert_eq!(None, compile.output);
        }
        other => panic!("{:?}", other),
    }
}

#[test]
fn objc_include_path_gives_isystem() {
    let mut input = execution("cc", &["cc", "-c", "a.m"]);
    input
        .environment
        .insert("OBJC_INCLUDE_PATH".into(), "/o1;/o2".into());
    input
        .environment
        .insert("CPLUS_INCLUDE_PATH".into(), "/p".into());

    assert_eq!(
        strings(&["-I", "/p", "-isystem", "/o1", "-isystem", "/o2"]),
        tool_gcc::flags_from_environment(&input.environment)
    );
}

#[test]
fn only_programs_of_the_family_are_claimed() {
    assert!(!ToolGcc.recognize_program("clang"));
    assert!(!ToolGcc.recognize_program("gccx"));
    assert!(!ToolGcc.recognize_program("C:\\tools\\link.exe"));
    assert!(ToolGcc.recognize_program("C:\\mingw\\bin\\x86_64-w64-mingw32-gcc-12.2.exe"));
    assert!(not_recognized(
        &ToolGcc.recognize(&execution("C:\\tools\\link.exe", &["link", "a.obj"]))
    ));

    assert!(ToolClang.recognize_program("clang"));
    assert!(ToolClang.recognize_program("/usr/bin/clang++"));
    assert!(ToolClang.recognize_program("clang-14"));
    assert!(ToolClang.recognize_program("arm-clang++-3.8"));
    assert!(!ToolClang.recognize_program("gcc"));
    assert!(!ToolClang.recognize_program("clang-tidy"));

    assert!(ToolCuda.recognize_program("nvcc"));
    assert!(ToolCuda.recognize_program("C:\\cuda\\bin\\nvcc.exe"));
    assert!(!ToolCuda.recognize_program("nvccx"));
}

#[test]
fn clang_and_cuda_read_their_arguments_as_gcc_does() {
    let result = ToolClang.recognize(&execution("clang", &["clang", "-c", "a.c"]));
    assert!(recognized_ok(&result));
    let result = ToolCuda.recognize(&execution("nvcc", &["nvcc", "-c", "a.cu"]));
    match result {
        Ok(Some(Semantic::Compile(compile))) => assert_eq!(strings(&["a.cu"]), compile.sources),
        other => panic!("{:?}", other),
    }
    assert!(not_recognized(
        &ToolCuda.recognize(&execution("cc", &["cc", "-c", "a.cu"]))
    ));
}

#[test]
fn a_declared_compiler_gets_its_additional_flags() {
    let sut = ToolExtendingWrapper::new(CompilerWrapper {
        executable: "C:\\tools\\mycc.exe".into(),
        additional_flags: strings(&["-DEXTRA", "-Iextra"]),
    });

    assert!(sut.recognize_program("C:\\tools\\mycc.exe"));
    assert!(!sut.recognize_program("mycc.exe"));

    match sut.recognize(&execution("C:\\tools\\mycc.exe", &["mycc", "-c", "a.c"])) {
        Ok(Some(Semantic::Compile(compile))) => {
            assert_eq!("mycc", compile.compiler);
            assert_eq!(strings(&["-c", "-DEXTRA", "-Iextra"]), compile.flags)
        }
        other => panic!("{:?}", other),
    }
    assert_eq!(
        Ok(Some(Semantic::QueryCompiler)),
        sut.recognize(&execution("C:\\tools\\mycc.exe", &["mycc", "--version"]))
    );
    assert_eq!(
        Ok(None),
        sut.recognize(&execution("C:\\tools\\other.exe", &["other", "-c", "a.c"]))
    );
}

#[test]
fn ccache_is_unwrapped_along_the_path() {
    let mut input = execution("C:\\tools\\ccache.exe", &["ccache", "cc", "-c", "source.c"]);
    input.environment.insert("PATH".into(), ";C:\\none;C:\\bin".into());
    let resolver = OneDirectory {
        directory: "C:\\bin",
        program: "cc",
    };

    match ToolWrapper.recognize(&resolver, &input) {
        Ok(Some(Semantic::Compile(compile))) => {
            assert_eq!("C:\\bin\\cc.exe", compile.compiler);
            assert_eq!(strings(&["-c"]), compile.flags);
            assert_eq!(strings(&["source.c"]), compile.sources);
            assert_eq!(None, compile.output);
        }
        other => panic!("{:?}", other),
    }

    // Nothing is found: the name stands for the compiler.
    match ToolWrapper.recognize(&NOWHERE, &input) {
        Ok(Some(Semantic::Compile(compile))) => assert_eq!("cc", compile.compiler),
        other => panic!("{:?}", other),
    }
    match ToolWrapper.recognize_resolved(&input, Some("D:\\cc.exe".into())) {
        Ok(Some(Semantic::Compile(compile))) => assert_eq!("D:\\cc.exe", compile.compiler),
        other => panic!("{:?}", other),
    }
}

#[test]
fn launchers_answer_queries_themselves() {
    assert_eq!(
        Ok(Some(Semantic::QueryCompiler)),
        ToolWrapper.recognize(&NOWHERE, &execution("ccache", &["ccache", "-s"]))
    );
    assert_eq!(
        Ok(Some(Semantic::QueryCompiler)),
        ToolWrapper.recognize(&NOWHERE, &execution("distcc", &["distcc", "--show-hosts"]))
    );
    assert_eq!(
        Ok(Some(Semantic::QueryCompiler)),
        ToolWrapper.recognize(&NOWHERE, &execution("distcc", &["distcc"]))
    );
    assert_eq!(
        Ok(None),
        ToolWrapper.recognize(&NOWHERE, &execution("cc", &["cc", "-c", "a.c"]))
    );
}

#[test]
fn the_build_asks_its_tools_in_order() {
    let build = Build::new(Compilation {
        compilers_to_recognize: vec![CompilerWrapper {
            executable: "C:\\tools\\mycc.exe".into(),
            additional_flags: strings(&["-DEXTRA"]),
        }],
        compilers_to_exclude: strings(&["C:\\bad\\gcc.exe"]),
        flags_to_remove: vec![],
    });
    let run = |executable: &str, arguments: &[&str]| Run {
        execution: execution(executable, arguments),
        pid: 1,
        ppid: 0,
    };

    assert_eq!(
        Err(RecognitionError::Excluded),
        build.recognize(&NOWHERE, &run("C:\\bad\\gcc.exe", &["gcc", "-c", "a.c"]))
    );
    assert_eq!(
        "The tool is on the exclude list from configuration.",
        RecognitionError::Excluded.message()
    );
    assert_eq!(
        Err(RecognitionError::NoToolRecognized),
        build.recognize(&NOWHERE, &run("C:\\tools\\link.exe", &["link"]))
    );
    assert_eq!(
        "No tools recognize this execution.",
        RecognitionError::NoToolRecognized.message()
    );
    assert!(recognized_ok(&build.recognize(
        &NOWHERE,
        &run("C:\\llvm\\clang++.exe", &["clang++", "-c", "a.cpp"])
    )));
    match build.recognize(&NOWHERE, &run("C:\\tools\\mycc.exe", &["mycc", "-c", "a.c"])) {
        Ok(Some(Semantic::Compile(compile))) => {
            assert_eq!(strings(&["-c", "-DEXTRA"]), compile.flags)
        }
        other => panic!("{:?}", other),
    }

    let runs = vec![
        run("C:\\gcc.exe", &["gcc", "-c", "a.c", "b.c"]),
        run("C:\\gcc.exe", &["gcc", "--version"]),
        run("C:\\tools\\link.exe", &["link", "a.obj"]),
        run("C:\\nvcc.exe", &["nvcc", "-o", "k.o", "k.cu"]),
    ];
    let entries = build.entries(&NOWHERE, &runs);
    let files: Vec<&str> = entries.iter().map(|entry| entry.file.as_str()).collect();
    assert_eq!(
        vec!["C:\\proj\\a.c", "C:\\proj\\b.c", "C:\\proj\\k.cu"],
        files
    );
    assert_eq!(
        strings(&["nvcc", "-c", "-o", "k.o", "k.cu"]),
        entries[2].arguments
    );
    for entry in &entries {
        assert!(!entry.file.is_empty() && !entry.directory.is_empty());
    }
}
