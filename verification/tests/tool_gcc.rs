use winbear::semantic::tool::tool_gcc::{GccLike, ToolGcc};
use winbear::semantic::tool::{not_recognized, recognized_ok};
use winbear::semantic::{CompileSemantic, Semantic};
use winbear::{Environment, Execution};

fn strings(items: &[&str]) -> Vec<String> {
    items.iter().copied().map(String::from).collect()
}

#[test]
fn recognize() {
    let sut = ToolGcc::default();

    assert!(sut.recognize_program("cc"));
    assert!(sut.recognize_program("/usr/bin/cc"));
    assert!(sut.recognize_program("gcc"));
    assert!(sut.recognize_program("/usr/bin/gcc"));
    assert!(sut.recognize_program("c++"));
    assert!(sut.recognize_program("/usr/bin/c++"));
    assert!(sut.recognize_program("g++"));
    assert!(sut.recognize_program("/usr/bin/g++"));
    assert!(sut.recognize_program("arm-none-eabi-g++"));
    assert!(sut.recognize_program("/usr/bin/arm-none-eabi-g++"));
    assert!(sut.recognize_program("gcc-6"));
    assert!(sut.recognize_program("/usr/bin/gcc-6"));
    assert!(sut.recognize_program("gfortran"));
    assert!(sut.recognize_program("fortran"));
}

#[test]
fn fails_on_empty() {
    let input = Default::default();

    let sut = ToolGcc::default();

    assert!(not_recognized(&sut.recognize(&input)));
}

#[test]
fn simple() {
    let input = Execution {
        executable: String::from("/usr/bin/cc"),
        arguments: strings(&["cc", "-c", "-o", "source.o", "source.c"]),
        working_dir: String::from("/home/user/project"),
        environment: Environment::new(),
    };

    let expected = Semantic::Compile(CompileSemantic {
        working_dir: input.working_dir.clone(),
        compiler: String::from("cc"),
        flags: vec!["-c".to_string()],
        sources: vec![String::from("source.c")],
        output: Some(String::from("source.o")),
    });

    let sut = ToolGcc::default();

    let result = sut.recognize(&input);

    assert!(recognized_ok(&result));

    assert_eq!(expected, result.unwrap().unwrap());
}

#[test]
fn linker_flag_filtered() {
    let input = Execution {
        executable: String::from("/usr/bin/cc"),
        arguments: strings(&["cc", "-L.", "-lthing", "-o", "exe", "source.c"]),
        working_dir: String::from("/home/user/project"),
        environment: Environment::new(),
    };

    let expected = Semantic::Compile(CompileSemantic {
        working_dir: input.working_dir.clone(),
        compiler: String::from("cc"),
        flags: vec!["-c".to_string()],
        sources: vec![String::from("source.c")],
        output: Some(String::from("exe")),
    });

    let sut = ToolGcc::default();

    let result = sut.recognize(&input);

    assert!(recognized_ok(&result));

    assert_eq!(expected, result.unwrap().unwrap());
}

#[test]
fn pass_on_help() {
    let input = Execution {
        executable: String::from("/usr/bin/gcc"),
        arguments: strings(&["gcc", "--version"]),
        working_dir: String::from("/home/user/project"),
        environment: Environment::new(),
    };

    let expected = Semantic::QueryCompiler;

    let sut = ToolGcc::default();

    let result = sut.recognize(&input);

    assert!(recognized_ok(&result));

    assert_eq!(expected, result.unwrap().unwrap());
}

#[test]
fn simple_with_c_path() {
    let mut environment = Environment::new();
    environment.insert(
        "CPATH".into(),
        "/usr/include/path1;/usr/include/path2".into(),
    );
    environment.insert("C_INCLUDE_PATH".into(), ";/usr/include/path3".into());

    let input = Execution {
        executable: String::from("/usr/bin/cc"),
        arguments: strings(&["cc", "-c", "source.c"]),
        working_dir: String::from("/home/user/project"),
        environment,
    };

    let expected = Semantic::Compile(CompileSemantic {
        working_dir: input.working_dir.clone(),
        compiler: String::from("cc"),
        flags: strings(&[
            "-c",
            "-I",
            "/usr/include/path1",
            "-I",
            "/usr/include/path2",
            "-I",
            ".",
            "-I",
            "/usr/include/path3",
        ]),
        sources: vec![String::from("source.c")],
        output: None,
    });

    let sut = ToolGcc::default();

    let result = sut.recognize(&input);

    assert!(recognized_ok(&result));

    assert_eq!(expected, result.unwrap().unwrap());
}
