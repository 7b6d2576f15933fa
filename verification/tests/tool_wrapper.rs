use winbear::resolver::Resolver;
use winbear::semantic::tool::tool_wrapper;
use winbear::{Environment, Execution};

fn strings(items: &[&str]) -> Vec<String> {
    items.iter().copied().map(String::from).collect()
}

/// Answers one question, and counts how often it was asked.
struct FixedResolver {
    file: &'static str,
    answer: Option<&'static str>,
    calls: std::cell::Cell<usize>,
}

impl Resolver for FixedResolver {
    fn from_current_directory(&self, _file: &str) -> Option<String> {
        None
    }

    fn from_path(&self, _file: &str, _environment: &Environment) -> Option<String> {
        None
    }

    fn from_search_path(&self, file: &str, _search_path: &str) -> Option<String> {
        assert_eq!(self.file, file);
        self.calls.set(self.calls.get() + 1);
        self.answer.map(String::from)
    }
}

#[test]
fn is_ccache_call() {
    assert!(!tool_wrapper::is_ccache_call("cc"));
    assert!(!tool_wrapper::is_ccache_call("/usr/bin/cc"));
    assert!(!tool_wrapper::is_ccache_call("gcc"));
    assert!(!tool_wrapper::is_ccache_call("/usr/bin/gcc"));
    assert!(!tool_wrapper::is_ccache_call("c++"));
    assert!(!tool_wrapper::is_ccache_call("/usr/bin/c++"));
    assert!(!tool_wrapper::is_ccache_call("g++"));
    assert!(!tool_wrapper::is_ccache_call("/usr/bin/g++"));

    assert!(tool_wrapper::is_ccache_call("ccache"));
}

#[test]
fn is_ccache_query() {
    assert!(tool_wrapper::is_ccache_query(&["ccache".to_string()]));
    assert!(tool_wrapper::is_ccache_query(&[
        "ccache".to_string(),
        "-c".to_string()
    ]));
    assert!(tool_wrapper::is_ccache_query(&[
        "ccache".to_string(),
        "--cleanup".to_string()
    ]));

    assert!(!tool_wrapper::is_ccache_query(&[
        "ccache".to_string(),
        "cc".to_string(),
        "-c".to_string()
    ]));
}

#[test]
fn is_distcc_call() {
    assert!(!tool_wrapper::is_distcc_call("cc"));
    assert!(!tool_wrapper::is_distcc_call("/usr/bin/cc"));
    assert!(!tool_wrapper::is_distcc_call("gcc"));
    assert!(!tool_wrapper::is_distcc_call("/usr/bin/gcc"));
    assert!(!tool_wrapper::is_distcc_call("c++"));
    assert!(!tool_wrapper::is_distcc_call("/usr/bin/c++"));
    assert!(!tool_wrapper::is_distcc_call("g++"));
    assert!(!tool_wrapper::is_distcc_call("/usr/bin/g++"));

    assert!(tool_wrapper::is_distcc_call("distcc"));
}

#[test]
fn is_distcc_query() {
    assert!(tool_wrapper::is_distcc_query(&["distcc".to_string()]));
    assert!(tool_wrapper::is_distcc_query(&[
        "distcc".to_string(),
        "--help".to_string()
    ]));
    assert!(tool_wrapper::is_distcc_query(&[
        "distcc".to_string(),
        "--show-hosts".to_string()
    ]));
    assert!(tool_wrapper::is_distcc_query(&[
        "distcc".to_string(),
        "-j".to_string()
    ]));

    assert!(!tool_wrapper::is_distcc_query(&[
        "distcc".to_string(),
        "cc".to_string(),
        "--help".to_string()
    ]));
    assert!(!tool_wrapper::is_distcc_query(&[
        "distcc".to_string(),
        "cc".to_string(),
        "-c".to_string()
    ]));
}

#[test]
fn remove_wrapper() {
    let mut environment = Environment::new();
    environment.insert("PATH".into(), "/usr/bin;/usr/sbin".into());

    let input = Execution {
        executable: String::from("/usr/bin/ccache"),
        arguments: strings(&["ccache", "cc", "-c", "-o", "source.o", "source.c"]),
        working_dir: String::from("/home/user/project"),
        environment: environment.clone(),
    };

    let expected = Execution {
        executable: String::from("/usr/bin/cc"),
        arguments: strings(&["cc", "-c", "-o", "source.o", "source.c"]),
        working_dir: String::from("/home/user/project"),
        environment,
    };

    let mock = FixedResolver {
        file: "cc",
        answer: Some("/usr/bin/cc"),
        calls: std::cell::Cell::new(0),
    };

    let result = tool_wrapper::remove_wrapper_with_resolver(&mock, &input);
    assert_eq!(expected, result);
    assert_eq!(1, mock.calls.get());
}

#[test]
fn remove_wrapper_fails_to_resolve() {
    let mut environment = Environment::new();
    environment.insert("PATH".into(), "/usr/bin;/usr/sbin".into());

    let input = Execution {
        executable: String::from("/usr/bin/ccache"),
        arguments: strings(&["ccache", "cc", "-c", "-o", "source.o", "source.c"]),
        working_dir: String::from("/home/user/project"),
        environment: environment.clone(),
    };

    let expected = Execution {
        executable: String::from("cc"),
        arguments: strings(&["cc", "-c", "-o", "source.o", "source.c"]),
        working_dir: String::from("/home/user/project"),
        environment,
    };

    let mock = FixedResolver {
        file: "cc",
        answer: None,
        calls: std::cell::Cell::new(0),
    };

    let result = tool_wrapper::remove_wrapper_with_resolver(&mock, &input);
    assert_eq!(expected, result);
    assert_eq!(1, mock.calls.get());
}
