use winbear::configuration::{Content, Format};
use winbear::output::{CompilationDatabase, DatabaseError, SerializableArguments, Splitter};
use winbear::Entry;

const AS_ARGUMENTS: Format = Format {
    command_as_array: true,
    drop_output_field: false,
};

const AS_COMMAND: Format = Format {
    command_as_array: false,
    drop_output_field: false,
};

const AS_ARGUMENTS_NO_OUTPUT: Format = Format {
    command_as_array: true,
    drop_output_field: true,
};

const AS_COMMAND_NO_OUTPUT: Format = Format {
    command_as_array: false,
    drop_output_field: true,
};

fn no_filter() -> Content {
    Content {
        include_only_existing_source: false,
        paths_to_include: vec![],
        paths_to_exclude: vec![],
    }
}

/// Splits a command line as the C runtime of Windows does: arguments are
/// parted by blanks outside quotes; backslashes count only before a quote.
fn split_command_line(line: &str) -> Option<Vec<String>> {
    let chars: Vec<char> = line.chars().collect();
    let mut arguments = vec![];
    let mut i = 0;
    while i < chars.len() {
        while i < chars.len() && (chars[i] == ' ' || chars[i] == '\t') {
            i += 1;
        }
        if i >= chars.len() {
            break;
        }
        let mut argument = String::new();
        let mut quoted = false;
        while i < chars.len() && (quoted || (chars[i] != ' ' && chars[i] != '\t')) {
            let mut backslashes = 0;
            while i < chars.len() && chars[i] == '\\' {
                backslashes += 1;
                i += 1;
            }
            if i < chars.len() && chars[i] == '"' {
                for _ in 0..backslashes / 2 {
                    argument.push('\\');
                }
                if backslashes % 2 == 1 {
                    argument.push('"');
                } else {
                    quoted = !quoted;
                }
                i += 1;
            } else {
                for _ in 0..backslashes {
                    argument.push('\\');
                }
                if i < chars.len() && (quoted || (chars[i] != ' ' && chars[i] != '\t')) {
                    argument.push(chars[i]);
                    i += 1;
                }
            }
        }
        arguments.push(argument);
    }
    Some(arguments)
}

/// Splits as `split_command_line` does.
struct Runtime;

impl Splitter for Runtime {
    fn split(&self, command_line: &str) -> Option<Vec<String>> {
        split_command_line(command_line)
    }
}

/// Splits nothing.
struct Failing;

impl Splitter for Failing {
    fn split(&self, _command_line: &str) -> Option<Vec<String>> {
        None
    }
}

fn read_back(sut: &CompilationDatabase, text: &str) -> Result<Vec<Entry>, DatabaseError> {
    let records = sut.read(text)?;
    let splits: Vec<Option<Vec<String>>> = records
        .iter()
        .map(|record| match &record.arguments {
            SerializableArguments::Command(command) => split_command_line(command),
            SerializableArguments::Arguments(_) => None,
        })
        .collect();
    sut.entries(&records, &splits)
}

fn value_serialized_and_read_back(input: &[Entry], expected: &[Entry], format: &Format) {
    let sut = CompilationDatabase::new(*format, no_filter());

    let serialized = sut.to_json(&input.to_vec(), &vec![]).unwrap();

    let deserialized = sut.from_json(&Runtime, &serialized).unwrap();

    assert_eq!(expected, deserialized);
    assert_eq!(Ok(deserialized), read_back(&sut, &serialized));
}

fn entry(file: &str, output: Option<&str>, arguments: &[&str]) -> Entry {
    Entry {
        file: file.into(),
        directory: "/path/to".into(),
        output: output.map(String::from),
        arguments: arguments.iter().copied().map(String::from).collect(),
    }
}

#[test]
fn empty_value_serialized_and_read_back() {
    value_serialized_and_read_back(&[], &[], &AS_ARGUMENTS);
    value_serialized_and_read_back(&[], &[], &AS_COMMAND);
}

#[test]
fn same_entries_read_back() {
    let expected = vec![
        entry("entry_one.c", None, &["cc", "-c", "entry_one.c"]),
        entry("entry_two.c", None, &["cc", "-c", "entry_two.c"]),
        entry(
            "entries.c",
            Some("entries.o"),
            &["cc", "-c", "-o", "entries.o", "entries.c"],
        ),
    ];

    value_serialized_and_read_back(&expected, &expected, &AS_ARGUMENTS);
    value_serialized_and_read_back(&expected, &expected, &AS_COMMAND);
}

#[test]
fn entries_without_output_read_back() {
    let input = vec![
        entry("entry_one.c", None, &["cc", "-c", "entry_one.c"]),
        entry("entry_two.c", None, &["cc", "-c", "entry_two.c"]),
        entry(
            "entries.c",
            Some("entries.o"),
            &["cc", "-c", "-o", "entries.o", "entries.c"],
        ),
    ];

    let expected = vec![
        entry("entry_one.c", None, &["cc", "-c", "entry_one.c"]),
        entry("entry_two.c", None, &["cc", "-c", "entry_two.c"]),
        entry(
            "entries.c",
            None,
            &["cc", "-c", "-o", "entries.o", "entries.c"],
        ),
    ];

    value_serialized_and_read_back(&input, &expected, &AS_ARGUMENTS_NO_OUTPUT);
    value_serialized_and_read_back(&input, &expected, &AS_COMMAND_NO_OUTPUT);
}

#[test]
fn merged_entries_read_back() {
    let input = vec![
        entry("entry_one.c", None, &["cc", "-c", "entry_one.c"]),
        entry("entry_two.c", None, &["cc", "-c", "entry_two.c"]),
        entry("entry_one.c", None, &["cc1", "-c", "entry_one.c"]),
        entry("entry_two.c", None, &["cc1", "-c", "entry_two.c"]),
    ];

    let expected = vec![
        entry("entry_one.c", None, &["cc", "-c", "entry_one.c"]),
        entry("entry_two.c", None, &["cc", "-c", "entry_two.c"]),
    ];

    value_serialized_and_read_back(&input, &expected, &AS_ARGUMENTS);
    value_serialized_and_read_back(&input, &expected, &AS_COMMAND);
    value_serialized_and_read_back(&input, &expected, &AS_ARGUMENTS_NO_OUTPUT);
    value_serialized_and_read_back(&input, &expected, &AS_COMMAND_NO_OUTPUT);
}

#[test]
fn deserialize_fails_with_empty_stream() {
    let sut = CompilationDatabase::new(AS_COMMAND, no_filter());

    assert!(sut.from_json(&Runtime, "").is_err());
    assert_eq!(Err(DatabaseError::Syntax), read_back(&sut, ""));
}

#[test]
fn deserialize_fails_with_missing_fields() {
    let sut = CompilationDatabase::new(AS_COMMAND, no_filter());

    assert!(sut.from_json(&Runtime, "[ { } ]").is_err());
    assert_eq!(Err(DatabaseError::Shape), read_back(&sut, "[ { } ]"));
}

#[test]
fn deserialize_fails_with_empty_fields() {
    let sut = CompilationDatabase::new(AS_COMMAND, no_filter());

    let json = r#"[ { "file": "file.c", "directory": "", "command": "cc -c file.c" } ]"#;

    assert!(sut.from_json(&Runtime, json).is_err());
    assert_eq!(Err(DatabaseError::EmptyDirectory), sut.from_json(&Runtime, json));
    assert_eq!(Err(DatabaseError::EmptyDirectory), read_back(&sut, json));
}

#[test]
fn each_empty_field_has_its_error() {
    let sut = CompilationDatabase::new(AS_ARGUMENTS, no_filter());

    let no_file = r#"[ { "file": "", "directory": "/d", "arguments": ["cc"] } ]"#;
    assert_eq!(Err(DatabaseError::EmptyFile), sut.from_json(&Runtime, no_file));

    let no_output =
        r#"[ { "file": "a.c", "directory": "/d", "output": "", "arguments": ["cc"] } ]"#;
    assert_eq!(Err(DatabaseError::EmptyOutput), sut.from_json(&Runtime, no_output));

    let no_arguments = r#"[ { "file": "a.c", "directory": "/d", "arguments": [] } ]"#;
    assert_eq!(Err(DatabaseError::EmptyArguments), sut.from_json(&Runtime, no_arguments));

    let both = r#"[ { "file": "a.c", "directory": "/d", "arguments": ["cc"], "command": "cc" } ]"#;
    assert_eq!(Err(DatabaseError::Shape), sut.from_json(&Runtime, both));

    let command = r#"[ { "file": "a.c", "directory": "/d", "command": "cc a.c" } ]"#;
    assert_eq!(Err(DatabaseError::Command), sut.from_json(&Failing, command));
    assert_eq!(
        Ok(vec![Entry {
            file: "a.c".into(),
            directory: "/d".into(),
            output: None,
            arguments: vec!["cc".into(), "a.c".into()],
        }]),
        sut.from_json(&Runtime, command)
    );

    let not_a_list = r#"{ "file": "a.c" }"#;
    assert_eq!(Err(DatabaseError::Shape), sut.from_json(&Runtime, not_a_list));
}

#[test]
fn reads_what_another_tool_wrote() {
    let sut = CompilationDatabase::new(AS_ARGUMENTS, no_filter());

    let json = r#"[ { "directory": "/d", "extra": 1, "file": "a.c", "output": null,
                      "arguments": ["cc", "-c", "a.c"] } ]"#;

    let expected = vec![Entry {
        file: "a.c".into(),
        directory: "/d".into(),
        output: None,
        arguments: vec!["cc".into(), "-c".into(), "a.c".into()],
    }];
    assert_eq!(Ok(expected), sut.from_json(&Failing, json));
}

#[test]
fn written_text_is_a_json_array_of_objects() {
    let sut = CompilationDatabase::new(AS_COMMAND, no_filter());
    let input = vec![entry(
        "a b.c",
        Some("a.o"),
        &["cc", "-c", "-o", "a.o", "a b.c"],
    )];

    let text = sut.to_json(&input, &vec![]).unwrap();

    let value: serde_json::Value = serde_json::from_str(&text).unwrap();
    let object = value.as_array().unwrap()[0].as_object().unwrap();
    assert_eq!("a b.c", object["file"].as_str().unwrap());
    assert_eq!("/path/to", object["directory"].as_str().unwrap());
    assert_eq!("a.o", object["output"].as_str().unwrap());
    assert_eq!(
        "cc -c -o a.o \"a b.c\"",
        object["command"].as_str().unwrap()
    );
    assert!(object.get("arguments").is_none());
    assert!(text.contains('\n'));
}

#[test]
fn duplicate_filter_is_idempotent_on_a_doubled_stream() {
    let sut = CompilationDatabase::new(AS_ARGUMENTS, no_filter());
    let stream = vec![
        entry("one.c", None, &["cc", "-c", "one.c"]),
        entry("two.c", None, &["cc", "-c", "two.c"]),
        entry("one.c", None, &["cc1", "-c", "one.c"]),
        entry("one.c", None, &["cc", "-O2", "-c", "one.c"]),
    ];
    let mut doubled = stream.clone();
    doubled.extend(stream.clone());

    let once = sut.records(&stream, &vec![]);
    let twice = sut.records(&doubled, &vec![]);

    assert_eq!(once, twice);
    assert_eq!(3, once.len());
}

#[test]
fn content_filter_keeps_existing_files_in_the_included_paths() {
    let content = Content {
        include_only_existing_source: true,
        paths_to_include: vec!["/src".into()],
        paths_to_exclude: vec!["/src/gen".into()],
    };
    let sut = CompilationDatabase::new(AS_ARGUMENTS, content);
    let entries = vec![
        entry("/src/a.c", None, &["cc", "-c", "/src/a.c"]),
        entry("/src/b.c", None, &["cc", "-c", "/src/b.c"]),
        entry("/src/gen/c.c", None, &["cc", "-c", "/src/gen/c.c"]),
        entry("/other/d.c", None, &["cc", "-c", "/other/d.c"]),
        entry("/src/e.c", None, &["cc", "-c", "/src/e.c"]),
    ];
    // The second file is missing; the last has no answer and counts as missing.
    let present = vec![true, false, true, true];

    let kept = sut.records(&entries, &present);

    assert_eq!(1, kept.len());
    assert_eq!("/src/a.c", kept[0].file);
}
