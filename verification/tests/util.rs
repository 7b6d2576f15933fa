use winbear::paths;
use winbear::resolver;
use winbear::text;
use winbear::util::{append_copies, hresult_from_nt, nt_success, quote_argument};
use winbear::output::{path_components, path_lies_in};

fn strings(items: &[&str]) -> Vec<String> {
    items.iter().copied().map(String::from).collect()
}

#[test]
fn plain_arguments_are_not_quoted() {
    assert_eq!("cc", quote_argument("cc", false));
    assert_eq!("C:\\dir\\file.c", quote_argument("C:\\dir\\file.c", false));
    assert_eq!("-DX=1", quote_argument("-DX=1", false));
    assert_eq!("back\\\\", quote_argument("back\\\\", false));
}

#[test]
fn arguments_are_quoted_where_they_need_it() {
    assert_eq!("\"\"", quote_argument("", false));
    assert_eq!("\"a b\"", quote_argument("a b", false));
    assert_eq!("\"a\tb\"", quote_argument("a\tb", false));
    assert_eq!("\"a\u{a0}b\"", quote_argument("a\u{a0}b", false));
    assert_eq!("\"say \\\"hi\\\"\"", quote_argument("say \"hi\"", false));
    // Backslashes before a quotation mark are doubled, and the mark escaped.
    assert_eq!("\"a\\\\\\\"b\"", quote_argument("a\\\"b", false));
    assert_eq!("\"a\\\\\\\\\\\"b\"", quote_argument("a\\\\\"b", false));
    // Backslashes at the end are doubled; others stand as they are.
    assert_eq!("\"C:\\my dir\\\\\"", quote_argument("C:\\my dir\\", false));
    assert_eq!("\"a\\b c\"", quote_argument("a\\b c", false));
}

#[test]
fn quoting_can_be_forced() {
    assert_eq!("\"cc\"", quote_argument("cc", true));
    assert_eq!("\"dir\\\\\"", quote_argument("dir\\", true));
    assert_eq!("\"\"", quote_argument("", true));
}

#[test]
fn append_copies_writes_at_the_end() {
    let mut vector = vec![1u8, 2];
    append_copies(&mut vector, 7, 3);
    assert_eq!(vec![1, 2, 7, 7, 7], vector);
    append_copies(&mut vector, 9, 0);
    assert_eq!(5, vector.len());
}

#[test]
fn a_negative_status_is_a_failure() {
    assert!(nt_success(0));
    assert!(nt_success(i32::MAX));
    assert!(!nt_success(-1));
    assert_eq!(0x1000_0000, hresult_from_nt(0));
    assert_eq!(0xD000_0022, hresult_from_nt(0xC000_0022u32 as i32));
    assert_eq!(0xFFFF_FFFF, hresult_from_nt(-1));
}

#[test]
fn strings_are_split_and_searched() {
    assert_eq!(strings(&["a", "", "b"]), text::split("a;;b", ';'));
    assert_eq!(strings(&[""]), text::split("", ';'));
    assert_eq!(strings(&["", ""]), text::split(";", ';'));
    assert_eq!(strings(&["é", "ü"]), text::split("é;ü", ';'));
    assert_eq!(Some(3), text::find_last("a.b.c", '.'));
    assert_eq!(None, text::find_last("abc", '.'));
    assert!(text::starts_with("-Ifoo", "-I"));
    assert!(text::starts_with("-I", "-I"));
    assert!(!text::starts_with("-", "-I"));
    assert!(text::starts_with("x", ""));
    assert!(text::same("é", "é") && !text::same("a", "A"));
    assert_eq!(vec!['a', 'é'], text::chars_of("aé"));
}

#[test]
fn paths_have_names_and_stems() {
    assert_eq!("cc.exe", paths::name_of("C:\\bin\\cc.exe"));
    assert_eq!("cc", paths::name_of("/usr/bin/cc"));
    assert_eq!("", paths::name_of("dir/"));
    assert_eq!("cc", paths::stem_of("C:\\bin/cc.exe"));
    assert_eq!("gcc-12.2", paths::stem_of("gcc-12.2.exe"));
    assert_eq!(".profile", paths::stem_of("/home/.profile"));
    assert_eq!("cc", paths::stem_of("cc"));
    assert_eq!("", paths::stem_of(""));
}

#[test]
fn paths_are_made_absolute() {
    assert!(paths::absolute_path("C:\\x"));
    assert!(paths::absolute_path("c:/x"));
    assert!(!paths::absolute_path("/x"));
    assert!(!paths::absolute_path("\\x"));
    assert!(paths::rooted_path("/x"));
    assert!(paths::rooted_path("\\x"));
    assert!(!paths::rooted_path("x\\y"));
    assert!(paths::names_a_drive("C:x"));
    assert!(!paths::names_a_drive("\\x"));
    assert!(paths::absolute_path("\\\\server\\share"));
    assert!(!paths::absolute_path("C:x"));
    assert!(!paths::absolute_path("x\\y"));
    assert!(!paths::absolute_path(""));
    assert!(!paths::absolute_path("1:\\x"));

    assert_eq!("C:\\proj\\a.c", paths::join_path("C:\\proj", "a.c"));
    assert_eq!("C:\\proj\\a.c", paths::join_path("C:\\proj\\", "a.c"));
    assert_eq!("dir/a.c", paths::join_path("dir/", "a.c"));
    assert_eq!("a.c", paths::join_path("", "a.c"));
    assert_eq!("C:\\proj\\sub\\a.c", paths::make_absolute("C:\\proj", "sub\\a.c"));
    assert_eq!("D:\\a.c", paths::make_absolute("C:\\proj", "D:\\a.c"));
    assert_eq!("C:\\src\\a.c", paths::make_absolute("C:\\proj", "\\src\\a.c"));
    assert_eq!("C:/src/a.c", paths::make_absolute("C:\\proj", "/src/a.c"));
    assert_eq!("/src/a.c", paths::make_absolute("/home/user", "/src/a.c"));
    assert_eq!(
        "\\\\server\\share\\a.c",
        paths::make_absolute("C:\\proj", "\\\\server\\share\\a.c")
    );
    assert_eq!("D:a.c", paths::make_absolute("C:\\proj", "D:a.c"));
}

#[test]
fn paths_are_compared_by_their_components() {
    assert_eq!(strings(&["", "usr", "lib"]), path_components("/usr//lib/"));
    assert_eq!(strings(&["C:", "a", "b.c"]), path_components("C:\\a/b.c"));
    assert_eq!(strings(&[""]), path_components(""));
    assert_eq!(strings(&[""]), path_components("/"));
    assert!(path_lies_in("/src", "/src/a/b.c"));
    assert!(path_lies_in("C:\\src\\", "C:/src/a.c"));
    assert!(!path_lies_in("/src", "/srcs/a.c"));
    assert!(!path_lies_in("src", "/src/a.c"));
    // A file whose path ends before the directory's does lies in it.
    assert!(path_lies_in("/src/a/b", "/src/a"));
}

#[test]
fn candidates_follow_the_search_path() {
    assert_eq!(
        strings(&["C:\\a\\cc", "D:\\b\\cc", "rel\\cc"]),
        resolver::search_candidates("cc", "C:\\a;;D:\\b\\;rel")
    );
    assert!(resolver::search_candidates("cc", "").is_empty());
    assert!(resolver::search_candidates("cc", ";;").is_empty());
}

/// Knows the places that end in `found`, and gives each back with a mark.
struct Marked {
    found: &'static [&'static str],
}

impl resolver::Resolver for Marked {
    fn from_current_directory(&self, file: &str) -> Option<String> {
        if self.found.contains(&file) {
            Some(format!("<{}>", file))
        } else {
            None
        }
    }

    fn from_path(&self, file: &str, environment: &winbear::Environment) -> Option<String> {
        resolver::resolve_in_path(self, file, environment)
    }

    fn from_search_path(&self, file: &str, search_path: &str) -> Option<String> {
        resolver::resolve_in_search_path(self, file, search_path)
    }
}

#[test]
fn the_first_answer_is_the_place_that_is_found() {
    assert_eq!(None, resolver::first_found(&vec![]));
    assert_eq!(None, resolver::first_found(&vec![None, None]));
    assert_eq!(
        Some("b".to_string()),
        resolver::first_found(&vec![None, Some("b".into()), Some("c".into())])
    );
    assert_eq!(
        Some("a".to_string()),
        resolver::first_found(&vec![Some("a".into()), None])
    );
}

#[test]
fn the_search_path_is_asked_in_order() {
    let both = Marked {
        found: &["D:\\b\\cc", "C:\\a\\cc"],
    };
    assert_eq!(
        Some("<C:\\a\\cc>".to_string()),
        resolver::resolve_in_search_path(&both, "cc", "C:\\a;;D:\\b")
    );
    assert_eq!(
        Some("<D:\\b\\cc>".to_string()),
        resolver::resolve_in_search_path(&both, "cc", "X:\\x;D:\\b;C:\\a")
    );
    assert_eq!(None, resolver::resolve_in_search_path(&both, "cc", "X:\\x"));
    assert_eq!(None, resolver::resolve_in_search_path(&both, "cc", ""));
    assert_eq!(None, resolver::resolve_in_search_path(&both, "ld", "C:\\a;D:\\b"));
}

#[test]
fn without_a_path_nothing_is_found() {
    let known = Marked {
        found: &["C:\\a\\cc"],
    };
    let mut environment = winbear::Environment::new();
    assert_eq!(None, resolver::resolve_in_path(&known, "cc", &environment));

    environment.insert("PATH".into(), "C:\\a".into());
    assert_eq!(
        Some("<C:\\a\\cc>".to_string()),
        resolver::resolve_in_path(&known, "cc", &environment)
    );
}
