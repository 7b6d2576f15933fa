//! Finding a program by its name.
//!
//! Whether a file exists is for the file system to say. This module holds
//! what is decided around that question: which places are asked, and in
//! which order.

use crate::paths;
use crate::text;
use crate::Environment;
use vstd::prelude::*;
use vstd::string::*;

verus! {

/// Answers where a program is. An answer is the absolute path of a file that
/// exists; nothing is said here of the file system behind it, so nothing is
/// promised of the answers.
pub trait Resolver {
    /// The file itself, if it exists.
    fn from_current_directory(&self, file: &str) -> Option<String>;

    /// The file in one of the directories that `PATH` names in the
    /// environment.
    fn from_path(&self, file: &str, environment: &Environment) -> Option<String>;

    /// The file in one of the directories of a search path.
    fn from_search_path(&self, file: &str, search_path: &str) -> Option<String>;
}

/// The places where `file` may be, for a list of directories: the file in
/// each directory of the list in order, the empty entries left out.
pub open spec fn candidates_in(file: Seq<char>, directories: Seq<Seq<char>>) -> Seq<Seq<char>>
    decreases directories.len(),
{
    if directories.len() == 0 {
        Seq::empty()
    } else if directories.last().len() == 0 {
        candidates_in(file, directories.drop_last())
    } else {
        candidates_in(file, directories.drop_last()).push(paths::join(directories.last(), file))
    }
}

/// The places where `file` may be, for a search path.
pub open spec fn candidates_of(file: Seq<char>, search_path: Seq<char>) -> Seq<Seq<char>> {
    candidates_in(file, text::split_on(search_path, paths::LIST_SEPARATOR))
}

/// The places to ask for `file`, in the order of the search path.
pub fn search_candidates(file: &str, search_path: &str) -> (result: Vec<String>)
    ensures
        result.deep_view() == candidates_of(file@, search_path@),
{
    let directories = text::split(search_path, paths::LIST_SEPARATOR);
    let mut result: Vec<String> = Vec::new();
    let mut i: usize = 0;
    proof {
        assert(directories.deep_view().take(0) =~= Seq::<Seq<char>>::empty());
        assert(result.deep_view() =~= Seq::<Seq<char>>::empty());
    }
    while i < directories.len()
        invariant
            i <= directories.len(),
            result.deep_view() == candidates_in(file@, directories.deep_view().take(i as int)),
        decreases directories.len() - i,
    {
        let ghost taken = directories.deep_view().take(i + 1);
        proof {
            assert(taken.drop_last() =~= directories.deep_view().take(i as int));
            assert(taken.last() == directories[i as int]@);
        }
        if directories[i].as_str().unicode_len() != 0 {
            let ghost before = result.deep_view();
            let candidate = paths::join_path(directories[i].as_str(), file);
            result.push(candidate);
            assert(result.deep_view() =~= before.push(candidate@));
        }
        i += 1;
    }
    assert(directories.deep_view().take(directories.len() as int) =~= directories.deep_view());
    result
}

/// The first of the answers that names a place.
pub open spec fn first_answer(answers: Seq<Option<Seq<char>>>) -> Option<Seq<char>>
    decreases answers.len(),
{
    if answers.len() == 0 {
        None
    } else if answers[0] is Some {
        answers[0]
    } else {
        first_answer(answers.drop_first())
    }
}

/// The answers of a file system for a list of places. The file system is
/// given by what it holds: for each place that exists, its absolute path.
pub open spec fn answers_in(
    file_system: Map<Seq<char>, Seq<char>>,
    candidates: Seq<Seq<char>>,
) -> Seq<Option<Seq<char>>> {
    Seq::new(
        candidates.len(),
        |i: int|
            if file_system.contains_key(candidates[i]) {
                Some(file_system[candidates[i]])
            } else {
                None
            },
    )
}

/// What a search for `file` along a search path finds in a file system: the
/// first place of the path that exists.
pub open spec fn found_in(
    file_system: Map<Seq<char>, Seq<char>>,
    file: Seq<char>,
    search_path: Seq<char>,
) -> Option<Seq<char>> {
    first_answer(answers_in(file_system, candidates_of(file, search_path)))
}

/// The place that was found, for the answers that were given for the places
/// of a search path in order: the first answer that names one.
pub fn first_found(answers: &Vec<Option<String>>) -> (result: Option<String>)
    ensures
        result.deep_view() == first_answer(answers.deep_view()),
{
    let mut i: usize = 0;
    assert(answers.deep_view().skip(0) =~= answers.deep_view());
    while i < answers.len()
        invariant
            i <= answers.len(),
            first_answer(answers.deep_view()) == first_answer(answers.deep_view().skip(i as int)),
        decreases answers.len() - i,
    {
        let ghost rest = answers.deep_view().skip(i as int);
        proof {
            assert(rest[0] == answers[i as int].deep_view());
            assert(rest.drop_first() =~= answers.deep_view().skip(i + 1));
        }
        if let Some(place) = &answers[i] {
            return Some(place.clone());
        }
        i += 1;
    }
    None
}

/// Asks the resolver for each place of the search path in order, and gives
/// its first answer that names a place. Where the search path names no
/// directory, nothing is asked and nothing is found.
pub fn resolve_in_search_path<R: Resolver>(resolver: &R, file: &str, search_path: &str) -> (result:
    Option<String>)
    ensures
        exists|answers: Seq<Option<Seq<char>>>|
            answers.len() == candidates_of(file@, search_path@).len() && result.deep_view()
                == #[trigger] first_answer(answers),
        candidates_of(file@, search_path@).len() == 0 ==> result is None,
{
    let candidates = search_candidates(file, search_path);
    let mut answers: Vec<Option<String>> = Vec::new();
    let mut i: usize = 0;
    while i < candidates.len()
        invariant
            i <= candidates.len(),
            answers.len() == i,
        decreases candidates.len() - i,
    {
        answers.push(resolver.from_current_directory(candidates[i].as_str()));
        i += 1;
    }
    let result = first_found(&answers);
    proof {
        assert(answers.deep_view().len() == candidates.deep_view().len());
        assert(result.deep_view() == first_answer(answers.deep_view()));
    }
    result
}

/// Asks the resolver along the `PATH` of the environment. Without a `PATH`
/// nothing is asked and nothing is found.
pub fn resolve_in_path<R: Resolver>(resolver: &R, file: &str, environment: &Environment) -> (result:
    Option<String>)
    ensures
        !environment@.contains_key("PATH"@) ==> result is None,
{
    match environment.get("PATH") {
        Some(search_path) => resolver.from_search_path(file, search_path.as_str()),
        None => None,
    }
}

} // verus!
