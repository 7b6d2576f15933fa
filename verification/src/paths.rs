//! Paths as the tool reads them: strings whose components are parted by a
//! slash or a backslash, with an optional drive in front.

use crate::text;
use vstd::prelude::*;
use vstd::string::*;

verus! {

/// The separator that is written between a directory and a name.
pub const SEPARATOR: char = '\\';

/// The character that parts the entries of a search path.
pub const LIST_SEPARATOR: char = ';';

/// Whether `c` parts two components of a path.
pub open spec fn is_separator(c: char) -> bool {
    c == '/' || c == '\\'
}

/// Whether `c` is a letter that may name a drive.
pub open spec fn is_drive_letter(c: char) -> bool {
    ('a' as u32 <= c as u32 && c as u32 <= 'z' as u32) || ('A' as u32 <= c as u32 && c as u32
        <= 'Z' as u32)
}

/// The position of the last separator of `path`, or -1 where it has none.
pub open spec fn last_separator(path: Seq<char>) -> int
    decreases path.len(),
{
    if path.len() == 0 {
        -1
    } else if is_separator(path.last()) {
        path.len() - 1
    } else {
        last_separator(path.drop_last())
    }
}

/// The last component of a path: what follows its last separator.
pub open spec fn file_name(path: Seq<char>) -> Seq<char> {
    path.skip(last_separator(path) + 1)
}

/// The file name without its extension: what stands before the last dot of
/// the name. A name without a dot, or with its only dot in front, is its own
/// stem.
pub open spec fn file_stem(path: Seq<char>) -> Seq<char> {
    let name = file_name(path);
    let dot = text::last_index_of(name, '.');
    if dot > 0 {
        name.take(dot)
    } else {
        name
    }
}

/// Whether a path begins with a drive: a letter and a colon.
pub open spec fn has_drive(path: Seq<char>) -> bool {
    path.len() >= 2 && is_drive_letter(path[0]) && path[1] == ':'
}

/// Whether a path begins at a root: with a separator.
pub open spec fn is_rooted(path: Seq<char>) -> bool {
    path.len() >= 1 && is_separator(path[0])
}

/// Whether a path names its place by itself: it begins with a drive, a
/// colon and a separator, or with two separators, as the name of a share
/// does.
pub open spec fn is_absolute(path: Seq<char>) -> bool {
    ||| path.len() >= 3 && has_drive(path) && is_separator(path[2])
    ||| path.len() >= 2 && is_separator(path[0]) && is_separator(path[1])
}

/// The path `name` inside the directory `base`. A separator is put between
/// the two unless `base` is empty or ends with one.
pub open spec fn join(base: Seq<char>, name: Seq<char>) -> Seq<char> {
    if base.len() == 0 || is_separator(base.last()) {
        base + name
    } else {
        base.push(SEPARATOR) + name
    }
}

/// The place that `path` names for a process in the directory `base`. A
/// path that is absolute, or names a drive, stands as it is. A path from
/// the root is put on the drive of `base`, where `base` names one. Any other
/// path is taken inside `base`.
pub open spec fn absolute(base: Seq<char>, path: Seq<char>) -> Seq<char> {
    if is_absolute(path) || has_drive(path) {
        path
    } else if is_rooted(path) {
        if has_drive(base) {
            base.take(2) + path
        } else {
            path
        }
    } else {
        join(base, path)
    }
}

/// `last_separator` is the greatest position that holds a separator.
pub proof fn lemma_last_separator(path: Seq<char>)
    ensures
        -1 <= last_separator(path) < path.len(),
        forall|j: int| last_separator(path) < j < path.len() ==> !is_separator(path[j]),
        0 <= last_separator(path) ==> is_separator(path[last_separator(path)]),
    decreases path.len(),
{
    if path.len() > 0 && !is_separator(path.last()) {
        let rest = path.drop_last();
        lemma_last_separator(rest);
        assert forall|j: int| last_separator(path) < j < path.len() implies !is_separator(
            path[j],
        ) by {
            if j < path.len() - 1 {
                assert(path[j] == rest[j]);
            }
        }
        let l = last_separator(rest);
        assert(0 <= l ==> path[l] == rest[l]);
    }
}

/// A position that holds a separator and has none after it is the last one.
pub proof fn lemma_last_separator_is(path: Seq<char>, k: int)
    requires
        -1 <= k < path.len(),
        forall|j: int| k < j < path.len() ==> !is_separator(path[j]),
        0 <= k ==> is_separator(path[k]),
    ensures
        last_separator(path) == k,
{
    lemma_last_separator(path);
    let f = last_separator(path);
    if f < k {
        assert(is_separator(path[k]));
    } else if k < f {
        assert(is_separator(path[f]));
    }
}

/// An absolute path is not empty, and neither is a path inside a directory
/// that has a name.
pub proof fn lemma_absolute_not_empty(base: Seq<char>, path: Seq<char>)
    requires
        base.len() > 0 || path.len() > 0,
    ensures
        absolute(base, path).len() > 0,
{
}

/// In a directory that is named with its drive, every path names an
/// absolute place, but for a path that names a drive and no root.
pub proof fn lemma_absolute_is_absolute(base: Seq<char>, path: Seq<char>)
    requires
        base.len() >= 3 && has_drive(base) && is_separator(base[2]),
        has_drive(path) ==> is_absolute(path),
    ensures
        is_absolute(absolute(base, path)),
{
    let place = absolute(base, path);
    if is_absolute(path) {
    } else if is_rooted(path) {
        assert(place[0] == base[0] && place[1] == base[1] && place[2] == path[0]);
    } else {
        assert(place[0] == base[0] && place[1] == base[1] && place[2] == base[2]);
    }
}

fn separates(c: char) -> (result: bool)
    ensures
        result == is_separator(c),
{
    c == '/' || c == '\\'
}

fn names_drive(c: char) -> (result: bool)
    ensures
        result == is_drive_letter(c),
{
    let code = c as u32;
    ('a' as u32 <= code && code <= 'z' as u32) || ('A' as u32 <= code && code <= 'Z' as u32)
}

/// The last component of `path`.
pub fn name_of(path: &str) -> (result: &str)
    ensures
        result@ == file_name(path@),
{
    let text = text::chars_of(path);
    let mut i: usize = text.len();
    while i > 0
        invariant
            text@ == path@,
            i <= text.len(),
            forall|j: int| i <= j < text.len() ==> !is_separator(text@[j]),
        decreases i,
    {
        if separates(text[i - 1]) {
            proof {
                lemma_last_separator_is(path@, i - 1);
            }
            return path.substring_char(i, text.len());
        }
        i -= 1;
    }
    proof {
        lemma_last_separator_is(path@, -1);
        assert(path@.skip(0) =~= path@);
    }
    path
}

/// The last component of `path` without its extension.
pub fn stem_of(path: &str) -> (result: &str)
    ensures
        result@ == file_stem(path@),
{
    let name = name_of(path);
    match text::find_last(name, '.') {
        Some(dot) => {
            if dot > 0 {
                proof {
                    text::lemma_last_index_of(name@, '.');
                }
                name.substring_char(0, dot)
            } else {
                name
            }
        },
        None => name,
    }
}

/// Whether `path` begins with a drive.
pub fn names_a_drive(path: &str) -> (result: bool)
    ensures
        result == has_drive(path@),
{
    let text = text::chars_of(path);
    text.len() >= 2 && names_drive(text[0]) && text[1] == ':'
}

/// Whether `path` is absolute.
pub fn absolute_path(path: &str) -> (result: bool)
    ensures
        result == is_absolute(path@),
{
    let text = text::chars_of(path);
    if text.len() >= 2 && separates(text[0]) && separates(text[1]) {
        return true;
    }
    text.len() >= 3 && names_drive(text[0]) && text[1] == ':' && separates(text[2])
}

/// Whether `path` begins at a root.
pub fn rooted_path(path: &str) -> (result: bool)
    ensures
        result == is_rooted(path@),
{
    let text = text::chars_of(path);
    text.len() >= 1 && separates(text[0])
}

/// The path `name` inside the directory `base`.
pub fn join_path(base: &str, name: &str) -> (result: String)
    ensures
        result@ == join(base@, name@),
{
    let text = text::chars_of(base);
    let mut result = base.to_owned();
    if text.len() != 0 && !separates(text[text.len() - 1]) {
        proof {
            reveal_strlit("\\");
            assert(base@ + "\\"@ =~= base@.push(SEPARATOR));
        }
        result.append("\\");
    }
    result.append(name);
    result
}

/// The place that `path` names for a process in the directory `base`.
pub fn make_absolute(base: &str, path: &str) -> (result: String)
    ensures
        result@ == absolute(base@, path@),
{
    if absolute_path(path) || names_a_drive(path) {
        path.to_owned()
    } else if rooted_path(path) {
        if names_a_drive(base) {
            let mut result = base.substring_char(0, 2).to_owned();
            result.append(path);
            assert(base@.subrange(0, 2) =~= base@.take(2));
            result
        } else {
            path.to_owned()
        }
    } else {
        join_path(base, path)
    }
}

} // verus!
