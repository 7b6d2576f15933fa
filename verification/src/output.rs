//! Writing and reading the compilation database.

use crate::configuration::{Content, Format};
use crate::json::{
    items_of, json_parsed, json_pretty, lemma_json_views, members_of, parse, render, Json, JsonView,
};
use crate::paths;
use crate::text;
use crate::util::{quote_argument, quote_of};
use crate::{Entry, EntryView};
use vstd::prelude::*;
use vstd::string::*;

verus! {

/// The components of a path: the pieces between its separators. The first
/// piece is kept also where it is empty, so that a path from the root is told
/// from one that is not; other empty pieces are left out.
pub open spec fn components_of(path: Seq<char>) -> Seq<Seq<char>>
    decreases path.len(),
{
    if path.len() == 0 {
        seq![Seq::empty()]
    } else {
        let before = components_of(path.drop_last());
        if paths::is_separator(path.last()) {
            if before.len() > 1 && before.last().len() == 0 {
                before
            } else {
                before.push(Seq::empty())
            }
        } else {
            before.drop_last().push(before.last().push(path.last()))
        }
    }
}

/// The components of a path, without an empty one at its end.
pub open spec fn components(path: Seq<char>) -> Seq<Seq<char>> {
    let all = components_of(path);
    if all.len() > 1 && all.last().len() == 0 {
        all.drop_last()
    } else {
        all
    }
}

/// Whether a file lies in a directory, as far as the two paths can tell: the
/// components of the two are the same as far as both go.
pub open spec fn lies_in(directory: Seq<char>, file: Seq<char>) -> bool {
    let left = components(directory);
    let right = components(file);
    forall|i: int| 0 <= i < left.len() && i < right.len() ==> left[i] == right[i]
}

/// Whether a file lies in one of the directories.
pub open spec fn lies_in_any(directories: Seq<Seq<char>>, file: Seq<char>) -> bool {
    exists|i: int| 0 <= i < directories.len() && lies_in(#[trigger] directories[i], file)
}

/// Whether the content filter keeps an entry whose file is, or is not,
/// present on disk.
pub open spec fn content_accepts(
    only_existing: bool,
    included: Seq<Seq<char>>,
    excluded: Seq<Seq<char>>,
    entry: EntryView,
    present: bool,
) -> bool {
    !only_existing || (present && (included.len() == 0 || lies_in_any(included, entry.file))
        && !lies_in_any(excluded, entry.file))
}

/// What tells two entries apart for the duplicate filter: the file and the
/// arguments after the compiler. Two calls that differ in the compiler's
/// name only are one.
pub open spec fn fingerprint_of(entry: EntryView) -> (Seq<char>, Seq<Seq<char>>) {
    (
        entry.file,
        if entry.arguments.len() == 0 {
            Seq::empty()
        } else {
            entry.arguments.skip(1)
        },
    )
}

/// Whether an entry with the fingerprint of `entry` is among `entries`.
pub open spec fn seen(entries: Seq<EntryView>, entry: EntryView) -> bool {
    exists|i: int|
        0 <= i < entries.len() && fingerprint_of(#[trigger] entries[i]) == fingerprint_of(entry)
}

/// The entries without those that repeat an earlier one.
pub open spec fn unique(entries: Seq<EntryView>) -> Seq<EntryView>
    decreases entries.len(),
{
    if entries.len() == 0 {
        Seq::empty()
    } else {
        let before = unique(entries.drop_last());
        if seen(before, entries.last()) {
            before
        } else {
            before.push(entries.last())
        }
    }
}

/// The entries that the content filter keeps. `present` says of each entry
/// whether its file is on disk; an entry that it does not reach counts as
/// absent.
pub open spec fn accepted(
    only_existing: bool,
    included: Seq<Seq<char>>,
    excluded: Seq<Seq<char>>,
    entries: Seq<EntryView>,
    present: Seq<bool>,
) -> Seq<EntryView>
    decreases entries.len(),
{
    if entries.len() == 0 {
        Seq::empty()
    } else {
        let before = accepted(only_existing, included, excluded, entries.drop_last(), present);
        let last = entries.len() - 1;
        if content_accepts(
            only_existing,
            included,
            excluded,
            entries.last(),
            last < present.len() && present[last],
        ) {
            before.push(entries.last())
        } else {
            before
        }
    }
}

/// The fingerprint of each entry is that of one of the unique entries.
pub proof fn lemma_unique_covers(entries: Seq<EntryView>)
    ensures
        forall|i: int| 0 <= i < entries.len() ==> seen(unique(entries), #[trigger] entries[i]),
    decreases entries.len(),
{
    if entries.len() > 0 {
        let before = unique(entries.drop_last());
        lemma_unique_covers(entries.drop_last());
        assert forall|i: int| 0 <= i < entries.len() implies seen(
            unique(entries),
            #[trigger] entries[i],
        ) by {
            if i < entries.len() - 1 {
                assert(entries[i] == entries.drop_last()[i]);
                let k = choose|k: int|
                    0 <= k < before.len() && fingerprint_of(#[trigger] before[k]) == fingerprint_of(
                        entries[i],
                    );
                assert(unique(entries)[k] == before[k]);
            } else if !seen(before, entries.last()) {
                assert(unique(entries)[before.len() as int] == entries.last());
            }
        }
    }
}

/// Entries that repeat what was already there add nothing.
pub proof fn lemma_unique_absorbs(entries: Seq<EntryView>, more: Seq<EntryView>)
    requires
        forall|i: int| 0 <= i < more.len() ==> seen(unique(entries), #[trigger] more[i]),
    ensures
        unique(entries + more) == unique(entries),
    decreases more.len(),
{
    if more.len() == 0 {
        assert(entries + more =~= entries);
    } else {
        assert forall|i: int| 0 <= i < more.drop_last().len() implies seen(
            unique(entries),
            #[trigger] more.drop_last()[i],
        ) by {
            assert(more.drop_last()[i] == more[i]);
        }
        lemma_unique_absorbs(entries, more.drop_last());
        assert((entries + more).drop_last() =~= entries + more.drop_last());
        assert((entries + more).last() == more[more.len() - 1]);
    }
}

/// The duplicate filter gives the same entries for a sequence and for the
/// sequence followed by itself.
pub proof fn lemma_unique_idempotent(entries: Seq<EntryView>)
    ensures
        unique(entries + entries) == unique(entries),
{
    lemma_unique_covers(entries);
    lemma_unique_absorbs(entries, entries);
}

/// No two of the unique entries have the same fingerprint.
pub proof fn lemma_unique_distinct(entries: Seq<EntryView>)
    ensures
        forall|i: int, j: int|
            0 <= i < j < unique(entries).len() ==> fingerprint_of(#[trigger] unique(entries)[i])
                != fingerprint_of(#[trigger] unique(entries)[j]),
    decreases entries.len(),
{
    if entries.len() > 0 {
        let before = unique(entries.drop_last());
        lemma_unique_distinct(entries.drop_last());
        assert forall|i: int, j: int| 0 <= i < j < unique(entries).len() implies fingerprint_of(
            #[trigger] unique(entries)[i],
        ) != fingerprint_of(#[trigger] unique(entries)[j]) by {
            assert(unique(entries)[i] == before[i]);
            if j < before.len() {
                assert(unique(entries)[j] == before[j]);
            }
        }
    }
}

/// Whether an entry is the first with its fingerprint, for the fingerprints
/// that were seen before it.
pub open spec fn is_new(before: Seq<(Seq<char>, Seq<Seq<char>>)>, entry: EntryView) -> bool {
    !before.contains(fingerprint_of(entry))
}

/// The fingerprints that were seen once an entry has passed.
pub open spec fn remembered(before: Seq<(Seq<char>, Seq<Seq<char>>)>, entry: EntryView) -> Seq<
    (Seq<char>, Seq<Seq<char>>),
> {
    if is_new(before, entry) {
        before.push(fingerprint_of(entry))
    } else {
        before
    }
}

/// The fingerprints that were seen once the entries have passed, one after
/// the other.
pub open spec fn seen_after(
    before: Seq<(Seq<char>, Seq<Seq<char>>)>,
    entries: Seq<EntryView>,
) -> Seq<(Seq<char>, Seq<Seq<char>>)>
    decreases entries.len(),
{
    if entries.len() == 0 {
        before
    } else {
        seen_after(remembered(before, entries[0]), entries.drop_first())
    }
}

/// What the duplicate filter answers for each of the entries, where they
/// pass one after the other.
pub open spec fn answers_of(
    before: Seq<(Seq<char>, Seq<Seq<char>>)>,
    entries: Seq<EntryView>,
) -> Seq<bool>
    decreases entries.len(),
{
    if entries.len() == 0 {
        Seq::empty()
    } else {
        seq![is_new(before, entries[0])] + answers_of(
            remembered(before, entries[0]),
            entries.drop_first(),
        )
    }
}

/// The entries that the duplicate filter keeps, where they pass one after
/// the other: those for which it answers that they are new.
pub open spec fn kept_of(
    before: Seq<(Seq<char>, Seq<Seq<char>>)>,
    entries: Seq<EntryView>,
) -> Seq<EntryView>
    decreases entries.len(),
{
    if entries.len() == 0 {
        Seq::empty()
    } else {
        (if is_new(before, entries[0]) {
            seq![entries[0]]
        } else {
            Seq::empty()
        }) + kept_of(remembered(before, entries[0]), entries.drop_first())
    }
}

/// A run over two lists is the run over the first, and then the run over
/// the second with what the first has left.
pub proof fn lemma_run_appends(
    before: Seq<(Seq<char>, Seq<Seq<char>>)>,
    first: Seq<EntryView>,
    second: Seq<EntryView>,
)
    ensures
        seen_after(before, first + second) == seen_after(seen_after(before, first), second),
        answers_of(before, first + second) == answers_of(before, first) + answers_of(
            seen_after(before, first),
            second,
        ),
        kept_of(before, first + second) == kept_of(before, first) + kept_of(
            seen_after(before, first),
            second,
        ),
    decreases first.len(),
{
    if first.len() == 0 {
        assert(first + second =~= second);
        assert(answers_of(before, first) + answers_of(before, second) =~= answers_of(
            before,
            second,
        ));
        assert(kept_of(before, first) + kept_of(before, second) =~= kept_of(before, second));
    } else {
        let next = remembered(before, first[0]);
        assert((first + second)[0] == first[0]);
        assert((first + second).drop_first() =~= first.drop_first() + second);
        lemma_run_appends(next, first.drop_first(), second);
        let middle = seen_after(before, first);
        assert(answers_of(before, first + second) =~= answers_of(before, first) + answers_of(
            middle,
            second,
        ));
        assert(kept_of(before, first + second) =~= kept_of(before, first) + kept_of(
            middle,
            second,
        ));
    }
}

/// After a run, every fingerprint that was seen before is still seen, and
/// so is that of every entry of the run.
pub proof fn lemma_run_remembers(before: Seq<(Seq<char>, Seq<Seq<char>>)>, entries: Seq<EntryView>)
    ensures
        forall|print: (Seq<char>, Seq<Seq<char>>)|
            before.contains(print) ==> #[trigger] seen_after(before, entries).contains(print),
        forall|i: int|
            0 <= i < entries.len() ==> seen_after(before, entries).contains(
                fingerprint_of(#[trigger] entries[i]),
            ),
    decreases entries.len(),
{
    if entries.len() > 0 {
        let next = remembered(before, entries[0]);
        let rest = entries.drop_first();
        let after = seen_after(before, entries);
        lemma_run_remembers(next, rest);
        assert(after == seen_after(next, rest));
        assert(next.contains(fingerprint_of(entries[0]))) by {
            if is_new(before, entries[0]) {
                assert(next[before.len() as int] == fingerprint_of(entries[0]));
            }
        }
        assert forall|print: (Seq<char>, Seq<Seq<char>>)| before.contains(print) implies after.contains(
            print,
        ) by {
            let k = choose|k: int| 0 <= k < before.len() && before[k] == print;
            assert(next[k] == print);
            assert(next.contains(print));
            assert(seen_after(next, rest).contains(print));
        }
        assert forall|i: int| 0 <= i < entries.len() implies after.contains(
            fingerprint_of(#[trigger] entries[i]),
        ) by {
            if i > 0 {
                assert(entries[i] == rest[i - 1]);
                assert(seen_after(next, rest).contains(fingerprint_of(rest[i - 1])));
            } else {
                assert(seen_after(next, rest).contains(fingerprint_of(entries[0])));
            }
        }
    }
}

/// Entries whose fingerprints were all seen before are all turned away, and
/// leave the filter as it was.
pub proof fn lemma_run_of_seen(before: Seq<(Seq<char>, Seq<Seq<char>>)>, entries: Seq<EntryView>)
    requires
        forall|i: int|
            0 <= i < entries.len() ==> before.contains(fingerprint_of(#[trigger] entries[i])),
    ensures
        seen_after(before, entries) == before,
        answers_of(before, entries) == Seq::new(entries.len(), |i: int| false),
        kept_of(before, entries) == Seq::<EntryView>::empty(),
    decreases entries.len(),
{
    if entries.len() == 0 {
        assert(answers_of(before, entries) =~= Seq::new(entries.len(), |i: int| false));
    } else {
        let rest = entries.drop_first();
        assert(before.contains(fingerprint_of(entries[0])));
        assert forall|i: int| 0 <= i < rest.len() implies before.contains(
            fingerprint_of(#[trigger] rest[i]),
        ) by {
            assert(rest[i] == entries[i + 1]);
        }
        lemma_run_of_seen(before, rest);
        assert(answers_of(before, entries) =~= Seq::new(entries.len(), |i: int| false));
        assert(kept_of(before, entries) =~= Seq::<EntryView>::empty());
    }
}

/// The fingerprints of the entries, in order.
pub open spec fn prints_of(entries: Seq<EntryView>) -> Seq<(Seq<char>, Seq<Seq<char>>)> {
    Seq::new(entries.len(), |i: int| fingerprint_of(entries[i]))
}

/// What a run adds to the fingerprints that were seen are those of the
/// entries that it keeps.
pub proof fn lemma_run_sees_what_it_keeps(
    before: Seq<(Seq<char>, Seq<Seq<char>>)>,
    entries: Seq<EntryView>,
)
    ensures
        seen_after(before, entries) == before + prints_of(kept_of(before, entries)),
    decreases entries.len(),
{
    if entries.len() == 0 {
        assert(before + prints_of(kept_of(before, entries)) =~= before);
    } else {
        let next = remembered(before, entries[0]);
        let rest = entries.drop_first();
        lemma_run_sees_what_it_keeps(next, rest);
        let more = kept_of(next, rest);
        if is_new(before, entries[0]) {
            assert(kept_of(before, entries) =~= seq![entries[0]] + more);
            assert(prints_of(seq![entries[0]] + more) =~= seq![fingerprint_of(entries[0])]
                + prints_of(more));
            assert(before + (seq![fingerprint_of(entries[0])] + prints_of(more)) =~= next
                + prints_of(more));
        } else {
            assert(kept_of(before, entries) =~= more);
        }
    }
}

/// What a fresh duplicate filter keeps of a list, entry by entry, are the
/// unique entries of the list.
pub proof fn lemma_run_keeps_unique(entries: Seq<EntryView>)
    ensures
        kept_of(Seq::empty(), entries) == unique(entries),
    decreases entries.len(),
{
    let fresh = Seq::<(Seq<char>, Seq<Seq<char>>)>::empty();
    if entries.len() > 0 {
        let front = entries.drop_last();
        let last = entries.last();
        let before = seen_after(fresh, front);
        lemma_run_keeps_unique(front);
        lemma_run_appends(fresh, front, seq![last]);
        lemma_run_sees_what_it_keeps(fresh, front);
        assert(front + seq![last] =~= entries);
        assert(before =~= prints_of(unique(front)));
        assert(seq![last].drop_first() =~= Seq::<EntryView>::empty());
        assert(seq![last][0] == last);
        assert(kept_of(remembered(before, last), Seq::<EntryView>::empty()) =~= Seq::<
            EntryView,
        >::empty());
        if seen(unique(front), last) {
            let k = choose|k: int|
                0 <= k < unique(front).len() && fingerprint_of(#[trigger] unique(front)[k])
                    == fingerprint_of(last);
            assert(before[k] == fingerprint_of(last));
            assert(!is_new(before, last));
            assert(kept_of(before, seq![last]) =~= Seq::<EntryView>::empty());
            assert(unique(front) + Seq::<EntryView>::empty() =~= unique(front));
        } else {
            if before.contains(fingerprint_of(last)) {
                let k = choose|k: int| 0 <= k < before.len() && before[k] == fingerprint_of(last);
                assert(fingerprint_of(unique(front)[k]) == fingerprint_of(last));
                assert(false);
            }
            assert(is_new(before, last));
            assert(kept_of(before, seq![last]) =~= seq![last]);
            assert(unique(front) + seq![last] =~= unique(front).push(last));
        }
    }
}

/// A fresh duplicate filter that is fed a list and then the same list again
/// turns every entry of the second pass away, and keeps what it keeps of
/// the list alone.
pub proof fn lemma_second_pass_adds_nothing(entries: Seq<EntryView>)
    ensures
        answers_of(Seq::empty(), entries + entries) == answers_of(Seq::empty(), entries)
            + Seq::new(entries.len(), |i: int| false),
        kept_of(Seq::empty(), entries + entries) == kept_of(Seq::empty(), entries),
        seen_after(Seq::empty(), entries + entries) == seen_after(Seq::empty(), entries),
        kept_of(Seq::empty(), entries) == unique(entries),
{
    let fresh = Seq::<(Seq<char>, Seq<Seq<char>>)>::empty();
    lemma_run_keeps_unique(entries);
    lemma_run_appends(fresh, entries, entries);
    lemma_run_remembers(fresh, entries);
    lemma_run_of_seen(seen_after(fresh, entries), entries);
    assert(kept_of(fresh, entries) + Seq::<EntryView>::empty() =~= kept_of(fresh, entries));
}

/// The characters that each of the pieces holds.
pub open spec fn views(pieces: Seq<Vec<char>>) -> Seq<Seq<char>> {
    Seq::new(pieces.len(), |i: int| pieces[i]@)
}

/// The components of a path.
pub fn path_components(path: &str) -> (result: Vec<String>)
    ensures
        result.deep_view() == components(path@),
{
    let chars = text::chars_of(path);
    let mut pieces: Vec<Vec<char>> = Vec::new();
    pieces.push(Vec::new());
    let mut i: usize = 0;
    proof {
        assert(path@.take(0) =~= Seq::<char>::empty());
        assert(views(pieces@) =~= seq![Seq::<char>::empty()]);
    }
    while i < chars.len()
        invariant
            chars@ == path@,
            i <= chars.len(),
            pieces.len() >= 1,
            views(pieces@) == components_of(path@.take(i as int)),
        decreases chars.len() - i,
    {
        let c = chars[i];
        let ghost before = views(pieces@);
        proof {
            assert(path@.take(i + 1).drop_last() =~= path@.take(i as int));
            assert(path@.take(i + 1).last() == c);
        }
        let last = pieces.len() - 1;
        if c == '/' || c == '\\' {
            if !(pieces.len() > 1 && pieces[last].len() == 0) {
                pieces.push(Vec::new());
                assert(views(pieces@) =~= before.push(Seq::empty()));
            }
        } else {
            let mut piece = pieces.pop().unwrap();
            piece.push(c);
            pieces.push(piece);
            assert(views(pieces@) =~= before.drop_last().push(before.last().push(c)));
        }
        i += 1;
    }
    assert(path@.take(chars.len() as int) =~= path@);
    let last = pieces.len() - 1;
    if pieces.len() > 1 && pieces[last].len() == 0 {
        let ghost before = views(pieces@);
        pieces.pop();
        assert(views(pieces@) =~= before.drop_last());
    }
    let mut result: Vec<String> = Vec::new();
    let mut k: usize = 0;
    while k < pieces.len()
        invariant
            k <= pieces.len(),
            result.len() == k,
            forall|j: int| 0 <= j < k ==> (#[trigger] result[j])@ == pieces[j]@,
        decreases pieces.len() - k,
    {
        result.push(text::from_chars(&pieces[k]));
        k += 1;
    }
    assert(result.deep_view() =~= views(pieces@));
    result
}

/// Whether a file lies in a directory, as far as the two paths can tell.
pub fn path_lies_in(directory: &str, file: &str) -> (result: bool)
    ensures
        result == lies_in(directory@, file@),
{
    let left = path_components(directory);
    let right = path_components(file);
    let mut i: usize = 0;
    while i < left.len() && i < right.len()
        invariant
            left.deep_view() == components(directory@),
            right.deep_view() == components(file@),
            forall|j: int| 0 <= j < i ==> left.deep_view()[j] == right.deep_view()[j],
        decreases left.len() - i,
    {
        if !text::same(left[i].as_str(), right[i].as_str()) {
            assert(left.deep_view()[i as int] != right.deep_view()[i as int]);
            return false;
        }
        i += 1;
    }
    true
}

/// Keeps the entries whose file exists and lies where the configuration
/// allows.
#[derive(Debug, Clone)]
pub struct ContentFilter {
    config: Content,
}

impl ContentFilter {
    /// Whether the filter does anything at all.
    pub closed spec fn only_existing(&self) -> bool {
        self.config.include_only_existing_source
    }

    /// The directories in which a file has to lie; any, where there are none.
    pub closed spec fn included(&self) -> Seq<Seq<char>> {
        self.config.paths_to_include.deep_view()
    }

    /// The directories in which a file must not lie.
    pub closed spec fn excluded(&self) -> Seq<Seq<char>> {
        self.config.paths_to_exclude.deep_view()
    }

    pub fn new(config: Content) -> (result: Self)
        ensures
            result.only_existing() == config.include_only_existing_source,
            result.included() == config.paths_to_include.deep_view(),
            result.excluded() == config.paths_to_exclude.deep_view(),
    {
        Self { config }
    }

    /// Whether the file lies in one of the directories.
    pub fn contains(&self, root: &Vec<String>, file: &str) -> (result: bool)
        ensures
            result == lies_in_any(root.deep_view(), file@),
    {
        let mut i: usize = 0;
        while i < root.len()
            invariant
                i <= root.len(),
                forall|j: int| 0 <= j < i ==> !lies_in(#[trigger] root.deep_view()[j], file@),
            decreases root.len() - i,
        {
            if path_lies_in(root[i].as_str(), file) {
                assert(lies_in(root.deep_view()[i as int], file@));
                return true;
            }
            i += 1;
        }
        false
    }

    /// Whether the entry is kept. `present` says whether its file is on
    /// disk.
    pub fn apply(&self, entry: &Entry, present: bool) -> (result: bool)
        ensures
            result == content_accepts(
                self.only_existing(),
                self.included(),
                self.excluded(),
                entry@,
                present,
            ),
    {
        if !self.config.include_only_existing_source {
            return true;
        }
        let to_include = self.config.paths_to_include.len() == 0 || self.contains(
            &self.config.paths_to_include,
            entry.file.as_str(),
        );
        let to_exclude = self.config.paths_to_exclude.len() != 0 && self.contains(
            &self.config.paths_to_exclude,
            entry.file.as_str(),
        );
        present && to_include && !to_exclude
    }
}

/// What the duplicate filter remembers of an entry.
#[derive(Debug, Clone, PartialEq, Eq)]
pub struct Fingerprint {
    pub file: String,
    pub flags: Vec<String>,
}

impl View for Fingerprint {
    type V = (Seq<char>, Seq<Seq<char>>);

    open spec fn view(&self) -> (Seq<char>, Seq<Seq<char>>) {
        (self.file@, self.flags.deep_view())
    }
}

impl DeepView for Fingerprint {
    type V = (Seq<char>, Seq<Seq<char>>);

    open spec fn deep_view(&self) -> (Seq<char>, Seq<Seq<char>>) {
        self@
    }
}

impl Fingerprint {
    /// Whether two fingerprints are the same.
    pub fn same(&self, other: &Fingerprint) -> (result: bool)
        ensures
            result == (self@ == other@),
    {
        if !text::same(self.file.as_str(), other.file.as_str()) {
            return false;
        }
        if self.flags.len() != other.flags.len() {
            assert(self.flags.deep_view().len() != other.flags.deep_view().len());
            return false;
        }
        let mut i: usize = 0;
        while i < self.flags.len()
            invariant
                i <= self.flags.len(),
                self.flags.len() == other.flags.len(),
                forall|j: int| 0 <= j < i ==> self.flags.deep_view()[j] == other.flags.deep_view()[j],
            decreases self.flags.len() - i,
        {
            if !text::same(self.flags[i].as_str(), other.flags[i].as_str()) {
                assert(self.flags.deep_view()[i as int] != other.flags.deep_view()[i as int]);
                return false;
            }
            i += 1;
        }
        assert(self.flags.deep_view() =~= other.flags.deep_view());
        true
    }
}

/// Keeps the first of the entries that have the same fingerprint.
#[derive(Debug, Clone)]
pub struct DuplicateFilter {
    hashes: Vec<Fingerprint>,
}

impl View for DuplicateFilter {
    type V = Seq<(Seq<char>, Seq<Seq<char>>)>;

    closed spec fn view(&self) -> Seq<(Seq<char>, Seq<Seq<char>>)> {
        self.hashes.deep_view()
    }
}

impl DuplicateFilter {
    pub fn new() -> (result: Self)
        ensures
            result@ == Seq::<(Seq<char>, Seq<Seq<char>>)>::empty(),
    {
        let result = Self { hashes: Vec::new() };
        assert(result.hashes.deep_view() =~= Seq::empty());
        result
    }

    /// The fingerprint of an entry.
    pub fn hash(entry: &Entry) -> (result: Fingerprint)
        ensures
            result@ == fingerprint_of(entry@),
    {
        let mut flags: Vec<String> = Vec::new();
        let mut i: usize = 1;
        proof {
            if entry.arguments.len() > 0 {
                assert(flags.deep_view() =~= entry.arguments.deep_view().subrange(1, 1));
            }
        }
        while i < entry.arguments.len()
            invariant
                1 <= i,
                entry.arguments.len() > 0 ==> i <= entry.arguments.len() && flags.deep_view()
                    == entry.arguments.deep_view().subrange(1, i as int),
                entry.arguments.len() == 0 ==> flags.deep_view() == Seq::<Seq<char>>::empty(),
            decreases entry.arguments.len() - i,
        {
            let ghost before = flags.deep_view();
            flags.push(entry.arguments[i].clone());
            assert(flags.deep_view() =~= before.push(entry.arguments[i as int]@));
            assert(entry.arguments.deep_view().subrange(1, i + 1) =~= before.push(
                entry.arguments[i as int]@,
            ));
            i += 1;
        }
        proof {
            if entry.arguments.len() > 0 {
                assert(entry.arguments.deep_view().subrange(1, entry.arguments.len() as int)
                    =~= entry.arguments.deep_view().skip(1));
            } else {
                assert(flags.deep_view() =~= Seq::<Seq<char>>::empty());
            }
        }
        Fingerprint { file: entry.file.clone(), flags }
    }

    /// Whether the entry is the first with its fingerprint. The filter
    /// remembers the fingerprint.
    pub fn apply(&mut self, entry: &Entry) -> (result: bool)
        ensures
            result == is_new(old(self)@, entry@),
            final(self)@ == remembered(old(self)@, entry@),
    {
        let print = Self::hash(entry);
        let mut i: usize = 0;
        while i < self.hashes.len()
            invariant
                i <= self.hashes.len(),
                *self == *old(self),
                print@ == fingerprint_of(entry@),
                forall|j: int| 0 <= j < i ==> self.hashes.deep_view()[j] != print@,
            decreases self.hashes.len() - i,
        {
            if self.hashes[i].same(&print) {
                assert(self.hashes.deep_view()[i as int] == print@);
                return false;
            }
            i += 1;
        }
        let ghost before = self.hashes.deep_view();
        self.hashes.push(print);
        assert(self.hashes.deep_view() =~= before.push(print@));
        true
    }
}

/// Why a database could not be read.
#[derive(Debug, Clone, Copy, PartialEq, Eq, Structural)]
pub enum DatabaseError {
    /// The text is no JSON document.
    Syntax,
    /// The document is no list of entries: a field is missing, or is of
    /// another type, or an entry has both a command and arguments.
    Shape,
    /// A command line could not be split into arguments.
    Command,
    /// The field 'file' is an empty string.
    EmptyFile,
    /// The field 'directory' is an empty string.
    EmptyDirectory,
    /// The field 'output' is an empty string.
    EmptyOutput,
    /// The field 'arguments' is an empty list.
    EmptyArguments,
}

impl DatabaseError {
    /// What the error says, in words.
    pub open spec fn spec_message(self) -> Seq<char> {
        match self {
            DatabaseError::Syntax => "The text is not a JSON document."@,
            DatabaseError::Shape => "The document is not a list of entries."@,
            DatabaseError::Command => "A command line could not be split."@,
            DatabaseError::EmptyFile => "Field 'file' is empty string."@,
            DatabaseError::EmptyDirectory => "Field 'directory' is empty string."@,
            DatabaseError::EmptyOutput => "Field 'output' is empty string."@,
            DatabaseError::EmptyArguments => "Field 'arguments' is empty list."@,
        }
    }

    /// What the error says, in words.
    pub fn message(&self) -> (result: String)
        ensures
            result@ == self.spec_message(),
    {
        match self {
            DatabaseError::Syntax => "The text is not a JSON document.".to_owned(),
            DatabaseError::Shape => "The document is not a list of entries.".to_owned(),
            DatabaseError::Command => "A command line could not be split.".to_owned(),
            DatabaseError::EmptyFile => "Field 'file' is empty string.".to_owned(),
            DatabaseError::EmptyDirectory => "Field 'directory' is empty string.".to_owned(),
            DatabaseError::EmptyOutput => "Field 'output' is empty string.".to_owned(),
            DatabaseError::EmptyArguments => "Field 'arguments' is empty list.".to_owned(),
        }
    }
}

/// The arguments of an entry, in one of the two shapes that a database may
/// hold.
#[derive(Debug, Clone, PartialEq, Eq)]
pub enum SerializableArguments {
    Arguments(Vec<String>),
    Command(String),
}

pub enum SerializableArgumentsView {
    Arguments(Seq<Seq<char>>),
    Command(Seq<char>),
}

impl View for SerializableArguments {
    type V = SerializableArgumentsView;

    open spec fn view(&self) -> SerializableArgumentsView {
        match self {
            SerializableArguments::Arguments(arguments) => SerializableArgumentsView::Arguments(
                arguments.deep_view(),
            ),
            SerializableArguments::Command(command) => SerializableArgumentsView::Command(
                command@,
            ),
        }
    }
}

/// Each argument as it is written on a command line.
pub open spec fn quoted_arguments(arguments: Seq<Seq<char>>) -> Seq<Seq<char>> {
    Seq::new(arguments.len(), |i: int| quote_of(arguments[i], false))
}

/// The command line for a list of arguments: the arguments, each in quotes
/// where it needs them, with a space between each two.
pub open spec fn command_line_of(arguments: Seq<Seq<char>>) -> Seq<char> {
    text::join(quoted_arguments(arguments), " "@)
}

impl SerializableArguments {
    pub fn is_arguments(&self) -> (result: bool)
        ensures
            result == (self is Arguments),
    {
        match self {
            SerializableArguments::Arguments(_) => true,
            SerializableArguments::Command(_) => false,
        }
    }

    /// The list of arguments. A command line has to be split by the system;
    /// `split` is what the system made of it, if it was asked and did not
    /// fail. A list needs no splitting, and `split` is not read.
    pub fn into_arguments(self, split: Option<Vec<String>>) -> (result: Result<
        Vec<String>,
        DatabaseError,
    >)
        ensures
            match self@ {
                SerializableArgumentsView::Arguments(arguments) => result is Ok
                    && result->Ok_0.deep_view() == arguments,
                SerializableArgumentsView::Command(_) => match split {
                    Some(arguments) => result is Ok && result->Ok_0.deep_view()
                        == arguments.deep_view(),
                    None => result == Err::<Vec<String>, DatabaseError>(DatabaseError::Command),
                },
            },
    {
        match self {
            SerializableArguments::Arguments(arguments) => Ok(arguments),
            SerializableArguments::Command(_) => match split {
                Some(arguments) => Ok(arguments),
                None => Err(DatabaseError::Command),
            },
        }
    }

    /// The command line.
    pub fn into_command_line(self) -> (result: String)
        ensures
            match self@ {
                SerializableArgumentsView::Arguments(arguments) => result@ == command_line_of(
                    arguments,
                ),
                SerializableArgumentsView::Command(command) => result@ == command,
            },
    {
        match self {
            SerializableArguments::Arguments(arguments) => {
                let mut quoted: Vec<String> = Vec::new();
                let mut i: usize = 0;
                while i < arguments.len()
                    invariant
                        i <= arguments.len(),
                        quoted.len() == i,
                        forall|j: int|
                            0 <= j < i ==> (#[trigger] quoted[j])@ == quote_of(
                                arguments[j]@,
                                false,
                            ),
                    decreases arguments.len() - i,
                {
                    quoted.push(quote_argument(arguments[i].as_str(), false));
                    i += 1;
                }
                assert(quoted.deep_view() =~= quoted_arguments(arguments.deep_view()));
                text::join_with(&quoted, " ")
            },
            SerializableArguments::Command(command) => command,
        }
    }
}

/// An entry as a database holds it.
#[derive(Debug, Clone, PartialEq, Eq)]
pub struct SerializableEntry {
    pub file: String,
    pub directory: String,
    pub output: Option<String>,
    pub arguments: SerializableArguments,
}

pub struct SerializableEntryView {
    pub file: Seq<char>,
    pub directory: Seq<char>,
    pub output: Option<Seq<char>>,
    pub arguments: SerializableArgumentsView,
}

impl View for SerializableEntry {
    type V = SerializableEntryView;

    open spec fn view(&self) -> SerializableEntryView {
        SerializableEntryView {
            file: self.file@,
            directory: self.directory@,
            output: self.output.deep_view(),
            arguments: self.arguments@,
        }
    }
}

impl DeepView for SerializableEntry {
    type V = SerializableEntryView;

    open spec fn deep_view(&self) -> SerializableEntryView {
        self@
    }
}

/// An entry in the shape in which it is written: without its output where the
/// format drops it, and with its arguments as a list or as a command line.
pub open spec fn serializable_of(format: Format, entry: EntryView) -> SerializableEntryView {
    SerializableEntryView {
        file: entry.file,
        directory: entry.directory,
        output: if format.drop_output_field {
            None
        } else {
            entry.output
        },
        arguments: if format.command_as_array {
            SerializableArgumentsView::Arguments(entry.arguments)
        } else {
            SerializableArgumentsView::Command(command_line_of(entry.arguments))
        },
    }
}

/// The entry that a database record stands for, for what the system made of
/// its command line.
pub open spec fn entry_from(
    entry: SerializableEntryView,
    split: Option<Seq<Seq<char>>>,
) -> Result<EntryView, DatabaseError> {
    match entry.arguments {
        SerializableArgumentsView::Arguments(arguments) => Ok(
            EntryView {
                file: entry.file,
                directory: entry.directory,
                output: entry.output,
                arguments,
            },
        ),
        SerializableArgumentsView::Command(_) => match split {
            Some(arguments) => Ok(
                EntryView {
                    file: entry.file,
                    directory: entry.directory,
                    output: entry.output,
                    arguments,
                },
            ),
            None => Err(DatabaseError::Command),
        },
    }
}

impl SerializableEntry {
    /// The entry with its arguments as a list.
    pub fn from(entry: &Entry) -> (result: Self)
        ensures
            result@ == (SerializableEntryView {
                file: entry@.file,
                directory: entry@.directory,
                output: entry@.output,
                arguments: SerializableArgumentsView::Arguments(entry@.arguments),
            }),
    {
        Self {
            file: entry.file.clone(),
            directory: entry.directory.clone(),
            output: match &entry.output {
                Some(file) => Some(file.clone()),
                None => None,
            },
            arguments: SerializableArguments::Arguments(text::copy_of(&entry.arguments)),
        }
    }

    /// The entry in the shape that `format` asks for.
    pub fn formatted(entry: &Entry, format: &Format) -> (result: Self)
        ensures
            result@ == serializable_of(*format, entry@),
    {
        let mut serializable = Self::from(entry);
        if format.drop_output_field {
            serializable.output = None;
        }
        if !format.command_as_array {
            let SerializableEntry { file, directory, output, arguments } = serializable;
            serializable = SerializableEntry {
                file,
                directory,
                output,
                arguments: SerializableArguments::Command(arguments.into_command_line()),
            };
        }
        serializable
    }

    /// The entry that the record stands for. `split` is what the system
    /// made of the record's command line, where it has one.
    pub fn try_into_entry(self, split: Option<Vec<String>>) -> (result: Result<
        Entry,
        DatabaseError,
    >)
        ensures
            match entry_from(self@, split.deep_view()) {
                Ok(entry) => result is Ok && result->Ok_0@ == entry,
                Err(error) => result == Err::<Entry, DatabaseError>(error),
            },
    {
        let SerializableEntry { file, directory, output, arguments } = self;
        match arguments.into_arguments(split) {
            Ok(arguments) => Ok(Entry { file, directory, output, arguments }),
            Err(error) => Err(error),
        }
    }
}

/// A list of strings as JSON texts.
pub open spec fn texts(items: Seq<Seq<char>>) -> Seq<JsonView> {
    Seq::new(items.len(), |i: int| JsonView::Text(items[i]))
}

/// The JSON object for a database record: the file, the directory, the
/// output where there is one, and the arguments or the command.
pub open spec fn json_of(entry: SerializableEntryView) -> JsonView {
    JsonView::Object(
        seq![
            ("file"@, JsonView::Text(entry.file)),
            ("directory"@, JsonView::Text(entry.directory)),
        ] + (match entry.output {
            Some(file) => seq![("output"@, JsonView::Text(file))],
            None => Seq::empty(),
        }) + seq![
            match entry.arguments {
                SerializableArgumentsView::Arguments(arguments) => (
                    "arguments"@,
                    JsonView::Array(texts(arguments)),
                ),
                SerializableArgumentsView::Command(command) => (
                    "command"@,
                    JsonView::Text(command),
                ),
            },
        ],
    )
}

/// The JSON document for a list of records.
pub open spec fn document_of(entries: Seq<SerializableEntryView>) -> JsonView {
    JsonView::Array(Seq::new(entries.len(), |i: int| json_of(entries[i])))
}

/// The value of the first member of an object that has the given name.
pub open spec fn member(members: Seq<(Seq<char>, JsonView)>, name: Seq<char>) -> Option<JsonView>
    decreases members.len(),
{
    if members.len() == 0 {
        None
    } else if members[0].0 == name {
        Some(members[0].1)
    } else {
        member(members.drop_first(), name)
    }
}

/// Whether all the values are texts.
pub open spec fn all_text(items: Seq<JsonView>) -> bool {
    forall|i: int| 0 <= i < items.len() ==> #[trigger] items[i] is Text
}

/// The texts that the values hold.
pub open spec fn texts_in(items: Seq<JsonView>) -> Seq<Seq<char>> {
    Seq::new(items.len(), |i: int| items[i]->Text_0)
}

/// The record that a JSON value stands for. It has to be an object with a
/// text for 'file' and for 'directory', with a text or nothing for 'output',
/// and with exactly one of a list of texts for 'arguments' and a text for
/// 'command'. Other members are not read.
pub open spec fn decoded_entry(json: JsonView) -> Result<SerializableEntryView, DatabaseError> {
    match json {
        JsonView::Object(members) => match (member(members, "file"@), member(
            members,
            "directory"@,
        )) {
            (Some(JsonView::Text(file)), Some(JsonView::Text(directory))) => {
                let output = member(members, "output"@);
                if !(output is None || output == Some(JsonView::Null) || (output matches Some(
                    JsonView::Text(_),
                ))) {
                    Err(DatabaseError::Shape)
                } else {
                    let output = match output {
                        Some(JsonView::Text(file)) => Some(file),
                        _ => None,
                    };
                    match (member(members, "arguments"@), member(members, "command"@)) {
                        (Some(JsonView::Array(items)), None) => if all_text(items) {
                            Ok(
                                SerializableEntryView {
                                    file,
                                    directory,
                                    output,
                                    arguments: SerializableArgumentsView::Arguments(
                                        texts_in(items),
                                    ),
                                },
                            )
                        } else {
                            Err(DatabaseError::Shape)
                        },
                        (None, Some(JsonView::Text(command))) => Ok(
                            SerializableEntryView {
                                file,
                                directory,
                                output,
                                arguments: SerializableArgumentsView::Command(command),
                            },
                        ),
                        _ => Err(DatabaseError::Shape),
                    }
                }
            },
            _ => Err(DatabaseError::Shape),
        },
        _ => Err(DatabaseError::Shape),
    }
}

/// The records that a list of JSON values stands for.
pub open spec fn decoded_entries(items: Seq<JsonView>) -> Result<
    Seq<SerializableEntryView>,
    DatabaseError,
>
    decreases items.len(),
{
    if items.len() == 0 {
        Ok(Seq::empty())
    } else {
        match decoded_entries(items.drop_last()) {
            Err(error) => Err(error),
            Ok(before) => match decoded_entry(items.last()) {
                Ok(entry) => Ok(before.push(entry)),
                Err(error) => Err(error),
            },
        }
    }
}

/// The records that a JSON document stands for.
pub open spec fn decoded(json: JsonView) -> Result<Seq<SerializableEntryView>, DatabaseError> {
    match json {
        JsonView::Array(items) => decoded_entries(items),
        _ => Err(DatabaseError::Shape),
    }
}

/// The member at a position is the one that `member` finds, where no
/// earlier member has its name.
pub proof fn lemma_member_at(members: Seq<(Seq<char>, JsonView)>, name: Seq<char>, k: int)
    requires
        0 <= k < members.len(),
        members[k].0 == name,
        forall|j: int| 0 <= j < k ==> (#[trigger] members[j]).0 != name,
    ensures
        member(members, name) == Some(members[k].1),
    decreases members.len(),
{
    if k > 0 {
        let rest = members.drop_first();
        assert forall|j: int| 0 <= j < k - 1 implies (#[trigger] rest[j]).0 != name by {
            assert(rest[j] == members[j + 1]);
        }
        assert(rest[k - 1] == members[k]);
        assert(members[0].0 != name);
        lemma_member_at(rest, name, k - 1);
    }
}

/// `member` finds nothing where no member has the name.
pub proof fn lemma_member_none(members: Seq<(Seq<char>, JsonView)>, name: Seq<char>)
    requires
        forall|j: int| 0 <= j < members.len() ==> (#[trigger] members[j]).0 != name,
    ensures
        member(members, name) is None,
    decreases members.len(),
{
    if members.len() > 0 {
        let rest = members.drop_first();
        assert forall|j: int| 0 <= j < rest.len() implies (#[trigger] rest[j]).0 != name by {
            assert(rest[j] == members[j + 1]);
        }
        assert(members[0].0 != name);
        lemma_member_none(rest, name);
    }
}

/// A record that was written is read back as it was.
pub proof fn lemma_decode_entry(entry: SerializableEntryView)
    ensures
        decoded_entry(json_of(entry)) == Ok::<SerializableEntryView, DatabaseError>(entry),
{
    reveal_strlit("file");
    reveal_strlit("directory");
    reveal_strlit("output");
    reveal_strlit("arguments");
    reveal_strlit("command");
    let members = json_of(entry)->Object_0;
    assert("file"@[0] == 'f' && "directory"@[0] == 'd' && "output"@[0] == 'o' && "arguments"@[0]
        == 'a' && "command"@[0] == 'c');
    let last = members.len() - 1;
    assert(members[0] == ("file"@, JsonView::Text(entry.file)));
    assert(members[1] == ("directory"@, JsonView::Text(entry.directory)));
    lemma_member_at(members, "file"@, 0);
    lemma_member_at(members, "directory"@, 1);
    match entry.output {
        Some(file) => {
            assert(members.len() == 4);
            assert(members[2] == ("output"@, JsonView::Text(file)));
            lemma_member_at(members, "output"@, 2);
        },
        None => {
            assert(members.len() == 3);
            lemma_member_none(members, "output"@);
        },
    }
    match entry.arguments {
        SerializableArgumentsView::Arguments(arguments) => {
            assert(members[last] == ("arguments"@, JsonView::Array(texts(arguments))));
            lemma_member_at(members, "arguments"@, last);
            lemma_member_none(members, "command"@);
            assert(texts_in(texts(arguments)) =~= arguments);
        },
        SerializableArgumentsView::Command(command) => {
            assert(members[last] == ("command"@, JsonView::Text(command)));
            lemma_member_at(members, "command"@, last);
            lemma_member_none(members, "arguments"@);
        },
    }
}

/// A list of records that was written is read back as it was.
pub proof fn lemma_decode_document(entries: Seq<SerializableEntryView>)
    ensures
        decoded(document_of(entries)) == Ok::<Seq<SerializableEntryView>, DatabaseError>(entries),
    decreases entries.len(),
{
    let items = document_of(entries)->Array_0;
    if entries.len() == 0 {
        assert(entries =~= Seq::<SerializableEntryView>::empty());
    } else {
        lemma_decode_document(entries.drop_last());
        lemma_decode_entry(entries.last());
        assert(items.drop_last() =~= document_of(entries.drop_last())->Array_0);
        assert(entries.drop_last().push(entries.last()) =~= entries);
    }
}

/// The JSON list of the texts.
fn texts_json(items: &Vec<String>) -> (result: Json)
    ensures
        result@ == JsonView::Array(texts(items.deep_view())),
{
    let mut values: Vec<Json> = Vec::new();
    let mut i: usize = 0;
    while i < items.len()
        invariant
            i <= items.len(),
            values.len() == i,
            forall|j: int| 0 <= j < i ==> (#[trigger] values[j])@ == JsonView::Text(items[j]@),
        decreases items.len() - i,
    {
        values.push(Json::Text(items[i].clone()));
        i += 1;
    }
    let result = Json::Array(values);
    proof {
        lemma_json_views(result);
        assert(items_of(values@) =~= texts(items.deep_view()));
    }
    result
}

impl SerializableEntry {
    /// The JSON object for the record.
    pub fn to_json(&self) -> (result: Json)
        ensures
            result@ == json_of(self@),
    {
        let mut members: Vec<(String, Json)> = Vec::new();
        members.push(("file".to_owned(), Json::Text(self.file.clone())));
        members.push(("directory".to_owned(), Json::Text(self.directory.clone())));
        match &self.output {
            Some(file) => {
                members.push(("output".to_owned(), Json::Text(file.clone())));
            },
            None => {},
        }
        match &self.arguments {
            SerializableArguments::Arguments(arguments) => {
                members.push(("arguments".to_owned(), texts_json(arguments)));
            },
            SerializableArguments::Command(command) => {
                members.push(("command".to_owned(), Json::Text(command.clone())));
            },
        }
        let result = Json::Object(members);
        proof {
            lemma_json_views(result);
            assert(members_of(members@) =~= json_of(self@)->Object_0);
        }
        result
    }

    /// The record that a JSON value stands for.
    pub fn from_json(json: &Json) -> (result: Result<SerializableEntry, DatabaseError>)
        ensures
            match decoded_entry(json@) {
                Ok(entry) => result is Ok && result->Ok_0@ == entry,
                Err(error) => result == Err::<SerializableEntry, DatabaseError>(error),
            },
    {
        proof {
            lemma_json_views(*json);
        }
        let members = match json {
            Json::Object(members) => members,
            _ => {
                return Err(DatabaseError::Shape);
            },
        };
        let file = match find_member(members, "file") {
            Some(Json::Text(file)) => file.clone(),
            _ => {
                return Err(DatabaseError::Shape);
            },
        };
        let directory = match find_member(members, "directory") {
            Some(Json::Text(directory)) => directory.clone(),
            _ => {
                return Err(DatabaseError::Shape);
            },
        };
        let output = match find_member(members, "output") {
            None => None,
            Some(Json::Null) => None,
            Some(Json::Text(file)) => Some(file.clone()),
            Some(_) => {
                return Err(DatabaseError::Shape);
            },
        };
        let arguments = match (find_member(members, "arguments"), find_member(members, "command")) {
            (Some(Json::Array(items)), None) => {
                proof {
                    lemma_json_views(Json::Array(*items));
                }
                match texts_of(items) {
                    Some(arguments) => SerializableArguments::Arguments(arguments),
                    None => {
                        return Err(DatabaseError::Shape);
                    },
                }
            },
            (None, Some(Json::Text(command))) => SerializableArguments::Command(command.clone()),
            _ => {
                return Err(DatabaseError::Shape);
            },
        };
        Ok(SerializableEntry { file, directory, output, arguments })
    }
}

/// The value of the first member that has the given name.
fn find_member<'a>(members: &'a Vec<(String, Json)>, name: &str) -> (result: Option<&'a Json>)
    ensures
        match member(members_of(members@), name@) {
            Some(value) => result is Some && result->Some_0@ == value,
            None => result is None,
        },
{
    let mut i: usize = 0;
    while i < members.len()
        invariant
            i <= members.len(),
            forall|j: int| 0 <= j < i ==> (#[trigger] members_of(members@)[j]).0 != name@,
        decreases members.len() - i,
    {
        if text::same(members[i].0.as_str(), name) {
            proof {
                lemma_member_at(members_of(members@), name@, i as int);
            }
            return Some(&members[i].1);
        }
        i += 1;
    }
    proof {
        lemma_member_none(members_of(members@), name@);
    }
    None
}

/// The texts of a list of values, where all of them are texts.
fn texts_of(items: &Vec<Json>) -> (result: Option<Vec<String>>)
    ensures
        match result {
            Some(all) => all_text(items_of(items@)) && all.deep_view() == texts_in(
                items_of(items@),
            ),
            None => !all_text(items_of(items@)),
        },
{
    let mut all: Vec<String> = Vec::new();
    let mut i: usize = 0;
    while i < items.len()
        invariant
            i <= items.len(),
            all.len() == i,
            forall|j: int| 0 <= j < i ==> #[trigger] items_of(items@)[j] is Text,
            forall|j: int| 0 <= j < i ==> (#[trigger] all[j])@ == items_of(items@)[j]->Text_0,
        decreases items.len() - i,
    {
        match &items[i] {
            Json::Text(text) => {
                assert(items_of(items@)[i as int] == JsonView::Text(text@));
                all.push(text.clone());
            },
            _ => {
                assert(!(items_of(items@)[i as int] is Text));
                return None;
            },
        }
        i += 1;
    }
    assert(all.deep_view() =~= texts_in(items_of(items@)));
    Some(all)
}

/// What the system made of the command line of the record at a position:
/// nothing, where it was not asked.
pub open spec fn split_at(splits: Seq<Option<Seq<Seq<char>>>>, position: int) -> Option<
    Seq<Seq<char>>,
> {
    if 0 <= position < splits.len() {
        splits[position]
    } else {
        None
    }
}

/// The entries that a list of records stands for. The first record whose
/// command line could not be split fails the whole list.
pub open spec fn converted(
    entries: Seq<SerializableEntryView>,
    splits: Seq<Option<Seq<Seq<char>>>>,
) -> Result<Seq<EntryView>, DatabaseError>
    decreases entries.len(),
{
    if entries.len() == 0 {
        Ok(Seq::empty())
    } else {
        match converted(entries.drop_last(), splits) {
            Err(error) => Err(error),
            Ok(before) => match entry_from(entries.last(), split_at(splits, entries.len() - 1)) {
                Ok(entry) => Ok(before.push(entry)),
                Err(error) => Err(error),
            },
        }
    }
}

/// What is wrong with an entry, if anything: the first of its fields that
/// is empty.
pub open spec fn fault_of(entry: EntryView) -> Option<DatabaseError> {
    if entry.file.len() == 0 {
        Some(DatabaseError::EmptyFile)
    } else if entry.directory.len() == 0 {
        Some(DatabaseError::EmptyDirectory)
    } else if entry.output matches Some(file) && file.len() == 0 {
        Some(DatabaseError::EmptyOutput)
    } else if entry.arguments.len() == 0 {
        Some(DatabaseError::EmptyArguments)
    } else {
        None
    }
}

/// What is wrong with the first entry that has a fault.
pub open spec fn first_fault(entries: Seq<EntryView>) -> Option<DatabaseError>
    decreases entries.len(),
{
    if entries.len() == 0 {
        None
    } else {
        match first_fault(entries.drop_last()) {
            Some(error) => Some(error),
            None => fault_of(entries.last()),
        }
    }
}

/// The entries of a list of records, where all of them are sound.
pub open spec fn read_back(
    entries: Seq<SerializableEntryView>,
    splits: Seq<Option<Seq<Seq<char>>>>,
) -> Result<Seq<EntryView>, DatabaseError> {
    match converted(entries, splits) {
        Err(error) => Err(error),
        Ok(all) => match first_fault(all) {
            Some(error) => Err(error),
            None => Ok(all),
        },
    }
}

/// The records of a text: those of the document that it holds.
pub open spec fn records_of(input: Seq<char>) -> Result<Seq<SerializableEntryView>, DatabaseError> {
    match json_parsed(input) {
        Some(document) => decoded(document),
        None => Err(DatabaseError::Syntax),
    }
}

/// Every entry that is read back is sound.
pub proof fn lemma_read_back_sound(
    entries: Seq<SerializableEntryView>,
    splits: Seq<Option<Seq<Seq<char>>>>,
)
    ensures
        read_back(entries, splits) matches Ok(all) ==> forall|i: int|
            0 <= i < all.len() ==> fault_of(#[trigger] all[i]) is None,
{
    if let Ok(all) = converted(entries, splits) {
        lemma_first_fault(all);
    }
}

/// Where no entry is reported, none has a fault.
pub proof fn lemma_first_fault(entries: Seq<EntryView>)
    ensures
        first_fault(entries) is None ==> forall|i: int|
            0 <= i < entries.len() ==> fault_of(#[trigger] entries[i]) is None,
    decreases entries.len(),
{
    if entries.len() > 0 {
        lemma_first_fault(entries.drop_last());
        assert forall|i: int| 0 <= i < entries.len() - 1 implies entries[i]
            == entries.drop_last()[i] by {}
    }
}

/// Whether the system gave back, for each entry that was written as a command
/// line, the arguments that the line was made of.
pub open spec fn split_back(entries: Seq<EntryView>, splits: Seq<Option<Seq<Seq<char>>>>) -> bool {
    forall|i: int| 0 <= i < entries.len() ==> split_at(splits, i) == Some(entries[i].arguments)
}

/// The records that are written for a list of entries stand for the entries
/// as they come back: always where they hold argument lists, and where they
/// hold command lines as far as the system splits each line into the
/// arguments that it was made of.
pub proof fn lemma_converted_back(
    format: Format,
    entries: Seq<EntryView>,
    splits: Seq<Option<Seq<Seq<char>>>>,
)
    requires
        format.command_as_array || split_back(entries, splits),
    ensures
        converted(Seq::new(entries.len(), |i: int| serializable_of(format, entries[i])), splits)
            == Ok::<Seq<EntryView>, DatabaseError>(
            Seq::new(entries.len(), |i: int| returned(format, entries[i])),
        ),
    decreases entries.len(),
{
    let records = Seq::new(entries.len(), |i: int| serializable_of(format, entries[i]));
    let back = Seq::new(entries.len(), |i: int| returned(format, entries[i]));
    if entries.len() == 0 {
        assert(back =~= Seq::<EntryView>::empty());
    } else {
        let shorter = entries.drop_last();
        assert forall|i: int| 0 <= i < shorter.len() implies shorter[i] == entries[i] by {}
        lemma_converted_back(format, shorter, splits);
        assert(records.drop_last() =~= Seq::new(
            shorter.len(),
            |i: int| serializable_of(format, shorter[i]),
        ));
        assert(Seq::new(shorter.len(), |i: int| returned(format, shorter[i])).push(
            returned(format, entries.last()),
        ) =~= back);
    }
}

/// Splits a command line into its arguments, as the system does for a new
/// process. Nothing is said here of the system behind it, so nothing is
/// promised of the answers; an answer is missing where the line could not be
/// split.
pub trait Splitter {
    fn split(&self, command_line: &str) -> Option<Vec<String>>;
}

/// Whether the answers are those of a splitter that was asked for each
/// record with a command line and for no other: there is one for each
/// record, and none for a record that holds a list of arguments.
pub open spec fn asked_for(
    records: Seq<SerializableEntryView>,
    splits: Seq<Option<Seq<Seq<char>>>>,
) -> bool {
    &&& splits.len() == records.len()
    &&& forall|j: int|
        0 <= j < records.len() && (#[trigger] records[j]).arguments is Arguments ==> split_at(
            splits,
            j,
        ) is None
}

/// Writes and reads the database.
#[derive(Debug, Clone)]
pub struct CompilationDatabase {
    format: Format,
    content: Content,
}

/// The records that are written for a list of entries: the entries that
/// the two filters keep, each in the shape that the format asks for.
pub open spec fn written(
    format: Format,
    only_existing: bool,
    included: Seq<Seq<char>>,
    excluded: Seq<Seq<char>>,
    entries: Seq<EntryView>,
    present: Seq<bool>,
) -> Seq<SerializableEntryView> {
    let kept = unique(accepted(only_existing, included, excluded, entries, present));
    Seq::new(kept.len(), |i: int| serializable_of(format, kept[i]))
}

impl CompilationDatabase {
    pub closed spec fn format(&self) -> Format {
        self.format
    }

    pub closed spec fn only_existing(&self) -> bool {
        self.content.include_only_existing_source
    }

    pub closed spec fn included(&self) -> Seq<Seq<char>> {
        self.content.paths_to_include.deep_view()
    }

    pub closed spec fn excluded(&self) -> Seq<Seq<char>> {
        self.content.paths_to_exclude.deep_view()
    }

    pub fn new(format: Format, content: Content) -> (result: Self)
        ensures
            result.format() == format,
            result.only_existing() == content.include_only_existing_source,
            result.included() == content.paths_to_include.deep_view(),
            result.excluded() == content.paths_to_exclude.deep_view(),
    {
        Self { format, content }
    }

    /// The records that are written for the entries. `present` says of each
    /// entry whether its file is on disk; it is read only where the content
    /// filter is on.
    pub fn records(&self, entries: &Vec<Entry>, present: &Vec<bool>) -> (result: Vec<
        SerializableEntry,
    >)
        ensures
            result.deep_view() == written(
                self.format(),
                self.only_existing(),
                self.included(),
                self.excluded(),
                entries.deep_view(),
                present@,
            ),
    {
        let content_filter = ContentFilter::new(
            Content {
                include_only_existing_source: self.content.include_only_existing_source,
                paths_to_include: text::copy_of(&self.content.paths_to_include),
                paths_to_exclude: text::copy_of(&self.content.paths_to_exclude),
            },
        );
        let mut duplicate_filter = DuplicateFilter::new();
        let mut result: Vec<SerializableEntry> = Vec::new();
        let ghost mut kept: Seq<EntryView> = Seq::empty();
        let mut i: usize = 0;
        proof {
            assert(entries.deep_view().take(0) =~= Seq::<EntryView>::empty());
        }
        while i < entries.len()
            invariant
                i <= entries.len(),
                content_filter.only_existing() == self.only_existing(),
                content_filter.included() == self.included(),
                content_filter.excluded() == self.excluded(),
                kept == unique(
                    accepted(
                        self.only_existing(),
                        self.included(),
                        self.excluded(),
                        entries.deep_view().take(i as int),
                        present@,
                    ),
                ),
                duplicate_filter@.len() == kept.len(),
                forall|j: int|
                    0 <= j < kept.len() ==> duplicate_filter@[j] == fingerprint_of(
                        #[trigger] kept[j],
                    ),
                result.len() == kept.len(),
                forall|j: int|
                    0 <= j < kept.len() ==> (#[trigger] result[j])@ == serializable_of(
                        self.format(),
                        kept[j],
                    ),
            decreases entries.len() - i,
        {
            let entry = &entries[i];
            let there = i < present.len() && present[i];
            proof {
                let taken = entries.deep_view().take(i + 1);
                assert(taken.drop_last() =~= entries.deep_view().take(i as int));
                assert(taken.last() == entry@);
            }
            let ghost sofar = accepted(
                self.only_existing(),
                self.included(),
                self.excluded(),
                entries.deep_view().take(i as int),
                present@,
            );
            if content_filter.apply(entry, there) {
                proof {
                    assert(sofar.push(entry@).drop_last() =~= sofar);
                }
                let ghost before = duplicate_filter@;
                let fresh = duplicate_filter.apply(entry);
                proof {
                    if before.contains(fingerprint_of(entry@)) {
                        let k = choose|k: int|
                            0 <= k < before.len() && before[k] == fingerprint_of(entry@);
                        assert(fingerprint_of(kept[k]) == fingerprint_of(entry@));
                        assert(seen(kept, entry@));
                    } else {
                        if seen(kept, entry@) {
                            let k = choose|k: int|
                                0 <= k < kept.len() && fingerprint_of(#[trigger] kept[k])
                                    == fingerprint_of(entry@);
                            assert(before[k] == fingerprint_of(entry@));
                        }
                    }
                }
                if fresh {
                    result.push(SerializableEntry::formatted(entry, &self.format));
                    proof {
                        kept = kept.push(entry@);
                    }
                }
            }
            i += 1;
        }
        proof {
            assert(entries.deep_view().take(entries.len() as int) =~= entries.deep_view());
            assert(result.deep_view() =~= written(
                self.format(),
                self.only_existing(),
                self.included(),
                self.excluded(),
                entries.deep_view(),
                present@,
            ));
        }
        result
    }

    /// The text of the database for the entries.
    pub fn to_json(&self, entries: &Vec<Entry>, present: &Vec<bool>) -> (result: Result<
        String,
        DatabaseError,
    >)
        ensures
            result is Ok,
            result->Ok_0@ == json_pretty(
                document_of(
                    written(
                        self.format(),
                        self.only_existing(),
                        self.included(),
                        self.excluded(),
                        entries.deep_view(),
                        present@,
                    ),
                ),
            ),
    {
        let records = self.records(entries, present);
        Ok(render(&document(&records)))
    }

    /// The records that a text holds.
    pub fn read(&self, input: &str) -> (result: Result<Vec<SerializableEntry>, DatabaseError>)
        ensures
            match records_of(input@) {
                Ok(records) => result is Ok && result->Ok_0.deep_view() == records,
                Err(error) => result == Err::<Vec<SerializableEntry>, DatabaseError>(error),
            },
    {
        match parse(input) {
            Ok(json) => records_in(&json),
            Err(_) => Err(DatabaseError::Syntax),
        }
    }

    /// The entries of a list of records, where all of them are sound.
    /// `splits` holds, for the record at the same position, what the system
    /// made of its command line; it is read for the records that hold one.
    pub fn entries(&self, records: &Vec<SerializableEntry>, splits: &Vec<Option<Vec<String>>>) -> (result:
        Result<Vec<Entry>, DatabaseError>)
        ensures
            match read_back(records.deep_view(), splits.deep_view()) {
                Ok(entries) => result is Ok && result->Ok_0.deep_view() == entries,
                Err(error) => result == Err::<Vec<Entry>, DatabaseError>(error),
            },
    {
        let mut entries: Vec<Entry> = Vec::new();
        let mut i: usize = 0;
        proof {
            assert(records.deep_view().take(0) =~= Seq::<SerializableEntryView>::empty());
            assert(entries.deep_view() =~= Seq::<EntryView>::empty());
        }
        while i < records.len()
            invariant
                i <= records.len(),
                converted(records.deep_view().take(i as int), splits.deep_view()) == Ok::<
                    Seq<EntryView>,
                    DatabaseError,
                >(entries.deep_view()),
            decreases records.len() - i,
        {
            let record = &records[i];
            let ghost taken = records.deep_view().take(i + 1);
            let ghost before = entries.deep_view();
            proof {
                assert(taken.drop_last() =~= records.deep_view().take(i as int));
                assert(taken.last() == record@);
                assert(split_at(splits.deep_view(), i as int) == if i < splits.len() {
                    splits[i as int].deep_view()
                } else {
                    None
                });
            }
            let arguments = match &record.arguments {
                SerializableArguments::Arguments(arguments) => text::copy_of(arguments),
                SerializableArguments::Command(_) => {
                    if i < splits.len() {
                        match &splits[i] {
                            Some(arguments) => text::copy_of(arguments),
                            None => {
                                proof {
                                    lemma_converted_fails(
                                        records.deep_view(),
                                        splits.deep_view(),
                                        i + 1,
                                    );
                                }
                                return Err(DatabaseError::Command);
                            },
                        }
                    } else {
                        proof {
                            lemma_converted_fails(records.deep_view(), splits.deep_view(), i + 1);
                        }
                        return Err(DatabaseError::Command);
                    }
                },
            };
            let entry = Entry {
                file: record.file.clone(),
                directory: record.directory.clone(),
                output: match &record.output {
                    Some(file) => Some(file.clone()),
                    None => None,
                },
                arguments,
            };
            entries.push(entry);
            assert(entries.deep_view() =~= before.push(entry@));
            i += 1;
        }
        assert(records.deep_view().take(records.len() as int) =~= records.deep_view());
        let mut k: usize = 0;
        proof {
            assert(entries.deep_view().take(0) =~= Seq::<EntryView>::empty());
        }
        while k < entries.len()
            invariant
                k <= entries.len(),
                converted(records.deep_view(), splits.deep_view()) == Ok::<
                    Seq<EntryView>,
                    DatabaseError,
                >(entries.deep_view()),
                first_fault(entries.deep_view().take(k as int)) is None,
            decreases entries.len() - k,
        {
            let entry = &entries[k];
            proof {
                let taken = entries.deep_view().take(k + 1);
                assert(taken.drop_last() =~= entries.deep_view().take(k as int));
                assert(taken.last() == entry@);
            }
            let fault = if entry.file.as_str().unicode_len() == 0 {
                Some(DatabaseError::EmptyFile)
            } else if entry.directory.as_str().unicode_len() == 0 {
                Some(DatabaseError::EmptyDirectory)
            } else if has_empty_output(entry) {
                Some(DatabaseError::EmptyOutput)
            } else if entry.arguments.len() == 0 {
                Some(DatabaseError::EmptyArguments)
            } else {
                None
            };
            assert(fault == fault_of(entry@));
            if let Some(error) = fault {
                proof {
                    assert(first_fault(entries.deep_view().take(k + 1)) == Some(error));
                    lemma_fault_stays(entries.deep_view(), k + 1);
                }
                return Err(error);
            }
            k += 1;
        }
        assert(entries.deep_view().take(entries.len() as int) =~= entries.deep_view());
        Ok(entries)
    }

    /// The entries that a text holds. The splitter is asked for the
    /// arguments of each record that holds a command line, and for no other;
    /// whatever it answers, the result is the one that belongs to its
    /// answers, as `entries` says.
    pub fn from_json<S: Splitter>(&self, splitter: &S, input: &str) -> (result: Result<
        Vec<Entry>,
        DatabaseError,
    >)
        ensures
            match records_of(input@) {
                Err(error) => result == Err::<Vec<Entry>, DatabaseError>(error),
                Ok(records) => exists|splits: Seq<Option<Seq<Seq<char>>>>|
                    {
                        &&& asked_for(records, splits)
                        &&& match #[trigger] read_back(records, splits) {
                            Ok(entries) => result is Ok && result->Ok_0.deep_view() == entries,
                            Err(error) => result == Err::<Vec<Entry>, DatabaseError>(error),
                        }
                    },
            },
    {
        match self.read(input) {
            Ok(records) => {
                let mut splits: Vec<Option<Vec<String>>> = Vec::new();
                let mut i: usize = 0;
                while i < records.len()
                    invariant
                        i <= records.len(),
                        splits.len() == i,
                        forall|j: int|
                            0 <= j < i && (#[trigger] records[j]).arguments is Arguments
                                ==> splits[j] is None,
                    decreases records.len() - i,
                {
                    let answer = match &records[i].arguments {
                        SerializableArguments::Command(command) => splitter.split(
                            command.as_str(),
                        ),
                        SerializableArguments::Arguments(_) => None,
                    };
                    splits.push(answer);
                    i += 1;
                }
                let result = self.entries(&records, &splits);
                proof {
                    assert forall|j: int|
                        0 <= j < records.deep_view().len() && (
                        #[trigger] records.deep_view()[j]).arguments is Arguments implies split_at(
                        splits.deep_view(),
                        j,
                    ) is None by {
                        assert(records[j].arguments is Arguments);
                        assert(splits.deep_view()[j] == splits[j].deep_view());
                    }
                    assert(asked_for(records.deep_view(), splits.deep_view()));
                }
                result
            },
            Err(error) => Err(error),
        }
    }
}

/// Records that hold lists of arguments need no splitter: whatever the
/// answers are, the entries are the same.
pub proof fn lemma_lists_need_no_splitter(
    records: Seq<SerializableEntryView>,
    one: Seq<Option<Seq<Seq<char>>>>,
    other: Seq<Option<Seq<Seq<char>>>>,
)
    requires
        forall|j: int| 0 <= j < records.len() ==> (#[trigger] records[j]).arguments is Arguments,
    ensures
        converted(records, one) == converted(records, other),
        read_back(records, one) == read_back(records, other),
    decreases records.len(),
{
    if records.len() > 0 {
        assert forall|j: int| 0 <= j < records.drop_last().len() implies (
        #[trigger] records.drop_last()[j]).arguments is Arguments by {
            assert(records.drop_last()[j] == records[j]);
        }
        lemma_lists_need_no_splitter(records.drop_last(), one, other);
        assert(records.last() == records[records.len() - 1]);
    }
}

/// Whether the entry has an output that is an empty string.
fn has_empty_output(entry: &Entry) -> (result: bool)
    ensures
        result == (entry@.output matches Some(file) && file.len() == 0),
{
    match &entry.output {
        Some(file) => file.as_str().unicode_len() == 0,
        None => false,
    }
}

/// A list of records that fails at its beginning fails as a whole, in the
/// same way.
pub proof fn lemma_converted_fails(
    entries: Seq<SerializableEntryView>,
    splits: Seq<Option<Seq<Seq<char>>>>,
    count: int,
)
    requires
        0 <= count <= entries.len(),
        converted(entries.take(count), splits) is Err,
    ensures
        converted(entries, splits) == converted(entries.take(count), splits),
    decreases entries.len() - count,
{
    if count < entries.len() {
        assert(entries.take(count + 1).drop_last() =~= entries.take(count));
        lemma_converted_fails(entries, splits, count + 1);
    } else {
        assert(entries.take(count) =~= entries);
    }
}

/// The first fault of the beginning of a list is the first fault of the
/// list.
pub proof fn lemma_fault_stays(entries: Seq<EntryView>, count: int)
    requires
        0 <= count <= entries.len(),
        first_fault(entries.take(count)) is Some,
    ensures
        first_fault(entries) == first_fault(entries.take(count)),
    decreases entries.len() - count,
{
    if count < entries.len() {
        assert(entries.take(count + 1).drop_last() =~= entries.take(count));
        lemma_fault_stays(entries, count + 1);
    } else {
        assert(entries.take(count) =~= entries);
    }
}

/// The JSON document for a list of records.
pub fn document(records: &Vec<SerializableEntry>) -> (result: Json)
    ensures
        result@ == document_of(records.deep_view()),
{
    let mut items: Vec<Json> = Vec::new();
    let mut i: usize = 0;
    while i < records.len()
        invariant
            i <= records.len(),
            items.len() == i,
            forall|j: int| 0 <= j < i ==> (#[trigger] items[j])@ == json_of(records[j]@),
        decreases records.len() - i,
    {
        items.push(records[i].to_json());
        i += 1;
    }
    let result = Json::Array(items);
    proof {
        lemma_json_views(result);
        assert(items_of(items@) =~= document_of(records.deep_view())->Array_0);
    }
    result
}

/// The records that a JSON document stands for.
pub fn records_in(json: &Json) -> (result: Result<Vec<SerializableEntry>, DatabaseError>)
    ensures
        match decoded(json@) {
            Ok(records) => result is Ok && result->Ok_0.deep_view() == records,
            Err(error) => result == Err::<Vec<SerializableEntry>, DatabaseError>(error),
        },
{
    proof {
        lemma_json_views(*json);
    }
    let items = match json {
        Json::Array(items) => items,
        _ => {
            return Err(DatabaseError::Shape);
        },
    };
    let mut records: Vec<SerializableEntry> = Vec::new();
    let mut i: usize = 0;
    proof {
        assert(items_of(items@).take(0) =~= Seq::<JsonView>::empty());
        assert(records.deep_view() =~= Seq::<SerializableEntryView>::empty());
    }
    while i < items.len()
        invariant
            i <= items.len(),
            json@ == JsonView::Array(items_of(items@)),
            decoded_entries(items_of(items@).take(i as int)) == Ok::<
                Seq<SerializableEntryView>,
                DatabaseError,
            >(records.deep_view()),
        decreases items.len() - i,
    {
        let ghost taken = items_of(items@).take(i + 1);
        let ghost before = records.deep_view();
        proof {
            assert(taken.drop_last() =~= items_of(items@).take(i as int));
            assert(taken.last() == items[i as int]@);
        }
        match SerializableEntry::from_json(&items[i]) {
            Ok(record) => {
                records.push(record);
                assert(records.deep_view() =~= before.push(record@));
            },
            Err(error) => {
                proof {
                    assert(decoded_entries(taken) == Err::<
                        Seq<SerializableEntryView>,
                        DatabaseError,
                    >(error));
                    lemma_decoded_fails(items_of(items@), i + 1);
                }
                return Err(error);
            },
        }
        i += 1;
    }
    assert(items_of(items@).take(items.len() as int) =~= items_of(items@));
    Ok(records)
}

/// A list of values that fails at its beginning fails as a whole, in the
/// same way.
pub proof fn lemma_decoded_fails(items: Seq<JsonView>, count: int)
    requires
        0 <= count <= items.len(),
        decoded_entries(items.take(count)) is Err,
    ensures
        decoded_entries(items) == decoded_entries(items.take(count)),
    decreases items.len() - count,
{
    if count < items.len() {
        assert(items.take(count + 1).drop_last() =~= items.take(count));
        lemma_decoded_fails(items, count + 1);
    } else {
        assert(items.take(count) =~= items);
    }
}

/// A list without a faulty entry has no first fault.
pub proof fn lemma_no_fault(entries: Seq<EntryView>)
    requires
        forall|i: int| 0 <= i < entries.len() ==> fault_of(#[trigger] entries[i]) is None,
    ensures
        first_fault(entries) is None,
    decreases entries.len(),
{
    if entries.len() > 0 {
        assert forall|i: int| 0 <= i < entries.len() - 1 implies fault_of(
            #[trigger] entries.drop_last()[i],
        ) is None by {
            assert(entries.drop_last()[i] == entries[i]);
        }
        lemma_no_fault(entries.drop_last());
    }
}

/// An entry as it comes back from a database that was written in `format`:
/// without its output where the format drops it.
pub open spec fn returned(format: Format, entry: EntryView) -> EntryView {
    EntryView {
        file: entry.file,
        directory: entry.directory,
        output: if format.drop_output_field {
            None
        } else {
            entry.output
        },
        arguments: entry.arguments,
    }
}

/// Sound entries that are written as records, and the records as a JSON
/// document, come back from the document as they were, but for the output
/// where the format drops it. Where the records hold command lines, this
/// holds as far as the system splits each line into the arguments that it
/// was made of.
pub proof fn lemma_round_trip(
    format: Format,
    entries: Seq<EntryView>,
    splits: Seq<Option<Seq<Seq<char>>>>,
)
    requires
        format.command_as_array || split_back(entries, splits),
        forall|i: int| 0 <= i < entries.len() ==> fault_of(#[trigger] entries[i]) is None,
    ensures
        decoded(
            document_of(Seq::new(entries.len(), |i: int| serializable_of(format, entries[i]))),
        ) == Ok::<Seq<SerializableEntryView>, DatabaseError>(
            Seq::new(entries.len(), |i: int| serializable_of(format, entries[i])),
        ),
        read_back(
            Seq::new(entries.len(), |i: int| serializable_of(format, entries[i])),
            splits,
        ) == Ok::<Seq<EntryView>, DatabaseError>(
            Seq::new(entries.len(), |i: int| returned(format, entries[i])),
        ),
{
    let records = Seq::new(entries.len(), |i: int| serializable_of(format, entries[i]));
    let back = Seq::new(entries.len(), |i: int| returned(format, entries[i]));
    lemma_decode_document(records);
    lemma_converted_back(format, entries, splits);
    assert forall|i: int| 0 <= i < back.len() implies fault_of(#[trigger] back[i]) is None by {
        assert(fault_of(entries[i]) is None);
    }
    lemma_no_fault(back);
}

} // verus!
