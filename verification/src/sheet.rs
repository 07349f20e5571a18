//! The order of the contact sheet: which photos are shown and in what order.

use vstd::prelude::*;

use crate::columns::text_in;
use crate::model::{Label, PhotoEntry};
use crate::order::{arrange, ints, is_listing, lemma_ints_push, tie_by_position, Ranked};
use crate::path::{
    components, components_le, components_le_total, components_le_transitive, display_file_name,
    path_key, path_le, shown_name, texts, PathKey,
};
use crate::text::{
    chars_at_or_before, chars_le, chars_le_antisymmetric, chars_le_total, chars_le_transitive,
    same_chars, to_chars,
};
use crate::widgets::{shows, LabelFilter};

verus! {

/// The lower-case form of a text.
pub uninterp spec fn lowercase_of(text: Seq<char>) -> Seq<char>;

/// An ASCII character with capitals made small.
pub open spec fn ascii_lower(c: char) -> char {
    if 'A' <= c <= 'Z' {
        (c as u32 + 32) as char
    } else {
        c
    }
}

/// `str::to_lowercase` gives the Unicode lower-case form of a text, which
/// depends on the text alone; on ASCII text it makes capitals small and
/// leaves every other character as it is.
pub assume_specification[ str::to_lowercase ](text: &str) -> (lower: String)
    ensures
        lower@ == lowercase_of(text@),
        vstd::utf8::is_ascii_chars(text@) ==> lower@ == Seq::new(text@.len(), |i: int| ascii_lower(text@[i])),
;

/// The rows that a choice of labels shows.
pub open spec fn shown_rows(entries: Seq<PhotoEntry>, chosen: Set<Label>) -> spec_fn(int) -> bool {
    |i: int| 0 <= i < entries.len() && shows(chosen, entries[i].label)
}

/// Order by given names, then by path.
pub open spec fn by_names(entries: Seq<PhotoEntry>, names: Seq<Seq<char>>) -> spec_fn(int, int) -> bool {
    |p: int, q: int|
        if names[p] != names[q] {
            chars_le(names[p], names[q])
        } else {
            path_le(entries[p].rel_path@, entries[q].rel_path@)
        }
}

/// Order by given capture times, then by path; rows without one come last.
pub open spec fn by_times(entries: Seq<PhotoEntry>, stamps: Seq<Option<Seq<char>>>) -> spec_fn(int, int) -> bool {
    |p: int, q: int|
        match (stamps[p], stamps[q]) {
            (Some(a), Some(b)) => if a != b {
                chars_le(a, b)
            } else {
                path_le(entries[p].rel_path@, entries[q].rel_path@)
            },
            (Some(_), None) => true,
            (None, Some(_)) => false,
            (None, None) => path_le(entries[p].rel_path@, entries[q].rel_path@),
        }
}

/// The names rows are sorted by: the file name in lower case.
pub open spec fn sort_names(entries: Seq<PhotoEntry>) -> Seq<Seq<char>> {
    Seq::new(entries.len(), |i: int| lowercase_of(shown_name(entries[i].rel_path@)))
}

/// A name and a path, ready to be compared.
pub struct NameKey {
    /// The name.
    pub name: Vec<char>,
    /// The path.
    pub path: PathKey,
}

impl Ranked for NameKey {
    open spec fn rank_le(self, other: Self) -> bool {
        if self.name@ != other.name@ {
            chars_le(self.name@, other.name@)
        } else {
            components_le(self.path@, other.path@)
        }
    }

    proof fn rank_total(a: Self, b: Self) {
        chars_le_total(a.name@, b.name@);
        components_le_total(a.path@, b.path@);
    }

    proof fn rank_transitive(a: Self, b: Self, c: Self) {
        if a.name@ == b.name@ && b.name@ == c.name@ {
            components_le_transitive(a.path@, b.path@, c.path@);
        } else if a.name@ != b.name@ && b.name@ != c.name@ {
            chars_le_transitive(a.name@, b.name@, c.name@);
            if a.name@ == c.name@ {
                chars_le_antisymmetric(a.name@, b.name@);
            }
        }
    }

    fn ranks_at_or_before(&self, other: &Self) -> (r: bool) {
        if same_chars(&self.name, &other.name) {
            self.path.ranks_at_or_before(&other.path)
        } else {
            chars_at_or_before(&self.name, &other.name)
        }
    }
}

/// A capture time that may be missing and a path, ready to be compared.
pub struct TimeKey {
    /// The capture time.
    pub stamp: Option<Vec<char>>,
    /// The path.
    pub path: PathKey,
}

/// The content of an optional character vector.
pub open spec fn stamp_view(stamp: Option<Vec<char>>) -> Option<Seq<char>> {
    match stamp {
        Some(v) => Some(v@),
        None => None,
    }
}

impl Ranked for TimeKey {
    open spec fn rank_le(self, other: Self) -> bool {
        match (stamp_view(self.stamp), stamp_view(other.stamp)) {
            (Some(a), Some(b)) => if a != b {
                chars_le(a, b)
            } else {
                components_le(self.path@, other.path@)
            },
            (Some(_), None) => true,
            (None, Some(_)) => false,
            (None, None) => components_le(self.path@, other.path@),
        }
    }

    proof fn rank_total(a: Self, b: Self) {
        if let (Some(x), Some(y)) = (a.stamp, b.stamp) {
            chars_le_total(x@, y@);
        }
        components_le_total(a.path@, b.path@);
    }

    proof fn rank_transitive(a: Self, b: Self, c: Self) {
        match (a.stamp, b.stamp, c.stamp) {
            (Some(x), Some(y), Some(z)) => {
                if x@ == y@ && y@ == z@ {
                    components_le_transitive(a.path@, b.path@, c.path@);
                } else if x@ != y@ && y@ != z@ {
                    chars_le_transitive(x@, y@, z@);
                    if x@ == z@ {
                        chars_le_antisymmetric(x@, y@);
                    }
                }
            },
            (None, None, None) => {
                components_le_transitive(a.path@, b.path@, c.path@);
            },
            _ => {},
        }
    }

    fn ranks_at_or_before(&self, other: &Self) -> (r: bool) {
        match (&self.stamp, &other.stamp) {
            (Some(a), Some(b)) => {
                if same_chars(a, b) {
                    self.path.ranks_at_or_before(&other.path)
                } else {
                    chars_at_or_before(a, b)
                }
            },
            (Some(_), None) => true,
            (None, Some(_)) => false,
            (None, None) => self.path.ranks_at_or_before(&other.path),
        }
    }
}

/// The rows that the filter shows, in row order.
pub fn survivors(entries: &Vec<PhotoEntry>, filter: LabelFilter) -> (rows: Vec<usize>)
    ensures
        forall|a: int, b: int| 0 <= a < b < rows.len() ==> rows@[a] < rows@[b],
        forall|r: int| #[trigger] ints(rows@).contains(r) <==> shown_rows(entries@, filter@)(r),
{
    let mut rows: Vec<usize> = Vec::new();
    let mut i: usize = 0;
    while i < entries.len()
        invariant
            i <= entries.len(),
            forall|a: int| 0 <= a < rows.len() ==> #[trigger] rows@[a] < i,
            forall|a: int, b: int| 0 <= a < b < rows.len() ==> rows@[a] < rows@[b],
            forall|r: int| #[trigger] ints(rows@).contains(r) <==> r < i && shown_rows(entries@, filter@)(r),
        decreases entries.len() - i,
    {
        let ghost before = rows@;
        if filter.matches(entries[i].label) {
            rows.push(i);
            proof {
                lemma_ints_push(before, i);
            }
        }
        i = i + 1;
    }
    rows
}

/// The sheet in order of given names, one for each row.
pub fn view_by_name(entries: &Vec<PhotoEntry>, filter: LabelFilter, names: &Vec<Vec<char>>) -> (view: Vec<usize>)
    requires
        names.len() == entries.len(),
    ensures
        is_listing(
            ints(view@),
            shown_rows(entries@, filter@),
            tie_by_position(by_names(entries@, texts(names@))),
        ),
{
    let at: Vec<usize> = survivors(entries, filter);
    let mut keys: Vec<NameKey> = Vec::new();
    let mut k: usize = 0;
    while k < at.len()
        invariant
            k <= at.len(),
            names.len() == entries.len(),
            keys.len() == k,
            forall|r: int| #[trigger] ints(at@).contains(r) <==> shown_rows(entries@, filter@)(r),
            forall|x: int|
                0 <= x < k ==> (#[trigger] keys@[x]).name@ == names@[at@[x] as int]@ && keys@[x].path@ == components(
                    entries@[at@[x] as int].rel_path@,
                ),
        decreases at.len() - k,
    {
        let row: usize = at[k];
        proof {
            assert(ints(at@)[k as int] == row as int);
            assert(ints(at@).contains(row as int));
        }
        let mut name: Vec<char> = names[row].clone();
        proof {
            assert(name@ =~= names@[row as int]@);
        }
        keys.push(NameKey { name, path: path_key(entries[row].rel_path.as_str()) });
        k = k + 1;
    }
    let ghost le = by_names(entries@, texts(names@));
    proof {
        assert forall|a: int, b: int| 0 <= a < at.len() && 0 <= b < at.len() implies #[trigger] keys@[a].rank_le(
            keys@[b],
        ) == le(at@[a] as int, at@[b] as int) by {
            assert(ints(at@)[a] == at@[a] as int);
            assert(ints(at@)[b] == at@[b] as int);
            assert(ints(at@).contains(at@[a] as int));
            assert(ints(at@).contains(at@[b] as int));
        }
    }
    let view: Vec<usize> = arrange(&at, &keys, Ghost(le));
    proof {
        assert forall|p: int| #[trigger] ints(view@).contains(p) <==> shown_rows(entries@, filter@)(p) by {
            assert(ints(at@).contains(p) <==> shown_rows(entries@, filter@)(p));
        }
    }
    view
}

/// The contents of a list of optional texts.
pub open spec fn stamp_texts(stamps: Seq<Option<String>>) -> Seq<Option<Seq<char>>> {
    Seq::new(stamps.len(), |i: int| text_in(stamps[i]))
}

/// The sheet in order of given capture times, one for each row.
pub fn view_by_time(entries: &Vec<PhotoEntry>, filter: LabelFilter, stamps: &Vec<Option<String>>) -> (view: Vec<usize>)
    requires
        stamps.len() == entries.len(),
    ensures
        is_listing(
            ints(view@),
            shown_rows(entries@, filter@),
            tie_by_position(by_times(entries@, stamp_texts(stamps@))),
        ),
{
    let at: Vec<usize> = survivors(entries, filter);
    let mut keys: Vec<TimeKey> = Vec::new();
    let mut k: usize = 0;
    while k < at.len()
        invariant
            k <= at.len(),
            stamps.len() == entries.len(),
            keys.len() == k,
            forall|r: int| #[trigger] ints(at@).contains(r) <==> shown_rows(entries@, filter@)(r),
            forall|x: int|
                0 <= x < k ==> stamp_view((#[trigger] keys@[x]).stamp) == stamp_texts(stamps@)[at@[x] as int]
                    && keys@[x].path@ == components(entries@[at@[x] as int].rel_path@),
        decreases at.len() - k,
    {
        let row: usize = at[k];
        proof {
            assert(ints(at@)[k as int] == row as int);
            assert(ints(at@).contains(row as int));
        }
        let stamp: Option<Vec<char>> = match &stamps[row] {
            Some(text) => Some(to_chars(text.as_str())),
            None => None,
        };
        keys.push(TimeKey { stamp, path: path_key(entries[row].rel_path.as_str()) });
        k = k + 1;
    }
    let ghost le = by_times(entries@, stamp_texts(stamps@));
    proof {
        assert forall|a: int, b: int| 0 <= a < at.len() && 0 <= b < at.len() implies #[trigger] keys@[a].rank_le(
            keys@[b],
        ) == le(at@[a] as int, at@[b] as int) by {
            assert(ints(at@)[a] == at@[a] as int);
            assert(ints(at@)[b] == at@[b] as int);
            assert(ints(at@).contains(at@[a] as int));
            assert(ints(at@).contains(at@[b] as int));
        }
    }
    let view: Vec<usize> = arrange(&at, &keys, Ghost(le));
    proof {
        assert forall|p: int| #[trigger] ints(view@).contains(p) <==> shown_rows(entries@, filter@)(p) by {
            assert(ints(at@).contains(p) <==> shown_rows(entries@, filter@)(p));
        }
    }
    view
}

/// The lower-case file names of the rows.
pub fn lowered_names(entries: &Vec<PhotoEntry>) -> (names: Vec<Vec<char>>)
    ensures
        names.len() == entries.len(),
        texts(names@) == sort_names(entries@),
{
    let mut names: Vec<Vec<char>> = Vec::new();
    let mut i: usize = 0;
    while i < entries.len()
        invariant
            i <= entries.len(),
            names.len() == i,
            forall|k: int| 0 <= k < i ==> (#[trigger] names@[k])@ == sort_names(entries@)[k],
        decreases entries.len() - i,
    {
        let name: String = display_file_name(&entries[i].rel_path);
        let lower: String = name.as_str().to_lowercase();
        names.push(to_chars(lower.as_str()));
        i = i + 1;
    }
    proof {
        assert(texts(names@) =~= sort_names(entries@));
    }
    names
}

} // verus!
