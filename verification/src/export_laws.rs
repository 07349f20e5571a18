//! What an export counts, which names it writes and what it asks about.

use vstd::prelude::*;

use crate::export::{
    comma_joined, copies, distinct_names, failure_of, failures, first_of_its_name, held,
    preview_of_names, reach, CopyResult,
};
use crate::path::last_name;
use crate::text::decimal;

verus! {

/// A source fails if it has no file name or its copy failed; one that was
/// copied, or was in place, does not.
pub proof fn copies_fail_for_a_reason(source: Seq<char>, reason: String)
    ensures
        last_name(source) is Some ==> failure_of(source, CopyResult::Copied) is None,
        last_name(source) is Some ==> failure_of(source, CopyResult::InPlace) is None,
        last_name(source) is Some ==> failure_of(source, CopyResult::Failed(reason)) == Some(reason@),
        last_name(source) is None ==> failure_of(source, CopyResult::Copied) == Some("path has no file name"@),
        last_name(source) is None ==> failure_of(source, CopyResult::InPlace) == Some("path has no file name"@),
        last_name(source) is None ==> failure_of(source, CopyResult::Failed(reason)) == Some("path has no file name"@),
{
}

/// The copied files are counted one by one.
pub proof fn copies_are_counted(sources: Seq<String>, results: Seq<CopyResult>, k: int)
    requires
        0 <= k <= sources.len(),
        results.len() == sources.len(),
    ensures
        copies(sources, results, k) == Set::new(
            |i: int| 0 <= i < k && last_name(sources[i]@) is Some && !(results[i] is Failed),
        ).len(),
        Set::new(|i: int| 0 <= i < k && last_name(sources[i]@) is Some && !(results[i] is Failed)).finite(),
    decreases k,
{
    let good = Set::new(|i: int| 0 <= i < k && last_name(sources[i]@) is Some && !(results[i] is Failed));
    if k == 0 {
        assert(good =~= Set::<int>::empty());
    } else {
        copies_are_counted(sources, results, k - 1);
        let before = Set::new(|i: int| 0 <= i < k - 1 && last_name(sources[i]@) is Some && !(results[i] is Failed));
        if last_name(sources[k - 1]@) is Some && !(results[k - 1] is Failed) {
            assert(good =~= before.insert(k - 1));
        } else {
            assert(good =~= before);
        }
    }
}

/// A report names every source that failed and no other, each with why.
pub proof fn failures_are_reported(
    sources: Seq<String>,
    results: Seq<CopyResult>,
    k: int,
    failure: (Seq<char>, Seq<char>),
)
    requires
        0 <= k <= sources.len(),
        results.len() == sources.len(),
    ensures
        failures(sources, results, k).contains(failure) <==> exists|i: int|
            {
                &&& 0 <= i < k
                &&& (#[trigger] sources[i])@ == failure.0
                &&& ({
                    ||| last_name(failure.0) is None && failure.1 == "path has no file name"@
                    ||| last_name(failure.0) is Some && results[i] is Failed && results[i]->0@ == failure.1
                })
            },
    decreases k,
{
    if k > 0 {
        failures_are_reported(sources, results, k - 1, failure);
        let before = failures(sources, results, k - 1);
        if let Some(reason) = failure_of(sources[k - 1]@, results[k - 1]) {
            let last = (sources[k - 1]@, reason);
            crate::order::lemma_push_contains(before, last);
            assert(before.push(last).contains(failure) <==> before.contains(failure) || last == failure);
        }
    }
}

/// A run goes to its end, or stops where it was told to.
pub proof fn runs_stop_when_told(sources: int, stop: Option<usize>)
    requires
        sources >= 0,
    ensures
        stop is None ==> reach(sources, stop) == sources,
        stop matches Some(k) ==> k <= sources ==> reach(sources, stop) == k,
        stop matches Some(k) ==> k > sources ==> reach(sources, stop) == sources,
{
}

/// An export writes the file names of its sources, each once.
pub proof fn names_are_written_once(sources: Seq<String>, k: int, name: Seq<char>)
    requires
        0 <= k <= sources.len(),
    ensures
        distinct_names(sources, k).contains(name) <==> exists|i: int|
            0 <= i < k && last_name((#[trigger] sources[i])@) == Some(name),
        distinct_names(sources, k).no_duplicates(),
    decreases k,
{
    if k > 0 {
        names_are_written_once(sources, k - 1, name);
        let before = distinct_names(sources, k - 1);
        let last = last_name(sources[k - 1]@);
        if first_of_its_name(sources, k - 1) {
            crate::order::lemma_push_contains(before, last->0);
            assert(before.push(last->0).contains(name) <==> before.contains(name) || last->0 == name);
            assert(!before.contains(last->0)) by {
                names_are_written_once(sources, k - 1, last->0);
                if before.contains(last->0) {
                    let i = choose|i: int| 0 <= i < k - 1 && last_name((#[trigger] sources[i])@) == Some(last->0);
                    assert(last_name(sources[i]@) != last_name(sources[k - 1]@));
                }
            }
            let all = distinct_names(sources, k);
            assert forall|i: int, j: int| 0 <= i < all.len() && 0 <= j < all.len() && i != j implies all[i] != all[j] by {
                if i == before.len() {
                    assert(before.contains(before[j]));
                } else if j == before.len() {
                    assert(before.contains(before[i]));
                }
            }
        } else if last == Some(name) {
            let j = choose|j: int| 0 <= j < k - 1 && last_name((#[trigger] sources[j])@) == last_name(sources[k - 1]@);
            assert(last_name(sources[j]@) == Some(name));
        }
        if exists|i: int| 0 <= i < k && last_name((#[trigger] sources[i])@) == Some(name) {
            let i = choose|i: int| 0 <= i < k && last_name((#[trigger] sources[i])@) == Some(name);
            if i == k - 1 && first_of_its_name(sources, k - 1) {
                assert(distinct_names(sources, k).contains(name));
            }
        }
        if first_of_its_name(sources, k - 1) && last->0 == name {
            assert(last_name(sources[k - 1]@) == Some(name));
        }
    }
}

/// The overwrite question is about the names that would be written and are
/// there already, and no others; in the order in which they would be written.
pub proof fn clashes_are_asked_about(names: Seq<Seq<char>>, present: Seq<Seq<char>>, name: Seq<char>)
    ensures
        held(names, present).contains(name) <==> names.contains(name) && present.contains(name),
        (forall|i: int| 0 <= i < names.len() ==> present.contains(#[trigger] names[i])) ==> held(names, present) == names,
    decreases names.len(),
{
    if names.len() > 0 {
        let rest = names.drop_last();
        clashes_are_asked_about(rest, present, name);
        let before = held(rest, present);
        crate::order::lemma_push_contains(before, names.last());
        assert(names =~= rest.push(names.last()));
        crate::order::lemma_push_contains(rest, names.last());
        assert(names.contains(name) <==> rest.contains(name) || names.last() == name);
        if present.contains(names.last()) {
            assert(before.push(names.last()).contains(name) <==> before.contains(name) || names.last() == name);
        }
        if forall|i: int| 0 <= i < names.len() ==> present.contains(#[trigger] names[i]) {
            assert forall|i: int| 0 <= i < rest.len() implies present.contains(#[trigger] rest[i]) by {
                assert(rest[i] == names[i]);
            }
            assert(present.contains(names[names.len() - 1]));
        }
    } else {
        assert(held(names, present) =~= names);
    }
}

/// Up to four names are listed with commas; of more the first four, and how
/// many more there are.
pub proof fn four_names_are_listed(a: Seq<char>, b: Seq<char>, c: Seq<char>, d: Seq<char>, more: Seq<Seq<char>>)
    ensures
        preview_of_names(seq![a]) == a,
        preview_of_names(seq![a, b]) == a + ", "@ + b,
        preview_of_names(seq![a, b, c]) == a + ", "@ + b + ", "@ + c,
        preview_of_names(seq![a, b, c, d]) == a + ", "@ + b + ", "@ + c + ", "@ + d,
        more.len() > 0 ==> preview_of_names(seq![a, b, c, d] + more) == a + ", "@ + b + ", "@ + c + ", "@ + d + ", … and "@
            + decimal(more.len()) + " more"@,
{
    let one = seq![a];
    let two = seq![a, b];
    let three = seq![a, b, c];
    let four = seq![a, b, c, d];
    assert(two.drop_last() =~= one);
    assert(three.drop_last() =~= two);
    assert(four.drop_last() =~= three);
    assert(comma_joined(one) == a);
    assert(comma_joined(two) == a + ", "@ + b);
    assert(comma_joined(three) == a + ", "@ + b + ", "@ + c);
    assert(comma_joined(four) == a + ", "@ + b + ", "@ + c + ", "@ + d);
    let all = four + more;
    assert(all.take(4) =~= four);
}

} // verus!
