//! What exports copy, how rows are counted and where extractions land.

use vstd::prelude::*;

use crate::export::ExportReport;
use crate::frame::{action_fits, export_list, Action};
use crate::grid::GridView;
use crate::model::{Label, PhotoEntry, PhotoId, PhotoStatus};
use crate::path::joined;
use crate::progress::{
    body_of, button_words, error_count, export_paths, label_count, landed, landing_id, outcome_is_bad,
    outcome_words, row_of_id, stats_words, SheetBody,
};
use crate::text::decimal;
use crate::widgets::grouped_text;

verus! {

/// An export lists, for every position of the sheet whose photo is selected,
/// or for every position if nothing is selected, the original in the folder
/// and its companion right behind it, whatever the state and the label of the
/// photo; for the other positions it lists nothing.
pub proof fn exports_list_every_chosen_photo(
    root: Seq<char>,
    entries: Seq<PhotoEntry>,
    view: Seq<usize>,
    selection: Set<PhotoId>,
    p: int,
)
    requires
        0 <= p < view.len(),
    ensures
        export_paths(root, entries, view, selection, 0).len() == 0,
        ({
            let list = export_paths(root, entries, view, selection, view.len() as int);
            let at = export_paths(root, entries, view, selection, p).len() as int;
            let next = export_paths(root, entries, view, selection, p + 1).len() as int;
            let row = view[p] as int;
            let chosen = row < entries.len() && (selection == Set::<PhotoId>::empty() || selection.contains(
                entries[row].id,
            ));
            &&& at <= next <= list.len()
            &&& chosen ==> at < list.len() && list[at] == joined(root, entries[row].rel_path@)
            &&& (chosen && entries[row].jpeg_rel_path is Some ==> {
                &&& next == at + 2
                &&& at + 1 < list.len()
                &&& list[at + 1] == joined(root, entries[row].jpeg_rel_path->0@)
            })
            &&& (chosen && entries[row].jpeg_rel_path is None ==> next == at + 1)
            &&& !chosen ==> next == at
        }),
{
    lemma_exports_grow(root, entries, view, selection, p + 1, view.len() as int);
    let own = export_paths(root, entries, view, selection, p + 1);
    let list = export_paths(root, entries, view, selection, view.len() as int);
    assert forall|i: int| 0 <= i < own.len() implies list[i] == own[i] by {
        assert(list.take(own.len() as int)[i] == list[i]);
    }
}

proof fn lemma_exports_grow(
    root: Seq<char>,
    entries: Seq<PhotoEntry>,
    view: Seq<usize>,
    selection: Set<PhotoId>,
    a: int,
    b: int,
)
    requires
        0 <= a <= b <= view.len(),
    ensures
        export_paths(root, entries, view, selection, a).len() <= export_paths(root, entries, view, selection, b).len(),
        export_paths(root, entries, view, selection, b).take(
            export_paths(root, entries, view, selection, a).len() as int,
        ) == export_paths(root, entries, view, selection, a),
    decreases b - a,
{
    let first = export_paths(root, entries, view, selection, a);
    let all = export_paths(root, entries, view, selection, b);
    if a < b {
        lemma_exports_grow(root, entries, view, selection, a, b - 1);
        let before = export_paths(root, entries, view, selection, b - 1);
        assert(all.take(before.len() as int) =~= before);
        assert(all.take(first.len() as int) =~= before.take(first.len() as int));
    } else {
        assert(all.take(first.len() as int) =~= first);
    }
}

/// Every file that an export lists is the original or the companion of a
/// chosen photo on the sheet.
pub proof fn exports_list_nothing_else(
    root: Seq<char>,
    entries: Seq<PhotoEntry>,
    view: Seq<usize>,
    selection: Set<PhotoId>,
    k: int,
    i: int,
)
    requires
        0 <= k <= view.len(),
        0 <= i < export_paths(root, entries, view, selection, k).len(),
    ensures
        exists|p: int|
            {
                &&& 0 <= p < k
                &&& (#[trigger] view[p]) < entries.len()
                &&& selection == Set::<PhotoId>::empty() || selection.contains(entries[view[p] as int].id)
                &&& {
                    ||| export_paths(root, entries, view, selection, k)[i] == joined(
                        root,
                        entries[view[p] as int].rel_path@,
                    )
                    ||| entries[view[p] as int].jpeg_rel_path matches Some(jpeg) && export_paths(
                        root,
                        entries,
                        view,
                        selection,
                        k,
                    )[i] == joined(root, jpeg@)
                }
            },
    decreases k,
{
    let before = export_paths(root, entries, view, selection, k - 1);
    if i < before.len() {
        exports_list_nothing_else(root, entries, view, selection, k - 1, i);
        assert(export_paths(root, entries, view, selection, k)[i] == before[i]);
    } else {
        assert(view[k - 1] < entries.len());
    }
}

/// The export key and button ask for the chosen files of the folder, unless an
/// export is running or there are none; Escape leaves the folder then, and
/// only Escape does.
pub proof fn exports_come_before_leaving(grid: GridView, escape: bool, export: bool, action: Option<Action>)
    requires
        action_fits(grid, escape, export, action),
    ensures
        ({
            let list = export_paths(grid.root@, grid.entries@, grid.view@, grid.selection@, grid.view@.len() as int);
            let runs = grid.export_done < grid.export_total;
            let starts = export && !runs && list.len() > 0;
            &&& starts ==> action is Some && action->0 is Export && action->0->root@ == grid.root@ && action->0->files@.len()
                == list.len() && forall|i: int| 0 <= i < list.len() ==> (#[trigger] action->0->files@[i])@ == list[i]
            &&& !starts && escape ==> action == Some(Action::BackToHome)
            &&& !starts && !escape ==> action is None
        }),
{
    if export && grid.export_done >= grid.export_total && export_list(grid).len() > 0 {
        let files = action->0->files@;
        assert(crate::export::contents(files).len() == files.len());
        assert forall|i: int| 0 <= i < files.len() implies (#[trigger] files[i])@ == export_list(grid)[i] by {
            assert(crate::export::contents(files)[i] == files[i]@);
        }
    }
}

/// The rows with a label are counted one by one, and so are the failed rows.
pub proof fn counts_count_rows(entries: Seq<PhotoEntry>, label: Label, k: int)
    requires
        0 <= k <= entries.len(),
    ensures
        label_count(entries, label, k) == Set::new(|i: int| 0 <= i < k && entries[i].label == label).len(),
        error_count(entries, k) == Set::new(|i: int| 0 <= i < k && entries[i].status == PhotoStatus::Error).len(),
        Set::new(|i: int| 0 <= i < k && entries[i].label == label).finite(),
        Set::new(|i: int| 0 <= i < k && entries[i].status == PhotoStatus::Error).finite(),
    decreases k,
{
    let labeled = Set::new(|i: int| 0 <= i < k && entries[i].label == label);
    let failed = Set::new(|i: int| 0 <= i < k && entries[i].status == PhotoStatus::Error);
    if k == 0 {
        assert(labeled =~= Set::<int>::empty());
        assert(failed =~= Set::<int>::empty());
    } else {
        counts_count_rows(entries, label, k - 1);
        let labeled_before = Set::new(|i: int| 0 <= i < k - 1 && entries[i].label == label);
        let failed_before = Set::new(|i: int| 0 <= i < k - 1 && entries[i].status == PhotoStatus::Error);
        if entries[k - 1].label == label {
            assert(labeled =~= labeled_before.insert(k - 1));
        } else {
            assert(labeled =~= labeled_before);
        }
        if entries[k - 1].status == PhotoStatus::Error {
            assert(failed =~= failed_before.insert(k - 1));
        } else {
            assert(failed =~= failed_before);
        }
    }
}

/// Every row has exactly one of the six labels.
pub proof fn label_counts_add_up(entries: Seq<PhotoEntry>, k: int)
    requires
        0 <= k <= entries.len(),
    ensures
        label_count(entries, Label::Unlabeled, k) + label_count(entries, Label::Red, k) + label_count(
            entries,
            Label::Yellow,
            k,
        ) + label_count(entries, Label::Green, k) + label_count(entries, Label::Blue, k) + label_count(
            entries,
            Label::Purple,
            k,
        ) == k,
    decreases k,
{
    if k > 0 {
        label_counts_add_up(entries, k - 1);
    }
}

/// A finished extraction replaces the row of its photo, or sets the state of
/// that row where it could not be read back; every other row stays, and a
/// photo that is not on the sheet changes nothing.
pub proof fn extractions_land_on_their_photo(
    before: GridView,
    id: PhotoId,
    status: PhotoStatus,
    fresh: Option<PhotoEntry>,
    row: Option<usize>,
    after: GridView,
    i: int,
)
    requires
        row_of_id(before.entries@, landing_id(id, fresh), row),
        landed(before, row, status, fresh, after),
        0 <= i < before.entries@.len(),
        forall|a: int, b: int|
            0 <= a < b < before.entries@.len() ==> (#[trigger] before.entries@[a]).id != (#[trigger] before.entries@[b]).id,
    ensures
        ({
            let target = match fresh {
                Some(entry) => entry.id,
                None => id,
            };
            &&& before.entries@[i].id != target ==> after.entries@[i] == before.entries@[i]
            &&& before.entries@[i].id == target && fresh is Some ==> after.entries@[i] == fresh->0
            &&& before.entries@[i].id == target && fresh is None ==> after.entries@[i] == (PhotoEntry {
                status,
                ..before.entries@[i]
            })
            &&& before.entries@[i].id == target ==> after.ingest_done == (if before.ingest_done < before.ingest_total {
                before.ingest_done + 1
            } else {
                before.ingest_done as int
            })
            &&& after.entries@.len() == before.entries@.len()
            &&& after == (GridView { entries: after.entries, ingest_done: after.ingest_done, ..before })
        }),
        (forall|k: int| 0 <= k < before.entries@.len() ==> (#[trigger] before.entries@[k]).id != (match fresh {
            Some(entry) => entry.id,
            None => id,
        })) ==> after == before,
{
    match row {
        Some(r) => {
            assert(before.entries@[r as int].id == landing_id(id, fresh));
            if before.entries@[i].id == landing_id(id, fresh) {
                assert(i == r) by {
                    if i < r {
                        assert(before.entries@[i].id != before.entries@[r as int].id);
                    } else if r < i {
                        assert(before.entries@[r as int].id != before.entries@[i].id);
                    }
                }
            }
        },
        None => {
            assert(before.entries@[i].id != landing_id(id, fresh));
        },
    }
}

/// An export that was cancelled, failed, or left files out is bad news; any
/// other is not.
pub proof fn bad_exports_alert(outcome: Result<ExportReport, String>)
    ensures
        outcome_is_bad(outcome) <==> match outcome {
            Ok(report) => report.cancelled || report.failures@.len() != 0,
            Err(_) => true,
        },
        outcome matches Err(error) ==> outcome_words(outcome) == "Export failed: "@ + error@,
        outcome matches Ok(report) ==> report.cancelled ==> outcome_words(outcome) == "Export cancelled"@,
        outcome matches Ok(report) ==> !report.cancelled && report.failures@.len() == 0 && report.copied == 0
            ==> outcome_words(outcome) == "Nothing to copy"@,
        outcome matches Ok(report) ==> !report.cancelled && report.failures@.len() == 0 && report.copied > 0
            ==> outcome_words(outcome) == "✓ Exported "@ + grouped_text(report.copied as nat),
        outcome matches Ok(report) ==> !report.cancelled && report.failures@.len() > 0 ==> outcome_words(outcome)
            == "Exported "@ + grouped_text(report.copied as nat) + " · "@ + grouped_text(report.failures@.len())
            + " failed"@,
{
}

/// The status line says that a scan runs; else how many photos there are, or
/// how many of them are shown, then how far extraction is and how many photos
/// are selected, each only if there is something to say.
pub proof fn the_status_line_counts(grid: GridView, rate: u64)
    ensures
        grid.loading ==> stats_words(grid, rate) == "Scanning…"@,
        ({
            let n = grid.entries@.len();
            let plain = grid.filter@ == Set::<Label>::empty();
            let head = if plain && n == 1 {
                grouped_text(1) + " photo"@
            } else if plain {
                grouped_text(n) + " photos"@
            } else {
                grouped_text(grid.view@.len()) + " / "@ + grouped_text(n) + " shown"@
            };
            let runs = grid.ingest_done < grid.ingest_total;
            let middle = " · extracting "@ + decimal(grid.ingest_done as nat) + " / "@ + decimal(
                grid.ingest_total as nat,
            ) + " · "@ + decimal(rate as nat) + "/s"@;
            let tail = " · "@ + grouped_text(grid.selection@.len()) + " selected"@;
            let selects = grid.selection@ != Set::<PhotoId>::empty();
            &&& !grid.loading && !runs && !selects ==> stats_words(grid, rate) == head
            &&& !grid.loading && runs && !selects ==> stats_words(grid, rate) == head + middle
            &&& !grid.loading && !runs && selects ==> stats_words(grid, rate) == head + tail
            &&& !grid.loading && runs && selects ==> stats_words(grid, rate) == head + middle + tail
        }),
{
    let none = Seq::<char>::empty();
    assert forall|s: Seq<char>| #[trigger] (s + none) == s by {
        assert(s + none =~= s);
    }
}

/// The export button counts what is left while an export runs, and otherwise
/// says how many photos it would copy: the selected ones, or all shown.
pub proof fn the_export_button_counts(grid: GridView)
    ensures
        grid.export_done < grid.export_total ==> button_words(grid) == "Exporting "@ + grouped_text(
            grid.export_done as nat,
        ) + " / "@ + grouped_text(grid.export_total as nat) + "…"@,
        grid.export_done >= grid.export_total && grid.selection@ == Set::<PhotoId>::empty() ==> button_words(grid)
            == "Export "@ + grouped_text(grid.view@.len()),
        grid.export_done >= grid.export_total && grid.selection@ != Set::<PhotoId>::empty() ==> button_words(grid)
            == "Export "@ + grouped_text(grid.selection@.len()),
{
}

/// Tiles are shown exactly if nothing else has to be: no loupe, no running
/// scan, no failure, and a photo that the filter lets through. Without a loupe
/// a running scan is said first, then a failure, then an empty folder.
pub proof fn the_sheet_shows_last(grid: GridView)
    ensures
        body_of(grid) == SheetBody::Sheet <==> grid.loupe is None && !grid.loading && grid.error is None
            && grid.entries@.len() > 0 && grid.view@.len() > 0,
        body_of(grid) == SheetBody::Loupe <==> grid.loupe is Some,
        body_of(grid) == SheetBody::Scanning <==> grid.loupe is None && grid.loading,
        body_of(grid) == SheetBody::Failed <==> grid.loupe is None && !grid.loading && grid.error is Some,
        body_of(grid) == SheetBody::NoPhotos <==> grid.loupe is None && !grid.loading && grid.error is None
            && grid.entries@.len() == 0,
        body_of(grid) == SheetBody::NoMatches <==> grid.loupe is None && !grid.loading && grid.error is None
            && grid.entries@.len() > 0 && grid.view@.len() == 0,
{
}

} // verus!
