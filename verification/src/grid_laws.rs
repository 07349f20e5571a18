//! What the sheet promises across its operations.

use vstd::prelude::*;

use crate::frame::preset_cycled;
use crate::grid::{cursor_fits, known_stamps, loupe_fits, row_at, slot_of_row, view_fits, GridView};
use crate::loupe::LoupeView;
use crate::model::{Label, PhotoEntry, PhotoId, PhotoStatus};
use crate::order::{ints, listing_is_unique};
use crate::progress::{export_paths, landed, landing_id, row_files, row_of_id};
use crate::selection::{id_shown, step_target, stepped, NavKey};
use crate::sheet::shown_rows;
use crate::widgets::{shows, SortKey};

verus! {

/// The sheet shows a row exactly if the filter lets its label through, and
/// shows it once.
pub proof fn sheet_shows_exactly_the_matching_rows(
    entries: Seq<PhotoEntry>,
    chosen: Set<Label>,
    sort: SortKey,
    taken_at: Map<u64, Option<String>>,
    view: Seq<usize>,
)
    requires
        view_fits(entries, chosen, sort, taken_at, view),
    ensures
        view.no_duplicates(),
        forall|row: usize| #[trigger]
            view.contains(row) <==> row < entries.len() && shows(chosen, entries[row as int].label),
{
    let list = ints(view);
    assert forall|a: int, b: int| 0 <= a < view.len() && 0 <= b < view.len() && a != b implies view[a] != view[b] by {
        assert(list[a] == view[a] as int);
        assert(list[b] == view[b] as int);
    }
    assert forall|row: usize| #[trigger]
        view.contains(row) <==> row < entries.len() && shows(chosen, entries[row as int].label) by {
        assert(list.contains(row as int) <==> shown_rows(entries, chosen)(row as int));
        if view.contains(row) {
            let k = choose|k: int| 0 <= k < view.len() && view[k] == row;
            assert(list[k] == row as int);
        }
        if list.contains(row as int) {
            let k = choose|k: int| 0 <= k < list.len() && list[k] == row as int;
            assert(view[k] == row);
        }
    }
}

/// Rows, filter, order and capture times determine the sheet.
pub proof fn sheet_is_determined(
    entries: Seq<PhotoEntry>,
    chosen: Set<Label>,
    sort: SortKey,
    taken_at: Map<u64, Option<String>>,
    a: Seq<usize>,
    b: Seq<usize>,
)
    requires
        view_fits(entries, chosen, sort, taken_at, a),
        view_fits(entries, chosen, sort, taken_at, b),
    ensures
        a == b,
{
    listing_is_unique(
        ints(a),
        ints(b),
        shown_rows(entries, chosen),
        crate::grid::sheet_order(entries, sort, taken_at),
    );
    assert(a.len() == ints(a).len() && b.len() == ints(b).len());
    assert forall|k: int| 0 <= k < a.len() implies a[k] == b[k] by {
        assert(ints(a)[k] == a[k] as int);
        assert(ints(b)[k] == b[k] as int);
    }
    assert(a =~= b);
}

/// In order of capture time, photos without one come after all that have one.
pub proof fn unknown_times_come_last(
    entries: Seq<PhotoEntry>,
    chosen: Set<Label>,
    taken_at: Map<u64, Option<String>>,
    view: Seq<usize>,
    i: int,
    j: int,
)
    requires
        view_fits(entries, chosen, SortKey::TakenAt, taken_at, view),
        0 <= i < j < view.len(),
        known_stamps(entries, taken_at)[view[i] as int] is None,
    ensures
        known_stamps(entries, taken_at)[view[j] as int] is None,
{
    assert(ints(view)[i] == view[i] as int);
    assert(ints(view)[j] == view[j] as int);
}

/// When the sheet changes and the photo under the cursor is still shown, the
/// cursor stays on it; it never leaves the sheet.
pub proof fn cursor_stays_with_its_photo(
    before: Seq<usize>,
    cursor: Option<usize>,
    after: Seq<usize>,
    now: Option<usize>,
)
    requires
        cursor_fits(before, cursor, after, now),
        after.len() <= usize::MAX,
    ensures
        now is None <==> after.len() == 0,
        now matches Some(p) ==> p < after.len(),
        row_at(before, cursor) matches Some(row) ==> after.contains(row) ==> row_at(after, now) == Some(row),
{
}

/// When the sheet changes the loupe stays on its photo, or closes.
pub proof fn loupe_stays_with_its_photo(
    before: Seq<usize>,
    loupe: LoupeView,
    after: Seq<usize>,
    now: Option<LoupeView>,
)
    requires
        loupe_fits(before, Some(loupe), after, now),
    ensures
        match now {
            Some(open) => {
                &&& row_at(after, Some(open.index)) is Some
                &&& row_at(after, Some(open.index)) == row_at(before, Some(loupe.index))
                &&& open.lightbox == loupe.lightbox
            },
            None => row_at(before, Some(loupe.index)) matches Some(row) ==> !after.contains(row),
        },
{
    match row_at(before, Some(loupe.index)) {
        Some(row) if after.contains(row) => {
            let slot = choose|slot: usize| #[trigger]
                slot_of_row(after, row, Some(slot)) && now == Some(crate::loupe::moved(loupe, slot));
            assert(slot_of_row(after, row, Some(slot)));
        },
        _ => {},
    }
}

/// A change of filter touches neither the rows nor the selection, so photos
/// that it hides stay selected.
pub proof fn filtering_keeps_the_selection(before: GridView, after: GridView)
    requires
        preset_cycled(before, after),
    ensures
        after.selection@ == before.selection@,
        after.entries@ == before.entries@,
        after.auto_advance == before.auto_advance,
{
}

/// A change of filter shows the rows that the new filter lets through, in
/// display order, and moves nothing but the cursor, which is scrolled into
/// view, and the loupe.
pub proof fn filtering_changes_the_view_only(before: GridView, after: GridView)
    requires
        preset_cycled(before, after),
    ensures
        view_fits(before.entries@, after.filter@, before.sort, before.taken_at@, after.view@),
        cursor_fits(before.view@, before.cursor, after.view@, after.cursor),
        loupe_fits(before.view@, before.loupe, after.view@, after.loupe),
        after.cursor is Some ==> after.scroll_target == after.cursor,
        after.cursor is None ==> after.scroll_target == before.scroll_target,
        after == (GridView {
            filter: after.filter,
            view: after.view,
            cursor: after.cursor,
            scroll_target: after.scroll_target,
            loupe: after.loupe,
            ..before
        }),
{
}

/// A file belongs to the photo at one of the first `k` positions, and that
/// photo is exported.
pub open spec fn exported_at(
    root: Seq<char>,
    entries: Seq<PhotoEntry>,
    view: Seq<usize>,
    selection: Set<PhotoId>,
    k: int,
    file: Seq<char>,
) -> bool {
    exists|p: int|
        0 <= p < k && #[trigger] id_shown(entries, view, p) is Some && row_files(root, entries[view[p] as int]).contains(
            file,
        ) && (selection == Set::<PhotoId>::empty() || selection.contains(entries[view[p] as int].id))
}

/// An export copies exactly the files of the photos on the sheet, or of the
/// selected ones among them.
pub proof fn exports_stay_on_the_sheet(
    root: Seq<char>,
    entries: Seq<PhotoEntry>,
    view: Seq<usize>,
    selection: Set<PhotoId>,
    k: int,
    file: Seq<char>,
)
    requires
        0 <= k <= view.len(),
    ensures
        export_paths(root, entries, view, selection, k).contains(file) <==> exported_at(
            root,
            entries,
            view,
            selection,
            k,
            file,
        ),
    decreases k,
{
    if k > 0 {
        exports_stay_on_the_sheet(root, entries, view, selection, k - 1, file);
        let before = export_paths(root, entries, view, selection, k - 1);
        let all = export_paths(root, entries, view, selection, k);
        let row = view[k - 1] as int;
        let picked = row < entries.len() && (selection == Set::<PhotoId>::empty() || selection.contains(
            entries[row].id,
        ));
        if picked {
            let own = row_files(root, entries[row]);
            assert(all == before + own);
            if own.contains(file) {
                let i = choose|i: int| 0 <= i < own.len() && own[i] == file;
                assert(all[before.len() + i] == file);
                assert(id_shown(entries, view, k - 1) is Some);
            }
            if before.contains(file) {
                let i = choose|i: int| 0 <= i < before.len() && before[i] == file;
                assert(all[i] == file);
            }
            if all.contains(file) {
                let i = choose|i: int| 0 <= i < all.len() && all[i] == file;
                if i >= before.len() {
                    assert(own[i - before.len()] == file);
                } else {
                    assert(before[i] == file);
                }
            }
        }
        if exported_at(root, entries, view, selection, k - 1, file) {
            let p = choose|p: int|
                0 <= p < k - 1 && #[trigger] id_shown(entries, view, p) is Some && row_files(
                    root,
                    entries[view[p] as int],
                ).contains(file) && (selection == Set::<PhotoId>::empty() || selection.contains(
                    entries[view[p] as int].id,
                ));
            assert(id_shown(entries, view, p) is Some);
        }
        if exported_at(root, entries, view, selection, k, file) {
            let p = choose|p: int|
                0 <= p < k && #[trigger] id_shown(entries, view, p) is Some && row_files(
                    root,
                    entries[view[p] as int],
                ).contains(file) && (selection == Set::<PhotoId>::empty() || selection.contains(
                    entries[view[p] as int].id,
                ));
            assert(id_shown(entries, view, p) is Some);
        }
    }
}

/// A finished extraction never turns the progress back, never carries it past
/// the size of the batch, and keeps ids in their rows.
pub proof fn extraction_progress_is_sound(
    before: GridView,
    row: Option<usize>,
    id: PhotoId,
    status: PhotoStatus,
    fresh: Option<PhotoEntry>,
    after: GridView,
)
    requires
        row_of_id(before.entries@, landing_id(id, fresh), row),
        landed(before, row, status, fresh, after),
        before.ingest_done <= before.ingest_total,
    ensures
        before.ingest_done <= after.ingest_done <= after.ingest_total,
        after.ingest_total == before.ingest_total,
        row is Some && before.ingest_done < before.ingest_total ==> after.ingest_done == before.ingest_done + 1,
        after.view@ == before.view@,
        after.entries@.len() == before.entries@.len(),
        forall|i: int| 0 <= i < before.entries@.len() ==> (#[trigger] after.entries@[i]).id == before.entries@[i].id,
{
}

/// Arrow keys keep the cursor on the sheet, and on a full sheet a step up and
/// a step down undo each other.
pub proof fn steps_stay_on_the_sheet(cursor: usize, key: NavKey, columns: usize, len: usize)
    requires
        cursor < len,
    ensures
        stepped(cursor, key, columns, len) matches Some(next) ==> next < len,
        columns > 0 && cursor + columns < len ==> stepped(
            stepped(cursor, NavKey::ArrowDown, columns, len)->0,
            NavKey::ArrowUp,
            columns,
            len,
        ) == Some(cursor),
        cursor + 1 < len ==> stepped(
            stepped(cursor, NavKey::ArrowRight, columns, len)->0,
            NavKey::ArrowLeft,
            columns,
            len,
        ) == Some(cursor),
        step_target(cursor as int, NavKey::Other, columns as int) is None,
{
}

} // verus!
