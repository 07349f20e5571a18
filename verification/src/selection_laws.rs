//! What clicks, keys, labels and turns do to the sheet, photo by photo.

use vstd::prelude::*;

use crate::columns::PhotoRow;
use crate::db::all_labeled;
use crate::grid::GridView;
use crate::model::{label_code, Label, PhotoEntry, PhotoId, PhotoStatus};
use crate::row_laws::labels_land_on_the_named_rows;
use crate::selection::{
    fails_at, gesture_applied, id_shown, ids_among, ids_between, just, label_applied, label_changes,
    next_failure, row_under, search_start, shown_among, shown_between, stepped, toggled,
    turn_applied, turn_updates, turned_row, turned_selection, Gesture, NavKey,
};
use crate::widgets::RotateDir;

verus! {

/// Labels with a selection: a photo is reported if and only if it is selected
/// and had another label, and every selected row then has the label. The
/// others stay as they were, and so does everything else on the sheet.
pub proof fn labels_report_the_changed_photos(before: GridView, label: Label, after: GridView, changed: Seq<PhotoId>)
    requires
        label_applied(before, label, after, changed),
        before.selection@ != Set::<PhotoId>::empty(),
    ensures
        forall|id: PhotoId| #[trigger]
            changed.contains(id) <==> before.selection@.contains(id) && exists|i: int|
                0 <= i < before.entries@.len() && (#[trigger] before.entries@[i]).id == id && before.entries@[i].label
                    != label,
        after.entries@.len() == before.entries@.len(),
        forall|i: int|
            0 <= i < before.entries@.len() ==> (#[trigger] after.entries@[i]) == (if before.selection@.contains(
                before.entries@[i].id,
            ) {
                PhotoEntry { label, ..before.entries@[i] }
            } else {
                before.entries@[i]
            }),
        after.cursor == before.cursor,
        after.anchor == before.anchor,
        after.selection == before.selection,
        after.view == before.view,
        after == (GridView { entries: after.entries, ..before }),
{
    let rows = before.entries@;
    assert forall|id: PhotoId| #[trigger] changed.contains(id) <==> before.selection@.contains(id) && exists|i: int|
        0 <= i < rows.len() && (#[trigger] rows[i]).id == id && rows[i].label != label by {
        lemma_label_changes(rows, before.selection@, label, rows.len() as int, id);
    }
}

proof fn lemma_label_changes(rows: Seq<PhotoEntry>, selection: Set<PhotoId>, label: Label, k: int, id: PhotoId)
    requires
        0 <= k <= rows.len(),
    ensures
        label_changes(rows, selection, label, k).contains(id) <==> selection.contains(id) && exists|i: int|
            0 <= i < k && (#[trigger] rows[i]).id == id && rows[i].label != label,
    decreases k,
{
    if k > 0 {
        lemma_label_changes(rows, selection, label, k - 1, id);
        let head = label_changes(rows, selection, label, k - 1);
        crate::order::lemma_push_contains(head, rows[k - 1].id);
        if selection.contains(rows[k - 1].id) && rows[k - 1].label != label {
            assert(head.push(rows[k - 1].id).contains(id) <==> head.contains(id) || rows[k - 1].id == id);
        }
        if exists|i: int| 0 <= i < k && (#[trigger] rows[i]).id == id && rows[i].label != label {
            let i = choose|i: int| 0 <= i < k && (#[trigger] rows[i]).id == id && rows[i].label != label;
            if i == k - 1 && selection.contains(id) {
                assert(label_changes(rows, selection, label, k).contains(id));
            }
        }
    } else {
        assert(label_changes(rows, selection, label, k) =~= Seq::<PhotoId>::empty());
    }
}

/// Labels without a selection land on the photo under the cursor alone; it is
/// reported if and only if it had another label. With auto-advance the cursor
/// goes one photo on, unless it is on the last.
pub proof fn labels_fall_to_the_cursor(before: GridView, label: Label, after: GridView, changed: Seq<PhotoId>, c: usize)
    requires
        label_applied(before, label, after, changed),
        before.selection@ == Set::<PhotoId>::empty(),
        before.cursor == Some(c),
        c < before.view@.len() <= usize::MAX,
        before.view@[c as int] < before.entries@.len(),
    ensures
        ({
            let row = before.view@[c as int] as int;
            &&& after.entries@.len() == before.entries@.len()
            &&& after.entries@[row] == (PhotoEntry { label, ..before.entries@[row] })
            &&& forall|i: int| 0 <= i < before.entries@.len() && i != row ==> #[trigger] after.entries@[i] == before.entries@[i]
            &&& before.entries@[row].label == label ==> changed.len() == 0
            &&& before.entries@[row].label != label ==> changed.len() == 1 && changed[0] == before.entries@[row].id
        }),
        after.cursor == (if before.auto_advance && c < before.view@.len() - 1 {
            Some((c + 1) as usize)
        } else {
            Some(c)
        }),
        after.cursor == before.cursor ==> after.scroll_target == before.scroll_target,
        after.cursor != before.cursor ==> after.scroll_target == after.cursor,
        after == (GridView {
            entries: after.entries,
            cursor: after.cursor,
            scroll_target: after.scroll_target,
            ..before
        }),
{
}

/// With nothing selected and no photo under the cursor a label changes
/// nothing.
pub proof fn labels_need_a_photo(before: GridView, label: Label, after: GridView, changed: Seq<PhotoId>)
    requires
        label_applied(before, label, after, changed),
        before.selection@ == Set::<PhotoId>::empty(),
        match before.cursor {
            None => true,
            Some(c) => c >= before.view@.len() || before.view@[c as int] >= before.entries@.len(),
        },
    ensures
        after == before,
        changed.len() == 0,
{
}

/// An index that agrees with the sheet about every label agrees with it again
/// once the reported photos got theirs.
pub proof fn reported_labels_keep_the_index_in_step(
    before: GridView,
    label: Label,
    after: GridView,
    changed: Seq<PhotoId>,
    rows: Seq<PhotoRow>,
    i: int,
    r: int,
)
    requires
        label_applied(before, label, after, changed),
        0 <= i < before.entries@.len(),
        0 <= r < rows.len(),
        before.entries@[i].id.0 == rows[r].id,
        rows[r].label == label_code(before.entries@[i].label),
        forall|k: int| 0 <= k < before.entries@.len() ==> (#[trigger] before.entries@[k]).id.0 <= i64::MAX,
        forall|k: int, m: int|
            0 <= k < m < before.entries@.len() ==> (#[trigger] before.entries@[k]).id != (#[trigger] before.entries@[m]).id,
    ensures
        all_labeled(rows, changed, label)[r].label == label_code(after.entries@[i].label),
{
    let entries = before.entries@;
    if before.selection@ == Set::<PhotoId>::empty() {
        match row_under(entries, before.view@, before.cursor) {
            None => {},
            Some(row) => {
                assert(entries[row].id.0 <= i64::MAX);
                if row != i {
                    assert(entries[row].id != entries[i].id) by {
                        if row < i {
                            assert(entries[row].id != entries[i].id);
                        } else {
                            assert(entries[i].id != entries[row].id);
                        }
                    }
                    assert(!changed.contains(entries[i].id));
                } else if entries[i].label != label {
                    assert(changed[0] == entries[i].id);
                    assert(changed.contains(entries[i].id));
                }
            },
        }
    } else {
        labels_report_the_changed_photos(before, label, after, changed);
    }
    assert forall|m: int| 0 <= m < changed.len() implies (#[trigger] changed[m]).0 <= i64::MAX by {
        assert(changed.contains(changed[m]));
    }
    labels_land_on_the_named_rows(rows, changed, label, 0, r);
    let named = exists|m: int| 0 <= m < changed.len() && (#[trigger] changed[m]).0 == rows[r].id;
    if named {
        let m = choose|m: int| 0 <= m < changed.len() && (#[trigger] changed[m]).0 == rows[r].id;
        assert(changed.contains(changed[m]));
        assert(changed[m] == entries[i].id);
    }
    if changed.contains(entries[i].id) {
        let m = choose|m: int| 0 <= m < changed.len() && changed[m] == entries[i].id;
        assert(changed[m].0 == rows[r].id);
    }
    if before.selection@ != Set::<PhotoId>::empty() {
        if changed.contains(entries[i].id) {
            let j = choose|j: int| 0 <= j < entries.len() && (#[trigger] entries[j]).id == entries[i].id && entries[j].label
                != label;
            assert(j == i) by {
                if j < i {
                    assert(entries[j].id != entries[i].id);
                } else if i < j {
                    assert(entries[i].id != entries[j].id);
                }
            }
        }
    }
}

/// A turn adds one to the turns of each selected photo, or three, modulo four,
/// and reports each with its new turns; nothing else changes.
pub proof fn turns_reach_exactly_the_selection(
    before: GridView,
    direction: RotateDir,
    after: GridView,
    updates: Seq<(PhotoId, u8)>,
    i: int,
)
    requires
        turn_applied(before, direction, after, updates),
        before.selection@ != Set::<PhotoId>::empty(),
        0 <= i < before.entries@.len(),
        before.entries@[i].rot_cw < 4,
    ensures
        after.entries@.len() == before.entries@.len(),
        ({
            let turns = after.entries@[i].rot_cw;
            let entry = before.entries@[i];
            &&& after.entries@[i] == (PhotoEntry { rot_cw: turns, ..entry })
            &&& !before.selection@.contains(entry.id) ==> turns == entry.rot_cw
            &&& before.selection@.contains(entry.id) && direction == RotateDir::Clockwise ==> turns == (entry.rot_cw
                + 1) % 4
            &&& before.selection@.contains(entry.id) && direction == RotateDir::CounterClockwise ==> turns == (
            entry.rot_cw + 3) % 4
            &&& before.selection@.contains(entry.id) ==> updates.contains((entry.id, turns))
        }),
        forall|update: (PhotoId, u8)| #[trigger]
            updates.contains(update) ==> before.selection@.contains(update.0) && exists|j: int|
                0 <= j < after.entries@.len() && (#[trigger] after.entries@[j]).id == update.0 && after.entries@[j].rot_cw
                    == update.1,
        after == (GridView { entries: after.entries, ..before }),
{
    let rows = before.entries@;
    let n = rows.len() as int;
    lemma_turn_updates(rows, before.selection@, direction, n);
    assert(turned_selection(rows, before.selection@, direction)[i].id == rows[i].id);
    if before.selection@.contains(rows[i].id) {
        assert(updates.contains((rows[i].id, turned_row(rows[i], direction).rot_cw)));
    }
    assert forall|update: (PhotoId, u8)| #[trigger] updates.contains(update) implies before.selection@.contains(update.0)
        && exists|j: int|
        0 <= j < after.entries@.len() && (#[trigger] after.entries@[j]).id == update.0 && after.entries@[j].rot_cw == update.1 by {
        let j = choose|j: int|
            0 <= j < n && before.selection@.contains(rows[j].id) && update == (
                (#[trigger] rows[j]).id,
                turned_row(rows[j], direction).rot_cw,
            );
        assert(after.entries@[j].id == update.0);
    }
}

proof fn lemma_turn_updates(rows: Seq<PhotoEntry>, selection: Set<PhotoId>, direction: RotateDir, k: int)
    requires
        0 <= k <= rows.len(),
    ensures
        ({
            let updates = turn_updates(rows, selection, direction, k);
            &&& forall|i: int|
                0 <= i < k && selection.contains((#[trigger] rows[i]).id) ==> updates.contains(
                    (rows[i].id, turned_row(rows[i], direction).rot_cw),
                )
            &&& forall|update: (PhotoId, u8)| #[trigger]
                updates.contains(update) ==> exists|i: int|
                    0 <= i < k && selection.contains(rows[i].id) && update == (
                        (#[trigger] rows[i]).id,
                        turned_row(rows[i], direction).rot_cw,
                    )
        }),
    decreases k,
{
    if k > 0 {
        lemma_turn_updates(rows, selection, direction, k - 1);
        let head = turn_updates(rows, selection, direction, k - 1);
        crate::order::lemma_push_contains(head, (rows[k - 1].id, turned_row(rows[k - 1], direction).rot_cw));
    }
}

/// Without a selection a turn reaches the photo under the cursor alone.
pub proof fn turns_fall_to_the_cursor(
    before: GridView,
    direction: RotateDir,
    after: GridView,
    updates: Seq<(PhotoId, u8)>,
    c: usize,
)
    requires
        turn_applied(before, direction, after, updates),
        before.selection@ == Set::<PhotoId>::empty(),
        before.cursor == Some(c),
        c < before.view@.len(),
        before.view@[c as int] < before.entries@.len(),
        before.entries@[before.view@[c as int] as int].rot_cw < 4,
    ensures
        ({
            let row = before.view@[c as int] as int;
            let turns = after.entries@[row].rot_cw;
            let entry = before.entries@[row];
            &&& after.entries@.len() == before.entries@.len()
            &&& after.entries@[row] == (PhotoEntry { rot_cw: turns, ..entry })
            &&& direction == RotateDir::Clockwise ==> turns == (entry.rot_cw + 1) % 4
            &&& direction == RotateDir::CounterClockwise ==> turns == (entry.rot_cw + 3) % 4
            &&& updates.len() == 1 && updates[0].0 == entry.id && updates[0].1 == turns
            &&& forall|i: int| 0 <= i < before.entries@.len() && i != row ==> #[trigger] after.entries@[i] == before.entries@[i]
        }),
        after == (GridView { entries: after.entries, ..before }),
{
}

/// With nothing selected and no photo under the cursor a turn changes nothing.
pub proof fn turns_need_a_photo(before: GridView, direction: RotateDir, after: GridView, updates: Seq<(PhotoId, u8)>)
    requires
        turn_applied(before, direction, after, updates),
        before.selection@ == Set::<PhotoId>::empty(),
        match before.cursor {
            None => true,
            Some(c) => c >= before.view@.len() || before.view@[c as int] >= before.entries@.len(),
        },
    ensures
        after == before,
        updates.len() == 0,
{
}

/// Arrows move the cursor: left and right by one photo, up and down by a row
/// of `columns` photos. Left of the first photo and above the first row it
/// stays; past the end it stops at the last photo.
pub proof fn arrows_move_the_cursor(cursor: usize, columns: usize, len: usize)
    requires
        cursor < len,
        columns >= 1,
    ensures
        cursor > 0 ==> stepped(cursor, NavKey::ArrowLeft, columns, len) == Some((cursor - 1) as usize),
        cursor == 0 ==> stepped(cursor, NavKey::ArrowLeft, columns, len) is None,
        cursor + 1 < len ==> stepped(cursor, NavKey::ArrowRight, columns, len) == Some((cursor + 1) as usize),
        cursor + 1 == len ==> stepped(cursor, NavKey::ArrowRight, columns, len) == Some(cursor),
        cursor >= columns ==> stepped(cursor, NavKey::ArrowUp, columns, len) == Some((cursor - columns) as usize),
        cursor < columns ==> stepped(cursor, NavKey::ArrowUp, columns, len) is None,
        cursor + columns < len ==> stepped(cursor, NavKey::ArrowDown, columns, len) == Some((cursor + columns) as usize),
        cursor + columns >= len ==> stepped(cursor, NavKey::ArrowDown, columns, len) == Some((len - 1) as usize),
        stepped(cursor, NavKey::Other, columns, len) is None,
        stepped(cursor, NavKey::ArrowUp, 0, len) == stepped(cursor, NavKey::ArrowLeft, 1, len),
        stepped(cursor, NavKey::ArrowDown, 0, len) == stepped(cursor, NavKey::ArrowRight, 1, len),
{
}

/// A cursor that a shorter sheet left behind its end comes back to the last
/// photo with the next step.
pub proof fn stray_cursors_come_back(cursor: usize, columns: usize, len: usize)
    requires
        0 < len <= cursor,
    ensures
        stepped(cursor, NavKey::ArrowRight, columns, len) == Some((len - 1) as usize),
        stepped(cursor, NavKey::ArrowDown, columns, len) == Some((len - 1) as usize),
        stepped(cursor, NavKey::ArrowLeft, columns, len) == Some((len - 1) as usize),
{
}

/// A step right and a step left cancel but at the last photo; so do a step
/// down and a step up within the sheet.
pub proof fn steps_cancel(cursor: usize, columns: usize, len: usize)
    requires
        cursor < len,
        columns >= 1,
    ensures
        cursor + 1 < len ==> stepped((cursor + 1) as usize, NavKey::ArrowLeft, columns, len) == Some(cursor),
        cursor > 0 ==> stepped((cursor - 1) as usize, NavKey::ArrowRight, columns, len) == Some(cursor),
        cursor + columns < len ==> stepped((cursor + columns) as usize, NavKey::ArrowUp, columns, len) == Some(cursor),
        cursor >= columns ==> stepped((cursor - columns) as usize, NavKey::ArrowDown, columns, len) == Some(cursor),
{
}

/// The photos of a span of positions are those whose row the sheet shows
/// there; those of a list of positions, those that it shows at one of them.
pub proof fn spans_hold_the_photos_shown(entries: Seq<PhotoEntry>, view: Seq<usize>, lo: int, hi: int, p: int)
    requires
        0 <= p < view.len(),
        view[p] < entries.len(),
    ensures
        id_shown(entries, view, p) == Some(entries[view[p] as int].id),
        id_shown(entries, view, -1) is None,
        id_shown(entries, view, view.len() as int) is None,
        lo <= p < hi ==> ids_between(entries, view, lo, hi).contains(entries[view[p] as int].id),
        forall|id: PhotoId| #[trigger]
            ids_between(entries, view, lo, hi).contains(id) ==> exists|q: int|
                lo <= q < hi && 0 <= q < view.len() && (#[trigger] view[q]) < entries.len() && entries[view[q] as int].id
                    == id,
{
    if lo <= p < hi {
        assert(id_shown(entries, view, p) == Some(entries[view[p] as int].id));
        assert(shown_between(entries, view, lo, hi, entries[view[p] as int].id));
    }
    assert forall|id: PhotoId| #[trigger] ids_between(entries, view, lo, hi).contains(id) implies exists|q: int|
        lo <= q < hi && 0 <= q < view.len() && (#[trigger] view[q]) < entries.len() && entries[view[q] as int].id == id by {
        assert(shown_between(entries, view, lo, hi, id));
        let q = choose|q: int| lo <= q < hi && #[trigger] id_shown(entries, view, q) == Some(id);
        assert(view[q] < entries.len());
    }
}

/// A band of positions selects exactly the photos that stand there.
pub proof fn bands_hold_the_photos_covered(
    entries: Seq<PhotoEntry>,
    view: Seq<usize>,
    positions: Seq<usize>,
    k: int,
)
    requires
        0 <= k < positions.len(),
    ensures
        positions[k] < view.len() && view[positions[k] as int] < entries.len() ==> ids_among(
            entries,
            view,
            positions,
        ).contains(entries[view[positions[k] as int] as int].id),
        forall|id: PhotoId| #[trigger]
            ids_among(entries, view, positions).contains(id) ==> exists|m: int|
                0 <= m < positions.len() && (#[trigger] positions[m]) < view.len() && view[positions[m] as int]
                    < entries.len() && entries[view[positions[m] as int] as int].id == id,
{
    if positions[k] < view.len() && view[positions[k] as int] < entries.len() {
        assert(id_shown(entries, view, positions[k] as int) == Some(entries[view[positions[k] as int] as int].id));
        assert(shown_among(entries, view, positions, entries[view[positions[k] as int] as int].id));
    }
    assert forall|id: PhotoId| #[trigger] ids_among(entries, view, positions).contains(id) implies exists|m: int|
        0 <= m < positions.len() && (#[trigger] positions[m]) < view.len() && view[positions[m] as int] < entries.len()
            && entries[view[positions[m] as int] as int].id == id by {
        assert(shown_among(entries, view, positions, id));
        let m = choose|m: int|
            0 <= m < positions.len() && id_shown(entries, view, #[trigger] positions[m] as int) == Some(id);
        assert(positions[m] < view.len());
    }
}

/// A plain click selects the photo alone, one with Ctrl puts it in or takes
/// it out and leaves the others; twice with Ctrl is as before.
pub proof fn clicks_select_and_toggle(set: Set<PhotoId>, id: PhotoId, other: PhotoId)
    ensures
        just(Some(id)).contains(other) <==> other == id,
        just(None) == Set::<PhotoId>::empty(),
        toggled(set, Some(id)).contains(id) == !set.contains(id),
        other != id ==> toggled(set, Some(id)).contains(other) == set.contains(other),
        toggled(toggled(set, Some(id)), Some(id)) == set,
        toggled(set, None) == set,
{
    assert(toggled(toggled(set, Some(id)), Some(id)) =~= set);
}

/// The next failed photo is the first one behind the cursor, going round: it
/// is failed, and none between the cursor and it is. Nothing is found only if
/// no photo of the sheet failed.
pub proof fn error_jumps_find_the_next_failure(
    entries: Seq<PhotoEntry>,
    view: Seq<usize>,
    cursor: Option<usize>,
    next: Option<usize>,
    p: int,
)
    requires
        next_failure(entries, view, search_start(cursor, view.len() as int), next),
        0 <= p < view.len(),
        view[p] < entries.len(),
        entries[view[p] as int].status == PhotoStatus::Error,
    ensures
        ({
            let start = match cursor {
                Some(c) => if c + 1 < view.len() {
                    c + 1
                } else {
                    0
                },
                None => 0,
            };
            &&& next is Some
            &&& next->0 < view.len()
            &&& entries[view[next->0 as int] as int].status == PhotoStatus::Error
            &&& (cursor matches Some(c) ==> c < view.len()) ==> {
                ||| p == next->0
                ||| start <= next->0 < p
                ||| p < start <= next->0
                ||| next->0 < p < start
            }
        }),
{
    assert(fails_at(entries, view, p));
    match cursor {
        Some(c) => {
            if c < view.len() {
                assert((c + 1) % view.len() as int == if c + 1 < view.len() {
                    c + 1
                } else {
                    0
                }) by (nonlinear_arith)
                    requires
                        0 <= c < view.len(),
                ;
            }
        },
        None => {},
    }
}

/// A press on the sheet takes the selection away until the band says what is
/// selected; nothing is selected by it alone.
pub proof fn a_press_arms_the_band(before: GridView, additive: bool, after: GridView, swallowed: bool)
    requires
        gesture_applied(before, Gesture::Press { inside: true, additive }, after, swallowed),
    ensures
        !swallowed,
        after.marquee is Some,
        after.marquee->0.base@ == before.selection@,
        after.marquee->0.additive == additive,
        !after.marquee->0.dragging,
        after.selection@ == Set::<PhotoId>::empty(),
        after == (GridView { marquee: after.marquee, selection: after.selection, ..before }),
{
}

/// A press outside the sheet, and any gesture but a press without a band,
/// changes nothing.
pub proof fn other_gestures_change_nothing(before: GridView, gesture: Gesture, after: GridView, swallowed: bool)
    requires
        gesture_applied(before, gesture, after, swallowed),
        match gesture {
            Gesture::Press { inside, .. } => !inside,
            Gesture::Gone => true,
            _ => before.marquee is None,
        },
    ensures
        !swallowed,
        after == before,
{
}

/// A live band selects what it covers, on top of what was selected before with
/// Ctrl; one that has not travelled selects nothing yet.
pub proof fn a_live_band_selects_what_it_covers(
    before: GridView,
    far: bool,
    covered: Vec<usize>,
    after: GridView,
    swallowed: bool,
    id: PhotoId,
)
    requires
        gesture_applied(before, Gesture::At { far, covered }, after, swallowed),
        before.marquee is Some,
    ensures
        ({
            let band = before.marquee->0;
            let live = band.dragging || far;
            let covers = exists|m: int|
                0 <= m < covered@.len() && (#[trigger] covered@[m]) < before.view@.len() && before.view@[covered@[m] as int]
                    < before.entries@.len() && before.entries@[before.view@[covered@[m] as int] as int].id == id;
            &&& !swallowed
            &&& after.marquee is Some
            &&& after.marquee->0.base@ == band.base@
            &&& after.marquee->0.additive == band.additive
            &&& after.marquee->0.dragging == live
            &&& !live ==> after.selection@ == before.selection@
            &&& live && !band.additive ==> (after.selection@.contains(id) <==> covers)
            &&& live && band.additive ==> (after.selection@.contains(id) <==> covers || band.base@.contains(id))
            &&& after == (GridView { marquee: after.marquee, selection: after.selection, ..before })
        }),
{
    let covers = exists|m: int|
        0 <= m < covered@.len() && (#[trigger] covered@[m]) < before.view@.len() && before.view@[covered@[m] as int]
            < before.entries@.len() && before.entries@[before.view@[covered@[m] as int] as int].id == id;
    if covers {
        let m = choose|m: int|
            0 <= m < covered@.len() && (#[trigger] covered@[m]) < before.view@.len() && before.view@[covered@[m] as int]
                < before.entries@.len() && before.entries@[before.view@[covered@[m] as int] as int].id == id;
        bands_hold_the_photos_covered(before.entries@, before.view@, covered@, m);
    }
    if covered@.len() > 0 {
        bands_hold_the_photos_covered(before.entries@, before.view@, covered@, 0);
    } else if ids_among(before.entries@, before.view@, covered@).contains(id) {
        assert(shown_among(before.entries@, before.view@, covered@, id));
    }
}

/// A release ends the band. One that ends a drag keeps what the band selected
/// and is no click; one on a tile gives back what was selected before; one on
/// bare sheet selects nothing.
pub proof fn a_release_ends_the_band(before: GridView, on_tile: bool, after: GridView, swallowed: bool)
    requires
        gesture_applied(before, Gesture::Release { on_tile }, after, swallowed),
        before.marquee is Some,
    ensures
        after.marquee is None,
        swallowed == before.marquee->0.dragging,
        before.marquee->0.dragging ==> after.selection@ == before.selection@,
        !before.marquee->0.dragging && on_tile ==> after.selection@ == before.marquee->0.base@,
        !before.marquee->0.dragging && !on_tile ==> after.selection@ == Set::<PhotoId>::empty(),
        after == (GridView { marquee: after.marquee, selection: after.selection, ..before }),
{
}

} // verus!
