//! What each key of a frame does to the sheet and to its loupe.

use vstd::prelude::*;

use crate::frame::{
    frame_fits, keys_fit, loupe_frame_fits, Action, KeyTrace, SheetKeys, SheetWrites,
};
use crate::grid::GridView;
use crate::loupe::{LoupeKeys, LoupeView, LoupeWrites};
use crate::loupe_laws::{arrows_walk_the_sheet, digits_label_the_photo_on_display};
use crate::model::{Label, PhotoEntry, PhotoId};
use crate::selection::{ids_between, NavKey};
use crate::selection_laws::{labels_report_the_changed_photos, turns_reach_exactly_the_selection};
use crate::widgets::RotateDir;

verus! {

/// Behind a dialog keys do nothing.
pub proof fn dialogs_take_the_keys(
    before: GridView,
    keys: SheetKeys,
    columns: usize,
    filtered: GridView,
    after: GridView,
    action: Option<Action>,
    writes: SheetWrites,
)
    requires
        frame_fits(before, keys, columns, true, filtered, after, action, writes),
    ensures
        after == before,
        action is None,
        writes.auto_advance is None,
        writes.labeled@.len() == 0,
        writes.turned@.len() == 0,
{
}

/// While the loupe is open only the filter key of the sheet counts.
pub proof fn the_loupe_takes_the_keys(
    before: GridView,
    keys: SheetKeys,
    columns: usize,
    filtered: GridView,
    after: GridView,
    action: Option<Action>,
    writes: SheetWrites,
)
    requires
        frame_fits(before, keys, columns, false, filtered, after, action, writes),
        before.loupe is Some,
    ensures
        !keys.filter || before.loading ==> after == before,
        action is None,
        writes.auto_advance is None,
        writes.labeled@.len() == 0,
        writes.turned@.len() == 0,
        after.entries == before.entries,
        after.selection == before.selection,
{
}

/// A loupe that was asked for opens with the next frame, on the position and
/// in the lightbox as asked, fitted and on black; that frame's keys do not
/// count but for the filter key.
pub proof fn asked_loupes_open_with_the_next_frame(
    before: GridView,
    keys: SheetKeys,
    columns: usize,
    filtered: GridView,
    after: GridView,
    action: Option<Action>,
    writes: SheetWrites,
)
    requires
        frame_fits(before, keys, columns, false, filtered, after, action, writes),
        before.loupe is None,
        before.open_requested is Some,
        !keys.filter,
    ensures
        after.loupe is Some,
        after.loupe->0.index == before.open_requested->0.index,
        after.loupe->0.lightbox == before.open_requested->0.lightbox,
        !after.loupe->0.white_bg,
        after.loupe->0.refit,
        after.open_requested is None,
        after == (GridView { loupe: after.loupe, open_requested: None, ..before }),
        action is None,
        writes.labeled@.len() == 0,
        writes.turned@.len() == 0,
{
}

/// The sheet shows tiles and nothing is in front of it or about to be.
pub open spec fn at_hand(grid: GridView) -> bool {
    grid.loupe is None && grid.open_requested is None && grid.view@.len() > 0
}

/// Escape leaves the folder unless an export starts, whether or not there are
/// tiles.
pub proof fn escape_leaves_the_folder(
    before: GridView,
    keys: SheetKeys,
    columns: usize,
    filtered: GridView,
    after: GridView,
    action: Option<Action>,
    writes: SheetWrites,
)
    requires
        frame_fits(before, keys, columns, false, filtered, after, action, writes),
        before.loupe is None,
        before.open_requested is None,
        !keys.export || before.export_done < before.export_total || before.view@.len() == 0,
        !keys.filter,
    ensures
        keys.escape ==> action == Some(Action::BackToHome),
        !keys.escape ==> action is None,
{
}

/// Without tiles nothing but Escape and the filter key counts.
pub proof fn empty_sheets_take_no_keys(
    before: GridView,
    keys: SheetKeys,
    columns: usize,
    filtered: GridView,
    after: GridView,
    action: Option<Action>,
    writes: SheetWrites,
)
    requires
        frame_fits(before, keys, columns, false, filtered, after, action, writes),
        before.loupe is None,
        before.open_requested is None,
        before.view@.len() == 0,
        !keys.filter,
    ensures
        after == before,
        writes.auto_advance is None,
        writes.labeled@.len() == 0,
        writes.turned@.len() == 0,
{
}

/// Tab flips auto-advance and has it written; the selection keys select all
/// shown, or nothing; the open keys ask for the loupe on the cursor. What no
/// key asks for stays.
pub proof fn keys_do_what_they_ask(
    before: GridView,
    keys: SheetKeys,
    columns: usize,
    filtered: GridView,
    after: GridView,
    action: Option<Action>,
    writes: SheetWrites,
)
    requires
        frame_fits(before, keys, columns, false, filtered, after, action, writes),
        at_hand(before),
    ensures
        keys.tab ==> after.auto_advance == !before.auto_advance && writes.auto_advance == Some(!before.auto_advance),
        !keys.tab ==> after.auto_advance == before.auto_advance && writes.auto_advance is None,
        keys.select_none ==> after.selection@ == Set::<PhotoId>::empty(),
        keys.select_all && !keys.select_none ==> after.selection@ == ids_between(
            before.entries@,
            after.view@,
            0,
            after.view@.len() as int,
        ),
        !keys.select_all && !keys.select_none ==> after.selection@ == before.selection@,
        keys.label is None ==> writes.labeled@.len() == 0,
        keys.rotate is None ==> writes.turned@.len() == 0,
        keys.label is None && keys.rotate is None ==> after.entries@ == before.entries@,
        keys.label is None && keys.nav is None && !keys.filter ==> after.cursor == before.cursor,
        keys.enter || keys.space || keys.lightbox ==> after.open_requested is Some
            && after.open_requested->0.lightbox == keys.lightbox && after.open_requested->0.index == (match after.cursor {
            Some(c) => c,
            None => 0,
        }),
        !keys.enter && !keys.space && !keys.lightbox ==> after.open_requested is None,
        !keys.filter || before.loading ==> after.view == before.view && after.filter == before.filter,
        after.sort == before.sort,
        after.root == before.root,
        after.loupe is None,
        after.entries@.len() == before.entries@.len(),
        !keys.filter && before.cursor is None ==> after.cursor is None,
        !keys.filter && keys.label is None && keys.nav is None ==> after.scroll_target == before.scroll_target,
        !keys.filter ==> after == (GridView {
            entries: after.entries,
            selection: after.selection,
            auto_advance: after.auto_advance,
            cursor: after.cursor,
            scroll_target: after.scroll_target,
            open_requested: after.open_requested,
            ..before
        }),
{
    let trace = choose|trace: KeyTrace| #[trigger] keys_fit(filtered, keys, columns, trace, after, writes);
    assert(keys_fit(filtered, keys, columns, trace, after, writes));
}

/// Arrow keys alone move the cursor on the sheet: left and right by one
/// photo, up and down by one row, stopping at both ends; it is scrolled into
/// view.
pub proof fn arrow_keys_move_the_cursor(
    before: GridView,
    keys: SheetKeys,
    columns: usize,
    filtered: GridView,
    after: GridView,
    action: Option<Action>,
    writes: SheetWrites,
    c: usize,
)
    requires
        frame_fits(before, keys, columns, false, filtered, after, action, writes),
        at_hand(before),
        !keys.filter,
        keys.label is None,
        before.cursor == Some(c),
        c < before.view@.len() <= usize::MAX,
        columns > 0,
    ensures
        keys.nav == Some(NavKey::ArrowLeft) ==> after.cursor == Some(
            if c > 0 {
                (c - 1) as usize
            } else {
                c
            },
        ),
        keys.nav == Some(NavKey::ArrowRight) ==> after.cursor == Some(
            if c + 1 < before.view@.len() {
                (c + 1) as usize
            } else {
                c
            },
        ),
        keys.nav == Some(NavKey::ArrowUp) ==> after.cursor == Some(
            if c >= columns {
                (c - columns) as usize
            } else {
                c
            },
        ),
        keys.nav == Some(NavKey::ArrowDown) ==> after.cursor == Some(
            if c + columns < before.view@.len() {
                (c + columns) as usize
            } else {
                (before.view@.len() - 1) as usize
            },
        ),
        keys.nav is None ==> after.cursor == before.cursor,
        after.cursor != before.cursor ==> after.scroll_target == after.cursor,
{
    let trace = choose|trace: KeyTrace| #[trigger] keys_fit(filtered, keys, columns, trace, after, writes);
    assert(keys_fit(before, keys, columns, trace, after, writes));
    assert(trace.turned.cursor == before.cursor);
    assert(trace.turned.view == before.view);
}

/// A digit labels every selected photo; exactly those that had another label
/// are to be written.
pub proof fn digit_keys_label_the_selection(
    before: GridView,
    keys: SheetKeys,
    columns: usize,
    filtered: GridView,
    after: GridView,
    action: Option<Action>,
    writes: SheetWrites,
    label: Label,
    id: PhotoId,
)
    requires
        frame_fits(before, keys, columns, false, filtered, after, action, writes),
        at_hand(before),
        !keys.filter,
        !keys.select_all && !keys.select_none,
        keys.label == Some(label),
        keys.rotate is None,
        before.selection@ != Set::<PhotoId>::empty(),
    ensures
        writes.labeled@.contains(id) <==> before.selection@.contains(id) && exists|i: int|
            0 <= i < before.entries@.len() && (#[trigger] before.entries@[i]).id == id && before.entries@[i].label != label,
        forall|i: int|
            0 <= i < before.entries@.len() ==> (#[trigger] after.entries@[i]) == (if before.selection@.contains(
                before.entries@[i].id,
            ) {
                PhotoEntry { label, ..before.entries@[i] }
            } else {
                before.entries@[i]
            }),
{
    let trace = choose|trace: KeyTrace| #[trigger] keys_fit(filtered, keys, columns, trace, after, writes);
    assert(keys_fit(before, keys, columns, trace, after, writes));
    labels_report_the_changed_photos(trace.swept, label, trace.labeled, writes.labeled@);
    assert(trace.swept.entries == before.entries);
    assert(after.entries == trace.labeled.entries);
    assert(writes.labeled@.contains(id) <==> trace.swept.selection@.contains(id) && exists|i: int|
        0 <= i < before.entries@.len() && (#[trigger] trace.swept.entries@[i]).id == id && trace.swept.entries@[i].label
            != label);
    if exists|i: int|
        0 <= i < before.entries@.len() && (#[trigger] before.entries@[i]).id == id && before.entries@[i].label != label {
        let i = choose|i: int|
            0 <= i < before.entries@.len() && (#[trigger] before.entries@[i]).id == id && before.entries@[i].label != label;
        assert(trace.swept.entries@[i].id == id);
    }
}

/// What is selected after the selection keys of a frame.
pub open spec fn chosen_by(grid: GridView, view: Seq<usize>, keys: SheetKeys) -> Set<PhotoId> {
    if keys.select_none {
        Set::empty()
    } else if keys.select_all {
        ids_between(grid.entries@, view, 0, view.len() as int)
    } else {
        grid.selection@
    }
}

/// With several keys in a frame the selection keys come first: label and turn
/// then land on every selected photo and on no other.
pub proof fn label_and_turn_follow_the_selection_keys(
    before: GridView,
    keys: SheetKeys,
    columns: usize,
    filtered: GridView,
    after: GridView,
    action: Option<Action>,
    writes: SheetWrites,
    i: int,
)
    requires
        frame_fits(before, keys, columns, false, filtered, after, action, writes),
        at_hand(before),
        chosen_by(before, after.view@, keys) != Set::<PhotoId>::empty(),
        0 <= i < before.entries@.len(),
        before.entries@[i].rot_cw < 4,
    ensures
        ({
            let hit = chosen_by(before, after.view@, keys).contains(before.entries@[i].id);
            &&& after.entries@[i] == (PhotoEntry {
                label: if hit && keys.label is Some {
                    keys.label->0
                } else {
                    before.entries@[i].label
                },
                rot_cw: if !hit || keys.rotate is None {
                    before.entries@[i].rot_cw
                } else if keys.rotate == Some(RotateDir::Clockwise) {
                    ((before.entries@[i].rot_cw + 1) % 4) as u8
                } else {
                    ((before.entries@[i].rot_cw + 3) % 4) as u8
                },
                ..before.entries@[i]
            })
            &&& (hit && keys.label is Some && keys.label->0 != before.entries@[i].label ==> writes.labeled@.contains(
                before.entries@[i].id,
            ))
            &&& (hit && keys.rotate is Some ==> writes.turned@.contains(
                (before.entries@[i].id, after.entries@[i].rot_cw),
            ))
        }),
{
    let trace = choose|trace: KeyTrace| #[trigger] keys_fit(filtered, keys, columns, trace, after, writes);
    assert(keys_fit(filtered, keys, columns, trace, after, writes));
    assert(trace.swept.selection@ == chosen_by(before, after.view@, keys));
    assert(trace.swept.entries@ == before.entries@);
    if let Some(label) = keys.label {
        labels_report_the_changed_photos(trace.swept, label, trace.labeled, writes.labeled@);
        assert(trace.labeled.entries@[i].id == before.entries@[i].id);
    }
    assert(trace.labeled.selection == trace.swept.selection);
    if let Some(direction) = keys.rotate {
        turns_reach_exactly_the_selection(trace.labeled, direction, trace.turned, writes.turned@, i);
    }
    assert(after.entries == trace.turned.entries);
    if chosen_by(before, after.view@, keys).contains(before.entries@[i].id) && keys.label is Some && keys.label->0
        != before.entries@[i].label {
        let id = before.entries@[i].id;
        assert(trace.swept.entries@[i].id == id && trace.swept.entries@[i].label != keys.label->0);
        assert(writes.labeled@.contains(id));
    }
}

/// With nothing selected the label lands on the photo under the cursor; the
/// cursor may then go on by one, and the turn, the arrow and the open keys act
/// where it stands.
pub proof fn the_cursor_goes_on_between_keys(
    before: GridView,
    keys: SheetKeys,
    columns: usize,
    filtered: GridView,
    after: GridView,
    action: Option<Action>,
    writes: SheetWrites,
    c: usize,
    i: int,
)
    requires
        frame_fits(before, keys, columns, false, filtered, after, action, writes),
        at_hand(before),
        !keys.filter,
        !keys.select_all,
        before.selection@ == Set::<PhotoId>::empty() || keys.select_none,
        before.cursor == Some(c),
        c < before.view@.len() <= usize::MAX,
        forall|p: int| 0 <= p < before.view@.len() ==> #[trigger] before.view@[p] < before.entries@.len(),
        0 <= i < before.entries@.len(),
        before.entries@[i].rot_cw < 4,
    ensures
        ({
            let on = if keys.label is Some && before.auto_advance != keys.tab && c + 1 < before.view@.len() {
                c + 1
            } else {
                c as int
            };
            let labels = keys.label is Some && before.view@[c as int] == i;
            let turns = keys.rotate is Some && before.view@[on] == i;
            &&& after.entries@[i].label == (if labels {
                keys.label->0
            } else {
                before.entries@[i].label
            })
            &&& after.entries@[i].rot_cw == (if !turns {
                before.entries@[i].rot_cw as int
            } else if keys.rotate == Some(RotateDir::Clockwise) {
                (before.entries@[i].rot_cw + 1) % 4
            } else {
                (before.entries@[i].rot_cw + 3) % 4
            })
            &&& keys.nav is None ==> after.cursor == Some(on as usize)
        }),
{
    let trace = choose|trace: KeyTrace| #[trigger] keys_fit(filtered, keys, columns, trace, after, writes);
    assert(keys_fit(before, keys, columns, trace, after, writes));
    assert(trace.swept.selection@ =~= Set::<PhotoId>::empty());
    assert(before.view@[c as int] < before.entries@.len());
    if c + 1 < before.view@.len() {
        assert(before.view@[c + 1] < before.entries@.len());
    }
}

/// The filter key leads from all photos to the labeled ones, from those to the
/// unlabeled ones and from those back to all.
pub proof fn the_filter_key_cycles(
    before: GridView,
    keys: SheetKeys,
    columns: usize,
    filtered: GridView,
    after: GridView,
    action: Option<Action>,
    writes: SheetWrites,
)
    requires
        frame_fits(before, keys, columns, false, filtered, after, action, writes),
        !before.loading,
        keys.filter,
    ensures
        ({
            let colored = Set::new(|label: Label| label != Label::Unlabeled);
            let plain = Set::<Label>::empty().insert(Label::Unlabeled);
            &&& before.filter@ == Set::<Label>::empty() ==> after.filter@ == colored
            &&& before.filter@ == colored ==> after.filter@ == plain
            &&& before.filter@ == plain ==> after.filter@ == Set::<Label>::empty()
            &&& after.filter@ == colored || after.filter@ == plain || after.filter@ == Set::<Label>::empty()
        }),
{
    crate::widgets::presets_cycle(before.filter@);
    let colored = Set::new(|label: Label| label != Label::Unlabeled);
    assert(colored =~= crate::widgets::colors());
    assert(Set::<Label>::empty().insert(Label::Unlabeled) =~= set![Label::Unlabeled]);
    let start = crate::frame::mounted(before, false);
    if start.loupe is None && start.view@.len() > 0 {
        let trace = choose|trace: KeyTrace| #[trigger] keys_fit(filtered, keys, columns, trace, after, writes);
        assert(keys_fit(filtered, keys, columns, trace, after, writes));
    }
}

/// In a loupe that stays open a left arrow alone takes the position one back
/// and leaves the first alone; a right arrow alone takes it one on and leaves
/// the last alone. The rows stay as they are.
pub proof fn loupe_arrows_step_by_one(
    before: GridView,
    keys: LoupeKeys,
    after: GridView,
    writes: LoupeWrites,
    open: LoupeView,
)
    requires
        loupe_frame_fits(before, keys, false, after, writes),
        before.loupe == Some(open),
        open.index < before.view@.len() <= usize::MAX,
        !keys.escape && !keys.enter && !keys.lightbox,
        keys.label is None,
        keys.rotate is None,
    ensures
        after.loupe is Some,
        keys.left && !keys.right ==> after.loupe->0.index == (if open.index > 0 {
            open.index - 1
        } else {
            0
        }),
        keys.right && !keys.left ==> after.loupe->0.index == (if open.index + 1 < before.view@.len() {
            open.index + 1
        } else {
            open.index as int
        }),
        !keys.left && !keys.right ==> after.loupe->0.index == open.index,
        after.entries@ == before.entries@,
        after.cursor == before.cursor,
        after.view == before.view,
        after.selection == before.selection,
        writes.label is None,
        writes.rotation is None,
{
    arrows_walk_the_sheet(open, before.entries@, before.view@, before.auto_advance, keys);
}

/// Left after right in an open loupe brings every position but the last back.
pub proof fn loupe_arrows_cancel(
    first: GridView,
    right: LoupeKeys,
    second: GridView,
    left: LoupeKeys,
    third: GridView,
    w1: LoupeWrites,
    w2: LoupeWrites,
    open: LoupeView,
)
    requires
        loupe_frame_fits(first, right, false, second, w1),
        loupe_frame_fits(second, left, false, third, w2),
        first.loupe == Some(open),
        open.index < first.view@.len() - 1,
        first.view@.len() <= usize::MAX,
        right.right && !right.left && !right.escape && !right.enter && !right.lightbox,
        right.label is None && right.rotate is None,
        left.left && !left.right && !left.escape && !left.enter && !left.lightbox,
        left.label is None && left.rotate is None,
    ensures
        third.loupe is Some,
        third.loupe->0.index == open.index,
{
    loupe_arrows_step_by_one(first, right, second, w1, open);
    loupe_arrows_step_by_one(second, left, third, w2, second.loupe->0);
}

/// A digit in the open loupe labels the photo on display in the sheet's rows
/// and has it written if it had another label.
pub proof fn loupe_digits_label_one_row(
    before: GridView,
    keys: LoupeKeys,
    after: GridView,
    writes: LoupeWrites,
    open: LoupeView,
    label: Label,
)
    requires
        loupe_frame_fits(before, keys, false, after, writes),
        before.loupe == Some(open),
        open.index < before.view@.len() <= usize::MAX,
        before.view@[open.index as int] < before.entries@.len(),
        !keys.escape && !keys.enter && !keys.lightbox && !keys.left && !keys.right && !keys.tab,
        keys.label == Some(label),
        keys.rotate is None,
    ensures
        ({
            let row = before.view@[open.index as int] as int;
            &&& after.entries@.len() == before.entries@.len()
            &&& after.entries@[row] == (PhotoEntry { label, ..before.entries@[row] })
            &&& forall|i: int| 0 <= i < before.entries@.len() && i != row ==> #[trigger] after.entries@[i] == before.entries@[i]
            &&& before.entries@[row].label != label ==> writes.label == Some((before.entries@[row].id, label))
            &&& before.entries@[row].label == label ==> writes.label is None
            &&& after.loupe is Some
            &&& after.loupe->0.index == (if before.auto_advance && open.index + 1 < before.view@.len() {
                open.index + 1
            } else {
                open.index as int
            })
        }),
{
    digits_label_the_photo_on_display(open, before.entries@, before.view@, before.auto_advance, keys, label);
}

/// Closing the loupe leaves the cursor on the photo it showed and changes
/// nothing else. It closes with Escape or Enter outside the lightbox, and when
/// its position is gone; behind a dialog it takes no keys.
pub proof fn the_cursor_follows_a_closed_loupe(
    before: GridView,
    keys: LoupeKeys,
    suspended: bool,
    after: GridView,
    writes: LoupeWrites,
    open: LoupeView,
)
    requires
        loupe_frame_fits(before, keys, suspended, after, writes),
        before.loupe == Some(open),
    ensures
        after.loupe is None <==> {
            ||| open.index >= before.view@.len()
            ||| !suspended && !open.lightbox && (keys.escape || keys.enter)
        },
        after.loupe is None ==> after == (GridView {
            loupe: None,
            cursor: Some(open.index),
            scroll_target: Some(open.index),
            ..before
        }),
        after.loupe is None ==> writes.label is None && writes.rotation is None && writes.auto_advance is None,
        after.loupe is Some ==> after == (GridView {
            entries: after.entries,
            loupe: after.loupe,
            auto_advance: after.auto_advance,
            ..before
        }),
        suspended && open.index < before.view@.len() ==> after == before && writes.label is None
            && writes.rotation is None && writes.auto_advance is None,
        !suspended && open.index < before.view@.len() && open.lightbox && (keys.escape || keys.enter || keys.lightbox)
            ==> after.loupe is Some && !after.loupe->0.lightbox,
        !suspended && open.index < before.view@.len() && !open.lightbox && !keys.escape && !keys.enter && keys.lightbox
            ==> after.loupe is Some && after.loupe->0.lightbox,
{
}

/// Without an open loupe its keys change nothing.
pub proof fn closed_loupes_take_no_keys(
    before: GridView,
    keys: LoupeKeys,
    suspended: bool,
    after: GridView,
    writes: LoupeWrites,
)
    requires
        loupe_frame_fits(before, keys, suspended, after, writes),
        before.loupe is None,
    ensures
        after == before,
        writes.label is None && writes.rotation is None && writes.auto_advance is None,
{
}

} // verus!
