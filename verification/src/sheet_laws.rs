//! Which rows the sheet shows, in which order, and what its window asks for.

use vstd::prelude::*;

use crate::grid::{cursor_fits, loupe_fits, slot_of_row, view_fits, GridView};
use crate::keymap::{SizeClass, TexKey};
use crate::loupe::LoupeView;
use crate::model::{Label, PhotoEntry, PhotoId, PhotoStatus};
use crate::order::ints;
use crate::path::{path_le, shown_name};
use crate::sheet::lowercase_of;
use crate::tex::Request;
use crate::text::{chars_le, decimal};
use crate::widgets::{
    advance_in, bare_digit_label, color_of_label, colors, digit_label, export_mode_in, flipped,
    grouped_text, mode_text, name_of_label, other_order, shows, spaced, step_of, turns_after,
    ExportMode, RotateDir, SortKey,
};
use crate::window::{
    ids_in_window, in_block, requests_around, requests_between, shortened, sorts, stamps_added,
    thumb_keys, thumb_request, unstamped, waiting_in_window, window_noted,
};

verus! {

/// The sheet shows a row if no label is chosen or its own is, and no other
/// row; each once.
pub proof fn chosen_labels_are_shown(
    entries: Seq<PhotoEntry>,
    chosen: Set<Label>,
    sort: SortKey,
    taken_at: Map<u64, Option<String>>,
    view: Seq<usize>,
    row: usize,
)
    requires
        view_fits(entries, chosen, sort, taken_at, view),
    ensures
        view.contains(row) <==> row < entries.len() && (chosen == Set::<Label>::empty() || chosen.contains(
            entries[row as int].label,
        )),
        view.no_duplicates(),
{
    crate::grid_laws::sheet_shows_exactly_the_matching_rows(entries, chosen, sort, taken_at, view);
}

/// A filter lets every label through if none is chosen, and else the chosen
/// ones.
pub proof fn filters_pass_the_chosen_labels(chosen: Set<Label>, label: Label)
    ensures
        shows(Set::<Label>::empty(), label),
        chosen.contains(label) ==> shows(chosen, label),
        !chosen.contains(label) && chosen != Set::<Label>::empty() ==> !shows(chosen, label),
{
}

/// By name, rows come in the order of their file names in lower case, and of
/// their paths where these agree.
pub proof fn names_order_the_sheet(
    entries: Seq<PhotoEntry>,
    chosen: Set<Label>,
    taken_at: Map<u64, Option<String>>,
    view: Seq<usize>,
    i: int,
    j: int,
)
    requires
        view_fits(entries, chosen, SortKey::FileName, taken_at, view),
        0 <= i < j < view.len(),
    ensures
        ({
            let a = entries[view[i] as int].rel_path@;
            let b = entries[view[j] as int].rel_path@;
            let x = lowercase_of(shown_name(a));
            let y = lowercase_of(shown_name(b));
            &&& x != y ==> chars_le(x, y)
            &&& x == y ==> path_le(a, b)
        }),
{
    lemma_listed_rows(entries, chosen, SortKey::FileName, taken_at, view);
    assert(ints(view)[i] == view[i] as int);
    assert(ints(view)[j] == view[j] as int);
}

proof fn lemma_listed_rows(
    entries: Seq<PhotoEntry>,
    chosen: Set<Label>,
    sort: SortKey,
    taken_at: Map<u64, Option<String>>,
    view: Seq<usize>,
)
    requires
        view_fits(entries, chosen, sort, taken_at, view),
    ensures
        forall|k: int| 0 <= k < view.len() ==> #[trigger] view[k] < entries.len(),
{
    assert forall|k: int| 0 <= k < view.len() implies #[trigger] view[k] < entries.len() by {
        crate::grid_laws::sheet_shows_exactly_the_matching_rows(entries, chosen, sort, taken_at, view);
        assert(view.contains(view[k]));
    }
}

/// By capture time, rows come in the order of the times that are known, and of
/// their paths where these agree; rows without one come last, by path.
pub proof fn times_order_the_sheet(
    entries: Seq<PhotoEntry>,
    chosen: Set<Label>,
    taken_at: Map<u64, Option<String>>,
    view: Seq<usize>,
    i: int,
    j: int,
)
    requires
        view_fits(entries, chosen, SortKey::TakenAt, taken_at, view),
        0 <= i < j < view.len(),
    ensures
        ({
            let a = entries[view[i] as int];
            let b = entries[view[j] as int];
            let first = taken_at.contains_key(a.id.0) && taken_at[a.id.0] is Some;
            let second = taken_at.contains_key(b.id.0) && taken_at[b.id.0] is Some;
            &&& second ==> first
            &&& first && second && taken_at[a.id.0]->0@ != taken_at[b.id.0]->0@ ==> chars_le(
                taken_at[a.id.0]->0@,
                taken_at[b.id.0]->0@,
            )
            &&& first && second && taken_at[a.id.0]->0@ == taken_at[b.id.0]->0@ ==> path_le(a.rel_path@, b.rel_path@)
            &&& !first && !second ==> path_le(a.rel_path@, b.rel_path@)
        }),
{
    lemma_listed_rows(entries, chosen, SortKey::TakenAt, taken_at, view);
    assert(ints(view)[i] == view[i] as int);
    assert(ints(view)[j] == view[j] as int);
}

/// When the photo under the cursor is no longer shown, the cursor stays at its
/// position, or goes to the last one if the sheet got shorter; a cursor that
/// was nowhere goes to the first photo.
pub proof fn lost_cursors_stay_near(before: Seq<usize>, cursor: Option<usize>, after: Seq<usize>, now: Option<usize>)
    requires
        cursor_fits(before, cursor, after, now),
        0 < after.len() <= usize::MAX,
    ensures
        cursor is None ==> now == Some(0usize),
        cursor matches Some(c) ==> (c >= before.len() || !after.contains(before[c as int])) ==> now == Some(
            if c < after.len() {
                c
            } else {
                (after.len() - 1) as usize
            },
        ),
        cursor matches Some(c) ==> c < before.len() && after.contains(before[c as int]) ==> now is Some && now->0
            < after.len() && after[now->0 as int] == before[c as int],
{
}

/// When the sheet changes, a loupe whose photo is still shown stays open on
/// it, fitted and otherwise as it was; one whose photo is not is closed.
pub proof fn loupes_stay_or_close(before: Seq<usize>, loupe: Option<LoupeView>, after: Seq<usize>, now: Option<LoupeView>)
    requires
        loupe_fits(before, loupe, after, now),
    ensures
        loupe is None ==> now is None,
        loupe matches Some(open) ==> (open.index >= before.len() || !after.contains(before[open.index as int])) ==> now is None,
        loupe matches Some(open) ==> open.index < before.len() && after.contains(before[open.index as int]) ==> now is Some
            && now->0.index < after.len() && after[now->0.index as int] == before[open.index as int] && now->0.refit
            && now->0.lightbox == open.lightbox && now->0.white_bg == open.white_bg,
{
    if let Some(open) = loupe {
        if open.index < before.len() && after.contains(before[open.index as int]) {
            let row = before[open.index as int];
            let slot = choose|slot: usize| #[trigger]
                slot_of_row(after, row, Some(slot)) && now == Some(crate::loupe::moved(open, slot));
            assert(slot_of_row(after, row, Some(slot)));
        }
    }
}

/// A click on a label's chip chooses the label, or gives it up, and leaves the
/// others alone.
pub proof fn chips_flip_their_label(chosen: Set<Label>, label: Label, other: Label)
    ensures
        flipped(chosen, label).contains(label) == !chosen.contains(label),
        other != label ==> flipped(chosen, label).contains(other) == chosen.contains(other),
        colors().contains(label) == (label != Label::Unlabeled),
{
}

/// A turn clockwise is one quarter more and a turn back one less, and whole
/// circles do not count.
pub proof fn turns_are_quarters(current: u8)
    ensures
        turns_after(current, step_of(RotateDir::Clockwise)) == (current as int + 1) % 4,
        turns_after(current, step_of(RotateDir::CounterClockwise)) == (current as int + 3) % 4,
        current < 4 ==> turns_after(current, 0) == current,
{
}

/// There are two orders, each the other of the other.
pub proof fn there_are_two_orders()
    ensures
        other_order(SortKey::FileName) == SortKey::TakenAt,
        other_order(SortKey::TakenAt) == SortKey::FileName,
{
}

/// A digit asks for the label of its number; of several the lowest counts,
/// and with Ctrl or Alt none does.
pub proof fn digits_ask_for_their_label(down: Seq<bool>)
    requires
        down.len() == 6,
    ensures
        match digit_label(down) {
            Some(label) => {
                let number = match label {
                    Label::Unlabeled => 0int,
                    Label::Red => 1,
                    Label::Yellow => 2,
                    Label::Green => 3,
                    Label::Blue => 4,
                    Label::Purple => 5,
                };
                down[number] && forall|k: int| 0 <= k < number ==> !#[trigger] down[k]
            },
            None => forall|k: int| 0 <= k < 6 ==> !#[trigger] down[k],
        },
        bare_digit_label(down, true) is None,
        bare_digit_label(down, false) == digit_label(down),
{
}

/// Labels have these names and colors.
pub proof fn labels_have_names_and_colors()
    ensures
        name_of_label(Label::Unlabeled) == "unlabeled"@,
        name_of_label(Label::Red) == "red"@,
        name_of_label(Label::Yellow) == "yellow"@,
        name_of_label(Label::Green) == "green"@,
        name_of_label(Label::Blue) == "blue"@,
        name_of_label(Label::Purple) == "purple"@,
        color_of_label(Label::Unlabeled) == (138u8, 141u8, 146u8),
        color_of_label(Label::Red) == (229u8, 72u8, 77u8),
        color_of_label(Label::Yellow) == (245u8, 197u8, 24u8),
        color_of_label(Label::Green) == (70u8, 167u8, 88u8),
        color_of_label(Label::Blue) == (62u8, 99u8, 221u8),
        color_of_label(Label::Purple) == (157u8, 92u8, 232u8),
{
}

/// Auto-advance is on unless `off` is stored; all files are exported unless
/// one of the two other modes is stored.
pub proof fn unset_settings_have_defaults(text: Seq<char>)
    ensures
        advance_in(None),
        advance_in(Some(text)) == (text != "off"@),
        export_mode_in(None) == ExportMode::All,
        export_mode_in(Some("all"@)) == ExportMode::All,
        export_mode_in(Some("raw"@)) == ExportMode::RawOnly,
        export_mode_in(Some("jpeg"@)) == ExportMode::JpegOnly,
        text != "raw"@ && text != "jpeg"@ ==> export_mode_in(Some(text)) == ExportMode::All,
        mode_text(ExportMode::All) == "all"@,
        mode_text(ExportMode::RawOnly) == "raw"@,
        mode_text(ExportMode::JpegOnly) == "jpeg"@,
{
    reveal_strlit("all");
    reveal_strlit("raw");
    reveal_strlit("jpeg");
    assert("all"@[0] != "raw"@[0]);
    assert("raw"@.len() != "jpeg"@.len());
    assert("all"@.len() != "jpeg"@.len());
}

/// Counts below a thousand are written as they are; others have a narrow space
/// before their last three digits, and so on upwards.
pub proof fn thousands_are_set_apart(thousands: nat, rest: nat)
    requires
        rest < 1000,
    ensures
        grouped_text(rest) == decimal(rest),
        thousands > 0 ==> grouped_text(1000 * thousands + rest) == grouped_text(thousands) + seq![
            '\u{202f}',
            (48 + rest / 100) as char,
            (48 + rest / 10 % 10) as char,
            (48 + rest % 10) as char,
        ],
{
    reveal_with_fuel(decimal, 4);
    reveal_with_fuel(spaced, 4);
    assert(grouped_text(rest) =~= decimal(rest));
    if thousands > 0 {
        let n = 1000 * thousands + rest;
        assert(n / 10 / 10 / 10 == thousands);
        assert(n % 10 == rest % 10);
        assert(n / 10 % 10 == rest / 10 % 10);
        assert(n / 10 / 10 % 10 == rest / 100);
        let head = decimal(thousands);
        let a = (48 + rest / 100) as char;
        let b = (48 + rest / 10 % 10) as char;
        let c = (48 + rest % 10) as char;
        let all = decimal(n);
        assert(all =~= head.push(a).push(b).push(c));
        let k = head.len() as int;
        lemma_spaced_prefix(head, seq![a, b, c], k);
        assert(head + seq![a, b, c] =~= all);
        crate::text::decimals_are_digits(thousands);
        assert(all.len() == k + 3);
        assert(spaced(all, k + 1) == spaced(all, k).push('\u{202f}').push(a));
        assert(spaced(all, k + 2) == spaced(all, k + 1).push(b));
        assert(spaced(all, k + 3) == spaced(all, k + 2).push(c));
        assert(grouped_text(n) =~= grouped_text(thousands) + seq!['\u{202f}', a, b, c]);
    }
}

proof fn lemma_spaced_prefix(head: Seq<char>, tail: Seq<char>, i: int)
    requires
        0 <= i <= head.len(),
        tail.len() == 3,
    ensures
        spaced(head + tail, i) == spaced(head, i),
    decreases i,
{
    if i > 0 {
        lemma_spaced_prefix(head, tail, i - 1);
        assert((head.len() + 3 - (i - 1)) % 3 == (head.len() - (i - 1)) % 3);
        assert((head + tail)[i - 1] == head[i - 1]);
    }
}

/// A name of up to 26 characters is shown whole; of a longer one the last 25
/// behind an ellipsis.
pub proof fn long_names_keep_their_end(name: Seq<char>)
    ensures
        name.len() <= 26 ==> shortened(name) == name,
        name.len() > 26 ==> shortened(name).len() == 26 && shortened(name)[0] == '…' && shortened(name).skip(1) == name.skip(
            name.len() - 25,
        ),
{
    reveal_strlit("…");
    if name.len() > 26 {
        assert(shortened(name).skip(1) =~= name.skip(name.len() - 25));
    }
}

/// A block of cells covers the positions whose column and row lie in it.
pub proof fn blocks_cover_columns_and_rows(column: int, row: int, columns: int, first: (int, int), last: (int, int))
    requires
        0 <= column < columns,
        0 <= row,
    ensures
        in_block(row * columns + column, columns, first, last) <==> first.0 <= column <= last.0 && first.1 <= row
            <= last.1,
{
    let p = row * columns + column;
    vstd::arithmetic::div_mod::lemma_fundamental_div_mod_converse(p, columns, row, column);
}

/// The photo at a position is asked for as its row says.
pub open spec fn asks_for(entries: Seq<PhotoEntry>, view: Seq<usize>, p: int, request: Request) -> bool {
    &&& 0 <= p < view.len()
    &&& view[p] < entries.len()
    &&& ({
        let entry = entries[view[p] as int];
        &&& entry.status == PhotoStatus::Ingested
        &&& request.key.id == entry.id
        &&& request.key.class == SizeClass::Thumb
        &&& request.source is Some <==> entry.thumb_path is Some
        &&& (request.source matches Some((path, rotation)) ==> path == entry.thumb_path->0 && rotation.exif
            == entry.orientation && rotation.cw_turns == entry.rot_cw % 4)
    })
}

/// Of a range of positions exactly the extracted photos are asked for, by
/// their thumbnail, flag and turns.
pub proof fn extracted_tiles_are_asked_for(
    entries: Seq<PhotoEntry>,
    view: Seq<usize>,
    lo: int,
    hi: int,
    request: Request,
)
    requires
        0 <= lo,
    ensures
        requests_between(entries, view, lo, hi).contains(request) <==> exists|p: int|
            lo <= p < hi && #[trigger] asks_for(entries, view, p, request),
    decreases hi - lo,
{
    if hi > lo {
        extracted_tiles_are_asked_for(entries, view, lo, hi - 1, request);
        let before = requests_between(entries, view, lo, hi - 1);
        let p = hi - 1;
        if p < view.len() && view[p] < entries.len() {
            crate::order::lemma_push_contains(before, thumb_request(entries[view[p] as int]));
            if entries[view[p] as int].status == PhotoStatus::Ingested {
                assert(before.push(thumb_request(entries[view[p] as int])).contains(request) <==> before.contains(request)
                    || thumb_request(entries[view[p] as int]) == request);
                if thumb_request(entries[view[p] as int]) == request {
                    assert(asks_for(entries, view, p, request));
                }
                if asks_for(entries, view, p, request) {
                    assert(request.source == thumb_request(entries[view[p] as int]).source);
                }
            }
        }
        if exists|q: int| lo <= q < hi - 1 && #[trigger] asks_for(entries, view, q, request) {
            let q = choose|q: int| lo <= q < hi - 1 && #[trigger] asks_for(entries, view, q, request);
            assert(lo <= q < hi && asks_for(entries, view, q, request));
        }
    }
}

/// Around the rows on screen exactly the extracted photos of the rows `first`
/// up to `last` that are not on screen are asked for.
pub proof fn rows_around_the_window_are_asked_for(
    entries: Seq<PhotoEntry>,
    view: Seq<usize>,
    columns: int,
    shown: (int, int),
    first: int,
    last: int,
    request: Request,
)
    requires
        0 <= first,
        0 < columns,
    ensures
        requests_around(entries, view, columns, shown, first, last).contains(request) <==> exists|row: int, p: int|
            first <= row < last && !(shown.0 <= row < shown.1) && #[trigger] in_row(row, columns, p) && #[trigger] asks_for(
                entries,
                view,
                p,
                request,
            ),
    decreases last - first,
{
    if last > first {
        rows_around_the_window_are_asked_for(entries, view, columns, shown, first, last - 1, request);
        let before = requests_around(entries, view, columns, shown, first, last - 1);
        let row = last - 1;
        let own = requests_between(entries, view, row * columns, row * columns + columns);
        assert(row * columns >= 0) by (nonlinear_arith)
            requires
                row >= 0,
                columns > 0,
        ;
        extracted_tiles_are_asked_for(entries, view, row * columns, row * columns + columns, request);
        let all = requests_around(entries, view, columns, shown, first, last);
        if !(shown.0 <= row < shown.1) {
            assert(all.contains(request) <==> before.contains(request) || own.contains(request)) by {
                if before.contains(request) {
                    let i = choose|i: int| 0 <= i < before.len() && before[i] == request;
                    assert(all[i] == request);
                }
                if own.contains(request) {
                    let i = choose|i: int| 0 <= i < own.len() && own[i] == request;
                    assert(all[before.len() + i] == request);
                }
                if all.contains(request) {
                    let i = choose|i: int| 0 <= i < all.len() && all[i] == request;
                    if i < before.len() {
                        assert(before[i] == request);
                    } else {
                        assert(own[i - before.len()] == request);
                    }
                }
            }
            if own.contains(request) {
                let p = choose|p: int|
                    row * columns <= p < row * columns + columns && #[trigger] asks_for(entries, view, p, request);
                assert(in_row(row, columns, p) && asks_for(entries, view, p, request));
            }
        }
        if exists|r: int, p: int|
            first <= r < last - 1 && !(shown.0 <= r < shown.1) && #[trigger] in_row(r, columns, p) && #[trigger] asks_for(
                entries,
                view,
                p,
                request,
            ) {
            let (r, p) = choose|r: int, p: int|
                first <= r < last - 1 && !(shown.0 <= r < shown.1) && #[trigger] in_row(r, columns, p) && #[trigger] asks_for(
                    entries,
                    view,
                    p,
                    request,
                );
            assert(in_row(r, columns, p) && asks_for(entries, view, p, request));
        }
        if exists|r: int, p: int|
            first <= r < last && !(shown.0 <= r < shown.1) && #[trigger] in_row(r, columns, p) && #[trigger] asks_for(
                entries,
                view,
                p,
                request,
            ) {
            let (r, p) = choose|r: int, p: int|
                first <= r < last && !(shown.0 <= r < shown.1) && #[trigger] in_row(r, columns, p) && #[trigger] asks_for(
                    entries,
                    view,
                    p,
                    request,
                );
            if r == row {
                assert(own.contains(request));
            } else {
                assert(in_row(r, columns, p) && asks_for(entries, view, p, request));
            }
        }
    }
}

/// A position lies in a row of the sheet.
pub open spec fn in_row(row: int, columns: int, p: int) -> bool {
    row * columns <= p < row * columns + columns
}

/// Of the photos in a window exactly those that wait are noted.
pub proof fn waiting_tiles_are_noted(entries: Seq<PhotoEntry>, view: Seq<usize>, lo: int, hi: int, id: PhotoId)
    ensures
        waiting_in_window(entries, view, lo, hi).contains(id) <==> exists|p: int|
            lo <= p < hi && entries[(#[trigger] view[p]) as int].status == PhotoStatus::Pending && entries[view[p] as int].id
                == id,
    decreases hi - lo,
{
    if hi > lo {
        waiting_tiles_are_noted(entries, view, lo, hi - 1, id);
        let before = waiting_in_window(entries, view, lo, hi - 1);
        let entry = entries[view[hi - 1] as int];
        crate::order::lemma_push_contains(before, entry.id);
        if entry.status == PhotoStatus::Pending {
            assert(before.push(entry.id).contains(id) <==> before.contains(id) || entry.id == id);
        }
    }
}

/// What waits in the window is reported once after each change, and not if
/// nothing waits; nothing else on the sheet changes.
pub proof fn changed_windows_are_reported(before: GridView, waiting: Seq<PhotoId>, after: GridView)
    requires
        window_noted(before, waiting, after),
    ensures
        waiting.len() == 0 || waiting == before.last_ping@ ==> after == before,
        waiting.len() > 0 && waiting != before.last_ping@ ==> after.ping is Some && after.ping->0@ == waiting
            && after.last_ping@ == waiting,
        after.entries == before.entries && after.view == before.view && after.cursor == before.cursor
            && after.selection == before.selection && after.taken_at == before.taken_at,
{
}

/// The textures on screen are the thumbnails of the photos at these positions.
pub proof fn window_textures_are_thumbnails(
    entries: Seq<PhotoEntry>,
    view: Seq<usize>,
    lo: int,
    hi: int,
    ids: Seq<PhotoId>,
    key: TexKey,
)
    requires
        sorts(ids_in_window(entries, view, lo, hi), ids),
        lo <= hi,
    ensures
        thumb_keys(ids).contains(key) <==> key.class == SizeClass::Thumb && exists|p: int|
            lo <= p < hi && entries[(#[trigger] view[p]) as int].id == key.id,
        forall|a: int, b: int| 0 <= a <= b < ids.len() ==> (#[trigger] ids[a]).0 <= (#[trigger] ids[b]).0,
{
    broadcast use vstd::seq_lib::group_to_multiset_ensures;

    let list = ids_in_window(entries, view, lo, hi);
    assert(list.contains(key.id) <==> ids.contains(key.id)) by {
        assert(list.to_multiset().count(key.id) == ids.to_multiset().count(key.id));
    }
    let keys = thumb_keys(ids);
    if ids.contains(key.id) {
        let i = choose|i: int| 0 <= i < ids.len() && ids[i] == key.id;
        assert(keys[i].id == key.id);
        if key.class == SizeClass::Thumb {
            assert(keys[i] == key);
        }
        let j = choose|j: int| 0 <= j < list.len() && list[j] == key.id;
        assert(entries[view[lo + j] as int].id == key.id);
    }
    if keys.contains(key) {
        let i = choose|i: int| 0 <= i < keys.len() && keys[i] == key;
        assert(ids[i] == key.id);
    }
    if exists|p: int| lo <= p < hi && entries[(#[trigger] view[p]) as int].id == key.id {
        let p = choose|p: int| lo <= p < hi && entries[(#[trigger] view[p]) as int].id == key.id;
        assert(list[p - lo] == key.id);
    }
}

/// Capture times that are known stay; of those that are found the first of
/// each photo is added.
pub proof fn known_times_stay(
    known: Map<u64, Option<String>>,
    found: Seq<(PhotoId, Option<String>)>,
    k: int,
    id: u64,
)
    requires
        0 <= k <= found.len(),
    ensures
        ({
            let after = stamps_added(known, found, k);
            &&& known.contains_key(id) ==> after.contains_key(id) && after[id] == known[id]
            &&& !known.contains_key(id) ==> (after.contains_key(id) <==> exists|i: int| 0 <= i < k && (#[trigger] found[i]).0.0 == id)
            &&& !known.contains_key(id) ==> forall|i: int|
                0 <= i < k && (#[trigger] found[i]).0.0 == id && (forall|j: int| 0 <= j < i ==> (#[trigger] found[j]).0.0
                    != id) ==> after[id] == found[i].1
        }),
    decreases k,
{
    if k > 0 {
        known_times_stay(known, found, k - 1, id);
        let before = stamps_added(known, found, k - 1);
        let after = stamps_added(known, found, k);
        if !known.contains_key(id) {
            if before.contains_key(id) {
                let i = choose|i: int| 0 <= i < k - 1 && (#[trigger] found[i]).0.0 == id;
                assert(found[i].0.0 == id);
            }
            if found[k - 1].0.0 == id {
                assert(after.contains_key(id));
            }
            assert forall|i: int|
                0 <= i < k && (#[trigger] found[i]).0.0 == id && (forall|j: int| 0 <= j < i ==> (#[trigger] found[j]).0.0 != id)
                    implies after[id] == found[i].1 by {
                if i < k - 1 {
                    assert(before.contains_key(id));
                } else {
                    assert(!before.contains_key(id)) by {
                        if before.contains_key(id) {
                            let j = choose|j: int| 0 <= j < k - 1 && (#[trigger] found[j]).0.0 == id;
                            assert(found[j].0.0 != id);
                        }
                    }
                }
            }
        }
    }
}

/// The capture times that are looked up are those of the photos that were not
/// looked up before.
pub proof fn unknown_times_are_looked_up(entries: Seq<PhotoEntry>, known: Map<u64, Option<String>>, k: int, id: PhotoId)
    requires
        0 <= k <= entries.len(),
    ensures
        unstamped(entries, known, k).contains(id) <==> !known.contains_key(id.0) && exists|i: int|
            0 <= i < k && (#[trigger] entries[i]).id == id,
    decreases k,
{
    if k > 0 {
        unknown_times_are_looked_up(entries, known, k - 1, id);
        let before = unstamped(entries, known, k - 1);
        crate::order::lemma_push_contains(before, entries[k - 1].id);
        if !known.contains_key(entries[k - 1].id.0) {
            assert(before.push(entries[k - 1].id).contains(id) <==> before.contains(id) || entries[k - 1].id == id);
        }
    }
}

} // verus!
