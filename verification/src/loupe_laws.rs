//! What each key does to the open loupe, and what stands around the photo.

use vstd::prelude::*;

use crate::loupe::{
    around, dotted, exif_parts, exif_text, failure_words, fetchable, moved, pressed, tenths_text,
    text_part, unwrapped, LoupeKeys, LoupeView, NEIGHBOR_REACH,
};
use crate::model::{Label, PhotoDetail, PhotoEntry, PhotoId, PhotoStatus};
use crate::path::shown_name;
use crate::tex::Rotation;
use crate::text::decimal;
use crate::widgets::RotateDir;

verus! {

/// A left arrow takes the loupe one photo back, and leaves the first photo
/// alone; a right arrow takes it one photo on, and leaves the last one alone.
/// The photo it comes to is shown fitted.
pub proof fn arrows_walk_the_sheet(
    loupe: LoupeView,
    entries: Seq<PhotoEntry>,
    order: Seq<usize>,
    auto_advance: bool,
    keys: LoupeKeys,
)
    requires
        loupe.index < order.len() <= usize::MAX,
        keys.label is None,
    ensures
        ({
            let after = pressed(loupe, entries, order, auto_advance, keys).loupe;
            &&& keys.left && !keys.right && loupe.index > 0 ==> after.index == loupe.index - 1 && after.refit
            &&& keys.left && !keys.right && loupe.index == 0 ==> after.index == 0
            &&& !keys.left && keys.right && loupe.index < order.len() - 1 ==> after.index == loupe.index + 1
                && after.refit
            &&& !keys.left && keys.right && loupe.index == order.len() - 1 ==> after.index == loupe.index
            &&& keys.left && keys.right && loupe.index > 0 ==> after.index == loupe.index
            &&& !keys.left && !keys.right ==> after.index == loupe.index
            &&& after.index < order.len()
            &&& after.lightbox == loupe.lightbox
            &&& keys.rotate is None && after.index == loupe.index && !(keys.left && keys.right) ==> after.refit
                == loupe.refit
        }),
{
}

/// Left after right brings every photo but the last one back, and right after
/// left every one but the first.
pub proof fn arrows_cancel(
    loupe: LoupeView,
    entries: Seq<PhotoEntry>,
    order: Seq<usize>,
    auto_advance: bool,
    left: LoupeKeys,
    right: LoupeKeys,
)
    requires
        loupe.index < order.len() <= usize::MAX,
        left.left && !left.right && left.label is None,
        right.right && !right.left && right.label is None,
    ensures
        loupe.index < order.len() - 1 ==> pressed(
            pressed(loupe, entries, order, auto_advance, right).loupe,
            entries,
            order,
            auto_advance,
            left,
        ).loupe.index == loupe.index,
        loupe.index > 0 ==> pressed(
            pressed(loupe, entries, order, auto_advance, left).loupe,
            entries,
            order,
            auto_advance,
            right,
        ).loupe.index == loupe.index,
{
}

/// A digit labels the photo on display and no other, asks for that to be
/// written if the label is another one, and with auto-advance goes one photo
/// on unless it is the last.
pub proof fn digits_label_the_photo_on_display(
    loupe: LoupeView,
    entries: Seq<PhotoEntry>,
    order: Seq<usize>,
    auto_advance: bool,
    keys: LoupeKeys,
    label: Label,
)
    requires
        loupe.index < order.len() <= usize::MAX,
        order[loupe.index as int] < entries.len(),
        keys.label == Some(label),
        !keys.left && !keys.right,
        keys.rotate is None,
    ensures
        ({
            let frame = pressed(loupe, entries, order, auto_advance, keys);
            let row = order[loupe.index as int] as int;
            let advances = auto_advance != keys.tab && loupe.index < order.len() - 1;
            &&& frame.entries.len() == entries.len()
            &&& frame.entries[row] == (PhotoEntry { label, ..entries[row] })
            &&& forall|i: int| 0 <= i < entries.len() && i != row ==> #[trigger] frame.entries[i] == entries[i]
            &&& entries[row].label != label ==> frame.writes.label == Some((entries[row].id, label))
            &&& entries[row].label == label ==> frame.writes.label is None
            &&& frame.writes.rotation is None
            &&& advances ==> frame.loupe.index == loupe.index + 1 && frame.loupe.refit
            &&& !advances ==> frame.loupe.index == loupe.index
            &&& frame.loupe.lightbox == loupe.lightbox
        }),
{
}

/// A turn key turns the photo on display a quarter, clockwise or back, shows
/// it fitted and asks for the new turns to be written; no other photo turns.
pub proof fn turns_reach_the_photo_on_display(
    loupe: LoupeView,
    entries: Seq<PhotoEntry>,
    order: Seq<usize>,
    auto_advance: bool,
    keys: LoupeKeys,
    direction: RotateDir,
)
    requires
        loupe.index < order.len() <= usize::MAX,
        order[loupe.index as int] < entries.len(),
        entries[order[loupe.index as int] as int].rot_cw < 4,
        keys.rotate == Some(direction),
        keys.label is None,
        !keys.left && !keys.right,
    ensures
        ({
            let frame = pressed(loupe, entries, order, auto_advance, keys);
            let row = order[loupe.index as int] as int;
            let turns = frame.entries[row].rot_cw;
            &&& frame.entries.len() == entries.len()
            &&& frame.entries[row] == (PhotoEntry { rot_cw: turns, ..entries[row] })
            &&& direction == RotateDir::Clockwise ==> turns == (entries[row].rot_cw + 1) % 4
            &&& direction == RotateDir::CounterClockwise ==> turns == (entries[row].rot_cw + 3) % 4
            &&& forall|i: int| 0 <= i < entries.len() && i != row ==> #[trigger] frame.entries[i] == entries[i]
            &&& frame.writes.rotation == Some((entries[row].id, turns))
            &&& frame.writes.label is None
            &&& frame.loupe.index == loupe.index
            &&& frame.loupe.refit
            &&& frame.loupe.lightbox == loupe.lightbox
        }),
{
}

/// Where the loupe stands after the arrows of a frame: one back, then one on,
/// as far as there are photos.
pub open spec fn walked_to(index: int, keys: LoupeKeys, len: int) -> int {
    let back = if keys.left && index > 0 {
        index - 1
    } else {
        index
    };
    if keys.right && back + 1 < len {
        back + 1
    } else {
        back
    }
}

/// With several keys in a frame the arrows come first, then the label, then
/// the turn: the label lands on the photo that the arrows led to, and the turn
/// on the one that the loupe then shows. All else stays as it was.
pub proof fn keys_of_a_frame_act_in_turn(
    loupe: LoupeView,
    entries: Seq<PhotoEntry>,
    order: Seq<usize>,
    auto_advance: bool,
    keys: LoupeKeys,
    i: int,
)
    requires
        loupe.index < order.len() <= usize::MAX,
        forall|p: int| 0 <= p < order.len() ==> #[trigger] order[p] < entries.len(),
        0 <= i < entries.len(),
        entries[i].rot_cw < 4,
    ensures
        ({
            let frame = pressed(loupe, entries, order, auto_advance, keys);
            let at = walked_to(loupe.index as int, keys, order.len() as int);
            let on = if keys.label is Some && auto_advance != keys.tab && at + 1 < order.len() {
                at + 1
            } else {
                at
            };
            let labels = keys.label is Some && order[at] == i;
            let turns = keys.rotate is Some && order[on] == i;
            &&& frame.loupe.index == on
            &&& frame.entries.len() == entries.len()
            &&& frame.entries[i] == (PhotoEntry {
                label: if labels {
                    keys.label->0
                } else {
                    entries[i].label
                },
                rot_cw: if !turns {
                    entries[i].rot_cw
                } else if keys.rotate == Some(RotateDir::Clockwise) {
                    ((entries[i].rot_cw + 1) % 4) as u8
                } else {
                    ((entries[i].rot_cw + 3) % 4) as u8
                },
                ..entries[i]
            })
            &&& (labels && entries[i].label != keys.label->0 ==> frame.writes.label == Some(
                (entries[i].id, keys.label->0),
            ))
            &&& (labels && entries[i].label == keys.label->0 ==> frame.writes.label is None)
            &&& turns ==> frame.writes.rotation == Some((entries[i].id, frame.entries[i].rot_cw))
        }),
{
    let at = walked_to(loupe.index as int, keys, order.len() as int);
    assert(order[at] < entries.len());
    if at + 1 < order.len() {
        assert(order[at + 1] < entries.len());
    }
}

/// A frame without a label and a turn changes no row and writes neither; Tab
/// flips the auto-advance setting and has it written, and nothing else does.
/// The surround flips with its key in the lightbox only.
pub proof fn other_keys_leave_the_rows(
    loupe: LoupeView,
    entries: Seq<PhotoEntry>,
    order: Seq<usize>,
    auto_advance: bool,
    keys: LoupeKeys,
)
    ensures
        ({
            let frame = pressed(loupe, entries, order, auto_advance, keys);
            &&& keys.label is None && keys.rotate is None ==> frame.entries == entries
            &&& keys.label is None ==> frame.writes.label is None
            &&& keys.rotate is None ==> frame.writes.rotation is None
            &&& keys.tab ==> frame.auto_advance == !auto_advance && frame.writes.auto_advance == Some(!auto_advance)
            &&& !keys.tab ==> frame.auto_advance == auto_advance && frame.writes.auto_advance is None
            &&& frame.loupe.white_bg == (if loupe.lightbox && keys.backdrop {
                !loupe.white_bg
            } else {
                loupe.white_bg
            })
            &&& frame.loupe.lightbox == loupe.lightbox
        }),
{
}

/// A photo that is not among the rows is neither labeled nor turned.
pub proof fn absent_photos_are_left_alone(
    loupe: LoupeView,
    entries: Seq<PhotoEntry>,
    order: Seq<usize>,
    auto_advance: bool,
    keys: LoupeKeys,
)
    requires
        loupe.index < order.len() <= usize::MAX,
        order[loupe.index as int] >= entries.len(),
        !keys.left && !keys.right,
    ensures
        ({
            let frame = pressed(loupe, entries, order, auto_advance, keys);
            &&& frame.entries == entries
            &&& frame.writes.label is None
            &&& frame.writes.rotation is None
            &&& frame.loupe.index == loupe.index
        }),
{
}

/// Escape and Enter leave the lightbox first, and close the loupe from outside
/// of it; the lightbox key goes in and out. Nothing else about the loupe
/// changes, and without these keys nothing does.
pub proof fn the_lightbox_is_left_first(loupe: LoupeView, keys: LoupeKeys)
    ensures
        loupe.lightbox && (keys.escape || keys.enter || keys.lightbox) ==> unwrapped(loupe, keys) is Some
            && !unwrapped(loupe, keys)->0.lightbox,
        !loupe.lightbox && (keys.escape || keys.enter) ==> unwrapped(loupe, keys) is None,
        !loupe.lightbox && !keys.escape && !keys.enter && keys.lightbox ==> unwrapped(loupe, keys) is Some
            && unwrapped(loupe, keys)->0.lightbox,
        !keys.escape && !keys.enter && !keys.lightbox ==> unwrapped(loupe, keys) == Some(loupe),
        unwrapped(loupe, keys) matches Some(after) ==> after.index == loupe.index && after.white_bg == loupe.white_bg
            && after.refit == loupe.refit,
{
}

/// A jump shows the photo it leads to fitted, in or out of the lightbox as
/// before.
pub proof fn jumps_refit(loupe: LoupeView, index: usize)
    ensures
        moved(loupe, index).index == index,
        moved(loupe, index).refit,
        moved(loupe, index).lightbox == loupe.lightbox,
        moved(loupe, index).white_bg == loupe.white_bg,
{
}

/// Photos are fetched ahead from near to far, of two at the same distance the
/// earlier one first, each once.
pub proof fn neighbors_come_nearest_first(index: int, len: int, reach: int, a: int, b: int)
    requires
        0 <= index < len <= usize::MAX,
        0 <= a < b < around(index, len, reach).len(),
    ensures
        ({
            let p = around(index, len, reach)[a] as int;
            let q = around(index, len, reach)[b] as int;
            let near = if p < index {
                index - p
            } else {
                p - index
            };
            let far = if q < index {
                index - q
            } else {
                q - index
            };
            near < far || (near == far && p < q)
        }),
    decreases reach,
{
    lemma_distances(index, len, reach);
    if reach > 0 {
        lemma_distances(index, len, reach - 1);
        let nearer = around(index, len, reach - 1);
        if b < nearer.len() {
            neighbors_come_nearest_first(index, len, reach - 1, a, b);
        }
    }
}

proof fn lemma_distances(index: int, len: int, reach: int)
    requires
        0 <= index < len <= usize::MAX,
    ensures
        forall|k: int|
            0 <= k < around(index, len, reach).len() ==> index - reach <= #[trigger] around(index, len, reach)[k] <= index
                + reach,
    decreases reach,
{
    if reach > 0 {
        lemma_distances(index, len, reach - 1);
        let nearer = around(index, len, reach - 1);
        assert forall|k: int| 0 <= k < around(index, len, reach).len() implies index - reach <= #[trigger] around(
            index,
            len,
            reach,
        )[k] <= index + reach by {
            if k < nearer.len() {
                assert(around(index, len, reach)[k] == nearer[k]);
            }
        }
    }
}

/// Photos are fetched ahead up to three places off the one on display.
pub proof fn three_photos_are_fetched_ahead(index: int, len: int, p: usize)
    requires
        0 <= index < len <= usize::MAX,
    ensures
        around(index, len, NEIGHBOR_REACH as int).contains(p) <==> p < len && p != index && index - 3 <= p <= index + 3,
{
    crate::loupe::neighbors_are_the_photos_within_reach(index, len, 3, p);
}

/// Of the photos around, exactly those that were extracted are fetched, with
/// their flag and turns.
pub proof fn extracted_neighbors_are_fetched(
    entries: Seq<PhotoEntry>,
    order: Seq<usize>,
    positions: Seq<usize>,
    target: (PhotoId, Rotation),
)
    ensures
        fetchable(entries, order, positions).contains(target) <==> exists|k: int|
            0 <= k < positions.len() && fetches(entries, order, #[trigger] positions[k] as int, target),
        fetchable(entries, order, positions).len() <= positions.len(),
    decreases positions.len(),
{
    if positions.len() > 0 {
        let rest = positions.drop_last();
        extracted_neighbors_are_fetched(entries, order, rest, target);
        let head = fetchable(entries, order, rest);
        let row = order[positions.last() as int] as int;
        let last = (
            entries[row].id,
            Rotation { exif: entries[row].orientation, cw_turns: entries[row].rot_cw % 4 },
        );
        crate::order::lemma_push_contains(head, last);
        if row < entries.len() && entries[row].status == PhotoStatus::Ingested {
            assert(head.push(last).contains(target) <==> head.contains(target) || last == target);
        }
        if exists|k: int| 0 <= k < rest.len() && fetches(entries, order, #[trigger] rest[k] as int, target) {
            let k = choose|k: int| 0 <= k < rest.len() && fetches(entries, order, #[trigger] rest[k] as int, target);
            assert(positions[k] == rest[k]);
        }
        if exists|k: int| 0 <= k < positions.len() && fetches(entries, order, #[trigger] positions[k] as int, target) {
            let k = choose|k: int|
                0 <= k < positions.len() && fetches(entries, order, #[trigger] positions[k] as int, target);
            if k < rest.len() {
                assert(rest[k] == positions[k]);
            }
        }
        if last == target && row < entries.len() && entries[row].status == PhotoStatus::Ingested {
            assert(fetches(entries, order, positions[positions.len() - 1] as int, target));
        }
    }
}

/// The photo at a position was extracted, and `target` names it and how it is
/// turned.
pub open spec fn fetches(entries: Seq<PhotoEntry>, order: Seq<usize>, position: int, target: (PhotoId, Rotation)) -> bool {
    let row = order[position] as int;
    &&& row < entries.len()
    &&& entries[row].status == PhotoStatus::Ingested
    &&& target.0 == entries[row].id
    &&& target.1.exif == entries[row].orientation
    &&& target.1.cw_turns == entries[row].rot_cw % 4
}

/// Where every photo around was extracted, they are fetched in their order.
pub proof fn neighbors_are_fetched_in_order(entries: Seq<PhotoEntry>, order: Seq<usize>, positions: Seq<usize>, k: int)
    requires
        0 <= k < positions.len(),
        forall|m: int|
            0 <= m < positions.len() ==> order[(#[trigger] positions[m]) as int] < entries.len()
                && entries[order[positions[m] as int] as int].status == PhotoStatus::Ingested,
    ensures
        fetchable(entries, order, positions).len() == positions.len(),
        fetchable(entries, order, positions)[k].0 == entries[order[positions[k] as int] as int].id,
    decreases positions.len(),
{
    let rest = positions.drop_last();
    assert forall|m: int| 0 <= m < rest.len() implies order[(#[trigger] rest[m]) as int] < entries.len()
        && entries[order[rest[m] as int] as int].status == PhotoStatus::Ingested by {
        assert(rest[m] == positions[m]);
    }
    assert(order[positions[positions.len() - 1] as int] < entries.len());
    if rest.len() > 0 {
        neighbors_are_fetched_in_order(
            entries,
            order,
            rest,
            if k < rest.len() {
                k
            } else {
                0
            },
        );
    } else {
        assert(fetchable(entries, order, rest).len() == 0);
    }
}

/// The summary line has camera, lens, aperture, shutter, ISO, focal length and
/// time in this order, as far as they are there, with a dot between any two.
pub proof fn summaries_list_what_is_known(detail: PhotoDetail, entry: PhotoEntry)
    ensures
        ({
            let parts = exif_parts(detail);
            let n1 = if detail.camera is Some {
                1int
            } else {
                0
            };
            let n2 = n1 + if detail.lens is Some {
                1int
            } else {
                0
            };
            let n3 = n2 + if detail.aperture is Some {
                1int
            } else {
                0
            };
            let n4 = n3 + if detail.shutter is Some {
                1int
            } else {
                0
            };
            let n5 = n4 + if detail.iso is Some {
                1int
            } else {
                0
            };
            let n6 = n5 + if detail.focal_mm is Some {
                1int
            } else {
                0
            };
            let n7 = n6 + if detail.taken_at is Some {
                1int
            } else {
                0
            };
            &&& parts.len() == n7
            &&& (detail.camera matches Some(text) ==> parts[0] == text@)
            &&& (detail.lens matches Some(text) ==> parts[n1] == text@)
            &&& (detail.aperture matches Some(tenths) ==> parts[n2] == "f/"@ + tenths_text(tenths as nat))
            &&& (detail.shutter matches Some(text) ==> parts[n3] == text@)
            &&& (detail.iso matches Some(iso) ==> parts[n4] == "ISO "@ + decimal(iso as nat))
            &&& (detail.focal_mm matches Some(tenths) ==> parts[n5] == tenths_text(tenths as nat) + "mm"@)
            &&& (detail.taken_at matches Some(text) ==> parts[n6] == text@)
            &&& n7 == 0 ==> exif_text(detail, entry) == shown_name(entry.rel_path@)
            &&& n7 == 1 ==> exif_text(detail, entry) == parts[0]
            &&& n7 == 2 ==> exif_text(detail, entry) == parts[0] + " · "@ + parts[1]
            &&& n7 > 1 ==> exif_text(detail, entry) == dotted(parts.drop_last()) + " · "@ + parts.last()
        }),
{
    let parts = exif_parts(detail);
    let p1 = text_part(detail.camera);
    let p2 = p1 + text_part(detail.lens);
    let p3 = p2 + (match detail.aperture {
        Some(tenths) => seq!["f/"@ + tenths_text(tenths as nat)],
        None => Seq::empty(),
    });
    let p4 = p3 + text_part(detail.shutter);
    let p5 = p4 + (match detail.iso {
        Some(iso) => seq!["ISO "@ + decimal(iso as nat)],
        None => Seq::empty(),
    });
    let p6 = p5 + (match detail.focal_mm {
        Some(tenths) => seq![tenths_text(tenths as nat) + "mm"@],
        None => Seq::empty(),
    });
    assert(parts == p6 + text_part(detail.taken_at));
    assert(detail.camera is Some ==> parts[0] == p1[0]);
    assert(detail.lens is Some ==> parts[p1.len() as int] == p2[p1.len() as int]);
    assert(detail.aperture is Some ==> parts[p2.len() as int] == p3[p2.len() as int]);
    assert(detail.shutter is Some ==> parts[p3.len() as int] == p4[p3.len() as int]);
    assert(detail.iso is Some ==> parts[p4.len() as int] == p5[p4.len() as int]);
    assert(detail.focal_mm is Some ==> parts[p5.len() as int] == p6[p5.len() as int]);
    if parts.len() == 2 {
        assert(parts.drop_last().len() == 1);
        assert(parts.drop_last()[0] == parts[0]);
        assert(dotted(parts.drop_last()) == parts[0]);
    }
}

/// Tenths are written with a point and one digit, and whole numbers without.
pub proof fn tenths_are_written_plainly(whole: nat, tenth: nat)
    requires
        tenth < 10,
    ensures
        tenths_text(10 * whole) == decimal(whole),
        tenth > 0 ==> tenths_text(10 * whole + tenth) == decimal(whole) + seq!['.', (48 + tenth) as char],
{
    assert((10 * whole + tenth) / 10 == whole && (10 * whole + tenth) % 10 == tenth);
    if tenth > 0 {
        assert(tenths_text(10 * whole + tenth) =~= decimal(whole) + seq!['.', (48 + tenth) as char]);
    }
}

/// A failed photo says its message if it has one; any other that cannot be
/// shown is said to be missing.
pub proof fn failures_say_why(entry: PhotoEntry)
    ensures
        entry.status == PhotoStatus::Error && entry.err_msg is Some ==> failure_words(entry) == entry.err_msg->0@,
        entry.status == PhotoStatus::Error && entry.err_msg is None ==> failure_words(entry) == "Extraction failed"@,
        entry.status != PhotoStatus::Error ==> failure_words(entry) == "File is missing"@,
{
}

} // verus!
