//! The loupe: one photo large, walking the order of the sheet.

use vstd::prelude::*;

use crate::columns::copy_text;
use crate::model::{Label, PhotoDetail, PhotoEntry, PhotoId, PhotoStatus};
use crate::path::{display_file_name, shown_name};
use crate::tex::Rotation;
use crate::text::{decimal, decimal_chars, digit, from_chars, push_text};
use crate::widgets::{
    bare_digit_label, grouped, grouped_text, step_of, turned, turns_after, RotateDir,
};

verus! {

/// How far around the current photo previews are fetched ahead.
pub const NEIGHBOR_REACH: usize = 3;

/// What the loupe asks for after a frame.
#[derive(Clone, Copy, Debug, PartialEq, Eq, Structural)]
pub enum Outcome {
    /// Keep showing the photo.
    Stay,
    /// Back to the sheet.
    Close,
}

/// State of the loupe. Zooming and panning are the painter's business; it
/// starts over at fit whenever `refit` is set.
#[derive(Clone, Copy, Debug, PartialEq, Eq, Structural)]
pub struct LoupeView {
    /// Position in the sheet's order.
    pub index: usize,
    /// Only the photo, nothing around it.
    pub lightbox: bool,
    /// White surround in the lightbox.
    pub white_bg: bool,
    /// The photo is to be shown fitted again.
    pub refit: bool,
}

/// Keys that went down this frame.
#[derive(Clone, Copy, Debug, PartialEq, Eq, Structural)]
pub struct LoupeKeys {
    /// Previous photo.
    pub left: bool,
    /// Next photo.
    pub right: bool,
    /// Leave the lightbox, or the loupe.
    pub escape: bool,
    /// Likewise.
    pub enter: bool,
    /// Enter or leave the lightbox.
    pub lightbox: bool,
    /// Flip the lightbox surround.
    pub backdrop: bool,
    /// Flip auto-advance.
    pub tab: bool,
    /// Label of a digit key.
    pub label: Option<Label>,
    /// Turn the photo.
    pub rotate: Option<RotateDir>,
}

/// What has to be written to the index.
#[derive(Clone, Copy, Debug, PartialEq, Eq)]
pub struct LoupeWrites {
    /// New auto-advance setting.
    pub auto_advance: Option<bool>,
    /// New label of a photo.
    pub label: Option<(PhotoId, Label)>,
    /// New rotation of a photo.
    pub rotation: Option<(PhotoId, u8)>,
}

/// The loupe on another photo, fitted.
pub open spec fn moved(loupe: LoupeView, index: usize) -> LoupeView {
    LoupeView { index, refit: true, ..loupe }
}

/// The loupe after the keys that leave or unwrap it; `None` closes it. In the
/// lightbox they bring the surroundings back first.
pub open spec fn unwrapped(loupe: LoupeView, keys: LoupeKeys) -> Option<LoupeView> {
    if loupe.lightbox && (keys.escape || keys.enter || keys.lightbox) {
        Some(LoupeView { lightbox: false, ..loupe })
    } else if keys.escape || keys.enter {
        None
    } else if keys.lightbox {
        Some(LoupeView { lightbox: true, ..loupe })
    } else {
        Some(loupe)
    }
}

/// The loupe after the surround key, which counts only in the lightbox.
pub open spec fn recolored(loupe: LoupeView, keys: LoupeKeys) -> LoupeView {
    if loupe.lightbox && keys.backdrop {
        LoupeView { white_bg: !loupe.white_bg, ..loupe }
    } else {
        loupe
    }
}

/// The loupe after a step back.
pub open spec fn stepped_back(loupe: LoupeView, keys: LoupeKeys) -> LoupeView {
    if keys.left && loupe.index > 0 {
        moved(loupe, (loupe.index - 1) as usize)
    } else {
        loupe
    }
}

/// The loupe after a step forward among `len` photos.
pub open spec fn stepped_on(loupe: LoupeView, step: bool, len: int) -> LoupeView {
    if step && loupe.index + 1 < len {
        moved(loupe, (loupe.index + 1) as usize)
    } else {
        loupe
    }
}

/// The photo on display is one of the rows.
pub open spec fn shows_row(loupe: LoupeView, entries: Seq<PhotoEntry>, order: Seq<usize>) -> bool {
    loupe.index < order.len() && order[loupe.index as int] < entries.len()
}

/// The rows after the photo on display was labeled.
pub open spec fn relabeled(loupe: LoupeView, entries: Seq<PhotoEntry>, order: Seq<usize>, label: Label) -> Seq<
    PhotoEntry,
> {
    if shows_row(loupe, entries, order) {
        let row = order[loupe.index as int] as int;
        entries.update(row, PhotoEntry { label, ..entries[row] })
    } else {
        entries
    }
}

/// The write that labeling the photo on display asks for: none if it had
/// that label.
pub open spec fn label_write(loupe: LoupeView, entries: Seq<PhotoEntry>, order: Seq<usize>, label: Label) -> Option<
    (PhotoId, Label),
> {
    if shows_row(loupe, entries, order) && entries[order[loupe.index as int] as int].label != label {
        Some((entries[order[loupe.index as int] as int].id, label))
    } else {
        None
    }
}

/// The loupe after labeling: with auto-advance it walks on, whether or not
/// the label changed.
pub open spec fn after_label(
    loupe: LoupeView,
    entries: Seq<PhotoEntry>,
    order: Seq<usize>,
    auto_advance: bool,
) -> LoupeView {
    if shows_row(loupe, entries, order) {
        stepped_on(loupe, auto_advance, order.len() as int)
    } else {
        loupe
    }
}

/// The rows after the photo on display was turned.
pub open spec fn turned_rows(
    loupe: LoupeView,
    entries: Seq<PhotoEntry>,
    order: Seq<usize>,
    direction: RotateDir,
) -> Seq<PhotoEntry> {
    if shows_row(loupe, entries, order) {
        let row = order[loupe.index as int] as int;
        entries.update(
            row,
            PhotoEntry { rot_cw: turns_after(entries[row].rot_cw, step_of(direction)), ..entries[row] },
        )
    } else {
        entries
    }
}

/// The write that turning the photo on display asks for.
pub open spec fn turn_write(
    loupe: LoupeView,
    entries: Seq<PhotoEntry>,
    order: Seq<usize>,
    direction: RotateDir,
) -> Option<(PhotoId, u8)> {
    if shows_row(loupe, entries, order) {
        let row = order[loupe.index as int] as int;
        Some((entries[row].id, turns_after(entries[row].rot_cw, step_of(direction))))
    } else {
        None
    }
}

/// What a frame of keys makes of the loupe, the rows and the setting.
pub struct LoupeFrame {
    /// The loupe.
    pub loupe: LoupeView,
    /// The rows.
    pub entries: Seq<PhotoEntry>,
    /// The auto-advance setting.
    pub auto_advance: bool,
    /// What has to be written.
    pub writes: LoupeWrites,
}

/// A frame of keys on a loupe that stays open: surround, steps, setting,
/// label and turn, in this order.
pub open spec fn pressed(
    loupe: LoupeView,
    entries: Seq<PhotoEntry>,
    order: Seq<usize>,
    auto_advance: bool,
    keys: LoupeKeys,
) -> LoupeFrame {
    let len = order.len() as int;
    let l1 = stepped_on(stepped_back(recolored(loupe, keys), keys), keys.right, len);
    let advance = if keys.tab {
        !auto_advance
    } else {
        auto_advance
    };
    let (l2, e2, w2) = match keys.label {
        Some(label) => (
            after_label(l1, entries, order, advance),
            relabeled(l1, entries, order, label),
            label_write(l1, entries, order, label),
        ),
        None => (l1, entries, None),
    };
    let (l3, e3, w3) = match keys.rotate {
        Some(direction) => (
            if shows_row(l2, e2, order) {
                LoupeView { refit: true, ..l2 }
            } else {
                l2
            },
            turned_rows(l2, e2, order, direction),
            turn_write(l2, e2, order, direction),
        ),
        None => (l2, e2, None),
    };
    LoupeFrame {
        loupe: l3,
        entries: e3,
        auto_advance: advance,
        writes: LoupeWrites {
            auto_advance: if keys.tab {
                Some(advance)
            } else {
                None
            },
            label: w2,
            rotation: w3,
        },
    }
}

impl LoupeView {
    /// Opens the loupe at a position, fitted.
    pub fn at(index: usize) -> (loupe: Self)
        ensures
            loupe == (LoupeView { index, lightbox: false, white_bg: false, refit: true }),
    {
        LoupeView { index, lightbox: false, white_bg: false, refit: true }
    }

    /// Opens the loupe in the lightbox.
    pub fn at_in_lightbox(index: usize) -> (loupe: Self)
        ensures
            loupe == (LoupeView { index, lightbox: true, white_bg: false, refit: true }),
    {
        let mut loupe = LoupeView::at(index);
        loupe.lightbox = true;
        loupe
    }

    /// Position in the sheet's order.
    pub fn index(&self) -> (index: usize)
        ensures
            index == self.index,
    {
        self.index
    }

    /// Shows another position, fitted.
    pub fn jump_to(&mut self, index: usize)
        ensures
            *final(self) == moved(*old(self), index),
    {
        self.move_to(index);
    }

    fn move_to(&mut self, index: usize)
        ensures
            *final(self) == moved(*old(self), index),
    {
        self.index = index;
        self.refit = true;
    }

    /// Whether the painter has to start over at fit; asking resets it.
    pub fn take_refit(&mut self) -> (refit: bool)
        ensures
            refit == old(self).refit,
            *final(self) == (LoupeView { refit: false, ..*old(self) }),
    {
        let refit: bool = self.refit;
        self.refit = false;
        refit
    }

    /// One frame of keys. While a dialog covers the screen (`suspended`) keys
    /// do nothing.
    pub fn ui(
        &mut self,
        keys: LoupeKeys,
        entries: &mut Vec<PhotoEntry>,
        order: &Vec<usize>,
        auto_advance: &mut bool,
        suspended: bool,
    ) -> (result: (Outcome, LoupeWrites))
        ensures
            ({
                let nothing = LoupeWrites { auto_advance: None, label: None, rotation: None };
                let unchanged = *final(self) == *old(self) && *final(entries) == *old(entries) && *final(auto_advance)
                    == *old(auto_advance);
                if old(self).index >= order.len() {
                    result == (Outcome::Close, nothing) && unchanged
                } else if suspended {
                    result == (Outcome::Stay, nothing) && unchanged
                } else {
                    match unwrapped(*old(self), keys) {
                        None => result == (Outcome::Close, nothing) && unchanged,
                        Some(loupe) => {
                            let frame = pressed(loupe, old(entries)@, order@, *old(auto_advance), keys);
                            &&& result == (Outcome::Stay, frame.writes)
                            &&& *final(self) == frame.loupe
                            &&& final(entries)@ == frame.entries
                            &&& *final(auto_advance) == frame.auto_advance
                        },
                    }
                }
            }),
    {
        let mut writes = LoupeWrites { auto_advance: None, label: None, rotation: None };
        if order.len() == 0 || self.index >= order.len() {
            return (Outcome::Close, writes);
        }
        if suspended {
            return (Outcome::Stay, writes);
        }
        if self.unwrap(keys) {
            return (Outcome::Close, writes);
        }
        self.walk(keys, order.len());
        if keys.tab {
            *auto_advance = !*auto_advance;
            writes.auto_advance = Some(*auto_advance);
        }
        match keys.label {
            Some(label) => {
                let advance: bool = *auto_advance;
                writes.label = self.apply_label(entries, order, label, advance);
            },
            None => {},
        }
        match keys.rotate {
            Some(direction) => {
                writes.rotation = self.rotate_current(entries, order, direction);
            },
            None => {},
        }
        (Outcome::Stay, writes)
    }

    /// Handles the keys that leave or unwrap the loupe; says whether it closes.
    fn unwrap(&mut self, keys: LoupeKeys) -> (closes: bool)
        ensures
            match unwrapped(*old(self), keys) {
                None => closes && *final(self) == *old(self),
                Some(loupe) => !closes && *final(self) == loupe,
            },
    {
        if self.lightbox && (keys.escape || keys.enter || keys.lightbox) {
            self.lightbox = false;
        } else if keys.escape || keys.enter {
            return true;
        } else if keys.lightbox {
            self.lightbox = true;
        }
        false
    }

    /// Handles the surround key and the steps.
    fn walk(&mut self, keys: LoupeKeys, len: usize)
        requires
            old(self).index < len,
        ensures
            *final(self) == stepped_on(stepped_back(recolored(*old(self), keys), keys), keys.right, len as int),
    {
        if self.lightbox && keys.backdrop {
            self.white_bg = !self.white_bg;
        }
        if keys.left && self.index > 0 {
            self.move_to(self.index - 1);
        }
        if keys.right && self.index < len - 1 {
            self.move_to(self.index + 1);
        }
    }

    /// Labels the photo on display and, with auto-advance, walks on. Returns
    /// the label to write.
    pub fn apply_label(
        &mut self,
        entries: &mut Vec<PhotoEntry>,
        order: &Vec<usize>,
        label: Label,
        auto_advance: bool,
    ) -> (write: Option<(PhotoId, Label)>)
        ensures
            *final(self) == after_label(*old(self), old(entries)@, order@, auto_advance),
            final(entries)@ == relabeled(*old(self), old(entries)@, order@, label),
            write == label_write(*old(self), old(entries)@, order@, label),
    {
        if self.index >= order.len() {
            return None;
        }
        let row: usize = order[self.index];
        if row >= entries.len() {
            return None;
        }
        let ghost rows = entries@;
        let mut write: Option<(PhotoId, Label)> = None;
        if entries[row].label != label {
            entries[row].label = label;
            write = Some((entries[row].id, label));
        } else {
            proof {
                assert(rows.update(row as int, PhotoEntry { label, ..rows[row as int] }) =~= rows);
            }
        }
        if auto_advance && self.index < order.len() - 1 {
            self.move_to(self.index + 1);
        }
        write
    }

    /// Turns the photo on display and shows it fitted. Returns the rotation
    /// to write.
    pub fn rotate_current(&mut self, entries: &mut Vec<PhotoEntry>, order: &Vec<usize>, direction: RotateDir) -> (write:
        Option<(PhotoId, u8)>)
        ensures
            *final(self) == (if shows_row(*old(self), old(entries)@, order@) {
                LoupeView { refit: true, ..*old(self) }
            } else {
                *old(self)
            }),
            final(entries)@ == turned_rows(*old(self), old(entries)@, order@, direction),
            write == turn_write(*old(self), old(entries)@, order@, direction),
    {
        if self.index >= order.len() {
            return None;
        }
        let row: usize = order[self.index];
        if row >= entries.len() {
            return None;
        }
        let turns: u8 = turned(entries[row].rot_cw, direction.delta());
        entries[row].rot_cw = turns;
        self.refit = true;
        Some((entries[row].id, turns))
    }
}

/// Labeling never moves back, never leaves the order, and moves only with
/// auto-advance and a next photo.
pub proof fn labeling_walks_forward(
    loupe: LoupeView,
    entries: Seq<PhotoEntry>,
    order: Seq<usize>,
    auto_advance: bool,
)
    requires
        shows_row(loupe, entries, order),
        order.len() <= usize::MAX,
    ensures
        ({
            let after = after_label(loupe, entries, order, auto_advance);
            &&& loupe.index <= after.index <= loupe.index + 1
            &&& after.index < order.len()
            &&& after.index != loupe.index <==> auto_advance && loupe.index + 1 < order.len()
        }),
{
}

/// A digit with Ctrl or Alt held labels nothing: no row gets another label,
/// and none is written.
pub proof fn modified_digits_label_nothing(
    loupe: LoupeView,
    entries: Seq<PhotoEntry>,
    order: Seq<usize>,
    auto_advance: bool,
    keys: LoupeKeys,
    down: Seq<bool>,
)
    requires
        keys.label == bare_digit_label(down, true),
    ensures
        ({
            let frame = pressed(loupe, entries, order, auto_advance, keys);
            &&& frame.writes.label is None
            &&& frame.entries.len() == entries.len()
            &&& forall|i: int| 0 <= i < entries.len() ==> (#[trigger] frame.entries[i]).label == entries[i].label
            &&& !keys.left && !keys.right ==> frame.loupe.index == loupe.index
        }),
{
}

/// The positions around `index` up to a distance, nearest first, the earlier
/// one of each pair before the later one, within `len`.
pub open spec fn around(index: int, len: int, reach: int) -> Seq<usize>
    decreases reach,
{
    if reach <= 0 {
        Seq::empty()
    } else {
        let nearer = around(index, len, reach - 1);
        let nearer = if 0 <= index - reach < len {
            nearer.push((index - reach) as usize)
        } else {
            nearer
        };
        if index + reach < len {
            nearer.push((index + reach) as usize)
        } else {
            nearer
        }
    }
}

/// The positions around `index`, nearest first.
pub fn neighbor_indices(index: usize, len: usize, reach: usize) -> (positions: Vec<usize>)
    requires
        index + reach <= usize::MAX,
    ensures
        positions@ == around(index as int, len as int, reach as int),
{
    let mut positions: Vec<usize> = Vec::new();
    let mut distance: usize = 0;
    proof {
        assert(positions@ =~= Seq::<usize>::empty());
    }
    while distance < reach
        invariant
            distance <= reach,
            index + reach <= usize::MAX,
            positions@ == around(index as int, len as int, distance as int),
        decreases reach - distance,
    {
        distance = distance + 1;
        if index >= distance && index - distance < len {
            positions.push(index - distance);
        }
        if index + distance < len {
            positions.push(index + distance);
        }
    }
    positions
}

/// Every position that is fetched ahead is another photo of the order within
/// reach, and every such photo is fetched.
pub proof fn neighbors_are_the_photos_within_reach(index: int, len: int, reach: int, p: usize)
    requires
        0 <= index < len <= usize::MAX,
        reach >= 0,
    ensures
        around(index, len, reach).contains(p) <==> p < len && p != index && index - reach <= p <= index + reach,
    decreases reach,
{
    if reach > 0 {
        neighbors_are_the_photos_within_reach(index, len, reach - 1, p);
        let nearer = around(index, len, reach - 1);
        let mid = if 0 <= index - reach < len {
            nearer.push((index - reach) as usize)
        } else {
            nearer
        };
        crate::order::lemma_push_contains(nearer, (index - reach) as usize);
        crate::order::lemma_push_contains(mid, (index + reach) as usize);
        assert(nearer.push((index - reach) as usize).contains(p) <==> nearer.contains(p) || p == (index
            - reach) as usize);
        assert(mid.push((index + reach) as usize).contains(p) <==> mid.contains(p) || p == (index + reach) as usize);
    }
}

/// Where the preview of the photo on display is.
pub fn preview_path(detail: &Option<PhotoDetail>) -> (path: Option<String>)
    ensures
        path == (match *detail {
            Some(record) => record.preview_path,
            None => None,
        }),
{
    match detail {
        Some(record) => copy_text(&record.preview_path),
        None => None,
    }
}

/// A number of tenths without a dangling zero.
pub open spec fn tenths_text(tenths: nat) -> Seq<char> {
    if tenths % 10 == 0 {
        decimal(tenths / 10)
    } else {
        decimal(tenths / 10).push('.').push(digit(tenths % 10))
    }
}

/// Writes a number of tenths without a dangling zero.
pub fn trim_number(tenths: u64) -> (text: Vec<char>)
    ensures
        text@ == tenths_text(tenths as nat),
{
    let mut text: Vec<char> = decimal_chars(tenths / 10);
    let rest: u64 = tenths % 10;
    if rest != 0 {
        text.push('.');
        let last: Vec<char> = decimal_chars(rest);
        text.push(last[0]);
    }
    text
}

/// The parts of the summary line that are there, in order: camera, lens,
/// aperture, shutter speed, ISO, focal length and capture time.
pub open spec fn exif_parts(detail: PhotoDetail) -> Seq<Seq<char>> {
    text_part(detail.camera) + text_part(detail.lens) + (match detail.aperture {
        Some(tenths) => seq!["f/"@ + tenths_text(tenths as nat)],
        None => Seq::empty(),
    }) + text_part(detail.shutter) + (match detail.iso {
        Some(iso) => seq!["ISO "@ + decimal(iso as nat)],
        None => Seq::empty(),
    }) + (match detail.focal_mm {
        Some(tenths) => seq![tenths_text(tenths as nat) + "mm"@],
        None => Seq::empty(),
    }) + text_part(detail.taken_at)
}

/// A text that may be missing, as zero or one part.
pub open spec fn text_part(text: Option<String>) -> Seq<Seq<char>> {
    match text {
        Some(t) => seq![t@],
        None => Seq::empty(),
    }
}

/// Parts with a middle dot between them.
pub open spec fn dotted(parts: Seq<Seq<char>>) -> Seq<char>
    decreases parts.len(),
{
    if parts.len() == 0 {
        Seq::empty()
    } else if parts.len() == 1 {
        parts[0]
    } else {
        dotted(parts.drop_last()) + " · "@ + parts.last()
    }
}

/// The summary line: the parts that are there, or the file name if none is.
pub open spec fn exif_text(detail: PhotoDetail, entry: PhotoEntry) -> Seq<char> {
    if exif_parts(detail).len() == 0 {
        shown_name(entry.rel_path@)
    } else {
        dotted(exif_parts(detail))
    }
}

/// A line being joined.
struct Line {
    chars: Vec<char>,
    started: bool,
    parts: Ghost<Seq<Seq<char>>>,
}

impl Line {
    spec fn holds(self, parts: Seq<Seq<char>>) -> bool {
        &&& self.parts@ == parts
        &&& self.chars@ == dotted(parts)
        &&& self.started == (parts.len() > 0)
    }

    fn push(&mut self, part: &Vec<char>)
        requires
            old(self).holds(old(self).parts@),
        ensures
            final(self).holds(old(self).parts@.push(part@)),
    {
        let ghost before = self.parts@;
        let ghost after = before.push(part@);
        if self.started {
            push_text(&mut self.chars, " · ");
        }
        let text: String = from_chars(part);
        push_text(&mut self.chars, text.as_str());
        self.started = true;
        self.parts = Ghost(after);
        proof {
            assert(after.drop_last() =~= before);
            if before.len() == 0 {
                assert(Seq::<char>::empty() + part@ =~= part@);
            }
        }
    }

    fn push_optional(&mut self, text: &Option<String>)
        requires
            old(self).holds(old(self).parts@),
        ensures
            final(self).holds(old(self).parts@ + text_part(*text)),
    {
        match text {
            Some(t) => {
                let part: Vec<char> = crate::text::to_chars(t.as_str());
                let ghost before = self.parts@;
                self.push(&part);
                proof {
                    assert(before.push(part@) =~= before + text_part(*text));
                }
            },
            None => {
                proof {
                    assert(self.parts@ + text_part(*text) =~= self.parts@);
                }
            },
        }
    }
}

/// The summary line below a photo; missing fields are left out, and a record
/// without any shows the file name.
pub fn exif_line(detail: &PhotoDetail, entry: &PhotoEntry) -> (line: String)
    ensures
        line@ == exif_text(*detail, *entry),
{
    let ghost none = Seq::<Seq<char>>::empty();
    let mut line = Line { chars: Vec::new(), started: false, parts: Ghost(none) };
    proof {
        assert(line.chars@ =~= dotted(none));
        assert(none + text_part(detail.camera) =~= text_part(detail.camera));
    }
    line.push_optional(&detail.camera);
    line.push_optional(&detail.lens);
    let ghost p0 = line.parts@;
    match detail.aperture {
        Some(tenths) => {
            let mut part: Vec<char> = Vec::new();
            push_text(&mut part, "f/");
            let number: Vec<char> = trim_number(tenths);
            let text: String = from_chars(&number);
            push_text(&mut part, text.as_str());
            proof {
                assert(Seq::<char>::empty() + "f/"@ =~= "f/"@);
                assert(p0.push(part@) =~= p0 + seq!["f/"@ + tenths_text(tenths as nat)]);
            }
            line.push(&part);
        },
        None => {
            proof {
                assert(p0 + Seq::<Seq<char>>::empty() =~= p0);
            }
        },
    }
    line.push_optional(&detail.shutter);
    let ghost p1 = line.parts@;
    match detail.iso {
        Some(iso) => {
            let mut part: Vec<char> = Vec::new();
            push_text(&mut part, "ISO ");
            let number: String = crate::text::decimal_text(iso as u64);
            push_text(&mut part, number.as_str());
            proof {
                assert(Seq::<char>::empty() + "ISO "@ =~= "ISO "@);
                assert(p1.push(part@) =~= p1 + seq!["ISO "@ + decimal(iso as nat)]);
            }
            line.push(&part);
        },
        None => {
            proof {
                assert(p1 + Seq::<Seq<char>>::empty() =~= p1);
            }
        },
    }
    let ghost p2 = line.parts@;
    match detail.focal_mm {
        Some(tenths) => {
            let mut part: Vec<char> = trim_number(tenths);
            push_text(&mut part, "mm");
            proof {
                assert(p2.push(part@) =~= p2 + seq![tenths_text(tenths as nat) + "mm"@]);
            }
            line.push(&part);
        },
        None => {
            proof {
                assert(p2 + Seq::<Seq<char>>::empty() =~= p2);
            }
        },
    }
    line.push_optional(&detail.taken_at);
    proof {
        assert(line.parts@ =~= exif_parts(*detail));
    }
    if !line.started {
        display_file_name(&entry.rel_path)
    } else {
        from_chars(&line.chars)
    }
}

/// The counter in the corner: position and number of photos.
pub fn position_text(ordinal: usize, total: usize) -> (text: String)
    ensures
        text@ == grouped_text(ordinal as nat) + " / "@ + grouped_text(total as nat),
{
    let first: String = grouped(ordinal);
    let second: String = grouped(total);
    let head: String = crate::text::concat(first.as_str(), " / ");
    crate::text::concat(head.as_str(), second.as_str())
}

/// What is said in place of a photo that cannot be shown.
pub open spec fn failure_words(entry: PhotoEntry) -> Seq<char> {
    if entry.status == PhotoStatus::Error {
        match entry.err_msg {
            Some(message) => message@,
            None => "Extraction failed"@,
        }
    } else {
        "File is missing"@
    }
}

/// The words in place of a photo that cannot be shown.
pub fn failure_text(entry: &PhotoEntry) -> (text: String)
    ensures
        text@ == failure_words(*entry),
{
    if entry.status == PhotoStatus::Error {
        match &entry.err_msg {
            Some(message) => message.clone(),
            None => "Extraction failed".to_owned(),
        }
    } else {
        "File is missing".to_owned()
    }
}

/// The display turning of a row: its EXIF flag and the user's turns.
pub fn row_rotation(entry: &PhotoEntry) -> (rotation: Rotation)
    ensures
        rotation.exif == entry.orientation,
        rotation.cw_turns == entry.rot_cw % 4,
{
    Rotation::new(entry.orientation, entry.rot_cw)
}

/// The photos around the one on display whose previews are worth fetching
/// ahead, nearest first: those that were extracted.
pub open spec fn fetchable(entries: Seq<PhotoEntry>, order: Seq<usize>, positions: Seq<usize>) -> Seq<
    (PhotoId, Rotation),
>
    decreases positions.len(),
{
    if positions.len() == 0 {
        Seq::empty()
    } else {
        let head = fetchable(entries, order, positions.drop_last());
        let row = order[positions.last() as int] as int;
        if row < entries.len() && entries[row].status == PhotoStatus::Ingested {
            head.push(
                (
                    entries[row].id,
                    Rotation { exif: entries[row].orientation, cw_turns: entries[row].rot_cw % 4 },
                ),
            )
        } else {
            head
        }
    }
}

/// Lists the photos around a position whose previews are worth fetching.
pub fn neighbor_targets(entries: &Vec<PhotoEntry>, order: &Vec<usize>, index: usize) -> (targets: Vec<
    (PhotoId, Rotation),
>)
    requires
        index < order.len(),
        index + NEIGHBOR_REACH <= usize::MAX,
    ensures
        targets@ == fetchable(entries@, order@, around(index as int, order.len() as int, NEIGHBOR_REACH as int)),
{
    let positions: Vec<usize> = neighbor_indices(index, order.len(), NEIGHBOR_REACH);
    let mut targets: Vec<(PhotoId, Rotation)> = Vec::new();
    let mut k: usize = 0;
    proof {
        assert(positions@.take(0) =~= Seq::<usize>::empty());
        assert(targets@ =~= Seq::<(PhotoId, Rotation)>::empty());
    }
    while k < positions.len()
        invariant
            k <= positions.len(),
            index < order.len(),
            positions@ == around(index as int, order.len() as int, NEIGHBOR_REACH as int),
            targets@ == fetchable(entries@, order@, positions@.take(k as int)),
        decreases positions.len() - k,
    {
        proof {
            neighbors_are_the_photos_within_reach(
                index as int,
                order.len() as int,
                NEIGHBOR_REACH as int,
                positions@[k as int],
            );
            assert(positions@.contains(positions@[k as int]));
            assert(positions@.take(k + 1).drop_last() =~= positions@.take(k as int));
            assert(positions@.take(k + 1).last() == positions@[k as int]);
        }
        let row: usize = order[positions[k]];
        if row < entries.len() && entries[row].status == PhotoStatus::Ingested {
            targets.push((entries[row].id, row_rotation(&entries[row])));
        }
        k = k + 1;
    }
    proof {
        assert(positions@.take(k as int) =~= positions@);
    }
    targets
}

} // verus!
