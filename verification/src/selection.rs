//! Cursor and selection on the sheet: clicks, rubber bands, and the labels
//! and turns that land on what is selected.

use vstd::prelude::*;

use crate::grid::{GridView, Marquee, OpenRequest};
use crate::idset::IdSet;
use crate::model::{Label, PhotoEntry, PhotoId, PhotoStatus};
use crate::order::lemma_push_contains;
use crate::widgets::{rotations_cancel, step_of, turned, turns_after, RotateDir};

verus! {

/// Keys that may move the cursor.
#[derive(Clone, Copy, Debug, PartialEq, Eq, Structural)]
pub enum NavKey {
    /// One photo back.
    ArrowLeft,
    /// One photo on.
    ArrowRight,
    /// One row up.
    ArrowUp,
    /// One row down.
    ArrowDown,
    /// Any other key.
    Other,
}

/// Where a key leads before the end of the sheet is considered; `None` if it
/// does not move the cursor or would leave the sheet at its start.
pub open spec fn step_target(cursor: int, key: NavKey, columns: int) -> Option<int> {
    let row = if columns < 1 {
        1
    } else {
        columns
    };
    match key {
        NavKey::ArrowLeft => if cursor < 1 {
            None
        } else {
            Some(cursor - 1)
        },
        NavKey::ArrowRight => Some(cursor + 1),
        NavKey::ArrowUp => if cursor < row {
            None
        } else {
            Some(cursor - row)
        },
        NavKey::ArrowDown => Some(cursor + row),
        NavKey::Other => None,
    }
}

/// Where the cursor stands after a key among `len` photos.
pub open spec fn stepped(cursor: usize, key: NavKey, columns: usize, len: usize) -> Option<usize> {
    match step_target(cursor as int, key, columns as int) {
        None => None,
        Some(target) => Some(
            if target < len {
                target as usize
            } else {
                (len - 1) as usize
            },
        ),
    }
}

/// Moves the cursor by a key: one photo sideways, one row up or down. Steps
/// past the end stop at the last photo; `None` means that the cursor stays.
pub fn stepped_cursor(cursor: usize, key: NavKey, columns: usize, len: usize) -> (next: Option<usize>)
    requires
        step_target(cursor as int, key, columns as int) is Some ==> len > 0,
    ensures
        next == stepped(cursor, key, columns, len),
{
    let row: usize = if columns < 1 {
        1
    } else {
        columns
    };
    match key {
        NavKey::ArrowLeft => if cursor < 1 {
            None
        } else {
            Some(at_most(cursor - 1, len - 1))
        },
        NavKey::ArrowUp => if cursor < row {
            None
        } else {
            Some(at_most(cursor - row, len - 1))
        },
        NavKey::ArrowRight => Some(stepped_on(cursor, 1, len)),
        NavKey::ArrowDown => Some(stepped_on(cursor, row, len)),
        NavKey::Other => None,
    }
}

fn at_most(a: usize, b: usize) -> (least: usize)
    ensures
        least == (if a < b {
            a
        } else {
            b
        }),
{
    if a < b {
        a
    } else {
        b
    }
}

fn stepped_on(cursor: usize, step: usize, len: usize) -> (next: usize)
    requires
        len > 0,
    ensures
        next == (if cursor + step < len {
            cursor + step
        } else {
            len - 1
        }),
{
    if cursor < len && step < len - cursor {
        cursor + step
    } else {
        len - 1
    }
}

/// The two ends of a range of positions in display order.
pub fn click_range(anchor: usize, clicked: usize) -> (span: (usize, usize))
    ensures
        span.0 <= span.1,
        span == (anchor, clicked) || span == (clicked, anchor),
{
    if anchor <= clicked {
        (anchor, clicked)
    } else {
        (clicked, anchor)
    }
}

/// The photo at a position of the sheet.
pub open spec fn id_shown(entries: Seq<PhotoEntry>, view: Seq<usize>, p: int) -> Option<PhotoId> {
    if 0 <= p < view.len() && view[p] < entries.len() {
        Some(entries[view[p] as int].id)
    } else {
        None
    }
}

/// A photo stands at one of the positions from `lo` up to, not including, `hi`.
pub open spec fn shown_between(entries: Seq<PhotoEntry>, view: Seq<usize>, lo: int, hi: int, id: PhotoId) -> bool {
    exists|p: int| lo <= p < hi && #[trigger] id_shown(entries, view, p) == Some(id)
}

/// The photos at the positions from `lo` up to, not including, `hi`.
pub open spec fn ids_between(entries: Seq<PhotoEntry>, view: Seq<usize>, lo: int, hi: int) -> Set<PhotoId> {
    Set::new(|id: PhotoId| shown_between(entries, view, lo, hi, id))
}

/// A photo stands at one of the listed positions.
pub open spec fn shown_among(entries: Seq<PhotoEntry>, view: Seq<usize>, positions: Seq<usize>, id: PhotoId) -> bool {
    exists|k: int| 0 <= k < positions.len() && id_shown(entries, view, #[trigger] positions[k] as int) == Some(id)
}

/// The photos at the listed positions.
pub open spec fn ids_among(entries: Seq<PhotoEntry>, view: Seq<usize>, positions: Seq<usize>) -> Set<PhotoId> {
    Set::new(|id: PhotoId| shown_among(entries, view, positions, id))
}

/// The photo at one position, as a set.
pub open spec fn just(id: Option<PhotoId>) -> Set<PhotoId> {
    match id {
        Some(id) => Set::empty().insert(id),
        None => Set::empty(),
    }
}

/// The set with a photo put in, or taken out if it was there.
pub open spec fn toggled(set: Set<PhotoId>, id: Option<PhotoId>) -> Set<PhotoId> {
    match id {
        Some(id) => if set.contains(id) {
            set.remove(id)
        } else {
            set.insert(id)
        },
        None => set,
    }
}

/// The rows with a label on every selected photo.
pub open spec fn labeled_rows(entries: Seq<PhotoEntry>, selection: Set<PhotoId>, label: Label) -> Seq<PhotoEntry> {
    Seq::new(
        entries.len(),
        |i: int|
            if selection.contains(entries[i].id) {
                PhotoEntry { label, ..entries[i] }
            } else {
                entries[i]
            },
    )
}

/// The selected photos among the first `k` rows that had another label.
pub open spec fn label_changes(entries: Seq<PhotoEntry>, selection: Set<PhotoId>, label: Label, k: int) -> Seq<PhotoId>
    decreases k,
{
    if k <= 0 {
        Seq::empty()
    } else {
        let before = label_changes(entries, selection, label, k - 1);
        if selection.contains(entries[k - 1].id) && entries[k - 1].label != label {
            before.push(entries[k - 1].id)
        } else {
            before
        }
    }
}

/// A row turned a quarter.
pub open spec fn turned_row(entry: PhotoEntry, direction: RotateDir) -> PhotoEntry {
    PhotoEntry { rot_cw: turns_after(entry.rot_cw, step_of(direction)), ..entry }
}

/// The rows with every selected photo turned a quarter.
pub open spec fn turned_selection(entries: Seq<PhotoEntry>, selection: Set<PhotoId>, direction: RotateDir) -> Seq<
    PhotoEntry,
> {
    Seq::new(
        entries.len(),
        |i: int|
            if selection.contains(entries[i].id) {
                turned_row(entries[i], direction)
            } else {
                entries[i]
            },
    )
}

/// The selected photos among the first `k` rows with their new turns.
pub open spec fn turn_updates(entries: Seq<PhotoEntry>, selection: Set<PhotoId>, direction: RotateDir, k: int) -> Seq<
    (PhotoId, u8),
>
    decreases k,
{
    if k <= 0 {
        Seq::empty()
    } else {
        let before = turn_updates(entries, selection, direction, k - 1);
        if selection.contains(entries[k - 1].id) {
            before.push((entries[k - 1].id, turned_row(entries[k - 1], direction).rot_cw))
        } else {
            before
        }
    }
}

/// The row under the cursor, if it is on a photo.
pub open spec fn row_under(entries: Seq<PhotoEntry>, view: Seq<usize>, cursor: Option<usize>) -> Option<int> {
    match cursor {
        Some(c) => if c < view.len() && view[c as int] < entries.len() {
            Some(view[c as int] as int)
        } else {
            None
        },
        None => None,
    }
}

/// `after` is `before` with a label put on the photo under the cursor; with
/// auto-advance the cursor walks on to the next photo.
pub open spec fn cursor_labeled(before: GridView, label: Label, after: GridView, changed: Seq<PhotoId>) -> bool {
    match row_under(before.entries@, before.view@, before.cursor) {
        None => after == before && changed.len() == 0,
        Some(row) => {
            let advances = before.auto_advance && before.cursor->0 + 1 < before.view@.len();
            &&& after.entries@ == before.entries@.update(row, PhotoEntry { label, ..before.entries@[row] })
            &&& changed == (if before.entries@[row].label == label {
                Seq::empty()
            } else {
                seq![before.entries@[row].id]
            })
            &&& after == (GridView {
                entries: after.entries,
                cursor: if advances {
                    Some((before.cursor->0 + 1) as usize)
                } else {
                    before.cursor
                },
                scroll_target: if advances {
                    Some((before.cursor->0 + 1) as usize)
                } else {
                    before.scroll_target
                },
                ..before
            })
        },
    }
}

/// `after` is `before` with a label put on every selected photo, or on the
/// one under the cursor if none is selected; `changed` lists the photos that
/// had another label.
pub open spec fn label_applied(before: GridView, label: Label, after: GridView, changed: Seq<PhotoId>) -> bool {
    if before.selection@ == Set::<PhotoId>::empty() {
        cursor_labeled(before, label, after, changed)
    } else {
        &&& after.entries@ == labeled_rows(before.entries@, before.selection@, label)
        &&& changed == label_changes(before.entries@, before.selection@, label, before.entries@.len() as int)
        &&& after == (GridView { entries: after.entries, ..before })
    }
}

/// `after` is `before` with every selected photo turned a quarter, or the one
/// under the cursor if none is selected; `updates` lists the new turns.
pub open spec fn turn_applied(
    before: GridView,
    direction: RotateDir,
    after: GridView,
    updates: Seq<(PhotoId, u8)>,
) -> bool {
    &&& after == (GridView { entries: after.entries, ..before })
    &&& if before.selection@ == Set::<PhotoId>::empty() {
        match row_under(before.entries@, before.view@, before.cursor) {
            None => after == before && updates.len() == 0,
            Some(row) => {
                &&& after.entries@ == before.entries@.update(row, turned_row(before.entries@[row], direction))
                &&& updates == seq![(before.entries@[row].id, turned_row(before.entries@[row], direction).rot_cw)]
            },
        }
    } else {
        &&& after.entries@ == turned_selection(before.entries@, before.selection@, direction)
        &&& updates == turn_updates(before.entries@, before.selection@, direction, before.entries@.len() as int)
    }
}

/// Position `p` of the sheet shows a photo whose extraction failed.
pub open spec fn fails_at(entries: Seq<PhotoEntry>, view: Seq<usize>, p: int) -> bool {
    0 <= p < view.len() && view[p] < entries.len() && entries[view[p] as int].status == PhotoStatus::Error
}

/// `next` is the first failed photo from `start` on, going round once.
pub open spec fn next_failure(entries: Seq<PhotoEntry>, view: Seq<usize>, start: int, next: Option<usize>) -> bool {
    match next {
        Some(q) => {
            &&& fails_at(entries, view, q as int)
            &&& if q >= start {
                forall|p: int| start <= p < q ==> !fails_at(entries, view, p)
            } else {
                &&& forall|p: int| start <= p < view.len() ==> !fails_at(entries, view, p)
                &&& forall|p: int| 0 <= p < q ==> !fails_at(entries, view, p)
            }
        },
        None => forall|p: int| !fails_at(entries, view, p),
    }
}

/// Where the search for the next failed photo starts: behind the cursor.
pub open spec fn search_start(cursor: Option<usize>, len: int) -> int {
    match cursor {
        Some(c) => (c + 1) % len,
        None => 0,
    }
}

/// What the pointer did on the sheet in a frame.
pub enum Gesture {
    /// The button went down; `inside` says whether on the sheet.
    Press { inside: bool, additive: bool },
    /// The button came up; `on_tile` says whether it had gone down on a tile.
    Release { on_tile: bool },
    /// The pointer is nowhere.
    Gone,
    /// The pointer is somewhere: whether it travelled far enough for a drag,
    /// and which positions the band covers.
    At { far: bool, covered: Vec<usize> },
}

/// `after` is `before` after a gesture, and `swallowed` says whether the
/// release ended a drag, and so is no click.
pub open spec fn gesture_applied(before: GridView, gesture: Gesture, after: GridView, swallowed: bool) -> bool {
    &&& after == (GridView { marquee: after.marquee, selection: after.selection, ..before })
    &&& match (gesture, before.marquee) {
        (Gesture::Press { inside, additive }, _) => {
            &&& !swallowed
            &&& if inside {
                &&& after.marquee matches Some(m) && m.base@ == before.selection@ && m.additive == additive
                    && !m.dragging
                &&& after.selection@ == Set::<PhotoId>::empty()
            } else {
                after == before
            }
        },
        (_, None) => !swallowed && after == before,
        (Gesture::Release { on_tile }, Some(marquee)) => {
            &&& swallowed == marquee.dragging
            &&& after.marquee is None
            &&& after.selection@ == (if marquee.dragging {
                before.selection@
            } else if on_tile {
                marquee.base@
            } else {
                Set::empty()
            })
        },
        (Gesture::Gone, Some(_)) => !swallowed && after == before,
        (Gesture::At { far, covered }, Some(marquee)) => {
            let band = ids_among(before.entries@, before.view@, covered@);
            &&& !swallowed
            &&& after.marquee matches Some(m) && m.base@ == marquee.base@ && m.additive == marquee.additive
                && m.dragging == (marquee.dragging || far)
            &&& after.selection@ == (if !(marquee.dragging || far) {
                before.selection@
            } else if marquee.additive {
                marquee.base@.union(band)
            } else {
                band
            })
        },
    }
}

impl GridView {
    /// The photo at a position of the sheet.
    pub fn id_at(&self, position: usize) -> (id: Option<PhotoId>)
        ensures
            id == id_shown(self.entries@, self.view@, position as int),
    {
        if position >= self.view.len() {
            return None;
        }
        let row: usize = self.view[position];
        if row >= self.entries.len() {
            return None;
        }
        Some(self.entries[row].id)
    }

    fn ids_in_span(&self, lo: usize, hi: usize) -> (set: IdSet)
        requires
            hi <= self.view.len(),
        ensures
            set@ == ids_between(self.entries@, self.view@, lo as int, hi as int),
    {
        let mut list: Vec<PhotoId> = Vec::new();
        let mut p: usize = lo;
        while p < hi
            invariant
                lo <= p,
                p <= hi || p == lo,
                hi <= self.view.len(),
                forall|id: PhotoId| #[trigger]
                    list@.contains(id) <==> shown_between(self.entries@, self.view@, lo as int, p as int, id),
            decreases hi - p,
        {
            let ghost before = list@;
            let found: Option<PhotoId> = self.id_at(p);
            match found {
                Some(id) => {
                    list.push(id);
                    proof {
                        lemma_push_contains(before, id);
                    }
                },
                None => {},
            }
            proof {
                assert forall|id: PhotoId| #[trigger]
                    list@.contains(id) <==> shown_between(self.entries@, self.view@, lo as int, p + 1, id) by {
                    assert(before.contains(id) <==> shown_between(self.entries@, self.view@, lo as int, p as int, id));
                    if shown_between(self.entries@, self.view@, lo as int, p as int, id) {
                        let q = choose|q: int|
                            lo <= q < p && #[trigger] id_shown(self.entries@, self.view@, q) == Some(id);
                        assert(id_shown(self.entries@, self.view@, q) == Some(id));
                    }
                    assert(id_shown(self.entries@, self.view@, p as int) == found);
                }
            }
            p = p + 1;
        }
        let set = IdSet::of(&list);
        proof {
            assert(set@ =~= ids_between(self.entries@, self.view@, lo as int, hi as int)) by {
                assert forall|id: PhotoId|
                    set@.contains(id) <==> ids_between(self.entries@, self.view@, lo as int, hi as int).contains(id) by {
                    assert(list@.contains(id) <==> shown_between(self.entries@, self.view@, lo as int, p as int, id));
                }
            }
        }
        set
    }

    /// The photos at the listed positions.
    pub fn ids_at(&self, positions: &Vec<usize>) -> (set: IdSet)
        ensures
            set@ == ids_among(self.entries@, self.view@, positions@),
    {
        let mut list: Vec<PhotoId> = Vec::new();
        let mut k: usize = 0;
        proof {
            assert(positions@.take(0).len() == 0);
        }
        while k < positions.len()
            invariant
                k <= positions.len(),
                forall|id: PhotoId| #[trigger]
                    list@.contains(id) <==> shown_among(self.entries@, self.view@, positions@.take(k as int), id),
            decreases positions.len() - k,
        {
            let ghost before = list@;
            let ghost done = positions@.take(k as int);
            let ghost more = positions@.take(k + 1);
            let found: Option<PhotoId> = self.id_at(positions[k]);
            match found {
                Some(id) => {
                    list.push(id);
                    proof {
                        lemma_push_contains(before, id);
                    }
                },
                None => {},
            }
            proof {
                assert forall|id: PhotoId| #[trigger]
                    list@.contains(id) <==> shown_among(self.entries@, self.view@, more, id) by {
                    assert(before.contains(id) <==> shown_among(self.entries@, self.view@, done, id));
                    if shown_among(self.entries@, self.view@, done, id) {
                        let q = choose|q: int|
                            0 <= q < done.len() && id_shown(self.entries@, self.view@, #[trigger] done[q] as int) == Some(id);
                        assert(more[q] == done[q]);
                    }
                    if shown_among(self.entries@, self.view@, more, id) {
                        let q = choose|q: int|
                            0 <= q < more.len() && id_shown(self.entries@, self.view@, #[trigger] more[q] as int) == Some(id);
                        if q < k {
                            assert(more[q] == done[q]);
                        }
                    }
                    assert(more[k as int] == positions@[k as int]);
                }
            }
            k = k + 1;
        }
        let set = IdSet::of(&list);
        proof {
            assert(positions@.take(k as int) =~= positions@);
            assert(set@ =~= ids_among(self.entries@, self.view@, positions@)) by {
                assert forall|id: PhotoId|
                    set@.contains(id) <==> ids_among(self.entries@, self.view@, positions@).contains(id) by {
                    assert(list@.contains(id) <==> shown_among(self.entries@, self.view@, positions@, id));
                }
            }
        }
        set
    }

    /// Selects every photo that the sheet shows.
    pub fn select_all(&mut self)
        ensures
            final(self).selection@ == ids_between(old(self).entries@, old(self).view@, 0, old(self).view@.len() as int),
            *final(self) == (GridView { selection: final(self).selection, ..*old(self) }),
    {
        let n: usize = self.view.len();
        self.selection = self.ids_in_span(0, n);
    }

    /// Selects nothing; the cursor stays.
    pub fn select_none(&mut self)
        ensures
            final(self).selection@ == Set::<PhotoId>::empty(),
            *final(self) == (GridView { selection: final(self).selection, ..*old(self) }),
    {
        self.selection = IdSet::new();
    }

    fn just_at(&self, position: usize) -> (set: IdSet)
        ensures
            set@ == just(id_shown(self.entries@, self.view@, position as int)),
    {
        let mut set = IdSet::new();
        match self.id_at(position) {
            Some(id) => {
                set.insert(id);
            },
            None => {},
        }
        set
    }

    /// A click on a tile: the cursor goes there. Alone it selects the photo;
    /// with Ctrl it puts the photo in or takes it out; with Shift it selects
    /// everything from the anchor, which the other clicks set.
    pub fn click(&mut self, position: usize, shift: bool, command_only: bool)
        ensures
            final(self).selection@ == (if shift {
                let anchor = match old(self).anchor {
                    Some(a) => a,
                    None => position,
                };
                let lo = if anchor < position {
                    anchor as int
                } else {
                    position as int
                };
                let hi = if anchor < position {
                    position as int
                } else {
                    anchor as int
                };
                ids_between(old(self).entries@, old(self).view@, lo, hi + 1)
            } else if command_only {
                toggled(old(self).selection@, id_shown(old(self).entries@, old(self).view@, position as int))
            } else {
                just(id_shown(old(self).entries@, old(self).view@, position as int))
            }),
            *final(self) == (GridView {
                selection: final(self).selection,
                cursor: Some(position),
                anchor: if shift {
                    old(self).anchor
                } else {
                    Some(position)
                },
                ..*old(self)
            }),
    {
        self.cursor = Some(position);
        if shift {
            let anchor: usize = match self.anchor {
                Some(a) => a,
                None => position,
            };
            let (lo, hi) = click_range(anchor, position);
            let end: usize = if hi < self.view.len() {
                hi + 1
            } else {
                self.view.len()
            };
            self.selection = self.ids_in_span(lo, end);
            proof {
                let all = ids_between(self.entries@, self.view@, lo as int, hi + 1);
                assert(ids_between(self.entries@, self.view@, lo as int, end as int) =~= all) by {
                    assert forall|id: PhotoId| #![auto]
                        shown_between(self.entries@, self.view@, lo as int, end as int, id) <==> shown_between(
                            self.entries@,
                            self.view@,
                            lo as int,
                            hi + 1,
                            id,
                        ) by {
                        if shown_between(self.entries@, self.view@, lo as int, hi + 1, id) {
                            let q = choose|q: int|
                                lo <= q < hi + 1 && #[trigger] id_shown(self.entries@, self.view@, q) == Some(id);
                            assert(q < end);
                        }
                    }
                }
            }
        } else if command_only {
            match self.id_at(position) {
                Some(id) => {
                    let ghost before = self.selection@;
                    let was_there: bool = self.selection.remove(id);
                    if !was_there {
                        self.selection.insert(id);
                        proof {
                            assert(before.remove(id).insert(id) =~= before.insert(id));
                        }
                    }
                },
                None => {},
            }
            self.anchor = Some(position);
        } else {
            self.selection = self.just_at(position);
            self.anchor = Some(position);
        }
    }

    /// A double click on a tile: selects the photo and opens it in the loupe
    /// with the next frame.
    pub fn double_click(&mut self, position: usize)
        ensures
            final(self).selection@ == just(id_shown(old(self).entries@, old(self).view@, position as int)),
            *final(self) == (GridView {
                selection: final(self).selection,
                cursor: Some(position),
                anchor: Some(position),
                open_requested: Some(OpenRequest { index: position, lightbox: false }),
                ..*old(self)
            }),
    {
        self.cursor = Some(position);
        self.anchor = Some(position);
        self.selection = self.just_at(position);
        self.open_requested = Some(OpenRequest { index: position, lightbox: false });
    }

    /// Moves the cursor to the next photo whose extraction failed, going
    /// round once; nothing happens if none failed.
    pub fn jump_next_error(&mut self)
        requires
            old(self).wf(),
        ensures
            exists|next: Option<usize>| #[trigger]
                next_failure(
                    old(self).entries@,
                    old(self).view@,
                    search_start(old(self).cursor, old(self).view@.len() as int),
                    next,
                ) && *final(self) == (match next {
                    Some(q) => GridView { cursor: Some(q), scroll_target: Some(q), ..*old(self) },
                    None => *old(self),
                }),
    {
        let len: usize = self.view.len();
        if len == 0 {
            proof {
                assert(next_failure(self.entries@, self.view@, search_start(self.cursor, len as int), None));
            }
            return ;
        }
        let start: usize = match self.cursor {
            Some(c) => {
                proof {
                    lemma_next_slot(c as int, len as int);
                }
                (c % len + 1) % len
            },
            None => 0,
        };
        let later: Option<usize> = self.failure_in(start, len);
        let next: Option<usize> = match later {
            Some(q) => Some(q),
            None => self.failure_in(0, start),
        };
        proof {
            assert(start as int == search_start(old(self).cursor, old(self).view@.len() as int));
            assert(next_failure(
                old(self).entries@,
                old(self).view@,
                search_start(old(self).cursor, old(self).view@.len() as int),
                next,
            ));
        }
        match next {
            Some(q) => {
                self.cursor = Some(q);
                self.scroll_target = Some(q);
            },
            None => {},
        }
    }

    fn failure_in(&self, lo: usize, hi: usize) -> (found: Option<usize>)
        requires
            self.wf(),
            hi <= self.view.len(),
            lo <= hi,
        ensures
            match found {
                Some(q) => {
                    &&& lo <= q < hi
                    &&& fails_at(self.entries@, self.view@, q as int)
                    &&& forall|p: int| lo <= p < q ==> !fails_at(self.entries@, self.view@, p)
                },
                None => forall|p: int| lo <= p < hi ==> !fails_at(self.entries@, self.view@, p),
            },
    {
        let mut p: usize = lo;
        while p < hi
            invariant
                self.wf(),
                hi <= self.view.len(),
                lo <= p <= hi,
                forall|k: int| lo <= k < p ==> !fails_at(self.entries@, self.view@, k),
            decreases hi - p,
        {
            if self.entries[self.view[p]].status == PhotoStatus::Error {
                return Some(p);
            }
            p = p + 1;
        }
        None
    }

    /// Labels the photo at a position and, with auto-advance, walks on.
    /// Returns the photo if it had another label.
    fn label_cursor(&mut self, cursor: usize, label: Label) -> (changed: Vec<PhotoId>)
        requires
            old(self).cursor == Some(cursor),
        ensures
            cursor_labeled(*old(self), label, *final(self), changed@),
    {
        let mut changed: Vec<PhotoId> = Vec::new();
        if cursor >= self.view.len() {
            return changed;
        }
        let row: usize = self.view[cursor];
        if row >= self.entries.len() {
            return changed;
        }
        let ghost rows = self.entries@;
        if self.entries[row].label != label {
            self.entries[row].label = label;
            changed.push(self.entries[row].id);
            proof {
                assert(changed@ =~= seq![rows[row as int].id]);
            }
        } else {
            proof {
                assert(rows.update(row as int, PhotoEntry { label, ..rows[row as int] }) =~= rows);
                assert(changed@ =~= Seq::<PhotoId>::empty());
            }
        }
        if self.auto_advance && cursor < self.view.len() - 1 {
            self.cursor = Some(cursor + 1);
            self.scroll_target = Some(cursor + 1);
        }
        changed
    }

    /// Puts a label on every selected photo, or on the one under the cursor
    /// if none is selected. Returns the photos that had another label. A
    /// batch never moves the cursor.
    pub fn apply_label(&mut self, label: Label) -> (changed: Vec<PhotoId>)
        ensures
            label_applied(*old(self), label, *final(self), changed@),
    {
        if self.selection.is_empty() {
            return match self.cursor {
                Some(cursor) => self.label_cursor(cursor, label),
                None => Vec::new(),
            };
        }
        let mut changed: Vec<PhotoId> = Vec::new();
        let ghost rows = self.entries@;
        let mut i: usize = 0;
        while i < self.entries.len()
            invariant
                i <= self.entries.len(),
                rows == old(self).entries@,
                rows.len() == self.entries@.len(),
                *self == (GridView { entries: self.entries, ..*old(self) }),
                changed@ == label_changes(rows, self.selection@, label, i as int),
                forall|k: int| 0 <= k < i ==> self.entries@[k] == labeled_rows(rows, self.selection@, label)[k],
                forall|k: int| i <= k < rows.len() ==> self.entries@[k] == rows[k],
            decreases self.entries.len() - i,
        {
            if self.selection.contains(self.entries[i].id) && self.entries[i].label != label {
                self.entries[i].label = label;
                changed.push(self.entries[i].id);
            }
            i = i + 1;
        }
        proof {
            assert(self.entries@ =~= labeled_rows(rows, self.selection@, label));
        }
        changed
    }

    /// Turns every selected photo a quarter, or the one under the cursor if
    /// none is selected. Returns the new turns.
    pub fn apply_rotation(&mut self, direction: RotateDir) -> (updates: Vec<(PhotoId, u8)>)
        ensures
            turn_applied(*old(self), direction, *final(self), updates@),
    {
        let mut updates: Vec<(PhotoId, u8)> = Vec::new();
        let ghost rows = self.entries@;
        if self.selection.is_empty() {
            match self.cursor {
                Some(cursor) => {
                    if cursor < self.view.len() && self.view[cursor] < self.entries.len() {
                        let row: usize = self.view[cursor];
                        let turns: u8 = turned(self.entries[row].rot_cw, direction.delta());
                        self.entries[row].rot_cw = turns;
                        updates.push((self.entries[row].id, turns));
                        proof {
                            assert(updates@ =~= seq![(rows[row as int].id, turned_row(rows[row as int], direction).rot_cw)]);
                        }
                    }
                },
                None => {},
            }
            return updates;
        }
        let mut i: usize = 0;
        while i < self.entries.len()
            invariant
                i <= self.entries.len(),
                rows == old(self).entries@,
                rows.len() == self.entries@.len(),
                *self == (GridView { entries: self.entries, ..*old(self) }),
                updates@ == turn_updates(rows, self.selection@, direction, i as int),
                forall|k: int| 0 <= k < i ==> self.entries@[k] == turned_selection(rows, self.selection@, direction)[k],
                forall|k: int| i <= k < rows.len() ==> self.entries@[k] == rows[k],
            decreases self.entries.len() - i,
        {
            if self.selection.contains(self.entries[i].id) {
                let turns: u8 = turned(self.entries[i].rot_cw, direction.delta());
                self.entries[i].rot_cw = turns;
                updates.push((self.entries[i].id, turns));
            }
            i = i + 1;
        }
        proof {
            assert(self.entries@ =~= turned_selection(rows, self.selection@, direction));
        }
        updates
    }

    /// Advances the rubber band by one frame. A press arms it; travel makes it
    /// live, and from then on it selects what it covers, on top of the earlier
    /// selection with Ctrl. A release that ends a drag is swallowed: the band
    /// has the final word. One without a drag gives the earlier selection
    /// back, or clears it on bare sheet.
    pub fn step_marquee(&mut self, gesture: Gesture) -> (swallowed: bool)
        ensures
            gesture_applied(*old(self), gesture, *final(self), swallowed),
    {
        match gesture {
            Gesture::Press { inside, additive } => {
                if inside {
                    let mut base = IdSet::new();
                    core::mem::swap(&mut base, &mut self.selection);
                    self.marquee = Some(Marquee { base, dragging: false, additive });
                }
                false
            },
            Gesture::Release { on_tile } => match self.marquee.take() {
                None => false,
                Some(marquee) => {
                    if marquee.dragging {
                        return true;
                    }
                    self.selection = if on_tile {
                        marquee.base
                    } else {
                        IdSet::new()
                    };
                    false
                },
            },
            Gesture::Gone => false,
            Gesture::At { far, covered } => match self.marquee.take() {
                None => false,
                Some(marquee) => {
                    let mut marquee: Marquee = marquee;
                    if far {
                        marquee.dragging = true;
                    }
                    if marquee.dragging {
                        let band: IdSet = self.ids_at(&covered);
                        self.selection = if marquee.additive {
                            marquee.base.union(&band)
                        } else {
                            band
                        };
                    }
                    self.marquee = Some(marquee);
                    false
                },
            },
        }
    }
}

proof fn lemma_next_slot(c: int, len: int)
    requires
        0 <= c,
        0 < len,
    ensures
        0 <= c % len < len,
        (c % len + 1) % len == (c + 1) % len,
{
    vstd::arithmetic::div_mod::lemma_mod_bound(c, len);
    vstd::arithmetic::div_mod::lemma_add_mod_noop(c, 1, len);
    vstd::arithmetic::div_mod::lemma_mod_twice(c, len);
    vstd::arithmetic::div_mod::lemma_add_mod_noop(c % len, 1, len);
}

/// Turning the selected photos one way and then the other leaves every row
/// as it was.
pub proof fn turning_back_restores_the_rows(entries: Seq<PhotoEntry>, selection: Set<PhotoId>, direction: RotateDir)
    requires
        forall|i: int| 0 <= i < entries.len() ==> (#[trigger] entries[i]).rot_cw < 4,
    ensures
        turned_selection(turned_selection(entries, selection, direction), selection, opposite(direction)) == entries,
{
    let once = turned_selection(entries, selection, direction);
    let twice = turned_selection(once, selection, opposite(direction));
    assert forall|i: int| 0 <= i < entries.len() implies twice[i] == entries[i] by {
        assert(entries[i].rot_cw < 4);
        rotations_cancel(entries[i].rot_cw, direction);
        rotations_cancel(entries[i].rot_cw, opposite(direction));
    }
    assert(twice =~= entries);
}

/// The other direction.
pub open spec fn opposite(direction: RotateDir) -> RotateDir {
    match direction {
        RotateDir::Clockwise => RotateDir::CounterClockwise,
        RotateDir::CounterClockwise => RotateDir::Clockwise,
    }
}

/// A label reaches every selected photo and no other, and changes nothing but
/// labels.
pub proof fn labels_reach_exactly_the_selection(
    entries: Seq<PhotoEntry>,
    selection: Set<PhotoId>,
    label: Label,
    i: int,
)
    requires
        0 <= i < entries.len(),
    ensures
        ({
            let after = labeled_rows(entries, selection, label);
            &&& after.len() == entries.len()
            &&& after[i] == (PhotoEntry { label: after[i].label, ..entries[i] })
            &&& selection.contains(entries[i].id) ==> after[i].label == label
            &&& !selection.contains(entries[i].id) ==> after[i] == entries[i]
        }),
{
}

} // verus!
