//! The contact sheet: rows, filter, order, progress and export state.

use std::collections::HashMap;

use vstd::prelude::*;

use crate::columns::{copy_text, text_in};
use crate::idset::IdSet;
use crate::loupe::{moved, LoupeView};
use crate::model::{Label, PhotoEntry, PhotoId};
use crate::order::{ints, is_listing, tie_by_position};
use crate::sheet::{
    by_names, by_times, lowered_names, shown_rows, sort_names, stamp_texts, view_by_name,
    view_by_time,
};
use crate::widgets::{flipped, next_preset, FilterChip, LabelFilter, SortKey};

verus! {

broadcast use vstd::std_specs::hash::group_hash_axioms;

/// A drag over the sheet that may become a rubber band.
pub struct Marquee {
    /// The selection when the button went down.
    pub base: IdSet,
    /// Whether the pointer travelled far enough to be dragging.
    pub dragging: bool,
    /// Whether the band adds to the selection.
    pub additive: bool,
}

/// A loupe that opens with the next frame.
#[derive(Clone, Copy, Debug, PartialEq, Eq, Structural)]
pub struct OpenRequest {
    /// Position in the sheet.
    pub index: usize,
    /// Straight into the lightbox.
    pub lightbox: bool,
}

/// What is said about the last export.
#[derive(Clone, Debug, PartialEq, Eq)]
pub struct ExportNote {
    /// The words.
    pub text: String,
    /// Whether they are bad news.
    pub alert: bool,
}

/// Counts that the bars show.
#[derive(Clone, Copy, Debug, PartialEq, Eq)]
pub struct Tally {
    /// Photos by label, in the order of the label numbers.
    pub counts: [usize; 6],
    /// Photos whose extraction failed.
    pub errors: usize,
}

/// State of the sheet of one folder.
pub struct GridView {
    /// The folder.
    pub root: String,
    /// Its rows.
    pub entries: Vec<PhotoEntry>,
    /// Positions of the rows on the sheet, in display order.
    pub view: Vec<usize>,
    /// Labels the sheet is narrowed to.
    pub filter: LabelFilter,
    /// Display order.
    pub sort: SortKey,
    /// Capture times by photo, as far as they were looked up.
    pub taken_at: HashMap<u64, Option<String>>,
    /// Order that was picked and not yet applied.
    pub pending_sort: Option<SortKey>,
    /// The scan is still running.
    pub loading: bool,
    /// Why the folder could not be opened.
    pub error: Option<String>,
    /// Size of the running batch.
    pub ingest_total: usize,
    /// How much of it is done.
    pub ingest_done: usize,
    /// Pending photos on screen that were last reported.
    pub last_ping: Vec<PhotoId>,
    /// A report waiting to be collected.
    pub ping: Option<Vec<PhotoId>>,
    /// Keyboard cursor, as a position in the sheet.
    pub cursor: Option<usize>,
    /// Selected photos.
    pub selection: IdSet,
    /// Where range selection starts, as a position in the sheet.
    pub anchor: Option<usize>,
    /// Drag in progress.
    pub marquee: Option<Marquee>,
    /// Position to scroll into view.
    pub scroll_target: Option<usize>,
    /// Labeling walks on to the next photo.
    pub auto_advance: bool,
    /// Loupe that opens with the next frame.
    pub open_requested: Option<OpenRequest>,
    /// The open loupe.
    pub loupe: Option<LoupeView>,
    /// The sheet is to be shown from its top.
    pub reset_scroll: bool,
    /// How many files of the running export are done.
    pub export_done: usize,
    /// How many files it has.
    pub export_total: usize,
    /// What is said about the last export.
    pub export_note: Option<ExportNote>,
}

/// Capture times of the rows, as far as they are known.
pub open spec fn known_stamps(entries: Seq<PhotoEntry>, taken_at: Map<u64, Option<String>>) -> Seq<Option<Seq<char>>> {
    Seq::new(
        entries.len(),
        |i: int|
            if taken_at.contains_key(entries[i].id.0) {
                text_in(taken_at[entries[i].id.0])
            } else {
                None
            },
    )
}

/// Display order of the rows.
pub open spec fn sheet_order(
    entries: Seq<PhotoEntry>,
    sort: SortKey,
    taken_at: Map<u64, Option<String>>,
) -> spec_fn(int, int) -> bool {
    match sort {
        SortKey::FileName => by_names(entries, sort_names(entries)),
        SortKey::TakenAt => by_times(entries, known_stamps(entries, taken_at)),
    }
}

/// `view` is what the sheet shows: the rows that the filter lets through, in
/// display order.
pub open spec fn view_fits(
    entries: Seq<PhotoEntry>,
    chosen: Set<Label>,
    sort: SortKey,
    taken_at: Map<u64, Option<String>>,
    view: Seq<usize>,
) -> bool {
    is_listing(ints(view), shown_rows(entries, chosen), tie_by_position(sheet_order(entries, sort, taken_at)))
}

/// Position of a row on the sheet.
pub open spec fn slot_of_row(view: Seq<usize>, row: usize, slot: Option<usize>) -> bool {
    match slot {
        Some(p) => {
            &&& p < view.len()
            &&& view[p as int] == row
            &&& forall|k: int| 0 <= k < p ==> view[k] != row
        },
        None => !view.contains(row),
    }
}

/// The row at a position of the sheet.
pub open spec fn row_at(view: Seq<usize>, position: Option<usize>) -> Option<usize> {
    match position {
        Some(p) => if p < view.len() {
            Some(view[p as int])
        } else {
            None
        },
        None => None,
    }
}

/// The cursor after the sheet changed: on the same photo if that is still
/// shown; else as near its old place as there are photos; on the first photo
/// if it was nowhere; nowhere on an empty sheet.
pub open spec fn cursor_fits(before: Seq<usize>, cursor: Option<usize>, after: Seq<usize>, now: Option<usize>) -> bool {
    if after.len() == 0 {
        now is None
    } else {
        match row_at(before, cursor) {
            Some(row) if after.contains(row) => slot_of_row(after, row, now),
            _ => now == Some(
                match cursor {
                    Some(p) => if p < after.len() {
                        p
                    } else {
                        (after.len() - 1) as usize
                    },
                    None => 0,
                },
            ),
        }
    }
}

/// The loupe after the sheet changed: on the same photo, or closed.
pub open spec fn loupe_fits(
    before: Seq<usize>,
    loupe: Option<LoupeView>,
    after: Seq<usize>,
    now: Option<LoupeView>,
) -> bool {
    match loupe {
        None => now is None,
        Some(open) => match row_at(before, Some(open.index)) {
            Some(row) if after.contains(row) => exists|slot: usize|
                #[trigger] slot_of_row(after, row, Some(slot)) && now == Some(moved(open, slot)),
            _ => now is None,
        },
    }
}

impl GridView {
    /// Positions on the sheet name rows.
    pub open spec fn wf(self) -> bool {
        forall|p: int| 0 <= p < self.view.len() ==> (#[trigger] self.view@[p]) < self.entries.len()
    }

    /// The sheet of a folder whose scan is still running.
    pub fn new(root: String, auto_advance: bool) -> (grid: Self)
        ensures
            grid.wf(),
            grid.root == root,
            grid.entries@.len() == 0,
            grid.view@.len() == 0,
            grid.filter@ == Set::<Label>::empty(),
            grid.sort == SortKey::FileName,
            grid.taken_at@ == Map::<u64, Option<String>>::empty(),
            grid.pending_sort is None,
            grid.loading,
            grid.error is None,
            grid.ingest_total == 0,
            grid.ingest_done == 0,
            grid.last_ping@.len() == 0,
            grid.ping is None,
            grid.cursor is None,
            grid.selection@ == Set::<PhotoId>::empty(),
            grid.anchor is None,
            grid.marquee is None,
            grid.scroll_target is None,
            grid.auto_advance == auto_advance,
            grid.open_requested is None,
            grid.loupe is None,
            grid.reset_scroll,
            grid.export_done == 0,
            grid.export_total == 0,
            grid.export_note is None,
    {
        GridView {
            root,
            entries: Vec::new(),
            view: Vec::new(),
            filter: LabelFilter::all(),
            sort: SortKey::FileName,
            taken_at: HashMap::new(),
            pending_sort: None,
            loading: true,
            error: None,
            ingest_total: 0,
            ingest_done: 0,
            last_ping: Vec::new(),
            ping: None,
            cursor: None,
            selection: IdSet::new(),
            anchor: None,
            marquee: None,
            scroll_target: None,
            auto_advance,
            open_requested: None,
            loupe: None,
            reset_scroll: true,
            export_done: 0,
            export_total: 0,
            export_note: None,
        }
    }

    /// Shows what the scan found, or why it failed. Everything that belonged
    /// to the earlier rows is forgotten, and the cursor stands on the first
    /// photo.
    pub fn apply_scan(&mut self, result: Result<Vec<PhotoEntry>, String>)
        requires
            old(self).wf(),
        ensures
            final(self).wf(),
            match result {
                Ok(entries) => {
                    &&& final(self).entries == entries
                    &&& view_fits(
                        entries@,
                        old(self).filter@,
                        old(self).sort,
                        Map::empty(),
                        final(self).view@,
                    )
                    &&& final(self).cursor == (if final(self).view@.len() > 0 {
                        Some(0usize)
                    } else {
                        None
                    })
                    &&& final(self).selection@ == Set::<PhotoId>::empty()
                    &&& final(self).taken_at@ == Map::<u64, Option<String>>::empty()
                    &&& *final(self) == (GridView {
                        entries,
                        view: final(self).view,
                        taken_at: final(self).taken_at,
                        loading: false,
                        cursor: final(self).cursor,
                        selection: final(self).selection,
                        anchor: None,
                        marquee: None,
                        reset_scroll: true,
                        export_done: 0,
                        export_total: 0,
                        export_note: None,
                        ..*old(self)
                    })
                },
                Err(message) => *final(self) == (GridView { loading: false, error: Some(message), ..*old(self) }),
            },
    {
        self.loading = false;
        match result {
            Ok(entries) => {
                self.entries = entries;
                self.view = Vec::new();
                self.selection = IdSet::new();
                self.anchor = None;
                self.marquee = None;
                self.taken_at = HashMap::new();
                self.rebuild_view();
                self.cursor = if self.view.len() > 0 {
                    Some(0)
                } else {
                    None
                };
                self.reset_scroll = true;
                self.export_done = 0;
                self.export_total = 0;
                self.export_note = None;
            },
            Err(message) => {
                self.error = Some(message);
            },
        }
    }

    /// Computes the sheet anew from filter and order.
    pub fn rebuild_view(&mut self)
        ensures
            final(self).wf(),
            view_fits(
                old(self).entries@,
                old(self).filter@,
                old(self).sort,
                old(self).taken_at@,
                final(self).view@,
            ),
            *final(self) == (GridView { view: final(self).view, ..*old(self) }),
    {
        match self.sort {
            SortKey::FileName => {
                let names: Vec<Vec<char>> = lowered_names(&self.entries);
                self.view = view_by_name(&self.entries, self.filter, &names);
            },
            SortKey::TakenAt => {
                let stamps: Vec<Option<String>> = self.row_stamps();
                self.view = view_by_time(&self.entries, self.filter, &stamps);
            },
        }
        proof {
            assert forall|p: int| 0 <= p < self.view.len() implies (#[trigger] self.view@[p]) < self.entries.len() by {
                assert(ints(self.view@)[p] == self.view@[p] as int);
                assert(ints(self.view@).contains(self.view@[p] as int));
            }
        }
    }

    fn row_stamps(&self) -> (stamps: Vec<Option<String>>)
        ensures
            stamps.len() == self.entries.len(),
            stamp_texts(stamps@) == known_stamps(self.entries@, self.taken_at@),
    {
        let mut stamps: Vec<Option<String>> = Vec::new();
        let mut i: usize = 0;
        while i < self.entries.len()
            invariant
                i <= self.entries.len(),
                stamps.len() == i,
                forall|k: int|
                    0 <= k < i ==> text_in(#[trigger] stamps@[k]) == known_stamps(self.entries@, self.taken_at@)[k],
            decreases self.entries.len() - i,
        {
            let stamp: Option<String> = match self.taken_at.get(&self.entries[i].id.0) {
                Some(known) => copy_text(known),
                None => None,
            };
            stamps.push(stamp);
            i = i + 1;
        }
        proof {
            assert(stamp_texts(stamps@) =~= known_stamps(self.entries@, self.taken_at@));
        }
        stamps
    }

    fn find_slot(&self, row: Option<usize>) -> (slot: Option<usize>)
        ensures
            match row {
                Some(r) => slot_of_row(self.view@, r, slot),
                None => slot is None,
            },
    {
        let wanted: usize = match row {
            Some(r) => r,
            None => {
                return None;
            },
        };
        let mut p: usize = 0;
        while p < self.view.len()
            invariant
                p <= self.view.len(),
                row == Some(wanted),
                forall|k: int| 0 <= k < p ==> self.view@[k] != wanted,
            decreases self.view.len() - p,
        {
            if self.view[p] == wanted {
                return Some(p);
            }
            p = p + 1;
        }
        None
    }

    /// Applies a changed filter or order: the cursor and the loupe stay with
    /// their photos as far as these are still shown.
    pub fn apply_order_change(&mut self)
        ensures
            final(self).wf(),
            view_fits(
                old(self).entries@,
                old(self).filter@,
                old(self).sort,
                old(self).taken_at@,
                final(self).view@,
            ),
            cursor_fits(old(self).view@, old(self).cursor, final(self).view@, final(self).cursor),
            loupe_fits(old(self).view@, old(self).loupe, final(self).view@, final(self).loupe),
            final(self).scroll_target == (match final(self).cursor {
                Some(p) => Some(p),
                None => old(self).scroll_target,
            }),
            *final(self) == (GridView {
                view: final(self).view,
                cursor: final(self).cursor,
                scroll_target: final(self).scroll_target,
                loupe: final(self).loupe,
                ..*old(self)
            }),
    {
        let anchor_row: Option<usize> = match self.cursor {
            Some(c) => if c < self.view.len() {
                Some(self.view[c])
            } else {
                None
            },
            None => None,
        };
        let anchor_position: Option<usize> = self.cursor;
        let loupe_row: Option<usize> = match &self.loupe {
            Some(open) => if open.index < self.view.len() {
                Some(self.view[open.index])
            } else {
                None
            },
            None => None,
        };
        self.rebuild_view();
        let found: Option<usize> = self.find_slot(anchor_row);
        self.cursor = match found {
            Some(p) => Some(p),
            None => if self.view.len() == 0 {
                None
            } else {
                match anchor_position {
                    Some(p) => Some(
                        if p < self.view.len() {
                            p
                        } else {
                            self.view.len() - 1
                        },
                    ),
                    None => Some(0),
                }
            },
        };
        match self.cursor {
            Some(p) => {
                self.scroll_target = Some(p);
            },
            None => {},
        }
        let loupe_slot: Option<usize> = self.find_slot(loupe_row);
        self.loupe = match (self.loupe, loupe_slot) {
            (Some(open), Some(slot)) => {
                let mut open = open;
                open.jump_to(slot);
                Some(open)
            },
            _ => None,
        };
    }

    /// Flips to the next filter preset.
    pub fn cycle_filter(&mut self)
        ensures
            final(self).wf(),
            final(self).filter@ == next_preset(old(self).filter@),
            view_fits(
                old(self).entries@,
                final(self).filter@,
                old(self).sort,
                old(self).taken_at@,
                final(self).view@,
            ),
            cursor_fits(old(self).view@, old(self).cursor, final(self).view@, final(self).cursor),
            loupe_fits(old(self).view@, old(self).loupe, final(self).view@, final(self).loupe),
            final(self).scroll_target == (match final(self).cursor {
                Some(p) => Some(p),
                None => old(self).scroll_target,
            }),
            *final(self) == (GridView {
                filter: final(self).filter,
                view: final(self).view,
                cursor: final(self).cursor,
                scroll_target: final(self).scroll_target,
                loupe: final(self).loupe,
                ..*old(self)
            }),
    {
        self.filter.cycle_preset();
        self.apply_order_change();
    }

    /// Applies a click on a filter chip.
    pub fn pick_chip(&mut self, chip: FilterChip)
        ensures
            final(self).wf(),
            final(self).filter@ == (match chip {
                FilterChip::All => Set::<Label>::empty(),
                FilterChip::Label(label) => flipped(old(self).filter@, label),
            }),
            view_fits(
                old(self).entries@,
                final(self).filter@,
                old(self).sort,
                old(self).taken_at@,
                final(self).view@,
            ),
            cursor_fits(old(self).view@, old(self).cursor, final(self).view@, final(self).cursor),
            loupe_fits(old(self).view@, old(self).loupe, final(self).view@, final(self).loupe),
            final(self).scroll_target == (match final(self).cursor {
                Some(p) => Some(p),
                None => old(self).scroll_target,
            }),
            *final(self) == (GridView {
                filter: final(self).filter,
                view: final(self).view,
                cursor: final(self).cursor,
                scroll_target: final(self).scroll_target,
                loupe: final(self).loupe,
                ..*old(self)
            }),
    {
        match chip {
            FilterChip::All => {
                self.filter.clear();
            },
            FilterChip::Label(label) => {
                self.filter.toggle(label);
            },
        }
        self.apply_order_change();
    }

    /// Applies another display order.
    pub fn apply_sort(&mut self, sort: SortKey)
        ensures
            final(self).wf(),
            view_fits(old(self).entries@, old(self).filter@, sort, old(self).taken_at@, final(self).view@),
            cursor_fits(old(self).view@, old(self).cursor, final(self).view@, final(self).cursor),
            loupe_fits(old(self).view@, old(self).loupe, final(self).view@, final(self).loupe),
            final(self).scroll_target == (match final(self).cursor {
                Some(p) => Some(p),
                None => old(self).scroll_target,
            }),
            *final(self) == (GridView {
                sort,
                view: final(self).view,
                cursor: final(self).cursor,
                scroll_target: final(self).scroll_target,
                loupe: final(self).loupe,
                ..*old(self)
            }),
    {
        self.sort = sort;
        self.apply_order_change();
    }
}

} // verus!
