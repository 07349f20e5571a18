//! The part of the sheet on screen: which tiles it covers, what they are
//! called, and what it asks of the texture cache, the extraction queue and
//! the index.

use vstd::prelude::*;

use crate::grid::GridView;
use crate::keymap::{SizeClass, TexKey};
use crate::loupe::row_rotation;
use crate::model::{PhotoEntry, PhotoId, PhotoStatus};
use crate::path::{display_file_name, shown_name};
use crate::tex::{Request, Rotation};
use crate::text::{concat, slice_text, to_chars};
use crate::widgets::SortKey;

verus! {

broadcast use vstd::std_specs::hash::group_hash_axioms;

/// Rows fetched ahead above and below what is on screen.
pub const PREFETCH_ROWS: usize = 2;

/// Longest file name a tile shows in full, in characters.
pub const NAME_MAX_CHARS: usize = 26;

/// A name as a tile shows it: whole if it is short enough, else its end
/// behind an ellipsis.
pub open spec fn shortened(name: Seq<char>) -> Seq<char> {
    if name.len() <= NAME_MAX_CHARS {
        name
    } else {
        "…"@ + name.subrange(name.len() - (NAME_MAX_CHARS - 1), name.len() as int)
    }
}

/// Shortens a name so that its extension stays readable.
pub fn truncated(name: &str) -> (text: String)
    ensures
        text@ == shortened(name@),
{
    let chars: Vec<char> = to_chars(name);
    let count: usize = chars.len();
    if count <= NAME_MAX_CHARS {
        return name.to_owned();
    }
    let tail: String = slice_text(&chars, count - (NAME_MAX_CHARS - 1), count);
    concat("…", tail.as_str())
}

/// The file name of a row, for display.
pub fn file_name(entry: &PhotoEntry) -> (name: String)
    ensures
        name@ == shown_name(entry.rel_path@),
{
    display_file_name(&entry.rel_path)
}

/// The name of a folder, for display.
pub fn root_label(root: &String) -> (name: String)
    ensures
        name@ == shown_name(root@),
{
    display_file_name(root)
}

/// The position of a cell of the sheet; `None` if there is no tile.
pub fn cell_position(column: usize, row: usize, columns: usize, len: usize) -> (position: Option<usize>)
    ensures
        position matches Some(p) ==> column < columns && p == row * columns + column && p < len,
        position is None ==> column >= columns || row * columns + column >= len,
{
    if column >= columns {
        return None;
    }
    match row.checked_mul(columns) {
        Some(start) => if start < len && column < len - start {
            Some(start + column)
        } else {
            None
        },
        None => None,
    }
}

/// Column and row of position `p` lie within the bounds.
pub open spec fn in_block(p: int, columns: int, first: (int, int), last: (int, int)) -> bool {
    &&& first.0 <= p % columns <= last.0
    &&& first.1 <= p / columns <= last.1
}

/// The tiles in a block of cells, given by its first and last column and row:
/// all positions of the sheet within it, in ascending order.
pub fn covered_positions(
    first_column: usize,
    last_column: usize,
    first_row: usize,
    last_row: usize,
    columns: usize,
    len: usize,
) -> (positions: Vec<usize>)
    requires
        columns > 0,
    ensures
        forall|a: int, b: int| 0 <= a < b < positions.len() ==> positions@[a] < positions@[b],
        forall|p: usize| #[trigger]
            positions@.contains(p) <==> p < len && in_block(
                p as int,
                columns as int,
                (first_column as int, first_row as int),
                (last_column as int, last_row as int),
            ),
{
    let mut positions: Vec<usize> = Vec::new();
    let mut p: usize = 0;
    while p < len
        invariant
            columns > 0,
            p <= len,
            forall|a: int| 0 <= a < positions.len() ==> #[trigger] positions@[a] < p,
            forall|a: int, b: int| 0 <= a < b < positions.len() ==> positions@[a] < positions@[b],
            forall|q: usize| #[trigger]
                positions@.contains(q) <==> q < p && in_block(
                    q as int,
                    columns as int,
                    (first_column as int, first_row as int),
                    (last_column as int, last_row as int),
                ),
        decreases len - p,
    {
        let column: usize = p % columns;
        let row: usize = p / columns;
        if first_column <= column && column <= last_column && first_row <= row && row <= last_row {
            let ghost before = positions@;
            positions.push(p);
            proof {
                crate::order::lemma_push_contains(before, p);
            }
        }
        p = p + 1;
    }
    positions
}

/// What is asked of the texture cache for a tile ahead of time.
pub open spec fn thumb_request(entry: PhotoEntry) -> Request {
    Request {
        key: TexKey { id: entry.id, class: SizeClass::Thumb },
        source: match entry.thumb_path {
            Some(path) => Some((path, Rotation { exif: entry.orientation, cw_turns: entry.rot_cw % 4 })),
            None => None,
        },
    }
}

/// The requests for the extracted photos at positions `lo` up to `hi`.
pub open spec fn requests_between(entries: Seq<PhotoEntry>, view: Seq<usize>, lo: int, hi: int) -> Seq<Request>
    decreases hi - lo,
{
    if hi <= lo {
        Seq::empty()
    } else {
        let before = requests_between(entries, view, lo, hi - 1);
        let p = hi - 1;
        if p < view.len() && view[p] < entries.len() && entries[view[p] as int].status == PhotoStatus::Ingested {
            before.push(thumb_request(entries[view[p] as int]))
        } else {
            before
        }
    }
}

/// The requests for the rows `first` up to `last` that are not among the rows
/// `shown.0` up to `shown.1`.
pub open spec fn requests_around(
    entries: Seq<PhotoEntry>,
    view: Seq<usize>,
    columns: int,
    shown: (int, int),
    first: int,
    last: int,
) -> Seq<Request>
    decreases last - first,
{
    if last <= first {
        Seq::empty()
    } else {
        let before = requests_around(entries, view, columns, shown, first, last - 1);
        let row = last - 1;
        if shown.0 <= row < shown.1 {
            before
        } else {
            before + requests_between(entries, view, row * columns, row * columns + columns)
        }
    }
}

/// The photos at positions `lo` up to `hi`.
pub open spec fn ids_in_window(entries: Seq<PhotoEntry>, view: Seq<usize>, lo: int, hi: int) -> Seq<PhotoId> {
    Seq::new((hi - lo) as nat, |k: int| entries[view[lo + k] as int].id)
}

/// The photos at positions `lo` up to `hi` that wait for extraction.
pub open spec fn waiting_in_window(entries: Seq<PhotoEntry>, view: Seq<usize>, lo: int, hi: int) -> Seq<PhotoId>
    decreases hi - lo,
{
    if hi <= lo {
        Seq::empty()
    } else {
        let before = waiting_in_window(entries, view, lo, hi - 1);
        let entry = entries[view[hi - 1] as int];
        if entry.status == PhotoStatus::Pending {
            before.push(entry.id)
        } else {
            before
        }
    }
}

/// `sorted` has the photos of `list` in ascending order.
pub open spec fn sorts(list: Seq<PhotoId>, sorted: Seq<PhotoId>) -> bool {
    &&& sorted.to_multiset() == list.to_multiset()
    &&& ascending(sorted)
}

/// Photos in ascending order.
pub open spec fn ascending(list: Seq<PhotoId>) -> bool {
    forall|a: int, b: int| 0 <= a <= b < list.len() ==> (#[trigger] list[a]).0 <= (#[trigger] list[b]).0
}

/// Sorts photos in ascending order.
pub fn sorted_ids(list: &Vec<PhotoId>) -> (sorted: Vec<PhotoId>)
    ensures
        sorts(list@, sorted@),
        sorted@.len() == list@.len(),
{
    let mut sorted: Vec<PhotoId> = Vec::new();
    let mut i: usize = 0;
    proof {
        assert(list@.take(0) =~= Seq::<PhotoId>::empty());
    }
    while i < list.len()
        invariant
            i <= list.len(),
            sorted.len() == i,
            sorts(list@.take(i as int), sorted@),
        decreases list.len() - i,
    {
        let id: PhotoId = list[i];
        let ghost before = sorted@;
        let mut at: usize = sorted.len();
        while at > 0 && sorted[at - 1].0 > id.0
            invariant
                at <= sorted.len(),
                sorted@ == before,
                forall|k: int| at <= k < before.len() ==> (#[trigger] before[k]).0 > id.0,
            decreases at,
        {
            at = at - 1;
        }
        sorted.insert(at, id);
        proof {
            vstd::seq_lib::to_multiset_insert(before, at as int, id);
            vstd::seq_lib::to_multiset_build(list@.take(i as int), id);
            assert(list@.take(i + 1) =~= list@.take(i as int).push(id));
            let after = sorted@;
            assert(after == before.insert(at as int, id));
            assert forall|a: int, b: int| 0 <= a <= b < after.len() implies (#[trigger] after[a]).0 <= (
            #[trigger] after[b]).0 by {
                if a < at && b == at {
                    assert(before[a].0 <= before[at - 1].0);
                }
                if a < at && b > at {
                    assert(before[a].0 <= before[b - 1].0);
                }
                if a > at {
                    assert(before[a - 1].0 <= before[b - 1].0);
                }
                if a == at && b > at {
                    assert(before[b - 1].0 > id.0);
                }
            }
        }
        i = i + 1;
    }
    proof {
        assert(list@.take(i as int) =~= list@);
    }
    sorted
}

/// The capture times after the first `k` of `found` were added: what is known
/// stays.
pub open spec fn stamps_added(
    known: Map<u64, Option<String>>,
    found: Seq<(PhotoId, Option<String>)>,
    k: int,
) -> Map<u64, Option<String>>
    decreases k,
{
    if k <= 0 {
        known
    } else {
        let before = stamps_added(known, found, k - 1);
        if before.contains_key(found[k - 1].0.0) {
            before
        } else {
            before.insert(found[k - 1].0.0, found[k - 1].1)
        }
    }
}

/// The photos of the first `k` rows whose capture time was not looked up.
pub open spec fn unstamped(entries: Seq<PhotoEntry>, known: Map<u64, Option<String>>, k: int) -> Seq<PhotoId>
    decreases k,
{
    if k <= 0 {
        Seq::empty()
    } else {
        let before = unstamped(entries, known, k - 1);
        if known.contains_key(entries[k - 1].id.0) {
            before
        } else {
            before.push(entries[k - 1].id)
        }
    }
}

impl GridView {
    /// What the texture cache is asked for ahead of time: the extracted photos
    /// of the rows just above and below those on screen.
    pub fn prefetch_band(&self, start: usize, end: usize, columns: usize, total_rows: usize) -> (band: Vec<Request>)
        requires
            end + PREFETCH_ROWS <= usize::MAX,
            total_rows * columns <= usize::MAX,
        ensures
            band@ == (if start >= end {
                Seq::empty()
            } else {
                requests_around(
                    self.entries@,
                    self.view@,
                    columns as int,
                    (start as int, end as int),
                    if start < PREFETCH_ROWS {
                        0
                    } else {
                        start - PREFETCH_ROWS
                    },
                    if end + PREFETCH_ROWS < total_rows {
                        end + PREFETCH_ROWS
                    } else {
                        total_rows as int
                    },
                )
            }),
    {
        let mut band: Vec<Request> = Vec::new();
        proof {
            assert(band@ =~= Seq::<Request>::empty());
        }
        if start >= end {
            return band;
        }
        let first: usize = if start < PREFETCH_ROWS {
            0
        } else {
            start - PREFETCH_ROWS
        };
        let last: usize = if end + PREFETCH_ROWS < total_rows {
            end + PREFETCH_ROWS
        } else {
            total_rows
        };
        let mut row: usize = first;
        while row < last
            invariant
                first <= row,
                row <= last || row == first,
                last <= total_rows,
                total_rows * columns <= usize::MAX,
                band@ == requests_around(
                    self.entries@,
                    self.view@,
                    columns as int,
                    (start as int, end as int),
                    first as int,
                    row as int,
                ),
            decreases last - row,
        {
            if !(start <= row && row < end) {
                proof {
                    assert(row * columns + columns == (row + 1) * columns) by (nonlinear_arith);
                    assert((row + 1) * columns <= total_rows * columns) by (nonlinear_arith)
                        requires
                            row + 1 <= total_rows,
                    ;
                }
                let lo: usize = row * columns;
                self.push_requests(&mut band, lo, lo + columns);
            }
            row = row + 1;
        }
        band
    }

    fn push_requests(&self, band: &mut Vec<Request>, lo: usize, hi: usize)
        requires
            lo <= hi,
        ensures
            final(band)@ == old(band)@ + requests_between(self.entries@, self.view@, lo as int, hi as int),
    {
        let ghost before = band@;
        let mut p: usize = lo;
        proof {
            assert(before + requests_between(self.entries@, self.view@, lo as int, lo as int) =~= before);
        }
        while p < hi
            invariant
                lo <= p <= hi,
                band@ == before + requests_between(self.entries@, self.view@, lo as int, p as int),
            decreases hi - p,
        {
            let ghost so_far = requests_between(self.entries@, self.view@, lo as int, p as int);
            if p < self.view.len() && self.view[p] < self.entries.len() {
                let entry: &PhotoEntry = &self.entries[self.view[p]];
                if entry.status == PhotoStatus::Ingested {
                    let source: Option<(String, Rotation)> = match &entry.thumb_path {
                        Some(path) => Some((path.clone(), row_rotation(entry))),
                        None => None,
                    };
                    let request = Request { key: TexKey::thumb(entry.id), source };
                    proof {
                        assert(request == thumb_request(*entry));
                        assert((before + so_far).push(request) =~= before + so_far.push(request));
                    }
                    band.push(request);
                }
            }
            p = p + 1;
        }
    }

    /// The textures of the tiles at positions `lo` up to `hi`, in order of
    /// their keys.
    pub fn visible_keys(&self, lo: usize, hi: usize) -> (keys: Vec<TexKey>)
        requires
            self.wf(),
            lo <= hi <= self.view.len(),
        ensures
            exists|ids: Seq<PhotoId>| #[trigger]
                sorts(ids_in_window(self.entries@, self.view@, lo as int, hi as int), ids) && keys@ == thumb_keys(ids),
    {
        let mut ids: Vec<PhotoId> = Vec::new();
        let mut p: usize = lo;
        while p < hi
            invariant
                self.wf(),
                lo <= p <= hi <= self.view.len(),
                ids@ == ids_in_window(self.entries@, self.view@, lo as int, p as int),
            decreases hi - p,
        {
            ids.push(self.entries[self.view[p]].id);
            p = p + 1;
            proof {
                assert(ids@ =~= ids_in_window(self.entries@, self.view@, lo as int, p as int));
            }
        }
        let sorted: Vec<PhotoId> = sorted_ids(&ids);
        let mut keys: Vec<TexKey> = Vec::new();
        let mut i: usize = 0;
        while i < sorted.len()
            invariant
                i <= sorted.len(),
                keys@ == thumb_keys(sorted@.take(i as int)),
            decreases sorted.len() - i,
        {
            keys.push(TexKey::thumb(sorted[i]));
            i = i + 1;
            proof {
                assert(keys@ =~= thumb_keys(sorted@.take(i as int)));
            }
        }
        proof {
            assert(sorted@.take(i as int) =~= sorted@);
            assert(sorts(ids_in_window(self.entries@, self.view@, lo as int, hi as int), sorted@));
        }
        keys
    }

    /// Takes note of the tiles on screen, at positions `lo` up to `hi`: if
    /// photos among them wait for extraction, and they are not those last
    /// reported, they are put up for collection in ascending order.
    pub fn note_window(&mut self, lo: usize, hi: usize)
        requires
            old(self).wf(),
            lo <= hi <= old(self).view.len(),
        ensures
            final(self).wf(),
            exists|waiting: Seq<PhotoId>| #[trigger]
                sorts(waiting_in_window(old(self).entries@, old(self).view@, lo as int, hi as int), waiting)
                    && window_noted(*old(self), waiting, *final(self)),
    {
        let mut list: Vec<PhotoId> = Vec::new();
        let mut p: usize = lo;
        proof {
            assert(list@ =~= Seq::<PhotoId>::empty());
        }
        while p < hi
            invariant
                self.wf(),
                *self == *old(self),
                lo <= p <= hi <= self.view.len(),
                list@ == waiting_in_window(self.entries@, self.view@, lo as int, p as int),
            decreases hi - p,
        {
            let row: usize = self.view[p];
            if self.entries[row].status == PhotoStatus::Pending {
                list.push(self.entries[row].id);
            }
            p = p + 1;
        }
        let waiting: Vec<PhotoId> = sorted_ids(&list);
        let ghost listed = waiting@;
        proof {
            assert(sorts(waiting_in_window(old(self).entries@, old(self).view@, lo as int, hi as int), listed));
        }
        if waiting.len() > 0 && !same_ids(&waiting, &self.last_ping) {
            self.last_ping = copy_ids(&waiting);
            self.ping = Some(waiting);
        }
    }

    /// The photos whose capture time has to be looked up.
    pub fn missing_stamps(&self) -> (ids: Vec<PhotoId>)
        ensures
            ids@ == unstamped(self.entries@, self.taken_at@, self.entries@.len() as int),
    {
        let mut ids: Vec<PhotoId> = Vec::new();
        let mut i: usize = 0;
        proof {
            assert(ids@ =~= Seq::<PhotoId>::empty());
        }
        while i < self.entries.len()
            invariant
                i <= self.entries.len(),
                ids@ == unstamped(self.entries@, self.taken_at@, i as int),
            decreases self.entries.len() - i,
        {
            if !self.taken_at.contains_key(&self.entries[i].id.0) {
                ids.push(self.entries[i].id);
            }
            i = i + 1;
        }
        ids
    }

    /// Takes in capture times that were looked up; those known stay.
    pub fn refresh_taken_at(&mut self, found: Vec<(PhotoId, Option<String>)>)
        ensures
            final(self).taken_at@ == stamps_added(old(self).taken_at@, found@, found@.len() as int),
            *final(self) == (GridView { taken_at: final(self).taken_at, ..*old(self) }),
    {
        let mut i: usize = 0;
        while i < found.len()
            invariant
                i <= found.len(),
                self.taken_at@ == stamps_added(old(self).taken_at@, found@, i as int),
                *self == (GridView { taken_at: self.taken_at, ..*old(self) }),
            decreases found.len() - i,
        {
            let id: u64 = found[i].0.0;
            if !self.taken_at.contains_key(&id) {
                let stamp: Option<String> = crate::columns::copy_text(&found[i].1);
                self.taken_at.insert(id, stamp);
            }
            i = i + 1;
        }
    }

    /// Asks for another display order; it is applied by the end of the frame.
    pub fn pick_sort(&mut self, sort: SortKey)
        ensures
            *final(self) == (GridView { pending_sort: Some(sort), ..*old(self) }),
    {
        self.pending_sort = Some(sort);
    }

    /// Hands out the display order that was asked for.
    pub fn take_pending_sort(&mut self) -> (sort: Option<SortKey>)
        ensures
            sort == old(self).pending_sort,
            *final(self) == (GridView { pending_sort: None, ..*old(self) }),
    {
        self.pending_sort.take()
    }

    /// Flips auto-advance; returns the new setting, which is to be written.
    pub fn flip_auto_advance(&mut self) -> (on: bool)
        ensures
            on == !old(self).auto_advance,
            *final(self) == (GridView { auto_advance: on, ..*old(self) }),
    {
        self.auto_advance = !self.auto_advance;
        self.auto_advance
    }
}

/// The thumbnail textures of photos.
pub open spec fn thumb_keys(ids: Seq<PhotoId>) -> Seq<TexKey> {
    Seq::new(ids.len(), |i: int| TexKey { id: ids[i], class: SizeClass::Thumb })
}

/// `after` is `before` with the photos on screen that wait for extraction
/// noted.
pub open spec fn window_noted(before: GridView, waiting: Seq<PhotoId>, after: GridView) -> bool {
    if waiting.len() > 0 && waiting != before.last_ping@ {
        &&& after.last_ping@ == waiting
        &&& after.ping matches Some(ping) && ping@ == waiting
        &&& after == (GridView { last_ping: after.last_ping, ping: after.ping, ..before })
    } else {
        after == before
    }
}

fn same_ids(a: &Vec<PhotoId>, b: &Vec<PhotoId>) -> (same: bool)
    ensures
        same == (a@ == b@),
{
    if a.len() != b.len() {
        return false;
    }
    let mut i: usize = 0;
    while i < a.len()
        invariant
            i <= a.len(),
            a.len() == b.len(),
            forall|k: int| 0 <= k < i ==> a@[k] == b@[k],
        decreases a.len() - i,
    {
        if a[i] != b[i] {
            return false;
        }
        i = i + 1;
    }
    proof {
        assert(a@ =~= b@);
    }
    true
}

fn copy_ids(list: &Vec<PhotoId>) -> (copy: Vec<PhotoId>)
    ensures
        copy@ == list@,
{
    let mut copy: Vec<PhotoId> = Vec::new();
    let mut i: usize = 0;
    while i < list.len()
        invariant
            i <= list.len(),
            copy@ == list@.take(i as int),
        decreases list.len() - i,
    {
        copy.push(list[i]);
        i = i + 1;
        proof {
            assert(copy@ =~= list@.take(i as int));
        }
    }
    proof {
        assert(list@.take(i as int) =~= list@);
    }
    copy
}

/// Two ways to sort the same photos give the same list, so a list that was
/// reported once is recognised whatever order the tiles were drawn in.
pub proof fn sorting_is_unique(list: Seq<PhotoId>, a: Seq<PhotoId>, b: Seq<PhotoId>)
    requires
        sorts(list, a),
        sorts(list, b),
    ensures
        a == b,
{
    let le = |x: PhotoId, y: PhotoId| x.0 <= y.0;
    vstd::seq_lib::lemma_sorted_unique(a, b, le);
}

} // verus!
