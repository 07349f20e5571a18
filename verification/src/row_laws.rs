//! What rows hold after every operation, column by column.

use vstd::prelude::*;

use crate::columns::{
    detail_in, entry_in, fresh_row, iso_in, label_in, narrowed, orientation_in, reset_row, side_in,
    status_in, stored_time, turns_of, widened, PhotoRow,
};
use crate::db::{
    all_labeled, all_rotated, any_root, awaiting, bounded_message, cells, entries_fit, failed_fit,
    files_distinct, first_paths, has_row, inserts, is_row_of, labeled, lemma_after_steps, live,
    pending_fit, pending_in, plan_fits, recent_fit, repeats_new_file, root_touched, roots_by_recency,
    rows_by_path, rows_by_text, setting, step_fits, steps_fit, synced, with_ingest, KvRow,
    RootRow, SyncPlan, SyncStep,
};
use crate::db_laws::{
    consistent_scan, lemma_missing_are_vanished, seen_rows_follow_the_file,
    shallow_sync_spares_subfolders,
};
use crate::model::{
    aspect_of, label_code, label_of_code, shown_size, status_code, status_of_code, IngestInfo, Label,
    PendingPhoto, PhotoEntry, PhotoId, PhotoMeta, PhotoStatus, ScanOptions,
};
use crate::order::{is_listing, tie_by_position};
use crate::path::{components, path_le};
use crate::text::chars_le;

verus! {

/// The numbers of the labels and of the states are fixed: files written
/// before read the same.
pub proof fn stored_numbers_are_fixed(label: Label, status: PhotoStatus)
    ensures
        label_code(label) == (match label {
            Label::Unlabeled => 0u8,
            Label::Red => 1u8,
            Label::Yellow => 2u8,
            Label::Green => 3u8,
            Label::Blue => 4u8,
            Label::Purple => 5u8,
        }),
        status_code(status) == (match status {
            PhotoStatus::Pending => 0u8,
            PhotoStatus::Ingested => 1u8,
            PhotoStatus::Error => 2u8,
            PhotoStatus::Missing => 3u8,
        }),
        label_of_code(label_code(label)) == Some(label),
        status_of_code(status_code(status)) == Some(status),
        label_in(label_code(label) as i64) == label,
        status_in(status_code(status) as i64) == status,
{
}

/// A label or state that is not known reads as none or as waiting; one that is
/// known reads as the only one of that number.
pub proof fn unknown_numbers_read_as_defaults(column: i64)
    ensures
        (column < 0 || column > 5) ==> label_in(column) == Label::Unlabeled,
        0 <= column <= 5 ==> label_code(label_in(column)) == column,
        (column < 0 || column > 3) ==> status_in(column) == PhotoStatus::Pending,
        0 <= column <= 3 ==> status_code(status_in(column)) == column,
{
}

/// Numbers within the range of a column are stored as they are, others at its
/// nearer end.
pub proof fn columns_hold_numbers(value: int, time: i128, column: i64)
    requires
        value >= 0,
    ensures
        value <= i64::MAX ==> narrowed(value) == value,
        value > i64::MAX ==> narrowed(value) == i64::MAX,
        -i64::MAX <= time <= i64::MAX ==> stored_time(time) == time,
        time > i64::MAX ==> stored_time(time) == i64::MAX,
        time < -i64::MAX ==> stored_time(time) == -i64::MAX,
        column >= 0 ==> widened(column) == column,
        column < 0 ==> widened(column) == 0,
{
}

/// A side, a flag, a turn and a rating are read as stored if they are in range;
/// turns wrap by full circles.
pub proof fn columns_are_read_as_stored(column: i64, circles: int)
    ensures
        side_in(None) is None,
        0 <= column <= u32::MAX ==> side_in(Some(column)) == Some(column as u32),
        column > u32::MAX ==> side_in(Some(column)) is None,
        column < 0 ==> side_in(Some(column)) == Some(0u32),
        0 <= column <= u16::MAX ==> orientation_in(column) == column,
        (column < 0 || column > u16::MAX) ==> orientation_in(column) == 1,
        iso_in(None) is None,
        0 <= column <= u32::MAX ==> iso_in(Some(column)) == Some(column as u32),
        (column < 0 || column > u32::MAX) ==> iso_in(Some(column)) is None,
        turns_of(column) < 4,
        0 <= column < 4 ==> turns_of(column) == column,
        i64::MIN <= column + 4 * circles <= i64::MAX ==> turns_of((column + 4 * circles) as i64) == turns_of(column),
{
    assert((column + 4 * circles) % 4 == column as int % 4);
}

/// A cell and a full record show what the row holds, column by column.
pub proof fn rows_are_shown_as_stored(row: PhotoRow)
    ensures
        ({
            let entry = entry_in(row);
            &&& row.id >= 0 ==> entry.id.0 == row.id
            &&& entry.rel_path == row.rel_path
            &&& entry.label == label_in(row.label)
            &&& entry.status == status_in(row.status)
            &&& entry.orientation == orientation_in(row.orientation)
            &&& entry.rot_cw == turns_of(row.rot_cw)
            &&& entry.pixels is Some <==> side_in(row.width) is Some && side_in(row.height) is Some
            &&& entry.pixels is Some ==> entry.pixels == Some((side_in(row.width)->0, side_in(row.height)->0))
            &&& 0 <= row.label <= 5 ==> label_code(entry.label) == row.label
            &&& 0 <= row.status <= 3 ==> status_code(entry.status) == row.status
            &&& (row.width is None || row.height is None) ==> entry.pixels is None
            &&& (row.width matches Some(w) && row.height matches Some(h) && 0 <= w <= u32::MAX && 0 <= h <= u32::MAX
                ==> entry.pixels == Some((row.width->0 as u32, row.height->0 as u32)))
            &&& 0 <= row.orientation <= u16::MAX ==> entry.orientation == row.orientation
            &&& 0 <= row.rot_cw < 4 ==> entry.rot_cw == row.rot_cw
            &&& entry.thumb_path == row.thumb_path
            &&& entry.err_msg == row.err_msg
            &&& entry.jpeg_rel_path == row.jpeg_rel_path
        }),
        ({
            let entry = entry_in(row);
            let detail = detail_in(row);
            &&& detail.id == entry.id
            &&& detail.rel_path == row.rel_path
            &&& detail.label == entry.label
            &&& detail.status == entry.status
            &&& detail.pixels == entry.pixels
            &&& detail.orientation == entry.orientation
            &&& detail.rot_cw == entry.rot_cw
            &&& detail.preview_path == row.preview_path
            &&& detail.thumb_path == row.thumb_path
            &&& detail.camera == row.camera
            &&& detail.lens == row.lens
            &&& detail.taken_at == row.taken_at
            &&& detail.shutter == row.shutter
            &&& detail.aperture == row.aperture
            &&& detail.iso == iso_in(row.iso)
            &&& row.iso is None ==> detail.iso is None
            &&& (row.iso matches Some(iso) && 0 <= iso <= u32::MAX ==> detail.iso == Some(row.iso->0 as u32))
            &&& detail.focal_mm == row.focal_mm
            &&& detail.err_msg == row.err_msg
            &&& detail.jpeg_rel_path == row.jpeg_rel_path
        }),
{
}

/// Nothing that was extracted from a file stands on a row.
pub open spec fn holds_nothing_extracted(row: PhotoRow) -> bool {
    &&& row.width is None
    &&& row.height is None
    &&& row.orientation == 1
    &&& row.camera is None
    &&& row.lens is None
    &&& row.taken_at is None
    &&& row.shutter is None
    &&& row.aperture is None
    &&& row.iso is None
    &&& row.focal_mm is None
    &&& row.preview_path is None
    &&& row.thumb_path is None
    &&& row.ingested_at is None
    &&& row.err_msg is None
}

/// After a sync the row of a file that was rewritten, or that had been missing,
/// waits for extraction and holds nothing of the old file: no size, camera,
/// lens, time or exposure, no cached picture and no message. Its time, size
/// and companion are those of the scan; its number, label and turns stay.
pub proof fn changed_files_start_over(
    rows: Seq<PhotoRow>,
    next_id: int,
    root: String,
    scanned: Seq<PhotoMeta>,
    options: ScanOptions,
    plan: SyncPlan,
    i: int,
    k: int,
)
    requires
        plan_fits(rows, root@, scanned, options, plan),
        files_distinct(rows),
        consistent_scan(scanned),
        0 <= i < rows.len(),
        0 <= k < scanned.len(),
        rows[i].root@ == root@,
        components(rows[i].rel_path@) == components(scanned[k].rel_path@),
        -i64::MAX <= scanned[k].mtime <= i64::MAX,
        scanned[k].size <= i64::MAX,
        rows[i].size >= 0,
        rows[i].status == 3 || rows[i].mtime != scanned[k].mtime || rows[i].size != scanned[k].size,
    ensures
        ({
            let after = synced(rows, next_id, root, scanned, plan)[i];
            &&& after.status == 0
            &&& after.width is None
            &&& after.height is None
            &&& after.orientation == 1
            &&& after.camera is None
            &&& after.lens is None
            &&& after.taken_at is None
            &&& after.shutter is None
            &&& after.aperture is None
            &&& after.iso is None
            &&& after.focal_mm is None
            &&& after.preview_path is None
            &&& after.thumb_path is None
            &&& after.ingested_at is None
            &&& after.err_msg is None
            &&& after.mtime == scanned[k].mtime
            &&& after.size == scanned[k].size
            &&& after.jpeg_rel_path == scanned[k].jpeg_rel_path
            &&& after.id == rows[i].id
            &&& after.root == rows[i].root
            &&& after.rel_path == rows[i].rel_path
            &&& after.label == rows[i].label
            &&& after.rot_cw == rows[i].rot_cw
            &&& entry_in(after).pixels is None
            &&& entry_in(after).thumb_path is None
            &&& entry_in(after).orientation == 1
            &&& entry_in(after).status == PhotoStatus::Pending
            &&& detail_in(after).preview_path is None
            &&& detail_in(after).camera is None
        }),
{
    seen_rows_follow_the_file(rows, next_id, root, scanned, options, plan, i, k);
}

/// A row counts as changed exactly if it was missing, or if its time is not
/// that of the file, as far as a column holds it, or its size is not that of
/// the file. Reset, it holds nothing extracted, and time and size of the file
/// as far as a column holds them.
pub proof fn reset_rows_hold_the_scan(row: PhotoRow, meta: PhotoMeta)
    ensures
        ({
            let after = reset_row(row, meta);
            &&& holds_nothing_extracted(after)
            &&& after.status == 0
            &&& after.id == row.id
            &&& after.root == row.root
            &&& after.rel_path == row.rel_path
            &&& after.label == row.label
            &&& after.rot_cw == row.rot_cw
            &&& after.jpeg_rel_path == meta.jpeg_rel_path
            &&& meta.mtime > i64::MAX ==> after.mtime == i64::MAX
            &&& meta.mtime < -i64::MAX ==> after.mtime == -i64::MAX
            &&& meta.size > i64::MAX ==> after.size == i64::MAX
        }),
        row.is_stale(stored_time(meta.mtime), meta.size) <==> row.status == 3 || row.mtime != (
        if meta.mtime > i64::MAX {
            i64::MAX as int
        } else if meta.mtime < -i64::MAX {
            -i64::MAX
        } else {
            meta.mtime as int
        }) || (if row.size < 0 {
            0int
        } else {
            row.size as int
        }) != meta.size,
{
}

/// After a sync the row of an unchanged file is as it was in every column but
/// the companion, which is the scan's.
pub proof fn unchanged_files_keep_everything(
    rows: Seq<PhotoRow>,
    next_id: int,
    root: String,
    scanned: Seq<PhotoMeta>,
    options: ScanOptions,
    plan: SyncPlan,
    i: int,
    k: int,
)
    requires
        plan_fits(rows, root@, scanned, options, plan),
        files_distinct(rows),
        consistent_scan(scanned),
        0 <= i < rows.len(),
        0 <= k < scanned.len(),
        rows[i].root@ == root@,
        components(rows[i].rel_path@) == components(scanned[k].rel_path@),
        rows[i].status != 3,
        rows[i].mtime == scanned[k].mtime,
        rows[i].mtime > i64::MIN,
        rows[i].size == scanned[k].size,
    ensures
        ({
            let after = synced(rows, next_id, root, scanned, plan)[i];
            &&& after == (PhotoRow { jpeg_rel_path: after.jpeg_rel_path, ..rows[i] })
            &&& after.jpeg_rel_path is Some <==> scanned[k].jpeg_rel_path is Some
            &&& (after.jpeg_rel_path matches Some(jpeg) ==> components(jpeg@) == components(
                scanned[k].jpeg_rel_path->0@,
            ))
        }),
{
    seen_rows_follow_the_file(rows, next_id, root, scanned, options, plan, i, k);
}

/// After a sync a file that had no row has one behind all earlier rows: it
/// waits for extraction, has no label and no turns and holds nothing extracted.
pub proof fn new_files_get_bare_rows(
    rows: Seq<PhotoRow>,
    next_id: int,
    root: String,
    scanned: Seq<PhotoMeta>,
    options: ScanOptions,
    plan: SyncPlan,
    k: int,
)
    requires
        plan_fits(rows, root@, scanned, options, plan),
        consistent_scan(scanned),
        0 <= k < scanned.len(),
        -i64::MAX <= scanned[k].mtime <= i64::MAX,
        scanned[k].size <= i64::MAX,
        next_id + scanned.len() <= i64::MAX,
        next_id >= 0,
        forall|i: int|
            0 <= i < rows.len() ==> !((#[trigger] rows[i]).root@ == root@ && components(rows[i].rel_path@) == components(
                scanned[k].rel_path@,
            )),
    ensures
        ({
            let after = synced(rows, next_id, root, scanned, plan);
            exists|i: int|
                {
                    &&& rows.len() <= i < after.len()
                    &&& (#[trigger] after[i]).root == root
                    &&& after[i].rel_path == scanned[k].rel_path
                    &&& after[i].id == next_id + (i - rows.len())
                    &&& after[i].mtime == scanned[k].mtime
                    &&& after[i].size == scanned[k].size
                    &&& after[i].jpeg_rel_path == scanned[k].jpeg_rel_path
                    &&& after[i].status == 0
                    &&& after[i].label == 0
                    &&& after[i].rot_cw == 0
                    &&& after[i].width is None
                    &&& after[i].height is None
                    &&& after[i].orientation == 1
                    &&& after[i].camera is None
                    &&& after[i].lens is None
                    &&& after[i].taken_at is None
                    &&& after[i].shutter is None
                    &&& after[i].aperture is None
                    &&& after[i].iso is None
                    &&& after[i].focal_mm is None
                    &&& after[i].preview_path is None
                    &&& after[i].thumb_path is None
                    &&& after[i].ingested_at is None
                    &&& after[i].err_msg is None
                }
        }),
{
    let steps = plan.steps@;
    let n = scanned.len() as int;
    let after = synced(rows, next_id, root, scanned, plan);
    assert(steps_fit(rows, root@, scanned, steps));
    assert(step_fits(rows, root@, scanned[k], steps[k]));
    lemma_after_steps(rows, next_id, root, scanned, steps, n);
    lemma_after_steps(rows, next_id, root, scanned, steps, k);
    assert(steps[k] == SyncStep::Insert);
    let i = rows.len() + inserts(steps, k);
    lemma_missing_are_vanished(rows, root@, scanned, options, plan, i);
    assert(after[i] == fresh_row((next_id + inserts(steps, k)) as i64, root, scanned[k]));
}

/// After a sync a row that the scan reached and did not see is missing, has no
/// message, and is otherwise as it was.
pub proof fn unseen_rows_go_missing(
    rows: Seq<PhotoRow>,
    next_id: int,
    root: String,
    scanned: Seq<PhotoMeta>,
    options: ScanOptions,
    plan: SyncPlan,
    i: int,
)
    requires
        plan_fits(rows, root@, scanned, options, plan),
        0 <= i < rows.len(),
        rows[i].root@ == root@,
        options.recursive || components(rows[i].rel_path@).len() <= 1,
        forall|k: int|
            0 <= k < scanned.len() ==> components((#[trigger] scanned[k]).rel_path@) != components(rows[i].rel_path@),
    ensures
        ({
            let after = synced(rows, next_id, root, scanned, plan)[i];
            &&& after.status == 3
            &&& rows[i].status != 3 ==> after == (PhotoRow { status: 3, err_msg: None, ..rows[i] })
            &&& rows[i].status == 3 ==> after == rows[i]
        }),
{
    shallow_sync_spares_subfolders(rows, next_id, root, scanned, options, plan, i);
}

/// A successful extraction puts exactly what it learned on its row: nothing
/// else on that row changes but the state and the message, and no other row.
pub proof fn extractions_fill_their_row(rows: Seq<PhotoRow>, id: i64, info: IngestInfo, now: i64, i: int)
    requires
        0 <= i < rows.len(),
    ensures
        with_ingest(rows, id, info, now).len() == rows.len(),
        rows[i].id != id ==> with_ingest(rows, id, info, now)[i] == rows[i],
        rows[i].id == id ==> ({
            let after = with_ingest(rows, id, info, now)[i];
            &&& after.status == 1
            &&& after.width == Some(info.width as i64)
            &&& after.height == Some(info.height as i64)
            &&& after.orientation == info.orientation
            &&& after.camera == info.camera
            &&& after.lens == info.lens
            &&& after.taken_at == info.taken_at
            &&& after.shutter == info.shutter
            &&& after.aperture == info.aperture
            &&& after.iso is Some <==> info.iso is Some
            &&& (info.iso matches Some(iso) ==> after.iso == Some(iso as i64))
            &&& after.focal_mm == info.focal_mm
            &&& after.preview_path == Some(info.preview_path)
            &&& after.thumb_path == Some(info.thumb_path)
            &&& after.ingested_at == Some(now)
            &&& after.err_msg is None
            &&& after.id == rows[i].id
            &&& after.root == rows[i].root
            &&& after.rel_path == rows[i].rel_path
            &&& after.mtime == rows[i].mtime
            &&& after.size == rows[i].size
            &&& after.label == rows[i].label
            &&& after.rot_cw == rows[i].rot_cw
            &&& after.jpeg_rel_path == rows[i].jpeg_rel_path
        }),
{
}

/// A failed extraction leaves its state and its message, cut to its first 400
/// characters, on its row, and changes nothing else.
pub proof fn failures_mark_their_row(before: Seq<PhotoRow>, id: i64, message: Seq<char>, after: Seq<PhotoRow>, i: int)
    requires
        failed_fit(before, id, bounded_message(message), after),
        0 <= i < before.len(),
    ensures
        after.len() == before.len(),
        before[i].id != id ==> after[i] == before[i],
        before[i].id == id ==> {
            &&& after[i].status == 2
            &&& after[i].err_msg is Some
            &&& message.len() <= 400 ==> after[i].err_msg->0@ == message
            &&& message.len() > 400 ==> after[i].err_msg->0@ == message.take(400)
            &&& after[i] == (PhotoRow { status: 2, err_msg: after[i].err_msg, ..before[i] })
        },
{
}

/// A label lands on the rows of the named photos and on no others, and changes
/// nothing but labels.
pub proof fn labels_land_on_the_named_rows(rows: Seq<PhotoRow>, ids: Seq<PhotoId>, label: Label, one: i64, i: int)
    requires
        0 <= i < rows.len(),
        forall|m: int| 0 <= m < ids.len() ==> (#[trigger] ids[m]).0 <= i64::MAX,
    ensures
        ({
            let after = all_labeled(rows, ids, label);
            let named = exists|m: int| 0 <= m < ids.len() && (#[trigger] ids[m]).0 == rows[i].id;
            &&& after.len() == rows.len()
            &&& after[i] == (PhotoRow { label: after[i].label, ..rows[i] })
            &&& named ==> after[i].label == label_code(label)
            &&& !named ==> after[i].label == rows[i].label
        }),
        ({
            let after = labeled(rows, one, label);
            &&& after.len() == rows.len()
            &&& after[i] == (PhotoRow { label: after[i].label, ..rows[i] })
            &&& after[i].label == (if rows[i].id == one {
                label_code(label) as i64
            } else {
                rows[i].label
            })
        }),
{
    let after = all_labeled(rows, ids, label);
    if exists|m: int| 0 <= m < ids.len() && (#[trigger] ids[m]).0 == rows[i].id {
        let m = choose|m: int| 0 <= m < ids.len() && (#[trigger] ids[m]).0 == rows[i].id;
        assert(narrowed(ids[m].0 as int) == rows[i].id);
    }
}

/// Of a series of turns the last one of a photo stands, wrapped into `0..4`;
/// nothing else on its row changes.
pub proof fn the_last_turn_stands(rows: Seq<PhotoRow>, updates: Seq<(PhotoId, u8)>, i: int, m: int)
    requires
        0 <= i < rows.len(),
        0 <= m < updates.len(),
        updates[m].0.0 == rows[i].id,
        forall|later: int| m < later < updates.len() ==> (#[trigger] updates[later]).0.0 != rows[i].id,
        forall|k: int| 0 <= k < updates.len() ==> (#[trigger] updates[k]).0.0 <= i64::MAX,
    ensures
        all_rotated(rows, updates).len() == rows.len(),
        all_rotated(rows, updates)[i] == (PhotoRow { rot_cw: (updates[m].1 % 4) as i64, ..rows[i] }),
    decreases updates.len(),
{
    let head = updates.drop_last();
    let last = updates.last();
    assert(updates[updates.len() - 1] == last);
    assert forall|k: int| 0 <= k < head.len() implies (#[trigger] head[k]).0.0 <= i64::MAX by {
        assert(head[k] == updates[k]);
    }
    lemma_turns_touch_turns(rows, head, i);
    if m < updates.len() - 1 {
        assert forall|later: int| m < later < head.len() implies (#[trigger] head[later]).0.0 != rows[i].id by {
            assert(head[later] == updates[later]);
        }
        the_last_turn_stands(rows, head, i, m);
    }
}

proof fn lemma_turns_touch_turns(rows: Seq<PhotoRow>, updates: Seq<(PhotoId, u8)>, i: int)
    requires
        0 <= i < rows.len(),
    ensures
        all_rotated(rows, updates).len() == rows.len(),
        all_rotated(rows, updates)[i] == (PhotoRow { rot_cw: all_rotated(rows, updates)[i].rot_cw, ..rows[i] }),
    decreases updates.len(),
{
    if updates.len() > 0 {
        lemma_turns_touch_turns(rows, updates.drop_last(), i);
    }
}

/// A photo that a series of turns does not name keeps its row.
pub proof fn unnamed_photos_keep_their_turns(rows: Seq<PhotoRow>, updates: Seq<(PhotoId, u8)>, i: int)
    requires
        0 <= i < rows.len(),
        forall|k: int|
            0 <= k < updates.len() ==> (#[trigger] updates[k]).0.0 <= i64::MAX && updates[k].0.0 != rows[i].id,
    ensures
        all_rotated(rows, updates).len() == rows.len(),
        all_rotated(rows, updates)[i] == rows[i],
    decreases updates.len(),
{
    if updates.len() > 0 {
        let head = updates.drop_last();
        assert(updates[updates.len() - 1] == updates.last());
        assert forall|k: int| 0 <= k < head.len() implies (#[trigger] head[k]).0.0 <= i64::MAX && head[k].0.0 != rows[i].id by {
            assert(head[k] == updates[k]);
        }
        unnamed_photos_keep_their_turns(rows, head, i);
    }
}

/// Every row of a folder that waits is in the folder's queue, with the file as
/// it was scanned.
pub proof fn waiting_rows_are_queued(rows: Seq<PhotoRow>, root: String, pending: Seq<PendingPhoto>, i: int)
    requires
        pending_fit(rows, root, pending),
        0 <= i < rows.len(),
        rows[i].root@ == root@,
        rows[i].status == 0,
    ensures
        exists|k: int| 0 <= k < pending.len() && queues_row(#[trigger] pending[k], root, rows[i]),
{
    let pos = choose|pos: Seq<int>|
        {
            &&& #[trigger] is_listing(pos, awaiting(rows, root@), tie_by_position(rows_by_text(rows)))
            &&& pending == Seq::new(pos.len(), |x: int| pending_in(rows[pos[x]], root))
        };
    assert(awaiting(rows, root@)(i));
    assert(pos.contains(i));
    let k = choose|k: int| 0 <= k < pos.len() && pos[k] == i;
    assert(queues_row(pending[k], root, rows[i]));
}

/// No file is queued twice, and the queue goes by the text of the paths.
pub proof fn queues_are_in_text_order(rows: Seq<PhotoRow>, root: String, pending: Seq<PendingPhoto>, a: int, b: int)
    requires
        pending_fit(rows, root, pending),
        0 <= a < b < pending.len(),
        files_distinct(rows),
    ensures
        chars_le(pending[a].meta.rel_path@, pending[b].meta.rel_path@),
        components(pending[a].meta.rel_path@) != components(pending[b].meta.rel_path@),
{
    let le = rows_by_text(rows);
    let pos = choose|pos: Seq<int>|
        {
            &&& #[trigger] is_listing(pos, awaiting(rows, root@), tie_by_position(le))
            &&& pending == Seq::new(pos.len(), |x: int| pending_in(rows[pos[x]], root))
        };
    assert(tie_by_position(le)(pos[a], pos[b]));
    assert(pos.contains(pos[a]) && pos.contains(pos[b]));
    assert(awaiting(rows, root@)(pos[a]) && awaiting(rows, root@)(pos[b]));
    assert(pos[a] != pos[b]);
    if pos[a] < pos[b] {
        assert(!(rows[pos[a]].root@ == rows[pos[b]].root@ && components(rows[pos[a]].rel_path@) == components(
            rows[pos[b]].rel_path@,
        )));
    } else {
        assert(!(rows[pos[b]].root@ == rows[pos[a]].root@ && components(rows[pos[b]].rel_path@) == components(
            rows[pos[a]].rel_path@,
        )));
    }
}

/// Every job in the queue of a folder is that of a row of it that waits.
pub proof fn queued_jobs_wait(rows: Seq<PhotoRow>, root: String, pending: Seq<PendingPhoto>, k: int)
    requires
        pending_fit(rows, root, pending),
        0 <= k < pending.len(),
    ensures
        exists|i: int|
            0 <= i < rows.len() && (#[trigger] rows[i]).root@ == root@ && rows[i].status == 0 && queues_row(
                pending[k],
                root,
                rows[i],
            ),
{
    let pos = choose|pos: Seq<int>|
        {
            &&& #[trigger] is_listing(pos, awaiting(rows, root@), tie_by_position(rows_by_text(rows)))
            &&& pending == Seq::new(pos.len(), |x: int| pending_in(rows[pos[x]], root))
        };
    assert(pos.contains(pos[k]));
    assert(awaiting(rows, root@)(pos[k]));
    assert(queues_row(pending[k], root, rows[pos[k]]));
}

/// A job is the one of a row: its number, file, time, size and companion.
pub open spec fn queues_row(job: PendingPhoto, root: String, row: PhotoRow) -> bool {
    &&& row.id >= 0 ==> job.id.0 == row.id
    &&& job.meta.root == root
    &&& job.meta.rel_path == row.rel_path
    &&& job.meta.mtime == row.mtime
    &&& row.size >= 0 ==> job.meta.size == row.size
    &&& job.meta.jpeg_rel_path == row.jpeg_rel_path
}

/// Opening a folder stamps its row, or adds one; the others stay as they were.
pub proof fn opening_stamps_the_folder(before: Seq<RootRow>, root: String, opened_at: i64, after: Seq<RootRow>)
    requires
        root_touched(before, root, opened_at, after),
    ensures
        exists|i: int| 0 <= i < after.len() && (#[trigger] after[i]).path@ == root@ && after[i].last_opened == opened_at,
        forall|i: int| 0 <= i < before.len() && (#[trigger] before[i]).path@ != root@ ==> after[i] == before[i],
        forall|i: int| 0 <= i < before.len() ==> (#[trigger] after[i]).path == before[i].path,
        before.len() <= after.len() <= before.len() + 1,
        after.len() == before.len() <==> exists|i: int| 0 <= i < before.len() && (#[trigger] before[i]).path@ == root@,
{
    if exists|i: int| 0 <= i < before.len() && (#[trigger] before[i]).path@ == root@ {
        let i = choose|i: int| 0 <= i < before.len() && (#[trigger] before[i]).path@ == root@;
        assert(after[i].path@ == root@ && after[i].last_opened == opened_at);
    } else {
        assert(after[before.len() as int].path@ == root@);
    }
}

/// The recent folders come latest first, as many as asked for or as there are,
/// and no folder that is left out was opened later than one that is listed.
pub proof fn recent_folders_come_latest_first(roots: Seq<RootRow>, limit: int, recent: Seq<String>)
    requires
        recent_fit(roots, limit, recent),
        limit >= 0,
    ensures
        recent.len() == (if limit < roots.len() {
            limit
        } else {
            roots.len() as int
        }),
        exists|pos: Seq<int>|
            {
                &&& pos.len() == roots.len()
                &&& #[trigger] pos.no_duplicates()
                &&& forall|a: int| 0 <= a < pos.len() ==> 0 <= #[trigger] pos[a] < roots.len()
                &&& forall|a: int| 0 <= a < recent.len() ==> #[trigger] recent[a] == roots[pos[a]].path
                &&& forall|a: int, b: int|
                    0 <= a < b < pos.len() ==> roots[#[trigger] pos[a]].last_opened >= roots[#[trigger] pos[b]].last_opened
            },
{
    let le = roots_by_recency(roots);
    let pos = choose|pos: Seq<int>|
        #[trigger] is_listing(pos, any_root(roots), tie_by_position(le)) && recent == first_paths(roots, pos, limit);
    assert forall|a: int| 0 <= a < pos.len() implies 0 <= #[trigger] pos[a] < roots.len() by {
        assert(pos.contains(pos[a]));
        assert(any_root(roots)(pos[a]));
    }
    assert forall|a: int, b: int| 0 <= a < b < pos.len() implies roots[#[trigger] pos[a]].last_opened
        >= roots[#[trigger] pos[b]].last_opened by {
        assert(tie_by_position(le)(pos[a], pos[b]));
    }
    assert(pos.len() == roots.len()) by {
        let all = vstd::set_lib::set_int_range(0, roots.len() as int);
        vstd::set_lib::lemma_int_range(0, roots.len() as int);
        assert(pos.to_set() =~= all) by {
            assert forall|x: int| pos.to_set().contains(x) <==> all.contains(x) by {
                assert(pos.contains(x) <==> any_root(roots)(x));
            }
        }
        pos.unique_seq_to_set();
    }
    assert(pos.no_duplicates());
}

/// A setting reads as the value of its first row, and as nothing without one.
pub proof fn settings_read_their_row(kv: Seq<KvRow>, key: Seq<char>)
    ensures
        forall|i: int|
            0 <= i < kv.len() && (#[trigger] kv[i]).key@ == key && (forall|j: int| 0 <= j < i ==> (#[trigger] kv[j]).key@ != key)
                ==> setting(kv, key) == Some(kv[i].value@),
        (forall|i: int| 0 <= i < kv.len() ==> (#[trigger] kv[i]).key@ != key) ==> setting(kv, key) is None,
    decreases kv.len(),
{
    if kv.len() > 0 {
        let rest = kv.skip(1);
        settings_read_their_row(rest, key);
        assert forall|i: int|
            0 <= i < kv.len() && (#[trigger] kv[i]).key@ == key && (forall|j: int| 0 <= j < i ==> (#[trigger] kv[j]).key@ != key)
                implies setting(kv, key) == Some(kv[i].value@) by {
            if i > 0 {
                assert(kv[0].key@ != key);
                assert(rest[i - 1] == kv[i]);
                assert forall|j: int| 0 <= j < i - 1 implies (#[trigger] rest[j]).key@ != key by {
                    assert(rest[j] == kv[j + 1]);
                }
            }
        }
        if forall|i: int| 0 <= i < kv.len() ==> (#[trigger] kv[i]).key@ != key {
            assert(kv[0].key@ != key);
            assert forall|j: int| 0 <= j < rest.len() implies (#[trigger] rest[j]).key@ != key by {
                assert(rest[j] == kv[j + 1]);
            }
        }
    }
}

/// A photo is shown with width and height exchanged exactly if its flag lies a
/// picture on its side and the user's turns do not set it up again, or the
/// other way round; every further quarter turn exchanges them.
pub proof fn turning_exchanges_the_sides(w: u32, h: u32, orientation: u16, rot_cw: u8)
    ensures
        shown_size(None, orientation, rot_cw) is None,
        ({
            let on_its_side = orientation == 5 || orientation == 6 || orientation == 7 || orientation == 8;
            let odd = rot_cw % 2 == 1;
            &&& on_its_side && !odd ==> shown_size(Some((w, h)), orientation, rot_cw) == Some((h, w))
            &&& on_its_side && odd ==> shown_size(Some((w, h)), orientation, rot_cw) == Some((w, h))
            &&& !on_its_side && odd ==> shown_size(Some((w, h)), orientation, rot_cw) == Some((h, w))
            &&& !on_its_side && !odd ==> shown_size(Some((w, h)), orientation, rot_cw) == Some((w, h))
        }),
        rot_cw < 255 ==> shown_size(Some((w, h)), orientation, (rot_cw + 1) as u8) == shown_size(
            Some((h, w)),
            orientation,
            rot_cw,
        ),
        aspect_of(None) == (3u32, 2u32),
        w > 0 && h > 0 ==> aspect_of(Some((w, h))) == (w, h),
        w == 0 || h == 0 ==> aspect_of(Some((w, h))) == (3u32, 2u32),
{
}

/// Every row of a folder that is not missing is listed, as it reads.
pub proof fn live_rows_are_listed(rows: Seq<PhotoRow>, root: Seq<char>, entries: Seq<PhotoEntry>, i: int)
    requires
        entries_fit(rows, root, entries),
        0 <= i < rows.len(),
        rows[i].root@ == root,
        rows[i].status != 3,
    ensures
        exists|k: int|
            0 <= k < entries.len() && (#[trigger] entries[k]).rel_path == rows[i].rel_path && entries[k] == entry_in(rows[i]),
{
    let pos = choose|pos: Seq<int>|
        #[trigger] is_listing(pos, live(rows, root), tie_by_position(rows_by_path(rows))) && entries == cells(rows, pos);
    assert(live(rows, root)(i));
    assert(pos.contains(i));
    let k = choose|k: int| 0 <= k < pos.len() && pos[k] == i;
    assert(entries[k].rel_path == rows[i].rel_path);
}

/// Everything that is listed of a folder is a row of it that is not missing,
/// and the list goes by path.
pub proof fn listed_rows_are_live(rows: Seq<PhotoRow>, root: Seq<char>, entries: Seq<PhotoEntry>, a: int, b: int)
    requires
        entries_fit(rows, root, entries),
        0 <= a <= b < entries.len(),
    ensures
        exists|i: int|
            0 <= i < rows.len() && (#[trigger] rows[i]).root@ == root && rows[i].status != 3 && entries[a] == entry_in(rows[i]),
        a < b ==> path_le(entries[a].rel_path@, entries[b].rel_path@),
        entries.len() <= rows.len(),
{
    let pos = choose|pos: Seq<int>|
        #[trigger] is_listing(pos, live(rows, root), tie_by_position(rows_by_path(rows))) && entries == cells(rows, pos);
    assert(pos.contains(pos[a]) && pos.contains(pos[b]));
    assert(live(rows, root)(pos[a]) && live(rows, root)(pos[b]));
    assert(rows[pos[a]].root@ == root);
    if a < b {
        assert(tie_by_position(rows_by_path(rows))(pos[a], pos[b]));
    }
    assert(pos.len() <= rows.len()) by {
        let all = vstd::set_lib::set_int_range(0, rows.len() as int);
        vstd::set_lib::lemma_int_range(0, rows.len() as int);
        assert(pos.to_set().subset_of(all)) by {
            assert forall|x: int| pos.to_set().contains(x) implies all.contains(x) by {
                assert(pos.contains(x));
                assert(live(rows, root)(x));
            }
        }
        pos.unique_seq_to_set();
        vstd::set_lib::lemma_len_subset(pos.to_set(), all);
    }
}

/// A scan is refused exactly where it names a file twice that has no row yet.
pub proof fn repeated_new_files_are_refused(rows: Seq<PhotoRow>, root: Seq<char>, scanned: Seq<PhotoMeta>, k: int)
    requires
        0 <= k < scanned.len(),
    ensures
        repeats_new_file(rows, root, scanned, k) <==> {
            &&& forall|i: int|
                0 <= i < rows.len() ==> !((#[trigger] rows[i]).root@ == root && components(rows[i].rel_path@) == components(
                    scanned[k].rel_path@,
                ))
            &&& exists|j: int|
                0 <= j < k && components((#[trigger] scanned[j]).rel_path@) == components(scanned[k].rel_path@)
        },
{
    if repeats_new_file(rows, root, scanned, k) {
        assert forall|i: int| 0 <= i < rows.len() implies !((#[trigger] rows[i]).root@ == root && components(rows[i].rel_path@)
            == components(scanned[k].rel_path@)) by {
            assert(!is_row_of(rows, root, scanned[k].rel_path@, i));
        }
    }
}

/// A sync adds one row for each file without one, and takes none away; the
/// new rows take the next numbers.
pub proof fn syncs_add_a_row_for_each_new_file(
    rows: Seq<PhotoRow>,
    next_id: int,
    root: String,
    scanned: Seq<PhotoMeta>,
    options: ScanOptions,
    plan: SyncPlan,
)
    requires
        plan_fits(rows, root@, scanned, options, plan),
    ensures
        synced(rows, next_id, root, scanned, plan).len() == rows.len() + Set::new(
            |k: int| 0 <= k < scanned.len() && !has_row(rows, root@, scanned[k]),
        ).len(),
        inserts(plan.steps@, scanned.len() as int) == synced(rows, next_id, root, scanned, plan).len() - rows.len(),
{
    let n = scanned.len() as int;
    assert(steps_fit(rows, root@, scanned, plan.steps@));
    lemma_after_steps(rows, next_id, root, scanned, plan.steps@, n);
    lemma_inserts_counted(rows, root@, scanned, plan.steps@, n);
}

proof fn lemma_inserts_counted(rows: Seq<PhotoRow>, root: Seq<char>, scanned: Seq<PhotoMeta>, steps: Seq<SyncStep>, k: int)
    requires
        steps_fit(rows, root, scanned, steps),
        0 <= k <= scanned.len(),
    ensures
        inserts(steps, k) == Set::new(|j: int| 0 <= j < k && !has_row(rows, root, scanned[j])).len(),
        Set::new(|j: int| 0 <= j < k && !has_row(rows, root, scanned[j])).finite(),
    decreases k,
{
    let fresh = Set::new(|j: int| 0 <= j < k && !has_row(rows, root, scanned[j]));
    if k == 0 {
        assert(fresh =~= Set::<int>::empty());
    } else {
        lemma_inserts_counted(rows, root, scanned, steps, k - 1);
        let before = Set::new(|j: int| 0 <= j < k - 1 && !has_row(rows, root, scanned[j]));
        assert(step_fits(rows, root, scanned[k - 1], steps[k - 1]));
        match steps[k - 1] {
            SyncStep::Insert => {},
            SyncStep::Refresh(i) => assert(is_row_of(rows, root, scanned[k - 1].rel_path@, i as int)),
            SyncStep::Retag(i) => assert(is_row_of(rows, root, scanned[k - 1].rel_path@, i as int)),
            SyncStep::Keep(i) => assert(is_row_of(rows, root, scanned[k - 1].rel_path@, i as int)),
        }
        if has_row(rows, root, scanned[k - 1]) {
            assert(fresh =~= before);
        } else {
            assert(fresh =~= before.insert(k - 1));
        }
    }
}

/// A row is that of a file if it is of the folder and its path has the same
/// components.
pub proof fn rows_are_found_by_folder_and_path(rows: Seq<PhotoRow>, root: Seq<char>, meta: PhotoMeta, i: int)
    requires
        0 <= i < rows.len(),
    ensures
        is_row_of(rows, root, meta.rel_path@, i) <==> rows[i].root@ == root && components(rows[i].rel_path@) == components(
            meta.rel_path@,
        ),
        rows[i].root@ == root && components(rows[i].rel_path@) == components(meta.rel_path@) ==> has_row(rows, root, meta),
{
    if rows[i].root@ == root && components(rows[i].rel_path@) == components(meta.rel_path@) {
        assert(is_row_of(rows, root, meta.rel_path@, i));
    }
}

/// Labels and states are listed in the order of their numbers.
pub proof fn labels_are_listed_by_number(i: int)
    ensures
        0 <= i < 6 ==> label_code(Label::ALL@[i]) == i,
        0 <= i < 4 ==> status_code(PhotoStatus::ALL@[i]) == i,
{
}

} // verus!
