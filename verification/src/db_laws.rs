//! What the index promises across operations.

use vstd::prelude::*;

use crate::columns::{
    detail_in, entry_in, fresh_row, narrowed, path_in, reset_row, status_in, stored_time, text_in,
    widened, PhotoRow,
};
use crate::db::{
    after_steps, all_labeled, all_rotated, any_root, cells, entries_fit, failed_fit,
    failed_row_fits, files_distinct, first_paths, first_with_id, has_room, has_row, ids_distinct,
    inserted_at, inserts, is_row_of, labeled, lemma_after_steps, live, marked_missing, new_files,
    plan_fits, recent_fit, repeats_new_file, retagged_row, root_touched, roots_by_recency, rotated,
    rows_by_path, same_identity, seen, setting, setting_stored, step_fits, steps_fit, synced,
    vanished, vanished_in, with_ingest, Db, KvRow, RootRow, SyncPlan, SyncStep,
};
use crate::model::{
    IngestInfo, Label, PhotoEntry, PhotoId, PhotoMeta, PhotoStatus, ScanOptions,
};
use crate::order::{ints, is_listing, listing_is_unique, tie_by_position};
use crate::path::{components, nested, path_le};
use crate::row_laws::settings_read_their_row;
use crate::scanner::lossy_text;

verus! {

/// A scan that names a file twice says the same of it both times.
pub open spec fn consistent_scan(scanned: Seq<PhotoMeta>) -> bool {
    forall|i: int, j: int|
        0 <= i < j < scanned.len() && components((#[trigger] scanned[i]).rel_path@) == components(
            (#[trigger] scanned[j]).rel_path@,
        ) ==> {
            &&& scanned[i].mtime == scanned[j].mtime
            &&& scanned[i].size == scanned[j].size
            &&& scanned[i].jpeg_rel_path == scanned[j].jpeg_rel_path
        }
}

/// Sizes that the index stores unclamped.
pub open spec fn sizes_stored(scanned: Seq<PhotoMeta>) -> bool {
    forall|k: int| 0 <= k < scanned.len() ==> (#[trigger] scanned[k]).size <= i64::MAX
}

/// The step is about row `i`.
pub open spec fn targets(step: SyncStep, i: int) -> bool {
    match step {
        SyncStep::Insert => false,
        SyncStep::Refresh(x) => x == i,
        SyncStep::Retag(x) => x == i,
        SyncStep::Keep(x) => x == i,
    }
}

/// What a step makes of the row it is about.
pub open spec fn outcome(row: PhotoRow, meta: PhotoMeta, step: SyncStep) -> PhotoRow {
    match step {
        SyncStep::Insert => row,
        SyncStep::Refresh(_) => reset_row(row, meta),
        SyncStep::Retag(_) => retagged_row(row, meta),
        SyncStep::Keep(_) => row,
    }
}

proof fn lemma_untouched(
    rows: Seq<PhotoRow>,
    next_id: int,
    root: String,
    scanned: Seq<PhotoMeta>,
    steps: Seq<SyncStep>,
    k: int,
    i: int,
)
    requires
        steps_fit(rows, root@, scanned, steps),
        0 <= k <= scanned.len(),
        0 <= i < rows.len(),
        forall|j: int| 0 <= j < k ==> !targets(#[trigger] steps[j], i),
    ensures
        after_steps(rows, next_id, root, scanned, steps, k)[i] == rows[i],
    decreases k,
{
    if k > 0 {
        lemma_untouched(rows, next_id, root, scanned, steps, k - 1, i);
        lemma_after_steps(rows, next_id, root, scanned, steps, k - 1);
        assert(step_fits(rows, root@, scanned[k - 1], steps[k - 1]));
        assert(!targets(steps[k - 1], i));
    }
}

proof fn lemma_pointwise(
    rows: Seq<PhotoRow>,
    next_id: int,
    root: String,
    scanned: Seq<PhotoMeta>,
    steps: Seq<SyncStep>,
    k: int,
    i: int,
)
    requires
        steps_fit(rows, root@, scanned, steps),
        consistent_scan(scanned),
        0 <= k <= scanned.len(),
        0 <= i < rows.len(),
    ensures
        forall|j: int|
            0 <= j < k && targets(#[trigger] steps[j], i) ==> after_steps(rows, next_id, root, scanned, steps, k)[i]
                == outcome(rows[i], scanned[j], steps[j]),
    decreases k,
{
    if k > 0 {
        lemma_pointwise(rows, next_id, root, scanned, steps, k - 1, i);
        lemma_after_steps(rows, next_id, root, scanned, steps, k - 1);
        let before = after_steps(rows, next_id, root, scanned, steps, k - 1);
        let after = after_steps(rows, next_id, root, scanned, steps, k);
        assert(step_fits(rows, root@, scanned[k - 1], steps[k - 1]));
        assert forall|j: int| 0 <= j < k && targets(#[trigger] steps[j], i) implies after[i] == outcome(
            rows[i],
            scanned[j],
            steps[j],
        ) by {
            assert(step_fits(rows, root@, scanned[j], steps[j]));
            if !targets(steps[k - 1], i) {
                assert(after[i] == before[i]);
            } else if j < k - 1 {
                assert(components(scanned[j].rel_path@) == components(scanned[k - 1].rel_path@));
                assert(before[i] == outcome(rows[i], scanned[j], steps[j]));
            } else if exists|m: int| 0 <= m < k - 1 && targets(#[trigger] steps[m], i) {
                let m = choose|m: int| 0 <= m < k - 1 && targets(#[trigger] steps[m], i);
                assert(step_fits(rows, root@, scanned[m], steps[m]));
                assert(components(scanned[m].rel_path@) == components(scanned[k - 1].rel_path@));
                assert(before[i] == outcome(rows[i], scanned[m], steps[m]));
            } else {
                lemma_untouched(rows, next_id, root, scanned, steps, k - 1, i);
            }
        }
    }
}

proof fn lemma_targets_are_live(
    rows: Seq<PhotoRow>,
    next_id: int,
    root: String,
    scanned: Seq<PhotoMeta>,
    steps: Seq<SyncStep>,
    k: int,
    i: int,
)
    requires
        steps_fit(rows, root@, scanned, steps),
        0 <= k <= scanned.len(),
        0 <= i < rows.len(),
        exists|j: int| 0 <= j < k && targets(#[trigger] steps[j], i),
    ensures
        after_steps(rows, next_id, root, scanned, steps, k)[i].status != 3,
    decreases k,
{
    lemma_after_steps(rows, next_id, root, scanned, steps, k - 1);
    assert(step_fits(rows, root@, scanned[k - 1], steps[k - 1]));
    if exists|j: int| 0 <= j < k - 1 && targets(#[trigger] steps[j], i) {
        lemma_targets_are_live(rows, next_id, root, scanned, steps, k - 1, i);
    } else {
        lemma_untouched(rows, next_id, root, scanned, steps, k - 1, i);
    }
}

/// The row of the scanned file `k` after the sync: it exists, is not marked
/// missing, agrees with the scan, and is as `outcome` says or fresh.
proof fn lemma_scanned_row(
    rows: Seq<PhotoRow>,
    next_id: int,
    root: String,
    scanned: Seq<PhotoMeta>,
    options: ScanOptions,
    plan: SyncPlan,
    k: int,
) -> (i: int)
    requires
        plan_fits(rows, root@, scanned, options, plan),
        consistent_scan(scanned),
        0 <= k < scanned.len(),
    ensures
        ({
            let out = synced(rows, next_id, root, scanned, plan);
            &&& is_row_of(out, root@, scanned[k].rel_path@, i)
            &&& match plan.steps@[k] {
                SyncStep::Insert => i >= rows.len() && out[i] == fresh_row(
                    (next_id + inserts(plan.steps@, k)) as i64,
                    root,
                    scanned[k],
                ),
                _ => targets(plan.steps@[k], i) && 0 <= i < rows.len() && out[i] == outcome(
                    rows[i],
                    scanned[k],
                    plan.steps@[k],
                ),
            }
        }),
{
    let n = scanned.len() as int;
    let steps = plan.steps@;
    let out = synced(rows, next_id, root, scanned, plan);
    assert(steps_fit(rows, root@, scanned, steps));
    lemma_after_steps(rows, next_id, root, scanned, steps, n);
    assert(step_fits(rows, root@, scanned[k], steps[k]));
    match steps[k] {
        SyncStep::Insert => {
            let i = rows.len() + inserts(steps, k);
            lemma_missing_are_vanished(rows, root@, scanned, options, plan, i);
            i
        },
        SyncStep::Refresh(x) => {
            lemma_pointwise(rows, next_id, root, scanned, steps, n, x as int);
            lemma_missing_are_vanished(rows, root@, scanned, options, plan, x as int);
            assert(targets(steps[k], x as int));
            x as int
        },
        SyncStep::Retag(x) => {
            lemma_pointwise(rows, next_id, root, scanned, steps, n, x as int);
            lemma_missing_are_vanished(rows, root@, scanned, options, plan, x as int);
            assert(targets(steps[k], x as int));
            x as int
        },
        SyncStep::Keep(x) => {
            lemma_pointwise(rows, next_id, root, scanned, steps, n, x as int);
            lemma_missing_are_vanished(rows, root@, scanned, options, plan, x as int);
            assert(targets(steps[k], x as int));
            x as int
        },
    }
}

pub proof fn lemma_missing_are_vanished(
    rows: Seq<PhotoRow>,
    root: Seq<char>,
    scanned: Seq<PhotoMeta>,
    options: ScanOptions,
    plan: SyncPlan,
    i: int,
)
    requires
        plan_fits(rows, root, scanned, options, plan),
    ensures
        ints(plan.missing@).contains(i) <==> vanished(rows, root, scanned, options, i),
{
    assert(vanished_in(rows, root, scanned, options)(i) == vanished(rows, root, scanned, options, i));
}

/// Syncing never touches a row's number, path, label or rotation: what the
/// user put on a photo outlives every change of its file.
pub proof fn sync_keeps_ids_labels_and_rotations(
    rows: Seq<PhotoRow>,
    next_id: int,
    root: String,
    scanned: Seq<PhotoMeta>,
    options: ScanOptions,
    plan: SyncPlan,
    i: int,
)
    requires
        plan_fits(rows, root@, scanned, options, plan),
        0 <= i < rows.len(),
    ensures
        synced(rows, next_id, root, scanned, plan).len() >= rows.len(),
        same_identity(rows[i], synced(rows, next_id, root, scanned, plan)[i]),
{
    assert(steps_fit(rows, root@, scanned, plan.steps@));
    lemma_after_steps(rows, next_id, root, scanned, plan.steps@, scanned.len() as int);
    let mid = after_steps(rows, next_id, root, scanned, plan.steps@, scanned.len() as int);
    assert(same_identity(rows[i], mid[i]));
}

/// Rows of other folders are left alone.
pub proof fn sync_spares_other_folders(
    rows: Seq<PhotoRow>,
    next_id: int,
    root: String,
    scanned: Seq<PhotoMeta>,
    options: ScanOptions,
    plan: SyncPlan,
    i: int,
)
    requires
        plan_fits(rows, root@, scanned, options, plan),
        0 <= i < rows.len(),
        rows[i].root@ != root@,
    ensures
        synced(rows, next_id, root, scanned, plan)[i] == rows[i],
{
    assert(steps_fit(rows, root@, scanned, plan.steps@));
    lemma_after_steps(rows, next_id, root, scanned, plan.steps@, scanned.len() as int);
    assert forall|j: int| 0 <= j < scanned.len() implies !targets(#[trigger] plan.steps@[j], i) by {
        assert(step_fits(rows, root@, scanned[j], plan.steps@[j]));
    }
    lemma_untouched(rows, next_id, root, scanned, plan.steps@, scanned.len() as int, i);
    lemma_missing_are_vanished(rows, root@, scanned, options, plan, i);
}

/// A row whose file the scan reached and did not see is missing afterwards,
/// without a message, and otherwise as it was; a scan of the top level alone
/// leaves subfolder rows as they were.
pub proof fn shallow_sync_spares_subfolders(
    rows: Seq<PhotoRow>,
    next_id: int,
    root: String,
    scanned: Seq<PhotoMeta>,
    options: ScanOptions,
    plan: SyncPlan,
    i: int,
)
    requires
        plan_fits(rows, root@, scanned, options, plan),
        0 <= i < rows.len(),
        rows[i].root@ == root@,
        !seen(scanned, rows[i].rel_path@),
    ensures
        ({
            let after = synced(rows, next_id, root, scanned, plan)[i];
            if (options.recursive || !nested(rows[i].rel_path@)) && status_in(rows[i].status) != PhotoStatus::Missing {
                &&& after == (PhotoRow { status: 3, err_msg: None, ..rows[i] })
                &&& status_in(after.status) == PhotoStatus::Missing
            } else {
                after == rows[i]
            }
        }),
{
    assert(steps_fit(rows, root@, scanned, plan.steps@));
    lemma_after_steps(rows, next_id, root, scanned, plan.steps@, scanned.len() as int);
    assert forall|j: int| 0 <= j < scanned.len() implies !targets(#[trigger] plan.steps@[j], i) by {
        assert(step_fits(rows, root@, scanned[j], plan.steps@[j]));
    }
    lemma_untouched(rows, next_id, root, scanned, plan.steps@, scanned.len() as int, i);
    lemma_missing_are_vanished(rows, root@, scanned, options, plan, i);
}

/// What becomes of the row of a file that the scan saw: a changed file, or
/// one that had been missing, is pending again with nothing extracted; an
/// unchanged one keeps everything but a companion JPEG that came or went.
pub proof fn seen_rows_follow_the_file(
    rows: Seq<PhotoRow>,
    next_id: int,
    root: String,
    scanned: Seq<PhotoMeta>,
    options: ScanOptions,
    plan: SyncPlan,
    i: int,
    k: int,
)
    requires
        plan_fits(rows, root@, scanned, options, plan),
        files_distinct(rows),
        consistent_scan(scanned),
        0 <= k < scanned.len(),
        is_row_of(rows, root@, scanned[k].rel_path@, i),
    ensures
        ({
            let after = synced(rows, next_id, root, scanned, plan)[i];
            if rows[i].is_stale(stored_time(scanned[k].mtime), scanned[k].size) {
                &&& after == reset_row(rows[i], scanned[k])
                &&& status_in(after.status) == PhotoStatus::Pending
            } else if path_in(rows[i].jpeg_rel_path) != path_in(scanned[k].jpeg_rel_path) {
                after == retagged_row(rows[i], scanned[k])
            } else {
                after == rows[i]
            }
        }),
{
    let at = lemma_scanned_row(rows, next_id, root, scanned, options, plan, k);
    assert(step_fits(rows, root@, scanned[k], plan.steps@[k]));
    if plan.steps@[k] != SyncStep::Insert && at != i {
        assert(is_row_of(rows, root@, scanned[k].rel_path@, at));
        if at < i {
            assert(!(rows[at].root@ == rows[i].root@ && components(rows[at].rel_path@) == components(
                rows[i].rel_path@,
            )));
        } else {
            assert(!(rows[i].root@ == rows[at].root@ && components(rows[i].rel_path@) == components(
                rows[at].rel_path@,
            )));
        }
    }
}

/// Both rows are about the same file as the scan left it, and both are live or
/// both are missing.
pub open spec fn same_file_state(a: PhotoRow, b: PhotoRow) -> bool {
    &&& a.id == b.id
    &&& a.root == b.root
    &&& a.rel_path == b.rel_path
    &&& a.mtime == b.mtime
    &&& a.size == b.size
    &&& a.jpeg_rel_path == b.jpeg_rel_path
    &&& (a.status == 3) == (b.status == 3)
}

/// Nothing changed that a scan compares.
pub open spec fn undisturbed(before: Seq<PhotoRow>, after: Seq<PhotoRow>) -> bool {
    &&& after.len() == before.len()
    &&& forall|i: int| 0 <= i < before.len() ==> same_file_state(before[i], #[trigger] after[i])
}

/// No row of this number is missing.
pub open spec fn live_id(rows: Seq<PhotoRow>, id: i64) -> bool {
    forall|i: int| 0 <= i < rows.len() && (#[trigger] rows[i]).id == id ==> rows[i].status != 3
}

/// The rows after a label, a turn, or the result of an extraction was stored;
/// results only of photos that are not missing.
pub open spec fn marked_or_extracted(before: Seq<PhotoRow>, after: Seq<PhotoRow>) -> bool {
    ||| exists|id: i64, label: Label| after == #[trigger] labeled(before, id, label)
    ||| exists|ids: Seq<PhotoId>, label: Label| after == #[trigger] all_labeled(before, ids, label)
    ||| exists|id: i64, turns: u8| after == #[trigger] rotated(before, id, turns)
    ||| exists|updates: Seq<(PhotoId, u8)>| after == #[trigger] all_rotated(before, updates)
    ||| exists|id: i64, info: IngestInfo, now: i64|
        live_id(before, id) && after == #[trigger] with_ingest(before, id, info, now)
    ||| exists|id: i64, message: Seq<char>| live_id(before, id) && #[trigger] failed_fit(before, id, message, after)
}

proof fn lemma_turns_are_undisturbing(rows: Seq<PhotoRow>, updates: Seq<(PhotoId, u8)>)
    ensures
        undisturbed(rows, all_rotated(rows, updates)),
    decreases updates.len(),
{
    if updates.len() > 0 {
        lemma_turns_are_undisturbing(rows, updates.drop_last());
        let before = all_rotated(rows, updates.drop_last());
        let after = all_rotated(rows, updates);
        assert forall|i: int| 0 <= i < rows.len() implies same_file_state(rows[i], #[trigger] after[i]) by {
            assert(same_file_state(rows[i], before[i]));
        }
    }
}

/// Labels, turns and the results of extractions do not disturb what a scan
/// compares.
pub proof fn marks_and_results_do_not_disturb(before: Seq<PhotoRow>, after: Seq<PhotoRow>)
    requires
        marked_or_extracted(before, after),
    ensures
        undisturbed(before, after),
{
    if exists|updates: Seq<(PhotoId, u8)>| after == #[trigger] all_rotated(before, updates) {
        let updates = choose|updates: Seq<(PhotoId, u8)>| after == #[trigger] all_rotated(before, updates);
        lemma_turns_are_undisturbing(before, updates);
    } else {
        assert forall|i: int| 0 <= i < before.len() implies same_file_state(before[i], #[trigger] after[i]) by {}
    }
}

/// The rows went through a series of labels, turns and results of extractions.
pub open spec fn marked_since(history: Seq<Seq<PhotoRow>>, first: Seq<PhotoRow>, last: Seq<PhotoRow>) -> bool {
    &&& history.len() > 0
    &&& history[0] == first
    &&& history.last() == last
    &&& forall|j: int| 0 < j < history.len() ==> marked_or_extracted(history[j - 1], #[trigger] history[j])
}

proof fn lemma_history_is_undisturbing(history: Seq<Seq<PhotoRow>>, first: Seq<PhotoRow>, last: Seq<PhotoRow>)
    requires
        marked_since(history, first, last),
    ensures
        undisturbed(first, last),
    decreases history.len(),
{
    let n = history.len() - 1;
    if n > 0 {
        let earlier = history.drop_last();
        let middle = earlier.last();
        assert forall|j: int| 0 < j < earlier.len() implies marked_or_extracted(
            earlier[j - 1],
            #[trigger] earlier[j],
        ) by {
            assert(marked_or_extracted(history[j - 1], history[j]));
        }
        lemma_history_is_undisturbing(earlier, first, middle);
        assert(marked_or_extracted(history[n - 1], history[n]));
        marks_and_results_do_not_disturb(middle, last);
        assert forall|i: int| 0 <= i < first.len() implies same_file_state(first[i], #[trigger] last[i]) by {
            assert(same_file_state(first[i], middle[i]));
        }
    }
}

/// Two scans met the same files in the same order, unchanged.
pub open spec fn same_scan(a: Seq<PhotoMeta>, b: Seq<PhotoMeta>) -> bool {
    &&& a.len() == b.len()
    &&& forall|k: int| 0 <= k < a.len() ==> same_find(#[trigger] a[k], b[k])
}

/// Both describe the same file in the same state.
pub open spec fn same_find(a: PhotoMeta, b: PhotoMeta) -> bool {
    &&& components(a.rel_path@) == components(b.rel_path@)
    &&& a.mtime == b.mtime
    &&& a.size == b.size
    &&& path_in(a.jpeg_rel_path) == path_in(b.jpeg_rel_path)
}

/// A scan of an unchanged folder is never refused, and needs no row numbers:
/// every file has its row, whatever labels, turns and results of extractions
/// were stored since the scan before.
pub proof fn rescans_need_no_room(
    rows: Seq<PhotoRow>,
    next_id: int,
    root: String,
    scanned: Seq<PhotoMeta>,
    options: ScanOptions,
    plan: SyncPlan,
    history: Seq<Seq<PhotoRow>>,
    now: Seq<PhotoRow>,
    next_now: i64,
    second: Seq<PhotoMeta>,
)
    requires
        plan_fits(rows, root@, scanned, options, plan),
        marked_since(history, synced(rows, next_id, root, scanned, plan), now),
        same_scan(scanned, second),
    ensures
        forall|k: int| !repeats_new_file(now, root@, second, k),
        new_files(now, root@, second, second.len() as int) == 0,
        has_room(next_now, now, root@, second),
{
    let out = synced(rows, next_id, root, scanned, plan);
    lemma_history_is_undisturbing(history, out, now);
    assert forall|k: int| 0 <= k < second.len() implies has_row(now, root@, #[trigger] second[k]) by {
        every_scanned_file_is_live(rows, next_id, root, scanned, options, plan, k);
        let i = choose|i: int| #[trigger] is_row_of(out, root@, scanned[k].rel_path@, i) && live(out, root@)(i);
        assert(same_find(scanned[k], second[k]));
        assert(same_file_state(out[i], now[i]));
        assert(is_row_of(now, root@, second[k].rel_path@, i));
    }
    assert forall|k: int| !repeats_new_file(now, root@, second, k) by {
        if 0 <= k < second.len() {
            assert(has_row(now, root@, second[k]));
            let i = choose|i: int| is_row_of(now, root@, second[k].rel_path@, i);
            assert(is_row_of(now, root@, second[k].rel_path@, i));
        }
    }
    lemma_no_new_files(now, root@, second, second.len() as int);
}

proof fn lemma_no_new_files(rows: Seq<PhotoRow>, root: Seq<char>, scanned: Seq<PhotoMeta>, k: int)
    requires
        0 <= k <= scanned.len(),
        forall|j: int| 0 <= j < scanned.len() ==> has_row(rows, root, #[trigger] scanned[j]),
    ensures
        new_files(rows, root, scanned, k) == 0,
    decreases k,
{
    if k > 0 {
        lemma_no_new_files(rows, root, scanned, k - 1);
        assert(has_row(rows, root, scanned[k - 1]));
    }
}

/// `again` keeps every row: it adds none, changes none and marks none missing.
pub open spec fn keeps_everything(rows: Seq<PhotoRow>, root: String, scanned: Seq<PhotoMeta>, again: SyncPlan) -> bool {
    &&& forall|k: int| 0 <= k < scanned.len() ==> (#[trigger] again.steps@[k]) is Keep
    &&& again.missing@.len() == 0
    &&& inserts(again.steps@, scanned.len() as int) == 0
    &&& forall|next: int| #[trigger] synced(rows, next, root, scanned, again) == rows
}

proof fn lemma_rescan_keeps_everything(
    rows: Seq<PhotoRow>,
    next_id: int,
    root: String,
    scanned: Seq<PhotoMeta>,
    options: ScanOptions,
    plan: SyncPlan,
    now: Seq<PhotoRow>,
    second: Seq<PhotoMeta>,
    again: SyncPlan,
)
    requires
        files_distinct(synced(rows, next_id, root, scanned, plan)),
        consistent_scan(scanned),
        sizes_stored(scanned),
        plan_fits(rows, root@, scanned, options, plan),
        undisturbed(synced(rows, next_id, root, scanned, plan), now),
        same_scan(scanned, second),
        plan_fits(now, root@, second, options, again),
    ensures
        keeps_everything(now, root, second, again),
{
    let out = synced(rows, next_id, root, scanned, plan);
    let n = scanned.len() as int;
    assert(steps_fit(rows, root@, scanned, plan.steps@));
    lemma_after_steps(rows, next_id, root, scanned, plan.steps@, n);
    assert forall|k: int| 0 <= k < n implies (#[trigger] again.steps@[k]) is Keep by {
        let i = lemma_scanned_row(rows, next_id, root, scanned, options, plan, k);
        assert(same_find(scanned[k], second[k]));
        assert(step_fits(rows, root@, scanned[k], plan.steps@[k]));
        assert(step_fits(now, root@, second[k], again.steps@[k]));
        assert(widened(narrowed(scanned[k].size as int)) == scanned[k].size);
        assert(!out[i].is_stale(stored_time(scanned[k].mtime), scanned[k].size));
        assert(path_in(out[i].jpeg_rel_path) == path_in(scanned[k].jpeg_rel_path));
        assert(same_file_state(out[i], now[i]));
        assert(!now[i].is_stale(stored_time(second[k].mtime), second[k].size));
        assert(is_row_of(now, root@, second[k].rel_path@, i));
        assert forall|x: int| is_row_of(now, root@, second[k].rel_path@, x) implies x == i by {
            assert(same_file_state(out[x], now[x]));
            if x < i {
                assert(!(out[x].root@ == out[i].root@ && components(out[x].rel_path@) == components(out[i].rel_path@)));
            } else if i < x {
                assert(!(out[i].root@ == out[x].root@ && components(out[i].rel_path@) == components(out[x].rel_path@)));
            }
        }
    }
    if again.missing@.len() > 0 {
        let i = again.missing@[0] as int;
        assert(ints(again.missing@)[0] == i);
        assert(ints(again.missing@).contains(i));
        lemma_missing_are_vanished(now, root@, second, options, again, i);
        assert(same_file_state(out[i], now[i]));
        if seen(scanned, out[i].rel_path@) {
            let j = choose|j: int|
                0 <= j < n && components((#[trigger] scanned[j]).rel_path@) == components(out[i].rel_path@);
            assert(same_find(scanned[j], second[j]));
            assert(components(second[j].rel_path@) == components(now[i].rel_path@));
            assert(seen(second, now[i].rel_path@));
        }
        if i < rows.len() {
            assert(same_identity(rows[i], after_steps(rows, next_id, root, scanned, plan.steps@, n)[i]));
            shallow_sync_spares_subfolders(rows, next_id, root, scanned, options, plan, i);
        } else {
            assert(inserted_at(plan.steps@, n, i - rows.len()));
            let j = choose|j: int|
                0 <= j < n && #[trigger] plan.steps@[j] == SyncStep::Insert && inserts(plan.steps@, j) == i
                    - rows.len();
            assert(plan.steps@[j] == SyncStep::Insert);
            assert(scanned[j].rel_path@ == out[i].rel_path@);
            assert(seen(scanned, out[i].rel_path@));
        }
    }
    lemma_keeping_is_nothing(now, next_id, root, second, again.steps@, n);
    assert forall|next: int| #[trigger] synced(now, next, root, second, again) == now by {
        lemma_keeping_is_nothing(now, next, root, second, again.steps@, n);
        assert(marked_missing(now, again.missing@) =~= now) by {
            assert(ints(again.missing@).len() == 0);
        }
    }
}

/// Scanning an unchanged folder again changes nothing: every file is kept as
/// it is, no row is added and none is marked missing.
pub proof fn resync_changes_nothing(
    rows: Seq<PhotoRow>,
    next_id: int,
    root: String,
    scanned: Seq<PhotoMeta>,
    options: ScanOptions,
    plan: SyncPlan,
    again: SyncPlan,
)
    requires
        files_distinct(synced(rows, next_id, root, scanned, plan)),
        consistent_scan(scanned),
        sizes_stored(scanned),
        plan_fits(rows, root@, scanned, options, plan),
        plan_fits(synced(rows, next_id, root, scanned, plan), root@, scanned, options, again),
    ensures
        keeps_everything(synced(rows, next_id, root, scanned, plan), root, scanned, again),
{
    let out = synced(rows, next_id, root, scanned, plan);
    lemma_rescan_keeps_everything(rows, next_id, root, scanned, options, plan, out, scanned, again);
}

/// Whatever labels, turns and results of extractions were stored since a scan,
/// scanning the unchanged folder again adds no row, changes none and marks none
/// missing. It lists the same photos in the same order, each as it stood just
/// before.
pub proof fn rescans_find_every_photo(
    rows: Seq<PhotoRow>,
    next_id: int,
    root: String,
    scanned: Seq<PhotoMeta>,
    options: ScanOptions,
    plan: SyncPlan,
    history: Seq<Seq<PhotoRow>>,
    now: Seq<PhotoRow>,
    next_now: i64,
    second: Seq<PhotoMeta>,
    again: SyncPlan,
    a: Seq<PhotoEntry>,
    b: Seq<PhotoEntry>,
)
    requires
        files_distinct(synced(rows, next_id, root, scanned, plan)),
        consistent_scan(scanned),
        sizes_stored(scanned),
        plan_fits(rows, root@, scanned, options, plan),
        entries_fit(synced(rows, next_id, root, scanned, plan), root@, a),
        marked_since(history, synced(rows, next_id, root, scanned, plan), now),
        ids_distinct(now, next_now),
        same_scan(scanned, second),
        plan_fits(now, root@, second, options, again),
        entries_fit(synced(now, next_now as int, root, second, again), root@, b),
    ensures
        keeps_everything(now, root, second, again),
        a.len() == b.len(),
        forall|k: int| 0 <= k < a.len() ==> (#[trigger] b[k]).id == a[k].id && b[k].rel_path == a[k].rel_path,
        forall|k: int| 0 <= k < b.len() ==> reads_as(now, #[trigger] b[k]),
{
    let out = synced(rows, next_id, root, scanned, plan);
    lemma_history_is_undisturbing(history, out, now);
    lemma_rescan_keeps_everything(rows, next_id, root, scanned, options, plan, now, second, again);
    assert(synced(now, next_now as int, root, second, again) == now);
    let le = rows_by_path(now);
    let p = choose|pos: Seq<int>|
        #[trigger] is_listing(pos, live(out, root@), tie_by_position(rows_by_path(out))) && a == cells(out, pos);
    let q = choose|pos: Seq<int>|
        #[trigger] is_listing(pos, live(now, root@), tie_by_position(le)) && b == cells(now, pos);
    assert(is_listing(p, live(now, root@), tie_by_position(le))) by {
        assert forall|x: int| #[trigger] p.contains(x) <==> live(now, root@)(x) by {
            if 0 <= x < out.len() {
                assert(same_file_state(out[x], now[x]));
            }
            assert(p.contains(x) <==> live(out, root@)(x));
        }
        assert forall|i: int, j: int| 0 <= i < j < p.len() implies tie_by_position(le)(
            #[trigger] p[i],
            #[trigger] p[j],
        ) by {
            assert(p.contains(p[i]) && p.contains(p[j]));
            assert(live(out, root@)(p[i]) && live(out, root@)(p[j]));
            assert(same_file_state(out[p[i]], now[p[i]]));
            assert(same_file_state(out[p[j]], now[p[j]]));
            assert(tie_by_position(rows_by_path(out))(p[i], p[j]));
        }
    }
    listing_is_unique(p, q, live(now, root@), le);
    assert forall|k: int| 0 <= k < a.len() implies (#[trigger] b[k]).id == a[k].id && b[k].rel_path == a[k].rel_path by {
        assert(p.contains(p[k]));
        assert(live(out, root@)(p[k]));
        assert(same_file_state(out[p[k]], now[p[k]]));
    }
    assert forall|k: int| 0 <= k < b.len() implies reads_as(now, #[trigger] b[k]) by {
        let i = q[k];
        assert(q.contains(i));
        assert(live(now, root@)(i));
        assert(b[k] == entry_in(now[i]));
        assert(1 <= now[i].id);
        assert(narrowed(b[k].id.0 as int) == now[i].id);
        assert forall|x: int| 0 <= x < i implies (#[trigger] now[x]).id != now[i].id by {}
        assert(first_with_id(now, narrowed(b[k].id.0 as int), i));
    }
}

/// An entry is what reading the photo of its number gives.
pub open spec fn reads_as(rows: Seq<PhotoRow>, entry: PhotoEntry) -> bool {
    exists|i: int|
        #[trigger] first_with_id(rows, narrowed(entry.id.0 as int), i) && entry == (PhotoEntry {
            id: entry.id,
            ..entry_in(rows[i])
        })
}

/// A name that is no text is stored as its lossy text, and found by it again:
/// of two scans that read the same names the second is not refused, and keeps
/// every row.
pub proof fn odd_names_find_their_rows(
    rows: Seq<PhotoRow>,
    next_id: int,
    root: String,
    names: Seq<Seq<u8>>,
    scanned: Seq<PhotoMeta>,
    options: ScanOptions,
    plan: SyncPlan,
    second: Seq<PhotoMeta>,
    again: SyncPlan,
    next_now: i64,
)
    requires
        files_distinct(synced(rows, next_id, root, scanned, plan)),
        consistent_scan(scanned),
        sizes_stored(scanned),
        plan_fits(rows, root@, scanned, options, plan),
        names.len() == scanned.len() == second.len(),
        forall|k: int|
            0 <= k < names.len() ==> {
                &&& (#[trigger] scanned[k]).rel_path@ == lossy_text(names[k])
                &&& second[k].rel_path@ == lossy_text(names[k])
                &&& second[k].mtime == scanned[k].mtime
                &&& second[k].size == scanned[k].size
                &&& path_in(second[k].jpeg_rel_path) == path_in(scanned[k].jpeg_rel_path)
            },
        plan_fits(synced(rows, next_id, root, scanned, plan), root@, second, options, again),
    ensures
        forall|k: int| !repeats_new_file(synced(rows, next_id, root, scanned, plan), root@, second, k),
        has_room(next_now, synced(rows, next_id, root, scanned, plan), root@, second),
        keeps_everything(synced(rows, next_id, root, scanned, plan), root, second, again),
{
    let out = synced(rows, next_id, root, scanned, plan);
    assert forall|k: int| 0 <= k < scanned.len() implies same_find(#[trigger] scanned[k], second[k]) by {
        assert(scanned[k].rel_path@ == lossy_text(names[k]));
    }
    lemma_rescan_keeps_everything(rows, next_id, root, scanned, options, plan, out, second, again);
    let history = seq![out];
    assert(marked_since(history, out, out));
    rescans_need_no_room(rows, next_id, root, scanned, options, plan, history, out, next_now, second);
}

proof fn lemma_keeping_is_nothing(
    rows: Seq<PhotoRow>,
    next_id: int,
    root: String,
    scanned: Seq<PhotoMeta>,
    steps: Seq<SyncStep>,
    k: int,
)
    requires
        0 <= k <= steps.len(),
        forall|j: int| 0 <= j < steps.len() ==> (#[trigger] steps[j]) is Keep,
    ensures
        after_steps(rows, next_id, root, scanned, steps, k) == rows,
        inserts(steps, k) == 0,
    decreases k,
{
    if k > 0 {
        lemma_keeping_is_nothing(rows, next_id, root, scanned, steps, k - 1);
        assert(steps[k - 1] is Keep);
    }
}

/// Every scanned file is listed after the sync.
pub proof fn every_scanned_file_is_live(
    rows: Seq<PhotoRow>,
    next_id: int,
    root: String,
    scanned: Seq<PhotoMeta>,
    options: ScanOptions,
    plan: SyncPlan,
    k: int,
)
    requires
        plan_fits(rows, root@, scanned, options, plan),
        0 <= k < scanned.len(),
    ensures
        exists|i: int|
            #[trigger] is_row_of(synced(rows, next_id, root, scanned, plan), root@, scanned[k].rel_path@, i) && live(
                synced(rows, next_id, root, scanned, plan),
                root@,
            )(i),
{
    let n = scanned.len() as int;
    let steps = plan.steps@;
    let out = synced(rows, next_id, root, scanned, plan);
    assert(steps_fit(rows, root@, scanned, steps));
    lemma_after_steps(rows, next_id, root, scanned, steps, n);
    assert(step_fits(rows, root@, scanned[k], steps[k]));
    let i = match steps[k] {
        SyncStep::Insert => rows.len() + inserts(steps, k),
        SyncStep::Refresh(x) => x as int,
        SyncStep::Retag(x) => x as int,
        SyncStep::Keep(x) => x as int,
    };
    lemma_missing_are_vanished(rows, root@, scanned, options, plan, i);
    if i < rows.len() {
        assert(targets(steps[k], i));
        lemma_targets_are_live(rows, next_id, root, scanned, steps, n, i);
        assert(same_identity(rows[i], after_steps(rows, next_id, root, scanned, steps, n)[i]));
    }
    assert(is_row_of(out, root@, scanned[k].rel_path@, i));
    assert(out[i].status != 3);
}

/// A listed path, however it is spelled.
pub open spec fn listed(entries: Seq<PhotoEntry>, path: Seq<char>) -> bool {
    exists|a: int| 0 <= a < entries.len() && components((#[trigger] entries[a]).rel_path@) == components(path)
}

/// A path that has a live row.
pub open spec fn has_live_row(rows: Seq<PhotoRow>, root: Seq<char>, path: Seq<char>) -> bool {
    exists|i: int| #[trigger] is_row_of(rows, root, path, i) && rows[i].status != 3
}

/// The listing after a sync comes strictly by path, shows nothing missing, and
/// names exactly the scanned files and, after a scan of the top level alone,
/// the subfolder files that were live before.
pub proof fn listing_matches_the_scan(
    rows: Seq<PhotoRow>,
    next_id: int,
    root: String,
    scanned: Seq<PhotoMeta>,
    options: ScanOptions,
    plan: SyncPlan,
    entries: Seq<PhotoEntry>,
)
    requires
        files_distinct(synced(rows, next_id, root, scanned, plan)),
        plan_fits(rows, root@, scanned, options, plan),
        entries_fit(synced(rows, next_id, root, scanned, plan), root@, entries),
    ensures
        forall|a: int, b: int|
            0 <= a < b < entries.len() ==> path_le(
                (#[trigger] entries[a]).rel_path@,
                (#[trigger] entries[b]).rel_path@,
            ) && components(entries[a].rel_path@) != components(entries[b].rel_path@),
        forall|a: int| 0 <= a < entries.len() ==> (#[trigger] entries[a]).status != PhotoStatus::Missing,
        forall|path: Seq<char>|
            #[trigger] listed(entries, path) <==> seen(scanned, path) || (!options.recursive && nested(path)
                && has_live_row(rows, root@, path)),
{
    let n = scanned.len() as int;
    let steps = plan.steps@;
    let out = synced(rows, next_id, root, scanned, plan);
    assert(steps_fit(rows, root@, scanned, steps));
    lemma_after_steps(rows, next_id, root, scanned, steps, n);
    let pos = choose|pos: Seq<int>|
        #[trigger] is_listing(pos, live(out, root@), tie_by_position(rows_by_path(out))) && entries == cells(out, pos);
    assert forall|a: int| 0 <= a < entries.len() implies live(out, root@)(#[trigger] pos[a]) by {
        assert(pos.contains(pos[a]));
    }
    assert forall|a: int, b: int| 0 <= a < b < entries.len() implies path_le(
        (#[trigger] entries[a]).rel_path@,
        (#[trigger] entries[b]).rel_path@,
    ) && components(entries[a].rel_path@) != components(entries[b].rel_path@) by {
        let x = pos[a];
        let y = pos[b];
        assert(live(out, root@)(x) && live(out, root@)(y));
        assert(tie_by_position(rows_by_path(out))(x, y));
        if x < y {
            assert(!(out[x].root@ == out[y].root@ && components(out[x].rel_path@) == components(out[y].rel_path@)));
        } else {
            assert(x != y);
            assert(!(out[y].root@ == out[x].root@ && components(out[y].rel_path@) == components(out[x].rel_path@)));
        }
    }
    assert forall|a: int| 0 <= a < entries.len() implies (#[trigger] entries[a]).status != PhotoStatus::Missing by {
        assert(live(out, root@)(pos[a]));
    }
    assert forall|path: Seq<char>|
        #[trigger] listed(entries, path) <==> seen(scanned, path) || (!options.recursive && nested(path)
            && has_live_row(rows, root@, path)) by {
        if listed(entries, path) {
            let a = choose|a: int|
                0 <= a < entries.len() && components((#[trigger] entries[a]).rel_path@) == components(path);
            let i = pos[a];
            assert(live(out, root@)(i));
            if i < rows.len() {
                assert(same_identity(rows[i], after_steps(rows, next_id, root, scanned, steps, n)[i]));
                if !seen(scanned, path) {
                    assert(!seen(scanned, rows[i].rel_path@));
                    shallow_sync_spares_subfolders(rows, next_id, root, scanned, options, plan, i);
                    assert(is_row_of(rows, root@, path, i));
                }
            } else {
                assert(inserted_at(steps, n, i - rows.len()));
                let j = choose|j: int|
                    0 <= j < n && #[trigger] steps[j] == SyncStep::Insert && inserts(steps, j) == i - rows.len();
                assert(scanned[j].rel_path@ == out[i].rel_path@);
            }
        }
        if seen(scanned, path) {
            let k = choose|k: int| 0 <= k < n && components((#[trigger] scanned[k]).rel_path@) == components(path);
            every_scanned_file_is_live(rows, next_id, root, scanned, options, plan, k);
            let i = choose|i: int|
                #[trigger] is_row_of(out, root@, scanned[k].rel_path@, i) && live(out, root@)(i);
            lemma_live_is_listed(out, root@, pos, entries, i, path);
        } else if !options.recursive && nested(path) && has_live_row(rows, root@, path) {
            let i = choose|i: int| #[trigger] is_row_of(rows, root@, path, i) && rows[i].status != 3;
            assert(!seen(scanned, rows[i].rel_path@));
            shallow_sync_spares_subfolders(rows, next_id, root, scanned, options, plan, i);
            lemma_live_is_listed(out, root@, pos, entries, i, path);
        }
    }
}

proof fn lemma_live_is_listed(
    rows: Seq<PhotoRow>,
    root: Seq<char>,
    pos: Seq<int>,
    entries: Seq<PhotoEntry>,
    i: int,
    path: Seq<char>,
)
    requires
        is_listing(pos, live(rows, root), tie_by_position(rows_by_path(rows))),
        entries == cells(rows, pos),
        live(rows, root)(i),
        components(rows[i].rel_path@) == components(path),
    ensures
        listed(entries, path),
{
    assert(pos.contains(i));
    let a = choose|a: int| 0 <= a < pos.len() && pos[a] == i;
    assert(entries[a] == entry_in(rows[i]));
}

/// A photo shows a message only while its extraction stands as failed.
pub proof fn messages_stand_on_failures(db: Db, i: int)
    requires
        db.wf(),
        0 <= i < db.photos@.len(),
        entry_in(db.photos@[i]).status != PhotoStatus::Error,
    ensures
        entry_in(db.photos@[i]).err_msg is None,
        detail_in(db.photos@[i]).err_msg is None,
{
    assert(db.photos@[i].status != 2 ==> db.photos@[i].err_msg is None);
}

/// A label that was set is read back, on the cell and on the full record, and
/// no other photo changes.
pub proof fn label_is_read_back(rows: Seq<PhotoRow>, id: i64, label: Label, i: int)
    requires
        0 <= i < rows.len(),
    ensures
        rows[i].id == id ==> entry_in(labeled(rows, id, label)[i]).label == label && detail_in(
            labeled(rows, id, label)[i],
        ).label == label,
        rows[i].id != id ==> labeled(rows, id, label)[i] == rows[i],
{
}

/// A rotation that was set is read back wrapped into `0..4`.
pub proof fn rotation_is_read_back(rows: Seq<PhotoRow>, id: i64, turns: u8, i: int)
    requires
        0 <= i < rows.len(),
    ensures
        rows[i].id == id ==> entry_in(rotated(rows, id, turns)[i]).rot_cw == turns % 4 && detail_in(
            rotated(rows, id, turns)[i],
        ).rot_cw == turns % 4,
        rows[i].id != id ==> rotated(rows, id, turns)[i] == rows[i],
{
    assert(((turns % 4) as i64) as int % 4 == (turns % 4) as int);
}

/// A successful extraction is read back from the row; the message of an
/// earlier failure is gone.
pub proof fn ingest_is_read_back(rows: Seq<PhotoRow>, id: i64, info: IngestInfo, now: i64, i: int)
    requires
        0 <= i < rows.len(),
        rows[i].id == id,
    ensures
        ({
            let entry = entry_in(with_ingest(rows, id, info, now)[i]);
            let detail = detail_in(with_ingest(rows, id, info, now)[i]);
            &&& entry.status == PhotoStatus::Ingested
            &&& entry.err_msg is None
            &&& entry.pixels == Some((info.width, info.height))
            &&& entry.orientation == info.orientation
            &&& entry.thumb_path == Some(info.thumb_path)
            &&& entry.label == entry_in(rows[i]).label
            &&& entry.rot_cw == entry_in(rows[i]).rot_cw
            &&& detail.status == PhotoStatus::Ingested
            &&& detail.err_msg is None
            &&& detail.pixels == Some((info.width, info.height))
            &&& detail.preview_path == Some(info.preview_path)
            &&& detail.camera == info.camera
            &&& detail.lens == info.lens
            &&& detail.taken_at == info.taken_at
            &&& detail.shutter == info.shutter
            &&& detail.aperture == info.aperture
            &&& detail.iso == info.iso
            &&& detail.focal_mm == info.focal_mm
        }),
{
}

/// A failed extraction shows as an error with its message.
pub proof fn failure_is_read_back(before: PhotoRow, id: i64, message: Seq<char>, after: PhotoRow)
    requires
        before.id == id,
        failed_row_fits(before, id, message, after),
    ensures
        entry_in(after).status == PhotoStatus::Error,
        text_in(entry_in(after).err_msg) == Some(message),
        entry_in(after).thumb_path == entry_in(before).thumb_path,
        entry_in(after).label == entry_in(before).label,
{
}

/// A stored setting is read back; the other settings keep their values.
pub proof fn setting_is_read_back(before: Seq<KvRow>, key: String, value: String, after: Seq<KvRow>, other: Seq<char>)
    requires
        setting_stored(before, key, value, after),
    ensures
        setting(after, key@) == Some(value@),
        other != key@ ==> setting(after, other) == setting(before, other),
{
    settings_read_their_row(after, key@);
    match lemma_first_row(before, key@) {
        Some(i) => {
            assert(after[i].key@ == key@ && after[i].value@ == value@);
            assert forall|j: int| 0 <= j < i implies (#[trigger] after[j]).key@ != key@ by {
                assert(before[j].key@ != key@);
            }
        },
        None => {
            let n = before.len() as int;
            assert(after[n].key@ == key@ && after[n].value@ == value@);
            assert forall|j: int| 0 <= j < n implies (#[trigger] after[j]).key@ != key@ by {
                assert(before[j].key@ != key@);
            }
        },
    }
    if other != key@ {
        lemma_other_setting(before, key, value, after, other);
    }
}

proof fn lemma_other_setting(before: Seq<KvRow>, key: String, value: String, after: Seq<KvRow>, other: Seq<char>)
    requires
        setting_stored(before, key, value, after),
        other != key@,
    ensures
        setting(after, other) == setting(before, other),
{
    settings_read_their_row(before, other);
    settings_read_their_row(after, other);
    assert forall|j: int| 0 <= j < before.len() implies (#[trigger] after[j]).key@ == before[j].key@ by {}
    match lemma_first_row(before, other) {
        Some(i) => {
            assert(before[i].key@ == other);
            assert(after[i] == before[i]);
            assert forall|j: int| 0 <= j < i implies (#[trigger] after[j]).key@ != other by {
                assert(before[j].key@ != other);
            }
        },
        None => {
            assert forall|j: int| 0 <= j < after.len() implies (#[trigger] after[j]).key@ != other by {
                if j < before.len() {
                    assert(before[j].key@ != other);
                }
            }
        },
    }
}

proof fn lemma_first_row(kv: Seq<KvRow>, key: Seq<char>) -> (first: Option<int>)
    ensures
        match first {
            Some(i) => {
                &&& 0 <= i < kv.len()
                &&& kv[i].key@ == key
                &&& forall|j: int| 0 <= j < i ==> (#[trigger] kv[j]).key@ != key
            },
            None => forall|j: int| 0 <= j < kv.len() ==> (#[trigger] kv[j]).key@ != key,
        },
    decreases kv.len(),
{
    if kv.len() == 0 {
        None
    } else {
        let head = kv.drop_last();
        match lemma_first_row(head, key) {
            Some(i) => {
                assert(head[i] == kv[i]);
                assert forall|j: int| 0 <= j < i implies (#[trigger] kv[j]).key@ != key by {
                    assert(head[j] == kv[j]);
                }
                Some(i)
            },
            None => {
                assert forall|j: int| 0 <= j < head.len() implies (#[trigger] kv[j]).key@ != key by {
                    assert(head[j] == kv[j]);
                }
                if kv.last().key@ == key {
                    Some(kv.len() - 1)
                } else {
                    None
                }
            },
        }
    }
}

/// The folder that was opened last heads the list of recent folders.
pub proof fn last_opened_folder_comes_first(
    before: Seq<RootRow>,
    root: String,
    opened_at: i64,
    after: Seq<RootRow>,
    limit: int,
    recent: Seq<String>,
)
    requires
        root_touched(before, root, opened_at, after),
        forall|i: int| 0 <= i < before.len() ==> (#[trigger] before[i]).last_opened < opened_at,
        limit >= 1,
        recent_fit(after, limit, recent),
    ensures
        recent.len() >= 1,
        recent[0]@ == root@,
{
    let le = roots_by_recency(after);
    let pos = choose|pos: Seq<int>|
        #[trigger] is_listing(pos, any_root(after), tie_by_position(le)) && recent == first_paths(after, pos, limit);
    let at = if exists|i: int| 0 <= i < before.len() && (#[trigger] before[i]).path@ == root@ {
        choose|i: int| 0 <= i < before.len() && (#[trigger] before[i]).path@ == root@
    } else {
        before.len() as int
    };
    assert(after[at].path@ == root@ && after[at].last_opened == opened_at);
    assert(any_root(after)(at));
    assert(pos.contains(at));
    let x = choose|x: int| 0 <= x < pos.len() && pos[x] == at;
    assert(pos.contains(pos[0]));
    assert(any_root(after)(pos[0]));
    if x > 0 {
        let before_fn = tie_by_position(le);
        assert(before_fn(pos[0], pos[x]));
        assert(after[pos[0]].last_opened >= opened_at);
        if pos[0] < before.len() {
            assert(before[pos[0]].last_opened < opened_at);
            assert(after[pos[0]].path@ == root@);
        }
    }
    assert(recent[0] == after[pos[0]].path);
}

} // verus!
