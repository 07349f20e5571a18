//! The photo index: what its tables hold and how each operation changes them.
//!
//! [`Db`] is the content of the index as plain rows. The program keeps the
//! rows in a database file: inside one transaction it loads the rows an
//! operation is about, runs the operation here and writes back what changed.

use vstd::prelude::*;

use crate::columns::{
    copy_text, detail_from_row, detail_in, entry_from_row, entry_in, fresh_row, i64_to_system_time,
    ingested_row, make_row, narrow_u64, narrowed, path_in, reset_row, same_optional_path,
    status_from_column, status_in, stored_time, system_time_to_i64, text_in, widen_to_u64, widened,
    PhotoRow,
};
use crate::lookup::TextIndex;
use crate::model::{
    label_code, IngestInfo, Label, PendingPhoto, PhotoDetail, PhotoEntry, PhotoId, PhotoMeta,
    PhotoStatus, ScanOptions,
};
use crate::order::{
    arrange, comes_before, ints, is_listing, is_sorted_order, lemma_ints_push, listing_is_unique,
    sorted_order, tie_by_position, Ranked,
};
use crate::path::{
    components, components_le_antisymmetric, nested, path_key, path_le, plain, plain_spelling,
    plain_spellings_tell_paths_apart, same_key, texts, PathKey,
};
use crate::text::{chars_le, slice_text, to_chars};

verus! {

/// A folder that was opened before.
#[derive(Clone, Debug, PartialEq, Eq)]
pub struct RootRow {
    /// The folder.
    pub path: String,
    /// When it was last opened, in milliseconds since the Unix epoch.
    pub last_opened: i64,
}

/// A setting.
#[derive(Clone, Debug, PartialEq, Eq)]
pub struct KvRow {
    /// Its name.
    pub key: String,
    /// Its value.
    pub value: String,
}

/// Why an index operation was refused.
#[derive(Clone, Debug, PartialEq, Eq)]
pub enum DbError {
    /// The index was written by a newer version of the program.
    FutureVersion {
        /// Schema revision found.
        found: i64,
        /// Newest revision known here.
        supported: i64,
    },
    /// A scan named the same new file twice.
    DuplicatePath {
        /// The file.
        rel_path: String,
    },
}

/// The content of the index.
pub struct Db {
    /// The photo table.
    pub photos: Vec<PhotoRow>,
    /// The recently opened folders.
    pub roots: Vec<RootRow>,
    /// The settings.
    pub kv: Vec<KvRow>,
    /// Number the next photo row gets.
    pub next_id: i64,
}

/// Row `i` is the one of file `rel` under `root`, however the path is spelled.
pub open spec fn is_row_of(rows: Seq<PhotoRow>, root: Seq<char>, rel: Seq<char>, i: int) -> bool {
    0 <= i < rows.len() && rows[i].root@ == root && components(rows[i].rel_path@) == components(rel)
}

/// No two rows are about the same file.
pub open spec fn files_distinct(rows: Seq<PhotoRow>) -> bool {
    forall|i: int, j: int|
        0 <= i < j < rows.len() ==> !((#[trigger] rows[i]).root@ == (#[trigger] rows[j]).root@ && components(
            rows[i].rel_path@,
        ) == components(rows[j].rel_path@))
}

/// A message stands only on rows whose extraction failed.
pub open spec fn messages_settled(rows: Seq<PhotoRow>) -> bool {
    forall|i: int| 0 <= i < rows.len() ==> (#[trigger] rows[i]).status != 2 ==> rows[i].err_msg is None
}

/// Row numbers are positive, distinct and below the next free one.
pub open spec fn ids_distinct(rows: Seq<PhotoRow>, next_id: i64) -> bool {
    &&& next_id >= 1
    &&& forall|i: int| 0 <= i < rows.len() ==> 1 <= (#[trigger] rows[i]).id < next_id
    &&& forall|i: int, j: int| 0 <= i < j < rows.len() ==> (#[trigger] rows[i]).id != (#[trigger] rows[j]).id
}

/// Folder and path of a row in one list.
pub open spec fn file_of(row: PhotoRow) -> Seq<Seq<char>> {
    seq![row.root@] + components(row.rel_path@)
}

proof fn lemma_file_of(a: PhotoRow, b: PhotoRow)
    ensures
        file_of(a) == file_of(b) <==> a.root@ == b.root@ && components(a.rel_path@) == components(b.rel_path@),
{
    if file_of(a) == file_of(b) {
        assert(file_of(a)[0] == a.root@ && file_of(b)[0] == b.root@);
        assert(file_of(a).skip(1) =~= components(a.rel_path@));
        assert(file_of(b).skip(1) =~= components(b.rel_path@));
    }
}

/// Whether rows that were loaded name every file once.
pub fn names_files_once(rows: &Vec<PhotoRow>) -> (r: bool)
    ensures
        r == files_distinct(rows@),
{
    let mut keys: Vec<PathKey> = Vec::new();
    let mut i: usize = 0;
    while i < rows.len()
        invariant
            i <= rows.len(),
            keys.len() == i,
            forall|k: int| 0 <= k < i ==> (#[trigger] keys@[k])@ == file_of(rows@[k]),
        decreases rows.len() - i,
    {
        let mut tail: PathKey = path_key(rows[i].rel_path.as_str());
        let ghost below = tail@;
        let mut parts: Vec<Vec<char>> = Vec::new();
        parts.push(to_chars(rows[i].root.as_str()));
        parts.append(&mut tail.parts);
        let key = PathKey { parts };
        proof {
            assert(key@ =~= seq![rows@[i as int].root@] + below);
        }
        keys.push(key);
        i = i + 1;
    }
    let order: Vec<usize> = sorted_order(&keys);
    let mut x: usize = 1;
    while x < order.len()
        invariant
            1 <= x,
            x <= order.len() || x == 1,
            is_sorted_order(order@, keys@),
            keys.len() == rows.len(),
            forall|k: int| 0 <= k < keys.len() ==> (#[trigger] keys@[k])@ == file_of(rows@[k]),
            forall|y: int|
                0 < y < x ==> keys@[order@[y - 1] as int]@ != keys@[#[trigger] order@[y] as int]@,
        decreases order.len() - x,
    {
        proof {
            assert(order@.contains(order@[x as int]));
            assert(order@.contains(order@[x - 1]));
        }
        let a: usize = order[x - 1];
        let b: usize = order[x];
        if same_key(&keys[a], &keys[b]) {
            proof {
                lemma_file_of(rows@[a as int], rows@[b as int]);
                assert(a != b);
                if a < b {
                    assert(!files_distinct(rows@));
                } else {
                    assert(rows@[b as int].root@ == rows@[a as int].root@);
                    assert(!files_distinct(rows@));
                }
            }
            return false;
        }
        x = x + 1;
    }
    proof {
        assert forall|i: int, j: int| 0 <= i < j < rows@.len() implies !((#[trigger] rows@[i]).root@ == (
        #[trigger] rows@[j]).root@ && components(rows@[i].rel_path@) == components(rows@[j].rel_path@)) by {
            lemma_file_of(rows@[i], rows@[j]);
            if file_of(rows@[i]) == file_of(rows@[j]) {
                assert(keys@[i]@ == keys@[j]@);
                assert(order@.contains(i as usize) && order@.contains(j as usize));
                let p = choose|p: int| 0 <= p < order@.len() && order@[p] == i as usize;
                let q = choose|q: int| 0 <= q < order@.len() && order@[q] == j as usize;
                let (lo, hi) = if p < q {
                    (p, q)
                } else {
                    (q, p)
                };
                let next = keys@[order@[lo + 1] as int];
                assert(comes_before(keys@, order@[lo] as int, order@[lo + 1] as int));
                if lo + 1 < hi {
                    assert(comes_before(keys@, order@[lo + 1] as int, order@[hi] as int));
                }
                components_le_antisymmetric(keys@[order@[lo] as int]@, next@);
                assert(keys@[order@[lo + 1 - 1] as int]@ != keys@[order@[lo + 1] as int]@);
            }
        }
    }
    true
}

/// What a sync does about one scanned file.
#[derive(Copy, Clone, Debug, PartialEq, Eq, Structural)]
pub enum SyncStep {
    /// A new file gets a pending row.
    Insert,
    /// The row at this position is reset to pending.
    Refresh(usize),
    /// Only the companion JPEG of the row at this position changed.
    Retag(usize),
    /// The row at this position is up to date.
    Keep(usize),
}

/// What a sync does about a whole scan.
#[derive(Clone, Debug, PartialEq, Eq)]
pub struct SyncPlan {
    /// One step for each scanned file, in scan order.
    pub steps: Vec<SyncStep>,
    /// Positions of the rows whose file is gone, ascending.
    pub missing: Vec<usize>,
}

/// `step` is what to do about `meta`, judged by the rows as they stand.
pub open spec fn step_fits(rows: Seq<PhotoRow>, root: Seq<char>, meta: PhotoMeta, step: SyncStep) -> bool {
    let stale = |i: int| rows[i].is_stale(stored_time(meta.mtime), meta.size);
    let same_jpeg = |i: int| path_in(rows[i].jpeg_rel_path) == path_in(meta.jpeg_rel_path);
    match step {
        SyncStep::Insert => forall|i: int| !is_row_of(rows, root, meta.rel_path@, i),
        SyncStep::Refresh(i) => is_row_of(rows, root, meta.rel_path@, i as int) && stale(i as int),
        SyncStep::Retag(i) => {
            &&& is_row_of(rows, root, meta.rel_path@, i as int)
            &&& !stale(i as int)
            &&& !same_jpeg(i as int)
        },
        SyncStep::Keep(i) => {
            &&& is_row_of(rows, root, meta.rel_path@, i as int)
            &&& !stale(i as int)
            &&& same_jpeg(i as int)
        },
    }
}

/// Whether a scan saw the file `rel`.
pub open spec fn seen(scanned: Seq<PhotoMeta>, rel: Seq<char>) -> bool {
    exists|k: int| 0 <= k < scanned.len() && components((#[trigger] scanned[k]).rel_path@) == components(rel)
}

/// Whether row `i` is to be marked missing: it belongs to the scanned folder,
/// the scan reached it and did not see it, and it is not marked already.
pub open spec fn vanished(
    rows: Seq<PhotoRow>,
    root: Seq<char>,
    scanned: Seq<PhotoMeta>,
    options: ScanOptions,
    i: int,
) -> bool {
    &&& 0 <= i < rows.len()
    &&& rows[i].root@ == root
    &&& status_in(rows[i].status) != PhotoStatus::Missing
    &&& (options.recursive || !nested(rows[i].rel_path@))
    &&& !seen(scanned, rows[i].rel_path@)
}

/// The scanned file at `k` is new and an earlier one has the same path.
pub open spec fn repeats_new_file(rows: Seq<PhotoRow>, root: Seq<char>, scanned: Seq<PhotoMeta>, k: int) -> bool {
    &&& 0 <= k < scanned.len()
    &&& forall|i: int| !is_row_of(rows, root, scanned[k].rel_path@, i)
    &&& exists|j: int| 0 <= j < k && components((#[trigger] scanned[j]).rel_path@) == components(scanned[k].rel_path@)
}

/// `plan` is what syncing this scan does.
pub open spec fn plan_fits(
    rows: Seq<PhotoRow>,
    root: Seq<char>,
    scanned: Seq<PhotoMeta>,
    options: ScanOptions,
    plan: SyncPlan,
) -> bool {
    &&& plan.steps.len() == scanned.len()
    &&& forall|k: int| 0 <= k < scanned.len() ==> step_fits(rows, root, #[trigger] scanned[k], plan.steps@[k])
    &&& is_listing(ints(plan.missing@), vanished_in(rows, root, scanned, options), ascending())
}

/// The rows that are to be marked missing.
pub open spec fn vanished_in(
    rows: Seq<PhotoRow>,
    root: Seq<char>,
    scanned: Seq<PhotoMeta>,
    options: ScanOptions,
) -> spec_fn(int) -> bool {
    |i: int| vanished(rows, root, scanned, options, i)
}

/// Positions in their natural order.
pub open spec fn ascending() -> spec_fn(int, int) -> bool {
    |p: int, q: int| p < q
}

/// Whether a path reaches below the folder it is relative to.
pub fn is_nested(rel_path: &str) -> (r: bool)
    ensures
        r == nested(rel_path@),
{
    let key: PathKey = path_key(rel_path);
    key.parts.len() > 1
}

/// Decides what syncing `scanned` under `root` does to the rows.
///
/// A file without a row is inserted; a row whose file changed or came back
/// is refreshed; a row that is otherwise up to date keeps everything but a
/// companion JPEG that appeared or went away. Rows within the scan's reach
/// that the scan did not see are missing. Paths are compared by component, so
/// that every spelling of a path finds its row.
pub fn sync_plan(
    rows: &Vec<PhotoRow>,
    root: &String,
    scanned: &Vec<PhotoMeta>,
    options: ScanOptions,
) -> (result: Result<SyncPlan, DbError>)
    ensures
        match result {
            Ok(plan) => {
                &&& plan_fits(rows@, root@, scanned@, options, plan)
                &&& forall|k: int| !repeats_new_file(rows@, root@, scanned@, k)
            },
            Err(DbError::DuplicatePath { rel_path }) => exists|k: int|
                {
                    &&& repeats_new_file(rows@, root@, scanned@, k)
                    &&& rel_path@ == (#[trigger] scanned@[k]).rel_path@
                    &&& forall|j: int| j < k ==> !repeats_new_file(rows@, root@, scanned@, j)
                },
            Err(_) => false,
        },
{
    // Rows of this folder, searchable by path.
    let mut at: Vec<usize> = Vec::new();
    let mut keys: Vec<Vec<char>> = Vec::new();
    let mut i: usize = 0;
    while i < rows.len()
        invariant
            i <= rows.len(),
            at.len() == keys.len(),
            forall|a: int|
                0 <= a < at.len() ==> #[trigger] at@[a] < i && rows@[at@[a] as int].root@ == root@ && keys@[a]@
                    == plain(rows@[at@[a] as int].rel_path@),
            forall|r: int|
                0 <= r < i && (#[trigger] rows@[r]).root@ == root@ ==> exists|a: int|
                    0 <= a < at.len() && #[trigger] at@[a] == r,
        decreases rows.len() - i,
    {
        if rows[i].root == *root {
            let ghost at0 = at@;
            at.push(i);
            keys.push(plain_spelling(rows[i].rel_path.as_str()));
            proof {
                assert forall|r: int| 0 <= r < i + 1 && (#[trigger] rows@[r]).root@ == root@ implies exists|a: int|
                    0 <= a < at.len() && #[trigger] at@[a] == r by {
                    if r < i {
                        let a = choose|a: int| 0 <= a < at0.len() && #[trigger] at0[a] == r;
                        assert(at@[a] == r);
                    } else {
                        assert(at@[at0.len() as int] == r);
                    }
                }
            }
        }
        i = i + 1;
    }
    let ghost key_texts = texts(keys@);
    let index: TextIndex = TextIndex::new(keys);

    // Scanned files, searchable by path.
    let mut names: Vec<Vec<char>> = Vec::new();
    let mut n: usize = 0;
    while n < scanned.len()
        invariant
            n <= scanned.len(),
            names.len() == n,
            forall|k: int| 0 <= k < n ==> (#[trigger] names@[k])@ == plain(scanned@[k].rel_path@),
        decreases scanned.len() - n,
    {
        names.push(plain_spelling(scanned[n].rel_path.as_str()));
        n = n + 1;
    }
    let ghost name_texts = texts(names@);
    let found: TextIndex = TextIndex::new(names);

    let mut steps: Vec<SyncStep> = Vec::new();
    let mut k: usize = 0;
    while k < scanned.len()
        invariant
            k <= scanned.len(),
            steps.len() == k,
            index@ == key_texts,
            key_texts.len() == at.len(),
            forall|a: int|
                0 <= a < at.len() ==> #[trigger] at@[a] < rows.len() && rows@[at@[a] as int].root@ == root@
                    && key_texts[a] == plain(rows@[at@[a] as int].rel_path@),
            forall|r: int|
                0 <= r < rows.len() && (#[trigger] rows@[r]).root@ == root@ ==> exists|a: int|
                    0 <= a < at.len() && #[trigger] at@[a] == r,
            found@ == name_texts,
            name_texts.len() == scanned.len(),
            forall|j: int| 0 <= j < scanned.len() ==> #[trigger] name_texts[j] == plain(scanned@[j].rel_path@),
            forall|j: int| 0 <= j < k ==> step_fits(rows@, root@, #[trigger] scanned@[j], steps@[j]),
            forall|j: int| j < k ==> !repeats_new_file(rows@, root@, scanned@, j),
        decreases scanned.len() - k,
    {
        let wanted: Vec<char> = plain_spelling(scanned[k].rel_path.as_str());
        match index.find(&wanted) {
            None => {
                proof {
                    assert forall|r: int| !is_row_of(rows@, root@, scanned@[k as int].rel_path@, r) by {
                        if is_row_of(rows@, root@, scanned@[k as int].rel_path@, r) {
                            let a = choose|a: int| 0 <= a < at.len() && #[trigger] at@[a] == r;
                            plain_spellings_tell_paths_apart(rows@[r].rel_path@, scanned@[k as int].rel_path@);
                            assert(key_texts[a] == wanted@);
                        }
                    }
                }
                match found.find(&wanted) {
                    Some(j) => {
                        if j < k {
                            proof {
                                assert(name_texts[j as int] == plain(scanned@[j as int].rel_path@));
                                plain_spellings_tell_paths_apart(
                                    scanned@[j as int].rel_path@,
                                    scanned@[k as int].rel_path@,
                                );
                                assert(repeats_new_file(rows@, root@, scanned@, k as int));
                            }
                            return Err(DbError::DuplicatePath { rel_path: scanned[k].rel_path.clone() });
                        }
                    },
                    None => {
                        proof {
                            assert(name_texts[k as int] == wanted@);
                        }
                    },
                }
                proof {
                    assert forall|j: int| j < k + 1 implies !repeats_new_file(rows@, root@, scanned@, j) by {
                        if j == k && repeats_new_file(rows@, root@, scanned@, j) {
                            let m = choose|m: int|
                                0 <= m < k && components((#[trigger] scanned@[m]).rel_path@) == components(
                                    scanned@[k as int].rel_path@,
                                );
                            plain_spellings_tell_paths_apart(scanned@[m].rel_path@, scanned@[k as int].rel_path@);
                            assert(name_texts[m] == wanted@);
                        }
                    }
                }
                steps.push(SyncStep::Insert);
            },
            Some(a) => {
                let r: usize = at[a];
                proof {
                    plain_spellings_tell_paths_apart(rows@[r as int].rel_path@, scanned@[k as int].rel_path@);
                    assert(is_row_of(rows@, root@, scanned@[k as int].rel_path@, r as int));
                    assert forall|j: int| j < k + 1 implies !repeats_new_file(rows@, root@, scanned@, j) by {
                        if j == k {
                            assert(is_row_of(rows@, root@, scanned@[j].rel_path@, r as int));
                        }
                    }
                }
                if rows[r].needs_refresh(system_time_to_i64(scanned[k].mtime), scanned[k].size) {
                    steps.push(SyncStep::Refresh(r));
                } else if !same_optional_path(&rows[r].jpeg_rel_path, &scanned[k].jpeg_rel_path) {
                    steps.push(SyncStep::Retag(r));
                } else {
                    steps.push(SyncStep::Keep(r));
                }
            },
        }
        k = k + 1;
    }

    let mut missing: Vec<usize> = Vec::new();
    let mut m: usize = 0;
    while m < rows.len()
        invariant
            m <= rows.len(),
            found@ == name_texts,
            name_texts.len() == scanned.len(),
            forall|j: int| 0 <= j < scanned.len() ==> #[trigger] name_texts[j] == plain(scanned@[j].rel_path@),
            forall|p: int|
                0 <= p < missing.len() ==> #[trigger] missing@[p] < m && vanished(
                    rows@,
                    root@,
                    scanned@,
                    options,
                    missing@[p] as int,
                ),
            forall|p: int, q: int| 0 <= p < q < missing.len() ==> missing@[p] < missing@[q],
            forall|r: int|
                0 <= r < m && #[trigger] vanished(rows@, root@, scanned@, options, r) ==> ints(missing@).contains(r),
        decreases rows.len() - m,
    {
        let ghost missing0 = missing@;
        let gone: bool = if rows[m].root == *root && status_from_column(rows[m].status) != PhotoStatus::Missing && (
        options.recursive || !is_nested(rows[m].rel_path.as_str())) {
            let wanted: Vec<char> = plain_spelling(rows[m].rel_path.as_str());
            match found.find(&wanted) {
                Some(j) => {
                    proof {
                        assert(plain(scanned@[j as int].rel_path@) == name_texts[j as int]);
                        plain_spellings_tell_paths_apart(scanned@[j as int].rel_path@, rows@[m as int].rel_path@);
                        assert(seen(scanned@, rows@[m as int].rel_path@));
                    }
                    false
                },
                None => {
                    proof {
                        if seen(scanned@, rows@[m as int].rel_path@) {
                            let j = choose|j: int|
                                0 <= j < scanned.len() && components((#[trigger] scanned@[j]).rel_path@)
                                    == components(rows@[m as int].rel_path@);
                            plain_spellings_tell_paths_apart(scanned@[j].rel_path@, rows@[m as int].rel_path@);
                            assert(name_texts[j] == wanted@);
                        }
                    }
                    true
                },
            }
        } else {
            false
        };
        proof {
            assert(gone == vanished(rows@, root@, scanned@, options, m as int));
        }
        if gone {
            missing.push(m);
        }
        proof {
            assert forall|r: int| 0 <= r < m + 1 && #[trigger] vanished(rows@, root@, scanned@, options, r) implies ints(
                missing@,
            ).contains(r) by {
                if r < m {
                    assert(ints(missing0).contains(r));
                    let p = choose|p: int| 0 <= p < missing0.len() && ints(missing0)[p] == r;
                    assert(ints(missing@)[p] == r);
                } else {
                    assert(ints(missing@)[missing0.len() as int] == r);
                }
            }
        }
        m = m + 1;
    }
    proof {
        let list = ints(missing@);
        assert forall|p: int| #[trigger] list.contains(p) <==> vanished(rows@, root@, scanned@, options, p) by {
            if list.contains(p) {
                let x = choose|x: int| 0 <= x < list.len() && list[x] == p;
                assert(missing@[x] == p);
            }
        }
    }
    Ok(SyncPlan { steps, missing })
}

/// The rows after one step; new rows are numbered from `next_id` on, counting
/// from the `base` rows there were at first.
pub open spec fn after_step(
    cur: Seq<PhotoRow>,
    base: int,
    next_id: int,
    root: String,
    meta: PhotoMeta,
    step: SyncStep,
) -> Seq<PhotoRow> {
    match step {
        SyncStep::Insert => cur.push(fresh_row((next_id + cur.len() - base) as i64, root, meta)),
        SyncStep::Refresh(i) => cur.update(i as int, reset_row(cur[i as int], meta)),
        SyncStep::Retag(i) => cur.update(i as int, retagged_row(cur[i as int], meta)),
        SyncStep::Keep(_) => cur,
    }
}

/// A row with another companion JPEG.
pub open spec fn retagged_row(row: PhotoRow, meta: PhotoMeta) -> PhotoRow {
    PhotoRow { jpeg_rel_path: meta.jpeg_rel_path, ..row }
}

/// The rows after the first `k` steps.
pub open spec fn after_steps(
    rows: Seq<PhotoRow>,
    next_id: int,
    root: String,
    scanned: Seq<PhotoMeta>,
    steps: Seq<SyncStep>,
    k: int,
) -> Seq<PhotoRow>
    decreases k,
{
    if k <= 0 {
        rows
    } else {
        after_step(
            after_steps(rows, next_id, root, scanned, steps, k - 1),
            rows.len() as int,
            next_id,
            root,
            scanned[k - 1],
            steps[k - 1],
        )
    }
}

/// The rows with those at the listed positions marked missing.
pub open spec fn marked_missing(rows: Seq<PhotoRow>, missing: Seq<usize>) -> Seq<PhotoRow> {
    Seq::new(
        rows.len(),
        |i: int|
            if ints(missing).contains(i) {
                PhotoRow { status: 3, err_msg: None, ..rows[i] }
            } else {
                rows[i]
            },
    )
}

/// The rows after a whole plan.
pub open spec fn synced(
    rows: Seq<PhotoRow>,
    next_id: int,
    root: String,
    scanned: Seq<PhotoMeta>,
    plan: SyncPlan,
) -> Seq<PhotoRow> {
    marked_missing(
        after_steps(rows, next_id, root, scanned, plan.steps@, scanned.len() as int),
        plan.missing@,
    )
}

/// Row `i` is shown under `root`: it belongs there and its file is not gone.
pub open spec fn live(rows: Seq<PhotoRow>, root: Seq<char>) -> spec_fn(int) -> bool {
    |i: int| 0 <= i < rows.len() && rows[i].root@ == root && rows[i].status != 3
}

/// Order of rows by path.
pub open spec fn rows_by_path(rows: Seq<PhotoRow>) -> spec_fn(int, int) -> bool {
    |p: int, q: int| path_le(rows[p].rel_path@, rows[q].rel_path@)
}

/// `entries` are the cells of the live rows under `root`, in path order.
pub open spec fn entries_fit(rows: Seq<PhotoRow>, root: Seq<char>, entries: Seq<PhotoEntry>) -> bool {
    exists|pos: Seq<int>|
        {
            &&& #[trigger] is_listing(pos, live(rows, root), tie_by_position(rows_by_path(rows)))
            &&& entries == cells(rows, pos)
        }
}

/// The cells of the rows at the given positions.
pub open spec fn cells(rows: Seq<PhotoRow>, pos: Seq<int>) -> Seq<PhotoEntry> {
    Seq::new(pos.len(), |k: int| entry_in(rows[pos[k]]))
}

/// The listing of a folder is determined by the rows.
pub proof fn entries_are_unique(rows: Seq<PhotoRow>, root: Seq<char>, a: Seq<PhotoEntry>, b: Seq<PhotoEntry>)
    requires
        entries_fit(rows, root, a),
        entries_fit(rows, root, b),
    ensures
        a == b,
{
    let le = rows_by_path(rows);
    let p = choose|pos: Seq<int>|
        #[trigger] is_listing(pos, live(rows, root), tie_by_position(le)) && a == cells(rows, pos);
    let q = choose|pos: Seq<int>|
        #[trigger] is_listing(pos, live(rows, root), tie_by_position(le)) && b == cells(rows, pos);
    listing_is_unique(p, q, live(rows, root), le);
}

/// The cells of the live rows under `root`, in path order.
pub fn load_entries(rows: &Vec<PhotoRow>, root: &String) -> (entries: Vec<PhotoEntry>)
    ensures
        entries_fit(rows@, root@, entries@),
{
    let mut at: Vec<usize> = Vec::new();
    let mut keys: Vec<PathKey> = Vec::new();
    let mut i: usize = 0;
    while i < rows.len()
        invariant
            i <= rows.len(),
            at.len() == keys.len(),
            forall|a: int| 0 <= a < at.len() ==> #[trigger] at@[a] < i,
            forall|a: int| 0 <= a < at.len() ==> (#[trigger] keys@[a])@ == components(rows@[at@[a] as int].rel_path@),
            forall|a: int, b: int| 0 <= a < b < at.len() ==> at@[a] < at@[b],
            forall|r: int| #[trigger] ints(at@).contains(r) <==> r < i && live(rows@, root@)(r),
        decreases rows.len() - i,
    {
        let ghost at0 = at@;
        if rows[i].root == *root && rows[i].status != 3 {
            at.push(i);
            keys.push(path_key(rows[i].rel_path.as_str()));
            proof {
                lemma_ints_push(at0, i);
            }
        }
        i = i + 1;
    }
    let ghost le = rows_by_path(rows@);
    let order: Vec<usize> = arrange(&at, &keys, Ghost(le));
    let mut entries: Vec<PhotoEntry> = Vec::new();
    let mut k: usize = 0;
    proof {
        assert forall|x: int| 0 <= x < order.len() implies (#[trigger] order@[x]) < rows.len() by {
            assert(ints(order@)[x] == order@[x] as int);
            assert(ints(order@).contains(order@[x] as int));
        }
    }
    while k < order.len()
        invariant
            k <= order.len(),
            entries.len() == k,
            forall|x: int| 0 <= x < order.len() ==> (#[trigger] order@[x]) < rows.len(),
            forall|x: int| 0 <= x < k ==> (#[trigger] entries@[x]) == entry_in(rows@[order@[x] as int]),
        decreases order.len() - k,
    {
        entries.push(entry_from_row(&rows[order[k]]));
        k = k + 1;
    }
    proof {
        let pos = ints(order@);
        assert(is_listing(pos, live(rows@, root@), tie_by_position(le))) by {
            assert forall|p: int| #[trigger] pos.contains(p) <==> live(rows@, root@)(p) by {
                assert(ints(at@).contains(p) <==> p < i && live(rows@, root@)(p));
            }
        }
        assert(entries@ =~= cells(rows@, pos));
    }
    entries
}

/// How many of the first `k` steps insert a row.
pub open spec fn inserts(steps: Seq<SyncStep>, k: int) -> int
    decreases k,
{
    if k <= 0 {
        0
    } else {
        inserts(steps, k - 1) + if steps[k - 1] == SyncStep::Insert {
            1int
        } else {
            0
        }
    }
}

/// A scanned file that has a row.
pub open spec fn has_row(rows: Seq<PhotoRow>, root: Seq<char>, meta: PhotoMeta) -> bool {
    exists|i: int| is_row_of(rows, root, meta.rel_path@, i)
}

/// How many of the first `k` scanned files have no row.
pub open spec fn new_files(rows: Seq<PhotoRow>, root: Seq<char>, scanned: Seq<PhotoMeta>, k: int) -> int
    decreases k,
{
    if k <= 0 {
        0
    } else {
        new_files(rows, root, scanned, k - 1) + if has_row(rows, root, scanned[k - 1]) {
            0int
        } else {
            1
        }
    }
}

/// There are row numbers left for a scan: for as many rows as it names files,
/// or at least for the files that have no row.
pub open spec fn has_room(next_id: i64, rows: Seq<PhotoRow>, root: Seq<char>, scanned: Seq<PhotoMeta>) -> bool {
    ||| next_id + scanned.len() <= i64::MAX
    ||| next_id + new_files(rows, root, scanned, scanned.len() as int) <= i64::MAX
}

proof fn lemma_inserts_are_new(rows: Seq<PhotoRow>, root: Seq<char>, scanned: Seq<PhotoMeta>, steps: Seq<SyncStep>, k: int)
    requires
        steps_fit(rows, root, scanned, steps),
        0 <= k <= scanned.len(),
    ensures
        inserts(steps, k) == new_files(rows, root, scanned, k),
        0 <= inserts(steps, k) <= k,
    decreases k,
{
    if k > 0 {
        lemma_inserts_are_new(rows, root, scanned, steps, k - 1);
        assert(step_fits(rows, root, scanned[k - 1], steps[k - 1]));
        match steps[k - 1] {
            SyncStep::Insert => {},
            SyncStep::Refresh(i) => assert(is_row_of(rows, root, scanned[k - 1].rel_path@, i as int)),
            SyncStep::Retag(i) => assert(is_row_of(rows, root, scanned[k - 1].rel_path@, i as int)),
            SyncStep::Keep(i) => assert(is_row_of(rows, root, scanned[k - 1].rel_path@, i as int)),
        }
    }
}

proof fn lemma_inserts_grow(steps: Seq<SyncStep>, j: int, k: int)
    requires
        j <= k,
    ensures
        inserts(steps, j) <= inserts(steps, k),
    decreases k - j,
{
    if j < k {
        lemma_inserts_grow(steps, j, k - 1);
    }
}

/// One of the first `k` steps inserts the row that `d` others went before.
pub open spec fn inserted_at(steps: Seq<SyncStep>, k: int, d: int) -> bool {
    exists|j: int| 0 <= j < k && #[trigger] steps[j] == SyncStep::Insert && inserts(steps, j) == d
}

/// Every step was judged by the rows as they stood before.
pub open spec fn steps_fit(rows: Seq<PhotoRow>, root: Seq<char>, scanned: Seq<PhotoMeta>, steps: Seq<SyncStep>) -> bool {
    &&& steps.len() == scanned.len()
    &&& forall|k: int| 0 <= k < scanned.len() ==> step_fits(rows, root, #[trigger] scanned[k], steps[k])
}

/// What identifies a row and what the user put on it is the same in both.
pub open spec fn same_identity(a: PhotoRow, b: PhotoRow) -> bool {
    a.id == b.id && a.root == b.root && a.rel_path == b.rel_path && a.label == b.label && a.rot_cw == b.rot_cw
}

pub proof fn lemma_after_steps(
    rows: Seq<PhotoRow>,
    next_id: int,
    root: String,
    scanned: Seq<PhotoMeta>,
    steps: Seq<SyncStep>,
    k: int,
)
    requires
        steps_fit(rows, root@, scanned, steps),
        0 <= k <= scanned.len(),
    ensures
        0 <= inserts(steps, k) <= k,
        after_steps(rows, next_id, root, scanned, steps, k).len() == rows.len() + inserts(steps, k),
        forall|i: int|
            0 <= i < rows.len() ==> same_identity(
                rows[i],
                #[trigger] after_steps(rows, next_id, root, scanned, steps, k)[i],
            ),
        forall|j: int|
            0 <= j < k && #[trigger] steps[j] == SyncStep::Insert ==> 0 <= inserts(steps, j) < inserts(steps, k)
                && after_steps(rows, next_id, root, scanned, steps, k)[rows.len() + inserts(steps, j)] == fresh_row(
                (next_id + inserts(steps, j)) as i64,
                root,
                scanned[j],
            ),
        forall|d: int| 0 <= d < inserts(steps, k) ==> #[trigger] inserted_at(steps, k, d),
    decreases k,
{
    if k > 0 {
        lemma_after_steps(rows, next_id, root, scanned, steps, k - 1);
        assert(step_fits(rows, root@, scanned[k - 1], steps[k - 1]));
        assert forall|d: int| 0 <= d < inserts(steps, k) implies #[trigger] inserted_at(steps, k, d) by {
            if d < inserts(steps, k - 1) {
                assert(inserted_at(steps, k - 1, d));
            } else {
                assert(steps[k - 1] == SyncStep::Insert);
            }
        }
    }
}

proof fn lemma_steps_settle_messages(
    rows: Seq<PhotoRow>,
    next_id: int,
    root: String,
    scanned: Seq<PhotoMeta>,
    steps: Seq<SyncStep>,
    k: int,
)
    requires
        steps_fit(rows, root@, scanned, steps),
        messages_settled(rows),
        0 <= k <= scanned.len(),
    ensures
        messages_settled(after_steps(rows, next_id, root, scanned, steps, k)),
    decreases k,
{
    if k > 0 {
        lemma_steps_settle_messages(rows, next_id, root, scanned, steps, k - 1);
        lemma_after_steps(rows, next_id, root, scanned, steps, k - 1);
        assert(step_fits(rows, root@, scanned[k - 1], steps[k - 1]));
        let before = after_steps(rows, next_id, root, scanned, steps, k - 1);
        let after = after_steps(rows, next_id, root, scanned, steps, k);
        assert forall|i: int| 0 <= i < after.len() implies (#[trigger] after[i]).status != 2 ==> after[i].err_msg is None by {
            if i < before.len() {
                assert(before[i].status != 2 ==> before[i].err_msg is None);
            }
        }
    }
}

proof fn lemma_sync_keeps_order(
    rows: Seq<PhotoRow>,
    next_id: i64,
    root: String,
    scanned: Seq<PhotoMeta>,
    options: ScanOptions,
    plan: SyncPlan,
)
    requires
        files_distinct(rows),
        ids_distinct(rows, next_id),
        messages_settled(rows),
        plan_fits(rows, root@, scanned, options, plan),
        forall|k: int| !repeats_new_file(rows, root@, scanned, k),
        next_id + inserts(plan.steps@, scanned.len() as int) <= i64::MAX,
    ensures
        files_distinct(synced(rows, next_id as int, root, scanned, plan)),
        ids_distinct(
            synced(rows, next_id as int, root, scanned, plan),
            (next_id + inserts(plan.steps@, scanned.len() as int)) as i64,
        ),
        messages_settled(synced(rows, next_id as int, root, scanned, plan)),
{
    let n = scanned.len() as int;
    let steps = plan.steps@;
    let base = rows.len() as int;
    let out = synced(rows, next_id as int, root, scanned, plan);
    let mid = after_steps(rows, next_id as int, root, scanned, steps, n);
    lemma_after_steps(rows, next_id as int, root, scanned, steps, n);
    lemma_steps_settle_messages(rows, next_id as int, root, scanned, steps, n);
    assert forall|i: int| 0 <= i < out.len() implies same_identity(#[trigger] out[i], mid[i]) && (out[i].status != 2
        ==> out[i].err_msg is None) by {
        assert(mid[i].status != 2 ==> mid[i].err_msg is None);
    }
    assert forall|a: int, b: int| 0 <= a < b < out.len() implies !((#[trigger] out[a]).root@ == (#[trigger] out[b]).root@
        && components(out[a].rel_path@) == components(out[b].rel_path@)) by {
        if b < base {
            assert(same_identity(rows[a], mid[a]));
            assert(same_identity(rows[b], mid[b]));
            assert(!(rows[a].root@ == rows[b].root@ && components(rows[a].rel_path@) == components(rows[b].rel_path@)));
        } else {
            assert(inserted_at(steps, n, b - base));
            let j = choose|j: int|
                0 <= j < n && #[trigger] steps[j] == SyncStep::Insert && inserts(steps, j) == b - base;
            assert(step_fits(rows, root@, scanned[j], steps[j]));
            if a < base {
                assert(same_identity(rows[a], mid[a]));
                assert(!is_row_of(rows, root@, scanned[j].rel_path@, a));
            } else {
                assert(inserted_at(steps, n, a - base));
                let i = choose|i: int|
                    0 <= i < n && #[trigger] steps[i] == SyncStep::Insert && inserts(steps, i) == a - base;
                assert(step_fits(rows, root@, scanned[i], steps[i]));
                if components(scanned[i].rel_path@) == components(scanned[j].rel_path@) {
                    if i < j {
                        assert(repeats_new_file(rows, root@, scanned, j));
                    } else if j < i {
                        assert(repeats_new_file(rows, root@, scanned, i));
                    }
                }
            }
        }
    }
    assert forall|a: int| 0 <= a < out.len() implies 1 <= (#[trigger] out[a]).id < next_id + inserts(steps, n) && (a
        >= base ==> out[a].id == next_id + (a - base)) && (a < base ==> out[a].id < next_id && out[a].id == rows[a].id) by {
        if a < base {
            assert(same_identity(rows[a], mid[a]));
        } else {
            assert(inserted_at(steps, n, a - base));
            let j = choose|j: int|
                0 <= j < n && #[trigger] steps[j] == SyncStep::Insert && inserts(steps, j) == a - base;
            assert(steps[j] == SyncStep::Insert);
        }
    }
    assert forall|a: int, b: int| 0 <= a < b < out.len() implies (#[trigger] out[a]).id != (#[trigger] out[b]).id by {
        if b < base {
            assert(rows[a].id != rows[b].id);
        }
    }
}

impl Db {
    /// No file and no row number occurs twice, and neither does a folder or
    /// the name of a setting; only failed rows have a message.
    pub open spec fn wf(self) -> bool {
        &&& files_distinct(self.photos@)
        &&& ids_distinct(self.photos@, self.next_id)
        &&& messages_settled(self.photos@)
        &&& forall|i: int, j: int|
            0 <= i < j < self.roots.len() ==> (#[trigger] self.roots@[i]).path@ != (#[trigger] self.roots@[j]).path@
        &&& forall|i: int, j: int|
            0 <= i < j < self.kv.len() ==> (#[trigger] self.kv@[i]).key@ != (#[trigger] self.kv@[j]).key@
    }

    /// An empty index.
    pub fn new() -> (db: Self)
        ensures
            db.wf(),
            db.photos@.len() == 0,
            db.roots@.len() == 0,
            db.kv@.len() == 0,
            db.next_id == 1,
    {
        Db { photos: Vec::new(), roots: Vec::new(), kv: Vec::new(), next_id: 1 }
    }

    /// Carries out a plan made for the rows as they stand.
    fn apply_plan(&mut self, root: &String, scanned: &Vec<PhotoMeta>, plan: &SyncPlan)
        requires
            steps_fit(old(self).photos@, root@, scanned@, plan.steps@),
            forall|p: int| 0 <= p < plan.missing.len() ==> #[trigger] plan.missing@[p] < old(self).photos.len(),
            old(self).next_id + inserts(plan.steps@, scanned@.len() as int) <= i64::MAX,
        ensures
            final(self).photos@ == synced(old(self).photos@, old(self).next_id as int, *root, scanned@, *plan),
            final(self).next_id == old(self).next_id + inserts(plan.steps@, scanned@.len() as int),
            final(self).roots == old(self).roots,
            final(self).kv == old(self).kv,
    {
        let ghost rows = self.photos@;
        let ghost first_id = self.next_id as int;
        let mut k: usize = 0;
        while k < scanned.len()
            invariant
                k <= scanned.len(),
                steps_fit(rows, root@, scanned@, plan.steps@),
                forall|p: int| 0 <= p < plan.missing.len() ==> #[trigger] plan.missing@[p] < rows.len(),
                first_id + inserts(plan.steps@, scanned@.len() as int) <= i64::MAX,
                self.photos@ == after_steps(rows, first_id, *root, scanned@, plan.steps@, k as int),
                self.next_id == first_id + inserts(plan.steps@, k as int),
                self.roots == old(self).roots,
                self.kv == old(self).kv,
            decreases scanned.len() - k,
        {
            proof {
                lemma_after_steps(rows, first_id, *root, scanned@, plan.steps@, k as int);
                lemma_inserts_grow(plan.steps@, k + 1, scanned@.len() as int);
                assert(step_fits(rows, root@, scanned@[k as int], plan.steps@[k as int]));
            }
            match plan.steps[k] {
                SyncStep::Insert => {
                    let row: PhotoRow = make_row(self.next_id, root, &scanned[k]);
                    self.photos.push(row);
                    self.next_id = self.next_id + 1;
                },
                SyncStep::Refresh(i) => {
                    self.photos[i].reset(&scanned[k]);
                },
                SyncStep::Retag(i) => {
                    self.photos[i].jpeg_rel_path = copy_text(&scanned[k].jpeg_rel_path);
                },
                SyncStep::Keep(_) => {},
            }
            k = k + 1;
        }
        proof {
            lemma_after_steps(rows, first_id, *root, scanned@, plan.steps@, k as int);
        }
        let ghost mid = self.photos@;
        let mut m: usize = 0;
        while m < plan.missing.len()
            invariant
                m <= plan.missing.len(),
                mid.len() >= rows.len(),
                forall|p: int| 0 <= p < plan.missing.len() ==> #[trigger] plan.missing@[p] < rows.len(),
                self.photos@ == marked_missing(mid, plan.missing@.take(m as int)),
                self.next_id == first_id + inserts(plan.steps@, scanned@.len() as int),
                self.roots == old(self).roots,
                self.kv == old(self).kv,
            decreases plan.missing.len() - m,
        {
            let i: usize = plan.missing[m];
            self.photos[i].status = 3;
            self.photos[i].err_msg = None;
            proof {
                let done = plan.missing@.take(m as int);
                assert(plan.missing@.take(m + 1) =~= done.push(i));
                lemma_ints_push(done, i);
                assert(self.photos@ =~= marked_missing(mid, plan.missing@.take(m + 1)));
            }
            m = m + 1;
        }
        proof {
            assert(plan.missing@.take(m as int) =~= plan.missing@);
            assert(mid == after_steps(rows, first_id, *root, scanned@, plan.steps@, scanned@.len() as int));
        }
    }

    /// Brings the index in line with a scan of `root` and lists the folder.
    ///
    /// New files become pending rows; rows whose file changed or came back
    /// start over as pending but keep their number, label and rotation; rows
    /// that the scan reached and did not see are marked missing. The listing
    /// holds every row that is not missing, in path order.
    pub fn sync_scan(&mut self, root: &String, scanned: &Vec<PhotoMeta>, options: ScanOptions) -> (result: Result<
        Vec<PhotoEntry>,
        DbError,
    >)
        requires
            old(self).wf(),
            has_room(old(self).next_id, old(self).photos@, root@, scanned@),
        ensures
            final(self).wf(),
            final(self).roots == old(self).roots,
            final(self).kv == old(self).kv,
            match result {
                Ok(entries) => {
                    &&& forall|k: int| !repeats_new_file(old(self).photos@, root@, scanned@, k)
                    &&& exists|plan: SyncPlan|
                        {
                            &&& #[trigger] plan_fits(old(self).photos@, root@, scanned@, options, plan)
                            &&& final(self).photos@ == synced(
                                old(self).photos@,
                                old(self).next_id as int,
                                *root,
                                scanned@,
                                plan,
                            )
                            &&& final(self).next_id == old(self).next_id + inserts(
                                plan.steps@,
                                scanned@.len() as int,
                            )
                        }
                    &&& entries_fit(final(self).photos@, root@, entries@)
                },
                Err(DbError::DuplicatePath { rel_path }) => {
                    &&& *final(self) == *old(self)
                    &&& exists|k: int|
                        {
                            &&& repeats_new_file(old(self).photos@, root@, scanned@, k)
                            &&& rel_path@ == (#[trigger] scanned@[k]).rel_path@
                            &&& forall|j: int| j < k ==> !repeats_new_file(old(self).photos@, root@, scanned@, j)
                        }
                },
                Err(_) => false,
            },
    {
        let plan: SyncPlan = match sync_plan(&self.photos, root, scanned, options) {
            Ok(plan) => plan,
            Err(error) => {
                return Err(error);
            },
        };
        proof {
            assert forall|p: int| 0 <= p < plan.missing.len() implies #[trigger] plan.missing@[p] < self.photos.len() by {
                assert(ints(plan.missing@)[p] == plan.missing@[p] as int);
                assert(ints(plan.missing@).contains(plan.missing@[p] as int));
            }
            assert(steps_fit(self.photos@, root@, scanned@, plan.steps@));
            lemma_inserts_are_new(self.photos@, root@, scanned@, plan.steps@, scanned@.len() as int);
            lemma_sync_keeps_order(self.photos@, self.next_id, *root, scanned@, options, plan);
            lemma_after_steps(
                self.photos@,
                self.next_id as int,
                *root,
                scanned@,
                plan.steps@,
                scanned@.len() as int,
            );
        }
        self.apply_plan(root, scanned, &plan);
        Ok(load_entries(&self.photos, root))
    }

    /// The rows under `root` that wait for extraction, in text order of path.
    pub fn pending_photos(&self, root: &String) -> (pending: Vec<PendingPhoto>)
        ensures
            pending_fit(self.photos@, *root, pending@),
    {
        let rows = &self.photos;
        let mut at: Vec<usize> = Vec::new();
        let mut keys: Vec<Vec<char>> = Vec::new();
        let mut i: usize = 0;
        while i < rows.len()
            invariant
                i <= rows.len(),
                at.len() == keys.len(),
                forall|a: int| 0 <= a < at.len() ==> #[trigger] at@[a] < i,
                forall|a: int| 0 <= a < at.len() ==> (#[trigger] keys@[a])@ == rows@[at@[a] as int].rel_path@,
                forall|a: int, b: int| 0 <= a < b < at.len() ==> at@[a] < at@[b],
                forall|r: int| #[trigger] ints(at@).contains(r) <==> r < i && awaiting(rows@, root@)(r),
            decreases rows.len() - i,
        {
            let ghost at0 = at@;
            if rows[i].root == *root && rows[i].status == 0 {
                at.push(i);
                keys.push(to_chars(rows[i].rel_path.as_str()));
                proof {
                    lemma_ints_push(at0, i);
                }
            }
            i = i + 1;
        }
        let ghost le = rows_by_text(rows@);
        let order: Vec<usize> = arrange(&at, &keys, Ghost(le));
        let mut pending: Vec<PendingPhoto> = Vec::new();
        let mut k: usize = 0;
        proof {
            assert forall|x: int| 0 <= x < order.len() implies (#[trigger] order@[x]) < rows.len() by {
                assert(ints(order@)[x] == order@[x] as int);
                assert(ints(order@).contains(order@[x] as int));
            }
        }
        while k < order.len()
            invariant
                k <= order.len(),
                pending.len() == k,
                forall|x: int| 0 <= x < order.len() ==> (#[trigger] order@[x]) < rows.len(),
                forall|x: int|
                    0 <= x < k ==> (#[trigger] pending@[x]) == pending_in(rows@[order@[x] as int], *root),
            decreases order.len() - k,
        {
            let row: &PhotoRow = &rows[order[k]];
            pending.push(
                PendingPhoto {
                    id: PhotoId(widen_to_u64(row.id)),
                    meta: PhotoMeta {
                        root: root.clone(),
                        rel_path: row.rel_path.clone(),
                        mtime: i64_to_system_time(row.mtime),
                        size: widen_to_u64(row.size),
                        jpeg_rel_path: copy_text(&row.jpeg_rel_path),
                    },
                },
            );
            k = k + 1;
        }
        proof {
            let pos = ints(order@);
            assert(is_listing(pos, awaiting(rows@, root@), tie_by_position(le))) by {
                assert forall|p: int| #[trigger] pos.contains(p) <==> awaiting(rows@, root@)(p) by {
                    assert(ints(at@).contains(p) <==> p < i && awaiting(rows@, root@)(p));
                }
            }
            assert(pending@ =~= Seq::new(pos.len(), |x: int| pending_in(rows@[pos[x]], *root)));
        }
        pending
    }

    /// Labels one photo; an unknown photo is ignored.
    pub fn set_label(&mut self, id: PhotoId, label: Label)
        requires
            old(self).wf(),
        ensures
            final(self).wf(),
            final(self).photos@ == labeled(old(self).photos@, narrowed(id.0 as int), label),
            final(self).roots == old(self).roots,
            final(self).kv == old(self).kv,
            final(self).next_id == old(self).next_id,
    {
        let wanted: i64 = narrow_u64(id.0);
        let code: i64 = label.to_u8() as i64;
        let ghost rows = self.photos@;
        let mut i: usize = 0;
        while i < self.photos.len()
            invariant
                i <= self.photos.len(),
                self.photos.len() == rows.len(),
                code == label_code(label),
                forall|k: int| 0 <= k < i ==> #[trigger] self.photos@[k] == labeled(rows, wanted, label)[k],
                forall|k: int| i <= k < rows.len() ==> #[trigger] self.photos@[k] == rows[k],
                self.roots == old(self).roots,
                self.kv == old(self).kv,
                self.next_id == old(self).next_id,
            decreases self.photos.len() - i,
        {
            if self.photos[i].id == wanted {
                self.photos[i].label = code;
            }
            i = i + 1;
        }
        proof {
            assert(self.photos@ =~= labeled(rows, wanted, label));
            lemma_same_files(rows, self.photos@, self.next_id);
        }
    }

    /// Puts one label on many photos; unknown ones are ignored.
    pub fn set_labels(&mut self, ids: &Vec<PhotoId>, label: Label)
        requires
            old(self).wf(),
        ensures
            final(self).wf(),
            final(self).photos@ == all_labeled(old(self).photos@, ids@, label),
            final(self).roots == old(self).roots,
            final(self).kv == old(self).kv,
            final(self).next_id == old(self).next_id,
    {
        let ghost rows = self.photos@;
        let mut k: usize = 0;
        proof {
            assert(all_labeled(rows, ids@.take(0), label) =~= rows);
        }
        while k < ids.len()
            invariant
                k <= ids.len(),
                self.wf(),
                self.photos@ == all_labeled(rows, ids@.take(k as int), label),
                self.roots == old(self).roots,
                self.kv == old(self).kv,
                self.next_id == old(self).next_id,
            decreases ids.len() - k,
        {
            let ghost before = self.photos@;
            self.set_label(ids[k], label);
            proof {
                let now = ids@.take(k + 1);
                assert(now =~= ids@.take(k as int).push(ids@[k as int]));
                crate::order::lemma_push_contains(ids@.take(k as int), ids@[k as int]);
                assert forall|i: int| 0 <= i < rows.len() implies self.photos@[i] == #[trigger] all_labeled(
                    rows,
                    now,
                    label,
                )[i] by {
                    assert(before[i].id == rows[i].id);
                    if names_row(now, rows[i].id) {
                        let m = choose|m: int| 0 <= m < now.len() && narrowed((#[trigger] now[m]).0 as int) == rows[i].id;
                        if m < k {
                            assert(ids@.take(k as int)[m] == now[m]);
                        }
                    }
                    if names_row(ids@.take(k as int), rows[i].id) {
                        let m = choose|m: int|
                            0 <= m < k && narrowed((#[trigger] ids@.take(k as int)[m]).0 as int) == rows[i].id;
                        assert(now[m] == ids@.take(k as int)[m]);
                    }
                    if narrowed(ids@[k as int].0 as int) == rows[i].id {
                        assert(now[k as int] == ids@[k as int]);
                    }
                }
                assert(self.photos@ =~= all_labeled(rows, now, label));
            }
            k = k + 1;
        }
        proof {
            assert(ids@.take(k as int) =~= ids@);
        }
    }

    /// Turns one photo: `turns` quarter turns clockwise, wrapped into `0..4`.
    /// An unknown photo is ignored.
    pub fn set_rotation(&mut self, id: PhotoId, turns: u8)
        requires
            old(self).wf(),
        ensures
            final(self).wf(),
            final(self).photos@ == rotated(old(self).photos@, narrowed(id.0 as int), turns),
            final(self).roots == old(self).roots,
            final(self).kv == old(self).kv,
            final(self).next_id == old(self).next_id,
    {
        let wanted: i64 = narrow_u64(id.0);
        let ghost rows = self.photos@;
        let mut i: usize = 0;
        while i < self.photos.len()
            invariant
                i <= self.photos.len(),
                self.photos.len() == rows.len(),
                forall|k: int| 0 <= k < i ==> #[trigger] self.photos@[k] == rotated(rows, wanted, turns)[k],
                forall|k: int| i <= k < rows.len() ==> #[trigger] self.photos@[k] == rows[k],
                self.roots == old(self).roots,
                self.kv == old(self).kv,
                self.next_id == old(self).next_id,
            decreases self.photos.len() - i,
        {
            if self.photos[i].id == wanted {
                self.photos[i].rot_cw = (turns % 4) as i64;
            }
            i = i + 1;
        }
        proof {
            assert(self.photos@ =~= rotated(rows, wanted, turns));
            lemma_same_files(rows, self.photos@, self.next_id);
        }
    }

    /// Turns many photos, in order; the last update of a photo stands.
    pub fn set_rotations(&mut self, updates: &Vec<(PhotoId, u8)>)
        requires
            old(self).wf(),
        ensures
            final(self).wf(),
            final(self).photos@ == all_rotated(old(self).photos@, updates@),
            final(self).roots == old(self).roots,
            final(self).kv == old(self).kv,
            final(self).next_id == old(self).next_id,
    {
        let ghost rows = self.photos@;
        let mut k: usize = 0;
        proof {
            assert(updates@.take(0) =~= Seq::<(PhotoId, u8)>::empty());
        }
        while k < updates.len()
            invariant
                k <= updates.len(),
                self.wf(),
                self.photos@ == all_rotated(rows, updates@.take(k as int)),
                self.roots == old(self).roots,
                self.kv == old(self).kv,
                self.next_id == old(self).next_id,
            decreases updates.len() - k,
        {
            let (id, turns) = updates[k];
            self.set_rotation(id, turns);
            proof {
                assert(updates@.take(k + 1).drop_last() =~= updates@.take(k as int));
            }
            k = k + 1;
        }
        proof {
            assert(updates@.take(k as int) =~= updates@);
        }
    }

    /// Records a successful extraction at time `now`; an unknown photo is
    /// ignored.
    pub fn record_ingest_ok(&mut self, id: PhotoId, info: &IngestInfo, now: i64)
        requires
            old(self).wf(),
        ensures
            final(self).wf(),
            final(self).photos@ == with_ingest(old(self).photos@, narrowed(id.0 as int), *info, now),
            final(self).roots == old(self).roots,
            final(self).kv == old(self).kv,
            final(self).next_id == old(self).next_id,
    {
        let wanted: i64 = narrow_u64(id.0);
        let ghost rows = self.photos@;
        let mut i: usize = 0;
        while i < self.photos.len()
            invariant
                i <= self.photos.len(),
                self.photos.len() == rows.len(),
                forall|k: int| 0 <= k < i ==> #[trigger] self.photos@[k] == with_ingest(rows, wanted, *info, now)[k],
                forall|k: int| i <= k < rows.len() ==> #[trigger] self.photos@[k] == rows[k],
                self.roots == old(self).roots,
                self.kv == old(self).kv,
                self.next_id == old(self).next_id,
            decreases self.photos.len() - i,
        {
            if self.photos[i].id == wanted {
                self.photos[i].ingest(info, now);
            }
            i = i + 1;
        }
        proof {
            assert(self.photos@ =~= with_ingest(rows, wanted, *info, now));
            lemma_same_files(rows, self.photos@, self.next_id);
        }
    }

    /// Records a failed extraction; the message is cut to a bounded length.
    /// An unknown photo is ignored.
    pub fn record_ingest_error(&mut self, id: PhotoId, message: &str)
        requires
            old(self).wf(),
        ensures
            final(self).wf(),
            failed_fit(old(self).photos@, narrowed(id.0 as int), bounded_message(message@), final(self).photos@),
            final(self).roots == old(self).roots,
            final(self).kv == old(self).kv,
            final(self).next_id == old(self).next_id,
    {
        let wanted: i64 = narrow_u64(id.0);
        let bounded: String = bound_message(message);
        let ghost rows = self.photos@;
        let mut i: usize = 0;
        while i < self.photos.len()
            invariant
                i <= self.photos.len(),
                self.photos.len() == rows.len(),
                bounded@ == bounded_message(message@),
                forall|k: int|
                    0 <= k < i ==> failed_row_fits(rows[k], wanted, bounded@, #[trigger] self.photos@[k]),
                forall|k: int| i <= k < rows.len() ==> #[trigger] self.photos@[k] == rows[k],
                self.roots == old(self).roots,
                self.kv == old(self).kv,
                self.next_id == old(self).next_id,
            decreases self.photos.len() - i,
        {
            if self.photos[i].id == wanted {
                self.photos[i].status = 2;
                self.photos[i].err_msg = Some(bounded.clone());
            }
            i = i + 1;
        }
        proof {
            lemma_same_files(rows, self.photos@, self.next_id);
        }
    }

    /// The cell of one photo, or `None` if there is no such row.
    pub fn photo_entry(&self, id: PhotoId) -> (entry: Option<PhotoEntry>)
        ensures
            match entry {
                Some(entry) => exists|i: int|
                    {
                        &&& first_with_id(self.photos@, narrowed(id.0 as int), i)
                        &&& entry == (PhotoEntry { id, ..entry_in(#[trigger] self.photos@[i]) })
                    },
                None => forall|i: int|
                    0 <= i < self.photos.len() ==> (#[trigger] self.photos@[i]).id != narrowed(id.0 as int),
            },
    {
        match self.find_id(narrow_u64(id.0)) {
            Some(i) => {
                let mut entry: PhotoEntry = entry_from_row(&self.photos[i]);
                entry.id = id;
                Some(entry)
            },
            None => None,
        }
    }

    /// The full record of one photo, or `None` if there is no such row.
    pub fn photo_detail(&self, id: PhotoId) -> (detail: Option<PhotoDetail>)
        ensures
            match detail {
                Some(detail) => exists|i: int|
                    {
                        &&& first_with_id(self.photos@, narrowed(id.0 as int), i)
                        &&& detail == (PhotoDetail { id, ..detail_in(#[trigger] self.photos@[i]) })
                    },
                None => forall|i: int|
                    0 <= i < self.photos.len() ==> (#[trigger] self.photos@[i]).id != narrowed(id.0 as int),
            },
    {
        match self.find_id(narrow_u64(id.0)) {
            Some(i) => {
                let mut detail: PhotoDetail = detail_from_row(&self.photos[i]);
                detail.id = id;
                Some(detail)
            },
            None => None,
        }
    }

    fn find_id(&self, id: i64) -> (found: Option<usize>)
        ensures
            match found {
                Some(i) => first_with_id(self.photos@, id, i as int),
                None => forall|i: int| 0 <= i < self.photos.len() ==> (#[trigger] self.photos@[i]).id != id,
            },
    {
        let mut i: usize = 0;
        while i < self.photos.len()
            invariant
                i <= self.photos.len(),
                forall|k: int| 0 <= k < i ==> (#[trigger] self.photos@[k]).id != id,
            decreases self.photos.len() - i,
        {
            if self.photos[i].id == id {
                return Some(i);
            }
            i = i + 1;
        }
        None
    }

    /// Notes that a folder was opened at time `opened_at`.
    pub fn touch_root(&mut self, root: &String, opened_at: i64)
        requires
            old(self).wf(),
        ensures
            final(self).wf(),
            final(self).photos == old(self).photos,
            final(self).kv == old(self).kv,
            final(self).next_id == old(self).next_id,
            root_touched(old(self).roots@, *root, opened_at, final(self).roots@),
    {
        let mut i: usize = 0;
        while i < self.roots.len()
            invariant
                i <= self.roots.len(),
                *self == *old(self),
                self.wf(),
                forall|k: int| 0 <= k < i ==> (#[trigger] self.roots@[k]).path@ != root@,
            decreases self.roots.len() - i,
        {
            if self.roots[i].path == *root {
                self.roots[i].last_opened = opened_at;
                return ;
            }
            i = i + 1;
        }
        self.roots.push(RootRow { path: root.clone(), last_opened: opened_at });
    }

    /// The folders opened before, most recent first, at most `limit` of them.
    pub fn recent_roots(&self, limit: usize) -> (recent: Vec<String>)
        ensures
            recent_fit(self.roots@, limit as int, recent@),
    {
        let mut at: Vec<usize> = Vec::new();
        let mut keys: Vec<Recency> = Vec::new();
        let mut i: usize = 0;
        while i < self.roots.len()
            invariant
                i <= self.roots.len(),
                at.len() == i,
                keys.len() == i,
                forall|a: int| 0 <= a < i ==> #[trigger] at@[a] == a,
                forall|a: int| 0 <= a < i ==> (#[trigger] keys@[a]).0 == self.roots@[a].last_opened,
            decreases self.roots.len() - i,
        {
            at.push(i);
            keys.push(Recency(self.roots[i].last_opened));
            i = i + 1;
        }
        let ghost le = roots_by_recency(self.roots@);
        let order: Vec<usize> = arrange(&at, &keys, Ghost(le));
        let mut recent: Vec<String> = Vec::new();
        let mut k: usize = 0;
        let ghost pos = ints(order@);
        proof {
            assert forall|p: int| #[trigger] ints(at@).contains(p) <==> any_root(self.roots@)(p) by {
                if any_root(self.roots@)(p) {
                    assert(ints(at@)[p] == p);
                }
            }
            assert(is_listing(pos, any_root(self.roots@), tie_by_position(le))) by {
                assert forall|p: int| #[trigger] pos.contains(p) <==> any_root(self.roots@)(p) by {
                    assert(ints(at@).contains(p) <==> any_root(self.roots@)(p));
                }
            }
            assert forall|x: int| 0 <= x < order.len() implies (#[trigger] order@[x]) < self.roots.len() by {
                assert(pos[x] == order@[x] as int);
                assert(pos.contains(order@[x] as int));
            }
        }
        while k < order.len() && k < limit
            invariant
                k <= order.len(),
                k <= limit,
                recent.len() == k,
                pos == ints(order@),
                forall|x: int| 0 <= x < order.len() ==> (#[trigger] order@[x]) < self.roots.len(),
                forall|x: int| 0 <= x < k ==> #[trigger] recent@[x] == self.roots@[order@[x] as int].path,
            decreases order.len() - k,
        {
            recent.push(self.roots[order[k]].path.clone());
            k = k + 1;
        }
        proof {
            assert(recent@ =~= first_paths(self.roots@, pos, limit as int));
        }
        recent
    }

    /// Stores a setting, replacing its earlier value.
    pub fn kv_set(&mut self, key: &String, value: &String)
        requires
            old(self).wf(),
        ensures
            final(self).wf(),
            final(self).photos == old(self).photos,
            final(self).roots == old(self).roots,
            final(self).next_id == old(self).next_id,
            setting_stored(old(self).kv@, *key, *value, final(self).kv@),
    {
        let mut i: usize = 0;
        while i < self.kv.len()
            invariant
                i <= self.kv.len(),
                *self == *old(self),
                self.wf(),
                forall|k: int| 0 <= k < i ==> (#[trigger] self.kv@[k]).key@ != key@,
            decreases self.kv.len() - i,
        {
            if self.kv[i].key == *key {
                self.kv[i].value = value.clone();
                return ;
            }
            i = i + 1;
        }
        self.kv.push(KvRow { key: key.clone(), value: value.clone() });
    }

    /// Reads a setting.
    pub fn kv_get(&self, key: &str) -> (value: Option<String>)
        ensures
            match value {
                Some(value) => setting(self.kv@, key@) == Some(value@),
                None => setting(self.kv@, key@) is None,
            },
    {
        let wanted: String = key.to_owned();
        let mut i: usize = 0;
        while i < self.kv.len()
            invariant
                i <= self.kv.len(),
                wanted@ == key@,
                forall|k: int| 0 <= k < i ==> (#[trigger] self.kv@[k]).key@ != key@,
            decreases self.kv.len() - i,
        {
            if self.kv[i].key == wanted {
                proof {
                    lemma_first_setting(self.kv@, key@, i as int);
                }
                return Some(self.kv[i].value.clone());
            }
            i = i + 1;
        }
        proof {
            lemma_no_setting(self.kv@, key@);
        }
        None
    }
}

proof fn lemma_same_files(before: Seq<PhotoRow>, after: Seq<PhotoRow>, next_id: i64)
    requires
        files_distinct(before),
        ids_distinct(before, next_id),
        before.len() == after.len(),
        forall|i: int|
            0 <= i < before.len() ==> (#[trigger] after[i]).id == before[i].id && after[i].root == before[i].root
                && after[i].rel_path == before[i].rel_path,
    ensures
        files_distinct(after),
        ids_distinct(after, next_id),
{
    assert forall|i: int, j: int| 0 <= i < j < after.len() implies !((#[trigger] after[i]).root@ == (
    #[trigger] after[j]).root@ && components(after[i].rel_path@) == components(after[j].rel_path@)) by {
        assert(!(before[i].root@ == before[j].root@ && components(before[i].rel_path@) == components(
            before[j].rel_path@,
        )));
    }
    assert forall|i: int, j: int| 0 <= i < j < after.len() implies (#[trigger] after[i]).id != (#[trigger] after[j]).id by {
        assert(before[i].id != before[j].id);
    }
}

/// Row `i` waits for extraction under `root`.
pub open spec fn awaiting(rows: Seq<PhotoRow>, root: Seq<char>) -> spec_fn(int) -> bool {
    |i: int| 0 <= i < rows.len() && rows[i].root@ == root && rows[i].status == 0
}

/// Order of rows by the text of their path.
pub open spec fn rows_by_text(rows: Seq<PhotoRow>) -> spec_fn(int, int) -> bool {
    |p: int, q: int| chars_le(rows[p].rel_path@, rows[q].rel_path@)
}

/// The extraction job of a row.
pub open spec fn pending_in(row: PhotoRow, root: String) -> PendingPhoto {
    PendingPhoto {
        id: PhotoId(widened(row.id)),
        meta: PhotoMeta {
            root,
            rel_path: row.rel_path,
            mtime: row.mtime as i128,
            size: widened(row.size),
            jpeg_rel_path: row.jpeg_rel_path,
        },
    }
}

/// `pending` are the jobs of the rows that wait under `root`, in text order.
pub open spec fn pending_fit(rows: Seq<PhotoRow>, root: String, pending: Seq<PendingPhoto>) -> bool {
    exists|pos: Seq<int>|
        {
            &&& #[trigger] is_listing(pos, awaiting(rows, root@), tie_by_position(rows_by_text(rows)))
            &&& pending == Seq::new(pos.len(), |x: int| pending_in(rows[pos[x]], root))
        }
}

/// The rows with one of them labeled.
pub open spec fn labeled(rows: Seq<PhotoRow>, id: i64, label: Label) -> Seq<PhotoRow> {
    Seq::new(
        rows.len(),
        |i: int|
            if rows[i].id == id {
                PhotoRow { label: label_code(label) as i64, ..rows[i] }
            } else {
                rows[i]
            },
    )
}

/// One of `ids` names the row numbered `id`.
pub open spec fn names_row(ids: Seq<PhotoId>, id: i64) -> bool {
    exists|m: int| 0 <= m < ids.len() && narrowed((#[trigger] ids[m]).0 as int) == id
}

/// The rows with every named one labeled.
pub open spec fn all_labeled(rows: Seq<PhotoRow>, ids: Seq<PhotoId>, label: Label) -> Seq<PhotoRow> {
    Seq::new(
        rows.len(),
        |i: int|
            if names_row(ids, rows[i].id) {
                PhotoRow { label: label_code(label) as i64, ..rows[i] }
            } else {
                rows[i]
            },
    )
}

/// The rows with one of them turned.
pub open spec fn rotated(rows: Seq<PhotoRow>, id: i64, turns: u8) -> Seq<PhotoRow> {
    Seq::new(
        rows.len(),
        |i: int|
            if rows[i].id == id {
                PhotoRow { rot_cw: (turns % 4) as i64, ..rows[i] }
            } else {
                rows[i]
            },
    )
}

/// The rows after a series of turns.
pub open spec fn all_rotated(rows: Seq<PhotoRow>, updates: Seq<(PhotoId, u8)>) -> Seq<PhotoRow>
    decreases updates.len(),
{
    if updates.len() == 0 {
        rows
    } else {
        rotated(all_rotated(rows, updates.drop_last()), narrowed(updates.last().0.0 as int), updates.last().1)
    }
}

/// The rows with the result of one extraction attached.
pub open spec fn with_ingest(rows: Seq<PhotoRow>, id: i64, info: IngestInfo, now: i64) -> Seq<PhotoRow> {
    Seq::new(
        rows.len(),
        |i: int|
            if rows[i].id == id {
                ingested_row(rows[i], info, now)
            } else {
                rows[i]
            },
    )
}

/// Longest message the index keeps, in characters.
pub const MESSAGE_LIMIT: usize = 400;

/// The start of a message, as long as the index keeps it.
pub open spec fn bounded_message(message: Seq<char>) -> Seq<char> {
    if message.len() > MESSAGE_LIMIT {
        message.take(MESSAGE_LIMIT as int)
    } else {
        message
    }
}

fn bound_message(message: &str) -> (bounded: String)
    ensures
        bounded@ == bounded_message(message@),
{
    let chars: Vec<char> = to_chars(message);
    if chars.len() > MESSAGE_LIMIT {
        let bounded: String = slice_text(&chars, 0, MESSAGE_LIMIT);
        proof {
            assert(chars@.subrange(0, MESSAGE_LIMIT as int) =~= chars@.take(MESSAGE_LIMIT as int));
        }
        bounded
    } else {
        message.to_owned()
    }
}

/// What a failed extraction makes of a row.
pub open spec fn failed_row_fits(before: PhotoRow, id: i64, message: Seq<char>, after: PhotoRow) -> bool {
    if before.id == id {
        &&& text_in(after.err_msg) == Some(message)
        &&& after == (PhotoRow { status: 2, err_msg: after.err_msg, ..before })
    } else {
        after == before
    }
}

/// What a failed extraction makes of the rows.
pub open spec fn failed_fit(before: Seq<PhotoRow>, id: i64, message: Seq<char>, after: Seq<PhotoRow>) -> bool {
    &&& after.len() == before.len()
    &&& forall|i: int| 0 <= i < before.len() ==> failed_row_fits(before[i], id, message, #[trigger] after[i])
}

/// Row `i` is the first one numbered `id`.
pub open spec fn first_with_id(rows: Seq<PhotoRow>, id: i64, i: int) -> bool {
    &&& 0 <= i < rows.len()
    &&& rows[i].id == id
    &&& forall|k: int| 0 <= k < i ==> (#[trigger] rows[k]).id != id
}

/// Opening a folder again renews its stamp; a new folder is added.
pub open spec fn root_touched(before: Seq<RootRow>, root: String, opened_at: i64, after: Seq<RootRow>) -> bool {
    if exists|i: int| 0 <= i < before.len() && (#[trigger] before[i]).path@ == root@ {
        &&& after.len() == before.len()
        &&& forall|i: int|
            0 <= i < before.len() ==> (#[trigger] after[i]) == (if before[i].path@ == root@ {
                RootRow { last_opened: opened_at, ..before[i] }
            } else {
                before[i]
            })
    } else {
        after == before.push(RootRow { path: root, last_opened: opened_at })
    }
}

/// A time stamp; later ones rank first.
pub struct Recency(pub i64);

impl Ranked for Recency {
    open spec fn rank_le(self, other: Self) -> bool {
        self.0 >= other.0
    }

    proof fn rank_total(a: Self, b: Self) {
    }

    proof fn rank_transitive(a: Self, b: Self, c: Self) {
    }

    fn ranks_at_or_before(&self, other: &Self) -> (r: bool) {
        self.0 >= other.0
    }
}

/// Order of folders, most recently opened first.
pub open spec fn roots_by_recency(roots: Seq<RootRow>) -> spec_fn(int, int) -> bool {
    |p: int, q: int| roots[p].last_opened >= roots[q].last_opened
}

/// Every folder.
pub open spec fn any_root(roots: Seq<RootRow>) -> spec_fn(int) -> bool {
    |i: int| 0 <= i < roots.len()
}

/// The folders at the first `limit` of the given positions.
pub open spec fn first_paths(roots: Seq<RootRow>, pos: Seq<int>, limit: int) -> Seq<String> {
    Seq::new(
        if limit < pos.len() {
            limit as nat
        } else {
            pos.len()
        },
        |k: int| roots[pos[k]].path,
    )
}

/// `recent` are the most recently opened folders, at most `limit` of them;
/// equal stamps stand in the order of the table.
pub open spec fn recent_fit(roots: Seq<RootRow>, limit: int, recent: Seq<String>) -> bool {
    exists|pos: Seq<int>|
        {
            &&& #[trigger] is_listing(pos, any_root(roots), tie_by_position(roots_by_recency(roots)))
            &&& recent == first_paths(roots, pos, limit)
        }
}

/// The value of a setting.
pub open spec fn setting(kv: Seq<KvRow>, key: Seq<char>) -> Option<Seq<char>>
    decreases kv.len(),
{
    if kv.len() == 0 {
        None
    } else if kv[0].key@ == key {
        Some(kv[0].value@)
    } else {
        setting(kv.skip(1), key)
    }
}

proof fn lemma_first_setting(kv: Seq<KvRow>, key: Seq<char>, i: int)
    requires
        0 <= i < kv.len(),
        kv[i].key@ == key,
        forall|k: int| 0 <= k < i ==> (#[trigger] kv[k]).key@ != key,
    ensures
        setting(kv, key) == Some(kv[i].value@),
    decreases kv.len(),
{
    if i > 0 {
        assert(kv[0].key@ != key);
        assert forall|k: int| 0 <= k < i - 1 implies (#[trigger] kv.skip(1)[k]).key@ != key by {
            assert(kv[k + 1].key@ != key);
        }
        lemma_first_setting(kv.skip(1), key, i - 1);
    }
}

proof fn lemma_no_setting(kv: Seq<KvRow>, key: Seq<char>)
    requires
        forall|k: int| 0 <= k < kv.len() ==> (#[trigger] kv[k]).key@ != key,
    ensures
        setting(kv, key) is None,
    decreases kv.len(),
{
    if kv.len() > 0 {
        assert(kv[0].key@ != key);
        assert forall|k: int| 0 <= k < kv.skip(1).len() implies (#[trigger] kv.skip(1)[k]).key@ != key by {
            assert(kv[k + 1].key@ != key);
        }
        lemma_no_setting(kv.skip(1), key);
    }
}

/// Storing a setting replaces its value and leaves the others alone.
pub open spec fn setting_stored(before: Seq<KvRow>, key: String, value: String, after: Seq<KvRow>) -> bool {
    if exists|i: int| 0 <= i < before.len() && (#[trigger] before[i]).key@ == key@ {
        &&& after.len() == before.len()
        &&& forall|i: int|
            0 <= i < before.len() ==> (#[trigger] after[i]) == (if before[i].key@ == key@ {
                KvRow { value, ..before[i] }
            } else {
                before[i]
            })
    } else {
        after == before.push(KvRow { key, value })
    }
}

} // verus!
