//! The index: scans, labels, rotations, extraction results, roots, settings.

use cullr::db::{names_files_once, Db, DbError};
use cullr::model::{IngestInfo, Label, PendingPhoto, PhotoEntry, PhotoId, PhotoMeta, PhotoStatus, ScanOptions};
use cullr::schema::{migrate, millis_stamp, now_millis, LATEST_VERSION, MIGRATIONS};
use cullr::widgets::{load_auto_advance, load_export_mode, store_auto_advance, store_export_mode, ExportMode, EXPORT_MODE_KEY};

const SECOND: i128 = 1_000_000_000;

fn root() -> String {
    "/photos".to_owned()
}

fn meta(name: &str, mtime_secs: i128, size: u64) -> PhotoMeta {
    PhotoMeta {
        root: root(),
        rel_path: name.to_owned(),
        mtime: mtime_secs * SECOND,
        size,
        jpeg_rel_path: None,
    }
}

fn shallow() -> ScanOptions {
    ScanOptions::default()
}

fn sync(db: &mut Db, scanned: Vec<PhotoMeta>) -> Vec<PhotoEntry> {
    db.sync_scan(&root(), &scanned, shallow()).expect("sync")
}

/// Rows of a scan before extraction.
fn pending_entry(id: PhotoId, rel_path: &str) -> PhotoEntry {
    PhotoEntry {
        id,
        rel_path: rel_path.to_owned(),
        label: Label::Unlabeled,
        status: PhotoStatus::Pending,
        pixels: None,
        orientation: 1,
        rot_cw: 0,
        thumb_path: None,
        err_msg: None,
        jpeg_rel_path: None,
    }
}

fn bare_info(width: u32, height: u32) -> IngestInfo {
    IngestInfo {
        width,
        height,
        orientation: 1,
        camera: None,
        lens: None,
        taken_at: None,
        shutter: None,
        aperture: None,
        iso: None,
        focal_mm: None,
        preview_path: "p.jpg".to_owned(),
        thumb_path: "t.jpg".to_owned(),
    }
}

fn full_info() -> IngestInfo {
    IngestInfo {
        width: 6000,
        height: 4000,
        orientation: 6,
        camera: Some("Canon EOS R6".to_owned()),
        lens: Some("RF 24-70mm".to_owned()),
        taken_at: Some("2026-08-24 10:00:00".to_owned()),
        shutter: Some("1/250 s".to_owned()),
        aperture: Some(28),
        iso: Some(400),
        focal_mm: Some(350),
        preview_path: "/cache/previews/x.jpg".to_owned(),
        thumb_path: "/cache/thumbs/x.jpg".to_owned(),
    }
}

/// The index as it is found when it is opened again: the same rows.
fn reopened(db: Db) -> Db {
    Db { photos: db.photos.clone(), roots: db.roots.clone(), kv: db.kv.clone(), next_id: db.next_id }
}

#[test]
fn open_should_apply_latest_schema_version_on_fresh_database() {
    let scripts = migrate(0).expect("fresh");
    assert_eq!(scripts.len() as i64, LATEST_VERSION);
    assert_eq!(scripts, (0..MIGRATIONS.len()).collect::<Vec<usize>>());
    assert_eq!(migrate(LATEST_VERSION), Ok(vec![]));
}

#[test]
fn open_should_refuse_databases_from_newer_schema_versions() {
    assert!(matches!(migrate(LATEST_VERSION + 1), Err(DbError::FutureVersion { .. })));
}

#[test]
fn open_should_migrate_a_v1_database_to_v2_with_rotation_defaults() {
    let scripts = migrate(1).expect("v1");
    assert_eq!(scripts.first(), Some(&1));
    assert!(MIGRATIONS[1].contains("rot_cw"));
    assert!(MIGRATIONS[1].contains("DEFAULT 0"));
}

#[test]
fn reopen_should_preserve_previously_written_data() {
    let mut db = Db::new();
    db.kv_set(&"zoom".to_owned(), &"256".to_owned());

    let db = reopened(db);

    assert_eq!(db.kv_get("zoom"), Some("256".to_owned()));
}

#[test]
fn sync_scan_should_insert_new_photos_as_pending_sorted_by_rel_path() {
    let mut db = Db::new();
    let entries = sync(&mut db, vec![meta("b.arw", 1, 10), meta("a.nef", 2, 20)]);

    assert_eq!(
        entries,
        vec![pending_entry(entries[0].id, "a.nef"), pending_entry(entries[1].id, "b.arw")]
    );
}

#[test]
fn resync_should_reuse_ids_and_add_zero_redundant_rows() {
    let mut db = Db::new();
    let scanned = || vec![meta("a.nef", 1, 10), meta("b.arw", 2, 20)];
    let first = sync(&mut db, scanned());

    let second = sync(&mut db, scanned());

    assert_eq!(second, first);
    assert_eq!(db.photos.len(), 2);
}

#[test]
fn sync_scan_should_reset_changed_files_to_pending_keeping_their_id() {
    let mut db = Db::new();
    let first = sync(&mut db, vec![meta("a.nef", 1, 10)]);

    let second = sync(&mut db, vec![meta("a.nef", 1, 99)]);

    assert_eq!(second[0].id, first[0].id);
    assert_eq!(second[0].status, PhotoStatus::Pending);
}

#[test]
fn sync_scan_should_reset_files_with_new_mtime_to_pending() {
    let mut db = Db::new();
    let first = sync(&mut db, vec![meta("a.nef", 1, 10)]);
    db.record_ingest_ok(first[0].id, &bare_info(100, 50), 0);

    let second = sync(&mut db, vec![meta("a.nef", 2, 10)]);

    assert_eq!(second[0].status, PhotoStatus::Pending);
}

#[test]
fn sync_scan_should_keep_ingested_state_for_untouched_files() {
    let mut db = Db::new();
    let first = sync(&mut db, vec![meta("a.nef", 1, 10)]);
    db.record_ingest_ok(first[0].id, &bare_info(100, 50), 0);

    let second = sync(&mut db, vec![meta("a.nef", 1, 10)]);

    assert_eq!(second[0].status, PhotoStatus::Ingested);
}

#[test]
fn sync_scan_should_mark_vanished_top_level_files_missing() {
    let mut db = Db::new();
    let first = sync(&mut db, vec![meta("a.nef", 1, 10), meta("b.arw", 2, 20)]);

    sync(&mut db, vec![meta("a.nef", 1, 10)]);

    let gone = db.photo_entry(first[1].id).expect("row stays");
    assert_eq!(gone.status, PhotoStatus::Missing);
}

#[test]
fn shallow_resync_should_leave_subfolder_rows_alone() {
    let mut db = Db::new();
    let all = vec![meta("top.rw2", 1, 10), meta("sub/nested.cr3", 2, 20)];
    let first = db.sync_scan(&root(), &all, ScanOptions { recursive: true }).expect("recursive sync");
    let nested = first.iter().find(|e| e.rel_path == "sub/nested.cr3").expect("nested row").id;

    sync(&mut db, vec![meta("top.rw2", 1, 10)]);

    assert_eq!(db.photo_entry(nested).expect("row").status, PhotoStatus::Pending);
}

#[test]
fn sync_scan_should_reingest_files_that_come_back_after_being_missing() {
    let mut db = Db::new();
    sync(&mut db, vec![meta("a.nef", 1, 10)]);
    sync(&mut db, vec![]);

    let back = sync(&mut db, vec![meta("a.nef", 1, 10)]);

    assert_eq!(back[0].status, PhotoStatus::Pending);
}

#[test]
fn sync_scan_should_preserve_labels_across_reingest() {
    let mut db = Db::new();
    let first = sync(&mut db, vec![meta("a.nef", 1, 10)]);
    db.set_label(first[0].id, Label::Green);

    let second = sync(&mut db, vec![meta("a.nef", 9, 999)]);

    assert_eq!(second[0].label, Label::Green);
}

#[test]
fn sync_scan_should_not_touch_other_folders() {
    let mut db = Db::new();
    let first = sync(&mut db, vec![meta("a.nef", 1, 10)]);
    let other = "/elsewhere".to_owned();

    let entries = db.sync_scan(&other, &vec![], shallow()).expect("sync");

    assert_eq!(entries, vec![]);
    assert_eq!(db.photo_entry(first[0].id).expect("row").status, PhotoStatus::Pending);
}

#[test]
fn sync_scan_should_retag_companions_without_resetting_the_row() {
    let mut db = Db::new();
    let first = sync(&mut db, vec![meta("a.nef", 1, 10)]);
    db.record_ingest_ok(first[0].id, &bare_info(100, 50), 0);
    let mut paired = meta("a.nef", 1, 10);
    paired.jpeg_rel_path = Some("a.jpg".to_owned());

    let second = sync(&mut db, vec![paired]);

    assert_eq!(second[0].status, PhotoStatus::Ingested);
    assert_eq!(second[0].jpeg_rel_path, Some("a.jpg".to_owned()));
}

#[test]
fn sync_scan_should_refuse_a_path_that_is_new_twice() {
    let mut db = Db::new();

    let result = db.sync_scan(&root(), &vec![meta("a.nef", 1, 10), meta("a.nef", 1, 10)], shallow());

    assert!(matches!(result, Err(DbError::DuplicatePath { .. })));
    assert_eq!(db.photos.len(), 0, "nothing is written");
}

#[test]
fn pending_photos_should_return_only_unprocessed_rows_with_file_identity() {
    let mut db = Db::new();
    let entries = sync(&mut db, vec![meta("a.nef", 1_700_000_000, 123), meta("b.arw", 1_700_000_000, 456)]);
    db.record_ingest_ok(entries[0].id, &bare_info(1, 1), 0);

    let pending = db.pending_photos(&root());

    assert_eq!(pending, vec![PendingPhoto { id: entries[1].id, meta: meta("b.arw", 1_700_000_000, 456) }]);
}

#[test]
fn pending_photos_should_round_trip_pre_epoch_mtimes_losslessly() {
    let mut db = Db::new();
    sync(&mut db, vec![meta("old.orf", -5, 7)]);

    let pending = db.pending_photos(&root());

    assert_eq!(pending[0].meta.mtime, -5 * SECOND);
}

#[test]
fn record_ingest_ok_should_store_metadata_and_mark_row_ok() {
    let mut db = Db::new();
    let entries = sync(&mut db, vec![meta("a.nef", 1, 10)]);

    db.record_ingest_ok(entries[0].id, &full_info(), 42);

    let detail = db.photo_detail(entries[0].id).expect("row");
    assert_eq!(detail.status, PhotoStatus::Ingested);
    assert_eq!(detail.pixels.map(|(w, _)| w), Some(6000));
    assert_eq!(detail.orientation, 6);
    assert_eq!(detail.aperture, Some(28));
}

#[test]
fn record_ingest_error_should_store_message_and_mark_row_error() {
    let mut db = Db::new();
    let entries = sync(&mut db, vec![meta("a.nef", 1, 10)]);

    db.record_ingest_error(entries[0].id, "unsupported RAW");

    let entry = db.photo_entry(entries[0].id).expect("row");
    assert_eq!(entry.err_msg.as_deref(), Some("unsupported RAW"));
    assert_eq!(entry.status, PhotoStatus::Error);
}

#[test]
fn photo_entry_should_surface_ingested_cell_state() {
    let mut db = Db::new();
    let entries = sync(&mut db, vec![meta("a.nef", 1, 10)]);
    db.record_ingest_ok(entries[0].id, &full_info(), 42);

    let entry = db.photo_entry(entries[0].id);

    assert_eq!(entry.as_ref().map(|e| e.id), Some(entries[0].id));
    let entry = entry.expect("row exists");
    assert_eq!(entry.status, PhotoStatus::Ingested);
    assert_eq!(entry.pixels, Some((6000, 4000)));
    assert_eq!(entry.orientation, 6);
    assert_eq!(entry.thumb_path, Some("/cache/thumbs/x.jpg".to_owned()));
}

#[test]
fn photo_entry_should_carry_error_messages_for_failed_rows() {
    let mut db = Db::new();
    let entries = sync(&mut db, vec![meta("a.nef", 1, 10)]);
    db.record_ingest_error(entries[0].id, "corrupt header");

    let entry = db.photo_entry(entries[0].id).expect("row exists");

    assert_eq!(entry.status, PhotoStatus::Error);
    assert_eq!(entry.err_msg.as_deref(), Some("corrupt header"));
    assert_eq!(entry.thumb_path, None);
}

#[test]
fn photo_detail_should_return_the_full_loupe_record() {
    let mut db = Db::new();
    let entries = sync(&mut db, vec![meta("a.nef", 1, 10)]);
    db.record_ingest_ok(entries[0].id, &full_info(), 42);

    let detail = db.photo_detail(entries[0].id).expect("row exists");

    assert_eq!(detail.id, entries[0].id);
    assert_eq!(detail.status, PhotoStatus::Ingested);
    assert_eq!(detail.pixels, Some((6000, 4000)));
    assert_eq!(detail.orientation, 6);
    assert_eq!(detail.preview_path, Some("/cache/previews/x.jpg".to_owned()));
    assert_eq!(detail.camera.as_deref(), Some("Canon EOS R6"));
    assert_eq!(detail.aperture, Some(28));
    assert_eq!(detail.iso, Some(400));
    assert_eq!(detail.focal_mm, Some(350));
    assert_eq!(detail.label, Label::Unlabeled);
    assert_eq!(detail.err_msg, None);
}

#[test]
fn photo_detail_should_return_none_for_unknown_ids() {
    let db = Db::new();

    assert_eq!(db.photo_detail(PhotoId(9_999)), None);
}

#[test]
fn photo_entry_should_return_none_for_unknown_ids() {
    let db = Db::new();

    assert_eq!(db.photo_entry(PhotoId(9_999)), None);
}

#[test]
fn pending_entries_should_default_orientation_and_leave_assets_empty() {
    let mut db = Db::new();
    let entries = sync(&mut db, vec![meta("a.nef", 1, 10)]);

    assert_eq!(entries, vec![pending_entry(entries[0].id, "a.nef")]);
}

#[test]
fn entries_for_root_should_exclude_missing_photos() {
    let mut db = Db::new();
    sync(&mut db, vec![meta("a.nef", 1, 10), meta("b.arw", 2, 20)]);

    let entries = sync(&mut db, vec![meta("a.nef", 1, 10)]);

    assert_eq!(entries.len(), 1);
}

#[test]
fn set_label_should_persist_across_close_and_reopen() {
    let mut db = Db::new();
    let id = sync(&mut db, vec![meta("a.nef", 1, 10)])[0].id;
    db.set_label(id, Label::Purple);

    let db = reopened(db);

    assert_eq!(db.photo_entry(id).expect("row").label, Label::Purple);
}

#[test]
fn set_labels_should_relabel_every_listed_row_in_one_commit() {
    let mut db = Db::new();
    let entries = sync(&mut db, vec![meta("a.nef", 1, 10), meta("b.arw", 2, 20)]);
    let ids: Vec<PhotoId> = entries.iter().map(|entry| entry.id).collect();

    db.set_labels(&ids, Label::Green);

    for id in ids {
        assert_eq!(db.photo_entry(id).expect("row").label, Label::Green);
    }
}

#[test]
fn set_labels_should_skip_unknown_ids_without_failing() {
    let mut db = Db::new();
    let entries = sync(&mut db, vec![meta("a.nef", 1, 10)]);

    db.set_labels(&vec![entries[0].id, PhotoId(999_999)], Label::Blue);

    assert_eq!(db.photo_entry(entries[0].id).expect("row").label, Label::Blue);
    assert_eq!(db.photos.len(), 1);
}

#[test]
fn set_rotation_should_wrap_and_persist_across_reopen() {
    let mut db = Db::new();
    let id = sync(&mut db, vec![meta("a.nef", 1, 10)])[0].id;
    // Three CW turns wrap to one CCW turn; the stored value must be
    // canonical 0..4 either way.
    db.set_rotation(id, 7);

    let db = reopened(db);

    assert_eq!(db.photo_entry(id).expect("row exists").rot_cw, 3);
}

#[test]
fn set_rotations_should_land_every_update_in_one_commit() {
    let mut db = Db::new();
    let entries = sync(&mut db, vec![meta("a.nef", 1, 10), meta("b.arw", 2, 20)]);

    db.set_rotations(&vec![(entries[0].id, 1), (entries[1].id, 3)]);
    db.set_rotations(&vec![]);

    assert_eq!(db.photo_entry(entries[0].id).expect("row").rot_cw, 1);
    assert_eq!(db.photo_entry(entries[1].id).expect("row").rot_cw, 3);
}

#[test]
fn rotation_should_survive_a_file_change_and_reingest() {
    let mut db = Db::new();
    let first = sync(&mut db, vec![meta("a.nef", 1, 10)]);
    db.set_rotation(first[0].id, 2);

    let second = sync(&mut db, vec![meta("a.nef", 9, 999)]);

    assert_eq!(second[0].status, PhotoStatus::Pending);
    assert_eq!(second[0].rot_cw, 2);
}

#[test]
fn touch_root_should_upsert_without_duplicating_roots() {
    let mut db = Db::new();

    db.touch_root(&"/photos/a".to_owned(), 100);
    db.touch_root(&"/photos/a".to_owned(), 200);

    assert_eq!(db.roots.len(), 1);
}

#[test]
fn recent_roots_should_order_most_recently_touched_first() {
    let mut db = Db::new();
    db.touch_root(&"/photos/old".to_owned(), 100);
    db.touch_root(&"/photos/new".to_owned(), 300);

    assert_eq!(db.recent_roots(10), vec!["/photos/new".to_owned(), "/photos/old".to_owned()]);
}

#[test]
fn recent_roots_should_respect_limit() {
    let mut db = Db::new();
    db.touch_root(&"/a".to_owned(), 1);
    db.touch_root(&"/b".to_owned(), 2);
    db.touch_root(&"/c".to_owned(), 3);

    assert_eq!(db.recent_roots(2).len(), 2);
}

#[test]
fn kv_should_round_trip_a_value() {
    let mut db = Db::new();

    db.kv_set(&"auto_advance".to_owned(), &"on".to_owned());

    assert_eq!(db.kv_get("auto_advance"), Some("on".to_owned()));
}

#[test]
fn kv_set_should_overwrite_an_existing_key() {
    let mut db = Db::new();
    db.kv_set(&"cell".to_owned(), &"128".to_owned());

    db.kv_set(&"cell".to_owned(), &"512".to_owned());

    assert_eq!(db.kv_get("cell"), Some("512".to_owned()));
}

#[test]
fn kv_get_should_return_none_for_unknown_keys() {
    let db = Db::new();
    assert_eq!(db.kv_get("nope"), None);
}

#[test]
fn db_should_be_shareable_across_threads_per_spec_threading_rules() {
    fn assert_send_sync<T: Send + Sync>() {}
    assert_send_sync::<Db>();
}

#[test]
fn load_auto_advance_should_default_on_and_honor_off() {
    let mut db = Db::new();

    assert!(load_auto_advance(&db), "unset key defaults to on");

    store_auto_advance(&mut db, false);

    assert!(!load_auto_advance(&db), "persisted off must round-trip");

    store_auto_advance(&mut db, true);

    assert!(load_auto_advance(&db));
}

#[test]
fn load_export_mode_should_default_to_all_and_round_trip() {
    let mut db = Db::new();

    assert_eq!(load_export_mode(&db), ExportMode::All, "unset key defaults to all files");

    store_export_mode(&mut db, ExportMode::JpegOnly);

    assert_eq!(load_export_mode(&db), ExportMode::JpegOnly);

    store_export_mode(&mut db, ExportMode::RawOnly);

    assert_eq!(load_export_mode(&db), ExportMode::RawOnly);
}

#[test]
fn load_export_mode_should_degrade_to_all_on_unknown_values() {
    let mut db = Db::new();

    db.kv_set(&EXPORT_MODE_KEY.to_owned(), &"bogus".to_owned());

    assert_eq!(load_export_mode(&db), ExportMode::All);
}

#[test]
fn long_failure_messages_are_cut() {
    let mut db = Db::new();
    let id = sync(&mut db, vec![meta("a.nef", 1, 10)])[0].id;

    db.record_ingest_error(id, &"x".repeat(1000));

    let message = db.photo_entry(id).expect("row").err_msg.expect("message");
    assert_eq!(message, "x".repeat(400));
}

#[test]
fn clock_stamps_are_milliseconds() {
    assert_eq!(millis_stamp(Some(1_700_000_000_123)), 1_700_000_000_123);
    assert_eq!(millis_stamp(None), 0);
    assert!(now_millis() > 1_600_000_000_000);
}

#[test]
fn success_clears_the_message_of_an_earlier_failure() {
    let mut db = Db::new();
    let id = sync(&mut db, vec![meta("a.nef", 1, 10)])[0].id;

    db.record_ingest_error(id, "boom");
    assert_eq!(db.photo_entry(id).expect("row").err_msg.as_deref(), Some("boom"));
    db.record_ingest_ok(id, &bare_info(3, 2), 1);

    let entry = db.photo_entry(id).expect("row");
    assert_eq!((entry.status, entry.err_msg), (PhotoStatus::Ingested, None));
    assert_eq!(db.photo_detail(id).expect("row").err_msg, None);
}

#[test]
fn missing_rows_have_no_message() {
    let mut db = Db::new();
    let id = sync(&mut db, vec![meta("a.nef", 1, 10)])[0].id;
    db.record_ingest_error(id, "boom");

    assert_eq!(sync(&mut db, vec![]), vec![]);

    let entry = db.photo_entry(id).expect("row");
    assert_eq!((entry.status, entry.err_msg), (PhotoStatus::Missing, None));
}

#[test]
fn spellings_of_a_path_are_one_file() {
    for recursive in [false, true] {
        let mut db = Db::new();
        let options = ScanOptions { recursive };
        let id = db.sync_scan(&root(), &vec![meta("a/b.nef", 1, 10)], options).expect("sync")[0].id;
        db.set_label(id, Label::Green);

        let again = db.sync_scan(&root(), &vec![meta("a//b.nef", 1, 10)], options).expect("sync");

        assert_eq!(again.len(), 1);
        assert_eq!((again[0].id, again[0].label, again[0].rel_path.as_str()), (id, Label::Green, "a/b.nef"));
        assert_eq!(db.photos.len(), 1);
    }
}

#[test]
fn a_new_file_in_two_spellings_is_refused() {
    let mut db = Db::new();
    let scanned = vec![meta("a/b.nef", 1, 10), meta("a/./b.nef", 1, 10)];

    let refused = db.sync_scan(&root(), &scanned, shallow());

    assert_eq!(refused, Err(DbError::DuplicatePath { rel_path: "a/./b.nef".to_owned() }));
    assert!(db.photos.is_empty());
}

#[test]
fn rows_with_two_spellings_of_a_file_are_noticed() {
    let mut db = Db::new();
    let mut other = Db::new();
    sync(&mut db, vec![meta("a/b.nef", 1, 10), meta("a/c.nef", 1, 10)]);
    sync(&mut other, vec![meta("a//b.nef", 1, 10)]);
    assert!(names_files_once(&db.photos));

    let mut rows = db.photos.clone();
    rows.push(other.photos[0].clone());
    assert!(!names_files_once(&rows));
    rows[2].root = "/elsewhere".to_owned();
    assert!(names_files_once(&rows));
}

#[test]
fn rescans_keep_labels_turns_and_results() {
    let mut db = Db::new();
    let scanned = vec![meta("a.nef", 1, 10), meta("b.nef", 2, 20), meta("c.nef", 3, 30)];
    let first = sync(&mut db, scanned.clone());
    db.record_ingest_ok(first[0].id, &bare_info(3, 2), 1);
    db.record_ingest_error(first[1].id, "boom");
    db.set_label(first[2].id, Label::Blue);
    db.set_rotation(first[0].id, 3);
    let before: Vec<PhotoEntry> = first.iter().map(|entry| db.photo_entry(entry.id).expect("row")).collect();

    let again = sync(&mut db, scanned);

    assert_eq!(again, before);
    assert_eq!(db.photos.len(), 3);
    assert_eq!(again[1].status, PhotoStatus::Error);
    assert_eq!(again[0].status, PhotoStatus::Ingested);
}
