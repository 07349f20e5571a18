//! The sheet: display order, cursor, selection, filter, export, keys.

use cullr::db::Db;
use cullr::export::{ExportFailure, ExportReport};
use cullr::frame::{Action, SheetKeys};
use cullr::grid::{GridView, OpenRequest};
use cullr::keymap::TexKey;
use cullr::loupe::{LoupeKeys, LoupeView, Outcome};
use cullr::model::{Label, PhotoEntry, PhotoId, PhotoMeta, PhotoStatus, ScanOptions};
use cullr::progress::SheetBody;
use cullr::selection::{click_range, stepped_cursor, Gesture, NavKey};
use cullr::tex::{Request, Rotation};
use cullr::widgets::{bare_label_key, FilterChip, LabelFilter, RotateDir, SortKey};
use cullr::window::{cell_position, covered_positions, root_label, sorted_ids, truncated};

fn entry_at(id: u64, label: Label) -> PhotoEntry {
    PhotoEntry {
        id: PhotoId(id),
        rel_path: format!("IMG_{id:04}.CR3"),
        label,
        status: PhotoStatus::Ingested,
        pixels: Some((6000, 4000)),
        orientation: 1,
        rot_cw: 0,
        thumb_path: None,
        err_msg: None,
        jpeg_rel_path: None,
    }
}

fn grid_with(labels: &[Label]) -> GridView {
    let mut grid = GridView::new("/photos".to_owned(), false);
    let entries = labels.iter().enumerate().map(|(index, label)| entry_at(index as u64 + 1, *label)).collect();
    grid.apply_scan(Ok(entries));
    grid
}

/// A sheet whose rows are in the index too, so that what is written shows.
fn grid_with_db(labels: &[Label], db: &mut Db) -> GridView {
    let root = "/photos".to_owned();
    let scanned: Vec<PhotoMeta> = (0..labels.len())
        .map(|index| PhotoMeta {
            root: root.clone(),
            rel_path: format!("IMG_{:04}.CR3", index + 1),
            mtime: 0,
            size: index as u64 + 1,
            jpeg_rel_path: None,
        })
        .collect();
    let entries = db.sync_scan(&root, &scanned, ScanOptions::default()).expect("sync");
    let mut grid = GridView::new(root, false);
    grid.apply_scan(Ok(entries));
    grid
}

fn label_and_store(grid: &mut GridView, db: &mut Db, label: Label) {
    let changed = grid.apply_label(label);
    db.set_labels(&changed, label);
}

fn turn_and_store(grid: &mut GridView, db: &mut Db, direction: RotateDir) {
    let turned = grid.apply_rotation(direction);
    db.set_rotations(&turned);
}

fn no_keys() -> SheetKeys {
    SheetKeys {
        escape: false,
        enter: false,
        space: false,
        lightbox: false,
        nav: None,
        select_all: false,
        select_none: false,
        export: false,
        filter: false,
        tab: false,
        label: None,
        rotate: None,
    }
}

fn no_loupe_keys() -> LoupeKeys {
    LoupeKeys {
        left: false,
        right: false,
        escape: false,
        enter: false,
        lightbox: false,
        backdrop: false,
        tab: false,
        label: None,
        rotate: None,
    }
}

// --- names ---

#[test]
fn truncated_should_keep_short_names_intact() {
    assert_eq!(truncated("IMG_0001.CR3"), "IMG_0001.CR3");
}

#[test]
fn truncated_should_keep_the_extension_when_cutting() {
    let long = "I".repeat(40) + ".CR3";
    let cut = truncated(&long);
    assert!(cut.starts_with('…'));
    assert!(cut.ends_with(".CR3"));
}

#[test]
fn truncated_counts_characters_not_bytes() {
    let exact = "é".repeat(26);
    assert_eq!(truncated(&exact), exact);
    let longer = "é".repeat(27);
    assert_eq!(truncated(&longer), format!("…{}", "é".repeat(25)));
}

#[test]
fn folders_are_labelled_by_their_last_name() {
    assert_eq!(root_label(&"/photos/day 1".to_owned()), "day 1");
    assert_eq!(root_label(&"/".to_owned()), "/");
}

// --- cursor ---

#[test]
fn stepped_cursor_should_step_by_one_horizontally() {
    assert_eq!(stepped_cursor(4, NavKey::ArrowRight, 5, 10), Some(5));
    assert_eq!(stepped_cursor(4, NavKey::ArrowLeft, 5, 10), Some(3));
}

#[test]
fn stepped_cursor_should_clamp_at_set_edges() {
    assert_eq!(stepped_cursor(9, NavKey::ArrowRight, 5, 10), Some(9));
    assert_eq!(stepped_cursor(0, NavKey::ArrowLeft, 5, 10), None);
}

#[test]
fn stepped_cursor_should_step_whole_rows_vertically() {
    // Three columns: down from position 1 lands on 4.
    assert_eq!(stepped_cursor(1, NavKey::ArrowDown, 3, 10), Some(4));
    assert_eq!(stepped_cursor(4, NavKey::ArrowUp, 3, 10), Some(1));
}

#[test]
fn stepped_cursor_should_stop_inside_the_last_row() {
    // Ten items in three columns end at position 9; moving down from
    // the middle of the last row settles on the final item.
    assert_eq!(stepped_cursor(7, NavKey::ArrowDown, 3, 10), Some(9));
}

#[test]
fn stepped_cursor_should_refuse_moves_off_the_top() {
    // First row has no row above to move into.
    assert_eq!(stepped_cursor(1, NavKey::ArrowUp, 3, 10), None);
}

#[test]
fn stepped_cursor_should_ignore_non_navigational_keys() {
    assert_eq!(stepped_cursor(3, NavKey::Other, 5, 10), None);
}

// --- filter ---

#[test]
fn apply_scan_should_arm_cursor_on_first_visible_tile() {
    let mut grid = grid_with(&[Label::Unlabeled]);
    grid.filter = LabelFilter::labeled();
    grid.apply_order_change();

    assert!(grid.view.is_empty());
    assert_eq!(grid.cursor, None);

    grid.filter = LabelFilter::all();
    grid.apply_order_change();

    assert_eq!(grid.view.len(), 1);
    assert_eq!(grid.cursor, Some(0));
}

#[test]
fn refilter_should_narrow_the_view_to_matching_labels_in_order() {
    let mut grid = grid_with(&[Label::Unlabeled, Label::Red, Label::Unlabeled]);

    grid.filter.toggle(Label::Red);
    grid.apply_order_change();

    assert_eq!(grid.view, vec![1]);
    grid.filter.clear();
    grid.apply_order_change();

    assert_eq!(grid.view, vec![0, 1, 2]);
}

#[test]
fn refilter_should_reanchor_cursor_onto_its_photo() {
    let mut grid = grid_with(&[Label::Unlabeled, Label::Red]);
    grid.cursor = Some(1);
    grid.filter.toggle(Label::Red);
    grid.apply_order_change();

    // The red photo moved from view slot 1 to slot 0 but keeps the
    // cursor; digits keep landing on the same tile.
    assert_eq!(grid.cursor, Some(0));
}

#[test]
fn refilter_should_park_cursor_nearby_when_its_photo_is_filtered_out() {
    let mut grid = grid_with(&[Label::Unlabeled, Label::Unlabeled, Label::Unlabeled]);
    grid.cursor = Some(2);
    grid.filter.toggle(Label::Red);
    grid.apply_order_change();

    assert_eq!(grid.cursor, None);
}

#[test]
fn chips_and_presets_rebuild_the_sheet() {
    let mut grid = grid_with(&[Label::Unlabeled, Label::Red]);
    grid.pick_chip(FilterChip::Label(Label::Red));
    assert_eq!(grid.view, vec![1]);
    grid.pick_chip(FilterChip::All);
    assert_eq!(grid.view, vec![0, 1]);
    grid.cycle_filter();
    assert_eq!(grid.view, vec![1]);
    grid.cycle_filter();
    assert_eq!(grid.view, vec![0]);
}

// --- errors ---

#[test]
fn jump_next_error_should_find_errors_after_the_cursor_then_wrap() {
    let mut grid = GridView::new("/photos".to_owned(), false);
    let entries = vec![
        entry_at(1, Label::Unlabeled),
        entry_at(2, Label::Unlabeled),
        entry_at(3, Label::Unlabeled),
        entry_at(4, Label::Unlabeled),
    ];
    grid.apply_scan(Ok(entries));
    grid.entries[1].status = PhotoStatus::Error;
    grid.entries[3].status = PhotoStatus::Error;
    grid.rebuild_view();
    grid.cursor = Some(1);

    grid.jump_next_error();

    assert_eq!(grid.cursor, Some(3), "the next error in order wins");

    grid.jump_next_error();

    assert_eq!(grid.cursor, Some(1), "wrapping must revisit earlier tiles");
}

#[test]
fn jump_next_error_should_be_a_noop_without_failures() {
    let mut grid = grid_with(&[Label::Unlabeled, Label::Unlabeled]);
    grid.cursor = Some(1);

    grid.jump_next_error();

    assert_eq!(grid.cursor, Some(1));
}

#[test]
fn stats_line_should_report_shown_over_total_only_while_filtered() {
    let mut grid = grid_with(&[Label::Unlabeled, Label::Red]);

    assert_eq!(grid.stats_line(0), "2 photos");
    grid.filter.toggle(Label::Red);
    grid.apply_order_change();

    assert_eq!(grid.stats_line(0), "1 / 2 shown");
}

#[test]
fn stats_line_should_count_the_selection_while_present() {
    let mut grid = grid_with(&[Label::Unlabeled, Label::Unlabeled]);

    assert_eq!(grid.stats_line(0), "2 photos");
    grid.select_all();

    assert_eq!(grid.stats_line(0), "2 photos · 2 selected");
}

#[test]
fn failed_scans_are_kept_as_an_error() {
    let mut grid = grid_with(&[Label::Unlabeled]);
    grid.apply_scan(Err("cannot access folder".to_owned()));
    assert_eq!(grid.error.as_deref(), Some("cannot access folder"));
    assert!(!grid.loading);
}

// --- cells ---

const GAP: f32 = 8.0;
const CELL_WIDTH: f32 = 232.0;
const CELL_HEIGHT: f32 = CELL_WIDTH / 1.5 + 34.0;

/// The cell under a point.
fn cell_at(origin: (f32, f32), point: (f32, f32)) -> Option<(usize, usize)> {
    let x = point.0 - origin.0;
    let y = point.1 - origin.1;
    if x < 0.0 || y < 0.0 {
        return None;
    }
    Some(((x / (CELL_WIDTH + GAP)) as usize, (y / (CELL_HEIGHT + GAP)) as usize))
}

fn position_at(origin: (f32, f32), point: (f32, f32), columns: usize, len: usize) -> Option<usize> {
    cell_at(origin, point).and_then(|(column, row)| cell_position(column, row, columns, len))
}

#[test]
fn position_at_point_should_map_points_to_tiles_and_reject_off_sheet_points() {
    let columns = 3;
    let origin = (100.0, 50.0);

    assert_eq!(
        position_at(origin, (100.0, 50.0), columns, 7),
        Some(0),
        "the sheet origin is tile zero's corner"
    );
    assert_eq!(position_at(origin, (100.0 + CELL_WIDTH + GAP + 1.0, 60.0), columns, 7), Some(1));
    assert_eq!(
        position_at(origin, (110.0, 50.0 + CELL_HEIGHT + GAP + 1.0), columns, 7),
        Some(3),
        "one row down steps by the column count"
    );
    assert_eq!(
        position_at(origin, (100.0 + 3.0 * (CELL_WIDTH + GAP) + 5.0, 60.0), columns, 2),
        None,
        "past the last tile there is nothing to address"
    );
    assert_eq!(position_at(origin, (50.0, 60.0), columns, 7), None);
    assert_eq!(position_at(origin, (120.0, 10.0), columns, 7), None);
}

#[test]
fn covered_positions_should_take_every_intersecting_tile() {
    let columns = 3;
    // A small band straddling the corner shared by tiles 0, 1, 3, 4.
    let first = cell_at((0.0, 0.0), (CELL_WIDTH - 2.0, CELL_HEIGHT - 2.0)).expect("cell");
    let last = cell_at((0.0, 0.0), (CELL_WIDTH + GAP + 2.0, CELL_HEIGHT + GAP + 2.0)).expect("cell");

    let covered = covered_positions(first.0, last.0, first.1, last.1, columns, 9);

    assert_eq!(covered, vec![0, 1, 3, 4]);
}

#[test]
fn covered_positions_should_clamp_to_the_live_set() {
    let columns = 3;
    let last = cell_at((0.0, 0.0), (10_000.0, 10_000.0)).expect("cell");

    assert_eq!(covered_positions(0, last.0, 0, last.1, columns, 7).len(), 7);
}

// --- selection ---

#[test]
fn click_range_should_order_its_endpoints() {
    assert_eq!(click_range(4, 1), (1, 4));
    assert_eq!(click_range(2, 2), (2, 2));
}

#[test]
fn select_all_should_cover_only_the_filtered_view() {
    let mut grid = grid_with(&[Label::Unlabeled, Label::Red, Label::Unlabeled]);
    grid.filter.toggle(Label::Red);
    grid.apply_order_change();

    grid.select_all();

    // Only the surviving red photo joins; hidden tiles never join a batch.
    assert_eq!(grid.selection.len(), 1);
    assert!(grid.selection.contains(PhotoId(2)));
}

#[test]
fn refilter_should_keep_selection_membership_of_hidden_photos() {
    let mut grid = grid_with(&[Label::Unlabeled, Label::Red]);
    grid.select_all();
    grid.filter.toggle(Label::Red);

    grid.apply_order_change();

    assert_eq!(grid.view.len(), 1);
    assert_eq!(grid.selection.len(), 2, "ids outlive their hiding");
}

#[test]
fn apply_label_should_relabel_a_hundred_selected_photos_in_one_keystroke() {
    let mut db = Db::new();
    let mut grid = grid_with_db(&[Label::Unlabeled; 100], &mut db);
    grid.select_all();

    label_and_store(&mut grid, &mut db, Label::Red);

    assert!(grid.entries.iter().all(|entry| entry.label == Label::Red));
    for entry in &grid.entries {
        let stored = db.photo_entry(entry.id).expect("row");
        assert_eq!(stored.label, Label::Red);
    }
}

#[test]
fn apply_label_should_fall_back_to_the_cursor_when_nothing_is_selected() {
    let mut db = Db::new();
    let mut grid = grid_with_db(&[Label::Unlabeled, Label::Unlabeled], &mut db);
    grid.cursor = Some(0);

    label_and_store(&mut grid, &mut db, Label::Green);

    assert_eq!(grid.entries[0].label, Label::Green);
    assert_eq!(grid.entries[1].label, Label::Unlabeled);
    let stored = db.photo_entry(grid.entries[0].id).expect("row");
    assert_eq!(stored.label, Label::Green);
}

#[test]
fn apply_label_should_skip_already_labeled_rows_in_a_batch() {
    let mut grid = grid_with(&[Label::Unlabeled, Label::Red]);
    grid.select_all();

    let changed = grid.apply_label(Label::Red);

    // The already-red row keeps its label untouched either way; both
    // end red with only one real update behind them.
    assert!(grid.entries.iter().all(|entry| entry.label == Label::Red));
    assert_eq!(changed, vec![PhotoId(1)]);
}

#[test]
fn select_none_should_empty_the_set_but_keep_the_cursor() {
    let mut grid = grid_with(&[Label::Unlabeled, Label::Unlabeled]);
    grid.cursor = Some(1);
    grid.select_all();

    grid.select_none();

    assert!(grid.selection.is_empty());
    assert_eq!(grid.cursor, Some(1));
}

#[test]
fn clicks_select_one_toggle_or_span() {
    let mut grid = grid_with(&[Label::Unlabeled; 5]);
    grid.click(1, false, false);
    assert_eq!(grid.selection.len(), 1);
    assert_eq!(grid.cursor, Some(1));
    grid.click(3, true, false);
    assert_eq!(grid.selection.len(), 3, "Shift takes the span from the anchor");
    grid.click(2, false, true);
    assert!(!grid.selection.contains(PhotoId(3)), "Ctrl toggles one photo");
    assert_eq!(grid.selection.len(), 2);
    grid.click(4, false, false);
    assert_eq!(grid.selection.len(), 1);
    assert!(grid.selection.contains(PhotoId(5)));
}

#[test]
fn double_clicks_open_the_loupe_next_frame() {
    let mut grid = grid_with(&[Label::Unlabeled; 3]);
    grid.double_click(2);
    assert_eq!(grid.open_requested, Some(OpenRequest { index: 2, lightbox: false }));
    let (action, _) = grid.ui(no_keys(), 2, false);
    assert!(action.is_none());
    assert_eq!(grid.loupe.map(|loupe| loupe.index()), Some(2));
}

#[test]
fn bands_select_what_they_cover() {
    let mut grid = grid_with(&[Label::Unlabeled; 4]);
    grid.click(3, false, false);
    assert!(!grid.step_marquee(Gesture::Press { inside: true, additive: true }));
    assert!(!grid.step_marquee(Gesture::At { far: true, covered: vec![0, 1] }));
    assert_eq!(grid.selection.len(), 3, "an additive band joins what was selected");
    assert!(grid.step_marquee(Gesture::Release { on_tile: false }), "a drag swallows the click");
    assert_eq!(grid.selection.len(), 3);
    assert!(!grid.step_marquee(Gesture::Press { inside: true, additive: false }));
    assert!(!grid.step_marquee(Gesture::At { far: true, covered: vec![2] }));
    assert_eq!(grid.selection.len(), 1);
    assert!(grid.step_marquee(Gesture::Release { on_tile: false }));
    // A plain click on bare sheet clears.
    assert!(!grid.step_marquee(Gesture::Press { inside: true, additive: false }));
    assert!(!grid.step_marquee(Gesture::Release { on_tile: false }));
    assert!(grid.selection.is_empty());
}

// --- export ---

#[test]
fn export_set_should_prefer_the_selection_over_the_filtered_view() {
    let mut grid = grid_with(&[Label::Unlabeled, Label::Unlabeled, Label::Unlabeled]);
    // Selection of the first and third photo.
    grid.selection.insert(PhotoId(1));
    grid.selection.insert(PhotoId(3));

    let files = grid.export_set();

    assert_eq!(files, vec!["/photos/IMG_0001.CR3".to_owned(), "/photos/IMG_0003.CR3".to_owned()]);
}

#[test]
fn export_set_should_fall_back_to_the_whole_filtered_view() {
    let mut grid = grid_with(&[Label::Unlabeled, Label::Red]);
    grid.filter.toggle(Label::Red);
    grid.apply_order_change();
    assert!(grid.selection.is_empty());

    let files = grid.export_set();

    assert_eq!(files, vec!["/photos/IMG_0002.CR3".to_owned()]);
}

#[test]
fn export_set_should_export_only_tiles_still_visible() {
    // A refilter keeps selection membership of hidden photos for
    // labeling continuity, but a batch export must never copy tiles
    // the sheet no longer shows.
    let mut grid = grid_with(&[Label::Red, Label::Unlabeled]);
    grid.select_all();
    grid.filter.toggle(Label::Unlabeled);
    grid.apply_order_change();

    let files = grid.export_set();

    assert_eq!(files, vec!["/photos/IMG_0002.CR3".to_owned()]);
}

#[test]
fn export_set_should_copy_the_companion_jpeg_right_after_its_raw() {
    let mut grid = grid_with(&[Label::Unlabeled, Label::Unlabeled]);
    grid.entries[0].jpeg_rel_path = Some("IMG_0001.JPG".to_owned());

    let files = grid.export_set();

    assert_eq!(
        files,
        vec![
            "/photos/IMG_0001.CR3".to_owned(),
            "/photos/IMG_0001.JPG".to_owned(),
            "/photos/IMG_0002.CR3".to_owned(),
        ]
    );
}

#[test]
fn export_run_state_should_track_progress_and_summaries() {
    let mut grid = grid_with(&[Label::Unlabeled, Label::Unlabeled]);

    grid.begin_export(2);
    assert!(grid.is_exporting());

    grid.apply_export_progress(1);
    grid.apply_export_progress(0);
    assert_eq!(grid.export_done, 1, "progress must never rewind");

    grid.finish_export(&Ok(ExportReport { copied: 2, failures: Vec::new(), cancelled: false }));
    assert!(!grid.is_exporting());
    let note = grid.export_note.as_ref().expect("note set");
    assert_eq!(note.text, "✓ Exported 2");

    grid.begin_export(3);
    grid.finish_export(&Ok(ExportReport {
        copied: 1,
        failures: vec![ExportFailure { source: "/photos/a.nef".to_owned(), reason: "vanished".to_owned() }],
        cancelled: false,
    }));
    let note = grid.export_note.as_ref().expect("note set");
    assert!(note.text.contains("failed"), "{}", note.text);

    grid.finish_export(&Ok(ExportReport { copied: 0, failures: Vec::new(), cancelled: true }));
    assert_eq!(grid.export_note.as_ref().map(|note| note.text.as_str()), Some("Export cancelled"));
}

#[test]
fn finish_export_should_report_a_failed_job_and_nothing_to_copy() {
    let mut grid = grid_with(&[Label::Unlabeled]);

    grid.finish_export(&Err("destination rejected".to_owned()));
    let note = grid.export_note.as_ref().expect("note set");
    assert!(note.text.contains("destination rejected"), "{}", note.text);

    // Destination equal to the source folder copies nothing: say so
    // instead of claiming a successful export of zero files.
    grid.finish_export(&Ok(ExportReport::default()));
    assert_eq!(grid.export_note.as_ref().map(|note| note.text.as_str()), Some("Nothing to copy"));
}

#[test]
fn apply_scan_should_retire_finished_export_state() {
    let mut grid = grid_with(&[Label::Unlabeled]);
    grid.begin_export(4);
    grid.apply_export_progress(2);

    let fresh = (0..2).map(|index| entry_at(index as u64 + 10, Label::Unlabeled)).collect();
    grid.apply_scan(Ok(fresh));

    assert!(!grid.is_exporting());
    assert_eq!(grid.export_note, None);
    assert!(grid.is_browsing("/photos"));
    assert!(!grid.is_browsing("/other"));
}

// --- rotation ---

#[test]
fn rotation_should_fall_back_to_the_cursor_photo_and_persist() {
    let mut db = Db::new();
    let mut grid = grid_with_db(&[Label::Unlabeled, Label::Unlabeled], &mut db);
    grid.cursor = Some(0);

    turn_and_store(&mut grid, &mut db, RotateDir::Clockwise);
    turn_and_store(&mut grid, &mut db, RotateDir::CounterClockwise);

    assert_eq!(grid.entries[0].rot_cw, 0, "CW then CCW returns upright");
    assert_eq!(grid.entries[1].rot_cw, 0);
    let stored = db.photo_entry(grid.entries[0].id).expect("row");
    assert_eq!(stored.rot_cw, 0);
}

#[test]
fn rotation_should_batch_turn_every_selected_photo() {
    let mut db = Db::new();
    let mut grid = grid_with_db(&[Label::Unlabeled, Label::Unlabeled], &mut db);
    grid.select_all();
    grid.entries[1].rot_cw = 3;

    turn_and_store(&mut grid, &mut db, RotateDir::Clockwise);

    // Each photo advances from its own current turn count.
    assert_eq!(grid.entries[0].rot_cw, 1);
    assert_eq!(grid.entries[1].rot_cw, 0);
    let stored = db.photo_entry(grid.entries[1].id).expect("row");
    assert_eq!(stored.rot_cw, 0);
}

// --- sorting ---

/// A sheet whose rows are in a shuffled scan order; names follow ids, so the
/// order by name is the order of the ids.
fn grid_shuffled() -> GridView {
    let mut grid = grid_with(&[
        Label::Unlabeled, // IMG_0001
        Label::Red,       // IMG_0002
        Label::Unlabeled, // IMG_0003
        Label::Unlabeled, // IMG_0004
        Label::Unlabeled, // IMG_0005
    ]);
    let shuffled: Vec<PhotoEntry> = [4_usize, 0, 3, 1, 2].iter().map(|&row| grid.entries[row].clone()).collect();
    grid.entries = shuffled;
    grid.apply_order_change();
    grid
}

fn stamp(grid: &mut GridView, id: u64, taken_at: &str) {
    grid.refresh_taken_at(vec![(PhotoId(id), Some(taken_at.to_owned()))]);
}

#[test]
fn filename_sort_should_order_rows_by_name_ignoring_scan_order() {
    let mut grid = grid_shuffled();
    grid.sort = SortKey::FileName;

    grid.apply_order_change();

    // Shuffled scan order maps names to rows as
    //   IMG_0001→1 · IMG_0002→3 · IMG_0003→4 · IMG_0004→2 · IMG_0005→0,
    // so name order visits exactly those rows.
    assert_eq!(grid.view, vec![1, 3, 4, 2, 0]);
}

#[test]
fn taken_at_sort_should_order_chronologically_and_put_unknowns_last() {
    let mut grid = grid_shuffled();
    grid.sort = SortKey::TakenAt;
    stamp(&mut grid, 1, "2024-05-01 10:00:00");
    stamp(&mut grid, 2, "2024-05-01 08:00:00");
    stamp(&mut grid, 4, "2024-05-01 09:00:00");
    // Ids 3 and 5 carry no stamp and must land after all stamped ones.

    grid.apply_order_change();

    // Chronological: 08:00 (row 3) → 09:00 (row 2) → 10:00 (row 1);
    // unknowns trail in filename order (rows 4, 0).
    assert_eq!(grid.view, vec![3, 2, 1, 4, 0]);
}

#[test]
fn resort_should_reanchor_the_cursor_onto_its_photo() {
    let mut grid = grid_shuffled();
    grid.apply_order_change(); // FileName order: cursor on first tile
    let cursor_photo = grid.id_at(grid.cursor.expect("armed")).expect("row");
    grid.sort = SortKey::TakenAt;
    stamp(&mut grid, 5, "2020-01-01 00:00:00"); // earliest overall

    grid.apply_order_change();

    let new_position = grid.cursor.expect("cursor survives a re-sort");
    assert_eq!(grid.id_at(new_position), Some(cursor_photo), "digits must keep hitting the same photo");
}

#[test]
fn resort_should_move_the_loupe_with_its_photo() {
    let mut grid = grid_shuffled();
    grid.sort = SortKey::TakenAt;
    stamp(&mut grid, 2, "2019-01-01 00:00:00"); // id 2 sorts first
    grid.apply_order_change();
    grid.loupe = Some(LoupeView::at(0));

    // Switching back to names moves id 2 away from slot 0…
    grid.sort = SortKey::FileName;

    grid.apply_order_change();

    let loupe_position = grid.loupe.as_ref().expect("kept open").index();
    assert_ne!(loupe_position, 0, "the loupe follows the photo it was showing");
    assert_eq!(grid.view[loupe_position], 3, "…and lands on id 2's new slot (row 3)");
}

#[test]
fn names_are_ordered_without_regard_to_case() {
    let mut grid = GridView::new("/photos".to_owned(), false);
    let mut first = entry_at(1, Label::Unlabeled);
    first.rel_path = "ÉTÉ.CR3".to_owned();
    let mut second = entry_at(2, Label::Unlabeled);
    second.rel_path = "b.CR3".to_owned();
    let mut third = entry_at(3, Label::Unlabeled);
    third.rel_path = "A.CR3".to_owned();
    let mut fourth = entry_at(4, Label::Unlabeled);
    fourth.rel_path = "été.CR3".to_owned();
    grid.apply_scan(Ok(vec![first, second, third, fourth]));
    assert_eq!(grid.view[..2], [2, 1]);
    assert_eq!(grid.view.len(), 4);
}

#[test]
fn picked_orders_wait_for_the_end_of_the_frame() {
    let mut grid = grid_shuffled();
    assert_eq!(grid.missing_stamps().len(), 5);
    grid.pick_sort(SortKey::TakenAt);
    assert_eq!(grid.sort, SortKey::FileName);
    assert_eq!(grid.take_pending_sort(), Some(SortKey::TakenAt));
    assert_eq!(grid.take_pending_sort(), None);
    stamp(&mut grid, 5, "2020-01-01 00:00:00");
    assert_eq!(grid.missing_stamps().len(), 4);
    grid.apply_sort(SortKey::TakenAt);
    assert_eq!(grid.view[0], 0);
}

// --- extraction on the sheet ---

#[test]
fn extraction_results_land_on_their_rows() {
    let mut grid = grid_with(&[Label::Unlabeled; 3]);
    grid.begin_ingest(2);
    assert!(grid.is_ingesting());
    let mut fresh = entry_at(2, Label::Blue);
    fresh.pixels = Some((10, 20));
    grid.apply_ingest_result(PhotoId(2), PhotoStatus::Ingested, Some(fresh));
    assert_eq!(grid.entries[1].pixels, Some((10, 20)));
    grid.apply_ingest_result(PhotoId(77), PhotoStatus::Error, None);
    assert_eq!(grid.ingest_done, 1, "a photo that is not on the sheet does not count");
    grid.apply_ingest_result(PhotoId(3), PhotoStatus::Error, None);
    assert_eq!(grid.entries[2].status, PhotoStatus::Error);
    assert!(!grid.is_ingesting());
    let tally = grid.tally();
    assert_eq!(tally.errors, 1);
    grid.finish_ingest();
    assert_eq!(grid.ingest_done, grid.ingest_total);
}

#[test]
fn waiting_photos_on_screen_are_pinged_once() {
    let mut grid = grid_with(&[Label::Unlabeled; 4]);
    grid.entries[2].status = PhotoStatus::Pending;
    grid.entries[1].status = PhotoStatus::Pending;
    grid.note_window(0, 4);
    assert_eq!(grid.take_priority_ping(), Some(vec![PhotoId(2), PhotoId(3)]));
    grid.note_window(0, 4);
    assert_eq!(grid.take_priority_ping(), None);
    assert_eq!(sorted_ids(&vec![PhotoId(9), PhotoId(4), PhotoId(7)]), vec![PhotoId(4), PhotoId(7), PhotoId(9)]);
}

#[test]
fn rows_around_the_window_are_fetched_ahead() {
    let mut grid = grid_with(&[Label::Unlabeled; 6]);
    for (index, entry) in grid.entries.iter_mut().enumerate() {
        entry.thumb_path = Some(format!("{index}.jpg"));
    }
    let band = grid.prefetch_band(1, 2, 2, 3);
    let mut ids: Vec<u64> = band.iter().map(|request| request.key.id.0).collect();
    ids.sort_unstable();
    assert_eq!(ids, vec![1, 2, 5, 6], "the rows on screen are not fetched ahead");
    let first = Request { key: TexKey::thumb(PhotoId(1)), source: Some(("0.jpg".to_owned(), Rotation::new(1, 0))) };
    assert!(band.contains(&first));
    assert_eq!(grid.visible_keys(1, 3), vec![TexKey::thumb(PhotoId(2)), TexKey::thumb(PhotoId(3))]);
}

// --- keys ---

#[test]
fn keys_drive_the_sheet() {
    let mut grid = grid_with(&[Label::Unlabeled; 4]);
    let (action, _) = grid.ui(SheetKeys { nav: Some(NavKey::ArrowDown), ..no_keys() }, 2, false);
    assert!(action.is_none());
    assert_eq!(grid.cursor, Some(2));
    let (_, writes) = grid.ui(SheetKeys { label: Some(Label::Red), ..no_keys() }, 2, false);
    assert_eq!(writes.labeled, vec![PhotoId(3)]);
    assert_eq!(grid.entries[2].label, Label::Red);
    let (_, writes) = grid.ui(SheetKeys { tab: true, ..no_keys() }, 2, false);
    assert_eq!(writes.auto_advance, Some(true));
    let (action, _) = grid.ui(SheetKeys { escape: true, ..no_keys() }, 2, false);
    assert!(matches!(action, Some(Action::BackToHome)));
    let (action, _) = grid.ui(SheetKeys { escape: true, ..no_keys() }, 2, true);
    assert!(action.is_none(), "a dialog suspends the keys");
    let (action, _) = grid.ui(SheetKeys { export: true, ..no_keys() }, 2, false);
    assert!(matches!(action, Some(Action::Export { files, .. }) if files.len() == 4));
}

#[test]
fn loupe_keys_walk_label_and_close() {
    let mut grid = grid_with(&[Label::Unlabeled; 3]);
    grid.auto_advance = true;
    grid.loupe = Some(LoupeView::at(0));
    let writes = grid.loupe_ui(LoupeKeys { label: Some(Label::Green), ..no_loupe_keys() }, false);
    assert_eq!(writes.label, Some((PhotoId(1), Label::Green)));
    assert_eq!(grid.loupe.map(|loupe| loupe.index()), Some(1), "auto-advance walks on");
    grid.loupe_ui(LoupeKeys { right: true, ..no_loupe_keys() }, false);
    assert_eq!(grid.loupe.map(|loupe| loupe.index()), Some(2));
    let writes = grid.loupe_ui(LoupeKeys { rotate: Some(RotateDir::Clockwise), ..no_loupe_keys() }, false);
    assert_eq!(writes.rotation, Some((PhotoId(3), 1)));
    grid.loupe_ui(LoupeKeys { lightbox: true, ..no_loupe_keys() }, false);
    grid.loupe_ui(LoupeKeys { escape: true, ..no_loupe_keys() }, false);
    assert!(grid.loupe.is_some(), "Escape leaves the lightbox first");
    grid.loupe_ui(LoupeKeys { escape: true, ..no_loupe_keys() }, false);
    assert!(grid.loupe.is_none());
}

#[test]
fn loupe_stays_open_without_keys() {
    let mut entries = vec![entry_at(1, Label::Unlabeled)];
    let mut auto_advance = false;
    let mut loupe = LoupeView::at(0);
    let (outcome, writes) = loupe.ui(no_loupe_keys(), &mut entries, &vec![0], &mut auto_advance, false);
    assert_eq!(outcome, Outcome::Stay);
    assert_eq!(writes.label, None);
}

#[test]
fn the_body_shows_the_loupe_a_notice_or_the_sheet() {
    let mut grid = GridView::new("/photos".to_owned(), true);
    assert_eq!(grid.body_state(), SheetBody::Scanning);
    grid.apply_scan(Ok(vec![]));
    assert_eq!(grid.body_state(), SheetBody::NoPhotos);
    grid.apply_scan(Ok(vec![entry_at(1, Label::Unlabeled)]));
    assert_eq!(grid.body_state(), SheetBody::Sheet);
    grid.pick_chip(FilterChip::Label(Label::Red));
    assert_eq!(grid.body_state(), SheetBody::NoMatches);
    grid.apply_scan(Err("gone".to_owned()));
    assert_eq!(grid.body_state(), SheetBody::Failed);
    grid.loupe = Some(LoupeView::at(0));
    assert_eq!(grid.body_state(), SheetBody::Loupe);
}

#[test]
fn a_digit_with_ctrl_leaves_the_labels_alone() {
    let mut entries = vec![entry_at(1, Label::Unlabeled), entry_at(2, Label::Green)];
    let mut loupe = LoupeView::at(0);
    let mut auto_advance = true;
    let mut keys = no_loupe_keys();
    keys.label = bare_label_key(&[false, true, false, false, false, false], true);

    let (outcome, writes) = loupe.ui(keys, &mut entries, &vec![0, 1], &mut auto_advance, false);

    assert_eq!(outcome, Outcome::Stay);
    assert_eq!(writes.label, None);
    assert_eq!(loupe.index(), 0);
    assert_eq!((entries[0].label, entries[1].label), (Label::Unlabeled, Label::Green));
}
