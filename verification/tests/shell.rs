//! The shell: screens, stale results, exports that wait for a word.

use cullr::export::ExportReport;
use cullr::frame::Action;
use cullr::grid::GridView;
use cullr::ingest::IngestEvent;
use cullr::model::{Label, PhotoEntry, PhotoId, PhotoStatus};
use cullr::shell::{display_name, overwrite_question, App, Errand, PendingExport, Screen};

fn entry(id: u64) -> PhotoEntry {
    PhotoEntry {
        id: PhotoId(id),
        rel_path: format!("IMG_{id:04}.CR3"),
        label: Label::Unlabeled,
        status: PhotoStatus::Pending,
        pixels: None,
        orientation: 1,
        rot_cw: 0,
        thumb_path: None,
        err_msg: None,
        jpeg_rel_path: None,
    }
}

fn sheet(app: &App) -> &GridView {
    match &app.screen {
        Screen::Grid(grid) => grid,
        Screen::Home(_) => panic!("the start screen is up"),
    }
}

/// A shell with the sheet of `/photos` up.
fn browsing() -> App {
    let mut app = App::new();
    app.open_folder("/photos".to_owned(), false);
    let keep = app.scan_finished("/photos", Ok(vec![entry(1), entry(2)]));
    assert_eq!(keep, Some(Some(vec![PhotoId(1), PhotoId(2)])));
    app
}

#[test]
fn opening_a_folder_mounts_a_sheet_that_waits_for_its_scan() {
    let mut app = App::new();
    assert!(!app.is_busy(false));
    assert!(!app.open_folder("/photos".to_owned(), true), "no export to stop");
    assert!(app.is_busy(false));
    let grid = sheet(&app);
    assert!(grid.loading);
    assert!(grid.auto_advance);
    assert!(grid.is_browsing("/photos"));
}

#[test]
fn results_for_other_folders_are_dropped() {
    let mut app = App::new();
    app.open_folder("/photos".to_owned(), false);
    assert_eq!(app.scan_finished("/other", Ok(vec![entry(9)])), None);
    assert!(sheet(&app).loading);
    assert_eq!(app.scan_finished("/photos", Err("denied".to_owned())), Some(None));
    assert_eq!(sheet(&app).error.as_deref(), Some("denied"));
    assert_eq!(app.scan_finished("/photos", Ok(vec![entry(9)])), None, "a scan reports once");
}

#[test]
fn extraction_news_of_another_batch_do_not_finish_this_one() {
    let mut app = browsing();
    app.ingest_started(2, 5);
    assert!(app.is_busy(false));
    app.ingest_event(IngestEvent::Finished { generation: 4 }, None);
    assert!(sheet(&app).is_ingesting());
    let mut fresh = entry(1);
    fresh.status = PhotoStatus::Ingested;
    app.ingest_event(IngestEvent::Ingested(PhotoId(1)), Some(fresh));
    app.ingest_event(IngestEvent::Failed(PhotoId(2)), None);
    assert_eq!(sheet(&app).entries[0].status, PhotoStatus::Ingested);
    assert_eq!(sheet(&app).entries[1].status, PhotoStatus::Error);
    app.ingest_event(IngestEvent::Finished { generation: 5 }, None);
    assert!(!sheet(&app).is_ingesting());
    assert_eq!(app.take_priority(), None);
}

#[test]
fn exports_start_at_once_unless_they_overwrite() {
    let mut app = browsing();
    let files = vec!["/photos/a.nef".to_owned()];
    let order = app.destination_picked("/photos".to_owned(), files.clone(), "/dest".to_owned(), vec![]);
    assert_eq!(order.expect("starts").dest, "/dest");
    assert!(sheet(&app).is_exporting());
    app.export_progress("/other", 1);
    assert_eq!(sheet(&app).export_done, 0, "ticks of other folders are dropped");
    app.export_finished("/photos", &Ok(ExportReport { copied: 1, failures: vec![], cancelled: false }));
    assert!(!sheet(&app).is_exporting());

    let order = app.destination_picked("/photos".to_owned(), files, "/dest".to_owned(), vec!["a.nef".to_owned()]);
    assert!(order.is_none());
    assert!(app.suspended(), "the question holds everything else up");
    assert!(app.answer_overwrite(false, false, false, false).is_none());
    assert!(app.pending_export.is_some());
    assert!(app.answer_overwrite(false, false, true, false).is_none());
    assert!(app.pending_export.is_none());
    assert!(!app.suspended());
}

#[test]
fn enter_confirms_an_overwrite() {
    let mut app = browsing();
    app.destination_picked(
        "/photos".to_owned(),
        vec!["/photos/a.nef".to_owned(), "/photos/b.nef".to_owned()],
        "/dest".to_owned(),
        vec!["a.nef".to_owned()],
    );
    let order = app.answer_overwrite(false, true, false, false).expect("confirmed");
    assert_eq!(order.files.len(), 2);
    assert_eq!(sheet(&app).export_total, 2);
}

#[test]
fn wishes_become_errands() {
    let mut app = browsing();
    assert!(matches!(app.run_action(None), Errand::Nothing));
    assert!(matches!(app.run_action(Some(Action::PickFolder)), Errand::PickFolder));
    assert!(matches!(app.run_action(Some(Action::OpenFolder("/x".to_owned()))), Errand::Open(path) if path == "/x"));
    let export = Action::Export { root: "/photos".to_owned(), files: vec!["/photos/a".to_owned()] };
    assert!(matches!(app.run_action(Some(export)), Errand::PickDestination { files, .. } if files.len() == 1));
    assert!(matches!(app.run_action(Some(Action::ShowAbout)), Errand::Nothing));
    assert!(app.suspended());
    assert!(matches!(app.run_action(Some(Action::BackToHome)), Errand::Stop { export: false }));
    assert!(matches!(app.screen, Screen::Home(_)));
}

#[test]
fn the_overwrite_question_names_what_is_there() {
    let pending = PendingExport {
        root: "/photos".to_owned(),
        files: vec![],
        dest: "/mnt/card".to_owned(),
        duplicates: (1..=6).map(|index| format!("{index}.nef")).collect(),
    };
    let question = overwrite_question(&pending);
    assert_eq!(question.folder, "card");
    assert_eq!(question.holds, "already contains 6 files with these names:");
    assert_eq!(question.names, "1.nef, 2.nef, 3.nef, 4.nef, … and 2 more");
    assert_eq!(question.warning, "Exporting will overwrite them with your copies of these files.");
    assert_eq!(question.button, "Overwrite 6 files");
    assert_eq!(display_name(&"/mnt/card/".to_owned()), "card");
}
