//! Scans: which files count, in what order, and which JPEGs go with them.

use std::time::SystemTime;

use cullr::db::Db;
use cullr::model::{PhotoMeta, ScanOptions};
use cullr::scanner::{
    extension_of, has_jpeg_extension, has_raw_extension, is_hidden, lowered_stem, scan_folder, RootState, ScanError,
    WalkEntry,
};

/// What a walk over these files and folders meets; a path that ends in `/`
/// is a folder.
fn walked(paths: &[&str]) -> Vec<WalkEntry> {
    paths
        .iter()
        .map(|path| match path.strip_suffix('/') {
            Some(folder) => WalkEntry { rel_path: folder.to_owned(), is_file: false, stat: Some((0, 4096)) },
            None => WalkEntry { rel_path: (*path).to_owned(), is_file: true, stat: Some((1_000_000_000, 1)) },
        })
        .collect()
}

fn root() -> String {
    "/photos".to_owned()
}

fn scan(paths: &[&str], options: ScanOptions) -> Vec<PhotoMeta> {
    scan_folder(&root(), &RootState::Directory, &walked(paths), options).expect("scan")
}

fn names(photos: &[PhotoMeta]) -> Vec<String> {
    photos.iter().map(|photo| photo.rel_path.clone()).collect()
}

#[test]
fn scan_should_return_direct_children_ordered_by_relative_path() {
    let photos = scan(&["IMG_0002.CR3", "IMG_0001.nef", "IMG_0010.ARW"], ScanOptions::default());

    assert_eq!(names(&photos), vec!["IMG_0001.nef", "IMG_0002.CR3", "IMG_0010.ARW"]);
}

#[test]
fn scan_should_skip_unsupported_extensions() {
    let photos = scan(&["photo.jpg", "notes.txt", "keep.NEF"], ScanOptions::default());

    assert_eq!(names(&photos), vec!["keep.NEF"]);
}

#[test]
fn scan_should_pair_a_sibling_jpeg_onto_its_raw() {
    let photos = scan(&["IMG_0001.CR3", "IMG_0001.JPG"], ScanOptions::default());

    // One copy on the sheet: the JPEG never becomes its own photo.
    assert_eq!(photos.len(), 1);
    assert_eq!(names(&photos), vec!["IMG_0001.CR3"]);
    assert_eq!(photos[0].jpeg_rel_path.as_deref(), Some("IMG_0001.JPG"));
}

#[test]
fn scan_should_match_companion_stems_and_extensions_case_insensitively() {
    let photos = scan(&["img_0002.nef", "IMG_0002.JPEG"], ScanOptions::default());

    assert_eq!(photos[0].jpeg_rel_path.as_deref(), Some("IMG_0002.JPEG"));
}

#[test]
fn scan_should_leave_raws_without_a_jpeg_companion_alone() {
    let photos = scan(&["a.cr3", "b.arw"], ScanOptions::default());

    assert!(photos.iter().all(|photo| photo.jpeg_rel_path.is_none()), "no siblings means no pairing");
}

#[test]
fn scan_should_ignore_unpaired_jpegs_entirely() {
    let photos = scan(&["solo.jpg", "b.arw"], ScanOptions::default());

    assert_eq!(names(&photos), vec!["b.arw"]);
    assert_eq!(photos[0].jpeg_rel_path, None);
}

#[test]
fn scan_should_not_pair_across_directories_even_recursively() {
    let photos = scan(&["sub/", "a.cr3", "sub/a.jpg"], ScanOptions { recursive: true });

    assert!(!photos.iter().any(|photo| photo.jpeg_rel_path.is_some()), "companions must be same-directory");
}

#[test]
fn scan_should_pick_a_deterministic_companion_when_several_match() {
    let photos = scan(&["A.CR3", "a.jpeg", "a.jpg"], ScanOptions::default());

    assert_eq!(photos[0].rel_path, "A.CR3");
    // Sorted-path pick, stable across rescans whichever spelling won.
    assert_eq!(photos[0].jpeg_rel_path.as_deref(), Some("a.jpeg"));
    let turned = scan(&["a.jpg", "a.jpeg", "A.CR3"], ScanOptions::default());
    assert_eq!(turned, photos);
}

#[test]
fn scan_should_pair_within_subdirectories_when_recursive() {
    let photos = scan(&["day1/", "day1/b.orf", "day1/b.JPG"], ScanOptions { recursive: true });

    assert_eq!(photos[0].jpeg_rel_path.as_deref(), Some("day1/b.JPG"));
}

#[test]
fn scan_should_match_extensions_case_insensitively() {
    let photos = scan(&["lower.orf", "upper.ORF"], ScanOptions::default());

    assert_eq!(names(&photos).len(), 2);
}

#[test]
fn scan_should_ignore_extensionless_and_dotfiles() {
    let photos = scan(&["noext", ".hidden.nef", "visible.raf"], ScanOptions::default());

    assert_eq!(names(&photos), vec!["visible.raf"]);
}

#[test]
fn scan_should_skip_hidden_directories() {
    let photos = scan(&[".trash/", ".trash/junk.dng", "shot.arw"], ScanOptions::default());

    assert_eq!(names(&photos), vec!["shot.arw"]);
    let deep = scan(&["a/", "a/.trash/", "a/.trash/junk.dng", "a/shot.arw"], ScanOptions { recursive: true });
    assert_eq!(names(&deep), vec!["a/shot.arw"]);
}

#[test]
fn scan_should_stay_at_depth_one_by_default() {
    let photos = scan(&["sub/", "sub/nested.cr3", "top.rw2"], ScanOptions::default());

    assert_eq!(names(&photos), vec!["top.rw2"]);
}

#[test]
fn scan_should_recurse_when_requested() {
    let photos = scan(&["sub/", "sub/nested.cr3", "top.rw2"], ScanOptions { recursive: true });

    assert_eq!(names(&photos), vec!["sub/nested.cr3".to_owned(), "top.rw2".to_owned()]);
}

#[test]
fn scan_should_capture_file_size() {
    let met = vec![WalkEntry { rel_path: "a.dng".to_owned(), is_file: true, stat: Some((7, 5)) }];

    let photos = scan_folder(&root(), &RootState::Directory, &met, ScanOptions::default()).expect("scan");

    assert_eq!(photos[0].size, 5);
    assert_eq!(photos[0].mtime, 7);
    assert_eq!(photos[0].root, "/photos");
}

#[test]
fn scan_should_capture_mtime_not_in_the_future() {
    let nanos = || SystemTime::now().duration_since(SystemTime::UNIX_EPOCH).expect("clock").as_nanos() as i128;
    let met = vec![WalkEntry { rel_path: "a.dng".to_owned(), is_file: true, stat: Some((nanos(), 1)) }];

    let photos = scan_folder(&root(), &RootState::Directory, &met, ScanOptions::default()).expect("scan");

    assert!(photos[0].mtime <= nanos());
}

#[test]
fn scan_should_report_missing_root_as_error() {
    let result = scan_folder(
        &"/tmp/cullr-definitely-missing-42".to_owned(),
        &RootState::Unreachable("no such folder".to_owned()),
        &vec![],
        ScanOptions::default(),
    );

    assert!(result.is_err());
    let error = result.expect_err("missing");
    assert!(matches!(&error, ScanError::Stat { .. }));
    assert_eq!(error.message(), "cannot access folder `/tmp/cullr-definitely-missing-42`");
}

#[test]
fn scan_should_reject_file_root() {
    let result = scan_folder(&"/p/plain.txt".to_owned(), &RootState::NotADirectory, &vec![], ScanOptions::default());

    assert!(matches!(&result, Err(ScanError::NotADirectory(_))));
    assert_eq!(result.expect_err("file").message(), "root `/p/plain.txt` is not a directory");
}

#[test]
fn unreadable_and_odd_entries_are_left_out() {
    let mut met = walked(&["a.nef", "b.nef", "c.nef/"]);
    met[1].stat = None;

    let photos = scan_folder(&root(), &RootState::Directory, &met, ScanOptions::default()).expect("scan");

    assert_eq!(names(&photos), vec!["a.nef"]);
}

#[test]
fn names_are_taken_apart_at_the_last_dot() {
    assert!(is_hidden(".a"));
    assert!(!is_hidden("a."));
    assert_eq!(extension_of("a.b.CR3").as_deref(), Some("CR3"));
    assert_eq!(extension_of(".nef").as_deref(), Some("nef"));
    assert_eq!(extension_of("nef."), None);
    assert_eq!(extension_of("nef"), None);
    assert!(has_raw_extension("a.CR3"));
    assert!(!has_raw_extension("a.jpg"));
    assert!(has_jpeg_extension("a.JpEg"));
    assert!(!has_jpeg_extension("a.nef"));
    assert_eq!(lowered_stem("IMG.1.CR3"), Some("img.1".chars().collect::<Vec<char>>()));
}

#[test]
fn rescan_should_return_the_same_rows_as_a_real_double_open() {
    let mut met = walked(&["IMG_0001.CR3", "IMG_0002.CR3"]);
    met[0].stat = Some((5, 3));
    met[1].stat = Some((6, 4));
    let mut db = Db::new();
    let once = scan_folder(&root(), &RootState::Directory, &met, ScanOptions::default()).expect("scan");
    let first = db.sync_scan(&root(), &once, ScanOptions::default()).expect("first sync");
    let again = scan_folder(&root(), &RootState::Directory, &met, ScanOptions::default()).expect("rescan");
    let second = db.sync_scan(&root(), &again, ScanOptions::default()).expect("second sync");

    assert_eq!(second, first);
}

#[test]
fn a_jpeg_goes_with_the_first_raw_of_its_name_only() {
    let photos = scan(&["a.NEF", "A.cr3", "a.jpg"], ScanOptions::default());

    assert_eq!(names(&photos), vec!["A.cr3", "a.NEF"]);
    assert_eq!(photos[0].jpeg_rel_path, None);
    assert_eq!(photos[1].jpeg_rel_path.as_deref(), Some("a.jpg"));
}

#[test]
fn names_that_are_no_text_find_their_row_again() {
    let name = vec![0xff, b'.', b'n', b'e', b'f'];
    let met = WalkEntry::read(&name, true, Some((1_000_000_000, 1)));
    assert_eq!(met.rel_path, "\u{fffd}.nef");
    assert_eq!(WalkEntry::read(&"é.nef".as_bytes().to_vec(), true, None).rel_path, "é.nef");

    let mut db = Db::new();
    let mut sync = || {
        let walked = vec![WalkEntry::read(&name, true, Some((1_000_000_000, 1)))];
        let photos = scan_folder(&root(), &RootState::Directory, &walked, ScanOptions::default()).expect("scan");
        db.sync_scan(&root(), &photos, ScanOptions::default()).expect("sync")
    };
    let first = sync();
    let again = sync();

    assert_eq!(first.len(), 1);
    assert_eq!(again, first);
}
