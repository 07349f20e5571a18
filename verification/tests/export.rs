//! Export runs.

use cullr::export::{
    candidate_names, existing_names, export_files, file_noun, names_preview, CopyResult, ExportError, ExportReport,
    ExportRun, ExportStep,
};

/// Folders in memory, in place of a disk.
struct Files {
    files: Vec<(String, Vec<u8>)>,
}

impl Files {
    fn new() -> Self {
        Files { files: Vec::new() }
    }

    fn write(&mut self, path: &str, contents: &[u8]) -> String {
        self.files.retain(|(name, _)| name != path);
        self.files.push((path.to_owned(), contents.to_vec()));
        path.to_owned()
    }

    fn read(&self, path: &str) -> Option<&[u8]> {
        self.files.iter().find(|(name, _)| name == path).map(|(_, contents)| contents.as_slice())
    }

    fn copy(&mut self, source: &str, dest: &str) -> CopyResult {
        if source == dest {
            return CopyResult::InPlace;
        }
        match self.read(source).map(<[u8]>::to_vec) {
            Some(contents) => {
                self.write(dest, &contents);
                CopyResult::Copied
            }
            None => CopyResult::Failed("no such file".to_owned()),
        }
    }

    /// The file names directly in a folder.
    fn names_in(&self, folder: &str) -> Vec<String> {
        let prefix = format!("{folder}/");
        self.files.iter().filter_map(|(name, _)| name.strip_prefix(&prefix).map(str::to_owned)).collect()
    }
}

/// Runs an export; returns the report and the progress ticks.
fn run(files: &mut Files, sources: &[String], dest: &str, cancel: bool) -> (ExportReport, Vec<usize>) {
    let mut run = match ExportRun::begin(sources.to_vec(), &dest.to_owned(), true) {
        Ok(run) => run,
        Err(error) => panic!("destination should be usable: {error:?}"),
    };
    let mut ticks = Vec::new();
    loop {
        match run.next(cancel) {
            ExportStep::Copy { source, dest } => {
                let result = files.copy(&source, &dest);
                ticks.push(run.record(result));
            }
            ExportStep::Skipped => ticks.push(run.at),
            ExportStep::Finished => return (run.report, ticks),
        }
    }
}

#[test]
fn export_should_copy_files_under_their_own_names() {
    let mut files = Files::new();
    let a = files.write("/src/IMG_0001.CR3", b"alpha");
    let b = files.write("/src/IMG_0002.nef", b"beta");

    let (report, _) = run(&mut files, &[a, b], "/dest", false);

    assert_eq!(report.copied, 2);
    assert!(report.failures.is_empty());
    assert!(!report.cancelled);
    assert_eq!(files.read("/dest/IMG_0001.CR3").expect("copy exists"), b"alpha");
    assert_eq!(files.read("/dest/IMG_0002.nef").expect("copy exists"), b"beta");
}

#[test]
fn export_should_overwrite_existing_destination_files() {
    let mut files = Files::new();
    let a = files.write("/src/a.nef", b"fresh-and-longer");
    files.write("/dest/a.nef", b"stale");

    let (report, _) = run(&mut files, &[a], "/dest", false);

    assert_eq!(report.copied, 1);
    assert_eq!(files.read("/dest/a.nef").expect("copy exists"), b"fresh-and-longer");
}

#[test]
fn export_should_continue_past_a_missing_source() {
    let mut files = Files::new();
    let missing = "/src/gone.nef".to_owned();
    let present = files.write("/src/here.nef", b"data");

    let (report, _) = run(&mut files, &[missing, present], "/dest", false);

    assert_eq!(report.copied, 1);
    assert_eq!(report.failures.len(), 1);
    assert_eq!(report.failures[0].source, "/src/gone.nef");
    assert_eq!(files.read("/dest/here.nef").expect("later file still copied"), b"data");
}

#[test]
fn export_should_stop_early_when_cancelled() {
    let mut files = Files::new();
    let a = files.write("/src/a.nef", b"a");
    let b = files.write("/src/b.nef", b"b");

    let (report, _) = run(&mut files, &[a, b], "/dest", true);

    assert!(report.cancelled);
    assert_eq!(report.copied, 0);
    assert!(files.read("/dest/b.nef").is_none(), "cancelled run must not reach later files");
}

#[test]
fn export_into_the_source_folder_should_skip_instead_of_failing() {
    let mut files = Files::new();
    let a = files.write("/src/a.nef", b"a");

    let (report, _) = run(&mut files, &[a], "/src", false);

    assert_eq!(report.copied, 1);
    assert!(report.failures.is_empty());
}

#[test]
fn export_progress_should_advance_once_per_attempt() {
    let mut files = Files::new();
    let a = files.write("/src/a.nef", b"a");
    let missing = "/src/gone.nef".to_owned();

    let (report, ticks) = run(&mut files, &[a, missing], "/dest", false);

    assert_eq!(ticks, vec![1, 2]);
    assert_eq!(report.processed(), 2);
}

#[test]
fn existing_names_should_list_only_sources_already_in_the_destination() {
    let mut files = Files::new();
    let fresh = files.write("/src/fresh.nef", b"f");
    let clash = files.write("/src/clash.nef", b"c");
    let sources = vec![fresh, clash];

    let names = existing_names(&sources, &files.names_in("/dest"));

    assert!(names.is_empty(), "nothing in dest yet, nothing to warn about");

    files.write("/dest/clash.nef", b"old");
    let names = existing_names(&sources, &files.names_in("/dest"));
    assert_eq!(names, vec!["clash.nef".to_owned()]);
}

#[test]
fn existing_names_should_deduplicate_repeated_source_names() {
    let mut files = Files::new();
    let a = files.write("/src/a.nef", b"a");
    let same_name = files.write("/other/a.nef", b"different bytes");
    let b = files.write("/src/b.nef", b"b");
    let sources = vec![a, same_name, b];

    let names = existing_names(&sources, &files.names_in("/dest"));
    assert!(names.is_empty(), "empty destination, nothing to warn about");

    files.write("/dest/a.nef", b"old");
    files.write("/dest/b.nef", b"old");
    let names = existing_names(&sources, &files.names_in("/dest"));
    assert_eq!(names, vec!["a.nef".to_owned(), "b.nef".to_owned()], "two sources sharing a name warn once");
    assert_eq!(candidate_names(&sources), vec!["a.nef".to_owned(), "b.nef".to_owned()]);
}

#[test]
fn export_should_reject_a_missing_destination() {
    let result =
        export_files(vec!["/src/a.nef".to_owned()], &"/src/nowhere".to_owned(), false, vec![CopyResult::Copied], None);

    assert!(matches!(result, Err(ExportError::Destination(_))));
}

#[test]
fn export_should_reject_a_file_destination() {
    let result = ExportRun::begin(vec!["/src/a.nef".to_owned()], &"/src/plain.txt".to_owned(), false);

    let error = result.err().expect("a file is no destination");
    assert!(matches!(&error, ExportError::Destination(dir) if dir == "/src/plain.txt"));
    assert_eq!(error.message(), "cannot export into `/src/plain.txt`");
}

#[test]
fn whole_runs_report_what_happened_before_the_stop() {
    let sources = vec!["/src/a".to_owned(), "/".to_owned(), "/src/c".to_owned()];
    let results = vec![CopyResult::Copied, CopyResult::Copied, CopyResult::Copied];
    let (report, ticks) =
        export_files(sources.clone(), &"/dest".to_owned(), true, results.clone(), None).expect("folder");
    assert_eq!(report.copied, 2);
    assert_eq!(report.failures.len(), 1);
    assert_eq!(report.failures[0].reason, "path has no file name");
    assert_eq!(ticks, vec![1, 2, 3]);
    let (report, ticks) = export_files(sources, &"/dest".to_owned(), true, results, Some(1)).expect("folder");
    assert!(report.cancelled);
    assert_eq!(report.copied, 1);
    assert_eq!(ticks, vec![1]);
}

#[test]
fn previews_of_names_are_bounded() {
    assert_eq!(file_noun(1), "file");
    assert_eq!(file_noun(0), "files");
    assert_eq!(names_preview(&vec!["a".to_owned(), "b".to_owned()]), "a, b");
    let many: Vec<String> = (0..30).map(|index| format!("n{index}")).collect();
    let text = names_preview(&many);
    assert!(text.starts_with("n0, n1"));
    assert!(!text.contains("n29"), "{text}");
}
