//! The application shell: which screen is up, which background results still
//! count, and what the user's wishes set off.
//!
//! Threads, dialogs and the picker live outside. They hand their results to
//! [`App`], and do what its answers say.

use vstd::prelude::*;

use crate::export::{contents, file_noun, names_preview, preview_of_names, ExportReport};
use crate::frame::Action;
use crate::grid::{view_fits, GridView};
use crate::ingest::IngestEvent;
use crate::modals::Modals;
use crate::model::{Label, PhotoEntry, PhotoId, PhotoStatus};
use crate::path::{components, display_file_name, same_path, shown_name};
use crate::progress::{landed, landing_id, outcome_is_bad, outcome_words, row_of_id};
use crate::text::{concat, decimal, decimal_text};
use crate::widgets::SortKey;

verus! {

/// How many recently opened folders the start screen offers.
pub const RECENT_LIMIT: usize = 10;

/// The start screen; it has no state of its own.
#[derive(Clone, Copy, Debug)]
pub struct HomeView;

/// Short name of a folder on the start screen.
pub fn display_name(path: &String) -> (name: String)
    ensures
        name@ == shown_name(path@),
{
    display_file_name(path)
}

/// The screen that is up.
pub enum Screen {
    /// The start screen.
    Home(HomeView),
    /// The sheet of a folder.
    Grid(GridView),
}

/// An export that would overwrite files, waiting for a word from the user.
pub struct PendingExport {
    /// The folder that is exported from.
    pub root: String,
    /// The files to copy.
    pub files: Vec<String>,
    /// Where to.
    pub dest: String,
    /// Names that are there already.
    pub duplicates: Vec<String>,
}

/// An export that is to start now.
pub struct ExportOrder {
    /// The folder that is exported from.
    pub root: String,
    /// The files to copy.
    pub files: Vec<String>,
    /// Where to.
    pub dest: String,
}

/// What a wish of the user sets off outside.
pub enum Errand {
    /// Nothing.
    Nothing,
    /// Ask for a folder, then open it.
    PickFolder,
    /// Open this folder.
    Open(String),
    /// Ask where to copy these files.
    PickDestination { root: String, files: Vec<String> },
    /// Stop extraction, and the export if there is one.
    Stop { export: bool },
}

/// State of the shell.
pub struct App {
    /// The screen that is up.
    pub screen: Screen,
    /// Folder whose scan is under way.
    pub scanning: Option<String>,
    /// Generation of the batch on the sheet.
    pub ingest_generation: u64,
    /// Dialogs.
    pub modals: Modals,
    /// Folder of the export under way.
    pub export_root: Option<String>,
    /// Export waiting for a word from the user.
    pub pending_export: Option<PendingExport>,
}

/// A folder is the one that is noted.
pub open spec fn noted(noted: Option<String>, root: Seq<char>) -> bool {
    match noted {
        Some(folder) => components(folder@) == components(root),
        None => false,
    }
}

/// The sheet is up and belongs to a folder.
pub open spec fn browses(screen: Screen, root: Seq<char>) -> bool {
    match screen {
        Screen::Grid(grid) => components(grid.root@) == components(root),
        Screen::Home(_) => false,
    }
}

/// The sheet of a folder whose scan was just started.
pub open spec fn fresh_sheet(screen: Screen, root: Seq<char>, auto_advance: bool) -> bool {
    match screen {
        Screen::Grid(grid) => {
            &&& grid.root@ == root
            &&& grid.loading
            &&& grid.entries@.len() == 0
            &&& grid.view@.len() == 0
            &&& grid.auto_advance == auto_advance
            &&& grid.filter@ == Set::<Label>::empty()
            &&& grid.sort == SortKey::FileName
            &&& grid.taken_at@ == Map::<u64, Option<String>>::empty()
            &&& grid.pending_sort is None
            &&& grid.error is None
            &&& grid.ingest_total == 0
            &&& grid.ingest_done == 0
            &&& grid.last_ping@.len() == 0
            &&& grid.ping is None
            &&& grid.cursor is None
            &&& grid.selection@ == Set::<PhotoId>::empty()
            &&& grid.anchor is None
            &&& grid.marquee is None
            &&& grid.scroll_target is None
            &&& grid.open_requested is None
            &&& grid.loupe is None
            &&& grid.reset_scroll
            &&& grid.export_done == 0
            &&& grid.export_total == 0
            &&& grid.export_note is None
        },
        Screen::Home(_) => false,
    }
}

/// The photos of rows.
pub open spec fn row_ids(entries: Seq<PhotoEntry>) -> Seq<PhotoId> {
    Seq::new(entries.len(), |i: int| entries[i].id)
}

/// The sheet took in the result of a scan.
pub open spec fn scan_taken(before: GridView, result: Result<Vec<PhotoEntry>, String>, after: GridView) -> bool {
    match result {
        Ok(entries) => {
            &&& view_fits(entries@, before.filter@, before.sort, Map::empty(), after.view@)
            &&& after.cursor == (if after.view@.len() > 0 {
                Some(0usize)
            } else {
                None
            })
            &&& after.selection@ == Set::<PhotoId>::empty()
            &&& after.taken_at@ == Map::<u64, Option<String>>::empty()
            &&& after == (GridView {
                entries,
                view: after.view,
                taken_at: after.taken_at,
                loading: false,
                cursor: after.cursor,
                selection: after.selection,
                anchor: None,
                marquee: None,
                reset_scroll: true,
                export_done: 0,
                export_total: 0,
                export_note: None,
                ..before
            })
        },
        Err(message) => after == (GridView { loading: false, error: Some(message), ..before }),
    }
}

impl App {
    /// What is on screen is well-formed.
    pub open spec fn wf(self) -> bool {
        match self.screen {
            Screen::Grid(grid) => grid.wf(),
            Screen::Home(_) => true,
        }
    }

    /// The shell on the start screen.
    pub fn new() -> (app: Self)
        ensures
            app.wf(),
            app.screen is Home,
            app.scanning is None,
            app.ingest_generation == 0,
            app.modals == (Modals { help: false, about: false }),
            app.export_root is None,
            app.pending_export is None,
    {
        App {
            screen: Screen::Home(HomeView),
            scanning: None,
            ingest_generation: 0,
            modals: Modals { help: false, about: false },
            export_root: None,
            pending_export: None,
        }
    }

    /// Whether a dialog covers the screens, so that they take no input.
    pub fn suspended(&self) -> (r: bool)
        ensures
            r == (self.modals.help || self.modals.about || self.pending_export is Some),
    {
        self.modals.any() || self.pending_export.is_some()
    }

    /// Puts up the empty sheet of a folder; its scan is to be started, and
    /// extraction stopped. Says whether an export has to be stopped too.
    pub fn open_folder(&mut self, root: String, auto_advance: bool) -> (stop_export: bool)
        ensures
            final(self).wf(),
            stop_export == old(self).export_root is Some,
            fresh_sheet(final(self).screen, root@, auto_advance),
            *final(self) == (App {
                screen: final(self).screen,
                scanning: Some(root),
                export_root: None,
                pending_export: None,
                ..*old(self)
            }),
    {
        let stop_export: bool = self.export_root.is_some();
        self.export_root = None;
        self.pending_export = None;
        self.scanning = Some(root.clone());
        self.screen = Screen::Grid(GridView::new(root, auto_advance));
        stop_export
    }

    /// Takes in the end of a scan. `None` says that it does not count: another
    /// folder is being scanned, or none. Else textures of photos not listed
    /// are to be forgotten (if the scan went well), and the photos of the
    /// folder that wait for extraction are to be queued.
    pub fn scan_finished(&mut self, root: &str, result: Result<Vec<PhotoEntry>, String>) -> (keep: Option<
        Option<Vec<PhotoId>>,
    >)
        requires
            old(self).wf(),
        ensures
            final(self).wf(),
            if !noted(old(self).scanning, root@) {
                keep is None && *final(self) == *old(self)
            } else {
                &&& *final(self) == (App { screen: final(self).screen, scanning: None, ..*old(self) })
                &&& match old(self).screen {
                    Screen::Home(_) => keep is None && final(self).screen == old(self).screen,
                    Screen::Grid(before) => {
                        &&& final(self).screen matches Screen::Grid(after) && scan_taken(before, result, after)
                        &&& match result {
                            Ok(entries) => keep matches Some(Some(ids)) && ids@ == row_ids(entries@),
                            Err(_) => keep == Some(None::<Vec<PhotoId>>),
                        }
                    },
                }
            },
    {
        let counts: bool = match &self.scanning {
            Some(folder) => same_path(folder.as_str(), root),
            None => false,
        };
        if !counts {
            return None;
        }
        self.scanning = None;
        match &mut self.screen {
            Screen::Home(_) => None,
            Screen::Grid(grid) => {
                let keep: Option<Vec<PhotoId>> = match &result {
                    Ok(entries) => Some(ids_of(entries)),
                    Err(_) => None,
                };
                grid.apply_scan(result);
                Some(keep)
            },
        }
    }

    /// Takes note of a batch that was queued.
    pub fn ingest_started(&mut self, total: usize, generation: u64)
        requires
            old(self).wf(),
        ensures
            final(self).wf(),
            *final(self) == (App { ingest_generation: generation, screen: final(self).screen, ..*old(self) }),
            match old(self).screen {
                Screen::Home(_) => final(self).screen == old(self).screen,
                Screen::Grid(before) => final(self).screen == Screen::Grid(
                    GridView { ingest_total: total, ingest_done: 0, ..before },
                ),
            },
    {
        self.ingest_generation = generation;
        match &mut self.screen {
            Screen::Home(_) => {},
            Screen::Grid(grid) => {
                grid.begin_ingest(total);
            },
        }
    }

    /// Takes in a progress tick of an export; it counts for the sheet of the
    /// folder while an export is under way.
    pub fn export_progress(&mut self, root: &str, done: usize)
        requires
            old(self).wf(),
        ensures
            final(self).wf(),
            *final(self) == (App { screen: final(self).screen, ..*old(self) }),
            match old(self).screen {
                Screen::Grid(before) if old(self).export_root is Some && browses(old(self).screen, root@) => {
                    final(self).screen == Screen::Grid(
                        GridView {
                            export_done: if done > before.export_done {
                                done
                            } else {
                                before.export_done
                            },
                            ..before
                        },
                    )
                },
                _ => final(self).screen == old(self).screen,
            },
    {
        if self.export_root.is_none() {
            return ;
        }
        match &mut self.screen {
            Screen::Home(_) => {},
            Screen::Grid(grid) => {
                if grid.is_browsing(root) {
                    grid.apply_export_progress(done);
                }
            },
        }
    }

    /// Takes in the end of an export; that of another folder than the one
    /// under way does not count.
    pub fn export_finished(&mut self, root: &str, result: &Result<ExportReport, String>)
        requires
            old(self).wf(),
        ensures
            final(self).wf(),
            if !noted(old(self).export_root, root@) {
                *final(self) == *old(self)
            } else {
                &&& *final(self) == (App { screen: final(self).screen, export_root: None, ..*old(self) })
                &&& match old(self).screen {
                    Screen::Grid(before) if browses(old(self).screen, root@) => {
                        &&& final(self).screen matches Screen::Grid(after) && export_ended(before, *result, after)
                    },
                    _ => final(self).screen == old(self).screen,
                }
            },
    {
        let counts: bool = match &self.export_root {
            Some(folder) => same_path(folder.as_str(), root),
            None => false,
        };
        if !counts {
            return ;
        }
        self.export_root = None;
        match &mut self.screen {
            Screen::Home(_) => {},
            Screen::Grid(grid) => {
                if grid.is_browsing(root) {
                    grid.finish_export(result);
                }
            },
        }
    }

    /// Takes in news of the extraction. The end of a batch counts only for the
    /// batch on the sheet; a photo only if it is on the sheet. `fresh` is its
    /// row as it was read back.
    pub fn ingest_event(&mut self, event: IngestEvent, fresh: Option<PhotoEntry>)
        requires
            old(self).wf(),
        ensures
            final(self).wf(),
            *final(self) == (App { screen: final(self).screen, ..*old(self) }),
            match old(self).screen {
                Screen::Home(_) => final(self).screen == old(self).screen,
                Screen::Grid(before) => {
                    &&& final(self).screen matches Screen::Grid(after) && event_taken(
                        before,
                        event,
                        fresh,
                        old(self).ingest_generation,
                        after,
                    )
                },
            },
    {
        let current: u64 = self.ingest_generation;
        match &mut self.screen {
            Screen::Home(_) => {},
            Screen::Grid(grid) => match event {
                IngestEvent::Ingested(id) => {
                    grid.apply_ingest_result(id, PhotoStatus::Ingested, fresh);
                },
                IngestEvent::Failed(id) => {
                    grid.apply_ingest_result(id, PhotoStatus::Error, fresh);
                },
                IngestEvent::Finished { generation } => {
                    if generation == current {
                        grid.finish_ingest();
                    }
                },
            },
        }
    }

    /// Hands out the photos that are to be extracted first, if that changed.
    pub fn take_priority(&mut self) -> (ids: Option<Vec<PhotoId>>)
        requires
            old(self).wf(),
        ensures
            final(self).wf(),
            *final(self) == (App { screen: final(self).screen, ..*old(self) }),
            match old(self).screen {
                Screen::Home(_) => ids is None && final(self).screen == old(self).screen,
                Screen::Grid(before) => ids == before.ping && final(self).screen == Screen::Grid(
                    GridView { ping: None, ..before },
                ),
            },
    {
        match &mut self.screen {
            Screen::Home(_) => None,
            Screen::Grid(grid) => grid.take_priority_ping(),
        }
    }

    /// Whether anything is under way, so that the screen has to be kept fresh.
    pub fn is_busy(&self, decoding: bool) -> (busy: bool)
        ensures
            busy == (self.scanning is Some || decoding || match self.screen {
                Screen::Grid(grid) => grid.ingest_done < grid.ingest_total || grid.export_done < grid.export_total,
                Screen::Home(_) => false,
            }),
    {
        let working: bool = match &self.screen {
            Screen::Grid(grid) => grid.is_ingesting() || grid.is_exporting(),
            Screen::Home(_) => false,
        };
        self.scanning.is_some() || working || decoding
    }

    /// Takes in a wish of the user.
    pub fn run_action(&mut self, action: Option<Action>) -> (errand: Errand)
        requires
            old(self).wf(),
        ensures
            final(self).wf(),
            match action {
                None => errand == Errand::Nothing && *final(self) == *old(self),
                Some(Action::PickFolder) => errand == Errand::PickFolder && *final(self) == *old(self),
                Some(Action::OpenFolder(path)) => errand == Errand::Open(path) && *final(self) == *old(self),
                Some(Action::Export { root, files }) => {
                    errand == (Errand::PickDestination { root, files }) && *final(self) == *old(self)
                },
                Some(Action::ShowAbout) => {
                    &&& errand == Errand::Nothing
                    &&& *final(self) == (App { modals: Modals { about: true, ..old(self).modals }, ..*old(self) })
                },
                Some(Action::BackToHome) => {
                    &&& errand == (Errand::Stop { export: old(self).export_root is Some })
                    &&& *final(self) == (App {
                        screen: Screen::Home(HomeView),
                        scanning: None,
                        export_root: None,
                        ..*old(self)
                    })
                },
            },
    {
        match action {
            None => Errand::Nothing,
            Some(Action::PickFolder) => Errand::PickFolder,
            Some(Action::OpenFolder(path)) => Errand::Open(path),
            Some(Action::Export { root, files }) => Errand::PickDestination { root, files },
            Some(Action::ShowAbout) => {
                self.modals.open_about();
                Errand::Nothing
            },
            Some(Action::BackToHome) => {
                let export: bool = self.export_root.is_some();
                self.scanning = None;
                self.export_root = None;
                self.screen = Screen::Home(HomeView);
                Errand::Stop { export }
            },
        }
    }

    /// Takes note of an export that starts.
    fn start_export(&mut self, root: String, total: usize)
        requires
            old(self).wf(),
        ensures
            final(self).wf(),
            export_started(*old(self), root, total, *final(self)),
    {
        self.export_root = Some(root);
        match &mut self.screen {
            Screen::Home(_) => {},
            Screen::Grid(grid) => {
                grid.begin_export(total);
            },
        }
    }

    /// Takes in where an export goes, and which of its names are there
    /// already. With none it starts; else the user is asked first.
    pub fn destination_picked(
        &mut self,
        root: String,
        files: Vec<String>,
        dest: String,
        duplicates: Vec<String>,
    ) -> (order: Option<ExportOrder>)
        requires
            old(self).wf(),
        ensures
            final(self).wf(),
            if duplicates@.len() == 0 {
                &&& order == Some(ExportOrder { root, files, dest })
                &&& export_started(*old(self), root, files@.len() as usize, *final(self))
            } else {
                &&& order is None
                &&& *final(self) == (App {
                    pending_export: Some(PendingExport { root, files, dest, duplicates }),
                    ..*old(self)
                })
            },
    {
        if duplicates.len() == 0 {
            self.start_export(root.clone(), files.len());
            Some(ExportOrder { root, files, dest })
        } else {
            self.pending_export = Some(PendingExport { root, files, dest, duplicates });
            None
        }
    }

    /// Takes in the answer to the overwrite question: the button or Enter
    /// starts the export, Escape or a dismissal drops it.
    pub fn answer_overwrite(&mut self, confirmed: bool, enter: bool, escape: bool, dismissed: bool) -> (order: Option<
        ExportOrder,
    >)
        requires
            old(self).wf(),
        ensures
            final(self).wf(),
            match old(self).pending_export {
                None => order is None && *final(self) == *old(self),
                Some(pending) => if confirmed || enter {
                    &&& order == Some(
                        ExportOrder { root: pending.root, files: pending.files, dest: pending.dest },
                    )
                    &&& export_started(
                        App { pending_export: None, ..*old(self) },
                        pending.root,
                        pending.files@.len() as usize,
                        *final(self),
                    )
                } else {
                    &&& order is None
                    &&& *final(self) == (App {
                        pending_export: if escape || dismissed {
                            None
                        } else {
                            old(self).pending_export
                        },
                        ..*old(self)
                    })
                },
            },
    {
        if self.pending_export.is_none() {
            return None;
        }
        if confirmed || enter {
            match self.pending_export.take() {
                Some(pending) => {
                    self.start_export(pending.root.clone(), pending.files.len());
                    Some(ExportOrder { root: pending.root, files: pending.files, dest: pending.dest })
                },
                None => None,
            }
        } else {
            if escape || dismissed {
                self.pending_export = None;
            }
            None
        }
    }
}

/// The sheet after an export ended.
pub open spec fn export_ended(before: GridView, result: Result<ExportReport, String>, after: GridView) -> bool {
    &&& after == (GridView { export_done: before.export_total, export_note: after.export_note, ..before })
    &&& after.export_note matches Some(note) && note.text@ == outcome_words(result) && note.alert == outcome_is_bad(
        result,
    )
}

/// The sheet took in the result of one extraction.
pub open spec fn result_taken(
    before: GridView,
    id: PhotoId,
    status: PhotoStatus,
    fresh: Option<PhotoEntry>,
    after: GridView,
) -> bool {
    exists|row: Option<usize>| #[trigger]
        row_of_id(before.entries@, landing_id(id, fresh), row) && landed(before, row, status, fresh, after)
}

/// The sheet took in news of the extraction.
pub open spec fn event_taken(
    before: GridView,
    event: IngestEvent,
    fresh: Option<PhotoEntry>,
    current: u64,
    after: GridView,
) -> bool {
    match event {
        IngestEvent::Ingested(id) => result_taken(before, id, PhotoStatus::Ingested, fresh, after),
        IngestEvent::Failed(id) => result_taken(before, id, PhotoStatus::Error, fresh, after),
        IngestEvent::Finished { generation } => after == (if generation == current {
            GridView { ingest_done: before.ingest_total, ..before }
        } else {
            before
        }),
    }
}

/// `after` is `before` with an export under way.
pub open spec fn export_started(before: App, root: String, total: usize, after: App) -> bool {
    &&& after == (App { screen: after.screen, export_root: Some(root), ..before })
    &&& match before.screen {
        Screen::Home(_) => after.screen == before.screen,
        Screen::Grid(grid) => after.screen == Screen::Grid(
            GridView { export_total: total, export_done: 0, export_note: None, ..grid },
        ),
    }
}

/// The words of the overwrite question.
pub struct Question {
    /// The folder.
    pub folder: String,
    /// What it holds.
    pub holds: String,
    /// The names.
    pub names: String,
    /// What would happen.
    pub warning: String,
    /// On the button.
    pub button: String,
}

/// A count and its noun.
pub open spec fn counted_files(count: nat) -> Seq<char> {
    decimal(count) + " "@ + file_word(count)
}

/// The noun for a number of files.
pub open spec fn file_word(count: nat) -> Seq<char> {
    if count == 1 {
        "file"@
    } else {
        "files"@
    }
}

/// Words the overwrite question.
pub fn overwrite_question(pending: &PendingExport) -> (question: Question)
    ensures
        question.folder@ == shown_name(pending.dest@),
        question.holds@ == "already contains "@ + counted_files(pending.duplicates@.len()) + " with these names:"@,
        question.names@ == preview_of_names(contents(pending.duplicates@)),
        question.warning@ == "Exporting will overwrite them with your copies of these "@ + file_word(
            pending.duplicates@.len(),
        ) + "."@,
        question.button@ == "Overwrite "@ + counted_files(pending.duplicates@.len()),
{
    let count: usize = pending.duplicates.len();
    let noun: &str = file_noun(count);
    let number: String = decimal_text(count as u64);
    let spaced: String = concat(number.as_str(), " ");
    let counted: String = concat(spaced.as_str(), noun);
    let holds: String = concat("already contains ", counted.as_str());
    let warning: String = concat("Exporting will overwrite them with your copies of these ", noun);
    Question {
        folder: display_file_name(&pending.dest),
        holds: concat(holds.as_str(), " with these names:"),
        names: names_preview(&pending.duplicates),
        warning: concat(warning.as_str(), "."),
        button: concat("Overwrite ", counted.as_str()),
    }
}

fn ids_of(entries: &Vec<PhotoEntry>) -> (ids: Vec<PhotoId>)
    ensures
        ids@ == row_ids(entries@),
{
    let mut ids: Vec<PhotoId> = Vec::new();
    let mut i: usize = 0;
    while i < entries.len()
        invariant
            i <= entries.len(),
            ids@ == row_ids(entries@).take(i as int),
        decreases entries.len() - i,
    {
        ids.push(entries[i].id);
        i = i + 1;
        proof {
            assert(ids@ =~= row_ids(entries@).take(i as int));
        }
    }
    proof {
        assert(row_ids(entries@).take(i as int) =~= row_ids(entries@));
    }
    ids
}

} // verus!
