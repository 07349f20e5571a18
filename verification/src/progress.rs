//! What the bars of the sheet say: progress of extraction and export, counts
//! and the status line.

use vstd::prelude::*;

use crate::export::{contents, ExportReport};
use crate::grid::{ExportNote, GridView, Tally};
use crate::model::{label_code, label_codes_round_trip, Label, PhotoEntry, PhotoId, PhotoStatus};
use crate::path::{components, join, joined, same_path};
use crate::text::{concat, decimal, decimal_text, from_chars, push_text};
use crate::widgets::{grouped, grouped_text};

verus! {

/// The last row about a photo.
pub open spec fn row_of_id(entries: Seq<PhotoEntry>, id: PhotoId, row: Option<usize>) -> bool {
    match row {
        Some(r) => {
            &&& r < entries.len()
            &&& entries[r as int].id == id
            &&& forall|k: int| r < k < entries.len() ==> (#[trigger] entries[k]).id != id
        },
        None => forall|k: int| 0 <= k < entries.len() ==> (#[trigger] entries[k]).id != id,
    }
}

/// What an export report says.
pub open spec fn report_words(report: ExportReport) -> Seq<char> {
    if report.cancelled {
        "Export cancelled"@
    } else if report.failures@.len() == 0 && report.copied == 0 {
        "Nothing to copy"@
    } else if report.failures@.len() == 0 {
        "✓ Exported "@ + grouped_text(report.copied as nat)
    } else {
        "Exported "@ + grouped_text(report.copied as nat) + " · "@ + grouped_text(report.failures@.len()) + " failed"@
    }
}

/// What is said about a finished export.
pub open spec fn outcome_words(outcome: Result<ExportReport, String>) -> Seq<char> {
    match outcome {
        Ok(report) => report_words(report),
        Err(error) => "Export failed: "@ + error@,
    }
}

/// Whether a finished export is bad news.
pub open spec fn outcome_is_bad(outcome: Result<ExportReport, String>) -> bool {
    match outcome {
        Ok(report) => report.cancelled || report.failures@.len() > 0,
        Err(_) => true,
    }
}

/// The files of one row: the original, then its companion JPEG.
pub open spec fn row_files(root: Seq<char>, entry: PhotoEntry) -> Seq<Seq<char>> {
    match entry.jpeg_rel_path {
        Some(jpeg) => seq![joined(root, entry.rel_path@), joined(root, jpeg@)],
        None => seq![joined(root, entry.rel_path@)],
    }
}

/// The files of the first `k` positions of the sheet that are exported: those
/// of the selected photos, or of all if none is selected.
pub open spec fn export_paths(
    root: Seq<char>,
    entries: Seq<PhotoEntry>,
    view: Seq<usize>,
    selection: Set<PhotoId>,
    k: int,
) -> Seq<Seq<char>>
    decreases k,
{
    if k <= 0 {
        Seq::empty()
    } else {
        let before = export_paths(root, entries, view, selection, k - 1);
        let row = view[k - 1] as int;
        if row < entries.len() && (selection == Set::<PhotoId>::empty() || selection.contains(entries[row].id)) {
            before + row_files(root, entries[row])
        } else {
            before
        }
    }
}

/// How many of the first `k` rows have a label.
pub open spec fn label_count(entries: Seq<PhotoEntry>, label: Label, k: int) -> int
    decreases k,
{
    if k <= 0 {
        0
    } else {
        label_count(entries, label, k - 1) + if entries[k - 1].label == label {
            1int
        } else {
            0
        }
    }
}

/// How many of the first `k` rows failed.
pub open spec fn error_count(entries: Seq<PhotoEntry>, k: int) -> int
    decreases k,
{
    if k <= 0 {
        0
    } else {
        error_count(entries, k - 1) + if entries[k - 1].status == PhotoStatus::Error {
            1int
        } else {
            0
        }
    }
}

/// The counts in the status line: shown and all while a filter is on.
pub open spec fn count_words(grid: GridView) -> Seq<char> {
    let total = grid.entries@.len();
    if grid.filter@ == Set::<Label>::empty() {
        grouped_text(total) + (if total == 1 {
            " photo"@
        } else {
            " photos"@
        })
    } else {
        grouped_text(grid.view@.len()) + " / "@ + grouped_text(total) + " shown"@
    }
}

/// The progress in the status line while a batch runs.
pub open spec fn progress_words(grid: GridView, rate: u64) -> Seq<char> {
    if grid.ingest_done < grid.ingest_total {
        " · extracting "@ + decimal(grid.ingest_done as nat) + " / "@ + decimal(grid.ingest_total as nat) + " · "@
            + decimal(rate as nat) + "/s"@
    } else {
        Seq::empty()
    }
}

/// The size of the selection in the status line.
pub open spec fn selected_words(grid: GridView) -> Seq<char> {
    if grid.selection@ == Set::<PhotoId>::empty() {
        Seq::empty()
    } else {
        " · "@ + grouped_text(grid.selection@.len()) + " selected"@
    }
}

/// The status line.
pub open spec fn stats_words(grid: GridView, rate: u64) -> Seq<char> {
    if grid.loading {
        "Scanning…"@
    } else {
        count_words(grid) + progress_words(grid, rate) + selected_words(grid)
    }
}

/// The words on the export button: progress while an export runs, else how
/// many photos it would copy.
pub open spec fn button_words(grid: GridView) -> Seq<char> {
    if grid.export_done < grid.export_total {
        "Exporting "@ + grouped_text(grid.export_done as nat) + " / "@ + grouped_text(grid.export_total as nat) + "…"@
    } else if grid.selection@ == Set::<PhotoId>::empty() {
        "Export "@ + grouped_text(grid.view@.len())
    } else {
        "Export "@ + grouped_text(grid.selection@.len())
    }
}

/// The photo whose row a finished extraction lands on.
pub open spec fn landing_id(id: PhotoId, fresh: Option<PhotoEntry>) -> PhotoId {
    match fresh {
        Some(entry) => entry.id,
        None => id,
    }
}

/// `after` is `before` with a finished extraction taken in at `row`.
pub open spec fn landed(
    before: GridView,
    row: Option<usize>,
    status: PhotoStatus,
    fresh: Option<PhotoEntry>,
    after: GridView,
) -> bool {
    match row {
        None => after == before,
        Some(r) => {
            &&& after == (GridView { entries: after.entries, ingest_done: after.ingest_done, ..before })
            &&& after.ingest_done == (if before.ingest_done < before.ingest_total {
                before.ingest_done + 1
            } else {
                before.ingest_done as int
            })
            &&& after.entries@ == before.entries@.update(
                r as int,
                match fresh {
                    Some(entry) => entry,
                    None => PhotoEntry { status, ..before.entries@[r as int] },
                },
            )
        },
    }
}

/// What fills the space below the bars.
#[derive(Clone, Copy, Debug, PartialEq, Eq, Structural)]
pub enum SheetBody {
    /// The open loupe.
    Loupe,
    /// The notice that the folder is being scanned.
    Scanning,
    /// The notice that the folder could not be opened.
    Failed,
    /// The notice that the folder has no photos.
    NoPhotos,
    /// The notice that the filter hides every photo.
    NoMatches,
    /// The sheet.
    Sheet,
}

/// What a grid shows below the bars: the loupe before anything else, then what
/// there is to say in place of a sheet.
pub open spec fn body_of(grid: GridView) -> SheetBody {
    if grid.loupe is Some {
        SheetBody::Loupe
    } else if grid.loading {
        SheetBody::Scanning
    } else if grid.error is Some {
        SheetBody::Failed
    } else if grid.entries@.len() == 0 {
        SheetBody::NoPhotos
    } else if grid.view@.len() == 0 {
        SheetBody::NoMatches
    } else {
        SheetBody::Sheet
    }
}

impl GridView {
    /// What to show below the bars.
    pub fn body_state(&self) -> (body: SheetBody)
        ensures
            body == body_of(*self),
    {
        if self.loupe.is_some() {
            SheetBody::Loupe
        } else if self.loading {
            SheetBody::Scanning
        } else if self.error.is_some() {
            SheetBody::Failed
        } else if self.entries.len() == 0 {
            SheetBody::NoPhotos
        } else if self.view.len() == 0 {
            SheetBody::NoMatches
        } else {
            SheetBody::Sheet
        }
    }

    /// Starts counting a batch of `total` photos.
    pub fn begin_ingest(&mut self, total: usize)
        ensures
            *final(self) == (GridView { ingest_total: total, ingest_done: 0, ..*old(self) }),
    {
        self.ingest_total = total;
        self.ingest_done = 0;
    }

    fn find_row(&self, id: PhotoId) -> (row: Option<usize>)
        ensures
            row_of_id(self.entries@, id, row),
    {
        let mut i: usize = self.entries.len();
        while i > 0
            invariant
                i <= self.entries.len(),
                forall|k: int| i <= k < self.entries.len() ==> (#[trigger] self.entries@[k]).id != id,
            decreases i,
        {
            i = i - 1;
            if self.entries[i].id == id {
                return Some(i);
            }
        }
        None
    }

    /// Takes in one finished extraction: the row as it was read back, or the
    /// bare status where it could not be. Photos that are not on this sheet
    /// change nothing.
    pub fn apply_ingest_result(&mut self, id: PhotoId, status: PhotoStatus, fresh: Option<PhotoEntry>)
        requires
            old(self).wf(),
        ensures
            final(self).wf(),
            exists|row: Option<usize>| #[trigger]
                row_of_id(old(self).entries@, landing_id(id, fresh), row) && landed(*old(self), row, status, fresh, *final(self)),
    {
        let target: PhotoId = match &fresh {
            Some(entry) => entry.id,
            None => id,
        };
        let row: Option<usize> = self.find_row(target);
        proof {
            assert(row_of_id(old(self).entries@, landing_id(id, fresh), row));
        }
        let r: usize = match row {
            Some(r) => r,
            None => {
                return ;
            },
        };
        if self.ingest_done < self.ingest_total {
            self.ingest_done = self.ingest_done + 1;
        }
        match fresh {
            Some(entry) => {
                self.entries.set(r, entry);
            },
            None => {
                self.entries[r].status = status;
            },
        }
    }

    /// Marks the batch complete.
    pub fn finish_ingest(&mut self)
        ensures
            *final(self) == (GridView { ingest_done: old(self).ingest_total, ..*old(self) }),
    {
        self.ingest_done = self.ingest_total;
    }

    /// Whether a batch is running.
    pub fn is_ingesting(&self) -> (r: bool)
        ensures
            r == (self.ingest_done < self.ingest_total),
    {
        self.ingest_done < self.ingest_total
    }

    /// Starts counting an export of `total` files.
    pub fn begin_export(&mut self, total: usize)
        ensures
            *final(self) == (GridView { export_total: total, export_done: 0, export_note: None, ..*old(self) }),
    {
        self.export_total = total;
        self.export_done = 0;
        self.export_note = None;
    }

    /// Takes in a progress tick; a late one never turns the counter back.
    pub fn apply_export_progress(&mut self, done: usize)
        ensures
            *final(self) == (GridView {
                export_done: if done > old(self).export_done {
                    done
                } else {
                    old(self).export_done
                },
                ..*old(self)
            }),
    {
        if done > self.export_done {
            self.export_done = done;
        }
    }

    /// Ends an export with what there is to say about it.
    pub fn finish_export(&mut self, outcome: &Result<ExportReport, String>)
        ensures
            *final(self) == (GridView {
                export_done: old(self).export_total,
                export_note: final(self).export_note,
                ..*old(self)
            }),
            final(self).export_note matches Some(note) && note.text@ == outcome_words(*outcome) && note.alert
                == outcome_is_bad(*outcome),
    {
        let note: ExportNote = match outcome {
            Ok(report) => ExportNote {
                text: report_text(report),
                alert: report.cancelled || report.failures.len() > 0,
            },
            Err(error) => ExportNote { text: concat("Export failed: ", error.as_str()), alert: true },
        };
        self.export_note = Some(note);
        self.export_done = self.export_total;
    }

    /// Whether an export is running.
    pub fn is_exporting(&self) -> (r: bool)
        ensures
            r == (self.export_done < self.export_total),
    {
        self.export_done < self.export_total
    }

    /// Whether a folder is the one of this sheet.
    pub fn is_browsing(&self, root: &str) -> (r: bool)
        ensures
            r == (components(self.root@) == components(root@)),
    {
        same_path(self.root.as_str(), root)
    }

    /// The files an export copies: those of the selected photos that the
    /// sheet shows, or of all it shows if none is selected; in display order,
    /// a companion JPEG right after its original.
    pub fn export_set(&self) -> (files: Vec<String>)
        ensures
            contents(files@) == export_paths(
                self.root@,
                self.entries@,
                self.view@,
                self.selection@,
                self.view@.len() as int,
            ),
    {
        let mut files: Vec<String> = Vec::new();
        let everything: bool = self.selection.is_empty();
        let mut p: usize = 0;
        proof {
            assert(contents(files@) =~= Seq::empty());
        }
        while p < self.view.len()
            invariant
                p <= self.view.len(),
                everything == (self.selection@ == Set::<PhotoId>::empty()),
                contents(files@) == export_paths(self.root@, self.entries@, self.view@, self.selection@, p as int),
            decreases self.view.len() - p,
        {
            let row: usize = self.view[p];
            let ghost before = contents(files@);
            if row < self.entries.len() && (everything || self.selection.contains(self.entries[row].id)) {
                let raw: String = join(self.root.as_str(), self.entries[row].rel_path.as_str());
                files.push(raw);
                proof {
                    assert(contents(files@) =~= before.push(raw@));
                }
                match &self.entries[row].jpeg_rel_path {
                    Some(rel) => {
                        let jpeg: String = join(self.root.as_str(), rel.as_str());
                        files.push(jpeg);
                        proof {
                            assert(contents(files@) =~= before + seq![raw@, jpeg@]);
                        }
                    },
                    None => {
                        proof {
                            assert(contents(files@) =~= before + seq![raw@]);
                        }
                    },
                }
            }
            p = p + 1;
        }
        files
    }

    /// Hands out the photos on screen that still wait for extraction, once
    /// after each change.
    pub fn take_priority_ping(&mut self) -> (ping: Option<Vec<PhotoId>>)
        ensures
            ping == old(self).ping,
            *final(self) == (GridView { ping: None, ..*old(self) }),
    {
        self.ping.take()
    }

    /// Counts the rows by label, and the failed ones.
    pub fn tally(&self) -> (tally: Tally)
        ensures
            forall|label: Label|
                tally.counts@[label_code(label) as int] == label_count(
                    self.entries@,
                    label,
                    self.entries@.len() as int,
                ),
            tally.errors == error_count(self.entries@, self.entries@.len() as int),
    {
        let mut counts: [usize; 6] = [0, 0, 0, 0, 0, 0];
        let mut errors: usize = 0;
        let mut i: usize = 0;
        while i < self.entries.len()
            invariant
                i <= self.entries.len(),
                forall|label: Label|
                    #[trigger] label_count(self.entries@, label, i as int) == counts@[label_code(label) as int],
                forall|k: int| 0 <= k < 6 ==> #[trigger] counts@[k] <= i,
                errors == error_count(self.entries@, i as int),
                errors <= i,
            decreases self.entries.len() - i,
        {
            let code: usize = self.entries[i].label.to_u8() as usize;
            let ghost before = counts@;
            counts[code] = counts[code] + 1;
            if self.entries[i].status == PhotoStatus::Error {
                errors = errors + 1;
            }
            proof {
                assert forall|label: Label|
                    #[trigger] label_count(self.entries@, label, i + 1) == counts@[label_code(label) as int] by {
                    assert(label_count(self.entries@, label, i as int) == before[label_code(label) as int]);
                    label_codes_round_trip(label, 0);
                    label_codes_round_trip(self.entries@[i as int].label, 0);
                }
            }
            i = i + 1;
        }
        Tally { counts, errors }
    }

    /// The status line; `rate` is the number of photos extracted per second.
    pub fn stats_line(&self, rate: u64) -> (line: String)
        ensures
            line@ == stats_words(*self, rate),
    {
        if self.loading {
            return "Scanning…".to_owned();
        }
        let total: usize = self.entries.len();
        let all: String = grouped(total);
        let mut line: Vec<char> = Vec::new();
        if self.filter.is_all() {
            push_text(&mut line, all.as_str());
            push_text(
                &mut line,
                if total == 1 {
                    " photo"
                } else {
                    " photos"
                },
            );
        } else {
            let shown: String = grouped(self.view.len());
            push_text(&mut line, shown.as_str());
            push_text(&mut line, " / ");
            push_text(&mut line, all.as_str());
            push_text(&mut line, " shown");
        }
        let ghost head = line@;
        if self.is_ingesting() {
            let done: String = decimal_text(self.ingest_done as u64);
            let of: String = decimal_text(self.ingest_total as u64);
            let per_second: String = decimal_text(rate);
            push_text(&mut line, " · extracting ");
            push_text(&mut line, done.as_str());
            push_text(&mut line, " / ");
            push_text(&mut line, of.as_str());
            push_text(&mut line, " · ");
            push_text(&mut line, per_second.as_str());
            push_text(&mut line, "/s");
        }
        let ghost middle = line@;
        proof {
            assert(middle =~= head + progress_words(*self, rate));
        }
        if !self.selection.is_empty() {
            let n: String = grouped(self.selection.len());
            push_text(&mut line, " · ");
            push_text(&mut line, n.as_str());
            push_text(&mut line, " selected");
        }
        proof {
            assert(line@ =~= middle + selected_words(*self));
            assert(head =~= count_words(*self));
        }
        from_chars(&line)
    }

    /// The words on the export button.
    pub fn export_button(&self) -> (text: String)
        ensures
            text@ == button_words(*self),
    {
        let mut text: Vec<char> = Vec::new();
        if self.is_exporting() {
            let done: String = grouped(self.export_done);
            let total: String = grouped(self.export_total);
            push_text(&mut text, "Exporting ");
            push_text(&mut text, done.as_str());
            push_text(&mut text, " / ");
            push_text(&mut text, total.as_str());
            push_text(&mut text, "…");
        } else {
            let count: String = grouped(
                if self.selection.is_empty() {
                    self.view.len()
                } else {
                    self.selection.len()
                },
            );
            push_text(&mut text, "Export ");
            push_text(&mut text, count.as_str());
        }
        proof {
            assert(text@ =~= button_words(*self));
        }
        from_chars(&text)
    }

    /// Whether there is anything to filter.
    pub fn show_filter_bar(&self) -> (r: bool)
        ensures
            r == (!self.loading && self.error is None && self.entries@.len() > 0),
    {
        !self.loading && self.error.is_none() && self.entries.len() > 0
    }
}

fn report_text(report: &ExportReport) -> (text: String)
    ensures
        text@ == report_words(*report),
{
    if report.cancelled {
        return "Export cancelled".to_owned();
    }
    let copied: String = grouped(report.copied);
    if report.failures.len() == 0 {
        if report.copied == 0 {
            return "Nothing to copy".to_owned();
        }
        return concat("✓ Exported ", copied.as_str());
    }
    let failed: String = grouped(report.failures.len());
    let mut text: Vec<char> = Vec::new();
    push_text(&mut text, "Exported ");
    push_text(&mut text, copied.as_str());
    push_text(&mut text, " · ");
    push_text(&mut text, failed.as_str());
    push_text(&mut text, " failed");
    proof {
        assert(text@ =~= report_words(*report));
    }
    from_chars(&text)
}

} // verus!
