//! What reaches the screen, and what is left alone.

use vstd::prelude::*;

use crate::export::ExportReport;
use crate::grid::{view_fits, GridView};
use crate::ingest::IngestEvent;
use crate::modals::{after_keys, asks_for_help, HelpKey, InputEvent, Modals};
use crate::model::{Label, PhotoEntry, PhotoId, PhotoStatus};
use crate::path::components;
use crate::progress_laws::extractions_land_on_their_photo;
use crate::schema::stamp_of;
use crate::shell::{
    browses, counted_files, event_taken, export_ended, export_started, file_word, fresh_sheet,
    noted, row_ids, scan_taken, App, Screen,
};
use crate::text::decimal;
use crate::widgets::SortKey;

verus! {

/// A folder counts as the noted or the browsed one however its path is
/// spelled, and only then.
pub proof fn folders_are_told_by_their_components(folder: String, grid: GridView, root: Seq<char>)
    ensures
        noted(Some(folder), root) <==> components(folder@) == components(root),
        !noted(None, root),
        browses(Screen::Grid(grid), root) <==> components(grid.root@) == components(root),
{
}

/// A scan that went well shows its rows: nothing is selected, labels and times
/// of earlier rows are gone, the cursor is on the first tile if there is one,
/// and filter, order and settings stay. One that failed says why and leaves
/// the rows.
pub proof fn scans_fill_the_sheet(before: GridView, result: Result<Vec<PhotoEntry>, String>, after: GridView)
    requires
        scan_taken(before, result, after),
    ensures
        !after.loading,
        result matches Ok(entries) ==> {
            &&& after.entries == entries
            &&& view_fits(entries@, before.filter@, before.sort, Map::empty(), after.view@)
            &&& after.selection@ == Set::<PhotoId>::empty()
            &&& after.taken_at@ == Map::<u64, Option<String>>::empty()
            &&& after.anchor is None
            &&& after.marquee is None
            &&& after.reset_scroll
            &&& after.export_done == 0 && after.export_total == 0 && after.export_note is None
            &&& after.view@.len() > 0 ==> after.cursor == Some(0usize)
            &&& after.view@.len() == 0 ==> after.cursor is None
        },
        result matches Err(message) ==> after.error == Some(message) && after.entries == before.entries && after.view
            == before.view && after.cursor == before.cursor && after.selection == before.selection,
        result is Ok ==> after == (GridView {
            entries: after.entries,
            view: after.view,
            taken_at: after.taken_at,
            loading: false,
            cursor: after.cursor,
            selection: after.selection,
            anchor: None,
            marquee: None,
            reset_scroll: true,
            export_done: 0,
            export_total: 0,
            export_note: None,
            ..before
        }),
        result is Err ==> after == (GridView { loading: false, error: after.error, ..before }),
{
}

/// The photos of a sheet are those of its rows, in order.
pub proof fn sheets_hold_the_photos_of_their_rows(entries: Seq<PhotoEntry>, i: int)
    requires
        0 <= i < entries.len(),
    ensures
        row_ids(entries).len() == entries.len(),
        row_ids(entries)[i] == entries[i].id,
{
}

/// A folder that was just opened shows nothing but that it is being scanned.
pub proof fn opened_folders_start_empty(screen: Screen, root: Seq<char>, auto_advance: bool)
    requires
        fresh_sheet(screen, root, auto_advance),
    ensures
        screen is Grid,
        ({
            let grid = screen->Grid_0;
            &&& grid.root@ == root
            &&& grid.loading
            &&& grid.auto_advance == auto_advance
            &&& grid.entries@.len() == 0
            &&& grid.view@.len() == 0
            &&& grid.selection@ == Set::<PhotoId>::empty()
            &&& grid.filter@ == Set::<Label>::empty()
            &&& grid.sort == SortKey::FileName
            &&& grid.cursor is None
            &&& grid.loupe is None
            &&& grid.error is None
            &&& grid.ingest_total == 0 && grid.ingest_done == 0
            &&& grid.export_total == 0 && grid.export_done == 0
        }),
{
}

/// News of an extraction changes the state of its photo to extracted or
/// failed, or replaces its row, and no other row; the end of a batch counts
/// only for the batch that is under way.
pub proof fn news_reaches_its_photo(
    before: GridView,
    event: IngestEvent,
    fresh: Option<PhotoEntry>,
    current: u64,
    after: GridView,
    i: int,
)
    requires
        event_taken(before, event, fresh, current, after),
        0 <= i < before.entries@.len(),
        fresh matches Some(entry) ==> (event matches IngestEvent::Ingested(id) ==> entry.id == id) && (
        event matches IngestEvent::Failed(id) ==> entry.id == id),
        forall|a: int, b: int|
            0 <= a < b < before.entries@.len() ==> (#[trigger] before.entries@[a]).id != (#[trigger] before.entries@[b]).id,
    ensures
        after.entries@.len() == before.entries@.len(),
        event matches IngestEvent::Ingested(id) ==> {
            &&& before.entries@[i].id != id ==> after.entries@[i] == before.entries@[i]
            &&& before.entries@[i].id == id && fresh is None ==> after.entries@[i] == (PhotoEntry {
                status: PhotoStatus::Ingested,
                ..before.entries@[i]
            })
            &&& before.entries@[i].id == id && fresh is Some ==> after.entries@[i] == fresh->0
        },
        event matches IngestEvent::Failed(id) ==> {
            &&& before.entries@[i].id != id ==> after.entries@[i] == before.entries@[i]
            &&& before.entries@[i].id == id && fresh is None ==> after.entries@[i] == (PhotoEntry {
                status: PhotoStatus::Error,
                ..before.entries@[i]
            })
            &&& before.entries@[i].id == id && fresh is Some ==> after.entries@[i] == fresh->0
        },
        event matches IngestEvent::Finished { generation } ==> generation == current ==> after == (GridView {
            ingest_done: before.ingest_total,
            ..before
        }),
        event matches IngestEvent::Finished { generation } ==> generation != current ==> after == before,
{
    match event {
        IngestEvent::Ingested(id) => {
            let row = choose|row: Option<usize>| #[trigger]
                crate::progress::row_of_id(before.entries@, crate::progress::landing_id(id, fresh), row)
                    && crate::progress::landed(before, row, PhotoStatus::Ingested, fresh, after);
            extractions_land_on_their_photo(before, id, PhotoStatus::Ingested, fresh, row, after, i);
        },
        IngestEvent::Failed(id) => {
            let row = choose|row: Option<usize>| #[trigger]
                crate::progress::row_of_id(before.entries@, crate::progress::landing_id(id, fresh), row)
                    && crate::progress::landed(before, row, PhotoStatus::Error, fresh, after);
            extractions_land_on_their_photo(before, id, PhotoStatus::Error, fresh, row, after, i);
        },
        IngestEvent::Finished { .. } => {},
    }
}

/// An export that starts is noted with its folder, and counted on the sheet
/// from zero; one that ends is complete and says how it went.
pub proof fn exports_are_counted_on_the_sheet(
    before: App,
    root: String,
    total: usize,
    after: App,
    sheet: GridView,
    result: Result<ExportReport, String>,
    ended: GridView,
)
    requires
        export_started(before, root, total, after),
        export_ended(sheet, result, ended),
    ensures
        after.export_root == Some(root),
        after.scanning == before.scanning,
        after.pending_export == before.pending_export,
        after.modals == before.modals,
        after.ingest_generation == before.ingest_generation,
        before.screen is Home ==> after.screen == before.screen,
        before.screen matches Screen::Grid(grid) ==> after.screen is Grid && after.screen->Grid_0.export_total == total
            && after.screen->Grid_0.export_done == 0 && after.screen->Grid_0.export_note is None
            && after.screen->Grid_0 == (GridView { export_total: total, export_done: 0, export_note: None, ..grid }),
        ended.export_done == sheet.export_total,
        ended.export_total == sheet.export_total,
        ended.export_note is Some,
        ended.export_note->0.alert <==> match result {
            Ok(report) => report.cancelled || report.failures@.len() > 0,
            Err(_) => true,
        },
        ended == (GridView { export_done: ended.export_done, export_note: ended.export_note, ..sheet }),
{
}

/// One file is a file, and any other number of them are files.
pub proof fn files_are_counted_in_words(count: nat)
    ensures
        file_word(1) == "file"@,
        count != 1 ==> file_word(count) == "files"@,
        counted_files(1) == decimal(1) + " "@ + "file"@,
        count != 1 ==> counted_files(count) == decimal(count) + " "@ + "files"@,
{
}

/// A question mark opens and closes the help; Escape closes every dialog and
/// is used up exactly if there was one.
pub proof fn question_marks_toggle_the_help(before: Modals, question: bool, escape: bool)
    ensures
        !escape && question ==> after_keys(before, question, escape).0.help == !before.help,
        !escape && !question ==> after_keys(before, question, escape).0.help == before.help,
        !escape ==> after_keys(before, question, escape).0.about == before.about && !after_keys(
            before,
            question,
            escape,
        ).1,
        escape ==> !after_keys(before, question, escape).0.help && !after_keys(before, question, escape).0.about,
        escape ==> after_keys(before, question, escape).1 == (before.help != question || before.about),
{
}

/// A question mark is typed as text, with Shift and the slash key, or with a
/// key of its own; a key that comes up is none.
pub proof fn question_marks_are_typed_three_ways(text: String, key: HelpKey, shift: bool)
    ensures
        asks_for_help(InputEvent::Text(text)) <==> text@ == "?"@,
        !asks_for_help(InputEvent::Key { key, pressed: false, shift }),
        asks_for_help(InputEvent::Key { key: HelpKey::Questionmark, pressed: true, shift }),
        asks_for_help(InputEvent::Key { key: HelpKey::Slash, pressed: true, shift }) <==> shift,
        !asks_for_help(InputEvent::Key { key: HelpKey::Other, pressed: true, shift }),
        !asks_for_help(InputEvent::Other),
{
}

/// A clock that stands before the epoch reads zero; any other its milliseconds.
pub proof fn clocks_read_milliseconds(millis: u128)
    ensures
        stamp_of(None) == 0,
        millis <= i64::MAX ==> stamp_of(Some(millis)) == millis,
{
}

/// The bounds of the program.
pub proof fn bounds_are_fixed()
    ensures
        crate::shell::RECENT_LIMIT == 10,
        crate::schema::LATEST_VERSION == 3,
        crate::db::MESSAGE_LIMIT == 400,
        crate::window::PREFETCH_ROWS == 2,
        crate::window::NAME_MAX_CHARS == 26,
        crate::loupe::NEIGHBOR_REACH == 3,
        crate::tex::BYTE_BUDGET == 512 * 1024 * 1024,
        crate::tex::MAX_UPLOADS_PER_FRAME == 6,
        crate::tex::READY_CAP == 96,
        crate::tex::PREFETCH_PENDING_CAP == 256,
        crate::extract::THUMB_LONG_EDGE == 512,
        crate::extract::PREVIEW_QUALITY == 88,
        crate::extract::THUMB_QUALITY == 85,
{
}

} // verus!
