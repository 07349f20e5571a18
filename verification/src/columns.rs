//! Stored columns and what they stand for.
//!
//! The index keeps numbers as signed 64-bit integers. Reading back must cope
//! with whatever a hand-edited file holds, so every decoding is total.

use vstd::prelude::*;

use crate::model::{
    label_of_code, status_of_code, IngestInfo, Label, PhotoDetail, PhotoEntry, PhotoId, PhotoMeta,
    PhotoStatus,
};
use crate::path::{components, same_path};

verus! {

/// One row of the photo table.
#[derive(Clone, Debug, PartialEq, Eq)]
pub struct PhotoRow {
    /// Row number.
    pub id: i64,
    /// Folder the photo was scanned under.
    pub root: String,
    /// Path relative to the folder.
    pub rel_path: String,
    /// Modification time in nanoseconds since the Unix epoch.
    pub mtime: i64,
    /// File size.
    pub size: i64,
    /// Preview width.
    pub width: Option<i64>,
    /// Preview height.
    pub height: Option<i64>,
    /// EXIF orientation flag.
    pub orientation: i64,
    /// User quarter turns clockwise.
    pub rot_cw: i64,
    /// Camera name.
    pub camera: Option<String>,
    /// Lens name.
    pub lens: Option<String>,
    /// Capture time.
    pub taken_at: Option<String>,
    /// Shutter speed.
    pub shutter: Option<String>,
    /// F-number in tenths.
    pub aperture: Option<u64>,
    /// ISO rating.
    pub iso: Option<i64>,
    /// Focal length in tenths of a millimetre.
    pub focal_mm: Option<u64>,
    /// Label number.
    pub label: i64,
    /// Status number.
    pub status: i64,
    /// Why extraction failed.
    pub err_msg: Option<String>,
    /// Cache path of the preview.
    pub preview_path: Option<String>,
    /// Cache path of the thumbnail.
    pub thumb_path: Option<String>,
    /// The JPEG written beside this RAW.
    pub jpeg_rel_path: Option<String>,
    /// When extraction succeeded, in milliseconds since the Unix epoch.
    pub ingested_at: Option<i64>,
}

/// A number clamped to what a signed 64-bit column holds.
pub open spec fn narrowed(value: int) -> i64 {
    if value > i64::MAX {
        i64::MAX
    } else {
        value as i64
    }
}

/// A stored number as an unsigned one; negative numbers read as zero.
pub open spec fn widened(value: i64) -> u64 {
    if value < 0 {
        0
    } else {
        value as u64
    }
}

/// An instant clamped to the range that is stored.
pub open spec fn stored_time(nanos: i128) -> i64 {
    if nanos > i64::MAX {
        i64::MAX
    } else if nanos < -i64::MAX {
        (-i64::MAX) as i64
    } else {
        nanos as i64
    }
}

/// Clamps a count of nanoseconds to what a column holds.
pub fn nanos_to_i64(nanos: u128) -> (value: i64)
    ensures
        value == narrowed(nanos as int),
{
    if nanos > i64::MAX as u128 {
        i64::MAX
    } else {
        nanos as i64
    }
}

/// The stored form of an instant; instants before the epoch are negative.
pub fn system_time_to_i64(time: i128) -> (value: i64)
    ensures
        value == stored_time(time),
{
    if time >= 0 {
        nanos_to_i64(time as u128)
    } else if time < -(i64::MAX as i128) {
        -i64::MAX
    } else {
        time as i64
    }
}

/// The instant that a stored value stands for.
pub fn i64_to_system_time(value: i64) -> (time: i128)
    ensures
        time == value,
{
    value as i128
}

/// An instant within the stored range, before or after the epoch, is read
/// back exactly; and what was read is stored as itself.
pub proof fn stored_times_round_trip(time: i128, value: i64)
    ensures
        -i64::MAX <= time <= i64::MAX ==> stored_time(time) as i128 == time,
        value > i64::MIN ==> stored_time(value as i128) == value,
{
}

/// Clamps an unsigned number to what a column holds.
pub fn narrow_u64(value: u64) -> (column: i64)
    ensures
        column == narrowed(value as int),
{
    if value > i64::MAX as u64 {
        i64::MAX
    } else {
        value as i64
    }
}

/// Reads a column as an unsigned number.
pub fn widen_to_u64(value: i64) -> (wide: u64)
    ensures
        wide == widened(value),
{
    if value < 0 {
        0
    } else {
        value as u64
    }
}

/// Quarter turns that a stored value stands for: it wraps into `0..4`.
pub open spec fn turns_of(value: i64) -> u8 {
    (value as int % 4) as u8
}

/// Reads a stored rotation; values out of range wrap.
pub fn rot_cw_of(value: i64) -> (turns: u8)
    ensures
        turns == turns_of(value),
        turns < 4,
{
    match value.checked_rem_euclid(4) {
        Some(turns) => turns as u8,
        None => 0,
    }
}

/// Label that a stored column stands for; anything unknown is unlabeled.
pub open spec fn label_in(column: i64) -> Label {
    if 0 <= column <= 255 {
        match label_of_code(column as u8) {
            Some(label) => label,
            None => Label::Unlabeled,
        }
    } else {
        Label::Unlabeled
    }
}

/// Reads a label column.
pub fn label_from_column(column: i64) -> (label: Label)
    ensures
        label == label_in(column),
{
    if 0 <= column && column <= 255 {
        match Label::from_u8(column as u8) {
            Some(label) => label,
            None => Label::Unlabeled,
        }
    } else {
        Label::Unlabeled
    }
}

/// Status that a stored column stands for; anything unknown is pending.
pub open spec fn status_in(column: i64) -> PhotoStatus {
    if 0 <= column <= 255 {
        match status_of_code(column as u8) {
            Some(status) => status,
            None => PhotoStatus::Pending,
        }
    } else {
        PhotoStatus::Pending
    }
}

/// Reads a status column.
pub fn status_from_column(column: i64) -> (status: PhotoStatus)
    ensures
        status == status_in(column),
{
    if 0 <= column && column <= 255 {
        match PhotoStatus::from_u8(column as u8) {
            Some(status) => status,
            None => PhotoStatus::Pending,
        }
    } else {
        PhotoStatus::Pending
    }
}

/// One side of a stored pixel size.
pub open spec fn side_in(column: Option<i64>) -> Option<u32> {
    match column {
        None => None,
        Some(value) => if widened(value) > u32::MAX {
            None
        } else {
            Some(widened(value) as u32)
        },
    }
}

/// Pixel size that two stored columns stand for: both sides or neither.
pub open spec fn pixels_in(width: Option<i64>, height: Option<i64>) -> Option<(u32, u32)> {
    match (side_in(width), side_in(height)) {
        (Some(w), Some(h)) => Some((w, h)),
        _ => None,
    }
}

fn side_from_column(column: Option<i64>) -> (side: Option<u32>)
    ensures
        side == side_in(column),
{
    match column {
        None => None,
        Some(value) => {
            let wide: u64 = widen_to_u64(value);
            if wide > u32::MAX as u64 {
                None
            } else {
                Some(wide as u32)
            }
        },
    }
}

/// Reads a stored pixel size.
pub fn pixels_from_columns(width: Option<i64>, height: Option<i64>) -> (pixels: Option<(u32, u32)>)
    ensures
        pixels == pixels_in(width, height),
{
    match (side_from_column(width), side_from_column(height)) {
        (Some(w), Some(h)) => Some((w, h)),
        _ => None,
    }
}

/// Orientation flag that a stored column stands for; upright if out of range.
pub open spec fn orientation_in(column: i64) -> u16 {
    if 0 <= column <= u16::MAX {
        column as u16
    } else {
        1
    }
}

/// Reads a stored orientation flag.
pub fn orientation_from_column(column: i64) -> (orientation: u16)
    ensures
        orientation == orientation_in(column),
{
    if 0 <= column && column <= u16::MAX as i64 {
        column as u16
    } else {
        1
    }
}

/// ISO rating that a stored column stands for.
pub open spec fn iso_in(column: Option<i64>) -> Option<u32> {
    match column {
        None => None,
        Some(value) => if 0 <= value <= u32::MAX {
            Some(value as u32)
        } else {
            None
        },
    }
}

/// Reads a stored ISO rating.
pub fn iso_from_column(column: Option<i64>) -> (iso: Option<u32>)
    ensures
        iso == iso_in(column),
{
    match column {
        None => None,
        Some(value) => if 0 <= value && value <= u32::MAX as i64 {
            Some(value as u32)
        } else {
            None
        },
    }
}

/// Copies an optional text.
pub fn copy_text(text: &Option<String>) -> (copy: Option<String>)
    ensures
        copy == *text,
{
    match text {
        None => None,
        Some(t) => Some(t.clone()),
    }
}

/// The content of an optional text.
pub open spec fn text_in(text: Option<String>) -> Option<Seq<char>> {
    match text {
        None => None,
        Some(t) => Some(t@),
    }
}

/// The path that an optional text spells.
pub open spec fn path_in(text: Option<String>) -> Option<Seq<Seq<char>>> {
    match text {
        None => None,
        Some(t) => Some(components(t@)),
    }
}

/// Whether two optional texts spell the same path.
pub fn same_optional_path(a: &Option<String>, b: &Option<String>) -> (same: bool)
    ensures
        same == (path_in(*a) == path_in(*b)),
{
    match (a, b) {
        (None, None) => true,
        (Some(x), Some(y)) => same_path(x.as_str(), y.as_str()),
        _ => false,
    }
}

/// The cell that a row is shown as.
pub open spec fn entry_in(row: PhotoRow) -> PhotoEntry {
    PhotoEntry {
        id: PhotoId(widened(row.id)),
        rel_path: row.rel_path,
        label: label_in(row.label),
        status: status_in(row.status),
        pixels: pixels_in(row.width, row.height),
        orientation: orientation_in(row.orientation),
        rot_cw: turns_of(row.rot_cw),
        thumb_path: row.thumb_path,
        err_msg: row.err_msg,
        jpeg_rel_path: row.jpeg_rel_path,
    }
}

/// Assembles the cell that a row is shown as.
pub fn entry_from_row(row: &PhotoRow) -> (entry: PhotoEntry)
    ensures
        entry == entry_in(*row),
{
    PhotoEntry {
        id: PhotoId(widen_to_u64(row.id)),
        rel_path: row.rel_path.clone(),
        label: label_from_column(row.label),
        status: status_from_column(row.status),
        pixels: pixels_from_columns(row.width, row.height),
        orientation: orientation_from_column(row.orientation),
        rot_cw: rot_cw_of(row.rot_cw),
        thumb_path: copy_text(&row.thumb_path),
        err_msg: copy_text(&row.err_msg),
        jpeg_rel_path: copy_text(&row.jpeg_rel_path),
    }
}

/// The full record of a row.
pub open spec fn detail_in(row: PhotoRow) -> PhotoDetail {
    PhotoDetail {
        id: PhotoId(widened(row.id)),
        rel_path: row.rel_path,
        label: label_in(row.label),
        status: status_in(row.status),
        pixels: pixels_in(row.width, row.height),
        orientation: orientation_in(row.orientation),
        rot_cw: turns_of(row.rot_cw),
        preview_path: row.preview_path,
        thumb_path: row.thumb_path,
        camera: row.camera,
        lens: row.lens,
        taken_at: row.taken_at,
        shutter: row.shutter,
        aperture: row.aperture,
        iso: iso_in(row.iso),
        focal_mm: row.focal_mm,
        err_msg: row.err_msg,
        jpeg_rel_path: row.jpeg_rel_path,
    }
}

/// Assembles the full record of a row.
pub fn detail_from_row(row: &PhotoRow) -> (detail: PhotoDetail)
    ensures
        detail == detail_in(*row),
{
    PhotoDetail {
        id: PhotoId(widen_to_u64(row.id)),
        rel_path: row.rel_path.clone(),
        label: label_from_column(row.label),
        status: status_from_column(row.status),
        pixels: pixels_from_columns(row.width, row.height),
        orientation: orientation_from_column(row.orientation),
        rot_cw: rot_cw_of(row.rot_cw),
        preview_path: copy_text(&row.preview_path),
        thumb_path: copy_text(&row.thumb_path),
        camera: copy_text(&row.camera),
        lens: copy_text(&row.lens),
        taken_at: copy_text(&row.taken_at),
        shutter: copy_text(&row.shutter),
        aperture: row.aperture,
        iso: iso_from_column(row.iso),
        focal_mm: row.focal_mm,
        err_msg: copy_text(&row.err_msg),
        jpeg_rel_path: copy_text(&row.jpeg_rel_path),
    }
}

/// The row of a file that a scan found for the first time.
pub open spec fn fresh_row(id: i64, root: String, meta: PhotoMeta) -> PhotoRow {
    PhotoRow {
        id,
        root,
        rel_path: meta.rel_path,
        mtime: stored_time(meta.mtime),
        size: narrowed(meta.size as int),
        width: None,
        height: None,
        orientation: 1,
        rot_cw: 0,
        camera: None,
        lens: None,
        taken_at: None,
        shutter: None,
        aperture: None,
        iso: None,
        focal_mm: None,
        label: 0,
        status: 0,
        err_msg: None,
        preview_path: None,
        thumb_path: None,
        jpeg_rel_path: meta.jpeg_rel_path,
        ingested_at: None,
    }
}

/// Makes the row of a newly found file.
pub fn make_row(id: i64, root: &String, meta: &PhotoMeta) -> (row: PhotoRow)
    ensures
        row == fresh_row(id, *root, *meta),
{
    PhotoRow {
        id,
        root: root.clone(),
        rel_path: meta.rel_path.clone(),
        mtime: system_time_to_i64(meta.mtime),
        size: narrow_u64(meta.size),
        width: None,
        height: None,
        orientation: 1,
        rot_cw: 0,
        camera: None,
        lens: None,
        taken_at: None,
        shutter: None,
        aperture: None,
        iso: None,
        focal_mm: None,
        label: 0,
        status: 0,
        err_msg: None,
        preview_path: None,
        thumb_path: None,
        jpeg_rel_path: copy_text(&meta.jpeg_rel_path),
        ingested_at: None,
    }
}

/// A row whose file changed: everything extracted from it is forgotten, the
/// user's own marks and the row number stay.
pub open spec fn reset_row(row: PhotoRow, meta: PhotoMeta) -> PhotoRow {
    PhotoRow {
        id: row.id,
        root: row.root,
        rel_path: row.rel_path,
        label: row.label,
        rot_cw: row.rot_cw,
        ..fresh_row(row.id, row.root, meta)
    }
}

/// The row after a successful extraction; the message of an earlier failure
/// is gone.
pub open spec fn ingested_row(row: PhotoRow, info: IngestInfo, now: i64) -> PhotoRow {
    PhotoRow {
        status: 1,
        width: Some(info.width as i64),
        height: Some(info.height as i64),
        orientation: info.orientation as i64,
        camera: info.camera,
        lens: info.lens,
        taken_at: info.taken_at,
        shutter: info.shutter,
        aperture: info.aperture,
        iso: match info.iso {
            Some(iso) => Some(iso as i64),
            None => None,
        },
        focal_mm: info.focal_mm,
        err_msg: None,
        preview_path: Some(info.preview_path),
        thumb_path: Some(info.thumb_path),
        ingested_at: Some(now),
        ..row
    }
}

impl PhotoRow {
    /// Whether the row has to be extracted again: its file changed, or it had
    /// been reported missing and its cache files may be gone.
    pub open spec fn is_stale(self, mtime: i64, size: u64) -> bool {
        status_in(self.status) == PhotoStatus::Missing || self.mtime != mtime || widened(self.size) != size
    }

    /// Computes [`PhotoRow::is_stale`].
    pub fn needs_refresh(&self, mtime: i64, size: u64) -> (stale: bool)
        ensures
            stale == self.is_stale(mtime, size),
    {
        status_from_column(self.status) == PhotoStatus::Missing || self.mtime != mtime || widen_to_u64(
            self.size,
        ) != size
    }

    /// Forgets what was extracted from a file that changed.
    pub fn reset(&mut self, meta: &PhotoMeta)
        ensures
            *final(self) == reset_row(*old(self), *meta),
    {
        self.mtime = system_time_to_i64(meta.mtime);
        self.size = narrow_u64(meta.size);
        self.status = 0;
        self.width = None;
        self.height = None;
        self.orientation = 1;
        self.camera = None;
        self.lens = None;
        self.taken_at = None;
        self.shutter = None;
        self.aperture = None;
        self.iso = None;
        self.focal_mm = None;
        self.err_msg = None;
        self.preview_path = None;
        self.thumb_path = None;
        self.ingested_at = None;
        self.jpeg_rel_path = copy_text(&meta.jpeg_rel_path);
    }

    /// Attaches what a successful extraction learned.
    pub fn ingest(&mut self, info: &IngestInfo, now: i64)
        ensures
            *final(self) == ingested_row(*old(self), *info, now),
    {
        self.status = 1;
        self.width = Some(info.width as i64);
        self.height = Some(info.height as i64);
        self.orientation = info.orientation as i64;
        self.camera = copy_text(&info.camera);
        self.lens = copy_text(&info.lens);
        self.taken_at = copy_text(&info.taken_at);
        self.shutter = copy_text(&info.shutter);
        self.aperture = info.aperture;
        self.iso = match info.iso {
            Some(iso) => Some(iso as i64),
            None => None,
        };
        self.focal_mm = info.focal_mm;
        self.err_msg = None;
        self.preview_path = Some(info.preview_path.clone());
        self.thumb_path = Some(info.thumb_path.clone());
        self.ingested_at = Some(now);
    }
}

} // verus!
