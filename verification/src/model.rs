//! Core data types: photo identity, scan metadata, labels and row states.

use vstd::prelude::*;

verus! {

/// Stable handle of a photo row in the index.
#[derive(Copy, Clone, Debug, PartialEq, Eq, Structural, PartialOrd, Ord, Hash)]
pub struct PhotoId(pub u64);

/// A photo file as found by a scan: only what a directory walk can tell.
#[derive(Clone, Debug, PartialEq, Eq)]
pub struct PhotoMeta {
    /// Folder the scan was rooted at.
    pub root: String,
    /// Path of the file relative to the root.
    pub rel_path: String,
    /// Last modification, in nanoseconds since the Unix epoch (negative
    /// before it).
    pub mtime: i128,
    /// File size in bytes.
    pub size: u64,
    /// The JPEG written beside this RAW, relative to the root.
    pub jpeg_rel_path: Option<String>,
}

/// Color label given to a photo while culling.
#[derive(Copy, Clone, Debug, PartialEq, Eq, Structural, PartialOrd, Ord, Hash)]
pub enum Label {
    /// No label yet.
    Unlabeled,
    /// Red mark (`1`).
    Red,
    /// Yellow mark (`2`).
    Yellow,
    /// Green mark (`3`).
    Green,
    /// Blue mark (`4`).
    Blue,
    /// Purple mark (`5`).
    Purple,
}

/// Number that stands for a label in the index.
pub open spec fn label_code(label: Label) -> u8 {
    match label {
        Label::Unlabeled => 0,
        Label::Red => 1,
        Label::Yellow => 2,
        Label::Green => 3,
        Label::Blue => 4,
        Label::Purple => 5,
    }
}

/// Label that a stored number stands for.
pub open spec fn label_of_code(value: u8) -> Option<Label> {
    match value {
        0 => Some(Label::Unlabeled),
        1 => Some(Label::Red),
        2 => Some(Label::Yellow),
        3 => Some(Label::Green),
        4 => Some(Label::Blue),
        5 => Some(Label::Purple),
        _ => None,
    }
}

impl Default for Label {
    fn default() -> (label: Self)
        ensures
            label == Label::Unlabeled,
    {
        Label::Unlabeled
    }
}

impl Label {
    /// Every label, in the order of their numbers.
    pub const ALL: [Label; 6] = [
        Label::Unlabeled,
        Label::Red,
        Label::Yellow,
        Label::Green,
        Label::Blue,
        Label::Purple,
    ];

    /// Number that stands for this label in the index.
    pub fn to_u8(self) -> (value: u8)
        ensures
            value == label_code(self),
    {
        match self {
            Label::Unlabeled => 0,
            Label::Red => 1,
            Label::Yellow => 2,
            Label::Green => 3,
            Label::Blue => 4,
            Label::Purple => 5,
        }
    }

    /// Label that `value` stands for; numbers above five stand for none.
    pub fn from_u8(value: u8) -> (label: Option<Label>)
        ensures
            label == label_of_code(value),
    {
        match value {
            0 => Some(Label::Unlabeled),
            1 => Some(Label::Red),
            2 => Some(Label::Yellow),
            3 => Some(Label::Green),
            4 => Some(Label::Blue),
            5 => Some(Label::Purple),
            _ => None,
        }
    }
}

/// Storing a label and reading it back gives the same label, and every number
/// that reads as a label is the one that label is stored as.
pub proof fn label_codes_round_trip(label: Label, value: u8)
    ensures
        label_of_code(label_code(label)) == Some(label),
        label_of_code(value) is Some <==> value <= 5,
        label_of_code(value) matches Some(read) ==> label_code(read) == value,
{
}

/// Lifecycle of a photo row.
#[derive(Copy, Clone, Debug, PartialEq, Eq, Structural, PartialOrd, Ord, Hash)]
pub enum PhotoStatus {
    /// Found by a scan, waiting for extraction (`0`).
    Pending,
    /// Preview and thumbnail extracted (`1`).
    Ingested,
    /// Extraction failed; the row carries a message (`2`).
    Error,
    /// The file is gone from disk since the last scan (`3`).
    Missing,
}

/// Number that stands for a status in the index.
pub open spec fn status_code(status: PhotoStatus) -> u8 {
    match status {
        PhotoStatus::Pending => 0,
        PhotoStatus::Ingested => 1,
        PhotoStatus::Error => 2,
        PhotoStatus::Missing => 3,
    }
}

/// Status that a stored number stands for.
pub open spec fn status_of_code(value: u8) -> Option<PhotoStatus> {
    match value {
        0 => Some(PhotoStatus::Pending),
        1 => Some(PhotoStatus::Ingested),
        2 => Some(PhotoStatus::Error),
        3 => Some(PhotoStatus::Missing),
        _ => None,
    }
}

impl Default for PhotoStatus {
    fn default() -> (status: Self)
        ensures
            status == PhotoStatus::Pending,
    {
        PhotoStatus::Pending
    }
}

impl PhotoStatus {
    /// Every status, in the order of their numbers.
    pub const ALL: [PhotoStatus; 4] = [
        PhotoStatus::Pending,
        PhotoStatus::Ingested,
        PhotoStatus::Error,
        PhotoStatus::Missing,
    ];

    /// Number that stands for this status in the index.
    pub fn to_u8(self) -> (value: u8)
        ensures
            value == status_code(self),
    {
        match self {
            PhotoStatus::Pending => 0,
            PhotoStatus::Ingested => 1,
            PhotoStatus::Error => 2,
            PhotoStatus::Missing => 3,
        }
    }

    /// Status that `value` stands for; numbers above three stand for none.
    pub fn from_u8(value: u8) -> (status: Option<PhotoStatus>)
        ensures
            status == status_of_code(value),
    {
        match value {
            0 => Some(PhotoStatus::Pending),
            1 => Some(PhotoStatus::Ingested),
            2 => Some(PhotoStatus::Error),
            3 => Some(PhotoStatus::Missing),
            _ => None,
        }
    }
}

/// Storing a status and reading it back gives the same status, and every
/// number that reads as a status is the one that status is stored as.
pub proof fn status_codes_round_trip(status: PhotoStatus, value: u8)
    ensures
        status_of_code(status_code(status)) == Some(status),
        status_of_code(value) is Some <==> value <= 3,
        status_of_code(value) matches Some(read) ==> status_code(read) == value,
{
}

/// A photo as a grid cell shows it.
#[derive(Clone, Debug, PartialEq, Eq)]
pub struct PhotoEntry {
    /// Row handle.
    pub id: PhotoId,
    /// Path relative to the scan root.
    pub rel_path: String,
    /// Color label.
    pub label: Label,
    /// Pipeline state.
    pub status: PhotoStatus,
    /// Pixel size of the preview as it was embedded, before any turning.
    pub pixels: Option<(u32, u32)>,
    /// EXIF orientation flag.
    pub orientation: u16,
    /// Quarter turns clockwise the user added on top of the flag.
    pub rot_cw: u8,
    /// Cache path of the thumbnail.
    pub thumb_path: Option<String>,
    /// Why extraction failed.
    pub err_msg: Option<String>,
    /// The JPEG written beside this RAW, relative to the root.
    pub jpeg_rel_path: Option<String>,
}

/// Whether a picture stored with this EXIF flag, turned by `rot_cw` more
/// quarter turns, is shown with width and height exchanged.
pub open spec fn transposed(orientation: u16, rot_cw: u8) -> bool {
    (5 <= orientation <= 8) != (rot_cw % 2 == 1)
}

/// Pixel size after turning.
pub open spec fn shown_size(pixels: Option<(u32, u32)>, orientation: u16, rot_cw: u8) -> Option<(u32, u32)> {
    match pixels {
        None => None,
        Some((width, height)) => if transposed(orientation, rot_cw) {
            Some((height, width))
        } else {
            Some((width, height))
        },
    }
}

/// Width to height of photos whose preview has not been measured yet.
pub const DEFAULT_ASPECT: (u32, u32) = (3, 2);

/// Width to height of a measured size; an empty one counts as not measured.
pub open spec fn aspect_of(size: Option<(u32, u32)>) -> (u32, u32) {
    match size {
        Some((width, height)) => if width == 0 || height == 0 {
            (3, 2)
        } else {
            (width, height)
        },
        None => (3, 2),
    }
}

impl PhotoEntry {
    /// Width to height that the photo is laid out with: those of its preview
    /// once turned for display, or the default while they are not known.
    pub fn display_aspect(&self) -> (aspect: (u32, u32))
        ensures
            aspect == aspect_of(shown_size(self.pixels, self.orientation, self.rot_cw)),
            aspect.0 > 0,
            aspect.1 > 0,
    {
        match self.display_pixels() {
            Some((width, height)) => if width == 0 || height == 0 {
                DEFAULT_ASPECT
            } else {
                (width, height)
            },
            None => DEFAULT_ASPECT,
        }
    }

    /// Pixel size the photo is displayed at, once turned upright and by the
    /// user's own turns.
    pub fn display_pixels(&self) -> (size: Option<(u32, u32)>)
        ensures
            size == shown_size(self.pixels, self.orientation, self.rot_cw),
    {
        match self.pixels {
            None => None,
            Some((width, height)) => {
                let swapped_by_exif: bool = 5 <= self.orientation && self.orientation <= 8;
                let swapped_by_user: bool = self.rot_cw % 2 == 1;
                if swapped_by_exif != swapped_by_user {
                    Some((height, width))
                } else {
                    Some((width, height))
                }
            },
        }
    }
}

/// A photo row waiting for extraction.
#[derive(Clone, Debug, PartialEq, Eq)]
pub struct PendingPhoto {
    /// Row handle.
    pub id: PhotoId,
    /// File identity used for extraction and for naming cache files.
    pub meta: PhotoMeta,
}

/// What a successful extraction learned.
#[derive(Clone, Debug, PartialEq, Eq)]
pub struct IngestInfo {
    /// Pixel width of the preview.
    pub width: u32,
    /// Pixel height of the preview.
    pub height: u32,
    /// EXIF orientation flag.
    pub orientation: u16,
    /// Camera make and model.
    pub camera: Option<String>,
    /// Lens name.
    pub lens: Option<String>,
    /// Capture time, formatted for display.
    pub taken_at: Option<String>,
    /// Shutter speed, formatted for display.
    pub shutter: Option<String>,
    /// F-number in tenths.
    pub aperture: Option<u64>,
    /// ISO rating.
    pub iso: Option<u32>,
    /// Focal length in tenths of a millimetre.
    pub focal_mm: Option<u64>,
    /// Cache path of the preview.
    pub preview_path: String,
    /// Cache path of the thumbnail.
    pub thumb_path: String,
}

/// Everything the loupe shows about a photo.
#[derive(Clone, Debug, PartialEq, Eq)]
pub struct PhotoDetail {
    /// Row handle.
    pub id: PhotoId,
    /// Path relative to the scan root.
    pub rel_path: String,
    /// Color label.
    pub label: Label,
    /// Pipeline state.
    pub status: PhotoStatus,
    /// Pixel size of the preview, before any turning.
    pub pixels: Option<(u32, u32)>,
    /// EXIF orientation flag.
    pub orientation: u16,
    /// Quarter turns clockwise the user added on top of the flag.
    pub rot_cw: u8,
    /// Cache path of the preview.
    pub preview_path: Option<String>,
    /// Cache path of the thumbnail.
    pub thumb_path: Option<String>,
    /// Camera make and model.
    pub camera: Option<String>,
    /// Lens name.
    pub lens: Option<String>,
    /// Capture time.
    pub taken_at: Option<String>,
    /// Shutter speed.
    pub shutter: Option<String>,
    /// F-number in tenths.
    pub aperture: Option<u64>,
    /// ISO rating.
    pub iso: Option<u32>,
    /// Focal length in tenths of a millimetre.
    pub focal_mm: Option<u64>,
    /// Why extraction failed.
    pub err_msg: Option<String>,
    /// The JPEG written beside this RAW, relative to the root.
    pub jpeg_rel_path: Option<String>,
}

/// Knobs for a folder scan.
#[derive(Copy, Clone, Debug, PartialEq, Eq, Structural)]
pub struct ScanOptions {
    /// Whether subfolders are walked too.
    pub recursive: bool,
}

impl Default for ScanOptions {
    fn default() -> (options: Self)
        ensures
            options.recursive == false,
    {
        ScanOptions { recursive: false }
    }
}

} // verus!
