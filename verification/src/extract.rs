//! What extraction makes of a RAW file: which extensions count, which embedded
//! preview is taken, what is cached, and what the index learns.
//!
//! Opening and parsing the file happens outside and hands over [`RawRead`].

use image::codecs::jpeg::JpegEncoder;
use image::{DynamicImage, ExtendedColorType};
use vstd::prelude::*;
use vstd::utf8::encode_utf8;

use crate::cache::{cache_words, hex_text, identity, md5_digest, Cache, CacheError};
use crate::columns::text_in;
use crate::exif::{
    capture_time, capture_times_are_trimmed, dashes_the_date, format_capture_time, format_shutter,
    rounded_tenths, shutter_words, tenths_of, trim, trimmed,
};
use crate::model::{IngestInfo, PhotoMeta};
use crate::orient::{image_pixels, image_size};
use crate::path::{join, joined};
use crate::text::{concat, from_chars, push_text, to_chars};

verus! {

/// Longest edge of a thumbnail, in pixels.
pub const THUMB_LONG_EDGE: u32 = 512;

/// JPEG quality of previews.
pub const PREVIEW_QUALITY: u8 = 88;

/// JPEG quality of thumbnails.
pub const THUMB_QUALITY: u8 = 85;

/// Extensions of RAW files that are worth culling.
pub const EXTENSIONS: [&'static str; 27] = [
    "3fr",
    "ari",
    "arw",
    "bay",
    "cr2",
    "cr3",
    "crw",
    "dcr",
    "dng",
    "erf",
    "fff",
    "gpr",
    "iiq",
    "kdc",
    "mef",
    "mrw",
    "nef",
    "nrw",
    "orf",
    "pef",
    "raf",
    "raw",
    "rw2",
    "rwl",
    "sr2",
    "srw",
    "x3f",
];

/// Extensions of companion JPEG files.
pub const JPEG_EXTENSIONS: [&'static str; 2] = ["jpg", "jpeg"];

/// The extensions that the RAW decoder lists.
pub open spec fn decodable() -> Seq<Seq<char>> {
    seq![
        "ARI"@,
        "ARW"@,
        "CR2"@,
        "CR3"@,
        "CRM"@,
        "CRW"@,
        "DCR"@,
        "DCS"@,
        "DNG"@,
        "ERF"@,
        "IIQ"@,
        "KDC"@,
        "MEF"@,
        "MOS"@,
        "MRW"@,
        "NEF"@,
        "NRW"@,
        "ORF"@,
        "ORI"@,
        "PEF"@,
        "RAF"@,
        "RAW"@,
        "RW2"@,
        "RWL"@,
        "SRW"@,
        "3FR"@,
        "FFF"@,
        "X3F"@,
        "QTK"@,
    ]
}

/// `rawler::decoders::supported_extensions` lists the extensions of the files
/// that the decoder takes, in upper case.
pub assume_specification[ rawler::decoders::supported_extensions ]() -> (list: &'static [&'static str])
    ensures
        list@.len() == decodable().len(),
        forall|i: int| 0 <= i < list@.len() ==> (#[trigger] list@[i])@ == decodable()[i],
;

/// A code number with the letters `A` to `Z` lowered.
pub open spec fn lowered(code: u32) -> u32 {
    if 65 <= code <= 90 {
        (code + 32) as u32
    } else {
        code
    }
}

/// Bytes spell a text, if upper and lower case do not count.
pub open spec fn spells(bytes: Seq<u8>, text: Seq<char>) -> bool {
    &&& bytes.len() == text.len()
    &&& forall|i: int| 0 <= i < bytes.len() ==> lowered(#[trigger] bytes[i] as u32) == lowered(text[i] as u32)
}

/// Bytes spell one of some texts.
pub open spec fn spells_one(bytes: Seq<u8>, texts: Seq<Seq<char>>) -> bool {
    exists|i: int| 0 <= i < texts.len() && spells(bytes, #[trigger] texts[i])
}

/// The extensions worth culling, as texts.
pub open spec fn known_raw() -> Seq<Seq<char>> {
    Seq::new(27, |i: int| EXTENSIONS@[i]@)
}

/// The extensions of companion files, as texts.
pub open spec fn known_jpeg() -> Seq<Seq<char>> {
    Seq::new(2, |i: int| JPEG_EXTENSIONS@[i]@)
}

/// An extension that is worth culling and that the decoder takes.
pub open spec fn is_raw(extension: Seq<u8>) -> bool {
    spells_one(extension, known_raw()) && spells_one(extension, decodable())
}

/// An extension of a companion file.
pub open spec fn is_jpeg(extension: Seq<u8>) -> bool {
    spells_one(extension, known_jpeg())
}

fn lower_code(code: u32) -> (low: u32)
    ensures
        low == lowered(code),
{
    if 65 <= code && code <= 90 {
        code + 32
    } else {
        code
    }
}

fn bytes_spell(bytes: &[u8], text: &str) -> (r: bool)
    ensures
        r == spells(bytes@, text@),
{
    let chars: Vec<char> = to_chars(text);
    if bytes.len() != chars.len() {
        return false;
    }
    let mut i: usize = 0;
    while i < bytes.len()
        invariant
            i <= bytes.len(),
            bytes.len() == chars.len(),
            chars@ == text@,
            forall|k: int| 0 <= k < i ==> lowered(#[trigger] bytes@[k] as u32) == lowered(text@[k] as u32),
        decreases bytes.len() - i,
    {
        if lower_code(bytes[i] as u32) != lower_code(chars[i] as u32) {
            proof {
                assert(lowered(bytes@[i as int] as u32) != lowered(text@[i as int] as u32));
            }
            return false;
        }
        i = i + 1;
    }
    true
}

fn spells_listed(bytes: &[u8], list: &[&'static str], Ghost(texts): Ghost<Seq<Seq<char>>>) -> (r: bool)
    requires
        list@.len() == texts.len(),
        forall|i: int| 0 <= i < list@.len() ==> (#[trigger] list@[i])@ == texts[i],
    ensures
        r == spells_one(bytes@, texts),
{
    let mut i: usize = 0;
    while i < list.len()
        invariant
            i <= list.len(),
            list@.len() == texts.len(),
            forall|k: int| 0 <= k < list@.len() ==> (#[trigger] list@[k])@ == texts[k],
            forall|k: int| 0 <= k < i ==> !spells(bytes@, #[trigger] texts[k]),
        decreases list.len() - i,
    {
        if bytes_spell(bytes, list[i]) {
            proof {
                assert(list@[i as int]@ == texts[i as int]);
                assert(spells(bytes@, texts[i as int]));
            }
            return true;
        }
        proof {
            assert(list@[i as int]@ == texts[i as int]);
        }
        i = i + 1;
    }
    false
}

/// Whether files with an extension (without its dot) are taken: it is worth
/// culling and the decoder takes it; upper and lower case do not count.
pub fn is_supported_extension(extension: &[u8]) -> (r: bool)
    ensures
        r == is_raw(extension@),
{
    let known: [&'static str; 27] = EXTENSIONS;
    let listed: bool = spells_listed(extension, known.as_slice(), Ghost(known_raw()));
    listed && spells_listed(extension, rawler::decoders::supported_extensions(), Ghost(decodable()))
}

/// Whether an extension (without its dot) is that of a companion file.
pub fn is_jpeg_extension(extension: &[u8]) -> (r: bool)
    ensures
        r == is_jpeg(extension@),
{
    let known: [&'static str; 2] = JPEG_EXTENSIONS;
    spells_listed(extension, known.as_slice(), Ghost(known_jpeg()))
}

/// Why a file could not be extracted.
#[derive(Clone, Debug, PartialEq, Eq)]
pub enum ExtractError {
    /// It could not be opened.
    Open { path: String, reason: String },
    /// There is no decoder for it.
    Unsupported(String),
    /// Parsing or encoding failed.
    Decode { path: String, message: String },
    /// The decoder broke down.
    Panicked { path: String, message: String },
    /// The assets could not be written.
    Cache(CacheError),
}

/// What an extraction error says.
pub open spec fn error_words(error: ExtractError) -> Seq<char> {
    match error {
        ExtractError::Open { path, .. } => "cannot open RAW file `"@ + path@ + "`"@,
        ExtractError::Unsupported(path) => "unsupported or corrupt RAW file `"@ + path@ + "`"@,
        ExtractError::Decode { path, message } => "failed to extract `"@ + path@ + "`: "@ + message@,
        ExtractError::Panicked { path, message } => "extracting `"@ + path@ + "` panicked: "@ + message@,
        ExtractError::Cache(inner) => cache_words(inner),
    }
}

impl ExtractError {
    /// What the error says.
    pub fn message(&self) -> (text: String)
        ensures
            text@ == error_words(*self),
    {
        match self {
            ExtractError::Open { path, .. } => around("cannot open RAW file `", path, "`"),
            ExtractError::Unsupported(path) => around("unsupported or corrupt RAW file `", path, "`"),
            ExtractError::Decode { path, message } => {
                let head: String = around("failed to extract `", path, "`: ");
                concat(head.as_str(), message.as_str())
            },
            ExtractError::Panicked { path, message } => {
                let head: String = around("extracting `", path, "` panicked: ");
                concat(head.as_str(), message.as_str())
            },
            ExtractError::Cache(inner) => inner.message(),
        }
    }
}

fn around(head: &str, middle: &String, tail: &str) -> (text: String)
    ensures
        text@ == head@ + middle@ + tail@,
{
    let start: String = concat(head, middle.as_str());
    concat(start.as_str(), tail)
}

/// What is said of a breakdown: its message, if it left one.
pub open spec fn breakdown_words(message: Option<String>) -> Seq<char> {
    match message {
        Some(text) => text@,
        None => "non-string panic payload"@,
    }
}

/// Words a breakdown.
pub fn payload_message(message: Option<String>) -> (text: String)
    ensures
        text@ == breakdown_words(message),
{
    match message {
        Some(text) => text,
        None => "non-string panic payload".to_owned(),
    }
}

/// What the header of a RAW file says, as far as it matters.
#[derive(Clone, Debug, PartialEq, Eq)]
pub struct RawFacts {
    /// Camera make.
    pub make: String,
    /// Camera model.
    pub model: String,
    /// EXIF orientation flag.
    pub orientation: Option<u16>,
    /// Lens name in the EXIF data.
    pub lens_model: Option<String>,
    /// Lens name that the decoder knows.
    pub lens_name: Option<String>,
    /// When the picture was taken.
    pub date_time_original: Option<String>,
    /// When it was digitised.
    pub create_date: Option<String>,
    /// Exposure time as a fraction of a second.
    pub exposure_time: Option<(u32, u32)>,
    /// Shutter speed in words, from its APEX value.
    pub apex_shutter: Option<String>,
    /// F-number as a fraction.
    pub fnumber: Option<(u32, u32)>,
    /// F-number in tenths, from its APEX value.
    pub apex_aperture: Option<u64>,
    /// Classic ISO rating.
    pub iso_speed_ratings: Option<u16>,
    /// ISO speed.
    pub iso_speed: Option<u32>,
    /// Recommended exposure index.
    pub recommended_exposure_index: Option<u32>,
    /// Focal length in tenths of a millimetre.
    pub focal_mm: Option<u64>,
}

/// The orientation flag of a header: 1 unless it is one of the eight.
pub open spec fn flag_in(orientation: Option<u16>) -> u16 {
    match orientation {
        Some(flag) => if 1 <= flag <= 8 {
            flag
        } else {
            1
        },
        None => 1,
    }
}

/// The orientation flag of a header.
pub fn orientation_of(facts: &RawFacts) -> (flag: u16)
    ensures
        flag == flag_in(facts.orientation),
        1 <= flag <= 8,
{
    match facts.orientation {
        Some(flag) => if 1 <= flag && flag <= 8 {
            flag
        } else {
            1
        },
        None => 1,
    }
}

/// Camera make and model, trimmed and with a space between; what is blank is
/// left out.
pub open spec fn camera_in(make: Seq<char>, model: Seq<char>) -> Option<Seq<char>> {
    let a = trimmed(make);
    let b = trimmed(model);
    if a.len() == 0 && b.len() == 0 {
        None
    } else if a.len() == 0 {
        Some(b)
    } else if b.len() == 0 {
        Some(a)
    } else {
        Some(a.push(' ') + b)
    }
}

/// The camera of a header.
pub fn camera_of(facts: &RawFacts) -> (camera: Option<String>)
    ensures
        text_in(camera) == camera_in(facts.make@, facts.model@),
{
    let mut make: Vec<char> = trim(facts.make.as_str());
    let model: Vec<char> = trim(facts.model.as_str());
    if make.len() == 0 && model.len() == 0 {
        None
    } else if make.len() == 0 {
        Some(from_chars(&model))
    } else if model.len() == 0 {
        Some(from_chars(&make))
    } else {
        make.push(' ');
        let tail: String = from_chars(&model);
        push_text(&mut make, tail.as_str());
        Some(from_chars(&make))
    }
}

/// A text trimmed, if anything is left of it.
pub open spec fn said(text: Option<String>) -> Option<Seq<char>> {
    match text {
        Some(t) => if trimmed(t@).len() > 0 {
            Some(trimmed(t@))
        } else {
            None
        },
        None => None,
    }
}

fn trimmed_text(text: &Option<String>) -> (out: Option<String>)
    ensures
        text_in(out) == said(*text),
{
    match text {
        Some(t) => {
            let chars: Vec<char> = trim(t.as_str());
            if chars.len() > 0 {
                Some(from_chars(&chars))
            } else {
                None
            }
        },
        None => None,
    }
}

/// The lens of a header: the EXIF name, else the one that the decoder knows.
pub fn lens_of(facts: &RawFacts) -> (lens: Option<String>)
    ensures
        text_in(lens) == (if said(facts.lens_model) is Some {
            said(facts.lens_model)
        } else {
            said(facts.lens_name)
        }),
{
    match trimmed_text(&facts.lens_model) {
        Some(lens) => Some(lens),
        None => trimmed_text(&facts.lens_name),
    }
}

/// The capture time of a header: when the picture was taken, else when it was
/// digitised.
pub open spec fn taken_in(original: Option<String>, created: Option<String>) -> Option<Seq<char>> {
    match (original, created) {
        (Some(stamp), _) => Some(capture_time(stamp@)),
        (None, Some(stamp)) => Some(capture_time(stamp@)),
        (None, None) => None,
    }
}

/// The capture time of a header, for display.
pub fn taken_at_of(facts: &RawFacts) -> (taken_at: Option<String>)
    ensures
        text_in(taken_at) == taken_in(facts.date_time_original, facts.create_date),
        facts.date_time_original matches Some(stamp) ==> taken_at is Some && taken_at->0@ == capture_time(stamp@),
        facts.date_time_original is None && facts.create_date is Some ==> taken_at is Some && taken_at->0@
            == capture_time(facts.create_date->0@),
        facts.date_time_original is None && facts.create_date is None ==> taken_at is None,
        facts.date_time_original matches Some(stamp) ==> dashes_the_date(stamp@, taken_at->0@),
        facts.date_time_original is None && facts.create_date is Some ==> dashes_the_date(
            facts.create_date->0@,
            taken_at->0@,
        ),
{
    proof {
        if facts.date_time_original is Some {
            capture_times_are_trimmed(facts.date_time_original->0@);
        }
        if facts.create_date is Some {
            capture_times_are_trimmed(facts.create_date->0@);
        }
    }
    match &facts.date_time_original {
        Some(stamp) => Some(format_capture_time(stamp.as_str())),
        None => match &facts.create_date {
            Some(stamp) => Some(format_capture_time(stamp.as_str())),
            None => None,
        },
    }
}

/// The shutter speed of a header: from the exposure time if there is one, even
/// if it says nothing; else from the APEX value.
pub open spec fn shutter_in(exposure: Option<(u32, u32)>, apex: Option<String>) -> Option<Seq<char>> {
    match exposure {
        Some((n, d)) => if n == 0 || d == 0 {
            None
        } else {
            Some(shutter_words(n as nat, d as nat))
        },
        None => text_in(apex),
    }
}

/// The shutter speed of a header, for display.
pub fn shutter_of(facts: &RawFacts) -> (shutter: Option<String>)
    ensures
        text_in(shutter) == shutter_in(facts.exposure_time, facts.apex_shutter),
{
    match facts.exposure_time {
        Some((n, d)) => format_shutter(n, d),
        None => crate::columns::copy_text(&facts.apex_shutter),
    }
}

/// The F-number of a header in tenths: from the fraction if that is a positive
/// number, else from the APEX value.
pub open spec fn aperture_in(fnumber: Option<(u32, u32)>, apex: Option<u64>) -> Option<u64> {
    match fnumber {
        Some((n, d)) => if n > 0 && d > 0 {
            Some(tenths_of(n as nat, d as nat) as u64)
        } else {
            apex
        },
        None => apex,
    }
}

/// The F-number of a header in tenths.
pub fn aperture_of(facts: &RawFacts) -> (aperture: Option<u64>)
    ensures
        aperture == aperture_in(facts.fnumber, facts.apex_aperture),
{
    match facts.fnumber {
        Some((n, d)) => if n > 0 && d > 0 {
            Some(rounded_tenths(n, d))
        } else {
            facts.apex_aperture
        },
        None => facts.apex_aperture,
    }
}

/// The ISO rating of a header: the first of three fields that is there, if it
/// is positive.
pub open spec fn iso_rating(ratings: Option<u16>, speed: Option<u32>, index: Option<u32>) -> Option<u32> {
    let first = match (ratings, speed) {
        (Some(iso), _) => Some(iso as u32),
        (None, Some(iso)) => Some(iso),
        (None, None) => index,
    };
    match first {
        Some(iso) => if iso > 0 {
            Some(iso)
        } else {
            None
        },
        None => None,
    }
}

/// The ISO rating of a header.
pub fn iso_of(facts: &RawFacts) -> (iso: Option<u32>)
    ensures
        iso == iso_rating(facts.iso_speed_ratings, facts.iso_speed, facts.recommended_exposure_index),
{
    let first: Option<u32> = match (facts.iso_speed_ratings, facts.iso_speed) {
        (Some(iso), _) => Some(iso as u32),
        (None, Some(iso)) => Some(iso),
        (None, None) => facts.recommended_exposure_index,
    };
    match first {
        Some(iso) => if iso > 0 {
            Some(iso)
        } else {
            None
        },
        None => None,
    }
}

/// A time in nanoseconds since the epoch; times before it count as the epoch.
pub fn mtime_unix_nanos(mtime: i128) -> (nanos: u128)
    ensures
        nanos == (if mtime < 0 {
            0
        } else {
            mtime as int
        }),
{
    if mtime < 0 {
        0
    } else {
        mtime as u128
    }
}

/// Where an embedded preview is looked for, in this order.
#[derive(Clone, Copy, Debug, PartialEq, Eq, Structural)]
pub enum Stage {
    /// The preview.
    Preview,
    /// The picture in full.
    Full,
    /// The thumbnail.
    Thumbnail,
}

/// The stages in order.
pub const STAGES: [Stage; 3] = [Stage::Preview, Stage::Full, Stage::Thumbnail];

/// What a stage gave.
pub enum StageOutcome {
    /// A picture.
    Image(DynamicImage),
    /// None is embedded.
    Nothing,
    /// It could not be read.
    Failed(String),
    /// The decoder broke down.
    Panicked(String),
}

/// Why no preview could be had.
pub open spec fn no_preview_words() -> Seq<char> {
    "no embedded preview found in any fallback stage"@
}

/// Position of the first picture among outcomes.
pub open spec fn first_image(outcomes: Seq<StageOutcome>, from: int) -> Option<int>
    decreases outcomes.len() - from,
{
    if from < 0 || from >= outcomes.len() {
        None
    } else if outcomes[from] is Image {
        Some(from)
    } else {
        first_image(outcomes, from + 1)
    }
}

/// Takes the first picture that the stages gave; what went wrong at the others
/// does not matter.
pub fn acquire_preview(outcomes: Vec<StageOutcome>, path: &String) -> (preview: Result<DynamicImage, ExtractError>)
    ensures
        match first_image(outcomes@, 0) {
            Some(i) => outcomes@[i] matches StageOutcome::Image(image) && preview == Ok::<DynamicImage, ExtractError>(
                image,
            ),
            None => preview matches Err(ExtractError::Decode { path: told, message }) && told@ == path@ && message@
                == no_preview_words(),
        },
{
    let ghost all = outcomes@;
    for outcome in it: outcomes
        invariant
            it.seq() == all,
            first_image(all, 0) == first_image(all, it.index() as int),
    {
        match outcome {
            StageOutcome::Image(image) => {
                return Ok(image);
            },
            _ => {},
        }
    }
    Err(ExtractError::Decode {
        path: path.clone(),
        message: "no embedded preview found in any fallback stage".to_owned(),
    })
}

/// `DynamicImage::width` reports the width of a picture.
pub assume_specification[ DynamicImage::width ](image: &DynamicImage) -> (w: u32)
    ensures
        w == image_size(*image).0,
;

/// `DynamicImage::height` reports the height of a picture.
pub assume_specification[ DynamicImage::height ](image: &DynamicImage) -> (h: u32)
    ensures
        h == image_size(*image).1,
;

/// Size and pixels of the picture that `DynamicImage::thumbnail` makes of one
/// of a given size and given pixels, to fit within a width and a height.
pub uninterp spec fn scaled_down(
    size: (u32, u32),
    pixels: Map<(int, int), Seq<u8>>,
    width: u32,
    height: u32,
) -> ((u32, u32), Map<(int, int), Seq<u8>>);

/// `DynamicImage::thumbnail` scales a picture to fit within a width and a
/// height. What comes out depends on the picture and the bounds alone; it is
/// at least one pixel wide and high, and within the bounds. The bounds are
/// kept so wide that the sums over the pixels that become one do not overflow.
pub assume_specification[ DynamicImage::thumbnail ](image: &DynamicImage, nwidth: u32, nheight: u32) -> (out:
    DynamicImage)
    requires
        encodable(image_size(*image)),
        512 <= nwidth <= 65535,
        512 <= nheight <= 65535,
    ensures
        (image_size(out), image_pixels(out)) == scaled_down(
            image_size(*image),
            image_pixels(*image),
            nwidth,
            nheight,
        ),
        1 <= image_size(out).0 <= nwidth,
        1 <= image_size(out).1 <= nheight,
;

/// The pixels of a picture as rows of eight-bit red, green and blue.
pub uninterp spec fn rgb_rows(size: (u32, u32), pixels: Map<(int, int), Seq<u8>>) -> Seq<u8>;

/// `DynamicImage::to_rgb8` gives the pixels as eight-bit red, green and blue,
/// three bytes for each. A picture may come with a longer buffer than its size
/// needs; what lies behind the pixels is handed on, and nothing is claimed of
/// it.
#[verifier::external_body]
fn rgb_of(image: &DynamicImage) -> (rgb: Vec<u8>)
    ensures
        rgb@.len() >= image_size(*image).0 * image_size(*image).1 * 3,
        rgb@.take(image_size(*image).0 * image_size(*image).1 * 3) == rgb_rows(
            image_size(*image),
            image_pixels(*image),
        ),
{
    image.to_rgb8().into_raw()
}

/// Cuts a buffer to the `depth` bytes of each pixel of a picture.
pub fn cut_to_pixels(buffer: Vec<u8>, width: u32, height: u32, depth: u8) -> (rows: Vec<u8>)
    requires
        buffer@.len() >= width * height * depth,
    ensures
        rows@ == buffer@.take(width * height * depth),
{
    let mut rows: Vec<u8> = buffer;
    proof {
        lemma_pixel_bytes(width as int, height as int, depth as int);
    }
    let wanted: u128 = width as u128 * height as u128 * depth as u128;
    rows.truncate(wanted as usize);
    proof {
        assert(rows@ =~= buffer@.take(width * height * depth));
    }
    rows
}

proof fn lemma_pixel_bytes(w: int, h: int, d: int)
    by (nonlinear_arith)
    requires
        0 <= w <= u32::MAX,
        0 <= h <= u32::MAX,
        0 <= d <= 255,
    ensures
        0 <= w * h <= 0xffff_ffff * 0xffff_ffff,
        0 <= w * h * d <= 0xffff_ffff * 0xffff_ffff * 255,
{
}

/// What JPEG encoding makes of red, green and blue rows of a given width and
/// height at a quality: the file, or why it cannot be.
pub uninterp spec fn jpeg_file(rgb: Seq<u8>, width: u32, height: u32, quality: u8) -> Result<Seq<u8>, Seq<char>>;

/// A picture that fits into a JPEG file: one to 65535 pixels wide and high.
pub open spec fn encodable(size: (u32, u32)) -> bool {
    1 <= size.0 <= 65535 && 1 <= size.1 <= 65535
}

/// `JpegEncoder::encode` of the `image` crate writes a JPEG file; it takes
/// pictures of up to 65535 pixels in width and height, but no empty ones, and
/// refuses all others. What it writes depends on its arguments alone.
#[verifier::external_body]
fn encode_rgb(rgb: &Vec<u8>, width: u32, height: u32, quality: u8) -> (file: Result<Vec<u8>, String>)
    requires
        rgb@.len() == width * height * 3,
        1 <= quality <= 100,
    ensures
        match file {
            Ok(bytes) => jpeg_file(rgb@, width, height, quality) == Ok::<Seq<u8>, Seq<char>>(bytes@),
            Err(reason) => jpeg_file(rgb@, width, height, quality) == Err::<Seq<u8>, Seq<char>>(reason@),
        },
        file is Ok <==> encodable((width, height)),
{
    let mut buffer: Vec<u8> = Vec::new();
    let mut encoder = JpegEncoder::new_with_quality(&mut buffer, quality);
    match encoder.encode(rgb, width, height, ExtendedColorType::Rgb8) {
        Ok(()) => Ok(buffer),
        Err(error) => Err(format!("{error}")),
    }
}

/// The JPEG file of a picture at a quality.
pub open spec fn jpeg_of(size: (u32, u32), pixels: Map<(int, int), Seq<u8>>, quality: u8) -> Result<
    Seq<u8>,
    Seq<char>,
> {
    jpeg_file(rgb_rows(size, pixels), size.0, size.1, quality)
}

/// An encoding, or the error it stands for.
pub open spec fn encoded(file: Result<Seq<u8>, Seq<char>>, path: Seq<char>, result: Result<Vec<u8>, ExtractError>) -> bool {
    match file {
        Ok(bytes) => result matches Ok(written) && written@ == bytes,
        Err(reason) => result matches Err(ExtractError::Decode { path: told, message }) && told@ == path && message@
            == "jpeg re-encode failed: "@ + reason,
    }
}

fn encode_jpeg(image: &DynamicImage, quality: u8, path: &String) -> (file: Result<Vec<u8>, ExtractError>)
    requires
        1 <= quality <= 100,
    ensures
        encoded(jpeg_of(image_size(*image), image_pixels(*image), quality), path@, file),
        file is Ok <==> encodable(image_size(*image)),
{
    let rgb: Vec<u8> = cut_to_pixels(rgb_of(image), image.width(), image.height(), 3);
    let file: Result<Vec<u8>, String> = encode_rgb(&rgb, image.width(), image.height(), quality);
    encoding_result(file, path)
}

/// Turns what the encoder said into a result of the extraction.
pub fn encoding_result(file: Result<Vec<u8>, String>, path: &String) -> (result: Result<Vec<u8>, ExtractError>)
    ensures
        match file {
            Ok(bytes) => result == Ok::<Vec<u8>, ExtractError>(bytes),
            Err(reason) => result matches Err(ExtractError::Decode { path: told, message }) && told@ == path@
                && message@ == "jpeg re-encode failed: "@ + reason@,
        },
{
    match file {
        Ok(bytes) => Ok(bytes),
        Err(reason) => Err(
            ExtractError::Decode { path: path.clone(), message: concat("jpeg re-encode failed: ", reason.as_str()) },
        ),
    }
}

/// What reading a RAW file gave.
pub enum RawRead {
    /// It could not be opened.
    NotOpened(String),
    /// There is no decoder for it.
    NoDecoder,
    /// Its header could not be parsed.
    NoMetadata(String),
    /// Header and stages.
    Read { facts: RawFacts, outcomes: Vec<StageOutcome> },
    /// The decoder broke down; its message, if it left one.
    BrokeDown(Option<String>),
}

/// What an extraction found, and the files to cache.
pub struct Extraction {
    /// For the index.
    pub info: IngestInfo,
    /// The preview file.
    pub preview: Vec<u8>,
    /// The thumbnail file.
    pub thumb: Vec<u8>,
}

/// The key of a photo's assets.
pub open spec fn key_of(photo: PhotoMeta) -> Seq<char> {
    hex_text(
        md5_digest(
            identity(
                encode_utf8(photo.root@),
                encode_utf8(photo.rel_path@),
                if photo.mtime < 0 {
                    0
                } else {
                    photo.mtime as u128
                },
                photo.size,
            ),
        ),
    )
}

/// What the index learns of a photo from its header and its preview.
pub open spec fn info_fits(info: IngestInfo, facts: RawFacts, size: (u32, u32), cache: Cache, key: Seq<char>) -> bool {
    &&& info.width == size.0
    &&& info.height == size.1
    &&& info.orientation == flag_in(facts.orientation)
    &&& text_in(info.camera) == camera_in(facts.make@, facts.model@)
    &&& text_in(info.lens) == (if said(facts.lens_model) is Some {
        said(facts.lens_model)
    } else {
        said(facts.lens_name)
    })
    &&& text_in(info.taken_at) == taken_in(facts.date_time_original, facts.create_date)
    &&& text_in(info.shutter) == shutter_in(facts.exposure_time, facts.apex_shutter)
    &&& info.aperture == aperture_in(facts.fnumber, facts.apex_aperture)
    &&& info.iso == iso_rating(facts.iso_speed_ratings, facts.iso_speed, facts.recommended_exposure_index)
    &&& info.focal_mm == facts.focal_mm
    &&& info.preview_path@ == joined(joined(cache.root@, "previews"@), key + ".jpg"@)
    &&& info.thumb_path@ == joined(joined(cache.root@, "thumbs"@), key + ".jpg"@)
}

/// Puts together what the index learns of a photo.
pub fn ingest_info(facts: &RawFacts, width: u32, height: u32, cache: &Cache, key: &str) -> (info: IngestInfo)
    ensures
        info_fits(info, *facts, (width, height), *cache, key@),
{
    IngestInfo {
        width,
        height,
        orientation: orientation_of(facts),
        camera: camera_of(facts),
        lens: lens_of(facts),
        taken_at: taken_at_of(facts),
        shutter: shutter_of(facts),
        aperture: aperture_of(facts),
        iso: iso_of(facts),
        focal_mm: facts.focal_mm,
        preview_path: cache.preview_path(key),
        thumb_path: cache.thumb_path(key),
    }
}

/// The thumbnail of a picture.
pub open spec fn thumb_raster(size: (u32, u32), pixels: Map<(int, int), Seq<u8>>) -> (
    (u32, u32),
    Map<(int, int), Seq<u8>>,
) {
    scaled_down(size, pixels, THUMB_LONG_EDGE, THUMB_LONG_EDGE)
}

/// What extraction makes of a preview picture: both files, if it fits into a
/// JPEG file, else the encoding that failed.
pub open spec fn extraction_fits(
    photo: PhotoMeta,
    cache: Cache,
    facts: RawFacts,
    image: DynamicImage,
    path: Seq<char>,
    result: Result<Extraction, ExtractError>,
) -> bool {
    let size = image_size(image);
    let pixels = image_pixels(image);
    let thumb = thumb_raster(size, pixels);
    let preview_file = jpeg_of(size, pixels, PREVIEW_QUALITY);
    let thumb_file = jpeg_of(thumb.0, thumb.1, THUMB_QUALITY);
    &&& result is Ok <==> encodable(size)
    &&& match (preview_file, thumb_file) {
        (Ok(preview), Ok(small)) => {
            &&& result matches Ok(extraction) && extraction.preview@ == preview && extraction.thumb@ == small
                && info_fits(extraction.info, facts, size, cache, key_of(photo))
        },
        (Err(reason), _) => decode_failure(result, path, "jpeg re-encode failed: "@ + reason),
        (Ok(_), Err(reason)) => decode_failure(result, path, "jpeg re-encode failed: "@ + reason),
    }
}

/// The extraction failed to decode or encode, with this message.
pub open spec fn decode_failure(result: Result<Extraction, ExtractError>, path: Seq<char>, words: Seq<char>) -> bool {
    result matches Err(ExtractError::Decode { path: told, message }) && told@ == path && message@ == words
}

fn extract_preview(photo: &PhotoMeta, cache: &Cache, facts: &RawFacts, image: &DynamicImage, path: &String) -> (result:
    Result<Extraction, ExtractError>)
    ensures
        extraction_fits(*photo, *cache, *facts, *image, path@, result),
{
    let preview: Vec<u8> = match encode_jpeg(image, PREVIEW_QUALITY, path) {
        Ok(file) => file,
        Err(error) => {
            return Err(error);
        },
    };
    let small: DynamicImage = image.thumbnail(THUMB_LONG_EDGE, THUMB_LONG_EDGE);
    let thumb: Vec<u8> = match encode_jpeg(&small, THUMB_QUALITY, path) {
        Ok(file) => file,
        Err(error) => {
            return Err(error);
        },
    };
    let nanos: u128 = mtime_unix_nanos(photo.mtime);
    let key: String = Cache::asset_hash(photo.root.as_str(), photo.rel_path.as_str(), nanos, photo.size);
    let info: IngestInfo = ingest_info(facts, image.width(), image.height(), cache, key.as_str());
    Ok(Extraction { info, preview, thumb })
}

/// Extracts a photo from what reading its file gave: the preview and the
/// thumbnail to cache, and what the index learns. Every way to fail has its
/// own error, and then nothing is cached.
pub fn extract_file(photo: &PhotoMeta, cache: &Cache, read: RawRead) -> (result: Result<Extraction, ExtractError>)
    ensures
        ({
            let path = joined(photo.root@, photo.rel_path@);
            match read {
                RawRead::NotOpened(reason) => result matches Err(ExtractError::Open { path: told, reason: why })
                    && told@ == path && why@ == reason@,
                RawRead::NoDecoder => result matches Err(ExtractError::Unsupported(told)) && told@ == path,
                RawRead::NoMetadata(message) => decode_failure(result, path, message@),
                RawRead::BrokeDown(message) => result matches Err(ExtractError::Panicked { path: told, message: why })
                    && told@ == path && why@ == breakdown_words(message),
                RawRead::Read { facts, outcomes } => match first_image(outcomes@, 0) {
                    None => decode_failure(result, path, no_preview_words()),
                    Some(i) => outcomes@[i] matches StageOutcome::Image(image) && extraction_fits(
                        *photo,
                        *cache,
                        facts,
                        image,
                        path,
                        result,
                    ),
                },
            }
        }),
{
    let path: String = join(photo.root.as_str(), photo.rel_path.as_str());
    match read {
        RawRead::NotOpened(reason) => Err(ExtractError::Open { path, reason }),
        RawRead::NoDecoder => Err(ExtractError::Unsupported(path)),
        RawRead::NoMetadata(message) => Err(ExtractError::Decode { path, message }),
        RawRead::BrokeDown(message) => Err(ExtractError::Panicked { path, message: payload_message(message) }),
        RawRead::Read { facts, outcomes } => match acquire_preview(outcomes, &path) {
            Ok(image) => extract_preview(photo, cache, &facts, &image, &path),
            Err(error) => Err(error),
        },
    }
}

} // verus!
