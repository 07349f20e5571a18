//! What the program says when something goes wrong, and what it calls things.

use vstd::prelude::*;

use crate::cache::{cache_words, CacheError};
use crate::columns::{path_in, text_in, PhotoRow};
use crate::db::first_with_id;
use crate::decode::is_display_picture;
use crate::export::{contents, export_words, failure_texts, ExportError, ExportFailure};
use crate::extract::{breakdown_words, encoded, error_words, no_preview_words, ExtractError};
use crate::keymap::{prefix_of, SizeClass};
use crate::lookup::first_position;
use crate::orient::Raster;
use crate::path::components;
use crate::scanner::{scan_words, ScanError};
use crate::tex::Picture;
use crate::widgets::{chip_words, grouped_text};

verus! {

/// Every way in which an extraction fails is told with the file it is about,
/// and the reason where there is one.
pub proof fn extraction_errors_name_the_file(path: String, reason: String, inner: CacheError)
    ensures
        error_words(ExtractError::Open { path, reason }) == "cannot open RAW file `"@ + path@ + "`"@,
        error_words(ExtractError::Unsupported(path)) == "unsupported or corrupt RAW file `"@ + path@ + "`"@,
        error_words(ExtractError::Decode { path, message: reason }) == "failed to extract `"@ + path@ + "`: "@ + reason@,
        error_words(ExtractError::Panicked { path, message: reason }) == "extracting `"@ + path@ + "` panicked: "@
            + reason@,
        error_words(ExtractError::Cache(inner)) == cache_words(inner),
        breakdown_words(Some(reason)) == reason@,
        breakdown_words(None) == "non-string panic payload"@,
        no_preview_words() == "no embedded preview found in any fallback stage"@,
{
}

/// Errors of cache, scan and export name the folder or file they are about.
pub proof fn other_errors_name_the_place(path: String, reason: String)
    ensures
        cache_words(CacheError::NoCacheDir) == "no user cache directory available"@,
        cache_words(CacheError::Write { path, reason }) == "cannot write cache file `"@ + path@ + "`"@,
        cache_words(CacheError::Walk { path, reason }) == "cannot scan cache directory `"@ + path@ + "`"@,
        scan_words(ScanError::Stat { path, reason }) == "cannot access folder `"@ + path@ + "`"@,
        scan_words(ScanError::NotADirectory(path)) == "root `"@ + path@ + "` is not a directory"@,
        export_words(ExportError::Destination(path)) == "cannot export into `"@ + path@ + "`"@,
{
}

/// An encoding that went well is handed on as it is; one that failed is told
/// with its file and its reason.
pub proof fn encodings_are_handed_on(
    file: Result<Seq<u8>, Seq<char>>,
    path: Seq<char>,
    result: Result<Vec<u8>, ExtractError>,
)
    requires
        encoded(file, path, result),
    ensures
        file is Ok <==> result is Ok,
        file is Ok ==> result->Ok_0@ == file->Ok_0,
        file is Err ==> result->Err_0 is Decode && result->Err_0->Decode_path@ == path && result->Err_0->Decode_message@
            == "jpeg re-encode failed: "@ + file->Err_0,
{
}

/// A picture for display has the size of the turned one and four bytes for
/// each of its pixels.
pub proof fn display_pictures_have_four_bytes_a_pixel(picture: Picture<Vec<u8>>, r: Raster)
    requires
        is_display_picture(picture, r),
    ensures
        picture.width == r.w,
        picture.height == r.h,
        picture.pixels@.len() == 4 * (picture.width * picture.height),
{
    assert(r.w * r.h * 4 == 4 * (r.w * r.h)) by (nonlinear_arith);
}

/// The hint of a filter chip ends in its count, in the singular for one photo.
pub proof fn chips_say_their_count(hint: Seq<char>, n: usize)
    ensures
        chip_words(hint, None) == hint,
        chip_words(hint, Some(1)) == hint + " · "@ + grouped_text(1) + " photo"@,
        n != 1 ==> chip_words(hint, Some(n)) == hint + " · "@ + grouped_text(n as nat) + " photos"@,
{
}

/// Both renditions of a photo have a name of their own.
pub proof fn renditions_have_names()
    ensures
        prefix_of(SizeClass::Thumb) == "thumb"@,
        prefix_of(SizeClass::Screen) == "screen"@,
        prefix_of(SizeClass::Thumb) != prefix_of(SizeClass::Screen),
{
    reveal_strlit("thumb");
    reveal_strlit("screen");
}

/// Lists of texts are read text by text, and a text that may be missing as
/// itself.
pub proof fn texts_are_read_as_they_are(list: Seq<String>, failures: Seq<ExportFailure>, text: String, i: int)
    ensures
        contents(list).len() == list.len(),
        0 <= i < list.len() ==> contents(list)[i] == list[i]@,
        failure_texts(failures).len() == failures.len(),
        0 <= i < failures.len() ==> failure_texts(failures)[i].0 == failures[i].source@ && failure_texts(failures)[i].1
            == failures[i].reason@,
        text_in(Some(text)) == Some(text@),
        text_in(None) is None,
        path_in(Some(text)) == Some(components(text@)),
        path_in(None) is None,
{
}

/// A search finds the first of equal texts, and nothing only if there is none.
pub proof fn searches_find_the_first(list: Seq<Seq<char>>, wanted: Seq<char>, found: Option<usize>, i: int)
    requires
        first_position(list, wanted, found),
        0 <= i < list.len(),
        list[i] == wanted,
    ensures
        found is Some,
        found->0 <= i,
        list[found->0 as int] == wanted,
{
}

/// A photo is looked up by the number of its row.
pub proof fn photos_are_looked_up_by_number(rows: Seq<PhotoRow>, id: i64, i: int)
    requires
        first_with_id(rows, id, i),
    ensures
        0 <= i < rows.len(),
        rows[i].id == id,
{
}

} // verus!
