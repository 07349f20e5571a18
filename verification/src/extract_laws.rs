//! What a record holds of the header of its file, field by field.

use image::DynamicImage;
use vstd::prelude::*;
use vstd::utf8::encode_utf8;

use crate::cache::{hex_text, identity, md5_digest, Cache};
use crate::exif::{
    capture_time, is_space, reciprocal, reciprocals_are_nearest, shutter_words, tenths_of, trimmed,
};
use crate::extract::{
    extraction_fits, first_image, info_fits, is_jpeg, is_raw, jpeg_file, key_of, lowered, rgb_rows,
    scaled_down, spells, Extraction, ExtractError, RawFacts, StageOutcome,
};
use crate::loupe::tenths_text;
use crate::model::{IngestInfo, PhotoMeta};
use crate::orient::{image_pixels, image_size};
use crate::path::joined;
use crate::text::decimal;

verus! {

/// A record has the capture time of its file: the original date if the header
/// has one, whatever the date of digitising is, and that one only otherwise.
pub proof fn records_date_the_original(info: IngestInfo, facts: RawFacts, size: (u32, u32), cache: Cache, key: Seq<char>)
    requires
        info_fits(info, facts, size, cache, key),
    ensures
        facts.date_time_original matches Some(stamp) ==> info.taken_at is Some && info.taken_at->0@ == capture_time(
            stamp@,
        ),
        facts.date_time_original is None && facts.create_date is Some ==> info.taken_at is Some && info.taken_at->0@
            == capture_time(facts.create_date->0@),
        facts.date_time_original is None && facts.create_date is None ==> info.taken_at is None,
{
}

/// A record has the size of the preview, the focal length of the header and
/// the flag of the header if that is one of the eight; its files are named by
/// the key in the two folders of the cache.
pub proof fn records_have_size_flag_and_files(
    info: IngestInfo,
    facts: RawFacts,
    size: (u32, u32),
    cache: Cache,
    key: Seq<char>,
)
    requires
        info_fits(info, facts, size, cache, key),
    ensures
        info.width == size.0,
        info.height == size.1,
        info.focal_mm == facts.focal_mm,
        facts.orientation matches Some(flag) ==> 1 <= flag <= 8 ==> info.orientation == flag,
        facts.orientation matches Some(flag) ==> (flag < 1 || flag > 8) ==> info.orientation == 1,
        facts.orientation is None ==> info.orientation == 1,
        info.preview_path@ == joined(joined(cache.root@, "previews"@), key + ".jpg"@),
        info.thumb_path@ == joined(joined(cache.root@, "thumbs"@), key + ".jpg"@),
{
}

/// A record names camera and lens as far as the header says something of them:
/// make and model with a space between, and the lens of the header before the
/// one that the decoder knows.
pub proof fn records_name_camera_and_lens(
    info: IngestInfo,
    facts: RawFacts,
    size: (u32, u32),
    cache: Cache,
    key: Seq<char>,
)
    requires
        info_fits(info, facts, size, cache, key),
    ensures
        ({
            let make = trimmed(facts.make@);
            let model = trimmed(facts.model@);
            &&& make.len() > 0 && model.len() > 0 ==> info.camera is Some && info.camera->0@ == make + seq![' '] + model
            &&& make.len() > 0 && model.len() == 0 ==> info.camera is Some && info.camera->0@ == make
            &&& make.len() == 0 && model.len() > 0 ==> info.camera is Some && info.camera->0@ == model
            &&& make.len() == 0 && model.len() == 0 ==> info.camera is None
        }),
        ({
            let first = facts.lens_model is Some && trimmed(facts.lens_model->0@).len() > 0;
            let second = facts.lens_name is Some && trimmed(facts.lens_name->0@).len() > 0;
            &&& first ==> info.lens is Some && info.lens->0@ == trimmed(facts.lens_model->0@)
            &&& !first && second ==> info.lens is Some && info.lens->0@ == trimmed(facts.lens_name->0@)
            &&& !first && !second ==> info.lens is None
        }),
{
    assert(trimmed(facts.make@).push(' ') =~= trimmed(facts.make@) + seq![' ']);
}

/// A record has the exposure of the header: a fraction of a second before the
/// APEX value, a positive F-number before its APEX value, and the first of
/// three ISO fields that is there, if it is positive.
pub proof fn records_have_the_exposure(
    info: IngestInfo,
    facts: RawFacts,
    size: (u32, u32),
    cache: Cache,
    key: Seq<char>,
)
    requires
        info_fits(info, facts, size, cache, key),
    ensures
        facts.exposure_time matches Some((n, d)) ==> (n == 0 || d == 0) ==> info.shutter is None,
        facts.exposure_time matches Some((n, d)) ==> n > 0 && d > 0 ==> info.shutter is Some && info.shutter->0@
            == shutter_words(n as nat, d as nat),
        facts.exposure_time is None && facts.apex_shutter is None ==> info.shutter is None,
        facts.exposure_time is None && facts.apex_shutter is Some ==> info.shutter is Some && info.shutter->0@
            == facts.apex_shutter->0@,
        facts.fnumber matches Some((n, d)) ==> n > 0 && d > 0 ==> info.aperture is Some && 20 * n - d < 2 * (
        info.aperture->0 * d) <= 20 * n + d,
        facts.fnumber matches Some((n, d)) ==> (n == 0 || d == 0) ==> info.aperture == facts.apex_aperture,
        facts.fnumber is None ==> info.aperture == facts.apex_aperture,
        facts.iso_speed_ratings matches Some(iso) ==> iso > 0 ==> info.iso == Some(iso as u32),
        facts.iso_speed_ratings matches Some(iso) ==> iso == 0 ==> info.iso is None,
        facts.iso_speed_ratings is None ==> (facts.iso_speed matches Some(iso) ==> iso > 0 ==> info.iso == Some(iso)),
        facts.iso_speed_ratings is None ==> (facts.iso_speed matches Some(iso) ==> iso == 0 ==> info.iso is None),
        facts.iso_speed_ratings is None && facts.iso_speed is None ==> (
        facts.recommended_exposure_index matches Some(iso) ==> iso > 0 ==> info.iso == Some(iso)),
        facts.iso_speed_ratings is None && facts.iso_speed is None ==> (
        facts.recommended_exposure_index matches Some(iso) ==> iso == 0 ==> info.iso is None),
        facts.iso_speed_ratings is None && facts.iso_speed is None && facts.recommended_exposure_index is None
            ==> info.iso is None,
{
    if let Some((n, d)) = facts.fnumber {
        if n > 0 && d > 0 {
            tenths_are_nearest(n as nat, d as nat);
            lemma_tenths_fit(n as nat, d as nat);
        }
    }
}

proof fn lemma_tenths_fit(n: nat, d: nat)
    requires
        n <= u32::MAX,
        1 <= d <= u32::MAX,
    ensures
        tenths_of(n, d) <= u64::MAX,
{
    let t = tenths_of(n, d);
    vstd::arithmetic::div_mod::lemma_div_is_ordered_by_denominator((20 * n + d) as int, 1, (2 * d) as int);
    assert((20 * n + d) as int / 1 == 20 * n + d);
}

/// Tenths are rounded to the nearest, halves up.
pub proof fn tenths_are_nearest(n: nat, d: nat)
    requires
        d > 0,
    ensures
        20 * n - d < 2 * (tenths_of(n, d) * d) <= 20 * n + d,
{
    let t = tenths_of(n, d) as int;
    let all = (20 * n + d) as int;
    vstd::arithmetic::div_mod::lemma_fundamental_div_mod(all, (2 * d) as int);
    vstd::arithmetic::div_mod::lemma_mod_bound(all, (2 * d) as int);
    assert((2 * d) * t == 2 * (t * d)) by (nonlinear_arith);
}

/// A second and more is written in seconds, to the nearest tenth; less as one
/// by the nearest whole number.
pub proof fn shutters_read_as_seconds_or_fractions(n: nat, d: nat)
    requires
        n > 0,
        0 < d <= u32::MAX,
    ensures
        n >= d ==> exists|tenths: nat|
            #[trigger] tenths_text(tenths) + " s"@ == shutter_words(n, d) && 20 * n - d < 2 * (tenths * d) <= 20 * n + d,
        n < d ==> exists|k: nat|
            "1/"@ + #[trigger] decimal(k) + " s"@ == shutter_words(n, d) && k >= 1 && 2 * d - n <= 2 * (k * n) <= 2 * d
                + n,
{
    if n >= d {
        tenths_are_nearest(n, d);
        assert(tenths_text(tenths_of(n, d)) + " s"@ == shutter_words(n, d));
    } else {
        reciprocals_are_nearest(n, d);
        let k = reciprocal(n, d);
        assert(k >= 1) by {
            if k == 0 {
                assert(k * n == 0) by (nonlinear_arith)
                    requires
                        k == 0,
                ;
            }
        }
        assert("1/"@ + decimal(k) + " s"@ == shutter_words(n, d));
    }
}

/// White space is what Unicode says it is.
pub proof fn white_space_is_unicodes(c: char)
    ensures
        is_space(c) <==> {
            let v = c as u32;
            v == 9 || v == 10 || v == 11 || v == 12 || v == 13 || v == 32 || v == 133 || v == 160 || v == 5760 || 8192
                <= v <= 8202 || v == 8232 || v == 8233 || v == 8239 || v == 8287 || v == 12288
        },
{
}

/// Of the stages the first one that gave a picture is taken, and none only if
/// none gave one.
pub proof fn the_first_picture_is_taken(outcomes: Seq<StageOutcome>, from: int)
    requires
        0 <= from,
    ensures
        match first_image(outcomes, from) {
            Some(i) => {
                &&& from <= i < outcomes.len()
                &&& outcomes[i] is Image
                &&& forall|k: int| from <= k < i ==> !((#[trigger] outcomes[k]) is Image)
            },
            None => forall|k: int| from <= k < outcomes.len() ==> !((#[trigger] outcomes[k]) is Image),
        },
    decreases outcomes.len() - from,
{
    if from < outcomes.len() && !(outcomes[from] is Image) {
        the_first_picture_is_taken(outcomes, from + 1);
    }
}

/// A preview of one to 65535 pixels on each side is cached as a JPEG of quality
/// 88, and its thumbnail within 512 pixels as one of quality 85; any other is
/// refused. The record is that of the header, the size and the key.
pub proof fn previews_and_thumbnails_are_cached(
    photo: PhotoMeta,
    cache: Cache,
    facts: RawFacts,
    image: DynamicImage,
    path: Seq<char>,
    result: Result<Extraction, ExtractError>,
)
    requires
        extraction_fits(photo, cache, facts, image, path, result),
    ensures
        ({
            let size = image_size(image);
            let pixels = image_pixels(image);
            let small = scaled_down(size, pixels, 512, 512);
            &&& result is Ok <==> 1 <= size.0 <= 65535 && 1 <= size.1 <= 65535
            &&& (result matches Ok(extraction) ==> {
                &&& jpeg_file(rgb_rows(size, pixels), size.0, size.1, 88) == Ok::<Seq<u8>, Seq<char>>(
                    extraction.preview@,
                )
                &&& jpeg_file(rgb_rows(small.0, small.1), small.0.0, small.0.1, 85) == Ok::<Seq<u8>, Seq<char>>(
                    extraction.thumb@,
                )
                &&& info_fits(extraction.info, facts, size, cache, key_of(photo))
            })
            &&& (result matches Err(error) ==> {
                &&& error matches ExtractError::Decode { path: told, message } && told@ == path
                &&& ({
                    ||| jpeg_file(rgb_rows(size, pixels), size.0, size.1, 88) matches Err(reason)
                        && error->Decode_message@ == "jpeg re-encode failed: "@ + reason
                    ||| jpeg_file(rgb_rows(small.0, small.1), small.0.0, small.0.1, 85) matches Err(reason)
                        && error->Decode_message@ == "jpeg re-encode failed: "@ + reason
                })
            })
        }),
{
}

/// The key of a photo is the digest of its folder, path, time and size in
/// hexadecimal digits; times before the epoch count as the epoch.
pub proof fn keys_stand_for_the_file(photo: PhotoMeta)
    ensures
        photo.mtime >= 0 ==> key_of(photo) == hex_text(
            md5_digest(identity(encode_utf8(photo.root@), encode_utf8(photo.rel_path@), photo.mtime as u128, photo.size)),
        ),
        photo.mtime < 0 ==> key_of(photo) == hex_text(
            md5_digest(identity(encode_utf8(photo.root@), encode_utf8(photo.rel_path@), 0, photo.size)),
        ),
{
}

/// Capitals do not matter to an extension.
pub proof fn extensions_ignore_case(a: Seq<u8>, b: Seq<u8>)
    requires
        a.len() == b.len(),
        forall|i: int|
            0 <= i < a.len() ==> (#[trigger] a[i]) == b[i] || (65 <= a[i] <= 90 && b[i] == a[i] + 32) || (65 <= b[i] <= 90
                && a[i] == b[i] + 32),
    ensures
        is_raw(a) == is_raw(b),
        is_jpeg(a) == is_jpeg(b),
{
    assert forall|i: int| 0 <= i < a.len() implies lowered(#[trigger] a[i] as u32) == lowered(b[i] as u32) by {}
    lemma_same_spelling(a, b, crate::extract::known_raw());
    lemma_same_spelling(a, b, crate::extract::decodable());
    lemma_same_spelling(a, b, crate::extract::known_jpeg());
}

proof fn lemma_same_spelling(a: Seq<u8>, b: Seq<u8>, texts: Seq<Seq<char>>)
    requires
        a.len() == b.len(),
        forall|i: int| 0 <= i < a.len() ==> lowered(#[trigger] a[i] as u32) == lowered(b[i] as u32),
    ensures
        crate::extract::spells_one(a, texts) == crate::extract::spells_one(b, texts),
{
    assert forall|t: Seq<char>| #[trigger] spells(a, t) == spells(b, t) by {
        if spells(a, t) {
            assert forall|i: int| 0 <= i < b.len() implies lowered(#[trigger] b[i] as u32) == lowered(t[i] as u32) by {
                assert(lowered(a[i] as u32) == lowered(t[i] as u32));
            }
        }
        if spells(b, t) {
            assert forall|i: int| 0 <= i < a.len() implies lowered(#[trigger] a[i] as u32) == lowered(t[i] as u32) by {
                assert(lowered(b[i] as u32) == lowered(t[i] as u32));
            }
        }
    }
    if crate::extract::spells_one(a, texts) {
        let i = choose|i: int| 0 <= i < texts.len() && spells(a, #[trigger] texts[i]);
        assert(spells(b, texts[i]));
    }
    if crate::extract::spells_one(b, texts) {
        let i = choose|i: int| 0 <= i < texts.len() && spells(b, #[trigger] texts[i]);
        assert(spells(a, texts[i]));
    }
}

/// A RAW file is taken only if its extension is one that is worth culling and
/// one that the decoder lists.
pub proof fn raw_files_can_be_decoded(extension: Seq<u8>)
    requires
        is_raw(extension),
    ensures
        exists|i: int| 0 <= i < 27 && spells(extension, (#[trigger] crate::extract::EXTENSIONS@[i])@),
        exists|j: int|
            0 <= j < crate::extract::decodable().len() && spells(extension, #[trigger] crate::extract::decodable()[j]),
{
    let known = crate::extract::known_raw();
    let i = choose|i: int| 0 <= i < known.len() && spells(extension, #[trigger] known[i]);
    assert(known[i] == crate::extract::EXTENSIONS@[i]@);
    let decoded = crate::extract::decodable();
    let j = choose|j: int| 0 <= j < decoded.len() && spells(extension, #[trigger] decoded[j]);
    assert(spells(extension, decoded[j]));
}

/// Companions are the files that end in `jpg` or `jpeg`, and no others.
pub proof fn companions_end_in_jpg_or_jpeg(extension: Seq<u8>)
    ensures
        is_jpeg(extension) <==> {
            ||| extension.len() == 3 && (extension[0] == 106 || extension[0] == 74) && (extension[1] == 112
                || extension[1] == 80) && (extension[2] == 103 || extension[2] == 71)
            ||| extension.len() == 4 && (extension[0] == 106 || extension[0] == 74) && (extension[1] == 112
                || extension[1] == 80) && (extension[2] == 101 || extension[2] == 69) && (extension[3] == 103
                || extension[3] == 71)
        },
{
    reveal_strlit("jpg");
    reveal_strlit("jpeg");
    let texts = crate::extract::known_jpeg();
    assert(texts[0] == "jpg"@);
    assert(texts[1] == "jpeg"@);
    assert(is_jpeg(extension) <==> spells(extension, texts[0]) || spells(extension, texts[1])) by {
        if is_jpeg(extension) {
            let i = choose|i: int| 0 <= i < texts.len() && spells(extension, #[trigger] texts[i]);
            assert(i == 0 || i == 1);
        }
    }
    if extension.len() == 3 {
        assert(spells(extension, texts[0]) <==> lowered(extension[0] as u32) == 106 && lowered(extension[1] as u32)
            == 112 && lowered(extension[2] as u32) == 103);
    }
    if extension.len() == 4 {
        assert(spells(extension, texts[1]) <==> lowered(extension[0] as u32) == 106 && lowered(extension[1] as u32)
            == 112 && lowered(extension[2] as u32) == 101 && lowered(extension[3] as u32) == 103);
    }
}

/// RAW files are taken by these extensions, whatever their case.
#[verifier::rlimit(60)]
pub proof fn raw_files_are_known_by_extension(extension: Seq<u8>, text: Seq<char>)
    requires
        seq![
            "3fr"@,
            "ari"@,
            "arw"@,
            "cr2"@,
            "cr3"@,
            "crw"@,
            "dcr"@,
            "dng"@,
            "erf"@,
            "fff"@,
            "iiq"@,
            "kdc"@,
            "mef"@,
            "mrw"@,
            "nef"@,
            "nrw"@,
            "orf"@,
            "pef"@,
            "raf"@,
            "raw"@,
            "rw2"@,
            "rwl"@,
            "srw"@,
            "x3f"@,
        ].contains(text),
        extension.len() == text.len(),
        forall|i: int|
            0 <= i < text.len() ==> (#[trigger] extension[i]) == text[i] as int || (97 <= extension[i] + 32 <= 122
                && extension[i] + 32 == text[i] as int),
    ensures
        is_raw(extension),
{
    let known = crate::extract::known_raw();
    let decoded = crate::extract::decodable();
    if text == "3fr"@ {
        assert(is_raw(extension)) by {
            reveal_strlit("3fr");
            reveal_strlit("3FR");
            assert(known[0] == "3fr"@);
            assert(decoded[25] == "3FR"@);
            lemma_spelled(extension, "3fr"@, "3FR"@);
        }
    }
    if text == "ari"@ {
        assert(is_raw(extension)) by {
            reveal_strlit("ari");
            reveal_strlit("ARI");
            assert(known[1] == "ari"@);
            assert(decoded[0] == "ARI"@);
            lemma_spelled(extension, "ari"@, "ARI"@);
        }
    }
    if text == "arw"@ {
        assert(is_raw(extension)) by {
            reveal_strlit("arw");
            reveal_strlit("ARW");
            assert(known[2] == "arw"@);
            assert(decoded[1] == "ARW"@);
            lemma_spelled(extension, "arw"@, "ARW"@);
        }
    }
    if text == "cr2"@ {
        assert(is_raw(extension)) by {
            reveal_strlit("cr2");
            reveal_strlit("CR2");
            assert(known[4] == "cr2"@);
            assert(decoded[2] == "CR2"@);
            lemma_spelled(extension, "cr2"@, "CR2"@);
        }
    }
    if text == "cr3"@ {
        assert(is_raw(extension)) by {
            reveal_strlit("cr3");
            reveal_strlit("CR3");
            assert(known[5] == "cr3"@);
            assert(decoded[3] == "CR3"@);
            lemma_spelled(extension, "cr3"@, "CR3"@);
        }
    }
    if text == "crw"@ {
        assert(is_raw(extension)) by {
            reveal_strlit("crw");
            reveal_strlit("CRW");
            assert(known[6] == "crw"@);
            assert(decoded[5] == "CRW"@);
            lemma_spelled(extension, "crw"@, "CRW"@);
        }
    }
    if text == "dcr"@ {
        assert(is_raw(extension)) by {
            reveal_strlit("dcr");
            reveal_strlit("DCR");
            assert(known[7] == "dcr"@);
            assert(decoded[6] == "DCR"@);
            lemma_spelled(extension, "dcr"@, "DCR"@);
        }
    }
    if text == "dng"@ {
        assert(is_raw(extension)) by {
            reveal_strlit("dng");
            reveal_strlit("DNG");
            assert(known[8] == "dng"@);
            assert(decoded[8] == "DNG"@);
            lemma_spelled(extension, "dng"@, "DNG"@);
        }
    }
    if text == "erf"@ {
        assert(is_raw(extension)) by {
            reveal_strlit("erf");
            reveal_strlit("ERF");
            assert(known[9] == "erf"@);
            assert(decoded[9] == "ERF"@);
            lemma_spelled(extension, "erf"@, "ERF"@);
        }
    }
    if text == "fff"@ {
        assert(is_raw(extension)) by {
            reveal_strlit("fff");
            reveal_strlit("FFF");
            assert(known[10] == "fff"@);
            assert(decoded[26] == "FFF"@);
            lemma_spelled(extension, "fff"@, "FFF"@);
        }
    }
    if text == "iiq"@ {
        assert(is_raw(extension)) by {
            reveal_strlit("iiq");
            reveal_strlit("IIQ");
            assert(known[12] == "iiq"@);
            assert(decoded[10] == "IIQ"@);
            lemma_spelled(extension, "iiq"@, "IIQ"@);
        }
    }
    if text == "kdc"@ {
        assert(is_raw(extension)) by {
            reveal_strlit("kdc");
            reveal_strlit("KDC");
            assert(known[13] == "kdc"@);
            assert(decoded[11] == "KDC"@);
            lemma_spelled(extension, "kdc"@, "KDC"@);
        }
    }
    if text == "mef"@ {
        assert(is_raw(extension)) by {
            reveal_strlit("mef");
            reveal_strlit("MEF");
            assert(known[14] == "mef"@);
            assert(decoded[12] == "MEF"@);
            lemma_spelled(extension, "mef"@, "MEF"@);
        }
    }
    if text == "mrw"@ {
        assert(is_raw(extension)) by {
            reveal_strlit("mrw");
            reveal_strlit("MRW");
            assert(known[15] == "mrw"@);
            assert(decoded[14] == "MRW"@);
            lemma_spelled(extension, "mrw"@, "MRW"@);
        }
    }
    if text == "nef"@ {
        assert(is_raw(extension)) by {
            reveal_strlit("nef");
            reveal_strlit("NEF");
            assert(known[16] == "nef"@);
            assert(decoded[15] == "NEF"@);
            lemma_spelled(extension, "nef"@, "NEF"@);
        }
    }
    if text == "nrw"@ {
        assert(is_raw(extension)) by {
            reveal_strlit("nrw");
            reveal_strlit("NRW");
            assert(known[17] == "nrw"@);
            assert(decoded[16] == "NRW"@);
            lemma_spelled(extension, "nrw"@, "NRW"@);
        }
    }
    if text == "orf"@ {
        assert(is_raw(extension)) by {
            reveal_strlit("orf");
            reveal_strlit("ORF");
            assert(known[18] == "orf"@);
            assert(decoded[17] == "ORF"@);
            lemma_spelled(extension, "orf"@, "ORF"@);
        }
    }
    if text == "pef"@ {
        assert(is_raw(extension)) by {
            reveal_strlit("pef");
            reveal_strlit("PEF");
            assert(known[19] == "pef"@);
            assert(decoded[19] == "PEF"@);
            lemma_spelled(extension, "pef"@, "PEF"@);
        }
    }
    if text == "raf"@ {
        assert(is_raw(extension)) by {
            reveal_strlit("raf");
            reveal_strlit("RAF");
            assert(known[20] == "raf"@);
            assert(decoded[20] == "RAF"@);
            lemma_spelled(extension, "raf"@, "RAF"@);
        }
    }
    if text == "raw"@ {
        assert(is_raw(extension)) by {
            reveal_strlit("raw");
            reveal_strlit("RAW");
            assert(known[21] == "raw"@);
            assert(decoded[21] == "RAW"@);
            lemma_spelled(extension, "raw"@, "RAW"@);
        }
    }
    if text == "rw2"@ {
        assert(is_raw(extension)) by {
            reveal_strlit("rw2");
            reveal_strlit("RW2");
            assert(known[22] == "rw2"@);
            assert(decoded[22] == "RW2"@);
            lemma_spelled(extension, "rw2"@, "RW2"@);
        }
    }
    if text == "rwl"@ {
        assert(is_raw(extension)) by {
            reveal_strlit("rwl");
            reveal_strlit("RWL");
            assert(known[23] == "rwl"@);
            assert(decoded[23] == "RWL"@);
            lemma_spelled(extension, "rwl"@, "RWL"@);
        }
    }
    if text == "srw"@ {
        assert(is_raw(extension)) by {
            reveal_strlit("srw");
            reveal_strlit("SRW");
            assert(known[25] == "srw"@);
            assert(decoded[24] == "SRW"@);
            lemma_spelled(extension, "srw"@, "SRW"@);
        }
    }
    if text == "x3f"@ {
        assert(is_raw(extension)) by {
            reveal_strlit("x3f");
            reveal_strlit("X3F");
            assert(known[26] == "x3f"@);
            assert(decoded[27] == "X3F"@);
            lemma_spelled(extension, "x3f"@, "X3F"@);
        }
    }
}

proof fn lemma_spelled(extension: Seq<u8>, small: Seq<char>, large: Seq<char>)
    requires
        small.len() == 3,
        large.len() == 3,
        extension.len() == 3,
        forall|i: int|
            0 <= i < 3 ==> (#[trigger] extension[i]) == small[i] as int || (97 <= extension[i] + 32 <= 122 && extension[i]
                + 32 == small[i] as int),
        forall|i: int|
            0 <= i < 3 ==> lowered((#[trigger] small[i]) as u32) == small[i] as u32 && lowered(large[i] as u32)
                == small[i] as u32 && 0 <= small[i] as int <= 127 && 0 <= large[i] as int <= 127,
    ensures
        spells(extension, small),
        spells(extension, large),
{
    assert forall|i: int| 0 <= i < 3 implies lowered(#[trigger] extension[i] as u32) == small[i] as u32 by {
        assert(lowered(small[i] as u32) == small[i] as u32);
        let c = small[i];
        assert(c as u32 == c as int);
    }
}

} // verus!
