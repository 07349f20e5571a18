//! Headers, previews, and what the index learns from them.

use cullr::cache::{Cache, CacheError};
use cullr::extract::{
    acquire_preview, aperture_of, camera_of, encoding_result, extract_file, iso_of, is_jpeg_extension,
    is_supported_extension, lens_of, mtime_unix_nanos, orientation_of, payload_message, shutter_of, taken_at_of,
    ExtractError, RawFacts, RawRead, StageOutcome,
};
use cullr::model::PhotoMeta;
use image::{DynamicImage, Rgb, RgbImage};

fn facts() -> RawFacts {
    RawFacts {
        make: String::new(),
        model: String::new(),
        orientation: None,
        lens_model: None,
        lens_name: None,
        date_time_original: None,
        create_date: None,
        exposure_time: None,
        apex_shutter: None,
        fnumber: None,
        apex_aperture: None,
        iso_speed_ratings: None,
        iso_speed: None,
        recommended_exposure_index: None,
        focal_mm: None,
    }
}

fn photo(name: &str) -> PhotoMeta {
    PhotoMeta {
        root: "/photos".to_owned(),
        rel_path: name.to_owned(),
        mtime: 1_700_000_000_000_000_000,
        size: 29,
        jpeg_rel_path: None,
    }
}

fn cache() -> Cache {
    Cache::new("/cache".to_owned())
}

fn picture(width: u32, height: u32) -> DynamicImage {
    DynamicImage::ImageRgb8(RgbImage::from_pixel(width, height, Rgb([180, 90, 20])))
}

#[test]
fn extract_should_reject_garbage_claiming_to_be_a_raw_file() {
    let result = extract_file(&photo("fake.CR3"), &cache(), RawRead::NoDecoder);

    assert!(matches!(
        &result,
        Err(ExtractError::Unsupported(_)) | Err(ExtractError::Decode { .. }) | Err(ExtractError::Panicked { .. })
    ));
    let error = result.err().expect("garbage");
    assert_eq!(error.message(), "unsupported or corrupt RAW file `/photos/fake.CR3`");
}

#[test]
fn extract_should_report_unreadable_files_without_panicking() {
    let result = extract_file(&photo("missing.nef"), &cache(), RawRead::NotOpened("no such file".to_owned()));

    assert!(matches!(&result, Err(ExtractError::Open { .. })));
    assert_eq!(result.err().expect("missing").message(), "cannot open RAW file `/photos/missing.nef`");
}

#[test]
fn extract_should_not_write_cache_entries_on_failure() {
    // The files to write come with the result alone.
    let reads = [
        RawRead::NoDecoder,
        RawRead::NotOpened("denied".to_owned()),
        RawRead::NoMetadata("bad header".to_owned()),
        RawRead::BrokeDown(Some("boom".to_owned())),
        RawRead::Read { facts: facts(), outcomes: vec![] },
    ];
    for read in reads {
        assert!(extract_file(&photo("broken.arw"), &cache(), read).is_err());
    }
}

#[test]
fn other_failures_have_their_own_errors() {
    let broken = extract_file(&photo("a.arw"), &cache(), RawRead::BrokeDown(None));
    assert!(matches!(&broken, Err(ExtractError::Panicked { message, .. }) if message == "non-string panic payload"));
    assert_eq!(payload_message(Some("boom".to_owned())), "boom");
    let headless = extract_file(&photo("a.arw"), &cache(), RawRead::NoMetadata("bad header".to_owned()));
    assert_eq!(headless.err().expect("header").message(), "failed to extract `/photos/a.arw`: bad header");
    let read = RawRead::Read {
        facts: facts(),
        outcomes: vec![StageOutcome::Nothing, StageOutcome::Failed("x".to_owned()), StageOutcome::Panicked("y".to_owned())],
    };
    let bare = extract_file(&photo("a.arw"), &cache(), read);
    assert_eq!(
        bare.err().expect("no preview").message(),
        "failed to extract `/photos/a.arw`: no embedded preview found in any fallback stage"
    );
    let inner = ExtractError::Cache(CacheError::NoCacheDir);
    assert_eq!(inner.message(), CacheError::NoCacheDir.message());
    assert_eq!(
        encoding_result(Err("too large".to_owned()), &"/photos/a.arw".to_owned()).err().expect("error").message(),
        "failed to extract `/photos/a.arw`: jpeg re-encode failed: too large"
    );
}

#[test]
fn extraction_makes_a_preview_a_thumbnail_and_a_record() {
    let mut header = facts();
    header.make = "Canon".to_owned();
    header.orientation = Some(6);
    header.exposure_time = Some((1, 250));
    header.focal_mm = Some(350);
    let read = RawRead::Read {
        facts: header,
        outcomes: vec![
            StageOutcome::Failed("no preview".to_owned()),
            StageOutcome::Image(picture(1024, 600)),
            StageOutcome::Image(picture(8, 8)),
        ],
    };

    let extraction = match extract_file(&photo("a.nef"), &cache(), read) {
        Ok(extraction) => extraction,
        Err(error) => panic!("{}", error.message()),
    };

    assert_eq!((extraction.info.width, extraction.info.height), (1024, 600));
    assert_eq!(extraction.info.orientation, 6);
    assert_eq!(extraction.info.camera.as_deref(), Some("Canon"));
    assert_eq!(extraction.info.shutter.as_deref(), Some("1/250 s"));
    assert_eq!(extraction.info.focal_mm, Some(350));
    let key = Cache::asset_hash("/photos", "a.nef", 1_700_000_000_000_000_000, 29);
    assert_eq!(extraction.info.preview_path, format!("/cache/previews/{key}.jpg"));
    assert_eq!(extraction.info.thumb_path, format!("/cache/thumbs/{key}.jpg"));
    let preview = image::load_from_memory(&extraction.preview).expect("a JPEG");
    assert_eq!((preview.width(), preview.height()), (1024, 600));
    let thumb = image::load_from_memory(&extraction.thumb).expect("a JPEG");
    assert_eq!((thumb.width(), thumb.height()), (512, 300), "the long edge shrinks to the thumbnail's");
    let pixel = thumb.to_rgb8().get_pixel(100, 100).0;
    assert!(pixel[0].abs_diff(180) < 6 && pixel[1].abs_diff(90) < 6 && pixel[2].abs_diff(20) < 6, "{pixel:?}");
}

#[test]
fn pictures_that_cannot_be_encoded_fail_to_decode() {
    let read = RawRead::Read { facts: facts(), outcomes: vec![StageOutcome::Image(picture(70_000, 1))] };
    let result = extract_file(&photo("wide.nef"), &cache(), read);
    assert!(matches!(
        result,
        Err(ExtractError::Decode { message, .. }) if message.starts_with("jpeg re-encode failed: ")
    ));
}

#[test]
fn the_first_picture_wins() {
    let path = "/photos/a.nef".to_owned();
    let image = acquire_preview(vec![StageOutcome::Nothing, StageOutcome::Image(picture(3, 2))], &path);
    assert_eq!(image.map(|image| (image.width(), image.height())).ok(), Some((3, 2)));
}

#[test]
fn supported_extension_intersection_should_keep_common_camera_formats() {
    assert!(is_supported_extension(b"cr3"));
    assert!(is_supported_extension(b"nef"));
    assert!(is_supported_extension(b"arw"));
}

#[test]
fn supported_extension_intersection_should_match_case_insensitively() {
    assert!(is_supported_extension(b"CR3"));
    assert!(is_supported_extension(b"Nef"));
}

#[test]
fn supported_extension_intersection_should_drop_formats_rawler_cannot_decode() {
    // In the hardcoded list but absent from rawler's supported set.
    assert!(!is_supported_extension(b"gpr"));
}

#[test]
fn supported_extension_intersection_should_reject_non_raw_extensions() {
    assert!(!is_supported_extension(b"jpg"));
    assert!(!is_supported_extension(b"txt"));
    assert!(!is_supported_extension(b""));
}

#[test]
fn supported_extensions_are_those_of_both_lists() {
    let known = rawler::decoders::supported_extensions();
    for extension in cullr::extract::EXTENSIONS {
        let decodable = known.iter().any(|other| other.eq_ignore_ascii_case(extension));
        assert_eq!(is_supported_extension(extension.as_bytes()), decodable, "{extension}");
    }
    assert!(is_jpeg_extension(b"JPEG"));
    assert!(!is_jpeg_extension(b"png"));
}

#[test]
fn helpers_should_default_orientation_to_one_when_absent_or_invalid() {
    assert_eq!(orientation_of(&facts()), 1);
    assert_eq!(orientation_of(&RawFacts { orientation: Some(9), ..facts() }), 1);
    assert_eq!(orientation_of(&RawFacts { orientation: Some(6), ..facts() }), 6);
}

#[test]
fn camera_should_join_make_and_model_trimmed() {
    let header = RawFacts { make: " Canon ".to_owned(), model: "EOS R5 ".to_owned(), ..facts() };
    assert_eq!(camera_of(&header).as_deref(), Some("Canon EOS R5"));
}

#[test]
fn camera_should_be_none_without_any_identification() {
    assert_eq!(camera_of(&facts()), None);
}

#[test]
fn iso_should_prefer_classic_ratings_over_extended_fields() {
    let header = RawFacts { iso_speed_ratings: Some(400), iso_speed: Some(3200), ..facts() };
    assert_eq!(iso_of(&header), Some(400));
    let no_ratings = RawFacts { iso_speed: Some(3200), ..facts() };
    assert_eq!(iso_of(&no_ratings), Some(3200));
    let zero = RawFacts { iso_speed: Some(0), ..facts() };
    assert_eq!(iso_of(&zero), None);
}

#[test]
fn aperture_should_round_to_tenths() {
    let from_fnumber = RawFacts { fnumber: Some((28, 10)), ..facts() };
    assert_eq!(aperture_of(&from_fnumber), Some(28));
    let from_apex = RawFacts { apex_aperture: Some(20), ..facts() };
    assert_eq!(aperture_of(&from_apex), Some(20));
}

#[test]
fn lens_time_and_shutter_fall_back() {
    let header = RawFacts { lens_model: Some("  ".to_owned()), lens_name: Some("RF 35mm".to_owned()), ..facts() };
    assert_eq!(lens_of(&header).as_deref(), Some("RF 35mm"));
    let header = RawFacts { create_date: Some("2024:05:01 12:33:44".to_owned()), ..facts() };
    assert_eq!(taken_at_of(&header).as_deref(), Some("2024-05-01 12:33:44"));
    let header = RawFacts { apex_shutter: Some("1/60 s".to_owned()), ..facts() };
    assert_eq!(shutter_of(&header).as_deref(), Some("1/60 s"));
}

#[test]
fn mtime_before_epoch_should_hash_as_zero_instead_of_failing() {
    assert_eq!(mtime_unix_nanos(-5_000_000_000), 0);
    assert_eq!(mtime_unix_nanos(5), 5);
}

#[test]
fn buffers_longer_than_the_picture_are_cut() {
    let rows: Vec<u8> = (0..600 * 400 * 3).map(|i: usize| (i % 251) as u8).collect();
    let exact = RgbImage::from_raw(600, 400, rows.clone()).expect("exact buffer");
    let mut padded = rows;
    padded.extend([7u8; 1000]);
    let longer = RgbImage::from_raw(600, 400, padded).expect("longer buffer");
    let extracted = |picture: RgbImage| {
        let read = RawRead::Read {
            facts: facts(),
            outcomes: vec![StageOutcome::Image(DynamicImage::ImageRgb8(picture))],
        };
        extract_file(&photo("a.arw"), &cache(), read).expect("extraction")
    };

    let (plain, cut) = (extracted(exact), extracted(longer));

    assert_eq!(cut.preview, plain.preview);
    assert_eq!(cut.thumb, plain.thumb);
    assert_eq!((cut.info.width, cut.info.height), (600, 400));
}
