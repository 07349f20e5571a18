//! Codes, texts and small tables.

use cullr::columns::system_time_to_i64;
use cullr::exif::{format_capture_time, format_shutter, rounded_tenths};
use cullr::loupe::{exif_line, neighbor_indices, position_text, preview_path};
use cullr::modals::{is_question_event, question_pressed, HelpKey, InputEvent, Modals, KEYBOARD_ROWS, MOUSE_ROWS};
use cullr::model::{Label, PhotoDetail, PhotoEntry, PhotoId, PhotoStatus};
use cullr::widgets::{
    bare_label_key, chip_hint, grouped, label_color, label_name, pressed_label_key, pressed_rotate_key, turned, ExportMode,
    LabelFilter, RotateDir, SortKey, SWATCH_STRIP_WIDTH,
};

// --- codes ---

#[test]
fn label_to_u8_should_match_database_mapping() {
    assert_eq!(Label::Unlabeled.to_u8(), 0);
}

#[test]
fn label_to_u8_should_map_purple_to_five() {
    assert_eq!(Label::Purple.to_u8(), 5);
}

#[test]
fn label_from_u8_should_round_trip_every_variant() {
    for expected in Label::ALL {
        assert_eq!(Label::from_u8(expected.to_u8()), Some(expected));
    }
}

#[test]
fn label_from_u8_should_reject_out_of_range_value() {
    assert_eq!(Label::from_u8(6), None);
}

#[test]
fn photo_status_round_trip_should_cover_every_variant() {
    for expected in PhotoStatus::ALL {
        assert_eq!(PhotoStatus::from_u8(expected.to_u8()), Some(expected));
    }
}

#[test]
fn photo_status_from_u8_should_reject_out_of_range_value() {
    assert_eq!(PhotoStatus::from_u8(4), None);
}

#[test]
fn mtime_conversion_should_survive_epoch_extremes() {
    assert_eq!(system_time_to_i64(0), 0);
}

#[test]
fn mtime_conversion_saturates_at_both_ends() {
    assert_eq!(system_time_to_i64(i128::MAX), i64::MAX);
    assert_eq!(system_time_to_i64(-5_000_000_000), -5_000_000_000);
    assert_eq!(system_time_to_i64(i128::MIN), -i64::MAX);
}

// --- exposure values ---

#[test]
fn shutter_should_render_sub_second_speeds_as_reciprocals() {
    assert_eq!(format_shutter(1, 250), Some("1/250 s".to_owned()));
}

#[test]
fn shutter_should_report_the_true_reciprocal_not_a_snapped_value() {
    assert_eq!(format_shutter(1, 253), Some("1/253 s".to_owned()));
}

#[test]
fn shutter_should_render_one_second_plainly() {
    assert_eq!(format_shutter(1, 1), Some("1 s".to_owned()));
}

#[test]
fn shutter_should_render_long_exposures_with_fraction() {
    assert_eq!(format_shutter(5, 2), Some("2.5 s".to_owned()));
    assert_eq!(format_shutter(30, 1), Some("30 s".to_owned()));
}

#[test]
fn shutter_should_reject_zero_and_degenerate_rationals() {
    assert_eq!(format_shutter(0, 250), None);
    assert_eq!(format_shutter(1, 0), None);
}

/// The text that double-precision arithmetic leads to.
fn shutter_in_doubles(n: u32, d: u32) -> String {
    let seconds = f64::from(n) / f64::from(d);
    if seconds >= 1.0 {
        let rounded = (seconds * 10.0).round() / 10.0;
        return format!("{rounded} s");
    }
    format!("1/{} s", (1.0 / seconds).round().max(1.0) as u64)
}

#[test]
fn shutter_agrees_with_double_precision_on_ties_and_elsewhere() {
    assert_eq!(format_shutter(2, 93).as_deref(), Some("1/46 s"));
    assert_eq!(format_shutter(2, 3).as_deref(), Some("1/2 s"));
    let mut state: u64 = 0x9e37_79b9_7f4a_7c15;
    for round in 0..40_000_u32 {
        state = state.wrapping_mul(6_364_136_223_846_793_005).wrapping_add(1_442_695_040_888_963_407);
        let a = (state >> 33) as u32 + 1;
        let b = (state >> 11) as u32 | 1;
        let (n, d) = match round % 3 {
            0 => (2, (a % 1_000_000) * 2 + 1),
            1 => (a % 5_000 + 1, b),
            _ => (a, b % 100_000 + 1),
        };
        assert_eq!(format_shutter(n, d), Some(shutter_in_doubles(n, d)), "{n}/{d}");
    }
}

#[test]
fn tenths_round_half_up() {
    assert_eq!(rounded_tenths(28, 10), 28);
    assert_eq!(rounded_tenths(105, 100), 11);
    assert_eq!(rounded_tenths(1, 3), 3);
    assert_eq!(rounded_tenths(u32::MAX, 1), 42_949_672_950);
}

#[test]
fn capture_time_should_swap_exif_colons_for_dashes() {
    assert_eq!(format_capture_time("2024:05:01 12:33:44"), "2024-05-01 12:33:44");
}

#[test]
fn capture_time_should_format_date_only_values() {
    assert_eq!(format_capture_time("2024:05:01"), "2024-05-01");
}

#[test]
fn capture_time_should_pass_through_unknown_shapes_trimmed() {
    assert_eq!(format_capture_time("  unknown stamp "), "unknown stamp");
    assert_eq!(format_capture_time(""), "");
}

#[test]
fn trimming_agrees_with_the_standard_library_on_every_white_space() {
    for code in 0..=0x3100_u32 {
        if let Some(c) = char::from_u32(code) {
            let text = format!("{c}x{c}");
            assert_eq!(format_capture_time(&text), text.trim(), "U+{code:04X}");
        }
    }
}

// --- filter and settings ---

#[test]
fn swatch_strip_width_should_cover_dots_gaps_and_padding() {
    assert_eq!(f64::from(SWATCH_STRIP_WIDTH), 6.0 * 15.0 + 7.0 * 7.0);
}

#[test]
fn export_mode_kv_should_round_trip_every_variant() {
    for mode in [ExportMode::All, ExportMode::RawOnly, ExportMode::JpegOnly] {
        assert_eq!(ExportMode::from_kv(mode.to_kv()), Some(mode));
    }
    assert_eq!(ExportMode::from_kv("nope"), None);
}

#[test]
fn empty_filter_should_match_every_label() {
    let filter = LabelFilter::all();
    for label in Label::ALL {
        assert!(filter.matches(label), "{label:?} must survive All");
        assert!(!filter.is_selected(label));
    }
}

#[test]
fn labeled_preset_should_hide_unmarked_photos_only() {
    let filter = LabelFilter::labeled();
    assert!(!filter.matches(Label::Unlabeled));
    for color in [Label::Red, Label::Yellow, Label::Green, Label::Blue, Label::Purple] {
        assert!(filter.matches(color), "{color:?} must survive Labeled");
    }
}

#[test]
fn unlabeled_preset_should_keep_only_unmarked_photos() {
    let filter = LabelFilter::unlabeled();
    assert!(filter.matches(Label::Unlabeled));
    assert!(!filter.matches(Label::Green));
}

#[test]
fn toggled_chips_should_select_labels_with_or_semantics() {
    let mut filter = LabelFilter::all();
    filter.toggle(Label::Red);
    filter.toggle(Label::Blue);
    assert!(!filter.is_all());
    assert!(filter.is_selected(Label::Red));
    assert!(filter.matches(Label::Blue));
    assert!(!filter.matches(Label::Yellow), "untoggled colors stay out");
    assert!(!filter.matches(Label::Unlabeled));
    filter.toggle(Label::Red);

    assert!(!filter.matches(Label::Red), "clicking an active chip deselects it");
    assert!(filter.matches(Label::Blue), "the other chip survives");
}

#[test]
fn cycle_preset_should_walk_all_labeled_unlabeled_and_back() {
    let mut filter = LabelFilter::all();
    filter.cycle_preset();
    assert_eq!(filter, LabelFilter::labeled());
    filter.cycle_preset();
    assert_eq!(filter, LabelFilter::unlabeled());
    filter.cycle_preset();
    assert!(filter.is_all(), "the cycle must close back on All");
}

#[test]
fn cycle_preset_should_land_on_a_named_preset_from_custom_mixes() {
    let mut filter = LabelFilter::all();
    filter.toggle(Label::Purple);

    filter.cycle_preset();

    assert_eq!(filter, LabelFilter::labeled(), "custom mixes act as All");
}

#[test]
fn clear_should_return_to_the_unfiltered_preset() {
    let mut filter = LabelFilter::unlabeled();

    filter.clear();

    assert!(filter.is_all());
    assert!(filter.matches(Label::Red));
}

#[test]
fn grouped_should_insert_narrow_spaces_every_three_digits() {
    assert_eq!(grouped(7), "7");
    assert_eq!(grouped(142), "142");
    assert_eq!(grouped(3210), "3\u{202f}210");
    assert_eq!(grouped(1_234_567), "1\u{202f}234\u{202f}567");
}

#[test]
fn sort_key_should_cycle_between_filename_and_capture_time() {
    assert_eq!(SortKey::default(), SortKey::FileName);
    assert_eq!(SortKey::FileName.cycle(), SortKey::TakenAt);

    assert_eq!(SortKey::TakenAt.cycle(), SortKey::FileName, "the cycle closes");
}

#[test]
fn sort_key_should_name_both_orders_for_the_pill() {
    assert!(!SortKey::FileName.label().is_empty());
    assert!(!SortKey::TakenAt.label().is_empty());
}

#[test]
fn turned_should_wrap_quarter_turns_into_canonical_range() {
    assert_eq!(turned(0, RotateDir::Clockwise.delta()), 1);
    assert_eq!(turned(3, RotateDir::Clockwise.delta()), 0, "CW wraps");
    assert_eq!(turned(0, RotateDir::CounterClockwise.delta()), 3, "CCW wraps");
    // Repeated presses keep cycling without ever leaving 0..4.
    let mut turns = 2;
    for delta in [1, 1, -1, -1] {
        turns = turned(turns, delta);
    }
    assert_eq!(turns, 2, "two CW then two CCW returns to start");
}

#[test]
fn turned_takes_any_step_and_any_start() {
    assert_eq!(turned(7, 1), 0);
    assert_eq!(turned(255, -128), 3);
    assert_eq!(turned(1, 127), 0);
}

#[test]
fn digits_map_to_labels_and_the_lowest_wins() {
    assert_eq!(pressed_label_key(&[false; 6]), None);
    assert_eq!(pressed_label_key(&[true, false, false, false, false, true]), Some(Label::Unlabeled));
    assert_eq!(pressed_label_key(&[false, false, true, false, true, false]), Some(Label::Yellow));
    assert_eq!(pressed_label_key(&[false, false, false, false, false, true]), Some(Label::Purple));
}

#[test]
fn digits_with_a_modifier_are_no_labels() {
    let one = [false, true, false, false, false, false];
    assert_eq!(bare_label_key(&one, false), Some(Label::Red));
    assert_eq!(bare_label_key(&one, true), None);
    assert_eq!(bare_label_key(&[true, false, false, false, false, false], true), None);
}

#[test]
fn brackets_map_to_turns() {
    assert_eq!(pressed_rotate_key(false, false), None);
    assert_eq!(pressed_rotate_key(true, true), Some(RotateDir::CounterClockwise));
    assert_eq!(pressed_rotate_key(false, true), Some(RotateDir::Clockwise));
}

#[test]
fn labels_have_names_and_colors() {
    assert_eq!(label_name(Label::Red), "red");
    assert_eq!(label_color(Label::Red), (0xE5, 0x48, 0x4D));
    assert_eq!(label_color(Label::Purple), (0x9D, 0x5C, 0xE8));
}

#[test]
fn chip_hints_count_their_photos() {
    assert_eq!(chip_hint("show every photo", None), "show every photo");
    assert_eq!(chip_hint("red-only", Some(1)), "red-only · 1 photo");
    assert_eq!(chip_hint("red-only", Some(1200)), "red-only · 1\u{202f}200 photos");
}

// --- loupe texts ---

fn detail(fields: impl Fn(&mut PhotoDetail)) -> PhotoDetail {
    let mut detail = PhotoDetail {
        id: PhotoId(1),
        rel_path: "IMG_0001.CR3".to_owned(),
        label: Label::Unlabeled,
        status: PhotoStatus::Ingested,
        pixels: Some((6000, 4000)),
        orientation: 1,
        rot_cw: 0,
        preview_path: None,
        thumb_path: None,
        camera: None,
        lens: None,
        taken_at: None,
        shutter: None,
        aperture: None,
        iso: None,
        focal_mm: None,
        err_msg: None,
        jpeg_rel_path: None,
    };
    fields(&mut detail);
    detail
}

fn entry() -> PhotoEntry {
    PhotoEntry {
        id: PhotoId(1),
        rel_path: "IMG_0001.CR3".to_owned(),
        label: Label::Unlabeled,
        status: PhotoStatus::Ingested,
        pixels: Some((6000, 4000)),
        orientation: 1,
        rot_cw: 0,
        thumb_path: None,
        err_msg: None,
        jpeg_rel_path: None,
    }
}

#[test]
fn neighbor_indices_should_walk_both_directions_nearest_first() {
    assert_eq!(neighbor_indices(5, 10, 3), vec![4, 6, 3, 7, 2, 8]);
}

#[test]
fn neighbor_indices_should_clamp_to_set_bounds() {
    assert_eq!(neighbor_indices(0, 3, 3), vec![1, 2]);
}

#[test]
fn exif_line_should_join_present_fields_with_middle_dots() {
    let detail = detail(|d| {
        d.camera = Some("Canon EOS R6".to_owned());
        d.shutter = Some("1/250 s".to_owned());
        d.iso = Some(400);
    });

    assert_eq!(exif_line(&detail, &entry()), "Canon EOS R6 · 1/250 s · ISO 400");
}

#[test]
fn exif_line_should_trim_integral_aperture_and_focal_values() {
    let detail = detail(|d| {
        d.aperture = Some(80);
        d.focal_mm = Some(350);
    });

    assert_eq!(exif_line(&detail, &entry()), "f/8 · 35mm");
}

#[test]
fn exif_line_should_keep_fractional_exposure_values() {
    let detail = detail(|d| {
        d.aperture = Some(28);
        d.focal_mm = Some(245);
    });

    assert_eq!(exif_line(&detail, &entry()), "f/2.8 · 24.5mm");
}

#[test]
fn exif_line_should_fall_back_to_the_file_name_when_empty() {
    let detail = detail(|_| {});

    assert_eq!(exif_line(&detail, &entry()), "IMG_0001.CR3");
}

#[test]
fn position_counter_groups_thousands() {
    assert_eq!(position_text(142, 3210), "142 / 3\u{202f}210");
}

#[test]
fn loupe_prefers_the_preview_file() {
    let with_preview = detail(|d| d.preview_path = Some("p.jpg".to_owned()));
    assert_eq!(preview_path(&Some(with_preview)), Some("p.jpg".to_owned()));
    assert_eq!(preview_path(&None), None);
}

#[test]
fn quarter_turns_exchange_the_displayed_sides() {
    let mut turned_entry = entry();
    assert_eq!(turned_entry.display_pixels(), Some((6000, 4000)));
    turned_entry.orientation = 6;
    assert_eq!(turned_entry.display_pixels(), Some((4000, 6000)));
    turned_entry.rot_cw = 1;
    assert_eq!(turned_entry.display_pixels(), Some((6000, 4000)));
    turned_entry.pixels = None;
    assert_eq!(turned_entry.display_pixels(), None);
}

fn ratio(entry: &PhotoEntry) -> f32 {
    let (width, height) = entry.display_aspect();
    width as f32 / height as f32
}

#[test]
fn display_aspect_should_fall_back_to_three_halves_while_pending() {
    let mut pending = entry();
    pending.status = PhotoStatus::Pending;
    pending.pixels = None;
    assert!((ratio(&pending) - 1.5).abs() < f32::EPSILON);
    pending.pixels = Some((0, 7));
    assert!((ratio(&pending) - 1.5).abs() < f32::EPSILON);
}

#[test]
fn display_aspect_should_rotate_for_quarter_turn_orientations() {
    let make = |orientation: u16| PhotoEntry { orientation, ..entry() };
    assert!((ratio(&make(1)) - 1.5).abs() < 0.01);
    assert!((ratio(&make(3)) - 1.5).abs() < 0.01);
    assert!((ratio(&make(6)) - 2.0 / 3.0).abs() < 0.01);
    assert!((ratio(&make(8)) - 2.0 / 3.0).abs() < 0.01);
}

// --- dialogs ---

#[test]
fn question_events_should_match_text_shifted_slash_and_named_key() {
    assert!(is_question_event(&InputEvent::Text("?".to_owned())));
    assert!(is_question_event(&InputEvent::Key { key: HelpKey::Slash, pressed: true, shift: true }));
    assert!(is_question_event(&InputEvent::Key { key: HelpKey::Questionmark, pressed: true, shift: false }));
}

#[test]
fn question_events_should_reject_plain_slash_and_other_text() {
    assert!(!is_question_event(&InputEvent::Text("!".to_owned())));
    assert!(!is_question_event(&InputEvent::Key { key: HelpKey::Slash, pressed: true, shift: false }));
    // Key *releases* never toggle anything.
    assert!(!is_question_event(&InputEvent::Key { key: HelpKey::Questionmark, pressed: false, shift: false }));
}

#[test]
fn shortcut_tables_should_stay_in_sync_with_the_spec_shape() {
    assert_eq!(KEYBOARD_ROWS.len(), 11);
    assert_eq!(MOUSE_ROWS.len(), 8);
    assert!(
        KEYBOARD_ROWS.iter().chain(MOUSE_ROWS.iter()).all(|(k, a)| !k.is_empty() && !a.is_empty()),
        "every row needs both a trigger and an action"
    );
}

#[test]
fn one_question_event_among_many_is_enough() {
    assert!(!question_pressed(&vec![]));
    assert!(question_pressed(&vec![InputEvent::Other, InputEvent::Text("?".to_owned()), InputEvent::Other]));
}

#[test]
fn escape_closes_dialogs_once() {
    let mut modals = Modals::default();
    assert!(!modals.pump_input(true, false));
    modals.open_about();
    assert!(modals.any());
    assert!(modals.pump_input(false, true), "the closing Escape is used up");
    assert!(!modals.any());
    assert!(!modals.pump_input(false, true), "the next one is not");
    modals.pump_input(true, false);
    modals.settle(true, true, false);
    assert_eq!((modals.help, modals.about), (false, true));
}
