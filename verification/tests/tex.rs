//! The texture cache and how pictures are turned upright.

use std::collections::VecDeque;

use cullr::decode::{display_picture, displayed};
use cullr::keymap::{SizeClass, TexKey};
use cullr::model::PhotoId;
use cullr::orient::orient_upright;
use cullr::tex::{
    job_is_current, Decoded, FrameWork, Job, Limits, Picture, Request, Rotation, TextureState, Textures,
    MAX_UPLOADS_PER_FRAME,
};
use image::{DynamicImage, Rgb, RgbImage, RgbaImage};

/// The cache with decoders that finish at once; `size` is that of every
/// decoded picture.
struct Bench {
    textures: Textures<u32>,
    done: VecDeque<Decoded<u32>>,
    size: (u32, u32),
    corrupt: Vec<String>,
    uploads: Vec<TexKey>,
}

impl Bench {
    fn new(limits: Limits, size: (u32, u32)) -> Self {
        Bench {
            textures: Textures::with_limits(limits),
            done: VecDeque::new(),
            size,
            corrupt: Vec::new(),
            uploads: Vec::new(),
        }
    }

    /// What a decoder makes of a job; one of an earlier focus is dropped.
    fn decode(&mut self, job: Job) {
        if !job_is_current(job.ticket, self.textures.epoch) {
            return;
        }
        let image = if self.corrupt.contains(&job.path) {
            Err("not a jpeg".to_owned())
        } else {
            Ok(Picture { width: self.size.0, height: self.size.1, pixels: 0 })
        };
        self.done.push_back(Decoded { key: job.key, path: job.path, rotation: job.rotation, image });
    }

    fn handle(&mut self, key: TexKey, path: &str, rotation: Rotation) -> TextureState {
        let (state, job) = self.textures.handle(key, Some(&path.to_owned()), rotation);
        if let Some(job) = job {
            self.decode(job);
        }
        state
    }

    fn prefetch(&mut self, requests: Vec<Request>) {
        for job in self.textures.prefetch(&requests) {
            self.decode(job);
        }
    }

    fn sync(&mut self) -> FrameWork<u32> {
        let results = std::mem::take(&mut self.done);
        let work = self.textures.sync(results);
        self.uploads.extend(work.uploads.iter().map(|upload| upload.key));
        work
    }

    /// Frames until nothing is under way.
    fn settle(&mut self) {
        for _ in 0..1000 {
            self.sync();
            if !self.textures.busy() {
                return;
            }
        }
        panic!("never settled");
    }

    fn resident(&self, key: TexKey) -> bool {
        self.textures.slots.find(key).is_some()
    }
}

fn thumb(id: u64) -> TexKey {
    TexKey::thumb(PhotoId(id))
}

fn upright() -> Rotation {
    Rotation::upright()
}

fn wish(key: TexKey, path: &str) -> Request {
    Request { key, source: Some((path.to_owned(), Rotation::upright())) }
}

#[test]
fn uploads_should_respect_the_per_frame_cap() {
    let mut bench = Bench::new(Limits::default(), (8, 6));
    for index in 0..20 {
        bench.handle(thumb(index), &format!("up-{index}.jpg"), upright());
    }
    let mut synced_frames = 0;
    while bench.textures.slots.len() < 20 {
        let before = bench.textures.slots.len();
        bench.sync();
        let uploaded = bench.textures.slots.len() - before;
        assert!(uploaded <= MAX_UPLOADS_PER_FRAME as usize, "uploaded {uploaded} in one frame");
        synced_frames += 1;
        assert!(synced_frames < 100, "never reached 20 ready");
    }
    assert!(synced_frames >= 20 / MAX_UPLOADS_PER_FRAME);
}

#[test]
fn eviction_should_drop_the_least_recently_used_first() {
    // 16×12 RGBA8 = 768 B per texture; the budget fits two plus slack
    // and its eviction target keeps one survivor, so a third upload
    // forces exactly one LRU eviction.
    let limits = Limits { byte_budget: 2200, ..Limits::default() };
    let mut bench = Bench::new(limits, (16, 12));

    bench.handle(thumb(1), "a.jpg", upright());
    bench.settle();
    bench.handle(thumb(2), "b.jpg", upright());
    bench.settle();
    // Advance one frame so the touch below stamps strictly newer
    // recency than 2's upload frame (ties fall back to id order).
    bench.sync();
    bench.handle(thumb(1), "a.jpg", upright());
    bench.handle(thumb(3), "c.jpg", upright());
    bench.settle();

    assert!(bench.resident(thumb(1)), "recently used evicted");
    assert!(bench.resident(thumb(3)), "fresh upload evicted");
    assert!(!bench.resident(thumb(2)), "LRU victim survived");
}

#[test]
fn eviction_should_keep_recently_visible_textures() {
    // Seven competing uploads overflow the 2400 B budget repeatedly, forcing
    // evictions down to the 1800 B target while the burst streams through.
    let limits = Limits { byte_budget: 2400, ..Limits::default() };
    let mut bench = Bench::new(limits, (16, 12));
    for index in 0..7 {
        bench.handle(thumb(index), &format!("vis-{index}.jpg"), upright());
    }
    // Highest id also wins recency ties, mirroring a cell that stays on
    // screen while everything around it scrolls past.
    let hot = thumb(999);

    let mut frames = 0;
    loop {
        bench.handle(hot, "vis-6.jpg", upright());
        bench.sync();
        if !bench.textures.busy() {
            break;
        }
        frames += 1;
        assert!(frames < 1000, "burst never settled");
    }

    assert!(bench.resident(hot), "recently visible texture was evicted during the burst");
}

#[test]
fn eviction_should_settle_at_the_hysteresis_level_and_keep_survivors() {
    // Six 16×12 textures = 4608 B overflow the 2200 B budget; eviction
    // must stop once bytes reach its 1650 B target instead of running
    // to zero.
    let limits = Limits { byte_budget: 2200, ..Limits::default() };
    let evict_target = limits.evict_target();
    assert_eq!(evict_target, 1650);
    let mut bench = Bench::new(limits, (16, 12));
    for index in 0..6 {
        bench.handle(thumb(index), &format!("hyst-{index}.jpg"), upright());
    }
    bench.settle();
    bench.sync();

    assert!(
        bench.textures.bytes <= evict_target,
        "eviction overshot the hysteresis level: {} B resident vs {evict_target} B target",
        bench.textures.bytes
    );
    assert!(bench.textures.slots.len() > 0, "hysteresis eviction emptied the cache entirely");
}

#[test]
fn retain_should_drop_non_kept_ids_from_every_cache_layer() {
    let mut bench = Bench::new(Limits::default(), (8, 6));
    let kept = thumb(1);
    let gone = thumb(2);

    bench.handle(kept, "kept.jpg", upright());
    bench.handle(gone, "gone.jpg", upright());
    bench.settle();
    assert_eq!(bench.textures.slots.len(), 2);

    bench.textures.retain(&vec![PhotoId(1)]);

    assert!(!bench.resident(gone), "closed-folder texture survived retain");
    assert!(bench.textures.pending.find(gone).is_none(), "closed-folder decode job survived retain");
    let slot = bench.textures.slots.find(kept).expect("kept");
    assert_eq!(
        bench.textures.bytes, bench.textures.slots.entries[slot].1.bytes,
        "byte accounting drifted after retain"
    );
    assert!(!bench.textures.busy(), "closed-folder work kept the pipeline busy");
}

#[test]
fn prefetch_should_skip_keys_already_resident_or_in_flight() {
    let mut bench = Bench::new(Limits::default(), (8, 6));
    let key = thumb(6);

    bench.handle(key, "dedup.jpg", upright());
    bench.prefetch(vec![wish(key, "dedup.jpg")]);

    assert_eq!(bench.textures.pending.len(), 1, "prefetch duplicated an in-flight demand");

    bench.settle();
    assert_eq!(bench.handle(key, "dedup.jpg", upright()), TextureState::Ready);
    bench.prefetch(vec![wish(key, "dedup.jpg")]);

    assert!(!bench.textures.busy(), "prefetch requeued a resident texture");
}

#[test]
fn scrolled_past_requests_should_be_cancelled_by_focus() {
    let mut bench = Bench::new(Limits::default(), (8, 6));

    bench.handle(thumb(7), "cancel.jpg", upright());
    // The user scrolls: id 7 leaves the viewport, another id shows up.
    bench.textures.focus(&vec![thumb(8)]);
    bench.settle();

    assert_eq!(bench.textures.slots.len(), 0, "cancelled work reached the GPU");

    // Scrolled back into view: a fresh demand re-loads it.
    bench.handle(thumb(7), "cancel.jpg", upright());
    bench.settle();
    assert_eq!(bench.handle(thumb(7), "cancel.jpg", upright()), TextureState::Ready);
}

#[test]
fn backlog_overflow_should_shed_old_results_but_recover_on_redemand() {
    let limits = Limits { ready_cap: 1, max_uploads: 1, ..Limits::default() };
    let mut bench = Bench::new(limits, (8, 6));
    for index in 0..8 {
        bench.handle(thumb(index), &format!("burst-{index}.jpg"), upright());
    }
    // All eight decodes are done before the first frame, so the backlog
    // overflows.
    bench.settle();
    let missing: Vec<u64> = (0..8).filter(|&index| !bench.resident(thumb(index))).collect();
    assert!(!missing.is_empty(), "expected the cap to shed something");

    // Re-demanding the shed ids must recover every one of them.
    let mut frames = 0;
    loop {
        let ready = missing
            .iter()
            .filter(|&&index| bench.handle(thumb(index), &format!("burst-{index}.jpg"), upright()) == TextureState::Ready)
            .count();
        if ready == missing.len() {
            break;
        }
        bench.sync();
        frames += 1;
        assert!(frames < 1000, "shed ids did not recover after re-demand");
    }
}

#[test]
fn prefetch_should_pause_once_the_pending_queue_is_saturated() {
    let limits = Limits { prefetch_pending_cap: 2, ..Limits::default() };
    let mut bench = Bench::new(limits, (8, 6));

    bench.handle(thumb(1), "one.jpg", upright());
    bench.prefetch(vec![wish(thumb(2), "two.jpg"), wish(thumb(3), "three.jpg")]);

    assert_eq!(bench.textures.pending.len(), 2, "prefetch ignored the saturation cap");
    assert!(bench.textures.pending.find(thumb(1)).is_some());
    assert!(bench.textures.pending.find(thumb(2)).is_some());
    assert!(bench.textures.pending.find(thumb(3)).is_none());
}

#[test]
fn reingest_with_a_new_thumb_path_should_replace_stale_pixels() {
    let mut bench = Bench::new(Limits::default(), (8, 6));
    let key = thumb(5);

    bench.handle(key, "old.jpg", upright());
    bench.settle();
    assert_eq!(bench.handle(key, "old.jpg", upright()), TextureState::Ready, "initial load failed");

    bench.handle(key, "new.jpg", upright());
    assert_eq!(bench.handle(key, "new.jpg", upright()), TextureState::Loading);
    bench.settle();

    assert_eq!(bench.handle(key, "new.jpg", upright()), TextureState::Ready, "re-ingested texture never became ready");
    let slot = bench.textures.slots.find(key).expect("slot");
    assert_eq!(bench.textures.slots.entries[slot].1.path, "new.jpg", "slot kept the stale asset");
}

#[test]
fn undecodable_jpeg_should_report_broken_without_retry_churn() {
    let mut bench = Bench::new(Limits::default(), (8, 6));
    bench.corrupt.push("corrupt.jpg".to_owned());
    let key = thumb(9);

    bench.handle(key, "corrupt.jpg", upright());
    bench.settle();

    assert_eq!(
        bench.handle(key, "corrupt.jpg", upright()),
        TextureState::Broken,
        "decode failure never surfaced as Broken"
    );
    assert!(!bench.textures.busy(), "broken asset keeps retrying");
}

#[test]
fn thumb_and_screen_classes_should_cache_independently_for_one_id() {
    let mut bench = Bench::new(Limits::default(), (8, 6));
    let thumb_key = thumb(3);
    let screen_key = TexKey::screen(PhotoId(3));
    assert_eq!((thumb_key.class, screen_key.class), (SizeClass::Thumb, SizeClass::Screen));
    assert_ne!(thumb_key.class_prefix(), screen_key.class_prefix());

    bench.handle(thumb_key, "t.jpg", upright());
    bench.handle(screen_key, "s.jpg", upright());
    bench.settle();

    assert_eq!(bench.handle(thumb_key, "t.jpg", upright()), TextureState::Ready);
    assert_eq!(bench.handle(screen_key, "s.jpg", upright()), TextureState::Ready);
    assert_eq!(bench.textures.slots.len(), 2, "one class evicted the other");
    assert_eq!(bench.uploads.len(), 2, "classes shared one texture");
}

#[test]
fn focus_should_cancel_only_the_requested_class() {
    let mut bench = Bench::new(Limits::default(), (8, 6));
    let thumb_key = thumb(4);
    let screen_key = TexKey::screen(PhotoId(4));

    // A thumb decode is in flight when the loupe takes over the focus;
    // the epoch bump must cancel the off-screen thumb class.
    bench.handle(thumb_key, "cls.jpg", upright());
    bench.textures.focus(&vec![screen_key]);
    bench.settle();

    assert_eq!(bench.textures.slots.len(), 0, "cancelled thumb class reached the GPU");

    // The focused screen class still loads normally afterwards.
    bench.handle(screen_key, "cls.jpg", upright());
    bench.settle();
    assert_eq!(bench.handle(screen_key, "cls.jpg", upright()), TextureState::Ready, "focused screen key never loaded");
}

#[test]
fn rotating_a_visible_photo_should_replace_its_texture() {
    let mut bench = Bench::new(Limits::default(), (16, 12));
    let key = thumb(11);

    bench.handle(key, "rot.jpg", upright());
    bench.settle();
    assert_eq!(bench.handle(key, "rot.jpg", upright()), TextureState::Ready, "initial load failed");

    // The user presses ]: same asset path, new display rotation. The
    // stale slot must be dropped and a rotated decode queued.
    assert_eq!(bench.handle(key, "rot.jpg", Rotation::new(1, 1)), TextureState::Loading);
    bench.settle();
    assert_eq!(
        bench.handle(key, "rot.jpg", Rotation::new(1, 1)),
        TextureState::Ready,
        "rotated texture never became ready"
    );
    let slot = bench.textures.slots.find(key).expect("slot");
    assert_eq!(bench.textures.slots.entries[slot].1.rotation, Rotation::new(1, 1));
}

#[test]
fn photos_without_a_file_stay_loading() {
    let mut bench = Bench::new(Limits::default(), (8, 6));
    let (state, job) = bench.textures.handle(thumb(1), None, upright());
    assert_eq!(state, TextureState::Loading);
    assert!(job.is_none());
    assert!(!bench.textures.busy());
}

// --- turning ---

/// A 2×2 image whose pixels read `[A B; C D]`.
fn marker_image() -> DynamicImage {
    let colors = [
        [255, 0, 0],   // A
        [0, 255, 0],   // B
        [0, 0, 255],   // C
        [255, 255, 0], // D
    ];
    let mut image = RgbImage::new(2, 2);
    for (index, color) in colors.iter().enumerate() {
        image.put_pixel((index % 2) as u32, (index / 2) as u32, Rgb(*color));
    }
    DynamicImage::ImageRgb8(image)
}

fn pixel(image: &DynamicImage, x: u32, y: u32) -> [u8; 3] {
    let rgb = image.to_rgb8();
    rgb.get_pixel(x, y).0
}

#[test]
fn orient_upright_should_match_the_exif_transform_table() {
    let cases: [(u16, [[u8; 3]; 4]); 8] = [
        // 1: stored pixels are already upright.
        (1, [[255, 0, 0], [0, 255, 0], [0, 0, 255], [255, 255, 0]]),
        // 2: mirrored horizontally.
        (2, [[0, 255, 0], [255, 0, 0], [255, 255, 0], [0, 0, 255]]),
        // 3: rotated 180°.
        (3, [[255, 255, 0], [0, 0, 255], [0, 255, 0], [255, 0, 0]]),
        // 4: mirrored vertically.
        (4, [[0, 0, 255], [255, 255, 0], [255, 0, 0], [0, 255, 0]]),
        // 5: transpose over the main diagonal.
        (5, [[255, 0, 0], [0, 0, 255], [0, 255, 0], [255, 255, 0]]),
        // 6: quarter turn clockwise.
        (6, [[0, 0, 255], [255, 0, 0], [255, 255, 0], [0, 255, 0]]),
        // 7: transverse (anti-diagonal mirror).
        (7, [[255, 255, 0], [0, 255, 0], [0, 0, 255], [255, 0, 0]]),
        // 8: quarter turn counter-clockwise.
        (8, [[0, 255, 0], [255, 255, 0], [255, 0, 0], [0, 0, 255]]),
    ];
    for (orientation, expected) in cases {
        let out = orient_upright(marker_image(), Rotation::new(orientation, 0));
        for y in 0..2 {
            for x in 0..2 {
                assert_eq!(
                    pixel(&out, x, y),
                    expected[(y * 2 + x) as usize],
                    "orientation {orientation} pixel ({x},{y})"
                );
            }
        }
    }
}

#[test]
fn user_turns_should_compose_with_the_exif_correction_sequentially() {
    // A portrait EXIF flag plus one further CW turn is a half turn.
    let combined = orient_upright(marker_image(), Rotation::new(6, 1));
    let half = orient_upright(marker_image(), Rotation::new(3, 0));
    assert_eq!(combined.to_rgba8().into_raw(), half.to_rgba8().into_raw());

    // Four turns would be a no-op; three land back on one CCW turn.
    let ccw = orient_upright(marker_image(), Rotation::new(1, 3));
    let once_cw = orient_upright(marker_image(), Rotation::new(1, 1));
    assert_ne!(ccw.to_rgba8().into_raw(), once_cw.to_rgba8().into_raw());
}

#[test]
fn quarter_turns_exchange_width_and_height() {
    let image = DynamicImage::ImageRgb8(RgbImage::new(5, 3));
    let out = orient_upright(image, Rotation::new(6, 0));
    assert_eq!((out.width(), out.height()), (3, 5));
}

fn jpeg_bytes(image: &DynamicImage) -> Vec<u8> {
    let mut bytes = Vec::new();
    let mut encoder = image::codecs::jpeg::JpegEncoder::new_with_quality(&mut bytes, 95);
    encoder.encode_image(image).expect("encode test jpeg");
    bytes
}

/// What decoding a file gives.
fn loaded(bytes: &[u8]) -> Result<DynamicImage, String> {
    image::load_from_memory(bytes).map_err(|error| error.to_string())
}

#[test]
fn cached_files_are_decoded_turned_and_laid_out() {
    let mut stored = RgbImage::from_pixel(32, 16, Rgb([10, 20, 30]));
    for y in 0..16 {
        for x in 0..16 {
            stored.put_pixel(x, y, Rgb([240, 230, 220]));
        }
    }
    let bytes = jpeg_bytes(&DynamicImage::ImageRgb8(stored));

    let picture = displayed(loaded(&bytes), Rotation::new(6, 0)).expect("a picture");

    assert_eq!((picture.width, picture.height), (16, 32));
    let expected = image::load_from_memory(&bytes).expect("a picture").rotate90().to_rgba8();
    assert_eq!(picture.pixels, expected.into_raw());
    let top = picture.pixels[0];
    let bottom = picture.pixels[(16 * 31 + 8) * 4];
    assert!(top > 200 && bottom < 60, "the left half is on top now: {top} {bottom}");
    assert_eq!(picture.pixels[3], 255, "pictures without alpha are opaque");
}

#[test]
fn files_that_are_no_pictures_fail_with_words() {
    let words = displayed(loaded(b"not a jpeg"), upright()).expect_err("no picture");
    assert!(!words.is_empty());
}

#[test]
fn display_pixels_follow_the_turning() {
    let picture = display_picture(marker_image(), Rotation::new(1, 1));
    assert_eq!(
        picture.pixels,
        vec![0, 0, 255, 255, 255, 0, 0, 255, 255, 255, 0, 255, 0, 255, 0, 255],
        "C A over D B"
    );
}

#[test]
fn longer_buffers_are_cut_for_display() {
    let mut rows = vec![10u8, 20, 30, 40, 50, 60, 70, 80];
    rows.extend([9u8; 5]);
    let image = DynamicImage::ImageRgba8(RgbaImage::from_raw(1, 2, rows).expect("longer buffer"));

    let picture = display_picture(image, upright());

    assert_eq!(picture.pixels, vec![10, 20, 30, 40, 50, 60, 70, 80]);
}

#[test]
fn decoding_results_are_laid_out_or_keep_their_words() {
    assert_eq!(displayed(Err("not a jpeg".to_owned()), upright()).err().as_deref(), Some("not a jpeg"));
    let picture = displayed(Ok(marker_image()), upright()).expect("a picture");
    assert_eq!((picture.width, picture.height), (2, 2));
}

#[test]
fn spellings_of_a_file_share_a_texture() {
    let mut bench = Bench::new(Limits::default(), (8, 6));
    bench.handle(thumb(1), "cache/a.jpg", upright());
    bench.settle();

    assert_eq!(bench.handle(thumb(1), "cache//a.jpg", upright()), TextureState::Ready);
    assert_eq!(bench.handle(thumb(1), "cache/b.jpg", upright()), TextureState::Loading);
}
