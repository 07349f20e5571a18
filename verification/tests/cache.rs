//! Cache keys, paths, sweeps.

use std::time::{Duration, SystemTime};

use cullr::cache::{file_stem, has_jpeg_suffix, temp_sibling, Cache, CacheError, CachedFile, Listing};

fn cache() -> Cache {
    Cache::new("/cache".to_owned())
}

fn listing(names: &[&str]) -> Listing {
    Listing::Files(names.iter().map(|name| CachedFile { name: (*name).to_owned(), is_file: true }).collect())
}

#[test]
fn asset_hash_should_be_deterministic_for_identical_inputs() {
    let a = Cache::asset_hash("/photos", "IMG_0001.CR3", 1_000, 42);
    let b = Cache::asset_hash("/photos", "IMG_0001.CR3", 1_000, 42);
    assert_eq!(a, b);
}

#[test]
fn asset_hash_should_change_when_identity_changes() {
    let root = "/photos";
    let rel = "IMG_0001.CR3";
    let base = Cache::asset_hash(root, rel, 1_000, 42);
    assert_ne!(base, Cache::asset_hash(root, rel, 2_000, 42));
    assert_ne!(base, Cache::asset_hash(root, rel, 1_000, 43));
    assert_ne!(base, Cache::asset_hash(root, "IMG_0002.CR3", 1_000, 42));
    assert_ne!(base, Cache::asset_hash("/other", rel, 1_000, 42));
}

#[test]
fn asset_hash_should_be_a_32_char_hex_digest() {
    let hash = Cache::asset_hash("/p", "a.nef", 0, 0);
    assert_eq!(hash.len(), 32);
    assert!(hash.bytes().all(|b| b.is_ascii_hexdigit()));
}

/// MD5, written out from its definition.
fn md5(message: &[u8]) -> String {
    let shifts: [[u32; 4]; 4] = [[7, 12, 17, 22], [5, 9, 14, 20], [4, 11, 16, 23], [6, 10, 15, 21]];
    let mut data = message.to_vec();
    data.push(0x80);
    while data.len() % 64 != 56 {
        data.push(0);
    }
    data.extend_from_slice(&((message.len() as u64) * 8).to_le_bytes());
    let mut state: [u32; 4] = [0x6745_2301, 0xefcd_ab89, 0x98ba_dcfe, 0x1032_5476];
    for block in data.chunks(64) {
        let words: Vec<u32> = block.chunks(4).map(|w| u32::from_le_bytes([w[0], w[1], w[2], w[3]])).collect();
        let [mut a, mut b, mut c, mut d] = state;
        for i in 0..64_usize {
            let (mix, g) = match i / 16 {
                0 => ((b & c) | (!b & d), i),
                1 => ((d & b) | (!d & c), (5 * i + 1) % 16),
                2 => (b ^ c ^ d, (3 * i + 5) % 16),
                _ => (c ^ (b | !d), (7 * i) % 16),
            };
            let sine = (((i + 1) as f64).sin().abs() * 4_294_967_296.0) as u32;
            let sum = a.wrapping_add(mix).wrapping_add(sine).wrapping_add(words[g]);
            let turned = b.wrapping_add(sum.rotate_left(shifts[i / 16][i % 4]));
            (a, b, c, d) = (d, turned, b, c);
        }
        state = [
            state[0].wrapping_add(a),
            state[1].wrapping_add(b),
            state[2].wrapping_add(c),
            state[3].wrapping_add(d),
        ];
    }
    state.iter().flat_map(|word| word.to_le_bytes()).map(|byte| format!("{byte:02x}")).collect()
}

#[test]
fn asset_hash_is_the_digest_of_the_identity() {
    assert_eq!(md5(b"abc"), "900150983cd24fb0d6963f7d28e17f72");
    let mut identity: Vec<u8> = Vec::new();
    identity.extend_from_slice("/photos/é".as_bytes());
    identity.push(0);
    identity.extend_from_slice(b"IMG_0001.CR3");
    identity.push(0);
    identity.extend_from_slice(&1_700_000_000_000_000_001_u128.to_le_bytes());
    identity.extend_from_slice(&42_u64.to_le_bytes());
    assert_eq!(Cache::asset_hash("/photos/é", "IMG_0001.CR3", 1_700_000_000_000_000_001, 42), md5(&identity));
}

#[test]
fn asset_hash_should_use_mtime_not_wall_clock() {
    let earlier = SystemTime::UNIX_EPOCH + Duration::from_secs(100);
    let later = SystemTime::UNIX_EPOCH + Duration::from_secs(200);
    let to_nanos =
        |t: SystemTime| t.duration_since(SystemTime::UNIX_EPOCH).expect("fixture epoch times").as_nanos();
    let a = Cache::asset_hash("/p", "x.arw", to_nanos(earlier), 1);
    let b = Cache::asset_hash("/p", "x.arw", to_nanos(later), 1);
    assert_ne!(a, b);
}

#[test]
fn paths_should_follow_the_spec_layout() {
    let cache = cache();
    assert_eq!(cache.preview_path("abc"), "/cache/previews/abc.jpg");
    assert_eq!(cache.thumb_path("abc"), "/cache/thumbs/abc.jpg");
    assert_eq!(cache.previews_dir(), "/cache/previews");
    assert_eq!(cache.thumbs_dir(), "/cache/thumbs");
}

#[test]
fn system_default_should_agree_with_xdg_cache_dir() {
    if let Some(base) = dirs::cache_dir() {
        let expected = base.join("cullr");
        let cache = Cache::system_default(Some(base.to_string_lossy().into_owned()))
            .expect("system default exists when XDG does");
        assert_eq!(cache.root, expected.to_string_lossy());
    }
    let error = Cache::system_default(None).expect_err("nowhere");
    assert_eq!(error, CacheError::NoCacheDir);
    assert!(!error.message().is_empty());
}

#[test]
fn gc_should_remove_files_not_in_keep_set_and_count_them() {
    let cache = cache();
    let sweep =
        cache.gc(&listing(&["keep1.jpg", "stale1.jpg"]), &listing(&["keep1.jpg", "stale2.jpg"]), &vec!["keep1".to_owned()]);

    assert_eq!(sweep.remove, vec![cache.preview_path("stale1"), cache.thumb_path("stale2")]);
    assert_eq!(Cache::gc_outcome(sweep.failure, &vec![true, true]), Ok(2));
}

#[test]
fn gc_should_tolerate_missing_cache_directories() {
    let sweep = cache().gc(&Listing::Missing, &Listing::Missing, &vec![]);

    assert!(sweep.remove.is_empty());
    assert_eq!(Cache::gc_outcome(sweep.failure, &vec![]), Ok(0));
}

#[test]
fn gc_should_ignore_non_jpeg_files() {
    let mut files = vec![CachedFile { name: "notes.txt".to_owned(), is_file: true }];
    files.push(CachedFile { name: "folder.jpg".to_owned(), is_file: false });

    let sweep = cache().gc(&Listing::Files(files), &Listing::Missing, &vec![]);

    assert!(sweep.remove.is_empty());
    assert_eq!(Cache::gc_outcome(sweep.failure, &vec![]), Ok(0));
}

#[test]
fn gc_reports_a_folder_it_could_not_read_and_sweeps_the_other() {
    let sweep = cache().gc(&Listing::Unreadable("denied".to_owned()), &listing(&["x.JPG"]), &vec![]);

    assert_eq!(sweep.remove, vec!["/cache/thumbs/x.JPG".to_owned()]);
    let error = Cache::gc_outcome(sweep.failure, &vec![true]).expect_err("unreadable");
    assert!(matches!(&error, CacheError::Walk { path, .. } if path == "/cache/previews"));
    assert!(error.message().contains("/cache/previews"), "{}", error.message());
    assert_eq!(Cache::gc_outcome(None, &vec![true, false]), Ok(1), "files that would not go do not count");
}

#[test]
fn names_of_cached_files_are_taken_apart() {
    assert_eq!(file_stem("a.b.jpg"), "a.b");
    assert_eq!(file_stem(".jpg"), ".jpg");
    assert!(has_jpeg_suffix("a.JPG"));
    assert!(!has_jpeg_suffix("a.jpeg"));
}

#[test]
fn temporary_files_stand_beside_their_target() {
    let first = temp_sibling("/cache/thumbs/a.jpg", 7, 0);
    let second = temp_sibling("/cache/thumbs/a.jpg", 7, 1);
    assert!(first.starts_with("/cache/thumbs/"), "{first}");
    assert_ne!(first, second);
    assert_ne!(first, temp_sibling("/cache/thumbs/a.jpg", 8, 0));
    assert_ne!(first, "/cache/thumbs/a.jpg");
}

#[test]
fn write_errors_name_their_path() {
    let error = CacheError::Write { path: "/cache/thumbs/a.jpg".to_owned(), reason: "full".to_owned() };
    assert!(error.message().contains("/cache/thumbs/a.jpg"), "{}", error.message());
}
