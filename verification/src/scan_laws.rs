//! Which files a scan finds, what it says of them and what goes with them.

use vstd::prelude::*;
use vstd::utf8::encode_utf8;

use crate::extract::{is_jpeg, is_raw};
use crate::model::{PhotoMeta, ScanOptions};
use crate::path::{components, last_name, path_le};
use crate::scanner::{
    candidate, chosen, comes_first, extension_in, hidden_name, is_companion, is_photo, jpeg_name,
    lowered_stem_in, meta_fits, pairs, photo_rows, raw_name, scan_fits, scanned, WalkEntry,
};
use crate::text_laws::the_last_dot_is_found;

verus! {

/// The extension of a name is what follows its last dot; a name without a dot
/// or with nothing behind it has none.
pub proof fn extensions_follow_the_last_dot(stem: Seq<char>, extension: Seq<char>)
    requires
        !extension.contains('.'),
    ensures
        extension.len() > 0 ==> extension_in(stem.push('.') + extension) == Some(extension),
        extension.len() == 0 ==> extension_in(stem.push('.') + extension) is None,
        extension_in(extension) is None,
        extension.len() > 0 ==> raw_name(stem.push('.') + extension) == is_raw(encode_utf8(extension)),
        extension.len() > 0 ==> jpeg_name(stem.push('.') + extension) == is_jpeg(encode_utf8(extension)),
        !raw_name(extension),
        !jpeg_name(extension),
{
    the_last_dot_is_found(stem, extension);
    let name = stem.push('.') + extension;
    assert(name.skip(stem.len() as int + 1) =~= extension);
    crate::text_laws::last_dots_are_last(extension);
    if let Some(i) = crate::text::last_dot(extension) {
        assert(extension.contains(extension[i]));
    }
}

/// Names pair up by what comes before their last dot, without regard to the
/// case of the letters `A` to `Z`.
pub proof fn stems_come_before_the_last_dot(stem: Seq<char>, extension: Seq<char>)
    requires
        !extension.contains('.'),
    ensures
        lowered_stem_in(stem.push('.') + extension) is Some,
        lowered_stem_in(stem.push('.') + extension)->0.len() == stem.len(),
        forall|k: int|
            0 <= k < stem.len() ==> #[trigger] lowered_stem_in(stem.push('.') + extension)->0[k] == (if 'A' <= stem[k]
                <= 'Z' {
                (stem[k] as u32 + 32) as char
            } else {
                stem[k]
            }),
        lowered_stem_in(extension) is None,
{
    the_last_dot_is_found(stem, extension);
    let name = stem.push('.') + extension;
    assert forall|k: int| 0 <= k < stem.len() implies #[trigger] lowered_stem_in(name)->0[k] == (if 'A' <= stem[k] <= 'Z' {
        (stem[k] as u32 + 32) as char
    } else {
        stem[k]
    }) by {
        assert(name[k] == stem[k]);
    }
    crate::text_laws::last_dots_are_last(extension);
    if let Some(i) = crate::text::last_dot(extension) {
        assert(extension.contains(extension[i]));
    }
}

/// A name is hidden exactly if it starts with a dot.
pub proof fn hidden_names_start_with_a_dot(name: Seq<char>)
    ensures
        hidden_name(name) <==> name.len() > 0 && name.first() == '.',
{
}

/// The scan reaches a path: it is below the folder, no part of it starts with
/// a dot, and it is in the folder itself unless subfolders are walked too.
pub open spec fn reached(path: Seq<char>, options: ScanOptions) -> bool {
    &&& path.len() == 0 || path[0] != '/'
    &&& forall|i: int| 0 <= i < components(path).len() ==> !((#[trigger] components(path)[i]).len() > 0 && components(path)[i][0] == '.')
    &&& options.recursive || components(path).len() <= 1
}

/// Every RAW file that the scan reaches and whose time and size could be read
/// is described once, with its folder, path, time and size.
pub proof fn reached_files_are_found(
    photos: Seq<PhotoMeta>,
    root: Seq<char>,
    walked: Seq<WalkEntry>,
    options: ScanOptions,
    i: int,
)
    requires
        scanned(photos, root, walked, options),
        0 <= i < walked.len(),
        walked[i].is_file,
        reached(walked[i].rel_path@, options),
        last_name(walked[i].rel_path@) is Some,
        raw_name(last_name(walked[i].rel_path@)->0),
        walked[i].stat is Some,
    ensures
        exists|k: int|
            {
                &&& 0 <= k < photos.len()
                &&& (#[trigger] photos[k]).root@ == root
                &&& photos[k].rel_path@ == walked[i].rel_path@
                &&& walked[i].stat == Some((photos[k].mtime, photos[k].size))
            },
{
    let list = choose|list: Seq<int>| #[trigger] scan_fits(photos, root, walked, options, list);
    lemma_photo(walked, options, i);
    assert(photo_rows(walked, options)(i));
    assert(list.contains(i));
    let k = choose|k: int| 0 <= k < list.len() && list[k] == i;
    assert(meta_fits(photos[k], root, walked, options, list[k]));
    assert(photos[k].root@ == root);
}

proof fn lemma_photo(walked: Seq<WalkEntry>, options: ScanOptions, i: int)
    requires
        0 <= i < walked.len(),
    ensures
        is_photo(walked, options, i) <==> walked[i].is_file && reached(walked[i].rel_path@, options) && last_name(
            walked[i].rel_path@,
        ) is Some && raw_name(last_name(walked[i].rel_path@)->0) && walked[i].stat is Some,
        is_companion(walked, options, i) <==> walked[i].is_file && reached(walked[i].rel_path@, options) && last_name(
            walked[i].rel_path@,
        ) is Some && !raw_name(last_name(walked[i].rel_path@)->0) && jpeg_name(last_name(walked[i].rel_path@)->0),
{
    let path = walked[i].rel_path@;
    assert(crate::scanner::visible(path) <==> forall|c: int|
        0 <= c < components(path).len() ==> !((#[trigger] components(path)[c]).len() > 0 && components(path)[c][0]
            == '.')) by {
        if crate::scanner::visible(path) {
            assert forall|c: int| 0 <= c < components(path).len() implies !((#[trigger] components(path)[c]).len() > 0
                && components(path)[c][0] == '.') by {
                assert(!hidden_name(components(path)[c]));
            }
        }
    }
}

/// Everything that a scan describes is a RAW file that it reached, as it was
/// read there, and no file is described twice.
pub proof fn found_files_were_reached(
    photos: Seq<PhotoMeta>,
    root: Seq<char>,
    walked: Seq<WalkEntry>,
    options: ScanOptions,
    k: int,
)
    requires
        scanned(photos, root, walked, options),
        0 <= k < photos.len(),
    ensures
        photos[k].root@ == root,
        reached(photos[k].rel_path@, options),
        last_name(photos[k].rel_path@) is Some && raw_name(last_name(photos[k].rel_path@)->0),
        exists|i: int|
            0 <= i < walked.len() && (#[trigger] walked[i]).is_file && walked[i].rel_path@ == photos[k].rel_path@
                && walked[i].stat == Some((photos[k].mtime, photos[k].size)),
        photos.len() <= walked.len(),
{
    let list = choose|list: Seq<int>| #[trigger] scan_fits(photos, root, walked, options, list);
    assert(meta_fits(photos[k], root, walked, options, list[k]));
    assert(list.contains(list[k]));
    assert(photo_rows(walked, options)(list[k]));
    lemma_photo(walked, options, list[k]);
    assert(walked[list[k]].is_file);
    assert(list.len() <= walked.len()) by {
        let all = vstd::set_lib::set_int_range(0, walked.len() as int);
        vstd::set_lib::lemma_int_range(0, walked.len() as int);
        assert(list.to_set().subset_of(all)) by {
            assert forall|x: int| list.to_set().contains(x) implies all.contains(x) by {
                assert(list.contains(x));
                assert(photo_rows(walked, options)(x));
            }
        }
        list.unique_seq_to_set();
        vstd::set_lib::lemma_len_subset(list.to_set(), all);
    }
}

/// Where the walk meets no path twice, no two described photos share one.
pub proof fn files_are_found_once(
    photos: Seq<PhotoMeta>,
    root: Seq<char>,
    walked: Seq<WalkEntry>,
    options: ScanOptions,
    a: int,
    b: int,
)
    requires
        scanned(photos, root, walked, options),
        0 <= a < b < photos.len(),
        forall|x: int, y: int|
            0 <= x < y < walked.len() ==> (#[trigger] walked[x]).rel_path@ != (#[trigger] walked[y]).rel_path@,
    ensures
        photos[a].rel_path@ != photos[b].rel_path@,
{
    let list = choose|list: Seq<int>| #[trigger] scan_fits(photos, root, walked, options, list);
    assert(meta_fits(photos[a], root, walked, options, list[a]));
    assert(meta_fits(photos[b], root, walked, options, list[b]));
    assert(list.contains(list[a]) && list.contains(list[b]));
    assert(photo_rows(walked, options)(list[a]) && photo_rows(walked, options)(list[b]));
    assert(list[a] != list[b]);
    if list[a] < list[b] {
        assert(walked[list[a]].rel_path@ != walked[list[b]].rel_path@);
    } else {
        assert(walked[list[b]].rel_path@ != walked[list[a]].rel_path@);
    }
}

/// Two files lie in the same folder and have the same name up to extension and
/// case.
pub open spec fn twins(a: Seq<char>, b: Seq<char>) -> bool {
    &&& components(a).drop_last() == components(b).drop_last()
    &&& lowered_stem_in(components(a).last()) == lowered_stem_in(components(b).last())
}

/// Companions of a photo: the first photo of its name that the walk met in a
/// folder goes with the first JPEG by path of that name there, and with none
/// only if there is none.
pub proof fn photos_go_with_their_jpegs(
    photos: Seq<PhotoMeta>,
    root: Seq<char>,
    walked: Seq<WalkEntry>,
    options: ScanOptions,
    k: int,
    i: int,
    c: int,
)
    requires
        scanned(photos, root, walked, options),
        0 <= k < photos.len(),
        0 <= i < walked.len(),
        walked[i].rel_path@ == photos[k].rel_path@,
        0 <= c < walked.len(),
        walked[c].is_file,
        reached(walked[c].rel_path@, options),
        last_name(walked[c].rel_path@) is Some,
        !raw_name(last_name(walked[c].rel_path@)->0),
        jpeg_name(last_name(walked[c].rel_path@)->0),
        twins(photos[k].rel_path@, walked[c].rel_path@),
        forall|j: int|
            0 <= j < i ==> !(twins(photos[k].rel_path@, (#[trigger] walked[j]).rel_path@) && walked[j].is_file
                && walked[j].stat is Some && last_name(walked[j].rel_path@) is Some && raw_name(
                last_name(walked[j].rel_path@)->0,
            )),
        forall|x: int, y: int|
            0 <= x < y < walked.len() ==> (#[trigger] walked[x]).rel_path@ != (#[trigger] walked[y]).rel_path@,
    ensures
        photos[k].jpeg_rel_path is Some,
        path_le(photos[k].jpeg_rel_path->0@, walked[c].rel_path@),
{
    let list = choose|list: Seq<int>| #[trigger] scan_fits(photos, root, walked, options, list);
    let at = list[k];
    assert(meta_fits(photos[k], root, walked, options, at));
    assert(list.contains(at));
    assert(photo_rows(walked, options)(at));
    assert(at == i) by {
        if at < i {
            assert(walked[at].rel_path@ != walked[i].rel_path@);
        } else if i < at {
            assert(walked[i].rel_path@ != walked[at].rel_path@);
        }
    }
    lemma_photo(walked, options, c);
    assert(candidate(walked, options, i, c));
    assert(comes_first(walked, options, i)) by {
        assert forall|j: int| 0 <= j < i && #[trigger] is_photo(walked, options, j) implies !pairs(
            walked[i].rel_path@,
            walked[j].rel_path@,
        ) by {
            if pairs(walked[i].rel_path@, walked[j].rel_path@) {
                assert(twins(photos[k].rel_path@, walked[j].rel_path@));
            }
        }
    }
}

/// A companion that a scan names is a JPEG that it reached, beside its photo
/// and of its name.
pub proof fn named_companions_exist(
    photos: Seq<PhotoMeta>,
    root: Seq<char>,
    walked: Seq<WalkEntry>,
    options: ScanOptions,
    k: int,
)
    requires
        scanned(photos, root, walked, options),
        0 <= k < photos.len(),
        photos[k].jpeg_rel_path is Some,
    ensures
        exists|c: int|
            0 <= c < walked.len() && (#[trigger] walked[c]).is_file && walked[c].rel_path@
                == photos[k].jpeg_rel_path->0@,
        reached(photos[k].jpeg_rel_path->0@, options),
        last_name(photos[k].jpeg_rel_path->0@) is Some && jpeg_name(last_name(photos[k].jpeg_rel_path->0@)->0)
            && !raw_name(last_name(photos[k].jpeg_rel_path->0@)->0),
        twins(photos[k].rel_path@, photos[k].jpeg_rel_path->0@),
{
    let list = choose|list: Seq<int>| #[trigger] scan_fits(photos, root, walked, options, list);
    let i = list[k];
    assert(meta_fits(photos[k], root, walked, options, i));
    let path = photos[k].jpeg_rel_path->0@;
    let c = choose|c: int| #[trigger] chosen(walked, options, i, c) && walked[c].rel_path@ == path;
    assert(candidate(walked, options, i, c));
    lemma_photo(walked, options, c);
    assert(walked[c].is_file);
}

/// Of several photos of one name in a folder, only the first that the walk met
/// may have a companion.
pub proof fn later_twins_have_no_companion(
    photos: Seq<PhotoMeta>,
    root: Seq<char>,
    walked: Seq<WalkEntry>,
    options: ScanOptions,
    k: int,
    i: int,
    j: int,
)
    requires
        scanned(photos, root, walked, options),
        0 <= k < photos.len(),
        0 <= j < i < walked.len(),
        walked[i].rel_path@ == photos[k].rel_path@,
        forall|x: int, y: int|
            0 <= x < y < walked.len() ==> (#[trigger] walked[x]).rel_path@ != (#[trigger] walked[y]).rel_path@,
        walked[j].is_file,
        walked[j].stat is Some,
        reached(walked[j].rel_path@, options),
        last_name(walked[j].rel_path@) is Some && raw_name(last_name(walked[j].rel_path@)->0),
        twins(walked[i].rel_path@, walked[j].rel_path@),
    ensures
        photos[k].jpeg_rel_path is None,
{
    let list = choose|list: Seq<int>| #[trigger] scan_fits(photos, root, walked, options, list);
    let at = list[k];
    assert(meta_fits(photos[k], root, walked, options, at));
    assert(list.contains(at));
    assert(photo_rows(walked, options)(at));
    assert(at == i) by {
        if at < i {
            assert(walked[at].rel_path@ != walked[i].rel_path@);
        } else if i < at {
            assert(walked[i].rel_path@ != walked[at].rel_path@);
        }
    }
    lemma_photo(walked, options, j);
    assert(is_photo(walked, options, j));
    assert(pairs(walked[i].rel_path@, walked[j].rel_path@));
}

} // verus!
