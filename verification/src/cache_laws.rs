//! What the names in the cache are, and what a sweep takes.

use vstd::prelude::*;

use crate::cache::{
    has_jpeg_end, hex_digit, hex_text, identity, low_bytes, name_start, stem_of, successes,
    swept_files, swept_in, temp_extension, trailing_cut, walk_failure, with_extension, CachedFile,
    CacheError, Listing,
};
use crate::path::joined;
use crate::text::decimal;
use crate::text_laws::the_last_dot_is_found;

verus! {

/// The stem of a name is what comes before its last dot, unless that is the
/// first character.
pub proof fn stems_lose_the_extension(stem: Seq<char>, extension: Seq<char>)
    requires
        !extension.contains('.'),
    ensures
        stem.len() > 0 ==> stem_of(stem.push('.') + extension) == stem,
        stem.len() == 0 ==> stem_of(stem.push('.') + extension) == stem.push('.') + extension,
        stem_of(extension) == extension,
{
    the_last_dot_is_found(stem, extension);
    let name = stem.push('.') + extension;
    assert(name.take(stem.len() as int) =~= stem);
    crate::text_laws::last_dots_are_last(extension);
    if let Some(i) = crate::text::last_dot(extension) {
        assert(extension.contains(extension[i]));
    }
}

/// A cached picture ends in `.jpg` or `.JPG`.
pub proof fn cached_pictures_end_in_jpg(name: Seq<char>)
    ensures
        has_jpeg_end(name) <==> name.len() >= 4 && {
            let n = name.len();
            &&& name[n - 4] == '.'
            &&& {
                ||| name[n - 3] == 'j' && name[n - 2] == 'p' && name[n - 1] == 'g'
                ||| name[n - 3] == 'J' && name[n - 2] == 'P' && name[n - 1] == 'G'
            }
        },
{
    reveal_strlit(".jpg");
    reveal_strlit(".JPG");
    if name.len() >= 4 {
        let end = name.subrange(name.len() - 4, name.len() as int);
        let n = name.len();
        assert(end[0] == name[n - 4] && end[1] == name[n - 3] && end[2] == name[n - 2] && end[3] == name[n - 1]);
        assert(end == ".jpg"@ <==> end[0] == '.' && end[1] == 'j' && end[2] == 'p' && end[3] == 'g') by {
            if end[0] == '.' && end[1] == 'j' && end[2] == 'p' && end[3] == 'g' {
                assert(end =~= ".jpg"@);
            }
        }
        assert(end == ".JPG"@ <==> end[0] == '.' && end[1] == 'J' && end[2] == 'P' && end[3] == 'G') by {
            if end[0] == '.' && end[1] == 'J' && end[2] == 'P' && end[3] == 'G' {
                assert(end =~= ".JPG"@);
            }
        }
    }
}

/// The picture of a key to keep stays, and that of any other key goes.
pub proof fn sweeps_spare_the_keys(dir: Seq<char>, files: Seq<CachedFile>, keep: Seq<Seq<char>>, i: int, key: Seq<char>)
    requires
        0 <= i < files.len(),
        files[i].is_file,
        key.len() > 0,
        files[i].name@ == key + ".jpg"@,
        forall|j: int| 0 <= j < files.len() && j != i ==> joined(dir, (#[trigger] files[j]).name@) != joined(dir, files[i].name@),
    ensures
        keep.contains(key) ==> !swept_files(dir, files, keep, files.len() as int).contains(joined(dir, key + ".jpg"@)),
        !keep.contains(key) ==> swept_files(dir, files, keep, files.len() as int).contains(joined(dir, key + ".jpg"@)),
{
    reveal_strlit(".jpg");
    let end = seq!['j', 'p', 'g'];
    let name = files[i].name@;
    assert(name =~= key.push('.') + end);
    assert(!end.contains('.'));
    stems_lose_the_extension(key, end);
    cached_pictures_end_in_jpg(name);
    crate::cache::sweep_takes_exactly_the_orphans(dir, files, keep, files.len() as int, joined(dir, name));
    assert(crate::cache::is_swept(files[i], keep) == !keep.contains(key));
}

/// A sweep takes plain files that end like a picture, and nothing else.
pub proof fn sweeps_take_pictures_only(dir: Seq<char>, files: Seq<CachedFile>, keep: Seq<Seq<char>>, path: Seq<char>)
    requires
        swept_files(dir, files, keep, files.len() as int).contains(path),
    ensures
        exists|i: int|
            {
                &&& 0 <= i < files.len()
                &&& (#[trigger] files[i]).is_file
                &&& has_jpeg_end(files[i].name@)
                &&& !keep.contains(stem_of(files[i].name@))
                &&& path == joined(dir, files[i].name@)
            },
        swept_files(dir, files, keep, files.len() as int).len() <= files.len(),
{
    crate::cache::sweep_takes_exactly_the_orphans(dir, files, keep, files.len() as int, path);
    let i = choose|i: int|
        0 <= i < files.len() && crate::cache::is_swept(#[trigger] files[i], keep) && path == joined(dir, files[i].name@);
    assert(files[i].is_file);
    lemma_swept_len(dir, files, keep, files.len() as int);
}

proof fn lemma_swept_len(dir: Seq<char>, files: Seq<CachedFile>, keep: Seq<Seq<char>>, k: int)
    requires
        0 <= k <= files.len(),
    ensures
        swept_files(dir, files, keep, k).len() <= k,
    decreases k,
{
    if k > 0 {
        lemma_swept_len(dir, files, keep, k - 1);
    }
}

/// A folder that is missing or cannot be read loses nothing; only the latter
/// is a failure, which names the folder and the reason.
pub proof fn unlisted_folders_lose_nothing(dir: Seq<char>, listing: Listing, keep: Seq<Seq<char>>, error: Option<CacheError>)
    requires
        walk_failure(dir, listing, error),
    ensures
        !(listing is Files) ==> swept_in(dir, listing, keep).len() == 0,
        error is Some <==> listing is Unreadable,
        listing matches Listing::Unreadable(reason) ==> (error matches Some(CacheError::Walk { path, reason: told })
            && path@ == dir && told@ == reason@),
        listing matches Listing::Files(files) ==> swept_in(dir, listing, keep) == swept_files(
            dir,
            files@,
            keep,
            files@.len() as int,
        ),
{
}

/// A sweep counts the files that could be removed.
pub proof fn sweeps_count_what_went(list: Seq<bool>, k: int)
    requires
        0 <= k <= list.len(),
    ensures
        successes(list, k) == Set::new(|i: int| 0 <= i < k && list[i]).len(),
        Set::new(|i: int| 0 <= i < k && list[i]).finite(),
    decreases k,
{
    let went = Set::new(|i: int| 0 <= i < k && list[i]);
    if k == 0 {
        assert(went =~= Set::<int>::empty());
    } else {
        sweeps_count_what_went(list, k - 1);
        let before = Set::new(|i: int| 0 <= i < k - 1 && list[i]);
        if list[k - 1] {
            assert(went =~= before.insert(k - 1));
        } else {
            assert(went =~= before);
        }
    }
}

/// A temporary file stands beside its target: its name is that of the target
/// without its extension, `tmp`, the process and the serial number.
pub proof fn temporary_files_stand_beside_the_target(
    folder: Seq<char>,
    stem: Seq<char>,
    extension: Seq<char>,
    process: u32,
    serial: u64,
)
    requires
        stem.len() > 0,
        !stem.contains('/'),
        stem != seq!['.'],
        extension.len() > 0,
        !extension.contains('/'),
        !extension.contains('.'),
    ensures
        with_extension(folder.push('/') + (stem.push('.') + extension), temp_extension(process, serial)) == folder.push('/')
            + stem + ".tmp."@ + decimal(process as nat) + "."@ + decimal(serial as nat),
{
    let name = stem.push('.') + extension;
    let path = folder.push('/') + name;
    assert(extension.contains(extension.last()));
    assert(path.last() == extension.last());
    assert(trailing_cut(path) == path);
    lemma_name_start(folder, name);
    let start = folder.len() as int + 1;
    assert(path.skip(start) =~= name);
    assert(path.take(start) =~= folder.push('/'));
    stems_lose_the_extension(stem, extension);
    reveal_strlit(".");
    reveal_strlit("..");
    reveal_strlit("tmp.");
    reveal_strlit(".tmp.");
    assert(name.len() >= 3);
    let tail = decimal(process as nat) + "."@ + decimal(serial as nat);
    assert("."@ + "tmp."@ =~= ".tmp."@);
    let head = folder.push('/') + stem;
    assert(head + "."@ + ("tmp."@ + decimal(process as nat) + "."@ + decimal(serial as nat)) =~= head + ".tmp."@ + decimal(
        process as nat,
    ) + "."@ + decimal(serial as nat));
}

proof fn lemma_name_start(folder: Seq<char>, name: Seq<char>)
    requires
        !name.contains('/'),
    ensures
        name_start(folder.push('/') + name) == folder.len() + 1,
    decreases name.len(),
{
    let path = folder.push('/') + name;
    if name.len() > 0 {
        let head = name.drop_last();
        assert(!head.contains('/')) by {
            if head.contains('/') {
                let k = choose|k: int| 0 <= k < head.len() && head[k] == '/';
                assert(name[k] == '/');
                assert(name.contains('/'));
            }
        }
        assert(name.contains(name.last()));
        lemma_name_start(folder, head);
        assert(path.drop_last() =~= folder.push('/') + head);
    } else {
        assert(path =~= folder.push('/'));
    }
}

/// The bytes behind a key are the folder, a zero byte, the path, a zero byte,
/// and time and size with the lowest byte first.
pub proof fn identities_are_laid_out(root: Seq<u8>, path: Seq<u8>, mtime: u128, size: u64, k: int)
    ensures
        ({
            let bytes = identity(root, path, mtime, size);
            let n = root.len() + 1 + path.len() + 1;
            &&& bytes.len() == n + 24
            &&& bytes.take(root.len() as int) == root
            &&& bytes[root.len() as int] == 0
            &&& bytes.subrange(root.len() as int + 1, root.len() as int + 1 + path.len()) == path
            &&& bytes[n - 1] == 0
            &&& 0 <= k < 16 ==> bytes[n + k] == low_bytes(mtime as nat, 16)[k]
            &&& 0 <= k < 8 ==> bytes[n + 16 + k] == low_bytes(size as nat, 8)[k]
        }),
{
    lowest_bytes_come_first(mtime as nat, 16);
    lowest_bytes_come_first(size as nat, 8);
    let bytes = identity(root, path, mtime, size);
    assert(bytes.take(root.len() as int) =~= root);
    assert(bytes.subrange(root.len() as int + 1, root.len() as int + 1 + path.len()) =~= path);
}

/// The bytes of a number come lowest first: the first is its remainder by 256,
/// and the others are those of the rest.
pub proof fn lowest_bytes_come_first(n: nat, count: nat)
    ensures
        low_bytes(n, count).len() == count,
        count > 0 ==> low_bytes(n, count)[0] == n % 256,
        forall|k: int|
            0 < k < count ==> #[trigger] low_bytes(n, count)[k] == low_bytes(n / 256, (count - 1) as nat)[k - 1],
    decreases count,
{
    if count > 0 {
        lowest_bytes_come_first(n / 256, (count - 1) as nat);
    }
}

/// Every byte of a digest is written with two digits, the higher one first.
pub proof fn bytes_are_two_digits(bytes: Seq<u8>, i: int)
    requires
        0 <= i < bytes.len(),
    ensures
        hex_text(bytes).len() == 2 * bytes.len(),
        digit_value(hex_text(bytes)[2 * i]) * 16 + digit_value(hex_text(bytes)[2 * i + 1]) == bytes[i],
    decreases bytes.len(),
{
    let head = bytes.drop_last();
    crate::cache::lemma_hex_len(bytes);
    crate::cache::lemma_hex_len(head);
    if i < head.len() {
        bytes_are_two_digits(head, i);
        assert(hex_text(bytes)[2 * i] == hex_text(head)[2 * i]);
        assert(hex_text(bytes)[2 * i + 1] == hex_text(head)[2 * i + 1]);
    } else {
        let b = bytes.last() as int;
        assert(hex_text(bytes)[2 * i] == hex_digit(b / 16));
        assert(hex_text(bytes)[2 * i + 1] == hex_digit(b % 16));
    }
}

/// The number that a hexadecimal digit in lower case stands for.
pub open spec fn digit_value(c: char) -> int {
    if '0' <= c <= '9' {
        c as int - '0' as int
    } else {
        c as int - 'a' as int + 10
    }
}

} // verus!
