//! The asset cache: where previews and thumbnails live, and which of them are
//! swept away.

use md5::{Digest, Md5};
use vstd::prelude::*;
use vstd::utf8::encode_utf8;

use crate::export::contents;
use crate::path::{join, joined};
use crate::text::{
    concat, decimal, decimal_text, decimals_are_digits, decimals_are_distinct, find_last_dot,
    from_chars, last_dot, push_text, slice_text, str_is, to_chars,
};

verus! {

/// Why the cache could not do its work.
#[derive(Clone, Debug, PartialEq, Eq)]
pub enum CacheError {
    /// The platform has no folder for caches.
    NoCacheDir,
    /// A file could not be written.
    Write { path: String, reason: String },
    /// A folder could not be listed.
    Walk { path: String, reason: String },
}

/// What a cache error says.
pub open spec fn cache_words(error: CacheError) -> Seq<char> {
    match error {
        CacheError::NoCacheDir => "no user cache directory available"@,
        CacheError::Write { path, .. } => "cannot write cache file `"@ + path@ + "`"@,
        CacheError::Walk { path, .. } => "cannot scan cache directory `"@ + path@ + "`"@,
    }
}

impl CacheError {
    /// What the error says.
    pub fn message(&self) -> (text: String)
        ensures
            text@ == cache_words(*self),
    {
        match self {
            CacheError::NoCacheDir => "no user cache directory available".to_owned(),
            CacheError::Write { path, .. } => {
                let head: String = concat("cannot write cache file `", path.as_str());
                concat(head.as_str(), "`")
            },
            CacheError::Walk { path, .. } => {
                let head: String = concat("cannot scan cache directory `", path.as_str());
                concat(head.as_str(), "`")
            },
        }
    }
}

/// The MD5 digest of some bytes.
pub uninterp spec fn md5_digest(data: Seq<u8>) -> Seq<u8>;

/// `Digest::digest` of the `md-5` crate: the MD5 digest of the bytes, which is
/// sixteen bytes long.
#[verifier::external_body]
fn digest_of(data: &Vec<u8>) -> (digest: Vec<u8>)
    ensures
        digest@ == md5_digest(data@),
        digest@.len() == 16,
{
    Md5::digest(data).to_vec()
}

/// The lowest `count` bytes of a number, lowest first.
pub open spec fn low_bytes(n: nat, count: nat) -> Seq<u8>
    decreases count,
{
    if count == 0 {
        Seq::empty()
    } else {
        seq![(n % 256) as u8] + low_bytes(n / 256, (count - 1) as nat)
    }
}

/// The bytes that stand for a photo: folder, path, time and size.
pub open spec fn identity(root: Seq<u8>, rel_path: Seq<u8>, mtime_nanos: u128, size: u64) -> Seq<u8> {
    root + seq![0u8] + rel_path + seq![0u8] + low_bytes(mtime_nanos as nat, 16) + low_bytes(size as nat, 8)
}

/// A hexadecimal digit.
pub open spec fn hex_digit(v: int) -> char {
    if v < 10 {
        (48 + v) as char
    } else {
        (87 + v) as char
    }
}

/// Bytes in hexadecimal digits, two for each.
pub open spec fn hex_text(bytes: Seq<u8>) -> Seq<char>
    decreases bytes.len(),
{
    if bytes.len() == 0 {
        Seq::empty()
    } else {
        hex_text(bytes.drop_last()).push(hex_digit(bytes.last() as int / 16)).push(hex_digit(bytes.last() as int % 16))
    }
}

fn hex_char(v: u8) -> (c: char)
    requires
        v < 16,
    ensures
        c == hex_digit(v as int),
{
    if v < 10 {
        (48 + v) as char
    } else {
        (87 + v) as char
    }
}

fn push_low_bytes(out: &mut Vec<u8>, n: u128, count: usize)
    ensures
        final(out)@ == old(out)@ + low_bytes(n as nat, count as nat),
    decreases count,
{
    proof {
        assert(old(out)@ + Seq::<u8>::empty() =~= old(out)@);
    }
    if count > 0 {
        let ghost before = out@;
        let low: u8 = (n % 256) as u8;
        out.push(low);
        push_low_bytes(out, n / 256, count - 1);
        proof {
            let rest = low_bytes((n / 256) as nat, (count - 1) as nat);
            assert(before.push(low) + rest =~= before + (seq![low] + rest));
        }
    }
}

fn push_bytes(out: &mut Vec<u8>, text: &str)
    ensures
        final(out)@ == old(out)@ + encode_utf8(text@),
{
    let bytes: &[u8] = text.as_bytes();
    let ghost before = out@;
    let mut i: usize = 0;
    proof {
        assert(before + bytes@.take(0) =~= before);
    }
    while i < bytes.len()
        invariant
            i <= bytes.len(),
            out@ == before + bytes@.take(i as int),
        decreases bytes.len() - i,
    {
        out.push(bytes[i]);
        i = i + 1;
        proof {
            assert(out@ =~= before + bytes@.take(i as int));
        }
    }
    proof {
        assert(bytes@.take(i as int) =~= bytes@);
    }
}

/// A file in a cache folder.
#[derive(Debug)]
pub struct CachedFile {
    /// Its name.
    pub name: String,
    /// Whether it is a plain file.
    pub is_file: bool,
}

/// What became of listing a cache folder.
#[derive(Debug)]
pub enum Listing {
    /// The folder does not exist.
    Missing,
    /// It could not be read.
    Unreadable(String),
    /// What it holds, as far as its entries could be read.
    Files(Vec<CachedFile>),
}

/// What a sweep does.
#[derive(Debug)]
pub struct Sweep {
    /// Files to remove, in the order of the listings.
    pub remove: Vec<String>,
    /// The first folder that could not be read.
    pub failure: Option<CacheError>,
}

/// The name ends like that of a JPEG file.
pub open spec fn has_jpeg_end(name: Seq<char>) -> bool {
    ends_with(name, ".jpg"@) || ends_with(name, ".JPG"@)
}

/// A text ends with another.
pub open spec fn ends_with(text: Seq<char>, end: Seq<char>) -> bool {
    text.len() >= end.len() && text.subrange(text.len() - end.len(), text.len() as int) == end
}

/// A file name without its extension: up to the last dot, unless that is at
/// the start.
pub open spec fn stem_of(name: Seq<char>) -> Seq<char> {
    match last_dot(name) {
        Some(i) => if i > 0 {
            name.take(i)
        } else {
            name
        },
        None => name,
    }
}

/// A cached JPEG that nothing refers to.
pub open spec fn is_swept(file: CachedFile, keep: Seq<Seq<char>>) -> bool {
    file.is_file && has_jpeg_end(file.name@) && !keep.contains(stem_of(file.name@))
}

/// The files of a folder that are swept away, among the first `k`.
pub open spec fn swept_files(dir: Seq<char>, files: Seq<CachedFile>, keep: Seq<Seq<char>>, k: int) -> Seq<Seq<char>>
    decreases k,
{
    if k <= 0 {
        Seq::empty()
    } else {
        let before = swept_files(dir, files, keep, k - 1);
        if is_swept(files[k - 1], keep) {
            before.push(joined(dir, files[k - 1].name@))
        } else {
            before
        }
    }
}

/// The files of a listing that are swept away.
pub open spec fn swept_in(dir: Seq<char>, listing: Listing, keep: Seq<Seq<char>>) -> Seq<Seq<char>> {
    match listing {
        Listing::Files(files) => swept_files(dir, files@, keep, files@.len() as int),
        _ => Seq::empty(),
    }
}

/// What is wrong with a listing.
pub open spec fn walk_failure(dir: Seq<char>, listing: Listing, error: Option<CacheError>) -> bool {
    match listing {
        Listing::Unreadable(reason) => error matches Some(CacheError::Walk { path, reason: told }) && path@ == dir
            && told@ == reason@,
        _ => error is None,
    }
}

/// The asset cache under a folder.
#[derive(Clone, Debug)]
pub struct Cache {
    /// The folder.
    pub root: String,
}

impl Cache {
    /// The cache under a folder.
    pub fn new(root: String) -> (cache: Self)
        ensures
            cache.root == root,
    {
        Cache { root }
    }

    /// The cache of this program under the platform's folder for caches.
    pub fn system_default(base: Option<String>) -> (cache: Result<Self, CacheError>)
        ensures
            match base {
                Some(dir) => cache matches Ok(cache) && cache.root@ == joined(dir@, "cullr"@),
                None => cache == Err::<Cache, CacheError>(CacheError::NoCacheDir),
            },
    {
        match base {
            Some(dir) => Ok(Cache::new(join(dir.as_str(), "cullr"))),
            None => Err(CacheError::NoCacheDir),
        }
    }

    /// Folder of the previews.
    pub fn previews_dir(&self) -> (dir: String)
        ensures
            dir@ == joined(self.root@, "previews"@),
    {
        join(self.root.as_str(), "previews")
    }

    /// Folder of the thumbnails.
    pub fn thumbs_dir(&self) -> (dir: String)
        ensures
            dir@ == joined(self.root@, "thumbs"@),
    {
        join(self.root.as_str(), "thumbs")
    }

    /// The key of a photo's assets: the MD5 digest of folder, path, time and
    /// size in hexadecimal digits.
    pub fn asset_hash(root: &str, rel_path: &str, mtime_nanos: u128, size: u64) -> (hash: String)
        ensures
            hash@ == hex_text(md5_digest(identity(encode_utf8(root@), encode_utf8(rel_path@), mtime_nanos, size))),
            hash@.len() == 32,
    {
        let mut data: Vec<u8> = Vec::new();
        push_bytes(&mut data, root);
        data.push(0);
        push_bytes(&mut data, rel_path);
        data.push(0);
        push_low_bytes(&mut data, mtime_nanos, 16);
        push_low_bytes(&mut data, size as u128, 8);
        proof {
            assert(data@ =~= identity(encode_utf8(root@), encode_utf8(rel_path@), mtime_nanos, size));
        }
        let digest: Vec<u8> = digest_of(&data);
        hex_string(&digest)
    }

    /// Where the preview of a key lives.
    pub fn preview_path(&self, hash: &str) -> (path: String)
        ensures
            path@ == joined(joined(self.root@, "previews"@), hash@ + ".jpg"@),
    {
        let dir: String = self.previews_dir();
        let name: String = concat(hash, ".jpg");
        join(dir.as_str(), name.as_str())
    }

    /// Where the thumbnail of a key lives.
    pub fn thumb_path(&self, hash: &str) -> (path: String)
        ensures
            path@ == joined(joined(self.root@, "thumbs"@), hash@ + ".jpg"@),
    {
        let dir: String = self.thumbs_dir();
        let name: String = concat(hash, ".jpg");
        join(dir.as_str(), name.as_str())
    }

    /// Decides a sweep from the listings of both folders: every JPEG whose
    /// name is not a key in `keep` goes. A folder that is missing holds none;
    /// one that cannot be read is reported, and the other is swept all the
    /// same.
    pub fn gc(&self, previews: &Listing, thumbs: &Listing, keep: &Vec<String>) -> (sweep: Sweep)
        ensures
            contents(sweep.remove@) == swept_in(joined(self.root@, "previews"@), *previews, contents(keep@))
                + swept_in(joined(self.root@, "thumbs"@), *thumbs, contents(keep@)),
            if *previews is Unreadable {
                walk_failure(joined(self.root@, "previews"@), *previews, sweep.failure)
            } else {
                walk_failure(joined(self.root@, "thumbs"@), *thumbs, sweep.failure)
            },
    {
        let mut remove: Vec<String> = Vec::new();
        proof {
            assert(contents(remove@) =~= Seq::<Seq<char>>::empty());
        }
        let first: String = self.previews_dir();
        let second: String = self.thumbs_dir();
        let broken: Option<CacheError> = sweep_dir(&first, previews, keep, &mut remove);
        let other: Option<CacheError> = sweep_dir(&second, thumbs, keep, &mut remove);
        proof {
            let a = swept_in(first@, *previews, contents(keep@));
            assert(Seq::<Seq<char>>::empty() + a =~= a);
        }
        let failure: Option<CacheError> = match broken {
            Some(error) => Some(error),
            None => other,
        };
        Sweep { remove, failure }
    }

    /// How a sweep went: the number of files that could be removed, unless a
    /// folder could not be read.
    pub fn gc_outcome(failure: Option<CacheError>, removed: &Vec<bool>) -> (outcome: Result<usize, CacheError>)
        ensures
            match failure {
                Some(error) => outcome == Err::<usize, CacheError>(error),
                None => outcome matches Ok(n) && n == successes(removed@, removed@.len() as int),
            },
    {
        match failure {
            Some(error) => Err(error),
            None => {
                let mut n: usize = 0;
                let mut i: usize = 0;
                while i < removed.len()
                    invariant
                        i <= removed.len(),
                        n == successes(removed@, i as int),
                        n <= i,
                    decreases removed.len() - i,
                {
                    if removed[i] {
                        n = n + 1;
                    }
                    i = i + 1;
                }
                Ok(n)
            },
        }
    }
}

/// How many of the first `k` went well.
pub open spec fn successes(list: Seq<bool>, k: int) -> int
    decreases k,
{
    if k <= 0 {
        0
    } else {
        successes(list, k - 1) + if list[k - 1] {
            1int
        } else {
            0
        }
    }
}

fn hex_string(bytes: &Vec<u8>) -> (text: String)
    requires
        bytes.len() <= 0x1000,
    ensures
        text@ == hex_text(bytes@),
        text@.len() == 2 * bytes@.len(),
{
    let mut out: Vec<char> = Vec::new();
    let mut i: usize = 0;
    proof {
        assert(bytes@.take(0) =~= Seq::<u8>::empty());
        assert(out@ =~= Seq::<char>::empty());
    }
    while i < bytes.len()
        invariant
            i <= bytes.len(),
            out@ == hex_text(bytes@.take(i as int)),
            out@.len() == 2 * i,
        decreases bytes.len() - i,
    {
        out.push(hex_char(bytes[i] / 16));
        out.push(hex_char(bytes[i] % 16));
        proof {
            let next = bytes@.take(i + 1);
            assert(next.drop_last() =~= bytes@.take(i as int));
            assert(next.last() == bytes@[i as int]);
        }
        i = i + 1;
    }
    proof {
        assert(bytes@.take(i as int) =~= bytes@);
    }
    from_chars(&out)
}

/// A file name without its extension.
pub fn file_stem(name: &str) -> (stem: String)
    ensures
        stem@ == stem_of(name@),
{
    let chars: Vec<char> = to_chars(name);
    match find_last_dot(&chars) {
        Some(i) => if i > 0 {
            let stem: String = slice_text(&chars, 0, i);
            proof {
                assert(name@.subrange(0, i as int) =~= name@.take(i as int));
            }
            stem
        } else {
            name.to_owned()
        },
        None => name.to_owned(),
    }
}

fn text_ends_with(text: &Vec<char>, end: &str) -> (r: bool)
    ensures
        r == ends_with(text@, end@),
{
    let tail: Vec<char> = to_chars(end);
    if text.len() < tail.len() {
        return false;
    }
    let found: String = slice_text(text, text.len() - tail.len(), text.len());
    str_is(found.as_str(), end)
}

/// Whether a file name ends like that of a JPEG file.
pub fn has_jpeg_suffix(name: &str) -> (r: bool)
    ensures
        r == has_jpeg_end(name@),
{
    let chars: Vec<char> = to_chars(name);
    text_ends_with(&chars, ".jpg") || text_ends_with(&chars, ".JPG")
}

fn lists_text(list: &Vec<String>, text: &str) -> (r: bool)
    ensures
        r == contents(list@).contains(text@),
{
    let mut i: usize = 0;
    while i < list.len()
        invariant
            i <= list.len(),
            forall|k: int| 0 <= k < i ==> contents(list@)[k] != text@,
        decreases list.len() - i,
    {
        if str_is(list[i].as_str(), text) {
            proof {
                assert(contents(list@)[i as int] == text@);
            }
            return true;
        }
        i = i + 1;
    }
    false
}

fn sweep_dir(dir: &String, listing: &Listing, keep: &Vec<String>, remove: &mut Vec<String>) -> (failure: Option<
    CacheError,
>)
    ensures
        contents(final(remove)@) == contents(old(remove)@) + swept_in(dir@, *listing, contents(keep@)),
        walk_failure(dir@, *listing, failure),
{
    let ghost before = contents(remove@);
    proof {
        assert(before + Seq::<Seq<char>>::empty() =~= before);
    }
    match listing {
        Listing::Missing => None,
        Listing::Unreadable(reason) => Some(CacheError::Walk { path: dir.clone(), reason: reason.clone() }),
        Listing::Files(files) => {
            let mut i: usize = 0;
            while i < files.len()
                invariant
                    i <= files.len(),
                    contents(remove@) == before + swept_files(dir@, files@, contents(keep@), i as int),
                decreases files.len() - i,
            {
                let name: &str = files[i].name.as_str();
                let stem: String = file_stem(name);
                if files[i].is_file && has_jpeg_suffix(name) && !lists_text(keep, stem.as_str()) {
                    let path: String = join(dir.as_str(), name);
                    let ghost so_far = contents(remove@);
                    remove.push(path);
                    proof {
                        assert(contents(remove@) =~= so_far.push(path@));
                        assert(so_far.push(path@) =~= before + swept_files(dir@, files@, contents(keep@), i as int).push(
                            path@,
                        ));
                    }
                }
                i = i + 1;
            }
            None
        },
    }
}

/// A path without slashes and single dots at its end.
pub open spec fn trailing_cut(path: Seq<char>) -> Seq<char>
    decreases path.len(),
{
    if path.len() > 0 && path.last() == '/' {
        trailing_cut(path.drop_last())
    } else if path.len() > 1 && path.last() == '.' && path[path.len() - 2] == '/' {
        trailing_cut(path.drop_last())
    } else {
        path
    }
}

/// Position behind the last slash of a path.
pub open spec fn name_start(path: Seq<char>) -> int
    decreases path.len(),
{
    if path.len() == 0 || path.last() == '/' {
        path.len() as int
    } else {
        name_start(path.drop_last())
    }
}

/// The last component of a path is a name.
pub open spec fn ends_in_name(path: Seq<char>) -> bool {
    let cut = trailing_cut(path);
    let name = cut.skip(name_start(cut));
    name.len() > 0 && name != "."@ && name != ".."@
}

/// A path with the extension of its last component replaced; a path without a
/// name at its end stays.
pub open spec fn with_extension(path: Seq<char>, extension: Seq<char>) -> Seq<char> {
    let cut = trailing_cut(path);
    let start = name_start(cut);
    if ends_in_name(path) {
        cut.take(start) + stem_of(cut.skip(start)) + "."@ + extension
    } else {
        path
    }
}

/// The extension of a temporary file: the process and a serial number.
pub open spec fn temp_extension(process: u32, serial: u64) -> Seq<char> {
    "tmp."@ + decimal(process as nat) + "."@ + decimal(serial as nat)
}

/// The temporary file beside a target that its content is written to first.
pub fn temp_sibling(target: &str, process: u32, serial: u64) -> (path: String)
    ensures
        path@ == with_extension(target@, temp_extension(process, serial)),
{
    let all: Vec<char> = to_chars(target);
    let mut end: usize = all.len();
    proof {
        assert(all@.take(end as int) =~= all@);
    }
    while end > 0 && (all[end - 1] == '/' || (end > 1 && all[end - 1] == '.' && all[end - 2] == '/'))
        invariant
            end <= all.len(),
            trailing_cut(all@) == trailing_cut(all@.take(end as int)),
        decreases end,
    {
        proof {
            let now = all@.take(end as int);
            assert(now.drop_last() =~= all@.take(end - 1));
            assert(now.last() == all@[end - 1]);
        }
        end = end - 1;
    }
    let ghost cut = all@.take(end as int);
    proof {
        if end > 0 {
            assert(cut.last() == all@[end - 1]);
        }
        if end > 1 {
            assert(cut[end - 2] == all@[end - 2]);
        }
    }
    let mut start: usize = end;
    while start > 0 && all[start - 1] != '/'
        invariant
            start <= end <= all.len(),
            name_start(cut) == name_start(all@.take(start as int)),
            cut == all@.take(end as int),
        decreases start,
    {
        proof {
            let now = all@.take(start as int);
            assert(now.drop_last() =~= all@.take(start - 1));
            assert(now.last() == all@[start - 1]);
        }
        start = start - 1;
    }
    proof {
        if start > 0 {
            assert(all@.take(start as int).last() == all@[start - 1]);
        }
        assert(name_start(cut) == start);
        assert(all@.subrange(start as int, end as int) =~= cut.skip(start as int));
        assert(all@.subrange(0, start as int) =~= cut.take(start as int));
    }
    let name: String = slice_text(&all, start, end);
    if start == end || str_is(name.as_str(), ".") || str_is(name.as_str(), "..") {
        return target.to_owned();
    }
    let head: String = slice_text(&all, 0, start);
    let stem: String = file_stem(name.as_str());
    let mut out: Vec<char> = to_chars(head.as_str());
    let number: String = decimal_text(process as u64);
    let count: String = decimal_text(serial);
    push_text(&mut out, stem.as_str());
    push_text(&mut out, ".");
    push_text(&mut out, "tmp.");
    push_text(&mut out, number.as_str());
    push_text(&mut out, ".");
    push_text(&mut out, count.as_str());
    proof {
        assert(out@ =~= with_extension(target@, temp_extension(process, serial)));
    }
    from_chars(&out)
}

/// Temporary files of one target differ whenever the process or the serial
/// number does, so that writers never share one.
pub proof fn temporary_files_are_distinct(target: Seq<char>, process: u32, serial: u64, other: u32, other_serial: u64)
    requires
        ends_in_name(target),
        with_extension(target, temp_extension(process, serial)) == with_extension(
            target,
            temp_extension(other, other_serial),
        ),
    ensures
        process == other,
        serial == other_serial,
{
    let cut = trailing_cut(target);
    let start = name_start(cut);
    let head = cut.take(start) + stem_of(cut.skip(start)) + "."@;
    let x = temp_extension(process, serial);
    let y = temp_extension(other, other_serial);
    assert(head + x == head + y);
    assert(x =~= (head + x).skip(head.len() as int));
    assert(y =~= (head + y).skip(head.len() as int));
    let a = decimal(process as nat);
    let b = decimal(other as nat);
    let s = decimal(serial as nat);
    let t = decimal(other_serial as nat);
    let lead = "tmp."@;
    reveal_strlit(".");
    let dot = '.';
    assert("."@ =~= seq![dot]);
    assert(a + seq![dot] + s =~= x.skip(lead.len() as int));
    assert(b + seq![dot] + t =~= y.skip(lead.len() as int));
    decimals_are_digits(process as nat);
    decimals_are_digits(other as nat);
    let u = a + seq![dot] + s;
    let v = b + seq![dot] + t;
    assert(u == v);
    assert(u[a.len() as int] == dot);
    assert(v[b.len() as int] == dot);
    if a.len() < b.len() {
        assert(v[a.len() as int] == b[a.len() as int]);
    }
    if b.len() < a.len() {
        assert(u[b.len() as int] == a[b.len() as int]);
    }
    assert(a =~= u.take(a.len() as int));
    assert(b =~= v.take(b.len() as int));
    assert(s =~= u.skip(a.len() as int + 1));
    assert(t =~= v.skip(b.len() as int + 1));
    decimals_are_distinct(process as nat, other as nat);
    decimals_are_distinct(serial as nat, other_serial as nat);
}

proof fn lemma_split_at_zero(a: Seq<u8>, x: Seq<u8>, b: Seq<u8>, y: Seq<u8>)
    requires
        !a.contains(0),
        !b.contains(0),
        a + seq![0u8] + x == b + seq![0u8] + y,
    ensures
        a == b,
        x == y,
{
    let s = a + seq![0u8] + x;
    let t = b + seq![0u8] + y;
    assert(s[a.len() as int] == 0);
    assert(t[b.len() as int] == 0);
    if a.len() < b.len() {
        assert(t[a.len() as int] == b[a.len() as int]);
        assert(b.contains(b[a.len() as int]));
    }
    if b.len() < a.len() {
        assert(s[b.len() as int] == a[b.len() as int]);
        assert(a.contains(a[b.len() as int]));
    }
    assert(a =~= s.take(a.len() as int));
    assert(b =~= t.take(b.len() as int));
    assert(x =~= s.skip(a.len() as int + 1));
    assert(y =~= t.skip(b.len() as int + 1));
}

proof fn lemma_low_bytes(n: nat, m: nat, count: nat, limit: nat)
    requires
        n < limit,
        m < limit,
        limit == vstd::arithmetic::power::pow(256, count),
        low_bytes(n, count) == low_bytes(m, count),
    ensures
        n == m,
    decreases count,
{
    reveal(vstd::arithmetic::power::pow);
    if count > 0 {
        let a = low_bytes(n, count);
        let b = low_bytes(m, count);
        let next = vstd::arithmetic::power::pow(256, (count - 1) as nat);
        assert(limit == 256 * next);
        assert(a[0] == (n % 256) as u8);
        assert(b[0] == (m % 256) as u8);
        assert(a.skip(1) =~= low_bytes(n / 256, (count - 1) as nat));
        assert(b.skip(1) =~= low_bytes(m / 256, (count - 1) as nat));
        lemma_low_bytes(n / 256, m / 256, (count - 1) as nat, next as nat);
    } else {
        assert(vstd::arithmetic::power::pow(256, 0) == 1);
    }
}

proof fn lemma_low_bytes_len(n: nat, count: nat)
    ensures
        low_bytes(n, count).len() == count,
    decreases count,
{
    if count > 0 {
        lemma_low_bytes_len(n / 256, (count - 1) as nat);
    }
}

/// Photos that differ in folder, path, time or size differ in the bytes that
/// their key is made from, as long as paths hold no zero byte.
pub proof fn identities_are_distinct(
    root: Seq<u8>,
    rel_path: Seq<u8>,
    mtime: u128,
    size: u64,
    other_root: Seq<u8>,
    other_path: Seq<u8>,
    other_mtime: u128,
    other_size: u64,
)
    requires
        !root.contains(0),
        !rel_path.contains(0),
        !other_root.contains(0),
        !other_path.contains(0),
        identity(root, rel_path, mtime, size) == identity(other_root, other_path, other_mtime, other_size),
    ensures
        root == other_root,
        rel_path == other_path,
        mtime == other_mtime,
        size == other_size,
{
    let t1 = low_bytes(mtime as nat, 16);
    let t2 = low_bytes(other_mtime as nat, 16);
    let s1 = low_bytes(size as nat, 8);
    let s2 = low_bytes(other_size as nat, 8);
    let x = rel_path + seq![0u8] + (t1 + s1);
    let y = other_path + seq![0u8] + (t2 + s2);
    assert(identity(root, rel_path, mtime, size) =~= root + seq![0u8] + x);
    assert(identity(other_root, other_path, other_mtime, other_size) =~= other_root + seq![0u8] + y);
    lemma_split_at_zero(root, x, other_root, y);
    lemma_split_at_zero(rel_path, t1 + s1, other_path, t2 + s2);
    lemma_low_bytes_len(mtime as nat, 16);
    lemma_low_bytes_len(other_mtime as nat, 16);
    assert(t1 =~= (t1 + s1).take(16));
    assert(t2 =~= (t2 + s2).take(16));
    assert(s1 =~= (t1 + s1).skip(16));
    assert(s2 =~= (t2 + s2).skip(16));
    lemma_pow_256();
    lemma_low_bytes(mtime as nat, other_mtime as nat, 16, 0x1_0000_0000_0000_0000_0000_0000_0000_0000nat);
    lemma_low_bytes(size as nat, other_size as nat, 8, 0x1_0000_0000_0000_0000nat);
}

proof fn lemma_pow_256()
    ensures
        vstd::arithmetic::power::pow(256, 8) == 0x1_0000_0000_0000_0000int,
        vstd::arithmetic::power::pow(256, 16) == 0x1_0000_0000_0000_0000_0000_0000_0000_0000int,
{
    reveal_with_fuel(vstd::arithmetic::power::pow, 9);
    assert(vstd::arithmetic::power::pow(256, 8) == 0x1_0000_0000_0000_0000int);
    vstd::arithmetic::power::lemma_pow_adds(256, 8, 8);
}

/// Keys consist of hexadecimal digits in lower case.
pub proof fn keys_are_hexadecimal(bytes: Seq<u8>, i: int)
    requires
        0 <= i < hex_text(bytes).len(),
    ensures
        hex_text(bytes).len() == 2 * bytes.len(),
        '0' <= hex_text(bytes)[i] <= '9' || 'a' <= hex_text(bytes)[i] <= 'f',
    decreases bytes.len(),
{
    lemma_hex_len(bytes);
    if bytes.len() > 0 {
        let head = bytes.drop_last();
        lemma_hex_len(head);
        if i < hex_text(head).len() {
            keys_are_hexadecimal(head, i);
            assert(hex_text(bytes)[i] == hex_text(head)[i]);
        }
    }
}

pub proof fn lemma_hex_len(bytes: Seq<u8>)
    ensures
        hex_text(bytes).len() == 2 * bytes.len(),
    decreases bytes.len(),
{
    if bytes.len() > 0 {
        lemma_hex_len(bytes.drop_last());
    }
}

/// A file is one of the first `k` of a folder and goes in a sweep.
pub open spec fn goes(dir: Seq<char>, files: Seq<CachedFile>, keep: Seq<Seq<char>>, k: int, path: Seq<char>) -> bool {
    exists|i: int| 0 <= i < k && is_swept(#[trigger] files[i], keep) && path == joined(dir, files[i].name@)
}

/// A sweep takes exactly the JPEG files whose names are not keys to keep.
pub proof fn sweep_takes_exactly_the_orphans(
    dir: Seq<char>,
    files: Seq<CachedFile>,
    keep: Seq<Seq<char>>,
    k: int,
    path: Seq<char>,
)
    requires
        0 <= k <= files.len(),
    ensures
        swept_files(dir, files, keep, k).contains(path) <==> goes(dir, files, keep, k, path),
    decreases k,
{
    if k > 0 {
        sweep_takes_exactly_the_orphans(dir, files, keep, k - 1, path);
        let before = swept_files(dir, files, keep, k - 1);
        crate::order::lemma_push_contains(before, joined(dir, files[k - 1].name@));
        if goes(dir, files, keep, k - 1, path) {
            let i = choose|i: int|
                0 <= i < k - 1 && is_swept(#[trigger] files[i], keep) && path == joined(dir, files[i].name@);
            assert(is_swept(files[i], keep));
        }
        if goes(dir, files, keep, k, path) {
            let i = choose|i: int|
                0 <= i < k && is_swept(#[trigger] files[i], keep) && path == joined(dir, files[i].name@);
            assert(is_swept(files[i], keep));
        }
    }
}

} // verus!
