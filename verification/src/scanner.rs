//! Which files of a folder are photos, and which JPEG goes with which.
//!
//! Walking the folder happens outside and hands over what it met.

use vstd::prelude::*;
use vstd::utf8::{encode_utf8, valid_utf8};

use crate::columns::text_in;
use crate::extract::{is_jpeg, is_jpeg_extension, is_raw, is_supported_extension};
use crate::lookup::{first_position, TextIndex};
use crate::model::{PhotoMeta, ScanOptions};
use crate::order::{arrange, ints, is_listing, lemma_ints_push, tie_by_position, Ranked};
use crate::path::{
    components, last_name, lemma_key_injective, lemma_named_slashless, lemma_pieces_slashless,
    lemma_slashed_push, name_of, nested, path_key, path_le, path_le_reflexive, pieces, slashed,
    slashless, texts, PathKey,
};
use crate::text::{concat, find_last_dot, from_chars, last_dot, push_text, slice_text, to_chars};

verus! {

/// Why a folder could not be scanned.
#[derive(Clone, Debug, PartialEq, Eq)]
pub enum ScanError {
    /// It could not be reached.
    Stat { path: String, reason: String },
    /// It is not a folder.
    NotADirectory(String),
}

/// What a scan error says.
pub open spec fn scan_words(error: ScanError) -> Seq<char> {
    match error {
        ScanError::Stat { path, .. } => "cannot access folder `"@ + path@ + "`"@,
        ScanError::NotADirectory(path) => "root `"@ + path@ + "` is not a directory"@,
    }
}

impl ScanError {
    /// What the error says.
    pub fn message(&self) -> (text: String)
        ensures
            text@ == scan_words(*self),
    {
        match self {
            ScanError::Stat { path, .. } => {
                let head: String = concat("cannot access folder `", path.as_str());
                concat(head.as_str(), "`")
            },
            ScanError::NotADirectory(path) => {
                let head: String = concat("root `", path.as_str());
                concat(head.as_str(), "` is not a directory")
            },
        }
    }
}

/// What was found where the folder should be.
#[derive(Clone, Debug)]
pub enum RootState {
    /// It could not be reached.
    Unreachable(String),
    /// Something else than a folder.
    NotADirectory,
    /// A folder.
    Directory,
}

/// Something that the walk met below the folder.
#[derive(Clone, Debug)]
pub struct WalkEntry {
    /// Path relative to the folder.
    pub rel_path: String,
    /// Whether it is a plain file.
    pub is_file: bool,
    /// Modification time, in nanoseconds since the epoch, and size, if they
    /// could be read.
    pub stat: Option<(i128, u64)>,
}

/// The text of a name given as bytes, with replacement characters where the
/// bytes are no UTF-8.
pub uninterp spec fn lossy_text(bytes: Seq<u8>) -> Seq<char>;

/// `String::from_utf8_lossy` turns bytes into text: UTF-8 is taken as it is,
/// anything else is replaced. The text depends on the bytes alone.
#[verifier::external_body]
fn text_of_bytes(bytes: &Vec<u8>) -> (text: String)
    ensures
        text@ == lossy_text(bytes@),
        valid_utf8(bytes@) ==> encode_utf8(text@) == bytes@,
{
    String::from_utf8_lossy(bytes).into_owned()
}

impl WalkEntry {
    /// Something that the walk met, with its name as the system gives it.
    pub fn read(name: &Vec<u8>, is_file: bool, stat: Option<(i128, u64)>) -> (entry: Self)
        ensures
            entry.rel_path@ == lossy_text(name@),
            valid_utf8(name@) ==> encode_utf8(entry.rel_path@) == name@,
            entry.is_file == is_file,
            entry.stat == stat,
    {
        WalkEntry { rel_path: text_of_bytes(name), is_file, stat }
    }
}

/// A hidden name: it starts with a dot.
pub open spec fn hidden_name(name: Seq<char>) -> bool {
    name.len() > 0 && name[0] == '.'
}

/// Whether a name is hidden.
pub fn is_hidden(name: &str) -> (r: bool)
    ensures
        r == hidden_name(name@),
{
    let chars: Vec<char> = to_chars(name);
    chars.len() > 0 && chars[0] == '.'
}

/// Nothing on the way to a path is hidden.
pub open spec fn visible(path: Seq<char>) -> bool {
    forall|i: int| 0 <= i < components(path).len() ==> !hidden_name(#[trigger] components(path)[i])
}

/// The extension of a file name: what follows its last dot, if anything.
pub open spec fn extension_in(name: Seq<char>) -> Option<Seq<char>> {
    match last_dot(name) {
        Some(i) => if i + 1 < name.len() {
            Some(name.skip(i + 1))
        } else {
            None
        },
        None => None,
    }
}

/// A file name that is worth culling.
pub open spec fn raw_name(name: Seq<char>) -> bool {
    match extension_in(name) {
        Some(extension) => is_raw(encode_utf8(extension)),
        None => false,
    }
}

/// The file name of a companion.
pub open spec fn jpeg_name(name: Seq<char>) -> bool {
    match extension_in(name) {
        Some(extension) => is_jpeg(encode_utf8(extension)),
        None => false,
    }
}

/// A character with the letters `A` to `Z` lowered.
pub open spec fn low(c: char) -> char {
    if 'A' <= c <= 'Z' {
        (c as u32 + 32) as char
    } else {
        c
    }
}

/// A file name without its extension, in lower case; names pair up by it.
pub open spec fn lowered_stem_in(name: Seq<char>) -> Option<Seq<char>> {
    match last_dot(name) {
        Some(i) => Some(Seq::new(i as nat, |k: int| low(name[k]))),
        None => None,
    }
}

/// The extension of a file name.
pub fn extension_of(name: &str) -> (extension: Option<String>)
    ensures
        match extension {
            Some(text) => extension_in(name@) == Some(text@),
            None => extension_in(name@) is None,
        },
{
    let chars: Vec<char> = to_chars(name);
    match find_last_dot(&chars) {
        Some(i) => if i + 1 < chars.len() {
            proof {
                assert(name@.subrange(i + 1, name@.len() as int) =~= name@.skip(i + 1));
            }
            Some(slice_text(&chars, i + 1, chars.len()))
        } else {
            None
        },
        None => None,
    }
}

/// Whether a file name is worth culling.
pub fn has_raw_extension(name: &str) -> (r: bool)
    ensures
        r == raw_name(name@),
{
    match extension_of(name) {
        Some(extension) => is_supported_extension(extension.as_str().as_bytes()),
        None => false,
    }
}

/// Whether a file name is that of a companion.
pub fn has_jpeg_extension(name: &str) -> (r: bool)
    ensures
        r == jpeg_name(name@),
{
    match extension_of(name) {
        Some(extension) => is_jpeg_extension(extension.as_str().as_bytes()),
        None => false,
    }
}

fn lower_char(c: char) -> (l: char)
    ensures
        l == low(c),
{
    if 'A' <= c && c <= 'Z' {
        (c as u8 + 32) as char
    } else {
        c
    }
}

/// A file name without its extension, in lower case.
pub fn lowered_stem(name: &str) -> (stem: Option<Vec<char>>)
    ensures
        match stem {
            Some(text) => lowered_stem_in(name@) == Some(text@),
            None => lowered_stem_in(name@) is None,
        },
{
    let chars: Vec<char> = to_chars(name);
    match find_last_dot(&chars) {
        Some(n) => {
            let mut stem: Vec<char> = Vec::new();
            let mut i: usize = 0;
            while i < n
                invariant
                    i <= n < chars.len(),
                    chars@ == name@,
                    stem@ == Seq::new(i as nat, |k: int| low(name@[k])),
                decreases n - i,
            {
                stem.push(lower_char(chars[i]));
                i = i + 1;
                proof {
                    assert(stem@ =~= Seq::new(i as nat, |k: int| low(name@[k])));
                }
            }
            Some(stem)
        },
        None => None,
    }
}

/// A path that does not start at the root.
pub open spec fn relative(path: Seq<char>) -> bool {
    path.len() == 0 || path[0] != '/'
}

/// A path that the scan looks at: below the folder, not hidden, and in the
/// folder itself unless subfolders are walked too.
pub open spec fn in_scope(path: Seq<char>, options: ScanOptions) -> bool {
    relative(path) && visible(path) && (options.recursive || !nested(path))
}

/// The walk met a photo at position `i`.
pub open spec fn is_photo(walked: Seq<WalkEntry>, options: ScanOptions, i: int) -> bool {
    let entry = walked[i];
    &&& 0 <= i < walked.len()
    &&& entry.is_file
    &&& in_scope(entry.rel_path@, options)
    &&& last_name(entry.rel_path@) matches Some(name) && raw_name(name)
    &&& entry.stat is Some
}

/// The walk met a possible companion at position `i`.
pub open spec fn is_companion(walked: Seq<WalkEntry>, options: ScanOptions, i: int) -> bool {
    let entry = walked[i];
    &&& 0 <= i < walked.len()
    &&& entry.is_file
    &&& in_scope(entry.rel_path@, options)
    &&& last_name(entry.rel_path@) matches Some(name) && !raw_name(name) && jpeg_name(name)
}

/// The positions of the photos.
pub open spec fn photo_rows(walked: Seq<WalkEntry>, options: ScanOptions) -> spec_fn(int) -> bool {
    |i: int| is_photo(walked, options, i)
}

/// The positions of the possible companions.
pub open spec fn companion_rows(walked: Seq<WalkEntry>, options: ScanOptions) -> spec_fn(int) -> bool {
    |i: int| is_companion(walked, options, i)
}

/// Order of what the walk met by path.
pub open spec fn by_path(walked: Seq<WalkEntry>) -> spec_fn(int, int) -> bool {
    |p: int, q: int| path_le(walked[p].rel_path@, walked[q].rel_path@)
}

/// Two files in the same folder whose names differ in extension and case only.
pub open spec fn pairs(a: Seq<char>, b: Seq<char>) -> bool {
    &&& components(a).drop_last() == components(b).drop_last()
    &&& lowered_stem_in(components(a).last()) == lowered_stem_in(components(b).last())
}

/// The file at `c` may go with the photo at `i`.
pub open spec fn candidate(walked: Seq<WalkEntry>, options: ScanOptions, i: int, c: int) -> bool {
    is_companion(walked, options, c) && pairs(walked[i].rel_path@, walked[c].rel_path@)
}

/// The photo at `i` is the first one that its companions could go with.
pub open spec fn comes_first(walked: Seq<WalkEntry>, options: ScanOptions, i: int) -> bool {
    forall|j: int|
        0 <= j < i && #[trigger] is_photo(walked, options, j) ==> !pairs(walked[i].rel_path@, walked[j].rel_path@)
}

/// The file at `c` goes with the photo at `i`: of its candidates the first by
/// path.
pub open spec fn chosen(walked: Seq<WalkEntry>, options: ScanOptions, i: int, c: int) -> bool {
    &&& candidate(walked, options, i, c)
    &&& forall|d: int| #[trigger]
        candidate(walked, options, i, d) ==> path_le(walked[c].rel_path@, walked[d].rel_path@)
}

/// `jpeg` is the companion of the photo at `i`: only the first photo of its
/// name gets one, and it gets one if there is any.
pub open spec fn companion_fits(walked: Seq<WalkEntry>, options: ScanOptions, i: int, jpeg: Option<Seq<char>>) -> bool {
    if comes_first(walked, options, i) {
        match jpeg {
            Some(path) => exists|c: int| #[trigger]
                chosen(walked, options, i, c) && walked[c].rel_path@ == path,
            None => forall|c: int| !#[trigger] candidate(walked, options, i, c),
        }
    } else {
        jpeg is None
    }
}

/// `meta` describes the photo at `i`.
pub open spec fn meta_fits(meta: PhotoMeta, root: Seq<char>, walked: Seq<WalkEntry>, options: ScanOptions, i: int) -> bool {
    &&& meta.root@ == root
    &&& meta.rel_path@ == walked[i].rel_path@
    &&& walked[i].stat == Some((meta.mtime, meta.size))
    &&& companion_fits(walked, options, i, text_in(meta.jpeg_rel_path))
}

/// `photos` are the photos that the walk met, by path.
pub open spec fn scan_fits(
    photos: Seq<PhotoMeta>,
    root: Seq<char>,
    walked: Seq<WalkEntry>,
    options: ScanOptions,
    list: Seq<int>,
) -> bool {
    &&& is_listing(list, photo_rows(walked, options), tie_by_position(by_path(walked)))
    &&& photos.len() == list.len()
    &&& forall|k: int| 0 <= k < list.len() ==> meta_fits(#[trigger] photos[k], root, walked, options, list[k])
}

/// The walk results in these photos.
pub open spec fn scanned(
    photos: Seq<PhotoMeta>,
    root: Seq<char>,
    walked: Seq<WalkEntry>,
    options: ScanOptions,
) -> bool {
    exists|list: Seq<int>| #[trigger] scan_fits(photos, root, walked, options, list)
}

proof fn lemma_components_slashless(path: Seq<char>)
    requires
        relative(path),
    ensures
        slashless(components(path)),
{
    lemma_pieces_slashless(path);
    lemma_named_slashless(pieces(path));
}

/// The key that pairs files up: folder and stem in one text.
pub open spec fn pair_key(path: Seq<char>) -> Seq<char> {
    slashed(components(path).drop_last()) + lowered_stem_in(components(path).last())->0
}

/// A path whose last component has a stem.
pub open spec fn has_stem(path: Seq<char>) -> bool {
    &&& relative(path)
    &&& components(path).len() > 0
    &&& lowered_stem_in(components(path).last()) is Some
}

proof fn lemma_pair_key(a: Seq<char>, b: Seq<char>)
    requires
        has_stem(a),
        has_stem(b),
    ensures
        pair_key(a) == pair_key(b) <==> pairs(a, b),
{
    lemma_components_slashless(a);
    lemma_components_slashless(b);
    let p = components(a).drop_last();
    let q = components(b).drop_last();
    let s = lowered_stem_in(components(a).last())->0;
    let t = lowered_stem_in(components(b).last())->0;
    lemma_stem_slashless(components(a).last());
    lemma_stem_slashless(components(b).last());
    assert(slashless(p)) by {
        assert forall|k: int| 0 <= k < p.len() implies !(#[trigger] p[k]).contains('/') by {
            assert(p[k] == components(a)[k]);
        }
    }
    assert(slashless(q)) by {
        assert forall|k: int| 0 <= k < q.len() implies !(#[trigger] q[k]).contains('/') by {
            assert(q[k] == components(b)[k]);
        }
    }
    if pair_key(a) == pair_key(b) {
        lemma_key_injective(p, s, q, t);
    }
}

proof fn lemma_stem_slashless(name: Seq<char>)
    requires
        !name.contains('/'),
        lowered_stem_in(name) is Some,
    ensures
        !(lowered_stem_in(name)->0).contains('/'),
{
    lemma_last_dot(name);
    let stem = lowered_stem_in(name)->0;
    if stem.contains('/') {
        let k = choose|k: int| 0 <= k < stem.len() && stem[k] == '/';
        assert(stem[k] == low(name[k]));
        assert(name.contains(name[k]));
        assert(low(name[k]) == '/' ==> name[k] == '/');
    }
}

proof fn lemma_last_dot(name: Seq<char>)
    ensures
        last_dot(name) matches Some(i) ==> 0 <= i < name.len(),
    decreases name.len(),
{
    if name.len() > 0 {
        lemma_last_dot(name.drop_last());
    }
}

proof fn lemma_named_has_stem(path: Seq<char>, name: Seq<char>)
    requires
        relative(path),
        last_name(path) == Some(name),
        raw_name(name) || jpeg_name(name),
    ensures
        has_stem(path),
        components(path).last() == name,
{
}

/// Whether the scan looks at a path.
fn path_in_scope(key: &PathKey, path: &str, options: ScanOptions) -> (r: bool)
    requires
        key@ == components(path@),
    ensures
        r == in_scope(path@, options),
{
    let chars: Vec<char> = to_chars(path);
    if chars.len() > 0 && chars[0] == '/' {
        return false;
    }
    proof {
        assert(key@.len() == key.parts.len());
    }
    if !options.recursive && key.parts.len() > 1 {
        return false;
    }
    let mut i: usize = 0;
    while i < key.parts.len()
        invariant
            i <= key.parts.len(),
            key@ == components(path@),
            key@.len() == key.parts.len(),
            forall|k: int| 0 <= k < i ==> !hidden_name(#[trigger] components(path@)[k]),
        decreases key.parts.len() - i,
    {
        proof {
            assert(key@[i as int] == key.parts@[i as int]@);
        }
        if key.parts[i].len() > 0 && key.parts[i][0] == '.' {
            return false;
        }
        i = i + 1;
    }
    true
}

fn pair_key_of(key: &PathKey, path: &str) -> (text: Vec<char>)
    requires
        key@ == components(path@),
        has_stem(path@),
    ensures
        text@ == pair_key(path@),
{
    proof {
        assert(key@.len() == key.parts.len());
    }
    let n: usize = key.parts.len();
    let ghost parents = components(path@).drop_last();
    let mut text: Vec<char> = Vec::new();
    let mut i: usize = 0;
    proof {
        assert(parents.take(0) =~= Seq::<Seq<char>>::empty());
        assert(text@ =~= slashed(parents.take(0)));
    }
    while i + 1 < n
        invariant
            n == key.parts.len(),
            n > 0,
            i < n,
            key@ == components(path@),
            key@.len() == key.parts.len(),
            parents == components(path@).drop_last(),
            text@ == slashed(parents.take(i as int)),
        decreases n - i,
    {
        let part: String = from_chars(&key.parts[i]);
        push_text(&mut text, part.as_str());
        text.push('/');
        proof {
            assert(key@[i as int] == key.parts@[i as int]@);
            assert(parents.take(i + 1) =~= parents.take(i as int).push(parents[i as int]));
            lemma_slashed_push(parents.take(i as int), parents[i as int]);
            assert(text@ =~= slashed(parents.take(i as int)) + parents[i as int].push('/'));
        }
        i = i + 1;
    }
    proof {
        assert(parents.take(i as int) =~= parents);
        assert(key@[n - 1] == key.parts@[n - 1]@);
    }
    let name: String = from_chars(&key.parts[n - 1]);
    match lowered_stem(name.as_str()) {
        Some(stem) => {
            let tail: String = from_chars(&stem);
            push_text(&mut text, tail.as_str());
        },
        None => {},
    }
    text
}

/// What the walk met, sorted out.
struct Finds {
    /// Positions of the photos.
    photos: Vec<usize>,
    /// Their paths.
    photo_paths: Vec<PathKey>,
    /// Their pair keys.
    photo_keys: Vec<Vec<char>>,
    /// Positions of the possible companions.
    jpegs: Vec<usize>,
    /// Their paths.
    jpeg_paths: Vec<PathKey>,
}

impl Finds {
    /// The first `n` of what the walk met are sorted out.
    spec fn covers(self, walked: Seq<WalkEntry>, options: ScanOptions, n: int) -> bool {
        &&& self.photos.len() == self.photo_paths.len()
        &&& self.photos.len() == self.photo_keys.len()
        &&& self.jpegs.len() == self.jpeg_paths.len()
        &&& forall|a: int, b: int| 0 <= a < b < self.photos.len() ==> self.photos@[a] < self.photos@[b]
        &&& forall|a: int, b: int| 0 <= a < b < self.jpegs.len() ==> self.jpegs@[a] < self.jpegs@[b]
        &&& forall|a: int| 0 <= a < self.photos.len() ==> #[trigger] self.photos@[a] < n
        &&& forall|a: int| 0 <= a < self.jpegs.len() ==> #[trigger] self.jpegs@[a] < n
        &&& forall|i: int| #[trigger] ints(self.photos@).contains(i) <==> i < n && is_photo(walked, options, i)
        &&& forall|i: int| #[trigger] ints(self.jpegs@).contains(i) <==> i < n && is_companion(walked, options, i)
        &&& forall|a: int|
            0 <= a < self.photos.len() ==> (#[trigger] self.photo_paths@[a])@ == components(
                walked[self.photos@[a] as int].rel_path@,
            )
        &&& forall|a: int|
            0 <= a < self.photos.len() ==> (#[trigger] self.photo_keys@[a])@ == pair_key(
                walked[self.photos@[a] as int].rel_path@,
            )
        &&& forall|a: int|
            0 <= a < self.jpegs.len() ==> (#[trigger] self.jpeg_paths@[a])@ == components(
                walked[self.jpegs@[a] as int].rel_path@,
            )
    }
}

fn sort_out(walked: &Vec<WalkEntry>, options: ScanOptions) -> (finds: Finds)
    ensures
        finds.covers(walked@, options, walked@.len() as int),
{
    let mut finds = Finds {
        photos: Vec::new(),
        photo_paths: Vec::new(),
        photo_keys: Vec::new(),
        jpegs: Vec::new(),
        jpeg_paths: Vec::new(),
    };
    let mut i: usize = 0;
    while i < walked.len()
        invariant
            i <= walked.len(),
            finds.covers(walked@, options, i as int),
        decreases walked.len() - i,
    {
        let path: &str = walked[i].rel_path.as_str();
        let key: PathKey = path_key(path);
        let ghost photos0 = finds.photos@;
        let ghost jpegs0 = finds.jpegs@;
        if walked[i].is_file && path_in_scope(&key, path, options) {
            match name_of(path) {
                Some(name) => {
                    if has_raw_extension(name.as_str()) {
                        if walked[i].stat.is_some() {
                            proof {
                                lemma_named_has_stem(path@, name@);
                                lemma_ints_push(photos0, i);
                            }
                            let pair: Vec<char> = pair_key_of(&key, path);
                            finds.photos.push(i);
                            finds.photo_paths.push(key);
                            finds.photo_keys.push(pair);
                        }
                    } else if has_jpeg_extension(name.as_str()) {
                        proof {
                            lemma_ints_push(jpegs0, i);
                        }
                        finds.jpegs.push(i);
                        finds.jpeg_paths.push(key);
                    }
                },
                None => {},
            }
        }
        proof {
            assert forall|x: int| #[trigger] ints(finds.photos@).contains(x) <==> x < i + 1 && is_photo(
                walked@,
                options,
                x,
            ) by {
                assert(ints(photos0).contains(x) <==> x < i && is_photo(walked@, options, x));
            }
            assert forall|x: int| #[trigger] ints(finds.jpegs@).contains(x) <==> x < i + 1 && is_companion(
                walked@,
                options,
                x,
            ) by {
                assert(ints(jpegs0).contains(x) <==> x < i && is_companion(walked@, options, x));
            }
        }
        i = i + 1;
    }
    finds
}

/// Possible companions by path, with an index of their pair keys.
struct Companions {
    /// Positions, by path.
    order: Vec<usize>,
    /// Their pair keys.
    index: TextIndex,
}

impl Companions {
    spec fn wf(self, walked: Seq<WalkEntry>, options: ScanOptions) -> bool {
        &&& is_listing(ints(self.order@), companion_rows(walked, options), tie_by_position(by_path(walked)))
        &&& self.index@.len() == self.order@.len()
        &&& forall|a: int|
            0 <= a < self.order@.len() ==> #[trigger] self.index@[a] == pair_key(walked[self.order@[a] as int].rel_path@)
    }
}

proof fn lemma_companion_has_stem(walked: Seq<WalkEntry>, options: ScanOptions, i: int)
    requires
        is_companion(walked, options, i) || is_photo(walked, options, i),
    ensures
        has_stem(walked[i].rel_path@),
{
    let path = walked[i].rel_path@;
    lemma_named_has_stem(path, last_name(path)->0);
}

fn index_companions(walked: &Vec<WalkEntry>, options: ScanOptions, jpegs: &Vec<usize>, paths: &Vec<PathKey>) -> (companions:
    Companions)
    requires
        jpegs.len() == paths.len(),
        forall|a: int, b: int| 0 <= a < b < jpegs.len() ==> jpegs@[a] < jpegs@[b],
        forall|i: int| #[trigger] ints(jpegs@).contains(i) <==> is_companion(walked@, options, i),
        forall|a: int|
            0 <= a < jpegs.len() ==> (#[trigger] paths@[a])@ == components(walked@[jpegs@[a] as int].rel_path@),
    ensures
        companions.wf(walked@, options),
{
    let ghost le = by_path(walked@);
    proof {
        assert forall|a: int, b: int| 0 <= a < jpegs.len() && 0 <= b < jpegs.len() implies #[trigger] paths@[a].rank_le(
            paths@[b],
        ) == le(jpegs@[a] as int, jpegs@[b] as int) by {}
    }
    let order: Vec<usize> = arrange(jpegs, paths, Ghost(le));
    let mut keys: Vec<Vec<char>> = Vec::new();
    let mut k: usize = 0;
    proof {
        assert forall|p: int| #[trigger] ints(order@).contains(p) <==> companion_rows(walked@, options)(p) by {
            assert(ints(jpegs@).contains(p) <==> is_companion(walked@, options, p));
        }
    }
    while k < order.len()
        invariant
            k <= order.len(),
            keys.len() == k,
            forall|p: int| #[trigger] ints(order@).contains(p) <==> companion_rows(walked@, options)(p),
            forall|a: int|
                0 <= a < k ==> (#[trigger] keys@[a])@ == pair_key(walked@[order@[a] as int].rel_path@),
        decreases order.len() - k,
    {
        proof {
            assert(ints(order@)[k as int] == order@[k as int] as int);
            assert(ints(order@).contains(order@[k as int] as int));
            lemma_companion_has_stem(walked@, options, order@[k as int] as int);
        }
        let path: &str = walked[order[k]].rel_path.as_str();
        let key: PathKey = path_key(path);
        keys.push(pair_key_of(&key, path));
        k = k + 1;
    }
    let ghost listed = texts(keys@);
    let index = TextIndex::new(keys);
    proof {
        assert forall|a: int| 0 <= a < order@.len() implies #[trigger] index@[a] == pair_key(
            walked@[order@[a] as int].rel_path@,
        ) by {
            assert(listed[a] == keys@[a]@);
        }
    }
    Companions { order, index }
}

fn companion_of(walked: &Vec<WalkEntry>, options: ScanOptions, companions: &Companions, i: usize, key: &Vec<char>) -> (jpeg:
    Option<usize>)
    requires
        companions.wf(walked@, options),
        is_photo(walked@, options, i as int),
        key@ == pair_key(walked@[i as int].rel_path@),
    ensures
        match jpeg {
            Some(c) => chosen(walked@, options, i as int, c as int),
            None => forall|c: int| !#[trigger] candidate(walked@, options, i as int, c),
        },
{
    let found: Option<usize> = companions.index.find(key);
    proof {
        lemma_companion_has_stem(walked@, options, i as int);
        let list = ints(companions.order@);
        let before = tie_by_position(by_path(walked@));
        assert forall|d: int| #[trigger] candidate(walked@, options, i as int, d) implies exists|a: int|
            0 <= a < list.len() && #[trigger] list[a] == d && companions.index@[a] == key@ by {
            assert(companion_rows(walked@, options)(d));
            assert(list.contains(d));
            let a = choose|a: int| 0 <= a < list.len() && list[a] == d;
            lemma_companion_has_stem(walked@, options, d);
            lemma_pair_key(walked@[i as int].rel_path@, walked@[d].rel_path@);
            assert(companions.index@[a] == pair_key(walked@[companions.order@[a] as int].rel_path@));
        }
        match found {
            Some(x) => {
                let c = list[x as int];
                assert(list.contains(c));
                assert(companion_rows(walked@, options)(c));
                lemma_companion_has_stem(walked@, options, c);
                lemma_pair_key(walked@[i as int].rel_path@, walked@[c].rel_path@);
                assert(companions.index@[x as int] == pair_key(walked@[companions.order@[x as int] as int].rel_path@));
                assert forall|d: int| #[trigger] candidate(walked@, options, i as int, d) implies path_le(
                    walked@[c].rel_path@,
                    walked@[d].rel_path@,
                ) by {
                    let a = choose|a: int|
                        0 <= a < list.len() && #[trigger] list[a] == d && companions.index@[a] == key@;
                    assert(a >= x);
                    if a > x {
                        assert(before(list[x as int], list[a]));
                    } else {
                        path_le_reflexive(walked@[c].rel_path@);
                    }
                }
                assert(chosen(walked@, options, i as int, c));
            },
            None => {
                assert forall|c: int| !#[trigger] candidate(walked@, options, i as int, c) by {
                    if candidate(walked@, options, i as int, c) {
                        let a = choose|a: int|
                            0 <= a < list.len() && #[trigger] list[a] == c && companions.index@[a] == key@;
                        assert(companions.index@[a] == key@);
                    }
                }
            },
        }
    }
    match found {
        Some(x) => Some(companions.order[x]),
        None => None,
    }
}

/// The companion of every photo, by position.
spec fn companions_found(walked: Seq<WalkEntry>, options: ScanOptions, found: Seq<Option<usize>>) -> bool {
    &&& found.len() == walked.len()
    &&& forall|i: int|
        0 <= i < walked.len() && is_photo(walked, options, i) ==> companion_at(walked, options, i, #[trigger] found[i])
}

/// The file at `found`, if any, is the companion of the photo at `i`.
spec fn companion_at(walked: Seq<WalkEntry>, options: ScanOptions, i: int, found: Option<usize>) -> bool {
    if comes_first(walked, options, i) {
        match found {
            Some(c) => chosen(walked, options, i, c as int),
            None => forall|c: int| !#[trigger] candidate(walked, options, i, c),
        }
    } else {
        found is None
    }
}

fn find_companions(walked: &Vec<WalkEntry>, options: ScanOptions, finds: &Finds) -> (found: Vec<Option<usize>>)
    requires
        finds.covers(walked@, options, walked@.len() as int),
    ensures
        companions_found(walked@, options, found@),
{
    proof {
        assert forall|i: int| #[trigger] ints(finds.jpegs@).contains(i) <==> is_companion(walked@, options, i) by {
            assert(ints(finds.jpegs@).contains(i) <==> i < walked@.len() && is_companion(walked@, options, i));
        }
    }
    let companions: Companions = index_companions(walked, options, &finds.jpegs, &finds.jpeg_paths);
    let mut keys: Vec<Vec<char>> = Vec::new();
    let mut k: usize = 0;
    while k < finds.photo_keys.len()
        invariant
            k <= finds.photo_keys.len(),
            keys.len() == k,
            forall|a: int| 0 <= a < k ==> (#[trigger] keys@[a])@ == finds.photo_keys@[a]@,
        decreases finds.photo_keys.len() - k,
    {
        let copy: Vec<char> = finds.photo_keys[k].clone();
        proof {
            assert(copy@ =~= finds.photo_keys@[k as int]@);
        }
        keys.push(copy);
        k = k + 1;
    }
    let ghost listed = texts(keys@);
    proof {
        assert(listed =~= texts(finds.photo_keys@));
    }
    let index = TextIndex::new(keys);
    let mut found: Vec<Option<usize>> = Vec::new();
    let mut i: usize = 0;
    let mut next: usize = 0;
    while i < walked.len()
        invariant
            i <= walked.len(),
            found.len() == i,
            next <= finds.photos.len(),
            forall|a: int| 0 <= a < next ==> #[trigger] finds.photos@[a] < i,
            forall|a: int| next <= a < finds.photos.len() ==> #[trigger] finds.photos@[a] >= i,
            finds.covers(walked@, options, walked@.len() as int),
            companions.wf(walked@, options),
            index@ == texts(finds.photo_keys@),
            forall|x: int|
                0 <= x < i && is_photo(walked@, options, x) ==> companion_at(walked@, options, x, #[trigger] found@[x]),
        decreases walked.len() - i,
    {
        let mut jpeg: Option<usize> = None;
        if next < finds.photos.len() && finds.photos[next] == i {
            proof {
                assert(ints(finds.photos@)[next as int] == i as int);
                assert(ints(finds.photos@).contains(i as int));
                assert(is_photo(walked@, options, i as int));
            }
            let key: &Vec<char> = &finds.photo_keys[next];
            let owner: Option<usize> = index.find(key);
            let first: bool = match owner {
                Some(a) => a == next,
                None => false,
            };
            proof {
                lemma_first(walked@, options, *finds, next as int, owner);
            }
            if first {
                jpeg = companion_of(walked, options, &companions, i, key);
            }
            next = next + 1;
        } else {
            proof {
                if is_photo(walked@, options, i as int) {
                    assert(ints(finds.photos@).contains(i as int));
                    let a = choose|a: int| 0 <= a < finds.photos@.len() && ints(finds.photos@)[a] == i as int;
                    assert(finds.photos@[a] == i);
                    if a > next {
                        assert(finds.photos@[next as int] < finds.photos@[a]);
                    }
                }
            }
        }
        found.push(jpeg);
        i = i + 1;
    }
    found
}

proof fn lemma_first(walked: Seq<WalkEntry>, options: ScanOptions, finds: Finds, k: int, owner: Option<usize>)
    requires
        finds.covers(walked, options, walked.len() as int),
        0 <= k < finds.photos@.len(),
        first_position(texts(finds.photo_keys@), finds.photo_keys@[k]@, owner),
    ensures
        owner is Some,
        owner == Some(k as usize) <==> comes_first(walked, options, finds.photos@[k] as int),
{
    let i = finds.photos@[k] as int;
    let keys = texts(finds.photo_keys@);
    assert(keys[k] == finds.photo_keys@[k]@);
    assert(ints(finds.photos@)[k] == i);
    assert(ints(finds.photos@).contains(i));
    lemma_companion_has_stem(walked, options, i);
    if owner == Some(k as usize) {
        assert forall|j: int| 0 <= j < i && #[trigger] is_photo(walked, options, j) implies !pairs(
            walked[i].rel_path@,
            walked[j].rel_path@,
        ) by {
            assert(ints(finds.photos@).contains(j));
            let a = choose|a: int| 0 <= a < finds.photos@.len() && ints(finds.photos@)[a] == j;
            assert(finds.photos@[a] as int == j);
            if a > k {
                assert(finds.photos@[k] < finds.photos@[a]);
            }
            lemma_companion_has_stem(walked, options, j);
            lemma_pair_key(walked[i].rel_path@, walked[j].rel_path@);
            assert(keys[a] == finds.photo_keys@[a]@);
            assert(keys[a] != finds.photo_keys@[k]@);
        }
    } else {
        let a = owner->0 as int;
        assert(a < k);
        let j = finds.photos@[a] as int;
        assert(finds.photos@[a] < finds.photos@[k]);
        assert(ints(finds.photos@)[a] == j);
        assert(ints(finds.photos@).contains(j));
        lemma_companion_has_stem(walked, options, j);
        lemma_pair_key(walked[i].rel_path@, walked[j].rel_path@);
        assert(keys[a] == finds.photo_keys@[a]@);
        assert(is_photo(walked, options, j));
    }
}

/// Describes the photos that a walk met, by path. Hidden files, files that
/// could not be read and files of other kinds are left out; a JPEG of the same
/// name in the same folder goes with its RAW file.
pub fn scan_folder(root: &String, state: &RootState, walked: &Vec<WalkEntry>, options: ScanOptions) -> (photos: Result<
    Vec<PhotoMeta>,
    ScanError,
>)
    ensures
        match *state {
            RootState::Unreachable(reason) => photos matches Err(ScanError::Stat { path, reason: told }) && path@ == root@
                && told@ == reason@,
            RootState::NotADirectory => photos matches Err(ScanError::NotADirectory(path)) && path@ == root@,
            RootState::Directory => photos matches Ok(list) && scanned(list@, root@, walked@, options),
        },
{
    match state {
        RootState::Unreachable(reason) => {
            return Err(ScanError::Stat { path: root.clone(), reason: reason.clone() });
        },
        RootState::NotADirectory => {
            return Err(ScanError::NotADirectory(root.clone()));
        },
        RootState::Directory => {},
    }
    let finds: Finds = sort_out(walked, options);
    let found: Vec<Option<usize>> = find_companions(walked, options, &finds);
    let ghost le = by_path(walked@);
    proof {
        assert forall|a: int, b: int|
            0 <= a < finds.photos.len() && 0 <= b < finds.photos.len() implies #[trigger] finds.photo_paths@[a].rank_le(
            finds.photo_paths@[b],
        ) == le(finds.photos@[a] as int, finds.photos@[b] as int) by {}
    }
    let order: Vec<usize> = arrange(&finds.photos, &finds.photo_paths, Ghost(le));
    let ghost list = ints(order@);
    proof {
        assert forall|p: int| #[trigger] list.contains(p) <==> photo_rows(walked@, options)(p) by {
            assert(ints(finds.photos@).contains(p) <==> p < walked@.len() && is_photo(walked@, options, p));
        }
    }
    let mut photos: Vec<PhotoMeta> = Vec::new();
    let mut k: usize = 0;
    while k < order.len()
        invariant
            k <= order.len(),
            photos.len() == k,
            list == ints(order@),
            forall|p: int| #[trigger] list.contains(p) <==> photo_rows(walked@, options)(p),
            companions_found(walked@, options, found@),
            forall|a: int| 0 <= a < k ==> meta_fits(#[trigger] photos@[a], root@, walked@, options, list[a]),
        decreases order.len() - k,
    {
        let i: usize = order[k];
        proof {
            assert(list[k as int] == i as int);
            assert(list.contains(i as int));
            assert(photo_rows(walked@, options)(i as int));
            assert(companion_at(walked@, options, i as int, found@[i as int]));
        }
        let (mtime, size) = match walked[i].stat {
            Some((mtime, size)) => (mtime, size),
            None => (0i128, 0u64),
        };
        let jpeg_rel_path: Option<String> = match found[i] {
            Some(c) => {
                proof {
                    assert(chosen(walked@, options, i as int, c as int));
                }
                Some(walked[c].rel_path.clone())
            },
            None => None,
        };
        let meta = PhotoMeta {
            root: root.clone(),
            rel_path: walked[i].rel_path.clone(),
            mtime,
            size,
            jpeg_rel_path,
        };
        proof {
            assert(meta_fits(meta, root@, walked@, options, i as int));
        }
        photos.push(meta);
        k = k + 1;
    }
    proof {
        assert(scan_fits(photos@, root@, walked@, options, list));
    }
    Ok(photos)
}

/// Photos come by path, none of them is hidden, and without recursion all of
/// them are in the folder itself.
pub proof fn scans_are_ordered_and_in_scope(
    photos: Seq<PhotoMeta>,
    root: Seq<char>,
    walked: Seq<WalkEntry>,
    options: ScanOptions,
    a: int,
    b: int,
)
    requires
        scanned(photos, root, walked, options),
        0 <= a <= b < photos.len(),
    ensures
        path_le(photos[a].rel_path@, photos[b].rel_path@),
        visible(photos[a].rel_path@),
        !options.recursive ==> !nested(photos[a].rel_path@),
{
    let list = choose|list: Seq<int>| #[trigger] scan_fits(photos, root, walked, options, list);
    let before = tie_by_position(by_path(walked));
    if a < b {
        assert(before(list[a], list[b]));
    } else {
        path_le_reflexive(photos[a].rel_path@);
    }
    assert(meta_fits(photos[a], root, walked, options, list[a]));
    assert(meta_fits(photos[b], root, walked, options, list[b]));
    assert(list.contains(list[a]));
    assert(photo_rows(walked, options)(list[a]));
}

/// A companion lies in the folder of its photo, and its name differs from the
/// photo's in extension and case only.
pub proof fn companions_are_siblings(
    photos: Seq<PhotoMeta>,
    root: Seq<char>,
    walked: Seq<WalkEntry>,
    options: ScanOptions,
    k: int,
)
    requires
        scanned(photos, root, walked, options),
        0 <= k < photos.len(),
        photos[k].jpeg_rel_path is Some,
    ensures
        pairs(photos[k].rel_path@, photos[k].jpeg_rel_path->0@),
{
    let list = choose|list: Seq<int>| #[trigger] scan_fits(photos, root, walked, options, list);
    assert(meta_fits(photos[k], root, walked, options, list[k]));
    let i = list[k];
    let path = photos[k].jpeg_rel_path->0@;
    let c = choose|c: int| #[trigger] chosen(walked, options, i, c) && walked[c].rel_path@ == path;
    assert(candidate(walked, options, i, c));
}

/// No JPEG goes with two photos, as long as the walk meets no path twice.
pub proof fn companions_are_not_shared(
    photos: Seq<PhotoMeta>,
    root: Seq<char>,
    walked: Seq<WalkEntry>,
    options: ScanOptions,
    k: int,
    l: int,
)
    requires
        scanned(photos, root, walked, options),
        forall|x: int, y: int|
            0 <= x < y < walked.len() ==> (#[trigger] walked[x]).rel_path@ != (#[trigger] walked[y]).rel_path@,
        0 <= k < l < photos.len(),
        photos[k].jpeg_rel_path is Some,
        photos[l].jpeg_rel_path is Some,
    ensures
        photos[k].jpeg_rel_path->0@ != photos[l].jpeg_rel_path->0@,
{
    let list = choose|list: Seq<int>| #[trigger] scan_fits(photos, root, walked, options, list);
    assert(meta_fits(photos[k], root, walked, options, list[k]));
    assert(meta_fits(photos[l], root, walked, options, list[l]));
    let i = list[k];
    let j = list[l];
    assert(list.contains(i) && list.contains(j));
    assert(photo_rows(walked, options)(i) && photo_rows(walked, options)(j));
    let p = photos[k].jpeg_rel_path->0@;
    let q = photos[l].jpeg_rel_path->0@;
    let c = choose|c: int| #[trigger] chosen(walked, options, i, c) && walked[c].rel_path@ == p;
    let d = choose|d: int| #[trigger] chosen(walked, options, j, d) && walked[d].rel_path@ == q;
    assert(candidate(walked, options, i, c));
    assert(candidate(walked, options, j, d));
    if p == q {
        if c < d {
            assert(walked[c].rel_path@ != walked[d].rel_path@);
        }
        if d < c {
            assert(walked[d].rel_path@ != walked[c].rel_path@);
        }
        assert(pairs(walked[i].rel_path@, walked[j].rel_path@));
        assert(pairs(walked[j].rel_path@, walked[i].rel_path@));
        assert(i != j);
        if i < j {
            assert(is_photo(walked, options, i));
        } else {
            assert(is_photo(walked, options, j));
        }
    }
}

} // verus!
