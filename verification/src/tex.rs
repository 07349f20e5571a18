//! Which textures live on the GPU, which are being decoded, and which go.
//!
//! Decoding and uploading happen elsewhere: [`Textures::handle`],
//! [`Textures::prefetch`] and [`Textures::focus`] say what to decode,
//! [`Textures::sync`] takes in what was decoded and says what to upload and
//! what to drop. Every request carries the focus epoch it was made in, so a
//! decoder can skip work for cells that scrolled away. A slot remembers which
//! file and rotation it was made from; anything else is stale.

use std::collections::VecDeque;

use vstd::prelude::*;

use crate::keymap::{accepted, key_le, keys_distinct, lemma_map_of, KeyMap, TexKey};
use crate::model::PhotoId;
use crate::order::{comes_before, is_sorted_order, sorted_order, Ranked};
use crate::path::{components, same_path};

verus! {

/// Most bytes that live textures may take.
pub const BYTE_BUDGET: usize = 536_870_912;

/// Most uploads in one frame.
pub const MAX_UPLOADS_PER_FRAME: u32 = 6;

/// Most decoded pictures that wait for an upload.
pub const READY_CAP: usize = 96;

/// Prefetching pauses at this many outstanding decodes.
pub const PREFETCH_PENDING_CAP: usize = 256;

/// How a stored picture is turned for display: the EXIF flag first, then the
/// user's quarter turns.
#[derive(Copy, Clone, Debug, PartialEq, Eq, Structural)]
pub struct Rotation {
    /// EXIF orientation flag.
    pub exif: u16,
    /// Quarter turns clockwise.
    pub cw_turns: u8,
}

impl Rotation {
    /// No turning at all.
    pub fn upright() -> (rotation: Self)
        ensures
            rotation == (Rotation { exif: 1, cw_turns: 0 }),
    {
        Rotation { exif: 1, cw_turns: 0 }
    }

    /// The turning of one photo; turns wrap into `0..4`.
    pub fn new(exif: u16, cw_turns: u8) -> (rotation: Self)
        ensures
            rotation.exif == exif,
            rotation.cw_turns == cw_turns % 4,
    {
        Rotation { exif, cw_turns: cw_turns % 4 }
    }
}

impl Default for Rotation {
    fn default() -> (rotation: Self)
        ensures
            rotation == (Rotation { exif: 1, cw_turns: 0 }),
    {
        Rotation::upright()
    }
}

/// Sizes that bound the cache.
#[derive(Copy, Clone, Debug, PartialEq, Eq, Structural)]
pub struct Limits {
    /// Most bytes of live textures.
    pub byte_budget: usize,
    /// Most uploads in one frame.
    pub max_uploads: u32,
    /// Most pictures waiting for an upload.
    pub ready_cap: usize,
    /// Outstanding decodes at which prefetching pauses.
    pub prefetch_pending_cap: usize,
}

impl Default for Limits {
    fn default() -> (limits: Self)
        ensures
            limits.byte_budget == BYTE_BUDGET,
            limits.max_uploads == MAX_UPLOADS_PER_FRAME,
            limits.ready_cap == READY_CAP,
            limits.prefetch_pending_cap == PREFETCH_PENDING_CAP,
    {
        Limits {
            byte_budget: BYTE_BUDGET,
            max_uploads: MAX_UPLOADS_PER_FRAME,
            ready_cap: READY_CAP,
            prefetch_pending_cap: PREFETCH_PENDING_CAP,
        }
    }
}

impl Limits {
    /// Level that an overflow is evicted down to: three quarters of the
    /// budget.
    pub open spec fn target(self) -> int {
        self.byte_budget * 3 / 4
    }

    /// Computes [`Limits::target`].
    pub fn evict_target(&self) -> (target: u128)
        ensures
            target == self.target(),
            target <= self.byte_budget,
    {
        self.byte_budget as u128 * 3 / 4
    }
}

/// What a cell can paint.
#[derive(Copy, Clone, Debug, PartialEq, Eq, Structural)]
pub enum TextureState {
    /// The texture of the key is live.
    Ready,
    /// A decode is queued or under way.
    Loading,
    /// The file could not be decoded.
    Broken,
}

/// A live texture.
#[derive(Debug, PartialEq, Eq)]
pub struct Slot {
    /// File it was decoded from.
    pub path: String,
    /// Turning it was decoded with.
    pub rotation: Rotation,
    /// Bytes it takes.
    pub bytes: u128,
    /// Frame it was last asked for.
    pub last_used: u64,
}

/// A decode that was asked for and not yet taken in.
#[derive(Debug, PartialEq, Eq)]
pub struct Pending {
    /// File to decode.
    pub path: String,
    /// Turning to apply.
    pub rotation: Rotation,
    /// Focus epoch of the request.
    pub ticket: u64,
}

/// Work for a decoder.
#[derive(Debug, PartialEq, Eq)]
pub struct Job {
    /// Texture the result is for.
    pub key: TexKey,
    /// File to decode.
    pub path: String,
    /// Turning to apply.
    pub rotation: Rotation,
    /// Focus epoch of the request.
    pub ticket: u64,
}

/// A decoded picture; `pixels` are whatever the uploader takes.
#[derive(Debug, PartialEq, Eq)]
pub struct Picture<I> {
    /// Width in pixels.
    pub width: u32,
    /// Height in pixels.
    pub height: u32,
    /// The pixels.
    pub pixels: I,
}

/// What a decoder made of a job.
#[derive(Debug, PartialEq, Eq)]
pub struct Decoded<I> {
    /// Texture the result is for.
    pub key: TexKey,
    /// File that was decoded.
    pub path: String,
    /// Turning that was applied.
    pub rotation: Rotation,
    /// The picture, or why there is none.
    pub image: Result<Picture<I>, String>,
}

/// A picture that is to be uploaded now.
#[derive(Debug, PartialEq, Eq)]
pub struct Upload<I> {
    /// Texture to upload it as.
    pub key: TexKey,
    /// The picture.
    pub picture: Picture<I>,
}

/// What a frame has to do on the GPU.
#[derive(Debug, PartialEq, Eq)]
pub struct FrameWork<I> {
    /// Pictures to upload, in order.
    pub uploads: Vec<Upload<I>>,
    /// Textures to drop afterwards, in order.
    pub evicted: Vec<TexKey>,
}

/// A file that could not be decoded.
#[derive(Debug, PartialEq, Eq)]
pub struct BrokenFile {
    /// The file.
    pub path: String,
    /// Turning it was asked for with.
    pub rotation: Rotation,
}

/// A texture worth fetching ahead of time; `None` if there is no file yet.
#[derive(Debug, PartialEq, Eq)]
pub struct Request {
    /// The texture.
    pub key: TexKey,
    /// Its file and turning.
    pub source: Option<(String, Rotation)>,
}

/// The texture cache.
pub struct Textures<I> {
    /// Live textures.
    pub slots: KeyMap<Slot>,
    /// Decodes under way.
    pub pending: KeyMap<Pending>,
    /// Pictures waiting for an upload, oldest first.
    pub ready: VecDeque<Decoded<I>>,
    /// Files that could not be decoded.
    pub broken: KeyMap<BrokenFile>,
    /// Focus epoch.
    pub epoch: u64,
    /// What was on screen at the last focus change.
    pub last_focus: Vec<TexKey>,
    /// Bounds.
    pub limits: Limits,
    /// Frame count.
    pub frame: u64,
    /// Bytes of all live textures.
    pub bytes: u128,
}

/// Bytes of a picture on the GPU.
pub open spec fn picture_bytes<I>(picture: Picture<I>) -> int {
    picture.width * picture.height * 4
}

/// Bytes of all listed slots.
pub open spec fn total(entries: Seq<(TexKey, Slot)>) -> int
    decreases entries.len(),
{
    if entries.len() == 0 {
        0
    } else {
        total(entries.drop_last()) + entries.last().1.bytes
    }
}

proof fn lemma_total_nonneg(entries: Seq<(TexKey, Slot)>)
    ensures
        total(entries) >= 0,
    decreases entries.len(),
{
    if entries.len() > 0 {
        lemma_total_nonneg(entries.drop_last());
    }
}

proof fn lemma_total_remove(entries: Seq<(TexKey, Slot)>, i: int)
    requires
        0 <= i < entries.len(),
    ensures
        total(entries.remove(i)) == total(entries) - entries[i].1.bytes,
        entries[i].1.bytes <= total(entries),
    decreases entries.len(),
{
    lemma_total_nonneg(entries.remove(i));
    if i == entries.len() - 1 {
        assert(entries.remove(i) =~= entries.drop_last());
    } else {
        lemma_total_remove(entries.drop_last(), i);
        assert(entries.remove(i).drop_last() =~= entries.drop_last().remove(i));
        assert(entries.remove(i).last() == entries.last());
    }
}

proof fn lemma_total_update(entries: Seq<(TexKey, Slot)>, i: int, key: TexKey, slot: Slot)
    requires
        0 <= i < entries.len(),
        slot.bytes == entries[i].1.bytes,
    ensures
        total(entries.update(i, (key, slot))) == total(entries),
    decreases entries.len(),
{
    let after = entries.update(i, (key, slot));
    if i == entries.len() - 1 {
        assert(after.drop_last() =~= entries.drop_last());
    } else {
        lemma_total_update(entries.drop_last(), i, key, slot);
        assert(after.drop_last() =~= entries.drop_last().update(i, (key, slot)));
    }
}

/// A result answers what is being waited for.
pub open spec fn wanted<I>(pending: Map<TexKey, Pending>, d: Decoded<I>) -> bool {
    &&& pending.contains_key(d.key)
    &&& components(pending[d.key].path@) == components(d.path@)
    &&& pending[d.key].rotation == d.rotation
}

/// The results that answer what is being waited for.
pub open spec fn answers<I>(pending: Map<TexKey, Pending>) -> spec_fn(Decoded<I>) -> bool {
    |d: Decoded<I>| wanted(pending, d)
}

/// The backlog cut to `cap`: the oldest results go, and the requests they
/// answered are forgotten so that they can be made again.
pub open spec fn shed<I>(pending: Map<TexKey, Pending>, ready: Seq<Decoded<I>>, cap: int) -> (
    Map<TexKey, Pending>,
    Seq<Decoded<I>>,
)
    decreases ready.len(),
{
    if ready.len() <= cap || ready.len() == 0 {
        (pending, ready)
    } else {
        shed(
            if wanted(pending, ready[0]) {
                pending.remove(ready[0].key)
            } else {
                pending
            },
            ready.skip(1),
            cap,
        )
    }
}

/// The cache while a frame's uploads are picked.
pub struct Stage<I> {
    /// Decodes under way.
    pub pending: Map<TexKey, Pending>,
    /// Pictures waiting.
    pub ready: Seq<Decoded<I>>,
    /// Live textures.
    pub slots: Map<TexKey, Slot>,
    /// Files that could not be decoded.
    pub broken: Map<TexKey, BrokenFile>,
    /// Picked so far.
    pub uploads: Seq<Upload<I>>,
}

/// The stage after the oldest waiting result was dealt with: a superseded
/// one is dropped, a picture becomes a live texture, a failure is noted.
pub open spec fn pick_one<I>(stage: Stage<I>, frame: u64) -> Stage<I> {
    let d = stage.ready[0];
    let rest = stage.ready.skip(1);
    if !wanted(stage.pending, d) {
        Stage { ready: rest, ..stage }
    } else {
        match d.image {
            Ok(picture) => Stage {
                ready: rest,
                pending: stage.pending.remove(d.key),
                slots: stage.slots.insert(
                    d.key,
                    Slot {
                        path: d.path,
                        rotation: d.rotation,
                        bytes: picture_bytes(picture) as u128,
                        last_used: frame,
                    },
                ),
                uploads: stage.uploads.push(Upload { key: d.key, picture }),
                ..stage
            },
            Err(_) => Stage {
                ready: rest,
                pending: stage.pending.remove(d.key),
                broken: stage.broken.insert(d.key, BrokenFile { path: d.path, rotation: d.rotation }),
                ..stage
            },
        }
    }
}

/// The stage after `n` waiting results, or all of them if there are fewer.
pub open spec fn pick<I>(stage: Stage<I>, frame: u64, n: int) -> Stage<I>
    decreases n,
{
    if n <= 0 || stage.ready.len() == 0 {
        stage
    } else {
        pick(pick_one(stage, frame), frame, n - 1)
    }
}

/// Texture `a` was used longer ago than `b`; equal frames go by key.
pub open spec fn colder(slots: Map<TexKey, Slot>, a: TexKey, b: TexKey) -> bool {
    slots[a].last_used < slots[b].last_used || (slots[a].last_used == slots[b].last_used && key_le(a, b) && a != b)
}

/// Eviction took `bytes` of `slots` down: nothing happens within the budget;
/// above it the coldest textures go, one by one, until the target is met.
pub open spec fn eviction_fits(
    limits: Limits,
    slots: Map<TexKey, Slot>,
    bytes: int,
    evicted: Seq<TexKey>,
    left: Map<TexKey, Slot>,
    left_bytes: int,
) -> bool {
    if bytes <= limits.byte_budget {
        evicted.len() == 0 && left == slots && left_bytes == bytes
    } else {
        &&& evicted.len() > 0
        &&& forall|i: int| 0 <= i < evicted.len() ==> slots.contains_key(#[trigger] evicted[i])
        &&& forall|i: int, j: int|
            0 <= i < j < evicted.len() ==> colder(slots, #[trigger] evicted[i], #[trigger] evicted[j])
        &&& left == slots.remove_keys(evicted.to_set())
        &&& forall|i: int, k: TexKey|
            0 <= i < evicted.len() && left.contains_key(k) ==> #[trigger] colder(slots, evicted[i], k)
        &&& left_bytes <= limits.target()
        &&& left_bytes + slots[evicted.last()].bytes > limits.target()
    }
}

/// Recency of a texture; colder ones rank first.
pub struct Warmth {
    /// Frame it was last used.
    pub last_used: u64,
    /// Its key.
    pub key: TexKey,
}

impl Ranked for Warmth {
    open spec fn rank_le(self, other: Self) -> bool {
        self.last_used < other.last_used || (self.last_used == other.last_used && key_le(self.key, other.key))
    }

    proof fn rank_total(a: Self, b: Self) {
    }

    proof fn rank_transitive(a: Self, b: Self, c: Self) {
    }

    fn ranks_at_or_before(&self, other: &Self) -> (r: bool) {
        if self.last_used != other.last_used {
            self.last_used < other.last_used
        } else {
            self.key.at_or_before(&other.key)
        }
    }
}

/// Whether a decoder should still do a job.
pub fn job_is_current(ticket: u64, epoch: u64) -> (current: bool)
    ensures
        current == (ticket == epoch),
{
    ticket == epoch
}

impl<I> Textures<I> {
    /// Keys are entered once, nothing that is live is being decoded, and the
    /// byte count is that of the live textures and within the budget.
    pub open spec fn wf(self) -> bool {
        &&& self.consistent()
        &&& self.bytes <= self.limits.byte_budget
    }

    /// What holds of the cache even in the middle of a frame.
    pub open spec fn consistent(self) -> bool {
        &&& self.slots.wf()
        &&& self.pending.wf()
        &&& self.broken.wf()
        &&& forall|k: TexKey| #[trigger] self.slots@.contains_key(k) ==> !self.pending@.contains_key(k)
        &&& self.bytes == total(self.slots.entries@)
    }

    /// An empty cache with the usual bounds.
    pub fn new() -> (textures: Self)
        ensures
            textures.wf(),
            textures.slots@ == Map::<TexKey, Slot>::empty(),
            textures.pending@ == Map::<TexKey, Pending>::empty(),
            textures.ready@.len() == 0,
            textures.broken@ == Map::<TexKey, BrokenFile>::empty(),
            textures.epoch == 0,
            textures.frame == 0,
            textures.last_focus@.len() == 0,
            textures.limits.byte_budget == BYTE_BUDGET,
            textures.limits.max_uploads == MAX_UPLOADS_PER_FRAME,
            textures.limits.ready_cap == READY_CAP,
            textures.limits.prefetch_pending_cap == PREFETCH_PENDING_CAP,
    {
        let limits: Limits = Limits {
            byte_budget: BYTE_BUDGET,
            max_uploads: MAX_UPLOADS_PER_FRAME,
            ready_cap: READY_CAP,
            prefetch_pending_cap: PREFETCH_PENDING_CAP,
        };
        Self::with_limits(limits)
    }

    /// An empty cache with given bounds.
    pub fn with_limits(limits: Limits) -> (textures: Self)
        ensures
            textures.wf(),
            textures.slots@ == Map::<TexKey, Slot>::empty(),
            textures.pending@ == Map::<TexKey, Pending>::empty(),
            textures.ready@.len() == 0,
            textures.broken@ == Map::<TexKey, BrokenFile>::empty(),
            textures.epoch == 0,
            textures.frame == 0,
            textures.last_focus@.len() == 0,
            textures.limits == limits,
    {
        Textures {
            slots: KeyMap::new(),
            pending: KeyMap::new(),
            ready: VecDeque::new(),
            broken: KeyMap::new(),
            epoch: 0,
            last_focus: Vec::new(),
            limits,
            frame: 0,
            bytes: 0,
        }
    }

    /// The texture of `key` is live and was made from this file and turning.
    pub open spec fn is_fresh(self, key: TexKey, path: Seq<char>, rotation: Rotation) -> bool {
        &&& self.slots@.contains_key(key)
        &&& components(self.slots@[key].path@) == components(path)
        &&& self.slots@[key].rotation == rotation
    }

    /// The file is known to be undecodable.
    pub open spec fn is_broken(self, key: TexKey, path: Seq<char>, rotation: Rotation) -> bool {
        &&& self.broken@.contains_key(key)
        &&& components(self.broken@[key].path@) == components(path)
        &&& self.broken@[key].rotation == rotation
    }

    /// This very decode is under way.
    pub open spec fn is_awaited(self, key: TexKey, path: Seq<char>, rotation: Rotation) -> bool {
        &&& self.pending@.contains_key(key)
        &&& components(self.pending@[key].path@) == components(path)
        &&& self.pending@[key].rotation == rotation
    }

    /// What a cell can paint for `key`, and the decode to start if any.
    ///
    /// A live texture of the right file and turning is ready. One that is
    /// stale is dropped. What is known to be undecodable is broken. Anything
    /// else is loading, and is asked for unless that very decode was already
    /// asked for in this epoch. Without a file nothing happens.
    pub fn handle(&mut self, key: TexKey, path: Option<&String>, rotation: Rotation) -> (result: (
        TextureState,
        Option<Job>,
    ))
        requires
            old(self).wf(),
        ensures
            final(self).wf(),
            final(self).ready@ == old(self).ready@,
            final(self).broken@ == old(self).broken@,
            final(self).epoch == old(self).epoch,
            final(self).last_focus@ == old(self).last_focus@,
            final(self).limits == old(self).limits,
            final(self).frame == old(self).frame,
            match path {
                None => {
                    &&& result == (TextureState::Loading, None::<Job>)
                    &&& *final(self) == *old(self)
                },
                Some(path) => if old(self).is_fresh(key, path@, rotation) {
                    &&& result == (TextureState::Ready, None::<Job>)
                    &&& final(self).slots@ == old(self).slots@.insert(
                        key,
                        Slot { last_used: old(self).frame, ..old(self).slots@[key] },
                    )
                    &&& final(self).pending@ == old(self).pending@
                } else {
                    &&& final(self).slots@ == old(self).slots@.remove(key)
                    &&& if old(self).is_broken(key, path@, rotation) {
                        &&& result == (TextureState::Broken, None::<Job>)
                        &&& final(self).pending@ == old(self).pending@
                    } else if old(self).is_awaited(key, path@, rotation) && old(self).pending@[key].ticket == old(self).epoch {
                        &&& result == (TextureState::Loading, None::<Job>)
                        &&& final(self).pending@ == old(self).pending@
                    } else {
                        &&& result == (
                            TextureState::Loading,
                            Some(Job { key, path: *path, rotation, ticket: old(self).epoch }),
                        )
                        &&& final(self).pending@ == old(self).pending@.insert(
                            key,
                            Pending { path: *path, rotation, ticket: old(self).epoch },
                        )
                    }
                },
            },
    {
        let path: &String = match path {
            None => {
                return (TextureState::Loading, None);
            },
            Some(path) => path,
        };
        let frame: u64 = self.frame;
        match self.slots.find(key) {
            Some(i) => {
                let slot = &self.slots.entries[i].1;
                if same_path(slot.path.as_str(), path.as_str()) && slot.rotation == rotation {
                    let renewed: Slot = Slot {
                        path: slot.path.clone(),
                        rotation: slot.rotation,
                        bytes: slot.bytes,
                        last_used: frame,
                    };
                    let ghost before = self.slots.entries@;
                    self.slots.insert(key, renewed);
                    proof {
                        assert(before[i as int].0 == key);
                        lemma_total_update(before, i as int, key, renewed);
                    }
                    return (TextureState::Ready, None);
                }
                self.drop_slot(key);
            },
            None => {
                proof {
                    assert(self.slots@.remove(key) =~= self.slots@);
                }
            },
        }
        match self.broken.find(key) {
            Some(i) => {
                let file = &self.broken.entries[i].1;
                if same_path(file.path.as_str(), path.as_str()) && file.rotation == rotation {
                    return (TextureState::Broken, None);
                }
            },
            None => {},
        }
        let epoch: u64 = self.epoch;
        let needs_dispatch: bool = match self.pending.find(key) {
            Some(i) => {
                let pending = &self.pending.entries[i].1;
                !same_path(pending.path.as_str(), path.as_str()) || !(pending.rotation == rotation) || pending.ticket != epoch
            },
            None => true,
        };
        if needs_dispatch {
            let job: Job = self.dispatch(key, path, rotation);
            (TextureState::Loading, Some(job))
        } else {
            (TextureState::Loading, None)
        }
    }

    fn dispatch(&mut self, key: TexKey, path: &String, rotation: Rotation) -> (job: Job)
        requires
            old(self).wf(),
            !old(self).slots@.contains_key(key),
        ensures
            final(self).wf(),
            job == (Job { key, path: *path, rotation, ticket: old(self).epoch }),
            final(self).pending@ == old(self).pending@.insert(
                key,
                Pending { path: *path, rotation, ticket: old(self).epoch },
            ),
            final(self).slots == old(self).slots,
            final(self).ready == old(self).ready,
            final(self).broken == old(self).broken,
            final(self).epoch == old(self).epoch,
            final(self).last_focus == old(self).last_focus,
            final(self).limits == old(self).limits,
            final(self).frame == old(self).frame,
            final(self).bytes == old(self).bytes,
    {
        let ticket: u64 = self.epoch;
        self.pending.insert(key, Pending { path: path.clone(), rotation, ticket });
        Job { key, path: path.clone(), rotation, ticket }
    }

    fn drop_slot(&mut self, key: TexKey)
        requires
            old(self).wf(),
        ensures
            final(self).wf(),
            final(self).slots@ == old(self).slots@.remove(key),
            final(self).pending == old(self).pending,
            final(self).ready == old(self).ready,
            final(self).broken == old(self).broken,
            final(self).epoch == old(self).epoch,
            final(self).last_focus == old(self).last_focus,
            final(self).limits == old(self).limits,
            final(self).frame == old(self).frame,
    {
        let ghost before = self.slots.entries@;
        match self.slots.remove(key) {
            Some(slot) => {
                proof {
                    let i = choose|i: int|
                        {
                            &&& 0 <= i < before.len()
                            &&& #[trigger] before[i] == (key, slot)
                            &&& self.slots.entries@ == before.remove(i)
                        };
                    lemma_total_remove(before, i);
                }
                self.bytes = self.bytes - slot.bytes;
            },
            None => {},
        }
    }

    /// Takes note of what is on screen. A change starts a new epoch, which
    /// cancels the decodes for everything that is no longer there.
    pub fn focus(&mut self, visible: &Vec<TexKey>)
        requires
            old(self).wf(),
        ensures
            final(self).wf(),
            final(self).last_focus@ == visible@,
            final(self).epoch == (if visible@ == old(self).last_focus@ {
                old(self).epoch
            } else if old(self).epoch == u64::MAX {
                0
            } else {
                (old(self).epoch + 1) as u64
            }),
            final(self).pending@ == accepted(old(self).pending@, still_due(visible@, final(self).epoch)),
            final(self).slots == old(self).slots,
            final(self).ready == old(self).ready,
            final(self).broken == old(self).broken,
            final(self).limits == old(self).limits,
            final(self).frame == old(self).frame,
            final(self).bytes == old(self).bytes,
    {
        if !same_keys(visible, &self.last_focus) {
            self.last_focus = copy_keys(visible);
            self.epoch = if self.epoch == u64::MAX {
                0
            } else {
                self.epoch + 1
            };
        }
        let epoch: u64 = self.epoch;
        let ghost rule = still_due(visible@, epoch);
        let keep = |key: &TexKey, pending: &Pending| -> (due: bool)
            ensures
                due == (pending.ticket == epoch || visible@.contains(*key)),
            { pending.ticket == epoch || lists_key(visible, *key) };
        self.pending.retain_where(keep, Ghost(rule));
    }

    /// Picks decodes to start ahead of time. Whatever is live, broken or
    /// already under way is passed over, and the rest waits for another
    /// frame once too many decodes are outstanding.
    pub fn prefetch(&mut self, requests: &Vec<Request>) -> (jobs: Vec<Job>)
        requires
            old(self).wf(),
        ensures
            final(self).wf(),
            (final(self).pending@, jobs@) == prefetched(
                old(self).slots@,
                old(self).broken@,
                old(self).limits.prefetch_pending_cap as int,
                old(self).epoch,
                old(self).pending@,
                requests@,
            ),
            final(self).slots == old(self).slots,
            final(self).ready == old(self).ready,
            final(self).broken == old(self).broken,
            final(self).epoch == old(self).epoch,
            final(self).last_focus == old(self).last_focus,
            final(self).limits == old(self).limits,
            final(self).frame == old(self).frame,
            final(self).bytes == old(self).bytes,
    {
        let mut jobs: Vec<Job> = Vec::new();
        let ghost goal = prefetched(
            self.slots@,
            self.broken@,
            self.limits.prefetch_pending_cap as int,
            self.epoch,
            self.pending@,
            requests@,
        );
        let mut k: usize = 0;
        proof {
            assert(requests@.skip(0) =~= requests@);
            assert(Seq::<Job>::empty() + goal.1 =~= goal.1);
        }
        while k < requests.len()
            invariant
                k <= requests.len(),
                self.wf(),
                self.slots == old(self).slots,
                self.ready == old(self).ready,
                self.broken == old(self).broken,
                self.epoch == old(self).epoch,
                self.last_focus == old(self).last_focus,
                self.limits == old(self).limits,
                self.frame == old(self).frame,
                self.bytes == old(self).bytes,
                ({
                    let rest = prefetched(
                        self.slots@,
                        self.broken@,
                        self.limits.prefetch_pending_cap as int,
                        self.epoch,
                        self.pending@,
                        requests@.skip(k as int),
                    );
                    goal.0 == rest.0 && goal.1 == jobs@ + rest.1
                }),
                goal == prefetched(
                    old(self).slots@,
                    old(self).broken@,
                    old(self).limits.prefetch_pending_cap as int,
                    old(self).epoch,
                    old(self).pending@,
                    requests@,
                ),
            decreases requests.len() - k,
        {
            proof {
                assert(requests@.skip(k as int)[0] == requests@[k as int]);
                assert(requests@.skip(k as int).skip(1) =~= requests@.skip(k + 1));
            }
            let key: TexKey = requests[k].key;
            match &requests[k].source {
                None => {},
                Some((path, rotation)) => {
                    let live: bool = self.slots.find(key).is_some();
                    let broken: bool = self.broken.find(key).is_some();
                    let under_way: bool = match self.pending.find(key) {
                        Some(i) => {
                            let pending = &self.pending.entries[i].1;
                            same_path(pending.path.as_str(), path.as_str()) && pending.rotation == *rotation
                        },
                        None => false,
                    };
                    if !live && !broken && !under_way {
                        if self.pending.len() >= self.limits.prefetch_pending_cap {
                            proof {
                                assert(jobs@ + Seq::<Job>::empty() =~= jobs@);
                            }
                            return jobs;
                        }
                        let ghost before = jobs@;
                        let job: Job = self.dispatch(key, path, *rotation);
                        jobs.push(job);
                        proof {
                            let rest = prefetched(
                                self.slots@,
                                self.broken@,
                                self.limits.prefetch_pending_cap as int,
                                self.epoch,
                                self.pending@,
                                requests@.skip(k + 1),
                            );
                            assert(before + (seq![job] + rest.1) =~= jobs@ + rest.1);
                        }
                    }
                },
            }
            k = k + 1;
        }
        proof {
            assert(requests@.skip(k as int).len() == 0);
            assert(jobs@ + Seq::<Job>::empty() =~= jobs@);
        }
        jobs
    }

    /// Starts a frame: takes in what was decoded, sheds an overlong backlog,
    /// picks the uploads and evicts what the budget no longer holds.
    pub fn sync(&mut self, results: VecDeque<Decoded<I>>) -> (work: FrameWork<I>)
        requires
            old(self).wf(),
            old(self).frame < u64::MAX,
        ensures
            final(self).wf(),
            final(self).frame == old(self).frame + 1,
            final(self).epoch == old(self).epoch,
            final(self).last_focus == old(self).last_focus,
            final(self).limits == old(self).limits,
            ({
                let stage = frame_stage(*old(self), results@);
                &&& final(self).pending@ == stage.pending
                &&& final(self).ready@ == stage.ready
                &&& final(self).broken@ == stage.broken
                &&& work.uploads@ == stage.uploads
                &&& eviction_fits(
                    old(self).limits,
                    stage.slots,
                    old(self).bytes + upload_bytes(stage.uploads),
                    work.evicted@,
                    final(self).slots@,
                    final(self).bytes as int,
                )
            }),
    {
        self.frame = self.frame + 1;
        self.take_in(results);
        self.shed_backlog();
        let uploads: Vec<Upload<I>> = self.pick_uploads();
        let evicted: Vec<TexKey> = self.evict_over_budget();
        FrameWork { uploads, evicted }
    }

    fn answers_request(&self, d: &Decoded<I>) -> (r: bool)
        requires
            self.pending.wf(),
        ensures
            r == wanted(self.pending@, *d),
    {
        match self.pending.find(d.key) {
            Some(i) => {
                let pending = &self.pending.entries[i].1;
                same_path(pending.path.as_str(), d.path.as_str()) && pending.rotation == d.rotation
            },
            None => false,
        }
    }

    fn take_in(&mut self, results: VecDeque<Decoded<I>>)
        requires
            old(self).pending.wf(),
        ensures
            final(self).ready@ == old(self).ready@ + sift(answers(old(self).pending@), results@),
            final(self).pending == old(self).pending,
            final(self).slots == old(self).slots,
            final(self).broken == old(self).broken,
            final(self).epoch == old(self).epoch,
            final(self).last_focus == old(self).last_focus,
            final(self).limits == old(self).limits,
            final(self).frame == old(self).frame,
            final(self).bytes == old(self).bytes,
    {
        let ghost all = results@;
        let ghost ready0 = self.ready@;
        let ghost rule = answers::<I>(self.pending@);
        let mut rest = results;
        let ghost mut n: int = 0;
        proof {
            assert(all.skip(0) =~= all);
            assert(all.take(0) =~= Seq::<Decoded<I>>::empty());
            assert(ready0 + Seq::<Decoded<I>>::empty() =~= ready0);
        }
        while rest.len() > 0
            invariant
                0 <= n <= all.len(),
                rest@ == all.skip(n),
                self.pending.wf(),
                rule == answers::<I>(self.pending@),
                self.ready@ == ready0 + sift(rule, all.take(n)),
                self.pending == old(self).pending,
                self.slots == old(self).slots,
                self.broken == old(self).broken,
                self.epoch == old(self).epoch,
                self.last_focus == old(self).last_focus,
                self.limits == old(self).limits,
                self.frame == old(self).frame,
                self.bytes == old(self).bytes,
            decreases all.len() - n,
        {
            match rest.pop_front() {
                Some(d) => {
                    proof {
                        assert(d == all[n]);
                        assert(rest@ =~= all.skip(n + 1));
                        assert(all.take(n + 1).drop_last() =~= all.take(n));
                        assert(all.take(n + 1).last() == d);
                    }
                    if self.answers_request(&d) {
                        self.ready.push_back(d);
                        proof {
                            assert(self.ready@ =~= ready0 + sift(rule, all.take(n + 1)));
                        }
                    }
                    proof {
                        n = n + 1;
                    }
                },
                None => {},
            }
        }
        proof {
            assert(all.take(n) =~= all);
        }
    }

    fn shed_backlog(&mut self)
        requires
            old(self).consistent(),
        ensures
            final(self).consistent(),
            (final(self).pending@, final(self).ready@) == shed(
                old(self).pending@,
                old(self).ready@,
                old(self).limits.ready_cap as int,
            ),
            final(self).slots == old(self).slots,
            final(self).broken == old(self).broken,
            final(self).epoch == old(self).epoch,
            final(self).last_focus == old(self).last_focus,
            final(self).limits == old(self).limits,
            final(self).frame == old(self).frame,
            final(self).bytes == old(self).bytes,
    {
        while self.ready.len() > self.limits.ready_cap
            invariant
                self.consistent(),
                shed(self.pending@, self.ready@, self.limits.ready_cap as int) == shed(
                    old(self).pending@,
                    old(self).ready@,
                    old(self).limits.ready_cap as int,
                ),
                self.slots == old(self).slots,
                self.broken == old(self).broken,
                self.epoch == old(self).epoch,
                self.last_focus == old(self).last_focus,
                self.limits == old(self).limits,
                self.frame == old(self).frame,
                self.bytes == old(self).bytes,
            decreases self.ready.len(),
        {
            let ghost ready0 = self.ready@;
            match self.ready.pop_front() {
                Some(d) => {
                    proof {
                        assert(ready0.skip(1) =~= self.ready@);
                    }
                    if self.answers_request(&d) {
                        self.pending.remove(d.key);
                    }
                },
                None => {},
            }
        }
    }

    fn pick_uploads(&mut self) -> (uploads: Vec<Upload<I>>)
        requires
            old(self).consistent(),
            old(self).bytes <= old(self).limits.byte_budget,
        ensures
            final(self).consistent(),
            ({
                let stage = pick(
                    Stage {
                        pending: old(self).pending@,
                        ready: old(self).ready@,
                        slots: old(self).slots@,
                        broken: old(self).broken@,
                        uploads: Seq::<Upload<I>>::empty(),
                    },
                    old(self).frame,
                    old(self).limits.max_uploads as int,
                );
                &&& final(self).pending@ == stage.pending
                &&& final(self).ready@ == stage.ready
                &&& final(self).slots@ == stage.slots
                &&& final(self).broken@ == stage.broken
                &&& uploads@ == stage.uploads
            }),
            final(self).bytes == old(self).bytes + upload_bytes(uploads@),
            final(self).epoch == old(self).epoch,
            final(self).last_focus == old(self).last_focus,
            final(self).limits == old(self).limits,
            final(self).frame == old(self).frame,
    {
        let mut uploads: Vec<Upload<I>> = Vec::new();
        let ghost first = Stage {
            pending: self.pending@,
            ready: self.ready@,
            slots: self.slots@,
            broken: self.broken@,
            uploads: Seq::<Upload<I>>::empty(),
        };
        let ghost goal = pick(first, self.frame, self.limits.max_uploads as int);
        let frame: u64 = self.frame;
        let mut n: u32 = 0;
        proof {
            assert(uploads@ =~= Seq::<Upload<I>>::empty());
        }
        while n < self.limits.max_uploads && self.ready.len() > 0
            invariant
                n <= self.limits.max_uploads,
                self.consistent(),
                frame == self.frame,
                goal == pick(
                    Stage {
                        pending: self.pending@,
                        ready: self.ready@,
                        slots: self.slots@,
                        broken: self.broken@,
                        uploads: uploads@,
                    },
                    frame,
                    self.limits.max_uploads - n,
                ),
                self.bytes == old(self).bytes + upload_bytes(uploads@),
                self.bytes <= self.limits.byte_budget + n * 0x4_0000_0000_0000_0000,
                self.epoch == old(self).epoch,
                self.last_focus == old(self).last_focus,
                self.limits == old(self).limits,
                self.frame == old(self).frame,
            decreases self.limits.max_uploads - n,
        {
            let ghost ready0 = self.ready@;
            let ghost stage0 = Stage {
                pending: self.pending@,
                ready: self.ready@,
                slots: self.slots@,
                broken: self.broken@,
                uploads: uploads@,
            };
            match self.ready.pop_front() {
                Some(d) => {
                    proof {
                        assert(ready0.skip(1) =~= self.ready@);
                        assert(d == ready0[0]);
                    }
                    if self.answers_request(&d) {
                        let Decoded { key, path, rotation, image } = d;
                        self.pending.remove(key);
                        match image {
                            Ok(picture) => {
                                let ghost before = uploads@;
                                proof {
                                    lemma_picture_fits(picture.width, picture.height);
                                }
                                let bytes: u128 = picture.width as u128 * picture.height as u128 * 4;
                                let ghost entries0 = self.slots.entries@;
                                self.bytes = self.bytes + bytes;
                                self.slots.insert(key, Slot { path, rotation, bytes, last_used: frame });
                                uploads.push(Upload { key, picture });
                                proof {
                                    assert(self.slots.entries@.drop_last() =~= entries0);
                                    assert(uploads@.drop_last() =~= before);
                                }
                            },
                            Err(_) => {
                                self.broken.insert(key, BrokenFile { path, rotation });
                            },
                        }
                    }
                    proof {
                        let stage1 = Stage {
                            pending: self.pending@,
                            ready: self.ready@,
                            slots: self.slots@,
                            broken: self.broken@,
                            uploads: uploads@,
                        };
                        assert(stage1 == pick_one(stage0, frame));
                    }
                },
                None => {},
            }
            n = n + 1;
        }
        uploads
    }

    fn evict_over_budget(&mut self) -> (evicted: Vec<TexKey>)
        requires
            old(self).consistent(),
        ensures
            final(self).wf(),
            eviction_fits(
                old(self).limits,
                old(self).slots@,
                old(self).bytes as int,
                evicted@,
                final(self).slots@,
                final(self).bytes as int,
            ),
            final(self).pending == old(self).pending,
            final(self).ready == old(self).ready,
            final(self).broken == old(self).broken,
            final(self).epoch == old(self).epoch,
            final(self).last_focus == old(self).last_focus,
            final(self).limits == old(self).limits,
            final(self).frame == old(self).frame,
    {
        let mut evicted: Vec<TexKey> = Vec::new();
        if self.bytes <= self.limits.byte_budget as u128 {
            return evicted;
        }
        let ghost slots0 = self.slots@;
        let ghost entries0 = self.slots.entries@;
        let mut keys: Vec<Warmth> = Vec::new();
        let mut i: usize = 0;
        while i < self.slots.entries.len()
            invariant
                i <= self.slots.entries.len(),
                self.slots.entries@ == entries0,
                keys.len() == i,
                *self == *old(self),
                forall|k: int|
                    0 <= k < i ==> (#[trigger] keys@[k]).key == entries0[k].0 && keys@[k].last_used
                        == entries0[k].1.last_used,
            decreases self.slots.entries.len() - i,
        {
            let entry = &self.slots.entries[i];
            keys.push(Warmth { last_used: entry.1.last_used, key: entry.0 });
            i = i + 1;
        }
        let order: Vec<usize> = sorted_order(&keys);
        let target: u128 = self.limits.evict_target();
        let mut v: usize = 0;
        proof {
            lemma_map_of(entries0);
            assert(slots0.remove_keys(evicted@.to_set()) =~= slots0);
        }
        while v < order.len() && self.bytes > target
            invariant
                v <= order.len(),
                order.len() == entries0.len(),
                is_sorted_order(order@, keys@),
                keys.len() == entries0.len(),
                keys_distinct(entries0),
                slots0 == crate::keymap::map_of(entries0),
                forall|k: int|
                    0 <= k < keys.len() ==> (#[trigger] keys@[k]).key == entries0[k].0 && keys@[k].last_used
                        == entries0[k].1.last_used,
                target == self.limits.target(),
                self.consistent(),
                evicted.len() == v,
                forall|k: int| 0 <= k < v ==> #[trigger] evicted@[k] == entries0[order@[k] as int].0,
                self.slots@ == slots0.remove_keys(evicted@.to_set()),
                v == 0 ==> self.bytes == old(self).bytes,
                v > 0 ==> self.bytes + slots0[evicted@[v - 1]].bytes > target,
                self.pending == old(self).pending,
                self.ready == old(self).ready,
                self.broken == old(self).broken,
                self.epoch == old(self).epoch,
                self.last_focus == old(self).last_focus,
                self.limits == old(self).limits,
                self.frame == old(self).frame,
            decreases order.len() - v,
        {
            proof {
                lemma_map_of(entries0);
                assert(order@.contains(order@[v as int]));
            }
            let key: TexKey = keys[order[v]].key;
            let ghost entries1 = self.slots.entries@;
            proof {
                let at = order@[v as int] as int;
                assert(slots0.contains_key(entries0[at].0));
                if evicted@.to_set().contains(key) {
                    let k = choose|k: int| 0 <= k < evicted@.len() && evicted@[k] == key;
                    assert(evicted@[k] == entries0[order@[k] as int].0);
                    assert(order@.contains(order@[k]));
                    lemma_distinct_positions(entries0, order@[k] as int, at);
                    assert(order@[k] == order@[v as int]);
                }
                assert(self.slots@.contains_key(key));
            }
            let removed = self.slots.remove(key);
            match removed {
                Some(slot) => {
                    proof {
                        let j = choose|j: int|
                            {
                                &&& 0 <= j < entries1.len()
                                &&& #[trigger] entries1[j] == (key, slot)
                                &&& self.slots.entries@ == entries1.remove(j)
                            };
                        lemma_total_remove(entries1, j);
                        assert(slot == slots0[key]);
                    }
                    self.bytes = self.bytes - slot.bytes;
                },
                None => {},
            }
            let ghost evicted0 = evicted@;
            evicted.push(key);
            proof {
                assert(evicted@.to_set() =~= evicted0.to_set().insert(key)) by {
                    crate::order::lemma_push_contains(evicted0, key);
                    assert forall|x: TexKey| evicted@.to_set().contains(x) <==> evicted0.to_set().insert(key).contains(
                        x,
                    ) by {
                        assert(evicted@.contains(x) <==> evicted0.contains(x) || x == key);
                    }
                }
                assert(self.slots@ =~= slots0.remove_keys(evicted@.to_set()));
            }
            v = v + 1;
        }
        proof {
            lemma_map_of(entries0);
            assert(self.bytes <= target) by {
                if self.bytes > target {
                    // Every slot was evicted, so nothing is left to count.
                    assert(v == order.len());
                    lemma_map_of(self.slots.entries@);
                    if self.slots.entries@.len() > 0 {
                        let k = self.slots.entries@[0].0;
                        assert(self.slots@.contains_key(k));
                        assert(slots0.contains_key(k));
                        let at = choose|at: int| 0 <= at < entries0.len() && (#[trigger] entries0[at]).0 == k;
                        assert(order@.contains(at as usize));
                        let x = choose|x: int| 0 <= x < order@.len() && order@[x] == at as usize;
                        assert(evicted@[x] == k);
                        assert(evicted@.contains(k));
                    }
                    assert(total(self.slots.entries@) == 0);
                }
            }
            assert forall|a: int| 0 <= a < evicted@.len() implies slots0.contains_key(#[trigger] evicted@[a]) by {
                assert(order@.contains(order@[a]));
            }
            assert forall|a: int, b: int| 0 <= a < b < evicted@.len() implies colder(
                slots0,
                #[trigger] evicted@[a],
                #[trigger] evicted@[b],
            ) by {
                assert(order@.contains(order@[a]));
                assert(order@.contains(order@[b]));
                lemma_colder(entries0, keys@, order@[a] as int, order@[b] as int);
            }
            assert forall|a: int, k: TexKey| 0 <= a < evicted@.len() && self.slots@.contains_key(k) implies #[trigger] colder(
                slots0,
                evicted@[a],
                k,
            ) by {
                assert(slots0.contains_key(k));
                let at = choose|at: int| 0 <= at < entries0.len() && (#[trigger] entries0[at]).0 == k;
                assert(order@.contains(at as usize));
                let x = choose|x: int| 0 <= x < order@.len() && order@[x] == at as usize;
                if x < v {
                    assert(evicted@[x] == k);
                    assert(evicted@.contains(k));
                }
                assert(order@.contains(order@[a]));
                lemma_colder(entries0, keys@, order@[a] as int, order@[x] as int);
            }
        }
        evicted
    }

    /// Whether decodes are under way or pictures are waiting.
    pub fn busy(&self) -> (r: bool)
        requires
            self.wf(),
        ensures
            r == (self.pending@.dom().len() > 0 || self.ready@.len() > 0),
    {
        self.pending.len() > 0 || self.ready.len() > 0
    }

    /// Forgets everything about photos that are not in `keep`.
    pub fn retain(&mut self, keep: &Vec<PhotoId>)
        requires
            old(self).wf(),
        ensures
            final(self).wf(),
            final(self).slots@ == accepted(old(self).slots@, slot_of(keep@)),
            final(self).pending@ == accepted(old(self).pending@, pending_of(keep@)),
            final(self).broken@ == accepted(old(self).broken@, broken_of(keep@)),
            final(self).ready@ == sift(result_of::<I>(keep@), old(self).ready@),
            final(self).epoch == old(self).epoch,
            final(self).last_focus == old(self).last_focus,
            final(self).limits == old(self).limits,
            final(self).frame == old(self).frame,
    {
        self.retain_slots(keep);
        let ghost pending_rule = pending_of(keep@);
        let keep_pending = |key: &TexKey, pending: &Pending| -> (r: bool)
            ensures
                r == keep@.contains(key.id),
            { lists_id(keep, key.id) };
        self.pending.retain_where(keep_pending, Ghost(pending_rule));
        let ghost broken_rule = broken_of(keep@);
        let keep_broken = |key: &TexKey, file: &BrokenFile| -> (r: bool)
            ensures
                r == keep@.contains(key.id),
            { lists_id(keep, key.id) };
        self.broken.retain_where(keep_broken, Ghost(broken_rule));
        let ghost all = self.ready@;
        let ghost rule = result_of::<I>(keep@);
        let mut kept: VecDeque<Decoded<I>> = VecDeque::new();
        let ghost mut n: int = 0;
        proof {
            assert(all.skip(0) =~= all);
            assert(all.take(0) =~= Seq::<Decoded<I>>::empty());
            assert(kept@ =~= Seq::<Decoded<I>>::empty());
        }
        while self.ready.len() > 0
            invariant
                0 <= n <= all.len(),
                self.ready@ == all.skip(n),
                rule == result_of::<I>(keep@),
                kept@ == sift(rule, all.take(n)),
                self.wf(),
                self.slots@ == accepted(old(self).slots@, slot_of(keep@)),
                self.pending@ == accepted(old(self).pending@, pending_of(keep@)),
                self.broken@ == accepted(old(self).broken@, broken_of(keep@)),
                self.epoch == old(self).epoch,
                self.last_focus == old(self).last_focus,
                self.limits == old(self).limits,
                self.frame == old(self).frame,
            decreases all.len() - n,
        {
            match self.ready.pop_front() {
                Some(d) => {
                    proof {
                        assert(d == all[n]);
                        assert(self.ready@ =~= all.skip(n + 1));
                        assert(all.take(n + 1).drop_last() =~= all.take(n));
                        assert(all.take(n + 1).last() == d);
                    }
                    if lists_id(keep, d.key.id) {
                        kept.push_back(d);
                    }
                    proof {
                        n = n + 1;
                    }
                },
                None => {},
            }
        }
        proof {
            assert(all.take(n) =~= all);
        }
        self.ready = kept;
    }

    fn retain_slots(&mut self, keep: &Vec<PhotoId>)
        requires
            old(self).wf(),
        ensures
            final(self).wf(),
            final(self).slots@ == accepted(old(self).slots@, slot_of(keep@)),
            final(self).pending == old(self).pending,
            final(self).ready == old(self).ready,
            final(self).broken == old(self).broken,
            final(self).epoch == old(self).epoch,
            final(self).last_focus == old(self).last_focus,
            final(self).limits == old(self).limits,
            final(self).frame == old(self).frame,
    {
        let ghost m = self.slots@;
        let mut i: usize = 0;
        while i < self.slots.entries.len()
            invariant
                i <= self.slots.entries.len(),
                self.wf(),
                forall|j: int| 0 <= j < i ==> keep@.contains((#[trigger] self.slots.entries@[j]).0.id),
                forall|k: TexKey| #[trigger]
                    self.slots@.contains_key(k) ==> m.contains_key(k) && m[k] == self.slots@[k],
                forall|k: TexKey| #[trigger]
                    m.contains_key(k) && keep@.contains(k.id) ==> self.slots@.contains_key(k),
                self.pending == old(self).pending,
                self.ready == old(self).ready,
                self.broken == old(self).broken,
                self.epoch == old(self).epoch,
                self.last_focus == old(self).last_focus,
                self.limits == old(self).limits,
                self.frame == old(self).frame,
            decreases self.slots.entries.len() - i,
        {
            proof {
                lemma_map_of(self.slots.entries@);
            }
            let key: TexKey = self.slots.entries[i].0;
            if lists_id(keep, key.id) {
                i = i + 1;
            } else {
                let ghost before = self.slots.entries@;
                match self.slots.remove(key) {
                    Some(slot) => {
                        proof {
                            let at = choose|at: int|
                                {
                                    &&& 0 <= at < before.len()
                                    &&& #[trigger] before[at] == (key, slot)
                                    &&& self.slots.entries@ == before.remove(at)
                                };
                            lemma_total_remove(before, at);
                            lemma_distinct_positions(before, at, i as int);
                            assert forall|j: int| 0 <= j < i implies keep@.contains(
                                (#[trigger] self.slots.entries@[j]).0.id,
                            ) by {
                                assert(self.slots.entries@[j] == before[j]);
                            }
                        }
                        self.bytes = self.bytes - slot.bytes;
                    },
                    None => {},
                }
            }
        }
        proof {
            lemma_map_of(self.slots.entries@);
            assert(self.slots@ =~= accepted(m, slot_of(keep@))) by {
                assert forall|k: TexKey| self.slots@.contains_key(k) implies keep@.contains(k.id) by {
                    let j = choose|j: int|
                        0 <= j < self.slots.entries@.len() && (#[trigger] self.slots.entries@[j]).0 == k;
                }
            }
        }
    }
}

/// Decodes that stay wanted: asked for in this epoch, or still on screen.
pub open spec fn still_due(visible: Seq<TexKey>, epoch: u64) -> spec_fn(TexKey, Pending) -> bool {
    |key: TexKey, pending: Pending| pending.ticket == epoch || visible.contains(key)
}

/// Slots of the given photos.
pub open spec fn slot_of(keep: Seq<PhotoId>) -> spec_fn(TexKey, Slot) -> bool {
    |key: TexKey, slot: Slot| keep.contains(key.id)
}

/// Decodes for the given photos.
pub open spec fn pending_of(keep: Seq<PhotoId>) -> spec_fn(TexKey, Pending) -> bool {
    |key: TexKey, pending: Pending| keep.contains(key.id)
}

/// Undecodable files of the given photos.
pub open spec fn broken_of(keep: Seq<PhotoId>) -> spec_fn(TexKey, BrokenFile) -> bool {
    |key: TexKey, file: BrokenFile| keep.contains(key.id)
}

/// Results for the given photos.
pub open spec fn result_of<I>(keep: Seq<PhotoId>) -> spec_fn(Decoded<I>) -> bool {
    |d: Decoded<I>| keep.contains(d.key.id)
}

/// The results that a rule accepts, in order.
pub open spec fn sift<I>(rule: spec_fn(Decoded<I>) -> bool, s: Seq<Decoded<I>>) -> Seq<Decoded<I>>
    decreases s.len(),
{
    if s.len() == 0 {
        Seq::empty()
    } else {
        let head = sift(rule, s.drop_last());
        if rule(s.last()) {
            head.push(s.last())
        } else {
            head
        }
    }
}

/// Bytes of all picked pictures.
pub open spec fn upload_bytes<I>(uploads: Seq<Upload<I>>) -> int
    decreases uploads.len(),
{
    if uploads.len() == 0 {
        0
    } else {
        upload_bytes(uploads.drop_last()) + picture_bytes(uploads.last().picture)
    }
}

/// The stage a frame's uploads are picked on, and what picking leaves.
pub open spec fn frame_stage<I>(textures: Textures<I>, results: Seq<Decoded<I>>) -> Stage<I> {
    let waiting = textures.ready@ + sift(answers(textures.pending@), results);
    let (pending, ready) = shed(textures.pending@, waiting, textures.limits.ready_cap as int);
    pick(
        Stage {
            pending,
            ready,
            slots: textures.slots@,
            broken: textures.broken@,
            uploads: Seq::<Upload<I>>::empty(),
        },
        (textures.frame + 1) as u64,
        textures.limits.max_uploads as int,
    )
}

/// What prefetching makes of the requests: the decodes under way afterwards
/// and the jobs started. A request is passed over if there is no file yet or
/// nothing to do; at the cap the remaining requests are left for later.
pub open spec fn prefetched(
    slots: Map<TexKey, Slot>,
    broken: Map<TexKey, BrokenFile>,
    cap: int,
    epoch: u64,
    pending: Map<TexKey, Pending>,
    requests: Seq<Request>,
) -> (Map<TexKey, Pending>, Seq<Job>)
    decreases requests.len(),
{
    if requests.len() == 0 {
        (pending, Seq::empty())
    } else {
        let key = requests[0].key;
        let rest = requests.skip(1);
        match requests[0].source {
            None => prefetched(slots, broken, cap, epoch, pending, rest),
            Some((path, rotation)) => if slots.contains_key(key) || broken.contains_key(key) || (
            pending.contains_key(key) && components(pending[key].path@) == components(path@) && pending[key].rotation
                == rotation) {
                prefetched(slots, broken, cap, epoch, pending, rest)
            } else if pending.dom().len() >= cap {
                (pending, Seq::empty())
            } else {
                let (later, jobs) = prefetched(
                    slots,
                    broken,
                    cap,
                    epoch,
                    pending.insert(key, Pending { path, rotation, ticket: epoch }),
                    rest,
                );
                (later, seq![Job { key, path, rotation, ticket: epoch }] + jobs)
            },
        }
    }
}

proof fn lemma_picture_fits(width: u32, height: u32)
    ensures
        width * height * 4 < 0x4_0000_0000_0000_0000,
        width * height < 0x1_0000_0000_0000_0000,
{
    assert(width * height < 0x1_0000_0000_0000_0000) by (nonlinear_arith)
        requires
            width <= 0xffff_ffff,
            height <= 0xffff_ffff,
    ;
}

proof fn lemma_distinct_positions<V>(entries: Seq<(TexKey, V)>, a: int, b: int)
    requires
        keys_distinct(entries),
        0 <= a < entries.len(),
        0 <= b < entries.len(),
        entries[a].0 == entries[b].0,
    ensures
        a == b,
{
    if a < b {
        assert(entries[a].0 != entries[b].0);
    } else if b < a {
        assert(entries[b].0 != entries[a].0);
    }
}

proof fn lemma_colder(entries: Seq<(TexKey, Slot)>, keys: Seq<Warmth>, a: int, b: int)
    requires
        keys_distinct(entries),
        keys.len() == entries.len(),
        forall|k: int|
            0 <= k < keys.len() ==> (#[trigger] keys[k]).key == entries[k].0 && keys[k].last_used
                == entries[k].1.last_used,
        0 <= a < entries.len(),
        0 <= b < entries.len(),
        comes_before(keys, a, b),
    ensures
        colder(crate::keymap::map_of(entries), entries[a].0, entries[b].0),
{
    lemma_map_of(entries);
    assert(keys[a].key == entries[a].0 && keys[b].key == entries[b].0);
    if entries[a].0 == entries[b].0 {
        lemma_distinct_positions(entries, a, b);
    }
}

fn lists_key(list: &Vec<TexKey>, key: TexKey) -> (r: bool)
    ensures
        r == list@.contains(key),
{
    let mut i: usize = 0;
    while i < list.len()
        invariant
            i <= list.len(),
            forall|k: int| 0 <= k < i ==> list@[k] != key,
        decreases list.len() - i,
    {
        if list[i] == key {
            return true;
        }
        i = i + 1;
    }
    false
}

/// Whether a list names a photo.
pub fn lists_id(list: &Vec<PhotoId>, id: PhotoId) -> (r: bool)
    ensures
        r == list@.contains(id),
{
    let mut i: usize = 0;
    while i < list.len()
        invariant
            i <= list.len(),
            forall|k: int| 0 <= k < i ==> list@[k] != id,
        decreases list.len() - i,
    {
        if list[i] == id {
            return true;
        }
        i = i + 1;
    }
    false
}

fn same_keys(a: &Vec<TexKey>, b: &Vec<TexKey>) -> (r: bool)
    ensures
        r == (a@ == b@),
{
    if a.len() != b.len() {
        return false;
    }
    let mut i: usize = 0;
    while i < a.len()
        invariant
            i <= a.len(),
            a.len() == b.len(),
            forall|k: int| 0 <= k < i ==> a@[k] == b@[k],
        decreases a.len() - i,
    {
        if a[i] != b[i] {
            return false;
        }
        i = i + 1;
    }
    proof {
        assert(a@ =~= b@);
    }
    true
}

fn copy_keys(keys: &Vec<TexKey>) -> (copy: Vec<TexKey>)
    ensures
        copy@ == keys@,
{
    let mut copy: Vec<TexKey> = Vec::new();
    let mut i: usize = 0;
    while i < keys.len()
        invariant
            i <= keys.len(),
            copy@ == keys@.take(i as int),
        decreases keys.len() - i,
    {
        copy.push(keys[i]);
        proof {
            assert(keys@.take(i + 1) =~= keys@.take(i as int).push(keys@[i as int]));
        }
        i = i + 1;
    }
    proof {
        assert(keys@.take(i as int) =~= keys@);
    }
    copy
}

} // verus!
