//! What the texture cache promises across a frame.

use vstd::prelude::*;

use crate::keymap::{accepted, TexKey};
use crate::model::PhotoId;
use crate::path::components;
use crate::tex::{
    answers, broken_of, frame_stage, pending_of, pick, pick_one, prefetched, result_of, shed, sift,
    slot_of, wanted, BrokenFile, Decoded, Pending, Request, Slot, Stage, Textures,
};

verus! {

proof fn lemma_sift_members<I>(rule: spec_fn(Decoded<I>) -> bool, s: Seq<Decoded<I>>)
    ensures
        sift(rule, s).len() <= s.len(),
        forall|i: int| 0 <= i < sift(rule, s).len() ==> rule(#[trigger] sift(rule, s)[i]) && s.contains(sift(rule, s)[i]),
    decreases s.len(),
{
    if s.len() > 0 {
        let head = s.drop_last();
        lemma_sift_members(rule, head);
        let out = sift(rule, s);
        assert forall|i: int| 0 <= i < out.len() implies rule(#[trigger] out[i]) && s.contains(out[i]) by {
            if i < sift(rule, head).len() {
                assert(out[i] == sift(rule, head)[i]);
                let j = choose|j: int| 0 <= j < head.len() && head[j] == out[i];
                assert(s[j] == out[i]);
            } else {
                assert(s[s.len() - 1] == out[i]);
            }
        }
    }
}

/// The backlog never outgrows its bound, every result that is shed stops
/// being awaited (so that its request can be made again), and shedding
/// forgets no other request.
pub proof fn shedding_bounds_the_backlog<I>(pending: Map<TexKey, Pending>, ready: Seq<Decoded<I>>, cap: int)
    requires
        cap >= 0,
    ensures
        shed(pending, ready, cap).1.len() <= cap,
        shed(pending, ready, cap).1.len() <= ready.len(),
        shed(pending, ready, cap).1 == ready.skip(ready.len() - shed(pending, ready, cap).1.len()),
        forall|i: int|
            0 <= i < ready.len() - shed(pending, ready, cap).1.len() ==> !wanted(
                shed(pending, ready, cap).0,
                #[trigger] ready[i],
            ),
        forall|k: TexKey| #[trigger]
            shed(pending, ready, cap).0.contains_key(k) ==> pending.contains_key(k) && shed(pending, ready, cap).0[k]
                == pending[k],
    decreases ready.len(),
{
    if ready.len() <= cap || ready.len() == 0 {
        assert(ready.skip(0) =~= ready);
    } else {
        let next = if wanted(pending, ready[0]) {
            pending.remove(ready[0].key)
        } else {
            pending
        };
        let rest = ready.skip(1);
        shedding_bounds_the_backlog(next, rest, cap);
        let out = shed(next, rest, cap);
        assert(out == shed(pending, ready, cap));
        assert(ready.skip(ready.len() - out.1.len()) =~= rest.skip(rest.len() - out.1.len()));
        assert forall|i: int| 0 <= i < ready.len() - out.1.len() implies !wanted(out.0, #[trigger] ready[i]) by {
            if i > 0 {
                assert(rest[i - 1] == ready[i]);
            }
        }
    }
}

/// What picking uploads keeps: at most `n` are picked, each was awaited and
/// is not awaited afterwards, and whatever is live was live before or picked.
pub proof fn lemma_pick<I>(stage: Stage<I>, frame: u64, n: int)
    requires
        n >= 0,
    ensures
        ({
            let out = pick(stage, frame, n);
            &&& stage.uploads.len() <= out.uploads.len() <= stage.uploads.len() + n
            &&& out.ready.len() <= stage.ready.len()
            &&& forall|i: int|
                stage.uploads.len() <= i < out.uploads.len() ==> stage.pending.contains_key(
                    (#[trigger] out.uploads[i]).key,
                ) && !out.pending.contains_key(out.uploads[i].key)
            &&& forall|i: int| 0 <= i < stage.uploads.len() ==> #[trigger] out.uploads[i] == stage.uploads[i]
            &&& forall|k: TexKey| #[trigger]
                out.pending.contains_key(k) ==> stage.pending.contains_key(k) && out.pending[k] == stage.pending[k]
            &&& forall|k: TexKey| #[trigger]
                out.slots.contains_key(k) ==> (stage.slots.contains_key(k) && out.slots[k] == stage.slots[k]) || (
                stage.pending.contains_key(k) && components(out.slots[k].path@) == components(
                    stage.pending[k].path@,
                ) && out.slots[k].rotation
                    == stage.pending[k].rotation && out.slots[k].last_used == frame)
        }),
    decreases n,
{
    if n > 0 && stage.ready.len() > 0 {
        let next = pick_one(stage, frame);
        lemma_pick(next, frame, n - 1);
        let out = pick(stage, frame, n);
        assert(out == pick(next, frame, n - 1));
        assert forall|i: int| stage.uploads.len() <= i < out.uploads.len() implies stage.pending.contains_key(
            (#[trigger] out.uploads[i]).key,
        ) && !out.pending.contains_key(out.uploads[i].key) by {
            if i < next.uploads.len() {
                assert(out.uploads[i] == next.uploads[i]);
            }
        }
        assert forall|i: int| 0 <= i < stage.uploads.len() implies #[trigger] out.uploads[i] == stage.uploads[i] by {
            assert(out.uploads[i] == next.uploads[i]);
        }
    }
}

/// A frame uploads at most as many textures as it may, leaves at most the
/// bounded backlog behind, and uploads only what is awaited, under the file
/// and turning it was asked for; a superseded result never becomes live.
pub proof fn frame_respects_its_bounds<I>(textures: Textures<I>, results: Seq<Decoded<I>>)
    ensures
        ({
            let stage = frame_stage(textures, results);
            &&& stage.uploads.len() <= textures.limits.max_uploads
            &&& stage.ready.len() <= textures.limits.ready_cap
            &&& forall|i: int|
                0 <= i < stage.uploads.len() ==> textures.pending@.contains_key((#[trigger] stage.uploads[i]).key)
                    && !stage.pending.contains_key(stage.uploads[i].key)
            &&& forall|k: TexKey| #[trigger]
                stage.slots.contains_key(k) ==> (textures.slots@.contains_key(k) && stage.slots[k]
                    == textures.slots@[k]) || (textures.pending@.contains_key(k) && components(
                    stage.slots[k].path@,
                ) == components(textures.pending@[k].path@) && stage.slots[k].rotation == textures.pending@[k].rotation)
        }),
{
    let waiting = textures.ready@ + sift(answers(textures.pending@), results);
    let cap = textures.limits.ready_cap as int;
    shedding_bounds_the_backlog(textures.pending@, waiting, cap);
    let (pending, ready) = shed(textures.pending@, waiting, cap);
    let first = Stage {
        pending,
        ready,
        slots: textures.slots@,
        broken: textures.broken@,
        uploads: Seq::empty(),
    };
    lemma_pick(first, (textures.frame + 1) as u64, textures.limits.max_uploads as int);
}

/// Prefetching never starts more decodes than the cap allows, never touches a
/// texture that is live or known to be broken, and every job it starts is
/// awaited afterwards or was superseded by a later request for the same key.
pub proof fn prefetch_respects_its_bounds(
    slots: Map<TexKey, Slot>,
    broken: Map<TexKey, BrokenFile>,
    cap: int,
    epoch: u64,
    pending: Map<TexKey, Pending>,
    requests: Seq<Request>,
)
    requires
        pending.dom().finite(),
    ensures
        ({
            let (after, jobs) = prefetched(slots, broken, cap, epoch, pending, requests);
            &&& after.dom().finite()
            &&& after.dom().len() <= cap || after == pending
            &&& forall|i: int|
                0 <= i < jobs.len() ==> !slots.contains_key((#[trigger] jobs[i]).key) && !broken.contains_key(
                    jobs[i].key,
                ) && after.contains_key(jobs[i].key) && jobs[i].ticket == epoch
            &&& forall|k: TexKey| #[trigger] pending.contains_key(k) ==> after.contains_key(k)
        }),
    decreases requests.len(),
{
    if requests.len() > 0 {
        let key = requests[0].key;
        let rest = requests.skip(1);
        match requests[0].source {
            None => {
                prefetch_respects_its_bounds(slots, broken, cap, epoch, pending, rest);
            },
            Some((path, rotation)) => {
                if slots.contains_key(key) || broken.contains_key(key) || (pending.contains_key(key)
                    && components(pending[key].path@) == components(path@) && pending[key].rotation == rotation) {
                    prefetch_respects_its_bounds(slots, broken, cap, epoch, pending, rest);
                } else if pending.dom().len() >= cap {
                } else {
                    let next = pending.insert(key, Pending { path, rotation, ticket: epoch });
                    prefetch_respects_its_bounds(slots, broken, cap, epoch, next, rest);
                    let (after, jobs) = prefetched(slots, broken, cap, epoch, pending, requests);
                    let (after2, jobs2) = prefetched(slots, broken, cap, epoch, next, rest);
                    assert(next.contains_key(key));
                    assert forall|i: int| 0 <= i < jobs.len() implies !slots.contains_key((#[trigger] jobs[i]).key)
                        && !broken.contains_key(jobs[i].key) && after.contains_key(jobs[i].key) && jobs[i].ticket
                        == epoch by {
                        if i > 0 {
                            assert(jobs[i] == jobs2[i - 1]);
                        }
                    }
                    assert forall|k: TexKey| #[trigger] pending.contains_key(k) implies after.contains_key(k) by {
                        assert(next.contains_key(k));
                    }
                    assert(next.dom().len() <= pending.dom().len() + 1);
                }
            },
        }
    }
}

/// After forgetting the photos of a closed folder, no layer of the cache
/// names one of them any more.
pub proof fn retain_forgets_every_layer<I>(textures: Textures<I>, keep: Seq<PhotoId>, k: TexKey)
    requires
        !keep.contains(k.id),
    ensures
        !accepted(textures.slots@, slot_of(keep)).contains_key(k),
        !accepted(textures.pending@, pending_of(keep)).contains_key(k),
        !accepted(textures.broken@, broken_of(keep)).contains_key(k),
        forall|i: int|
            0 <= i < sift(result_of::<I>(keep), textures.ready@).len() ==> (#[trigger] sift(
                result_of::<I>(keep),
                textures.ready@,
            )[i]).key != k,
{
    lemma_sift_members(result_of::<I>(keep), textures.ready@);
}

} // verus!
