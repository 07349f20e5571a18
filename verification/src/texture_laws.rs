//! What becomes of each request, result and texture, key by key.

use vstd::prelude::*;

use crate::keymap::{accepted, key_le, SizeClass, TexKey};
use crate::model::PhotoId;
use crate::orient::{upright, Raster};
use crate::path::components;
use crate::tex::{
    answers, broken_of, colder, eviction_fits, frame_stage, pending_of, pick, pick_one, picture_bytes, prefetched, result_of,
    shed, sift, slot_of, still_due, total, upload_bytes, wanted, BrokenFile, Decoded, Limits, Pending,
    Picture, Request, Rotation, Slot, Stage, Textures, Upload,
};

verus! {

/// A texture is fresh, broken or awaited for a file and a turning exactly if
/// that is what is noted of its key.
pub proof fn textures_go_by_file_and_turning<I>(
    textures: Textures<I>,
    key: TexKey,
    path: Seq<char>,
    rotation: Rotation,
)
    ensures
        textures.is_fresh(key, path, rotation) <==> textures.slots@.contains_key(key) && components(
            textures.slots@[key].path@,
        ) == components(path) && textures.slots@[key].rotation.exif == rotation.exif
            && textures.slots@[key].rotation.cw_turns == rotation.cw_turns,
        textures.is_broken(key, path, rotation) <==> textures.broken@.contains_key(key) && components(
            textures.broken@[key].path@,
        ) == components(path) && textures.broken@[key].rotation.exif == rotation.exif
            && textures.broken@[key].rotation.cw_turns == rotation.cw_turns,
        textures.is_awaited(key, path, rotation) <==> textures.pending@.contains_key(key) && components(
            textures.pending@[key].path@,
        ) == components(path) && textures.pending@[key].rotation.exif == rotation.exif
            && textures.pending@[key].rotation.cw_turns == rotation.cw_turns,
{
}

/// A result counts only for the file and the turning that its key is waiting
/// for.
pub proof fn superseded_results_do_not_count<I>(pending: Map<TexKey, Pending>, d: Decoded<I>)
    ensures
        wanted(pending, d) <==> pending.contains_key(d.key) && components(pending[d.key].path@) == components(d.path@)
            && pending[d.key].rotation.exif == d.rotation.exif && pending[d.key].rotation.cw_turns
            == d.rotation.cw_turns,
{
}

/// The oldest waiting result is dealt with first. An awaited picture is
/// uploaded and live from then on, with its file, turning and bytes; an
/// awaited failure is noted; what is not awaited is dropped.
pub proof fn the_oldest_result_is_dealt_with<I>(stage: Stage<I>, frame: u64)
    requires
        stage.ready.len() > 0,
    ensures
        ({
            let d = stage.ready[0];
            let after = pick_one(stage, frame);
            &&& after.ready == stage.ready.skip(1)
            &&& !wanted(stage.pending, d) ==> after.pending == stage.pending && after.slots == stage.slots
                && after.broken == stage.broken && after.uploads == stage.uploads
            &&& (wanted(stage.pending, d) ==> !after.pending.contains_key(d.key) && forall|k: TexKey|
                k != d.key ==> (#[trigger] after.pending.contains_key(k) <==> stage.pending.contains_key(k)))
            &&& (wanted(stage.pending, d) ==> (d.image matches Ok(picture) ==> {
                &&& after.slots.contains_key(d.key)
                &&& after.slots[d.key].path == d.path
                &&& after.slots[d.key].rotation == d.rotation
                &&& after.slots[d.key].last_used == frame
                &&& picture.width * picture.height * 4 <= u128::MAX ==> after.slots[d.key].bytes == picture.width
                    * picture.height * 4
                &&& after.uploads.len() == stage.uploads.len() + 1
                &&& after.uploads.last().key == d.key
                &&& after.uploads.last().picture == picture
                &&& after.broken == stage.broken
            }))
            &&& (wanted(stage.pending, d) && d.image is Err ==> {
                &&& after.broken.contains_key(d.key)
                &&& after.broken[d.key].path == d.path
                &&& after.broken[d.key].rotation == d.rotation
                &&& after.slots == stage.slots
                &&& after.uploads == stage.uploads
            })
        }),
{
}

/// Results are dealt with one after the other, as many as allowed or as there
/// are.
pub proof fn results_are_dealt_with_in_order<I>(stage: Stage<I>, frame: u64, n: int)
    requires
        n >= 0,
    ensures
        n == 0 ==> pick(stage, frame, n) == stage,
        stage.ready.len() == 0 ==> pick(stage, frame, n) == stage,
        n > 0 && stage.ready.len() > 0 ==> pick(stage, frame, n) == pick(pick_one(stage, frame), frame, n - 1),
        pick(stage, frame, n).ready == stage.ready.skip(
            if n < stage.ready.len() {
                n
            } else {
                stage.ready.len() as int
            },
        ),
    decreases n,
{
    if n > 0 && stage.ready.len() > 0 {
        let next = pick_one(stage, frame);
        results_are_dealt_with_in_order(next, frame, n - 1);
        let m = if n < stage.ready.len() {
            n
        } else {
            stage.ready.len() as int
        };
        assert(stage.ready.skip(1).skip(m - 1) =~= stage.ready.skip(m));
    } else {
        assert(stage.ready.skip(0) =~= stage.ready);
    }
}

/// The first waiting result is dealt with in the next frame, if the frame may
/// upload at all and the backlog is within its bound: what has been waiting
/// comes before what just arrived, and an awaited picture is uploaded.
pub proof fn waiting_pictures_are_uploaded<I>(textures: Textures<I>, results: Seq<Decoded<I>>)
    requires
        textures.limits.max_uploads > 0,
        textures.ready@.len() + results.len() <= textures.limits.ready_cap,
        textures.frame < u64::MAX,
    ensures
        ({
            let stage = frame_stage(textures, results);
            let first = if textures.ready@.len() > 0 {
                textures.ready@[0]
            } else {
                results[0]
            };
            textures.ready@.len() + results.len() > 0 && wanted(textures.pending@, first) ==> (
            first.image matches Ok(picture) ==> stage.uploads.len() > 0 && stage.uploads[0].key == first.key
                && stage.uploads[0].picture == picture)
        }),
{
    let rule = answers::<I>(textures.pending@);
    let kept = sift(rule, results);
    let waiting = textures.ready@ + kept;
    let first = if textures.ready@.len() > 0 {
        textures.ready@[0]
    } else {
        results[0]
    };
    if textures.ready@.len() + results.len() > 0 && wanted(textures.pending@, first) && first.image is Ok {
        sifting_keeps_what_is_accepted(rule, results, first);
        if textures.ready@.len() == 0 {
            lemma_sift_first(rule, results);
        }
        assert(waiting[0] == first);
        assert(waiting.len() <= textures.limits.ready_cap);
        let start = Stage {
            pending: textures.pending@,
            ready: waiting,
            slots: textures.slots@,
            broken: textures.broken@,
            uploads: Seq::<Upload<I>>::empty(),
        };
        let frame = (textures.frame + 1) as u64;
        let next = pick_one(start, frame);
        assert(next.uploads.len() == 1);
        crate::tex_laws::lemma_pick(next, frame, textures.limits.max_uploads - 1);
        assert(pick(start, frame, textures.limits.max_uploads as int) == pick(
            next,
            frame,
            textures.limits.max_uploads - 1,
        ));
        assert(frame_stage(textures, results).uploads[0] == next.uploads[0]);
    }
}

proof fn lemma_sift_first<I>(rule: spec_fn(Decoded<I>) -> bool, s: Seq<Decoded<I>>)
    requires
        s.len() > 0,
        rule(s[0]),
    ensures
        sift(rule, s).len() > 0,
        sift(rule, s)[0] == s[0],
    decreases s.len(),
{
    if s.len() > 1 {
        lemma_sift_first(rule, s.drop_last());
    } else {
        assert(sift(rule, s.drop_last()).len() == 0);
    }
}

/// A backlog within its bound is left alone.
pub proof fn short_backlogs_stay<I>(pending: Map<TexKey, Pending>, ready: Seq<Decoded<I>>, cap: int)
    requires
        ready.len() <= cap,
    ensures
        shed(pending, ready, cap).0 == pending,
        shed(pending, ready, cap).1 == ready,
{
}

/// A picture takes four bytes for each pixel, and textures what they take
/// together.
pub proof fn bytes_add_up<I>(
    picture: Picture<I>,
    entries: Seq<(TexKey, Slot)>,
    entry: (TexKey, Slot),
    uploads: Seq<Upload<I>>,
    upload: Upload<I>,
)
    ensures
        picture_bytes(picture) == 4 * (picture.width * picture.height),
        total(Seq::<(TexKey, Slot)>::empty()) == 0,
        total(entries.push(entry)) == total(entries) + entry.1.bytes,
        upload_bytes(Seq::<Upload<I>>::empty()) == 0,
        upload_bytes(uploads.push(upload)) == upload_bytes(uploads) + 4 * (upload.picture.width
            * upload.picture.height),
{
    assert(entries.push(entry).drop_last() =~= entries);
    assert(uploads.push(upload).drop_last() =~= uploads);
    assert(picture.width * picture.height * 4 == 4 * (picture.width * picture.height)) by (nonlinear_arith);
    assert(upload.picture.width * upload.picture.height * 4 == 4 * (upload.picture.width * upload.picture.height))
        by (nonlinear_arith);
}

/// Within the budget nothing is evicted. Above it textures go until no more
/// than three quarters of the budget are taken, and no more of them than that
/// needs; whatever goes was used no later than whatever stays.
pub proof fn the_coldest_textures_go(
    limits: Limits,
    slots: Map<TexKey, Slot>,
    bytes: int,
    evicted: Seq<TexKey>,
    left: Map<TexKey, Slot>,
    left_bytes: int,
)
    requires
        eviction_fits(limits, slots, bytes, evicted, left, left_bytes),
    ensures
        bytes <= limits.byte_budget ==> evicted.len() == 0 && left == slots && left_bytes == bytes,
        bytes > limits.byte_budget ==> 4 * left_bytes <= 3 * limits.byte_budget,
        bytes > limits.byte_budget ==> evicted.len() > 0 && 4 * (left_bytes + slots[evicted.last()].bytes) > 3
            * limits.byte_budget,
        forall|k: TexKey| #[trigger] left.contains_key(k) <==> slots.contains_key(k) && !evicted.contains(k),
        forall|k: TexKey| #[trigger] left.contains_key(k) ==> left[k] == slots[k],
        forall|i: int, k: TexKey|
            0 <= i < evicted.len() && #[trigger] left.contains_key(k) ==> slots[#[trigger] evicted[i]].last_used
                <= slots[k].last_used,
        forall|i: int, j: int|
            0 <= i < j < evicted.len() ==> slots[#[trigger] evicted[i]].last_used <= slots[#[trigger] evicted[j]].last_used,
{
    if bytes > limits.byte_budget {
        assert forall|k: TexKey| #[trigger] left.contains_key(k) <==> slots.contains_key(k) && !evicted.contains(k) by {
            assert(evicted.to_set().contains(k) <==> evicted.contains(k));
        }
        assert forall|i: int, k: TexKey|
            0 <= i < evicted.len() && #[trigger] left.contains_key(k) implies slots[#[trigger] evicted[i]].last_used
            <= slots[k].last_used by {
            assert(colder(slots, evicted[i], k));
        }
        assert forall|i: int, j: int| 0 <= i < j < evicted.len() implies slots[#[trigger] evicted[i]].last_used
            <= slots[#[trigger] evicted[j]].last_used by {
            assert(colder(slots, evicted[i], evicted[j]));
        }
    }
}

/// Textures of equal age go by photo, thumbnails before previews.
pub proof fn keys_are_ordered_by_photo(a: TexKey, b: TexKey)
    ensures
        a.id.0 < b.id.0 ==> key_le(a, b) && !key_le(b, a),
        a.id == b.id && a.class == SizeClass::Thumb ==> key_le(a, b),
        a.id == b.id && a.class == SizeClass::Screen && b.class == SizeClass::Thumb ==> !key_le(a, b),
        key_le(a, a),
{
}

/// After the window moved exactly the decodes are awaited that were asked for
/// in this epoch or are on screen.
pub proof fn unseen_decodes_are_forgotten(pending: Map<TexKey, Pending>, visible: Seq<TexKey>, epoch: u64, k: TexKey)
    ensures
        accepted(pending, still_due(visible, epoch)).contains_key(k) <==> pending.contains_key(k) && (pending[k].ticket
            == epoch || visible.contains(k)),
        accepted(pending, still_due(visible, epoch)).contains_key(k) ==> accepted(pending, still_due(visible, epoch))[k]
            == pending[k],
{
}

/// Everything about the photos to keep stays, and nothing else does.
pub proof fn kept_photos_keep_everything<I>(textures: Textures<I>, keep: Seq<PhotoId>, k: TexKey, d: Decoded<I>)
    ensures
        accepted(textures.slots@, slot_of(keep)).contains_key(k) <==> textures.slots@.contains_key(k) && keep.contains(k.id),
        accepted(textures.pending@, pending_of(keep)).contains_key(k) <==> textures.pending@.contains_key(k)
            && keep.contains(k.id),
        accepted(textures.broken@, broken_of(keep)).contains_key(k) <==> textures.broken@.contains_key(k)
            && keep.contains(k.id),
        keep.contains(k.id) && textures.slots@.contains_key(k) ==> accepted(textures.slots@, slot_of(keep))[k]
            == textures.slots@[k],
        keep.contains(k.id) && textures.pending@.contains_key(k) ==> accepted(textures.pending@, pending_of(keep))[k]
            == textures.pending@[k],
        sift(result_of::<I>(keep), textures.ready@).contains(d) <==> textures.ready@.contains(d) && keep.contains(
            d.key.id,
        ),
{
    sifting_keeps_what_is_accepted(result_of::<I>(keep), textures.ready@, d);
}

/// Sifting keeps exactly the results that the rule accepts; if it accepts all
/// of them, all stay in order.
pub proof fn sifting_keeps_what_is_accepted<I>(rule: spec_fn(Decoded<I>) -> bool, s: Seq<Decoded<I>>, d: Decoded<I>)
    ensures
        sift(rule, s).contains(d) <==> s.contains(d) && rule(d),
        (forall|i: int| 0 <= i < s.len() ==> rule(#[trigger] s[i])) ==> sift(rule, s) == s,
        sift(rule, s).len() <= s.len(),
    decreases s.len(),
{
    if s.len() > 0 {
        let head = s.drop_last();
        sifting_keeps_what_is_accepted(rule, head, d);
        let before = sift(rule, head);
        crate::order::lemma_push_contains(before, s.last());
        crate::order::lemma_push_contains(head, s.last());
        assert(s =~= head.push(s.last()));
        assert(s.contains(d) <==> head.contains(d) || s.last() == d);
        if rule(s.last()) {
            assert(before.push(s.last()).contains(d) <==> before.contains(d) || s.last() == d);
        }
        if forall|i: int| 0 <= i < s.len() ==> rule(#[trigger] s[i]) {
            assert forall|i: int| 0 <= i < head.len() implies rule(#[trigger] head[i]) by {
                assert(head[i] == s[i]);
            }
            assert(rule(s[s.len() - 1]));
        }
    } else {
        assert(sift(rule, s) =~= s);
    }
}

/// As long as fewer decodes are outstanding than allowed, every request with a
/// file that is neither live nor broken is awaited afterwards.
pub proof fn requests_are_met_below_the_cap(
    slots: Map<TexKey, Slot>,
    broken: Map<TexKey, BrokenFile>,
    cap: int,
    epoch: u64,
    pending: Map<TexKey, Pending>,
    requests: Seq<Request>,
    i: int,
)
    requires
        pending.dom().finite(),
        pending.dom().len() + requests.len() <= cap,
        0 <= i < requests.len(),
        requests[i].source is Some,
        !slots.contains_key(requests[i].key),
        !broken.contains_key(requests[i].key),
    ensures
        prefetched(slots, broken, cap, epoch, pending, requests).0.contains_key(requests[i].key),
    decreases requests.len(),
{
    let key = requests[0].key;
    let rest = requests.skip(1);
    let next = match requests[0].source {
        None => pending,
        Some((path, rotation)) => if slots.contains_key(key) || broken.contains_key(key) || (pending.contains_key(key)
            && components(pending[key].path@) == components(path@) && pending[key].rotation == rotation) {
            pending
        } else {
            pending.insert(key, Pending { path, rotation, ticket: epoch })
        },
    };
    assert(next.dom().finite() && next.dom().len() <= pending.dom().len() + 1);
    if i > 0 {
        assert(rest[i - 1] == requests[i]);
        requests_are_met_below_the_cap(slots, broken, cap, epoch, next, rest, i - 1);
    } else {
        assert(next.contains_key(key));
        crate::tex_laws::prefetch_respects_its_bounds(slots, broken, cap, epoch, next, rest);
    }
}

/// A request for a file that is neither live, broken nor awaited starts its
/// decode at once, unless too many are outstanding; then nothing is started.
pub proof fn requests_start_their_decode(
    slots: Map<TexKey, Slot>,
    broken: Map<TexKey, BrokenFile>,
    cap: int,
    epoch: u64,
    pending: Map<TexKey, Pending>,
    requests: Seq<Request>,
)
    requires
        requests.len() > 0,
    ensures
        ({
            let (after, jobs) = prefetched(slots, broken, cap, epoch, pending, requests);
            let key = requests[0].key;
            (requests[0].source matches Some((path, rotation)) ==> !slots.contains_key(key) && !broken.contains_key(key)
                && !pending.contains_key(key) ==> {
                &&& pending.dom().len() < cap ==> jobs.len() > 0 && jobs[0].key == key && jobs[0].path == path
                    && jobs[0].rotation == rotation && jobs[0].ticket == epoch
                &&& pending.dom().len() >= cap ==> jobs.len() == 0 && after == pending
            })
        }),
{
}

/// A flag moves every pixel to its place: mirrored, upside down, or on its
/// side one way or the other.
pub proof fn flags_move_every_pixel(r: Raster, x: int, y: int)
    requires
        0 <= x,
        0 <= y,
    ensures
        upright(r, Rotation { exif: 1, cw_turns: 0 }) == r,
        x < r.w && y < r.h ==> upright(r, Rotation { exif: 2, cw_turns: 0 }).px[(x, y)] == r.px[(r.w - 1 - x, y)],
        x < r.w && y < r.h ==> upright(r, Rotation { exif: 3, cw_turns: 0 }).px[(x, y)] == r.px[(r.w - 1 - x, r.h - 1 - y)],
        x < r.w && y < r.h ==> upright(r, Rotation { exif: 4, cw_turns: 0 }).px[(x, y)] == r.px[(x, r.h - 1 - y)],
        x < r.h && y < r.w ==> upright(r, Rotation { exif: 5, cw_turns: 0 }).px[(x, y)] == r.px[(y, x)],
        x < r.h && y < r.w ==> upright(r, Rotation { exif: 6, cw_turns: 0 }).px[(x, y)] == r.px[(y, r.h - 1 - x)],
        x < r.h && y < r.w ==> upright(r, Rotation { exif: 7, cw_turns: 0 }).px[(x, y)] == r.px[(r.w - 1 - y, r.h - 1 - x)],
        x < r.h && y < r.w ==> upright(r, Rotation { exif: 8, cw_turns: 0 }).px[(x, y)] == r.px[(r.w - 1 - y, x)],
        x < r.h && y < r.w ==> upright(r, Rotation { exif: 1, cw_turns: 1 }).px[(x, y)] == r.px[(y, r.h - 1 - x)],
        x < r.w && y < r.h ==> upright(r, Rotation { exif: 1, cw_turns: 2 }).px[(x, y)] == r.px[(r.w - 1 - x, r.h - 1 - y)],
        x < r.h && y < r.w ==> upright(r, Rotation { exif: 1, cw_turns: 3 }).px[(x, y)] == r.px[(r.w - 1 - y, x)],
{
    reveal_with_fuel(crate::orient::turned_by, 4);
}

/// A user's turn comes on top of whatever the flag asks for: every flag, and
/// every turn up to three.
pub proof fn turns_come_on_top_of_the_flag(r: Raster, exif: u16, turns: u8, x: int, y: int)
    requires
        turns < 3,
        ({
            let before = upright(r, Rotation { exif, cw_turns: turns });
            0 <= x < before.h && 0 <= y < before.w
        }),
    ensures
        ({
            let before = upright(r, Rotation { exif, cw_turns: turns });
            let after = upright(r, Rotation { exif, cw_turns: (turns + 1) as u8 });
            &&& after.w == before.h
            &&& after.h == before.w
            &&& after.px[(x, y)] == before.px[(y, before.h - 1 - x)]
        }),
        upright(r, Rotation { exif: 0, cw_turns: 0 }) == r,
        exif > 8 ==> upright(r, Rotation { exif, cw_turns: 0 }) == r,
{
    reveal_with_fuel(crate::orient::turned_by, 4);
}

} // verus!
