//! In which order photos are extracted, and how batches are counted.

use vstd::prelude::*;

use crate::ingest::{jobs_of, picked, queued, still_running, worker_limit, Batch, Job};
use crate::model::{PendingPhoto, PhotoId};

verus! {

/// A batch is queued photo by photo, in order, under its generation.
pub proof fn batches_are_queued_in_order(photos: Seq<PendingPhoto>, generation: u64, i: int)
    requires
        0 <= i < photos.len(),
    ensures
        jobs_of(photos, generation).len() == photos.len(),
        jobs_of(photos, generation)[i].photo == photos[i],
        jobs_of(photos, generation)[i].generation == generation,
{
}

/// The waiting jobs of a generation are counted one by one.
pub proof fn waiting_jobs_are_counted(queue: Seq<Job>, generation: u64)
    ensures
        queued(queue, generation) == Set::new(|i: int| 0 <= i < queue.len() && queue[i].generation == generation).len(),
        Set::new(|i: int| 0 <= i < queue.len() && queue[i].generation == generation).finite(),
    decreases queue.len(),
{
    let own = Set::new(|i: int| 0 <= i < queue.len() && queue[i].generation == generation);
    if queue.len() == 0 {
        assert(own =~= Set::<int>::empty());
    } else {
        let rest = queue.drop_first();
        waiting_jobs_are_counted(rest, generation);
        let before = Set::new(|i: int| 0 <= i < rest.len() && rest[i].generation == generation);
        let shifted = before.map(|i: int| i + 1);
        lemma_shift(before);
        assert forall|i: int| shifted.contains(i) <==> i > 0 && own.contains(i) by {
            if shifted.contains(i) {
                let j = choose|j: int| before.contains(j) && j + 1 == i;
                assert(rest[j] == queue[j + 1]);
            }
            if i > 0 && own.contains(i) {
                assert(rest[i - 1] == queue[i]);
                assert(before.contains(i - 1));
                assert((i - 1) + 1 == i);
                assert(shifted.contains(i)) by {
                    let f = |i: int| i + 1;
                    assert(f(i - 1) == i);
                    assert(before.contains(i - 1) && i == f(i - 1));
                }
            }
        }
        if queue[0].generation == generation {
            assert(own =~= shifted.insert(0));
        } else {
            assert(own =~= shifted);
        }
    }
}

proof fn lemma_shift(s: Set<int>)
    requires
        s.finite(),
    ensures
        s.map(|i: int| i + 1).finite(),
        s.map(|i: int| i + 1).len() == s.len(),
{
    let f = |i: int| i + 1;
    assert(vstd::relations::injective(f));
    s.lemma_map_finite(f);
    vstd::set_lib::lemma_map_size(s, s.map(f), f);
}

/// Jobs that are wanted first come before all others, and neither part changes
/// its order.
pub proof fn wanted_jobs_come_first(queue: Seq<Job>, wanted: Set<PhotoId>, a: int, b: int)
    requires
        0 <= a < b < queue.len(),
    ensures
        ({
            let after = picked(queue, wanted, true) + picked(queue, wanted, false);
            &&& after.len() == queue.len()
            &&& wanted.contains(after[b].photo.id) ==> wanted.contains(after[a].photo.id)
        }),
{
    lemma_picked(queue, wanted, true);
    lemma_picked(queue, wanted, false);
    lemma_picked_len(queue, wanted);
    let first = picked(queue, wanted, true);
    let second = picked(queue, wanted, false);
    let after = first + second;
    if b < first.len() {
        assert(after[a] == first[a]);
    } else {
        assert(after[b] == second[b - first.len()]);
    }
}

proof fn lemma_picked(queue: Seq<Job>, wanted: Set<PhotoId>, within: bool)
    ensures
        forall|i: int|
            0 <= i < picked(queue, wanted, within).len() ==> wanted.contains(
                (#[trigger] picked(queue, wanted, within)[i]).photo.id,
            ) == within,
    decreases queue.len(),
{
    if queue.len() > 0 {
        lemma_picked(queue.drop_last(), wanted, within);
        let head = picked(queue.drop_last(), wanted, within);
        assert forall|i: int| 0 <= i < picked(queue, wanted, within).len() implies wanted.contains(
            (#[trigger] picked(queue, wanted, within)[i]).photo.id,
        ) == within by {
            if i < head.len() {
                assert(picked(queue, wanted, within)[i] == head[i]);
            }
        }
    }
}

proof fn lemma_picked_len(queue: Seq<Job>, wanted: Set<PhotoId>)
    ensures
        picked(queue, wanted, true).len() + picked(queue, wanted, false).len() == queue.len(),
    decreases queue.len(),
{
    if queue.len() > 0 {
        lemma_picked_len(queue.drop_last(), wanted);
    }
}

/// Picking jobs keeps their order: the jobs picked are those at increasing
/// places of the queue, and every job that belongs is picked.
pub proof fn picking_keeps_the_order(queue: Seq<Job>, wanted: Set<PhotoId>, within: bool) -> (places: Seq<int>)
    ensures
        places.len() == picked(queue, wanted, within).len(),
        forall|i: int|
            0 <= i < places.len() ==> 0 <= #[trigger] places[i] < queue.len() && queue[places[i]] == picked(
                queue,
                wanted,
                within,
            )[i],
        forall|i: int, j: int| 0 <= i < j < places.len() ==> #[trigger] places[i] < #[trigger] places[j],
        forall|p: int|
            0 <= p < queue.len() && wanted.contains((#[trigger] queue[p]).photo.id) == within ==> places.contains(p),
    decreases queue.len(),
{
    if queue.len() == 0 {
        Seq::empty()
    } else {
        let head = queue.drop_last();
        let before = picking_keeps_the_order(head, wanted, within);
        let last = queue.len() - 1;
        if wanted.contains(queue.last().photo.id) == within {
            let places = before.push(last);
            crate::order::lemma_push_contains(before, last);
            assert forall|i: int| 0 <= i < places.len() implies 0 <= #[trigger] places[i] < queue.len()
                && queue[places[i]] == picked(queue, wanted, within)[i] by {
                if i < before.len() {
                    assert(places[i] == before[i]);
                    assert(head[before[i]] == queue[before[i]]);
                }
            }
            assert forall|i: int, j: int| 0 <= i < j < places.len() implies #[trigger] places[i] < #[trigger] places[j] by {
                assert(places[i] == before[i]);
                if j < before.len() {
                    assert(places[j] == before[j]);
                }
            }
            assert forall|p: int|
                0 <= p < queue.len() && wanted.contains((#[trigger] queue[p]).photo.id) == within implies places.contains(p) by {
                if p < head.len() {
                    assert(head[p] == queue[p]);
                    assert(before.contains(p));
                }
            }
            places
        } else {
            assert forall|i: int| 0 <= i < before.len() implies 0 <= #[trigger] before[i] < queue.len()
                && queue[before[i]] == picked(queue, wanted, within)[i] by {
                assert(head[before[i]] == queue[before[i]]);
            }
            assert forall|p: int|
                0 <= p < queue.len() && wanted.contains((#[trigger] queue[p]).photo.id) == within implies before.contains(p) by {
                assert(p < head.len());
                assert(head[p] == queue[p]);
            }
            before
        }
    }
}

/// There are as many workers as processors, but at least one and at most
/// twelve; four if the number of processors is not known.
pub proof fn workers_match_the_processors(n: usize)
    ensures
        worker_limit(None) == 4,
        n == 0 ==> worker_limit(Some(n)) == 1,
        1 <= n <= 12 ==> worker_limit(Some(n)) == n,
        n > 12 ==> worker_limit(Some(n)) == 12,
{
}

/// After a cancellation exactly the batches with jobs in workers' hands are in
/// the books, each with these jobs and nothing waiting.
pub proof fn cancelling_keeps_what_is_in_hand(batches: Map<u64, Batch>, g: u64)
    ensures
        still_running(batches).contains_key(g) <==> batches.contains_key(g) && batches[g].in_flight > 0,
        still_running(batches).contains_key(g) ==> still_running(batches)[g].in_flight == batches[g].in_flight
            && still_running(batches)[g].remaining == batches[g].in_flight,
{
}

} // verus!
