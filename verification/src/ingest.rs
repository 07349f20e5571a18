//! The extraction queue: which photo is extracted next, which results still
//! count, and when a batch is done.
//!
//! Every batch is a generation of its own. A newer one, or a cancellation,
//! makes the results of the older ones stale: they are dropped without
//! touching the index. Every job of a batch ends exactly once, done or
//! dropped, and the last one reports the batch as finished.

use std::collections::{HashMap, VecDeque};

use vstd::prelude::*;

use crate::model::{IngestInfo, PendingPhoto, PhotoId};

verus! {

broadcast use vstd::std_specs::hash::group_hash_axioms;

/// Most workers a pipeline runs.
pub const MAX_INGEST_WORKERS: usize = 12;

/// Workers where the number of processors is unknown.
pub const DEFAULT_WORKERS: usize = 4;

/// News from a running batch.
#[derive(Clone, Copy, Debug, PartialEq, Eq, Structural)]
pub enum IngestEvent {
    /// A photo was extracted.
    Ingested(PhotoId),
    /// A photo could not be extracted.
    Failed(PhotoId),
    /// The last job of a batch was done or dropped.
    Finished { generation: u64 },
}

/// A photo waiting for extraction.
#[derive(Debug)]
pub struct Job {
    /// Generation of its batch.
    pub generation: u64,
    /// The photo.
    pub photo: PendingPhoto,
}

/// How far a batch is.
#[derive(Clone, Copy, Debug, PartialEq, Eq, Structural)]
pub struct Batch {
    /// Jobs that have not ended.
    pub remaining: usize,
    /// Jobs in the hands of workers.
    pub in_flight: usize,
}

/// The extraction queue.
pub struct IngestPipeline {
    /// The generation that counts.
    pub generation: u64,
    /// Waiting jobs, next one first.
    pub queue: VecDeque<Job>,
    /// Unfinished batches by generation.
    pub batches: HashMap<u64, Batch>,
}

/// What a worker does with the result of an extraction.
#[derive(Debug)]
pub enum AfterExtract {
    /// Forget it: the batch was superseded.
    Drop,
    /// Write it to the index.
    Store(IngestInfo),
    /// Write the message to the index and report the photo as failed.
    Fail(String),
}

/// What a worker does once the result was written to the index, or not.
#[derive(Debug)]
pub enum AfterStore {
    /// Report this.
    Report(IngestEvent),
    /// Nothing: the batch was superseded.
    Drop,
    /// Write the message to the index and report the photo as failed.
    Fail(String),
}

/// Number of waiting jobs of a generation.
pub open spec fn queued(queue: Seq<Job>, generation: u64) -> int
    decreases queue.len(),
{
    if queue.len() == 0 {
        0
    } else {
        queued(queue.drop_first(), generation) + if queue[0].generation == generation {
            1int
        } else {
            0
        }
    }
}

proof fn lemma_queued_bounds(queue: Seq<Job>, generation: u64)
    ensures
        0 <= queued(queue, generation) <= queue.len(),
    decreases queue.len(),
{
    if queue.len() > 0 {
        lemma_queued_bounds(queue.drop_first(), generation);
    }
}

proof fn lemma_queued_concat(a: Seq<Job>, b: Seq<Job>, generation: u64)
    ensures
        queued(a + b, generation) == queued(a, generation) + queued(b, generation),
    decreases a.len(),
{
    if a.len() == 0 {
        assert(a + b =~= b);
    } else {
        assert((a + b).drop_first() =~= a.drop_first() + b);
        lemma_queued_concat(a.drop_first(), b, generation);
    }
}

proof fn lemma_queued_push(a: Seq<Job>, job: Job, generation: u64)
    ensures
        queued(a.push(job), generation) == queued(a, generation) + if job.generation == generation {
            1int
        } else {
            0
        },
{
    assert(a.push(job) =~= a + seq![job]);
    lemma_queued_concat(a, seq![job], generation);
    assert(seq![job].drop_first() =~= Seq::<Job>::empty());
    assert(queued(seq![job], generation) == queued(Seq::<Job>::empty(), generation) + if job.generation == generation {
        1int
    } else {
        0
    });
}

proof fn lemma_queued_member(queue: Seq<Job>, i: int)
    requires
        0 <= i < queue.len(),
    ensures
        queued(queue, queue[i].generation) > 0,
    decreases queue.len(),
{
    lemma_queued_bounds(queue.drop_first(), queue[i].generation);
    if i > 0 {
        lemma_queued_member(queue.drop_first(), i - 1);
    }
}

/// The books of a batch agree with the queue.
pub open spec fn accounted(queue: Seq<Job>, batch: Batch, generation: u64) -> bool {
    &&& batch.remaining == batch.in_flight + queued(queue, generation)
    &&& batch.remaining > 0
}

/// The waiting jobs of photos in, or not in, a set; in queue order.
pub open spec fn picked(queue: Seq<Job>, wanted: Set<PhotoId>, within: bool) -> Seq<Job>
    decreases queue.len(),
{
    if queue.len() == 0 {
        Seq::empty()
    } else {
        let head = picked(queue.drop_last(), wanted, within);
        if wanted.contains(queue.last().photo.id) == within {
            head.push(queue.last())
        } else {
            head
        }
    }
}

/// The jobs of a new batch.
pub open spec fn jobs_of(photos: Seq<PendingPhoto>, generation: u64) -> Seq<Job> {
    Seq::new(photos.len(), |i: int| Job { generation, photo: photos[i] })
}

/// What cancelling the first `k` waiting jobs reports: each batch of which no
/// job is in a worker's hands, when its last waiting job goes.
pub open spec fn drained_events(queue: Seq<Job>, batches: Map<u64, Batch>, k: int) -> Seq<IngestEvent>
    decreases k,
{
    if k <= 0 {
        Seq::empty()
    } else {
        let before = drained_events(queue, batches, k - 1);
        let generation = queue[k - 1].generation;
        if batches[generation].in_flight == 0 && queued(queue.skip(k), generation) == 0 {
            before.push(IngestEvent::Finished { generation })
        } else {
            before
        }
    }
}

impl IngestPipeline {
    /// The books agree with the queue: exactly the unfinished batches are in
    /// them, each with what is waiting and what is in the hands of workers.
    pub open spec fn wf(self) -> bool {
        &&& forall|g: u64| #[trigger]
            self.batches@.contains_key(g) ==> g <= self.generation && accounted(self.queue@, self.batches@[g], g)
        &&& forall|i: int|
            0 <= i < self.queue@.len() ==> self.batches@.contains_key((#[trigger] self.queue@[i]).generation)
    }

    /// A pipeline with nothing to do.
    pub fn new() -> (pipeline: Self)
        ensures
            pipeline.wf(),
            pipeline.generation == 0,
            pipeline.queue@.len() == 0,
            pipeline.batches@ == Map::<u64, Batch>::empty(),
    {
        IngestPipeline { generation: 0, queue: VecDeque::new(), batches: HashMap::new() }
    }

    /// Queues photos as the next generation and returns it. An empty list
    /// changes nothing and returns the current one.
    pub fn enqueue(&mut self, photos: Vec<PendingPhoto>) -> (generation: u64)
        requires
            old(self).wf(),
            old(self).generation < u64::MAX,
        ensures
            final(self).wf(),
            generation == final(self).generation,
            if photos@.len() == 0 {
                *final(self) == *old(self)
            } else {
                &&& final(self).generation == old(self).generation + 1
                &&& final(self).queue@ == old(self).queue@ + jobs_of(photos@, final(self).generation)
                &&& final(self).batches@ == old(self).batches@.insert(
                    final(self).generation,
                    Batch { remaining: photos@.len() as usize, in_flight: 0 },
                )
            },
    {
        if photos.len() == 0 {
            return self.generation;
        }
        let ghost before = self.queue@;
        let ghost books = self.batches@;
        self.generation = self.generation + 1;
        let generation: u64 = self.generation;
        let total: usize = photos.len();
        self.batches.insert(generation, Batch { remaining: total, in_flight: 0 });
        let ghost all = photos@;
        proof {
            assert(before + jobs_of(all, generation).take(0) =~= before);
        }
        for photo in it: photos
            invariant
                it.seq() == all,
                self.generation == generation,
                self.batches@ == books.insert(generation, Batch { remaining: total, in_flight: 0 }),
                self.queue@ == before + jobs_of(all, generation).take(it.index() as int),
        {
            self.queue.push_back(Job { generation, photo });
            proof {
                let done = it.index() as int;
                assert(jobs_of(all, generation).take(done + 1) =~= jobs_of(all, generation).take(done).push(
                    jobs_of(all, generation)[done],
                ));
                assert(self.queue@ =~= before + jobs_of(all, generation).take(done + 1));
            }
        }
        proof {
            let jobs = jobs_of(all, generation);
            assert(jobs.take(all.len() as int) =~= jobs);
            lemma_queued_jobs(all, generation, generation);
            assert(!books.contains_key(generation));
            assert forall|g: u64| #[trigger] self.batches@.contains_key(g) implies g <= self.generation && accounted(
                self.queue@,
                self.batches@[g],
                g,
            ) by {
                lemma_queued_concat(before, jobs, g);
                lemma_queued_jobs(all, generation, g);
                if g == generation {
                    lemma_queued_absent(before, g);
                } else {
                    assert(books.contains_key(g));
                }
            }
            assert forall|i: int| 0 <= i < self.queue@.len() implies self.batches@.contains_key(
                (#[trigger] self.queue@[i]).generation,
            ) by {
                if i < before.len() {
                    assert(self.queue@[i] == before[i]);
                    assert(books.contains_key(before[i].generation));
                } else {
                    assert(self.queue@[i] == jobs[i - before.len()]);
                }
            }
        }
        generation
    }

    /// Hands the next waiting job to a worker, who has to [`Self::finish`] it.
    pub fn next_job(&mut self) -> (job: Option<Job>)
        requires
            old(self).wf(),
        ensures
            final(self).wf(),
            match job {
                None => old(self).queue@.len() == 0 && *final(self) == *old(self),
                Some(job) => {
                    &&& old(self).queue@.len() > 0
                    &&& job == old(self).queue@[0]
                    &&& final(self).queue@ == old(self).queue@.drop_first()
                    &&& final(self).generation == old(self).generation
                    &&& old(self).batches@.contains_key(job.generation)
                    &&& final(self).batches@ == old(self).batches@.insert(
                        job.generation,
                        Batch {
                            remaining: old(self).batches@[job.generation].remaining,
                            in_flight: (old(self).batches@[job.generation].in_flight + 1) as usize,
                        },
                    )
                    &&& final(self).batches@[job.generation].in_flight > 0
                },
            },
    {
        if self.queue.len() == 0 {
            return None;
        }
        let ghost before = self.queue@;
        let ghost books = self.batches@;
        match self.queue.pop_front() {
            None => None,
            Some(job) => {
                let generation: u64 = job.generation;
                proof {
                    assert(job == before[0]);
                    assert(self.queue@ =~= before.drop_first());
                    assert(books.contains_key(before[0].generation));
                    lemma_queued_bounds(before.drop_first(), generation);
                }
                match self.batches.get(&generation) {
                    Some(batch) => {
                        let batch = Batch { remaining: batch.remaining, in_flight: batch.in_flight + 1 };
                        self.batches.insert(generation, batch);
                    },
                    None => {},
                }
                proof {
                    assert forall|i: int| 0 <= i < self.queue@.len() implies self.batches@.contains_key(
                        (#[trigger] self.queue@[i]).generation,
                    ) by {
                        assert(self.queue@[i] == before[i + 1]);
                        assert(books.contains_key(before[i + 1].generation));
                    }
                }
                Some(job)
            },
        }
    }

    /// Ends a job that a worker had; the last one of a batch reports it.
    pub fn finish(&mut self, generation: u64) -> (event: Option<IngestEvent>)
        requires
            old(self).wf(),
            old(self).batches@.contains_key(generation),
            old(self).batches@[generation].in_flight > 0,
        ensures
            final(self).wf(),
            final(self).queue == old(self).queue,
            final(self).generation == old(self).generation,
            ({
                let batch = old(self).batches@[generation];
                if batch.remaining == 1 {
                    &&& event == Some(IngestEvent::Finished { generation })
                    &&& final(self).batches@ == old(self).batches@.remove(generation)
                } else {
                    &&& event is None
                    &&& final(self).batches@ == old(self).batches@.insert(
                        generation,
                        Batch {
                            remaining: (batch.remaining - 1) as usize,
                            in_flight: (batch.in_flight - 1) as usize,
                        },
                    )
                }
            }),
    {
        let ghost books = self.batches@;
        proof {
            lemma_queued_bounds(self.queue@, generation);
            assert(accounted(self.queue@, books[generation], generation));
        }
        let batch: Batch = match self.batches.get(&generation) {
            Some(batch) => *batch,
            None => {
                return None;
            },
        };
        if batch.remaining == 1 {
            self.batches.remove(&generation);
            proof {
                assert forall|i: int| 0 <= i < self.queue@.len() implies self.batches@.contains_key(
                    (#[trigger] self.queue@[i]).generation,
                ) by {
                    lemma_queued_member(self.queue@, i);
                }
            }
            return Some(IngestEvent::Finished { generation });
        }
        self.batches.insert(generation, Batch { remaining: batch.remaining - 1, in_flight: batch.in_flight - 1 });
        None
    }

    /// Cancels every batch: results of jobs in the hands of workers no longer
    /// count, waiting jobs are dropped, and the batches that this finishes are
    /// reported.
    pub fn cancel(&mut self) -> (events: Vec<IngestEvent>)
        requires
            old(self).wf(),
            old(self).generation < u64::MAX,
        ensures
            final(self).wf(),
            final(self).generation == old(self).generation + 1,
            final(self).queue@.len() == 0,
            final(self).batches@ == still_running(old(self).batches@),
            events@ == drained_events(old(self).queue@, old(self).batches@, old(self).queue@.len() as int),
    {
        let ghost all = self.queue@;
        let ghost books = self.batches@;
        self.generation = self.generation + 1;
        let mut events: Vec<IngestEvent> = Vec::new();
        let ghost mut k: int = 0;
        proof {
            assert(all.skip(0) =~= all);
            assert forall|g: u64| #[trigger] books.contains_key(g) implies accounted(all, books[g], g) by {}
        }
        while self.queue.len() > 0
            invariant
                0 <= k <= all.len(),
                self.queue@ == all.skip(k),
                self.wf(),
                self.generation == old(self).generation + 1,
                events@ == drained_events(all, books, k),
                forall|g: u64| #[trigger] books.contains_key(g) ==> accounted(all, books[g], g),
                forall|i: int| 0 <= i < all.len() ==> books.contains_key((#[trigger] all[i]).generation),
                forall|g: u64| #[trigger]
                    self.batches@.contains_key(g) <==> books.contains_key(g) && (books[g].in_flight > 0 || queued(
                        self.queue@,
                        g,
                    ) > 0),
                forall|g: u64| #[trigger]
                    self.batches@.contains_key(g) ==> self.batches@[g].in_flight == books[g].in_flight,
            decreases self.queue.len(),
        {
            let ghost waiting = self.queue@;
            let ghost current = self.batches@;
            match self.queue.pop_front() {
                None => {},
                Some(job) => {
                    let generation: u64 = job.generation;
                    proof {
                        assert(job == waiting[0]);
                        assert(waiting[0] == all[k]);
                        assert(self.queue@ =~= waiting.drop_first());
                        assert(waiting.drop_first() =~= all.skip(k + 1));
                        lemma_queued_bounds(waiting.drop_first(), generation);
                        assert(current.contains_key(waiting[0].generation));
                        assert(accounted(waiting, current[generation], generation));
                    }
                    let batch: Batch = match self.batches.get(&generation) {
                        Some(batch) => *batch,
                        None => Batch { remaining: 1, in_flight: 0 },
                    };
                    if batch.remaining == 1 {
                        self.batches.remove(&generation);
                        events.push(IngestEvent::Finished { generation });
                    } else {
                        self.batches.insert(
                            generation,
                            Batch { remaining: batch.remaining - 1, in_flight: batch.in_flight },
                        );
                    }
                    proof {
                        k = k + 1;
                        assert forall|g: u64| #[trigger] self.batches@.contains_key(g) implies g <= self.generation
                            && accounted(self.queue@, self.batches@[g], g) by {
                            assert(current.contains_key(g));
                            assert(accounted(waiting, current[g], g));
                        }
                        assert forall|i: int| 0 <= i < self.queue@.len() implies self.batches@.contains_key(
                            (#[trigger] self.queue@[i]).generation,
                        ) by {
                            assert(self.queue@[i] == waiting[i + 1]);
                            assert(current.contains_key(waiting[i + 1].generation));
                            lemma_queued_member(self.queue@, i);
                        }
                        assert forall|g: u64| #[trigger]
                            self.batches@.contains_key(g) <==> books.contains_key(g) && (books[g].in_flight > 0
                                || queued(self.queue@, g) > 0) by {
                            assert(current.contains_key(g) <==> books.contains_key(g) && (books[g].in_flight > 0
                                || queued(waiting, g) > 0));
                            lemma_queued_bounds(self.queue@, g);
                        }
                    }
                },
            }
        }
        proof {
            assert(self.queue@ =~= Seq::<Job>::empty());
            assert(k == all.len());
            assert forall|g: u64| self.batches@.contains_key(g) implies self.batches@[g] == still_running(books)[g] by {
                assert(accounted(self.queue@, self.batches@[g], g));
            }
            assert(self.batches@ =~= still_running(books));
        }
        events
    }

    /// Moves the waiting jobs of some photos to the front; apart from that
    /// their order stays.
    pub fn prioritize(&mut self, ids: &Vec<PhotoId>)
        requires
            old(self).wf(),
        ensures
            final(self).wf(),
            final(self).generation == old(self).generation,
            final(self).batches == old(self).batches,
            final(self).queue@ == picked(old(self).queue@, ids@.to_set(), true) + picked(
                old(self).queue@,
                ids@.to_set(),
                false,
            ),
    {
        let ghost all = self.queue@;
        let ghost wanted = ids@.to_set();
        let mut head: VecDeque<Job> = VecDeque::new();
        let mut tail: VecDeque<Job> = VecDeque::new();
        let ghost mut k: int = 0;
        proof {
            assert(all.skip(0) =~= all);
            assert(all.take(0) =~= Seq::<Job>::empty());
        }
        while self.queue.len() > 0
            invariant
                0 <= k <= all.len(),
                wanted == ids@.to_set(),
                self.queue@ == all.skip(k),
                head@ == picked(all.take(k), wanted, true),
                tail@ == picked(all.take(k), wanted, false),
                self.generation == old(self).generation,
                self.batches == old(self).batches,
            decreases self.queue.len(),
        {
            match self.queue.pop_front() {
                None => {},
                Some(job) => {
                    proof {
                        assert(job == all[k]);
                        assert(self.queue@ =~= all.skip(k + 1));
                        assert(all.take(k + 1).drop_last() =~= all.take(k));
                        assert(all.take(k + 1).last() == all[k]);
                    }
                    if crate::tex::lists_id(ids, job.photo.id) {
                        head.push_back(job);
                    } else {
                        tail.push_back(job);
                    }
                    proof {
                        k = k + 1;
                    }
                },
            }
        }
        proof {
            assert(all.take(k) =~= all);
        }
        head.append(&mut tail);
        self.queue = head;
        proof {
            lemma_picked_counts(all, wanted);
            let a = picked(all, wanted, true);
            let b = picked(all, wanted, false);
            assert forall|g: u64| queued(a + b, g) == queued(all, g) by {
                lemma_queued_concat(a, b, g);
                assert(queued(a, g) + queued(b, g) == queued(all, g));
            }
            assert forall|i: int| 0 <= i < self.queue@.len() implies self.batches@.contains_key(
                (#[trigger] self.queue@[i]).generation,
            ) by {
                let g = self.queue@[i].generation;
                lemma_queued_member(self.queue@, i);
                assert(queued(a + b, g) == queued(all, g));
                lemma_queued_present(all, g);
            }
            assert forall|g: u64| #[trigger] self.batches@.contains_key(g) implies accounted(
                self.queue@,
                self.batches@[g],
                g,
            ) by {
                assert(queued(a + b, g) == queued(all, g));
            }
        }
    }

    /// Whether results of a generation no longer count.
    pub fn is_stale(&self, generation: u64) -> (stale: bool)
        ensures
            stale == (generation != self.generation),
    {
        self.generation != generation
    }

    /// What becomes of the result of an extraction.
    pub fn extracted(&self, generation: u64, result: Result<IngestInfo, String>) -> (next: AfterExtract)
        ensures
            next == (if generation != self.generation {
                AfterExtract::Drop
            } else {
                match result {
                    Ok(info) => AfterExtract::Store(info),
                    Err(message) => AfterExtract::Fail(message),
                }
            }),
    {
        if self.is_stale(generation) {
            return AfterExtract::Drop;
        }
        match result {
            Ok(info) => AfterExtract::Store(info),
            Err(message) => AfterExtract::Fail(message),
        }
    }

    /// What becomes of a result once it was written to the index, or could not
    /// be. What was written is reported in any case.
    pub fn stored(&self, generation: u64, id: PhotoId, result: Result<(), String>) -> (next: AfterStore)
        ensures
            next == (match result {
                Ok(_) => AfterStore::Report(IngestEvent::Ingested(id)),
                Err(message) => if generation != self.generation {
                    AfterStore::Drop
                } else {
                    AfterStore::Fail(message)
                },
            }),
    {
        match result {
            Ok(_) => AfterStore::Report(IngestEvent::Ingested(id)),
            Err(message) => if self.is_stale(generation) {
                AfterStore::Drop
            } else {
                AfterStore::Fail(message)
            },
        }
    }

    /// Number of workers to start for what is waiting.
    pub fn workers_wanted(&self, processors: Option<usize>) -> (n: usize)
        ensures
            n == (if self.queue@.len() < worker_limit(processors) {
                self.queue@.len() as int
            } else {
                worker_limit(processors) as int
            }),
    {
        let most: usize = max_workers(processors);
        if self.queue.len() < most {
            self.queue.len()
        } else {
            most
        }
    }

    /// The generation whose results count.
    pub fn active_generation(&self) -> (generation: u64)
        ensures
            generation == self.generation,
    {
        self.generation
    }
}

/// Number of workers for a number of processors.
pub open spec fn worker_limit(processors: Option<usize>) -> usize {
    let n = match processors {
        Some(n) => n,
        None => DEFAULT_WORKERS,
    };
    if n < 1 {
        1
    } else if n > MAX_INGEST_WORKERS {
        MAX_INGEST_WORKERS
    } else {
        n
    }
}

/// Number of workers for a number of processors.
pub fn max_workers(processors: Option<usize>) -> (n: usize)
    ensures
        n == worker_limit(processors),
        1 <= n <= MAX_INGEST_WORKERS,
{
    let n: usize = match processors {
        Some(n) => n,
        None => DEFAULT_WORKERS,
    };
    if n < 1 {
        1
    } else if n > MAX_INGEST_WORKERS {
        MAX_INGEST_WORKERS
    } else {
        n
    }
}

/// The batches of which workers have jobs, with nothing waiting.
pub open spec fn still_running(batches: Map<u64, Batch>) -> Map<u64, Batch> {
    Map::new(
        |g: u64| batches.contains_key(g) && batches[g].in_flight > 0,
        |g: u64| Batch { remaining: batches[g].in_flight, in_flight: batches[g].in_flight },
    )
}

proof fn lemma_queued_present(queue: Seq<Job>, g: u64)
    requires
        queued(queue, g) > 0,
    ensures
        exists|i: int| 0 <= i < queue.len() && (#[trigger] queue[i]).generation == g,
    decreases queue.len(),
{
    if queue[0].generation != g {
        let rest = queue.drop_first();
        lemma_queued_present(rest, g);
        let i = choose|i: int| 0 <= i < rest.len() && (#[trigger] rest[i]).generation == g;
        assert(queue[i + 1] == rest[i]);
    }
}

proof fn lemma_picked_counts(queue: Seq<Job>, wanted: Set<PhotoId>)
    ensures
        forall|g: u64| #![trigger queued(queue, g)]
            queued(picked(queue, wanted, true), g) + queued(picked(queue, wanted, false), g) == queued(queue, g),
    decreases queue.len(),
{
    if queue.len() > 0 {
        let head = queue.drop_last();
        lemma_picked_counts(head, wanted);
        assert forall|g: u64| #![trigger queued(queue, g)]
            queued(picked(queue, wanted, true), g) + queued(picked(queue, wanted, false), g) == queued(queue, g) by {
            assert(queue =~= head.push(queue.last()));
            lemma_queued_push(head, queue.last(), g);
            lemma_queued_push(picked(head, wanted, true), queue.last(), g);
            lemma_queued_push(picked(head, wanted, false), queue.last(), g);
            assert(queued(head, g) == queued(picked(head, wanted, true), g) + queued(picked(head, wanted, false), g));
        }
    }
}

/// Moving jobs to the front neither loses nor repeats a job.
pub proof fn prioritizing_keeps_every_job(queue: Seq<Job>, wanted: Set<PhotoId>)
    ensures
        (picked(queue, wanted, true) + picked(queue, wanted, false)).to_multiset() == queue.to_multiset(),
    decreases queue.len(),
{
    broadcast use vstd::seq_lib::group_to_multiset_ensures;

    let a = picked(queue, wanted, true);
    let b = picked(queue, wanted, false);
    vstd::seq_lib::lemma_multiset_commutative(a, b);
    if queue.len() > 0 {
        let head = queue.drop_last();
        let last = queue.last();
        let a0 = picked(head, wanted, true);
        let b0 = picked(head, wanted, false);
        prioritizing_keeps_every_job(head, wanted);
        vstd::seq_lib::lemma_multiset_commutative(a0, b0);
        assert(queue =~= head.push(last));
        assert(a.to_multiset().add(b.to_multiset()) =~= a0.to_multiset().add(b0.to_multiset()).insert(last));
    } else {
        assert(a + b =~= queue);
    }
}

/// A batch is reported finished when it leaves the books, and only then; the
/// report comes with the end of its last job.
pub proof fn batches_finish_once(before: IngestPipeline, after: IngestPipeline, generation: u64, event: Option<IngestEvent>)
    requires
        before.wf(),
        before.batches@.contains_key(generation),
        before.batches@[generation].in_flight > 0,
        ({
            let batch = before.batches@[generation];
            if batch.remaining == 1 {
                &&& event == Some(IngestEvent::Finished { generation })
                &&& after.batches@ == before.batches@.remove(generation)
            } else {
                &&& event is None
                &&& after.batches@ == before.batches@.insert(
                    generation,
                    Batch { remaining: (batch.remaining - 1) as usize, in_flight: (batch.in_flight - 1) as usize },
                )
            }
        }),
    ensures
        event == Some(IngestEvent::Finished { generation }) <==> !after.batches@.contains_key(generation),
        event is Some ==> queued(before.queue@, generation) == 0 && before.batches@[generation].in_flight == 1,
        forall|g: u64| g != generation ==> (#[trigger] after.batches@.contains_key(g) <==> before.batches@.contains_key(g)),
{
    lemma_queued_bounds(before.queue@, generation);
}

/// Cancelling reports every batch that leaves the books exactly once, and no
/// other.
pub proof fn cancelled_batches_finish_once(pipeline: IngestPipeline, generation: u64)
    requires
        pipeline.wf(),
    ensures
        ({
            let events = drained_events(pipeline.queue@, pipeline.batches@, pipeline.queue@.len() as int);
            let finished = IngestEvent::Finished { generation };
            &&& events.contains(finished) <==> pipeline.batches@.contains_key(generation) && !still_running(
                pipeline.batches@,
            ).contains_key(generation)
            &&& events.no_duplicates()
            &&& forall|i: int| 0 <= i < events.len() ==> (#[trigger] events[i]) is Finished
        }),
{
    let q = pipeline.queue@;
    let b = pipeline.batches@;
    lemma_drained(q, b, q.len() as int, generation);
    assert(q.skip(q.len() as int) =~= Seq::<Job>::empty());
    assert(q.skip(0) =~= q);
    lemma_queued_bounds(q, generation);
    lemma_drained_distinct(q, b, q.len() as int);
    if queued(q, generation) > 0 {
        lemma_queued_present(q, generation);
        let i = choose|i: int| 0 <= i < q.len() && (#[trigger] q[i]).generation == generation;
        assert(b.contains_key(q[i].generation));
    }
}

proof fn lemma_queued_skip(q: Seq<Job>, k: int, g: u64)
    requires
        0 < k <= q.len(),
    ensures
        queued(q.skip(k - 1), g) == queued(q.skip(k), g) + if q[k - 1].generation == g {
            1int
        } else {
            0
        },
{
    assert(q.skip(k - 1).drop_first() =~= q.skip(k));
}

proof fn lemma_drained(q: Seq<Job>, b: Map<u64, Batch>, k: int, g: u64)
    requires
        0 <= k <= q.len(),
    ensures
        drained_events(q, b, k).contains(IngestEvent::Finished { generation: g }) <==> b[g].in_flight == 0 && queued(
            q.skip(k),
            g,
        ) == 0 && queued(q.skip(0), g) > 0,
        forall|i: int| 0 <= i < drained_events(q, b, k).len() ==> (#[trigger] drained_events(q, b, k)[i]) is Finished,
    decreases k,
{
    if k > 0 {
        lemma_drained(q, b, k - 1, g);
        lemma_queued_skip(q, k, g);
        lemma_queued_bounds(q.skip(k), g);
        lemma_queued_from(q, k, g);
        let before = drained_events(q, b, k - 1);
        crate::order::lemma_push_contains(before, IngestEvent::Finished { generation: q[k - 1].generation });
    } else {
        assert(!drained_events(q, b, 0).contains(IngestEvent::Finished { generation: g }));
    }
}

proof fn lemma_queued_from(q: Seq<Job>, k: int, g: u64)
    requires
        0 <= k <= q.len(),
    ensures
        queued(q.skip(k), g) <= queued(q.skip(0), g),
        k > 0 && q[k - 1].generation == g ==> queued(q.skip(0), g) > 0,
    decreases k,
{
    if k > 0 {
        lemma_queued_from(q, k - 1, g);
        lemma_queued_skip(q, k, g);
        lemma_queued_bounds(q.skip(k), g);
    }
}

proof fn lemma_drained_distinct(q: Seq<Job>, b: Map<u64, Batch>, k: int)
    requires
        0 <= k <= q.len(),
    ensures
        drained_events(q, b, k).no_duplicates(),
    decreases k,
{
    if k > 0 {
        lemma_drained_distinct(q, b, k - 1);
        let g = q[k - 1].generation;
        let before = drained_events(q, b, k - 1);
        lemma_drained(q, b, k - 1, g);
        lemma_queued_skip(q, k, g);
        lemma_queued_bounds(q.skip(k), g);
        let event = IngestEvent::Finished { generation: g };
        assert(!before.contains(event));
        let after = drained_events(q, b, k);
        assert forall|i: int, j: int| 0 <= i < after.len() && 0 <= j < after.len() && i != j implies after[i]
            != after[j] by {
            if i < before.len() && j >= before.len() {
                assert(before.contains(before[i]));
            }
            if j < before.len() && i >= before.len() {
                assert(before.contains(before[j]));
            }
        }
    }
}

proof fn lemma_queued_jobs(photos: Seq<PendingPhoto>, generation: u64, g: u64)
    ensures
        queued(jobs_of(photos, generation), g) == (if g == generation {
            photos.len() as int
        } else {
            0
        }),
    decreases photos.len(),
{
    let jobs = jobs_of(photos, generation);
    if photos.len() > 0 {
        assert(jobs.drop_first() =~= jobs_of(photos.drop_first(), generation));
        lemma_queued_jobs(photos.drop_first(), generation, g);
    }
}

proof fn lemma_queued_absent(queue: Seq<Job>, g: u64)
    requires
        forall|i: int| 0 <= i < queue.len() ==> (#[trigger] queue[i]).generation != g,
    ensures
        queued(queue, g) == 0,
    decreases queue.len(),
{
    if queue.len() > 0 {
        let rest = queue.drop_first();
        assert forall|i: int| 0 <= i < rest.len() implies (#[trigger] rest[i]).generation != g by {
            assert(rest[i] == queue[i + 1]);
        }
        lemma_queued_absent(rest, g);
        assert(queue[0].generation != g);
    }
}

} // verus!
