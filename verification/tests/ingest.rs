//! The extraction queue.

use std::collections::HashSet;

use cullr::db::Db;
use cullr::ingest::{
    max_workers, AfterExtract, AfterStore, Batch, IngestEvent, IngestPipeline, Job, MAX_INGEST_WORKERS,
};
use cullr::model::{IngestInfo, PendingPhoto, PhotoId, PhotoMeta, PhotoStatus, ScanOptions};

fn root() -> String {
    "/photos".to_owned()
}

/// An index that holds this many photos waiting for extraction.
fn index_with(count: usize) -> Db {
    let scanned: Vec<PhotoMeta> = (0..count)
        .map(|index| PhotoMeta {
            root: root(),
            rel_path: format!("IMG_{index:04}.CR3"),
            mtime: 1_000_000_000,
            size: 7,
            jpeg_rel_path: None,
        })
        .collect();
    let mut db = Db::new();
    db.sync_scan(&root(), &scanned, ScanOptions::default()).expect("sync");
    db
}

fn status_count(db: &Db, status: PhotoStatus) -> usize {
    db.photos.iter().filter(|row| row.status == i64::from(status.to_u8())).count()
}

/// Takes one job through a worker that cannot extract anything.
fn run_one(pipeline: &mut IngestPipeline, db: &mut Db) -> Option<Vec<IngestEvent>> {
    let job = pipeline.next_job()?;
    let mut events = Vec::new();
    match pipeline.extracted(job.generation, Err("not a RAW file".to_owned())) {
        AfterExtract::Fail(message) => {
            db.record_ingest_error(job.photo.id, &message);
            events.push(IngestEvent::Failed(job.photo.id));
        }
        AfterExtract::Drop => {}
        AfterExtract::Store(_) => panic!("nothing was extracted"),
    }
    events.extend(pipeline.finish(job.generation));
    Some(events)
}

fn run_all(pipeline: &mut IngestPipeline, db: &mut Db) -> Vec<IngestEvent> {
    let mut events = Vec::new();
    while let Some(more) = run_one(pipeline, db) {
        events.extend(more);
    }
    events
}

/// Fills the queue with one batch of the generation that counts.
fn seed_queue(pipeline: &mut IngestPipeline, photos: &[PendingPhoto]) {
    let generation = pipeline.active_generation();
    pipeline.batches.insert(generation, Batch { remaining: photos.len(), in_flight: 0 });
    for photo in photos {
        pipeline.queue.push_back(Job { generation, photo: photo.clone() });
    }
}

fn queued_ids(pipeline: &IngestPipeline) -> Vec<u64> {
    pipeline.queue.iter().map(|job| job.photo.id.0).collect()
}

#[test]
fn empty_enqueue_should_be_a_no_op_returning_the_active_generation() {
    let mut pipeline = IngestPipeline::new();

    assert_eq!(pipeline.enqueue(Vec::new()), 0);
    assert!(pipeline.next_job().is_none());
}

#[test]
fn enqueue_should_process_every_photo_and_finish_exactly_once() {
    let mut db = index_with(8);
    let mut pipeline = IngestPipeline::new();
    let pending = db.pending_photos(&root());
    let ids: HashSet<u64> = pending.iter().map(|photo| photo.id.0).collect();

    let generation = pipeline.enqueue(pending);
    let events = run_all(&mut pipeline, &mut db);

    assert_eq!(generation, 1);
    assert_eq!(status_count(&db, PhotoStatus::Error), 8);
    let finished = events.iter().filter(|event| matches!(event, IngestEvent::Finished { .. })).count();
    assert_eq!(finished, 1);
    assert_eq!(events.last(), Some(&IngestEvent::Finished { generation }));
    let failed_ids: HashSet<u64> = events
        .into_iter()
        .filter_map(|event| match event {
            IngestEvent::Failed(id) => Some(id.0),
            _ => None,
        })
        .collect();
    assert_eq!(failed_ids, ids);
}

#[test]
fn cancel_should_stop_a_running_batch_and_leave_the_pipeline_usable() {
    let mut db = index_with(500);
    let mut pipeline = IngestPipeline::new();

    let first = pipeline.enqueue(db.pending_photos(&root()));
    let mut events = Vec::new();
    for _ in 0..20 {
        events.extend(run_one(&mut pipeline, &mut db).expect("more jobs"));
    }
    // One job is in the hands of a worker when the batch is called off.
    let held = pipeline.next_job().expect("more jobs");
    events.extend(pipeline.cancel());
    assert!(!events.contains(&IngestEvent::Finished { generation: first }));
    assert!(pipeline.is_stale(held.generation));
    events.extend(pipeline.finish(held.generation));
    assert_eq!(events.last(), Some(&IngestEvent::Finished { generation: first }));
    assert!(pipeline.next_job().is_none());

    let second = pipeline.enqueue(db.pending_photos(&root()));
    let events = run_all(&mut pipeline, &mut db);
    assert_eq!(events.last(), Some(&IngestEvent::Finished { generation: second }));

    assert!(second > first);
    assert_eq!(status_count(&db, PhotoStatus::Error), 500);
    assert_eq!(status_count(&db, PhotoStatus::Pending), 0);
    assert_eq!(status_count(&db, PhotoStatus::Ingested), 0);
}

#[test]
fn enqueue_should_supersede_the_previous_batch_without_explicit_cancel() {
    let mut db = index_with(300);
    let mut pipeline = IngestPipeline::new();

    let stale = pipeline.enqueue(db.pending_photos(&root()));
    let fresh = pipeline.enqueue(db.pending_photos(&root()));
    let events = run_all(&mut pipeline, &mut db);

    assert!(events.contains(&IngestEvent::Finished { generation: stale }));
    assert!(events.contains(&IngestEvent::Finished { generation: fresh }));
    assert_eq!(fresh, stale + 1);
    assert_eq!(status_count(&db, PhotoStatus::Pending), 0);
}

#[test]
fn cancel_should_emit_finished_even_when_no_job_ever_started() {
    let db = index_with(3);
    let mut pipeline = IngestPipeline::new();
    let generation = pipeline.active_generation();
    seed_queue(&mut pipeline, &db.pending_photos(&root()));

    let events = pipeline.cancel();

    assert_eq!(events, vec![IngestEvent::Finished { generation }]);
}

#[test]
fn prioritize_should_move_requested_jobs_to_the_front_preserving_queue_order() {
    let db = index_with(5);
    let mut pipeline = IngestPipeline::new();
    let photos = db.pending_photos(&root());
    seed_queue(&mut pipeline, &photos);

    pipeline.prioritize(&vec![photos[3].id, photos[0].id]);

    assert_eq!(
        queued_ids(&pipeline),
        vec![photos[0].id.0, photos[3].id.0, photos[1].id.0, photos[2].id.0, photos[4].id.0]
    );
}

#[test]
fn prioritize_should_tolerate_unknown_and_empty_requests() {
    let db = index_with(2);
    let mut pipeline = IngestPipeline::new();
    let photos = db.pending_photos(&root());
    seed_queue(&mut pipeline, &photos);

    pipeline.prioritize(&vec![]);
    pipeline.prioritize(&vec![PhotoId(9_999)]);

    assert_eq!(queued_ids(&pipeline), vec![photos[0].id.0, photos[1].id.0]);
}

#[test]
fn max_workers_should_stay_within_the_spec_cap() {
    for processors in [None, Some(1), Some(4), Some(12), Some(64)] {
        assert!(max_workers(processors) >= 1);
        assert!(max_workers(processors) <= MAX_INGEST_WORKERS);
    }
    assert_eq!(max_workers(Some(8)), 8);
    assert_eq!(max_workers(None), 4);
}

#[test]
fn results_of_superseded_batches_are_dropped() {
    let db = index_with(2);
    let mut pipeline = IngestPipeline::new();
    let generation = pipeline.enqueue(db.pending_photos(&root()));
    let job = pipeline.next_job().expect("job");
    let info = IngestInfo {
        width: 1,
        height: 1,
        orientation: 1,
        camera: None,
        lens: None,
        taken_at: None,
        shutter: None,
        aperture: None,
        iso: None,
        focal_mm: None,
        preview_path: "p".to_owned(),
        thumb_path: "t".to_owned(),
    };
    assert!(matches!(pipeline.extracted(generation, Ok(info.clone())), AfterExtract::Store(_)));
    assert!(matches!(
        pipeline.stored(generation, job.photo.id, Ok(())),
        AfterStore::Report(IngestEvent::Ingested(id)) if id == job.photo.id
    ));
    assert!(matches!(
        pipeline.stored(generation, job.photo.id, Err("disk full".to_owned())),
        AfterStore::Fail(_)
    ));
    pipeline.cancel();
    assert!(matches!(pipeline.extracted(generation, Ok(info)), AfterExtract::Drop));
    assert!(matches!(pipeline.stored(generation, job.photo.id, Err("disk full".to_owned())), AfterStore::Drop));
    assert!(
        matches!(pipeline.stored(generation, job.photo.id, Ok(())), AfterStore::Report(IngestEvent::Ingested(_))),
        "what was written is reported all the same"
    );
}

#[test]
fn workers_are_started_for_what_waits() {
    let db = index_with(3);
    let mut pipeline = IngestPipeline::new();
    pipeline.enqueue(db.pending_photos(&root()));
    assert_eq!(pipeline.workers_wanted(Some(8)), 3);
    assert_eq!(pipeline.workers_wanted(Some(2)), 2);
}
