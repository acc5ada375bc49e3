use koharu_rpc::events::{event_id, frame_for, last_event_id, parse_decimal_u64, BusMessage, Frame};
use koharu_rpc::jobs::{
    AppEvent, EventBus, JobBoard, JobRegistry, JobStatus, ProgressCounter, ProgressEvent,
    RunOutcome,
};

fn header(bytes: &[u8]) -> Option<&[u8]> {
    Some(bytes)
}

fn finished(page: &'static str) -> ProgressEvent<&'static str> {
    ProgressEvent::Finished { page, stage: "ocr".to_string(), model: "m".to_string() }
}

#[test]
fn events_are_numbered_from_one() {
    let mut bus = EventBus::new();
    assert_eq!(bus.latest_seq(), 0);
    let a = bus.publish(AppEvent::<u32>::JobStarted { id: "x".to_string(), kind: "pipeline".to_string() });
    let b = bus.publish(AppEvent::<u32>::JobStarted { id: "y".to_string(), kind: "pipeline".to_string() });
    assert_eq!((a.seq, b.seq, bus.latest_seq()), (1, 2, 2));
}

#[test]
fn event_ids_read_back() {
    for seq in [0u64, 1, 9, 10, 12345, u64::MAX] {
        let id = event_id(seq);
        assert_eq!(id, seq.to_string());
        assert_eq!(last_event_id(Some(id.as_bytes())), Some(seq));
    }
}

#[test]
fn last_event_id_follows_u64_parsing() {
    assert_eq!(last_event_id(None), None);
    assert_eq!(last_event_id(header(b"42")), Some(42));
    assert_eq!(last_event_id(header(b"+7")), Some(7));
    assert_eq!(last_event_id(header(b"007")), Some(7));
    assert_eq!(last_event_id(header(b"+")), None);
    assert_eq!(last_event_id(header(b"")), None);
    assert_eq!(last_event_id(header(b"-1")), None);
    assert_eq!(last_event_id(header(b" 1")), None);
    assert_eq!(last_event_id(header(b"18446744073709551615")), Some(u64::MAX));
    assert_eq!(last_event_id(header(b"18446744073709551616")), None);
    assert_eq!(last_event_id(header(b"1\x80")), None);
    assert_eq!(last_event_id(header(b"1\t")), None);
    for text in ["0", "+0", "99999999999999999999", "++1", "12a"] {
        assert_eq!(parse_decimal_u64(text.as_bytes()), text.parse::<u64>().ok(), "{text:?}");
    }
}

#[test]
fn lagging_subscribers_get_a_snapshot() {
    let mut bus = EventBus::new();
    let event = bus.publish(AppEvent::<u32>::JobStarted { id: "x".to_string(), kind: "k".to_string() });
    assert!(matches!(frame_for(BusMessage::Event(event)), Frame::Sequenced(e) if e.seq == 1));
    assert!(matches!(frame_for(BusMessage::<u32>::Lagged(3)), Frame::Snapshot));
}

#[test]
fn progress_counts_steps_up_to_the_total() {
    let mut counter = ProgressCounter::new();
    assert!(counter.observe(ProgressEvent::<&str>::Running).is_none());
    let started = counter.observe(ProgressEvent::<&str>::Started { pages: 2, stages: 1 }).unwrap();
    assert_eq!((started.completed, started.total), (0, 2));
    let loading = counter
        .observe(ProgressEvent::Loading { page: "p1", stage: "ocr".to_string(), model: "m".to_string() })
        .unwrap();
    assert_eq!((loading.completed, loading.total, loading.page), (0, 2, Some("p1")));
    assert_eq!(counter.observe(finished("p1")).unwrap().completed, 1);
    let skipped = counter.observe(ProgressEvent::Skipped { page: "p2", stage: "ocr".to_string() }).unwrap();
    assert_eq!((skipped.completed, skipped.model), (2, None));
    assert_eq!(counter.observe(finished("p3")).unwrap().completed, 2);
    let huge = counter.observe(ProgressEvent::<&str>::Started { pages: usize::MAX, stages: 2 }).unwrap();
    assert_eq!((huge.completed, huge.total), (0, usize::MAX));
}

#[test]
fn registry_tracks_a_job_through_its_life() {
    let mut registry = JobRegistry::<u64>::new();
    registry.start("a".to_string(), "pipeline".to_string());
    registry.start("b".to_string(), "pipeline".to_string());
    registry.start("a".to_string(), "pipeline".to_string());
    assert_eq!(registry.snapshot().len(), 2);
    registry.finish(&"a".to_string(), JobStatus::Failed, Some("boom".to_string()));
    let jobs = registry.snapshot();
    let a = jobs.iter().find(|j| j.id == "a").unwrap();
    assert_eq!((a.status, a.error.as_deref()), (JobStatus::Failed, Some("boom")));
    registry.remove(&"a".to_string());
    registry.finish(&"a".to_string(), JobStatus::Completed, None);
    let jobs = registry.snapshot();
    assert_eq!(jobs.len(), 1);
    assert_eq!(jobs[0].id, "b");
    assert_eq!(jobs[0].status, JobStatus::Running);
}

#[test]
fn pipeline_jobs_are_announced_and_finished() {
    let mut board = JobBoard::<&str>::new();
    let (id, started) = board.begin_pipeline();
    assert_eq!(id.len(), 36);
    assert_eq!(id.chars().nth(14), Some('4'));
    assert_eq!(started.seq, 1);
    assert!(matches!(&started.event, AppEvent::JobStarted { id: i, kind } if *i == id && kind == "pipeline"));
    let mut counter = ProgressCounter::new();
    assert!(board.progress(&id, &mut counter, ProgressEvent::Running).is_none());
    let sent = board.progress(&id, &mut counter, ProgressEvent::Started { pages: 1, stages: 2 }).unwrap();
    assert_eq!(sent.seq, 2);
    let sent = board.progress(&id, &mut counter, finished("p")).unwrap();
    match &sent.event {
        AppEvent::JobProgress(p) => {
            assert_eq!((p.completed, p.total, p.status), (Some(1), Some(2), JobStatus::Running));
            assert_eq!(p.current_page, Some("p"));
            assert_eq!(p.stage.as_deref(), Some("ocr"));
        }
        _ => panic!("expected a progress event"),
    }
    let done = board.finish(&id, RunOutcome::Stopped);
    assert_eq!(done.seq, 4);
    let jobs = board.jobs.snapshot();
    assert_eq!(jobs[0].status, JobStatus::Cancelled);
    assert_eq!(jobs[0].completed, Some(1));
    assert_eq!(jobs[0].model.as_deref(), Some("m"));
}

#[test]
fn cancelled_jobs_are_not_brought_back() {
    let mut board = JobBoard::<u64>::new();
    let (id, _) = board.begin_pipeline();
    board.cancel(&id);
    let finished = board.finish(&id, RunOutcome::Failed("late".to_string()));
    assert!(board.jobs.snapshot().is_empty());
    match finished.event {
        AppEvent::JobFinished(f) => {
            assert_eq!((f.status, f.error.as_deref()), (JobStatus::Failed, Some("late")));
        }
        _ => panic!("expected a finished event"),
    }
    match board.snapshot_event() {
        AppEvent::Snapshot { jobs } => assert!(jobs.is_empty()),
        _ => panic!("expected a snapshot"),
    }
}

#[test]
fn completed_runs_are_marked_completed() {
    let mut board = JobBoard::<u64>::new();
    let (id, _) = board.begin_pipeline();
    board.finish(&id, RunOutcome::Completed);
    let jobs = board.jobs.snapshot();
    assert_eq!((jobs[0].status, jobs[0].error.clone()), (JobStatus::Completed, None));
}
