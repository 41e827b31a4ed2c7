use dvr_core::conflict::{check_schedule_conflicts, check_viewing_conflict};
use dvr_core::models::{
    PlayingStream, RecordingEvent, RecordingStatus, ScheduleRequest, ScheduleStatus,
    parse_recording_status, parse_schedule_status,
};
use dvr_core::scheduler::{
    MISSED_RECORDING_GRACE_SECONDS, POLL_INTERVAL_SECONDS, SCHEDULING_WINDOW_SECONDS, Scheduler,
    poll_tick,
};
use dvr_core::store::ScheduleStore;

fn request(source: &str, start: i64, end: i64) -> ScheduleRequest {
    ScheduleRequest {
        source_id: source.to_string(),
        channel_id: "ch".to_string(),
        channel_name: "News".to_string(),
        program_title: "Show".to_string(),
        scheduled_start: start,
        scheduled_end: end,
        start_padding_sec: 60,
        end_padding_sec: 300,
        series_match_title: None,
        recurrence: None,
        stream_url: None,
    }
}

#[test]
fn poll_tick_marks_due_schedules_recording() {
    let mut store = ScheduleStore::new();
    let due_id = store.add_schedule(request("s", 1040, 5000), 100).unwrap();
    let later_id = store.add_schedule(request("s", 9000, 10000), 100).unwrap();

    let dispatched = poll_tick(&mut store, 1000);
    assert_eq!(dispatched.len(), 1);
    assert_eq!(dispatched[0].id, due_id);
    // The snapshot still shows the pre-dispatch status.
    assert_eq!(dispatched[0].status, ScheduleStatus::Scheduled);

    let marked = store.get_schedule(due_id).unwrap();
    assert_eq!(marked.status, ScheduleStatus::Recording);
    assert_eq!(marked.started_at, Some(1000));
    assert_eq!(store.get_schedule(later_id).unwrap().status, ScheduleStatus::Scheduled);

    // The next tick finds nothing: the schedule is no longer pending.
    let again = poll_tick(&mut store, 1030);
    assert!(again.is_empty());
}

#[test]
fn poll_tick_with_nothing_pending_is_a_no_op() {
    let mut store = ScheduleStore::new();
    assert!(poll_tick(&mut store, 1000).is_empty());
}

#[test]
fn scheduler_start_stop_is_idempotent() {
    let mut s = Scheduler::new();
    assert!(s.start());
    assert!(!s.start());
    s.stop();
    s.stop();
    assert!(s.start());
}

#[test]
fn scheduler_constants() {
    assert_eq!(SCHEDULING_WINDOW_SECONDS, 60);
    assert_eq!(MISSED_RECORDING_GRACE_SECONDS, 300);
    assert_eq!(POLL_INTERVAL_SECONDS, 30);
}

#[test]
fn conflict_report_composes_message() {
    let mut store = ScheduleStore::new();
    store.add_schedule(request("src", 100, 200), 50).unwrap();
    store.set_source_max_connections("src".to_string(), Some(1));
    let playing = PlayingStream::default();

    let report = check_schedule_conflicts(&store, &playing, "src", 150, 250);
    assert!(report.has_conflict);
    assert_eq!(report.conflicts.len(), 1);
    assert_eq!(
        report.message,
        Some("Conflict: 1 overlapping recording(s), connection limit (1 max)".to_string())
    );
}

#[test]
fn no_conflict_without_overlap_on_roomy_source() {
    let mut store = ScheduleStore::new();
    store.set_source_max_connections("src".to_string(), Some(4));
    let playing = PlayingStream::default();
    let report = check_schedule_conflicts(&store, &playing, "src", 150, 250);
    assert!(!report.has_conflict);
    assert!(report.conflicts.is_empty());
    assert_eq!(report.message, None);
}

#[test]
fn viewing_the_same_single_connection_source_conflicts() {
    let mut store = ScheduleStore::new();
    store.set_source_max_connections("one".to_string(), Some(1));
    store.set_source_max_connections("many".to_string(), Some(4));
    let playing = PlayingStream {
        source_id: Some("one".to_string()),
        channel_id: Some("ch".to_string()),
        channel_name: None,
        stream_url: None,
        is_playing: true,
    };
    assert!(check_viewing_conflict(&store, &playing, "one"));
    assert!(!check_viewing_conflict(&store, &playing, "many"));
    assert!(!check_viewing_conflict(&store, &playing, "unknown-but-different"));

    // An unknown source is assumed to allow a single connection.
    let watching_unknown = PlayingStream {
        source_id: Some("mystery".to_string()),
        ..playing
    };
    assert!(check_viewing_conflict(&store, &watching_unknown, "mystery"));

    let idle = PlayingStream::default();
    assert!(!check_viewing_conflict(&store, &idle, "one"));
}

#[test]
fn status_text_round_trip() {
    for st in [
        ScheduleStatus::Scheduled,
        ScheduleStatus::Recording,
        ScheduleStatus::Completed,
        ScheduleStatus::Failed,
        ScheduleStatus::Canceled,
    ] {
        assert_eq!(parse_schedule_status(st.as_str()), Some(st));
    }
    for st in [
        RecordingStatus::Recording,
        RecordingStatus::Completed,
        RecordingStatus::Failed,
        RecordingStatus::Partial,
    ] {
        assert_eq!(parse_recording_status(st.as_str()), Some(st));
    }
    assert_eq!(parse_schedule_status("paused"), None);
    assert_eq!(parse_recording_status(""), None);
}

#[test]
fn lifecycle_events_carry_schedule_identity() {
    let mut s = dvr_core::models::Schedule {
        id: 9,
        source_id: "s".to_string(),
        channel_id: "c".to_string(),
        channel_name: "Chan".to_string(),
        program_title: "Prog".to_string(),
        scheduled_start: 0,
        scheduled_end: 10,
        start_padding_sec: 0,
        end_padding_sec: 0,
        status: ScheduleStatus::Recording,
        series_match_title: None,
        recurrence: None,
        created_at: 0,
        started_at: Some(1),
        stream_url: None,
    };
    let started = RecordingEvent::started(&s, 44);
    assert_eq!(started.event_type, "started");
    assert_eq!(started.schedule_id, 9);
    assert_eq!(started.recording_id, Some(44));
    assert_eq!(started.message, None);

    let completed = RecordingEvent::completed(&s, 44);
    assert_eq!(completed.event_type, "completed");
    assert_eq!(completed.recording_id, Some(44));

    s.status = ScheduleStatus::Failed;
    let failed = RecordingEvent::failed(&s, "boom".to_string());
    assert_eq!(failed.event_type, "failed");
    assert_eq!(failed.recording_id, None);
    assert_eq!(failed.message, Some("boom".to_string()));
    assert_eq!(failed.channel_name, "Chan");
}
