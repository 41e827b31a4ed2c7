use dvr_core::models::{RecordingStatus, Schedule, ScheduleStatus};
use dvr_core::store::ScheduleStore;
use dvr_core::supervisor::{
    ActiveJob, JobRegistry, SupervisorError, WaitOutcome, build_capture_args, build_thumbnail_args,
    choose_storage_path, classify_outcome, compute_capture_duration, compute_wait_timeout,
    failure_reason, finish_recording, generate_filename, join_path, last_non_empty_line,
    thumbnail_filename,
};

fn schedule(start: i64, end: i64, start_pad: i32, end_pad: i32) -> Schedule {
    Schedule {
        id: 1,
        source_id: "src".to_string(),
        channel_id: "ch".to_string(),
        channel_name: "News 24".to_string(),
        program_title: "Evening News".to_string(),
        scheduled_start: start,
        scheduled_end: end,
        start_padding_sec: start_pad,
        end_padding_sec: end_pad,
        status: ScheduleStatus::Scheduled,
        series_match_title: None,
        recurrence: None,
        created_at: 10,
        started_at: None,
        stream_url: None,
    }
}

fn job(schedule_id: i64, process: Option<u64>) -> ActiveJob {
    ActiveJob {
        schedule_id,
        recording_id: 100 + schedule_id,
        channel_name: "News 24".to_string(),
        program_title: "Evening News".to_string(),
        scheduled_start: 1000,
        scheduled_end: 2000,
        started_instant: 500,
        process,
        cancel_requested: false,
    }
}

#[test]
fn capture_duration_spans_the_padded_window() {
    let t = 100_000i64;
    let s = schedule(t, t + 60, 60, 300);
    assert_eq!(compute_capture_duration(&s), 420);
}

#[test]
fn capture_args_bound_the_duration() {
    let t = 100_000i64;
    let s = schedule(t, t + 60, 60, 300);
    let duration = compute_capture_duration(&s);
    let args = build_capture_args("http://host/stream.ts", duration, "/media/out.ts", false);
    let expected = [
        "-timeout",
        "30000000",
        "-i",
        "http://host/stream.ts",
        "-c",
        "copy",
        "-t",
        "420",
        "-fflags",
        "+flush_packets",
        "-y",
        "/media/out.ts",
    ];
    assert_eq!(args.len(), expected.len());
    for (a, e) in args.iter().zip(expected.iter()) {
        assert_eq!(a, e);
    }

    let hls = build_capture_args("http://host/mono.m3u8", duration, "/media/out.ts", true);
    assert_eq!(hls[0], "-live_start_index");
    assert_eq!(hls[1], "-1");
    assert_eq!(hls[2], "-http_persistent");
    assert_eq!(hls[3], "0");
    assert_eq!(hls.len(), expected.len() + 4);
}

#[test]
fn wait_timeout_has_margin_and_floor() {
    assert_eq!(compute_wait_timeout(420), 720);
    assert_eq!(compute_wait_timeout(60), 600);
    assert_eq!(compute_wait_timeout(0), 600);
    assert_eq!(compute_wait_timeout(10_000), 10_300);
}

#[test]
fn outcome_classification_uses_bytes_heuristic() {
    assert_eq!(
        classify_outcome(WaitOutcome::Exited { success: true }, 0),
        (RecordingStatus::Completed, ScheduleStatus::Completed)
    );
    assert_eq!(
        classify_outcome(WaitOutcome::Exited { success: false }, 4096),
        (RecordingStatus::Partial, ScheduleStatus::Failed)
    );
    assert_eq!(
        classify_outcome(WaitOutcome::Exited { success: false }, 0),
        (RecordingStatus::Failed, ScheduleStatus::Failed)
    );
    assert_eq!(
        classify_outcome(WaitOutcome::TimedOut, 4096),
        (RecordingStatus::Partial, ScheduleStatus::Failed)
    );
    assert_eq!(
        classify_outcome(WaitOutcome::CancelRequested, 4096),
        (RecordingStatus::Partial, ScheduleStatus::Canceled)
    );
    assert_eq!(
        classify_outcome(WaitOutcome::CancelRequested, 0),
        (RecordingStatus::Failed, ScheduleStatus::Canceled)
    );
}

#[test]
fn stop_recording_twice_is_a_no_op() {
    let mut registry = JobRegistry::new();
    registry.register(job(7, Some(41))).unwrap();

    let first = registry.stop_recording(7);
    assert_eq!(first, Some(41));

    // The second stop finds no process: no error, no double kill.
    let second = registry.stop_recording(7);
    assert_eq!(second, None);

    // Stopping an unknown schedule is a no-op too.
    assert_eq!(registry.stop_recording(99), None);
}

#[test]
fn registry_refuses_second_job_for_same_schedule() {
    let mut registry = JobRegistry::new();
    registry.register(job(5, Some(1))).unwrap();
    assert_eq!(registry.register(job(5, Some(2))), Err(SupervisorError::AlreadyActive));
}

#[test]
fn cancel_signal_fires_exactly_once() {
    let mut registry = JobRegistry::new();
    registry.register(job(3, Some(9))).unwrap();
    assert!(registry.request_cancel(3));
    assert!(!registry.request_cancel(3));
    assert!(!registry.request_cancel(4));
}

#[test]
fn stop_all_takes_every_process_once() {
    let mut registry = JobRegistry::new();
    registry.register(job(1, Some(11))).unwrap();
    registry.register(job(2, None)).unwrap();
    registry.register(job(3, Some(33))).unwrap();

    let kills = registry.stop_all();
    assert_eq!(kills, vec![(1, 11), (3, 33)]);

    // Everything is already stopped: nothing left to kill.
    assert_eq!(registry.stop_all(), vec![]);
}

#[test]
fn registry_progress_snapshot() {
    let mut registry = JobRegistry::new();
    registry.register(job(4, Some(1))).unwrap();
    let progress = registry.active_progress(800);
    assert_eq!(progress.len(), 1);
    assert_eq!(progress[0].schedule_id, 4);
    assert_eq!(progress[0].recording_id, 104);
    assert_eq!(progress[0].elapsed_seconds, 300);
    assert_eq!(progress[0].scheduled_duration, 1000);
}

#[test]
fn last_diagnostic_line_is_distilled() {
    assert_eq!(
        last_non_empty_line("opening stream\nwriting output\nconnection reset\n"),
        Some("connection reset".to_string())
    );
    assert_eq!(last_non_empty_line("\n\n"), None);
    assert_eq!(last_non_empty_line(""), None);
}

#[test]
fn failure_reasons_per_branch() {
    assert_eq!(
        failure_reason(WaitOutcome::CancelRequested, "x"),
        "recording canceled"
    );
    assert_eq!(failure_reason(WaitOutcome::TimedOut, "x"), "recording timed out");
    assert_eq!(
        failure_reason(WaitOutcome::Exited { success: false }, "a\nbad exit\n\n"),
        "bad exit"
    );
    assert_eq!(
        failure_reason(WaitOutcome::Exited { success: false }, ""),
        "capture process failed"
    );
}

#[test]
fn filename_is_label_channel_and_title_sanitized() {
    let mut s = schedule(0, 60, 0, 0);
    s.channel_name = "News/24:HD".to_string();
    s.program_title = "What? A *Story*".to_string();
    let name = generate_filename(&s);
    assert_eq!(name, "1970-01-01T00-00-00_News_24_HD_What_ A _Story_.ts");
}

#[test]
fn filename_truncates_long_names() {
    let mut s = schedule(86_400, 86_460, 0, 0);
    s.channel_name = "C".repeat(40);
    s.program_title = "T".repeat(60);
    let name = generate_filename(&s);
    let expected = format!("1970-01-02T00-00-00_{}_{}.ts", "C".repeat(30), "T".repeat(50));
    assert_eq!(name, expected);
}

#[test]
fn thumbnail_names_and_args() {
    assert_eq!(thumbnail_filename(123), "123.jpg");
    let args = build_thumbnail_args("/media/v.ts", "/media/.thumbnails/123.jpg");
    let expected = [
        "-ss",
        "5",
        "-i",
        "/media/v.ts",
        "-vframes",
        "1",
        "-q:v",
        "2",
        "-y",
        "/media/.thumbnails/123.jpg",
    ];
    assert_eq!(args.len(), expected.len());
    for (a, e) in args.iter().zip(expected.iter()) {
        assert_eq!(a, e);
    }
}

#[test]
fn storage_path_falls_back_to_default() {
    let mut settings = dvr_core::models::DvrSettings::default();
    assert_eq!(choose_storage_path(&settings, "/home/u/Videos"), "/home/u/Videos");
    settings.storage_path = "/mnt/dvr".to_string();
    assert_eq!(choose_storage_path(&settings, "/home/u/Videos"), "/mnt/dvr");
    assert_eq!(join_path("/mnt/dvr", "a.ts"), "/mnt/dvr/a.ts");
}

#[test]
fn finish_recording_settles_store_registry_and_event() {
    let mut store = ScheduleStore::new();
    let mut registry = JobRegistry::new();
    let req = dvr_core::models::ScheduleRequest {
        source_id: "src".to_string(),
        channel_id: "ch".to_string(),
        channel_name: "News 24".to_string(),
        program_title: "Evening News".to_string(),
        scheduled_start: 1000,
        scheduled_end: 2000,
        start_padding_sec: 0,
        end_padding_sec: 0,
        series_match_title: None,
        recurrence: None,
        stream_url: None,
    };
    let sid = store.add_schedule(req, 500).unwrap();
    store.update_schedule_status(sid, ScheduleStatus::Recording, 990).unwrap();
    let rid = store
        .add_recording(
            sid,
            "/media/n.ts".to_string(),
            "n.ts".to_string(),
            "News 24".to_string(),
            "Evening News".to_string(),
            1000,
            2000,
            990,
        )
        .unwrap();
    let mut sched = schedule(1000, 2000, 0, 0);
    sched.id = sid;
    registry.register(job(sid, Some(77))).unwrap();

    let event = finish_recording(
        &mut store,
        &mut registry,
        &sched,
        rid,
        WaitOutcome::Exited { success: true },
        8192,
        "",
        2100,
    )
    .unwrap();

    assert_eq!(event.event_type, "completed");
    assert_eq!(event.schedule_id, sid);
    assert_eq!(event.recording_id, Some(rid));
    assert_eq!(event.message, None);

    let rec = store.get_recording(rid).unwrap();
    assert_eq!(rec.status, RecordingStatus::Completed);
    assert_eq!(rec.size_bytes, Some(8192));
    assert_eq!(rec.actual_end, Some(2100));
    assert_eq!(rec.error_message, None);

    let s = store.get_schedule(sid).unwrap();
    assert_eq!(s.status, ScheduleStatus::Completed);

    // The job is gone; a late stop finds nothing.
    assert_eq!(registry.stop_recording(sid), None);

    // A second settlement would re-classify a terminal recording: refused.
    let again = finish_recording(
        &mut store,
        &mut registry,
        &sched,
        rid,
        WaitOutcome::Exited { success: true },
        8192,
        "",
        2200,
    );
    assert!(again.is_err());
}

#[test]
fn finish_recording_failure_distills_diagnostics() {
    let mut store = ScheduleStore::new();
    let mut registry = JobRegistry::new();
    let req = dvr_core::models::ScheduleRequest {
        source_id: "src".to_string(),
        channel_id: "ch".to_string(),
        channel_name: "News 24".to_string(),
        program_title: "Evening News".to_string(),
        scheduled_start: 1000,
        scheduled_end: 2000,
        start_padding_sec: 0,
        end_padding_sec: 0,
        series_match_title: None,
        recurrence: None,
        stream_url: None,
    };
    let sid = store.add_schedule(req, 500).unwrap();
    store.update_schedule_status(sid, ScheduleStatus::Recording, 990).unwrap();
    let rid = store
        .add_recording(
            sid,
            "/media/n.ts".to_string(),
            "n.ts".to_string(),
            "News 24".to_string(),
            "Evening News".to_string(),
            1000,
            2000,
            990,
        )
        .unwrap();
    let mut sched = schedule(1000, 2000, 0, 0);
    sched.id = sid;

    let event = finish_recording(
        &mut store,
        &mut registry,
        &sched,
        rid,
        WaitOutcome::Exited { success: false },
        4096,
        "opening\nio error: reset by peer\n",
        2100,
    )
    .unwrap();

    assert_eq!(event.event_type, "failed");
    assert_eq!(event.recording_id, None);
    assert_eq!(event.message, Some("io error: reset by peer".to_string()));

    let rec = store.get_recording(rid).unwrap();
    assert_eq!(rec.status, RecordingStatus::Partial);
    assert_eq!(rec.error_message, Some("io error: reset by peer".to_string()));
    assert_eq!(store.get_schedule(sid).unwrap().status, ScheduleStatus::Failed);
}
