use dvr_core::models::{RecordingStatus, ScheduleRequest, ScheduleStatus};
use dvr_core::store::{ScheduleStore, StoreError};
use dvr_core::{default_end_padding, default_start_padding};

fn request(source: &str, start: i64, end: i64, start_pad: i32, end_pad: i32) -> ScheduleRequest {
    ScheduleRequest {
        source_id: source.to_string(),
        channel_id: "ch1".to_string(),
        channel_name: "News 24".to_string(),
        program_title: "Evening News".to_string(),
        scheduled_start: start,
        scheduled_end: end,
        start_padding_sec: start_pad,
        end_padding_sec: end_pad,
        series_match_title: None,
        recurrence: None,
        stream_url: None,
    }
}

#[test]
fn add_then_get_returns_submitted_fields_with_defaults() {
    let mut store = ScheduleStore::new();
    let req = request("src1", 5000, 8000, default_start_padding(), default_end_padding());
    let id = store.add_schedule(req, 4000).unwrap();

    let s = store.get_schedule(id).unwrap();
    assert_eq!(s.id, id);
    assert_eq!(s.source_id, "src1");
    assert_eq!(s.channel_id, "ch1");
    assert_eq!(s.channel_name, "News 24");
    assert_eq!(s.program_title, "Evening News");
    assert_eq!(s.scheduled_start, 5000);
    assert_eq!(s.scheduled_end, 8000);
    assert_eq!(s.start_padding_sec, 60);
    assert_eq!(s.end_padding_sec, 300);
    assert_eq!(s.status, ScheduleStatus::Scheduled);
    assert_eq!(s.created_at, 4000);
    assert_eq!(s.started_at, None);
    assert_eq!(s.stream_url, None);
}

#[test]
fn add_rejects_backwards_time_range() {
    let mut store = ScheduleStore::new();
    let err = store.add_schedule(request("s", 8000, 5000, 0, 0), 100).unwrap_err();
    assert_eq!(err, StoreError::Validation);
    let err = store.add_schedule(request("s", 5000, 5000, 0, 0), 100).unwrap_err();
    assert_eq!(err, StoreError::Validation);
    assert!(store.get_schedule(1).is_none());
}

#[test]
fn due_schedule_selection_honours_padding_window() {
    let mut store = ScheduleStore::new();
    let due_id = store.add_schedule(request("s", 1040, 5000, 60, 0), 100).unwrap();
    let later_id = store.add_schedule(request("s", 1200, 5000, 60, 0), 100).unwrap();

    let due = store.get_due_schedules(1000, 60, 300);
    assert_eq!(due.len(), 1);
    assert_eq!(due[0].id, due_id);
    assert_ne!(due[0].id, later_id);
}

#[test]
fn missed_schedule_is_due_within_grace() {
    let mut store = ScheduleStore::new();
    // Nominal start 800 with no padding: outside the +-60 window at
    // now=1000, but missed only 200 s ago and never started.
    let id = store.add_schedule(request("s", 800, 5000, 0, 0), 100).unwrap();
    let due = store.get_due_schedules(1000, 60, 300);
    assert_eq!(due.len(), 1);
    assert_eq!(due[0].id, id);

    // Outside the grace period nothing is due.
    let due_late = store.get_due_schedules(1200, 60, 300);
    assert!(due_late.is_empty());
}

#[test]
fn due_schedules_come_ascending_by_start() {
    let mut store = ScheduleStore::new();
    store.add_schedule(request("s", 1030, 5000, 60, 0), 100).unwrap();
    store.add_schedule(request("s", 990, 5000, 60, 0), 100).unwrap();
    store.add_schedule(request("s", 1010, 5000, 60, 0), 100).unwrap();

    let due = store.get_due_schedules(1000, 60, 300);
    assert_eq!(due.len(), 3);
    assert!(due[0].scheduled_start <= due[1].scheduled_start);
    assert!(due[1].scheduled_start <= due[2].scheduled_start);
}

#[test]
fn overlap_is_interval_intersection_adjacency_excluded() {
    let mut store = ScheduleStore::new();
    store.add_schedule(request("src", 100, 200, 0, 0), 50).unwrap();

    let (overlapping, _) = store.check_conflicts("src", 150, 250);
    assert_eq!(overlapping.len(), 1);

    let (adjacent, _) = store.check_conflicts("src", 200, 300);
    assert!(adjacent.is_empty());

    let (other_source, _) = store.check_conflicts("elsewhere", 150, 250);
    assert!(other_source.is_empty());
}

#[test]
fn status_transitions_follow_the_state_machine() {
    let mut store = ScheduleStore::new();
    let id = store.add_schedule(request("s", 1000, 2000, 0, 0), 10).unwrap();

    // Scheduled -> Completed skips Recording and is refused.
    assert_eq!(
        store.update_schedule_status(id, ScheduleStatus::Completed, 20),
        Err(StoreError::InvalidTransition)
    );
    assert!(store.update_schedule_status(id, ScheduleStatus::Recording, 20).is_ok());
    let s = store.get_schedule(id).unwrap();
    assert_eq!(s.status, ScheduleStatus::Recording);
    assert_eq!(s.started_at, Some(20));

    assert!(store.update_schedule_status(id, ScheduleStatus::Completed, 30).is_ok());
    // Terminal statuses are final.
    assert_eq!(
        store.update_schedule_status(id, ScheduleStatus::Recording, 40),
        Err(StoreError::InvalidTransition)
    );
    assert_eq!(
        store.update_schedule_status(id, ScheduleStatus::Canceled, 40),
        Err(StoreError::InvalidTransition)
    );
    assert_eq!(
        store.update_schedule_status(999, ScheduleStatus::Recording, 40),
        Err(StoreError::NotFound)
    );
}

#[test]
fn cancel_succeeds_only_while_scheduled() {
    let mut store = ScheduleStore::new();
    let id = store.add_schedule(request("s", 1000, 2000, 0, 0), 10).unwrap();
    assert!(store.cancel_schedule(id).is_ok());
    assert_eq!(
        store.get_schedule(id).unwrap().status,
        ScheduleStatus::Canceled
    );
    // Canceling a canceled schedule is refused, not silently repeated.
    assert_eq!(store.cancel_schedule(id), Err(StoreError::InvalidTransition));

    let id2 = store.add_schedule(request("s", 1000, 2000, 0, 0), 10).unwrap();
    store.update_schedule_status(id2, ScheduleStatus::Recording, 20).unwrap();
    assert_eq!(store.cancel_schedule(id2), Err(StoreError::InvalidTransition));
}

#[test]
fn recording_rows_enforce_unique_paths_and_single_active_capture() {
    let mut store = ScheduleStore::new();
    let rec_id = store
        .add_recording(
            7,
            "/tmp/a.ts".to_string(),
            "a.ts".to_string(),
            "Chan".to_string(),
            "Prog".to_string(),
            1000,
            2000,
            1500,
        )
        .unwrap();

    let dup = store.add_recording(
        8,
        "/tmp/a.ts".to_string(),
        "a.ts".to_string(),
        "Chan".to_string(),
        "Prog".to_string(),
        1000,
        2000,
        1500,
    );
    assert_eq!(dup, Err(StoreError::DuplicateFilePath));

    let second_active = store.add_recording(
        7,
        "/tmp/b.ts".to_string(),
        "b.ts".to_string(),
        "Chan".to_string(),
        "Prog".to_string(),
        1000,
        2000,
        1500,
    );
    assert_eq!(second_active, Err(StoreError::ActiveRecordingExists));

    let rec = store.get_recording(rec_id).unwrap();
    assert_eq!(rec.status, RecordingStatus::Recording);
    assert_eq!(rec.schedule_id, Some(7));
    assert_eq!(rec.actual_start, Some(1500));
    assert_eq!(rec.actual_end, None);
    assert_eq!(rec.size_bytes, None);
    assert_eq!(rec.auto_delete_policy, "space_needed");
}

#[test]
fn recording_classification_stamps_end_and_keeps_size() {
    let mut store = ScheduleStore::new();
    let id = store
        .add_recording(
            1,
            "/tmp/r.ts".to_string(),
            "r.ts".to_string(),
            "C".to_string(),
            "P".to_string(),
            0,
            10,
            5,
        )
        .unwrap();
    assert_eq!(
        store.update_recording_status(id, RecordingStatus::Completed, Some(4096), None, 20),
        Ok(())
    );
    let rec = store.get_recording(id).unwrap();
    assert_eq!(rec.status, RecordingStatus::Completed);
    assert_eq!(rec.size_bytes, Some(4096));
    assert_eq!(rec.actual_end, Some(20));

    // A second classification would leave a terminal status: refused.
    assert_eq!(
        store.update_recording_status(id, RecordingStatus::Failed, None, None, 30),
        Err(StoreError::InvalidTransition)
    );
}

#[test]
fn delete_recording_returns_paths_and_removes_row() {
    let mut store = ScheduleStore::new();
    let id = store
        .add_recording(
            1,
            "/media/x.ts".to_string(),
            "x.ts".to_string(),
            "C".to_string(),
            "P".to_string(),
            0,
            10,
            5,
        )
        .unwrap();
    store.update_recording_status(id, RecordingStatus::Completed, Some(1), None, 20).unwrap();
    store.update_recording_thumbnail(id, "/media/.thumbnails/1.jpg".to_string()).unwrap();

    let (path, thumb) = store.delete_recording(id).unwrap();
    assert_eq!(path, "/media/x.ts");
    assert_eq!(thumb, Some("/media/.thumbnails/1.jpg".to_string()));
    assert!(store.get_recording(id).is_none());
    assert!(store.delete_recording(id).is_none());
}

#[test]
fn settings_round_trip_with_defaults_and_parsing() {
    let mut store = ScheduleStore::new();
    let defaults = store.get_settings();
    assert_eq!(defaults.storage_path, "");
    assert_eq!(defaults.max_disk_usage_percent, 80);
    assert!(defaults.auto_cleanup_enabled);
    assert_eq!(defaults.default_start_padding_sec, 60);
    assert_eq!(defaults.default_end_padding_sec, 300);
    assert_eq!(defaults.keep_recordings_days, Some(30));

    store.save_setting("storage_path".to_string(), "/media/dvr".to_string());
    store.save_setting("max_disk_usage_percent".to_string(), "75".to_string());
    store.save_setting("auto_cleanup_enabled".to_string(), "1".to_string());
    store.save_setting("keep_recordings_days".to_string(), "14".to_string());
    // An unparseable number leaves the previous value.
    store.save_setting("default_start_padding_sec".to_string(), "soon".to_string());

    let settings = store.get_settings();
    assert_eq!(settings.storage_path, "/media/dvr");
    assert_eq!(settings.max_disk_usage_percent, 75);
    assert!(settings.auto_cleanup_enabled);
    assert_eq!(settings.keep_recordings_days, Some(14));
    assert_eq!(settings.default_start_padding_sec, 60);

    // Saving under an existing key replaces the value.
    store.save_setting("max_disk_usage_percent".to_string(), "90".to_string());
    assert_eq!(store.get_settings().max_disk_usage_percent, 90);
}

#[test]
fn count_scheduled_counts_only_pending() {
    let mut store = ScheduleStore::new();
    assert_eq!(store.count_scheduled(), 0);
    let a = store.add_schedule(request("s", 1000, 2000, 0, 0), 10).unwrap();
    store.add_schedule(request("s", 3000, 4000, 0, 0), 10).unwrap();
    assert_eq!(store.count_scheduled(), 2);
    store.cancel_schedule(a).unwrap();
    assert_eq!(store.count_scheduled(), 1);
}

#[test]
fn max_connections_lookup() {
    let mut store = ScheduleStore::new();
    assert_eq!(store.get_max_connections("s1"), None);
    store.set_source_max_connections("s1".to_string(), Some(3));
    assert_eq!(store.get_max_connections("s1"), Some(3));
    store.set_source_max_connections("s1".to_string(), Some(1));
    assert_eq!(store.get_max_connections("s1"), Some(1));
}

#[test]
fn completed_recordings_listing_is_newest_first() {
    let mut store = ScheduleStore::new();
    for (sched, path, end) in [(1i64, "/a.ts", 300i64), (2, "/b.ts", 100), (3, "/c.ts", 200)] {
        let id = store
            .add_recording(
                sched,
                path.to_string(),
                path.trim_start_matches('/').to_string(),
                "C".to_string(),
                "P".to_string(),
                0,
                10,
                5,
            )
            .unwrap();
        store
            .update_recording_status(id, RecordingStatus::Completed, Some(1), None, end)
            .unwrap();
    }
    let listed = store.get_completed_recordings();
    assert_eq!(listed.len(), 3);
    assert_eq!(listed[0].actual_end, Some(300));
    assert_eq!(listed[1].actual_end, Some(200));
    assert_eq!(listed[2].actual_end, Some(100));

    let oldest = store.completed_recordings_oldest_first();
    assert_eq!(oldest[0].actual_end, Some(100));
    assert_eq!(oldest[2].actual_end, Some(300));
}
