use dvr_core::cleanup::{
    DiskUsage, EMERGENCY_USAGE_PERCENT, age_cutoff, age_eviction_plan, bytes_to_free,
    emergency_eviction_plan, quota_eviction_plan, usage_exceeds_percent,
};
use dvr_core::models::{Recording, RecordingStatus};
use dvr_core::store::sort_recordings_oldest_first;

fn recording(id: i64, end: i64, size: i64, policy: &str) -> Recording {
    Recording {
        id,
        schedule_id: Some(id),
        file_path: format!("/media/{}.ts", id),
        filename: format!("{}.ts", id),
        channel_name: "C".to_string(),
        program_title: "P".to_string(),
        size_bytes: Some(size),
        scheduled_start: 0,
        scheduled_end: 10,
        actual_start: Some(0),
        actual_end: Some(end),
        status: RecordingStatus::Completed,
        error_message: None,
        auto_delete_policy: policy.to_string(),
        created_at: 0,
        thumbnail_path: None,
    }
}

#[test]
fn usage_thresholds() {
    let usage = DiskUsage { total_bytes: 1000, available_bytes: 150, used_bytes: 850 };
    assert!(usage_exceeds_percent(&usage, 80));
    assert!(!usage_exceeds_percent(&usage, 85));
    assert!(!usage_exceeds_percent(&usage, EMERGENCY_USAGE_PERCENT));

    let critical = DiskUsage { total_bytes: 1000, available_bytes: 50, used_bytes: 950 };
    assert!(usage_exceeds_percent(&critical, EMERGENCY_USAGE_PERCENT));
}

#[test]
fn quota_eviction_stops_at_target() {
    // Usage 85% of 1000 bytes, target 80%: 50 bytes must go. Each of the
    // three eligible recordings alone crosses the gap, so exactly one —
    // the oldest — is deleted.
    let usage = DiskUsage { total_bytes: 1000, available_bytes: 150, used_bytes: 850 };
    let needed = bytes_to_free(&usage, 80);
    assert_eq!(needed, 50);

    let candidates = vec![
        recording(1, 100, 60, "space_needed"),
        recording(2, 200, 60, "space_needed"),
        recording(3, 300, 60, "space_needed"),
    ];
    let plan = quota_eviction_plan(&candidates, needed);
    assert_eq!(plan.len(), 1);
    assert_eq!(plan[0].id, 1);
}

#[test]
fn quota_eviction_skips_exempt_and_accumulates() {
    let candidates = vec![
        recording(1, 100, 30, "never"),
        recording(2, 200, 30, "space_needed"),
        recording(3, 300, 30, "space_needed"),
        recording(4, 400, 30, "space_needed"),
    ];
    let plan = quota_eviction_plan(&candidates, 50);
    assert_eq!(plan.len(), 2);
    assert_eq!(plan[0].id, 2);
    assert_eq!(plan[1].id, 3);
}

#[test]
fn quota_eviction_exhausts_eligible_candidates() {
    let candidates = vec![
        recording(1, 100, 10, "space_needed"),
        recording(2, 200, 10, "never"),
    ];
    let plan = quota_eviction_plan(&candidates, 1000);
    assert_eq!(plan.len(), 1);
    assert_eq!(plan[0].id, 1);
}

#[test]
fn emergency_eviction_takes_oldest_half_ignoring_tags() {
    let mut recs = Vec::new();
    for id in 1..=10i64 {
        let policy = if id % 2 == 0 { "never" } else { "space_needed" };
        recs.push(recording(id, id * 100, 10, policy));
    }
    let sorted = sort_recordings_oldest_first(recs);
    let plan = emergency_eviction_plan(&sorted);
    assert_eq!(plan.len(), 5);
    let ids: Vec<i64> = plan.iter().map(|r| r.id).collect();
    assert_eq!(ids, vec![1, 2, 3, 4, 5]);
}

#[test]
fn age_eviction_skips_young_and_exempt() {
    let cutoff = age_cutoff(30 * 86400, 7);
    assert_eq!(cutoff, 23 * 86400);
    let recs = vec![
        recording(1, 10 * 86400, 5, "space_needed"),
        recording(2, 10 * 86400, 5, "never"),
        recording(3, 29 * 86400, 5, "space_needed"),
    ];
    let plan = age_eviction_plan(&recs, cutoff);
    assert_eq!(plan.len(), 1);
    assert_eq!(plan[0].id, 1);
}

#[test]
fn age_eviction_uses_created_at_when_end_unknown() {
    let mut rec = recording(1, 0, 5, "space_needed");
    rec.actual_end = None;
    rec.status = RecordingStatus::Recording;
    rec.created_at = 50;
    let old_plan = age_eviction_plan(&vec![rec.clone()], 100);
    assert_eq!(old_plan.len(), 1);
    let young_plan = age_eviction_plan(&vec![rec], 40);
    assert!(young_plan.is_empty());
}
