use dvr_core::models::{Schedule, ScheduleStatus};
use dvr_core::resolver::{ResolveError, generate_xtream_url, parse_xtream_url, resolve_stream_url};
use dvr_core::store::ScheduleStore;

fn schedule_for(source_id: &str, channel_id: &str, stream_url: Option<String>) -> Schedule {
    Schedule {
        id: 1,
        source_id: source_id.to_string(),
        channel_id: channel_id.to_string(),
        channel_name: "Channel".to_string(),
        program_title: "Program".to_string(),
        scheduled_start: 1000,
        scheduled_end: 2000,
        start_padding_sec: 60,
        end_padding_sec: 300,
        status: ScheduleStatus::Scheduled,
        series_match_title: None,
        recurrence: None,
        created_at: 500,
        started_at: None,
        stream_url,
    }
}

#[test]
fn test_parse_xtream_url() {
    let url = "http://example.com:8080/live/user/pass/12345.ts";
    let config = parse_xtream_url(url).unwrap();

    assert_eq!(config.source_type, "xtream");
    assert_eq!(config.url, "http://example.com:8080");
    assert_eq!(config.username, Some("user".to_string()));
    assert_eq!(config.password, Some("pass".to_string()));
}

#[test]
fn test_generate_xtream_url() {
    let url = generate_xtream_url("http://example.com:8080", "user", "pass", "12345");

    assert_eq!(url, "http://example.com:8080/live/user/pass/12345.ts");
}

#[test]
fn parse_rejects_url_without_live_segment() {
    assert!(parse_xtream_url("http://example.com:8080/media/user/pass/1.ts").is_none());
}

#[test]
fn parse_rejects_url_with_too_few_segments_after_live() {
    assert!(parse_xtream_url("http://example.com:8080/live/user/pass").is_none());
}

#[test]
fn generate_trims_trailing_slash_and_keeps_existing_extension() {
    let url = generate_xtream_url("http://example.com:8080///", "u", "p", "7.m3u8");
    assert_eq!(url, "http://example.com:8080/live/u/p/7.m3u8");
}

#[test]
fn resolve_prefers_pre_resolved_url() {
    let store = ScheduleStore::new();
    let schedule = schedule_for("src1", "ch1", Some("http://direct/str.ts".to_string()));
    let url = resolve_stream_url(&schedule, &store).unwrap();
    assert_eq!(url, "http://direct/str.ts");
}

#[test]
fn resolve_regenerates_for_token_source() {
    let mut store = ScheduleStore::new();
    store.set_channel_url(
        "other".to_string(),
        "xtream_one".to_string(),
        "http://host:80/live/user/pass/55.ts".to_string(),
    );
    let schedule = schedule_for("xtream_one", "42", None);
    let url = resolve_stream_url(&schedule, &store).unwrap();
    assert_eq!(url, "http://host:80/live/user/pass/42.ts");
}

#[test]
fn resolve_falls_back_to_stored_channel_url() {
    let mut store = ScheduleStore::new();
    store.set_channel_url(
        "ch9".to_string(),
        "plain_source".to_string(),
        "http://static/ch9.ts".to_string(),
    );
    let schedule = schedule_for("plain_source", "ch9", None);
    let url = resolve_stream_url(&schedule, &store).unwrap();
    assert_eq!(url, "http://static/ch9.ts");
}

#[test]
fn resolve_reports_missing_url() {
    let store = ScheduleStore::new();
    let schedule = schedule_for("plain_source", "unknown", None);
    let err = resolve_stream_url(&schedule, &store).unwrap_err();
    assert_eq!(err, ResolveError::UrlNotFound);
}

#[test]
fn url_resolution_needed_for_playlist_and_session_sources() {
    let mut store = ScheduleStore::new();
    store.set_channel_url(
        "chs".to_string(),
        "src".to_string(),
        "stalker_http://portal".to_string(),
    );
    let playlist = schedule_for("src", "chx", Some("http://host/mono.m3u8".to_string()));
    assert!(dvr_core::supervisor::needs_url_resolution(&playlist, &store));

    let session = schedule_for("src", "chs", None);
    assert!(dvr_core::supervisor::needs_url_resolution(&session, &store));

    let plain = schedule_for("src", "chx", Some("http://host/plain.ts".to_string()));
    assert!(!dvr_core::supervisor::needs_url_resolution(&plain, &store));
}
