use togglite::api::{
    basic_auth, delete_succeeded, entries_path, entry_path, http_error, live_entries, recent_path, start_body,
    stop_path, update_body, url, with_detail, TimeEntry,
};
use togglite::i18n::Lang;
use togglite::util::{parse_rfc3339, rfc3339_utc};

fn entry(start: &str, duration: i64) -> TimeEntry {
    TimeEntry {
        id: 1,
        workspace_id: 1,
        description: None,
        project_id: None,
        start: start.to_string(),
        stop: None,
        duration,
        server_deleted_at: None,
    }
}

#[test]
fn elapsed_uses_start_for_running_entries() {
    let now = 1_789_000_000;
    assert_eq!(entry(&rfc3339_utc(now - 754), -1).elapsed(now), 754);
    assert_eq!(
        entry("2026-09-16T12:00:00+09:00", -1).elapsed(parse_rfc3339("2026-09-16T12:10:00+09:00").unwrap()),
        600
    );
    // v8-style negative start as fallback when start is unparsable
    assert_eq!(entry("", -(now - 42)).elapsed(now), 42);
    // stopped entries report their stored duration
    assert_eq!(entry(&rfc3339_utc(now - 754), 300).elapsed(now), 300);
}

#[test]
fn elapsed_is_never_negative_and_desc_defaults_to_empty() {
    let now = 1_000;
    // a start in the future counts as no time yet
    assert_eq!(entry(&rfc3339_utc(now + 60), -1).elapsed(now), 0);
    // unparsable start with the v9 marker: unknown
    assert_eq!(entry("", -1).elapsed(now), 0);
    assert!(entry("", -1).is_running());
    assert!(!entry("", 0).is_running());
    let mut e = entry("", 0);
    assert_eq!(e.desc(), "");
    e.description = Some("Write docs".into());
    assert_eq!(e.desc(), "Write docs");
}

#[test]
fn auth_header_is_basic_with_trimmed_token() {
    // base64("abc:api_token")
    assert_eq!(basic_auth("  abc \n"), "Basic YWJjOmFwaV90b2tlbg==");
    assert_eq!(basic_auth("abc"), "Basic YWJjOmFwaV90b2tlbg==");
}

#[test]
fn request_paths() {
    assert_eq!(url("/me"), "https://api.track.toggl.com/api/v9/me");
    assert_eq!(recent_path(2_592_000 + 5), "/me/time_entries?since=5");
    assert_eq!(recent_path(10), "/me/time_entries?since=-2591990");
    assert_eq!(entries_path(42), "/workspaces/42/time_entries");
    assert_eq!(entry_path(42, 7), "/workspaces/42/time_entries/7");
    assert_eq!(stop_path(42, 7), "/workspaces/42/time_entries/7/stop");
}

#[test]
fn request_bodies() {
    let b = start_body(3, "Planning", Some(9), 0);
    assert_eq!(b.created_with, "togglite");
    assert_eq!((b.workspace_id, b.project_id, b.duration), (3, Some(9), -1));
    assert_eq!(b.description, "Planning");
    assert_eq!(b.start, "1970-01-01T00:00:00Z");
    assert!(b.stop.is_none());
    let u = update_body(3, "Planning", None, 60, Some(660));
    assert_eq!(u.duration, 600);
    assert_eq!(u.start, "1970-01-01T00:01:00Z");
    assert_eq!(u.stop.as_deref(), Some("1970-01-01T00:11:00Z"));
    let r = update_body(3, "Planning", None, 60, None);
    assert_eq!(r.duration, -1);
    assert!(r.stop.is_none());
}

#[test]
fn deleted_entries_are_dropped_from_listings() {
    let mut gone = entry("2026-09-16T12:00:00Z", 600);
    gone.id = 2;
    gone.server_deleted_at = Some("2026-09-17T01:02:03Z".into());
    let mut live = entry("2026-09-16T12:00:00Z", 600);
    live.id = 3;
    let kept = live_entries(&vec![entry("", 1), gone, live]);
    assert_eq!(kept.iter().map(|e| e.id).collect::<Vec<_>>(), vec![1, 3]);
}

#[test]
fn http_errors_map_to_messages() {
    let en = Lang::En.strings();
    assert_eq!(http_error(&en, 401, "x"), en.err_auth);
    assert_eq!(http_error(&en, 403, "x"), en.err_auth);
    assert_eq!(http_error(&en, 402, "x"), en.err_rate_limit);
    assert_eq!(http_error(&en, 429, "x"), en.err_rate_limit);
    assert_eq!(http_error(&en, 500, "boom"), "HTTP 500: boom");
    let long = "é".repeat(250);
    assert_eq!(http_error(&en, 400, &long), format!("HTTP 400: {}", "é".repeat(200)));
    assert_eq!(with_detail(en.err_network, "timed out"), "Network error: timed out");
    assert!(delete_succeeded(404));
    assert!(!delete_succeeded(500));
}

/// Reads one entry of an API listing, as the application does after parsing the JSON.
fn from_json(text: &str) -> TimeEntry {
    let v: serde_json::Value = serde_json::from_str(text).unwrap();
    let s = |k: &str| v.get(k).and_then(|x| x.as_str()).map(|x| x.to_string());
    TimeEntry {
        id: v["id"].as_i64().unwrap(),
        workspace_id: v["workspace_id"].as_i64().unwrap(),
        description: s("description"),
        project_id: v.get("project_id").and_then(|x| x.as_i64()),
        start: s("start").unwrap_or_default(),
        stop: s("stop"),
        duration: v.get("duration").and_then(|x| x.as_i64()).unwrap_or(0),
        server_deleted_at: s("server_deleted_at"),
    }
}

#[test]
fn deleted_entries_are_flagged_by_the_api() {
    let live = from_json(
        r#"{"id":1,"workspace_id":2,"start":"2026-09-16T12:00:00Z","stop":"2026-09-16T12:10:00Z","duration":600}"#,
    );
    let gone = from_json(
        r#"{"id":1,"workspace_id":2,"start":"2026-09-16T12:00:00Z","duration":600,"server_deleted_at":"2026-09-17T01:02:03Z"}"#,
    );
    assert!(live.server_deleted_at.is_none());
    assert!(gone.server_deleted_at.is_some());
    // The listing keeps only the live one.
    let kept = live_entries(&vec![gone, live]);
    assert_eq!(kept.len(), 1);
    assert!(kept[0].server_deleted_at.is_none());
}
