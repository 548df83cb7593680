use a_view::stall_detector::{age_sec_from, agent_is_stalled, classify_status, status_from_parts};
use a_view::time::{parse_instant_millis, UtcTime};
use a_view::types::Status;
use chrono::Utc;

fn current() -> (chrono::DateTime<Utc>, UtcTime) {
    let now = Utc::now();
    let t = UtcTime::from_parts(now.timestamp(), now.timestamp_subsec_nanos()).unwrap();
    (now, t)
}

#[test]
fn test_classify_status_explicit_failed() {
    let (_, now) = current();
    assert_eq!(classify_status(Some("failed"), false, None, &now), Status::Failed);
    assert_eq!(classify_status(Some("error"), false, None, &now), Status::Failed);
}

#[test]
fn test_classify_status_explicit_running() {
    let (_, now) = current();
    assert_eq!(classify_status(Some("running"), false, None, &now), Status::Running);
}

#[test]
fn test_classify_status_explicit_completed() {
    let (_, now) = current();
    assert_eq!(classify_status(Some("completed"), false, None, &now), Status::Completed);
    assert_eq!(classify_status(Some("success"), false, None, &now), Status::Completed);
    assert_eq!(classify_status(Some("done"), false, None, &now), Status::Completed);
    assert_eq!(classify_status(Some("completed"), true, None, &now), Status::Running);
}

#[test]
fn test_classify_status_by_age() {
    let (chrono_now, now) = current();
    let recent_time = (chrono_now - chrono::Duration::seconds(20)).to_rfc3339();
    let delayed_time = (chrono_now - chrono::Duration::seconds(35)).to_rfc3339();
    let stalled_time = (chrono_now - chrono::Duration::seconds(50)).to_rfc3339();

    assert_eq!(classify_status(None, false, Some(&recent_time), &now), Status::Running);
    assert_eq!(classify_status(None, false, Some(&delayed_time), &now), Status::Delayed);
    assert_eq!(classify_status(None, false, Some(&stalled_time), &now), Status::Stalled);
    assert_eq!(classify_status(None, true, Some(&stalled_time), &now), Status::Running);
}

#[test]
fn test_classify_status_null_age_no_tool() {
    let (_, now) = current();
    assert_eq!(classify_status(None, false, None, &now), Status::Delayed);
    assert_eq!(classify_status(None, true, None, &now), Status::Running);
}

const NOW_SECS: i64 = 1_775_044_800; // 2026-04-01T12:00:00Z

#[test]
fn thresholds_are_exact() {
    let now = UtcTime::from_parts(NOW_SECS, 0).unwrap();
    assert_eq!(classify_status(None, false, Some("2026-04-01T11:59:31Z"), &now), Status::Running);
    assert_eq!(classify_status(None, false, Some("2026-04-01T11:59:30Z"), &now), Status::Delayed);
    assert_eq!(classify_status(None, false, Some("2026-04-01T11:59:16Z"), &now), Status::Delayed);
    assert_eq!(classify_status(None, false, Some("2026-04-01T11:59:15Z"), &now), Status::Stalled);
    assert!(agent_is_stalled(None, false, Some("2026-04-01T11:00:00Z"), &now));
    assert!(!agent_is_stalled(None, true, Some("2026-04-01T11:00:00Z"), &now));
}

#[test]
fn explicit_status_is_compared_in_lower_case() {
    let now = UtcTime::from_parts(NOW_SECS, 0).unwrap();
    assert_eq!(classify_status(Some("FAILED"), true, None, &now), Status::Failed);
    assert_eq!(classify_status(Some("Done"), false, None, &now), Status::Completed);
    assert_eq!(classify_status(Some("unknown"), false, Some("2026-04-01T11:59:59Z"), &now), Status::Running);
}

#[test]
fn unreadable_or_future_activity_has_no_age() {
    let now = UtcTime::from_parts(NOW_SECS, 0).unwrap();
    assert_eq!(age_sec_from(Some("not a time"), &now), None);
    assert_eq!(age_sec_from(Some("2026-04-01T12:00:01Z"), &now), None);
    assert_eq!(age_sec_from(Some("2026-04-01T12:00:00Z"), &now), Some(0));
    assert_eq!(classify_status(None, false, Some("2026-04-01T12:00:00Z"), &now), Status::Running);
    assert_eq!(age_sec_from(Some("2026-04-01T11:58:59.5Z"), &now), Some(60));
    assert_eq!(classify_status(None, false, Some("not a time"), &now), Status::Delayed);
}

#[test]
fn instant_reading_accepts_end_of_day() {
    assert_eq!(parse_instant_millis("1970-01-01T00:00:01Z"), Some(1000));
    assert_eq!(parse_instant_millis("1970-01-01T24:00:00Z"), Some(86_400_000));
    assert_eq!(parse_instant_millis("1970-01-01T25:00:00Z"), None);
    assert_eq!(parse_instant_millis("1970-01-01T01:00:00+01:00"), Some(0));
}

#[test]
fn utc_time_range_is_checked() {
    assert!(UtcTime::from_parts(NOW_SECS, 1_000_000_000).is_none());
    assert!(UtcTime::from_parts(i64::MAX, 0).is_none());
    let t = UtcTime::from_parts(NOW_SECS, 5_000_000).unwrap();
    assert_eq!(t.timestamp_millis(), NOW_SECS * 1000 + 5);
    assert_eq!(t.to_rfc3339(), "2026-04-01T12:00:00.005+00:00");
}

#[test]
fn status_from_lowered_parts() {
    assert_eq!(status_from_parts(Some("error"), true, Some(100)), Status::Failed);
    assert_eq!(status_from_parts(Some("done"), true, None), Status::Running);
    assert_eq!(status_from_parts(Some("Done"), false, Some(100)), Status::Stalled);
    assert_eq!(status_from_parts(None, false, Some(29)), Status::Running);
    assert_eq!(status_from_parts(None, false, Some(30)), Status::Delayed);
    assert_eq!(status_from_parts(None, false, Some(45)), Status::Stalled);
    assert_eq!(status_from_parts(None, true, Some(4500)), Status::Running);
}
