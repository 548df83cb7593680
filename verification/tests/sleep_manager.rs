use a_view::sleep_manager::{default_sleep_status, get_sleep_status, start_prevent_sleep, stop_prevent_sleep, SleepState};

fn stamp() -> String {
    chrono::Utc::now().to_rfc3339()
}

#[test]
fn test_get_sleep_status_default() {
    let state = SleepState::new();
    let status = get_sleep_status(&state, stamp());

    assert!(!status.is_preventing);
    assert_eq!(status.reason, "idle");
    assert_eq!(status.active_agents, 0);
    assert!(!status.last_changed_at.is_empty());
    assert!(status.started_at.is_none());
}

#[test]
fn test_start_stop_cycle() {
    let mut state = SleepState::new();

    let status = start_prevent_sleep(&mut state, 3, "test-reason", stamp());
    assert!(status.is_preventing);
    assert_eq!(status.active_agents, 3);
    assert_eq!(status.reason, "test-reason");
    assert!(status.display);
    assert!(status.idle);
    assert!(status.started_at.is_some());

    let current = get_sleep_status(&state, stamp());
    assert!(current.is_preventing);
    assert!(current.started_at.is_some());

    let stopped = stop_prevent_sleep(&mut state, "test-stop", stamp());
    assert!(!stopped.is_preventing);
    assert!(!stopped.display);
    assert!(!stopped.idle);
    assert!(stopped.started_at.is_none());

    let after = get_sleep_status(&state, stamp());
    assert!(!after.is_preventing);
    assert!(after.started_at.is_none());
}

#[test]
fn a_second_start_keeps_the_first_start_time() {
    let mut state = SleepState::new();
    assert!(state.needs_guard());
    let first = start_prevent_sleep(&mut state, 1, "a", "2026-04-01T12:00:00+00:00".to_string());
    assert!(state.holds_guard());
    assert!(!state.needs_guard());
    let second = start_prevent_sleep(&mut state, 2, "b", "2026-04-01T12:05:00+00:00".to_string());
    assert_eq!(first.started_at.as_deref(), Some("2026-04-01T12:00:00+00:00"));
    assert_eq!(second.started_at.as_deref(), Some("2026-04-01T12:00:00+00:00"));
    assert_eq!(second.last_changed_at, "2026-04-01T12:05:00+00:00");
    let status = get_sleep_status(&state, "t".to_string());
    assert_eq!(status.reason, "agent_running");
    assert_eq!(status.active_agents, 0);
}

#[test]
fn stopping_when_idle_stays_idle() {
    let mut state = SleepState::new();
    let s = stop_prevent_sleep(&mut state, "again", "t".to_string());
    assert!(!s.is_preventing);
    assert_eq!(s.reason, "again");
    assert!(!state.holds_guard());
    let d = default_sleep_status("t0".to_string());
    assert!(!d.is_preventing);
    assert_eq!(d.reason, "idle");
    assert_eq!(d.last_changed_at, "t0");
}
