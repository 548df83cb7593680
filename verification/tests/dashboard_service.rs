use a_view::dashboard_service::{
    build_snapshot, count_statuses, nest_sessions, rebuild_agent, rebuild_root, sessions_snapshot, sort_logs,
    status_label, title_case_status,
};
use a_view::time::UtcTime;
use a_view::types::{Agent, LogEntry, Session, Status, StatusCounts};

const NOW_SECS: i64 = 1_775_044_800; // 2026-04-01T12:00:00Z

fn now() -> UtcTime {
    UtcTime::from_parts(NOW_SECS, 0).unwrap()
}

fn log(time: &str, message: &str) -> LogEntry {
    LogEntry { time: time.to_string(), level: "info".to_string(), message: message.to_string() }
}

fn agent(name: &str, label: &str, last: Option<&str>, tools: &[&str]) -> Agent {
    Agent {
        id: format!("s:{}", name),
        name: name.to_string(),
        model: "m".to_string(),
        status: Status::Running,
        status_label: label.to_string(),
        task: String::new(),
        started_at: Some("2026-04-01T11:00:00Z".to_string()),
        last_activity_at: last.map(|t| t.to_string()),
        duration_sec: None,
        last_event_age_sec: None,
        is_stalled: false,
        tools: tools.iter().map(|t| t.to_string()).collect(),
        recent_logs: Vec::new(),
    }
}

fn session(id: &str, parent: Option<&str>, last: Option<&str>, agents: Vec<Agent>) -> Session {
    Session {
        id: id.to_string(),
        name: format!("name-{}", id),
        directory: "/proj".to_string(),
        parent_id: parent.map(|p| p.to_string()),
        started_at: Some("2026-04-01T11:59:00Z".to_string()),
        last_activity_at: last.map(|t| t.to_string()),
        duration_sec: None,
        stalled_agent_count: 0,
        status_counts: StatusCounts { running: 0, delayed: 0, stalled: 0, completed: 0, failed: 0 },
        agents,
        children: None,
    }
}

#[test]
fn test_title_case_status() {
    assert_eq!(title_case_status("running"), "Running");
    assert_eq!(title_case_status("stalled"), "Stalled");
    assert_eq!(title_case_status("completed"), "Completed");
    assert_eq!(title_case_status(""), "");
}

#[test]
fn title_case_lowers_the_rest() {
    assert_eq!(title_case_status("RUNNING"), "Running");
    assert_eq!(title_case_status("dELAYED"), "Delayed");
    assert_eq!(title_case_status("ß"), "SS");
    assert_eq!(title_case_status("x"), "X");
    assert_eq!(status_label(Status::Delayed), "Delayed");
}

#[test]
fn test_sort_logs() {
    let logs = vec![
        log("2026-04-01T10:00:00Z", "first"),
        log("2026-04-01T12:00:00Z", "third"),
        log("2026-04-01T11:00:00Z", "second"),
    ];
    let sorted = sort_logs(logs);
    assert_eq!(sorted.len(), 3);
    assert_eq!(sorted[0].message, "third");
    assert_eq!(sorted[1].message, "second");
    assert_eq!(sorted[2].message, "first");
}

#[test]
fn test_sort_logs_limit() {
    let logs: Vec<LogEntry> = (0..25)
        .map(|i| LogEntry {
            time: format!("2026-04-01T{:02}:00:00Z", i),
            level: "info".to_string(),
            message: format!("log{}", i),
        })
        .collect();
    let sorted = sort_logs(logs);
    assert_eq!(sorted.len(), 20);
    assert_eq!(sorted[0].message, "log24");
}

#[test]
fn sort_logs_puts_unreadable_last_and_is_stable() {
    let logs = vec![
        log("garbage", "bad"),
        log("2026-04-01T10:00:00Z", "a"),
        log("2026-04-01T10:00:00+00:00", "b"),
        log("2026-04-01T19:00:00+09:00", "c"),
    ];
    let sorted = sort_logs(logs);
    let order: Vec<&str> = sorted.iter().map(|l| l.message.as_str()).collect();
    assert_eq!(order, vec!["a", "b", "c", "bad"]);
    for w in sorted.windows(2) {
        let t0 = chrono::DateTime::parse_from_rfc3339(&w[0].time).map(|d| d.timestamp_millis()).unwrap_or(i64::MIN);
        let t1 = chrono::DateTime::parse_from_rfc3339(&w[1].time).map(|d| d.timestamp_millis()).unwrap_or(i64::MIN);
        assert!(t0 >= t1);
    }
}

#[test]
fn rebuild_agent_reclassifies_and_fills_the_task() {
    let mut a = agent("build", "unknown", Some("2026-04-01T11:59:00Z"), &["a", "b", "c", "d", "e"]);
    a.recent_logs = vec![log("2026-04-01T11:00:00Z", "older"), log("2026-04-01T11:30:00Z", "newest")];
    let r = rebuild_agent(&a, &now());
    assert_eq!(r.status, Status::Stalled);
    assert_eq!(r.status_label, "Stalled");
    assert!(r.is_stalled);
    assert_eq!(r.task, "newest");
    assert_eq!(r.tools.len(), 4);
    assert_eq!(r.duration_sec, Some(3600));
    assert_eq!(r.last_event_age_sec, Some(60));

    let b = agent("idle", "completed", None, &["bash running"]);
    let rb = rebuild_agent(&b, &now());
    assert_eq!(rb.status, Status::Running);
    assert_eq!(rb.task, "활동 요약 없음");
    assert_eq!(rb.last_event_age_sec, None);

    let future = agent("f", "unknown", Some("2026-04-01T12:00:05Z"), &[]);
    let rf = rebuild_agent(&future, &now());
    assert_eq!(rf.status, Status::Delayed);
    assert_eq!(rf.last_event_age_sec, None);
}

#[test]
fn status_counts_partition_the_agents() {
    let agents = vec![
        {
            let mut a = agent("a", "x", None, &[]);
            a.status = Status::Failed;
            a
        },
        agent("b", "x", None, &[]),
        {
            let mut a = agent("c", "x", None, &[]);
            a.status = Status::Stalled;
            a
        },
        agent("d", "x", None, &[]),
    ];
    let c = count_statuses(&agents);
    assert_eq!(c, StatusCounts { running: 2, delayed: 0, stalled: 1, completed: 0, failed: 1 });
    assert_eq!(c.running + c.delayed + c.stalled + c.completed + c.failed, agents.len() as i64);
}

#[test]
fn root_lists_agents_by_priority() {
    let s = session(
        "r",
        None,
        None,
        vec![
            agent("done", "completed", None, &[]),
            agent("fresh", "unknown", Some("2026-04-01T11:59:50Z"), &[]),
            agent("late", "unknown", Some("2026-04-01T11:59:25Z"), &[]),
            agent("old", "unknown", Some("2026-04-01T11:00:00Z"), &[]),
            agent("bad", "failed", None, &[]),
        ],
    );
    let r = rebuild_root(&s, &now());
    let order: Vec<&str> = r.agents.iter().map(|a| a.name.as_str()).collect();
    assert_eq!(order, vec!["old", "late", "fresh", "bad", "done"]);
    assert_eq!(r.status_counts, StatusCounts { running: 1, delayed: 1, stalled: 1, completed: 1, failed: 1 });
    assert_eq!(r.stalled_agent_count, 1);
    assert_eq!(r.duration_sec, Some(60));
    assert!(r.children.is_none());
}

#[test]
fn children_nest_under_their_parent() {
    let flat = vec![
        session("child-old", Some("root"), Some("2026-04-01T11:00:00Z"), vec![]),
        session("root", None, None, vec![]),
        session("orphan", Some("missing"), None, vec![]),
        session("child-new", Some("root"), Some("2026-04-01T11:30:00Z"), vec![]),
        session("grandchild", Some("child-new"), None, vec![]),
    ];
    let roots = nest_sessions(flat);
    let ids: Vec<&str> = roots.iter().map(|s| s.id.as_str()).collect();
    assert_eq!(ids, vec!["root", "orphan"]);
    let kids = roots[0].children.as_ref().unwrap();
    let kid_ids: Vec<&str> = kids.iter().map(|s| s.id.as_str()).collect();
    assert_eq!(kid_ids, vec!["child-new", "child-old"]);
    for k in kids {
        assert_eq!(k.parent_id.as_deref(), Some("root"));
    }
    assert_eq!(kids[0].children.as_ref().unwrap()[0].id, "grandchild");
    assert!(roots[1].children.is_none());
}

#[test]
fn snapshot_totals_include_children() {
    let flat = vec![
        session("root", None, None, vec![agent("a", "running", None, &[]), agent("b", "unknown", Some("2026-04-01T11:00:00Z"), &[])]),
        session("kid", Some("root"), None, vec![agent("c", "running", None, &[])]),
        session("other", None, None, vec![agent("d", "completed", None, &[])]),
    ];
    let snap = build_snapshot(&now(), flat);
    assert_eq!(snap.sessions.len(), 2);
    assert_eq!(snap.summary.total_sessions, 3);
    assert_eq!(snap.summary.running_agents, 2);
    assert_eq!(snap.summary.suspected_stalled, 1);
    assert_eq!(snap.generated_at, "2026-04-01T12:00:00+00:00");
    assert_eq!(snap.source.refresh_interval_sec, 5);
    assert_eq!(snap.source.stalled_threshold_sec, 45);
    assert_eq!(snap.source.mode, "sqlite");
    let kid = &snap.sessions[0].children.as_ref().unwrap()[0];
    assert_eq!(kid.status_counts.running, 1);
}

#[test]
fn flat_snapshot_counts_own_agents() {
    let mut a = agent("a", "x", None, &[]);
    a.status = Status::Stalled;
    let sessions = vec![session("s1", None, None, vec![a, agent("b", "x", None, &[])]), session("s2", None, None, vec![])];
    let snap = sessions_snapshot(&now(), sessions);
    assert_eq!(snap.summary.total_sessions, 2);
    assert_eq!(snap.summary.running_agents, 1);
    assert_eq!(snap.summary.suspected_stalled, 1);
    assert_eq!(snap.source.refresh_interval_sec, 300);
}

fn collect_ids(s: &Session, out: &mut Vec<String>) {
    out.push(s.id.clone());
    if let Some(c) = &s.children {
        for k in c {
            collect_ids(k, out);
        }
    }
}

#[test]
fn every_session_appears_once_in_the_forest() {
    let flat = vec![
        session("d", Some("c"), None, vec![]),
        session("a", None, None, vec![]),
        session("c", Some("b"), None, vec![]),
        session("b", Some("a"), None, vec![]),
        session("e", Some("a"), None, vec![]),
        session("f", Some("nowhere"), None, vec![]),
    ];
    let roots = nest_sessions(flat);
    let mut ids = Vec::new();
    for r in &roots {
        collect_ids(r, &mut ids);
    }
    ids.sort();
    assert_eq!(ids, vec!["a", "b", "c", "d", "e", "f"]);
}
