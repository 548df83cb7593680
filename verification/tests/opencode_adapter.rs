use a_view::json::{JsonMember, JsonValue};
use a_view::opencode_adapter::{
    base64_encode, derive_log_level, first_non_empty, format_duration_from_ms, normalize_raw_session,
    pick_agent_name, pick_model, resolve_db_path, summarize_part, DEFAULT_DB_PATH,
};
use a_view::time::as_iso_from_ms;
use a_view::types::{RawMessage, RawPart, RawSession, RawTodo, Status};

fn s(v: &str) -> JsonValue {
    JsonValue::Str(v.to_string())
}

fn obj(members: Vec<(&str, JsonValue)>) -> JsonValue {
    JsonValue::Object(
        members
            .into_iter()
            .map(|(k, v)| JsonMember { key: k.to_string(), value: v })
            .collect(),
    )
}

#[test]
fn test_format_duration_from_ms() {
    assert_eq!(format_duration_from_ms(3_600_000), Some("1h 0m".to_string()));
    assert_eq!(format_duration_from_ms(3_600_000 + 1_800_000), Some("1h 30m".to_string()));
    assert_eq!(format_duration_from_ms(60_000), Some("1m 0s".to_string()));
    assert_eq!(format_duration_from_ms(90_000), Some("1m 30s".to_string()));
    assert_eq!(format_duration_from_ms(30_000), Some("0m 30s".to_string()));
    assert_eq!(format_duration_from_ms(0), None);
    assert!(format_duration_from_ms(-1000).is_none());
}

#[test]
fn format_duration_edges() {
    assert_eq!(format_duration_from_ms(999), None);
    assert_eq!(format_duration_from_ms(1000), Some("0m 1s".to_string()));
    assert_eq!(format_duration_from_ms(3_599_999), Some("59m 59s".to_string()));
    assert_eq!(format_duration_from_ms(90_061_000), Some("25h 1m".to_string()));
}

#[test]
fn test_first_non_empty() {
    assert_eq!(first_non_empty([None, Some(""), Some("value")]), Some("value"));
    assert_eq!(first_non_empty([None, None]), None);
    assert_eq!(first_non_empty([Some("  "), Some("value")]), Some("value"));
}

#[test]
fn first_non_empty_trims() {
    assert_eq!(first_non_empty([Some("  padded\t")]), Some("padded"));
}

#[test]
fn test_pick_agent_name() {
    let json = obj(vec![("agent", s("test-agent"))]);
    assert_eq!(pick_agent_name(&json), "test-agent");

    let json2 = obj(vec![("mode", s("test-mode"))]);
    assert_eq!(pick_agent_name(&json2), "test-mode");

    let json3 = obj(vec![]);
    assert_eq!(pick_agent_name(&json3), "session");
}

#[test]
fn pick_agent_name_falls_back_to_model_id() {
    let json = obj(vec![("agent", s("  ")), ("model", obj(vec![("modelID", s("gpt-4"))]))]);
    assert_eq!(pick_agent_name(&json), "gpt-4");
}

#[test]
fn test_pick_model() {
    let json = obj(vec![("model", obj(vec![("providerID", s("openai")), ("modelID", s("gpt-4"))]))]);
    assert_eq!(pick_model(&json), "openai/gpt-4");

    let json2 = obj(vec![("providerID", s("mistral")), ("modelID", s("large-2"))]);
    assert_eq!(pick_model(&json2), "mistral/large-2");

    let json3 = obj(vec![("modelID", s("o3-mini"))]);
    assert_eq!(pick_model(&json3), "o3-mini");

    let json4 = obj(vec![]);
    assert_eq!(pick_model(&json4), "unknown");
}

#[test]
fn summarize_part_by_type() {
    let tool = obj(vec![
        ("type", s("tool")),
        ("tool", s("bash")),
        ("state", obj(vec![("status", s("running")), ("input", obj(vec![("command", s("ls"))]))])),
    ]);
    assert_eq!(summarize_part(&tool), Some("bash \u{b7} running \u{b7} [ls]".to_string()));
    let bare_tool = obj(vec![("type", s("tool"))]);
    assert_eq!(summarize_part(&bare_tool), Some("tool".to_string()));
    let text = obj(vec![("type", s("text")), ("text", s("  hello "))]);
    assert_eq!(summarize_part(&text), Some("hello".to_string()));
    assert_eq!(summarize_part(&obj(vec![("type", s("step-start"))])), Some("작업 단계 시작".to_string()));
    assert_eq!(summarize_part(&obj(vec![("type", s("step-finish"))])), Some("작업 단계 완료".to_string()));
    assert_eq!(summarize_part(&obj(vec![("type", s("reasoning"))])), Some("Reasoning update".to_string()));
    assert_eq!(summarize_part(&obj(vec![])), None);
    assert_eq!(summarize_part(&obj(vec![("type", s("file")), ("tool", s("x"))])), Some("x".to_string()));
}

#[test]
fn derive_log_level_by_status() {
    let empty = obj(vec![]);
    let st = |v: &str| obj(vec![("state", obj(vec![("status", s(v))]))]);
    assert_eq!(derive_log_level(&st("error"), &empty), "error");
    assert_eq!(derive_log_level(&st("done"), &empty), "success");
    assert_eq!(derive_log_level(&st("pending"), &empty), "warn");
    assert_eq!(derive_log_level(&obj(vec![("type", s("tool"))]), &empty), "tool");
    assert_eq!(derive_log_level(&empty, &obj(vec![("role", s("assistant"))])), "info");
}

#[test]
fn base64_matches_the_standard_alphabet() {
    assert_eq!(base64_encode(b""), "");
    assert_eq!(base64_encode(b"M"), "TQ==");
    assert_eq!(base64_encode(b"Ma"), "TWE=");
    assert_eq!(base64_encode(b"Man"), "TWFu");
    assert_eq!(base64_encode(&[0, 255, 254, 1]), "AP/+AQ==");
}

#[test]
fn base64_length_is_four_per_started_group() {
    for n in 0..20usize {
        let data: Vec<u8> = (0..n).map(|i| (i * 37) as u8).collect();
        assert_eq!(base64_encode(&data).len(), 4 * ((n + 2) / 3));
    }
}

#[test]
fn resolve_db_path_expands_home() {
    assert_eq!(resolve_db_path(None, Some("/home/u"), None), "/home/u/.local/share/opencode/opencode.db");
    assert_eq!(resolve_db_path(None, None, Some("C:\\Users\\u")), "C:\\Users\\u/.local/share/opencode/opencode.db");
    assert_eq!(resolve_db_path(None, None, None), DEFAULT_DB_PATH);
    assert_eq!(resolve_db_path(Some("/data/x.db"), Some("/home/u"), None), "/data/x.db");
}

#[test]
fn iso_from_positive_millis() {
    assert_eq!(as_iso_from_ms(1000), Some("1970-01-01T00:00:01+00:00".to_string()));
    assert_eq!(as_iso_from_ms(1_775_044_800_123), Some("2026-04-01T12:00:00.123+00:00".to_string()));
    assert_eq!(as_iso_from_ms(0), None);
    assert_eq!(as_iso_from_ms(-5), None);
}

fn raw_session() -> RawSession {
    RawSession {
        id: "ses1".to_string(),
        title: "Title".to_string(),
        directory: "/proj".to_string(),
        parent_id: None,
        time_created: Some(1_775_044_800_000),
        time_updated: Some(1_775_044_861_500),
    }
}

fn message(id: &str, created: i64, data: JsonValue) -> RawMessage {
    RawMessage {
        id: id.to_string(),
        session_id: "ses1".to_string(),
        time_created: Some(created),
        time_updated: Some(created + 1000),
        data,
    }
}

fn part(id: &str, message_id: &str, updated: i64, data: JsonValue) -> RawPart {
    RawPart {
        id: id.to_string(),
        message_id: message_id.to_string(),
        session_id: "ses1".to_string(),
        time_created: Some(updated - 500),
        time_updated: Some(updated),
        data,
    }
}

#[test]
fn normalize_builds_one_agent_per_name() {
    let raw = raw_session();
    let messages = vec![
        message("m2", 1_775_044_820_000, obj(vec![("agent", s("build")), ("role", s("assistant"))])),
        message("m1", 1_775_044_810_000, obj(vec![("agent", s("build")), ("role", s("user")), ("content", s("fix the bug"))])),
        message("m3", 1_775_044_830_000, obj(vec![("agent", s("explore")), ("modelID", s("o3"))])),
        message("m4", 1_775_044_840_000, obj(vec![("agent", s("compaction"))])),
    ];
    let parts = vec![part(
        "p1",
        "m2",
        1_775_044_850_000,
        obj(vec![
            ("type", s("tool")),
            ("tool", s("bash")),
            ("state", obj(vec![("status", s("running")), ("input", obj(vec![("command", s("cargo test"))]))])),
        ]),
    )];
    let todos: Vec<RawTodo> = Vec::new();
    let r = normalize_raw_session(&raw, &messages, &parts, &todos);
    let names: Vec<&str> = r.agents.iter().map(|a| a.name.as_str()).collect();
    assert_eq!(names, vec!["build", "explore"]);
    assert_eq!(r.agents[0].id, "ses1:build");
    assert_eq!(r.agents[0].status_label, "Running");
    assert_eq!(r.agents[0].task, "[bash] cargo test");
    assert_eq!(r.agents[0].tools, vec!["bash".to_string()]);
    assert_eq!(r.agents[0].recent_logs.len(), 1);
    assert_eq!(r.agents[0].recent_logs[0].level, "tool");
    assert_eq!(r.agents[0].recent_logs[0].message, "bash \u{b7} running \u{b7} [cargo test]");
    assert_eq!(r.agents[1].model, "o3");
    assert_eq!(r.agents[1].status_label, "unknown");
    assert_eq!(r.status_counts.running, 2);
    assert_eq!(r.duration_sec, Some(61));
    assert_eq!(r.name, "Title");
    assert!(r.children.is_none());
    assert!(r.agents.iter().all(|a| a.status == Status::Running));
}

#[test]
fn normalize_without_activity_gives_the_session_agent() {
    let raw = raw_session();
    let todos = vec![
        RawTodo {
            content: "a".to_string(),
            status: "completed".to_string(),
            priority: None,
            position: 0,
            time_created: None,
            time_updated: None,
        },
        RawTodo {
            content: "b".to_string(),
            status: "pending".to_string(),
            priority: None,
            position: 1,
            time_created: None,
            time_updated: None,
        },
    ];
    let r = normalize_raw_session(&raw, &[], &[], &todos);
    assert_eq!(r.agents.len(), 1);
    assert_eq!(r.agents[0].name, "session");
    assert_eq!(r.agents[0].id, "ses1:session");
    assert_eq!(r.agents[0].task, "Todo 1/2");
    let empty = normalize_raw_session(&raw, &[], &[], &[]);
    assert_eq!(empty.agents[0].task, "세션 활동 없음");
}

#[test]
fn normalize_keeps_a_lone_system_agent() {
    let raw = raw_session();
    let messages = vec![message("m1", 1_775_044_810_000, obj(vec![("agent", s("compaction"))]))];
    let r = normalize_raw_session(&raw, &messages, &[], &[]);
    assert_eq!(r.agents.len(), 1);
    assert_eq!(r.agents[0].name, "compaction");
}

#[test]
fn normalize_collects_tools_once_and_latest_activity() {
    let raw = raw_session();
    let messages = vec![
        message("m1", 1_775_044_810_000, obj(vec![("agent", s("build"))])),
        message("m2", 1_775_044_820_000, obj(vec![("agent", s("session"))])),
    ];
    let tool = |name: &str| obj(vec![("type", s("tool")), ("tool", s(name))]);
    let parts = vec![
        part("p1", "m1", 1_775_044_870_000, tool("read")),
        part("p2", "m1", 1_775_044_860_000, tool("bash")),
        part("p3", "m1", 1_775_044_850_000, tool("read")),
        part("p4", "missing", 1_775_044_900_000, tool("edit")),
    ];
    let r = normalize_raw_session(&raw, &messages, &parts, &[]);
    let names: Vec<&str> = r.agents.iter().map(|a| a.name.as_str()).collect();
    assert_eq!(names, vec!["build"]);
    assert_eq!(r.agents[0].tools, vec!["read".to_string(), "bash".to_string()]);
    assert_eq!(r.agents[0].last_activity_at, as_iso_from_ms(1_775_044_870_000));
}

#[test]
fn iso_text_reads_back() {
    for ms in [1i64, 999, 1_775_044_800_123, 253_402_300_799_999] {
        let t = as_iso_from_ms(ms).unwrap();
        assert_eq!(a_view::time::parse_instant_millis(&t), Some(ms));
    }
}

fn decode_standard(text: &str) -> Vec<u8> {
    let value = |c: u8| -> u32 {
        match c {
            b'A'..=b'Z' => (c - b'A') as u32,
            b'a'..=b'z' => (c - b'a') as u32 + 26,
            b'0'..=b'9' => (c - b'0') as u32 + 52,
            b'+' => 62,
            _ => 63,
        }
    };
    let mut out = Vec::new();
    for g in text.as_bytes().chunks(4) {
        let n = (value(g[0]) << 18) | (value(g[1]) << 12) | (if g[2] == b'=' { 0 } else { value(g[2]) << 6 })
            | (if g[3] == b'=' { 0 } else { value(g[3]) });
        out.push((n >> 16) as u8);
        if g[2] != b'=' {
            out.push((n >> 8) as u8);
        }
        if g[3] != b'=' {
            out.push(n as u8);
        }
    }
    out
}

#[test]
fn base64_decodes_back() {
    for n in 0..40usize {
        let data: Vec<u8> = (0..n).map(|i| (i * 151 + 7) as u8).collect();
        assert_eq!(decode_standard(&base64_encode(&data)), data);
    }
}
