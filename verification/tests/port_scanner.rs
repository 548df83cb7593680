use a_view::port_scanner::{build_port_scan, classify_lowered, classify_process, extract_port, parse_u16, ListenerInfo};
use a_view::types::PortCategory;

#[test]
fn test_classify_web_server() {
    assert_eq!(classify_process("nginx"), PortCategory::WebServer);
    assert_eq!(classify_process("caddy"), PortCategory::WebServer);
    assert_eq!(classify_process("apache"), PortCategory::WebServer);
    assert_eq!(classify_process("httpd"), PortCategory::WebServer);
    assert_eq!(classify_process("Nginx"), PortCategory::WebServer);
}

#[test]
fn test_classify_database() {
    assert_eq!(classify_process("mysql"), PortCategory::Database);
    assert_eq!(classify_process("redis"), PortCategory::Database);
    assert_eq!(classify_process("postgres"), PortCategory::Database);
    assert_eq!(classify_process("mongod"), PortCategory::Database);
    assert_eq!(classify_process("mysqld"), PortCategory::Database);
}

#[test]
fn test_classify_development() {
    assert_eq!(classify_process("node"), PortCategory::Development);
    assert_eq!(classify_process("python"), PortCategory::Development);
    assert_eq!(classify_process("cargo"), PortCategory::Development);
    assert_eq!(classify_process("uvicorn"), PortCategory::Development);
}

#[test]
fn test_classify_system() {
    assert_eq!(classify_process("svchost"), PortCategory::System);
    assert_eq!(classify_process("launchd"), PortCategory::System);
    assert_eq!(classify_process("systemd"), PortCategory::System);
    assert_eq!(classify_process("dwm"), PortCategory::System);
}

#[test]
fn test_classify_other() {
    assert_eq!(classify_process("unknown"), PortCategory::Other);
    assert_eq!(classify_process("chrome"), PortCategory::Other);
    assert_eq!(classify_process(""), PortCategory::Other);
}

#[test]
fn test_extract_port() {
    assert_eq!(extract_port("127.0.0.1:3000"), 3000);
    assert_eq!(extract_port("[::]:80"), 80);
    assert_eq!(extract_port("0.0.0.0:443"), 443);
    assert_eq!(extract_port("192.168.1.1:8080"), 8080);
}

#[test]
fn classify_strips_exe_suffix_and_case() {
    assert_eq!(classify_process("NODE.EXE"), PortCategory::Development);
    assert_eq!(classify_process("svchost.exe"), PortCategory::System);
    assert_eq!(classify_process("redis-server"), PortCategory::Database);
    assert_eq!(classify_process("nginx.exe.exe"), PortCategory::Other);
    assert_eq!(classify_process("Kernel_Task"), PortCategory::System);
}

#[test]
fn extract_port_edge_cases() {
    assert_eq!(extract_port("no-colon"), 0);
    assert_eq!(extract_port("host:"), 0);
    assert_eq!(extract_port("host:65535"), 65535);
    assert_eq!(extract_port("host:65536"), 0);
    assert_eq!(extract_port("host:+22"), 22);
    assert_eq!(extract_port("host:-1"), 0);
    assert_eq!(extract_port("host:12a"), 0);
    assert_eq!(extract_port("a:1:2"), 2);
}

#[test]
fn port_round_trip_on_concrete_hosts() {
    for (host, port) in [("[::1]", 65535u16), ("10.0.0.1", 0u16), ("", 7u16), ("[fe80::1%lo0]", 5353u16)] {
        let addr = format!("{}:{}", host, port);
        assert_eq!(extract_port(&addr), port);
    }
}

#[test]
fn parse_u16_accepts_what_std_accepts() {
    let chars = |s: &str| s.chars().collect::<Vec<char>>();
    assert_eq!(parse_u16(&chars("0")), Some(0));
    assert_eq!(parse_u16(&chars("00080")), Some(80));
    assert_eq!(parse_u16(&chars("+")), None);
    assert_eq!(parse_u16(&chars("")), None);
    assert_eq!(parse_u16(&chars("99999999999")), None);
    for s in ["1", "65535", "65536", "+5", "-5", " 5", "5 "] {
        assert_eq!(parse_u16(&chars(s)), s.parse::<u16>().ok());
    }
}

fn listener(protocol: &str, is_tcp: bool, addr: &str, port: u16, pid: u32, name: &str) -> ListenerInfo {
    ListenerInfo {
        protocol: protocol.to_string(),
        is_tcp,
        local_addr: addr.to_string(),
        port,
        pid,
        process_name: name.to_string(),
    }
}

#[test]
fn port_scan_keeps_tcp_listeners_in_order() {
    let ls = vec![
        listener("TCP", true, "127.0.0.1:3000", 3000, 10, "node"),
        listener("UDP", false, "0.0.0.0:53", 53, 11, "dnsmasq"),
        listener("TCP", true, "[::]:5432", 5432, 12, ""),
    ];
    let r = build_port_scan(&ls, "2026-04-01T12:00:00+00:00".to_string());
    assert_eq!(r.total_count, 2);
    assert_eq!(r.ports.len(), 2);
    assert_eq!(r.ports[0].port, 3000);
    assert_eq!(r.ports[0].pid, Some(10));
    assert_eq!(r.ports[0].process_name.as_deref(), Some("node"));
    assert_eq!(r.ports[0].category, PortCategory::Development);
    assert_eq!(r.ports[1].local_addr, "[::]:5432");
    assert_eq!(r.ports[1].process_name, None);
    assert_eq!(r.ports[1].category, PortCategory::Other);
    assert_eq!(r.scanned_at, "2026-04-01T12:00:00+00:00");
}

#[test]
fn classify_lowered_names() {
    assert_eq!(classify_lowered("postgres.exe"), PortCategory::Database);
    assert_eq!(classify_lowered("Postgres"), PortCategory::Other);
    assert_eq!(classify_lowered(".exe"), PortCategory::Other);
    assert_eq!(classify_lowered("go"), PortCategory::Development);
}
