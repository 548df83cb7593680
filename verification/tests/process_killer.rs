use a_view::process_killer::{
    already_exited, decode_windows_output, tasklist_lists_pid, unix_failure_message, unix_kill_failure, unix_kill_outcome,
    windows_kill_failure, windows_kill_outcome, windows_kill_succeeded,
};

#[test]
fn decode_prefers_utf8_then_euc_kr() {
    assert_eq!(decode_windows_output(b""), "");
    assert_eq!(decode_windows_output(b"  ok\r\n"), "ok");
    // "성공" in EUC-KR
    assert_eq!(decode_windows_output(&[0xBC, 0xBA, 0xB0, 0xF8]), "성공");
    assert_eq!(decode_windows_output("  성공 ".as_bytes()), "성공");
}

#[test]
fn tasklist_output_mentions_pid() {
    assert!(tasklist_lists_pid("\"node.exe\",\"1234\",\"Console\"", 1234));
    assert!(!tasklist_lists_pid("INFO: No tasks are running", 1234));
}

#[test]
fn kill_verdicts() {
    assert!(windows_kill_succeeded("", "", true));
    assert!(!windows_kill_succeeded("", "ERROR: access is denied", true));
    assert!(windows_kill_succeeded("SUCCESS: terminated", "", false));
    assert!(windows_kill_succeeded("성공: 종료", "", false));
    assert!(!windows_kill_succeeded("", "", false));
}

#[test]
fn exited_answers() {
    let a = already_exited(7);
    assert!(a.success);
    assert_eq!(a.pid, 7);
    assert_eq!(a.message, "프로세스가 이미 종료되어 있습니다.");
    let ok = unix_kill_outcome(7, true).unwrap();
    assert_eq!(ok.message, "프로세스가 종료되었습니다.");
    let err = unix_kill_outcome(7, false).unwrap_err();
    assert_eq!(err, "종료 명령은 실행되었으나 프로세스(PID: 7)가 여전히 실행 중입니다.");
    let w = windows_kill_outcome(9, "SUCCESS", true).unwrap();
    assert_eq!(w.message, "프로세스가 종료되었습니다. (SUCCESS)");
    let we = windows_kill_outcome(9, "", false).unwrap_err();
    assert!(we.starts_with("종료 명령은 실행되었으나 프로세스(PID: 9)가 여전히 실행 중입니다."));
}

#[test]
fn unix_failure_messages() {
    assert_eq!(unix_kill_failure(b"  no such process\n", Some(1)), "프로세스 종료 실패: no such process");
    assert_eq!(unix_kill_failure(b"", Some(-1)), "kill 명령이 비정상 종료되었습니다 (코드: Some(-1))");
    assert_eq!(unix_kill_failure(b" ", None), "kill 명령이 비정상 종료되었습니다 (코드: None)");
    assert_eq!(unix_kill_failure(&[0xFF, b'x'], Some(1)), "프로세스 종료 실패: \u{FFFD}x");
}

#[test]
fn windows_failure_messages() {
    assert_eq!(windows_kill_failure(5, "", "", Some(0)), "프로세스(PID: 5) 종료에 실패했습니다.");
    assert_eq!(
        windows_kill_failure(5, "out", "ERROR: cannot find process", Some(128)),
        "프로세스(PID: 5) 종료에 실패했습니다.\n지정된 PID의 프로세스를 찾을 수 없습니다.\n출력: out\n종료 코드: 128"
    );
    assert_eq!(
        windows_kill_failure(5, "", "Access is denied", None),
        "프로세스(PID: 5) 종료에 실패했습니다.\n시스템 메시지: Access is denied"
    );
    assert_eq!(
        windows_kill_failure(5, "", "ERROR: Access is denied.", None),
        "프로세스(PID: 5) 종료에 실패했습니다.\n접근이 거부되었습니다. 관리자 권한으로 실행해 보세요."
    );
}

#[test]
fn unix_failure_from_trimmed_text() {
    assert_eq!(unix_failure_message("denied", Some(1)), "프로세스 종료 실패: denied");
    assert_eq!(unix_failure_message("", Some(137)), "kill 명령이 비정상 종료되었습니다 (코드: Some(137))");
}
