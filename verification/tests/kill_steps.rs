use a_view::kill_steps::{kill_begin, kill_step, KillAction, KillEvent, KillPhase, CHECK_INTERVAL_MS};

#[test]
fn pid_zero_is_refused() {
    let (state, action) = kill_begin(0, false);
    assert_eq!(state.phase, KillPhase::Done);
    match action {
        KillAction::Finish(r) => assert!(r.is_err()),
        _ => panic!("expected an answer"),
    }
}

#[test]
fn windows_pid_zero_goes_to_taskkill() {
    let (state, action) = kill_begin(0, true);
    assert_eq!(state.phase, KillPhase::Probing);
    assert!(matches!(action, KillAction::CheckRunning));
    let (state, action) = kill_step(state, KillEvent::Running(true));
    assert!(matches!(action, KillAction::RunKill));
    let (_, action) = kill_step(
        state,
        KillEvent::KillRan {
            success: false,
            stdout: vec![],
            stderr: b"ERROR: The process with PID 0 could not be terminated.".to_vec(),
            code: Some(1),
        },
    );
    match action {
        KillAction::Finish(Err(e)) => {
            assert_eq!(e, "프로세스(PID: 0) 종료에 실패했습니다.\n시스템 메시지: ERROR: The process with PID 0 could not be terminated.\n종료 코드: 1")
        },
        _ => panic!("expected the taskkill failure"),
    }
}

#[test]
fn a_process_that_is_gone_counts_as_ended() {
    let (state, action) = kill_begin(99_999_999, false);
    assert!(matches!(action, KillAction::CheckRunning));
    let (state, action) = kill_step(state, KillEvent::Running(false));
    assert_eq!(state.phase, KillPhase::Done);
    match action {
        KillAction::Finish(Ok(k)) => {
            assert!(k.success);
            assert_eq!(k.pid, 99_999_999);
            assert!(k.message.contains("이미 종료"));
        },
        _ => panic!("expected success"),
    }
    let (_, action) = kill_step(state, KillEvent::Slept);
    assert!(matches!(action, KillAction::Stop));
}

#[test]
fn five_checks_then_still_running() {
    let (state, _) = kill_begin(42, false);
    let (state, action) = kill_step(state, KillEvent::Running(true));
    assert!(matches!(action, KillAction::RunKill));
    let (mut state, mut action) =
        kill_step(state, KillEvent::KillRan { success: true, stdout: vec![], stderr: vec![], code: Some(0) });
    let mut checks = 0;
    loop {
        match action {
            KillAction::CheckRunning => {
                checks += 1;
                let (s, a) = kill_step(state, KillEvent::Running(true));
                state = s;
                action = a;
            },
            KillAction::Sleep(ms) => {
                assert_eq!(ms, CHECK_INTERVAL_MS);
                let (s, a) = kill_step(state, KillEvent::Slept);
                state = s;
                action = a;
            },
            KillAction::Finish(r) => {
                assert_eq!(r.unwrap_err(), "종료 명령은 실행되었으나 프로세스(PID: 42)가 여전히 실행 중입니다.");
                break;
            },
            _ => panic!("unexpected step"),
        }
    }
    assert_eq!(checks, 5);
}

#[test]
fn windows_kill_reports_its_output() {
    let (state, _) = kill_begin(9, true);
    let (state, _) = kill_step(state, KillEvent::Running(true));
    let (state, action) = kill_step(
        state,
        KillEvent::KillRan { success: true, stdout: b"SUCCESS\r\n".to_vec(), stderr: vec![], code: Some(0) },
    );
    assert!(matches!(action, KillAction::CheckRunning));
    assert_eq!(state.phase, KillPhase::Waiting { checks: 0 });
    let (_, action) = kill_step(state, KillEvent::Running(false));
    match action {
        KillAction::Finish(Ok(k)) => assert_eq!(k.message, "프로세스가 종료되었습니다. (SUCCESS)"),
        _ => panic!("expected success"),
    }
}

#[test]
fn failed_kill_and_unstarted_kill_are_errors() {
    let (state, _) = kill_begin(7, false);
    let (state, _) = kill_step(state, KillEvent::Running(true));
    let (_, action) =
        kill_step(state, KillEvent::KillRan { success: false, stdout: vec![], stderr: b"denied\n".to_vec(), code: Some(1) });
    match action {
        KillAction::Finish(Err(e)) => assert_eq!(e, "프로세스 종료 실패: denied"),
        _ => panic!("expected an error"),
    }
    let (state, _) = kill_begin(7, true);
    let (state, _) = kill_step(state, KillEvent::Running(true));
    let (_, action) = kill_step(state, KillEvent::KillNotStarted("not found".to_string()));
    match action {
        KillAction::Finish(Err(e)) => assert_eq!(e, "종료 명령을 실행할 수 없습니다: not found"),
        _ => panic!("expected an error"),
    }
}

#[test]
fn unexpected_events_repeat_the_question() {
    let (state, _) = kill_begin(5, false);
    let (state, action) = kill_step(state, KillEvent::Slept);
    assert_eq!(state.phase, KillPhase::Probing);
    assert!(matches!(action, KillAction::CheckRunning));
}
