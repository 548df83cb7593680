//! The steps of terminating the process that holds a port: probe whether
//! it runs, run the system's kill command, then check up to five times,
//! 300 ms apart, whether it ended. Each step takes what the system reported
//! and names the next thing to do; running the commands and sleeping is the
//! caller's part.
use vstd::prelude::*;
use crate::types::KillResult;
use crate::text::decimal;
use crate::process_killer::{
    already_exited, already_exited_text, console_text, decode_windows_output, kill_command_succeeded,
    still_running_prefix, terminated_text, unix_failure_text, unix_kill_failure, unix_kill_outcome,
    unix_still_running_suffix, windows_failure_text, windows_kill_failure, windows_kill_outcome,
    windows_kill_succeeded, windows_still_running_suffix,
};

verus! {

/// How many times the process is checked after the kill command.
pub const EXIT_CHECKS: u32 = 5;

/// Milliseconds slept between two checks.
pub const CHECK_INTERVAL_MS: u64 = 300;

/// Where a request to terminate a process stands.
#[derive(Clone, Copy, Debug, PartialEq, Eq, Structural)]
pub enum KillPhase {
    /// Asked whether the process runs before killing it.
    Probing,
    /// Asked for the kill command to be run.
    Killing,
    /// Asked for check number `checks + 1` after the kill command.
    Waiting { checks: u32 },
    /// Asked to sleep after `checks` checks found the process running.
    Sleeping { checks: u32 },
    /// Answered; nothing more to do.
    Done,
}

/// A request to terminate process `pid`.
pub struct KillState {
    pub pid: u32,
    /// Whether the Windows commands (tasklist, taskkill) are used.
    pub windows: bool,
    pub phase: KillPhase,
    /// What the kill command printed (decoded), kept for the answer.
    pub stdout: String,
}

/// What the system reported.
pub enum KillEvent {
    /// Whether the process is running.
    Running(bool),
    /// The kill command could not be started; the system's error text.
    KillNotStarted(String),
    /// The kill command ran.
    KillRan { success: bool, stdout: Vec<u8>, stderr: Vec<u8>, code: Option<i32> },
    /// The sleep is over.
    Slept,
}

/// The next thing to do.
pub enum KillAction {
    /// Check whether the process runs; answer with `Running`.
    CheckRunning,
    /// Run the kill command; answer with `KillRan` or `KillNotStarted`.
    RunKill,
    /// Sleep this many milliseconds; answer with `Slept`.
    Sleep(u64),
    /// The answer to the request.
    Finish(Result<KillResult, String>),
    /// Nothing more to do.
    Stop,
}

/// The answer when PID 0 is asked for.
pub open spec fn zero_pid_text() -> Seq<char> {
    "PID 0\u{c740} \u{c885}\u{b8cc}\u{d560} \u{c218} \u{c5c6}\u{c2b5}\u{b2c8}\u{b2e4}."@
}

/// The error when the kill command could not be started.
pub open spec fn not_started_text(windows: bool, err: Seq<char>) -> Seq<char> {
    if windows {
        "\u{c885}\u{b8cc} \u{ba85}\u{b839}\u{c744} \u{c2e4}\u{d589}\u{d560} \u{c218} \u{c5c6}\u{c2b5}\u{b2c8}\u{b2e4}: "@ + err
    } else {
        "kill \u{ba85}\u{b839} \u{c2e4}\u{d589} \u{c2e4}\u{d328}: "@ + err
    }
}

/// The answer once waiting has shown whether the process ended.
pub open spec fn exit_outcome(r: Result<KillResult, String>, pid: u32, windows: bool, stdout: Seq<char>, exited: bool) -> bool {
    if exited {
        r matches Ok(k) && k.pid == pid && k.success && k.message@ == (if windows && stdout.len() > 0 {
            "\u{d504}\u{b85c}\u{c138}\u{c2a4}\u{ac00} \u{c885}\u{b8cc}\u{b418}\u{c5c8}\u{c2b5}\u{b2c8}\u{b2e4}. ("@ + stdout + ")"@
        } else {
            terminated_text()
        })
    } else {
        r matches Err(e) && e@ == still_running_prefix() + decimal(pid as nat) + (if windows {
            windows_still_running_suffix()
        } else {
            unix_still_running_suffix()
        })
    }
}

/// A request in a shape the steps keep: checks are counted up to five.
pub open spec fn kill_wf(s: KillState) -> bool {
    match s.phase {
        KillPhase::Waiting { checks } => checks < EXIT_CHECKS,
        KillPhase::Sleeping { checks } => checks <= EXIT_CHECKS,
        _ => true,
    }
}

/// What one step does: `next` and `action` follow from `state` and the
/// event the system reported.
pub open spec fn step_ok(state: KillState, event: KillEvent, next: KillState, action: KillAction) -> bool {
    &&& next.pid == state.pid
    &&& next.windows == state.windows
    &&& match state.phase {
        KillPhase::Probing => match event {
            KillEvent::Running(running) => if running {
                next.phase == KillPhase::Killing && action is RunKill
            } else {
                &&& next.phase == KillPhase::Done
                &&& action matches KillAction::Finish(Ok(k))
                &&& k.pid == state.pid && k.success && k.message@ == already_exited_text()
            },
            _ => next.phase == state.phase && action is CheckRunning,
        },
        KillPhase::Killing => match event {
            KillEvent::KillNotStarted(err) => {
                &&& next.phase == KillPhase::Done
                &&& action matches KillAction::Finish(Err(e))
                &&& e@ == not_started_text(state.windows, err@)
            },
            KillEvent::KillRan { success, stdout, stderr, code } => if state.windows {
                let out = console_text(stdout@);
                let err = console_text(stderr@);
                if kill_command_succeeded(out, err, success) {
                    next.phase == (KillPhase::Waiting { checks: 0 }) && next.stdout@ == out && action is CheckRunning
                } else {
                    &&& next.phase == KillPhase::Done
                    &&& action matches KillAction::Finish(Err(e))
                    &&& e@ == windows_failure_text(state.pid, out, err, code)
                }
            } else if success {
                next.phase == (KillPhase::Waiting { checks: 0 }) && next.stdout@.len() == 0 && action is CheckRunning
            } else {
                &&& next.phase == KillPhase::Done
                &&& action matches KillAction::Finish(Err(e))
                &&& e@ == unix_failure_text(stderr@, code)
            },
            _ => next.phase == state.phase && next.stdout == state.stdout && action is RunKill,
        },
        KillPhase::Waiting { checks } => match event {
            KillEvent::Running(running) => if running {
                &&& next.phase == (KillPhase::Sleeping { checks: if checks < EXIT_CHECKS { (checks + 1) as u32 } else { checks } })
                &&& next.stdout == state.stdout
                &&& action == KillAction::Sleep(CHECK_INTERVAL_MS)
            } else {
                &&& next.phase == KillPhase::Done
                &&& action matches KillAction::Finish(res)
                &&& exit_outcome(res, state.pid, state.windows, state.stdout@, true)
            },
            _ => next.phase == state.phase && next.stdout == state.stdout && action is CheckRunning,
        },
        KillPhase::Sleeping { checks } => match event {
            KillEvent::Slept => if checks < EXIT_CHECKS {
                next.phase == (KillPhase::Waiting { checks }) && next.stdout == state.stdout && action is CheckRunning
            } else {
                &&& next.phase == KillPhase::Done
                &&& action matches KillAction::Finish(res)
                &&& exit_outcome(res, state.pid, state.windows, state.stdout@, false)
            },
            _ => next.phase == state.phase && next.stdout == state.stdout && action == KillAction::Sleep(CHECK_INTERVAL_MS),
        },
        KillPhase::Done => next.phase == KillPhase::Done && action is Stop,
    }
}

/// Starts a request to terminate `pid`. With the Unix commands PID 0 (which
/// `ps -p` does not list, so it would count as already ended) is refused at
/// once; any other process, and every process with the Windows commands, is
/// first checked (on Windows taskkill itself refuses PID 0).
pub fn kill_begin(pid: u32, windows: bool) -> (r: (KillState, KillAction))
    ensures
        r.0.pid == pid,
        r.0.windows == windows,
        r.0.stdout@.len() == 0,
        kill_wf(r.0),
        pid == 0 && !windows ==> r.0.phase == KillPhase::Done && (r.1 matches KillAction::Finish(Err(e)) && e@ == zero_pid_text()),
        pid != 0 || windows ==> r.0.phase == KillPhase::Probing && (r.1 is CheckRunning),
{
    let st = KillState { pid, windows, phase: KillPhase::Probing, stdout: String::new() };
    if pid == 0 && !windows {
        (KillState { phase: KillPhase::Done, ..st }, KillAction::Finish(Err(String::from_str("PID 0\u{c740} \u{c885}\u{b8cc}\u{d560} \u{c218} \u{c5c6}\u{c2b5}\u{b2c8}\u{b2e4}."))))
    } else {
        (st, KillAction::CheckRunning)
    }
}

/// One step: what the system reported moves the request on and names the
/// next thing to do (see `step_ok`). An event the phase does not wait for
/// changes nothing and asks again for what the phase waits for.
pub fn kill_step(state: KillState, event: KillEvent) -> (r: (KillState, KillAction))
    ensures
        step_ok(state, event, r.0, r.1),
        kill_wf(state) ==> kill_wf(r.0),
{
    let KillState { pid, windows, phase, stdout: kept } = state;
    match phase {
        KillPhase::Probing => match event {
            KillEvent::Running(false) => (
                KillState { pid, windows, phase: KillPhase::Done, stdout: kept },
                KillAction::Finish(Ok(already_exited(pid))),
            ),
            KillEvent::Running(true) => (
                KillState { pid, windows, phase: KillPhase::Killing, stdout: kept },
                KillAction::RunKill,
            ),
            _ => (KillState { pid, windows, phase, stdout: kept }, KillAction::CheckRunning),
        },
        KillPhase::Killing => match event {
            KillEvent::KillNotStarted(err) => {
                let mut msg = if windows {
                    String::from_str("\u{c885}\u{b8cc} \u{ba85}\u{b839}\u{c744} \u{c2e4}\u{d589}\u{d560} \u{c218} \u{c5c6}\u{c2b5}\u{b2c8}\u{b2e4}: ")
                } else {
                    String::from_str("kill \u{ba85}\u{b839} \u{c2e4}\u{d589} \u{c2e4}\u{d328}: ")
                };
                msg.append(err.as_str());
                (KillState { pid, windows, phase: KillPhase::Done, stdout: kept }, KillAction::Finish(Err(msg)))
            },
            KillEvent::KillRan { success, stdout, stderr, code } => {
                if windows {
                    let out = decode_windows_output(stdout.as_slice());
                    let err = decode_windows_output(stderr.as_slice());
                    if windows_kill_succeeded(out.as_str(), err.as_str(), success) {
                        (KillState { pid, windows, phase: KillPhase::Waiting { checks: 0 }, stdout: out }, KillAction::CheckRunning)
                    } else {
                        let e = windows_kill_failure(pid, out.as_str(), err.as_str(), code);
                        (KillState { pid, windows, phase: KillPhase::Done, stdout: out }, KillAction::Finish(Err(e)))
                    }
                } else {
                    if success {
                        (KillState { pid, windows, phase: KillPhase::Waiting { checks: 0 }, stdout: String::new() }, KillAction::CheckRunning)
                    } else {
                        let e = unix_kill_failure(stderr.as_slice(), code);
                        (KillState { pid, windows, phase: KillPhase::Done, stdout: kept }, KillAction::Finish(Err(e)))
                    }
                }
            },
            _ => (KillState { pid, windows, phase, stdout: kept }, KillAction::RunKill),
        },
        KillPhase::Waiting { checks } => match event {
            KillEvent::Running(false) => {
                let res = if windows {
                    windows_kill_outcome(pid, kept.as_str(), true)
                } else {
                    unix_kill_outcome(pid, true)
                };
                (KillState { pid, windows, phase: KillPhase::Done, stdout: kept }, KillAction::Finish(res))
            },
            KillEvent::Running(true) => {
                if checks < EXIT_CHECKS {
                    (
                        KillState { pid, windows, phase: KillPhase::Sleeping { checks: checks + 1 }, stdout: kept },
                        KillAction::Sleep(CHECK_INTERVAL_MS),
                    )
                } else {
                    (KillState { pid, windows, phase: KillPhase::Sleeping { checks }, stdout: kept }, KillAction::Sleep(CHECK_INTERVAL_MS))
                }
            },
            _ => (KillState { pid, windows, phase, stdout: kept }, KillAction::CheckRunning),
        },
        KillPhase::Sleeping { checks } => match event {
            KillEvent::Slept => {
                if checks < EXIT_CHECKS {
                    (KillState { pid, windows, phase: KillPhase::Waiting { checks }, stdout: kept }, KillAction::CheckRunning)
                } else {
                    let res = if windows {
                        windows_kill_outcome(pid, kept.as_str(), false)
                    } else {
                        unix_kill_outcome(pid, false)
                    };
                    (KillState { pid, windows, phase: KillPhase::Done, stdout: kept }, KillAction::Finish(res))
                }
            },
            _ => (KillState { pid, windows, phase, stdout: kept }, KillAction::Sleep(CHECK_INTERVAL_MS)),
        },
        KillPhase::Done => (KillState { pid, windows, phase, stdout: kept }, KillAction::Stop),
    }
}

} // verus!
