//! The sleep-prevention state machine: whether the guard that keeps the
//! machine awake is held, since when, and the status that each request
//! answers with. Acquiring and releasing the operating system's guard is the
//! caller's part.
use vstd::prelude::*;
use crate::types::SleepStatus;
use crate::session_model::opt_text;

verus! {

/// Whether sleep is being prevented, and since when.
pub struct SleepState {
    preventing: bool,
    started_at: Option<String>,
}

/// The status a request answers with.
pub open spec fn status_is(
    s: SleepStatus,
    preventing: bool,
    reason: Seq<char>,
    active_agents: i64,
    now: Seq<char>,
    started_at: Option<Seq<char>>,
) -> bool {
    &&& s.is_preventing == preventing
    &&& s.reason@ == reason
    &&& s.active_agents == active_agents
    &&& s.last_changed_at@ == now
    &&& s.display == preventing
    &&& s.idle == preventing
    &&& opt_text(s.started_at) == started_at
}

impl SleepState {
    /// A start time is recorded exactly while sleep is prevented.
    #[verifier::type_invariant]
    pub closed spec fn wf(self) -> bool {
        self.started_at is Some == self.preventing
    }

    /// Whether sleep is prevented.
    pub closed spec fn is_preventing(self) -> bool {
        self.preventing
    }

    /// When prevention started.
    pub closed spec fn since(self) -> Option<Seq<char>> {
        opt_text(self.started_at)
    }

    /// Nothing prevented yet.
    pub fn new() -> (r: SleepState)
        ensures
            !r.is_preventing(),
            r.since() is None,
    {
        SleepState { preventing: false, started_at: None }
    }

    /// Whether the caller must acquire the guard before a start.
    pub fn needs_guard(&self) -> (r: bool)
        ensures
            r == !self.is_preventing(),
    {
        !self.preventing
    }

    /// Whether the caller must release the guard on a stop.
    pub fn holds_guard(&self) -> (r: bool)
        ensures
            r == self.is_preventing(),
    {
        self.preventing
    }
}

/// Records that sleep is prevented (the caller holds the guard). Already
/// preventing: nothing changes. Otherwise prevention starts now.
pub fn start_prevent_sleep(state: &mut SleepState, active_agents: i64, reason: &str, now: String) -> (r: SleepStatus)
    ensures
        final(state).is_preventing(),
        old(state).is_preventing() ==> final(state).since() == old(state).since(),
        !old(state).is_preventing() ==> final(state).since() == Some(now@),
        final(state).since() is Some,
        status_is(r, true, reason@, active_agents, now@, final(state).since()),
{
    proof {
        use_type_invariant(&*state);
    }
    if !state.preventing {
        *state = SleepState { preventing: true, started_at: Some(now.clone()) };
    }
    SleepStatus {
        is_preventing: true,
        reason: String::from_str(reason),
        active_agents,
        last_changed_at: now,
        display: true,
        idle: true,
        started_at: match &state.started_at {
            Some(t) => Some(t.clone()),
            None => None,
        },
    }
}

/// Records that sleep is no longer prevented (the caller released the
/// guard). Already idle: nothing changes.
pub fn stop_prevent_sleep(state: &mut SleepState, reason: &str, now: String) -> (r: SleepStatus)
    ensures
        !final(state).is_preventing(),
        final(state).since() is None,
        status_is(r, false, reason@, 0, now@, None),
{
    proof {
        use_type_invariant(&*state);
    }
    *state = SleepState { preventing: false, started_at: None };
    SleepStatus {
        is_preventing: false,
        reason: String::from_str(reason),
        active_agents: 0,
        last_changed_at: now,
        display: false,
        idle: false,
        started_at: None,
    }
}

/// The current status: "agent_running" while preventing, "idle" otherwise.
pub fn get_sleep_status(state: &SleepState, now: String) -> (r: SleepStatus)
    ensures
        status_is(
            r,
            state.is_preventing(),
            if state.is_preventing() { "agent_running"@ } else { "idle"@ },
            0,
            now@,
            state.since(),
        ),
{
    let preventing = state.preventing;
    SleepStatus {
        is_preventing: preventing,
        reason: if preventing {
            String::from_str("agent_running")
        } else {
            String::from_str("idle")
        },
        active_agents: 0,
        last_changed_at: now,
        display: preventing,
        idle: preventing,
        started_at: match &state.started_at {
            Some(t) => Some(t.clone()),
            None => None,
        },
    }
}

/// The status reported when the state cannot be read: idle.
pub fn default_sleep_status(now: String) -> (r: SleepStatus)
    ensures
        status_is(r, false, "idle"@, 0, now@, None),
{
    SleepStatus {
        is_preventing: false,
        reason: String::from_str("idle"),
        active_agents: 0,
        last_changed_at: now,
        display: false,
        idle: false,
        started_at: None,
    }
}

} // verus!
