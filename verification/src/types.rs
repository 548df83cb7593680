use vstd::prelude::*;
use crate::json::JsonValue;

verus! {

/// Status of an agent or session.
#[derive(Clone, Copy, Debug, PartialEq, Eq, Structural)]
pub enum Status {
    Running,
    Delayed,
    Stalled,
    Failed,
    Completed,
}

/// One entry of an agent's activity log.
#[derive(Clone, Debug)]
pub struct LogEntry {
    pub time: String,
    pub level: String,
    pub message: String,
}

/// An agent working inside a session.
#[derive(Clone, Debug)]
pub struct Agent {
    pub id: String,
    pub name: String,
    pub model: String,
    pub status: Status,
    pub status_label: String,
    pub task: String,
    pub started_at: Option<String>,
    pub last_activity_at: Option<String>,
    pub duration_sec: Option<i64>,
    pub last_event_age_sec: Option<i64>,
    pub is_stalled: bool,
    pub tools: Vec<String>,
    pub recent_logs: Vec<LogEntry>,
}

/// Number of agents in each status.
#[derive(Clone, Copy, Debug, PartialEq, Eq, Structural)]
pub struct StatusCounts {
    pub running: i64,
    pub delayed: i64,
    pub stalled: i64,
    pub completed: i64,
    pub failed: i64,
}

/// A session with its agents and, once nested, its child sessions.
#[derive(Debug)]
pub struct Session {
    pub id: String,
    pub name: String,
    pub directory: String,
    pub parent_id: Option<String>,
    pub started_at: Option<String>,
    pub last_activity_at: Option<String>,
    pub duration_sec: Option<i64>,
    pub stalled_agent_count: i64,
    pub status_counts: StatusCounts,
    pub agents: Vec<Agent>,
    pub children: Option<Vec<Session>>,
}

/// Where a snapshot came from and how it is refreshed.
#[derive(Clone, Debug)]
pub struct SnapshotSource {
    pub db_path: String,
    pub mode: String,
    pub refresh_interval_sec: u64,
    pub stalled_threshold_sec: u64,
}

/// Totals over all sessions of a snapshot.
#[derive(Clone, Copy, Debug, PartialEq, Eq, Structural)]
pub struct SnapshotSummary {
    pub running_agents: i64,
    pub suspected_stalled: i64,
    pub total_sessions: i64,
}

/// The complete dashboard snapshot.
#[derive(Debug)]
pub struct Snapshot {
    pub generated_at: String,
    pub source: SnapshotSource,
    pub summary: SnapshotSummary,
    pub sessions: Vec<Session>,
}

/// A session row as stored in the OpenCode database.
#[derive(Clone, Debug)]
pub struct RawSession {
    pub id: String,
    pub title: String,
    pub directory: String,
    pub parent_id: Option<String>,
    pub time_created: Option<i64>,
    pub time_updated: Option<i64>,
}

/// A message row; `data` is the message's JSON document (an empty object
/// when the stored text is not valid JSON).
#[derive(Debug)]
pub struct RawMessage {
    pub id: String,
    pub session_id: String,
    pub time_created: Option<i64>,
    pub time_updated: Option<i64>,
    pub data: JsonValue,
}

/// A part row; `data` is the part's JSON document (an empty object when the
/// stored text is not valid JSON).
#[derive(Debug)]
pub struct RawPart {
    pub id: String,
    pub message_id: String,
    pub session_id: String,
    pub time_created: Option<i64>,
    pub time_updated: Option<i64>,
    pub data: JsonValue,
}

/// A todo row of a session.
#[derive(Clone, Debug)]
pub struct RawTodo {
    pub content: String,
    pub status: String,
    pub priority: Option<String>,
    pub position: i64,
    pub time_created: Option<String>,
    pub time_updated: Option<String>,
}

/// Category of the process that listens on a port.
#[derive(Clone, Copy, Debug, PartialEq, Eq, Structural)]
pub enum PortCategory {
    WebServer,
    Database,
    Development,
    System,
    Other,
}

/// One listening port.
#[derive(Clone, Debug)]
pub struct PortEntry {
    pub protocol: String,
    pub local_addr: String,
    pub port: u16,
    pub pid: Option<u32>,
    pub process_name: Option<String>,
    pub category: PortCategory,
}

/// The result of a port scan.
#[derive(Clone, Debug)]
pub struct PortScanResult {
    pub ports: Vec<PortEntry>,
    pub scanned_at: String,
    pub total_count: i64,
}

/// The outcome of a request to terminate a process.
#[derive(Clone, Debug)]
pub struct KillResult {
    pub pid: u32,
    pub success: bool,
    pub message: String,
}

/// What the sleep-prevention guard is doing.
#[derive(Clone, Debug)]
pub struct SleepStatus {
    pub is_preventing: bool,
    pub reason: String,
    pub active_agents: i64,
    pub last_changed_at: String,
    pub display: bool,
    pub idle: bool,
    pub started_at: Option<String>,
}

/// A copy of an optional string.
pub fn copy_opt_string(o: &Option<String>) -> (r: Option<String>)
    ensures
        r == *o,
{
    match o {
        Some(s) => Some(s.clone()),
        None => None,
    }
}

/// A copy of a list of strings.
pub fn copy_strings(v: &Vec<String>) -> (r: Vec<String>)
    ensures
        r@ == v@,
{
    let mut out: Vec<String> = Vec::new();
    let mut i: usize = 0;
    while i < v.len()
        invariant
            i <= v@.len(),
            out@ == v@.subrange(0, i as int),
        decreases v@.len() - i,
    {
        out.push(v[i].clone());
        i = i + 1;
    }
    assert(v@.subrange(0, v@.len() as int) =~= v@);
    out
}

impl LogEntry {
    /// A copy of this entry.
    pub fn copy_of(&self) -> (r: LogEntry)
        ensures
            r == *self,
    {
        LogEntry { time: self.time.clone(), level: self.level.clone(), message: self.message.clone() }
    }
}

/// A copy of a list of log entries.
pub fn copy_logs(v: &Vec<LogEntry>) -> (r: Vec<LogEntry>)
    ensures
        r@ == v@,
{
    let mut out: Vec<LogEntry> = Vec::new();
    let mut i: usize = 0;
    while i < v.len()
        invariant
            i <= v@.len(),
            out@ == v@.subrange(0, i as int),
        decreases v@.len() - i,
    {
        out.push(v[i].copy_of());
        i = i + 1;
    }
    assert(v@.subrange(0, v@.len() as int) =~= v@);
    out
}

/// The value of an agent, with its lists as sequences.
pub struct AgentView {
    pub id: String,
    pub name: String,
    pub model: String,
    pub status: Status,
    pub status_label: String,
    pub task: String,
    pub started_at: Option<String>,
    pub last_activity_at: Option<String>,
    pub duration_sec: Option<i64>,
    pub last_event_age_sec: Option<i64>,
    pub is_stalled: bool,
    pub tools: Seq<String>,
    pub recent_logs: Seq<LogEntry>,
}

impl View for Agent {
    type V = AgentView;

    open spec fn view(&self) -> AgentView {
        AgentView {
            id: self.id,
            name: self.name,
            model: self.model,
            status: self.status,
            status_label: self.status_label,
            task: self.task,
            started_at: self.started_at,
            last_activity_at: self.last_activity_at,
            duration_sec: self.duration_sec,
            last_event_age_sec: self.last_event_age_sec,
            is_stalled: self.is_stalled,
            tools: self.tools@,
            recent_logs: self.recent_logs@,
        }
    }
}

/// The values of a list of agents.
pub open spec fn agent_views(v: Seq<Agent>) -> Seq<AgentView> {
    v.map_values(|a: Agent| a@)
}

impl Agent {
    /// A copy of this agent.
    pub fn copy_of(&self) -> (r: Agent)
        ensures
            r@ == self@,
    {
        Agent {
            id: self.id.clone(),
            name: self.name.clone(),
            model: self.model.clone(),
            status: self.status,
            status_label: self.status_label.clone(),
            task: self.task.clone(),
            started_at: copy_opt_string(&self.started_at),
            last_activity_at: copy_opt_string(&self.last_activity_at),
            duration_sec: self.duration_sec,
            last_event_age_sec: self.last_event_age_sec,
            is_stalled: self.is_stalled,
            tools: copy_strings(&self.tools),
            recent_logs: copy_logs(&self.recent_logs),
        }
    }
}

/// A copy of a list of agents.
pub fn copy_agents(v: &Vec<Agent>) -> (r: Vec<Agent>)
    ensures
        agent_views(r@) == agent_views(v@),
{
    let mut out: Vec<Agent> = Vec::new();
    let mut i: usize = 0;
    while i < v.len()
        invariant
            i <= v@.len(),
            out@.len() == i,
            forall|k: int| 0 <= k < i ==> (#[trigger] out@[k])@ == v@[k]@,
        decreases v@.len() - i,
    {
        out.push(v[i].copy_of());
        i = i + 1;
    }
    assert(agent_views(out@) =~= agent_views(v@));
    out
}

/// The value of a session, with its lists as sequences.
pub struct SessionView {
    pub id: String,
    pub name: String,
    pub directory: String,
    pub parent_id: Option<String>,
    pub started_at: Option<String>,
    pub last_activity_at: Option<String>,
    pub duration_sec: Option<i64>,
    pub stalled_agent_count: i64,
    pub status_counts: StatusCounts,
    pub agents: Seq<AgentView>,
    pub children: Option<Seq<SessionView>>,
}

/// The value of a session.
pub open spec fn session_view(s: Session) -> SessionView
    decreases s,
{
    SessionView {
        id: s.id,
        name: s.name,
        directory: s.directory,
        parent_id: s.parent_id,
        started_at: s.started_at,
        last_activity_at: s.last_activity_at,
        duration_sec: s.duration_sec,
        stalled_agent_count: s.stalled_agent_count,
        status_counts: s.status_counts,
        agents: agent_views(s.agents@),
        children: match s.children {
            Some(c) => Some(
                Seq::new(
                    c@.len(),
                    |i: int|
                        if 0 <= i < c@.len() {
                            session_view(c@[i])
                        } else {
                            arbitrary()
                        },
                ),
            ),
            None => None,
        },
    }
}

/// The values of a list of sessions.
pub open spec fn session_views(v: Seq<Session>) -> Seq<SessionView> {
    v.map_values(|s: Session| session_view(s))
}

impl Session {
    /// A copy of this session, with copies of its child sessions.
    pub fn copy_of(&self) -> (r: Session)
        ensures
            session_view(r) == session_view(*self),
        decreases self,
    {
        let children = match &self.children {
            Some(c) => {
                let mut out: Vec<Session> = Vec::new();
                let mut i: usize = 0;
                while i < c.len()
                    invariant
                        i <= c@.len(),
                        out@.len() == i,
                        forall|k: int| 0 <= k < i ==> session_view(#[trigger] out@[k]) == session_view(c@[k]),
                        self.children == Some(*c),
                    decreases c@.len() - i,
                {
                    proof {
                        assert(decreases_to!(*self => self.children->0@[i as int]));
                    }
                    out.push(c[i].copy_of());
                    i = i + 1;
                }
                assert(session_views(out@) =~= session_views(c@));
                Some(out)
            },
            None => None,
        };
        let r = Session {
            id: self.id.clone(),
            name: self.name.clone(),
            directory: self.directory.clone(),
            parent_id: copy_opt_string(&self.parent_id),
            started_at: copy_opt_string(&self.started_at),
            last_activity_at: copy_opt_string(&self.last_activity_at),
            duration_sec: self.duration_sec,
            stalled_agent_count: self.stalled_agent_count,
            status_counts: self.status_counts,
            agents: copy_agents(&self.agents),
            children,
        };
        proof {
            assert(session_view(r).children =~= session_view(*self).children) by {
                match (r.children, self.children) {
                    (Some(a), Some(b)) => {
                        assert(session_views(a@) == session_views(b@));
                        assert forall|k: int| 0 <= k < a@.len() implies session_view(a@[k]) == session_view(b@[k]) by {
                            assert(session_views(a@)[k] == session_view(a@[k]));
                            assert(session_views(b@)[k] == session_view(b@[k]));
                        }
                        assert(session_view(r).children->0 =~= session_view(*self).children->0);
                    },
                    _ => {},
                }
            }
        }
        r
    }
}

} // verus!
