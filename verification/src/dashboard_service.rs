//! Building the dashboard snapshot: re-classifying agents, ordering their
//! logs, nesting child sessions under their parents and totalling.
use vstd::prelude::*;
use crate::types::{
    Agent, AgentView, LogEntry, Session, SessionView, Snapshot, SnapshotSource, SnapshotSummary,
    Status, StatusCounts, agent_views, session_view, session_views, copy_logs, copy_opt_string,
};
use crate::text::{contains_seq, lowercase, all_ascii, ascii_lower, uppercase_char, str_to_lowercase, char_to_uppercase, chars_of, string_of, str_contains, append_chars};
use crate::time::{UtcTime, instant_millis, parse_instant_millis, rfc3339_millis, parse_rfc3339_millis};
use crate::sorting::{is_sorted_permutation, sort_desc_indices};
use crate::stall_detector::{status_of, classify_status};
use crate::opencode_adapter::opt_string_view;

verus! {

/// A status word in title case: its first character upper-cased and the
/// rest lower-cased.
pub open spec fn title_case(s: Seq<char>) -> Seq<char> {
    if s.len() == 0 {
        Seq::empty()
    } else {
        uppercase_char(s[0]) + lowercase(s.drop_first())
    }
}

/// Title-cases a status word: first letter upper case, the rest lower case
/// ("running" -> "Running", "RUNNING" -> "Running").
pub fn title_case_status(status: &str) -> (r: String)
    ensures
        r@ == title_case(status@),
        status@.len() > 0 && 'a' <= status@[0] <= 'z' && all_ascii(status@) ==> r@ == seq![
            ((status@[0] as u32) - 32) as char,
        ] + ascii_lower(status@.drop_first()),
{
    let cs = chars_of(status);
    if cs.len() == 0 {
        return String::new();
    }
    let first = char_to_uppercase(cs[0]);
    let mut rest: Vec<char> = Vec::new();
    let mut i: usize = 1;
    while i < cs.len()
        invariant
            1 <= i <= cs@.len(),
            rest@ == cs@.subrange(1, i as int),
        decreases cs@.len() - i,
    {
        rest.push(cs[i]);
        i = i + 1;
    }
    assert(cs@.drop_first() =~= cs@.subrange(1, cs@.len() as int));
    let tail = string_of(rest.as_slice());
    proof {
        if all_ascii(status@) {
            assert forall|k: int| 0 <= k < tail@.len() implies (#[trigger] tail@[k] as u32) < 128 by {
                assert(tail@[k] == status@[k + 1]);
            }
        }
    }
    let lower_tail = str_to_lowercase(tail.as_str());
    let mut out = first;
    out.append(lower_tail.as_str());
    out
}

/// The label of a status: its name, capitalised.
pub open spec fn status_title(st: Status) -> Seq<char> {
    match st {
        Status::Running => "Running"@,
        Status::Delayed => "Delayed"@,
        Status::Stalled => "Stalled"@,
        Status::Failed => "Failed"@,
        Status::Completed => "Completed"@,
    }
}

/// The label of a status, made as the name lower-cased and then title-cased.
pub fn status_label(st: Status) -> (r: String)
    ensures
        r@ == status_title(st),
{
    let name = match st {
        Status::Running => "Running",
        Status::Delayed => "Delayed",
        Status::Stalled => "Stalled",
        Status::Failed => "Failed",
        Status::Completed => "Completed",
    };
    proof {
        reveal_strlit("Running");
        reveal_strlit("Delayed");
        reveal_strlit("Stalled");
        reveal_strlit("Failed");
        reveal_strlit("Completed");
    }
    let lower = str_to_lowercase(name);
    let r = title_case_status(lower.as_str());
    proof {
        let n = name@;
        assert(all_ascii(n));
        let l = lower@;
        assert(l == ascii_lower(n));
        assert('a' <= l[0] <= 'z');
        assert(all_ascii(l));
        assert(r@ =~= n);
    }
    r
}

/// Most log entries an agent keeps after ordering.
pub const MAX_RECENT_LOGS: usize = 20;

/// The ordering key of a log entry: the instant of its time, and entries
/// whose time cannot be read go last.
pub open spec fn log_key(e: LogEntry) -> i64 {
    match instant_millis(e.time@) {
        Some(ms) => ms,
        None => i64::MIN,
    }
}

/// The ordering keys of a list of log entries.
pub open spec fn log_keys(logs: Seq<LogEntry>) -> Seq<i64> {
    logs.map_values(|e: LogEntry| log_key(e))
}

/// `out` is `logs` newest first (stable for equal instants), cut to 20 entries.
pub open spec fn is_sorted_logs(logs: Seq<LogEntry>, out: Seq<LogEntry>) -> bool {
    exists|order: Seq<usize>|
        #![trigger is_sorted_permutation(log_keys(logs), order)]
        {
            &&& is_sorted_permutation(log_keys(logs), order)
            &&& out.len() == if logs.len() < 20 { logs.len() } else { 20 }
            &&& forall|k: int| 0 <= k < out.len() ==> out[k] == logs[#[trigger] order[k] as int]
        }
}

/// Orders log entries newest first and keeps at most 20 of them.
pub fn sort_logs(logs: Vec<LogEntry>) -> (r: Vec<LogEntry>)
    ensures
        is_sorted_logs(logs@, r@),
{
    let n: usize = logs.len();
    let mut keys: Vec<i64> = Vec::new();
    let mut i: usize = 0;
    while i < n
        invariant
            n == logs@.len(),
            i <= n,
            keys@ == log_keys(logs@).subrange(0, i as int),
        decreases n - i,
    {
        let k = match parse_instant_millis(logs[i].time.as_str()) {
            Some(ms) => ms,
            None => i64::MIN,
        };
        keys.push(k);
        i = i + 1;
    }
    assert(keys@ =~= log_keys(logs@));
    let order = sort_desc_indices(&keys);
    let limit: usize = if n < MAX_RECENT_LOGS { n } else { MAX_RECENT_LOGS };
    let mut out: Vec<LogEntry> = Vec::new();
    let mut j: usize = 0;
    while j < limit
        invariant
            n == logs@.len(),
            order@.len() == n,
            limit <= n,
            is_sorted_permutation(log_keys(logs@), order@),
            j <= limit,
            out@.len() == j,
            forall|k: int| 0 <= k < j ==> out@[k] == logs@[#[trigger] order@[k] as int],
        decreases limit - j,
    {
        let idx = order[j];
        out.push(logs[idx].copy_of());
        j = j + 1;
    }
    out
}

/// `true` when one of the tool names contains "running".
pub open spec fn any_running_tool(tools: Seq<String>) -> bool {
    exists|i: int| 0 <= i < tools.len() && contains_seq((#[trigger] tools[i])@, "running"@)
}

fn has_running_tool(tools: &Vec<String>) -> (r: bool)
    ensures
        r == any_running_tool(tools@),
{
    let mut i: usize = 0;
    while i < tools.len()
        invariant
            i <= tools@.len(),
            forall|j: int| 0 <= j < i ==> !contains_seq((#[trigger] tools@[j])@, "running"@),
        decreases tools@.len() - i,
    {
        if str_contains(tools[i].as_str(), "running") {
            return true;
        }
        i = i + 1;
    }
    false
}

/// `a / b` rounded toward zero (`b > 0`), as integer division does.
pub open spec fn trunc_div(a: int, b: int) -> int {
    if a >= 0 {
        a / b
    } else {
        -((-a) / b)
    }
}

/// Seconds from a start time to now, or 0 when the start lies ahead; `None`
/// when there is no readable start time.
pub open spec fn duration_since(started: Option<String>, now_ms: int) -> Option<i64> {
    match started {
        Some(t) => match rfc3339_millis(t@) {
            Some(dt) => Some(if now_ms > dt { ((now_ms - dt) / 1000) as i64 } else { 0 }),
            None => None,
        },
        None => None,
    }
}

/// Whole seconds (rounded toward zero) since the last event, when that is
/// readable and not negative.
pub open spec fn event_age(last: Option<String>, now_ms: int) -> Option<i64> {
    match last {
        Some(t) => match rfc3339_millis(t@) {
            Some(dt) => if trunc_div(now_ms - dt, 1000) >= 0 {
                Some(trunc_div(now_ms - dt, 1000) as i64)
            } else {
                None
            },
            None => None,
        },
        None => None,
    }
}

fn opt_as_str(o: &Option<String>) -> (r: Option<&str>)
    ensures
        crate::json::opt_view(r) == opt_string_view(*o),
{
    match o {
        Some(s) => Some(s.as_str()),
        None => None,
    }
}

fn seconds_since(started: &Option<String>, now: &UtcTime) -> (r: Option<i64>)
    ensures
        r == duration_since(*started, now.millis()),
{
    match started {
        Some(t) => match parse_rfc3339_millis(t.as_str()) {
            Some(dt_ms) => {
                let now_ms = now.timestamp_millis();
                if now_ms > dt_ms {
                    Some((now_ms - dt_ms) / 1000)
                } else {
                    Some(0)
                }
            },
            None => None,
        },
        None => None,
    }
}

fn age_seconds(last: &Option<String>, now: &UtcTime) -> (r: Option<i64>)
    ensures
        r == event_age(*last, now.millis()),
{
    match last {
        Some(t) => match parse_rfc3339_millis(t.as_str()) {
            Some(dt_ms) => {
                let diff: i64 = now.timestamp_millis() - dt_ms;
                let age: i64 = if diff >= 0 {
                    diff / 1000
                } else {
                    -((-diff) / 1000)
                };
                if age >= 0 {
                    Some(age)
                } else {
                    None
                }
            },
            None => None,
        },
        None => None,
    }
}

/// The placeholder task of an agent with neither a task nor a log.
pub open spec fn no_summary_text() -> Seq<char> {
    "\u{d65c}\u{b3d9} \u{c694}\u{c57d} \u{c5c6}\u{c74c}"@
}

/// The status an agent is re-classified as at `now_ms`.
pub open spec fn reclassified(a: AgentView, now_ms: int) -> Status {
    status_of(
        Some(lowercase(a.status_label@)),
        any_running_tool(a.tools),
        opt_string_view(a.last_activity_at),
        now_ms,
    )
}

/// `r` is agent `a` as the dashboard shows it at `now_ms`: re-classified,
/// labelled by its status, logs newest first, a task even when it had none,
/// its ages, and at most four tools.
pub open spec fn agent_rebuilt(a: AgentView, r: AgentView, now_ms: int) -> bool {
    let st = reclassified(a, now_ms);
    &&& r.id == a.id
    &&& r.name == a.name
    &&& r.model == a.model
    &&& r.status == st
    &&& r.status_label@ == status_title(st)
    &&& is_sorted_logs(a.recent_logs, r.recent_logs)
    &&& r.task@ == (if a.task@.len() > 0 {
        a.task@
    } else if r.recent_logs.len() > 0 {
        r.recent_logs[0].message@
    } else {
        no_summary_text()
    })
    &&& r.started_at == a.started_at
    &&& r.last_activity_at == a.last_activity_at
    &&& r.duration_sec == duration_since(a.started_at, now_ms)
    &&& r.last_event_age_sec == event_age(a.last_activity_at, now_ms)
    &&& r.is_stalled == (st == Status::Stalled)
    &&& r.tools == a.tools.take(if a.tools.len() < 4 { a.tools.len() as int } else { 4 })
}

/// Re-classifies and reshapes one agent for the dashboard (see `agent_rebuilt`).
pub fn rebuild_agent(agent: &Agent, now: &UtcTime) -> (r: Agent)
    ensures
        agent_rebuilt(agent@, r@, now.millis()),
{
    let lower = str_to_lowercase(agent.status_label.as_str());
    let running = has_running_tool(&agent.tools);
    let status = classify_status(Some(lower.as_str()), running, opt_as_str(&agent.last_activity_at), now);
    let recent_logs = sort_logs(copy_logs(&agent.recent_logs));
    let task = if !agent.task.as_str().is_empty() {
        agent.task.clone()
    } else if recent_logs.len() > 0 {
        recent_logs[0].message.clone()
    } else {
        String::from_str("\u{d65c}\u{b3d9} \u{c694}\u{c57d} \u{c5c6}\u{c74c}")
    };
    let n_tools: usize = if agent.tools.len() < 4 { agent.tools.len() } else { 4 };
    let mut tools: Vec<String> = Vec::new();
    let mut i: usize = 0;
    while i < n_tools
        invariant
            n_tools <= agent.tools@.len(),
            i <= n_tools,
            tools@ == agent.tools@.subrange(0, i as int),
        decreases n_tools - i,
    {
        tools.push(agent.tools[i].clone());
        i = i + 1;
    }
    Agent {
        id: agent.id.clone(),
        name: agent.name.clone(),
        model: agent.model.clone(),
        status,
        status_label: status_label(status),
        task,
        started_at: copy_opt_string(&agent.started_at),
        last_activity_at: copy_opt_string(&agent.last_activity_at),
        duration_sec: seconds_since(&agent.started_at, now),
        last_event_age_sec: age_seconds(&agent.last_activity_at, now),
        is_stalled: status == Status::Stalled,
        tools,
        recent_logs,
    }
}

/// How many of the agents have status `st`.
pub open spec fn count_with(agents: Seq<AgentView>, st: Status) -> nat {
    agents.filter(|a: AgentView| a.status == st).len()
}

/// The status counts of a list of agents.
pub open spec fn counts_of(agents: Seq<AgentView>) -> StatusCounts {
    StatusCounts {
        running: sat_i64(count_with(agents, Status::Running) as int),
        delayed: sat_i64(count_with(agents, Status::Delayed) as int),
        stalled: sat_i64(count_with(agents, Status::Stalled) as int),
        completed: sat_i64(count_with(agents, Status::Completed) as int),
        failed: sat_i64(count_with(agents, Status::Failed) as int),
    }
}

proof fn lemma_count_step(agents: Seq<AgentView>, i: int, st: Status)
    requires
        0 <= i < agents.len(),
    ensures
        count_with(agents.take(i + 1), st) == count_with(agents.take(i), st) + (if agents[i].status == st { 1int } else { 0 }),
{
    reveal_with_fuel(Seq::filter, 1);
    assert(agents.take(i + 1).drop_last() =~= agents.take(i));
}

/// Counts the agents in each status.
pub fn count_statuses(agents: &Vec<Agent>) -> (r: StatusCounts)
    ensures
        r == counts_of(agent_views(agents@)),
{
    let ghost v = agent_views(agents@);
    let mut running: usize = 0;
    let mut delayed: usize = 0;
    let mut stalled: usize = 0;
    let mut completed: usize = 0;
    let mut failed: usize = 0;
    let mut i: usize = 0;
    assert(v.take(0) =~= Seq::<AgentView>::empty());
    while i < agents.len()
        invariant
            v == agent_views(agents@),
            i <= agents@.len(),
            running == count_with(v.take(i as int), Status::Running),
            delayed == count_with(v.take(i as int), Status::Delayed),
            stalled == count_with(v.take(i as int), Status::Stalled),
            completed == count_with(v.take(i as int), Status::Completed),
            failed == count_with(v.take(i as int), Status::Failed),
            running + delayed + stalled + completed + failed == i,
        decreases agents@.len() - i,
    {
        proof {
            lemma_count_step(v, i as int, Status::Running);
            lemma_count_step(v, i as int, Status::Delayed);
            lemma_count_step(v, i as int, Status::Stalled);
            lemma_count_step(v, i as int, Status::Completed);
            lemma_count_step(v, i as int, Status::Failed);
            assert(v[i as int].status == agents@[i as int].status);
        }
        match agents[i].status {
            Status::Running => running = running + 1,
            Status::Delayed => delayed = delayed + 1,
            Status::Stalled => stalled = stalled + 1,
            Status::Completed => completed = completed + 1,
            Status::Failed => failed = failed + 1,
        }
        i = i + 1;
    }
    assert(v.take(agents@.len() as int) =~= v);
    StatusCounts {
        running: sat_count(running as u64),
        delayed: sat_count(delayed as u64),
        stalled: sat_count(stalled as u64),
        completed: sat_count(completed as u64),
        failed: sat_count(failed as u64),
    }
}

/// `r` is child session `c` as the dashboard shows it at `now_ms`: its agents
/// rebuilt and counted, everything else as it was.
pub open spec fn child_rebuilt(c: SessionView, r: SessionView, now_ms: int) -> bool {
    &&& r.id == c.id
    &&& r.name == c.name
    &&& r.directory == c.directory
    &&& r.parent_id == c.parent_id
    &&& r.started_at == c.started_at
    &&& r.last_activity_at == c.last_activity_at
    &&& r.duration_sec == c.duration_sec
    &&& r.agents.len() == c.agents.len()
    &&& forall|i: int| 0 <= i < c.agents.len() ==> agent_rebuilt(c.agents[i], #[trigger] r.agents[i], now_ms)
    &&& r.status_counts == counts_of(r.agents)
    &&& r.stalled_agent_count == sat_i64(count_with(r.agents, Status::Stalled) as int)
    &&& r.children == c.children
}

/// Rebuilds the agents of one agent list at `now`, in order.
fn rebuild_agents(agents: &Vec<Agent>, now: &UtcTime) -> (r: Vec<Agent>)
    ensures
        r@.len() == agents@.len(),
        forall|i: int| 0 <= i < agents@.len() ==> agent_rebuilt(agents@[i]@, #[trigger] r@[i]@, now.millis()),
{
    let mut out: Vec<Agent> = Vec::new();
    let mut i: usize = 0;
    while i < agents.len()
        invariant
            i <= agents@.len(),
            out@.len() == i,
            forall|j: int| 0 <= j < i ==> agent_rebuilt(agents@[j]@, #[trigger] out@[j]@, now.millis()),
        decreases agents@.len() - i,
    {
        out.push(rebuild_agent(&agents[i], now));
        i = i + 1;
    }
    out
}

/// Builds a nested child session for the dashboard (see `child_rebuilt`).
pub fn build_child_session(child: &Session, now: &UtcTime) -> (r: Session)
    ensures
        child_rebuilt(session_view(*child), session_view(r), now.millis()),
{
    let agents = rebuild_agents(&child.agents, now);
    let counts = count_statuses(&agents);
    let children = match &child.children {
        Some(c) => {
            let copy = Session::copy_of(child);
            copy.children
        },
        None => None,
    };
    let r = Session {
        id: child.id.clone(),
        name: child.name.clone(),
        directory: child.directory.clone(),
        parent_id: copy_opt_string(&child.parent_id),
        started_at: copy_opt_string(&child.started_at),
        last_activity_at: copy_opt_string(&child.last_activity_at),
        duration_sec: child.duration_sec,
        stalled_agent_count: counts.stalled,
        status_counts: counts,
        agents,
        children,
    };
    proof {
        let rv = session_view(r);
        let cv = session_view(*child);
        assert forall|i: int| 0 <= i < cv.agents.len() implies agent_rebuilt(cv.agents[i], #[trigger] rv.agents[i], now.millis()) by {
            assert(rv.agents[i] == r.agents@[i]@);
            assert(cv.agents[i] == child.agents@[i]@);
        }
        assert forall|i: int| 0 <= i < rv.agents.len() implies (#[trigger] rv.agents[i]).is_stalled == (rv.agents[i].status == Status::Stalled) by {
            assert(agent_rebuilt(cv.agents[i], rv.agents[i], now.millis()));
        }
    }
    r
}

/// Some session in `flat` has the id `id`.
pub open spec fn has_id(flat: Seq<Session>, id: Seq<char>) -> bool {
    exists|j: int| 0 <= j < flat.len() && (#[trigger] flat[j]).id@ == id
}

/// Session `k` is a root: it has no parent, or its parent is not in `flat`.
pub open spec fn is_root(flat: Seq<Session>, k: int) -> bool {
    match flat[k].parent_id {
        None => true,
        Some(p) => !has_id(flat, p@),
    }
}

/// Session `j` names session `k` as its parent.
pub open spec fn is_child_of(flat: Seq<Session>, j: int, k: int) -> bool {
    flat[j].parent_id is Some && flat[j].parent_id->0@ == flat[k].id@
}

/// Indices, among the first `m`, of the root sessions, in order.
pub open spec fn roots_upto(flat: Seq<Session>, m: int) -> Seq<usize>
    decreases m,
{
    if m <= 0 {
        Seq::empty()
    } else if is_root(flat, m - 1) {
        roots_upto(flat, m - 1).push((m - 1) as usize)
    } else {
        roots_upto(flat, m - 1)
    }
}

/// Indices, among the first `m`, of the children of session `k`, in order.
pub open spec fn children_upto(flat: Seq<Session>, k: int, m: int) -> Seq<usize>
    decreases m,
{
    if m <= 0 {
        Seq::empty()
    } else if is_child_of(flat, m - 1, k) {
        children_upto(flat, k, m - 1).push((m - 1) as usize)
    } else {
        children_upto(flat, k, m - 1)
    }
}

/// The ordering key of a child: the instant of its last activity, 0 when
/// unknown or unreadable.
pub open spec fn activity_key(s: Session) -> i64 {
    match s.last_activity_at {
        Some(t) => match rfc3339_millis(t@) {
            Some(ms) => ms,
            None => 0,
        },
        None => 0,
    }
}

/// The ordering keys of the sessions at `idx`.
pub open spec fn activity_keys(flat: Seq<Session>, idx: Seq<usize>) -> Seq<i64> {
    idx.map_values(|j: usize| activity_key(flat[j as int]))
}

/// All fields of `r` but the children are those of `s`.
pub open spec fn same_but_children(r: SessionView, s: SessionView) -> bool {
    &&& r.id == s.id
    &&& r.name == s.name
    &&& r.directory == s.directory
    &&& r.parent_id == s.parent_id
    &&& r.started_at == s.started_at
    &&& r.last_activity_at == s.last_activity_at
    &&& r.duration_sec == s.duration_sec
    &&& r.stalled_agent_count == s.stalled_agent_count
    &&& r.status_counts == s.status_counts
    &&& r.agents == s.agents
}

/// `r` is session `k` of `flat` with its descendants nested below it: a
/// session that has children carries them, most recently active first (stable
/// for equal instants), each nested the same way; a session without children
/// keeps the children it had. `depth` bounds the nesting.
pub open spec fn nested_tree(flat: Seq<Session>, k: int, r: SessionView, depth: nat) -> bool
    decreases depth,
{
    let s = session_view(flat[k]);
    let kids = children_upto(flat, k, flat.len() as int);
    &&& same_but_children(r, s)
    &&& if kids.len() == 0 || depth == 0 {
        r.children == s.children
    } else {
        &&& r.children is Some
        &&& r.children->0.len() == kids.len()
        &&& exists|order: Seq<usize>|
            #![trigger is_sorted_permutation(activity_keys(flat, kids), order)]
            {
                &&& is_sorted_permutation(activity_keys(flat, kids), order)
                &&& forall|i: int|
                    0 <= i < kids.len() ==> nested_tree(
                        flat,
                        kids[order[i] as int] as int,
                        #[trigger] r.children->0[i],
                        (depth - 1) as nat,
                    )
            }
    }
}

fn same_text(a: &String, b: &String) -> (r: bool)
    ensures
        r == (a@ == b@),
{
    crate::text::str_is(a.as_str(), b.as_str())
}

fn find_id(flat: &Vec<Session>, id: &String) -> (r: bool)
    ensures
        r == has_id(flat@, id@),
{
    let mut j: usize = 0;
    while j < flat.len()
        invariant
            j <= flat@.len(),
            forall|q: int| 0 <= q < j ==> (#[trigger] flat@[q]).id@ != id@,
        decreases flat@.len() - j,
    {
        if same_text(&flat[j].id, id) {
            return true;
        }
        j = j + 1;
    }
    false
}

fn children_of(flat: &Vec<Session>, k: usize) -> (r: Vec<usize>)
    requires
        k < flat@.len(),
    ensures
        r@ == children_upto(flat@, k as int, flat@.len() as int),
        forall|i: int| 0 <= i < r@.len() ==> (#[trigger] r@[i] as int) < flat@.len(),
{
    let mut out: Vec<usize> = Vec::new();
    let mut j: usize = 0;
    while j < flat.len()
        invariant
            k < flat@.len(),
            j <= flat@.len(),
            out@ == children_upto(flat@, k as int, j as int),
            forall|i: int| 0 <= i < out@.len() ==> (#[trigger] out@[i] as int) < j,
        decreases flat@.len() - j,
    {
        let child = match &flat[j].parent_id {
            Some(p) => same_text(p, &flat[k].id),
            None => false,
        };
        if child {
            out.push(j);
        }
        j = j + 1;
    }
    out
}

fn activity_key_of(s: &Session) -> (r: i64)
    ensures
        r == activity_key(*s),
{
    match &s.last_activity_at {
        Some(t) => match parse_rfc3339_millis(t.as_str()) {
            Some(ms) => ms,
            None => 0,
        },
        None => 0,
    }
}

/// Session `k` of `flat` with its descendants nested below it (see `nested_tree`).
fn build_tree(flat: &Vec<Session>, k: usize, depth: usize) -> (r: Session)
    requires
        k < flat@.len(),
    ensures
        nested_tree(flat@, k as int, session_view(r), depth as nat),
    decreases depth,
{
    let base = flat[k].copy_of();
    let kids = children_of(flat, k);
    if kids.len() == 0 || depth == 0 {
        return base;
    }
    let mut keys: Vec<i64> = Vec::new();
    let mut i: usize = 0;
    while i < kids.len()
        invariant
            i <= kids@.len(),
            forall|q: int| 0 <= q < kids@.len() ==> (#[trigger] kids@[q] as int) < flat@.len(),
            keys@ == activity_keys(flat@, kids@).subrange(0, i as int),
        decreases kids@.len() - i,
    {
        keys.push(activity_key_of(&flat[kids[i]]));
        i = i + 1;
    }
    assert(keys@ =~= activity_keys(flat@, kids@));
    let order = sort_desc_indices(&keys);
    let mut children: Vec<Session> = Vec::new();
    let mut p: usize = 0;
    while p < order.len()
        invariant
            k < flat@.len(),
            depth > 0,
            order@.len() == kids@.len(),
            is_sorted_permutation(keys@, order@),
            forall|q: int| 0 <= q < kids@.len() ==> (#[trigger] kids@[q] as int) < flat@.len(),
            p <= order@.len(),
            children@.len() == p,
            forall|q: int| 0 <= q < p ==> nested_tree(
                flat@,
                kids@[order@[q] as int] as int,
                session_view(#[trigger] children@[q]),
                (depth - 1) as nat,
            ),
        decreases order@.len() - p,
    {
        let c = build_tree(flat, kids[order[p]], depth - 1);
        children.push(c);
        p = p + 1;
    }
    let r = Session {
        id: base.id,
        name: base.name,
        directory: base.directory,
        parent_id: base.parent_id,
        started_at: base.started_at,
        last_activity_at: base.last_activity_at,
        duration_sec: base.duration_sec,
        stalled_agent_count: base.stalled_agent_count,
        status_counts: base.status_counts,
        agents: base.agents,
        children: Some(children),
    };
    proof {
        let rv = session_view(r);
        assert forall|i: int| 0 <= i < kids@.len() implies nested_tree(
            flat@,
            kids@[order@[i] as int] as int,
            #[trigger] rv.children->0[i],
            (depth - 1) as nat,
        ) by {
            assert(rv.children->0[i] == session_view(children@[i]));
        }
        assert(is_sorted_permutation(activity_keys(flat@, kids@), order@));
    }
    r
}

/// Nests child sessions under their parents. The roots (sessions without a
/// parent in `flat`) come in the order given, each with its descendants
/// nested below it.
pub fn nest_sessions(flat: Vec<Session>) -> (r: Vec<Session>)
    ensures
        r@.len() == roots_upto(flat@, flat@.len() as int).len(),
        forall|i: int| 0 <= i < r@.len() ==> nested_tree(
            flat@,
            roots_upto(flat@, flat@.len() as int)[i] as int,
            session_view(#[trigger] r@[i]),
            flat@.len() as nat,
        ),
{
    let n: usize = flat.len();
    let mut out: Vec<Session> = Vec::new();
    let mut k: usize = 0;
    while k < n
        invariant
            n == flat@.len(),
            k <= n,
            out@.len() == roots_upto(flat@, k as int).len(),
            forall|i: int| 0 <= i < out@.len() ==> nested_tree(
                flat@,
                roots_upto(flat@, k as int)[i] as int,
                session_view(#[trigger] out@[i]),
                n as nat,
            ),
        decreases n - k,
    {
        let root = match &flat[k].parent_id {
            Some(p) => !find_id(&flat, p),
            None => true,
        };
        if root {
            let t = build_tree(&flat, k, n);
            out.push(t);
        }
        proof {
            assert forall|i: int| 0 <= i < out@.len() implies nested_tree(
                flat@,
                roots_upto(flat@, k + 1)[i] as int,
                session_view(#[trigger] out@[i]),
                n as nat,
            ) by {
                if i < roots_upto(flat@, k as int).len() {
                    assert(roots_upto(flat@, k + 1)[i] == roots_upto(flat@, k as int)[i]);
                }
            }
        }
        k = k + 1;
    }
    out
}

/// The display priority of a status: stalled first, then delayed, running,
/// failed, completed.
pub open spec fn status_priority(st: Status) -> int {
    match st {
        Status::Stalled => 0,
        Status::Delayed => 1,
        Status::Running => 2,
        Status::Failed => 3,
        Status::Completed => 4,
    }
}

/// Keys that order agents by priority when taken largest first.
pub open spec fn priority_keys(agents: Seq<AgentView>) -> Seq<i64> {
    agents.map_values(|a: AgentView| (4 - status_priority(a.status)) as i64)
}

/// `r` is top-level session `s` as the dashboard shows it at `now_ms`: its
/// agents rebuilt and ordered by status priority (stable), counted, its
/// duration measured up to now, and its children rebuilt (none when it has
/// no children).
pub open spec fn root_rebuilt(s: SessionView, r: SessionView, now_ms: int) -> bool {
    &&& r.id == s.id
    &&& r.name == s.name
    &&& r.directory == s.directory
    &&& r.parent_id == s.parent_id
    &&& r.started_at == s.started_at
    &&& r.last_activity_at == s.last_activity_at
    &&& r.duration_sec == duration_since(s.started_at, now_ms)
    &&& r.agents.len() == s.agents.len()
    &&& exists|b: Seq<AgentView>, order: Seq<usize>|
        #![trigger is_sorted_permutation(priority_keys(b), order)]
        {
            &&& b.len() == s.agents.len()
            &&& forall|i: int| 0 <= i < b.len() ==> agent_rebuilt(s.agents[i], #[trigger] b[i], now_ms)
            &&& is_sorted_permutation(priority_keys(b), order)
            &&& forall|i: int| 0 <= i < r.agents.len() ==> #[trigger] r.agents[i] == b[order[i] as int]
        }
    &&& r.status_counts == counts_of(r.agents)
    &&& r.stalled_agent_count == r.status_counts.stalled
    &&& match s.children {
        Some(c) => if c.len() > 0 {
            &&& r.children is Some
            &&& r.children->0.len() == c.len()
            &&& forall|i: int| 0 <= i < c.len() ==> child_rebuilt(c[i], #[trigger] r.children->0[i], now_ms)
        } else {
            r.children is None
        },
        None => r.children is None,
    }
}

/// What a session contributes to a total: its running agents (`m == 0`), its
/// stalled agents (`m == 1`), or one session (otherwise).
pub open spec fn measure(s: SessionView, m: int) -> int {
    if m == 0 {
        s.status_counts.running as int
    } else if m == 1 {
        s.status_counts.stalled as int
    } else {
        1
    }
}

/// The sum of `measure(_, m)` over a list of sessions.
pub open spec fn sum_measure(ss: Seq<SessionView>, m: int) -> int
    decreases ss.len(),
{
    if ss.len() == 0 {
        0
    } else {
        sum_measure(ss.drop_last(), m) + measure(ss.last(), m)
    }
}

/// `measure(_, m)` of a session plus that of each of its children.
pub open spec fn with_children(s: SessionView, m: int) -> int {
    measure(s, m) + match s.children {
        Some(c) => sum_measure(c, m),
        None => 0,
    }
}

/// The sum of `with_children(_, m)` over top-level sessions.
pub open spec fn sum_roots(rs: Seq<SessionView>, m: int) -> int
    decreases rs.len(),
{
    if rs.len() == 0 {
        0
    } else {
        sum_roots(rs.drop_last(), m) + with_children(rs.last(), m)
    }
}

/// The totals over top-level sessions and their children: running agents,
/// stalled agents and sessions.
pub open spec fn summary_of(roots: Seq<SessionView>) -> SnapshotSummary {
    SnapshotSummary {
        running_agents: sat_i64(sum_roots(roots, 0)),
        suspected_stalled: sat_i64(sum_roots(roots, 1)),
        total_sessions: sat_i64(sum_roots(roots, 2)),
    }
}

/// A non-negative total as an `i64`, held at `i64::MAX` when it would not
/// fit (no list a machine can hold reaches it).
pub open spec fn sat_i64(x: int) -> i64 {
    if x > i64::MAX {
        i64::MAX
    } else {
        x as i64
    }
}

/// `a + b` for non-negative totals, held at `i64::MAX`.
fn sat_add(a: i64, b: i64) -> (r: i64)
    requires
        a >= 0,
        b >= 0,
    ensures
        r == sat_i64(a + b),
{
    if a > i64::MAX - b {
        i64::MAX
    } else {
        a + b
    }
}

/// A count as an `i64`, held at `i64::MAX`.
fn sat_count(n: u64) -> (r: i64)
    ensures
        r == sat_i64(n as int),
{
    if n > 9_223_372_036_854_775_807u64 {
        i64::MAX
    } else {
        n as i64
    }
}

proof fn lemma_sat_sum(x: int, y: int)
    requires
        x >= 0,
        y >= 0,
    ensures
        sat_i64(sat_i64(x) + sat_i64(y)) == sat_i64(x + y),
        sat_i64(sat_i64(x) + y) == sat_i64(x + y),
{
}

fn priority_key(st: Status) -> (r: i64)
    ensures
        r == 4 - status_priority(st),
{
    match st {
        Status::Stalled => 4,
        Status::Delayed => 3,
        Status::Running => 2,
        Status::Failed => 1,
        Status::Completed => 0,
    }
}

/// Rebuilds a top-level session for the dashboard (see `root_rebuilt`).
pub fn rebuild_root(session: &Session, now: &UtcTime) -> (r: Session)
    ensures
        root_rebuilt(session_view(*session), session_view(r), now.millis()),
{
    let agents = rebuild_agents(&session.agents, now);
    let ghost b = agent_views(agents@);
    let mut keys: Vec<i64> = Vec::new();
    let mut i: usize = 0;
    while i < agents.len()
        invariant
            b == agent_views(agents@),
            i <= agents@.len(),
            keys@ == priority_keys(b).subrange(0, i as int),
        decreases agents@.len() - i,
    {
        keys.push(priority_key(agents[i].status));
        i = i + 1;
    }
    assert(keys@ =~= priority_keys(b));
    let order = sort_desc_indices(&keys);
    let mut sorted: Vec<Agent> = Vec::new();
    let mut p: usize = 0;
    while p < order.len()
        invariant
            b == agent_views(agents@),
            order@.len() == agents@.len(),
            is_sorted_permutation(keys@, order@),
            p <= order@.len(),
            sorted@.len() == p,
            forall|q: int| 0 <= q < p ==> (#[trigger] sorted@[q])@ == b[order@[q] as int],
        decreases order@.len() - p,
    {
        sorted.push(agents[order[p]].copy_of());
        p = p + 1;
    }
    let counts = count_statuses(&sorted);
    let children: Option<Vec<Session>> = match &session.children {
        Some(c) => {
            if c.len() > 0 {
                let mut out: Vec<Session> = Vec::new();
                let mut j: usize = 0;
                while j < c.len()
                    invariant
                        j <= c@.len(),
                        out@.len() == j,
                        forall|q: int| 0 <= q < j ==> child_rebuilt(session_view(c@[q]), session_view(#[trigger] out@[q]), now.millis()),
                    decreases c@.len() - j,
                {
                    out.push(build_child_session(&c[j], now));
                    j = j + 1;
                }
                Some(out)
            } else {
                None
            }
        },
        None => None,
    };
    let r = Session {
        id: session.id.clone(),
        name: session.name.clone(),
        directory: session.directory.clone(),
        parent_id: copy_opt_string(&session.parent_id),
        started_at: copy_opt_string(&session.started_at),
        last_activity_at: copy_opt_string(&session.last_activity_at),
        duration_sec: seconds_since(&session.started_at, now),
        stalled_agent_count: counts.stalled,
        status_counts: counts,
        agents: sorted,
        children,
    };
    proof {
        let sv = session_view(*session);
        let rv = session_view(r);
        assert forall|q: int| 0 <= q < b.len() implies agent_rebuilt(sv.agents[q], #[trigger] b[q], now.millis()) by {
            assert(b[q] == agents@[q]@);
            assert(sv.agents[q] == session.agents@[q]@);
        }
        assert forall|q: int| 0 <= q < rv.agents.len() implies #[trigger] rv.agents[q] == b[order@[q] as int] by {
            assert(rv.agents[q] == r.agents@[q]@);
        }
        assert(agent_views(r.agents@) == rv.agents);
        match &session.children {
            Some(c) => {
                if c@.len() > 0 {
                    let rc = r.children->0;
                    assert forall|q: int| 0 <= q < sv.children->0.len() implies child_rebuilt(sv.children->0[q], #[trigger] rv.children->0[q], now.millis()) by {
                        assert(sv.children->0[q] == session_view(c@[q]));
                        assert(rv.children->0[q] == session_view(rc@[q]));
                    }
                }
            },
            None => {},
        }
    }
    r
}

proof fn lemma_children_upto_bounds(flat: Seq<Session>, k: int, m: int)
    requires
        m >= 0,
    ensures
        children_upto(flat, k, m).len() <= m,
        forall|i: int| 0 <= i < children_upto(flat, k, m).len() ==> (#[trigger] children_upto(flat, k, m)[i] as int) < m,
    decreases m,
{
    if m > 0 {
        lemma_children_upto_bounds(flat, k, m - 1);
    }
}

/// The measure of a session and of each of its children is not negative.
pub open spec fn measures_nonneg(r: SessionView, m: int) -> bool {
    &&& 0 <= measure(r, m)
    &&& r.children matches Some(c) ==> forall|j: int| 0 <= j < c.len() ==> 0 <= measure(#[trigger] c[j], m)
}

proof fn lemma_root_measures(t: SessionView, r: SessionView, now_ms: int, m: int)
    requires
        root_rebuilt(t, r, now_ms),
    ensures
        measures_nonneg(r, m),
        0 <= with_children(r, m),
{
    match r.children {
        Some(rc) => {
            let c = t.children->0;
            assert forall|j: int| 0 <= j < rc.len() implies 0 <= measure(#[trigger] rc[j], m) by {
                assert(child_rebuilt(c[j], rc[j], now_ms));
            }
            lemma_sum_nonneg(rc, m);
        },
        None => {},
    }
}

/// Totals one measure over a session and its children, held at `i64::MAX`.
fn session_total(s: &Session, m: u8) -> (r: i64)
    requires
        m <= 2,
        measures_nonneg(session_view(*s), m as int),
    ensures
        r == sat_i64(with_children(session_view(*s), m as int)),
        r >= 0,
{
    let own: i64 = if m == 0 {
        s.status_counts.running
    } else if m == 1 {
        s.status_counts.stalled
    } else {
        1
    };
    let ghost sv = session_view(*s);
    let mut total: i64 = own;
    match &s.children {
        Some(c) => {
            let ghost cv = sv.children->0;
            proof {
                assert forall|j: int| 0 <= j < c@.len() implies cv[j] == session_view(#[trigger] c@[j]) by {}
            }
            let mut j: usize = 0;
            while j < c.len()
                invariant
                    m <= 2,
                    sv == session_view(*s),
                    s.children == Some(*c),
                    cv == sv.children->0,
                    cv.len() == c@.len(),
                    forall|q: int| 0 <= q < c@.len() ==> cv[q] == session_view(#[trigger] c@[q]),
                    measures_nonneg(sv, m as int),
                    j <= c@.len(),
                    total == sat_i64(measure(sv, m as int) + sum_measure(cv.take(j as int), m as int)),
                    total >= 0,
                decreases c@.len() - j,
            {
                proof {
                    assert(cv.take(j + 1).drop_last() =~= cv.take(j as int));
                    assert(cv.take(j + 1).last() == cv[j as int]);
                    let t = cv.take(j as int);
                    assert forall|q: int| 0 <= q < t.len() implies 0 <= measure(#[trigger] t[q], m as int) by {
                        assert(t[q] == cv[q]);
                    }
                    lemma_sum_nonneg(t, m as int);
                    assert(cv[j as int] == session_view(c@[j as int]));
                    assert(0 <= measure(cv[j as int], m as int));
                    lemma_sat_sum(measure(sv, m as int) + sum_measure(t, m as int), measure(cv[j as int], m as int));
                }
                let v: i64 = if m == 0 {
                    c[j].status_counts.running
                } else if m == 1 {
                    c[j].status_counts.stalled
                } else {
                    1
                };
                total = sat_add(total, v);
                j = j + 1;
            }
            assert(cv.take(c@.len() as int) =~= cv);
        },
        None => {},
    }
    total
}

proof fn lemma_sum_nonneg(c: Seq<SessionView>, m: int)
    requires
        forall|q: int| 0 <= q < c.len() ==> 0 <= measure(#[trigger] c[q], m),
    ensures
        0 <= sum_measure(c, m),
    decreases c.len(),
{
    if c.len() > 0 {
        let d = c.drop_last();
        assert forall|q: int| 0 <= q < d.len() implies 0 <= measure(#[trigger] d[q], m) by {
            assert(d[q] == c[q]);
        }
        lemma_sum_nonneg(d, m);
    }
}

/// `r` is the dashboard form at `now_ms` of the `i`-th top-level session that
/// nesting `flat` gives.
pub open spec fn is_shown_root(flat: Seq<Session>, i: int, r: SessionView, now_ms: int) -> bool {
    exists|t: SessionView|
        #![trigger nested_tree(flat, roots_upto(flat, flat.len() as int)[i] as int, t, flat.len() as nat)]
        nested_tree(flat, roots_upto(flat, flat.len() as int)[i] as int, t, flat.len() as nat)
            && root_rebuilt(t, r, now_ms)
}

proof fn lemma_roots_upto_bounds(flat: Seq<Session>, m: int)
    requires
        m >= 0,
    ensures
        roots_upto(flat, m).len() <= m,
        forall|i: int| 0 <= i < roots_upto(flat, m).len() ==> (#[trigger] roots_upto(flat, m)[i] as int) < m,
    decreases m,
{
    if m > 0 {
        lemma_roots_upto_bounds(flat, m - 1);
    }
}

/// Builds the dashboard snapshot at `now` from the sessions read from the
/// database: nests them, rebuilds each top-level session, and totals running
/// agents, stalled agents and sessions over top-level sessions and their
/// children.
pub fn build_snapshot(now: &UtcTime, flat: Vec<Session>) -> (r: Snapshot)
    ensures
        r.sessions@.len() == roots_upto(flat@, flat@.len() as int).len(),
        forall|i: int| 0 <= i < r.sessions@.len() ==> is_shown_root(flat@, i, session_view(#[trigger] r.sessions@[i]), now.millis()),
        r.summary == summary_of(session_views(r.sessions@)),
        r.summary.running_agents == sat_i64(running_sum(shown_sessions(session_views(r.sessions@)))),
        r.summary.suspected_stalled == sat_i64(stalled_sum(shown_sessions(session_views(r.sessions@)))),
        r.summary.total_sessions == sat_i64(shown_sessions(session_views(r.sessions@)).len() as int),
        r.generated_at@ == crate::time::rfc3339_text(now.spec_secs(), now.spec_nanos())->0,
        r.source.db_path@ == crate::opencode_adapter::DEFAULT_DB_PATH@,
        r.source.mode@ == "sqlite"@,
        r.source.refresh_interval_sec == 5,
        r.source.stalled_threshold_sec == 45,
{
    let ghost f = flat@;
    let n: usize = flat.len();
    proof {
        lemma_roots_upto_bounds(f, n as int);
    }
    let roots = nest_sessions(flat);
    let mut sessions: Vec<Session> = Vec::new();
    let mut running: i64 = 0;
    let mut stalled: i64 = 0;
    let mut total: i64 = 0;
    let mut i: usize = 0;
    while i < roots.len()
        invariant
            f.len() == n,
            roots@.len() == roots_upto(f, n as int).len(),
            roots@.len() <= n,
            forall|q: int| 0 <= q < roots@.len() ==> (#[trigger] roots_upto(f, n as int)[q] as int) < n,
            forall|q: int| 0 <= q < roots@.len() ==> nested_tree(
                f,
                roots_upto(f, n as int)[q] as int,
                session_view(#[trigger] roots@[q]),
                n as nat,
            ),
            i <= roots@.len(),
            sessions@.len() == i,
            forall|q: int| 0 <= q < i ==> is_shown_root(f, q, session_view(#[trigger] sessions@[q]), now.millis()),
            running == sat_i64(sum_roots(session_views(sessions@), 0)),
            stalled == sat_i64(sum_roots(session_views(sessions@), 1)),
            total == sat_i64(sum_roots(session_views(sessions@), 2)),
            0 <= sum_roots(session_views(sessions@), 0),
            0 <= sum_roots(session_views(sessions@), 1),
            0 <= sum_roots(session_views(sessions@), 2),
        decreases roots@.len() - i,
    {
        let out = rebuild_root(&roots[i], now);
        let ghost t = session_view(roots@[i as int]);
        let ghost ov = session_view(out);
        let ghost before = session_views(sessions@);
        proof {
            lemma_root_measures(t, ov, now.millis(), 0);
            lemma_root_measures(t, ov, now.millis(), 1);
            lemma_root_measures(t, ov, now.millis(), 2);
            assert(nested_tree(f, roots_upto(f, f.len() as int)[i as int] as int, t, f.len() as nat));
            lemma_sat_sum(sum_roots(before, 0), with_children(ov, 0));
            lemma_sat_sum(sum_roots(before, 1), with_children(ov, 1));
            lemma_sat_sum(sum_roots(before, 2), with_children(ov, 2));
        }
        let add_running = session_total(&out, 0);
        let add_stalled = session_total(&out, 1);
        let add_total = session_total(&out, 2);
        running = sat_add(running, add_running);
        stalled = sat_add(stalled, add_stalled);
        total = sat_add(total, add_total);
        sessions.push(out);
        proof {
            assert(session_views(sessions@).drop_last() =~= before);
            assert(session_views(sessions@).last() == ov);
        }
        i = i + 1;
    }
    let summary = SnapshotSummary { running_agents: running, suspected_stalled: stalled, total_sessions: total };
    proof {
        law_summary_counts_children(session_views(sessions@));
    }
    Snapshot {
        generated_at: now.to_rfc3339(),
        source: SnapshotSource {
            db_path: String::from_str(crate::opencode_adapter::DEFAULT_DB_PATH),
            mode: String::from_str("sqlite"),
            refresh_interval_sec: 5,
            stalled_threshold_sec: 45,
        },
        summary,
        sessions,
    }
}

/// How many agents, over all sessions, have status `st`.
pub open spec fn agents_with_status(ss: Seq<Session>, st: Status) -> int
    decreases ss.len(),
{
    if ss.len() == 0 {
        0
    } else {
        agents_with_status(ss.drop_last(), st) + count_with(agent_views(ss.last().agents@), st)
    }
}

fn count_status_in(agents: &Vec<Agent>, st: Status) -> (r: u64)
    ensures
        r == count_with(agent_views(agents@), st),
{
    let ghost v = agent_views(agents@);
    let mut c: u64 = 0;
    let mut i: usize = 0;
    assert(v.take(0) =~= Seq::<AgentView>::empty());
    while i < agents.len()
        invariant
            v == agent_views(agents@),
            i <= agents@.len(),
            c == count_with(v.take(i as int), st),
            c <= i,
        decreases agents@.len() - i,
    {
        proof {
            lemma_count_step(v, i as int, st);
            assert(v[i as int].status == agents@[i as int].status);
        }
        if agents[i].status == st {
            c = c + 1;
        }
        i = i + 1;
    }
    assert(v.take(agents@.len() as int) =~= v);
    c
}

/// The snapshot of flat (not nested) sessions as read at `now`: running and
/// stalled agents over all sessions' own agents, and the number of sessions.
pub fn sessions_snapshot(now: &UtcTime, sessions: Vec<Session>) -> (r: Snapshot)
    ensures
        r.sessions@ == sessions@,
        r.summary.running_agents == sat_i64(agents_with_status(sessions@, Status::Running)),
        r.summary.suspected_stalled == sat_i64(agents_with_status(sessions@, Status::Stalled)),
        r.summary.total_sessions == sat_i64(sessions@.len() as int),
        r.generated_at@ == crate::time::rfc3339_text(now.spec_secs(), now.spec_nanos())->0,
        r.source.db_path@ == crate::opencode_adapter::DEFAULT_DB_PATH@,
        r.source.mode@ == "sqlite"@,
        r.source.refresh_interval_sec == 300,
        r.source.stalled_threshold_sec == 45,
{
    let mut running: i64 = 0;
    let mut stalled: i64 = 0;
    let mut i: usize = 0;
    while i < sessions.len()
        invariant
            i <= sessions@.len(),
            running == sat_i64(agents_with_status(sessions@.take(i as int), Status::Running)),
            stalled == sat_i64(agents_with_status(sessions@.take(i as int), Status::Stalled)),
            0 <= agents_with_status(sessions@.take(i as int), Status::Running),
            0 <= agents_with_status(sessions@.take(i as int), Status::Stalled),
            running >= 0,
            stalled >= 0,
        decreases sessions@.len() - i,
    {
        let a = count_status_in(&sessions[i].agents, Status::Running);
        let b = count_status_in(&sessions[i].agents, Status::Stalled);
        proof {
            assert(sessions@.take(i + 1).drop_last() =~= sessions@.take(i as int));
            lemma_sat_sum(agents_with_status(sessions@.take(i as int), Status::Running), a as int);
            lemma_sat_sum(agents_with_status(sessions@.take(i as int), Status::Stalled), b as int);
        }
        running = sat_add(running, sat_count(a));
        stalled = sat_add(stalled, sat_count(b));
        i = i + 1;
    }
    assert(sessions@.take(sessions@.len() as int) =~= sessions@);
    let total: i64 = sat_count(sessions.len() as u64);
    Snapshot {
        generated_at: now.to_rfc3339(),
        source: SnapshotSource {
            db_path: String::from_str(crate::opencode_adapter::DEFAULT_DB_PATH),
            mode: String::from_str("sqlite"),
            refresh_interval_sec: 300,
            stalled_threshold_sec: 45,
        },
        summary: SnapshotSummary {
            running_agents: running,
            suspected_stalled: stalled,
            total_sessions: total,
        },
        sessions,
    }
}

/// The five status counts of a list of agents add up to its length.
pub proof fn law_counts_partition(agents: Seq<AgentView>)
    ensures
        count_with(agents, Status::Running) + count_with(agents, Status::Delayed) + count_with(agents, Status::Stalled)
            + count_with(agents, Status::Completed) + count_with(agents, Status::Failed) == agents.len(),
    decreases agents.len(),
{
    if agents.len() > 0 {
        law_counts_partition(agents.drop_last());
        let n = agents.len() - 1;
        lemma_count_step(agents, n, Status::Running);
        lemma_count_step(agents, n, Status::Delayed);
        lemma_count_step(agents, n, Status::Stalled);
        lemma_count_step(agents, n, Status::Completed);
        lemma_count_step(agents, n, Status::Failed);
        assert(agents.take(n + 1) =~= agents);
        assert(agents.take(n) =~= agents.drop_last());
    } else {
        assert(agents.filter(|a: AgentView| a.status == Status::Running) =~= Seq::<AgentView>::empty()) by {
            reveal_with_fuel(Seq::filter, 1);
        }
        reveal_with_fuel(Seq::filter, 1);
    }
}

/// Ordered logs come newest first: each entry's instant is no earlier than
/// the next one's, and at most 20 are kept.
pub proof fn law_logs_newest_first(logs: Seq<LogEntry>, out: Seq<LogEntry>)
    requires
        is_sorted_logs(logs, out),
    ensures
        out.len() <= 20,
        forall|i: int, j: int| 0 <= i < j < out.len() ==> log_key(#[trigger] out[i]) >= log_key(#[trigger] out[j]),
{
    let order = choose|order: Seq<usize>|
        #![trigger is_sorted_permutation(log_keys(logs), order)]
        {
            &&& is_sorted_permutation(log_keys(logs), order)
            &&& out.len() == if logs.len() < 20 { logs.len() } else { 20 }
            &&& forall|k: int| 0 <= k < out.len() ==> out[k] == logs[#[trigger] order[k] as int]
        };
    assert forall|i: int, j: int| 0 <= i < j < out.len() implies log_key(#[trigger] out[i]) >= log_key(#[trigger] out[j]) by {
        assert(crate::sorting::comes_before(log_keys(logs), order[i] as int, order[j] as int));
        assert(out[i] == logs[order[i] as int]);
        assert(out[j] == logs[order[j] as int]);
    }
}

/// A shown top-level session lists its agents by status priority: stalled,
/// delayed, running, failed, completed.
pub proof fn law_agents_by_priority(s: SessionView, r: SessionView, now_ms: int)
    requires
        root_rebuilt(s, r, now_ms),
    ensures
        forall|i: int, j: int|
            0 <= i < j < r.agents.len() ==> status_priority((#[trigger] r.agents[i]).status) <= status_priority(
                (#[trigger] r.agents[j]).status,
            ),
{
    let (b, order) = choose|b: Seq<AgentView>, order: Seq<usize>|
        #![trigger is_sorted_permutation(priority_keys(b), order)]
        {
            &&& b.len() == s.agents.len()
            &&& forall|i: int| 0 <= i < b.len() ==> agent_rebuilt(s.agents[i], #[trigger] b[i], now_ms)
            &&& is_sorted_permutation(priority_keys(b), order)
            &&& forall|i: int| 0 <= i < r.agents.len() ==> #[trigger] r.agents[i] == b[order[i] as int]
        };
    assert forall|i: int, j: int| 0 <= i < j < r.agents.len() implies status_priority((#[trigger] r.agents[i]).status)
        <= status_priority((#[trigger] r.agents[j]).status) by {
        assert(crate::sorting::comes_before(priority_keys(b), order[i] as int, order[j] as int));
        assert(r.agents[i] == b[order[i] as int]);
        assert(r.agents[j] == b[order[j] as int]);
    }
}

/// The ordering key of a last-activity time: its instant, 0 when unknown or
/// unreadable.
pub open spec fn activity_of(last: Option<String>) -> i64 {
    match last {
        Some(t) => match rfc3339_millis(t@) {
            Some(ms) => ms,
            None => 0,
        },
        None => 0,
    }
}

/// No two sessions of `flat` share an id.
pub open spec fn ids_distinct(flat: Seq<Session>) -> bool {
    forall|a: int, b: int| 0 <= a < b < flat.len() ==> (#[trigger] flat[a]).id@ != (#[trigger] flat[b]).id@
}

/// A nested session that some sessions name as their parent carries exactly
/// those sessions as its children: each child names it, every session that
/// names it is among the children, the most recently active come first, and
/// when ids are distinct no session appears twice.
pub proof fn law_children_name_their_parent(flat: Seq<Session>, k: int, t: SessionView, depth: nat)
    requires
        0 <= k < flat.len() <= usize::MAX,
        depth > 0,
        nested_tree(flat, k, t, depth),
        children_upto(flat, k, flat.len() as int).len() > 0,
    ensures
        t.children matches Some(c) && c.len() == children_upto(flat, k, flat.len() as int).len() && forall|i: int|
            0 <= i < c.len() ==> ((#[trigger] c[i]).parent_id matches Some(p) && p@ == flat[k].id@),
        forall|j: int| 0 <= j < flat.len() && is_child_of(flat, j, k) ==> exists|i: int|
            0 <= i < t.children->0.len() && (#[trigger] t.children->0[i]).id@ == flat[j].id@,
        forall|i1: int, i2: int| 0 <= i1 < i2 < t.children->0.len() ==> activity_of((#[trigger] t.children->0[i1]).last_activity_at)
            >= activity_of((#[trigger] t.children->0[i2]).last_activity_at),
        ids_distinct(flat) ==> forall|i1: int, i2: int| 0 <= i1 < i2 < t.children->0.len() ==> (#[trigger] t.children->0[i1]).id@
            != (#[trigger] t.children->0[i2]).id@,
{
    let n = flat.len() as int;
    let kids = children_upto(flat, k, n);
    lemma_children_upto_sound(flat, k, n);
    lemma_children_upto_complete(flat, k, n);
    lemma_children_upto_increasing(flat, k, n);
    lemma_children_upto_bounds(flat, k, n);
    let order = choose|order: Seq<usize>|
        #![trigger is_sorted_permutation(activity_keys(flat, kids), order)]
        {
            &&& is_sorted_permutation(activity_keys(flat, kids), order)
            &&& forall|i: int|
                0 <= i < kids.len() ==> nested_tree(
                    flat,
                    kids[order[i] as int] as int,
                    #[trigger] t.children->0[i],
                    (depth - 1) as nat,
                )
        };
    let c = t.children->0;
    let keys = activity_keys(flat, kids);
    assert forall|i: int| 0 <= i < c.len() implies ((#[trigger] c[i]).parent_id matches Some(p) && p@ == flat[k].id@) by {
        let kid = kids[order[i] as int] as int;
        assert(nested_tree(flat, kid, c[i], (depth - 1) as nat));
        assert(is_child_of(flat, kid, k));
    }
    assert forall|j: int| 0 <= j < flat.len() && is_child_of(flat, j, k) implies exists|i: int|
        0 <= i < c.len() && (#[trigger] c[i]).id@ == flat[j].id@ by {
        assert(kids.contains(j as usize));
        let q = choose|q: int| 0 <= q < kids.len() && kids[q] == j as usize;
        assert(order.contains(q as usize));
        let i = choose|i: int| 0 <= i < order.len() && order[i] == q as usize;
        assert(order[i] as int == q);
        assert(kids[order[i] as int] as int == j);
        assert(nested_tree(flat, j, c[i], (depth - 1) as nat));
        assert(same_but_children(c[i], session_view(flat[j])));
        assert(c[i].id@ == flat[j].id@);
    }
    assert forall|i1: int, i2: int| 0 <= i1 < i2 < c.len() implies activity_of((#[trigger] c[i1]).last_activity_at)
        >= activity_of((#[trigger] c[i2]).last_activity_at) by {
        assert(crate::sorting::comes_before(keys, order[i1] as int, order[i2] as int));
        assert(nested_tree(flat, kids[order[i1] as int] as int, c[i1], (depth - 1) as nat));
        assert(nested_tree(flat, kids[order[i2] as int] as int, c[i2], (depth - 1) as nat));
        assert(keys[order[i1] as int] == activity_key(flat[kids[order[i1] as int] as int]));
        assert(keys[order[i2] as int] == activity_key(flat[kids[order[i2] as int] as int]));
    }
    if ids_distinct(flat) {
        assert forall|i1: int, i2: int| 0 <= i1 < i2 < c.len() implies (#[trigger] c[i1]).id@ != (#[trigger] c[i2]).id@ by {
            assert(crate::sorting::comes_before(keys, order[i1] as int, order[i2] as int));
            let a = kids[order[i1] as int] as int;
            let b = kids[order[i2] as int] as int;
            assert(order[i1] != order[i2]);
            assert(a != b);
            assert(nested_tree(flat, a, c[i1], (depth - 1) as nat));
            assert(nested_tree(flat, b, c[i2], (depth - 1) as nat));
            if a < b {
                assert(flat[a].id@ != flat[b].id@);
            } else {
                assert(flat[b].id@ != flat[a].id@);
            }
        }
    }
}

/// A nested session that no session names as its parent keeps the children
/// it had (none, for sessions read from the database).
pub proof fn law_childless_sessions_keep_their_children(flat: Seq<Session>, k: int, t: SessionView, depth: nat)
    requires
        0 <= k < flat.len() <= usize::MAX,
        nested_tree(flat, k, t, depth),
        forall|j: int| 0 <= j < flat.len() ==> !is_child_of(flat, j, k),
    ensures
        t.children == session_view(flat[k]).children,
{
    lemma_children_upto_sound(flat, k, flat.len() as int);
    if children_upto(flat, k, flat.len() as int).len() > 0 {
        let j = children_upto(flat, k, flat.len() as int)[0] as int;
        assert(is_child_of(flat, j, k));
    }
}

proof fn lemma_children_upto_complete(flat: Seq<Session>, k: int, m: int)
    requires
        0 <= m <= flat.len(),
        m <= usize::MAX,
    ensures
        forall|j: int| 0 <= j < m && is_child_of(flat, j, k) ==> #[trigger] children_upto(flat, k, m).contains(j as usize),
    decreases m,
{
    if m > 0 {
        lemma_children_upto_complete(flat, k, m - 1);
        let prev = children_upto(flat, k, m - 1);
        assert forall|j: int| 0 <= j < m && is_child_of(flat, j, k) implies #[trigger] children_upto(flat, k, m).contains(j as usize) by {
            if j < m - 1 {
                assert(prev.contains(j as usize));
                let q = choose|q: int| 0 <= q < prev.len() && prev[q] == j as usize;
                assert(children_upto(flat, k, m)[q] == prev[q]);
            } else {
                assert(children_upto(flat, k, m).last() == j as usize);
            }
        }
    }
}

proof fn lemma_children_upto_increasing(flat: Seq<Session>, k: int, m: int)
    requires
        0 <= m <= flat.len(),
        m <= usize::MAX,
    ensures
        forall|a: int, b: int| 0 <= a < b < children_upto(flat, k, m).len() ==> (#[trigger] children_upto(flat, k, m)[a])
            < (#[trigger] children_upto(flat, k, m)[b]),
    decreases m,
{
    if m > 0 {
        lemma_children_upto_increasing(flat, k, m - 1);
        lemma_children_upto_sound(flat, k, m - 1);
        let prev = children_upto(flat, k, m - 1);
        let cur = children_upto(flat, k, m);
        assert forall|a: int, b: int| 0 <= a < b < cur.len() implies (#[trigger] cur[a]) < (#[trigger] cur[b]) by {
            if b < prev.len() {
                assert(cur[a] == prev[a] && cur[b] == prev[b]);
            } else {
                assert(cur[a] == prev[a]);
            }
        }
    }
}

proof fn lemma_children_upto_sound(flat: Seq<Session>, k: int, m: int)
    requires
        0 <= m <= flat.len(),
        m <= usize::MAX,
    ensures
        forall|i: int| 0 <= i < children_upto(flat, k, m).len() ==> is_child_of(flat, #[trigger] children_upto(flat, k, m)[i] as int, k),
        forall|i: int| 0 <= i < children_upto(flat, k, m).len() ==> 0 <= (#[trigger] children_upto(flat, k, m)[i] as int) < m,
    decreases m,
{
    if m > 0 {
        lemma_children_upto_sound(flat, k, m - 1);
        let prev = children_upto(flat, k, m - 1);
        assert forall|i: int| 0 <= i < children_upto(flat, k, m).len() implies is_child_of(flat, #[trigger] children_upto(flat, k, m)[i] as int, k)
            && 0 <= (children_upto(flat, k, m)[i] as int) < m by {
            if i < prev.len() {
                assert(children_upto(flat, k, m)[i] == prev[i]);
            }
        }
    }
}

/// The ids of a nested session and of all its descendants, parents first.
pub open spec fn tree_ids(t: SessionView) -> Seq<Seq<char>>
    decreases t,
{
    seq![t.id@] + match t.children {
        Some(c) => forest_ids(c),
        None => Seq::empty(),
    }
}

/// The ids of all sessions of a forest of nested sessions, in order.
pub open spec fn forest_ids(ts: Seq<SessionView>) -> Seq<Seq<char>>
    decreases ts,
{
    if ts.len() == 0 {
        Seq::empty()
    } else {
        forest_ids(ts.drop_last()) + tree_ids(ts.last())
    }
}

/// The parent links of `flat` form no cycle: some rank below the number of
/// sessions grows from every parent to each of its children.
pub open spec fn acyclic(flat: Seq<Session>) -> bool {
    exists|rank: spec_fn(int) -> int| #[trigger] ranks_children(flat, rank)
}

/// `rank` lies below the number of sessions and grows from every parent to
/// each of its children.
pub open spec fn ranks_children(flat: Seq<Session>, rank: spec_fn(int) -> int) -> bool {
    &&& forall|k: int| 0 <= k < flat.len() ==> 0 <= #[trigger] rank(k) < flat.len()
    &&& forall|j: int, k: int|
        0 <= j < flat.len() && 0 <= k < flat.len() && #[trigger] is_child_of(flat, j, k) ==> rank(k) < rank(j)
}

/// Session `m` names some session of `flat` as its parent.
pub open spec fn has_parent(flat: Seq<Session>, m: int) -> bool {
    exists|p: int| 0 <= p < flat.len() && #[trigger] is_child_of(flat, m, p)
}

/// The session that session `m` names as its parent.
pub open spec fn parent_of(flat: Seq<Session>, m: int) -> int {
    choose|p: int| 0 <= p < flat.len() && #[trigger] is_child_of(flat, m, p)
}

/// Session `m` lies at most `d` parent links below session `k`.
pub open spec fn reach(flat: Seq<Session>, k: int, m: int, d: nat) -> bool
    decreases d,
{
    m == k || (d > 0 && has_parent(flat, m) && reach(flat, k, parent_of(flat, m), (d - 1) as nat))
}

/// With distinct ids a session has at most one parent.
proof fn lemma_one_parent(flat: Seq<Session>, m: int, p: int)
    requires
        ids_distinct(flat),
        0 <= p < flat.len(),
        is_child_of(flat, m, p),
    ensures
        has_parent(flat, m),
        parent_of(flat, m) == p,
{
    let q = parent_of(flat, m);
    assert(0 <= q < flat.len() && is_child_of(flat, m, q));
    if q < p {
        assert(flat[q].id@ != flat[p].id@);
    } else if p < q {
        assert(flat[p].id@ != flat[q].id@);
    }
}

proof fn lemma_reach_rank(flat: Seq<Session>, rank: spec_fn(int) -> int, a: int, m: int, d: nat)
    requires
        ranks_children(flat, rank),
        0 <= m < flat.len(),
        reach(flat, a, m, d),
    ensures
        rank(a) <= rank(m),
        m != a ==> rank(a) < rank(m),
    decreases d,
{
    if m != a {
        let p = parent_of(flat, m);
        assert(0 <= p < flat.len() && is_child_of(flat, m, p));
        lemma_reach_rank(flat, rank, a, p, (d - 1) as nat);
    }
}

proof fn lemma_reach_more(flat: Seq<Session>, a: int, m: int, d: nat, e: nat)
    requires
        reach(flat, a, m, d),
        d <= e,
    ensures
        reach(flat, a, m, e),
    decreases d,
{
    if m != a {
        lemma_reach_more(flat, a, parent_of(flat, m), (d - 1) as nat, (e - 1) as nat);
    }
}

proof fn lemma_reach_child(flat: Seq<Session>, a: int, p: int, m: int, d: nat)
    requires
        ids_distinct(flat),
        0 <= p < flat.len(),
        reach(flat, a, p, d),
        is_child_of(flat, m, p),
    ensures
        reach(flat, a, m, d + 1),
{
    lemma_one_parent(flat, m, p);
}

/// Going down: a session below `a` lies below one of `a`'s children.
proof fn lemma_reach_down(flat: Seq<Session>, a: int, m: int, d: nat)
    requires
        ids_distinct(flat),
        0 <= m < flat.len(),
        reach(flat, a, m, d),
        m != a,
    ensures
        d > 0,
        exists|j: int| 0 <= j < flat.len() && is_child_of(flat, j, a) && #[trigger] reach(flat, j, m, (d - 1) as nat),
    decreases d,
{
    let p = parent_of(flat, m);
    assert(0 <= p < flat.len() && is_child_of(flat, m, p));
    if p == a {
        assert(reach(flat, m, m, (d - 1) as nat));
    } else {
        lemma_reach_down(flat, a, p, (d - 1) as nat);
        let j = choose|j: int| 0 <= j < flat.len() && is_child_of(flat, j, a) && #[trigger] reach(flat, j, p, (d - 2) as nat);
        lemma_reach_child(flat, j, p, m, (d - 2) as nat);
        assert(reach(flat, j, m, (d - 1) as nat));
    }
}

/// When two different sessions reach the same session, one of them lies
/// below the other.
proof fn lemma_two_reach(flat: Seq<Session>, a1: int, a2: int, m: int, d1: nat, d2: nat)
    requires
        0 <= m < flat.len(),
        a1 != a2,
        reach(flat, a1, m, d1),
        reach(flat, a2, m, d2),
    ensures
        reach(flat, a1, a2, d1) || reach(flat, a2, a1, d2),
    decreases d1,
{
    if m != a1 && m != a2 {
        let p = parent_of(flat, m);
        assert(0 <= p < flat.len() && is_child_of(flat, m, p));
        lemma_two_reach(flat, a1, a2, p, (d1 - 1) as nat, (d2 - 1) as nat);
        if reach(flat, a1, a2, (d1 - 1) as nat) {
            lemma_reach_more(flat, a1, a2, (d1 - 1) as nat, d1);
        } else {
            lemma_reach_more(flat, a2, a1, (d2 - 1) as nat, d2);
        }
    }
}

proof fn lemma_reach_under(flat: Seq<Session>, j: int, k: int, m: int, e: nat)
    requires
        ids_distinct(flat),
        0 <= j < flat.len(),
        0 <= k < flat.len(),
        0 <= m < flat.len(),
        is_child_of(flat, j, k),
        reach(flat, j, m, e),
    ensures
        reach(flat, k, m, e + 1),
    decreases e,
{
    if m == j {
        lemma_one_parent(flat, j, k);
        assert(reach(flat, k, k, e));
    } else if m != k {
        let p = parent_of(flat, m);
        assert(0 <= p < flat.len() && is_child_of(flat, m, p));
        lemma_reach_under(flat, j, k, p, (e - 1) as nat);
    }
}

proof fn lemma_concat_ids(a: Seq<Seq<char>>, b: Seq<Seq<char>>)
    requires
        a.no_duplicates(),
        b.no_duplicates(),
        forall|x: Seq<char>| a.contains(x) ==> !b.contains(x),
    ensures
        (a + b).no_duplicates(),
{
    let c = a + b;
    assert forall|i: int, j: int| 0 <= i < c.len() && 0 <= j < c.len() && i != j implies c[i] != c[j] by {
        if i < a.len() && j >= a.len() {
            assert(a.contains(c[i]));
            assert(b.contains(c[j]));
        } else if j < a.len() && i >= a.len() {
            assert(a.contains(c[j]));
            assert(b.contains(c[i]));
        } else if i >= a.len() && j >= a.len() {
            assert(c[i] == b[i - a.len()] && c[j] == b[j - a.len()]);
        }
    }
}

proof fn lemma_forest_contains(ts: Seq<SessionView>, x: Seq<char>)
    ensures
        forest_ids(ts).contains(x) <==> exists|i: int| 0 <= i < ts.len() && #[trigger] tree_ids(ts[i]).contains(x),
    decreases ts.len(),
{
    if ts.len() > 0 {
        let d = ts.drop_last();
        lemma_forest_contains(d, x);
        let a = forest_ids(d);
        let b = tree_ids(ts.last());
        if (a + b).contains(x) {
            let q = choose|q: int| 0 <= q < (a + b).len() && (a + b)[q] == x;
            if q < a.len() {
                assert(a.contains(x));
                let i = choose|i: int| 0 <= i < d.len() && #[trigger] tree_ids(d[i]).contains(x);
                assert(ts[i] == d[i]);
            } else {
                assert(b[q - a.len()] == x);
                assert(tree_ids(ts[ts.len() - 1]).contains(x));
            }
        }
        if exists|i: int| 0 <= i < ts.len() && #[trigger] tree_ids(ts[i]).contains(x) {
            let i = choose|i: int| 0 <= i < ts.len() && #[trigger] tree_ids(ts[i]).contains(x);
            if i < ts.len() - 1 {
                assert(ts[i] == d[i]);
                assert(a.contains(x));
                let q = choose|q: int| 0 <= q < a.len() && a[q] == x;
                assert((a + b)[q] == x);
            } else {
                let q = choose|q: int| 0 <= q < b.len() && b[q] == x;
                assert((a + b)[a.len() + q] == x);
            }
        }
    }
}

proof fn lemma_forest_distinct(ts: Seq<SessionView>)
    requires
        forall|i: int| 0 <= i < ts.len() ==> (#[trigger] tree_ids(ts[i])).no_duplicates(),
        forall|i1: int, i2: int, x: Seq<char>| 0 <= i1 < ts.len() && 0 <= i2 < ts.len() && i1 != i2 && #[trigger] tree_ids(ts[i1]).contains(x)
            ==> !#[trigger] tree_ids(ts[i2]).contains(x),
    ensures
        forest_ids(ts).no_duplicates(),
    decreases ts.len(),
{
    if ts.len() > 0 {
        let d = ts.drop_last();
        assert forall|i: int| 0 <= i < d.len() implies (#[trigger] tree_ids(d[i])).no_duplicates() by {
            assert(d[i] == ts[i]);
        }
        assert forall|i1: int, i2: int, x: Seq<char>| 0 <= i1 < d.len() && 0 <= i2 < d.len() && i1 != i2 && #[trigger] tree_ids(d[i1]).contains(x)
            implies !#[trigger] tree_ids(d[i2]).contains(x) by {
            assert(d[i1] == ts[i1] && d[i2] == ts[i2]);
        }
        lemma_forest_distinct(d);
        let last = ts.len() - 1;
        assert(tree_ids(ts[last]).no_duplicates());
        assert forall|x: Seq<char>| forest_ids(d).contains(x) implies !tree_ids(ts.last()).contains(x) by {
            lemma_forest_contains(d, x);
            let i = choose|i: int| 0 <= i < d.len() && #[trigger] tree_ids(d[i]).contains(x);
            assert(d[i] == ts[i]);
            assert(tree_ids(ts[i]).contains(x));
        }
        lemma_concat_ids(forest_ids(d), tree_ids(ts.last()));
    }
}

/// No session of `flat` carries children yet (as sessions read from the
/// database do not).
pub open spec fn all_childless(flat: Seq<Session>) -> bool {
    forall|k: int| 0 <= k < flat.len() ==> (#[trigger] flat[k]).children is None
}

proof fn lemma_tree_content(flat: Seq<Session>, rank: spec_fn(int) -> int, k: int, t: SessionView, d: nat)
    requires
        ids_distinct(flat),
        ranks_children(flat, rank),
        all_childless(flat),
        flat.len() <= usize::MAX,
        0 <= k < flat.len(),
        nested_tree(flat, k, t, d),
    ensures
        forall|m: int| 0 <= m < flat.len() && #[trigger] reach(flat, k, m, d) ==> tree_ids(t).contains(flat[m].id@),
        forall|x: Seq<char>| #[trigger] tree_ids(t).contains(x) ==> exists|m: int|
            0 <= m < flat.len() && reach(flat, k, m, d) && #[trigger] flat[m].id@ == x,
        tree_ids(t).no_duplicates(),
    decreases d,
{
    let n = flat.len() as int;
    let kids = children_upto(flat, k, n);
    lemma_children_upto_sound(flat, k, n);
    lemma_children_upto_complete(flat, k, n);
    lemma_children_upto_increasing(flat, k, n);
    lemma_children_upto_bounds(flat, k, n);
    let s0 = session_view(flat[k]);
    assert(same_but_children(t, s0));
    assert(t.id@ == flat[k].id@);
    if kids.len() == 0 || d == 0 {
        assert(t.children == s0.children);
        assert(s0.children is None);
        assert(tree_ids(t) =~= seq![flat[k].id@]);
        assert forall|m: int| 0 <= m < flat.len() && #[trigger] reach(flat, k, m, d) implies tree_ids(t).contains(flat[m].id@) by {
            if m != k {
                lemma_reach_down(flat, k, m, d);
                let j = choose|j: int| 0 <= j < flat.len() && is_child_of(flat, j, k) && #[trigger] reach(flat, j, m, (d - 1) as nat);
                assert(kids.contains(j as usize));
            }
            assert(tree_ids(t)[0] == flat[k].id@);
        }
        assert forall|x: Seq<char>| #[trigger] tree_ids(t).contains(x) implies exists|m: int|
            0 <= m < flat.len() && reach(flat, k, m, d) && #[trigger] flat[m].id@ == x by {
            assert(reach(flat, k, k, d));
        }
    } else {
        let order = choose|order: Seq<usize>|
            #![trigger is_sorted_permutation(activity_keys(flat, kids), order)]
            {
                &&& is_sorted_permutation(activity_keys(flat, kids), order)
                &&& forall|i: int|
                    0 <= i < kids.len() ==> nested_tree(
                        flat,
                        kids[order[i] as int] as int,
                        #[trigger] t.children->0[i],
                        (d - 1) as nat,
                    )
            };
        let c = t.children->0;
        let keys = activity_keys(flat, kids);
        let f = forest_ids(c);
        assert(tree_ids(t) =~= seq![flat[k].id@] + f);
        // each child tree, by induction
        assert forall|i: int| 0 <= i < c.len() implies {
            &&& (forall|m: int| 0 <= m < flat.len() && #[trigger] reach(flat, kids[order[i] as int] as int, m, (d - 1) as nat)
                ==> tree_ids(c[i]).contains(flat[m].id@))
            &&& (forall|x: Seq<char>| #[trigger] tree_ids(c[i]).contains(x) ==> exists|m: int|
                0 <= m < flat.len() && reach(flat, kids[order[i] as int] as int, m, (d - 1) as nat) && #[trigger] flat[m].id@ == x)
            &&& tree_ids(c[i]).no_duplicates()
            &&& is_child_of(flat, kids[order[i] as int] as int, k)
        } by {
            lemma_tree_content(flat, rank, kids[order[i] as int] as int, c[i], (d - 1) as nat);
        }
        // every id in the forest lies below k
        assert forall|x: Seq<char>| #[trigger] f.contains(x) implies exists|m: int|
            0 <= m < flat.len() && reach(flat, k, m, d) && #[trigger] flat[m].id@ == x && m != k by {
            lemma_forest_contains(c, x);
            let i = choose|i: int| 0 <= i < c.len() && #[trigger] tree_ids(c[i]).contains(x);
            let j = kids[order[i] as int] as int;
            let m = choose|m: int| 0 <= m < flat.len() && reach(flat, j, m, (d - 1) as nat) && #[trigger] flat[m].id@ == x;
            lemma_reach_under(flat, j, k, m, (d - 1) as nat);
            if m == k {
                lemma_reach_rank(flat, rank, j, k, (d - 1) as nat);
                assert(rank(k) < rank(j));
            }
        }
        assert forall|m: int| 0 <= m < flat.len() && #[trigger] reach(flat, k, m, d) implies tree_ids(t).contains(flat[m].id@) by {
            if m == k {
                assert(tree_ids(t)[0] == flat[k].id@);
            } else {
                lemma_reach_down(flat, k, m, d);
                let j = choose|j: int| 0 <= j < flat.len() && is_child_of(flat, j, k) && #[trigger] reach(flat, j, m, (d - 1) as nat);
                assert(kids.contains(j as usize));
                let q = choose|q: int| 0 <= q < kids.len() && kids[q] == j as usize;
                assert(order.contains(q as usize));
                let i = choose|i: int| 0 <= i < order.len() && order[i] == q as usize;
                assert(kids[order[i] as int] as int == j);
                assert(tree_ids(c[i]).contains(flat[m].id@));
                lemma_forest_contains(c, flat[m].id@);
                let p = choose|p: int| 0 <= p < f.len() && f[p] == flat[m].id@;
                assert(tree_ids(t)[p + 1] == flat[m].id@);
            }
        }
        assert forall|x: Seq<char>| #[trigger] tree_ids(t).contains(x) implies exists|m: int|
            0 <= m < flat.len() && reach(flat, k, m, d) && #[trigger] flat[m].id@ == x by {
            let p = choose|p: int| 0 <= p < tree_ids(t).len() && tree_ids(t)[p] == x;
            if p == 0 {
                assert(reach(flat, k, k, d));
            } else {
                assert(f[p - 1] == x);
                assert(f.contains(x));
            }
        }
        // distinct children hold disjoint ids
        assert forall|i1: int, i2: int, x: Seq<char>| 0 <= i1 < c.len() && 0 <= i2 < c.len() && i1 != i2 && #[trigger] tree_ids(c[i1]).contains(x)
            implies !#[trigger] tree_ids(c[i2]).contains(x) by {
            if tree_ids(c[i2]).contains(x) {
                let j1 = kids[order[i1] as int] as int;
                let j2 = kids[order[i2] as int] as int;
                assert(crate::sorting::comes_before(keys, order[i1 as int] as int, order[i2 as int] as int) || crate::sorting::comes_before(keys, order[i2 as int] as int, order[i1 as int] as int));
                assert(order[i1] != order[i2]);
                assert(j1 != j2);
                let m1 = choose|m: int| 0 <= m < flat.len() && reach(flat, j1, m, (d - 1) as nat) && #[trigger] flat[m].id@ == x;
                let m2 = choose|m: int| 0 <= m < flat.len() && reach(flat, j2, m, (d - 1) as nat) && #[trigger] flat[m].id@ == x;
                if m1 != m2 {
                    if m1 < m2 {
                        assert(flat[m1].id@ != flat[m2].id@);
                    } else {
                        assert(flat[m2].id@ != flat[m1].id@);
                    }
                }
                lemma_two_reach(flat, j1, j2, m1, (d - 1) as nat, (d - 1) as nat);
                if reach(flat, j1, j2, (d - 1) as nat) {
                    lemma_reach_down(flat, j1, j2, (d - 1) as nat);
                    lemma_one_parent(flat, j2, k);
                    let p = parent_of(flat, j2);
                    lemma_reach_rank(flat, rank, j1, k, (d - 2) as nat);
                    assert(rank(k) < rank(j1));
                } else {
                    lemma_one_parent(flat, j1, k);
                    lemma_reach_rank(flat, rank, j2, k, (d - 2) as nat);
                    assert(rank(k) < rank(j2));
                }
            }
        }
        lemma_forest_distinct(c);
        assert forall|x: Seq<char>| seq![flat[k].id@].contains(x) implies !f.contains(x) by {
            assert(x == flat[k].id@);
        }
        lemma_concat_ids(seq![flat[k].id@], f);
    }
}

proof fn lemma_roots_upto_props(flat: Seq<Session>, m: int)
    requires
        0 <= m <= flat.len(),
        m <= usize::MAX,
    ensures
        forall|i: int| 0 <= i < roots_upto(flat, m).len() ==> is_root(flat, #[trigger] roots_upto(flat, m)[i] as int),
        forall|j: int| 0 <= j < m && is_root(flat, j) ==> #[trigger] roots_upto(flat, m).contains(j as usize),
        forall|a: int, b: int| 0 <= a < b < roots_upto(flat, m).len() ==> (#[trigger] roots_upto(flat, m)[a])
            < (#[trigger] roots_upto(flat, m)[b]),
    decreases m,
{
    if m > 0 {
        lemma_roots_upto_props(flat, m - 1);
        lemma_roots_upto_bounds(flat, m - 1);
        let prev = roots_upto(flat, m - 1);
        let cur = roots_upto(flat, m);
        assert forall|i: int| 0 <= i < cur.len() implies is_root(flat, #[trigger] cur[i] as int) by {
            if i < prev.len() {
                assert(cur[i] == prev[i]);
            }
        }
        assert forall|j: int| 0 <= j < m && is_root(flat, j) implies #[trigger] cur.contains(j as usize) by {
            if j < m - 1 {
                assert(prev.contains(j as usize));
                let q = choose|q: int| 0 <= q < prev.len() && prev[q] == j as usize;
                assert(cur[q] == prev[q]);
            } else {
                assert(cur.last() == j as usize);
            }
        }
        assert forall|a: int, b: int| 0 <= a < b < cur.len() implies (#[trigger] cur[a]) < (#[trigger] cur[b]) by {
            if b < prev.len() {
                assert(cur[a] == prev[a] && cur[b] == prev[b]);
            } else {
                assert(cur[a] == prev[a]);
            }
        }
    }
}

proof fn lemma_root_has_no_parent(flat: Seq<Session>, m: int)
    requires
        0 <= m < flat.len(),
    ensures
        is_root(flat, m) <==> !has_parent(flat, m),
{
    if has_parent(flat, m) {
        let p = choose|p: int| 0 <= p < flat.len() && #[trigger] is_child_of(flat, m, p);
        assert(has_id(flat, flat[m].parent_id->0@));
    }
    if !is_root(flat, m) {
        let x = flat[m].parent_id->0@;
        let j = choose|j: int| 0 <= j < flat.len() && (#[trigger] flat[j]).id@ == x;
        assert(is_child_of(flat, m, j));
    }
}

proof fn lemma_root_above(flat: Seq<Session>, rank: spec_fn(int) -> int, m: int)
    requires
        ranks_children(flat, rank),
        ids_distinct(flat),
        0 <= m < flat.len(),
    ensures
        exists|r: int| 0 <= r < flat.len() && is_root(flat, r) && #[trigger] reach(flat, r, m, rank(m) as nat),
    decreases rank(m),
{
    lemma_root_has_no_parent(flat, m);
    assert(0 <= rank(m));
    if is_root(flat, m) {
        assert(reach(flat, m, m, rank(m) as nat));
    } else {
        let p = parent_of(flat, m);
        assert(0 <= p < flat.len() && is_child_of(flat, m, p));
        assert(rank(p) < rank(m));
        lemma_root_above(flat, rank, p);
        let r = choose|r: int| 0 <= r < flat.len() && is_root(flat, r) && #[trigger] reach(flat, r, p, rank(p) as nat);
        lemma_reach_child(flat, r, p, m, rank(p) as nat);
        lemma_reach_more(flat, r, m, (rank(p) + 1) as nat, rank(m) as nat);
    }
}

/// With distinct ids, no cycle of parent links and no children yet, nesting
/// places every session exactly once in the forest it builds (a root, or a
/// descendant of its parent at any depth), and nothing else.
pub proof fn law_each_session_once(flat: Seq<Session>, forest: Seq<SessionView>)
    requires
        flat.len() <= usize::MAX,
        ids_distinct(flat),
        acyclic(flat),
        all_childless(flat),
        forest.len() == roots_upto(flat, flat.len() as int).len(),
        forall|i: int| 0 <= i < forest.len() ==> nested_tree(
            flat,
            roots_upto(flat, flat.len() as int)[i] as int,
            #[trigger] forest[i],
            flat.len() as nat,
        ),
    ensures
        forest_ids(forest).no_duplicates(),
        forall|k: int| 0 <= k < flat.len() ==> forest_ids(forest).contains(#[trigger] flat[k].id@),
        forall|x: Seq<char>| #[trigger] forest_ids(forest).contains(x) ==> exists|k: int| 0 <= k < flat.len() && #[trigger] flat[k].id@ == x,
{
    let n = flat.len() as int;
    let rank = choose|rank: spec_fn(int) -> int| #[trigger] ranks_children(flat, rank);
    let roots = roots_upto(flat, n);
    lemma_roots_upto_props(flat, n);
    lemma_roots_upto_bounds(flat, n);
    assert forall|i: int| 0 <= i < forest.len() implies {
        &&& (forall|m: int| 0 <= m < flat.len() && #[trigger] reach(flat, roots[i] as int, m, n as nat)
            ==> tree_ids(forest[i]).contains(flat[m].id@))
        &&& (forall|x: Seq<char>| #[trigger] tree_ids(forest[i]).contains(x) ==> exists|m: int|
            0 <= m < flat.len() && reach(flat, roots[i] as int, m, n as nat) && #[trigger] flat[m].id@ == x)
        &&& (#[trigger] tree_ids(forest[i])).no_duplicates()
        &&& is_root(flat, roots[i] as int)
    } by {
        lemma_tree_content(flat, rank, roots[i] as int, forest[i], n as nat);
    }
    assert forall|k: int| 0 <= k < flat.len() implies forest_ids(forest).contains(#[trigger] flat[k].id@) by {
        lemma_root_above(flat, rank, k);
        let r = choose|r: int| 0 <= r < flat.len() && is_root(flat, r) && #[trigger] reach(flat, r, k, rank(k) as nat);
        lemma_reach_more(flat, r, k, rank(k) as nat, n as nat);
        assert(roots.contains(r as usize));
        let i = choose|i: int| 0 <= i < roots.len() && roots[i] == r as usize;
        assert(reach(flat, roots[i] as int, k, n as nat));
        assert(tree_ids(forest[i]).contains(flat[k].id@));
        lemma_forest_contains(forest, flat[k].id@);
    }
    assert forall|x: Seq<char>| #[trigger] forest_ids(forest).contains(x) implies exists|k: int| 0 <= k < flat.len() && #[trigger] flat[k].id@ == x by {
        lemma_forest_contains(forest, x);
        let i = choose|i: int| 0 <= i < forest.len() && #[trigger] tree_ids(forest[i]).contains(x);
        assert(tree_ids(forest[i]).contains(x));
    }
    assert forall|i1: int, i2: int, x: Seq<char>| 0 <= i1 < forest.len() && 0 <= i2 < forest.len() && i1 != i2 && #[trigger] tree_ids(forest[i1]).contains(x)
        implies !#[trigger] tree_ids(forest[i2]).contains(x) by {
        if tree_ids(forest[i2]).contains(x) {
            let r1 = roots[i1] as int;
            let r2 = roots[i2] as int;
            assert(r1 != r2) by {
                if i1 < i2 {
                    assert(roots[i1] < roots[i2]);
                } else {
                    assert(roots[i2] < roots[i1]);
                }
            }
            let m1 = choose|m: int| 0 <= m < flat.len() && reach(flat, r1, m, n as nat) && #[trigger] flat[m].id@ == x;
            let m2 = choose|m: int| 0 <= m < flat.len() && reach(flat, r2, m, n as nat) && #[trigger] flat[m].id@ == x;
            if m1 != m2 {
                if m1 < m2 {
                    assert(flat[m1].id@ != flat[m2].id@);
                } else {
                    assert(flat[m2].id@ != flat[m1].id@);
                }
            }
            lemma_two_reach(flat, r1, r2, m1, n as nat, n as nat);
            lemma_root_has_no_parent(flat, r1);
            lemma_root_has_no_parent(flat, r2);
        }
    }
    lemma_forest_distinct(forest);
}

/// The child sessions that a session carries (none when it has none).
pub open spec fn kids_of(s: SessionView) -> Seq<SessionView> {
    match s.children {
        Some(c) => c,
        None => Seq::empty(),
    }
}

/// Every shown session: each top-level session followed by its children.
pub open spec fn shown_sessions(roots: Seq<SessionView>) -> Seq<SessionView>
    decreases roots.len(),
{
    if roots.len() == 0 {
        Seq::empty()
    } else {
        shown_sessions(roots.drop_last()) + seq![roots.last()] + kids_of(roots.last())
    }
}

/// The sum of the running counts of some sessions.
pub open spec fn running_sum(ss: Seq<SessionView>) -> int
    decreases ss.len(),
{
    if ss.len() == 0 {
        0
    } else {
        running_sum(ss.drop_last()) + ss.last().status_counts.running
    }
}

/// The sum of the stalled counts of some sessions.
pub open spec fn stalled_sum(ss: Seq<SessionView>) -> int
    decreases ss.len(),
{
    if ss.len() == 0 {
        0
    } else {
        stalled_sum(ss.drop_last()) + ss.last().status_counts.stalled
    }
}

proof fn lemma_sums_concat(a: Seq<SessionView>, b: Seq<SessionView>)
    ensures
        running_sum(a + b) == running_sum(a) + running_sum(b),
        stalled_sum(a + b) == stalled_sum(a) + stalled_sum(b),
    decreases b.len(),
{
    if b.len() == 0 {
        assert(a + b =~= a);
    } else {
        lemma_sums_concat(a, b.drop_last());
        assert((a + b).drop_last() =~= a + b.drop_last());
    }
}

proof fn lemma_measure_sums(c: Seq<SessionView>)
    ensures
        sum_measure(c, 0) == running_sum(c),
        sum_measure(c, 1) == stalled_sum(c),
        sum_measure(c, 2) == c.len(),
    decreases c.len(),
{
    if c.len() > 0 {
        lemma_measure_sums(c.drop_last());
    }
}

/// The totals of a snapshot count every shown session, top-level or child:
/// running agents and stalled agents are the sums of the running and stalled
/// counts of all of them, and the number of sessions is how many there are
/// (each held at `i64::MAX`).
pub proof fn law_summary_counts_children(roots: Seq<SessionView>)
    ensures
        summary_of(roots).running_agents == sat_i64(running_sum(shown_sessions(roots))),
        summary_of(roots).suspected_stalled == sat_i64(stalled_sum(shown_sessions(roots))),
        summary_of(roots).total_sessions == sat_i64(shown_sessions(roots).len() as int),
{
    lemma_roots_sums(roots);
}

proof fn lemma_roots_sums(roots: Seq<SessionView>)
    ensures
        sum_roots(roots, 0) == running_sum(shown_sessions(roots)),
        sum_roots(roots, 1) == stalled_sum(shown_sessions(roots)),
        sum_roots(roots, 2) == shown_sessions(roots).len(),
    decreases roots.len(),
{
    if roots.len() > 0 {
        let d = roots.drop_last();
        let r = roots.last();
        lemma_roots_sums(d);
        lemma_measure_sums(kids_of(r));
        lemma_sums_concat(shown_sessions(d), seq![r]);
        lemma_sums_concat(shown_sessions(d) + seq![r], kids_of(r));
        assert(seq![r].drop_last() =~= Seq::<SessionView>::empty());
        assert(running_sum(seq![r]) == running_sum(Seq::<SessionView>::empty()) + r.status_counts.running);
        assert(stalled_sum(seq![r]) == stalled_sum(Seq::<SessionView>::empty()) + r.status_counts.stalled);
        assert(with_children(r, 0) == r.status_counts.running + sum_measure(kids_of(r), 0));
        assert(with_children(r, 1) == r.status_counts.stalled + sum_measure(kids_of(r), 1));
        assert(with_children(r, 2) == 1 + sum_measure(kids_of(r), 2));
        match r.children {
            Some(c) => {},
            None => {
                assert(sum_measure(Seq::<SessionView>::empty(), 0) == 0);
            },
        }
    }
}

} // verus!
