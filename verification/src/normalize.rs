//! The steps of normalising a session's rows into agents.
use vstd::prelude::*;
use crate::json::{JsonValue, field_str, field2_str, field3_str, opt_view};
use crate::types::{Agent, LogEntry, RawMessage, RawPart, Status};
use crate::session_model::{
    AgentModel, LogModel, agent_model, agent_models, log_model, opt_text, is_text_greater, take_120,
    first_120,
};
use crate::opencode_adapter::{
    message_doc, owner_name, owner_model, opt_iso, first_status, label_for, find_agent, agent_slot,
    ensure_agent, new_agent, touched, message_task, message_step, part_tools, running_task,
    part_step, agent_name_of, model_of, pick_agent_name, pick_model, summarize_part,
    derive_log_level, part_summary, log_level_of,
};
use crate::time::as_iso_from_ms;
use crate::text::str_is;

verus! {

/// Every agent is still in its initial running state, with no ages.
pub open spec fn plain_agents(v: Seq<Agent>) -> bool {
    forall|i: int|
        0 <= i < v.len() ==> {
            &&& (#[trigger] v[i]).status == Status::Running
            &&& v[i].duration_sec is None
            &&& v[i].last_event_age_sec is None
            &&& !v[i].is_stalled
        }
}

/// The document of the last message with id `id`.
pub fn message_doc_of<'a>(messages: &'a [RawMessage], id: &str) -> (r: Option<&'a JsonValue>)
    ensures
        match r {
            Some(d) => message_doc(messages@, id@) == Some(*d),
            None => message_doc(messages@, id@) is None,
        },
{
    let mut i: usize = messages.len();
    assert(messages@.take(messages@.len() as int) =~= messages@);
    while i > 0
        invariant
            i <= messages@.len(),
            message_doc(messages@, id@) == message_doc(messages@.take(i as int), id@),
        decreases i,
    {
        assert(messages@.take(i as int).drop_last() =~= messages@.take(i - 1));
        assert(messages@.take(i as int).last() == messages@[i - 1]);
        if str_is(messages[i - 1].id.as_str(), id) {
            return Some(&messages[i - 1].data);
        }
        i = i - 1;
    }
    None
}

/// The agent name of the message a part belongs to.
pub fn owner_name_of(messages: &[RawMessage], part: &RawPart) -> (r: String)
    ensures
        r@ == owner_name(messages@, *part),
{
    match message_doc_of(messages, part.message_id.as_str()) {
        Some(d) => pick_agent_name(d),
        None => String::from_str("session"),
    }
}

/// The model of the message a part belongs to.
pub fn owner_model_of(messages: &[RawMessage], part: &RawPart) -> (r: String)
    ensures
        r@ == owner_model(messages@, *part),
{
    match message_doc_of(messages, part.message_id.as_str()) {
        Some(d) => pick_model(d),
        None => String::from_str("unknown"),
    }
}

/// The latest tool status of agent `name` (see `first_status`).
pub fn first_status_of(messages: &[RawMessage], parts: &[RawPart], name: &str) -> (r: Option<String>)
    ensures
        opt_text(r) == first_status(messages@, parts@, name@),
{
    let mut i: usize = 0;
    assert(parts@.skip(0) =~= parts@);
    while i < parts.len()
        invariant
            i <= parts@.len(),
            first_status(messages@, parts@, name@) == first_status(messages@, parts@.skip(i as int), name@),
        decreases parts@.len() - i,
    {
        assert(parts@.skip(i as int).drop_first() =~= parts@.skip(i + 1));
        assert(parts@.skip(i as int)[0] == parts@[i as int]);
        let owner = owner_name_of(messages, &parts[i]);
        if str_is(owner.as_str(), name) {
            if let Some(st) = parts[i].data.field2_str("state", "status") {
                return Some(String::from_str(st));
            }
        }
        i = i + 1;
    }
    None
}

/// The initial label for a latest tool status.
pub fn label_of(st: &Option<String>) -> (r: String)
    ensures
        r@ == label_for(opt_text(*st)),
{
    match st {
        None => String::from_str("unknown"),
        Some(s) => {
            let t = s.as_str();
            if str_is(t, "completed") || str_is(t, "success") || str_is(t, "done") {
                String::from_str("Completed")
            } else if str_is(t, "failed") || str_is(t, "error") {
                String::from_str("Failed")
            } else {
                String::from_str("Running")
            }
        },
    }
}

/// Index of the agent named `name`.
pub fn find_agent_in(list: &Vec<Agent>, name: &str) -> (r: Option<usize>)
    ensures
        match r {
            Some(i) => find_agent(agent_models(list@), name@) == i && i < list@.len(),
            None => find_agent(agent_models(list@), name@) == -1,
        },
{
    let ghost ms = agent_models(list@);
    let mut i: usize = list.len();
    assert(ms.take(ms.len() as int) =~= ms);
    while i > 0
        invariant
            ms == agent_models(list@),
            i <= list@.len(),
            find_agent(ms, name@) == find_agent(ms.take(i as int), name@),
        decreases i,
    {
        assert(ms.take(i as int).drop_last() =~= ms.take(i - 1));
        assert(ms.take(i as int).last() == agent_model(list@[i - 1]));
        if str_is(list[i - 1].name.as_str(), name) {
            return Some(i - 1);
        }
        i = i - 1;
    }
    None
}

/// The RFC 3339 text of an optional millisecond timestamp.
pub fn iso_opt(t: Option<i64>) -> (r: Option<String>)
    ensures
        opt_text(r) == opt_iso(t),
{
    match t {
        Some(ms) => as_iso_from_ms(ms),
        None => None,
    }
}

/// An agent's task after a message (see `message_task`).
pub fn message_task_of(task: &String, d: &JsonValue) -> (r: String)
    ensures
        r@ == message_task(task@, *d),
{
    let mut t1 = task.clone();
    if task.as_str().is_empty() {
        if let Some(role) = d.field_str("role") {
            if str_is(role, "user") {
                if let Some(c) = d.field_str("content") {
                    t1 = take_120(c);
                } else if let Some(x) = d.field_str("summary") {
                    t1 = take_120(x);
                }
            }
        }
    }
    if t1.as_str().is_empty() {
        if let Some(x) = d.field2_str("summary", "text") {
            t1 = take_120(x);
        } else if let Some(x) = d.field_str("title") {
            t1 = take_120(x);
        }
    }
    t1
}

/// The agent named `name` of the list, created at the end when missing;
/// returns its index.
fn ensure_agent_in(
    list: &mut Vec<Agent>,
    raw_id: &String,
    name: String,
    model: String,
    label: String,
    created: Option<String>,
) -> (i: usize)
    requires
        plain_agents(old(list)@),
    ensures
        plain_agents(final(list)@),
        agent_models(final(list)@) == ensure_agent(agent_models(old(list)@), raw_id@, name@, model@, label@, opt_text(created)),
        i == agent_slot(agent_models(old(list)@), name@),
        i < final(list)@.len(),
{
    match find_agent_in(list, name.as_str()) {
        Some(i) => i,
        None => {
            let mut id = raw_id.clone();
            id.append(":");
            id.append(name.as_str());
            let a = Agent {
                id,
                name,
                model,
                status: Status::Running,
                status_label: label,
                task: String::new(),
                started_at: created,
                last_activity_at: None,
                duration_sec: None,
                last_event_age_sec: None,
                is_stalled: false,
                tools: Vec::new(),
                recent_logs: Vec::new(),
            };
            let ghost before = list@;
            list.push(a);
            proof {
                assert(agent_model(a).tools =~= Seq::<Seq<char>>::empty());
                assert(agent_model(a).logs =~= Seq::<LogModel>::empty());
                assert(agent_models(list@) =~= agent_models(before).push(agent_model(a)));
                assert forall|k: int| 0 <= k < list@.len() implies (#[trigger] list@[k]).status == Status::Running
                    && list@[k].duration_sec is None && list@[k].last_event_age_sec is None && !list@[k].is_stalled by {
                    if k < before.len() {
                        assert(list@[k] == before[k]);
                    }
                }
            }
            list.len() - 1
        },
    }
}

/// Moves an agent's last activity to `u` when that sorts later.
fn touch_agent(a: &mut Agent, u: Option<String>)
    ensures
        agent_model(*final(a)) == touched(agent_model(*old(a)), opt_text(u)),
        final(a).status == old(a).status,
        final(a).duration_sec == old(a).duration_sec,
        final(a).last_event_age_sec == old(a).last_event_age_sec,
        final(a).is_stalled == old(a).is_stalled,
{
    if let Some(t) = u {
        let set = match &a.last_activity_at {
            None => true,
            Some(cur) => is_text_greater(t.as_str(), cur.as_str()),
        };
        if set {
            a.last_activity_at = Some(t);
        }
    }
}

proof fn lemma_replace_model(before: Seq<Agent>, after: Seq<Agent>, i: int, a: Agent)
    requires
        0 <= i < before.len(),
        after == before.remove(i).insert(i, a),
    ensures
        agent_models(after) == agent_models(before).update(i, agent_model(a)),
        after == before.update(i, a),
{
    assert(after =~= before.update(i, a));
    assert(agent_models(after) =~= agent_models(before).update(i, agent_model(a)));
}

/// Applies one message to the agents (see `message_step`).
pub fn apply_message(
    list: &mut Vec<Agent>,
    raw_id: &String,
    messages: &[RawMessage],
    parts: &[RawPart],
    m: &RawMessage,
)
    requires
        plain_agents(old(list)@),
    ensures
        plain_agents(final(list)@),
        agent_models(final(list)@) == message_step(agent_models(old(list)@), raw_id@, messages@, parts@, *m),
{
    let name = pick_agent_name(&m.data);
    let model = pick_model(&m.data);
    let status = first_status_of(messages, parts, name.as_str());
    let label = label_of(&status);
    let created = iso_opt(m.time_created);
    let i = ensure_agent_in(list, raw_id, name, model, label, created);
    let ghost l1 = list@;
    let mut a = list.remove(i);
    touch_agent(&mut a, iso_opt(m.time_updated));
    let task = message_task_of(&a.task, &m.data);
    a.task = task;
    list.insert(i, a);
    proof {
        lemma_replace_model(l1, list@, i as int, a);
        assert forall|k: int| 0 <= k < list@.len() implies (#[trigger] list@[k]).status == Status::Running
            && list@[k].duration_sec is None && list@[k].last_event_age_sec is None && !list@[k].is_stalled by {
            if k != i {
                assert(list@[k] == l1[k]);
            } else {
                assert(l1[k].status == Status::Running);
            }
        }
    }
}

fn has_text(tools: &Vec<String>, t: &str) -> (r: bool)
    ensures
        r == tools@.map_values(|x: String| x@).contains(t@),
{
    let ghost v = tools@.map_values(|x: String| x@);
    let mut i: usize = 0;
    while i < tools.len()
        invariant
            v == tools@.map_values(|x: String| x@),
            i <= tools@.len(),
            forall|j: int| 0 <= j < i ==> (#[trigger] v[j]) != t@,
        decreases tools@.len() - i,
    {
        if str_is(tools[i].as_str(), t) {
            assert(v[i as int] == t@);
            return true;
        }
        i = i + 1;
    }
    false
}

/// An agent's task after a part whose tool is running (see `running_task`).
pub fn running_task_of(task: String, d: &JsonValue) -> (r: String)
    ensures
        r@ == running_task(task@, *d),
{
    if let Some(st) = d.field2_str("state", "status") {
        if str_is(st, "running") {
            if let Some(cmd) = d.field3_str("state", "input", "command") {
                if let Some(tool) = d.field_str("tool") {
                    let mut out = String::from_str("[");
                    out.append(tool);
                    out.append("] ");
                    out.append(cmd);
                    return out;
                }
            }
        }
    }
    task
}

/// Applies one part to the agents (see `part_step`).
pub fn apply_part(
    list: &mut Vec<Agent>,
    raw_id: &String,
    messages: &[RawMessage],
    parts: &[RawPart],
    p: &RawPart,
)
    requires
        plain_agents(old(list)@),
    ensures
        plain_agents(final(list)@),
        agent_models(final(list)@) == part_step(agent_models(old(list)@), raw_id@, messages@, parts@, *p),
{
    let name = owner_name_of(messages, p);
    let model = owner_model_of(messages, p);
    let status = first_status_of(messages, parts, name.as_str());
    let label = label_of(&status);
    let created = iso_opt(p.time_created);
    let i = ensure_agent_in(list, raw_id, name, model, label, created);
    let ghost l1 = list@;
    let mut a = list.remove(i);
    touch_agent(&mut a, iso_opt(p.time_updated));
    let ghost a0 = agent_model(a);
    if let Some(t) = p.data.field_str("tool") {
        if !has_text(&a.tools, t) {
            let ghost before = a.tools@;
            a.tools.push(String::from_str(t));
            assert(a.tools@.map_values(|x: String| x@) =~= before.map_values(|x: String| x@).push(t@));
        }
    }
    let task1 = running_task_of(a.task, &p.data);
    a.task = task1;
    let ghost a2 = agent_model(a);
    match summarize_part(&p.data) {
        Some(msg) => {
            let time = match iso_opt(p.time_updated) {
                Some(t) => t,
                None => String::new(),
            };
            let empty = JsonValue::empty_object();
            let msg_json = match message_doc_of(messages, p.message_id.as_str()) {
                Some(d) => d,
                None => &empty,
            };
            let level = derive_log_level(&p.data, msg_json);
            let set_task = a.task.as_str().is_empty() && !match p.data.field_str("type") {
                Some(ty) => str_is(ty, "reasoning"),
                None => false,
            };
            let ghost logs_before = a.recent_logs@;
            if set_task {
                a.task = msg.clone();
            }
            let entry = LogEntry { time, level, message: msg };
            a.recent_logs.push(entry);
            assert(a.recent_logs@.map_values(|e: LogEntry| log_model(e)) =~= logs_before.map_values(
                |e: LogEntry| log_model(e),
            ).push(log_model(entry)));
        },
        None => {},
    }
    list.insert(i, a);
    proof {
        lemma_replace_model(l1, list@, i as int, a);
        assert forall|k: int| 0 <= k < list@.len() implies (#[trigger] list@[k]).status == Status::Running
            && list@[k].duration_sec is None && list@[k].last_event_age_sec is None && !list@[k].is_stalled by {
            if k != i {
                assert(list@[k] == l1[k]);
            } else {
                assert(l1[k].status == Status::Running);
            }
        }
    }
}

} // verus!
