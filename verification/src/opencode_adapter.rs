//! Reading OpenCode records: helpers over message and part documents, and
//! the normalisation of a session's rows into a `Session`.
use vstd::prelude::*;
use crate::json::{JsonValue, field_str, field2_str, field3_str, opt_view};
use crate::types::{Agent, RawSession, RawMessage, RawPart, RawTodo, Session, Status, StatusCounts};
use crate::normalize::{plain_agents, apply_message, apply_part};
use crate::session_model::{agent_model, agent_models, opt_text};
use crate::sorting::sort_desc_indices;
use crate::dashboard_service::trunc_div;
use crate::session_model::{AgentModel, LogModel, text_greater, first_120, law_text_order_strict};
use crate::time::iso_from_ms;
pub use crate::time::as_iso_from_ms;
use crate::sorting::is_sorted_permutation;
use crate::text::{
    decimal, decimal_chars, append_chars, chars_of, string_of, str_trim, str_is, trimmed,
};
use crate::types::copy_opt_string;

verus! {

/// Where OpenCode keeps its database.
pub const DEFAULT_DB_PATH: &'static str = "~/.local/share/opencode/opencode.db";

/// The display form of a positive duration in milliseconds: "Hh Mm" from one
/// hour on, "Mm Ss" below that, nothing for less than a second.
pub open spec fn duration_text(ms: int) -> Option<Seq<char>> {
    if ms <= 0 {
        None
    } else {
        let h = ms / 3_600_000;
        let m = (ms % 3_600_000) / 60_000;
        let s = (ms % 60_000) / 1000;
        if h > 0 {
            Some(decimal(h as nat) + seq!['h', ' '] + decimal(m as nat) + seq!['m'])
        } else if m > 0 || s > 0 {
            Some(decimal(m as nat) + seq!['m', ' '] + decimal(s as nat) + seq!['s'])
        } else {
            None
        }
    }
}

/// The view of an optional `String`.
pub open spec fn opt_string_view(o: Option<String>) -> Option<Seq<char>> {
    match o {
        Some(s) => Some(s@),
        None => None,
    }
}

/// Formats a duration given in milliseconds ("1h 30m", "1m 30s", "0m 30s").
pub fn format_duration_from_ms(ms: i64) -> (r: Option<String>)
    ensures
        opt_string_view(r) == duration_text(ms as int),
{
    if ms <= 0 {
        return None;
    }
    let hours: u64 = (ms / 3_600_000) as u64;
    let minutes: u64 = ((ms % 3_600_000) / 60_000) as u64;
    let seconds: u64 = ((ms % 60_000) / 1000) as u64;
    if hours > 0 {
        let mut v = decimal_chars(hours);
        v.push('h');
        v.push(' ');
        let m = decimal_chars(minutes);
        append_chars(&mut v, m.as_slice());
        v.push('m');
        Some(string_of(v.as_slice()))
    } else if minutes > 0 || seconds > 0 {
        let mut v = decimal_chars(minutes);
        v.push('m');
        v.push(' ');
        let s = decimal_chars(seconds);
        append_chars(&mut v, s.as_slice());
        v.push('s');
        Some(string_of(v.as_slice()))
    } else {
        None
    }
}

/// The trimmed text of the first value whose trimmed text is not empty.
pub open spec fn first_non_empty_of(vals: Seq<Option<Seq<char>>>) -> Option<Seq<char>>
    decreases vals.len(),
{
    if vals.len() == 0 {
        None
    } else if vals[0] is Some && trimmed(vals[0]->0).len() > 0 {
        Some(trimmed(vals[0]->0))
    } else {
        first_non_empty_of(vals.drop_first())
    }
}

/// The views of a sequence of optional string slices.
pub open spec fn opt_views(s: Seq<Option<&str>>) -> Seq<Option<Seq<char>>> {
    s.map_values(|o: Option<&str>| opt_view(o))
}

/// The first value that is not empty after trimming, trimmed.
pub fn first_non_empty_in<'a>(values: &[Option<&'a str>]) -> (r: Option<&'a str>)
    ensures
        opt_view(r) == first_non_empty_of(opt_views(values@)),
{
    let mut i: usize = 0;
    assert(opt_views(values@).skip(0) =~= opt_views(values@));
    while i < values.len()
        invariant
            i <= values@.len(),
            first_non_empty_of(opt_views(values@)) == first_non_empty_of(opt_views(values@).skip(i as int)),
        decreases values@.len() - i,
    {
        assert(opt_views(values@).skip(i as int).drop_first() =~= opt_views(values@).skip(i + 1));
        assert(opt_views(values@).skip(i as int)[0] == opt_view(values@[i as int]));
        if let Some(v) = values[i] {
            let t = str_trim(v);
            if !t.is_empty() {
                return Some(t);
            }
        }
        i = i + 1;
    }
    None
}

/// The first value that is not empty after trimming, trimmed.
pub fn first_non_empty<'a, const N: usize>(values: [Option<&'a str>; N]) -> (r: Option<&'a str>)
    ensures
        opt_view(r) == first_non_empty_of(opt_views(values@)),
{
    first_non_empty_in(values.as_slice())
}

/// The agent name that a message document names.
pub open spec fn agent_name_of(m: JsonValue) -> Seq<char> {
    match first_non_empty_of(
        seq![field_str(m, "agent"@), field_str(m, "mode"@), field2_str(m, "model"@, "modelID"@)],
    ) {
        Some(s) => s,
        None => "session"@,
    }
}

/// Picks the agent name from a message document.
pub fn pick_agent_name(message_json: &JsonValue) -> (r: String)
    ensures
        r@ == agent_name_of(*message_json),
{
    let mut vals: Vec<Option<&str>> = Vec::new();
    vals.push(message_json.field_str("agent"));
    vals.push(message_json.field_str("mode"));
    vals.push(message_json.field2_str("model", "modelID"));
    assert(opt_views(vals@) =~= seq![
        field_str(*message_json, "agent"@),
        field_str(*message_json, "mode"@),
        field2_str(*message_json, "model"@, "modelID"@),
    ]);
    match first_non_empty_in(vals.as_slice()) {
        Some(s) => String::from_str(s),
        None => String::from_str("session"),
    }
}

/// The model identifier that a message document names.
pub open spec fn model_of(m: JsonValue) -> Seq<char> {
    let nested_provider = field2_str(m, "model"@, "providerID"@);
    let nested_model = field2_str(m, "model"@, "modelID"@);
    let flat_provider = field_str(m, "providerID"@);
    let flat_model = field_str(m, "modelID"@);
    if nested_provider is Some && nested_model is Some {
        nested_provider->0 + "/"@ + nested_model->0
    } else if flat_provider is Some && flat_model is Some {
        flat_provider->0 + "/"@ + flat_model->0
    } else if flat_model is Some {
        flat_model->0
    } else {
        "unknown"@
    }
}

/// `a` + `sep` + `b`.
fn join_with(a: &str, sep: &str, b: &str) -> (r: String)
    ensures
        r@ == a@ + sep@ + b@,
{
    let mut s = String::from_str(a);
    s.append(sep);
    s.append(b);
    s
}

/// Picks the model identifier ("provider/model") from a message document.
pub fn pick_model(message_json: &JsonValue) -> (r: String)
    ensures
        r@ == model_of(*message_json),
{
    if let (Some(provider), Some(model)) = (
        message_json.field2_str("model", "providerID"),
        message_json.field2_str("model", "modelID"),
    ) {
        return join_with(provider, "/", model);
    }
    if let (Some(provider), Some(model)) = (
        message_json.field_str("providerID"),
        message_json.field_str("modelID"),
    ) {
        return join_with(provider, "/", model);
    }
    match message_json.field_str("modelID") {
        Some(m) => String::from_str(m),
        None => String::from_str("unknown"),
    }
}

/// The log message that a part document summarises to.
pub open spec fn part_summary(p: JsonValue) -> Option<Seq<char>> {
    match field_str(p, "type"@) {
        None => None,
        Some(t) => if t == "text"@ {
            first_non_empty_of(seq![field_str(p, "text"@)])
        } else if t == "tool"@ {
            let tool = match first_non_empty_of(seq![field_str(p, "tool"@)]) {
                Some(x) => x,
                None => "tool"@,
            };
            let status = field2_str(p, "state"@, "status"@);
            let input = field3_str(p, "state"@, "input"@, "command"@);
            if status is Some && input is Some {
                Some(tool + " \u{b7} "@ + status->0 + " \u{b7} ["@ + input->0 + "]"@)
            } else if status is Some {
                Some(tool + " \u{b7} "@ + status->0)
            } else if input is Some {
                Some("["@ + input->0 + "]"@)
            } else {
                Some(tool)
            }
        } else if t == "step-start"@ {
            Some("\u{c791}\u{c5c5} \u{b2e8}\u{acc4} \u{c2dc}\u{c791}"@)
        } else if t == "step-finish"@ {
            Some("\u{c791}\u{c5c5} \u{b2e8}\u{acc4} \u{c644}\u{b8cc}"@)
        } else if t == "reasoning"@ {
            Some("Reasoning update"@)
        } else {
            first_non_empty_of(seq![field_str(p, "text"@), field_str(p, "tool"@)])
        },
    }
}

/// The text of an optional string slice, as an owned string.
fn owned(o: Option<&str>) -> (r: Option<String>)
    ensures
        opt_string_view(r) == opt_view(o),
{
    match o {
        Some(s) => Some(String::from_str(s)),
        None => None,
    }
}

/// Summarises a part document into a display message.
pub fn summarize_part(part_json: &JsonValue) -> (r: Option<String>)
    ensures
        opt_string_view(r) == part_summary(*part_json),
{
    let part_type = match part_json.field_str("type") {
        Some(t) => t,
        None => return None,
    };
    if str_is(part_type, "text") {
        let mut vals: Vec<Option<&str>> = Vec::new();
        vals.push(part_json.field_str("text"));
        assert(opt_views(vals@) =~= seq![field_str(*part_json, "text"@)]);
        owned(first_non_empty_in(vals.as_slice()))
    } else if str_is(part_type, "tool") {
        let mut vals: Vec<Option<&str>> = Vec::new();
        vals.push(part_json.field_str("tool"));
        assert(opt_views(vals@) =~= seq![field_str(*part_json, "tool"@)]);
        let tool = match first_non_empty_in(vals.as_slice()) {
            Some(x) => x,
            None => "tool",
        };
        let status = part_json.field2_str("state", "status");
        let input = part_json.field3_str("state", "input", "command");
        if let (Some(st), Some(inp)) = (status, input) {
            let mut out = join_with(tool, " \u{b7} ", st);
            out.append(" \u{b7} [");
            out.append(inp);
            out.append("]");
            Some(out)
        } else if let Some(st) = status {
            Some(join_with(tool, " \u{b7} ", st))
        } else if let Some(inp) = input {
            Some(join_with("[", inp, "]"))
        } else {
            Some(String::from_str(tool))
        }
    } else if str_is(part_type, "step-start") {
        Some(String::from_str("\u{c791}\u{c5c5} \u{b2e8}\u{acc4} \u{c2dc}\u{c791}"))
    } else if str_is(part_type, "step-finish") {
        Some(String::from_str("\u{c791}\u{c5c5} \u{b2e8}\u{acc4} \u{c644}\u{b8cc}"))
    } else if str_is(part_type, "reasoning") {
        Some(String::from_str("Reasoning update"))
    } else {
        let mut vals: Vec<Option<&str>> = Vec::new();
        vals.push(part_json.field_str("text"));
        vals.push(part_json.field_str("tool"));
        assert(opt_views(vals@) =~= seq![field_str(*part_json, "text"@), field_str(*part_json, "tool"@)]);
        owned(first_non_empty_in(vals.as_slice()))
    }
}

/// The log level of a part: from the tool state's status when it names a
/// final or pending state, "tool" for tool parts, "info" otherwise.
pub open spec fn log_level_of(p: JsonValue) -> Seq<char> {
    let status = field2_str(p, "state"@, "status"@);
    if status is Some && (status->0 == "failed"@ || status->0 == "error"@) {
        "error"@
    } else if status is Some && (status->0 == "completed"@ || status->0 == "success"@ || status->0 == "done"@) {
        "success"@
    } else if status is Some && status->0 == "pending"@ {
        "warn"@
    } else if field_str(p, "type"@) == Some("tool"@) {
        "tool"@
    } else {
        "info"@
    }
}

/// Derives the log level of a part. The message document does not change the
/// outcome: an assistant message and any other message both give "info".
pub fn derive_log_level(part_json: &JsonValue, message_json: &JsonValue) -> (r: String)
    ensures
        r@ == log_level_of(*part_json),
{
    if let Some(status) = part_json.field2_str("state", "status") {
        if str_is(status, "failed") || str_is(status, "error") {
            return String::from_str("error");
        }
        if str_is(status, "completed") || str_is(status, "success") || str_is(status, "done") {
            return String::from_str("success");
        }
        if str_is(status, "pending") {
            return String::from_str("warn");
        }
    }
    if let Some(t) = part_json.field_str("type") {
        if str_is(t, "tool") {
            return String::from_str("tool");
        }
    }
    let _role = message_json.field_str("role");
    String::from_str("info")
}

/// The base64 alphabet character for a six-bit value.
pub open spec fn b64_digit(v: int) -> char {
    if v < 26 {
        (65 + v) as char
    } else if v < 52 {
        (97 + v - 26) as char
    } else if v < 62 {
        (48 + v - 52) as char
    } else if v == 62 {
        '+'
    } else {
        '/'
    }
}

/// Base64 of one group of one to three bytes, padded with '='.
pub open spec fn b64_group(g: Seq<u8>) -> Seq<char> {
    let b0 = g[0] as int;
    let b1 = if g.len() > 1 { g[1] as int } else { 0 };
    let b2 = if g.len() > 2 { g[2] as int } else { 0 };
    seq![
        b64_digit(b0 / 4),
        b64_digit((b0 % 4) * 16 + b1 / 16),
        if g.len() > 1 { b64_digit((b1 % 16) * 4 + b2 / 64) } else { '=' },
        if g.len() > 2 { b64_digit(b2 % 64) } else { '=' },
    ]
}

/// Standard padded base64 of a byte sequence, group by group of three bytes.
pub open spec fn base64_of(data: Seq<u8>) -> Seq<char>
    decreases data.len(),
{
    if data.len() == 0 {
        seq![]
    } else {
        let k = ((data.len() - 1) / 3) * 3;
        base64_of(data.take(k)) + b64_group(data.skip(k))
    }
}

fn b64_digit_exec(v: u8) -> (c: char)
    requires
        v < 64,
    ensures
        c == b64_digit(v as int),
{
    if v < 26 {
        (65u8 + v) as char
    } else if v < 52 {
        (97u8 + (v - 26)) as char
    } else if v < 62 {
        (48u8 + (v - 52)) as char
    } else if v == 62 {
        '+'
    } else {
        '/'
    }
}

proof fn lemma_group_start(i: int, j: int)
    requires
        i >= 0,
        i % 3 == 0,
        i < j <= i + 3,
    ensures
        ((j - 1) / 3) * 3 == i,
{
    assert(((j - 1) / 3) * 3 == i) by (nonlinear_arith)
        requires
            i >= 0,
        i % 3 == 0,
            i < j <= i + 3,
    ;
}

/// Encodes bytes as standard padded base64.
#[verifier::rlimit(40)]
pub fn base64_encode(data: &[u8]) -> (r: String)
    ensures
        r@ == base64_of(data@),
{
    let n: usize = data.len();
    let mut out: Vec<char> = Vec::new();
    let mut i: usize = 0;
    assert(data@.take(0) =~= seq![]);
    while i < n
        invariant
            n == data@.len(),
            i <= n,
            i % 3 == 0 || i == n,
            out@ == base64_of(data@.take(i as int)),
        decreases n - i,
    {
        let rest: usize = n - i;
        let len: usize = if rest < 3 { rest } else { 3 };
        let b0: u8 = data[i];
        let b1: u8 = if len > 1 { data[i + 1] } else { 0 };
        let b2: u8 = if len > 2 { data[i + 2] } else { 0 };
        out.push(b64_digit_exec(b0 / 4));
        out.push(b64_digit_exec((b0 % 4) * 16 + b1 / 16));
        if len > 1 {
            out.push(b64_digit_exec((b1 % 16) * 4 + b2 / 64));
        } else {
            out.push('=');
        }
        if len > 2 {
            out.push(b64_digit_exec(b2 % 64));
        } else {
            out.push('=');
        }
        let next: usize = i + len;
        proof {
            lemma_group_start(i as int, next as int);
            let t = data@.take(next as int);
            assert(t.take(i as int) =~= data@.take(i as int));
            assert(t.skip(i as int) =~= data@.subrange(i as int, next as int));
            let g = t.skip(i as int);
            assert(g.len() == len);
            assert(g[0] == b0);
            assert(len > 1 ==> g[1] == b1);
            assert(len > 2 ==> g[2] == b2);
            assert(out@ =~= base64_of(data@.take(i as int)) + b64_group(g));
        }
        i = next;
    }
    assert(data@.take(n as int) =~= data@);
    string_of(out.as_slice())
}

/// The document of the last message with id `id` (later rows win, as when
/// the rows are collected into a map).
pub open spec fn message_doc(msgs: Seq<RawMessage>, id: Seq<char>) -> Option<JsonValue>
    decreases msgs.len(),
{
    if msgs.len() == 0 {
        None
    } else if msgs.last().id@ == id {
        Some(msgs.last().data)
    } else {
        message_doc(msgs.drop_last(), id)
    }
}

/// The agent name of the message that a part belongs to ("session" when the
/// message is unknown).
pub open spec fn owner_name(msgs: Seq<RawMessage>, p: RawPart) -> Seq<char> {
    match message_doc(msgs, p.message_id@) {
        Some(d) => agent_name_of(d),
        None => "session"@,
    }
}

/// The model of the message that a part belongs to ("unknown" when the
/// message is unknown).
pub open spec fn owner_model(msgs: Seq<RawMessage>, p: RawPart) -> Seq<char> {
    match message_doc(msgs, p.message_id@) {
        Some(d) => model_of(d),
        None => "unknown"@,
    }
}

/// The RFC 3339 text of an optional millisecond timestamp.
pub open spec fn opt_iso(t: Option<i64>) -> Option<Seq<char>> {
    match t {
        Some(ms) => iso_from_ms(ms as int),
        None => None,
    }
}

/// The tool status of the first part (in the order given, newest first) that
/// belongs to agent `name` and has one.
pub open spec fn first_status(msgs: Seq<RawMessage>, parts: Seq<RawPart>, name: Seq<char>) -> Option<Seq<char>>
    decreases parts.len(),
{
    if parts.len() == 0 {
        None
    } else if owner_name(msgs, parts[0]) == name && field2_str(parts[0].data, "state"@, "status"@) is Some {
        field2_str(parts[0].data, "state"@, "status"@)
    } else {
        first_status(msgs, parts.drop_first(), name)
    }
}

/// The initial label of an agent from its latest tool status.
pub open spec fn label_for(st: Option<Seq<char>>) -> Seq<char> {
    match st {
        None => "unknown"@,
        Some(s) => if s == "completed"@ || s == "success"@ || s == "done"@ {
            "Completed"@
        } else if s == "failed"@ || s == "error"@ {
            "Failed"@
        } else {
            "Running"@
        },
    }
}

/// Index of the agent named `name`, or -1.
pub open spec fn find_agent(list: Seq<AgentModel>, name: Seq<char>) -> int
    decreases list.len(),
{
    if list.len() == 0 {
        -1
    } else if list.last().name == name {
        list.len() - 1
    } else {
        find_agent(list.drop_last(), name)
    }
}

/// Where agent `name` is once it is ensured to exist.
pub open spec fn agent_slot(list: Seq<AgentModel>, name: Seq<char>) -> int {
    if find_agent(list, name) < 0 {
        list.len() as int
    } else {
        find_agent(list, name)
    }
}

/// A new agent, first seen with `created` as its start.
pub open spec fn new_agent(raw_id: Seq<char>, name: Seq<char>, model: Seq<char>, label: Seq<char>, created: Option<Seq<char>>) -> AgentModel {
    AgentModel {
        id: raw_id + ":"@ + name,
        name,
        model,
        status_label: label,
        task: Seq::empty(),
        started_at: created,
        last_activity_at: None,
        tools: Seq::empty(),
        logs: Seq::empty(),
    }
}

/// The list with agent `name` added at the end when it is not there yet.
pub open spec fn ensure_agent(list: Seq<AgentModel>, raw_id: Seq<char>, name: Seq<char>, model: Seq<char>, label: Seq<char>, created: Option<Seq<char>>) -> Seq<AgentModel> {
    if find_agent(list, name) < 0 {
        list.push(new_agent(raw_id, name, model, label, created))
    } else {
        list
    }
}

/// An agent's last activity moved to `u` when that sorts later.
pub open spec fn touched(a: AgentModel, u: Option<Seq<char>>) -> AgentModel {
    match u {
        Some(t) => if a.last_activity_at is None || text_greater(t, a.last_activity_at->0) {
            AgentModel { last_activity_at: Some(t), ..a }
        } else {
            a
        },
        None => a,
    }
}

/// An agent's task after a message: from a user message's content or
/// summary, else from the message's summary text or title, each cut to 120
/// characters, whenever the task is still empty.
pub open spec fn message_task(task: Seq<char>, d: JsonValue) -> Seq<char> {
    let t1 = if task.len() == 0 && field_str(d, "role"@) == Some("user"@) {
        match field_str(d, "content"@) {
            Some(c) => first_120(c),
            None => match field_str(d, "summary"@) {
                Some(x) => first_120(x),
                None => task,
            },
        }
    } else {
        task
    };
    if t1.len() == 0 {
        match field2_str(d, "summary"@, "text"@) {
            Some(x) => first_120(x),
            None => match field_str(d, "title"@) {
                Some(x) => first_120(x),
                None => t1,
            },
        }
    } else {
        t1
    }
}

/// The agents after one message.
pub open spec fn message_step(list: Seq<AgentModel>, raw_id: Seq<char>, msgs: Seq<RawMessage>, parts: Seq<RawPart>, m: RawMessage) -> Seq<AgentModel> {
    let name = agent_name_of(m.data);
    let l1 = ensure_agent(list, raw_id, name, model_of(m.data), label_for(first_status(msgs, parts, name)), opt_iso(m.time_created));
    let i = agent_slot(list, name);
    let a = touched(l1[i], opt_iso(m.time_updated));
    l1.update(i, AgentModel { task: message_task(a.task, m.data), ..a })
}

/// An agent's tools after a part: its tool added when new.
pub open spec fn part_tools(tools: Seq<Seq<char>>, d: JsonValue) -> Seq<Seq<char>> {
    match field_str(d, "tool"@) {
        Some(t) => if tools.contains(t) {
            tools
        } else {
            tools.push(t)
        },
        None => tools,
    }
}

/// An agent's task after a running tool part: "[tool] command".
pub open spec fn running_task(task: Seq<char>, d: JsonValue) -> Seq<char> {
    let cmd = field3_str(d, "state"@, "input"@, "command"@);
    let tool = field_str(d, "tool"@);
    if field2_str(d, "state"@, "status"@) == Some("running"@) && cmd is Some && tool is Some {
        "["@ + tool->0 + "] "@ + cmd->0
    } else {
        task
    }
}

/// The agents after one part.
pub open spec fn part_step(list: Seq<AgentModel>, raw_id: Seq<char>, msgs: Seq<RawMessage>, parts: Seq<RawPart>, p: RawPart) -> Seq<AgentModel> {
    let name = owner_name(msgs, p);
    let l1 = ensure_agent(list, raw_id, name, owner_model(msgs, p), label_for(first_status(msgs, parts, name)), opt_iso(p.time_created));
    let i = agent_slot(list, name);
    let a = touched(l1[i], opt_iso(p.time_updated));
    let task1 = running_task(a.task, p.data);
    let a2 = AgentModel { tools: part_tools(a.tools, p.data), task: task1, ..a };
    match part_summary(p.data) {
        Some(msg) => {
            let entry = LogModel {
                time: match opt_iso(p.time_updated) {
                    Some(t) => t,
                    None => Seq::empty(),
                },
                level: log_level_of(p.data),
                message: msg,
            };
            let task2 = if task1.len() == 0 && field_str(p.data, "type"@) != Some("reasoning"@) {
                msg
            } else {
                task1
            };
            l1.update(i, AgentModel { logs: a2.logs.push(entry), task: task2, ..a2 })
        },
        None => l1.update(i, a2),
    }
}

/// The agents after the first `k` messages taken in `order`.
pub open spec fn fold_messages(raw_id: Seq<char>, msgs: Seq<RawMessage>, parts: Seq<RawPart>, order: Seq<usize>, k: int) -> Seq<AgentModel>
    decreases k,
{
    if k <= 0 {
        Seq::empty()
    } else {
        message_step(fold_messages(raw_id, msgs, parts, order, k - 1), raw_id, msgs, parts, msgs[order[k - 1] as int])
    }
}

/// The agents after the first `k` parts, starting from `start`.
pub open spec fn fold_parts(start: Seq<AgentModel>, raw_id: Seq<char>, msgs: Seq<RawMessage>, parts: Seq<RawPart>, k: int) -> Seq<AgentModel>
    decreases k,
{
    if k <= 0 {
        start
    } else {
        part_step(fold_parts(start, raw_id, msgs, parts, k - 1), raw_id, msgs, parts, parts[k - 1])
    }
}

/// Keys that order messages by creation time, oldest first (unknown is 0).
pub open spec fn message_keys(msgs: Seq<RawMessage>) -> Seq<i64> {
    msgs.map_values(|m: RawMessage| (-1 - match m.time_created { Some(t) => t as int, None => 0 }) as i64)
}

/// The names of the system agents hidden when there are others.
pub open spec fn is_system_name(n: Seq<char>) -> bool {
    n == "compaction"@ || n == "session"@
}

/// An agent that is not a system agent.
pub open spec fn not_system() -> spec_fn(AgentModel) -> bool {
    |a: AgentModel| !is_system_name(a.name)
}

/// The agents shown: without the system agents when there is more than one.
pub open spec fn visible_agents(list: Seq<AgentModel>) -> Seq<AgentModel> {
    if list.len() > 1 {
        list.filter(not_system())
    } else {
        list
    }
}

/// A completed todo.
pub open spec fn is_completed_todo() -> spec_fn(RawTodo) -> bool {
    |t: RawTodo| t.status@ == "completed"@
}

/// How many todos are completed.
pub open spec fn completed_todos(todos: Seq<RawTodo>) -> nat {
    todos.filter(is_completed_todo()).len()
}

/// The placeholder task of a session without activity.
pub open spec fn no_activity_text() -> Seq<char> {
    "\u{c138}\u{c158} \u{d65c}\u{b3d9} \u{c5c6}\u{c74c}"@
}

/// The agent that stands for a session without agents.
pub open spec fn session_agent(raw: RawSession, todos: Seq<RawTodo>) -> AgentModel {
    AgentModel {
        id: raw.id@ + ":session"@,
        name: "session"@,
        model: "unknown"@,
        status_label: "Running"@,
        task: if todos.len() > 0 {
            "Todo "@ + decimal(completed_todos(todos)) + "/"@ + decimal(todos.len())
        } else {
            no_activity_text()
        },
        started_at: opt_iso(raw.time_created),
        last_activity_at: opt_iso(raw.time_updated),
        tools: Seq::empty(),
        logs: Seq::empty(),
    }
}

/// The agents of a normalised session, for messages taken in `order`.
pub open spec fn normalized_agents(raw: RawSession, msgs: Seq<RawMessage>, parts: Seq<RawPart>, todos: Seq<RawTodo>, order: Seq<usize>) -> Seq<AgentModel> {
    let after_msgs = fold_messages(raw.id@, msgs, parts, order, msgs.len() as int);
    let all = fold_parts(after_msgs, raw.id@, msgs, parts, parts.len() as int);
    let shown = visible_agents(all);
    if shown.len() == 0 {
        seq![session_agent(raw, todos)]
    } else {
        shown
    }
}

/// Whole seconds from a session's creation to its last update (rounded
/// toward zero), when both are known.
pub open spec fn session_duration(raw: RawSession) -> Option<i64> {
    match (raw.time_created, raw.time_updated) {
        (Some(s), Some(e)) => Some(trunc_div(e - s, 1000) as i64),
        _ => None,
    }
}

/// The span of a session fits in 64 bits.
pub open spec fn span_fits(raw: RawSession) -> bool {
    match (raw.time_created, raw.time_updated) {
        (Some(s), Some(e)) => i64::MIN <= e - s <= i64::MAX,
        _ => true,
    }
}

fn message_key(m: &RawMessage) -> (r: i64)
    ensures
        r == (-1 - match m.time_created { Some(t) => t as int, None => 0 }) as i64,
{
    match m.time_created {
        Some(t) => -1 - t,
        None => -1,
    }
}

fn is_system(name: &String) -> (r: bool)
    ensures
        r == is_system_name(name@),
{
    str_is(name.as_str(), "compaction") || str_is(name.as_str(), "session")
}

fn visible(list: Vec<Agent>) -> (r: Vec<Agent>)
    requires
        plain_agents(list@),
    ensures
        plain_agents(r@),
        agent_models(r@) == visible_agents(agent_models(list@)),
{
    if list.len() <= 1 {
        return list;
    }
    let ghost all = list@;
    let ghost pred = not_system();
    let total: usize = list.len();
    let mut rest = list;
    let mut shown: Vec<Agent> = Vec::new();
    let mut k: usize = 0;
    assert(agent_models(all).take(0).filter(pred) =~= Seq::<AgentModel>::empty());
    while rest.len() > 0
        invariant
            plain_agents(all),
            pred == not_system(),
            total == all.len(),
            k + rest@.len() == total,
            rest@ == all.skip(k as int),
            plain_agents(shown@),
            agent_models(shown@) == agent_models(all).take(k as int).filter(pred),
        decreases rest@.len(),
    {
        let a = rest.remove(0);
        proof {
            let ms = agent_models(all);
            assert(ms.take(k + 1).drop_last() =~= ms.take(k as int));
            assert(ms.take(k + 1).last() == agent_model(a));
            reveal_with_fuel(Seq::filter, 1);
            assert(rest@ =~= all.skip(k + 1));
            if pred(agent_model(a)) {
                assert(ms.take(k + 1).filter(pred) == ms.take(k as int).filter(pred).push(agent_model(a)));
            } else {
                assert(ms.take(k + 1).filter(pred) == ms.take(k as int).filter(pred));
            }
            assert(pred(agent_model(a)) == !is_system_name(a.name@));
        }
        if !is_system(&a.name) {
            let ghost before = shown@;
            shown.push(a);
            proof {
                assert(agent_models(shown@) =~= agent_models(before).push(agent_model(a)));
                assert forall|q: int| 0 <= q < shown@.len() implies (#[trigger] shown@[q]).status == Status::Running
                    && shown@[q].duration_sec is None && shown@[q].last_event_age_sec is None && !shown@[q].is_stalled by {
                    if q < before.len() {
                        assert(shown@[q] == before[q]);
                    } else {
                        assert(a == all[k as int]);
                    }
                }
            }
        }
        k = k + 1;
    }
    assert(agent_models(all).take(all.len() as int) =~= agent_models(all));
    shown
}

fn completed_count(todos: &[RawTodo]) -> (r: u64)
    ensures
        r == completed_todos(todos@),
{
    let ghost pred = is_completed_todo();
    let mut c: u64 = 0;
    let mut i: usize = 0;
    assert(todos@.take(0).filter(pred) =~= Seq::<RawTodo>::empty());
    while i < todos.len()
        invariant
            pred == is_completed_todo(),
            i <= todos@.len(),
            c == todos@.take(i as int).filter(pred).len(),
            c <= i,
        decreases todos@.len() - i,
    {
        proof {
            let t = todos@.take(i + 1);
            assert(t.drop_last() =~= todos@.take(i as int));
            assert(t.last() == todos@[i as int]);
            reveal_with_fuel(Seq::filter, 1);
            if pred(todos@[i as int]) {
                assert(t.filter(pred) == todos@.take(i as int).filter(pred).push(todos@[i as int]));
            } else {
                assert(t.filter(pred) == todos@.take(i as int).filter(pred));
            }
            assert(pred(todos@[i as int]) == (todos@[i as int].status@ == "completed"@));
        }
        if str_is(todos[i].status.as_str(), "completed") {
            c = c + 1;
        }
        i = i + 1;
    }
    assert(todos@.take(todos@.len() as int) =~= todos@);
    c
}

fn session_agent_of(raw: &RawSession, todos: &[RawTodo]) -> (r: Agent)
    ensures
        agent_model(r) == session_agent(*raw, todos@),
        r.status == Status::Running,
        r.duration_sec is None,
        r.last_event_age_sec is None,
        !r.is_stalled,
{
    let task = if todos.len() > 0 {
        let done = completed_count(todos);
        let mut v = chars_of("Todo ");
        let d = decimal_chars(done);
        append_chars(&mut v, d.as_slice());
        v.push('/');
        let total = decimal_chars(todos.len() as u64);
        append_chars(&mut v, total.as_slice());
        proof {
            reveal_strlit("/");
            assert("/"@ =~= seq!['/']);
            assert(v@ =~= "Todo "@ + decimal(completed_todos(todos@)) + "/"@ + decimal(todos@.len()));
        }
        string_of(v.as_slice())
    } else {
        String::from_str("\u{c138}\u{c158} \u{d65c}\u{b3d9} \u{c5c6}\u{c74c}")
    };
    let mut id = raw.id.clone();
    id.append(":session");
    let r = Agent {
        id,
        name: String::from_str("session"),
        model: String::from_str("unknown"),
        status: Status::Running,
        status_label: String::from_str("Running"),
        task,
        started_at: crate::normalize::iso_opt(raw.time_created),
        last_activity_at: crate::normalize::iso_opt(raw.time_updated),
        duration_sec: None,
        last_event_age_sec: None,
        is_stalled: false,
        tools: Vec::new(),
        recent_logs: Vec::new(),
    };
    proof {
        assert(agent_model(r).tools =~= Seq::<Seq<char>>::empty());
        assert(agent_model(r).logs =~= Seq::<LogModel>::empty());
    }
    r
}

/// Normalises a session's rows into a `Session` with its agents: messages
/// are taken oldest first, then parts in the order given (newest first);
/// each names its agent, which is created on first sight and collects the
/// last activity, the tools, a task and the log entries. System agents are
/// hidden when there are others, and a session without agents gets one that
/// stands for the session.
pub fn normalize_raw_session(
    raw: &RawSession,
    messages: &[RawMessage],
    parts: &[RawPart],
    todos: &[RawTodo],
) -> (r: Session)
    requires
        span_fits(*raw),
    ensures
        exists|order: Seq<usize>|
            #![trigger is_sorted_permutation(message_keys(messages@), order)]
            is_sorted_permutation(message_keys(messages@), order)
                && agent_models(r.agents@) == normalized_agents(*raw, messages@, parts@, todos@, order),
        plain_agents(r.agents@),
        r.id == raw.id,
        r.name == raw.title,
        r.directory == raw.directory,
        r.parent_id == raw.parent_id,
        opt_text(r.started_at) == opt_iso(raw.time_created),
        opt_text(r.last_activity_at) == opt_iso(raw.time_updated),
        r.duration_sec == session_duration(*raw),
        r.status_counts == (StatusCounts {
            running: r.agents@.len() as i64,
            delayed: 0,
            stalled: 0,
            completed: 0,
            failed: 0,
        }),
        r.stalled_agent_count == 0,
        r.children is None,
{
    let mut keys: Vec<i64> = Vec::new();
    let mut i: usize = 0;
    while i < messages.len()
        invariant
            i <= messages@.len(),
            keys@ == message_keys(messages@).subrange(0, i as int),
        decreases messages@.len() - i,
    {
        keys.push(message_key(&messages[i]));
        i = i + 1;
    }
    assert(keys@ =~= message_keys(messages@));
    let order = sort_desc_indices(&keys);
    let mut list: Vec<Agent> = Vec::new();
    let mut k: usize = 0;
    while k < order.len()
        invariant
            order@.len() == messages@.len(),
            is_sorted_permutation(keys@, order@),
            k <= order@.len(),
            plain_agents(list@),
            agent_models(list@) == fold_messages(raw.id@, messages@, parts@, order@, k as int),
        decreases order@.len() - k,
    {
        apply_message(&mut list, &raw.id, messages, parts, &messages[order[k]]);
        k = k + 1;
    }
    let ghost after_msgs = agent_models(list@);
    let mut j: usize = 0;
    while j < parts.len()
        invariant
            j <= parts@.len(),
            plain_agents(list@),
            agent_models(list@) == fold_parts(after_msgs, raw.id@, messages@, parts@, j as int),
        decreases parts@.len() - j,
    {
        apply_part(&mut list, &raw.id, messages, parts, &parts[j]);
        j = j + 1;
    }
    let mut agents = visible(list);
    if agents.len() == 0 {
        let a = session_agent_of(raw, todos);
        agents.push(a);
        proof {
            assert(agent_models(agents@) =~= seq![agent_model(a)]);
        }
    }
    let duration_sec: Option<i64> = match (raw.time_created, raw.time_updated) {
        (Some(start), Some(end)) => {
            let diff: i128 = (end as i128) - (start as i128);
            let q: i128 = if diff >= 0 { diff / 1000 } else { -((-diff) / 1000) };
            Some(q as i64)
        },
        _ => None,
    };
    let running: i64 = #[verifier::truncate] (agents.len() as i64);
    Session {
        id: raw.id.clone(),
        name: raw.title.clone(),
        directory: raw.directory.clone(),
        parent_id: copy_opt_string(&raw.parent_id),
        started_at: crate::normalize::iso_opt(raw.time_created),
        last_activity_at: crate::normalize::iso_opt(raw.time_updated),
        duration_sec,
        stalled_agent_count: 0,
        status_counts: StatusCounts { running, delayed: 0, stalled: 0, completed: 0, failed: 0 },
        agents,
        children: None,
    }
}

/// The database path to open: the one given or the default, with a leading
/// "~/" resolved against HOME, or else USERPROFILE, when one is known.
pub open spec fn resolved_path(db_path: Option<Seq<char>>, home: Option<Seq<char>>, userprofile: Option<Seq<char>>) -> Seq<char> {
    let p = match db_path {
        Some(x) => x,
        None => DEFAULT_DB_PATH@,
    };
    if p.len() >= 2 && p[0] == '~' && p[1] == '/' {
        match home {
            Some(h) => h + p.drop_first(),
            None => match userprofile {
                Some(h) => h + p.drop_first(),
                None => p,
            },
        }
    } else {
        p
    }
}

/// Resolves the database path (see `resolved_path`); the caller reads HOME
/// and USERPROFILE from the environment.
pub fn resolve_db_path(db_path: Option<&str>, home: Option<&str>, userprofile: Option<&str>) -> (r: String)
    ensures
        r@ == resolved_path(opt_view(db_path), opt_view(home), opt_view(userprofile)),
{
    let p = match db_path {
        Some(x) => x,
        None => DEFAULT_DB_PATH,
    };
    let cs = chars_of(p);
    if cs.len() >= 2 && cs[0] == '~' && cs[1] == '/' {
        let base = match home {
            Some(h) => Some(h),
            None => userprofile,
        };
        match base {
            Some(h) => {
                let mut v = chars_of(h);
                let mut i: usize = 1;
                while i < cs.len()
                    invariant
                        1 <= i <= cs@.len(),
                        v@ == h@ + cs@.subrange(1, i as int),
                    decreases cs@.len() - i,
                {
                    v.push(cs[i]);
                    i = i + 1;
                }
                assert(cs@.drop_first() =~= cs@.subrange(1, cs@.len() as int));
                string_of(v.as_slice())
            },
            None => String::from_str(p),
        }
    } else {
        String::from_str(p)
    }
}

/// No two agents in the list share a name.
pub open spec fn names_distinct(list: Seq<AgentModel>) -> bool {
    forall|i: int, j: int| #![trigger list[i], list[j]] 0 <= i < j < list.len() ==> list[i].name != list[j].name
}

/// No agent in the list is named `n`.
pub open spec fn name_absent(list: Seq<AgentModel>, n: Seq<char>) -> bool {
    forall|i: int| 0 <= i < list.len() ==> (#[trigger] list[i]).name != n
}

proof fn lemma_find_agent(list: Seq<AgentModel>, name: Seq<char>)
    ensures
        find_agent(list, name) < 0 ==> name_absent(list, name),
        find_agent(list, name) >= 0 ==> find_agent(list, name) < list.len() && list[find_agent(list, name)].name == name,
    decreases list.len(),
{
    if list.len() > 0 && list.last().name != name {
        lemma_find_agent(list.drop_last(), name);
        if find_agent(list, name) < 0 {
            assert forall|i: int| 0 <= i < list.len() implies (#[trigger] list[i]).name != name by {
                if i < list.len() - 1 {
                    assert(list[i] == list.drop_last()[i]);
                }
            }
        } else {
            assert(list[find_agent(list, name)] == list.drop_last()[find_agent(list, name)]);
        }
    }
}

/// Ensuring an agent keeps names distinct, and puts the agent named `name`
/// at its slot.
proof fn lemma_ensure_agent(list: Seq<AgentModel>, raw_id: Seq<char>, name: Seq<char>, model: Seq<char>, label: Seq<char>, created: Option<Seq<char>>)
    requires
        names_distinct(list),
    ensures
        names_distinct(ensure_agent(list, raw_id, name, model, label, created)),
        0 <= agent_slot(list, name) < ensure_agent(list, raw_id, name, model, label, created).len(),
        ensure_agent(list, raw_id, name, model, label, created)[agent_slot(list, name)].name == name,
{
    lemma_find_agent(list, name);
    let l1 = ensure_agent(list, raw_id, name, model, label, created);
    if find_agent(list, name) < 0 {
        assert forall|i: int, j: int| 0 <= i < j < l1.len() implies #[trigger] l1[i].name != #[trigger] l1[j].name by {
            if j == list.len() {
                assert(list[i] == l1[i]);
            } else {
                assert(list[i] == l1[i] && list[j] == l1[j]);
            }
        }
    }
}

/// Replacing an agent by one with the same name keeps names distinct.
proof fn lemma_update_same_name(list: Seq<AgentModel>, i: int, a: AgentModel)
    requires
        names_distinct(list),
        0 <= i < list.len(),
        a.name == list[i].name,
    ensures
        names_distinct(list.update(i, a)),
{
    let l = list.update(i, a);
    assert forall|x: int, y: int| 0 <= x < y < l.len() implies #[trigger] l[x].name != #[trigger] l[y].name by {
        assert(l[x].name == list[x].name && l[y].name == list[y].name);
    }
}

proof fn lemma_fold_messages_distinct(raw_id: Seq<char>, msgs: Seq<RawMessage>, parts: Seq<RawPart>, order: Seq<usize>, k: int)
    ensures
        names_distinct(fold_messages(raw_id, msgs, parts, order, k)),
    decreases k,
{
    if k > 0 {
        let list = fold_messages(raw_id, msgs, parts, order, k - 1);
        lemma_fold_messages_distinct(raw_id, msgs, parts, order, k - 1);
        let m = msgs[order[k - 1] as int];
        let name = agent_name_of(m.data);
        lemma_ensure_agent(list, raw_id, name, model_of(m.data), label_for(first_status(msgs, parts, name)), opt_iso(m.time_created));
        let l1 = ensure_agent(list, raw_id, name, model_of(m.data), label_for(first_status(msgs, parts, name)), opt_iso(m.time_created));
        let i = agent_slot(list, name);
        let a = touched(l1[i], opt_iso(m.time_updated));
        lemma_update_same_name(l1, i, AgentModel { task: message_task(a.task, m.data), ..a });
    }
}

proof fn lemma_fold_parts_distinct(start: Seq<AgentModel>, raw_id: Seq<char>, msgs: Seq<RawMessage>, parts: Seq<RawPart>, k: int)
    requires
        names_distinct(start),
    ensures
        names_distinct(fold_parts(start, raw_id, msgs, parts, k)),
    decreases k,
{
    if k > 0 {
        let list = fold_parts(start, raw_id, msgs, parts, k - 1);
        lemma_fold_parts_distinct(start, raw_id, msgs, parts, k - 1);
        let p = parts[k - 1];
        let name = owner_name(msgs, p);
        lemma_ensure_agent(list, raw_id, name, owner_model(msgs, p), label_for(first_status(msgs, parts, name)), opt_iso(p.time_created));
        let l1 = ensure_agent(list, raw_id, name, owner_model(msgs, p), label_for(first_status(msgs, parts, name)), opt_iso(p.time_created));
        let i = agent_slot(list, name);
        let a = touched(l1[i], opt_iso(p.time_updated));
        let task1 = running_task(a.task, p.data);
        let a2 = AgentModel { tools: part_tools(a.tools, p.data), task: task1, ..a };
        match part_summary(p.data) {
            Some(msg) => {
                let entry = LogModel {
                    time: match opt_iso(p.time_updated) {
                        Some(t) => t,
                        None => Seq::empty(),
                    },
                    level: log_level_of(p.data),
                    message: msg,
                };
                let task2 = if task1.len() == 0 && field_str(p.data, "type"@) != Some("reasoning"@) {
                    msg
                } else {
                    task1
                };
                lemma_update_same_name(l1, i, AgentModel { logs: a2.logs.push(entry), task: task2, ..a2 });
            },
            None => {
                lemma_update_same_name(l1, i, a2);
            },
        }
    }
}

/// Filtering keeps names distinct and brings no new name.
proof fn lemma_filter_names(list: Seq<AgentModel>, pred: spec_fn(AgentModel) -> bool)
    requires
        names_distinct(list),
    ensures
        names_distinct(list.filter(pred)),
        forall|n: Seq<char>| name_absent(list, n) ==> #[trigger] name_absent(list.filter(pred), n),
    decreases list.len(),
{
    reveal_with_fuel(Seq::filter, 1);
    if list.len() > 0 {
        let rest = list.drop_last();
        assert(names_distinct(rest)) by {
            assert forall|i: int, j: int| 0 <= i < j < rest.len() implies #[trigger] rest[i].name != #[trigger] rest[j].name by {
                assert(rest[i] == list[i] && rest[j] == list[j]);
            }
        }
        lemma_filter_names(rest, pred);
        let sub = rest.filter(pred);
        assert(name_absent(rest, list.last().name)) by {
            assert forall|i: int| 0 <= i < rest.len() implies (#[trigger] rest[i]).name != list.last().name by {
                assert(rest[i] == list[i]);
            }
        }
        assert(name_absent(sub, list.last().name));
        assert forall|n: Seq<char>| name_absent(list, n) implies #[trigger] name_absent(list.filter(pred), n) by {
            assert(name_absent(rest, n)) by {
                assert forall|i: int| 0 <= i < rest.len() implies (#[trigger] rest[i]).name != n by {
                    assert(rest[i] == list[i]);
                }
            }
            assert(name_absent(sub, n));
            assert(list[list.len() - 1].name != n);
        }
        if pred(list.last()) {
            let f = sub.push(list.last());
            assert forall|i: int, j: int| 0 <= i < j < f.len() implies #[trigger] f[i].name != #[trigger] f[j].name by {
                assert(f[i] == sub[i]);
                if j < sub.len() {
                    assert(f[j] == sub[j]);
                }
            }
        }
    }
}

/// Normalising a session yields at least one agent, and no two agents share
/// a name, whatever order the messages were taken in.
pub proof fn law_normalized_agents_distinct(raw: RawSession, msgs: Seq<RawMessage>, parts: Seq<RawPart>, todos: Seq<RawTodo>, order: Seq<usize>)
    ensures
        normalized_agents(raw, msgs, parts, todos, order).len() >= 1,
        names_distinct(normalized_agents(raw, msgs, parts, todos, order)),
{
    let after_msgs = fold_messages(raw.id@, msgs, parts, order, msgs.len() as int);
    lemma_fold_messages_distinct(raw.id@, msgs, parts, order, msgs.len() as int);
    let all = fold_parts(after_msgs, raw.id@, msgs, parts, parts.len() as int);
    lemma_fold_parts_distinct(after_msgs, raw.id@, msgs, parts, parts.len() as int);
    if all.len() > 1 {
        lemma_filter_names(all, not_system());
    }
}

/// When normalising yields more than one agent, none of them is a system
/// agent ("compaction" or "session").
pub proof fn law_system_agents_hidden(raw: RawSession, msgs: Seq<RawMessage>, parts: Seq<RawPart>, todos: Seq<RawTodo>, order: Seq<usize>)
    ensures
        normalized_agents(raw, msgs, parts, todos, order).len() > 1 ==> forall|i: int|
            0 <= i < normalized_agents(raw, msgs, parts, todos, order).len()
                ==> !is_system_name(#[trigger] normalized_agents(raw, msgs, parts, todos, order)[i].name),
{
    let after_msgs = fold_messages(raw.id@, msgs, parts, order, msgs.len() as int);
    let all = fold_parts(after_msgs, raw.id@, msgs, parts, parts.len() as int);
    if all.len() > 1 {
        all.filter_lemma(not_system());
    }
}

/// Base64 text is four characters for every started group of three bytes.
pub proof fn law_base64_length(data: Seq<u8>)
    ensures
        base64_of(data).len() == 4 * ((data.len() + 2) / 3),
    decreases data.len(),
{
    if data.len() > 0 {
        let n = data.len() as int;
        let k = ((n - 1) / 3) * 3;
        assert(0 <= k < n <= k + 3);
        law_base64_length(data.take(k));
        assert(data.take(k).len() == k);
        assert((k + 2) / 3 == k / 3);
        assert((n + 2) / 3 == k / 3 + 1);
    }
}

/// Every agent's id is the session id, ':' and its name.
pub open spec fn ids_follow_names(list: Seq<AgentModel>, raw_id: Seq<char>) -> bool {
    forall|i: int| 0 <= i < list.len() ==> (#[trigger] list[i]).id == raw_id + ":"@ + list[i].name
}

proof fn lemma_ensure_ids(list: Seq<AgentModel>, raw_id: Seq<char>, name: Seq<char>, model: Seq<char>, label: Seq<char>, created: Option<Seq<char>>)
    requires
        ids_follow_names(list, raw_id),
    ensures
        ids_follow_names(ensure_agent(list, raw_id, name, model, label, created), raw_id),
{
    let l1 = ensure_agent(list, raw_id, name, model, label, created);
    assert forall|i: int| 0 <= i < l1.len() implies (#[trigger] l1[i]).id == raw_id + ":"@ + l1[i].name by {
        if i < list.len() {
            assert(l1[i] == list[i]);
        }
    }
}

proof fn lemma_update_ids(list: Seq<AgentModel>, raw_id: Seq<char>, i: int, a: AgentModel)
    requires
        ids_follow_names(list, raw_id),
        0 <= i < list.len(),
        a.name == list[i].name,
        a.id == list[i].id,
    ensures
        ids_follow_names(list.update(i, a), raw_id),
{
    let l = list.update(i, a);
    assert forall|x: int| 0 <= x < l.len() implies (#[trigger] l[x]).id == raw_id + ":"@ + l[x].name by {
        assert(l[x].name == list[x].name && l[x].id == list[x].id);
    }
}

proof fn lemma_fold_messages_ids(raw_id: Seq<char>, msgs: Seq<RawMessage>, parts: Seq<RawPart>, order: Seq<usize>, k: int)
    ensures
        ids_follow_names(fold_messages(raw_id, msgs, parts, order, k), raw_id),
    decreases k,
{
    if k > 0 {
        let list = fold_messages(raw_id, msgs, parts, order, k - 1);
        lemma_fold_messages_ids(raw_id, msgs, parts, order, k - 1);
        lemma_fold_messages_distinct(raw_id, msgs, parts, order, k - 1);
        let m = msgs[order[k - 1] as int];
        let name = agent_name_of(m.data);
        lemma_ensure_agent(list, raw_id, name, model_of(m.data), label_for(first_status(msgs, parts, name)), opt_iso(m.time_created));
        lemma_ensure_ids(list, raw_id, name, model_of(m.data), label_for(first_status(msgs, parts, name)), opt_iso(m.time_created));
        let l1 = ensure_agent(list, raw_id, name, model_of(m.data), label_for(first_status(msgs, parts, name)), opt_iso(m.time_created));
        let i = agent_slot(list, name);
        let a = touched(l1[i], opt_iso(m.time_updated));
        lemma_update_ids(l1, raw_id, i, AgentModel { task: message_task(a.task, m.data), ..a });
    }
}

proof fn lemma_fold_parts_ids(start: Seq<AgentModel>, raw_id: Seq<char>, msgs: Seq<RawMessage>, parts: Seq<RawPart>, k: int)
    requires
        names_distinct(start),
        ids_follow_names(start, raw_id),
    ensures
        ids_follow_names(fold_parts(start, raw_id, msgs, parts, k), raw_id),
    decreases k,
{
    if k > 0 {
        let list = fold_parts(start, raw_id, msgs, parts, k - 1);
        lemma_fold_parts_ids(start, raw_id, msgs, parts, k - 1);
        lemma_fold_parts_distinct(start, raw_id, msgs, parts, k - 1);
        let p = parts[k - 1];
        let name = owner_name(msgs, p);
        lemma_ensure_agent(list, raw_id, name, owner_model(msgs, p), label_for(first_status(msgs, parts, name)), opt_iso(p.time_created));
        lemma_ensure_ids(list, raw_id, name, owner_model(msgs, p), label_for(first_status(msgs, parts, name)), opt_iso(p.time_created));
        let l1 = ensure_agent(list, raw_id, name, owner_model(msgs, p), label_for(first_status(msgs, parts, name)), opt_iso(p.time_created));
        let i = agent_slot(list, name);
        let a = touched(l1[i], opt_iso(p.time_updated));
        let task1 = running_task(a.task, p.data);
        let a2 = AgentModel { tools: part_tools(a.tools, p.data), task: task1, ..a };
        match part_summary(p.data) {
            Some(msg) => {
                let entry = LogModel {
                    time: match opt_iso(p.time_updated) {
                        Some(t) => t,
                        None => Seq::empty(),
                    },
                    level: log_level_of(p.data),
                    message: msg,
                };
                let task2 = if task1.len() == 0 && field_str(p.data, "type"@) != Some("reasoning"@) {
                    msg
                } else {
                    task1
                };
                lemma_update_ids(l1, raw_id, i, AgentModel { logs: a2.logs.push(entry), task: task2, ..a2 });
            },
            None => {
                lemma_update_ids(l1, raw_id, i, a2);
            },
        }
    }
}

/// Every element of a filtered list was in the list.
proof fn lemma_filter_ids(list: Seq<AgentModel>, pred: spec_fn(AgentModel) -> bool, raw_id: Seq<char>)
    requires
        ids_follow_names(list, raw_id),
    ensures
        ids_follow_names(list.filter(pred), raw_id),
    decreases list.len(),
{
    reveal_with_fuel(Seq::filter, 1);
    if list.len() > 0 {
        let rest = list.drop_last();
        assert(ids_follow_names(rest, raw_id)) by {
            assert forall|i: int| 0 <= i < rest.len() implies (#[trigger] rest[i]).id == raw_id + ":"@ + rest[i].name by {
                assert(rest[i] == list[i]);
            }
        }
        lemma_filter_ids(rest, pred, raw_id);
        let sub = rest.filter(pred);
        if pred(list.last()) {
            let f = sub.push(list.last());
            assert forall|i: int| 0 <= i < f.len() implies (#[trigger] f[i]).id == raw_id + ":"@ + f[i].name by {
                if i < sub.len() {
                    assert(f[i] == sub[i]);
                } else {
                    assert(f[i] == list[list.len() - 1]);
                }
            }
        }
    }
}

/// Every agent of a normalised session is identified by the session id, ':'
/// and its name; with distinct names, no two agents share an id.
pub proof fn law_agent_ids_follow_names(raw: RawSession, msgs: Seq<RawMessage>, parts: Seq<RawPart>, todos: Seq<RawTodo>, order: Seq<usize>)
    ensures
        ids_follow_names(normalized_agents(raw, msgs, parts, todos, order), raw.id@),
{
    let after_msgs = fold_messages(raw.id@, msgs, parts, order, msgs.len() as int);
    lemma_fold_messages_distinct(raw.id@, msgs, parts, order, msgs.len() as int);
    lemma_fold_messages_ids(raw.id@, msgs, parts, order, msgs.len() as int);
    let all = fold_parts(after_msgs, raw.id@, msgs, parts, parts.len() as int);
    lemma_fold_parts_ids(after_msgs, raw.id@, msgs, parts, parts.len() as int);
    if all.len() > 1 {
        lemma_filter_ids(all, not_system(), raw.id@);
    }
    let shown = visible_agents(all);
    if shown.len() == 0 {
        let sa = session_agent(raw, todos);
        assert(sa.id == raw.id@ + ":"@ + sa.name) by {
            reveal_strlit(":session");
            reveal_strlit(":");
            reveal_strlit("session");
            assert(":session"@ =~= ":"@ + "session"@);
        }
        let r = normalized_agents(raw, msgs, parts, todos, order);
        assert(r == seq![sa]);
        assert forall|i: int| 0 <= i < r.len() implies (#[trigger] r[i]).id == raw.id@ + ":"@ + r[i].name by {
            assert(r[i] == sa);
        }
    }
}

proof fn lemma_find_push(list: Seq<AgentModel>, x: AgentModel, n: Seq<char>)
    requires
        x.name != n,
    ensures
        find_agent(list.push(x), n) == find_agent(list, n),
{
    assert(list.push(x).drop_last() =~= list);
}

proof fn lemma_find_update(list: Seq<AgentModel>, i: int, x: AgentModel, n: Seq<char>)
    requires
        0 <= i < list.len(),
        x.name == list[i].name,
    ensures
        find_agent(list.update(i, x), n) == find_agent(list, n),
    decreases list.len(),
{
    let l = list.update(i, x);
    if i < list.len() - 1 {
        lemma_find_update(list.drop_last(), i, x, n);
        assert(l.drop_last() =~= list.drop_last().update(i, x));
    } else {
        assert(l.drop_last() =~= list.drop_last());
    }
}

/// The tools of the agent named `n`, none when there is no such agent.
pub open spec fn tools_in(list: Seq<AgentModel>, n: Seq<char>) -> Seq<Seq<char>> {
    if find_agent(list, n) >= 0 {
        list[find_agent(list, n)].tools
    } else {
        Seq::empty()
    }
}

/// The last activity of the agent named `n`, none when there is no such agent.
pub open spec fn last_in(list: Seq<AgentModel>, n: Seq<char>) -> Option<Seq<char>> {
    if find_agent(list, n) >= 0 {
        list[find_agent(list, n)].last_activity_at
    } else {
        None
    }
}

/// A last activity moved to `u` when that sorts later (as `touched` does).
pub open spec fn later_of(cur: Option<Seq<char>>, u: Option<Seq<char>>) -> Option<Seq<char>> {
    match u {
        Some(t) => if cur is None || text_greater(t, cur->0) {
            Some(t)
        } else {
            cur
        },
        None => cur,
    }
}

/// The last activity that the first `k` messages (in `order`) give agent `n`.
pub open spec fn message_latest(msgs: Seq<RawMessage>, order: Seq<usize>, n: Seq<char>, k: int) -> Option<Seq<char>>
    decreases k,
{
    if k <= 0 {
        None
    } else {
        let prev = message_latest(msgs, order, n, k - 1);
        let m = msgs[order[k - 1] as int];
        if agent_name_of(m.data) == n {
            later_of(prev, opt_iso(m.time_updated))
        } else {
            prev
        }
    }
}

/// The last activity that the first `k` parts give agent `n`, from `init`.
pub open spec fn part_latest(init: Option<Seq<char>>, msgs: Seq<RawMessage>, parts: Seq<RawPart>, n: Seq<char>, k: int) -> Option<Seq<char>>
    decreases k,
{
    if k <= 0 {
        init
    } else {
        let prev = part_latest(init, msgs, parts, n, k - 1);
        if owner_name(msgs, parts[k - 1]) == n {
            later_of(prev, opt_iso(parts[k - 1].time_updated))
        } else {
            prev
        }
    }
}

/// The status label of the agent named `n`, empty when there is no such agent.
pub open spec fn label_in(list: Seq<AgentModel>, n: Seq<char>) -> Seq<char> {
    if find_agent(list, n) >= 0 {
        list[find_agent(list, n)].status_label
    } else {
        Seq::empty()
    }
}

/// The task of the agent named `n`, empty when there is no such agent.
pub open spec fn task_in(list: Seq<AgentModel>, n: Seq<char>) -> Seq<char> {
    if find_agent(list, n) >= 0 {
        list[find_agent(list, n)].task
    } else {
        Seq::empty()
    }
}

/// Whether an agent named `n` is in the list.
pub open spec fn has_agent(list: Seq<AgentModel>, n: Seq<char>) -> bool {
    find_agent(list, n) >= 0
}

/// The tool list that the first `k` parts build for the agent named `n`,
/// starting from `init`: each part that belongs to `n` adds its tool when new.
pub open spec fn owned_tools_from(init: Seq<Seq<char>>, msgs: Seq<RawMessage>, parts: Seq<RawPart>, n: Seq<char>, k: int) -> Seq<Seq<char>>
    decreases k,
{
    if k <= 0 {
        init
    } else {
        let prev = owned_tools_from(init, msgs, parts, n, k - 1);
        if owner_name(msgs, parts[k - 1]) == n {
            part_tools(prev, parts[k - 1].data)
        } else {
            prev
        }
    }
}

/// The tools of the agent named `n`: the distinct "tool" values of the parts
/// that belong to it, in order of first appearance.
pub open spec fn owned_tools(msgs: Seq<RawMessage>, parts: Seq<RawPart>, n: Seq<char>) -> Seq<Seq<char>> {
    owned_tools_from(Seq::empty(), msgs, parts, n, parts.len() as int)
}

/// Some message among the first `k` taken in `order` names agent `n`.
pub open spec fn some_message_names(msgs: Seq<RawMessage>, order: Seq<usize>, n: Seq<char>, k: int) -> bool {
    exists|q: int| 0 <= q < k && #[trigger] agent_name_of(msgs[order[q] as int].data) == n
}

/// Some part among the first `k` belongs to agent `n`.
pub open spec fn some_part_names(msgs: Seq<RawMessage>, parts: Seq<RawPart>, n: Seq<char>, k: int) -> bool {
    exists|q: int| 0 <= q < k && #[trigger] owner_name(msgs, parts[q]) == n
}

/// What one step of agent building does to the agent named `n`: it exists
/// afterwards exactly when it did or the step names it, and its tools are
/// those it had, changed only when the step names it.
proof fn lemma_step_by_name(list: Seq<AgentModel>, l1: Seq<AgentModel>, name: Seq<char>, raw_id: Seq<char>, model: Seq<char>, label: Seq<char>, created: Option<Seq<char>>, a: AgentModel, n: Seq<char>)
    requires
        names_distinct(list),
        l1 == ensure_agent(list, raw_id, name, model, label, created),
        a.name == name,
    ensures
        has_agent(l1.update(agent_slot(list, name), a), n) == (has_agent(list, n) || n == name),
        n != name ==> tools_in(l1.update(agent_slot(list, name), a), n) == tools_in(list, n),
        n == name ==> tools_in(l1.update(agent_slot(list, name), a), n) == a.tools,
        l1[agent_slot(list, name)].tools == tools_in(list, name),
        n != name ==> last_in(l1.update(agent_slot(list, name), a), n) == last_in(list, n),
        n == name ==> last_in(l1.update(agent_slot(list, name), a), n) == a.last_activity_at,
        l1[agent_slot(list, name)].last_activity_at == last_in(list, name),
        n != name ==> label_in(l1.update(agent_slot(list, name), a), n) == label_in(list, n),
        n == name ==> label_in(l1.update(agent_slot(list, name), a), n) == a.status_label,
        l1[agent_slot(list, name)].status_label == (if has_agent(list, name) { label_in(list, name) } else { label }),
        n != name ==> task_in(l1.update(agent_slot(list, name), a), n) == task_in(list, n),
        n == name ==> task_in(l1.update(agent_slot(list, name), a), n) == a.task,
        l1[agent_slot(list, name)].task == task_in(list, name),
{
    lemma_find_agent(list, name);
    lemma_ensure_agent(list, raw_id, name, model, label, created);
    let i = agent_slot(list, name);
    let l2 = l1.update(i, a);
    lemma_find_update(l1, i, a, n);
    if find_agent(list, name) < 0 {
        if n != name {
            lemma_find_push(list, new_agent(raw_id, name, model, label, created), n);
        }
    }
    lemma_find_agent(l1, n);
    lemma_find_agent(list, n);
    lemma_ensure_agent(list, raw_id, name, model, label, created);
    if n == name {
        lemma_find_agent(l1, name);
        if find_agent(l1, name) != i {
            let f = find_agent(l1, name);
            if f < i {
                assert(l1[f].name != l1[i].name);
            } else {
                assert(l1[i].name != l1[f].name);
            }
        }
    } else {
        let f = find_agent(list, n);
        if f >= 0 {
            assert(f != i);
            assert(l1[f] == list[f]);
        }
    }
}

proof fn lemma_fold_messages_by_name(raw_id: Seq<char>, msgs: Seq<RawMessage>, parts: Seq<RawPart>, order: Seq<usize>, k: int, n: Seq<char>)
    requires
        k >= 0,
    ensures
        has_agent(fold_messages(raw_id, msgs, parts, order, k), n) == some_message_names(msgs, order, n, k),
        tools_in(fold_messages(raw_id, msgs, parts, order, k), n) == Seq::<Seq<char>>::empty(),
        last_in(fold_messages(raw_id, msgs, parts, order, k), n) == message_latest(msgs, order, n, k),
        has_agent(fold_messages(raw_id, msgs, parts, order, k), n) ==> label_in(fold_messages(raw_id, msgs, parts, order, k), n)
            == label_for(first_status(msgs, parts, n)),
    decreases k,
{
    if k > 0 {
        let list = fold_messages(raw_id, msgs, parts, order, k - 1);
        lemma_fold_messages_by_name(raw_id, msgs, parts, order, k - 1, n);
        lemma_fold_messages_distinct(raw_id, msgs, parts, order, k - 1);
        let m = msgs[order[k - 1] as int];
        let name = agent_name_of(m.data);
        let model = model_of(m.data);
        let label = label_for(first_status(msgs, parts, name));
        let created = opt_iso(m.time_created);
        let l1 = ensure_agent(list, raw_id, name, model, label, created);
        let i = agent_slot(list, name);
        let a0 = touched(l1[i], opt_iso(m.time_updated));
        let a = AgentModel { task: message_task(a0.task, m.data), ..a0 };
        lemma_fold_messages_by_name(raw_id, msgs, parts, order, k - 1, name);
        lemma_ensure_agent(list, raw_id, name, model, label, created);
        lemma_step_by_name(list, l1, name, raw_id, model, label, created, a, n);
        if some_message_names(msgs, order, n, k) && !some_message_names(msgs, order, n, k - 1) {
            let q = choose|q: int| 0 <= q < k && #[trigger] agent_name_of(msgs[order[q] as int].data) == n;
            assert(q == k - 1);
        }
        if some_message_names(msgs, order, n, k - 1) {
            let q = choose|q: int| 0 <= q < k - 1 && #[trigger] agent_name_of(msgs[order[q] as int].data) == n;
            assert(0 <= q < k && agent_name_of(msgs[order[q] as int].data) == n);
        }
        if n == name {
            assert(agent_name_of(msgs[order[k - 1] as int].data) == n);
        }
    }
}

proof fn lemma_fold_parts_by_name(start: Seq<AgentModel>, raw_id: Seq<char>, msgs: Seq<RawMessage>, parts: Seq<RawPart>, k: int, n: Seq<char>)
    requires
        names_distinct(start),
        k >= 0,
        has_agent(start, n) ==> label_in(start, n) == label_for(first_status(msgs, parts, n)),
    ensures
        has_agent(fold_parts(start, raw_id, msgs, parts, k), n) == (has_agent(start, n) || some_part_names(msgs, parts, n, k)),
        tools_in(fold_parts(start, raw_id, msgs, parts, k), n) == owned_tools_from(tools_in(start, n), msgs, parts, n, k),
        last_in(fold_parts(start, raw_id, msgs, parts, k), n) == part_latest(last_in(start, n), msgs, parts, n, k),
        has_agent(fold_parts(start, raw_id, msgs, parts, k), n) ==> label_in(fold_parts(start, raw_id, msgs, parts, k), n)
            == label_for(first_status(msgs, parts, n)),
    decreases k,
{
    if k > 0 {
        let list = fold_parts(start, raw_id, msgs, parts, k - 1);
        lemma_fold_parts_by_name(start, raw_id, msgs, parts, k - 1, n);
        lemma_fold_parts_distinct(start, raw_id, msgs, parts, k - 1);
        let p = parts[k - 1];
        let name = owner_name(msgs, p);
        let model = owner_model(msgs, p);
        let label = label_for(first_status(msgs, parts, name));
        let created = opt_iso(p.time_created);
        let l1 = ensure_agent(list, raw_id, name, model, label, created);
        let i = agent_slot(list, name);
        let a = touched(l1[i], opt_iso(p.time_updated));
        let task1 = running_task(a.task, p.data);
        let a2 = AgentModel { tools: part_tools(a.tools, p.data), task: task1, ..a };
        let fin = match part_summary(p.data) {
            Some(msg) => {
                let entry = LogModel {
                    time: match opt_iso(p.time_updated) {
                        Some(t) => t,
                        None => Seq::empty(),
                    },
                    level: log_level_of(p.data),
                    message: msg,
                };
                let task2 = if task1.len() == 0 && field_str(p.data, "type"@) != Some("reasoning"@) {
                    msg
                } else {
                    task1
                };
                AgentModel { logs: a2.logs.push(entry), task: task2, ..a2 }
            },
            None => a2,
        };
        assert(fold_parts(start, raw_id, msgs, parts, k) == l1.update(i, fin));
        lemma_ensure_agent(list, raw_id, name, model, label, created);
        lemma_step_by_name(list, l1, name, raw_id, model, label, created, fin, n);
        if some_part_names(msgs, parts, n, k) && !some_part_names(msgs, parts, n, k - 1) {
            let q = choose|q: int| 0 <= q < k && #[trigger] owner_name(msgs, parts[q]) == n;
            assert(q == k - 1);
        }
        if some_part_names(msgs, parts, n, k - 1) {
            let q = choose|q: int| 0 <= q < k - 1 && #[trigger] owner_name(msgs, parts[q]) == n;
            assert(0 <= q < k && owner_name(msgs, parts[q]) == n);
        }
        if n == name {
            assert(owner_name(msgs, parts[k - 1]) == n);
            lemma_fold_parts_by_name(start, raw_id, msgs, parts, k - 1, name);
        }
    }
}

/// Every element of a filtered list is in the list.
proof fn lemma_filter_subset(list: Seq<AgentModel>, pred: spec_fn(AgentModel) -> bool)
    ensures
        forall|j: int| 0 <= j < list.filter(pred).len() ==> list.contains(#[trigger] list.filter(pred)[j]),
    decreases list.len(),
{
    reveal_with_fuel(Seq::filter, 1);
    if list.len() > 0 {
        let rest = list.drop_last();
        lemma_filter_subset(rest, pred);
        let sub = rest.filter(pred);
        let f = list.filter(pred);
        assert forall|j: int| 0 <= j < f.len() implies list.contains(#[trigger] f[j]) by {
            if j < sub.len() {
                assert(f[j] == sub[j]);
                assert(rest.contains(sub[j]));
                let q = choose|q: int| 0 <= q < rest.len() && rest[q] == sub[j];
                assert(list[q] == rest[q]);
            } else {
                assert(f[j] == list[list.len() - 1]);
            }
        }
    }
}

/// In a list with distinct names, an element's name finds that element.
proof fn lemma_find_member(list: Seq<AgentModel>, i: int)
    requires
        names_distinct(list),
        0 <= i < list.len(),
    ensures
        find_agent(list, list[i].name) == i,
{
    lemma_find_agent(list, list[i].name);
    let f = find_agent(list, list[i].name);
    if f < 0 {
        assert(list[i].name != list[i].name);
    } else if f < i {
        assert(list[f].name != list[i].name);
    } else if f > i {
        assert(list[i].name != list[f].name);
    }
}

/// The agents of a normalised session before hiding system agents.
pub open spec fn built_agents(raw: RawSession, msgs: Seq<RawMessage>, parts: Seq<RawPart>, order: Seq<usize>) -> Seq<AgentModel> {
    fold_parts(fold_messages(raw.id@, msgs, parts, order, msgs.len() as int), raw.id@, msgs, parts, parts.len() as int)
}

/// Some message or part names agent `n`.
pub open spec fn named(msgs: Seq<RawMessage>, parts: Seq<RawPart>, order: Seq<usize>, n: Seq<char>) -> bool {
    some_message_names(msgs, order, n, msgs.len() as int) || some_part_names(msgs, parts, n, parts.len() as int)
}

proof fn lemma_built_agents(raw: RawSession, msgs: Seq<RawMessage>, parts: Seq<RawPart>, order: Seq<usize>, n: Seq<char>)
    ensures
        names_distinct(built_agents(raw, msgs, parts, order)),
        has_agent(built_agents(raw, msgs, parts, order), n) == named(msgs, parts, order, n),
        tools_in(built_agents(raw, msgs, parts, order), n) == owned_tools(msgs, parts, n),
        has_agent(built_agents(raw, msgs, parts, order), n) ==> label_in(built_agents(raw, msgs, parts, order), n)
            == label_for(first_status(msgs, parts, n)),
        last_in(built_agents(raw, msgs, parts, order), n) == part_latest(
            message_latest(msgs, order, n, msgs.len() as int),
            msgs,
            parts,
            n,
            parts.len() as int,
        ),
{
    let after = fold_messages(raw.id@, msgs, parts, order, msgs.len() as int);
    lemma_fold_messages_distinct(raw.id@, msgs, parts, order, msgs.len() as int);
    lemma_fold_messages_by_name(raw.id@, msgs, parts, order, msgs.len() as int, n);
    lemma_fold_parts_distinct(after, raw.id@, msgs, parts, parts.len() as int);
    lemma_fold_parts_by_name(after, raw.id@, msgs, parts, parts.len() as int, n);
}

/// A normalised agent that is not the one standing for the session has the
/// distinct "tool" values of the parts that belong to it, in order of first
/// appearance.
pub proof fn law_agent_tools_are_owned_tools(raw: RawSession, msgs: Seq<RawMessage>, parts: Seq<RawPart>, todos: Seq<RawTodo>, order: Seq<usize>)
    ensures
        forall|i: int| 0 <= i < normalized_agents(raw, msgs, parts, todos, order).len() ==> (
            #[trigger] normalized_agents(raw, msgs, parts, todos, order)[i] == session_agent(raw, todos)
            || normalized_agents(raw, msgs, parts, todos, order)[i].tools == owned_tools(msgs, parts, normalized_agents(raw, msgs, parts, todos, order)[i].name)),
{
    let all = built_agents(raw, msgs, parts, order);
    let r = normalized_agents(raw, msgs, parts, todos, order);
    lemma_built_agents(raw, msgs, parts, order, Seq::empty());
    if all.len() > 1 {
        lemma_filter_subset(all, not_system());
    }
    assert forall|i: int| 0 <= i < r.len() implies (#[trigger] r[i] == session_agent(raw, todos) || r[i].tools == owned_tools(msgs, parts, r[i].name)) by {
        if visible_agents(all).len() > 0 {
            let x = r[i];
            assert(all.contains(x)) by {
                if all.len() > 1 {
                    assert(all.filter(not_system()).contains(x) || true);
                } else {
                    assert(all[i] == x);
                }
            }
            let f = choose|f: int| 0 <= f < all.len() && all[f] == x;
            lemma_find_member(all, f);
            lemma_built_agents(raw, msgs, parts, order, x.name);
        }
    }
}

/// A part adding its tool keeps a tool list free of repeats.
pub proof fn law_owned_tools_distinct(msgs: Seq<RawMessage>, parts: Seq<RawPart>, n: Seq<char>)
    ensures
        owned_tools(msgs, parts, n).no_duplicates(),
{
    lemma_owned_tools_distinct(msgs, parts, n, parts.len() as int);
}

proof fn lemma_owned_tools_distinct(msgs: Seq<RawMessage>, parts: Seq<RawPart>, n: Seq<char>, k: int)
    ensures
        owned_tools_from(Seq::empty(), msgs, parts, n, k).no_duplicates(),
    decreases k,
{
    if k > 0 {
        lemma_owned_tools_distinct(msgs, parts, n, k - 1);
        let prev = owned_tools_from(Seq::empty(), msgs, parts, n, k - 1);
        match field_str(parts[k - 1].data, "tool"@) {
            Some(t) => {
                if !prev.contains(t) {
                    let nx = prev.push(t);
                    assert forall|a: int, b: int| 0 <= a < nx.len() && 0 <= b < nx.len() && a != b implies nx[a] != nx[b] by {
                        if a < prev.len() && b < prev.len() {
                        } else if a < prev.len() {
                            assert(prev.contains(nx[a]));
                        } else {
                            assert(prev.contains(nx[b]));
                        }
                    }
                }
            },
            None => {},
        }
    }
}

/// Two different agent names are named by messages or parts.
pub open spec fn several_named(msgs: Seq<RawMessage>, parts: Seq<RawPart>, order: Seq<usize>) -> bool {
    exists|n1: Seq<char>, n2: Seq<char>| n1 != n2 && #[trigger] named(msgs, parts, order, n1) && #[trigger] named(msgs, parts, order, n2)
}

/// Some agent name is named by a message or part.
pub open spec fn some_named(msgs: Seq<RawMessage>, parts: Seq<RawPart>, order: Seq<usize>) -> bool {
    exists|n: Seq<char>| #[trigger] named(msgs, parts, order, n)
}

/// Some name other than a system agent's is named by a message or part.
pub open spec fn some_user_named(msgs: Seq<RawMessage>, parts: Seq<RawPart>, order: Seq<usize>) -> bool {
    exists|n: Seq<char>| #[trigger] named(msgs, parts, order, n) && !is_system_name(n)
}

/// Whether a normalised session shows an agent named `n`: with several names
/// the non-system ones (or, when all are system names, only the session's own
/// agent); with one name that one; with none the session's own agent.
pub open spec fn shown_name(msgs: Seq<RawMessage>, parts: Seq<RawPart>, order: Seq<usize>, n: Seq<char>) -> bool {
    if several_named(msgs, parts, order) {
        if some_user_named(msgs, parts, order) {
            named(msgs, parts, order, n) && !is_system_name(n)
        } else {
            n == "session"@
        }
    } else if some_named(msgs, parts, order) {
        named(msgs, parts, order, n)
    } else {
        n == "session"@
    }
}

proof fn lemma_has_member(list: Seq<AgentModel>, x: AgentModel)
    requires
        list.contains(x),
    ensures
        has_agent(list, x.name),
{
    let j = choose|j: int| 0 <= j < list.len() && list[j] == x;
    lemma_find_agent(list, x.name);
    if find_agent(list, x.name) < 0 {
        assert(list[j].name != x.name);
    }
}

/// The agents a normalised session shows are exactly those `shown_name`
/// names.
pub proof fn law_shown_agent_names(raw: RawSession, msgs: Seq<RawMessage>, parts: Seq<RawPart>, todos: Seq<RawTodo>, order: Seq<usize>, n: Seq<char>)
    ensures
        has_agent(normalized_agents(raw, msgs, parts, todos, order), n) == shown_name(msgs, parts, order, n),
{
    let all = built_agents(raw, msgs, parts, order);
    let r = normalized_agents(raw, msgs, parts, todos, order);
    lemma_built_agents(raw, msgs, parts, order, n);
    // how many agents were built
    if all.len() > 1 {
        lemma_find_member(all, 0);
        lemma_find_member(all, 1);
        lemma_built_agents(raw, msgs, parts, order, all[0].name);
        lemma_built_agents(raw, msgs, parts, order, all[1].name);
        assert(named(msgs, parts, order, all[0].name) && named(msgs, parts, order, all[1].name));
        assert(several_named(msgs, parts, order));
    } else {
        if several_named(msgs, parts, order) {
            let (n1, n2) = choose|n1: Seq<char>, n2: Seq<char>| n1 != n2 && #[trigger] named(msgs, parts, order, n1) && #[trigger] named(msgs, parts, order, n2);
            lemma_built_agents(raw, msgs, parts, order, n1);
            lemma_built_agents(raw, msgs, parts, order, n2);
            lemma_find_agent(all, n1);
            lemma_find_agent(all, n2);
            assert(find_agent(all, n1) != find_agent(all, n2));
        }
        if all.len() == 1 {
            lemma_find_member(all, 0);
            lemma_built_agents(raw, msgs, parts, order, all[0].name);
            assert(some_named(msgs, parts, order));
        } else {
            if some_named(msgs, parts, order) {
                let m = choose|m: Seq<char>| #[trigger] named(msgs, parts, order, m);
                lemma_built_agents(raw, msgs, parts, order, m);
                lemma_find_agent(all, m);
            }
        }
    }
    let shown = visible_agents(all);
    if all.len() > 1 {
        let f = all.filter(not_system());
        lemma_filter_subset(all, not_system());
        lemma_filter_names(all, not_system());
        all.filter_lemma(not_system());
        // a user name among those built survives the filter
        if some_user_named(msgs, parts, order) {
            let m = choose|m: Seq<char>| #[trigger] named(msgs, parts, order, m) && !is_system_name(m);
            lemma_built_agents(raw, msgs, parts, order, m);
            lemma_find_agent(all, m);
            let q = find_agent(all, m);
            assert(not_system()(all[q]));
            assert(f.contains(all[q]));
            assert(f.len() > 0);
        } else {
            if f.len() > 0 {
                assert(not_system()(f[0]));
                assert(all.contains(f[0]));
                lemma_has_member(all, f[0]);
                lemma_built_agents(raw, msgs, parts, order, f[0].name);
                assert(named(msgs, parts, order, f[0].name) && !is_system_name(f[0].name));
            }
        }
        if f.len() > 0 {
            // n is shown exactly when it was built and is no system name
            if has_agent(f, n) {
                lemma_find_agent(f, n);
                let j = find_agent(f, n);
                assert(all.contains(f[j]));
                lemma_has_member(all, f[j]);
                assert(not_system()(f[j]));
            }
            if has_agent(all, n) && !is_system_name(n) {
                lemma_find_agent(all, n);
                let q = find_agent(all, n);
                assert(not_system()(all[q]));
                assert(f.contains(all[q]));
                lemma_has_member(f, all[q]);
            }
        }
    }
    if shown.len() == 0 {
        let sa = session_agent(raw, todos);
        assert(r == seq![sa]);
        assert(seq![sa].drop_last() =~= Seq::<AgentModel>::empty());
        assert(sa.name == "session"@);
        assert(r.len() == 1);
        assert(r.last() == sa);
        assert(r.drop_last() =~= Seq::<AgentModel>::empty());
        assert(find_agent(r.drop_last(), n) == -1);
        assert(has_agent(r, n) == (n == "session"@));
        assert(shown_name(msgs, parts, order, n) == (n == "session"@));
    } else {
        assert(r == shown);
        if all.len() > 1 {
            assert(has_agent(r, n) == (has_agent(all, n) && !is_system_name(n)));
            assert(shown_name(msgs, parts, order, n) == (named(msgs, parts, order, n) && !is_system_name(n)));
        } else {
            assert(has_agent(r, n) == has_agent(all, n));
            assert(shown_name(msgs, parts, order, n) == named(msgs, parts, order, n));
        }
    }
}

/// The update time that message `q` (in `order`) gives agent `n`.
pub open spec fn message_update(msgs: Seq<RawMessage>, order: Seq<usize>, n: Seq<char>, q: int) -> Option<Seq<char>> {
    if agent_name_of(msgs[order[q] as int].data) == n {
        opt_iso(msgs[order[q] as int].time_updated)
    } else {
        None
    }
}

/// The update time that part `q` gives agent `n`.
pub open spec fn part_update(msgs: Seq<RawMessage>, parts: Seq<RawPart>, n: Seq<char>, q: int) -> Option<Seq<char>> {
    if owner_name(msgs, parts[q]) == n {
        opt_iso(parts[q].time_updated)
    } else {
        None
    }
}

/// `cur` is the latest, as text, of the update times that the first `km`
/// messages and `kp` parts give agent `n`, and none when they give none.
pub open spec fn is_latest(cur: Option<Seq<char>>, msgs: Seq<RawMessage>, parts: Seq<RawPart>, order: Seq<usize>, n: Seq<char>, km: int, kp: int) -> bool {
    match cur {
        None => (forall|q: int| 0 <= q < km ==> #[trigger] message_update(msgs, order, n, q) is None) && (forall|q: int|
            0 <= q < kp ==> #[trigger] part_update(msgs, parts, n, q) is None),
        Some(t) => {
            &&& (exists|q: int| 0 <= q < km && #[trigger] message_update(msgs, order, n, q) == Some(t)) || (exists|q: int|
                0 <= q < kp && #[trigger] part_update(msgs, parts, n, q) == Some(t))
            &&& forall|q: int| 0 <= q < km ==> (#[trigger] message_update(msgs, order, n, q) matches Some(v) ==> !text_greater(v, t))
            &&& forall|q: int| 0 <= q < kp ==> (#[trigger] part_update(msgs, parts, n, q) matches Some(v) ==> !text_greater(v, t))
        },
    }
}

proof fn lemma_later_step(cur: Option<Seq<char>>, u: Option<Seq<char>>, msgs: Seq<RawMessage>, parts: Seq<RawPart>, order: Seq<usize>, n: Seq<char>, km: int, kp: int, in_msgs: bool)
    requires
        is_latest(cur, msgs, parts, order, n, km, kp),
        km >= 0,
        kp >= 0,
        in_msgs ==> message_update(msgs, order, n, km) == u,
        !in_msgs ==> part_update(msgs, parts, n, kp) == u,
    ensures
        in_msgs ==> is_latest(later_of(cur, u), msgs, parts, order, n, km + 1, kp),
        !in_msgs ==> is_latest(later_of(cur, u), msgs, parts, order, n, km, kp + 1),
{
    let nk = if in_msgs { km + 1 } else { km };
    let np = if in_msgs { kp } else { kp + 1 };
    let nx = later_of(cur, u);
    match u {
        Some(t) => {
            law_text_order_strict(t, t, t);
            if in_msgs {
                assert(message_update(msgs, order, n, km) == Some(t));
            } else {
                assert(part_update(msgs, parts, n, kp) == Some(t));
            }
            match cur {
                Some(c) => {
                    if text_greater(t, c) {
                        assert forall|q: int| 0 <= q < nk implies (#[trigger] message_update(msgs, order, n, q) matches Some(v) ==> !text_greater(v, t)) by {
                            if q < km {
                                if let Some(v) = message_update(msgs, order, n, q) {
                                    law_text_order_strict(v, t, c);
                                }
                            }
                        }
                        assert forall|q: int| 0 <= q < np implies (#[trigger] part_update(msgs, parts, n, q) matches Some(v) ==> !text_greater(v, t)) by {
                            if q < kp {
                                if let Some(v) = part_update(msgs, parts, n, q) {
                                    law_text_order_strict(v, t, c);
                                }
                            }
                        }
                    } else {
                        assert forall|q: int| 0 <= q < nk implies (#[trigger] message_update(msgs, order, n, q) matches Some(v) ==> !text_greater(v, c)) by {
                        }
                        assert forall|q: int| 0 <= q < np implies (#[trigger] part_update(msgs, parts, n, q) matches Some(v) ==> !text_greater(v, c)) by {
                        }
                        if exists|q: int| 0 <= q < km && #[trigger] message_update(msgs, order, n, q) == Some(c) {
                            let q = choose|q: int| 0 <= q < km && #[trigger] message_update(msgs, order, n, q) == Some(c);
                            assert(0 <= q < nk && message_update(msgs, order, n, q) == Some(c));
                        } else {
                            let q = choose|q: int| 0 <= q < kp && #[trigger] part_update(msgs, parts, n, q) == Some(c);
                            assert(0 <= q < np && part_update(msgs, parts, n, q) == Some(c));
                        }
                    }
                },
                None => {
                    assert forall|q: int| 0 <= q < nk implies (#[trigger] message_update(msgs, order, n, q) matches Some(v) ==> !text_greater(v, t)) by {
                        if q < km {
                            assert(message_update(msgs, order, n, q) is None);
                        }
                    }
                    assert forall|q: int| 0 <= q < np implies (#[trigger] part_update(msgs, parts, n, q) matches Some(v) ==> !text_greater(v, t)) by {
                        if q < kp {
                            assert(part_update(msgs, parts, n, q) is None);
                        }
                    }
                },
            }
        },
        None => {
            match cur {
                Some(c) => {
                    if exists|q: int| 0 <= q < km && #[trigger] message_update(msgs, order, n, q) == Some(c) {
                        let q = choose|q: int| 0 <= q < km && #[trigger] message_update(msgs, order, n, q) == Some(c);
                        assert(0 <= q < nk && message_update(msgs, order, n, q) == Some(c));
                    } else {
                        let q = choose|q: int| 0 <= q < kp && #[trigger] part_update(msgs, parts, n, q) == Some(c);
                        assert(0 <= q < np && part_update(msgs, parts, n, q) == Some(c));
                    }
                    assert forall|q: int| 0 <= q < nk implies (#[trigger] message_update(msgs, order, n, q) matches Some(v) ==> !text_greater(v, c)) by {
                    }
                    assert forall|q: int| 0 <= q < np implies (#[trigger] part_update(msgs, parts, n, q) matches Some(v) ==> !text_greater(v, c)) by {
                    }
                },
                None => {},
            }
        },
    }
}

proof fn lemma_message_latest(msgs: Seq<RawMessage>, parts: Seq<RawPart>, order: Seq<usize>, n: Seq<char>, k: int)
    requires
        k >= 0,
    ensures
        is_latest(message_latest(msgs, order, n, k), msgs, parts, order, n, k, 0),
    decreases k,
{
    if k > 0 {
        lemma_message_latest(msgs, parts, order, n, k - 1);
        let m = msgs[order[k - 1] as int];
        if agent_name_of(m.data) == n {
            lemma_later_step(message_latest(msgs, order, n, k - 1), opt_iso(m.time_updated), msgs, parts, order, n, k - 1, 0, true);
        } else {
            lemma_later_step(message_latest(msgs, order, n, k - 1), None, msgs, parts, order, n, k - 1, 0, true);
        }
    }
}

proof fn lemma_part_latest(init: Option<Seq<char>>, msgs: Seq<RawMessage>, parts: Seq<RawPart>, order: Seq<usize>, n: Seq<char>, km: int, k: int)
    requires
        k >= 0,
        km >= 0,
        is_latest(init, msgs, parts, order, n, km, 0),
    ensures
        is_latest(part_latest(init, msgs, parts, n, k), msgs, parts, order, n, km, k),
    decreases k,
{
    if k > 0 {
        lemma_part_latest(init, msgs, parts, order, n, km, k - 1);
        if owner_name(msgs, parts[k - 1]) == n {
            lemma_later_step(part_latest(init, msgs, parts, n, k - 1), opt_iso(parts[k - 1].time_updated), msgs, parts, order, n, km, k - 1, false);
        } else {
            lemma_later_step(part_latest(init, msgs, parts, n, k - 1), None, msgs, parts, order, n, km, k - 1, false);
        }
    }
}

/// A normalised agent that is not the one standing for the session has as
/// its last activity the latest, as text, of the update times of the
/// messages and parts that belong to it, and none when they have none.
pub proof fn law_last_activity_is_latest(raw: RawSession, msgs: Seq<RawMessage>, parts: Seq<RawPart>, todos: Seq<RawTodo>, order: Seq<usize>)
    ensures
        forall|i: int| 0 <= i < normalized_agents(raw, msgs, parts, todos, order).len() ==> (
            #[trigger] normalized_agents(raw, msgs, parts, todos, order)[i] == session_agent(raw, todos) || is_latest(
                normalized_agents(raw, msgs, parts, todos, order)[i].last_activity_at,
                msgs,
                parts,
                order,
                normalized_agents(raw, msgs, parts, todos, order)[i].name,
                msgs.len() as int,
                parts.len() as int,
            )),
{
    let all = built_agents(raw, msgs, parts, order);
    let r = normalized_agents(raw, msgs, parts, todos, order);
    lemma_built_agents(raw, msgs, parts, order, Seq::empty());
    if all.len() > 1 {
        lemma_filter_subset(all, not_system());
    }
    assert forall|i: int| 0 <= i < r.len() implies (#[trigger] r[i] == session_agent(raw, todos) || is_latest(
        r[i].last_activity_at, msgs, parts, order, r[i].name, msgs.len() as int, parts.len() as int)) by {
        if visible_agents(all).len() > 0 {
            let x = r[i];
            assert(all.contains(x)) by {
                if all.len() <= 1 {
                    assert(all[i] == x);
                }
            }
            let f = choose|f: int| 0 <= f < all.len() && all[f] == x;
            lemma_find_member(all, f);
            lemma_built_agents(raw, msgs, parts, order, x.name);
            lemma_message_latest(msgs, parts, order, x.name, msgs.len() as int);
            lemma_part_latest(message_latest(msgs, order, x.name, msgs.len() as int), msgs, parts, order, x.name, msgs.len() as int, parts.len() as int);
        }
    }
}

/// A character of the base64 alphabet.
pub open spec fn is_b64_char(c: char) -> bool {
    ('A' <= c && c <= 'Z') || ('a' <= c && c <= 'z') || ('0' <= c && c <= '9') || c == '+' || c == '/'
}

proof fn lemma_b64_digit(v: int)
    requires
        0 <= v < 64,
    ensures
        is_b64_char(b64_digit(v)),
{
}

proof fn lemma_b64_group(g: Seq<u8>)
    requires
        1 <= g.len() <= 3,
    ensures
        forall|i: int| 0 <= i < 4 ==> is_b64_char(#[trigger] b64_group(g)[i]) || (b64_group(g)[i] == '=' && i >= 2 && g.len() < 3),
{
    let b0 = g[0] as int;
    let b1 = if g.len() > 1 { g[1] as int } else { 0 };
    let b2 = if g.len() > 2 { g[2] as int } else { 0 };
    lemma_b64_digit(b0 / 4);
    lemma_b64_digit((b0 % 4) * 16 + b1 / 16);
    lemma_b64_digit((b1 % 16) * 4 + b2 / 64);
    lemma_b64_digit(b2 % 64);
}

/// Base64 text is made of the base64 alphabet, with '=' only as padding in
/// its last two places, and none when the input fills whole groups.
pub proof fn law_base64_alphabet(data: Seq<u8>)
    ensures
        forall|i: int| 0 <= i < base64_of(data).len() ==> is_b64_char(#[trigger] base64_of(data)[i])
            || (base64_of(data)[i] == '=' && i >= base64_of(data).len() - 2 && data.len() % 3 != 0),
    decreases data.len(),
{
    law_base64_length(data);
    if data.len() > 0 {
        let n = data.len() as int;
        let k = ((n - 1) / 3) * 3;
        assert(0 <= k < n <= k + 3);
        law_base64_alphabet(data.take(k));
        law_base64_length(data.take(k));
        let pre = base64_of(data.take(k));
        let g = data.skip(k);
        lemma_b64_group(g);
        let out = base64_of(data);
        assert(out == pre + b64_group(g));
        assert(data.take(k).len() % 3 == 0);
        assert(pre.len() == 4 * (k / 3));
        assert forall|i: int| 0 <= i < out.len() implies is_b64_char(#[trigger] out[i])
            || (out[i] == '=' && i >= out.len() - 2 && data.len() % 3 != 0) by {
            if i < pre.len() {
                assert(out[i] == pre[i]);
            } else {
                assert(out[i] == b64_group(g)[i - pre.len()]);
                if g.len() < 3 {
                    assert(n % 3 != 0);
                }
            }
        }
    }
}

/// The six-bit value of a base64 alphabet character.
pub open spec fn b64_value(c: char) -> int {
    if 'A' <= c && c <= 'Z' {
        c as int - 65
    } else if 'a' <= c && c <= 'z' {
        c as int - 97 + 26
    } else if '0' <= c && c <= '9' {
        c as int - 48 + 52
    } else if c == '+' {
        62
    } else {
        63
    }
}

/// Standard base64 decoding of one group of four characters, where '=' in
/// the last places marks a group of one or two bytes.
pub open spec fn decode_group(g: Seq<char>) -> Seq<u8> {
    let d0 = b64_value(g[0]);
    let d1 = b64_value(g[1]);
    let d2 = b64_value(g[2]);
    let d3 = b64_value(g[3]);
    let b0 = (d0 * 4 + d1 / 16) as u8;
    let b1 = ((d1 % 16) * 16 + d2 / 4) as u8;
    let b2 = ((d2 % 4) * 64 + d3) as u8;
    if g[2] == '=' {
        seq![b0]
    } else if g[3] == '=' {
        seq![b0, b1]
    } else {
        seq![b0, b1, b2]
    }
}

/// Standard decoding of padded base64 text, group by group of four
/// characters.
pub open spec fn base64_decode(s: Seq<char>) -> Seq<u8>
    decreases s.len(),
{
    if s.len() < 4 {
        Seq::empty()
    } else {
        base64_decode(s.take(s.len() - 4)) + decode_group(s.skip(s.len() - 4))
    }
}

proof fn lemma_b64_value(v: int)
    requires
        0 <= v < 64,
    ensures
        b64_value(b64_digit(v)) == v,
        b64_digit(v) != '=',
{
}

proof fn lemma_decode_group(g: Seq<u8>)
    requires
        1 <= g.len() <= 3,
    ensures
        decode_group(b64_group(g)) =~= g,
{
    let b0 = g[0] as int;
    let b1 = if g.len() > 1 { g[1] as int } else { 0 };
    let b2 = if g.len() > 2 { g[2] as int } else { 0 };
    let v0 = b0 / 4;
    let v1 = (b0 % 4) * 16 + b1 / 16;
    let v2 = (b1 % 16) * 4 + b2 / 64;
    let v3 = b2 % 64;
    lemma_b64_value(v0);
    lemma_b64_value(v1);
    lemma_b64_value(v2);
    lemma_b64_value(v3);
    assert(v0 * 4 + v1 / 16 == b0);
    assert((v1 % 16) * 16 + v2 / 4 == b1);
    assert((v2 % 4) * 64 + v3 == b2);
    let e = b64_group(g);
    assert(b64_value(e[0]) == v0);
    assert(b64_value(e[1]) == v1);
    if g.len() > 1 {
        assert(b64_value(e[2]) == v2);
        assert(e[2] != '=');
    }
    if g.len() > 2 {
        assert(b64_value(e[3]) == v3);
        assert(e[3] != '=');
    }
}

/// A standard base64 decoder gives back the data that `base64_encode`
/// encoded.
pub proof fn law_base64_decodes_back(data: Seq<u8>)
    ensures
        base64_decode(base64_of(data)) =~= data,
    decreases data.len(),
{
    law_base64_length(data);
    if data.len() > 0 {
        let n = data.len() as int;
        let k = ((n - 1) / 3) * 3;
        assert(0 <= k < n <= k + 3);
        law_base64_decodes_back(data.take(k));
        law_base64_length(data.take(k));
        let pre = base64_of(data.take(k));
        let g = data.skip(k);
        let out = base64_of(data);
        assert(out == pre + b64_group(g));
        assert(pre.len() == 4 * (k / 3));
        assert(out.len() == pre.len() + 4);
        assert(out.take(out.len() - 4) =~= pre);
        assert(out.skip(out.len() - 4) =~= b64_group(g));
        lemma_decode_group(g);
        assert(data =~= data.take(k) + g);
    }
}

/// A user message sets the empty task of its agent to the first 120
/// characters of its content; a task once set is kept by later messages.
pub proof fn law_user_message_sets_task(list: Seq<AgentModel>, raw_id: Seq<char>, msgs: Seq<RawMessage>, parts: Seq<RawPart>, m: RawMessage, c: Seq<char>)
    requires
        names_distinct(list),
    ensures
        task_in(list, agent_name_of(m.data)).len() == 0 && field_str(m.data, "role"@) == Some("user"@) && field_str(
            m.data,
            "content"@,
        ) == Some(c) && c.len() > 0 ==> task_in(message_step(list, raw_id, msgs, parts, m), agent_name_of(m.data))
            == c.take(if c.len() < 120 { c.len() as int } else { 120 }),
        task_in(list, agent_name_of(m.data)).len() > 0 ==> task_in(message_step(list, raw_id, msgs, parts, m), agent_name_of(m.data))
            == task_in(list, agent_name_of(m.data)),
{
    let name = agent_name_of(m.data);
    let model = model_of(m.data);
    let label = label_for(first_status(msgs, parts, name));
    let created = opt_iso(m.time_created);
    let l1 = ensure_agent(list, raw_id, name, model, label, created);
    let i = agent_slot(list, name);
    let a0 = touched(l1[i], opt_iso(m.time_updated));
    let a = AgentModel { task: message_task(a0.task, m.data), ..a0 };
    lemma_ensure_agent(list, raw_id, name, model, label, created);
    lemma_step_by_name(list, l1, name, raw_id, model, label, created, a, name);
    assert(message_step(list, raw_id, msgs, parts, m) == l1.update(i, a));
    if c.len() > 120 {
        assert(first_120(c) =~= c.take(120));
    } else {
        assert(first_120(c) =~= c.take(c.len() as int));
    }
}

/// Part `q` belongs to agent `n` and carries a tool status.
pub open spec fn owned_status_at(msgs: Seq<RawMessage>, parts: Seq<RawPart>, n: Seq<char>, q: int) -> bool {
    owner_name(msgs, parts[q]) == n && field2_str(parts[q].data, "state"@, "status"@) is Some
}

proof fn lemma_first_status(msgs: Seq<RawMessage>, parts: Seq<RawPart>, n: Seq<char>)
    ensures
        forall|q: int| 0 <= q < parts.len() && #[trigger] owned_status_at(msgs, parts, n, q) && (forall|p: int|
            0 <= p < q ==> !owned_status_at(msgs, parts, n, p)) ==> first_status(msgs, parts, n) == field2_str(
            parts[q].data,
            "state"@,
            "status"@,
        ),
        (forall|q: int| 0 <= q < parts.len() ==> !#[trigger] owned_status_at(msgs, parts, n, q)) ==> first_status(
            msgs,
            parts,
            n,
        ) is None,
    decreases parts.len(),
{
    if parts.len() > 0 {
        let rest = parts.drop_first();
        lemma_first_status(msgs, rest, n);
        assert forall|q: int| 0 <= q < rest.len() implies owned_status_at(msgs, rest, n, q) == owned_status_at(msgs, parts, n, q + 1) by {
            assert(rest[q] == parts[q + 1]);
        }
        assert forall|q: int| 0 <= q < parts.len() && #[trigger] owned_status_at(msgs, parts, n, q) && (forall|p: int|
            0 <= p < q ==> !owned_status_at(msgs, parts, n, p)) implies first_status(msgs, parts, n) == field2_str(
            parts[q].data,
            "state"@,
            "status"@,
        ) by {
            if q > 0 {
                assert(!owned_status_at(msgs, parts, n, 0));
                assert(owned_status_at(msgs, rest, n, q - 1));
                assert forall|p: int| 0 <= p < q - 1 implies !owned_status_at(msgs, rest, n, p) by {
                    assert(!owned_status_at(msgs, parts, n, p + 1));
                }
                assert(rest[q - 1] == parts[q]);
            }
        }
        if forall|q: int| 0 <= q < parts.len() ==> !#[trigger] owned_status_at(msgs, parts, n, q) {
            assert(!owned_status_at(msgs, parts, n, 0));
            assert forall|q: int| 0 <= q < rest.len() implies !#[trigger] owned_status_at(msgs, rest, n, q) by {
                assert(!owned_status_at(msgs, parts, n, q + 1));
            }
        }
    }
}

/// The initial status label of a normalised agent (other than the one
/// standing for the session) comes from the first part, in the order given
/// (newest first), that belongs to it and carries a tool status: "Completed"
/// for completed, success or done, "Failed" for failed or error, "Running"
/// for any other; "unknown" when none of its parts carries one.
pub proof fn law_initial_label_is_newest(raw: RawSession, msgs: Seq<RawMessage>, parts: Seq<RawPart>, todos: Seq<RawTodo>, order: Seq<usize>)
    ensures
        forall|i: int, q: int|
            0 <= i < normalized_agents(raw, msgs, parts, todos, order).len() && 0 <= q < parts.len()
                && #[trigger] owned_status_at(msgs, parts, normalized_agents(raw, msgs, parts, todos, order)[i].name, q)
                && (forall|p: int| 0 <= p < q ==> !owned_status_at(msgs, parts, normalized_agents(raw, msgs, parts, todos, order)[i].name, p))
                && normalized_agents(raw, msgs, parts, todos, order)[i] != session_agent(raw, todos)
                ==> ({
                let st = field2_str(parts[q].data, "state"@, "status"@)->0;
                normalized_agents(raw, msgs, parts, todos, order)[i].status_label == if st == "completed"@ || st == "success"@ || st
                    == "done"@ {
                    "Completed"@
                } else if st == "failed"@ || st == "error"@ {
                    "Failed"@
                } else {
                    "Running"@
                }
            }),
        forall|i: int|
            0 <= i < normalized_agents(raw, msgs, parts, todos, order).len() && (forall|q: int|
                0 <= q < parts.len() ==> !owned_status_at(msgs, parts, (#[trigger] normalized_agents(raw, msgs, parts, todos, order)[i]).name, q))
                && normalized_agents(raw, msgs, parts, todos, order)[i] != session_agent(raw, todos)
                ==> normalized_agents(raw, msgs, parts, todos, order)[i].status_label == "unknown"@,
{
    let all = built_agents(raw, msgs, parts, order);
    let r = normalized_agents(raw, msgs, parts, todos, order);
    lemma_built_agents(raw, msgs, parts, order, Seq::empty());
    if all.len() > 1 {
        lemma_filter_subset(all, not_system());
    }
    assert forall|i: int| 0 <= i < r.len() && r[i] != session_agent(raw, todos) implies r[i].status_label == label_for(
        first_status(msgs, parts, r[i].name),
    ) by {
        let x = r[i];
        if visible_agents(all).len() == 0 {
            assert(r == seq![session_agent(raw, todos)]);
        }
        assert(all.contains(x)) by {
            if all.len() <= 1 {
                assert(all[i] == x);
            }
        }
        let f = choose|f: int| 0 <= f < all.len() && all[f] == x;
        lemma_find_member(all, f);
        lemma_built_agents(raw, msgs, parts, order, x.name);
    }
    assert forall|i: int, q: int|
        0 <= i < r.len() && 0 <= q < parts.len() && #[trigger] owned_status_at(msgs, parts, r[i].name, q) && (forall|p: int|
            0 <= p < q ==> !owned_status_at(msgs, parts, r[i].name, p)) && r[i] != session_agent(raw, todos) implies ({
        let st = field2_str(parts[q].data, "state"@, "status"@)->0;
        r[i].status_label == if st == "completed"@ || st == "success"@ || st == "done"@ {
            "Completed"@
        } else if st == "failed"@ || st == "error"@ {
            "Failed"@
        } else {
            "Running"@
        }
    }) by {
        lemma_first_status(msgs, parts, r[i].name);
    }
    assert forall|i: int|
        0 <= i < r.len() && (forall|q: int| 0 <= q < parts.len() ==> !owned_status_at(msgs, parts, (#[trigger] r[i]).name, q))
            && r[i] != session_agent(raw, todos) implies r[i].status_label == "unknown"@ by {
        lemma_first_status(msgs, parts, r[i].name);
    }
}

} // verus!
