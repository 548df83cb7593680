//! The value model of the agents that normalising a session builds, and the
//! text helpers it uses.
use vstd::prelude::*;
use crate::types::{Agent, LogEntry};
use crate::text::{chars_of, string_of};

verus! {

/// A log entry as text.
pub struct LogModel {
    pub time: Seq<char>,
    pub level: Seq<char>,
    pub message: Seq<char>,
}

/// An agent under construction, as text.
pub struct AgentModel {
    pub id: Seq<char>,
    pub name: Seq<char>,
    pub model: Seq<char>,
    pub status_label: Seq<char>,
    pub task: Seq<char>,
    pub started_at: Option<Seq<char>>,
    pub last_activity_at: Option<Seq<char>>,
    pub tools: Seq<Seq<char>>,
    pub logs: Seq<LogModel>,
}

/// The view of an optional string.
pub open spec fn opt_text(o: Option<String>) -> Option<Seq<char>> {
    match o {
        Some(s) => Some(s@),
        None => None,
    }
}

/// The text of a log entry.
pub open spec fn log_model(e: LogEntry) -> LogModel {
    LogModel { time: e.time@, level: e.level@, message: e.message@ }
}

/// The text of an agent.
pub open spec fn agent_model(a: Agent) -> AgentModel {
    AgentModel {
        id: a.id@,
        name: a.name@,
        model: a.model@,
        status_label: a.status_label@,
        task: a.task@,
        started_at: opt_text(a.started_at),
        last_activity_at: opt_text(a.last_activity_at),
        tools: a.tools@.map_values(|t: String| t@),
        logs: a.recent_logs@.map_values(|e: LogEntry| log_model(e)),
    }
}

/// The texts of a list of agents.
pub open spec fn agent_models(v: Seq<Agent>) -> Seq<AgentModel> {
    v.map_values(|a: Agent| agent_model(a))
}

/// `a` sorts after `b` in the order of `String`'s comparison (lexicographic
/// by character; UTF-8 byte order agrees with it).
pub open spec fn text_greater(a: Seq<char>, b: Seq<char>) -> bool
    decreases a.len(),
{
    if a.len() == 0 {
        false
    } else if b.len() == 0 {
        true
    } else if a[0] != b[0] {
        (a[0] as u32) > (b[0] as u32)
    } else {
        text_greater(a.drop_first(), b.drop_first())
    }
}

/// Whether `a` sorts after `b` (see `text_greater`).
pub fn is_text_greater(a: &str, b: &str) -> (r: bool)
    ensures
        r == text_greater(a@, b@),
{
    let x = chars_of(a);
    let y = chars_of(b);
    let mut i: usize = 0;
    assert(x@.skip(0) =~= x@);
    assert(y@.skip(0) =~= y@);
    while i < x.len() && i < y.len()
        invariant
            x@ == a@,
            y@ == b@,
            i <= x@.len(),
            i <= y@.len(),
            text_greater(x@, y@) == text_greater(x@.skip(i as int), y@.skip(i as int)),
        decreases x@.len() - i,
    {
        assert(x@.skip(i as int).drop_first() =~= x@.skip(i + 1));
        assert(y@.skip(i as int).drop_first() =~= y@.skip(i + 1));
        assert(x@.skip(i as int)[0] == x@[i as int]);
        assert(y@.skip(i as int)[0] == y@[i as int]);
        if x[i] != y[i] {
            assert(x@.skip(i as int).len() > 0 && y@.skip(i as int).len() > 0);
            assert(text_greater(x@.skip(i as int), y@.skip(i as int)) == ((x@[i as int] as u32) > (y@[i as int] as u32)));
            return (x[i] as u32) > (y[i] as u32);
        }
        i = i + 1;
    }
    assert(x@.skip(i as int).len() == 0 || y@.skip(i as int).len() == 0);
    i < x.len()
}

/// The first 120 characters of a text.
pub open spec fn first_120(s: Seq<char>) -> Seq<char> {
    if s.len() <= 120 {
        s
    } else {
        s.take(120)
    }
}

/// The first 120 characters of a text (`chars().take(120)`).
pub fn take_120(s: &str) -> (r: String)
    ensures
        r@ == first_120(s@),
{
    let cs = chars_of(s);
    let n: usize = if cs.len() < 120 { cs.len() } else { 120 };
    let mut out: Vec<char> = Vec::new();
    let mut i: usize = 0;
    while i < n
        invariant
            n <= cs@.len(),
            n == (if cs@.len() < 120 { cs@.len() } else { 120 }),
            i <= n,
            out@ == cs@.subrange(0, i as int),
        decreases n - i,
    {
        out.push(cs[i]);
        i = i + 1;
    }
    assert(n == cs@.len() ==> cs@.subrange(0, n as int) =~= cs@);
    string_of(out.as_slice())
}

/// The order of `text_greater` is strict: no text sorts after itself, and
/// sorting after is transitive.
pub proof fn law_text_order_strict(a: Seq<char>, b: Seq<char>, c: Seq<char>)
    ensures
        !text_greater(a, a),
        text_greater(a, b) && text_greater(b, c) ==> text_greater(a, c),
    decreases a.len(),
{
    if a.len() > 0 {
        law_text_order_strict(a.drop_first(), b.drop_first(), c.drop_first());
        if text_greater(a, b) && text_greater(b, c) && c.len() > 0 {
            assert(b.len() > 0);
            if a[0] == b[0] && b[0] == c[0] {
                assert(text_greater(a.drop_first(), b.drop_first()));
                assert(text_greater(b.drop_first(), c.drop_first()));
            }
        }
    }
}

} // verus!
