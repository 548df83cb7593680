//! Classification of an agent's status from its explicit status, its running
//! tools and the age of its last activity.
use vstd::prelude::*;
use crate::types::Status;
use crate::time::{UtcTime, rfc3339_millis, parse_rfc3339_millis};
use crate::text::{lowercase, str_to_lowercase, str_is};
use crate::json::opt_view;

verus! {

/// Below this many seconds of inactivity an agent counts as running.
pub const RUNNING_THRESHOLD_SEC: u64 = 30;

/// From this many seconds of inactivity on an agent counts as stalled.
pub const STALLED_THRESHOLD_SEC: u64 = 45;

/// Whole seconds from the instant written in `last` to `now_ms`, when `last`
/// is a valid RFC 3339 text that does not lie after `now_ms` (the same
/// instant has age 0).
pub open spec fn age_sec(last: Option<Seq<char>>, now_ms: int) -> Option<int> {
    match last {
        Some(t) => match rfc3339_millis(t) {
            Some(ms) => if now_ms >= ms {
                Some((now_ms - ms) / 1000)
            } else {
                None
            },
            None => None,
        },
        None => None,
    }
}

/// Seconds since the last activity, when it is known and not in the future.
pub fn age_sec_from(last_activity_at: Option<&str>, now: &UtcTime) -> (r: Option<u64>)
    ensures
        match r {
            Some(a) => age_sec(opt_view(last_activity_at), now.millis()) == Some(a as int),
            None => age_sec(opt_view(last_activity_at), now.millis()) is None,
        },
{
    match last_activity_at {
        Some(timestamp) => match parse_rfc3339_millis(timestamp) {
            Some(dt_ms) => {
                let now_ms = now.timestamp_millis();
                if now_ms >= dt_ms {
                    Some(((now_ms - dt_ms) / 1000) as u64)
                } else {
                    None
                }
            },
            None => None,
        },
        None => None,
    }
}

/// The status that an agent is classified as from its explicit status
/// already lower-cased (`norm`), whether it has a running tool, and the age in
/// seconds of its last activity. An explicit status decides first; without
/// one, an agent with a running tool is running whatever its age, and
/// otherwise the age decides: unknown is delayed, under 30 s running, under
/// 45 s delayed, and stalled from then on.
pub open spec fn status_from(norm: Option<Seq<char>>, has_running_tool: bool, age: Option<int>) -> Status {
    if norm == Some("failed"@) || norm == Some("error"@) {
        Status::Failed
    } else if norm == Some("running"@) {
        Status::Running
    } else if norm == Some("completed"@) || norm == Some("success"@) || norm == Some("done"@) {
        if has_running_tool {
            Status::Running
        } else {
            Status::Completed
        }
    } else if has_running_tool {
        Status::Running
    } else {
        match age {
            None => Status::Delayed,
            Some(a) => if a < RUNNING_THRESHOLD_SEC {
                Status::Running
            } else if a < STALLED_THRESHOLD_SEC {
                Status::Delayed
            } else {
                Status::Stalled
            },
        }
    }
}

/// The status that an agent is classified as at `now_ms`: its explicit
/// status compared in lower case, and the age of its last activity.
pub open spec fn status_of(
    explicit: Option<Seq<char>>,
    has_running_tool: bool,
    last_activity_at: Option<Seq<char>>,
    now_ms: int,
) -> Status {
    let norm = match explicit {
        Some(e) => Some(lowercase(e)),
        None => None,
    };
    status_from(norm, has_running_tool, age_sec(last_activity_at, now_ms))
}

/// The view of an optional age.
pub open spec fn opt_age(age: Option<u64>) -> Option<int> {
    match age {
        Some(a) => Some(a as int),
        None => None,
    }
}

/// Classifies an agent from its lower-cased explicit status, its running
/// tool and the age of its last activity (see `status_from`).
pub fn status_from_parts(norm: Option<&str>, has_running_tool: bool, age: Option<u64>) -> (r: Status)
    ensures
        r == status_from(opt_view(norm), has_running_tool, opt_age(age)),
{
    if let Some(n) = norm {
        if str_is(n, "failed") || str_is(n, "error") {
            return Status::Failed;
        }
        if str_is(n, "running") {
            return Status::Running;
        }
        if str_is(n, "completed") || str_is(n, "success") || str_is(n, "done") {
            return if has_running_tool {
                Status::Running
            } else {
                Status::Completed
            };
        }
    }
    if has_running_tool {
        return Status::Running;
    }
    match age {
        None => Status::Delayed,
        Some(a) => if a < RUNNING_THRESHOLD_SEC {
            Status::Running
        } else if a < STALLED_THRESHOLD_SEC {
            Status::Delayed
        } else {
            Status::Stalled
        },
    }
}

/// Classifies an agent's status (see `status_of`).
pub fn classify_status(
    explicit_status: Option<&str>,
    has_running_tool: bool,
    last_activity_at: Option<&str>,
    now: &UtcTime,
) -> (r: Status)
    ensures
        r == status_of(opt_view(explicit_status), has_running_tool, opt_view(last_activity_at), now.millis()),
{
    let lowered: Option<String> = match explicit_status {
        Some(e) => Some(str_to_lowercase(e)),
        None => None,
    };
    let norm: Option<&str> = match &lowered {
        Some(l) => Some(l.as_str()),
        None => None,
    };
    let age = age_sec_from(last_activity_at, now);
    status_from_parts(norm, has_running_tool, age)
}

/// Whether an agent is classified as stalled at `now`.
pub fn agent_is_stalled(
    explicit_status: Option<&str>,
    has_running_tool: bool,
    last_activity_at: Option<&str>,
    now: &UtcTime,
) -> (r: bool)
    ensures
        r == (status_of(opt_view(explicit_status), has_running_tool, opt_view(last_activity_at), now.millis())
            == Status::Stalled),
{
    classify_status(explicit_status, has_running_tool, last_activity_at, now) == Status::Stalled
}

/// How severe a status is when only the age decides: running, then
/// delayed, then stalled.
pub open spec fn age_severity(st: Status) -> int {
    match st {
        Status::Running => 0,
        Status::Delayed => 1,
        Status::Stalled => 2,
        _ => 3,
    }
}

/// An agent with a running tool is never classified as stalled.
pub proof fn law_running_tool_never_stalled(
    explicit: Option<Seq<char>>,
    last_activity_at: Option<Seq<char>>,
    now_ms: int,
)
    ensures
        status_of(explicit, true, last_activity_at, now_ms) != Status::Stalled,
{
}

/// Without an explicit status or a running tool, an older last activity is
/// classified at least as severely as a more recent one.
pub proof fn law_older_is_not_less_severe(last1: Seq<char>, last2: Seq<char>, now_ms: int)
    requires
        age_sec(Some(last1), now_ms) is Some,
        age_sec(Some(last2), now_ms) is Some,
        age_sec(Some(last1), now_ms)->0 <= age_sec(Some(last2), now_ms)->0,
    ensures
        age_severity(status_of(None, false, Some(last1), now_ms)) <= age_severity(
            status_of(None, false, Some(last2), now_ms),
        ),
{
}

/// Without an explicit status or a running tool, an agent is stalled exactly
/// when its last activity is known to be at least 45 seconds old.
pub proof fn law_stalled_after_threshold(last: Option<Seq<char>>, now_ms: int)
    ensures
        (status_of(None, false, last, now_ms) == Status::Stalled) <==> (age_sec(last, now_ms) matches Some(a)
            && a >= STALLED_THRESHOLD_SEC),
{
}

/// An explicit status decides before the age and the tools are looked at:
/// one that lower-cases to "failed" or "error" is Failed, to "running" is
/// Running, and to "completed", "success" or "done" is Completed unless a
/// tool is still running (then Running), whatever the last activity and now.
pub proof fn law_explicit_status_decides(
    explicit: Seq<char>,
    has_running_tool: bool,
    last_activity_at: Option<Seq<char>>,
    now_ms: int,
)
    ensures
        lowercase(explicit) == "failed"@ || lowercase(explicit) == "error"@ ==> status_of(
            Some(explicit),
            has_running_tool,
            last_activity_at,
            now_ms,
        ) == Status::Failed,
        lowercase(explicit) == "running"@ ==> status_of(Some(explicit), has_running_tool, last_activity_at, now_ms)
            == Status::Running,
        lowercase(explicit) == "completed"@ || lowercase(explicit) == "success"@ || lowercase(explicit) == "done"@
            ==> status_of(Some(explicit), has_running_tool, last_activity_at, now_ms) == (if has_running_tool {
            Status::Running
        } else {
            Status::Completed
        }),
{
    reveal_strlit("failed");
    reveal_strlit("error");
    reveal_strlit("running");
    reveal_strlit("completed");
    reveal_strlit("success");
    reveal_strlit("done");
    assert("failed"@.len() != "running"@.len());
    assert("error"@[0] != "running"@[0]);
    assert("failed"@.len() != "completed"@.len());
    assert("error"@[0] != "completed"@[0]);
    assert("running"@[0] != "completed"@[0]);
    assert("failed"@[0] != "success"@[0]);
    assert("error"@[0] != "success"@[0]);
    assert("running"@[0] != "success"@[0]);
    assert("failed"@[0] != "done"@[0]);
    assert("error"@[0] != "done"@[0]);
    assert("running"@[0] != "done"@[0]);
}

} // verus!
