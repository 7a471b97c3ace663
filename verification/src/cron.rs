//! Agent cron jobs: request defaults, schedule validation, interval parsing
//! and the first run time of a new schedule.
use vstd::prelude::*;
use crate::redaction::AppError;
use crate::text::{
    chars_eq, chars_eq_str, chars_of, owned, parse_i64, parse_i64_exec, sub_chars, trim,
    trim_chars,
};

verus! {

/// Session a cron job posts into unless the request names one.
pub fn default_session_target() -> (r: String)
    ensures
        r@ == "main"@,
{
    owned("main")
}

/// How a cron job's result is delivered unless the request says otherwise.
pub fn default_delivery_mode() -> (r: String)
    ensures
        r@ == "announce"@,
{
    owned("announce")
}

/// Seconds a cron run may take unless the request says otherwise.
pub fn default_timeout() -> (r: i32)
    ensures
        r == 600,
{
    600
}

/// Largest magnitude, in seconds, of a `chrono::TimeDelta` built from whole seconds.
pub const MAX_DELTA_SECS: i64 = 9223372036854775;

/// Earliest and latest Unix second of a `chrono::DateTime<Utc>`
/// (-262143-01-01T00:00:00Z and +262142-12-31T23:59:59Z).
pub const MIN_TIMESTAMP: i64 = -8334601315200;

pub const MAX_TIMESTAMP: i64 = 8210266876799;

/// The seconds an interval such as `30s`, `15m`, `2h`, `7d` or `45` (minutes)
/// stands for, before any bound on durations is applied. A number followed
/// by one of the units counts in that unit; any other text counts as
/// minutes when it is a whole number, so a bare integer of any length
/// (`5`, `45`) is minutes, and anything else is no interval.
pub open spec fn interval_seconds(s: Seq<char>) -> Option<int> {
    let t = trim(s);
    if t.len() == 0 {
        None
    } else {
        let unit = t.last();
        let scaled = match parse_i64(t.drop_last()) {
            None => None,
            Some(n) => if unit == 's' {
                Some(n as int)
            } else if unit == 'm' {
                Some(n * 60)
            } else if unit == 'h' {
                Some(n * 3600)
            } else if unit == 'd' {
                Some(n * 86400)
            } else {
                None
            },
        };
        match scaled {
            Some(v) => Some(v),
            None => match parse_i64(t) {
                Some(k) => Some(k * 60),
                None => None,
            },
        }
    }
}

/// The inputs on which interval parsing completes: the duration fits a
/// `chrono::TimeDelta`.
pub open spec fn interval_defined(s: Seq<char>) -> bool {
    match interval_seconds(s) {
        Some(v) => -MAX_DELTA_SECS <= v <= MAX_DELTA_SECS,
        None => true,
    }
}

/// The interval in seconds as a wide integer, computed from the text.
fn interval_wide(s: &str) -> (r: Option<i128>)
    ensures
        match interval_seconds(s@) {
            Some(v) => r == Some(v as i128),
            None => r is None,
        },
{
    let v = chars_of(s);
    let t = trim_chars(v.as_slice());
    if t.len() == 0 {
        return None;
    }
    let unit = t[t.len() - 1];
    let body = sub_chars(t.as_slice(), 0, t.len() - 1);
    assert(body@ =~= trim(s@).drop_last());
    let scaled: Option<i128> = match parse_i64_exec(body.as_slice()) {
        Some(n) => {
            let n = n as i128;
            if unit == 's' {
                Some(n)
            } else if unit == 'm' {
                Some(n * 60)
            } else if unit == 'h' {
                Some(n * 3600)
            } else if unit == 'd' {
                Some(n * 86400)
            } else {
                None
            }
        },
        None => None,
    };
    match scaled {
        Some(x) => Some(x),
        None => match parse_i64_exec(t.as_slice()) {
            Some(k) => Some((k as i128) * 60),
            None => None,
        },
    }
}

/// Parses a schedule interval into seconds; a bare integer counts minutes.
pub fn parse_interval(s: &str) -> (r: Option<i64>)
    requires
        interval_defined(s@),
    ensures
        match interval_seconds(s@) {
            Some(v) => r == Some(v as i64),
            None => r is None,
        },
{
    match interval_wide(s) {
        Some(x) => Some(x as i64),
        None => None,
    }
}

fn delta_ok(v: i128) -> (r: bool)
    ensures
        r == (-MAX_DELTA_SECS <= v <= MAX_DELTA_SECS),
{
    -(MAX_DELTA_SECS as i128) <= v && v <= MAX_DELTA_SECS as i128
}

/// Can `parse_interval` be asked about `s`? (The duration would otherwise
/// not fit a `chrono::TimeDelta`, which panics.)
pub fn interval_in_range(s: &str) -> (r: bool)
    ensures
        r == interval_defined(s@),
{
    match interval_wide(s) {
        Some(x) => delta_ok(x),
        None => true,
    }
}

/// A point in time as `chrono::DateTime<Utc>` holds it: Unix seconds and
/// the nanoseconds past them.
#[derive(Debug, Clone, Copy, PartialEq, Eq, Structural)]
pub struct UtcInstant {
    pub secs: i64,
    pub nanos: u32,
}

/// What `str::parse::<DateTime<Utc>>` gives for `text`: Unix seconds and nanoseconds.
pub uninterp spec fn parsed_utc(text: Seq<char>) -> Option<(i64, u32)>;

/// `text.parse::<chrono::DateTime<chrono::Utc>>().ok()`, read back as
/// seconds and nanoseconds; the result is named `parsed_utc` of the text.
#[verifier::external_body]
fn parse_utc_datetime(text: &str) -> (r: Option<UtcInstant>)
    ensures
        match r {
            Some(i) => parsed_utc(text@) == Some((i.secs, i.nanos)),
            None => parsed_utc(text@) is None,
        },
{
    match text.parse::<chrono::DateTime<chrono::Utc>>() {
        Ok(d) => Some(UtcInstant { secs: d.timestamp(), nanos: d.timestamp_subsec_nanos() }),
        Err(_) => None,
    }
}

/// The first run of a new schedule, `now` being the current time.
pub open spec fn first_run(schedule_type: Seq<char>, schedule_value: Seq<char>, now: UtcInstant) -> Option<(int, u32)> {
    if schedule_type == "every"@ {
        match interval_seconds(schedule_value) {
            Some(d) => Some((now.secs + d, now.nanos)),
            None => None,
        }
    } else if schedule_type == "cron"@ {
        Some((now.secs + 60, now.nanos))
    } else if schedule_type == "at"@ {
        match parsed_utc(schedule_value) {
            Some((s, n)) => Some((s as int, n)),
            None => None,
        }
    } else {
        None
    }
}

/// The inputs on which the first run is computed without a panic: a valid
/// interval, and a result within the range of `chrono::DateTime<Utc>`.
pub open spec fn first_run_defined(schedule_type: Seq<char>, schedule_value: Seq<char>, now: UtcInstant) -> bool {
    &&& now.nanos < 1_000_000_000
    &&& schedule_type == "every"@ ==> interval_defined(schedule_value)
    &&& (schedule_type == "every"@ || schedule_type == "cron"@) ==> match first_run(
        schedule_type,
        schedule_value,
        now,
    ) {
        Some((s, _)) => MIN_TIMESTAMP <= s <= MAX_TIMESTAMP,
        None => true,
    }
}

/// When a new schedule first fires: after its interval (`every`), in a
/// minute (`cron`), or at the given time (`at`); none for anything else.
pub fn compute_initial_next_run(schedule_type: &str, schedule_value: &str, now: UtcInstant) -> (r: Option<UtcInstant>)
    requires
        first_run_defined(schedule_type@, schedule_value@, now),
    ensures
        match first_run(schedule_type@, schedule_value@, now) {
            Some((s, n)) => r matches Some(i) && i.secs == s && i.nanos == n,
            None => r is None,
        },
{
    let t = chars_of(schedule_type);
    if chars_eq_str(t.as_slice(), "every") {
        match parse_interval(schedule_value) {
            Some(d) => Some(UtcInstant { secs: now.secs + d, nanos: now.nanos }),
            None => None,
        }
    } else if chars_eq_str(t.as_slice(), "cron") {
        Some(UtcInstant { secs: now.secs + 60, nanos: now.nanos })
    } else if chars_eq_str(t.as_slice(), "at") {
        parse_utc_datetime(schedule_value)
    } else {
        None
    }
}

/// Can the first run of this schedule be computed at `now`?
pub fn first_run_in_range(schedule_type: &str, schedule_value: &str, now: UtcInstant) -> (r: bool)
    ensures
        r == first_run_defined(schedule_type@, schedule_value@, now),
{
    if now.nanos >= 1_000_000_000 {
        return false;
    }
    let t = chars_of(schedule_type);
    if chars_eq_str(t.as_slice(), "every") {
        if !interval_in_range(schedule_value) {
            return false;
        }
        match parse_interval(schedule_value) {
            Some(d) => {
                let s = (now.secs as i128) + (d as i128);
                MIN_TIMESTAMP as i128 <= s && s <= MAX_TIMESTAMP as i128
            },
            None => true,
        }
    } else if chars_eq_str(t.as_slice(), "cron") {
        let s = (now.secs as i128) + 60;
        MIN_TIMESTAMP as i128 <= s && s <= MAX_TIMESTAMP as i128
    } else {
        true
    }
}

/// Schedule kinds a cron job may have.
pub open spec fn known_schedule_type(t: Seq<char>) -> bool {
    t == "at"@ || t == "every"@ || t == "cron"@
}

/// Refuses a schedule kind other than `at`, `every` or `cron`.
pub fn validate_schedule_type(schedule_type: &str) -> (r: Result<(), AppError>)
    ensures
        r is Ok <==> known_schedule_type(schedule_type@),
        r matches Err(e) ==> e matches AppError::Validation(m) && m@
            == "schedule_type must be 'at', 'every', or 'cron'"@,
{
    let t = chars_of(schedule_type);
    if chars_eq_str(t.as_slice(), "at") || chars_eq_str(t.as_slice(), "every") || chars_eq_str(
        t.as_slice(),
        "cron",
    ) {
        Ok(())
    } else {
        Err(AppError::Validation(owned("schedule_type must be 'at', 'every', or 'cron'")))
    }
}

/// A cron job may post only into a conversation of the agent's workspace
/// that has the agent as a member.
pub fn check_cron_conversation(conversation_workspace_id: &str, agent_workspace_id: &str, agent_is_member: bool) -> (r: Result<(), AppError>)
    ensures
        r is Ok <==> (conversation_workspace_id@ == agent_workspace_id@ && agent_is_member),
        r matches Err(e) ==> e matches AppError::Forbidden(m) && m@
            == "cron conversation must belong to the agent workspace and include the agent"@,
{
    let a = chars_of(conversation_workspace_id);
    let b = chars_of(agent_workspace_id);
    if chars_eq(a.as_slice(), b.as_slice()) && agent_is_member {
        Ok(())
    } else {
        Err(
            AppError::Forbidden(
                owned("cron conversation must belong to the agent workspace and include the agent"),
            ),
        )
    }
}

/// An operator reaches an agent's cron jobs when the agent lives in the
/// operator's workspace or in one of the operator's companies.
pub open spec fn reaches_workspace(operator_workspace_id: Seq<char>, company_ids: Seq<String>, agent_workspace_id: Seq<char>) -> bool {
    operator_workspace_id == agent_workspace_id || exists|i: int|
        0 <= i < company_ids.len() && #[trigger] company_ids[i]@ == agent_workspace_id
}

/// Access to an agent's cron jobs: the principal must be an agent, and its
/// workspace reachable by the operator.
pub fn check_agent_workspace_access(
    is_agent: bool,
    operator_workspace_id: &str,
    company_ids: &[String],
    agent_workspace_id: &str,
) -> (r: Result<(), AppError>)
    ensures
        r is Ok <==> (is_agent && reaches_workspace(
            operator_workspace_id@,
            company_ids@,
            agent_workspace_id@,
        )),
        !is_agent ==> (r matches Err(e) && e matches AppError::NotFound(m) && m@ == "agent not found"@),
        is_agent && !reaches_workspace(operator_workspace_id@, company_ids@, agent_workspace_id@)
            ==> (r matches Err(e) && e matches AppError::Forbidden(m) && m@
            == "cross-workspace access denied"@),
{
    if !is_agent {
        return Err(AppError::NotFound(owned("agent not found")));
    }
    let a = chars_of(operator_workspace_id);
    let w = chars_of(agent_workspace_id);
    if chars_eq(a.as_slice(), w.as_slice()) {
        return Ok(());
    }
    let mut i: usize = 0;
    while i < company_ids.len()
        invariant
            i <= company_ids@.len(),
            is_agent,
            a@ == operator_workspace_id@,
            a@ != w@,
            w@ == agent_workspace_id@,
            forall|j: int| 0 <= j < i ==> (#[trigger] company_ids@[j])@ != agent_workspace_id@,
        decreases company_ids.len() - i,
    {
        let c = chars_of(company_ids[i].as_str());
        if chars_eq(c.as_slice(), w.as_slice()) {
            assert((company_ids@[i as int])@ == agent_workspace_id@);
            return Ok(());
        }
        i = i + 1;
    }
    Err(AppError::Forbidden(owned("cross-workspace access denied")))
}


proof fn lemma_parsed_ends_in_digit(t: Seq<char>)
    requires
        parse_i64(t) is Some,
    ensures
        t.len() > 0 && crate::text::is_ascii_digit_char(t.last()),
{
    if t.len() > 0 && t[0] == '-' {
        let d = t.drop_first();
        assert(d[d.len() - 1] == t.last());
    } else {
        let d = if t.len() > 0 && t[0] == '+' { t.drop_first() } else { t };
        assert(d[d.len() - 1] == t.last());
    }
}

/// What an interval means: a number followed by `s`, `m`, `h` or `d`
/// counts seconds, minutes (60 s), hours (3600 s) or days (86400 s); a
/// bare whole number of any length counts minutes; surrounding whitespace
/// does not matter.
pub proof fn law_interval_units(s: Seq<char>)
    ensures
        trim(s).len() > 0 ==> match parse_i64(trim(s).drop_last()) {
            Some(n) => {
                let u = trim(s).last();
                &&& u == 's' ==> interval_seconds(s) == Some(n as int)
                &&& u == 'm' ==> interval_seconds(s) == Some(60 * n)
                &&& u == 'h' ==> interval_seconds(s) == Some(3600 * n)
                &&& u == 'd' ==> interval_seconds(s) == Some(86400 * n)
            },
            None => true,
        },
        match parse_i64(trim(s)) {
            Some(k) => interval_seconds(s) == Some(60 * k),
            None => true,
        },
{
    if parse_i64(trim(s)) is Some {
        lemma_parsed_ends_in_digit(trim(s));
    }
}
} // verus!
