//! Process configuration: defaults, the reading of secrets, integer
//! settings with the standard parser's diagnostics, and the production check.
use vstd::prelude::*;
use crate::text::{
    chars_of, digits_value, is_ascii_digit_char, lemma_digits_value_prefix, owned, trim,
    trim_bounds,
};

verus! {

/// How an environment variable was found.
#[derive(Debug, Clone)]
pub enum EnvRead {
    /// Set, with this value.
    Value(String),
    /// Not set.
    Missing,
    /// Set but unreadable; the text is the reason.
    Unreadable(String),
}

/// A secret that may be left unset (then `default` applies) but never set blank.
pub open spec fn required_or_default_outcome(name: Seq<char>, value: EnvRead, default: Seq<char>) -> Result<Seq<char>, Seq<char>> {
    match value {
        EnvRead::Value(v) => if trim(v@).len() == 0 {
            Err(name + " must not be empty"@)
        } else {
            Ok(v@)
        },
        EnvRead::Missing => Ok(default),
        EnvRead::Unreadable(e) => Err("unable to read "@ + name + ": "@ + e@),
    }
}

/// Reads a secret setting: a blank value is an error, an unset one takes the default.
pub fn required_or_default_value(name: &str, value: EnvRead, default: &str) -> (r: Result<String, String>)
    ensures
        match required_or_default_outcome(name@, value, default@) {
            Ok(v) => r matches Ok(x) && x@ == v,
            Err(m) => r matches Err(x) && x@ == m,
        },
{
    match value {
        EnvRead::Value(v) => {
            let c = chars_of(v.as_str());
            let (a, b) = trim_bounds(c.as_slice());
            if a == b {
                let mut m = owned(name);
                m.append(" must not be empty");
                Err(m)
            } else {
                Ok(v)
            }
        },
        EnvRead::Missing => Ok(owned(default)),
        EnvRead::Unreadable(e) => {
            let mut m = owned("unable to read ");
            m.append(name);
            m.append(": ");
            m.append(e.as_str());
            Err(m)
        },
    }
}

/// Why the standard integer parser refuses a text.
#[derive(Debug, Clone, Copy, PartialEq, Eq, Structural)]
pub enum ParseIntFailure {
    Empty,
    InvalidDigit,
    PosOverflow,
    NegOverflow,
}

/// The message `ParseIntError` displays for each failure.
pub open spec fn failure_text(f: ParseIntFailure) -> Seq<char> {
    match f {
        ParseIntFailure::Empty => "cannot parse integer from empty string"@,
        ParseIntFailure::InvalidDigit => "invalid digit found in string"@,
        ParseIntFailure::PosOverflow => "number too large to fit in target type"@,
        ParseIntFailure::NegOverflow => "number too small to fit in target type"@,
    }
}

pub fn failure_message(f: ParseIntFailure) -> (r: String)
    ensures
        r@ == failure_text(f),
{
    match f {
        ParseIntFailure::Empty => owned("cannot parse integer from empty string"),
        ParseIntFailure::InvalidDigit => owned("invalid digit found in string"),
        ParseIntFailure::PosOverflow => owned("number too large to fit in target type"),
        ParseIntFailure::NegOverflow => owned("number too small to fit in target type"),
    }
}

/// Number of leading decimal digits.
pub open spec fn digit_run(s: Seq<char>) -> nat
    decreases s.len(),
{
    if s.len() > 0 && is_ascii_digit_char(s[0]) {
        1 + digit_run(s.drop_first())
    } else {
        0
    }
}

proof fn lemma_digit_run_is(s: Seq<char>, k: int)
    requires
        0 <= k <= s.len(),
        forall|j: int| 0 <= j < k ==> is_ascii_digit_char(#[trigger] s[j]),
        k < s.len() ==> !is_ascii_digit_char(s[k]),
    ensures
        digit_run(s) == k,
    decreases s.len(),
{
    if k > 0 {
        assert forall|j: int| 0 <= j < k - 1 implies is_ascii_digit_char(#[trigger] s.drop_first()[j]) by {
            assert(s.drop_first()[j] == s[j + 1]);
        }
        if k < s.len() {
            assert(s.drop_first()[k - 1] == s[k]);
        }
        lemma_digit_run_is(s.drop_first(), k - 1);
    }
}

/// `str::parse` for an integer type ranging over `min..=max`: an optional
/// sign (`-` only when `min` is negative), then digits read left to right;
/// the first digit that overflows, or else the first non-digit, decides the error.
pub open spec fn int_outcome(s: Seq<char>, min: int, max: int) -> Result<int, ParseIntFailure> {
    if s.len() == 0 {
        Err(ParseIntFailure::Empty)
    } else {
        let neg = min < 0 && s[0] == '-';
        let signed = neg || s[0] == '+';
        if signed && s.len() == 1 {
            Err(ParseIntFailure::InvalidDigit)
        } else {
            let d = if signed {
                s.drop_first()
            } else {
                s
            };
            let k = digit_run(d);
            let v = digits_value(d.take(k as int));
            if !neg && v > max {
                Err(ParseIntFailure::PosOverflow)
            } else if neg && -v < min {
                Err(ParseIntFailure::NegOverflow)
            } else if k < d.len() {
                Err(ParseIntFailure::InvalidDigit)
            } else if neg {
                Ok(-v)
            } else {
                Ok(v as int)
            }
        }
    }
}

/// Parses an integer in `min..=max` as `str::parse` does, keeping the reason of a refusal.
pub fn parse_int_text(s: &str, min: i64, max: i64) -> (r: Result<i64, ParseIntFailure>)
    requires
        min <= 0 < max,
    ensures
        match int_outcome(s@, min as int, max as int) {
            Ok(v) => r == Ok::<i64, ParseIntFailure>(v as i64),
            Err(f) => r == Err::<i64, ParseIntFailure>(f),
        },
{
    let v = chars_of(s);
    if v.len() == 0 {
        return Err(ParseIntFailure::Empty);
    }
    let neg = min < 0 && v[0] == '-';
    let signed = neg || v[0] == '+';
    if signed && v.len() == 1 {
        return Err(ParseIntFailure::InvalidDigit);
    }
    let start: usize = if signed { 1 } else { 0 };
    let ghost d = if signed {
        v@.drop_first()
    } else {
        v@
    };
    assert(d =~= v@.skip(start as int));
    let bound: i128 = if neg { -(min as i128) } else { max as i128 };
    let mut acc: i128 = 0;
    let mut i: usize = start;
    while i < v.len() && '0' <= v[i] && v[i] <= '9'
        invariant
            start <= i <= v@.len(),
            v@ == s@,
            v@.len() > 0,
            min <= 0 < max,
            neg == (min < 0 && v@[0] == '-'),
            signed == (neg || v@[0] == '+'),
            start == (if signed { 1usize } else { 0usize }),
            signed ==> v@.len() > 1,
            bound == (if neg { -(min as int) } else { max as int }),
            d == (if signed { v@.drop_first() } else { v@ }),
            d =~= v@.skip(start as int),
            0 <= acc <= bound,
            bound <= 0x8000_0000_0000_0000,
            acc == digits_value(d.take(i - start)),
            forall|j: int| 0 <= j < i - start ==> is_ascii_digit_char(#[trigger] d[j]),
        decreases v.len() - i,
    {
        let digit = (v[i] as u32 - '0' as u32) as i128;
        assert(d.take(i - start + 1).drop_last() =~= d.take(i - start));
        assert(d[i - start] == v@[i as int]);
        let nv = acc * 10 + digit;
        assert(digits_value(d.take(i - start + 1)) == nv);
        if nv > bound {
            proof {
                lemma_digit_run_prefix_value(d, (i - start + 1) as int);
            }
            if neg {
                return Err(ParseIntFailure::NegOverflow);
            } else {
                return Err(ParseIntFailure::PosOverflow);
            }
        }
        acc = nv;
        i = i + 1;
    }
    proof {
        if i < v.len() {
            assert(d[i - start] == v@[i as int]);
        }
        lemma_digit_run_is(d, i - start);
    }
    if i < v.len() {
        return Err(ParseIntFailure::InvalidDigit);
    }
    if neg {
        Ok((0 - acc) as i64)
    } else {
        Ok(acc as i64)
    }
}

/// The value of the leading digits bounds that of any shorter all-digit prefix.
proof fn lemma_digit_run_prefix_value(d: Seq<char>, k: int)
    requires
        0 <= k <= d.len(),
        forall|j: int| 0 <= j < k ==> is_ascii_digit_char(#[trigger] d[j]),
    ensures
        k <= digit_run(d),
        digits_value(d.take(k)) <= digits_value(d.take(digit_run(d) as int)),
    decreases d.len(),
{
    lemma_digit_run_bounds(d);
    let n = digit_run(d) as int;
    if k > n {
        assert(!is_ascii_digit_char(d[n]));
        assert(is_ascii_digit_char(d[n]));
    }
    assert(d.take(n).take(k) =~= d.take(k));
    lemma_digits_value_prefix(d.take(n), k);
}

proof fn lemma_digit_run_bounds(d: Seq<char>)
    ensures
        digit_run(d) <= d.len(),
        digit_run(d) < d.len() ==> !is_ascii_digit_char(d[digit_run(d) as int]),
        forall|j: int| 0 <= j < digit_run(d) ==> is_ascii_digit_char(#[trigger] d[j]),
    decreases d.len(),
{
    if d.len() > 0 && is_ascii_digit_char(d[0]) {
        lemma_digit_run_bounds(d.drop_first());
        assert forall|j: int| 0 <= j < digit_run(d) implies is_ascii_digit_char(#[trigger] d[j]) by {
            if j > 0 {
                assert(d[j] == d.drop_first()[j - 1]);
            }
        }
        if digit_run(d) < d.len() {
            assert(d[digit_run(d) as int] == d.drop_first()[digit_run(d.drop_first()) as int]);
        }
    }
}

/// Settings of the gateway process.
#[derive(Debug, Clone)]
pub struct Config {
    pub api_port: u16,
    pub api_host: String,
    pub attachment_dir: String,
    pub agent_tokens_file: String,
    pub env_name: String,
    pub session_secret: String,
    pub operator_password: String,
    pub operator_workspace: String,
    pub operator_user: String,
    pub session_ttl_hours: i64,
}

/// The raw environment the configuration is built from.
#[derive(Debug, Clone)]
pub struct ConfigEnv {
    pub env_name: Option<String>,
    pub session_secret: EnvRead,
    pub operator_password: EnvRead,
    pub session_ttl_hours: Option<String>,
    pub api_port: Option<String>,
    pub api_host: Option<String>,
    pub attachment_dir: Option<String>,
    pub agent_tokens_file: Option<String>,
    pub operator_workspace: Option<String>,
    pub operator_user: Option<String>,
}

pub open spec fn or_default(v: Option<String>, d: Seq<char>) -> Seq<char> {
    match v {
        Some(s) => s@,
        None => d,
    }
}

fn value_or(v: Option<String>, d: &str) -> (r: String)
    ensures
        r@ == or_default(v, d@),
{
    match v {
        Some(s) => s,
        None => owned(d),
    }
}

/// Integer setting outcome: its default when unset, else the parse or its message.
pub open spec fn int_setting(name: Seq<char>, kind: Seq<char>, v: Option<String>, default: int, min: int, max: int) -> Result<int, Seq<char>> {
    match v {
        None => Ok(default),
        Some(s) => match int_outcome(s@, min, max) {
            Ok(x) => Ok(x),
            Err(f) => Err(name + " is not a valid "@ + kind + ": "@ + failure_text(f)),
        },
    }
}

fn int_setting_exec(name: &str, kind: &str, v: &Option<String>, default: i64, min: i64, max: i64) -> (r: Result<i64, String>)
    requires
        min <= 0 < max,
        min <= default <= max,
    ensures
        match int_setting(name@, kind@, *v, default as int, min as int, max as int) {
            Ok(x) => r == Ok::<i64, String>(x as i64),
            Err(m) => r matches Err(e) && e@ == m,
        },
{
    match v {
        None => Ok(default),
        Some(s) => match parse_int_text(s.as_str(), min, max) {
            Ok(x) => Ok(x),
            Err(f) => {
                let mut m = owned(name);
                m.append(" is not a valid ");
                m.append(kind);
                m.append(": ");
                let t = failure_message(f);
                m.append(t.as_str());
                Err(m)
            },
        },
    }
}

impl Config {
    /// Builds the configuration from the environment's values; only a blank
    /// secret or an unreadable or malformed number is an error.
    pub fn from_values(env: ConfigEnv) -> (r: Result<Config, String>)
        ensures
            ({
                let secret = required_or_default_outcome(
                    "CHORUZ_SESSION_SECRET"@,
                    env.session_secret,
                    "choruz-local-session-secret"@,
                );
                let password = required_or_default_outcome(
                    "CHORUZ_OPERATOR_PASSWORD"@,
                    env.operator_password,
                    "choruz-local"@,
                );
                let ttl = int_setting(
                    "CHORUZ_SESSION_TTL_HOURS"@,
                    "integer"@,
                    env.session_ttl_hours,
                    87600,
                    i64::MIN as int,
                    i64::MAX as int,
                );
                let port = int_setting(
                    "CHORUZ_API_PORT"@,
                    "u16"@,
                    env.api_port,
                    3000,
                    0,
                    65535,
                );
                match (secret, password, ttl, port) {
                    (Err(m), _, _, _) => r matches Err(x) && x@ == m,
                    (Ok(_), Err(m), _, _) => r matches Err(x) && x@ == m,
                    (Ok(_), Ok(_), Err(m), _) => r matches Err(x) && x@ == m,
                    (Ok(_), Ok(_), Ok(_), Err(m)) => r matches Err(x) && x@ == m,
                    (Ok(s), Ok(p), Ok(t), Ok(n)) => r matches Ok(c) && {
                        &&& c.session_secret@ == s
                        &&& c.operator_password@ == p
                        &&& c.session_ttl_hours == t
                        &&& c.api_port == n
                        &&& c.env_name@ == or_default(env.env_name, "development"@)
                        &&& c.api_host@ == or_default(env.api_host, "127.0.0.1"@)
                        &&& c.attachment_dir@ == or_default(
                            env.attachment_dir,
                            ".choruz-runtime/attachments"@,
                        )
                        &&& c.agent_tokens_file@ == or_default(
                            env.agent_tokens_file,
                            ".choruz-runtime/agent_tokens.json"@,
                        )
                        &&& c.operator_workspace@ == or_default(env.operator_workspace, "ws-local"@)
                        &&& c.operator_user@ == or_default(env.operator_user, "operator"@)
                    },
                }
            }),
    {
        let env_name = value_or(env.env_name, "development");
        let session_secret = required_or_default_value(
            "CHORUZ_SESSION_SECRET",
            env.session_secret,
            "choruz-local-session-secret",
        )?;
        let operator_password = required_or_default_value(
            "CHORUZ_OPERATOR_PASSWORD",
            env.operator_password,
            "choruz-local",
        )?;
        let session_ttl_hours = int_setting_exec(
            "CHORUZ_SESSION_TTL_HOURS",
            "integer",
            &env.session_ttl_hours,
            87600,
            i64::MIN,
            i64::MAX,
        )?;
        let port = int_setting_exec("CHORUZ_API_PORT", "u16", &env.api_port, 3000, 0, 65535)?;
        Ok(Config {
            api_port: port as u16,
            api_host: value_or(env.api_host, "127.0.0.1"),
            attachment_dir: value_or(env.attachment_dir, ".choruz-runtime/attachments"),
            agent_tokens_file: value_or(env.agent_tokens_file, ".choruz-runtime/agent_tokens.json"),
            env_name,
            session_secret,
            operator_password,
            operator_workspace: value_or(env.operator_workspace, "ws-local"),
            operator_user: value_or(env.operator_user, "operator"),
            session_ttl_hours,
        })
    }

    /// In production the development secrets are refused: the message to
    /// print before exiting, if any.
    pub fn production_violation(&self) -> (r: Option<String>)
        ensures
            self.env_name@ != "production"@ ==> r is None,
            self.env_name@ == "production"@ ==> (if self.session_secret@
                == "choruz-local-session-secret"@ {
                r matches Some(m) && m@
                    == "FATAL: CHORUZ_SESSION_SECRET must be set when CHORUZ_ENV=production"@
            } else if self.operator_password@ == "choruz-local"@ {
                r matches Some(m) && m@
                    == "FATAL: CHORUZ_OPERATOR_PASSWORD must be set when CHORUZ_ENV=production"@
            } else {
                r is None
            }),
    {
        let e = chars_of(self.env_name.as_str());
        if !crate::text::chars_eq_str(e.as_slice(), "production") {
            return None;
        }
        let s = chars_of(self.session_secret.as_str());
        if crate::text::chars_eq_str(s.as_slice(), "choruz-local-session-secret") {
            return Some(owned("FATAL: CHORUZ_SESSION_SECRET must be set when CHORUZ_ENV=production"));
        }
        let p = chars_of(self.operator_password.as_str());
        if crate::text::chars_eq_str(p.as_slice(), "choruz-local") {
            return Some(
                owned("FATAL: CHORUZ_OPERATOR_PASSWORD must be set when CHORUZ_ENV=production"),
            );
        }
        None
    }
}

} // verus!
