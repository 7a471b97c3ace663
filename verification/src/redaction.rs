//! Error values of the gateway and the redaction of secrets from any text
//! that leaves the process (error details, telemetry strings).
use vstd::prelude::*;
use crate::text::{
    chars_of, char_is_ws, first_occurrence, find_first_from, is_ws, leading_ws,
    lemma_leading_ws_bound, starts_with, string_from_chars, sub_chars,
};

verus! {

/// Errors reported by the gateway, mirrored from the shared application error type.
#[derive(Debug, Clone)]
pub enum AppError {
    Unauthorized(String),
    NotFound(String),
    Conflict(String),
    Validation(String),
    Forbidden(String),
    RateLimited { retry_after_ms: u64 },
    Internal(String),
}

/// HTTP status code answered for each error.
pub open spec fn status_of(e: AppError) -> u16 {
    match e {
        AppError::Unauthorized(_) => 401,
        AppError::NotFound(_) => 404,
        AppError::Conflict(_) => 409,
        AppError::Validation(_) => 400,
        AppError::Forbidden(_) => 403,
        AppError::RateLimited { .. } => 429,
        AppError::Internal(_) => 500,
    }
}

/// The HTTP status code of an error response.
pub fn error_status(e: &AppError) -> (code: u16)
    ensures
        code == status_of(*e),
{
    match e {
        AppError::Unauthorized(_) => 401,
        AppError::NotFound(_) => 404,
        AppError::Conflict(_) => 409,
        AppError::Validation(_) => 400,
        AppError::Forbidden(_) => 403,
        AppError::RateLimited { .. } => 429,
        AppError::Internal(_) => 500,
    }
}

/// The `retry-after` header of an error response: for a rate-limited
/// request, the delay in whole seconds, rounded up; no header otherwise.
pub fn retry_after_header(e: &AppError) -> (r: Option<String>)
    ensures
        match *e {
            AppError::RateLimited { retry_after_ms } => r matches Some(h) && h@ == crate::text::decimal(
                ((retry_after_ms as int + 999) / 1000) as nat,
            ),
            _ => r is None,
        },
{
    match e {
        AppError::RateLimited { retry_after_ms } => {
            let ms = *retry_after_ms;
            let secs: u64 = ms / 1000 + if ms % 1000 == 0 { 0 } else { 1 };
            assert(secs == (ms as int + 999) / 1000) by (nonlinear_arith)
                requires
                    secs == ms / 1000 + if ms % 1000 == 0 { 0int } else { 1int },
            ;
            Some(crate::text::u64_to_decimal(secs))
        },
        _ => None,
    }
}

/// Characters that end a redacted value.
pub open spec fn ends_value(c: char) -> bool {
    is_ws(c) || c == '"' || c == '\'' || c == ',' || c == ')' || c == '}' || c == ']'
}

/// First position at or after `i` that ends a value (`s.len()` when none does).
pub open spec fn value_end(s: Seq<char>, i: int) -> int
    decreases s.len() - i,
{
    if i >= s.len() {
        s.len() as int
    } else if ends_value(s[i]) {
        i
    } else {
        value_end(s, i + 1)
    }
}

pub proof fn lemma_value_end(s: Seq<char>, i: int)
    requires
        0 <= i <= s.len(),
    ensures
        i <= value_end(s, i) <= s.len(),
    decreases s.len() - i,
{
    if i < s.len() && !ends_value(s[i]) {
        lemma_value_end(s, i + 1);
    }
}

/// Text from `cursor` on with every value after `marker` replaced by `[REDACTED]`.
pub open spec fn redact_from(s: Seq<char>, marker: Seq<char>, cursor: int) -> Seq<char>
    decreases s.len() - cursor,
{
    if marker.len() == 0 || cursor < 0 || cursor > s.len() {
        s.skip(cursor)
    } else {
        match first_occurrence(s, marker, cursor) {
            Some(start) => {
                let value_start = start + marker.len();
                let after_ws = value_start + leading_ws(s.skip(value_start));
                let end = value_end(s, after_ws);
                if start < cursor || end <= cursor || end > s.len() {
                    s.skip(cursor)
                } else {
                    s.subrange(cursor, value_start) + "[REDACTED]"@ + redact_from(s, marker, end)
                }
            },
            None => s.skip(cursor),
        }
    }
}

proof fn lemma_first_occurrence_bounds(s: Seq<char>, m: Seq<char>, i: int)
    requires
        0 <= i,
    ensures
        match first_occurrence(s, m, i) {
            Some(k) => i <= k && k + m.len() <= s.len(),
            None => true,
        },
    decreases s.len() + 1 - i,
{
    if i <= s.len() && !crate::text::occurs_at(s, m, i) {
        lemma_first_occurrence_bounds(s, m, i + 1);
    }
}

/// First position at or after `i` that ends a value.
fn value_end_exec(v: &[char], i: usize) -> (r: usize)
    requires
        i <= v.len(),
    ensures
        r == value_end(v@, i as int),
{
    let mut j = i;
    while j < v.len() && !(char_is_ws(v[j]) || v[j] == '"' || v[j] == '\'' || v[j] == ','
        || v[j] == ')' || v[j] == '}' || v[j] == ']')
        invariant
            i <= j <= v.len(),
            value_end(v@, i as int) == value_end(v@, j as int),
        decreases v.len() - j,
    {
        j = j + 1;
    }
    j
}

/// Replaces the value that follows each occurrence of `marker` with `[REDACTED]`.
pub fn redact_after_marker(input: &str, marker: &str) -> (r: String)
    requires
        marker@.len() > 0,
    ensures
        r@ == redact_from(input@, marker@, 0),
{
    let v = chars_of(input);
    let m = chars_of(marker);
    let mut out: Vec<char> = Vec::new();
    let mut cursor: usize = 0;
    while cursor <= v.len()
        invariant
            cursor <= v.len(),
            m@.len() > 0,
            v@ == input@,
            m@ == marker@,
            out@ + redact_from(v@, m@, cursor as int) == redact_from(v@, m@, 0),
        decreases v.len() - cursor,
    {
        proof {
            lemma_first_occurrence_bounds(v@, m@, cursor as int);
        }
        match find_first_from(v.as_slice(), m.as_slice(), cursor) {
            Some(start) => {
                let value_start = start + m.len();
                let mut after = value_start;
                while after < v.len() && char_is_ws(v[after])
                    invariant
                        value_start <= after <= v.len(),
                        forall|j: int| value_start <= j < after ==> is_ws(#[trigger] v@[j]),
                    decreases v.len() - after,
                {
                    after = after + 1;
                }
                proof {
                    let t = v@.skip(value_start as int);
                    assert forall|j: int| 0 <= j < after - value_start implies is_ws(#[trigger] t[j]) by {
                        assert(t[j] == v@[value_start + j]);
                    }
                    if after < v.len() {
                        assert(t[after - value_start] == v@[after as int]);
                    }
                    crate::text::lemma_leading_ws_is(t, after - value_start);
                }
                let end = value_end_exec(v.as_slice(), after);
                proof {
                    lemma_value_end(v@, after as int);
                }
                let piece = sub_chars(v.as_slice(), cursor, value_start);
                let ghost before = out@;
                let mut k: usize = 0;
                while k < piece.len()
                    invariant
                        k <= piece.len(),
                        out@ == before + piece@.take(k as int),
                    decreases piece.len() - k,
                {
                    out.push(piece[k]);
                    assert(piece@.take(k + 1) =~= piece@.take(k as int).push(piece@[k as int]));
                    k = k + 1;
                }
                let red = chars_of("[REDACTED]");
                let ghost mid = out@;
                let mut k2: usize = 0;
                while k2 < red.len()
                    invariant
                        k2 <= red.len(),
                        out@ == mid + red@.take(k2 as int),
                    decreases red.len() - k2,
                {
                    out.push(red[k2]);
                    assert(red@.take(k2 + 1) =~= red@.take(k2 as int).push(red@[k2 as int]));
                    k2 = k2 + 1;
                }
                proof {
                    assert(piece@.take(piece@.len() as int) =~= piece@);
                    assert(red@.take(red@.len() as int) =~= red@);
                    assert(out@ =~= before + (v@.subrange(cursor as int, value_start as int)
                        + "[REDACTED]"@));
                    assert(redact_from(v@, m@, cursor as int) == v@.subrange(
                        cursor as int,
                        value_start as int,
                    ) + "[REDACTED]"@ + redact_from(v@, m@, end as int));
                    assert(out@ + redact_from(v@, m@, end as int) =~= before + redact_from(
                        v@,
                        m@,
                        cursor as int,
                    ));
                }
                cursor = end;
            },
            None => {
                let tail = sub_chars(v.as_slice(), cursor, v.len());
                let ghost before = out@;
                let mut k: usize = 0;
                while k < tail.len()
                    invariant
                        k <= tail.len(),
                        out@ == before + tail@.take(k as int),
                    decreases tail.len() - k,
                {
                    out.push(tail[k]);
                    assert(tail@.take(k + 1) =~= tail@.take(k as int).push(tail@[k as int]));
                    k = k + 1;
                }
                proof {
                    assert(tail@.take(tail@.len() as int) =~= tail@);
                    assert(tail@ =~= v@.skip(cursor as int));
                    assert(redact_from(v@, m@, cursor as int) == v@.skip(cursor as int));
                    assert(out@ =~= redact_from(v@, m@, 0));
                }
                return string_from_chars(out.as_slice());
            },
        }
    }
    string_from_chars(out.as_slice())
}

/// The markers after which a value is treated as a secret, in the order they are applied.
pub open spec fn redaction_markers() -> Seq<Seq<char>> {
    seq![
        "Bearer "@,
        "bearer "@,
        "secret="@,
        "secret:"@,
        "token="@,
        "token:"@,
        "password="@,
        "password:"@,
    ]
}

/// Applies the markers from index `i` on.
pub open spec fn redact_all_from(s: Seq<char>, i: int) -> Seq<char>
    decreases 8 - i,
{
    if i < 0 || i >= 8 {
        s
    } else {
        redact_all_from(redact_from(s, redaction_markers()[i], 0), i + 1)
    }
}

/// Redacts bearer tokens, secrets, tokens and passwords from free text.
pub open spec fn redacted(s: Seq<char>) -> Seq<char> {
    redact_all_from(s, 0)
}

/// Redacts bearer tokens, secrets, tokens and passwords from free text.
pub fn redact_sensitive_text(input: &str) -> (r: String)
    ensures
        r@ == redacted(input@),
{
    proof {
        reveal_strlit("Bearer ");
        reveal_strlit("bearer ");
        reveal_strlit("secret=");
        reveal_strlit("secret:");
        reveal_strlit("token=");
        reveal_strlit("token:");
        reveal_strlit("password=");
        reveal_strlit("password:");
    }
    let r0 = redact_after_marker(input, "Bearer ");
    let r1 = redact_after_marker(r0.as_str(), "bearer ");
    let r2 = redact_after_marker(r1.as_str(), "secret=");
    let r3 = redact_after_marker(r2.as_str(), "secret:");
    let r4 = redact_after_marker(r3.as_str(), "token=");
    let r5 = redact_after_marker(r4.as_str(), "token:");
    let r6 = redact_after_marker(r5.as_str(), "password=");
    let r7 = redact_after_marker(r6.as_str(), "password:");
    proof {
        let s = input@;
        let ms = redaction_markers();
        assert(redact_all_from(s, 0) == redact_all_from(redact_from(s, ms[0], 0), 1));
        assert(redact_all_from(r0@, 1) == redact_all_from(redact_from(r0@, ms[1], 0), 2));
        assert(redact_all_from(r1@, 2) == redact_all_from(redact_from(r1@, ms[2], 0), 3));
        assert(redact_all_from(r2@, 3) == redact_all_from(redact_from(r2@, ms[3], 0), 4));
        assert(redact_all_from(r3@, 4) == redact_all_from(redact_from(r3@, ms[4], 0), 5));
        assert(redact_all_from(r4@, 5) == redact_all_from(redact_from(r4@, ms[5], 0), 6));
        assert(redact_all_from(r5@, 6) == redact_all_from(redact_from(r5@, ms[6], 0), 7));
        assert(redact_all_from(r6@, 7) == redact_all_from(redact_from(r6@, ms[7], 0), 8));
    }
    r7
}

/// The detail text of an error (a rate limit carries none).
pub open spec fn detail_of(e: AppError) -> Option<Seq<char>> {
    match e {
        AppError::Unauthorized(d) => Some(d@),
        AppError::NotFound(d) => Some(d@),
        AppError::Conflict(d) => Some(d@),
        AppError::Validation(d) => Some(d@),
        AppError::Forbidden(d) => Some(d@),
        AppError::Internal(d) => Some(d@),
        AppError::RateLimited { .. } => None,
    }
}

pub open spec fn same_kind(a: AppError, b: AppError) -> bool {
    match (a, b) {
        (AppError::Unauthorized(_), AppError::Unauthorized(_)) => true,
        (AppError::NotFound(_), AppError::NotFound(_)) => true,
        (AppError::Conflict(_), AppError::Conflict(_)) => true,
        (AppError::Validation(_), AppError::Validation(_)) => true,
        (AppError::Forbidden(_), AppError::Forbidden(_)) => true,
        (AppError::Internal(_), AppError::Internal(_)) => true,
        (AppError::RateLimited { retry_after_ms: x }, AppError::RateLimited { retry_after_ms: y }) => x == y,
        _ => false,
    }
}

/// Redacts secrets from the detail of an error before it is answered.
pub fn sanitize_app_error(error: AppError) -> (r: AppError)
    ensures
        same_kind(error, r),
        match detail_of(error) {
            Some(d) => detail_of(r) == Some(redacted(d)),
            None => detail_of(r) is None,
        },
{
    match error {
        AppError::Unauthorized(d) => AppError::Unauthorized(redact_sensitive_text(d.as_str())),
        AppError::NotFound(d) => AppError::NotFound(redact_sensitive_text(d.as_str())),
        AppError::Conflict(d) => AppError::Conflict(redact_sensitive_text(d.as_str())),
        AppError::Validation(d) => AppError::Validation(redact_sensitive_text(d.as_str())),
        AppError::Forbidden(d) => AppError::Forbidden(redact_sensitive_text(d.as_str())),
        AppError::Internal(d) => AppError::Internal(redact_sensitive_text(d.as_str())),
        AppError::RateLimited { retry_after_ms } => AppError::RateLimited { retry_after_ms },
    }
}

/// The token of an `Authorization: Bearer <token>` header value.
pub fn bearer_token_value(header: Option<&str>) -> (r: Option<&str>)
    ensures
        match header {
            Some(h) => match r {
                Some(t) => starts_with(h@, "Bearer "@) && t@ == h@.skip(7),
                None => !starts_with(h@, "Bearer "@),
            },
            None => r is None,
        },
{
    proof {
        reveal_strlit("Bearer ");
    }
    match header {
        Some(h) => {
            let v = chars_of(h);
            let p = chars_of("Bearer ");
            if crate::text::starts_with_exec(v.as_slice(), p.as_slice()) {
                Some(h.substring_char(7, v.len()))
            } else {
                None
            }
        },
        None => None,
    }
}

/// The acting principal must be the one a request names as actor.
pub fn check_actor(principal_id: &str, actor_id: &str) -> (r: Result<(), AppError>)
    ensures
        r is Ok <==> principal_id@ == actor_id@,
        r matches Err(e) ==> e matches AppError::Unauthorized(m) && m@
            == "authenticated principal does not match actor_id"@,
{
    let a = chars_of(principal_id);
    let b = chars_of(actor_id);
    if crate::text::chars_eq(a.as_slice(), b.as_slice()) {
        Ok(())
    } else {
        Err(AppError::Unauthorized(crate::text::owned("authenticated principal does not match actor_id")))
    }
}

/// A principal may only read its own resources.
pub fn check_self(principal_id: &str, requested_id: &str) -> (r: Result<(), AppError>)
    ensures
        r is Ok <==> principal_id@ == requested_id@,
        r matches Err(e) ==> e matches AppError::Unauthorized(m) && m@
            == "authenticated principal does not match requested principal"@,
{
    let a = chars_of(principal_id);
    let b = chars_of(requested_id);
    if crate::text::chars_eq(a.as_slice(), b.as_slice()) {
        Ok(())
    } else {
        Err(
            AppError::Unauthorized(
                crate::text::owned("authenticated principal does not match requested principal"),
            ),
        )
    }
}

/// Control-plane endpoints are for people; agents are refused.
pub fn check_human_operator(is_human: bool) -> (r: Result<(), AppError>)
    ensures
        r is Ok <==> is_human,
        r matches Err(e) ==> e matches AppError::Forbidden(m) && m@
            == "only signed-in people can manage workspace agents"@,
{
    if is_human {
        Ok(())
    } else {
        Err(AppError::Forbidden(crate::text::owned("only signed-in people can manage workspace agents")))
    }
}

/// The media type of channel tasks from the product's former name, which is no longer accepted.
pub fn is_legacy_channel_task_media_type(content_type: &str) -> (r: bool)
    ensures
        r == (content_type@ == "application/vnd.echat.channel-task+json"@),
{
    let v = chars_of(content_type);
    crate::text::chars_eq_str(v.as_slice(), "application/vnd.echat.channel-task+json")
}


proof fn lemma_no_occurrence_from(s: Seq<char>, m: Seq<char>, i: int)
    requires
        0 <= i,
        !crate::text::contains(s, m),
    ensures
        first_occurrence(s, m, i) is None,
    decreases s.len() + 1 - i,
{
    if i <= s.len() {
        assert(!crate::text::occurs_at(s, m, i));
        lemma_no_occurrence_from(s, m, i + 1);
    }
}

proof fn lemma_kept_from(s: Seq<char>, i: int)
    requires
        0 <= i <= 8,
        forall|k: int| i <= k < 8 ==> !crate::text::contains(s, #[trigger] redaction_markers()[k]),
    ensures
        redact_all_from(s, i) == s,
    decreases 8 - i,
{
    if i < 8 {
        let m = redaction_markers()[i];
        lemma_no_occurrence_from(s, m, 0);
        assert(redact_from(s, m, 0) == s.skip(0));
        assert(s.skip(0) =~= s);
        lemma_kept_from(s, i + 1);
    }
}

/// Text in which no redaction marker occurs is left exactly as it is.
pub proof fn law_text_without_markers_is_kept(s: Seq<char>)
    requires
        forall|k: int| 0 <= k < 8 ==> !crate::text::contains(s, #[trigger] redaction_markers()[k]),
    ensures
        redacted(s) == s,
{
    lemma_kept_from(s, 0);
}

// ── What redaction keeps ────────────────────────────────────────────

/// How often `c` occurs in `s`.
pub open spec fn occurrences(s: Seq<char>, c: char) -> nat
    decreases s.len(),
{
    if s.len() == 0 {
        0
    } else {
        occurrences(s.drop_last(), c) + if s.last() == c {
            1nat
        } else {
            0nat
        }
    }
}

proof fn lemma_occurrences_concat(a: Seq<char>, b: Seq<char>, c: char)
    ensures
        occurrences(a + b, c) == occurrences(a, c) + occurrences(b, c),
    decreases b.len(),
{
    if b.len() > 0 {
        assert((a + b).drop_last() =~= a + b.drop_last());
        lemma_occurrences_concat(a, b.drop_last(), c);
    } else {
        assert(a + b =~= a);
    }
}

proof fn lemma_occurrences_none(s: Seq<char>, c: char)
    requires
        forall|j: int| 0 <= j < s.len() ==> s[j] != c,
    ensures
        occurrences(s, c) == 0,
    decreases s.len(),
{
    if s.len() > 0 {
        lemma_occurrences_none(s.drop_last(), c);
    }
}

proof fn lemma_value_end_skips(s: Seq<char>, i: int)
    requires
        0 <= i <= s.len(),
    ensures
        forall|j: int| i <= j < value_end(s, i) ==> !ends_value(#[trigger] s[j]),
    decreases s.len() - i,
{
    if i < s.len() && !ends_value(s[i]) {
        lemma_value_end_skips(s, i + 1);
    }
}

/// A value ends exactly at the first whitespace or `"`, `'`, `,`, `)`,
/// `}`, `]` at or after `i`: none of them is taken into the value, and the
/// value stops at the first one (or at the end of the text).
pub proof fn law_value_ends_at_the_first_delimiter(s: Seq<char>, i: int)
    requires
        0 <= i <= s.len(),
    ensures
        i <= value_end(s, i) <= s.len(),
        forall|j: int|
            i <= j < value_end(s, i) ==> !(is_ws(#[trigger] s[j]) || s[j] == '"' || s[j] == '\'' || s[j]
                == ',' || s[j] == ')' || s[j] == '}' || s[j] == ']'),
        value_end(s, i) < s.len() ==> {
            let c = s[value_end(s, i)];
            is_ws(c) || c == '"' || c == '\'' || c == ',' || c == ')' || c == '}' || c == ']'
        },
    decreases s.len() - i,
{
    lemma_value_end(s, i);
    lemma_value_end_skips(s, i);
    if i < s.len() && !ends_value(s[i]) {
        law_value_ends_at_the_first_delimiter(s, i + 1);
    }
}

proof fn lemma_redact_from_keeps(s: Seq<char>, m: Seq<char>, cursor: int, c: char)
    requires
        0 <= cursor <= s.len(),
        ends_value(c),
        !is_ws(c),
        forall|j: int| 0 <= j < "[REDACTED]"@.len() ==> "[REDACTED]"@[j] != c,
    ensures
        occurrences(redact_from(s, m, cursor), c) == occurrences(s.skip(cursor), c),
    decreases s.len() - cursor,
{
    if m.len() == 0 {
    } else {
        match first_occurrence(s, m, cursor) {
            Some(start) => {
                lemma_first_occurrence_bounds(s, m, cursor);
                let value_start = start + m.len();
                let t = s.skip(value_start);
                lemma_leading_ws_bound(t);
                let after_ws = value_start + leading_ws(t);
                lemma_value_end(s, after_ws);
                let end = value_end(s, after_ws);
                if start < cursor || end <= cursor || end > s.len() {
                } else {
                    lemma_value_end_skips(s, after_ws);
                    let head = s.subrange(cursor, value_start);
                    let gone = s.subrange(value_start, end);
                    assert(s.skip(cursor) =~= head + gone + s.skip(end));
                    assert forall|j: int| 0 <= j < gone.len() implies gone[j] != c by {
                        assert(gone[j] == s[value_start + j]);
                        if value_start + j < after_ws {
                            assert(t[j] == s[value_start + j]);
                            assert(is_ws(t[j]));
                        } else {
                            assert(!ends_value(s[value_start + j]));
                        }
                    }
                    lemma_occurrences_none(gone, c);
                    lemma_occurrences_none("[REDACTED]"@, c);
                    lemma_redact_from_keeps(s, m, end, c);
                    lemma_occurrences_concat(head + gone, s.skip(end), c);
                    lemma_occurrences_concat(head, gone, c);
                    lemma_occurrences_concat(head + "[REDACTED]"@, redact_from(s, m, end), c);
                    lemma_occurrences_concat(head, "[REDACTED]"@, c);
                }
            },
            None => {},
        }
    }
}

proof fn lemma_redact_all_keeps(s: Seq<char>, i: int, c: char)
    requires
        ends_value(c),
        !is_ws(c),
        forall|j: int| 0 <= j < "[REDACTED]"@.len() ==> "[REDACTED]"@[j] != c,
    ensures
        occurrences(redact_all_from(s, i), c) == occurrences(s, c),
    decreases 8 - i,
{
    if 0 <= i < 8 {
        let r = redact_from(s, redaction_markers()[i], 0);
        lemma_redact_from_keeps(s, redaction_markers()[i], 0, c);
        assert(s.skip(0) =~= s);
        lemma_redact_all_keeps(r, i + 1, c);
    }
}

/// Redaction removes only the secret values themselves: every `)`, `}`,
/// `,`, `"` and `'` of the text is still there afterwards, as often as
/// before, since a value ends at the first of them (and `[REDACTED]` holds
/// none of them). So `(token=abc)` keeps its closing parenthesis.
pub proof fn law_redaction_keeps_closing_delimiters(s: Seq<char>)
    ensures
        occurrences(redacted(s), ')') == occurrences(s, ')'),
        occurrences(redacted(s), '}') == occurrences(s, '}'),
        occurrences(redacted(s), ',') == occurrences(s, ','),
        occurrences(redacted(s), '"') == occurrences(s, '"'),
        occurrences(redacted(s), '\'') == occurrences(s, '\''),
{
    reveal_strlit("[REDACTED]");
    assert(!is_ws(')') && !is_ws('}') && !is_ws(',') && !is_ws('"') && !is_ws('\''));
    lemma_redact_all_keeps(s, 0, ')');
    lemma_redact_all_keeps(s, 0, '}');
    lemma_redact_all_keeps(s, 0, ',');
    lemma_redact_all_keeps(s, 0, '"');
    lemma_redact_all_keeps(s, 0, '\'');
}

/// The texts after which a secret follows: `Bearer `, `bearer `, `secret=`,
/// `secret:`, `token=`, `token:`, `password=` and `password:`.
pub open spec fn secret_marker(x: Seq<char>) -> bool {
    ||| x == "Bearer "@
    ||| x == "bearer "@
    ||| x == "secret="@
    ||| x == "secret:"@
    ||| x == "token="@
    ||| x == "token:"@
    ||| x == "password="@
    ||| x == "password:"@
}

proof fn lemma_markers_listed()
    ensures
        forall|k: int| 0 <= k < 8 ==> secret_marker(#[trigger] redaction_markers()[k]),
        forall|i: int, j: int|
            0 <= i < 8 && 0 <= j < 8 && i != j ==> #[trigger] redaction_markers()[i] != #[trigger] redaction_markers()[j],
{
    reveal_strlit("Bearer ");
    reveal_strlit("bearer ");
    reveal_strlit("secret=");
    reveal_strlit("secret:");
    reveal_strlit("token=");
    reveal_strlit("token:");
    reveal_strlit("password=");
    reveal_strlit("password:");
    let ms = redaction_markers();
    assert(ms[0] == "Bearer "@);
    assert(ms[1] == "bearer "@);
    assert(ms[2] == "secret="@);
    assert(ms[3] == "secret:"@);
    assert(ms[4] == "token="@);
    assert(ms[5] == "token:"@);
    assert(ms[6] == "password="@);
    assert(ms[7] == "password:"@);
    assert forall|i: int, j: int|
        0 <= i < 8 && 0 <= j < 8 && i != j implies #[trigger] ms[i] != #[trigger] ms[j] by {
        if ms[i] == ms[j] {
            assert(ms[i].len() == ms[j].len());
            assert(ms[i][0] == ms[j][0]);
            assert(ms[i][ms[i].len() - 1] == ms[j][ms[j].len() - 1]);
        }
    }
}

proof fn lemma_unmarked_pass(s: Seq<char>, m: Seq<char>)
    requires
        !crate::text::contains(s, m),
    ensures
        redact_from(s, m, 0) == s,
{
    lemma_no_occurrence_from(s, m, 0);
    assert(s.skip(0) =~= s);
}

proof fn lemma_passes_without_markers(s: Seq<char>, i: int, j: int)
    requires
        0 <= i <= j <= 8,
        forall|k: int| i <= k < j ==> !crate::text::contains(s, #[trigger] redaction_markers()[k]),
    ensures
        redact_all_from(s, i) == redact_all_from(s, j),
    decreases j - i,
{
    if i < j {
        lemma_unmarked_pass(s, redaction_markers()[i]);
        lemma_passes_without_markers(s, i + 1, j);
    }
}

proof fn lemma_value_end_is(s: Seq<char>, i: int, e: int)
    requires
        0 <= i <= e <= s.len(),
        forall|j: int| i <= j < e ==> !ends_value(#[trigger] s[j]),
        e < s.len() ==> ends_value(s[e]),
    ensures
        value_end(s, i) == e,
    decreases e - i,
{
    if i < e {
        lemma_value_end_is(s, i + 1, e);
    }
}

/// A secret that follows one of the markers is replaced by `[REDACTED]`
/// and nothing else changes: in a text `a + m + v + rest`, where `m` is a
/// marker occurring only there, the value `v` holds no whitespace and none
/// of `"`, `'`, `,`, `)`, `}`, `]`, and `rest` starts with one of them (or
/// is empty), and no other marker occurs before or after the replacement,
/// the redacted text is `a + m + "[REDACTED]" + rest`.
pub proof fn law_a_secret_after_a_marker_is_replaced(a: Seq<char>, m: Seq<char>, v: Seq<char>, rest: Seq<char>)
    requires
        secret_marker(m),
        v.len() > 0,
        forall|j: int|
            0 <= j < v.len() ==> !(is_ws(#[trigger] v[j]) || v[j] == '"' || v[j] == '\'' || v[j] == ','
                || v[j] == ')' || v[j] == '}' || v[j] == ']'),
        rest.len() > 0 ==> (is_ws(rest[0]) || rest[0] == '"' || rest[0] == '\'' || rest[0] == ','
            || rest[0] == ')' || rest[0] == '}' || rest[0] == ']'),
        forall|p: int| crate::text::occurs_at(a + m + v + rest, m, p) ==> p == a.len(),
        forall|x: Seq<char>|
            secret_marker(x) && x != m ==> !crate::text::contains(a + m + v + rest, x)
                && !crate::text::contains(a + m + "[REDACTED]"@ + rest, x),
    ensures
        redacted(a + m + v + rest) == a + m + "[REDACTED]"@ + rest,
{
    lemma_markers_listed();
    let ms = redaction_markers();
    let s = a + m + v + rest;
    let t = a + m + "[REDACTED]"@ + rest;
    let k0: int = if m == ms[0] {
        0
    } else if m == ms[1] {
        1
    } else if m == ms[2] {
        2
    } else if m == ms[3] {
        3
    } else if m == ms[4] {
        4
    } else if m == ms[5] {
        5
    } else if m == ms[6] {
        6
    } else {
        7
    };
    reveal_strlit("Bearer ");
    reveal_strlit("bearer ");
    reveal_strlit("secret=");
    reveal_strlit("secret:");
    reveal_strlit("token=");
    reveal_strlit("token:");
    reveal_strlit("password=");
    reveal_strlit("password:");
    assert(ms[k0] == m);
    assert forall|k: int| 0 <= k < 8 && k != k0 implies !crate::text::contains(s, #[trigger] ms[k])
        && !crate::text::contains(t, ms[k]) by {
        assert(secret_marker(ms[k]));
        assert(ms[k] != ms[k0]);
    }
    lemma_passes_without_markers(s, 0, k0);
    // The pass for `m` itself.
    let start = a.len() as int;
    let value_start = start + m.len();
    assert(s.subrange(start, value_start) =~= m);
    assert(crate::text::occurs_at(s, m, start));
    crate::text::lemma_first_occurrence_is(s, m, 0, Some(start));
    let tail = s.skip(value_start);
    assert(tail =~= v + rest);
    assert(tail[0] == v[0]);
    crate::text::lemma_leading_ws_is(tail, 0);
    let end = value_start + v.len();
    assert forall|j: int| value_start <= j < end implies !ends_value(#[trigger] s[j]) by {
        assert(s[j] == v[j - value_start]);
    }
    if end < s.len() {
        assert(s[end] == rest[0]);
    }
    lemma_value_end_is(s, value_start, end);
    assert forall|p: int| end <= p implies !crate::text::occurs_at(s, m, p) by {}
    crate::text::lemma_first_occurrence_is(s, m, end, None);
    assert(s.skip(end) =~= rest);
    assert(s.subrange(0, value_start) =~= a + m);
    assert(m.len() > 0);
    assert(leading_ws(s.skip(value_start)) == 0);
    assert(value_end(s, value_start + leading_ws(s.skip(value_start))) == end);
    assert(redact_from(s, m, end) == s.skip(end));
    assert(redact_from(s, m, 0) == s.subrange(0, value_start) + "[REDACTED]"@ + redact_from(s, m, end));
    assert(a + m + "[REDACTED]"@ + rest =~= (a + m) + "[REDACTED]"@ + rest);
    assert(redact_from(s, m, 0) == t);
    lemma_kept_from(t, k0 + 1);
}

/// Each error is answered with its HTTP status, whatever its message:
/// 401 unauthorized, 403 forbidden, 404 not found, 409 conflict, 400 for
/// validation, 429 when rate-limited and 500 for an internal error.
pub proof fn law_error_statuses(e: AppError)
    ensures
        e is Unauthorized ==> status_of(e) == 401,
        e is Forbidden ==> status_of(e) == 403,
        e is NotFound ==> status_of(e) == 404,
        e is Conflict ==> status_of(e) == 409,
        e is Validation ==> status_of(e) == 400,
        e is RateLimited ==> status_of(e) == 429,
        e is Internal ==> status_of(e) == 500,
{
}
} // verus!
