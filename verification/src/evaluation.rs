//! Evaluations of learned guidance: the identity of the terminal context a
//! case runs in, and how a finished case is reported.
use vstd::prelude::*;
use vstd::utf8::encode_utf8;
use crate::experience::{
    json_at, json_clone, json_eq, json_get, json_text, json_to_string, lemma_json_eq_symm,
    lemma_json_eq_text, lemma_json_eq_trans,
};
use crate::host_onboarding::{sha256, sha256_digest};
use crate::redaction::AppError;
use crate::remote_control::{hex_encode, hex_lower};
use crate::runtime_bindings::is_string;
use crate::json_map::{keys_sorted, map_insert};
use crate::telemetry::{find_member, member, member_index, JsonValue};
use crate::text::{bytes_of, concat2, decimal, owned, trim, trim_str, chars_of, u64_to_decimal};

verus! {

/// The parts of a terminal launch that decide which agent context a
/// guidance evaluation measures.
#[derive(Debug)]
pub struct TerminalIdentity {
    /// The driver's name, as it serializes.
    pub driver_type: String,
    pub model: Option<String>,
    pub binary_path: Option<String>,
    pub workspace_path: String,
    /// The harness account the terminal runs under, as JSON.
    pub harness_account: JsonValue,
}

pub open spec fn opt_json(o: Option<String>, v: JsonValue) -> bool {
    match o {
        Some(s) => is_string(v, s@),
        None => v is Null,
    }
}

/// The evaluation context of a terminal, as JSON: account, binary, driver,
/// host, model, profile and workspace (members sorted by name).
pub open spec fn context_json(spec: TerminalIdentity, v: JsonValue) -> bool {
    let h = spec.harness_account;
    match v {
        JsonValue::Object(m) => {
            &&& m@.len() == 7
            &&& m@[0].0@ == "account"@ && json_eq(m@[0].1, json_at(h, "harness_account_id"@))
            &&& m@[1].0@ == "binary"@ && opt_json(spec.binary_path, m@[1].1)
            &&& m@[2].0@ == "driver"@ && is_string(m@[2].1, spec.driver_type@)
            &&& m@[3].0@ == "host"@ && json_eq(m@[3].1, json_at(h, "runtime_host_id"@))
            &&& m@[4].0@ == "model"@ && opt_json(spec.model, m@[4].1)
            &&& m@[5].0@ == "profile"@ && json_eq(m@[5].1, json_at(h, "harness_account_profile_kind"@))
            &&& m@[6].0@ == "workspace"@ && is_string(m@[6].1, spec.workspace_path@)
        },
        _ => false,
    }
}

/// An evaluation needs an explicit, non-blank model.
pub open spec fn has_explicit_model(spec: TerminalIdentity) -> bool {
    match spec.model {
        Some(m) => trim(m@).len() > 0,
        None => false,
    }
}

fn opt_string(o: &Option<String>) -> (r: JsonValue)
    ensures
        opt_json(*o, r),
{
    match o {
        Some(s) => JsonValue::Str(owned(s.as_str())),
        None => JsonValue::Null,
    }
}

fn clone_member(v: &JsonValue, key: &str) -> (r: JsonValue)
    ensures
        json_eq(r, json_at(*v, key@)),
{
    match json_get(v, key) {
        Some(x) => json_clone(x),
        None => JsonValue::Null,
    }
}

/// The fingerprint of the context a guidance evaluation runs in: lowercase
/// hex SHA-256 of the context's JSON text; refused without an explicit model.
pub fn fingerprint(spec: &TerminalIdentity) -> (r: Result<String, AppError>)
    ensures
        !has_explicit_model(*spec) ==> (r matches Err(e) && e matches AppError::Validation(m) && m@
            == "Select an explicit model before evaluating guidance"@),
        has_explicit_model(*spec) ==> (r matches Ok(f) && exists|c: JsonValue| context_json(*spec, c) && f@
            == hex_lower(sha256_digest(encode_utf8(json_text(c))))),
{
    let explicit = match &spec.model {
        Some(m) => chars_of(trim_str(m.as_str())).len() > 0,
        None => false,
    };
    if !explicit {
        return Err(AppError::Validation(owned("Select an explicit model before evaluating guidance")));
    }
    let h = &spec.harness_account;
    let mut m: Vec<(String, JsonValue)> = Vec::new();
    m.push((owned("account"), clone_member(h, "harness_account_id")));
    m.push((owned("binary"), opt_string(&spec.binary_path)));
    m.push((owned("driver"), JsonValue::Str(owned(spec.driver_type.as_str()))));
    m.push((owned("host"), clone_member(h, "runtime_host_id")));
    m.push((owned("model"), opt_string(&spec.model)));
    m.push((owned("profile"), clone_member(h, "harness_account_profile_kind")));
    m.push((owned("workspace"), JsonValue::Str(owned(spec.workspace_path.as_str()))));
    let context = JsonValue::Object(m);
    assert(context_json(*spec, context));
    let text = json_to_string(&context);
    let d = sha256(bytes_of(text.as_str()).as_slice());
    Ok(hex_encode(d.as_slice()))
}

/// A terminal has one evaluation context text, so one fingerprint: any two
/// contexts built for it have the same JSON text.
pub proof fn law_context_text_is_determined(spec: TerminalIdentity, a: JsonValue, b: JsonValue)
    requires
        context_json(spec, a),
        context_json(spec, b),
    ensures
        json_text(a) == json_text(b),
{
    match (a, b) {
        (JsonValue::Object(x), JsonValue::Object(y)) => {
            assert forall|i: int| 0 <= i < x@.len() implies (#[trigger] x@[i]).0@ == y@[i].0@ && json_eq(
                x@[i].1,
                y@[i].1,
            ) by {
                let h = spec.harness_account;
                if i == 0 || i == 3 || i == 5 {
                    let key: Seq<char> = if i == 0 {
                        "harness_account_id"@
                    } else if i == 3 {
                        "runtime_host_id"@
                    } else {
                        "harness_account_profile_kind"@
                    };
                    lemma_json_eq_symm(y@[i].1, json_at(h, key));
                    lemma_json_eq_trans(x@[i].1, json_at(h, key), y@[i].1);
                }
            }
            lemma_json_eq_text(a, b);
        },
        _ => {},
    }
}

/// The text hashed for an analyst's fingerprint: its context fingerprint
/// and the three prompt templates the analyst works with, `:` separated.
pub open spec fn analyst_message(fingerprint: Seq<char>, proposal: Seq<char>, application_review: Seq<char>, analysis: Seq<char>) -> Seq<char> {
    fingerprint + ":"@ + proposal + ":"@ + application_review + ":"@ + analysis
}

/// The fingerprint of an analyst: its context fingerprint bound to the
/// prompt templates, so that changing a template invalidates it.
pub fn analyst_fingerprint(spec: &TerminalIdentity, proposal: &str, application_review: &str, analysis: &str) -> (r: Result<String, AppError>)
    ensures
        !has_explicit_model(*spec) ==> (r matches Err(e) && e matches AppError::Validation(m) && m@
            == "Select an explicit model before evaluating guidance"@),
        has_explicit_model(*spec) ==> (r matches Ok(a) && exists|f: Seq<char>, c: JsonValue|
            context_json(*spec, c) && f == hex_lower(sha256_digest(encode_utf8(json_text(c)))) && a@
                == hex_lower(sha256_digest(encode_utf8(analyst_message(f, proposal@, application_review@, analysis@))))),
{
    let f = fingerprint(spec)?;
    let mut text = concat2(f.as_str(), ":");
    text.append(proposal);
    text.append(":");
    text.append(application_review);
    text.append(":");
    text.append(analysis);
    assert(text@ =~= analyst_message(f@, proposal@, application_review@, analysis@));
    let d = sha256(bytes_of(text.as_str()).as_slice());
    Ok(hex_encode(d.as_slice()))
}

/// The code a failed evaluation case is recorded with.
pub open spec fn error_code(e: AppError) -> Seq<char> {
    match e {
        AppError::Forbidden(_) | AppError::Unauthorized(_) | AppError::NotFound(_) => "access_revoked"@,
        AppError::Conflict(_) => "context_changed"@,
        _ => "execution_failed"@,
    }
}

/// Lost access, a changed context, or any other failure.
pub fn evaluation_error_code(error: &AppError) -> (r: &'static str)
    ensures
        r@ == error_code(*error),
{
    match error {
        AppError::Forbidden(_) | AppError::Unauthorized(_) | AppError::NotFound(_) => "access_revoked",
        AppError::Conflict(_) => "context_changed",
        _ => "execution_failed",
    }
}

/// `out` is the object `fields` with member `key` set to `value`: replaced
/// in place when present, else appended.
pub open spec fn with_member(fields: Seq<(String, JsonValue)>, key: Seq<char>, value: JsonValue, out: Seq<(String, JsonValue)>) -> bool {
    match member_index(fields, key) {
        Some(i) => out == fields.update(i, (fields[i].0, value)),
        None => out.len() == fields.len() + 1 && out.take(fields.len() as int) == fields
            && out[fields.len() as int].0@ == key && out[fields.len() as int].1 == value,
    }
}

proof fn lemma_member_index_same_keys(a: Seq<(String, JsonValue)>, b: Seq<(String, JsonValue)>, k: Seq<char>)
    requires
        a.len() == b.len(),
        forall|j: int| 0 <= j < a.len() ==> (#[trigger] a[j]).0@ == b[j].0@,
    ensures
        member_index(a, k) == member_index(b, k),
    decreases a.len(),
{
    if a.len() > 0 {
        assert forall|j: int| 0 <= j < a.drop_last().len() implies (#[trigger] a.drop_last()[j]).0@
            == b.drop_last()[j].0@ by {
            assert(a.drop_last()[j] == a[j] && b.drop_last()[j] == b[j]);
        }
        lemma_member_index_same_keys(a.drop_last(), b.drop_last(), k);
        assert(a.last() == a[a.len() - 1] && b.last() == b[b.len() - 1]);
    }
}

/// After `value[key] = v`, reading `key` gives `v` and every other member
/// reads as before.
pub proof fn lemma_with_member(fields: Seq<(String, JsonValue)>, key: Seq<char>, value: JsonValue, out: Seq<(String, JsonValue)>, k: Seq<char>)
    requires
        with_member(fields, key, value, out),
    ensures
        member(out, k) == (if k == key { Some(value) } else { member(fields, k) }),
{
    crate::telemetry::lemma_member_index_some(fields, key);
    match member_index(fields, key) {
        Some(i) => {
            assert forall|j: int| 0 <= j < out.len() implies (#[trigger] out[j]).0@ == fields[j].0@ by {}
            lemma_member_index_same_keys(out, fields, k);
            crate::telemetry::lemma_member_index_some(fields, k);
            match member_index(fields, k) {
                Some(j) => {
                    if k == key {
                        assert(j == i);
                    } else {
                        assert(j != i);
                        assert(out[j] == fields[j]);
                    }
                },
                None => {},
            }
        },
        None => {
            assert(out.drop_last() =~= fields);
            assert(out.last() == out[fields.len() as int]);
            if k == key {
                assert(member_index(out, k) == Some(fields.len() as int));
            } else {
                assert(member_index(out, k) == member_index(fields, k));
                match member_index(fields, k) {
                    Some(j) => {
                        crate::telemetry::lemma_member_index_some(fields, k);
                        assert(out[j] == fields[j]);
                    },
                    None => {},
                }
            }
        },
    }
}

/// `value[key] = v` on a JSON object.
pub fn set_member(fields: &mut Vec<(String, JsonValue)>, key: &str, value: JsonValue)
    ensures
        with_member(old(fields)@, key@, value, final(fields)@),
{
    match find_member(fields, key) {
        Some(i) => {
            let ghost before = fields@;
            let (k, _) = fields.remove(i);
            fields.insert(i, (k, value));
            assert(fields@ =~= before.update(i as int, (before[i as int].0, value)));
        },
        None => {
            let ghost before = fields@;
            fields.push((owned(key), value));
            assert(fields@.take(before.len() as int) =~= before);
        },
    }
}

/// Member `k` of the object a case's report starts from (the case's own
/// report, or `{"status":"failed"}`), as `found` reads it.
pub open spec fn base_member(report: Option<Vec<(String, JsonValue)>>, k: Seq<char>, found: Option<JsonValue>) -> bool {
    match report {
        Some(f) => found == member(f@, k),
        None => if k == "status"@ {
            found matches Some(v) && is_string(v, "failed"@)
        } else {
            found is None
        },
    }
}

/// The report of a finished evaluation case: the case's own report, or
/// `{"status":"failed"}`, with its ordinal, duration and, on failure, its
/// error code set; members stay in map order.
pub fn finish_report(report: Option<Vec<(String, JsonValue)>>, ordinal: u64, duration_ms: u64, error: Option<&AppError>) -> (r: JsonValue)
    requires
        report matches Some(f) ==> keys_sorted(f@),
    ensures
        r matches JsonValue::Object(f) && keys_sorted(f@) && (member(f@, "ordinal"@) matches Some(JsonValue::Number(n))
            && n@ == decimal(ordinal as nat)) && (member(f@, "duration_ms"@) matches Some(JsonValue::Number(n))
            && n@ == decimal(duration_ms as nat)) && match error {
            Some(e) => member(f@, "error_code"@) matches Some(JsonValue::Str(c)) && c@ == error_code(*e),
            None => base_member(report, "error_code"@, member(f@, "error_code"@)),
        } && forall|k: Seq<char>|
            #![trigger member(f@, k)]
            k != "ordinal"@ && k != "duration_ms"@ && k != "error_code"@ ==> base_member(report, k, member(f@, k)),
{
    proof {
        reveal_strlit("status");
        reveal_strlit("failed");
        reveal_strlit("ordinal");
        reveal_strlit("duration_ms");
        reveal_strlit("error_code");
        assert("ordinal"@.len() != "duration_ms"@.len());
        assert("ordinal"@.len() != "error_code"@.len());
        assert("duration_ms"@[0] != "error_code"@[0]);
    }
    let mut fields = match report {
        Some(f) => f,
        None => {
            let mut f: Vec<(String, JsonValue)> = Vec::new();
            f.push((owned("status"), JsonValue::Str(owned("failed"))));
            f
        },
    };
    let ghost base = fields@;
    proof {
        assert forall|k: Seq<char>| base_member(report, k, #[trigger] member(base, k)) by {
            if report is None {
                assert(keys_sorted(base));
                if k == "status"@ {
                    crate::json_map::lemma_member_at(base, k, 0);
                } else {
                    crate::json_map::lemma_member_absent(base, k);
                }
            }
        }
    }
    map_insert(&mut fields, owned("ordinal"), JsonValue::Number(u64_to_decimal(ordinal)));
    let ghost s1 = fields@;
    map_insert(&mut fields, owned("duration_ms"), JsonValue::Number(u64_to_decimal(duration_ms)));
    let ghost s2 = fields@;
    match error {
        Some(e) => {
            map_insert(&mut fields, owned("error_code"), JsonValue::Str(owned(evaluation_error_code(e))));
        },
        None => {},
    }
    proof {
        assert(member(fields@, "ordinal"@) == member(s2, "ordinal"@));
        assert(member(s2, "ordinal"@) == member(s1, "ordinal"@));
        assert(member(fields@, "duration_ms"@) == member(s2, "duration_ms"@));
        if error is None {
            assert(member(fields@, "error_code"@) == member(s2, "error_code"@));
            assert(member(s2, "error_code"@) == member(s1, "error_code"@));
            assert(member(s1, "error_code"@) == member(base, "error_code"@));
            assert(base_member(report, "error_code"@, member(base, "error_code"@)));
        }
        assert forall|k: Seq<char>|
            #![trigger member(fields@, k)]
            k != "ordinal"@ && k != "duration_ms"@ && k != "error_code"@ implies base_member(report, k, member(fields@, k)) by {
            assert(member(fields@, k) == member(s2, k));
            assert(member(s2, k) == member(s1, k));
            assert(member(s1, k) == member(base, k));
            assert(base_member(report, k, member(base, k)));
        }
    }
    JsonValue::Object(fields)
}

// ── Running a case ──────────────────────────────────────────────────

fn same(a: &str, b: &str) -> (r: bool)
    ensures
        r == (a@ == b@),
{
    crate::text::chars_eq(chars_of(a).as_slice(), chars_of(b).as_slice())
}

/// A case runs only in the context it was queued for.
pub fn check_context(current: &str, expected: &str) -> (r: Result<(), AppError>)
    ensures
        current@ == expected@ ==> r is Ok,
        current@ != expected@ ==> (r matches Err(e) && e matches AppError::Conflict(m) && m@
            == "Evaluation context changed"@),
{
    if !same(current, expected) {
        return Err(AppError::Conflict(owned("Evaluation context changed")));
    }
    Ok(())
}

/// An optimization needs its analyst, still in the context it was queued with.
pub fn check_analyst(analyst_binding_id: Option<&str>, current: Option<&str>, expected: Option<&str>) -> (r: Result<(), AppError>)
    ensures
        analyst_binding_id is None ==> (r matches Err(e) && e matches AppError::Validation(m) && m@
            == "Optimization analyst is missing"@),
        analyst_binding_id is Some && crate::workspace_sessions::opt_view(current) != crate::workspace_sessions::opt_view(expected) ==> (r matches Err(e)
            && e matches AppError::Conflict(m) && m@ == "Optimization analyst context changed"@),
        analyst_binding_id is Some && crate::workspace_sessions::opt_view(current) == crate::workspace_sessions::opt_view(expected) ==> r is Ok,
{
    if analyst_binding_id.is_none() {
        return Err(AppError::Validation(owned("Optimization analyst is missing")));
    }
    let equal = match (current, expected) {
        (Some(a), Some(b)) => same(a, b),
        (None, None) => true,
        _ => false,
    };
    if !equal {
        return Err(AppError::Conflict(owned("Optimization analyst context changed")));
    }
    Ok(())
}

/// A review's verdict counts only if neither context changed while it ran.
pub fn check_contexts_after_review(target_changed: bool, analyst_changed: bool) -> (r: Result<(), AppError>)
    ensures
        (target_changed || analyst_changed) ==> (r matches Err(e) && e matches AppError::Conflict(m) && m@
            == "Execution context changed during review"@),
        !(target_changed || analyst_changed) ==> r is Ok,
{
    if target_changed || analyst_changed {
        return Err(AppError::Conflict(owned("Execution context changed during review")));
    }
    Ok(())
}

/// The reference a review cites for the reviewed seed.
pub fn seed_reference(revision_id: &str) -> (r: String)
    ensures
        r@ == "reviewed-seed:"@ + revision_id@,
{
    concat2("reviewed-seed:", revision_id)
}

/// Every reference a review cites is the seed itself or one of the seed's
/// evidence references (`evidence.references`).
pub open spec fn cites_seed_evidence(cited: Seq<String>, seed: Seq<char>, evidence: JsonValue) -> bool {
    forall|i: int|
        0 <= i < cited.len() ==> (#[trigger] cited[i])@ == seed || match json_at(evidence, "references"@) {
            JsonValue::Array(refs) => exists|j: int| 0 <= j < refs@.len() && is_string(#[trigger] refs@[j], cited[i]@),
            _ => false,
        }
}

fn in_references(evidence: &JsonValue, r: &String) -> (b: bool)
    ensures
        b == match json_at(*evidence, "references"@) {
            JsonValue::Array(refs) => exists|j: int| 0 <= j < refs@.len() && is_string(#[trigger] refs@[j], r@),
            _ => false,
        },
{
    match json_get(evidence, "references") {
        Some(JsonValue::Array(refs)) => {
            let mut j: usize = 0;
            while j < refs.len()
                invariant
                    j <= refs@.len(),
                    json_at(*evidence, "references"@) == JsonValue::Array(*refs),
                    forall|k: int| 0 <= k < j ==> !is_string(#[trigger] refs@[k], r@),
                decreases refs.len() - j,
            {
                let hit = match &refs[j] {
                    JsonValue::Str(s) => same(s.as_str(), r.as_str()),
                    _ => false,
                };
                if hit {
                    assert(is_string(refs@[j as int], r@));
                    assert(json_at(*evidence, "references"@) matches JsonValue::Array(all)
                        && all@ == refs@);
                    return true;
                }
                j = j + 1;
            }
            false
        },
        _ => false,
    }
}

/// Whether a review cites only the seed and its evidence.
pub fn cites_only_seed_evidence(cited: &[String], seed: &str, evidence: &JsonValue) -> (r: bool)
    ensures
        r == cites_seed_evidence(cited@, seed@, *evidence),
{
    let mut i: usize = 0;
    while i < cited.len()
        invariant
            i <= cited@.len(),
            forall|k: int| 0 <= k < i ==> (#[trigger] cited@[k])@ == seed@ || match json_at(*evidence, "references"@) {
                JsonValue::Array(refs) => exists|j: int| 0 <= j < refs@.len() && is_string(#[trigger] refs@[j], cited@[k]@),
                _ => false,
            },
        decreases cited.len() - i,
    {
        if !same(cited[i].as_str(), seed) && !in_references(evidence, &cited[i]) {
            return false;
        }
        i = i + 1;
    }
    true
}

/// Which candidate and which case run next: candidates alternate on the
/// same case rather than running as two distant batches.
pub fn next_pair(next_case: usize, candidates: usize) -> (r: (usize, usize))
    requires
        candidates > 0,
    ensures
        r.0 == next_case % candidates,
        r.1 == next_case / candidates,
        r.0 < candidates,
{
    (next_case % candidates, next_case / candidates)
}

/// Longest evaluation output, in bytes.
pub const MAX_EVALUATION_OUTPUT_BYTES: usize = 16000;

/// The output of an evaluation run: a string of at most 16000 bytes.
pub fn evaluation_output(output: &JsonValue) -> (r: Result<String, AppError>)
    ensures
        match *output {
            JsonValue::Str(s) => if encode_utf8(s@).len() > MAX_EVALUATION_OUTPUT_BYTES {
                r matches Err(e) && e matches AppError::Validation(m) && m@ == "Evaluation output exceeds its limit"@
            } else {
                r matches Ok(x) && x@ == s@
            },
            _ => r matches Err(e) && e matches AppError::Validation(m) && m@ == "Invalid evaluation output"@,
        },
{
    match output {
        JsonValue::Str(s) => {
            if bytes_of(s.as_str()).len() > MAX_EVALUATION_OUTPUT_BYTES {
                return Err(AppError::Validation(owned("Evaluation output exceeds its limit")));
            }
            Ok(owned(s.as_str()))
        },
        _ => Err(AppError::Validation(owned("Invalid evaluation output"))),
    }
}

/// The revision an execution team is prepared for: the candidate's, else
/// the baseline.
pub fn team_revision(revision_id: Option<&str>) -> (r: String)
    ensures
        r@ == match revision_id {
            Some(x) => x@,
            None => "baseline"@,
        },
{
    match revision_id {
        Some(x) => owned(x),
        None => owned("baseline"),
    }
}


// ── What one evaluation step does ───────────────────────────────────

/// The next step of a guidance search, as the search state holds it.
#[derive(Debug, Clone, Copy, PartialEq, Eq, Structural)]
pub enum SearchStep {
    /// Run candidate `candidate` on case `case`.
    Evaluate { candidate: usize, case: usize },
    /// Ask the analyst for a new candidate.
    Propose,
}

/// What an evaluation claim runs once its context (and, when it searches,
/// its analyst) has been checked.
#[derive(Debug)]
pub enum EvaluationPlan {
    /// The search's winner is reviewed for application against the seeds,
    /// citing the reviewed seed by `seed_reference`.
    ApplicationReview { winner: usize, seed_reference: String },
    /// The search runs a candidate on a case.
    SearchEvaluate { candidate: usize, case: usize },
    /// The search asks for a new candidate.
    SearchPropose,
    /// A plain comparison runs candidate `candidate` on case `case`.
    Compare { candidate: usize, case: usize },
}

/// Decides what an evaluation claim runs. A search in its final review
/// needs its winner and the revision of the second seed (in that order); a
/// search otherwise needs a pending action; a plain comparison alternates
/// the candidates on each case.
pub fn plan_evaluation(
    searching: bool,
    final_review: bool,
    winner: Option<usize>,
    seed_revisions: &[Option<String>],
    pending: Option<SearchStep>,
    next_case: usize,
    candidates: usize,
) -> (r: Result<EvaluationPlan, AppError>)
    requires
        searching && final_review && winner is Some ==> seed_revisions@.len() >= 2,
        !searching ==> candidates > 0,
    ensures
        if searching {
            if final_review {
                match winner {
                    None => r matches Err(e) && e matches AppError::Validation(m) && m@ == "Missing winner"@,
                    Some(w) => match seed_revisions@[1] {
                        None => r matches Err(e) && e matches AppError::Validation(m) && m@
                            == "Missing seed revision"@,
                        Some(rev) => r matches Ok(EvaluationPlan::ApplicationReview { winner: x, seed_reference: s })
                            && x == w && s@ == "reviewed-seed:"@ + rev@,
                    },
                }
            } else {
                match pending {
                    None => r matches Err(e) && e matches AppError::Validation(m) && m@
                        == "Optimization action is missing"@,
                    Some(SearchStep::Evaluate { candidate, case }) => r matches Ok(
                        EvaluationPlan::SearchEvaluate { candidate: c, case: k },
                    ) && c == candidate && k == case,
                    Some(SearchStep::Propose) => r matches Ok(EvaluationPlan::SearchPropose),
                }
            }
        } else {
            r matches Ok(EvaluationPlan::Compare { candidate: c, case: k }) && c == next_case % candidates
                && k == next_case / candidates
        },
{
    if searching {
        if final_review {
            let w = match winner {
                Some(w) => w,
                None => {
                    return Err(AppError::Validation(owned("Missing winner")));
                },
            };
            return match &seed_revisions[1] {
                Some(revision) => Ok(
                    EvaluationPlan::ApplicationReview { winner: w, seed_reference: seed_reference(revision.as_str()) },
                ),
                None => Err(AppError::Validation(owned("Missing seed revision"))),
            };
        }
        return match pending {
            Some(SearchStep::Evaluate { candidate, case }) => Ok(EvaluationPlan::SearchEvaluate { candidate, case }),
            Some(SearchStep::Propose) => Ok(EvaluationPlan::SearchPropose),
            None => Err(AppError::Validation(owned("Optimization action is missing"))),
        };
    }
    let (candidate, case) = next_pair(next_case, candidates);
    Ok(EvaluationPlan::Compare { candidate, case })
}

/// A failed evaluation case records `access_revoked` when access to the
/// binding was lost (forbidden, unauthorized or not found),
/// `context_changed` on a conflict, and `execution_failed` otherwise.
pub proof fn law_evaluation_error_codes(e: AppError)
    ensures
        (e is Forbidden || e is Unauthorized || e is NotFound) <==> error_code(e) == "access_revoked"@,
        e is Conflict <==> error_code(e) == "context_changed"@,
        !(e is Forbidden || e is Unauthorized || e is NotFound || e is Conflict) <==> error_code(e)
            == "execution_failed"@,
{
    reveal_strlit("access_revoked");
    reveal_strlit("context_changed");
    reveal_strlit("execution_failed");
    assert("access_revoked"@.len() != "context_changed"@.len());
    assert("access_revoked"@[0] != "execution_failed"@[0]);
    assert("context_changed"@[0] != "execution_failed"@[0]);
}
} // verus!
