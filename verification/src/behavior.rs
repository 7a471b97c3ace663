//! Preparing reusable behavior evidence: which references a claim covers,
//! which of them a recorded session holds, and when the gathered evidence
//! may go to the analyst.
use vstd::prelude::*;
use crate::ordering::{sort_texts, texts};
use crate::principals::{dedup_sorted, strictly_sorted};
use crate::redaction::AppError;
use crate::experience::{digest, digest_text, items_text, json_at, json_eq, json_get, json_text, write_json};
use crate::redaction::{redact_sensitive_text, redacted};
use crate::runtime_bindings::is_string;
use crate::telemetry::{
    is_private_payload, private_content_key, private_payload, redacted_marker, sanitized, sensitive_key,
    telemetry_key_is_private_content, telemetry_key_is_sensitive, JsonValue,
};
use crate::text::{bytes_of, push_char, chars_eq, chars_eq_str, chars_of, owned, starts_with, starts_with_exec};

verus! {

/// Every item is a JSON string.
pub open spec fn all_strings(items: Seq<JsonValue>) -> bool {
    forall|i: int| 0 <= i < items.len() ==> (#[trigger] items[i]) is Str
}

/// The texts of JSON strings (anything else reads as empty).
pub open spec fn string_texts(items: Seq<JsonValue>) -> Seq<Seq<char>> {
    items.map_values(
        |v: JsonValue|
            match v {
                JsonValue::Str(s) => s@,
                _ => Seq::<char>::empty(),
            },
    )
}

/// The reference list a claim stores: an array of strings, else nothing.
pub open spec fn reference_list(v: JsonValue) -> Option<Seq<Seq<char>>> {
    match v {
        JsonValue::Array(items) => if all_strings(items@) {
            Some(string_texts(items@))
        } else {
            None
        },
        _ => None,
    }
}

/// `out` holds `refs` and `episode`, each once, in ascending order.
pub open spec fn covers(out: Seq<Seq<char>>, refs: Seq<Seq<char>>, episode: Seq<char>) -> bool {
    &&& strictly_sorted(out)
    &&& forall|x: Seq<char>| out.contains(x) <==> (refs.contains(x) || x == episode)
}

/// The references a behavior claim covers: its stored references and its
/// episode, in ascending order without repeats.
pub fn behavior_references(references: &JsonValue, episode_ref: &str) -> (r: Result<Vec<String>, AppError>)
    ensures
        reference_list(*references) is None ==> (r matches Err(e) && e matches AppError::Validation(m)
            && m@ == "Invalid behavior evidence references"@),
        reference_list(*references) matches Some(refs) ==> (r matches Ok(out) && covers(texts(out@), refs, episode_ref@)),
{
    let items = match references {
        JsonValue::Array(items) => items,
        _ => return Err(AppError::Validation(owned("Invalid behavior evidence references"))),
    };
    let mut refs: Vec<String> = Vec::new();
    let mut i: usize = 0;
    while i < items.len()
        invariant
            *references == JsonValue::Array(*items),
            i <= items@.len(),
            texts(refs@) == string_texts(items@).take(i as int),
            forall|k: int| 0 <= k < i ==> (#[trigger] items@[k]) is Str,
        decreases items.len() - i,
    {
        match &items[i] {
            JsonValue::Str(s) => {
                let ghost before = texts(refs@);
                refs.push(owned(s.as_str()));
                proof {
                    let want = string_texts(items@);
                    assert(items@[i as int] == JsonValue::Str(*s));
                    assert(want[i as int] == s@);
                    assert(texts(refs@) =~= before.push(s@));
                    assert(want.take(i + 1) =~= want.take(i as int).push(want[i as int]));
                }
            },
            _ => {
                assert(!all_strings(items@));
                return Err(AppError::Validation(owned("Invalid behavior evidence references")));
            },
        }
        i = i + 1;
    }
    let ghost listed = string_texts(items@);
    assert(all_strings(items@));
    assert(reference_list(*references) == Some(listed));
    assert(listed.take(items@.len() as int) =~= listed);
    refs.push(owned(episode_ref));
    let ghost input = texts(refs@);
    assert(input =~= listed.push(episode_ref@));
    let sorted = sort_texts(refs);
    let out = dedup_sorted(sorted);
    proof {
        assert forall|x: Seq<char>| texts(out@).contains(x) <==> (listed.contains(x) || x == episode_ref@) by {
            vstd::seq_lib::to_multiset_contains(texts(sorted@), x);
            vstd::seq_lib::to_multiset_contains(input, x);
            if input.contains(x) {
                let k = choose|k: int| 0 <= k < input.len() && input[k] == x;
                if k < listed.len() {
                    assert(listed[k] == x);
                }
            }
            if listed.contains(x) {
                let k = choose|k: int| 0 <= k < listed.len() && listed[k] == x;
                assert(input[k] == x);
            }
            if x == episode_ref@ {
                assert(input[input.len() - 1] == x);
            }
        }
        assert(covers(texts(out@), listed, episode_ref@));
    }
    Ok(out)
}

/// A reference recorded in `session`: it begins with the session and a colon.
pub open spec fn in_session(reference: Seq<char>, session: Seq<char>) -> bool {
    starts_with(reference, session + seq![':'])
}

/// The references of one session, in their order.
pub open spec fn session_refs(refs: Seq<Seq<char>>, session: Seq<char>) -> Seq<Seq<char>>
    decreases refs.len(),
{
    if refs.len() == 0 {
        seq![]
    } else {
        let before = session_refs(refs.drop_last(), session);
        if in_session(refs.last(), session) {
            before.push(refs.last())
        } else {
            before
        }
    }
}

/// The references a recorded session is asked for.
pub fn session_references(references: &[String], session: &str) -> (r: Vec<String>)
    ensures
        texts(r@) == session_refs(texts(references@), session@),
{
    let mut prefix = chars_of(session);
    prefix.push(':');
    assert(prefix@ == session@ + seq![':']);
    let ghost all = texts(references@);
    let mut out: Vec<String> = Vec::new();
    let mut i: usize = 0;
    while i < references.len()
        invariant
            i <= references@.len(),
            all == texts(references@),
            prefix@ == session@ + seq![':'],
            texts(out@) == session_refs(all.take(i as int), session@),
        decreases references.len() - i,
    {
        let c = chars_of(references[i].as_str());
        let keep = starts_with_exec(c.as_slice(), prefix.as_slice());
        assert(all.take(i + 1).drop_last() =~= all.take(i as int));
        assert(all.take(i + 1).last() == all[i as int]);
        if keep {
            out.push(owned(references[i].as_str()));
            assert(texts(out@) =~= session_refs(all.take(i as int), session@).push(all[i as int]));
        }
        i = i + 1;
    }
    assert(all.take(references@.len() as int) =~= all);
    out
}

/// The home a session's history is read from: the terminal anchor's native
/// home, when the anchor belongs to that session and names one.
pub fn session_home(anchor: Option<(&str, &str)>, session: &str) -> (r: Option<String>)
    ensures
        match anchor {
            Some((a, h)) => if a@ == session@ && h@.len() > 0 {
                r matches Some(x) && x@ == h@
            } else {
                r is None
            },
            None => r is None,
        },
{
    match anchor {
        Some((a, h)) => {
            let same = crate::text::chars_eq(chars_of(a).as_slice(), chars_of(session).as_slice());
            if same && chars_of(h).len() > 0 {
                Some(owned(h))
            } else {
                None
            }
        },
        None => None,
    }
}

/// A record recovered from a session's history, as the evidence list holds
/// it: `{"record": record, "ref": reference}`.
pub fn recovered_record(reference: &str, record: JsonValue) -> (r: JsonValue)
    ensures
        r matches JsonValue::Object(f) && f@.len() == 2 && f@[0].0@ == "record"@ && f@[0].1 == record
            && f@[1].0@ == "ref"@ && is_string(f@[1].1, reference@),
{
    let mut f: Vec<(String, JsonValue)> = Vec::new();
    f.push((owned("record"), record));
    f.push((owned("ref"), JsonValue::Str(owned(reference))));
    JsonValue::Object(f)
}

/// Most bytes of evidence one extraction may read (160 KiB).
pub const MAX_BEHAVIOR_EVIDENCE_BYTES: usize = 163840;

/// Some record is the evidence for `reference` (its `ref` is that string).
pub open spec fn has_record(records: Seq<JsonValue>, reference: Seq<char>) -> bool {
    exists|k: int| 0 <= k < records.len() && is_string(json_at(#[trigger] records[k], "ref"@), reference)
}

/// Why gathered evidence may not go to the analyst, if it may not: a
/// reference without its record, or more than 160 KiB of JSON.
pub open spec fn evidence_error(references: Seq<Seq<char>>, records: Seq<JsonValue>) -> Option<Seq<char>> {
    if exists|i: int| 0 <= i < references.len() && !has_record(records, #[trigger] references[i]) {
        Some("Original behavior evidence is unavailable"@)
    } else if vstd::utf8::encode_utf8(seq!['['] + items_text(records) + seq![']']).len() > MAX_BEHAVIOR_EVIDENCE_BYTES {
        Some("Behavior evidence exceeds the source window limit"@)
    } else {
        None
    }
}

pub(crate) fn find_record(records: &[JsonValue], reference: &String) -> (b: bool)
    ensures
        b == has_record(records@, reference@),
{
    let mut k: usize = 0;
    while k < records.len()
        invariant
            k <= records@.len(),
            forall|j: int| 0 <= j < k ==> !is_string(json_at(#[trigger] records@[j], "ref"@), reference@),
        decreases records.len() - k,
    {
        let hit = match json_get(&records[k], "ref") {
            Some(JsonValue::Str(s)) => chars_eq(chars_of(s.as_str()).as_slice(), chars_of(reference.as_str()).as_slice()),
            _ => false,
        };
        if hit {
            assert(is_string(json_at(records@[k as int], "ref"@), reference@));
            return true;
        }
        k = k + 1;
    }
    false
}

/// The JSON text of an array of `items`.
fn array_text(items: &[JsonValue]) -> (r: String)
    ensures
        r@ == seq!['['] + items_text(items@) + seq![']'],
{
    let mut out = String::new();
    push_char(&mut out, '[');
    let mut k: usize = 0;
    while k < items.len()
        invariant
            k <= items@.len(),
            out@ == seq!['['] + items_text(items@.take(k as int)),
        decreases items.len() - k,
    {
        let ghost before = out@;
        if k > 0 {
            push_char(&mut out, ',');
        }
        write_json(&mut out, &items[k]);
        proof {
            let t = items@.take(k + 1);
            assert(t.drop_last() =~= items@.take(k as int));
            assert(t[t.len() - 1] == items@[k as int]);
            if k == 0 {
                assert(items_text(t) == json_text(items@[0]));
                assert(out@ =~= seq!['['] + items_text(t));
            } else {
                assert(items_text(t) == items_text(t.drop_last()) + seq![','] + json_text(t[t.len() - 1]));
                assert(out@ =~= seq!['['] + items_text(t));
            }
        }
        k = k + 1;
    }
    assert(items@.take(items@.len() as int) =~= items@);
    push_char(&mut out, ']');
    out
}

/// The gathered evidence covers every reference and fits the window.
pub fn check_behavior_evidence(references: &[String], records: &[JsonValue]) -> (r: Result<(), AppError>)
    ensures
        match evidence_error(texts(references@), records@) {
            Some(m) => r matches Err(e) && e matches AppError::Validation(x) && x@ == m,
            None => r is Ok,
        },
{
    let ghost refs = texts(references@);
    let mut i: usize = 0;
    while i < references.len()
        invariant
            i <= references@.len(),
            refs == texts(references@),
            forall|j: int| 0 <= j < i ==> has_record(records@, #[trigger] refs[j]),
        decreases references.len() - i,
    {
        if !find_record(records, &references[i]) {
            assert(!has_record(records@, refs[i as int]));
            return Err(AppError::Validation(owned("Original behavior evidence is unavailable")));
        }
        i = i + 1;
    }
    let encoded = array_text(records);
    if bytes_of(encoded.as_str()).len() > MAX_BEHAVIOR_EVIDENCE_BYTES {
        return Err(AppError::Validation(owned("Behavior evidence exceeds the source window limit")));
    }
    Ok(())
}

// ── Publishing to the community ─────────────────────────────────────

/// A member that scrubbing withholds: a sensitive name, or, in a private
/// payload, a content name.
pub open spec fn withheld(fields: Seq<(String, JsonValue)>, i: int) -> bool {
    sensitive_key(fields[i].0@) || (private_payload(fields) && private_content_key(fields[i].0@))
}

/// Scrubbing leaves `v` as it is: redaction changes none of its strings, and
/// every member scrubbing withholds already reads `[REDACTED]`.
pub open spec fn scrub_stable(v: JsonValue) -> bool
    decreases v,
{
    match v {
        JsonValue::Str(s) => redacted(s@) == s@,
        JsonValue::Array(items) => forall|i: int| 0 <= i < items@.len() ==> scrub_stable(#[trigger] items@[i]),
        JsonValue::Object(f) => forall|i: int|
            0 <= i < f@.len() ==> if withheld(f@, i) {
                redacted_marker((#[trigger] f@[i]).1)
            } else {
                scrub_stable(f@[i].1)
            },
        _ => true,
    }
}

/// A value keeps no recognized credential exactly when scrubbing it gives
/// it back unchanged.
pub proof fn law_scrubbing_changes_exactly_what_holds_a_credential(v: JsonValue, out: JsonValue)
    requires
        sanitized(v, out),
    ensures
        json_eq(out, v) <==> scrub_stable(v),
    decreases v,
{
    match v {
        JsonValue::Array(items) => {
            let outs = out->Array_0;
            assert forall|i: int| 0 <= i < items@.len() implies (json_eq(#[trigger] outs@[i], items@[i])
                <==> scrub_stable(items@[i])) by {
                assert(decreases_to!(v => v->Array_0));
                assert(decreases_to!(items => items@));
                assert(decreases_to!(items@ => items@[i]));
                law_scrubbing_changes_exactly_what_holds_a_credential(items@[i], outs@[i]);
            }
            if !json_eq(out, v) {
                let i = choose|i: int| 0 <= i < outs@.len() && !json_eq(#[trigger] outs@[i], items@[i]);
                assert(!scrub_stable(items@[i]));
            }
            if !scrub_stable(v) {
                let i = choose|i: int| 0 <= i < items@.len() && !scrub_stable(#[trigger] items@[i]);
                assert(!json_eq(outs@[i], items@[i]));
            }
        },
        JsonValue::Object(f) => {
            let outs = out->Object_0;
            assert forall|i: int| 0 <= i < f@.len() implies (json_eq((#[trigger] outs@[i]).1, f@[i].1)
                <==> if withheld(f@, i) { redacted_marker(f@[i].1) } else { scrub_stable(f@[i].1) }) by {
                if !withheld(f@, i) {
                    assert(decreases_to!(v => v->Object_0));
                    assert(decreases_to!(f => f@));
                    assert(decreases_to!(f@ => f@[i]));
                    assert(decreases_to!(f@[i] => f@[i].1));
                    law_scrubbing_changes_exactly_what_holds_a_credential(f@[i].1, outs@[i].1);
                }
            }
            if !json_eq(out, v) {
                let i = choose|i: int| 0 <= i < outs@.len() && !((#[trigger] outs@[i]).0@ == f@[i].0@
                    && json_eq(outs@[i].1, f@[i].1));
                assert(!(if withheld(f@, i) { redacted_marker(f@[i].1) } else { scrub_stable(f@[i].1) }));
            }
            if !scrub_stable(v) {
                let i = choose|i: int| 0 <= i < f@.len() && !(if withheld(f@, i) {
                    redacted_marker((#[trigger] f@[i]).1)
                } else {
                    scrub_stable(f@[i].1)
                });
                assert(!json_eq(outs@[i].1, f@[i].1));
            }
        },
        _ => {},
    }
}

proof fn lemma_withheld_unmarked(f: Vec<(String, JsonValue)>, i: int)
    requires
        0 <= i < f@.len(),
        withheld(f@, i),
        !redacted_marker(f@[i].1),
    ensures
        !scrub_stable(JsonValue::Object(f)),
{
    let v = JsonValue::Object(f);
    assert(v->Object_0 == f);
    if scrub_stable(v) {
        assert(if withheld(f@, i) {
            redacted_marker(f@[i].1)
        } else {
            scrub_stable(f@[i].1)
        });
    }
}

/// Whether scrubbing would leave `v` unchanged.
pub fn scrubbing_keeps(v: &JsonValue) -> (r: bool)
    ensures
        r == scrub_stable(*v),
    decreases v,
{
    match v {
        JsonValue::Str(s) => {
            let t = redact_sensitive_text(s.as_str());
            chars_eq(chars_of(t.as_str()).as_slice(), chars_of(s.as_str()).as_slice())
        },
        JsonValue::Array(items) => {
            let mut i: usize = 0;
            while i < items.len()
                invariant
                    *v == JsonValue::Array(*items),
                    i <= items@.len(),
                    forall|j: int| 0 <= j < i ==> scrub_stable(#[trigger] items@[j]),
                decreases items.len() - i,
            {
                proof {
                    assert(decreases_to!(*v => (*v)->Array_0));
                    assert(decreases_to!(*items => items@));
                    assert(decreases_to!(items@ => items@[i as int]));
                }
                if !scrubbing_keeps(&items[i]) {
                    return false;
                }
                i = i + 1;
            }
            true
        },
        JsonValue::Object(f) => {
            let private = is_private_payload(f);
            let mut i: usize = 0;
            while i < f.len()
                invariant
                    *v == JsonValue::Object(*f),
                    private == private_payload(f@),
                    i <= f@.len(),
                    forall|j: int|
                        0 <= j < i ==> if withheld(f@, j) {
                            redacted_marker((#[trigger] f@[j]).1)
                        } else {
                            scrub_stable(f@[j].1)
                        },
                decreases f.len() - i,
            {
                let key = f[i].0.as_str();
                if telemetry_key_is_sensitive(key) || (private && telemetry_key_is_private_content(key)) {
                    let marked = match &f[i].1 {
                        JsonValue::Str(x) => chars_eq_str(chars_of(x.as_str()).as_slice(), "[REDACTED]"),
                        _ => false,
                    };
                    if !marked {
                        assert(withheld(f@, i as int));
                        assert(!redacted_marker(f@[i as int].1));
                        proof {
                            lemma_withheld_unmarked(*f, i as int);
                        }
                        assert(!scrub_stable(*v));
                        return false;
                    }
                } else {
                    proof {
                        assert(decreases_to!(*v => (*v)->Object_0));
                        assert(decreases_to!(*f => f@));
                        assert(decreases_to!(f@ => f@[i as int]));
                        assert(decreases_to!(f@[i as int] => f@[i as int].1));
                    }
                    if !scrubbing_keeps(&f[i].1) {
                        return false;
                    }
                }
                i = i + 1;
            }
            true
        },
        _ => true,
    }
}

/// The projection to publish: there must be one, and it must hold no
/// recognized credential.
pub fn check_public_projection(public: Option<JsonValue>) -> (r: Result<JsonValue, AppError>)
    ensures
        match public {
            None => r matches Err(e) && e matches AppError::Validation(m) && m@ == "Public projection abstained"@,
            Some(p) => if scrub_stable(p) {
                r == Ok::<JsonValue, AppError>(p)
            } else {
                r matches Err(e) && e matches AppError::Validation(m) && m@
                    == "Public projection retains a recognized credential"@
            },
        },
{
    match public {
        None => Err(AppError::Validation(owned("Public projection abstained"))),
        Some(p) => {
            if !scrubbing_keeps(&p) {
                return Err(AppError::Validation(owned("Public projection retains a recognized credential")));
            }
            Ok(p)
        },
    }
}

/// An independent privacy review must accept the projection.
pub fn check_privacy_review(accepted: bool) -> (r: Result<(), AppError>)
    ensures
        accepted ==> r is Ok,
        !accepted ==> (r matches Err(e) && e matches AppError::Validation(m) && m@
            == "Public privacy review rejected the projection"@),
{
    if !accepted {
        return Err(AppError::Validation(owned("Public privacy review rejected the projection")));
    }
    Ok(())
}

/// What a publication records of its privacy check: accepted, the stated
/// reason, and the SHA-256 of the instructions the check followed.
pub fn publication_review(reason: JsonValue, skill: &str) -> (r: JsonValue)
    ensures
        r matches JsonValue::Object(f) && f@.len() == 3 && f@[0].0@ == "accepted"@ && f@[0].1
            == JsonValue::Bool(true) && f@[1].0@ == "reason"@ && f@[1].1 == reason && f@[2].0@
            == "skill_sha256"@ && is_string(f@[2].1, digest_text(vstd::utf8::encode_utf8(skill@))),
{
    let hash = digest(bytes_of(skill).as_slice());
    let mut f: Vec<(String, JsonValue)> = Vec::new();
    f.push((owned("accepted"), JsonValue::Bool(true)));
    f.push((owned("reason"), reason));
    f.push((owned("skill_sha256"), JsonValue::Str(hash)));
    JsonValue::Object(f)
}

/// How an attempt to publish one behavior went.
pub enum PublicationStep {
    /// The projection passed but another worker already dispatched it.
    NotDispatched,
    /// The community accepted the contribution under this id.
    Contributed(String),
    /// The contribution was sent and its result is unknown.
    ContributionFailed,
    /// Projection or privacy review did not pass.
    ProjectionRefused,
}

/// What the publication queue records of a step: the contribution id,
/// whether it was dispatched, and the diagnostic; nothing for a step that
/// was not dispatched.
pub fn publication_record(step: PublicationStep) -> (r: Option<(Option<String>, bool, Option<&'static str>)>)
    ensures
        match step {
            PublicationStep::NotDispatched => r is None,
            PublicationStep::Contributed(id) => r matches Some((Some(x), true, None)) && x@ == id@,
            PublicationStep::ContributionFailed => r matches Some((None, true, Some(m))) && m@
                == "Contribution result is uncertain. Automatic retry is disabled; check the community before resubmitting."@,
            PublicationStep::ProjectionRefused => r matches Some((None, false, Some(m))) && m@
                == "Public projection or independent privacy review did not pass. The experience remains local."@,
        },
{
    match step {
        PublicationStep::NotDispatched => None,
        PublicationStep::Contributed(id) => Some((Some(id), true, None)),
        PublicationStep::ContributionFailed => Some((
            None,
            true,
            Some("Contribution result is uncertain. Automatic retry is disabled; check the community before resubmitting."),
        )),
        PublicationStep::ProjectionRefused => Some((
            None,
            false,
            Some("Public projection or independent privacy review did not pass. The experience remains local."),
        )),
    }
}

/// What a preparation attempt records: the diagnostic of a failure and the
/// audit metadata `{"event_id": .., "success": ..}`.
pub fn preparation_result(event_id: &str, success: bool) -> (r: (Option<&'static str>, JsonValue))
    ensures
        success ==> r.0 is None,
        !success ==> (r.0 matches Some(m) && m@
            == "Unable to prepare grounded behavior evidence. Check the analysis account and original source."@),
        r.1 matches JsonValue::Object(f) && f@.len() == 2 && f@[0].0@ == "event_id"@ && is_string(f@[0].1, event_id@)
            && f@[1].0@ == "success"@ && f@[1].1 == JsonValue::Bool(success),
{
    let mut f: Vec<(String, JsonValue)> = Vec::new();
    f.push((owned("event_id"), JsonValue::Str(owned(event_id))));
    f.push((owned("success"), JsonValue::Bool(success)));
    let error = if success {
        None
    } else {
        Some("Unable to prepare grounded behavior evidence. Check the analysis account and original source.")
    };
    (error, JsonValue::Object(f))
}

} // verus!
