//! The learning worker's review of a source window: which sessions are
//! read, which window is analysed, which cited references must be
//! recovered, whether the analysis may stand, and whether a proposed
//! instruction goes to content review.
use vstd::prelude::*;
use crate::ordering::texts;
use crate::principals::{sorted_unique, strictly_sorted};
use crate::redaction::AppError;
use crate::behavior::{find_record, has_record};
use crate::experience::{
    applied_before, applied_before_failure, historical_applied_before_failure, historical_before,
    json_at, json_clone, json_eq, json_equal, json_get, lemma_json_eq_refl, Cursor, HistoricalRecord,
};
use crate::json_map::{keys_sorted, map_insert};
use crate::telemetry::{find_member, member, sanitize_telemetry_value, sanitized};
use crate::runtime_bindings::is_string;
use crate::telemetry::JsonValue;
use crate::text::{chars_eq, chars_of, owned};

verus! {

/// At most this many equivalence links are kept per evaluation case.
pub const MAX_RELATED_REFS: usize = 64;

/// The set of texts in `s`.
pub open spec fn text_set(s: Seq<Seq<char>>) -> Set<Seq<char>> {
    Set::new(|x: Seq<char>| s.contains(x))
}

/// A case's equivalence links after an incremental report: the reported
/// links and the previously reviewed ones, sorted without repeats, the
/// first 64 kept.
pub fn merge_related_refs(reported: Vec<String>, previous: &[String]) -> (r: Vec<String>)
    ensures
        exists|full: Seq<Seq<char>>|
            strictly_sorted(full) && (forall|x: Seq<char>| full.contains(x) <==> (texts(reported@).contains(x)
                || texts(previous@).contains(x))) && texts(r@) == full.take(
                if full.len() > MAX_RELATED_REFS { MAX_RELATED_REFS as int } else { full.len() as int },
            ),
{
    let ghost a = texts(reported@);
    let mut all = reported;
    let mut i: usize = 0;
    while i < previous.len()
        invariant
            i <= previous@.len(),
            texts(all@) == a + texts(previous@).take(i as int),
        decreases previous.len() - i,
    {
        let ghost before = texts(all@);
        all.push(owned(previous[i].as_str()));
        assert(texts(all@) =~= before.push(previous@[i as int]@));
        assert(texts(previous@).take(i + 1) =~= texts(previous@).take(i as int).push(previous@[i as int]@));
        assert(texts(all@) =~= a + texts(previous@).take(i + 1));
        i = i + 1;
    }
    assert(texts(previous@).take(previous@.len() as int) =~= texts(previous@));
    let ghost joined = texts(all@);
    let mut out = sorted_unique(all);
    let ghost full = texts(out@);
    proof {
        assert forall|x: Seq<char>| full.contains(x) <==> (a.contains(x) || texts(previous@).contains(x)) by {
            let p = texts(previous@);
            if joined.contains(x) {
                let k = choose|k: int| 0 <= k < joined.len() && joined[k] == x;
                if k < a.len() {
                    assert(a[k] == x);
                } else {
                    assert(p[k - a.len()] == x);
                }
            }
            if a.contains(x) {
                let k = choose|k: int| 0 <= k < a.len() && a[k] == x;
                assert(joined[k] == x);
            }
            if p.contains(x) {
                let k = choose|k: int| 0 <= k < p.len() && p[k] == x;
                assert(joined[a.len() + k] == x);
            }
        }
    }
    if out.len() > MAX_RELATED_REFS {
        out.truncate(MAX_RELATED_REFS);
    }
    assert(texts(out@) =~= full.take(if full.len() > MAX_RELATED_REFS { MAX_RELATED_REFS as int } else { full.len() as int }));
    out
}

/// Every problem an instruction claims to address was observed.
pub fn check_addressed_problems(addressed: &[String], problem_keys: &[String]) -> (r: Result<(), AppError>)
    ensures
        (forall|i: int| 0 <= i < addressed@.len() ==> texts(problem_keys@).contains(#[trigger] addressed@[i]@))
            ==> r is Ok,
        !(forall|i: int| 0 <= i < addressed@.len() ==> texts(problem_keys@).contains(#[trigger] addressed@[i]@))
            ==> (r matches Err(e) && e matches AppError::Validation(m) && m@
            == "Prompt intervention names an unobserved problem"@),
{
    let mut i: usize = 0;
    while i < addressed.len()
        invariant
            i <= addressed@.len(),
            forall|k: int| 0 <= k < i ==> texts(problem_keys@).contains(#[trigger] addressed@[k]@),
        decreases addressed.len() - i,
    {
        if !text_in(problem_keys, &addressed[i]) {
            return Err(AppError::Validation(owned("Prompt intervention names an unobserved problem")));
        }
        i = i + 1;
    }
    Ok(())
}

/// Whether `x` is one of `items`.
pub fn text_in(items: &[String], x: &String) -> (r: bool)
    ensures
        r == texts(items@).contains(x@),
{
    let c = chars_of(x.as_str());
    let mut k: usize = 0;
    while k < items.len()
        invariant
            k <= items@.len(),
            c@ == x@,
            forall|j: int| 0 <= j < k ==> items@[j]@ != x@,
        decreases items.len() - k,
    {
        if chars_eq(chars_of(items[k].as_str()).as_slice(), c.as_slice()) {
            assert(texts(items@)[k as int] == x@);
            return true;
        }
        k = k + 1;
    }
    assert forall|j: int| 0 <= j < texts(items@).len() implies texts(items@)[j] != x@ by {
        assert(texts(items@)[j] == items@[j]@);
    }
    false
}

/// What happens to a proposed instruction.
pub enum InstructionReview {
    /// The unchanged seed instruction is kept for trace evaluation.
    UnchangedSeed,
    /// The instruction goes to content review.
    Review(String),
    /// Nothing is proposed, for this reason.
    NotProposed(&'static str),
}

/// The instruction a review proposes, and what becomes of it. A repeated
/// problem after a prompt intervention re-proposes the seed when the
/// analysis proposed nothing; a measured policy with checked evaluation
/// cases keeps the seed for evaluation; nothing is proposed while the
/// source is incomplete.
pub fn instruction_review(
    proposed: Option<String>,
    seed: &str,
    escalation_pending: bool,
    measured: bool,
    checked_cases: bool,
    source_complete: bool,
) -> (r: (Option<String>, InstructionReview))
    ensures
        ({
            let adopted = if escalation_pending && source_complete && proposed is None {
                Some(seed@)
            } else {
                match proposed {
                    Some(p) => Some(p@),
                    None => None,
                }
            };
            &&& (match r.0 {
                Some(x) => Some(x@),
                None => None,
            }) == adopted
            &&& if !source_complete {
                r.1 matches InstructionReview::NotProposed(m) && m@ == "source_incomplete"@
            } else if adopted is Some {
                r.1 matches InstructionReview::Review(x) && x@ == adopted->0
            } else if measured && checked_cases {
                r.1 is UnchangedSeed
            } else {
                r.1 matches InstructionReview::NotProposed(m) && m@ == "no_proposed_instruction"@
            }
        }),
{
    let adopted = if escalation_pending && source_complete && proposed.is_none() {
        Some(owned(seed))
    } else {
        proposed
    };
    let review = if !source_complete {
        InstructionReview::NotProposed("source_incomplete")
    } else {
        match &adopted {
            Some(x) => InstructionReview::Review(owned(x.as_str())),
            None => if measured && checked_cases {
                InstructionReview::UnchangedSeed
            } else {
                InstructionReview::NotProposed("no_proposed_instruction")
            },
        }
    };
    (adopted, review)
}

/// The review details recorded when no content review runs.
pub fn review_details(review: &InstructionReview) -> (r: Option<JsonValue>)
    ensures
        match review {
            InstructionReview::UnchangedSeed => r matches Some(JsonValue::Object(f)) && f@.len() == 2 && f@[0].0@
                == "passed"@ && f@[0].1 == JsonValue::Bool(true) && f@[1].0@ == "reason"@ && crate::runtime_bindings::is_string(
                f@[1].1,
                "unchanged_seed_for_trace_evaluation"@,
            ),
            InstructionReview::Review(_) => r is None,
            InstructionReview::NotProposed(reason) => r matches Some(JsonValue::Object(f)) && f@.len() == 2 && f@[0].0@
                == "passed"@ && f@[0].1 == JsonValue::Bool(false) && f@[1].0@ == "reason"@ && crate::runtime_bindings::is_string(f@[1].1, reason@),
        },
{
    match review {
        InstructionReview::UnchangedSeed => {
            let mut f: Vec<(String, JsonValue)> = Vec::new();
            f.push((owned("passed"), JsonValue::Bool(true)));
            f.push((owned("reason"), JsonValue::Str(owned("unchanged_seed_for_trace_evaluation"))));
            Some(JsonValue::Object(f))
        },
        InstructionReview::Review(_) => None,
        InstructionReview::NotProposed(reason) => {
            let mut f: Vec<(String, JsonValue)> = Vec::new();
            f.push((owned("passed"), JsonValue::Bool(false)));
            f.push((owned("reason"), JsonValue::Str(owned(reason))));
            Some(JsonValue::Object(f))
        },
    }
}

// ── Retained and missing references ─────────────────────────────────

/// `v` is an array holding the string `r`.
pub open spec fn in_string_array(v: JsonValue, r: Seq<char>) -> bool {
    v matches JsonValue::Array(items) && exists|k: int| 0 <= k < items@.len() && is_string(#[trigger] items@[k], r)
}

/// A known problem cites `r` as the opener or evidence of one of its episodes.
pub open spec fn problem_cites(problem: JsonValue, r: Seq<char>) -> bool {
    json_at(problem, "episodes"@) matches JsonValue::Array(eps) && exists|e: int|
        0 <= e < eps@.len() && (is_string(json_at(#[trigger] eps@[e], "episode_ref"@), r) || in_string_array(
            json_at(eps@[e], "evidence"@),
            r,
        ))
}

/// A reference the review already holds: a record of the window, a
/// reference of the prior summary, or an episode of a known problem.
pub open spec fn retained(records: Seq<JsonValue>, prior_references: JsonValue, known_problems: JsonValue, r: Seq<char>) -> bool {
    ||| has_record(records, r)
    ||| in_string_array(prior_references, r)
    ||| (known_problems matches JsonValue::Array(ps) && exists|p: int| 0 <= p < ps@.len() && problem_cites(#[trigger] ps@[p], r))
}

fn string_array_has(v: &JsonValue, r: &String) -> (b: bool)
    ensures
        b == in_string_array(*v, r@),
{
    match v {
        JsonValue::Array(items) => {
            let c = chars_of(r.as_str());
            let mut k: usize = 0;
            while k < items.len()
                invariant
                    *v == JsonValue::Array(*items),
                    k <= items@.len(),
                    c@ == r@,
                    forall|j: int| 0 <= j < k ==> !is_string(#[trigger] items@[j], r@),
                decreases items.len() - k,
            {
                let hit = match &items[k] {
                    JsonValue::Str(s) => chars_eq(chars_of(s.as_str()).as_slice(), c.as_slice()),
                    _ => false,
                };
                if hit {
                    assert(is_string((*items)@[k as int], r@));
                    assert(*v matches JsonValue::Array(all) && all@ == items@);
                    return true;
                }
                k = k + 1;
            }
            false
        },
        _ => false,
    }
}

fn problem_cites_exec(problem: &JsonValue, r: &String) -> (b: bool)
    ensures
        b == problem_cites(*problem, r@),
{
    match json_get(problem, "episodes") {
        Some(JsonValue::Array(eps)) => {
            let mut e: usize = 0;
            while e < eps.len()
                invariant
                    json_at(*problem, "episodes"@) == JsonValue::Array(*eps),
                    e <= eps@.len(),
                    forall|j: int|
                        0 <= j < e ==> !(is_string(json_at(#[trigger] eps@[j], "episode_ref"@), r@) || in_string_array(
                            json_at(eps@[j], "evidence"@),
                            r@,
                        )),
                decreases eps.len() - e,
            {
                let opener = match json_get(&eps[e], "episode_ref") {
                    Some(JsonValue::Str(s)) => chars_eq(chars_of(s.as_str()).as_slice(), chars_of(r.as_str()).as_slice()),
                    _ => false,
                };
                let cited = opener || match json_get(&eps[e], "evidence") {
                    Some(v) => string_array_has(v, r),
                    None => false,
                };
                if cited {
                    return true;
                }
                e = e + 1;
            }
            false
        },
        _ => false,
    }
}

/// Whether the review already holds `r`.
pub fn is_retained(records: &[JsonValue], prior_references: &JsonValue, known_problems: &JsonValue, r: &String) -> (b: bool)
    ensures
        b == retained(records@, *prior_references, *known_problems, r@),
{
    if find_record(records, r) || string_array_has(prior_references, r) {
        return true;
    }
    match known_problems {
        JsonValue::Array(ps) => {
            let mut p: usize = 0;
            while p < ps.len()
                invariant
                    *known_problems == JsonValue::Array(*ps),
                    p <= ps@.len(),
                    forall|j: int| 0 <= j < p ==> !problem_cites(#[trigger] ps@[j], r@),
                decreases ps.len() - p,
            {
                if problem_cites_exec(&ps[p], r) {
                    assert(problem_cites((*ps)@[p as int], r@));
                    assert(*known_problems matches JsonValue::Array(all) && all@ == ps@);
                    return true;
                }
                p = p + 1;
            }
            false
        },
        _ => false,
    }
}

/// A problem an analysis reports, by the references it cites.
pub struct Observation {
    pub key: String,
    pub episode_ref: String,
    pub evidence: Vec<String>,
    pub applied_revision_ref: Option<String>,
}

/// An evaluation case an analysis proposes, by the references it cites.
pub struct CaseRefs {
    pub episode_ref: String,
    pub evidence: Vec<String>,
}

/// The references the problems cite: each opener, then its evidence.
pub open spec fn problem_refs(problems: Seq<Observation>) -> Seq<Seq<char>>
    decreases problems.len(),
{
    if problems.len() == 0 {
        seq![]
    } else {
        problem_refs(problems.drop_last()) + seq![problems.last().episode_ref@] + texts(problems.last().evidence@)
    }
}

/// The revision markers the problems claim.
pub open spec fn applied_refs(problems: Seq<Observation>) -> Seq<Seq<char>>
    decreases problems.len(),
{
    if problems.len() == 0 {
        seq![]
    } else {
        applied_refs(problems.drop_last()) + match problems.last().applied_revision_ref {
            Some(a) => seq![a@],
            None => seq![],
        }
    }
}

/// The references the cases cite: each opener, then its evidence.
pub open spec fn case_refs(cases: Seq<CaseRefs>) -> Seq<Seq<char>>
    decreases cases.len(),
{
    if cases.len() == 0 {
        seq![]
    } else {
        case_refs(cases.drop_last()) + seq![cases.last().episode_ref@] + texts(cases.last().evidence@)
    }
}

/// The references to recover from the original source: those the analysis
/// cites that the review does not hold, and the revision markers and case
/// references that are not records of this window; sorted without repeats.
pub open spec fn missing_reference(
    evidence: Seq<String>,
    problems: Seq<Observation>,
    cases: Seq<CaseRefs>,
    records: Seq<JsonValue>,
    prior_references: JsonValue,
    known_problems: JsonValue,
    x: Seq<char>,
) -> bool {
    ||| ((texts(evidence) + problem_refs(problems)).contains(x) && !retained(records, prior_references, known_problems, x))
    ||| ((applied_refs(problems) + case_refs(cases)).contains(x) && !has_record(records, x))
}

fn push_texts(out: &mut Vec<String>, items: &[String])
    ensures
        texts(final(out)@) == texts(old(out)@) + texts(items@),
{
    let ghost start = texts(out@);
    let mut i: usize = 0;
    while i < items.len()
        invariant
            i <= items@.len(),
            texts(out@) == start + texts(items@).take(i as int),
        decreases items.len() - i,
    {
        let ghost before = texts(out@);
        out.push(owned(items[i].as_str()));
        assert(texts(out@) =~= before.push(items@[i as int]@));
        assert(texts(items@).take(i + 1) =~= texts(items@).take(i as int).push(items@[i as int]@));
        i = i + 1;
    }
    assert(texts(items@).take(items@.len() as int) =~= texts(items@));
}

fn cited_references(evidence: &[String], problems: &[Observation]) -> (r: Vec<String>)
    ensures
        texts(r@) == texts(evidence@) + problem_refs(problems@),
{
    let mut out: Vec<String> = Vec::new();
    push_texts(&mut out, evidence);
    let mut p: usize = 0;
    while p < problems.len()
        invariant
            p <= problems@.len(),
            texts(out@) == texts(evidence@) + problem_refs(problems@.take(p as int)),
        decreases problems.len() - p,
    {
        let ghost before = texts(out@);
        out.push(owned(problems[p].episode_ref.as_str()));
        assert(texts(out@) =~= before.push(problems@[p as int].episode_ref@));
        let ghost mid = texts(out@);
        push_texts(&mut out, problems[p].evidence.as_slice());
        assert(texts(out@) == mid + texts(problems@[p as int].evidence@));
        proof {
            let t = problems@.take(p + 1);
            assert(t.drop_last() =~= problems@.take(p as int));
            assert(t.last() == problems@[p as int]);
            assert(texts(out@) =~= texts(evidence@) + problem_refs(t));
        }
        p = p + 1;
    }
    assert(problems@.take(problems@.len() as int) =~= problems@);
    out
}

fn record_bound_references(problems: &[Observation], cases: &[CaseRefs]) -> (r: Vec<String>)
    ensures
        texts(r@) == applied_refs(problems@) + case_refs(cases@),
{
    let mut out: Vec<String> = Vec::new();
    let mut p: usize = 0;
    while p < problems.len()
        invariant
            p <= problems@.len(),
            texts(out@) == applied_refs(problems@.take(p as int)),
        decreases problems.len() - p,
    {
        let ghost before = texts(out@);
        match &problems[p].applied_revision_ref {
            Some(a) => {
                out.push(owned(a.as_str()));
                assert(texts(out@) =~= before.push(a@));
            },
            None => {},
        }
        proof {
            let t = problems@.take(p + 1);
            assert(t.drop_last() =~= problems@.take(p as int));
            assert(t.last() == problems@[p as int]);
            assert(texts(out@) =~= applied_refs(t));
        }
        p = p + 1;
    }
    assert(problems@.take(problems@.len() as int) =~= problems@);
    let ghost applied = texts(out@);
    let mut c: usize = 0;
    while c < cases.len()
        invariant
            c <= cases@.len(),
            texts(out@) == applied + case_refs(cases@.take(c as int)),
        decreases cases.len() - c,
    {
        let ghost before = texts(out@);
        out.push(owned(cases[c].episode_ref.as_str()));
        assert(texts(out@) =~= before.push(cases@[c as int].episode_ref@));
        let ghost mid = texts(out@);
        push_texts(&mut out, cases[c].evidence.as_slice());
        assert(texts(out@) == mid + texts(cases@[c as int].evidence@));
        proof {
            let t = cases@.take(c + 1);
            assert(t.drop_last() =~= cases@.take(c as int));
            assert(t.last() == cases@[c as int]);
            assert(texts(out@) =~= applied + case_refs(t));
        }
        c = c + 1;
    }
    assert(cases@.take(cases@.len() as int) =~= cases@);
    out
}

proof fn lemma_filter_step(
    prev: Seq<Seq<char>>,
    x0: Seq<char>,
    before: Seq<Seq<char>>,
    now: Seq<Seq<char>>,
    keep: bool,
    pred: spec_fn(Seq<char>) -> bool,
)
    requires
        forall|x: Seq<char>| before.contains(x) <==> (prev.contains(x) && pred(x)),
        keep == pred(x0),
        now == (if keep { before.push(x0) } else { before }),
    ensures
        forall|x: Seq<char>| now.contains(x) <==> (prev.push(x0).contains(x) && pred(x)),
{
    let next = prev.push(x0);
    assert forall|x: Seq<char>| now.contains(x) <==> (next.contains(x) && pred(x)) by {
        if next.contains(x) {
            let k = choose|k: int| 0 <= k < next.len() && next[k] == x;
            if k < prev.len() {
                assert(prev[k] == x);
            }
        }
        if prev.contains(x) {
            let k = choose|k: int| 0 <= k < prev.len() && prev[k] == x;
            assert(next[k] == x);
        }
        assert(next[prev.len() as int] == x0);
        if keep {
            assert(now[before.len() as int] == x0);
            if now.contains(x) {
                let k = choose|k: int| 0 <= k < now.len() && now[k] == x;
                if k < before.len() {
                    assert(before[k] == x);
                }
            }
            if before.contains(x) {
                let k = choose|k: int| 0 <= k < before.len() && before[k] == x;
                assert(now[k] == x);
            }
        }
    }
}

/// The references a review recovers from the original source.
pub fn missing_references(
    evidence: &[String],
    problems: &[Observation],
    cases: &[CaseRefs],
    records: &[JsonValue],
    prior_references: &JsonValue,
    known_problems: &JsonValue,
) -> (r: Vec<String>)
    ensures
        strictly_sorted(texts(r@)),
        forall|x: Seq<char>|
            texts(r@).contains(x) <==> missing_reference(
                evidence@,
                problems@,
                cases@,
                records@,
                *prior_references,
                *known_problems,
                x,
            ),
{
    let cited = cited_references(evidence, problems);
    let bound = record_bound_references(problems, cases);
    let ghost cs = texts(cited@);
    let ghost bs = texts(bound@);
    let mut picked: Vec<String> = Vec::new();
    let mut i: usize = 0;
    while i < cited.len()
        invariant
            i <= cited@.len(),
            cs == texts(cited@),
            forall|x: Seq<char>|
                texts(picked@).contains(x) <==> (cs.take(i as int).contains(x) && !retained(
                    records@,
                    *prior_references,
                    *known_problems,
                    x,
                )),
        decreases cited.len() - i,
    {
        let ghost before = texts(picked@);
        let keep = !is_retained(records, prior_references, known_problems, &cited[i]);
        if keep {
            picked.push(owned(cited[i].as_str()));
        }
        proof {
            let x0 = cited@[i as int]@;
            assert(cs.take(i + 1) =~= cs.take(i as int).push(x0));
            if keep {
                assert(texts(picked@) =~= before.push(x0));
            } else {
                assert(texts(picked@) =~= before);
            }
            lemma_filter_step(
                cs.take(i as int),
                x0,
                before,
                texts(picked@),
                keep,
                |x: Seq<char>| !retained(records@, *prior_references, *known_problems, x),
            );
        }
        i = i + 1;
    }
    assert(cs.take(cited@.len() as int) =~= cs);
    let ghost first = texts(picked@);
    let mut extra: Vec<String> = Vec::new();
    let mut j: usize = 0;
    while j < bound.len()
        invariant
            j <= bound@.len(),
            bs == texts(bound@),
            forall|x: Seq<char>|
                #![trigger texts(extra@).contains(x)]
                #![trigger bs.take(j as int).contains(x)]
                texts(extra@).contains(x) <==> (bs.take(j as int).contains(x) && !has_record(records@, x)),
        decreases bound.len() - j,
    {
        let ghost before = texts(extra@);
        let keep = !find_record(records, &bound[j]);
        if keep {
            extra.push(owned(bound[j].as_str()));
        }
        proof {
            let x0 = bound@[j as int]@;
            assert(bs.take(j + 1) =~= bs.take(j as int).push(x0));
            if keep {
                assert(texts(extra@) =~= before.push(x0));
            } else {
                assert(texts(extra@) =~= before);
            }
            lemma_filter_step(
                bs.take(j as int),
                x0,
                before,
                texts(extra@),
                keep,
                |x: Seq<char>| !has_record(records@, x),
            );
        }
        j = j + 1;
    }
    assert(bs.take(bound@.len() as int) =~= bs);
    let ghost second = texts(extra@);
    push_texts(&mut picked, extra.as_slice());
    let ghost all = texts(picked@);
    let out = sorted_unique(picked);
    proof {
        let n = first.len() as int;
        assert(all.skip(n) =~= second);
        assert forall|x: Seq<char>| all.contains(x) <==> (first.contains(x) || second.contains(x)) by {
            assert(all =~= first + all.skip(n));
            if all.contains(x) {
                let k = choose|k: int| 0 <= k < all.len() && all[k] == x;
                if k < n {
                    assert(first[k] == x);
                } else {
                    let rest = all.skip(n);
                    assert(rest[k - n] == x);
                }
            }
            if first.contains(x) {
                let k = choose|k: int| 0 <= k < first.len() && first[k] == x;
                assert(all[k] == x);
            }
            let rest = all.skip(n);
            if rest.contains(x) {
                let k = choose|k: int| 0 <= k < rest.len() && rest[k] == x;
                assert(all[k + n] == x);
            }
        }
    }
    out
}

// ── Whether an analysis may stand ───────────────────────────────────

/// A reference the review can vouch for: retained, or recovered from the
/// original source.
pub open spec fn known(
    records: Seq<JsonValue>,
    prior_references: JsonValue,
    known_problems: JsonValue,
    recovered: Seq<String>,
    r: Seq<char>,
) -> bool {
    retained(records, prior_references, known_problems, r) || texts(recovered).contains(r)
}

/// The context an analysis is checked against.
pub struct ReviewSource<'a> {
    pub records: &'a [JsonValue],
    pub prior_references: &'a JsonValue,
    pub known_problems: &'a JsonValue,
    pub recovered: &'a [String],
    /// The revision active when the source was recorded.
    pub revision: Option<&'a str>,
    /// Where this pass of the current session began.
    pub start: Option<&'a Cursor>,
    /// Records of earlier passes recovered for the analysis.
    pub historical: &'a [HistoricalRecord],
}

pub open spec fn knows(src: ReviewSource, r: Seq<char>) -> bool {
    known(src.records@, *src.prior_references, *src.known_problems, src.recovered@, r)
}

pub open spec fn start_of(src: ReviewSource) -> Option<Cursor> {
    match src.start {
        Some(s) => Some(*s),
        None => None,
    }
}

/// The problem's claimed revision marker is shown to precede one of its
/// evidence records, in this pass or an earlier one.
pub open spec fn marker_shown(src: ReviewSource, p: Observation, marker: Seq<char>, revision: Seq<char>) -> bool {
    applied_before(src.records@, marker, revision, p.evidence@) || historical_before(
        src.records@,
        start_of(src),
        src.historical@,
        marker,
        revision,
        p.evidence@,
    )
}

/// Why one reported problem cannot stand, if it cannot.
pub open spec fn problem_error(src: ReviewSource, p: Observation) -> Option<Seq<char>> {
    if !knows(src, p.episode_ref@) {
        Some("Learning objective opener is absent from its verified source; restore the original source to recover it"@)
    } else if exists|i: int| 0 <= i < p.evidence@.len() && !knows(src, (#[trigger] p.evidence@[i])@) {
        Some("Learning failure cites evidence absent from its verified source"@)
    } else if !(exists|i: int| 0 <= i < p.evidence@.len() && has_record(src.records@, (#[trigger] p.evidence@[i])@)) {
        Some("Learning problem lacks new source evidence"@)
    } else {
        match (p.applied_revision_ref, src.revision) {
            (None, _) => None,
            (Some(a), Some(rev)) => if marker_shown(src, p, a@, rev@) {
                None
            } else {
                Some("Learning observation lacks its claimed revision marker"@)
            },
            (Some(_), None) => Some("Learning observation lacks its claimed revision marker"@),
        }
    }
}

/// The first problem, in order, that cannot stand.
pub open spec fn problems_error(src: ReviewSource, ps: Seq<Observation>) -> Option<Seq<char>>
    decreases ps.len(),
{
    if ps.len() == 0 {
        None
    } else {
        match problems_error(src, ps.drop_last()) {
            Some(e) => Some(e),
            None => problem_error(src, ps.last()),
        }
    }
}

/// Why an analysis cannot stand, if it cannot: it cites a record outside
/// its source window, or one of its problems cannot stand.
pub open spec fn analysis_error(src: ReviewSource, evidence: Seq<String>, ps: Seq<Observation>) -> Option<Seq<char>> {
    if exists|i: int| 0 <= i < evidence.len() && !knows(src, (#[trigger] evidence[i])@) {
        Some("Analysis cited a record outside its source window"@)
    } else {
        problems_error(src, ps)
    }
}

/// The revision a problem is recorded as observed under: the active one,
/// when the problem claims its marker.
pub open spec fn applied_revision(src: ReviewSource, p: Observation) -> Option<Seq<char>> {
    match (p.applied_revision_ref, src.revision) {
        (Some(_), Some(rev)) => Some(rev@),
        _ => None,
    }
}

fn knows_exec(src: &ReviewSource, r: &String) -> (b: bool)
    ensures
        b == knows(*src, r@),
{
    is_retained(src.records, src.prior_references, src.known_problems, r) || text_in(src.recovered, r)
}

fn any_recorded(records: &[JsonValue], evidence: &[String]) -> (b: bool)
    ensures
        b == exists|i: int| 0 <= i < evidence@.len() && has_record(records@, (#[trigger] evidence@[i])@),
{
    let mut k: usize = 0;
    while k < evidence.len()
        invariant
            k <= evidence@.len(),
            forall|j: int| 0 <= j < k ==> !has_record(records@, (#[trigger] evidence@[j])@),
        decreases evidence.len() - k,
    {
        if find_record(records, &evidence[k]) {
            assert(has_record(records@, evidence@[k as int]@));
            return true;
        }
        k = k + 1;
    }
    false
}

fn check_problem(src: &ReviewSource, p: &Observation) -> (r: Result<Option<String>, AppError>)
    ensures
        match problem_error(*src, *p) {
            Some(m) => r matches Err(e) && e matches AppError::Validation(x) && x@ == m,
            None => r matches Ok(a) && (match a {
                Some(x) => Some(x@),
                None => None,
            }) == applied_revision(*src, *p),
        },
{
    if !knows_exec(src, &p.episode_ref) {
        return Err(AppError::Validation(owned(
            "Learning objective opener is absent from its verified source; restore the original source to recover it",
        )));
    }
    let mut i: usize = 0;
    while i < p.evidence.len()
        invariant
            i <= p.evidence@.len(),
            knows(*src, p.episode_ref@),
            forall|k: int| 0 <= k < i ==> knows(*src, (#[trigger] p.evidence@[k])@),
        decreases p.evidence.len() - i,
    {
        if !knows_exec(src, &p.evidence[i]) {
            assert(!knows(*src, p.evidence@[i as int]@));
            return Err(AppError::Validation(owned("Learning failure cites evidence absent from its verified source")));
        }
        i = i + 1;
    }
    if !any_recorded(src.records, p.evidence.as_slice()) {
        return Err(AppError::Validation(owned("Learning problem lacks new source evidence")));
    }
    match (&p.applied_revision_ref, src.revision) {
        (None, _) => Ok(None),
        (Some(a), Some(rev)) => {
            let ev = p.evidence.as_slice();
            if applied_before_failure(src.records, a.as_str(), rev, ev) || historical_applied_before_failure(
                src.records,
                src.start,
                src.historical,
                a.as_str(),
                rev,
                ev,
            ) {
                Ok(Some(owned(rev)))
            } else {
                Err(AppError::Validation(owned("Learning observation lacks its claimed revision marker")))
            }
        },
        (Some(_), None) => Err(AppError::Validation(owned("Learning observation lacks its claimed revision marker"))),
    }
}

/// Checks an analysis against its source; gives, for each problem, the
/// revision it is recorded as observed under.
pub fn check_analysis(src: &ReviewSource, evidence: &[String], problems: &[Observation]) -> (r: Result<Vec<Option<String>>, AppError>)
    ensures
        match analysis_error(*src, evidence@, problems@) {
            Some(m) => r matches Err(e) && e matches AppError::Validation(x) && x@ == m,
            None => r matches Ok(v) && v@.len() == problems@.len() && forall|i: int|
                0 <= i < problems@.len() ==> (match #[trigger] v@[i] {
                    Some(x) => Some(x@),
                    None => None,
                }) == applied_revision(*src, problems@[i]),
        },
{
    let mut i: usize = 0;
    while i < evidence.len()
        invariant
            i <= evidence@.len(),
            forall|k: int| 0 <= k < i ==> knows(*src, (#[trigger] evidence@[k])@),
        decreases evidence.len() - i,
    {
        if !knows_exec(src, &evidence[i]) {
            return Err(AppError::Validation(owned("Analysis cited a record outside its source window")));
        }
        i = i + 1;
    }
    let mut out: Vec<Option<String>> = Vec::new();
    let mut p: usize = 0;
    while p < problems.len()
        invariant
            p <= problems@.len(),
            forall|k: int| 0 <= k < evidence@.len() ==> knows(*src, (#[trigger] evidence@[k])@),
            problems_error(*src, problems@.take(p as int)) is None,
            out@.len() == p,
            forall|k: int|
                0 <= k < p ==> (match #[trigger] out@[k] {
                    Some(x) => Some(x@),
                    None => None,
                }) == applied_revision(*src, problems@[k]),
        decreases problems.len() - p,
    {
        proof {
            let t = problems@.take(p + 1);
            assert(t.drop_last() =~= problems@.take(p as int));
            assert(t.last() == problems@[p as int]);
        }
        match check_problem(src, &problems[p]) {
            Ok(a) => {
                out.push(a);
            },
            Err(e) => {
                proof {
                    assert(problems_error(*src, problems@.take(p + 1)) == problem_error(*src, problems@[p as int]));
                    lemma_problems_error_prefix(*src, problems@, p + 1);
                }
                return Err(e);
            },
        }
        p = p + 1;
    }
    assert(problems@.take(problems@.len() as int) =~= problems@);
    Ok(out)
}

/// Once a prefix of the problems has an error, so do the problems.
proof fn lemma_problems_error_prefix(src: ReviewSource, ps: Seq<Observation>, n: int)
    requires
        0 <= n <= ps.len(),
        problems_error(src, ps.take(n)) is Some,
    ensures
        problems_error(src, ps) == problems_error(src, ps.take(n)),
    decreases ps.len() - n,
{
    if n < ps.len() {
        let t = ps.take(n + 1);
        assert(t.drop_last() =~= ps.take(n));
        lemma_problems_error_prefix(src, ps, n + 1);
    } else {
        assert(ps.take(n) =~= ps);
    }
}

// ── Choosing the source window ──────────────────────────────────────

/// `window["records"]` is an array with something in it.
pub open spec fn has_records(w: JsonValue) -> bool {
    json_at(w, "records"@) matches JsonValue::Array(a) && a@.len() > 0
}

/// `window["records"]` is an empty array: the window was read to its end.
pub open spec fn read_through(w: JsonValue) -> bool {
    json_at(w, "records"@) matches JsonValue::Array(a) && a@.len() == 0
}

/// Some window says more remains unread.
pub open spec fn unread_in(ws: Seq<(String, JsonValue)>) -> bool {
    exists|i: int| 0 <= i < ws.len() && json_at((#[trigger] ws[i]).1, "more"@) == JsonValue::Bool(true)
}

/// The first window with records.
pub open spec fn first_pending(ws: Seq<(String, JsonValue)>) -> Option<int>
    decreases ws.len(),
{
    if ws.len() == 0 {
        None
    } else {
        match first_pending(ws.drop_last()) {
            Some(i) => Some(i),
            None => if has_records(ws.last().1) {
                Some(ws.len() - 1)
            } else {
                None
            },
        }
    }
}

proof fn lemma_first_pending(ws: Seq<(String, JsonValue)>)
    ensures
        match first_pending(ws) {
            Some(i) => 0 <= i < ws.len() && has_records(ws[i].1),
            None => true,
        },
    decreases ws.len(),
{
    if ws.len() > 0 {
        lemma_first_pending(ws.drop_last());
        match first_pending(ws.drop_last()) {
            Some(i) => {
                assert(ws[i] == ws.drop_last()[i]);
            },
            None => {},
        }
    }
}

/// `value.get(key)`: the member of an object, present even when null.
pub open spec fn get_member(v: JsonValue, key: Seq<char>) -> Option<JsonValue> {
    match v {
        JsonValue::Object(f) => member(f@, key),
        _ => None,
    }
}

/// The project guidance of the first window that carries one.
pub open spec fn guidance_of(ws: Seq<(String, JsonValue)>) -> Option<JsonValue>
    decreases ws.len(),
{
    if ws.len() == 0 {
        None
    } else {
        match guidance_of(ws.drop_last()) {
            Some(g) => Some(g),
            None => get_member(ws.last().1, "project_guidance"@),
        }
    }
}

/// The cursor of the last read-through window under `key`.
pub open spec fn last_read_cursor(ws: Seq<(String, JsonValue)>, key: Seq<char>) -> Option<JsonValue>
    decreases ws.len(),
{
    if ws.len() == 0 {
        None
    } else if ws.last().0@ == key && read_through(ws.last().1) {
        Some(json_at(ws.last().1, "cursor"@))
    } else {
        last_read_cursor(ws.drop_last(), key)
    }
}

/// The keys of known problems that no prompt revision addresses yet.
pub open spec fn unfinished_keys(ps: Seq<JsonValue>) -> Seq<JsonValue>
    decreases ps.len(),
{
    if ps.len() == 0 {
        seq![]
    } else if json_at(ps.last(), "prompt_revision_id"@) == JsonValue::Null {
        unfinished_keys(ps.drop_last()).push(json_at(ps.last(), "key"@))
    } else {
        unfinished_keys(ps.drop_last())
    }
}

pub open spec fn unfinished_of(known_problems: JsonValue) -> Seq<JsonValue> {
    match known_problems {
        JsonValue::Array(ps) => unfinished_keys(ps@),
        _ => seq![],
    }
}

/// `a` and `b` hold equal JSON values, item by item.
pub open spec fn items_eq(a: Seq<JsonValue>, b: Seq<JsonValue>) -> bool {
    a.len() == b.len() && forall|i: int| 0 <= i < a.len() ==> json_eq(#[trigger] a[i], b[i])
}

/// The member `key` of `f` equals `x` as JSON.
pub open spec fn holds(f: Seq<(String, JsonValue)>, key: Seq<char>, x: JsonValue) -> bool {
    member(f, key) matches Some(v) && json_eq(v, x)
}

/// What a review reads next.
pub struct SourceSelection {
    /// The checkpoint with the cursors of read-through windows and `_more`.
    pub checkpoint: Vec<(String, JsonValue)>,
    /// Some window still has unread records.
    pub unread: bool,
    /// The window to analyse and its key; none when nothing is new.
    pub selected: Option<(String, JsonValue)>,
}

fn records_state(w: &JsonValue) -> (r: Option<bool>)
    ensures
        r == Some(true) <==> has_records(*w),
        r == Some(false) <==> read_through(*w),
{
    match json_get(w, "records") {
        Some(JsonValue::Array(a)) => Some(a.len() > 0),
        _ => None,
    }
}

fn guidance_exec(w: &JsonValue) -> (r: Option<JsonValue>)
    ensures
        match get_member(*w, "project_guidance"@) {
            Some(g) => r matches Some(x) && json_eq(x, g),
            None => r is None,
        },
{
    match w {
        JsonValue::Object(f) => match find_member(f, "project_guidance") {
            Some(ix) => Some(json_clone(&f[ix].1)),
            None => None,
        },
        _ => None,
    }
}

fn cursor_copy(w: &JsonValue) -> (r: JsonValue)
    ensures
        json_eq(r, json_at(*w, "cursor"@)),
{
    match json_get(w, "cursor") {
        Some(c) => json_clone(c),
        None => JsonValue::Null,
    }
}

/// One pass over the windows: the first project guidance, whether any
/// window has more unread, the first window with records and whether
/// another follows it; the cursors of read-through windows go into the
/// checkpoint.
fn scan_windows(ws: &Vec<(String, JsonValue)>, cp: &mut Vec<(String, JsonValue)>) -> (r: (Option<JsonValue>, bool, Option<usize>, bool))
    requires
        keys_sorted(old(cp)@),
    ensures
        match guidance_of(ws@) {
            Some(g) => r.0 matches Some(x) && json_eq(x, g),
            None => r.0 is None,
        },
        r.1 == unread_in(ws@),
        match first_pending(ws@) {
            Some(i) => r.2 == Some(i as usize) && r.3 == exists|j: int| i < j < ws@.len() && has_records((#[trigger] ws@[j]).1),
            None => r.2 is None,
        },
        keys_sorted(final(cp)@),
        forall|k: Seq<char>|
            #![trigger member(final(cp)@, k)]
            match last_read_cursor(ws@, k) {
                Some(c) => holds(final(cp)@, k, c),
                None => member(final(cp)@, k) == member(old(cp)@, k),
            },
{
    let ghost start = cp@;
    let mut guidance: Option<JsonValue> = None;
    let mut unread = false;
    let mut first: Option<usize> = None;
    let mut later = false;
    let mut i: usize = 0;
    while i < ws.len()
        invariant
            i <= ws@.len(),
            keys_sorted(cp@),
            match guidance_of(ws@.take(i as int)) {
                Some(g) => guidance matches Some(x) && json_eq(x, g),
                None => guidance is None,
            },
            unread == unread_in(ws@.take(i as int)),
            match first_pending(ws@.take(i as int)) {
                Some(f) => first == Some(f as usize) && 0 <= f < i && later == exists|j: int| f < j < i && has_records((#[trigger] ws@[j]).1),
                None => first is None && !later,
            },
            forall|k: Seq<char>|
                #![trigger member(cp@, k)]
                match last_read_cursor(ws@.take(i as int), k) {
                    Some(c) => holds(cp@, k, c),
                    None => member(cp@, k) == member(start, k),
                },
        decreases ws.len() - i,
    {
        let ghost t = ws@.take(i + 1);
        proof {
            assert(t.drop_last() =~= ws@.take(i as int));
            assert(t.last() == ws@[i as int]);
        }
        let w = &ws[i].1;
        if guidance.is_none() {
            guidance = guidance_exec(w);
        }
        let more = match json_get(w, "more") {
            Some(JsonValue::Bool(b)) => *b,
            _ => false,
        };
        if more {
            unread = true;
        }
        proof {
            if unread_in(t) && !unread_in(ws@.take(i as int)) {
                let j = choose|j: int| 0 <= j < t.len() && json_at((#[trigger] t[j]).1, "more"@) == JsonValue::Bool(true);
                if j < i {
                    assert(ws@.take(i as int)[j] == t[j]);
                }
            }
            if unread_in(ws@.take(i as int)) {
                let j = choose|j: int| 0 <= j < i && json_at((#[trigger] ws@.take(i as int)[j]).1, "more"@) == JsonValue::Bool(true);
                assert(t[j] == ws@.take(i as int)[j]);
            }
            if more {
                assert(json_at(t[i as int].1, "more"@) == JsonValue::Bool(true));
            }
        }
        let ghost before = cp@;
        match records_state(w) {
            Some(true) => {
                if first.is_none() {
                    first = Some(i);
                } else {
                    later = true;
                }
            },
            Some(false) => {
                let c = cursor_copy(w);
                map_insert(cp, owned(ws[i].0.as_str()), c);
            },
            None => {},
        }
        proof {
            match first_pending(ws@.take(i as int)) {
                Some(f) => {
                    assert(first_pending(t) == Some(f));
                    let e_new = exists|j: int| f < j < i + 1 && has_records((#[trigger] ws@[j]).1);
                    let e_old = exists|j: int| f < j < i && has_records((#[trigger] ws@[j]).1);
                    if e_new && !has_records(ws@[i as int].1) {
                        let j = choose|j: int| f < j < i + 1 && has_records((#[trigger] ws@[j]).1);
                        assert(j < i);
                    }
                    if has_records(ws@[i as int].1) {
                        assert(f < i);
                    }
                    assert(later == e_new);
                },
                None => {},
            }
            assert forall|k: Seq<char>|
                #![trigger member(cp@, k)]
                match last_read_cursor(t, k) {
                    Some(c) => holds(cp@, k, c),
                    None => member(cp@, k) == member(start, k),
                } by {
                if !(t.last().0@ == k && read_through(t.last().1)) {
                    assert(last_read_cursor(t, k) == last_read_cursor(ws@.take(i as int), k));
                }
            }
        }
        i = i + 1;
    }
    assert(ws@.take(ws@.len() as int) =~= ws@);
    (guidance, unread, first, later)
}

fn unfinished_cursor(known_problems: &JsonValue) -> (r: Vec<JsonValue>)
    ensures
        items_eq(r@, unfinished_of(*known_problems)),
{
    let mut out: Vec<JsonValue> = Vec::new();
    match known_problems {
        JsonValue::Array(ps) => {
            let mut p: usize = 0;
            while p < ps.len()
                invariant
                    *known_problems == JsonValue::Array(*ps),
                    p <= ps@.len(),
                    items_eq(out@, unfinished_keys(ps@.take(p as int))),
                decreases ps.len() - p,
            {
                let ghost t = ps@.take(p + 1);
                proof {
                    assert(t.drop_last() =~= ps@.take(p as int));
                    assert(t.last() == ps@[p as int]);
                }
                let open = match json_get(&ps[p], "prompt_revision_id") {
                    None => true,
                    Some(JsonValue::Null) => true,
                    _ => false,
                };
                if open {
                    let key = match json_get(&ps[p], "key") {
                        Some(k) => json_clone(k),
                        None => JsonValue::Null,
                    };
                    out.push(key);
                }
                p = p + 1;
            }
            assert(ps@.take(ps@.len() as int) =~= ps@);
        },
        _ => {},
    }
    out
}

/// The analysed window as the analysis receives it: `more` says whether
/// older work is still unread, the curation cycle and the project guidance
/// are added when there are any, and every other member is kept.
pub open spec fn source_built(
    base: Seq<(String, JsonValue)>,
    out: Seq<(String, JsonValue)>,
    more: bool,
    cycle: Option<JsonValue>,
    guidance: Option<JsonValue>,
) -> bool {
    &&& keys_sorted(out)
    &&& member(out, "more"@) == Some(JsonValue::Bool(more))
    &&& match cycle {
        Some(c) => holds(out, "curation_cycle"@, c),
        None => member(out, "curation_cycle"@) == member(base, "curation_cycle"@),
    }
    &&& match guidance {
        Some(g) => holds(out, "project_guidance"@, g),
        None => member(out, "project_guidance"@) == member(base, "project_guidance"@),
    }
    &&& forall|k: Seq<char>|
        #![trigger member(out, k)]
        k != "more"@ && k != "curation_cycle"@ && k != "project_guidance"@ ==> member(out, k) == member(base, k)
}

/// The window made of the known problems still to address.
pub open spec fn pending_problems_base(base: Seq<(String, JsonValue)>, unfinished: Seq<JsonValue>) -> bool {
    &&& keys_sorted(base)
    &&& member(base, "cursor"@) matches Some(JsonValue::Array(c)) && items_eq(c@, unfinished)
    &&& member(base, "records"@) matches Some(JsonValue::Array(r)) && r@.len() == 0
    &&& forall|k: Seq<char>|
        #![trigger member(base, k)]
        k != "cursor"@ && k != "more"@ && k != "records"@ ==> member(base, k) is None
}

fn build_source(
    base: Vec<(String, JsonValue)>,
    more: bool,
    cycle: Option<JsonValue>,
    guidance: Option<JsonValue>,
) -> (r: Vec<(String, JsonValue)>)
    requires
        keys_sorted(base@),
    ensures
        source_built(base@, r@, more, cycle, guidance),
{
    proof {
        reveal_strlit("more");
        reveal_strlit("curation_cycle");
        reveal_strlit("project_guidance");
        assert("more"@.len() != "project_guidance"@.len());
        assert("more"@.len() != "curation_cycle"@.len());
        assert("curation_cycle"@.len() != "project_guidance"@.len());
    }
    let mut f = base;
    map_insert(&mut f, owned("more"), JsonValue::Bool(more));
    let ghost f1 = f@;
    match cycle {
        Some(c) => {
            map_insert(&mut f, owned("curation_cycle"), c);
            proof {
                lemma_json_eq_refl(c);
            }
        },
        None => {},
    }
    let ghost f2 = f@;
    match guidance {
        Some(g) => {
            map_insert(&mut f, owned("project_guidance"), g);
            proof {
                lemma_json_eq_refl(g);
            }
        },
        None => {},
    }
    proof {
        assert(member(f@, "more"@) == member(f2, "more"@));
        assert(member(f2, "more"@) == member(f1, "more"@));
        if cycle is Some {
            assert(member(f@, "curation_cycle"@) == member(f2, "curation_cycle"@));
        } else {
            assert(member(f@, "curation_cycle"@) == member(f2, "curation_cycle"@));
            assert(member(f2, "curation_cycle"@) == member(f1, "curation_cycle"@));
        }
        if guidance is None {
            assert(member(f@, "project_guidance"@) == member(f2, "project_guidance"@));
            assert(member(f2, "project_guidance"@) == member(f1, "project_guidance"@));
        }
        assert forall|k: Seq<char>|
            #![trigger member(f@, k)]
            k != "more"@ && k != "curation_cycle"@ && k != "project_guidance"@ implies member(f@, k) == member(base@, k) by {
            assert(member(f@, k) == member(f2, k));
            assert(member(f2, k) == member(f1, k));
        }
    }
    f
}

/// Every window that is an object holds its members in map order.
pub open spec fn windows_ordered(ws: Seq<(String, JsonValue)>) -> bool {
    forall|i: int| 0 <= i < ws.len() ==> ((#[trigger] ws[i]).1 matches JsonValue::Object(f) ==> keys_sorted(f@))
}

/// Whether every window that is an object holds its members in map order.
pub fn windows_in_order(ws: &Vec<(String, JsonValue)>) -> (r: bool)
    ensures
        r == windows_ordered(ws@),
{
    let mut i: usize = 0;
    while i < ws.len()
        invariant
            i <= ws@.len(),
            forall|k: int| 0 <= k < i ==> ((#[trigger] ws@[k]).1 matches JsonValue::Object(f) ==> keys_sorted(f@)),
        decreases ws.len() - i,
    {
        match &ws[i].1 {
            JsonValue::Object(f) => {
                if !crate::json_map::keys_in_order(f) {
                    return false;
                }
            },
            _ => {},
        }
        i = i + 1;
    }
    true
}

/// Another window after `i` has records.
pub open spec fn pending_after(ws: Seq<(String, JsonValue)>, i: int) -> bool {
    exists|j: int| i < j < ws.len() && has_records((#[trigger] ws[j]).1)
}

/// The selection is the window `key`, built from `base`.
pub open spec fn selected_window(
    selected: Option<(String, JsonValue)>,
    key: Seq<char>,
    base: Seq<(String, JsonValue)>,
    more: bool,
    cycle: Option<JsonValue>,
    guidance: Option<JsonValue>,
) -> bool {
    match selected {
        Some((k, JsonValue::Object(sf))) => k@ == key && source_built(base, sf@, more, cycle, guidance),
        _ => false,
    }
}

/// Which window a review analyses, and what it records of the others.
///
/// The windows are read in order (feedback first, then the native
/// sessions). Read-through windows advance the checkpoint to their cursor.
/// The first window with records is analysed; when none has records, no
/// window has more unread and known problems are still unaddressed, those
/// problems are revisited as a window of their own (`_pending_problems`).
/// The analysed window says whether more remains unread (in any window, or
/// in a later window with records); its cursor and that flag go into the
/// checkpoint under its key and `_more`. With nothing to analyse, `_more`
/// records whether anything remains unread.
pub fn select_source(
    windows: Vec<(String, JsonValue)>,
    known_problems: &JsonValue,
    checkpoint: Vec<(String, JsonValue)>,
    curation_cycle: Option<JsonValue>,
) -> (r: SourceSelection)
    requires
        keys_sorted(checkpoint@),
        windows_ordered(windows@),
    ensures
        keys_sorted(r.checkpoint@),
        r.unread == unread_in(windows@),
        match first_pending(windows@) {
            Some(i) => {
                let more = unread_in(windows@) || pending_after(windows@, i);
                &&& match windows@[i].1 {
                    JsonValue::Object(base) => selected_window(
                        r.selected,
                        windows@[i].0@,
                        base@,
                        more,
                        curation_cycle,
                        guidance_of(windows@),
                    ),
                    _ => false,
                }
                &&& member(r.checkpoint@, "_more"@) == Some(JsonValue::Bool(more))
                &&& windows@[i].0@ != "_more"@ ==> holds(r.checkpoint@, windows@[i].0@, json_at(windows@[i].1, "cursor"@))
            },
            None => if !unread_in(windows@) && unfinished_of(*known_problems).len() > 0 {
                &&& exists|base: Seq<(String, JsonValue)>|
                    pending_problems_base(base, unfinished_of(*known_problems)) && #[trigger] selected_window(
                        r.selected,
                        "_pending_problems"@,
                        base,
                        false,
                        curation_cycle,
                        guidance_of(windows@),
                    )
                &&& member(r.checkpoint@, "_more"@) == Some(JsonValue::Bool(false))
                &&& member(r.checkpoint@, "_pending_problems"@) matches Some(JsonValue::Array(c)) && items_eq(
                    c@,
                    unfinished_of(*known_problems),
                )
            } else {
                &&& r.selected is None
                &&& member(r.checkpoint@, "_more"@) == Some(JsonValue::Bool(unread_in(windows@)))
            },
        },
        forall|k: Seq<char>|
            #![trigger member(r.checkpoint@, k)]
            k != "_more"@ && !(r.selected matches Some((key, _)) && key@ == k) ==> match last_read_cursor(windows@, k) {
                Some(c) => holds(r.checkpoint@, k, c),
                None => member(r.checkpoint@, k) == member(checkpoint@, k),
            },
{
    proof {
        reveal_strlit("_more");
        reveal_strlit("_pending_problems");
        reveal_strlit("cursor");
        reveal_strlit("more");
        reveal_strlit("records");
    }
    let mut cp = checkpoint;
    let mut ws = windows;
    let (guidance, unread, first, later) = scan_windows(&ws, &mut cp);
    let ghost cp1 = cp@;
    let ghost w0 = ws@;
    let count = ws.len();
    match first {
        Some(i) => {
            let ghost gi = i as int;
            proof {
                lemma_first_pending(w0);
                let f = first_pending(w0)->0;
                assert(f == gi);
                assert(has_records(w0[gi].1));
            }
            let (key, w) = ws.remove(i);
            let ghost wv = w;
            let base = match w {
                JsonValue::Object(f) => f,
                _ => {
                    proof {
                        assert(false);
                    }
                    Vec::new()
                },
            };
            let ghost b0 = base@;
            let ghost g0 = guidance;
            let ghost cy = curation_cycle;
            let more = unread || later;
            let sf = build_source(base, more, curation_cycle, guidance);
            proof {
                lemma_source_built_guidance(b0, sf@, more, cy, g0, guidance_of(w0));
                assert(!("cursor"@ == "more"@ || "cursor"@ == "curation_cycle"@ || "cursor"@ == "project_guidance"@)) by {
                    reveal_strlit("curation_cycle");
                    reveal_strlit("project_guidance");
                    assert("cursor"@.len() != "more"@.len());
                    assert("cursor"@.len() != "curation_cycle"@.len());
                    assert("cursor"@.len() != "project_guidance"@.len());
                }
                assert(member(sf@, "cursor"@) == member(b0, "cursor"@));
            }
            let ghost sf0 = sf@;
            let src = JsonValue::Object(sf);
            let c = cursor_copy(&src);
            proof {
                assert(json_at(src, "cursor"@) == json_at(w0[gi].1, "cursor"@));
            }
            let ghost kk = key@;
            map_insert(&mut cp, owned(key.as_str()), c);
            let ghost cp2 = cp@;
            map_insert(&mut cp, owned("_more"), JsonValue::Bool(more));
            proof {
                assert(kk == w0[gi].0@);
                if kk != "_more"@ {
                    assert(member(cp@, kk) == member(cp2, kk));
                    assert(holds(cp@, kk, json_at(w0[gi].1, "cursor"@)));
                }
                assert(selected_window(Some((key, src)), w0[gi].0@, b0, more, cy, guidance_of(w0)));
                assert(wv == w0[gi].1);
                assert(wv matches JsonValue::Object(b) && b@ == b0);
                assert(more == (unread_in(w0) || pending_after(w0, gi)));
                assert(member(cp@, "_more"@) == Some(JsonValue::Bool(more)));
            }
            SourceSelection { checkpoint: cp, unread, selected: Some((key, src)) }
        },
        None => {
            let unfinished = unfinished_cursor(known_problems);
            if !unread && unfinished.len() > 0 {
                let ghost uf = unfinished@;
                let c2 = clone_items(&unfinished);
                let mut base: Vec<(String, JsonValue)> = Vec::new();
                base.push((owned("cursor"), JsonValue::Array(unfinished)));
                base.push((owned("more"), JsonValue::Bool(false)));
                base.push((owned("records"), JsonValue::Array(Vec::new())));
                proof {
                    lemma_pending_base(base@, uf, unfinished_of(*known_problems));
                }
                let ghost b0 = base@;
                let ghost g0 = guidance;
                let ghost cy = curation_cycle;
                let sf = build_source(base, false, curation_cycle, guidance);
                proof {
                    lemma_source_built_guidance(b0, sf@, false, cy, g0, guidance_of(w0));
                }
                let src = JsonValue::Object(sf);
                let name = owned("_pending_problems");
                map_insert(&mut cp, owned("_pending_problems"), JsonValue::Array(c2));
                map_insert(&mut cp, owned("_more"), JsonValue::Bool(false));
                proof {
                    assert(selected_window(Some((name, src)), "_pending_problems"@, b0, false, cy, guidance_of(w0)));
                    assert(pending_problems_base(b0, unfinished_of(*known_problems)));
                    assert("_pending_problems"@ != "_more"@) by {
                        assert("_pending_problems"@.len() != "_more"@.len());
                    }
                    assert(forall|i: int| 0 <= i < uf.len() ==> json_eq(#[trigger] c2@[i], uf[i]));
                    assert forall|i: int| 0 <= i < uf.len() implies json_eq(#[trigger] c2@[i], unfinished_of(*known_problems)[i]) by {
                        crate::experience::lemma_json_eq_trans(c2@[i], uf[i], unfinished_of(*known_problems)[i]);
                    }
                }
                SourceSelection { checkpoint: cp, unread, selected: Some((name, src)) }
            } else {
                map_insert(&mut cp, owned("_more"), JsonValue::Bool(unread));
                SourceSelection { checkpoint: cp, unread, selected: None }
            }
        },
    }
}

proof fn lemma_source_built_guidance(
    base: Seq<(String, JsonValue)>,
    out: Seq<(String, JsonValue)>,
    more: bool,
    cycle: Option<JsonValue>,
    x: Option<JsonValue>,
    g: Option<JsonValue>,
)
    requires
        source_built(base, out, more, cycle, x),
        match (x, g) {
            (Some(a), Some(b)) => json_eq(a, b),
            (None, None) => true,
            _ => false,
        },
    ensures
        source_built(base, out, more, cycle, g),
{
    match (x, g) {
        (Some(a), Some(b)) => {
            let v = member(out, "project_guidance"@)->0;
            crate::experience::lemma_json_eq_trans(v, a, b);
        },
        _ => {},
    }
}

fn clone_items(items: &Vec<JsonValue>) -> (r: Vec<JsonValue>)
    ensures
        items_eq(r@, items@),
{
    let mut out: Vec<JsonValue> = Vec::new();
    let mut i: usize = 0;
    while i < items.len()
        invariant
            i <= items@.len(),
            out@.len() == i,
            forall|j: int| 0 <= j < i ==> json_eq(#[trigger] out@[j], items@[j]),
        decreases items.len() - i,
    {
        out.push(json_clone(&items[i]));
        i = i + 1;
    }
    out
}

proof fn lemma_pending_base(base: Seq<(String, JsonValue)>, cursor: Seq<JsonValue>, unfinished: Seq<JsonValue>)
    requires
        base.len() == 3,
        base[0].0@ == "cursor"@,
        base[0].1 matches JsonValue::Array(c) && c@ == cursor,
        base[1].0@ == "more"@,
        base[1].1 == JsonValue::Bool(false),
        base[2].0@ == "records"@,
        base[2].1 matches JsonValue::Array(r) && r@.len() == 0,
        items_eq(cursor, unfinished),
    ensures
        pending_problems_base(base, unfinished),
{
    reveal_strlit("cursor");
    reveal_strlit("more");
    reveal_strlit("records");
    assert(crate::ordering::text_lt("cursor"@, "more"@));
    assert(crate::ordering::text_lt("more"@, "records"@));
    assert(crate::ordering::text_lt("cursor"@, "records"@));
    assert(keys_sorted(base));
    crate::json_map::lemma_member_at(base, "cursor"@, 0);
    crate::json_map::lemma_member_at(base, "records"@, 2);
    assert forall|k: Seq<char>|
        #![trigger member(base, k)]
        k != "cursor"@ && k != "more"@ && k != "records"@ implies member(base, k) is None by {
        crate::json_map::lemma_member_absent(base, k);
    }
}

// ── Which sessions are read ─────────────────────────────────────────

pub open spec fn opt_text(o: Option<String>) -> Option<Seq<char>> {
    match o {
        Some(s) => Some(s@),
        None => None,
    }
}

/// The sessions a review reads, in order: the anchored session (else the
/// binding's external session; none means the live one), then the external
/// session when it is another.
pub fn source_sessions(anchor_session: Option<String>, external_session: Option<String>) -> (r: Vec<Option<String>>)
    ensures
        r@.len() >= 1,
        opt_text(r@[0]) == (if anchor_session is Some { opt_text(anchor_session) } else { opt_text(external_session) }),
        (external_session is Some && opt_text(external_session) != opt_text(r@[0])) ==> (r@.len() == 2 && opt_text(r@[1])
            == opt_text(external_session)),
        !(external_session is Some && opt_text(external_session) != opt_text(r@[0])) ==> r@.len() == 1,
{
    let first = match anchor_session {
        Some(a) => Some(a),
        None => match &external_session {
            Some(e) => Some(owned(e.as_str())),
            None => None,
        },
    };
    let differs = match (&external_session, &first) {
        (Some(e), Some(f)) => !chars_eq(chars_of(e.as_str()).as_slice(), chars_of(f.as_str()).as_slice()),
        (Some(_), None) => true,
        _ => false,
    };
    let mut out: Vec<Option<String>> = Vec::new();
    out.push(first);
    if differs {
        out.push(external_session);
    }
    out
}

/// The checkpoint key of a session: its id, or `live` without one.
pub fn session_key(session: &Option<String>) -> (r: String)
    ensures
        r@ == match session {
            Some(s) => s@,
            None => "live"@,
        },
{
    match session {
        Some(s) => owned(s.as_str()),
        None => owned("live"),
    }
}

/// A session window read from a resumed position (not reset by the host)
/// can supply earlier records of its session later in the review.
pub fn keeps_native_source(window: &JsonValue, offset: u64) -> (r: bool)
    ensures
        r == (json_at(*window, "reset"@) != JsonValue::Bool(true) && offset > 0),
{
    let reset = match json_get(window, "reset") {
        Some(JsonValue::Bool(b)) => *b,
        _ => false,
    };
    !reset && offset > 0
}

/// Where this pass of the analysed session began: the cursor of the first
/// kept session whose session the analysed window continues, unless the
/// host reset that window.
pub fn current_start(source: &JsonValue, cursors: &[Cursor]) -> (r: Option<usize>)
    ensures
        match r {
            Some(i) => i < cursors@.len() && json_at(*source, "reset"@) != JsonValue::Bool(true) && is_string(
                json_at(json_at(*source, "cursor"@), "session"@),
                cursors@[i as int].session@,
            ) && forall|j: int| 0 <= j < i ==> !is_string(
                json_at(json_at(*source, "cursor"@), "session"@),
                (#[trigger] cursors@[j]).session@,
            ),
            None => json_at(*source, "reset"@) == JsonValue::Bool(true) || forall|j: int| 0 <= j < cursors@.len()
                ==> !is_string(json_at(json_at(*source, "cursor"@), "session"@), (#[trigger] cursors@[j]).session@),
        },
{
    let reset = match json_get(source, "reset") {
        Some(JsonValue::Bool(b)) => *b,
        _ => false,
    };
    if reset {
        return None;
    }
    let session = match json_get(source, "cursor") {
        Some(c) => match json_get(c, "session") {
            Some(JsonValue::Str(s)) => Some(s),
            _ => None,
        },
        None => None,
    };
    let s = match session {
        Some(s) => s,
        None => return None,
    };
    let mut i: usize = 0;
    while i < cursors.len()
        invariant
            i <= cursors@.len(),
            json_at(*source, "reset"@) != JsonValue::Bool(true),
            is_string(json_at(json_at(*source, "cursor"@), "session"@), s@),
            forall|j: int| 0 <= j < i ==> !is_string(json_at(json_at(*source, "cursor"@), "session"@), (#[trigger] cursors@[j]).session@),
        decreases cursors.len() - i,
    {
        if chars_eq(chars_of(cursors[i].session.as_str()).as_slice(), chars_of(s.as_str()).as_slice()) {
            return Some(i);
        }
        i = i + 1;
    }
    None
}

// ── Evaluation cases and deferred problems ──────────────────────────

/// Why an ungrounded case loses its check.
pub fn ungrounded_case_reason() -> (r: &'static str)
    ensures
        r@ == "Dataset review could not establish a grounded, self-contained answer"@,
{
    "Dataset review could not establish a grounded, self-contained answer"
}

/// A proposed evaluation case, by what grounding reads of it.
pub struct CaseGrounding {
    pub episode_ref: String,
    pub evidence: Vec<String>,
    /// The equivalence links of its classification, when it has one.
    pub related_refs: Option<Vec<String>>,
}

/// A case is grounded when it is classified against known cases only and
/// its opener and evidence are records of this window or recovered ones.
pub open spec fn grounded(c: CaseGrounding, known_cases: Seq<String>, records: Seq<JsonValue>, historical: Seq<String>) -> bool {
    &&& c.related_refs matches Some(rel) && forall|i: int| 0 <= i < rel@.len() ==> texts(known_cases).contains(#[trigger] rel@[i]@)
    &&& (has_record(records, c.episode_ref@) || texts(historical).contains(c.episode_ref@))
    &&& forall|i: int| 0 <= i < c.evidence@.len() ==> (has_record(records, (#[trigger] c.evidence@[i])@) || texts(historical).contains(c.evidence@[i]@))
}

/// Whether a proposed case is grounded.
pub fn case_grounded(c: &CaseGrounding, known_cases: &[String], records: &[JsonValue], historical: &[String]) -> (r: bool)
    ensures
        r == grounded(*c, known_cases@, records@, historical@),
{
    let rel = match &c.related_refs {
        Some(rel) => rel,
        None => return false,
    };
    let mut i: usize = 0;
    while i < rel.len()
        invariant
            c.related_refs == Some(*rel),
            i <= rel@.len(),
            forall|k: int| 0 <= k < i ==> texts(known_cases@).contains(#[trigger] rel@[k]@),
        decreases rel.len() - i,
    {
        if !text_in(known_cases, &rel[i]) {
            assert(!texts(known_cases@).contains((*rel)@[i as int]@));
            assert(c.related_refs matches Some(x) && x@ == (*rel)@);
            return false;
        }
        i = i + 1;
    }
    if !(find_record(records, &c.episode_ref) || text_in(historical, &c.episode_ref)) {
        return false;
    }
    let mut e: usize = 0;
    while e < c.evidence.len()
        invariant
            e <= c.evidence@.len(),
            forall|k: int| 0 <= k < e ==> (has_record(records@, (#[trigger] c.evidence@[k])@) || texts(historical@).contains(c.evidence@[k]@)),
        decreases c.evidence.len() - e,
    {
        if !(find_record(records, &c.evidence[e]) || text_in(historical, &c.evidence[e])) {
            assert(!(has_record(records@, c.evidence@[e as int]@) || texts(historical@).contains(c.evidence@[e as int]@)));
            return false;
        }
        e = e + 1;
    }
    true
}

/// A known problem not yet addressed by a prompt revision.
pub open spec fn unaddressed(problem: JsonValue) -> bool {
    json_at(problem, "prompt_revision_id"@) == JsonValue::Null
}

/// A text member, empty when absent or not text.
pub open spec fn text_or_empty(v: JsonValue) -> Seq<char> {
    match v {
        JsonValue::Str(s) => s@,
        _ => Seq::empty(),
    }
}

/// A deferred problem the analysis did not report again: its key,
/// description, opener and evidence from its first episode.
pub struct DeferredProblem {
    pub key: String,
    pub description: String,
    pub episode_ref: String,
    pub evidence: Vec<String>,
}

/// The known problem is carried into this revision: unaddressed, not
/// reported by the analysis, and with a first episode.
pub open spec fn carried(problem: JsonValue, reported: Seq<String>) -> bool {
    &&& unaddressed(problem)
    &&& !(json_at(problem, "key"@) matches JsonValue::Str(k) && texts(reported).contains(k@))
    &&& json_at(problem, "episodes"@) matches JsonValue::Array(eps) && eps@.len() > 0
}

/// The first episode of a problem.
pub open spec fn first_episode(problem: JsonValue) -> JsonValue {
    match json_at(problem, "episodes"@) {
        JsonValue::Array(eps) => eps@[0],
        _ => JsonValue::Null,
    }
}

/// `d` is `problem` as a deferred problem.
pub open spec fn deferred_from(d: DeferredProblem, problem: JsonValue) -> bool {
    &&& d.key@ == text_or_empty(json_at(problem, "key"@))
    &&& d.description@ == text_or_empty(json_at(problem, "description"@))
    &&& d.episode_ref@ == text_or_empty(json_at(first_episode(problem), "episode_ref"@))
    &&& json_at(first_episode(problem), "evidence"@) matches JsonValue::Array(ev) && all_strings_of(ev@, d.evidence@)
}

/// `items` are the strings `texts`, in order.
pub open spec fn all_strings_of(items: Seq<JsonValue>, out: Seq<String>) -> bool {
    items.len() == out.len() && forall|i: int| 0 <= i < items.len() ==> is_string(#[trigger] items[i], out[i]@)
}

/// The carried problems of a prefix of the known problems, in order.
pub open spec fn carried_count(ps: Seq<JsonValue>, reported: Seq<String>) -> nat
    decreases ps.len(),
{
    if ps.len() == 0 {
        0
    } else {
        carried_count(ps.drop_last(), reported) + if carried(ps.last(), reported) { 1nat } else { 0nat }
    }
}

fn string_list(v: &JsonValue) -> (r: Option<Vec<String>>)
    ensures
        match r {
            Some(out) => v matches JsonValue::Array(items) && all_strings_of(items@, out@),
            None => !(v matches JsonValue::Array(items) && crate::behavior::all_strings(items@)),
        },
{
    match v {
        JsonValue::Array(items) => {
            let mut out: Vec<String> = Vec::new();
            let mut i: usize = 0;
            while i < items.len()
                invariant
                    *v == JsonValue::Array(*items),
                    i <= items@.len(),
                    out@.len() == i,
                    forall|k: int| 0 <= k < i ==> is_string(#[trigger] items@[k], out@[k]@),
                decreases items.len() - i,
            {
                match &items[i] {
                    JsonValue::Str(s) => out.push(owned(s.as_str())),
                    _ => {
                        assert(!crate::behavior::all_strings((*items)@));
                        return None;
                    },
                }
                i = i + 1;
            }
            Some(out)
        },
        _ => None,
    }
}

fn text_member_or_empty(v: &JsonValue, key: &str) -> (r: String)
    ensures
        r@ == text_or_empty(json_at(*v, key@)),
{
    match json_get(v, key) {
        Some(JsonValue::Str(s)) => owned(s.as_str()),
        _ => String::new(),
    }
}

/// The unaddressed known problems the analysis did not report again, read
/// once the source is complete so that their intervention is not lost. A
/// stored episode whose evidence is not a list of strings is an error.
pub fn deferred_problems(known_problems: &JsonValue, reported_keys: &[String]) -> (r: Result<Vec<DeferredProblem>, AppError>)
    ensures
        match r {
            Ok(out) => known_problems matches JsonValue::Array(ps) ==> (out@.len() == carried_count(ps@, reported_keys@)
                && forall|i: int, k: int| 0 <= i < ps@.len() && carried(#[trigger] ps@[i], reported_keys@) && k == carried_count(ps@.take(i), reported_keys@) ==> deferred_from(#[trigger] out@[k], ps@[i])),
            Err(e) => e matches AppError::Internal(m) && m@ == "Stored problem evidence is invalid"@,
        },
        !(known_problems is Array) ==> (r matches Ok(out) && out@.len() == 0),
{
    let mut out: Vec<DeferredProblem> = Vec::new();
    let ps = match known_problems {
        JsonValue::Array(ps) => ps,
        _ => return Ok(out),
    };
    let mut p: usize = 0;
    while p < ps.len()
        invariant
            *known_problems == JsonValue::Array(*ps),
            p <= ps@.len(),
            out@.len() == carried_count(ps@.take(p as int), reported_keys@),
            forall|i: int, k: int| 0 <= i < p && carried(#[trigger] ps@[i], reported_keys@) && k == carried_count(ps@.take(i), reported_keys@) ==> deferred_from(#[trigger] out@[k], ps@[i]),
        decreases ps.len() - p,
    {
        let ghost t = ps@.take(p + 1);
        proof {
            assert(t.drop_last() =~= ps@.take(p as int));
            assert(t.last() == ps@[p as int]);
        }
        let problem = &ps[p];
        let open = match json_get(problem, "prompt_revision_id") {
            None => true,
            Some(JsonValue::Null) => true,
            _ => false,
        };
        let reported = match json_get(problem, "key") {
            Some(JsonValue::Str(k)) => text_in(reported_keys, k),
            _ => false,
        };
        let episode = match json_get(problem, "episodes") {
            Some(JsonValue::Array(eps)) => if eps.len() > 0 {
                Some(&eps[0])
            } else {
                None
            },
            _ => None,
        };
        if open && !reported && episode.is_some() {
            let ep = episode.unwrap();
            let evidence = match json_get(ep, "evidence") {
                Some(v) => string_list(v),
                None => None,
            };
            let evidence = match evidence {
                Some(e) => e,
                None => return Err(AppError::Internal(owned("Stored problem evidence is invalid"))),
            };
            let d = DeferredProblem {
                key: text_member_or_empty(problem, "key"),
                description: text_member_or_empty(problem, "description"),
                episode_ref: text_member_or_empty(ep, "episode_ref"),
                evidence,
            };
            proof {
                assert(carried(ps@[p as int], reported_keys@));
                assert(deferred_from(d, ps@[p as int]));
            }
            out.push(d);
        } else {
            proof {
                assert(!carried(ps@[p as int], reported_keys@));
            }
        }
        proof {
            assert forall|i: int, k: int| 0 <= i < p + 1 && carried(#[trigger] ps@[i], reported_keys@) && k == carried_count(ps@.take(i), reported_keys@) implies deferred_from(#[trigger] out@[k], ps@[i]) by {
                if i < p {
                    lemma_carried_count_bound(ps@, reported_keys@, i, p as int);
                }
            }
        }
        p = p + 1;
    }
    assert(ps@.take(ps@.len() as int) =~= ps@);
    Ok(out)
}

/// Counting carried problems over a prefix never exceeds a longer prefix,
/// and a carried problem at `i` is counted before `j > i` ends.
proof fn lemma_carried_count_bound(ps: Seq<JsonValue>, reported: Seq<String>, i: int, j: int)
    requires
        0 <= i < j <= ps.len(),
        carried(ps[i], reported),
    ensures
        carried_count(ps.take(i), reported) < carried_count(ps.take(j), reported),
    decreases j - i,
{
    let t = ps.take(j);
    assert(t.drop_last() =~= ps.take(j - 1));
    assert(t.last() == ps[j - 1]);
    if j - 1 > i {
        lemma_carried_count_bound(ps, reported, i, j - 1);
    } else {
        assert(ps.take(j - 1) =~= ps.take(i));
    }
}


// ── Source selection records ────────────────────────────────────────

/// The selection record of a review that found nothing new to analyse; the
/// review stops there, after saving the checkpoint (see `saves_source_only`).
pub fn no_new_records_record(unread: bool) -> (r: JsonValue)
    ensures
        r matches JsonValue::Object(m) && m@.len() == 2 && m@[0].0@ == "outcome"@ && is_string(
            m@[0].1,
            "no_new_records"@,
        ) && m@[1].0@ == "unread"@ && m@[1].1 == JsonValue::Bool(unread),
{
    let mut m: Vec<(String, JsonValue)> = Vec::new();
    m.push((owned("outcome"), JsonValue::Str(owned("no_new_records"))));
    m.push((owned("unread"), JsonValue::Bool(unread)));
    JsonValue::Object(m)
}

/// With nothing new to analyse, the checkpoint is saved (with the
/// withdrawn evaluation cases, and without activating anything) only when it
/// moved or some case was withdrawn.
pub fn saves_source_only(checkpoint: &JsonValue, previous_cursor: &JsonValue, withdrawals: usize) -> (r: bool)
    ensures
        r == (!json_eq(*checkpoint, *previous_cursor) || withdrawals > 0),
{
    !json_equal(checkpoint, previous_cursor) || withdrawals > 0
}

/// The selection record of a window whose digest was analysed before; the
/// review stops there.
pub fn already_analyzed_record(digest: &str) -> (r: JsonValue)
    ensures
        r matches JsonValue::Object(m) && m@.len() == 2 && m@[0].0@ == "outcome"@ && is_string(
            m@[0].1,
            "already_analyzed"@,
        ) && m@[1].0@ == "source_digest"@ && is_string(m@[1].1, digest@),
{
    let mut m: Vec<(String, JsonValue)> = Vec::new();
    m.push((owned("outcome"), JsonValue::Str(owned("already_analyzed"))));
    m.push((owned("source_digest"), JsonValue::Str(owned(digest))));
    JsonValue::Object(m)
}

/// The selection record of a window sent to analysis: its digest, its
/// cursor, and whether it completes the source (its `more` is `false`).
pub fn selected_record(digest: &str, cursor: JsonValue, more: &JsonValue) -> (r: JsonValue)
    ensures
        r matches JsonValue::Object(m) && m@.len() == 4 && m@[0].0@ == "outcome"@ && is_string(
            m@[0].1,
            "selected"@,
        ) && m@[1].0@ == "source_complete"@ && m@[1].1 == JsonValue::Bool(
            *more == JsonValue::Bool(false),
        ) && m@[2].0@ == "source_cursor"@ && m@[2].1 == cursor && m@[3].0@ == "source_digest"@
            && is_string(m@[3].1, digest@),
{
    let complete = match more {
        JsonValue::Bool(b) => !*b,
        _ => false,
    };
    let mut m: Vec<(String, JsonValue)> = Vec::new();
    m.push((owned("outcome"), JsonValue::Str(owned("selected"))));
    m.push((owned("source_complete"), JsonValue::Bool(complete)));
    m.push((owned("source_cursor"), cursor));
    m.push((owned("source_digest"), JsonValue::Str(owned(digest))));
    JsonValue::Object(m)
}

// ── The order of a review ───────────────────────────────────────────

/// Where a review stands.
#[derive(Debug, Clone, Copy, PartialEq, Eq, Structural)]
pub enum ReviewPhase {
    /// The source windows are read and one is selected (`select_source`).
    Selecting,
    /// Asking whether the selected window was analysed before.
    CheckingSeen,
    /// The analyst analyses the window.
    Analysing,
    /// Records the analysis cites outside the window are recovered.
    Recovering,
    /// Proposed evaluation cases are grounded and inspected.
    AdmittingCases,
    Done,
}

/// A review of one learning claim: where it stands, whether the claim
/// collects evaluation cases, whether the selected window leaves more
/// unread, and how many cases the analysis proposed.
#[derive(Debug, Clone, Copy)]
pub struct ReviewRun {
    pub phase: ReviewPhase,
    pub trace_cases: bool,
    pub more: bool,
    pub cases: usize,
}

/// What the outside world answers a review.
#[derive(Debug, Clone, Copy)]
pub enum ReviewEvent {
    /// The selection: whether a window was selected, whether anything is
    /// still unread, and whether the selected window leaves more unread.
    Selected { window: bool, unread: bool, more: bool },
    /// Whether the selected window's digest was analysed before.
    Seen(bool),
    /// The analysis came back proposing `cases` evaluation cases.
    Analysed { cases: usize },
    /// The cited records outside the window were looked up.
    Recovered,
    /// The proposed cases were grounded and inspected.
    CasesAdmitted,
}

/// What a review does next.
#[derive(Debug)]
pub enum ReviewAction {
    /// Nothing new: record `no_new_records`, finish the curation page when
    /// the claim collects cases (`Some(complete)`), save the checkpoint when
    /// `saves_source_only` says so, and stop.
    NothingNew { record: JsonValue, curate: Option<bool> },
    /// Ask whether the window's digest was analysed before.
    CheckSeen,
    /// Record `already_analyzed` and stop.
    AlreadyAnalyzed,
    /// Record `selected` and send the window to the analyst.
    Analyse,
    /// Look up the cited records the window does not hold.
    RecoverMissing,
    /// Ground and inspect the proposed evaluation cases.
    AdmitCases,
    /// Finish the curation page when the claim collects cases
    /// (`Some(complete)`), then check the analysis and its instruction and
    /// save the result.
    Conclude { curate: Option<bool> },
}

/// The event answers what the review waits for.
pub open spec fn review_accepts(r: ReviewRun, e: ReviewEvent) -> bool {
    match r.phase {
        ReviewPhase::Selecting => e is Selected,
        ReviewPhase::CheckingSeen => e is Seen,
        ReviewPhase::Analysing => e is Analysed,
        ReviewPhase::Recovering => e is Recovered,
        ReviewPhase::AdmittingCases => e is CasesAdmitted,
        ReviewPhase::Done => false,
    }
}

/// The curation page a step finishes: only for claims that collect cases.
pub open spec fn curation(trace_cases: bool, complete: bool) -> Option<bool> {
    if trace_cases {
        Some(complete)
    } else {
        None
    }
}

impl ReviewRun {
    /// A review about to read its sources.
    pub fn start(trace_cases: bool) -> (r: ReviewRun)
        ensures
            r.phase == ReviewPhase::Selecting,
            r.trace_cases == trace_cases,
    {
        ReviewRun { phase: ReviewPhase::Selecting, trace_cases, more: false, cases: 0 }
    }

    /// One step of a review. With nothing new the review records so, ends
    /// the curation page (complete when nothing is unread) and stops; a
    /// window analysed before stops it; otherwise the window is analysed,
    /// the records it cites are recovered, proposed cases are admitted when
    /// there are any, and the review concludes, ending the curation page
    /// (complete when the window leaves nothing unread).
    pub fn step(self, event: ReviewEvent) -> (r: (ReviewRun, ReviewAction))
        requires
            review_accepts(self, event),
        ensures
            r.0.trace_cases == self.trace_cases,
            match (self.phase, event) {
                (ReviewPhase::Selecting, ReviewEvent::Selected { window, unread, more }) => if window {
                    r.0.phase == ReviewPhase::CheckingSeen && r.0.more == more && r.1 is CheckSeen
                } else {
                    r.1 matches ReviewAction::NothingNew { record: rec, curate } && curate == curation(
                        self.trace_cases,
                        !unread,
                    ) && (rec matches JsonValue::Object(m) && m@.len() == 2 && m@[0].0@ == "outcome"@
                        && is_string(m@[0].1, "no_new_records"@) && m@[1].0@ == "unread"@ && m@[1].1
                        == JsonValue::Bool(unread)) && r.0.phase == ReviewPhase::Done
                },
                (ReviewPhase::CheckingSeen, ReviewEvent::Seen(seen)) => if seen {
                    r.0.phase == ReviewPhase::Done && r.1 is AlreadyAnalyzed
                } else {
                    r.0.phase == ReviewPhase::Analysing && r.0.more == self.more && r.1 is Analyse
                },
                (ReviewPhase::Analysing, ReviewEvent::Analysed { cases }) => r.0.phase == ReviewPhase::Recovering
                    && r.0.more == self.more && r.0.cases == cases && r.1 is RecoverMissing,
                (ReviewPhase::Recovering, ReviewEvent::Recovered) => if self.cases > 0 {
                    r.0.phase == ReviewPhase::AdmittingCases && r.0.more == self.more && r.1 is AdmitCases
                } else {
                    r.1 matches ReviewAction::Conclude { curate } && curate == curation(self.trace_cases, !self.more)
                        && r.0.phase == ReviewPhase::Done
                },
                (ReviewPhase::AdmittingCases, ReviewEvent::CasesAdmitted) => r.1 matches ReviewAction::Conclude {
                    curate,
                } && curate == curation(self.trace_cases, !self.more) && r.0.phase == ReviewPhase::Done,
                _ => false,
            },
    {
        let run = self;
        match (run.phase, event) {
            (ReviewPhase::Selecting, ReviewEvent::Selected { window, unread, more }) => {
                if window {
                    (ReviewRun { phase: ReviewPhase::CheckingSeen, more, ..run }, ReviewAction::CheckSeen)
                } else {
                    let curate = if run.trace_cases {
                        Some(!unread)
                    } else {
                        None
                    };
                    (
                        ReviewRun { phase: ReviewPhase::Done, ..run },
                        ReviewAction::NothingNew { record: no_new_records_record(unread), curate },
                    )
                }
            },
            (ReviewPhase::CheckingSeen, ReviewEvent::Seen(seen)) => {
                if seen {
                    (ReviewRun { phase: ReviewPhase::Done, ..run }, ReviewAction::AlreadyAnalyzed)
                } else {
                    (ReviewRun { phase: ReviewPhase::Analysing, ..run }, ReviewAction::Analyse)
                }
            },
            (ReviewPhase::Analysing, ReviewEvent::Analysed { cases }) => (
                ReviewRun { phase: ReviewPhase::Recovering, cases, ..run },
                ReviewAction::RecoverMissing,
            ),
            (ReviewPhase::Recovering, ReviewEvent::Recovered) => {
                if run.cases > 0 {
                    (ReviewRun { phase: ReviewPhase::AdmittingCases, ..run }, ReviewAction::AdmitCases)
                } else {
                    (ReviewRun { phase: ReviewPhase::Done, ..run }, ReviewAction::Conclude { curate: run.conclusion() })
                }
            },
            _ => (ReviewRun { phase: ReviewPhase::Done, ..run }, ReviewAction::Conclude { curate: run.conclusion() }),
        }
    }

    fn conclusion(self) -> (r: Option<bool>)
        ensures
            r == curation(self.trace_cases, !self.more),
    {
        if self.trace_cases {
            Some(!self.more)
        } else {
            None
        }
    }
}

// ── Review diagnostics ──────────────────────────────────────────────

/// Member `i` of `f` is `key` holding the boolean `b`.
pub open spec fn flag_at(f: Seq<(String, JsonValue)>, i: int, key: Seq<char>, b: bool) -> bool {
    f[i].0@ == key && f[i].1 == JsonValue::Bool(b)
}

/// The diagnostics of a content review: `{"addressed_problems_match",
/// "evidence_verified", "instruction_matches", "passed", "reviewer_report"}`
/// in that (map) order; it passes when all three checks hold, and the
/// verifying analyst's report is scrubbed as telemetry is.
pub open spec fn review_diagnostics_are(
    r: JsonValue,
    instruction_matches: bool,
    evidence_verified: bool,
    addressed_match: bool,
    report: JsonValue,
) -> bool {
    match r {
        JsonValue::Object(f) => {
            &&& f@.len() == 5
            &&& flag_at(f@, 0, "addressed_problems_match"@, addressed_match)
            &&& flag_at(f@, 1, "evidence_verified"@, evidence_verified)
            &&& flag_at(f@, 2, "instruction_matches"@, instruction_matches)
            &&& flag_at(f@, 3, "passed"@, instruction_matches && evidence_verified && addressed_match)
            &&& f@[4].0@ == "reviewer_report"@
            &&& sanitized(report, f@[4].1)
        },
        _ => false,
    }
}

/// What the verifying analyst found of a proposed instruction: whether it
/// saw the instruction that was proposed, whether every piece of evidence
/// it cites is known (`evidence_known`, one flag per citation), and whether
/// it addresses the same problems (as sets); with the analyst's own report,
/// scrubbed of secrets.
pub fn review_diagnostics(
    instruction: &str,
    addressed: &[String],
    reported_instruction: Option<&str>,
    evidence_known: &[bool],
    reported_addressed: &[String],
    reviewer_report: JsonValue,
) -> (r: JsonValue)
    ensures
        review_diagnostics_are(
            r,
            reported_instruction matches Some(s) && s@ == instruction@,
            forall|j: int| 0 <= j < evidence_known@.len() ==> #[trigger] evidence_known@[j],
            text_set(texts(reported_addressed@)) == text_set(texts(addressed@)),
            reviewer_report,
        ),
{
    let instruction_matches = match reported_instruction {
        Some(s) => chars_eq(chars_of(s).as_slice(), chars_of(instruction).as_slice()),
        None => false,
    };
    let mut evidence_verified = true;
    let mut i: usize = 0;
    while i < evidence_known.len()
        invariant
            i <= evidence_known@.len(),
            evidence_verified == forall|j: int| 0 <= j < i ==> #[trigger] evidence_known@[j],
        decreases evidence_known.len() - i,
    {
        evidence_verified = evidence_verified && evidence_known[i];
        i = i + 1;
    }
    let mut covered = true;
    let mut a: usize = 0;
    while a < reported_addressed.len()
        invariant
            a <= reported_addressed@.len(),
            covered == forall|j: int|
                0 <= j < a ==> texts(addressed@).contains(#[trigger] texts(reported_addressed@)[j]),
        decreases reported_addressed.len() - a,
    {
        assert(texts(reported_addressed@)[a as int] == reported_addressed@[a as int]@);
        covered = covered && text_in(addressed, &reported_addressed[a]);
        a = a + 1;
    }
    let mut covering = true;
    let mut b: usize = 0;
    while b < addressed.len()
        invariant
            b <= addressed@.len(),
            covering == forall|j: int|
                0 <= j < b ==> texts(reported_addressed@).contains(#[trigger] texts(addressed@)[j]),
        decreases addressed.len() - b,
    {
        assert(texts(addressed@)[b as int] == addressed@[b as int]@);
        covering = covering && text_in(reported_addressed, &addressed[b]);
        b = b + 1;
    }
    let addressed_match = covered && covering;
    proof {
        let x = texts(reported_addressed@);
        let y = texts(addressed@);
        if addressed_match {
            assert forall|t: Seq<char>| text_set(x).contains(t) <==> text_set(y).contains(t) by {
                if x.contains(t) {
                    let j = choose|j: int| 0 <= j < x.len() && x[j] == t;
                    assert(y.contains(x[j]));
                }
                if y.contains(t) {
                    let j = choose|j: int| 0 <= j < y.len() && y[j] == t;
                    assert(x.contains(y[j]));
                }
            }
            assert(text_set(x) =~= text_set(y));
        } else if !covered {
            let j = choose|j: int| 0 <= j < x.len() && !y.contains(#[trigger] x[j]);
            assert(text_set(x).contains(x[j]));
            assert(!text_set(y).contains(x[j]));
        } else {
            let j = choose|j: int| 0 <= j < y.len() && !x.contains(#[trigger] y[j]);
            assert(text_set(y).contains(y[j]));
            assert(!text_set(x).contains(y[j]));
        }
    }
    let report = sanitize_telemetry_value(reviewer_report);
    let mut f: Vec<(String, JsonValue)> = Vec::new();
    f.push((owned("addressed_problems_match"), JsonValue::Bool(addressed_match)));
    f.push((owned("evidence_verified"), JsonValue::Bool(evidence_verified)));
    f.push((owned("instruction_matches"), JsonValue::Bool(instruction_matches)));
    f.push(
        (
            owned("passed"),
            JsonValue::Bool(instruction_matches && evidence_verified && addressed_match),
        ),
    );
    f.push((owned("reviewer_report"), report));
    JsonValue::Object(f)
}
} // verus!
