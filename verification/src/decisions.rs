//! Decision programs: what a run or an execution of a selected program
//! requires, and which training examples a program builder may see.
use vstd::prelude::*;
use vstd::utf8::encode_utf8;
use crate::experience::{failure, failure_category, json_at, json_clone, json_eq, json_get};
use crate::redaction::AppError;
use crate::runtime_bindings::is_string;
use crate::telemetry::JsonValue;
use crate::text::{bytes_of, chars_eq, chars_of, owned, trim, trim_str};

verus! {

/// Longest program input, in bytes.
pub const MAX_PROGRAM_INPUT_BYTES: usize = 16000;

/// A program input must hold something besides whitespace and fit in 16000 bytes.
pub fn check_program_input(input: &str) -> (r: Result<(), AppError>)
    ensures
        (trim(input@).len() > 0 && encode_utf8(input@).len() <= MAX_PROGRAM_INPUT_BYTES) ==> r is Ok,
        !(trim(input@).len() > 0 && encode_utf8(input@).len() <= MAX_PROGRAM_INPUT_BYTES) ==> (r matches Err(e)
            && e matches AppError::Validation(m) && m@ == "Program input must contain 1 to 16000 bytes"@),
{
    let t = chars_of(trim_str(input));
    let b = bytes_of(input);
    if t.len() == 0 || b.len() > MAX_PROGRAM_INPUT_BYTES {
        return Err(AppError::Validation(owned("Program input must contain 1 to 16000 bytes")));
    }
    Ok(())
}

/// The model a stored program was tested with (`trial.resolved_model`).
pub fn tested_model(trial: &JsonValue) -> (r: Result<String, AppError>)
    ensures
        match json_at(*trial, "resolved_model"@) {
            JsonValue::Str(m) => r matches Ok(x) && x@ == m@,
            _ => r matches Err(e) && e matches AppError::Conflict(m) && m@
                == "Program has no tested model identity"@,
        },
{
    match json_get(trial, "resolved_model") {
        Some(JsonValue::Str(m)) => Ok(owned(m.as_str())),
        _ => Err(AppError::Conflict(owned("Program has no tested model identity"))),
    }
}

/// An execution's result is published only when the provider ran the
/// tested model and the selection did not change meanwhile.
pub fn check_execution_result(result_model: &str, tested_model: &str, current_revision: &str, executed_revision: &str) -> (r: Result<(), AppError>)
    ensures
        result_model@ != tested_model@ ==> (r matches Err(e) && e matches AppError::Conflict(m) && m@
            == "Provider model changed; revalidate the program before use"@),
        result_model@ == tested_model@ && current_revision@ != executed_revision@ ==> (r matches Err(e)
            && e matches AppError::Conflict(m) && m@ == "Selected program changed during execution"@),
        result_model@ == tested_model@ && current_revision@ == executed_revision@ ==> r is Ok,
{
    if !chars_eq(chars_of(result_model).as_slice(), chars_of(tested_model).as_slice()) {
        return Err(AppError::Conflict(owned("Provider model changed; revalidate the program before use")));
    }
    if !chars_eq(chars_of(current_revision).as_slice(), chars_of(executed_revision).as_slice()) {
        return Err(AppError::Conflict(owned("Selected program changed during execution")));
    }
    Ok(())
}

/// What is recorded of a completed execution: whether the program
/// abstained, the model and its usage (members sorted by name).
pub fn execution_outcome(abstained: bool, model: &str, usage: JsonValue) -> (r: JsonValue)
    ensures
        match r {
            JsonValue::Object(m) => m@.len() == 4 && m@[0].0@ == "abstained"@ && m@[0].1
                == JsonValue::Bool(abstained) && m@[1].0@ == "model"@ && is_string(m@[1].1, model@)
                && m@[2].0@ == "outcome"@ && is_string(m@[2].1, "completed"@) && m@[3].0@
                == "usage"@ && m@[3].1 == usage,
            _ => false,
        },
{
    let mut m: Vec<(String, JsonValue)> = Vec::new();
    m.push((owned("abstained"), JsonValue::Bool(abstained)));
    m.push((owned("model"), JsonValue::Str(owned(model))));
    m.push((owned("outcome"), JsonValue::Str(owned("completed"))));
    m.push((owned("usage"), usage));
    JsonValue::Object(m)
}

/// A decision run sends the supplied state to TypeSafe only with the
/// caller's permission.
pub fn check_transmission_permission(transmit_to_typesafe: bool) -> (r: Result<(), AppError>)
    ensures
        transmit_to_typesafe ==> r is Ok,
        !transmit_to_typesafe ==> (r matches Err(e) && e matches AppError::Forbidden(m) && m@
            == "Decision inference requires permission to send the supplied state to TypeSafe"@),
{
    if !transmit_to_typesafe {
        return Err(
            AppError::Forbidden(
                owned("Decision inference requires permission to send the supplied state to TypeSafe"),
            ),
        );
    }
    Ok(())
}

/// A program builder must be a Codex terminal binding.
pub fn check_program_builder(driver_type: &str) -> (r: Result<(), AppError>)
    ensures
        driver_type@ == "codex_terminal"@ ==> r is Ok,
        driver_type@ != "codex_terminal"@ ==> (r matches Err(e) && e matches AppError::Validation(m)
            && m@ == "Select a Codex program builder"@),
{
    if !chars_eq(chars_of(driver_type).as_slice(), chars_of("codex_terminal").as_slice()) {
        return Err(AppError::Validation(owned("Select a Codex program builder")));
    }
    Ok(())
}

// ── Training examples ───────────────────────────────────────────────

/// Where an evaluation case came from: the episode and the evidence records.
#[derive(Debug)]
pub struct CaseSource {
    pub episode_ref: String,
    pub evidence: Vec<String>,
}

/// An evaluation case as the builder's examples read it.
#[derive(Debug)]
pub struct EvaluationCase {
    /// The case is in the training split.
    pub train: bool,
    pub source: Option<CaseSource>,
    pub input: String,
    /// The case's check, as JSON.
    pub check: JsonValue,
}

/// `r` is referenced by a case outside the training split (its episode or
/// one of its evidence records): it never reaches the builder.
pub open spec fn protected_ref(cases: Seq<EvaluationCase>, r: Seq<char>) -> bool {
    exists|c: int|
        0 <= c < cases.len() && !(#[trigger] cases[c]).train && match cases[c].source {
            Some(s) => s.episode_ref@ == r || exists|e: int|
                0 <= e < s.evidence@.len() && #[trigger] s.evidence@[e]@ == r,
            None => false,
        }
}

/// Index of the first record whose `ref` is `r`.
pub open spec fn record_for(records: Seq<JsonValue>, r: Seq<char>) -> Option<int>
    decreases records.len(),
{
    if records.len() == 0 {
        None
    } else {
        match record_for(records.drop_last(), r) {
            Some(i) => Some(i),
            None => if is_string(json_at(records.last(), "ref"@), r) {
                Some(records.len() - 1)
            } else {
                None
            },
        }
    }
}

/// The records a training case shows the builder: for each of its
/// evidence references that no held-out case uses, in order, the first
/// record with that reference (references without a record are skipped).
pub open spec fn shown_records(cases: Seq<EvaluationCase>, evidence: Seq<String>, records: Seq<JsonValue>) -> Seq<JsonValue>
    decreases evidence.len(),
{
    if evidence.len() == 0 {
        seq![]
    } else {
        let before = shown_records(cases, evidence.drop_last(), records);
        let r = evidence.last()@;
        if protected_ref(cases, r) {
            before
        } else {
            match record_for(records, r) {
                Some(i) => before.push(records[i]),
                None => before,
            }
        }
    }
}

/// The training cases, in order.
pub open spec fn training_cases(cases: Seq<EvaluationCase>) -> Seq<EvaluationCase>
    decreases cases.len(),
{
    if cases.len() == 0 {
        seq![]
    } else {
        let before = training_cases(cases.drop_last());
        if cases.last().train {
            before.push(cases.last())
        } else {
            before
        }
    }
}

pub open spec fn all_json_eq(a: Seq<JsonValue>, b: Seq<JsonValue>) -> bool {
    a.len() == b.len() && forall|i: int| 0 <= i < a.len() ==> json_eq(#[trigger] a[i], b[i])
}

/// `example` is what the builder sees of training case `case`: the
/// evidence records it may see, its check and its input.
pub open spec fn training_example(cases: Seq<EvaluationCase>, case: EvaluationCase, records: Seq<JsonValue>, example: JsonValue) -> bool {
    let shown = match case.source {
        Some(s) => shown_records(cases, s.evidence@, records),
        None => seq![],
    };
    match example {
        JsonValue::Object(m) => {
            &&& m@.len() == 3
            &&& m@[0].0@ == "action_evidence"@
            &&& m@[0].1 matches JsonValue::Array(ev) && all_json_eq(ev@, shown)
            &&& m@[1].0@ == "check"@
            &&& json_eq(m@[1].1, case.check)
            &&& m@[2].0@ == "input"@
            &&& is_string(m@[2].1, case.input@)
        },
        _ => false,
    }
}

fn protected_exec(cases: &[EvaluationCase], r: &String) -> (b: bool)
    ensures
        b == protected_ref(cases@, r@),
{
    let rv = chars_of(r.as_str());
    let mut c: usize = 0;
    while c < cases.len()
        invariant
            c <= cases@.len(),
            rv@ == r@,
            forall|k: int|
                0 <= k < c ==> !(!(#[trigger] cases@[k]).train && match cases@[k].source {
                    Some(s) => s.episode_ref@ == r@ || exists|e: int|
                        0 <= e < s.evidence@.len() && #[trigger] s.evidence@[e]@ == r@,
                    None => false,
                }),
        decreases cases.len() - c,
    {
        if !cases[c].train {
            match &cases[c].source {
                Some(s) => {
                    if chars_eq(chars_of(s.episode_ref.as_str()).as_slice(), rv.as_slice()) {
                        return true;
                    }
                    let mut e: usize = 0;
                    while e < s.evidence.len()
                        invariant
                            e <= s.evidence@.len(),
                            rv@ == r@,
                            c < cases@.len(),
                            !cases@[c as int].train,
                            cases@[c as int].source == Some(*s),
                            forall|k: int| 0 <= k < e ==> #[trigger] s.evidence@[k]@ != r@,
                        decreases s.evidence.len() - e,
                    {
                        if chars_eq(chars_of(s.evidence[e].as_str()).as_slice(), rv.as_slice()) {
                            assert(s.evidence@[e as int]@ == r@);
                            assert(protected_ref(cases@, r@)) by {
                                assert(!cases@[c as int].train && match cases@[c as int].source {
                                    Some(s2) => s2.episode_ref@ == r@ || exists|e2: int|
                                        0 <= e2 < s2.evidence@.len() && #[trigger] s2.evidence@[e2]@ == r@,
                                    None => false,
                                });
                            }
                            return true;
                        }
                        e = e + 1;
                    }
                },
                None => {},
            }
        }
        c = c + 1;
    }
    false
}

proof fn lemma_record_for_is(records: Seq<JsonValue>, r: Seq<char>, k: int)
    requires
        0 <= k <= records.len(),
        forall|j: int| 0 <= j < k ==> !is_string(json_at(#[trigger] records[j], "ref"@), r),
        k < records.len() ==> is_string(json_at(records[k], "ref"@), r),
    ensures
        record_for(records, r) == (if k < records.len() { Some(k) } else { None::<int> }),
    decreases records.len(),
{
    if records.len() > 0 {
        let init = records.drop_last();
        if k < records.len() - 1 {
            lemma_record_for_is(init, r, k);
        } else {
            assert forall|j: int| 0 <= j < init.len() implies !is_string(
                json_at(#[trigger] init[j], "ref"@),
                r,
            ) by {
                assert(init[j] == records[j]);
            }
            lemma_record_for_is(init, r, init.len() as int);
        }
    }
}

fn record_for_exec(records: &[JsonValue], r: &String) -> (i: Option<usize>)
    ensures
        match i {
            Some(k) => record_for(records@, r@) == Some(k as int) && k < records@.len(),
            None => record_for(records@, r@) is None,
        },
{
    let rv = chars_of(r.as_str());
    let mut k: usize = 0;
    while k < records.len()
        invariant
            k <= records@.len(),
            rv@ == r@,
            forall|j: int| 0 <= j < k ==> !is_string(json_at(#[trigger] records@[j], "ref"@), r@),
        decreases records.len() - k,
    {
        let hit = match json_get(&records[k], "ref") {
            Some(JsonValue::Str(s)) => chars_eq(chars_of(s.as_str()).as_slice(), rv.as_slice()),
            _ => false,
        };
        if hit {
            proof {
                lemma_record_for_is(records@, r@, k as int);
            }
            return Some(k);
        }
        k = k + 1;
    }
    proof {
        lemma_record_for_is(records@, r@, records@.len() as int);
    }
    None
}

fn example_for(cases: &[EvaluationCase], case: &EvaluationCase, records: &[JsonValue]) -> (r: JsonValue)
    ensures
        training_example(cases@, *case, records@, r),
{
    let mut evidence: Vec<JsonValue> = Vec::new();
    let ghost mut shown: Seq<JsonValue> = seq![];
    match &case.source {
        Some(s) => {
            let mut e: usize = 0;
            proof {
                assert(s.evidence@.take(0) =~= Seq::<String>::empty());
            }
            while e < s.evidence.len()
                invariant
                    e <= s.evidence@.len(),
                    shown == shown_records(cases@, s.evidence@.take(e as int), records@),
                    all_json_eq(evidence@, shown),
                decreases s.evidence.len() - e,
            {
                let ghost pre = s.evidence@.take(e as int);
                assert(s.evidence@.take(e + 1).drop_last() =~= pre);
                assert(s.evidence@.take(e + 1).last() == s.evidence@[e as int]);
                let r = &s.evidence[e];
                if !protected_exec(cases, r) {
                    match record_for_exec(records, r) {
                        Some(k) => {
                            let c = json_clone(&records[k]);
                            let ghost before = evidence@;
                            evidence.push(c);
                            proof {
                                shown = shown.push(records@[k as int]);
                                assert forall|i: int| 0 <= i < evidence@.len() implies json_eq(
                                    #[trigger] evidence@[i],
                                    shown[i],
                                ) by {
                                    if i < evidence@.len() - 1 {
                                        assert(evidence@[i] == before[i]);
                                    }
                                }
                            }
                        },
                        None => {},
                    }
                }
                e = e + 1;
            }
            assert(s.evidence@.take(s.evidence@.len() as int) =~= s.evidence@);
        },
        None => {},
    }
    let mut m: Vec<(String, JsonValue)> = Vec::new();
    m.push((owned("action_evidence"), JsonValue::Array(evidence)));
    m.push((owned("check"), json_clone(&case.check)));
    m.push((owned("input"), JsonValue::Str(owned(case.input.as_str()))));
    JsonValue::Object(m)
}

/// The examples a program builder is given: one per training case, in
/// order, each with the training evidence it may see. Held-out cases, and
/// any record a held-out case refers to, never reach it.
pub fn training_examples(cases: &[EvaluationCase], records: &[JsonValue]) -> (r: JsonValue)
    ensures
        match r {
            JsonValue::Array(items) => items@.len() == training_cases(cases@).len() && forall|k: int|
                0 <= k < items@.len() ==> training_example(
                    cases@,
                    training_cases(cases@)[k],
                    records@,
                    #[trigger] items@[k],
                ),
            _ => false,
        },
{
    let mut items: Vec<JsonValue> = Vec::new();
    let mut c: usize = 0;
    proof {
        assert(cases@.take(0) =~= Seq::<EvaluationCase>::empty());
    }
    while c < cases.len()
        invariant
            c <= cases@.len(),
            items@.len() == training_cases(cases@.take(c as int)).len(),
            forall|k: int|
                0 <= k < items@.len() ==> training_example(
                    cases@,
                    training_cases(cases@.take(c as int))[k],
                    records@,
                    #[trigger] items@[k],
                ),
        decreases cases.len() - c,
    {
        let ghost pre = training_cases(cases@.take(c as int));
        assert(cases@.take(c + 1).drop_last() =~= cases@.take(c as int));
        assert(cases@.take(c + 1).last() == cases@[c as int]);
        if cases[c].train {
            let ex = example_for(cases, &cases[c], records);
            let ghost before = items@;
            items.push(ex);
            assert forall|k: int| 0 <= k < items@.len() implies training_example(
                cases@,
                training_cases(cases@.take(c + 1))[k],
                records@,
                #[trigger] items@[k],
            ) by {
                if k < pre.len() {
                    assert(items@[k] == before[k]);
                }
            }
        }
        c = c + 1;
    }
    assert(cases@.take(cases@.len() as int) =~= cases@);
    JsonValue::Array(items)
}

proof fn lemma_record_for_found(records: Seq<JsonValue>, r: Seq<char>)
    ensures
        match record_for(records, r) {
            Some(k) => 0 <= k < records.len() && is_string(json_at(records[k], "ref"@), r),
            None => true,
        },
    decreases records.len(),
{
    if records.len() > 0 {
        lemma_record_for_found(records.drop_last(), r);
        match record_for(records.drop_last(), r) {
            Some(k) => {
                assert(records[k] == records.drop_last()[k]);
            },
            None => {},
        }
    }
}

/// A program builder never sees a record that a held-out case refers to:
/// every record shown with a training case carries a reference that no
/// case outside the training split uses.
pub proof fn law_builder_never_sees_held_out_records(
    cases: Seq<EvaluationCase>,
    evidence: Seq<String>,
    records: Seq<JsonValue>,
    i: int,
)
    requires
        0 <= i < shown_records(cases, evidence, records).len(),
    ensures
        match json_at(shown_records(cases, evidence, records)[i], "ref"@) {
            JsonValue::Str(s) => !protected_ref(cases, s@),
            _ => false,
        },
    decreases evidence.len(),
{
    let before = shown_records(cases, evidence.drop_last(), records);
    let r = evidence.last()@;
    if i < before.len() {
        law_builder_never_sees_held_out_records(cases, evidence.drop_last(), records, i);
        if !protected_ref(cases, r) {
            match record_for(records, r) {
                Some(k) => {
                    assert(before.push(records[k])[i] == before[i]);
                },
                None => {},
            }
        }
    } else {
        lemma_record_for_found(records, r);
    }
}


// ── Trying a generated program on the suite ─────────────────────────

/// Where the trial of a generated program stands on its current case.
#[derive(Debug, Clone, Copy, PartialEq, Eq, Structural)]
pub enum TrialPhase {
    /// The lease must be confirmed before the case is decided.
    AwaitClaim,
    /// The program decides the case.
    AwaitDecision,
    /// The lease must be confirmed again before an output is assessed.
    AwaitRecheck,
    /// The output is assessed.
    AwaitAssessment,
    /// The trial is over.
    Done,
}

/// A program tried case by case: how many cases, which is next, whether
/// every case so far scored fully under the model that decided the first
/// case, that model, and the model deciding the current case.
#[derive(Debug)]
pub struct ProgramTrial {
    pub cases: usize,
    pub next: usize,
    pub phase: TrialPhase,
    pub passing: bool,
    pub first_model: Option<String>,
    pub model: Option<String>,
}

/// What the outside world answers a trial.
#[derive(Debug)]
pub enum TrialEvent {
    /// Whether the decision-learning lease is still held.
    ClaimCurrent(bool),
    /// The program decided the case (with or without an output) under `model`.
    Decided { output: bool, model: String },
    /// Deciding the case failed; the failure is recorded.
    DecisionFailed,
    /// The output was assessed; `perfect` when its score is exactly 1.
    Assessed { perfect: bool },
    /// Assessing the output failed; the failure is recorded.
    AssessmentFailed,
}

/// What the trial asks for next.
#[derive(Debug)]
pub enum TrialAction {
    CheckClaim,
    Decide(usize),
    Assess(usize),
    Fail(AppError),
    /// The trial ends; the program is validated or not.
    Finish { validated: bool },
}

pub open spec fn opt_text(o: Option<String>) -> Option<Seq<char>> {
    match o {
        Some(s) => Some(s@),
        None => None,
    }
}

/// The event answers what the trial waits for.
pub open spec fn trial_accepts(t: ProgramTrial, e: TrialEvent) -> bool {
    &&& t.next < t.cases
    &&& match t.phase {
        TrialPhase::AwaitClaim | TrialPhase::AwaitRecheck => e is ClaimCurrent,
        TrialPhase::AwaitDecision => e is Decided || e is DecisionFailed,
        TrialPhase::AwaitAssessment => e is Assessed || e is AssessmentFailed,
        TrialPhase::Done => false,
    }
}

/// After the result of the current case (scored fully or not, decided by
/// `model`) is recorded: the next case, or the end of the trial.
pub open spec fn recorded(t: ProgramTrial, perfect: bool, model: Seq<char>, r: (ProgramTrial, TrialAction)) -> bool {
    let first = if t.next == 0 { model } else { opt_text(t.first_model)->0 };
    let passing = t.passing && perfect && model == first;
    &&& r.0.cases == t.cases
    &&& r.0.next == t.next + 1
    &&& r.0.passing == passing
    &&& opt_text(r.0.first_model) == Some(first)
    &&& if t.next + 1 == t.cases {
        r.1 matches TrialAction::Finish { validated } && validated == passing && r.0.phase == TrialPhase::Done
    } else {
        r.0.phase == TrialPhase::AwaitClaim && r.1 is CheckClaim
    }
}

/// The trial's state is consistent: the first model is known once a case
/// was recorded, and a case being confirmed or assessed has its model.
pub open spec fn trial_ok(t: ProgramTrial) -> bool {
    &&& t.next <= t.cases
    &&& t.next > 0 ==> t.first_model is Some
    &&& (t.phase == TrialPhase::AwaitRecheck || t.phase == TrialPhase::AwaitAssessment) ==> t.model is Some
}

impl ProgramTrial {
    /// A trial over `cases` cases. With no case at all it ends at once and
    /// counts as validated.
    pub fn start(cases: usize) -> (r: (ProgramTrial, TrialAction))
        ensures
            trial_ok(r.0),
            r.0.cases == cases,
            r.0.next == 0,
            r.0.passing,
            cases == 0 ==> (r.1 matches TrialAction::Finish { validated } && validated && r.0.phase
                == TrialPhase::Done),
            cases > 0 ==> r.0.phase == TrialPhase::AwaitClaim && r.1 is CheckClaim,
    {
        let phase = if cases == 0 {
            TrialPhase::Done
        } else {
            TrialPhase::AwaitClaim
        };
        let t = ProgramTrial { cases, next: 0, phase, passing: true, first_model: None, model: None };
        if cases == 0 {
            (t, TrialAction::Finish { validated: true })
        } else {
            (t, TrialAction::CheckClaim)
        }
    }

    fn record(self, perfect: bool, model: String) -> (r: (ProgramTrial, TrialAction))
        requires
            trial_ok(self),
            self.next < self.cases,
        ensures
            trial_ok(r.0),
            recorded(self, perfect, model@, r),
    {
        let first = if self.next == 0 {
            model.clone()
        } else {
            match self.first_model {
                Some(f) => f,
                None => model.clone(),
            }
        };
        let same = chars_eq(chars_of(model.as_str()).as_slice(), chars_of(first.as_str()).as_slice());
        let passing = self.passing && perfect && same;
        let next = self.next + 1;
        let t = ProgramTrial {
            cases: self.cases,
            next,
            phase: if next == self.cases {
                TrialPhase::Done
            } else {
                TrialPhase::AwaitClaim
            },
            passing,
            first_model: Some(first),
            model: None,
        };
        if next == self.cases {
            (t, TrialAction::Finish { validated: passing })
        } else {
            (t, TrialAction::CheckClaim)
        }
    }

    /// One step of the trial. Before each case the lease is confirmed, and
    /// again before an output is assessed; a lost lease ends the trial with a
    /// conflict. A failed decision or assessment ends it unvalidated. A case
    /// the program leaves without output does not score fully. The program
    /// is validated when every case scored exactly 1 under the same model.
    pub fn step(self, event: TrialEvent) -> (r: (ProgramTrial, TrialAction))
        requires
            trial_ok(self),
            trial_accepts(self, event),
        ensures
            trial_ok(r.0),
            match (self.phase, event) {
                (TrialPhase::AwaitClaim, TrialEvent::ClaimCurrent(held)) => if held {
                    r.1 matches TrialAction::Decide(i) && i == self.next && r.0.phase == TrialPhase::AwaitDecision
                        && r.0.next == self.next && r.0.cases == self.cases
                } else {
                    r.1 matches TrialAction::Fail(e) && e matches AppError::Conflict(m)
                        && m@ == "Decision learning was disabled or its lease expired"@ && r.0.phase == TrialPhase::Done
                },
                (TrialPhase::AwaitDecision, TrialEvent::Decided { output, model }) => if output {
                    r.0.phase == TrialPhase::AwaitRecheck && r.0.next == self.next && r.0.cases == self.cases
                        && opt_text(r.0.model) == Some(model@) && r.1 is CheckClaim
                } else {
                    recorded(self, false, model@, r)
                },
                (TrialPhase::AwaitRecheck, TrialEvent::ClaimCurrent(held)) => if held {
                    r.1 matches TrialAction::Assess(i) && i == self.next && r.0.phase == TrialPhase::AwaitAssessment
                        && r.0.next == self.next && r.0.cases == self.cases && r.0.model == self.model
                } else {
                    r.1 matches TrialAction::Fail(e) && e matches AppError::Conflict(m)
                        && m@ == "Decision learning changed during evaluation"@ && r.0.phase == TrialPhase::Done
                },
                (TrialPhase::AwaitAssessment, TrialEvent::Assessed { perfect }) => recorded(
                    self,
                    perfect,
                    opt_text(self.model)->0,
                    r,
                ),
                _ => r.1 matches TrialAction::Finish { validated } && !validated && r.0.phase == TrialPhase::Done,
            },
    {
        let cases = self.cases;
        let next = self.next;
        match (self.phase, event) {
            (TrialPhase::AwaitClaim, TrialEvent::ClaimCurrent(held)) => {
                if held {
                    (
                        ProgramTrial { phase: TrialPhase::AwaitDecision, ..self },
                        TrialAction::Decide(next),
                    )
                } else {
                    (
                        ProgramTrial { phase: TrialPhase::Done, ..self },
                        TrialAction::Fail(
                            AppError::Conflict(owned("Decision learning was disabled or its lease expired")),
                        ),
                    )
                }
            },
            (TrialPhase::AwaitDecision, TrialEvent::Decided { output, model }) => {
                if output {
                    (
                        ProgramTrial { phase: TrialPhase::AwaitRecheck, model: Some(model), ..self },
                        TrialAction::CheckClaim,
                    )
                } else {
                    self.record(false, model)
                }
            },
            (TrialPhase::AwaitRecheck, TrialEvent::ClaimCurrent(held)) => {
                if held {
                    (
                        ProgramTrial { phase: TrialPhase::AwaitAssessment, ..self },
                        TrialAction::Assess(next),
                    )
                } else {
                    (
                        ProgramTrial { phase: TrialPhase::Done, ..self },
                        TrialAction::Fail(AppError::Conflict(owned("Decision learning changed during evaluation"))),
                    )
                }
            },
            (TrialPhase::AwaitAssessment, TrialEvent::Assessed { perfect }) => {
                let model = match &self.model {
                    Some(m) => m.clone(),
                    None => String::new(),
                };
                self.record(perfect, model)
            },
            _ => {
                assert(cases == self.cases);
                (ProgramTrial { phase: TrialPhase::Done, ..self }, TrialAction::Finish { validated: false })
            },
        }
    }
}

/// What the program builder answered.
#[derive(Debug)]
pub enum GenerationOutcome {
    /// A finite decision program, to be tried on the suite.
    Finite,
    /// A browser workflow for the current task.
    Browser(JsonValue),
    /// The builder judged the objectives unsuitable for a program.
    NotSuitable,
    /// Generation failed.
    Failed(AppError),
}

/// `{"status": status}`: how a build ends before any program is generated
/// (`insufficient_independent_objectives`, `corpus_reserved_or_completed`).
pub fn build_status(status: &str) -> (r: JsonValue)
    ensures
        r matches JsonValue::Object(m) && m@.len() == 1 && m@[0].0@ == "status"@ && is_string(m@[0].1, status@),
{
    let mut m: Vec<(String, JsonValue)> = Vec::new();
    m.push((owned("status"), JsonValue::Str(owned(status))));
    JsonValue::Object(m)
}

/// The build's report when generation gives no finite program to try: the
/// workflow found for the current task (with the decision model), an
/// unsuitable corpus, or the generation failure (its category only). A
/// finite program has no report yet: it is tried on the suite.
pub fn generation_report(corpus: &str, outcome: GenerationOutcome, model: &str) -> (r: Option<JsonValue>)
    ensures
        match outcome {
            GenerationOutcome::Finite => r is None,
            GenerationOutcome::Browser(w) => r matches Some(JsonValue::Object(m)) && m@.len() == 4
                && m@[0].0@ == "corpus"@ && is_string(m@[0].1, corpus@) && m@[1].0@ == "model"@
                && is_string(m@[1].1, model@) && m@[2].0@ == "status"@ && is_string(
                m@[2].1,
                "browser_ready_for_current_task"@,
            ) && m@[3].0@ == "workflow"@ && m@[3].1 == w,
            GenerationOutcome::NotSuitable => r matches Some(JsonValue::Object(m)) && m@.len() == 2
                && m@[0].0@ == "corpus"@ && is_string(m@[0].1, corpus@) && m@[1].0@ == "status"@
                && is_string(m@[1].1, "not_suitable"@),
            GenerationOutcome::Failed(e) => r matches Some(JsonValue::Object(m)) && m@.len() == 3
                && m@[0].0@ == "corpus"@ && is_string(m@[0].1, corpus@) && m@[1].0@ == "failure"@
                && (m@[1].1 matches JsonValue::Object(f) && f@.len() == 2 && f@[0].0@ == "error_category"@
                && is_string(f@[0].1, failure_category(e)) && f@[1].0@ == "outcome"@ && is_string(
                f@[1].1,
                "failed"@,
            )) && m@[2].0@ == "status"@ && is_string(m@[2].1, "generation_failed"@),
        },
{
    let mut m: Vec<(String, JsonValue)> = Vec::new();
    match outcome {
        GenerationOutcome::Finite => {
            return None;
        },
        GenerationOutcome::Browser(w) => {
            m.push((owned("corpus"), JsonValue::Str(owned(corpus))));
            m.push((owned("model"), JsonValue::Str(owned(model))));
            m.push((owned("status"), JsonValue::Str(owned("browser_ready_for_current_task"))));
            m.push((owned("workflow"), w));
        },
        GenerationOutcome::NotSuitable => {
            m.push((owned("corpus"), JsonValue::Str(owned(corpus))));
            m.push((owned("status"), JsonValue::Str(owned("not_suitable"))));
        },
        GenerationOutcome::Failed(e) => {
            m.push((owned("corpus"), JsonValue::Str(owned(corpus))));
            m.push((owned("failure"), failure(&e)));
            m.push((owned("status"), JsonValue::Str(owned("generation_failed"))));
        },
    }
    Some(JsonValue::Object(m))
}
} // verus!
