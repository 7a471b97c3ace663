//! Decisions of the experience-learning worker that read harness records:
//! when a problem counts as repeated after a prompt intervention, and when
//! an applied prompt revision provably came before a failure.
use vstd::prelude::*;
use crate::redaction::AppError;
use crate::runtime_bindings::is_string;
use crate::telemetry::{find_member, member, JsonValue};
use crate::host_onboarding::{sha256, sha256_digest};
use crate::json_text::{json_int, json_string, push_json_int, push_json_string};
use crate::json_map::{keys_sorted, map_insert};
use crate::remote_control::{hex_encode, hex_lower};
use crate::text::{
    chars_eq, chars_of, concat2, contains, contains_exec, decimal, owned, parse_u64,
    parse_u64_exec, push_char, starts_with, starts_with_exec, sub_chars, u64_to_decimal,
};

verus! {

// ── JSON values as `serde_json::Value` reads them ───────────────────

/// `value[key]`: the member named `key` of an object, else `null`.
pub open spec fn json_at(v: JsonValue, key: Seq<char>) -> JsonValue {
    match v {
        JsonValue::Object(f) => match member(f@, key) {
            Some(x) => x,
            None => JsonValue::Null,
        },
        _ => JsonValue::Null,
    }
}

/// Structural equality of two JSON values, as `==` on `serde_json::Value`
/// decides it: numbers by their text, strings by their characters, arrays
/// element by element and objects member by member (objects converted from
/// `serde_json` keep their members sorted by key and unique, so this is
/// equality of the maps).
pub open spec fn json_eq(a: JsonValue, b: JsonValue) -> bool
    decreases a,
{
    match a {
        JsonValue::Null => b is Null,
        JsonValue::Bool(x) => b matches JsonValue::Bool(y) && x == y,
        JsonValue::Number(x) => b matches JsonValue::Number(y) && x@ == y@,
        JsonValue::Str(x) => b matches JsonValue::Str(y) && x@ == y@,
        JsonValue::Array(x) => match b {
            JsonValue::Array(y) => x@.len() == y@.len() && forall|i: int|
                0 <= i < x@.len() ==> json_eq(#[trigger] x@[i], y@[i]),
            _ => false,
        },
        JsonValue::Object(x) => match b {
            JsonValue::Object(y) => x@.len() == y@.len() && forall|i: int|
                0 <= i < x@.len() ==> (#[trigger] x@[i]).0@ == y@[i].0@ && json_eq(
                    x@[i].1,
                    y@[i].1,
                ),
            _ => false,
        },
    }
}

pub proof fn lemma_json_eq_refl(a: JsonValue)
    ensures
        json_eq(a, a),
    decreases a,
{
    match a {
        JsonValue::Array(x) => {
            assert forall|i: int| 0 <= i < x@.len() implies json_eq(#[trigger] x@[i], x@[i]) by {
                assert(decreases_to!(a => a->Array_0));
                assert(decreases_to!(x => x@));
                assert(decreases_to!(x@ => x@[i]));
                lemma_json_eq_refl(x@[i]);
            }
        },
        JsonValue::Object(x) => {
            assert forall|i: int| 0 <= i < x@.len() implies (#[trigger] x@[i]).0@ == x@[i].0@
                && json_eq(x@[i].1, x@[i].1) by {
                assert(decreases_to!(a => a->Object_0));
                assert(decreases_to!(x => x@));
                assert(decreases_to!(x@ => x@[i]));
                assert(decreases_to!(x@[i] => x@[i].1));
                lemma_json_eq_refl(x@[i].1);
            }
        },
        _ => {},
    }
}

pub proof fn lemma_json_eq_symm(a: JsonValue, b: JsonValue)
    requires
        json_eq(a, b),
    ensures
        json_eq(b, a),
    decreases a,
{
    match (a, b) {
        (JsonValue::Array(x), JsonValue::Array(y)) => {
            assert forall|i: int| 0 <= i < y@.len() implies json_eq(#[trigger] y@[i], x@[i]) by {
                assert(decreases_to!(a => a->Array_0));
                assert(decreases_to!(x => x@));
                assert(decreases_to!(x@ => x@[i]));
                lemma_json_eq_symm(x@[i], y@[i]);
            }
        },
        (JsonValue::Object(x), JsonValue::Object(y)) => {
            assert forall|i: int| 0 <= i < y@.len() implies (#[trigger] y@[i]).0@ == x@[i].0@
                && json_eq(y@[i].1, x@[i].1) by {
                assert(decreases_to!(a => a->Object_0));
                assert(decreases_to!(x => x@));
                assert(decreases_to!(x@ => x@[i]));
                assert(decreases_to!(x@[i] => x@[i].1));
                lemma_json_eq_symm(x@[i].1, y@[i].1);
            }
        },
        _ => {},
    }
}

pub proof fn lemma_json_eq_trans(a: JsonValue, b: JsonValue, c: JsonValue)
    requires
        json_eq(a, b),
        json_eq(b, c),
    ensures
        json_eq(a, c),
    decreases a,
{
    match (a, b, c) {
        (JsonValue::Array(x), JsonValue::Array(y), JsonValue::Array(z)) => {
            assert forall|i: int| 0 <= i < x@.len() implies json_eq(#[trigger] x@[i], z@[i]) by {
                assert(decreases_to!(a => a->Array_0));
                assert(decreases_to!(x => x@));
                assert(decreases_to!(x@ => x@[i]));
                lemma_json_eq_trans(x@[i], y@[i], z@[i]);
            }
        },
        (JsonValue::Object(x), JsonValue::Object(y), JsonValue::Object(z)) => {
            assert forall|i: int| 0 <= i < x@.len() implies (#[trigger] x@[i]).0@ == z@[i].0@
                && json_eq(x@[i].1, z@[i].1) by {
                assert(decreases_to!(a => a->Object_0));
                assert(decreases_to!(x => x@));
                assert(decreases_to!(x@ => x@[i]));
                assert(decreases_to!(x@[i] => x@[i].1));
                lemma_json_eq_trans(x@[i].1, y@[i].1, z@[i].1);
            }
        },
        _ => {},
    }
}

/// Comparing copies compares the originals.
pub proof fn lemma_json_eq_copies(x: JsonValue, a: JsonValue, y: JsonValue, b: JsonValue)
    requires
        json_eq(x, a),
        json_eq(y, b),
    ensures
        json_eq(x, y) == json_eq(a, b),
{
    lemma_json_eq_symm(x, a);
    lemma_json_eq_symm(y, b);
    if json_eq(x, y) {
        lemma_json_eq_trans(a, x, y);
        lemma_json_eq_trans(a, y, b);
    }
    if json_eq(a, b) {
        lemma_json_eq_trans(x, a, b);
        lemma_json_eq_trans(x, b, y);
    }
}

fn same_text(a: &String, b: &String) -> (r: bool)
    ensures
        r == (a@ == b@),
{
    let x = chars_of(a.as_str());
    let y = chars_of(b.as_str());
    chars_eq(x.as_slice(), y.as_slice())
}

/// `a == b` on JSON values.
pub fn json_equal(a: &JsonValue, b: &JsonValue) -> (r: bool)
    ensures
        r == json_eq(*a, *b),
    decreases a,
{
    match a {
        JsonValue::Null => match b {
            JsonValue::Null => true,
            _ => false,
        },
        JsonValue::Bool(x) => match b {
            JsonValue::Bool(y) => *x == *y,
            _ => false,
        },
        JsonValue::Number(x) => match b {
            JsonValue::Number(y) => same_text(x, y),
            _ => false,
        },
        JsonValue::Str(x) => match b {
            JsonValue::Str(y) => same_text(x, y),
            _ => false,
        },
        JsonValue::Array(x) => match b {
            JsonValue::Array(y) => {
                if x.len() != y.len() {
                    return false;
                }
                let mut i: usize = 0;
                while i < x.len()
                    invariant
                        *a == JsonValue::Array(*x),
                        *b == JsonValue::Array(*y),
                        x@.len() == y@.len(),
                        i <= x@.len(),
                        forall|j: int| 0 <= j < i ==> json_eq(#[trigger] x@[j], y@[j]),
                    decreases x.len() - i,
                {
                    proof {
                        assert(decreases_to!(*a => (*a)->Array_0));
                        assert(decreases_to!(*x => x@));
                        assert(decreases_to!(x@ => x@[i as int]));
                    }
                    if !json_equal(&x[i], &y[i]) {
                        return false;
                    }
                    i = i + 1;
                }
                true
            },
            _ => false,
        },
        JsonValue::Object(x) => match b {
            JsonValue::Object(y) => {
                if x.len() != y.len() {
                    return false;
                }
                let mut i: usize = 0;
                while i < x.len()
                    invariant
                        *a == JsonValue::Object(*x),
                        *b == JsonValue::Object(*y),
                        x@.len() == y@.len(),
                        i <= x@.len(),
                        forall|j: int|
                            0 <= j < i ==> (#[trigger] x@[j]).0@ == y@[j].0@ && json_eq(
                                x@[j].1,
                                y@[j].1,
                            ),
                    decreases x.len() - i,
                {
                    proof {
                        assert(decreases_to!(*a => (*a)->Object_0));
                        assert(decreases_to!(*x => x@));
                        assert(decreases_to!(x@ => x@[i as int]));
                        assert(decreases_to!(x@[i as int] => x@[i as int].1));
                    }
                    if !same_text(&x[i].0, &y[i].0) {
                        return false;
                    }
                    if !json_equal(&x[i].1, &y[i].1) {
                        return false;
                    }
                    i = i + 1;
                }
                true
            },
            _ => false,
        },
    }
}

/// A deep copy of a JSON value.
pub fn json_clone(v: &JsonValue) -> (r: JsonValue)
    ensures
        json_eq(r, *v),
    decreases v,
{
    match v {
        JsonValue::Null => JsonValue::Null,
        JsonValue::Bool(b) => JsonValue::Bool(*b),
        JsonValue::Number(s) => JsonValue::Number(owned(s.as_str())),
        JsonValue::Str(s) => JsonValue::Str(owned(s.as_str())),
        JsonValue::Array(x) => {
            let mut out: Vec<JsonValue> = Vec::new();
            let mut i: usize = 0;
            while i < x.len()
                invariant
                    *v == JsonValue::Array(*x),
                    i <= x@.len(),
                    out@.len() == i,
                    forall|j: int| 0 <= j < i ==> json_eq(#[trigger] out@[j], x@[j]),
                decreases x.len() - i,
            {
                proof {
                    assert(decreases_to!(*v => (*v)->Array_0));
                    assert(decreases_to!(*x => x@));
                    assert(decreases_to!(x@ => x@[i as int]));
                }
                let c = json_clone(&x[i]);
                out.push(c);
                i = i + 1;
            }
            JsonValue::Array(out)
        },
        JsonValue::Object(x) => {
            let mut out: Vec<(String, JsonValue)> = Vec::new();
            let mut i: usize = 0;
            while i < x.len()
                invariant
                    *v == JsonValue::Object(*x),
                    i <= x@.len(),
                    out@.len() == i,
                    forall|j: int|
                        0 <= j < i ==> (#[trigger] out@[j]).0@ == x@[j].0@ && json_eq(
                            out@[j].1,
                            x@[j].1,
                        ),
                decreases x.len() - i,
            {
                proof {
                    assert(decreases_to!(*v => (*v)->Object_0));
                    assert(decreases_to!(*x => x@));
                    assert(decreases_to!(x@ => x@[i as int]));
                    assert(decreases_to!(x@[i as int] => x@[i as int].1));
                }
                let c = json_clone(&x[i].1);
                out.push((owned(x[i].0.as_str()), c));
                i = i + 1;
            }
            JsonValue::Object(out)
        },
    }
}

/// `value[key]`, as a reference to the member (`None` standing for `null`).
pub fn json_get<'a>(v: &'a JsonValue, key: &str) -> (r: Option<&'a JsonValue>)
    ensures
        match r {
            Some(x) => *x == json_at(*v, key@),
            None => json_at(*v, key@) == JsonValue::Null,
        },
{
    match v {
        JsonValue::Object(f) => match find_member(f, key) {
            Some(i) => Some(&f[i].1),
            None => None,
        },
        _ => None,
    }
}

// ── Repeated problems ───────────────────────────────────────────────

/// Index of the first known problem whose `key` equals `key`.
pub open spec fn first_key_match(items: Seq<JsonValue>, key: JsonValue) -> Option<int>
    decreases items.len(),
{
    if items.len() == 0 {
        None
    } else {
        match first_key_match(items.drop_last(), key) {
            Some(i) => Some(i),
            None => if json_eq(json_at(items.last(), "key"@), key) {
                Some(items.len() - 1)
            } else {
                None
            },
        }
    }
}

proof fn lemma_first_key_match_is(items: Seq<JsonValue>, key: JsonValue, k: int)
    requires
        0 <= k <= items.len(),
        forall|j: int| 0 <= j < k ==> !json_eq(json_at(#[trigger] items[j], "key"@), key),
        k < items.len() ==> json_eq(json_at(items[k], "key"@), key),
    ensures
        first_key_match(items, key) == (if k < items.len() { Some(k) } else { None::<int> }),
    decreases items.len(),
{
    if items.len() > 0 {
        let init = items.drop_last();
        if k < items.len() - 1 {
            lemma_first_key_match_is(init, key, k);
        } else {
            assert forall|j: int| 0 <= j < init.len() implies !json_eq(
                json_at(#[trigger] init[j], "key"@),
                key,
            ) by {
                assert(init[j] == items[j]);
            }
            lemma_first_key_match_is(init, key, init.len() as int);
        }
    }
}

/// The known problem an observation repeats: the first one with its key.
pub open spec fn prior_problem(known: JsonValue, observation: JsonValue) -> Option<JsonValue> {
    match known {
        JsonValue::Array(items) => match first_key_match(items@, json_at(observation, "key"@)) {
            Some(i) => Some(items@[i]),
            None => None,
        },
        _ => None,
    }
}

/// One of `episodes` has the observation's `episode_ref`.
pub open spec fn episode_seen(episodes: Seq<JsonValue>, episode_ref: JsonValue) -> bool {
    exists|j: int|
        0 <= j < episodes.len() && json_eq(json_at(#[trigger] episodes[j], "episode_ref"@), episode_ref)
}

/// Why an observation does or does not count as a problem repeated after
/// the prompt intervention made for it.
pub open spec fn escalation_reason(known: JsonValue, observation: JsonValue) -> Seq<char> {
    let applied = json_at(observation, "applied_revision_id"@);
    if !(applied is Str) {
        "no_verified_applied_revision"@
    } else {
        match prior_problem(known, observation) {
            None => "no_prior_problem"@,
            Some(p) => if !json_eq(json_at(p, "prompt_revision_id"@), applied) {
                "intervention_revision_mismatch"@
            } else {
                match json_at(p, "episodes"@) {
                    JsonValue::Array(eps) => if eps@.len() == 0 {
                        "no_prior_episode"@
                    } else if episode_seen(eps@, json_at(observation, "episode_ref"@)) {
                        "episode_already_observed"@
                    } else {
                        "eligible"@
                    },
                    _ => "no_prior_episode"@,
                }
            },
        }
    }
}

/// `d` is the diagnostic recorded for `observation`: the observation's key,
/// episode and applied revision, the intervention's revision (`null` when
/// there is no prior problem) and the reason, members sorted by name.
pub open spec fn escalation_diagnostic(known: JsonValue, observation: JsonValue, d: JsonValue) -> bool {
    match d {
        JsonValue::Object(m) => {
            &&& m@.len() == 5
            &&& m@[0].0@ == "applied_revision_id"@
            &&& json_eq(m@[0].1, json_at(observation, "applied_revision_id"@))
            &&& m@[1].0@ == "episode_ref"@
            &&& json_eq(m@[1].1, json_at(observation, "episode_ref"@))
            &&& m@[2].0@ == "intervention_revision_id"@
            &&& json_eq(
                m@[2].1,
                match prior_problem(known, observation) {
                    Some(p) => json_at(p, "prompt_revision_id"@),
                    None => JsonValue::Null,
                },
            )
            &&& m@[3].0@ == "problem_key"@
            &&& json_eq(m@[3].1, json_at(observation, "key"@))
            &&& m@[4].0@ == "reason"@
            &&& is_string(m@[4].1, escalation_reason(known, observation))
        },
        _ => false,
    }
}

fn clone_at(v: &JsonValue, key: &str) -> (r: JsonValue)
    ensures
        json_eq(r, json_at(*v, key@)),
{
    match json_get(v, key) {
        Some(x) => json_clone(x),
        None => JsonValue::Null,
    }
}

fn find_prior<'a>(known: &'a JsonValue, observation: &JsonValue) -> (r: Option<&'a JsonValue>)
    ensures
        match r {
            Some(p) => prior_problem(*known, *observation) == Some(*p),
            None => prior_problem(*known, *observation) is None,
        },
{
    match known {
        JsonValue::Array(items) => {
            let key = clone_at(observation, "key");
            let ghost k = json_at(*observation, "key"@);
            let mut i: usize = 0;
            while i < items.len()
                invariant
                    *known == JsonValue::Array(*items),
                    k == json_at(*observation, "key"@),
                    i <= items@.len(),
                    json_eq(key, k),
                    forall|j: int| 0 <= j < i ==> !json_eq(json_at(#[trigger] items@[j], "key"@), k),
                decreases items.len() - i,
            {
                let pk = clone_at(&items[i], "key");
                let hit = json_equal(&pk, &key);
                proof {
                    lemma_json_eq_copies(pk, json_at(items@[i as int], "key"@), key, k);
                }
                if hit {
                    proof {
                        lemma_first_key_match_is(items@, k, i as int);
                    }
                    return Some(&items[i]);
                }
                i = i + 1;
            }
            proof {
                lemma_first_key_match_is(items@, k, items@.len() as int);
            }
            None
        },
        _ => None,
    }
}

fn is_str_value(v: Option<&JsonValue>) -> (r: bool)
    ensures
        r == (match v {
            Some(x) => *x,
            None => JsonValue::Null,
        } is Str),
{
    match v {
        Some(JsonValue::Str(_)) => true,
        _ => false,
    }
}

fn reason_for(known: &JsonValue, observation: &JsonValue) -> (r: &'static str)
    ensures
        r@ == escalation_reason(*known, *observation),
{
    if !is_str_value(json_get(observation, "applied_revision_id")) {
        return "no_verified_applied_revision";
    }
    let p = match find_prior(known, observation) {
        None => return "no_prior_problem",
        Some(p) => p,
    };
    let prompt = clone_at(p, "prompt_revision_id");
    let applied = clone_at(observation, "applied_revision_id");
    let same = json_equal(&prompt, &applied);
    proof {
        lemma_json_eq_copies(
            prompt,
            json_at(*p, "prompt_revision_id"@),
            applied,
            json_at(*observation, "applied_revision_id"@),
        );
    }
    if !same {
        return "intervention_revision_mismatch";
    }
    match json_get(p, "episodes") {
        Some(JsonValue::Array(eps)) => {
            if eps.len() == 0 {
                return "no_prior_episode";
            }
            let wanted = clone_at(observation, "episode_ref");
            let ghost w = json_at(*observation, "episode_ref"@);
            let ghost expected = escalation_reason(*known, *observation);
            assert(expected == if episode_seen(eps@, w) {
                "episode_already_observed"@
            } else {
                "eligible"@
            });
            let mut j: usize = 0;
            while j < eps.len()
                invariant
                    j <= eps@.len(),
                    json_eq(wanted, w),
                    expected == escalation_reason(*known, *observation),
                    expected == if episode_seen(eps@, w) {
                        "episode_already_observed"@
                    } else {
                        "eligible"@
                    },
                    forall|k: int|
                        0 <= k < j ==> !json_eq(json_at(#[trigger] eps@[k], "episode_ref"@), w),
                decreases eps.len() - j,
            {
                let e = clone_at(&eps[j], "episode_ref");
                let hit = json_equal(&e, &wanted);
                proof {
                    lemma_json_eq_copies(e, json_at(eps@[j as int], "episode_ref"@), wanted, w);
                }
                if hit {
                    assert(episode_seen(eps@, w));
                    return "episode_already_observed";
                }
                j = j + 1;
            }
            assert(!episode_seen(eps@, w));
            "eligible"
        },
        _ => "no_prior_episode",
    }
}

/// For every observation, whether it is a problem repeated after the
/// prompt intervention made for it, and why.
pub fn escalation_diagnostics(known: &JsonValue, observations: &[JsonValue]) -> (r: Vec<JsonValue>)
    ensures
        r@.len() == observations@.len(),
        forall|i: int|
            0 <= i < observations@.len() ==> escalation_diagnostic(
                *known,
                #[trigger] observations@[i],
                r@[i],
            ),
{
    let mut out: Vec<JsonValue> = Vec::new();
    let mut i: usize = 0;
    while i < observations.len()
        invariant
            i <= observations@.len(),
            out@.len() == i,
            forall|j: int|
                0 <= j < i ==> escalation_diagnostic(*known, #[trigger] observations@[j], out@[j]),
        decreases observations.len() - i,
    {
        let o = &observations[i];
        let intervention = match find_prior(known, o) {
            Some(p) => clone_at(p, "prompt_revision_id"),
            None => JsonValue::Null,
        };
        let mut m: Vec<(String, JsonValue)> = Vec::new();
        m.push((owned("applied_revision_id"), clone_at(o, "applied_revision_id")));
        m.push((owned("episode_ref"), clone_at(o, "episode_ref")));
        m.push((owned("intervention_revision_id"), intervention));
        m.push((owned("problem_key"), clone_at(o, "key")));
        m.push((owned("reason"), JsonValue::Str(owned(reason_for(known, o)))));
        out.push(JsonValue::Object(m));
        i = i + 1;
    }
    out
}

/// The keys of the observations that are problems repeated after their
/// prompt intervention, in order.
pub open spec fn repeated_keys(known: JsonValue, observations: Seq<JsonValue>) -> Seq<Seq<char>>
    decreases observations.len(),
{
    if observations.len() == 0 {
        seq![]
    } else {
        let r = repeated_keys(known, observations.drop_last());
        let o = observations.last();
        match json_at(o, "key"@) {
            JsonValue::Str(s) => if escalation_reason(known, o) == "eligible"@ {
                r.push(s@)
            } else {
                r
            },
            _ => r,
        }
    }
}

/// The keys of the problems that count as repeated after a prompt intervention.
pub fn repeated_after_prompt(known: &JsonValue, observations: &[JsonValue]) -> (r: Vec<String>)
    ensures
        r@.len() == repeated_keys(*known, observations@).len(),
        forall|i: int|
            0 <= i < r@.len() ==> #[trigger] r@[i]@ == repeated_keys(*known, observations@)[i],
{
    let mut out: Vec<String> = Vec::new();
    let mut i: usize = 0;
    proof {
        assert(observations@.take(0) =~= Seq::<JsonValue>::empty());
    }
    while i < observations.len()
        invariant
            i <= observations@.len(),
            out@.len() == repeated_keys(*known, observations@.take(i as int)).len(),
            forall|j: int|
                0 <= j < out@.len() ==> #[trigger] out@[j]@ == repeated_keys(
                    *known,
                    observations@.take(i as int),
                )[j],
        decreases observations.len() - i,
    {
        let o = &observations[i];
        let ghost before = repeated_keys(*known, observations@.take(i as int));
        assert(observations@.take(i + 1).drop_last() =~= observations@.take(i as int));
        assert(observations@.take(i + 1).last() == *o);
        let reason = reason_for(known, o);
        let eligible = chars_eq(chars_of(reason).as_slice(), chars_of("eligible").as_slice());
        match json_get(o, "key") {
            Some(JsonValue::Str(s)) => {
                if eligible {
                    out.push(owned(s.as_str()));
                }
            },
            _ => {},
        }
        assert forall|j: int| 0 <= j < out@.len() implies #[trigger] out@[j]@ == repeated_keys(
            *known,
            observations@.take(i + 1),
        )[j] by {
            if j < before.len() {
                assert(out@[j]@ == before[j]);
            }
        }
        i = i + 1;
    }
    assert(observations@.take(observations@.len() as int) =~= observations@);
    out
}

// ── JSON text ───────────────────────────────────────────────────────

/// The compact JSON text of a value, as `Value::to_string` writes it
/// (members in the order held; `serde_json` holds them sorted by key).
pub open spec fn json_text(v: JsonValue) -> Seq<char>
    decreases v,
{
    match v {
        JsonValue::Null => "null"@,
        JsonValue::Bool(b) => if b {
            "true"@
        } else {
            "false"@
        },
        JsonValue::Number(n) => n@,
        JsonValue::Str(s) => json_string(s@),
        JsonValue::Array(x) => {
            proof {
                assert(decreases_to!(v => v->Array_0));
                assert(decreases_to!(x => x@));
            }
            seq!['['] + items_text(x@) + seq![']']
        },
        JsonValue::Object(f) => {
            proof {
                assert(decreases_to!(v => v->Object_0));
                assert(decreases_to!(f => f@));
            }
            seq!['{'] + members_text(f@) + seq!['}']
        },
    }
}

/// Array elements, comma separated.
pub open spec fn items_text(s: Seq<JsonValue>) -> Seq<char>
    decreases s,
{
    if s.len() == 0 {
        seq![]
    } else {
        proof {
            assert(decreases_to!(s => s[s.len() - 1]));
        }
        if s.len() == 1 {
            json_text(s[0])
        } else {
            proof {
                assert(decreases_to!(s => s.subrange(0, s.len() - 1)));
                assert(s.drop_last() == s.subrange(0, s.len() - 1));
            }
            items_text(s.drop_last()) + seq![','] + json_text(s[s.len() - 1])
        }
    }
}

/// Object members, `"key":value`, comma separated.
pub open spec fn members_text(f: Seq<(String, JsonValue)>) -> Seq<char>
    decreases f,
{
    if f.len() == 0 {
        seq![]
    } else {
        proof {
            assert(decreases_to!(f => f[f.len() - 1]));
            assert(decreases_to!(f[f.len() - 1] => f[f.len() - 1].1));
        }
        let m = json_string(f[f.len() - 1].0@) + seq![':'] + json_text(f[f.len() - 1].1);
        if f.len() == 1 {
            m
        } else {
            proof {
                assert(decreases_to!(f => f.subrange(0, f.len() - 1)));
                assert(f.drop_last() == f.subrange(0, f.len() - 1));
            }
            members_text(f.drop_last()) + seq![','] + m
        }
    }
}

/// Equal values have the same JSON text.
pub proof fn lemma_json_eq_text(a: JsonValue, b: JsonValue)
    requires
        json_eq(a, b),
    ensures
        json_text(a) == json_text(b),
    decreases a,
{
    match (a, b) {
        (JsonValue::Array(x), JsonValue::Array(y)) => {
            assert(decreases_to!(a => a->Array_0));
            assert(decreases_to!(x => x@));
            lemma_items_text_eq(x@, y@);
        },
        (JsonValue::Object(x), JsonValue::Object(y)) => {
            assert(decreases_to!(a => a->Object_0));
            assert(decreases_to!(x => x@));
            lemma_members_text_eq(x@, y@);
        },
        _ => {},
    }
}

proof fn lemma_items_text_eq(x: Seq<JsonValue>, y: Seq<JsonValue>)
    requires
        x.len() == y.len(),
        forall|i: int| 0 <= i < x.len() ==> json_eq(#[trigger] x[i], y[i]),
    ensures
        items_text(x) == items_text(y),
    decreases x,
{
    if x.len() > 0 {
        assert(decreases_to!(x => x[x.len() - 1]));
        lemma_json_eq_text(x[x.len() - 1], y[y.len() - 1]);
        if x.len() == 1 {
            assert(decreases_to!(x => x[0]));
            lemma_json_eq_text(x[0], y[0]);
        } else {
            assert(decreases_to!(x => x.subrange(0, x.len() - 1)));
            assert(x.drop_last() == x.subrange(0, x.len() - 1));
            lemma_items_text_eq(x.drop_last(), y.drop_last());
        }
    }
}

proof fn lemma_members_text_eq(x: Seq<(String, JsonValue)>, y: Seq<(String, JsonValue)>)
    requires
        x.len() == y.len(),
        forall|i: int|
            0 <= i < x.len() ==> (#[trigger] x[i]).0@ == y[i].0@ && json_eq(x[i].1, y[i].1),
    ensures
        members_text(x) == members_text(y),
    decreases x,
{
    if x.len() > 0 {
        assert(decreases_to!(x => x[x.len() - 1]));
        assert(decreases_to!(x[x.len() - 1] => x[x.len() - 1].1));
        lemma_json_eq_text(x[x.len() - 1].1, y[y.len() - 1].1);
        if x.len() > 1 {
            assert(decreases_to!(x => x.subrange(0, x.len() - 1)));
            assert(x.drop_last() == x.subrange(0, x.len() - 1));
            lemma_members_text_eq(x.drop_last(), y.drop_last());
        }
    }
}

/// Appends the JSON text of `v`.
pub fn write_json(out: &mut String, v: &JsonValue)
    ensures
        final(out)@ == old(out)@ + json_text(*v),
    decreases v,
{
    let ghost start = out@;
    match v {
        JsonValue::Null => out.append("null"),
        JsonValue::Bool(b) => if *b {
            out.append("true")
        } else {
            out.append("false")
        },
        JsonValue::Number(n) => out.append(n.as_str()),
        JsonValue::Str(s) => push_json_string(out, s.as_str()),
        JsonValue::Array(x) => {
            push_char(out, '[');
            let mut i: usize = 0;
            proof {
                assert(x@.take(0) =~= Seq::<JsonValue>::empty());
            }
            while i < x.len()
                invariant
                    *v == JsonValue::Array(*x),
                    i <= x@.len(),
                    out@ == start + seq!['['] + items_text(x@.take(i as int)),
                decreases x.len() - i,
            {
                proof {
                    assert(decreases_to!(*v => (*v)->Array_0));
                    assert(decreases_to!(*x => x@));
                    assert(decreases_to!(x@ => x@[i as int]));
                }
                let ghost before = out@;
                let ghost s = x@.take(i + 1);
                assert(s.drop_last() =~= x@.take(i as int));
                assert(s[s.len() - 1] == x@[i as int]);
                if i > 0 {
                    push_char(out, ',');
                }
                write_json(out, &x[i]);
                proof {
                    if i == 0 {
                        assert(out@ =~= start + seq!['['] + items_text(s));
                    } else {
                        assert(out@ =~= start + seq!['['] + items_text(s));
                    }
                }
                i = i + 1;
            }
            assert(x@.take(x@.len() as int) =~= x@);
            push_char(out, ']');
            assert(out@ =~= start + json_text(*v));
        },
        JsonValue::Object(f) => {
            push_char(out, '{');
            let mut i: usize = 0;
            proof {
                assert(f@.take(0) =~= Seq::<(String, JsonValue)>::empty());
            }
            while i < f.len()
                invariant
                    *v == JsonValue::Object(*f),
                    i <= f@.len(),
                    out@ == start + seq!['{'] + members_text(f@.take(i as int)),
                decreases f.len() - i,
            {
                proof {
                    assert(decreases_to!(*v => (*v)->Object_0));
                    assert(decreases_to!(*f => f@));
                    assert(decreases_to!(f@ => f@[i as int]));
                    assert(decreases_to!(f@[i as int] => f@[i as int].1));
                }
                let ghost s = f@.take(i + 1);
                assert(s.drop_last() =~= f@.take(i as int));
                assert(s[s.len() - 1] == f@[i as int]);
                if i > 0 {
                    push_char(out, ',');
                }
                push_json_string(out, f[i].0.as_str());
                push_char(out, ':');
                write_json(out, &f[i].1);
                assert(out@ =~= start + seq!['{'] + members_text(s));
                i = i + 1;
            }
            assert(f@.take(f@.len() as int) =~= f@);
            push_char(out, '}');
            assert(out@ =~= start + json_text(*v));
        },
    }
    proof {
        reveal_strlit("null");
        reveal_strlit("true");
        reveal_strlit("false");
    }
}

/// `Value::to_string`.
pub fn json_to_string(v: &JsonValue) -> (r: String)
    ensures
        r@ == json_text(*v),
{
    let mut out = String::new();
    write_json(&mut out, v);
    out
}

// ── Applied before failure ──────────────────────────────────────────

/// The marker a prompt revision leaves in the user turn that applied it.
pub open spec fn revision_marker(revision: Seq<char>) -> Seq<char> {
    "[choruz-experience revision="@ + revision + "]"@
}

/// A record of a user turn: `record.type` or `record.payload.role` is `user`.
pub open spec fn user_turn(record: JsonValue) -> bool {
    is_string(json_at(record, "type"@), "user"@) || is_string(
        json_at(json_at(record, "payload"@), "role"@),
        "user"@,
    )
}

/// `record` is the user turn `reference` that applied `revision`.
pub open spec fn applied_marker(record: JsonValue, reference: Seq<char>, revision: Seq<char>) -> bool {
    &&& is_string(json_at(record, "ref"@), reference)
    &&& user_turn(json_at(record, "record"@))
    &&& contains(json_text(record), revision_marker(revision))
}

/// Index of the first record that applied `revision` under `reference`.
pub open spec fn first_applied(records: Seq<JsonValue>, reference: Seq<char>, revision: Seq<char>) -> Option<int>
    decreases records.len(),
{
    if records.len() == 0 {
        None
    } else {
        match first_applied(records.drop_last(), reference, revision) {
            Some(i) => Some(i),
            None => if applied_marker(records.last(), reference, revision) {
                Some(records.len() - 1)
            } else {
                None
            },
        }
    }
}

proof fn lemma_first_applied_is(records: Seq<JsonValue>, reference: Seq<char>, revision: Seq<char>, k: int)
    requires
        0 <= k <= records.len(),
        forall|j: int| 0 <= j < k ==> !applied_marker(#[trigger] records[j], reference, revision),
        k < records.len() ==> applied_marker(records[k], reference, revision),
    ensures
        first_applied(records, reference, revision) == (if k < records.len() {
            Some(k)
        } else {
            None::<int>
        }),
    decreases records.len(),
{
    if records.len() > 0 {
        let init = records.drop_last();
        if k < records.len() - 1 {
            lemma_first_applied_is(init, reference, revision, k);
        } else {
            assert forall|j: int| 0 <= j < init.len() implies !applied_marker(
                #[trigger] init[j],
                reference,
                revision,
            ) by {
                assert(init[j] == records[j]);
            }
            lemma_first_applied_is(init, reference, revision, init.len() as int);
        }
    }
}

/// The record's `ref` is one of the evidence references.
pub open spec fn cites_evidence(record: JsonValue, evidence: Seq<String>) -> bool {
    exists|e: int| 0 <= e < evidence.len() && is_string(json_at(record, "ref"@), #[trigger] evidence[e]@)
}

/// The first user turn that applied `revision` under `reference` is
/// followed, later in the records, by one of the evidence records.
pub open spec fn applied_before(records: Seq<JsonValue>, reference: Seq<char>, revision: Seq<char>, evidence: Seq<String>) -> bool {
    match first_applied(records, reference, revision) {
        None => false,
        Some(k) => exists|j: int|
            k < j < records.len() && cites_evidence(#[trigger] records[j], evidence),
    }
}

fn user_turn_exec(record: &JsonValue) -> (r: bool)
    ensures
        r == user_turn(*record),
{
    let t = match json_get(record, "type") {
        Some(JsonValue::Str(s)) => same_text(s, &owned("user")),
        _ => false,
    };
    if t {
        return true;
    }
    match json_get(record, "payload") {
        Some(p) => match json_get(p, "role") {
            Some(JsonValue::Str(s)) => same_text(s, &owned("user")),
            _ => false,
        },
        None => false,
    }
}

fn str_member_is(v: &JsonValue, key: &str, expected: &str) -> (r: bool)
    ensures
        r == is_string(json_at(*v, key@), expected@),
{
    match json_get(v, key) {
        Some(JsonValue::Str(s)) => same_text(s, &owned(expected)),
        _ => false,
    }
}

fn revision_marker_exec(revision: &str) -> (r: Vec<char>)
    ensures
        r@ == revision_marker(revision@),
{
    let m = concat2(concat2("[choruz-experience revision=", revision).as_str(), "]");
    chars_of(m.as_str())
}

fn applied_marker_exec(record: &JsonValue, reference: &str, marker: &Vec<char>) -> (r: bool)
    ensures
        r == (is_string(json_at(*record, "ref"@), reference@) && user_turn(
            json_at(*record, "record"@),
        ) && contains(json_text(*record), marker@)),
{
    if !str_member_is(record, "ref", reference) {
        return false;
    }
    let inner_user = match json_get(record, "record") {
        Some(x) => user_turn_exec(x),
        None => false,
    };
    if !inner_user {
        return false;
    }
    let text = json_to_string(record);
    contains_exec(chars_of(text.as_str()).as_slice(), marker.as_slice())
}

fn cites_evidence_exec(record: &JsonValue, evidence: &[String]) -> (r: bool)
    ensures
        r == cites_evidence(*record, evidence@),
{
    let mut e: usize = 0;
    while e < evidence.len()
        invariant
            e <= evidence@.len(),
            forall|k: int| 0 <= k < e ==> !is_string(json_at(*record, "ref"@), #[trigger] evidence@[k]@),
        decreases evidence.len() - e,
    {
        if str_member_is(record, "ref", evidence[e].as_str()) {
            return true;
        }
        e = e + 1;
    }
    false
}

fn first_applied_exec(records: &[JsonValue], reference: &str, revision: &str, marker: &Vec<char>) -> (k: usize)
    requires
        marker@ == revision_marker(revision@),
    ensures
        k <= records@.len(),
        first_applied(records@, reference@, revision@) == (if k < records@.len() {
            Some(k as int)
        } else {
            None::<int>
        }),
{
    let mut i: usize = 0;
    while i < records.len()
        invariant
            i <= records@.len(),
            marker@ == revision_marker(revision@),
            forall|j: int| 0 <= j < i ==> !applied_marker(#[trigger] records@[j], reference@, revision@),
        decreases records.len() - i,
    {
        if applied_marker_exec(&records[i], reference, marker) {
            proof {
                lemma_first_applied_is(records@, reference@, revision@, i as int);
            }
            return i;
        }
        i = i + 1;
    }
    proof {
        lemma_first_applied_is(records@, reference@, revision@, i as int);
    }
    i
}

/// Whether the prompt revision was applied (in the user turn `reference`)
/// before one of the evidence records of a failure.
pub fn applied_before_failure(records: &[JsonValue], reference: &str, revision: &str, evidence: &[String]) -> (r: bool)
    ensures
        r == applied_before(records@, reference@, revision@, evidence@),
{
    let marker = revision_marker_exec(revision);
    let i = first_applied_exec(records, reference, revision, &marker);
    if i == records.len() {
        return false;
    }
    let mut j: usize = i + 1;
    while j < records.len()
        invariant
            i < j <= records@.len(),
            first_applied(records@, reference@, revision@) == Some(i as int),
            forall|k: int| i < k < j ==> !cites_evidence(#[trigger] records@[k], evidence@),
        decreases records.len() - j,
    {
        if cites_evidence_exec(&records[j], evidence) {
            return true;
        }
        j = j + 1;
    }
    false
}

// ── Historical markers ──────────────────────────────────────────────

/// Where reading of a harness session resumes: the session and the offset
/// of the first record not read before.
#[derive(Debug, Clone)]
pub struct Cursor {
    pub session: String,
    pub offset: u64,
}

/// A record read in an earlier pass, kept with its position.
#[derive(Debug)]
pub struct HistoricalRecord {
    pub reference: String,
    pub session: String,
    pub offset: u64,
    pub record: JsonValue,
}

/// `marker` is the user turn `reference` that applied `revision`, read
/// earlier from the same session, before the resume point, and referenced
/// by its canonical `session:offset` name.
pub open spec fn historical_marker(marker: HistoricalRecord, start: Cursor, reference: Seq<char>, revision: Seq<char>) -> bool {
    &&& marker.reference@ == reference
    &&& marker.session@ == start.session@
    &&& marker.reference@ == marker.session@ + ":"@ + decimal(marker.offset as nat)
    &&& marker.offset < start.offset
    &&& user_turn(marker.record)
    &&& contains(json_text(marker.record), revision_marker(revision))
}

/// `r` is the canonical name `session:offset` of a record of the resumed
/// session at or after the resume point.
pub open spec fn new_reference(r: Seq<char>, start: Cursor) -> bool {
    let p = start.session@ + ":"@;
    &&& starts_with(r, p)
    &&& match parse_u64(r.skip(p.len() as int)) {
        Some(n) => r == p + decimal(n as nat) && n >= start.offset,
        None => false,
    }
}

/// One of the records is an evidence record read in this pass.
pub open spec fn new_evidence(records: Seq<JsonValue>, start: Cursor, evidence: Seq<String>) -> bool {
    exists|i: int|
        0 <= i < records.len() && match json_at(#[trigger] records[i], "ref"@) {
            JsonValue::Str(r) => (exists|e: int| 0 <= e < evidence.len() && #[trigger] evidence[e]@
                == r@) && new_reference(r@, start),
            _ => false,
        }
}

/// A revision applied in an earlier pass came before new evidence of a
/// failure: historical records never count as new evidence themselves.
pub open spec fn historical_before(
    records: Seq<JsonValue>,
    start: Option<Cursor>,
    historical: Seq<HistoricalRecord>,
    reference: Seq<char>,
    revision: Seq<char>,
    evidence: Seq<String>,
) -> bool {
    match start {
        None => false,
        Some(s) => (exists|m: int|
            0 <= m < historical.len() && historical_marker(
                #[trigger] historical[m],
                s,
                reference,
                revision,
            )) && new_evidence(records, s, evidence),
    }
}

fn new_reference_exec(r: &String, start: &Cursor) -> (b: bool)
    ensures
        b == new_reference(r@, *start),
{
    let p = concat2(start.session.as_str(), ":");
    let pv = chars_of(p.as_str());
    let rv = chars_of(r.as_str());
    if !starts_with_exec(rv.as_slice(), pv.as_slice()) {
        return false;
    }
    let rest = sub_chars(rv.as_slice(), pv.len(), rv.len());
    assert(rest@ =~= r@.skip(pv@.len() as int));
    match parse_u64_exec(rest.as_slice()) {
        Some(n) => {
            let canonical = concat2(p.as_str(), u64_to_decimal(n).as_str());
            same_text(r, &canonical) && n >= start.offset
        },
        None => false,
    }
}

fn historical_marker_exec(marker: &HistoricalRecord, start: &Cursor, reference: &str, marker_text: &Vec<char>, revision: &str) -> (b: bool)
    requires
        marker_text@ == revision_marker(revision@),
    ensures
        b == historical_marker(*marker, *start, reference@, revision@),
{
    if !same_text(&marker.reference, &owned(reference)) || !same_text(&marker.session, &start.session) {
        return false;
    }
    let canonical = concat2(concat2(marker.session.as_str(), ":").as_str(), u64_to_decimal(marker.offset).as_str());
    if !same_text(&marker.reference, &canonical) || !(marker.offset < start.offset) {
        return false;
    }
    if !user_turn_exec(&marker.record) {
        return false;
    }
    let text = json_to_string(&marker.record);
    contains_exec(chars_of(text.as_str()).as_slice(), marker_text.as_slice())
}

fn cited_in(evidence: &[String], r: &String) -> (b: bool)
    ensures
        b == exists|e: int| 0 <= e < evidence@.len() && #[trigger] evidence@[e]@ == r@,
{
    let mut e: usize = 0;
    while e < evidence.len()
        invariant
            e <= evidence@.len(),
            forall|k: int| 0 <= k < e ==> #[trigger] evidence@[k]@ != r@,
        decreases evidence.len() - e,
    {
        if same_text(&evidence[e], r) {
            return true;
        }
        e = e + 1;
    }
    false
}

fn new_evidence_exec(records: &[JsonValue], start: &Cursor, evidence: &[String]) -> (b: bool)
    ensures
        b == new_evidence(records@, *start, evidence@),
{
    let mut i: usize = 0;
    while i < records.len()
        invariant
            i <= records@.len(),
            forall|k: int| 0 <= k < i ==> !match json_at(#[trigger] records@[k], "ref"@) {
                JsonValue::Str(r) => (exists|e: int| 0 <= e < evidence@.len() && #[trigger] evidence@[e]@
                    == r@) && new_reference(r@, *start),
                _ => false,
            },
        decreases records.len() - i,
    {
        match json_get(&records[i], "ref") {
            Some(JsonValue::Str(r)) => {
                let cited = cited_in(evidence, r);
                if cited && new_reference_exec(r, start) {
                    return true;
                }
            },
            _ => {},
        }
        i = i + 1;
    }
    false
}

/// Whether the user turn `reference`, read in an earlier pass of the
/// session `start` resumes, applied `revision` before an evidence record
/// read in this pass.
pub fn historical_applied_before_failure(
    records: &[JsonValue],
    start: Option<&Cursor>,
    historical: &[HistoricalRecord],
    reference: &str,
    revision: &str,
    evidence: &[String],
) -> (r: bool)
    ensures
        r == historical_before(
            records@,
            match start {
                Some(s) => Some(*s),
                None => None,
            },
            historical@,
            reference@,
            revision@,
            evidence@,
        ),
{
    let s = match start {
        Some(s) => s,
        None => return false,
    };
    let marker_text = revision_marker_exec(revision);
    let mut m: usize = 0;
    while m < historical.len()
        invariant
            start == Some(s),
            m <= historical@.len(),
            marker_text@ == revision_marker(revision@),
            forall|k: int|
                0 <= k < m ==> !historical_marker(#[trigger] historical@[k], *s, reference@, revision@),
        decreases historical.len() - m,
    {
        if historical_marker_exec(&historical[m], s, reference, &marker_text, revision) {
            assert(historical_marker(historical@[m as int], *s, reference@, revision@));
            return new_evidence_exec(records, s, evidence);
        }
        m = m + 1;
    }
    false
}

// ── Learning-check diagnostics ──────────────────────────────────────

/// Lowercase hex SHA-256 of `bytes`.
pub open spec fn digest_text(bytes: Seq<u8>) -> Seq<char> {
    hex_lower(sha256_digest(bytes))
}

pub(crate) fn digest(bytes: &[u8]) -> (r: String)
    ensures
        r@ == digest_text(bytes@),
{
    let d = sha256(bytes);
    hex_encode(d.as_slice())
}

fn usize_text(n: usize) -> (r: String)
    ensures
        r@ == decimal(n as nat),
{
    u64_to_decimal(n as u64)
}

/// What a learning check records of a harness input: its size and digest,
/// never the text.
pub fn input_summary(input: &str) -> (r: JsonValue)
    ensures
        match r {
            JsonValue::Object(m) => m@.len() == 2 && m@[0].0@ == "input_bytes"@ && (
            m@[0].1 matches JsonValue::Number(n) && n@ == decimal(
                vstd::utf8::encode_utf8(input@).len(),
            )) && m@[1].0@ == "input_digest"@ && is_string(
                m@[1].1,
                digest_text(vstd::utf8::encode_utf8(input@)),
            ),
            _ => false,
        },
{
    let bytes = crate::text::bytes_of(input);
    let mut m: Vec<(String, JsonValue)> = Vec::new();
    m.push((owned("input_bytes"), JsonValue::Number(usize_text(bytes.len()))));
    m.push((owned("input_digest"), JsonValue::Str(digest(bytes.as_slice()))));
    JsonValue::Object(m)
}

/// What a learning check records of a completed harness call: the size
/// and digest of the encoded output.
pub fn completion_summary(encoded: &[u8]) -> (r: JsonValue)
    ensures
        match r {
            JsonValue::Object(m) => m@.len() == 3 && m@[0].0@ == "outcome"@ && is_string(
                m@[0].1,
                "completed"@,
            ) && m@[1].0@ == "output_bytes"@ && (m@[1].1 matches JsonValue::Number(n) && n@
                == decimal(encoded@.len())) && m@[2].0@ == "output_digest"@ && is_string(
                m@[2].1,
                digest_text(encoded@),
            ),
            _ => false,
        },
{
    let mut m: Vec<(String, JsonValue)> = Vec::new();
    m.push((owned("outcome"), JsonValue::Str(owned("completed"))));
    m.push((owned("output_bytes"), JsonValue::Number(usize_text(encoded.len()))));
    m.push((owned("output_digest"), JsonValue::Str(digest(encoded))));
    JsonValue::Object(m)
}

/// The category a failed call is recorded under; the error's own text is
/// never recorded.
pub open spec fn failure_category(e: AppError) -> Seq<char> {
    match e {
        AppError::Validation(_) => "validation"@,
        AppError::Conflict(_) => "conflict"@,
        AppError::Unauthorized(_) => "unauthorized"@,
        AppError::Forbidden(_) => "forbidden"@,
        AppError::NotFound(_) => "not_found"@,
        _ => "internal"@,
    }
}

/// The diagnostic recorded for a failed harness call: its outcome and error
/// category only.
pub fn failure(error: &AppError) -> (r: JsonValue)
    ensures
        match r {
            JsonValue::Object(m) => m@.len() == 2 && m@[0].0@ == "error_category"@ && is_string(
                m@[0].1,
                failure_category(*error),
            ) && m@[1].0@ == "outcome"@ && is_string(m@[1].1, "failed"@),
            _ => false,
        },
{
    let category = match error {
        AppError::Validation(_) => "validation",
        AppError::Conflict(_) => "conflict",
        AppError::Unauthorized(_) => "unauthorized",
        AppError::Forbidden(_) => "forbidden",
        AppError::NotFound(_) => "not_found",
        _ => "internal",
    };
    let mut m: Vec<(String, JsonValue)> = Vec::new();
    m.push((owned("error_category"), JsonValue::Str(owned(category))));
    m.push((owned("outcome"), JsonValue::Str(owned("failed"))));
    JsonValue::Object(m)
}

// ── Learning check records ─────────────────────────────────────────

/// The last member named `key`: where an object is extended member by
/// member, the one that stays.
pub open spec fn last_member(fields: Seq<(String, JsonValue)>, key: Seq<char>) -> Option<JsonValue>
    decreases fields.len(),
{
    if fields.len() == 0 {
        None
    } else if fields.last().0@ == key {
        Some(fields.last().1)
    } else {
        last_member(fields.drop_last(), key)
    }
}

/// The members of `v` when it is an object; none otherwise.
pub open spec fn object_fields(v: JsonValue) -> Seq<(String, JsonValue)> {
    match v {
        JsonValue::Object(f) => f@,
        _ => seq![],
    }
}

/// What every record of a learning check carries under `key`: the trace,
/// the stage, the analyst, the policy generation and the active revision
/// (`null` without one); nothing else.
pub open spec fn check_base(
    key: Seq<char>,
    v: Option<JsonValue>,
    trace_id: Seq<char>,
    stage: Seq<char>,
    analyst_binding_id: Seq<char>,
    generation: i64,
    active_revision_id: Option<Seq<char>>,
) -> bool {
    if key == "active_revision_id"@ {
        match active_revision_id {
            Some(a) => v matches Some(x) && is_string(x, a),
            None => v == Some(JsonValue::Null),
        }
    } else if key == "analyst_binding_id"@ {
        v matches Some(x) && is_string(x, analyst_binding_id)
    } else if key == "policy_generation"@ {
        v matches Some(JsonValue::Number(n)) && n@ == json_int(generation as int)
    } else if key == "stage"@ {
        v matches Some(x) && is_string(x, stage)
    } else if key == "trace_id"@ {
        v matches Some(x) && is_string(x, trace_id)
    } else {
        v is None
    }
}

/// The audit metadata of one learning-check record: the check's own
/// members, extended (and overridden) by the members of `data` when it is
/// an object. Members are in map order.
pub fn check_metadata(
    trace_id: &str,
    stage: &str,
    analyst_binding_id: &str,
    generation: i64,
    active_revision_id: Option<&str>,
    data: JsonValue,
) -> (r: Vec<(String, JsonValue)>)
    ensures
        keys_sorted(r@),
        forall|k: Seq<char>|
            #![trigger member(r@, k)]
            match last_member(object_fields(data), k) {
                Some(d) => member(r@, k) == Some(d),
                None => check_base(
                    k,
                    member(r@, k),
                    trace_id@,
                    stage@,
                    analyst_binding_id@,
                    generation,
                    match active_revision_id {
                        Some(a) => Some(a@),
                        None => None,
                    },
                ),
            },
{
    let ghost active = match active_revision_id {
        Some(a) => Some(a@),
        None => None::<Seq<char>>,
    };
    let mut f: Vec<(String, JsonValue)> = Vec::new();
    let mut g = String::new();
    push_json_int(&mut g, generation);
    assert(g@ == json_int(generation as int));
    let active_value = match active_revision_id {
        Some(a) => JsonValue::Str(owned(a)),
        None => JsonValue::Null,
    };
    map_insert(&mut f, owned("trace_id"), JsonValue::Str(owned(trace_id)));
    map_insert(&mut f, owned("stage"), JsonValue::Str(owned(stage)));
    map_insert(&mut f, owned("analyst_binding_id"), JsonValue::Str(owned(analyst_binding_id)));
    map_insert(&mut f, owned("policy_generation"), JsonValue::Number(g));
    map_insert(&mut f, owned("active_revision_id"), active_value);
    let ghost base = f@;
    proof {
        reveal_strlit("trace_id");
        reveal_strlit("stage");
        reveal_strlit("analyst_binding_id");
        reveal_strlit("policy_generation");
        reveal_strlit("active_revision_id");
        assert("analyst_binding_id"@[1] != "active_revision_id"@[1]);
        assert forall|k: Seq<char>|
            #![trigger member(base, k)]
            check_base(k, member(base, k), trace_id@, stage@, analyst_binding_id@, generation, active) by {
            assert(member(base, k) == member(f@, k));
        }
    }
    match data {
        JsonValue::Object(d) => {
            let ghost dd = d@;
            let mut d = d;
            let mut i: usize = 0;
            proof {
                assert(dd.len() == d.len());
                assert(dd.take(0) =~= Seq::<(String, JsonValue)>::empty());
                assert(dd.skip(0) =~= dd);
            }
            while d.len() > 0
                invariant
                    i <= dd.len(),
                    dd.len() <= usize::MAX,
                    i + d@.len() == dd.len(),
                    d@ == dd.skip(i as int),
                    keys_sorted(f@),
                    forall|k: Seq<char>|
                        #![trigger member(f@, k)]
                        member(f@, k) == match last_member(dd.take(i as int), k) {
                            Some(x) => Some(x),
                            None => member(base, k),
                        },
                decreases d.len(),
            {
                proof {
                    assert(dd.take(i + 1).drop_last() =~= dd.take(i as int));
                    assert(dd.take(i + 1).last() == dd[i as int]);
                    assert(d@[0] == dd[i as int]);
                }
                let (key, value) = d.remove(0);
                proof {
                    assert(d@ =~= dd.skip(i + 1));
                }
                map_insert(&mut f, key, value);
                i = i + 1;
            }
            proof {
                assert(dd.take(dd.len() as int) =~= dd);
            }
        },
        _ => {},
    }
    f
}

/// What a learning check records when a harness call starts: the call, what
/// it was given (sizes and digests only) and that it started.
pub fn call_started(call_id: &str, input: JsonValue) -> (r: JsonValue)
    ensures
        r matches JsonValue::Object(m) && m@.len() == 3 && m@[0].0@ == "call_id"@ && is_string(
            m@[0].1,
            call_id@,
        ) && m@[1].0@ == "input"@ && m@[1].1 == input && m@[2].0@ == "outcome"@ && is_string(
            m@[2].1,
            "started"@,
        ),
{
    let mut m: Vec<(String, JsonValue)> = Vec::new();
    m.push((owned("call_id"), JsonValue::Str(owned(call_id))));
    m.push((owned("input"), input));
    m.push((owned("outcome"), JsonValue::Str(owned("started"))));
    JsonValue::Object(m)
}

/// What a learning check records when a harness call ends: the call, how
/// long it took and its result (`completion_summary` or `failure`).
pub fn call_finished(call_id: &str, duration_ms: u64, result: JsonValue) -> (r: JsonValue)
    ensures
        r matches JsonValue::Object(m) && m@.len() == 3 && m@[0].0@ == "call_id"@ && is_string(
            m@[0].1,
            call_id@,
        ) && m@[1].0@ == "duration_ms"@ && (m@[1].1 matches JsonValue::Number(n) && n@ == decimal(
            duration_ms as nat,
        )) && m@[2].0@ == "result"@ && m@[2].1 == result,
{
    let mut m: Vec<(String, JsonValue)> = Vec::new();
    m.push((owned("call_id"), JsonValue::Str(owned(call_id))));
    m.push((owned("duration_ms"), JsonValue::Number(u64_to_decimal(duration_ms))));
    m.push((owned("result"), result));
    JsonValue::Object(m)
}

/// The message a learning claim is released with after a failed check: a
/// refusal's own words, a fixed note when access was lost, and a fixed
/// retry note for anything else (device and model errors are never shown).
pub open spec fn release_message(e: AppError) -> Seq<char> {
    match e {
        AppError::NotFound(m) => m@,
        AppError::Conflict(m) => m@,
        AppError::Validation(m) => m@,
        AppError::Forbidden(_) => "Learning no longer has access to the selected Agent or workspace."@,
        AppError::Unauthorized(_) => "Learning no longer has access to the selected Agent or workspace."@,
        _ => "Background analysis failed. Check the selected account and device; learning will retry."@,
    }
}

/// `release_message` of a check's failure.
pub fn check_release_message(error: &AppError) -> (r: String)
    ensures
        r@ == release_message(*error),
{
    match error {
        AppError::NotFound(m) => owned(m.as_str()),
        AppError::Conflict(m) => owned(m.as_str()),
        AppError::Validation(m) => owned(m.as_str()),
        AppError::Forbidden(_) => owned("Learning no longer has access to the selected Agent or workspace."),
        AppError::Unauthorized(_) => owned("Learning no longer has access to the selected Agent or workspace."),
        _ => owned("Background analysis failed. Check the selected account and device; learning will retry."),
    }
}

// ── Observed execution metadata ─────────────────────────────────────

/// The value a record reports for `field` of its execution
/// (`record._execution.<field>`), when it is a real one: a non-empty string
/// other than `<synthetic>`.
pub open spec fn observed(record: JsonValue, field: Seq<char>) -> Option<Seq<char>> {
    match json_at(json_at(json_at(record, "record"@), "_execution"@), field) {
        JsonValue::Str(s) => if s@.len() > 0 && s@ != "<synthetic>"@ {
            Some(s@)
        } else {
            None
        },
        _ => None,
    }
}

/// The one value the records agree on for `field`: `m` when some record
/// reports `m` and none reports anything else.
pub open spec fn agreed(records: Seq<JsonValue>, field: Seq<char>, m: Seq<char>) -> bool {
    &&& exists|i: int| 0 <= i < records.len() && observed(#[trigger] records[i], field) == Some(m)
    &&& forall|i: int|
        0 <= i < records.len() ==> (#[trigger] observed(records[i], field) is None || observed(
            records[i],
            field,
        ) == Some(m))
}

fn observed_exec(record: &JsonValue, field: &str) -> (r: Option<String>)
    ensures
        match observed(*record, field@) {
            Some(m) => r matches Some(x) && x@ == m,
            None => r is None,
        },
{
    let inner = match json_get(record, "record") {
        Some(x) => x,
        None => return None,
    };
    let execution = match json_get(inner, "_execution") {
        Some(x) => x,
        None => return None,
    };
    match json_get(execution, field) {
        Some(JsonValue::Str(s)) => {
            let v = chars_of(s.as_str());
            if v.len() > 0 && !same_text(s, &owned("<synthetic>")) {
                Some(owned(s.as_str()))
            } else {
                None
            }
        },
        _ => None,
    }
}

/// The value every record that reports `field` agrees on, if there is
/// exactly one.
pub fn observed_metadata(records: &[JsonValue], field: &str) -> (r: Option<String>)
    ensures
        match r {
            Some(m) => agreed(records@, field@, m@),
            None => forall|m: Seq<char>| !agreed(records@, field@, m),
        },
{
    let mut found: Option<String> = None;
    let mut i: usize = 0;
    while i < records.len()
        invariant
            i <= records@.len(),
            match found {
                None => forall|k: int| 0 <= k < i ==> #[trigger] observed(records@[k], field@) is None,
                Some(m) => (exists|k: int| 0 <= k < i && observed(#[trigger] records@[k], field@) == Some(m@))
                    && forall|k: int|
                    0 <= k < i ==> (#[trigger] observed(records@[k], field@) is None || observed(
                        records@[k],
                        field@,
                    ) == Some(m@)),
            },
        decreases records.len() - i,
    {
        match observed_exec(&records[i], field) {
            Some(v) => {
                match &found {
                    None => {
                        assert(observed(records@[i as int], field@) == Some(v@));
                        found = Some(v);
                    },
                    Some(m) => {
                        if !same_text(m, &v) {
                            proof {
                                let ghost mm = m@;
                                assert forall|x: Seq<char>| !agreed(records@, field@, x) by {
                                    let k = choose|k: int| 0 <= k < i && observed(#[trigger] records@[k], field@) == Some(mm);
                                    if agreed(records@, field@, x) {
                                        assert(observed(records@[k], field@) is None || observed(records@[k], field@) == Some(x));
                                        assert(observed(records@[i as int], field@) is None || observed(records@[i as int], field@) == Some(x));
                                    }
                                }
                            }
                            return None;
                        }
                    },
                }
            },
            None => {},
        }
        i = i + 1;
    }
    match found {
        None => {
            proof {
                assert forall|x: Seq<char>| !agreed(records@, field@, x) by {
                    if agreed(records@, field@, x) {
                        let k = choose|k: int| 0 <= k < records@.len() && observed(#[trigger] records@[k], field@) == Some(x);
                    }
                }
            }
            None
        },
        Some(m) => Some(m),
    }
}

/// The model the records agree they ran on.
pub fn observed_model(records: &[JsonValue]) -> (r: Option<String>)
    ensures
        match r {
            Some(m) => agreed(records@, "model"@, m@),
            None => forall|m: Seq<char>| !agreed(records@, "model"@, m),
        },
{
    observed_metadata(records, "model")
}

} // verus!
