//! Daily curation of the evaluation cases that learning collects: when a
//! sweep over the retained sources starts again, and which earlier cases
//! lose their check because a finished sweep did not see their evidence.
use vstd::prelude::*;
use vstd::seq_lib::lemma_seq_contains_after_push;
use crate::experience::json_at;
use crate::json_map::{keys_sorted, map_insert};
use crate::json_text::{json_int, push_json_int};
use crate::learning_review::text_in;
use crate::ordering::texts;
use crate::principals::{sorted_unique, strictly_sorted};
use crate::telemetry::{find_member, member, JsonValue};
use crate::text::{chars_eq, chars_of, owned, parse_i64, parse_i64_exec};

verus! {

/// A day, in seconds: how long a finished sweep rests before the next.
pub const CURATION_PERIOD_SECS: i64 = 86400;

/// `value.as_i64()`: a number written as an integer within `i64`'s range
/// (JSON never writes a number with a leading `+`).
pub open spec fn json_i64(v: JsonValue) -> Option<i64> {
    match v {
        JsonValue::Number(t) => if t@.len() > 0 && t@[0] == '+' {
            None
        } else {
            parse_i64(t@)
        },
        _ => None,
    }
}

/// A new sweep starts when none was ever started, or when the last one has
/// read everything and began at least a day before `now`.
pub open spec fn curation_restarts(cursor: JsonValue, now: i64) -> bool {
    match json_i64(json_at(cursor, "_curation_started"@)) {
        None => true,
        Some(t) => json_at(cursor, "_more"@) != JsonValue::Bool(true) && now - t >= CURATION_PERIOD_SECS,
    }
}

/// The cursor of a sweep that starts at `now`: `{"_curation_started": now}`.
pub open spec fn started_cursor(c: JsonValue, now: i64) -> bool {
    match c {
        JsonValue::Object(f) => f@.len() == 1 && f@[0].0@ == "_curation_started"@ && is_number(
            f@[0].1,
            json_int(now as int),
        ),
        _ => false,
    }
}

/// `v` is the number written `t`.
pub open spec fn is_number(v: JsonValue, t: Seq<char>) -> bool {
    match v {
        JsonValue::Number(n) => n@ == t,
        _ => false,
    }
}

/// `v` is the string `s`.
pub open spec fn is_str(v: JsonValue, s: Seq<char>) -> bool {
    match v {
        JsonValue::Str(x) => x@ == s,
        _ => false,
    }
}

fn member_at<'a>(v: &'a JsonValue, key: &str) -> (r: Option<&'a JsonValue>)
    ensures
        match r {
            Some(x) => *x == json_at(*v, key@),
            None => json_at(*v, key@) == JsonValue::Null,
        },
{
    match v {
        JsonValue::Object(f) => match find_member(f, key) {
            Some(k) => Some(&f[k].1),
            None => None,
        },
        _ => None,
    }
}

fn value_i64(v: &JsonValue) -> (r: Option<i64>)
    ensures
        r == json_i64(*v),
{
    match v {
        JsonValue::Number(t) => {
            let c = chars_of(t.as_str());
            if c.len() > 0 && c[0] == '+' {
                None
            } else {
                parse_i64_exec(c.as_slice())
            }
        },
        _ => None,
    }
}

/// Before a review of a claim that collects evaluation cases, starts a new
/// sweep over the retained sources when one is due: the source cursor then
/// holds only the time the sweep started, so paging begins again.
pub fn prepare_curation(trace_cases: bool, source_cursor: &mut JsonValue, now: i64)
    ensures
        trace_cases && curation_restarts(*old(source_cursor), now) ==> started_cursor(
            *final(source_cursor),
            now,
        ),
        !(trace_cases && curation_restarts(*old(source_cursor), now)) ==> *final(source_cursor)
            == *old(source_cursor),
{
    if !trace_cases {
        return;
    }
    let started = match member_at(source_cursor, "_curation_started") {
        Some(v) => value_i64(v),
        None => None,
    };
    let more = match member_at(source_cursor, "_more") {
        Some(JsonValue::Bool(b)) => *b,
        _ => false,
    };
    let restart = match started {
        None => true,
        Some(t) => !more && (now as i128) - (t as i128) >= CURATION_PERIOD_SECS as i128,
    };
    if restart {
        let mut text = String::new();
        push_json_int(&mut text, now);
        assert(text@ == json_int(now as int));
        let mut f: Vec<(String, JsonValue)> = Vec::new();
        f.push((owned("_curation_started"), JsonValue::Number(text)));
        *source_cursor = JsonValue::Object(f);
    }
}

/// The texts of the string items of a JSON array, in order.
pub open spec fn str_items(items: Seq<JsonValue>) -> Seq<Seq<char>> {
    items.map_values(
        |v: JsonValue|
            match v {
                JsonValue::Str(s) => s@,
                _ => Seq::<char>::empty(),
            },
    )
}

/// Every item is a string.
pub open spec fn all_str(items: Seq<JsonValue>) -> bool {
    forall|j: int| 0 <= j < items.len() ==> (#[trigger] items[j]) is Str
}

/// The strings among `items`, in order.
pub open spec fn strings_of(items: Seq<JsonValue>) -> Seq<Seq<char>>
    decreases items.len(),
{
    if items.len() == 0 {
        seq![]
    } else {
        match items.last() {
            JsonValue::Str(x) => strings_of(items.drop_last()).push(x@),
            _ => strings_of(items.drop_last()),
        }
    }
}

/// The checkpoint's `_curation_seen` list names `s`.
pub open spec fn listed_seen(checkpoint: Seq<(String, JsonValue)>, s: Seq<char>) -> bool {
    match member(checkpoint, "_curation_seen"@) {
        Some(JsonValue::Array(a)) => strings_of(a@).contains(s),
        _ => false,
    }
}

/// One of the earlier cases comes from episode `s`.
pub open spec fn earlier_ref(previous: Seq<(String, bool)>, s: Seq<char>) -> bool {
    exists|j: int| 0 <= j < previous.len() && (#[trigger] previous[j]).0@ == s
}

/// After this page of the sweep, episode `s` counts as seen again: it was
/// seen earlier in the sweep and still belongs to an earlier case, or a
/// case of this page comes from it.
pub open spec fn swept(
    checkpoint: Seq<(String, JsonValue)>,
    previous: Seq<(String, bool)>,
    changes: Seq<String>,
    s: Seq<char>,
) -> bool {
    (listed_seen(checkpoint, s) && earlier_ref(previous, s)) || texts(changes).contains(s)
}

/// The reason recorded on a case whose check is withdrawn.
pub fn withdrawn_reason() -> (r: String)
    ensures
        r@ == "Original evidence was not revalidated in the retained-source sweep"@,
{
    owned("Original evidence was not revalidated in the retained-source sweep")
}

fn listed_strings(checkpoint: &Vec<(String, JsonValue)>) -> (r: Vec<String>)
    ensures
        forall|s: Seq<char>| texts(r@).contains(s) <==> listed_seen(checkpoint@, s),
{
    let mut out: Vec<String> = Vec::new();
    match find_member(checkpoint, "_curation_seen") {
        Some(k) => match &checkpoint[k].1 {
            JsonValue::Array(a) => {
                let mut i: usize = 0;
                proof {
                    assert(a@.take(0) =~= Seq::<JsonValue>::empty());
                    assert(texts(out@) =~= Seq::<Seq<char>>::empty());
                }
                while i < a.len()
                    invariant
                        i <= a@.len(),
                        texts(out@) == strings_of(a@.take(i as int)),
                    decreases a.len() - i,
                {
                    let ghost before = out@;
                    proof {
                        assert(a@.take(i + 1).drop_last() =~= a@.take(i as int));
                    }
                    match &a[i] {
                        JsonValue::Str(x) => {
                            out.push(owned(x.as_str()));
                            proof {
                                assert(texts(out@) =~= texts(before).push(x@));
                            }
                        },
                        _ => {},
                    }
                    i = i + 1;
                }
                proof {
                    assert(a@.take(a@.len() as int) =~= a@);
                }
            },
            _ => {},
        },
        None => {},
    }
    proof {
        if texts(out@).len() == 0 {
            assert forall|s: Seq<char>| !texts(out@).contains(s) by {}
        }
    }
    out
}

fn has_earlier_ref(previous: &Vec<(String, bool)>, s: &String) -> (r: bool)
    ensures
        r == earlier_ref(previous@, s@),
{
    let mut i: usize = 0;
    while i < previous.len()
        invariant
            i <= previous@.len(),
            forall|j: int| 0 <= j < i ==> (#[trigger] previous@[j]).0@ != s@,
        decreases previous.len() - i,
    {
        if chars_eq(chars_of(previous[i].0.as_str()).as_slice(), chars_of(s.as_str()).as_slice()) {
            return true;
        }
        i = i + 1;
    }
    false
}

/// Ends one page of a curation sweep. The checkpoint's `_curation_seen`
/// becomes the episodes seen again so far (sorted, each once); when the sweep
/// is `complete`, the earlier cases that carry a check but whose episode was
/// not seen again are the ones to withdraw, given by position, in order. A
/// withdrawn case keeps everything but its check, and takes
/// `withdrawn_reason()` as its reason.
pub fn finish_curation(
    checkpoint: &mut Vec<(String, JsonValue)>,
    previous: &Vec<(String, bool)>,
    changes: &Vec<String>,
    complete: bool,
) -> (withdraw: Vec<usize>)
    requires
        keys_sorted(old(checkpoint)@),
    ensures
        keys_sorted(final(checkpoint)@),
        forall|k: Seq<char>|
            #![trigger member(final(checkpoint)@, k)]
            k != "_curation_seen"@ ==> member(final(checkpoint)@, k) == member(old(checkpoint)@, k),
        member(final(checkpoint)@, "_curation_seen"@) matches Some(JsonValue::Array(items)) && {
            &&& all_str(items@)
            &&& strictly_sorted(str_items(items@))
            &&& forall|s: Seq<char>|
                str_items(items@).contains(s) <==> swept(old(checkpoint)@, previous@, changes@, s)
        },
        forall|a: int, b: int| 0 <= a < b < withdraw@.len() ==> withdraw@[a] < withdraw@[b],
        forall|a: int| 0 <= a < withdraw@.len() ==> withdraw@[a] < previous@.len(),
        !complete ==> withdraw@.len() == 0,
        complete ==> forall|i: int|
            0 <= i < previous@.len() ==> (withdraw@.contains(i as usize) <==> ((#[trigger] previous@[i]).1
                && !swept(old(checkpoint)@, previous@, changes@, previous@[i].0@))),
{
    let ghost cp = checkpoint@;
    let listed = listed_strings(checkpoint);
    let mut all: Vec<String> = Vec::new();
    let mut i: usize = 0;
    proof {
        assert(texts(all@) =~= Seq::<Seq<char>>::empty());
        assert(texts(listed@).take(0) =~= Seq::<Seq<char>>::empty());
    }
    while i < listed.len()
        invariant
            i <= listed@.len(),
            forall|s: Seq<char>| texts(listed@).contains(s) <==> listed_seen(cp, s),
            forall|s: Seq<char>|
                #[trigger] texts(all@).contains(s) <==> texts(listed@).take(i as int).contains(s)
                    && earlier_ref(previous@, s),
        decreases listed.len() - i,
    {
        let ghost before = all@;
        proof {
            assert(texts(listed@).take(i + 1) =~= texts(listed@).take(i as int).push(listed@[i as int]@));
        }
        let ghost x = listed@[i as int]@;
        if has_earlier_ref(previous, &listed[i]) {
            all.push(owned(listed[i].as_str()));
            proof {
                assert(texts(all@) =~= texts(before).push(x));
            }
        }
        proof {
            assert forall|s: Seq<char>|
                #[trigger] texts(all@).contains(s) <==> texts(listed@).take(i + 1).contains(s)
                    && earlier_ref(previous@, s) by {
                assert(texts(before).contains(s) <==> texts(listed@).take(i as int).contains(s)
                    && earlier_ref(previous@, s));
                lemma_seq_contains_after_push(texts(listed@).take(i as int), x, s);
                if texts(all@) != texts(before) {
                    lemma_seq_contains_after_push(texts(before), x, s);
                }
            }
        }
        i = i + 1;
    }
    proof {
        assert(texts(listed@).take(listed@.len() as int) =~= texts(listed@));
    }
    let mut c: usize = 0;
    proof {
        assert(texts(changes@).take(0) =~= Seq::<Seq<char>>::empty());
    }
    while c < changes.len()
        invariant
            c <= changes@.len(),
            forall|s: Seq<char>| texts(listed@).contains(s) <==> listed_seen(cp, s),
            forall|s: Seq<char>|
                #[trigger] texts(all@).contains(s) <==> ((texts(listed@).contains(s) && earlier_ref(
                    previous@,
                    s,
                )) || texts(changes@).take(c as int).contains(s)),
        decreases changes.len() - c,
    {
        let ghost before = all@;
        proof {
            assert(texts(changes@).take(c + 1) =~= texts(changes@).take(c as int).push(changes@[c as int]@));
        }
        let ghost x = changes@[c as int]@;
        all.push(owned(changes[c].as_str()));
        proof {
            assert(texts(all@) =~= texts(before).push(x));
            assert forall|s: Seq<char>|
                #[trigger] texts(all@).contains(s) <==> ((texts(listed@).contains(s) && earlier_ref(
                    previous@,
                    s,
                )) || texts(changes@).take(c + 1).contains(s)) by {
                assert(texts(before).contains(s) <==> ((texts(listed@).contains(s) && earlier_ref(
                    previous@,
                    s,
                )) || texts(changes@).take(c as int).contains(s)));
                lemma_seq_contains_after_push(texts(changes@).take(c as int), x, s);
                lemma_seq_contains_after_push(texts(before), x, s);
            }
        }
        c = c + 1;
    }
    proof {
        assert(texts(changes@).take(changes@.len() as int) =~= texts(changes@));
    }
    let seen = sorted_unique(all);
    let mut items: Vec<JsonValue> = Vec::new();
    let mut k: usize = 0;
    while k < seen.len()
        invariant
            k <= seen@.len(),
            items@.len() == k,
            forall|j: int| 0 <= j < k ==> is_str(#[trigger] items@[j], seen@[j]@),
        decreases seen.len() - k,
    {
        items.push(JsonValue::Str(owned(seen[k].as_str())));
        k = k + 1;
    }
    proof {
        assert(str_items(items@) =~= texts(seen@));
    }
    map_insert(checkpoint, owned("_curation_seen"), JsonValue::Array(items));
    let mut withdraw: Vec<usize> = Vec::new();
    if complete {
        let mut p: usize = 0;
        while p < previous.len()
            invariant
                p <= previous@.len(),
                forall|s: Seq<char>| texts(seen@).contains(s) <==> swept(cp, previous@, changes@, s),
                forall|a: int, b: int| 0 <= a < b < withdraw@.len() ==> withdraw@[a] < withdraw@[b],
                forall|a: int| 0 <= a < withdraw@.len() ==> withdraw@[a] < p,
                forall|i: int|
                    0 <= i < previous@.len() ==> (withdraw@.contains(i as usize) <==> (i < p && (
                    #[trigger] previous@[i]).1 && !swept(cp, previous@, changes@, previous@[i].0@))),
            decreases previous.len() - p,
        {
            let ghost before = withdraw@;
            if previous[p].1 && !text_in(seen.as_slice(), &previous[p].0) {
                withdraw.push(p);
            }
            proof {
                assert forall|i: int|
                    0 <= i < previous@.len() implies (withdraw@.contains(i as usize) <==> (i < p + 1 && (
                    #[trigger] previous@[i]).1 && !swept(cp, previous@, changes@, previous@[i].0@))) by {
                    assert(before.contains(i as usize) <==> (i < p && previous@[i].1 && !swept(
                        cp,
                        previous@,
                        changes@,
                        previous@[i].0@,
                    )));
                    if withdraw@ != before {
                        lemma_seq_contains_after_push(before, p, i as usize);
                    } else {
                        if i == p {
                            assert(!before.contains(p)) by {
                                if before.contains(p) {
                                    let m = choose|m: int| 0 <= m < before.len() && before[m] == p;
                                }
                            }
                        }
                    }
                }
            }
            p = p + 1;
        }
    }
    withdraw
}

} // verus!
