//! Disabling agents in bulk: which conversations a batch may delete and
//! how the outcome is reported.
use vstd::prelude::*;
use crate::ordering::{lemma_text_lt_total, lemma_text_lt_transitive, sort_texts, sorted_version, text_lt, texts};
use crate::redaction::AppError;
use crate::telemetry::JsonValue;
use crate::text::{chars_eq, chars_of, decimal, owned, u64_to_decimal};

verus! {

/// Most conversations one batch may delete.
pub const MAX_BATCH_CONVERSATIONS: usize = 100;

/// Each string comes after the one before it: sorted without repeats.
pub open spec fn strictly_sorted(s: Seq<Seq<char>>) -> bool {
    forall|i: int, j: int| 0 <= i < j < s.len() ==> text_lt(#[trigger] s[i], #[trigger] s[j])
}

/// Why a batch's conversation list is refused, if it is.
pub open spec fn batch_error(ids: Seq<Seq<char>>) -> Option<Seq<char>> {
    if ids.len() > MAX_BATCH_CONVERSATIONS {
        Some("at most 100 conversations may be deleted at once"@)
    } else if exists|i: int| 0 <= i < ids.len() && (#[trigger] ids[i]).len() == 0 {
        Some("conversation ids must not be empty"@)
    } else {
        None
    }
}

pub(crate) fn dedup_sorted(sorted: Vec<String>) -> (r: Vec<String>)
    requires
        forall|i: int, j: int|
            0 <= i < j < sorted@.len() ==> !text_lt(#[trigger] texts(sorted@)[j], #[trigger] texts(sorted@)[i]),
    ensures
        strictly_sorted(texts(r@)),
        forall|x: Seq<char>| texts(r@).contains(x) <==> texts(sorted@).contains(x),
{
    let ghost s = texts(sorted@);
    let mut out: Vec<String> = Vec::new();
    let mut i: usize = 0;
    while i < sorted.len()
        invariant
            i <= sorted@.len(),
            s == texts(sorted@),
            forall|a: int, b: int| 0 <= a < b < s.len() ==> !text_lt(#[trigger] s[b], #[trigger] s[a]),
            strictly_sorted(texts(out@)),
            forall|x: Seq<char>| texts(out@).contains(x) <==> s.take(i as int).contains(x),
            i > 0 ==> out@.len() > 0 && texts(out@).last() == s[i - 1],
            i == 0 ==> out@.len() == 0,
        decreases sorted.len() - i,
    {
        let ghost o = texts(out@);
        let keep = out.len() == 0 || !chars_eq(
            chars_of(out[out.len() - 1].as_str()).as_slice(),
            chars_of(sorted[i].as_str()).as_slice(),
        );
        if keep {
            out.push(owned(sorted[i].as_str()));
            proof {
                let x = s[i as int];
                let n = texts(out@);
                assert(n =~= o.push(x));
                if o.len() > 0 {
                    assert(o.last() == s[i - 1]);
                    assert(!text_lt(s[i as int], s[i - 1]));
                    lemma_text_lt_total(o.last(), x);
                    assert(text_lt(o.last(), x));
                }
                assert forall|a: int, b: int| 0 <= a < b < n.len() implies text_lt(#[trigger] n[a], #[trigger] n[b]) by {
                    if b == n.len() - 1 && a < o.len() - 1 {
                        assert(text_lt(o[a], o[o.len() - 1]));
                        lemma_text_lt_transitive(o[a], o[o.len() - 1], x);
                    } else if b < n.len() - 1 {
                        assert(n[a] == o[a] && n[b] == o[b]);
                    }
                }
                assert(s.take(i + 1) =~= s.take(i as int).push(x));
                assert forall|y: Seq<char>| n.contains(y) <==> s.take(i + 1).contains(y) by {
                    if n.contains(y) {
                        let k = choose|k: int| 0 <= k < n.len() && #[trigger] n[k] == y;
                        if k < o.len() {
                            assert(o.contains(y));
                            let m = choose|m: int| 0 <= m < i && #[trigger] s.take(i as int)[m] == y;
                            assert(s.take(i + 1)[m] == y);
                        } else {
                            assert(s.take(i + 1)[i as int] == y);
                        }
                    }
                    if s.take(i + 1).contains(y) {
                        let m = choose|m: int| 0 <= m < i + 1 && #[trigger] s.take(i + 1)[m] == y;
                        if m < i {
                            assert(s.take(i as int)[m] == y);
                            assert(s.take(i as int).contains(y));
                            assert(o.contains(y));
                            let k = choose|k: int| 0 <= k < o.len() && #[trigger] o[k] == y;
                            assert(n[k] == o[k]);
                            assert(n[k] == y);
                        } else {
                            assert(n[n.len() - 1] == y);
                        }
                    }
                }
            }
        } else {
            proof {
                let x = s[i as int];
                assert(o.last() == x);
                assert(s.take(i + 1) =~= s.take(i as int).push(x));
                assert forall|y: Seq<char>| o.contains(y) <==> s.take(i + 1).contains(y) by {
                    if s.take(i + 1).contains(y) {
                        let m = choose|m: int| 0 <= m < i + 1 && #[trigger] s.take(i + 1)[m] == y;
                        if m < i {
                            assert(s.take(i as int)[m] == y);
                            assert(s.take(i as int).contains(y));
                        } else {
                            assert(o[o.len() - 1] == y);
                        }
                    }
                    if o.contains(y) {
                        let m = choose|m: int| 0 <= m < i && #[trigger] s.take(i as int)[m] == y;
                        assert(s.take(i + 1)[m] == y);
                    }
                }
            }
        }
        i = i + 1;
    }
    assert(s.take(sorted@.len() as int) =~= s);
    out
}

/// `items` sorted, without repeats.
pub fn sorted_unique(items: Vec<String>) -> (r: Vec<String>)
    ensures
        strictly_sorted(texts(r@)),
        forall|x: Seq<char>| texts(r@).contains(x) <==> texts(items@).contains(x),
{
    let ghost input = texts(items@);
    let sorted = sort_texts(items);
    let out = dedup_sorted(sorted);
    proof {
        assert forall|x: Seq<char>| texts(out@).contains(x) <==> input.contains(x) by {
            vstd::seq_lib::to_multiset_contains(texts(sorted@), x);
            vstd::seq_lib::to_multiset_contains(input, x);
        }
    }
    out
}

/// The conversations a batch deletes: the requested ids, without repeats,
/// in ascending order; at most 100 ids and none empty.
pub fn check_batch_conversations(ids: Vec<String>) -> (r: Result<Vec<String>, AppError>)
    ensures
        match batch_error(texts(ids@)) {
            Some(m) => r matches Err(e) && e matches AppError::Validation(x) && x@ == m,
            None => r matches Ok(out) && strictly_sorted(texts(out@)) && forall|x: Seq<char>|
                texts(out@).contains(x) <==> texts(ids@).contains(x),
        },
{
    assert(texts(ids@).len() == ids@.len());
    if ids.len() > MAX_BATCH_CONVERSATIONS {
        return Err(AppError::Validation(owned("at most 100 conversations may be deleted at once")));
    }
    let mut i: usize = 0;
    while i < ids.len()
        invariant
            i <= ids@.len(),
            ids@.len() <= MAX_BATCH_CONVERSATIONS,
            texts(ids@).len() == ids@.len(),
            forall|k: int| 0 <= k < i ==> (#[trigger] texts(ids@)[k]).len() > 0,
        decreases ids.len() - i,
    {
        if chars_of(ids[i].as_str()).len() == 0 {
            assert(texts(ids@)[i as int].len() == 0);
            return Err(AppError::Validation(owned("conversation ids must not be empty")));
        }
        i = i + 1;
    }
    let ghost input = texts(ids@);
    let sorted = sort_texts(ids);
    let out = dedup_sorted(sorted);
    proof {
        assert forall|x: Seq<char>| texts(sorted@).contains(x) <==> input.contains(x) by {
            vstd::seq_lib::to_multiset_contains(texts(sorted@), x);
            vstd::seq_lib::to_multiset_contains(input, x);
        }
    }
    Ok(out)
}

/// Every requested conversation must be one the operator belongs to.
pub fn check_conversation_authorization(authorized_count: i64, requested: usize) -> (r: Result<(), AppError>)
    ensures
        authorized_count == requested ==> r is Ok,
        authorized_count != requested ==> (r matches Err(e) && e matches AppError::Forbidden(m) && m@
            == "not a member of every requested conversation"@),
{
    if authorized_count < 0 || authorized_count as u64 != requested as u64 {
        return Err(AppError::Forbidden(owned("not a member of every requested conversation")));
    }
    Ok(())
}

/// The report of a batch: agents disabled and not, conversations deleted,
/// and requested conversations that were not deleted (members sorted by name).
pub fn batch_disable_summary(disabled: u64, failed: u64, deleted_rows: u64, requested: usize) -> (r: JsonValue)
    ensures
        match r {
            JsonValue::Object(m) => {
                &&& m@.len() == 4
                &&& m@[0].0@ == "conversations_deleted"@
                &&& m@[0].1 matches JsonValue::Number(n) && n@ == decimal(deleted_rows as nat)
                &&& m@[1].0@ == "conversations_failed"@
                &&& m@[1].1 matches JsonValue::Number(n) && n@ == decimal(
                    if requested >= deleted_rows { (requested - deleted_rows) as nat } else { 0 },
                )
                &&& m@[2].0@ == "disabled"@
                &&& m@[2].1 matches JsonValue::Number(n) && n@ == decimal(disabled as nat)
                &&& m@[3].0@ == "failed"@
                &&& m@[3].1 matches JsonValue::Number(n) && n@ == decimal(failed as nat)
            },
            _ => false,
        },
{
    let not_deleted: u64 = (requested as u64).saturating_sub(deleted_rows);
    let mut m: Vec<(String, JsonValue)> = Vec::new();
    m.push((owned("conversations_deleted"), JsonValue::Number(u64_to_decimal(deleted_rows))));
    m.push((owned("conversations_failed"), JsonValue::Number(u64_to_decimal(not_deleted))));
    m.push((owned("disabled"), JsonValue::Number(u64_to_decimal(disabled))));
    m.push((owned("failed"), JsonValue::Number(u64_to_decimal(failed))));
    JsonValue::Object(m)
}

} // verus!
