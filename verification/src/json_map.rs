//! JSON objects as `serde_json` holds them: members sorted by key, each key
//! once, so that inserting a member keeps the order a map would give.
use vstd::prelude::*;
use crate::ordering::{lemma_text_lt_irreflexive, lemma_text_lt_total, lemma_text_lt_transitive, text_less, text_lt};
use crate::telemetry::{lemma_member_index_is, member, JsonValue};
use crate::text::{chars_eq, chars_of};

verus! {

/// Members in ascending order of key, no key twice.
pub open spec fn keys_sorted(f: Seq<(String, JsonValue)>) -> bool {
    forall|i: int, j: int| 0 <= i < j < f.len() ==> text_lt((#[trigger] f[i]).0@, (#[trigger] f[j]).0@)
}

/// In a sorted object, the member named `key` is the one at `i`.
pub(crate) proof fn lemma_member_at(f: Seq<(String, JsonValue)>, key: Seq<char>, i: int)
    requires
        keys_sorted(f),
        0 <= i < f.len(),
        f[i].0@ == key,
    ensures
        member(f, key) == Some(f[i].1),
{
    assert forall|j: int| 0 <= j < i implies (#[trigger] f[j]).0@ != key by {
        assert(text_lt(f[j].0@, f[i].0@));
        if f[j].0@ == key {
            lemma_text_lt_irreflexive(key);
        }
    }
    lemma_member_index_is(f, key, i);
}

/// A key no member has.
pub(crate) proof fn lemma_member_absent(f: Seq<(String, JsonValue)>, key: Seq<char>)
    requires
        forall|j: int| 0 <= j < f.len() ==> (#[trigger] f[j]).0@ != key,
    ensures
        member(f, key) is None,
{
    lemma_member_index_is(f, key, f.len() as int);
}

/// `object.insert(key, value)` on a map-ordered object: the member named
/// `key` now holds `value`, every other member is kept, and the order stays
/// that of a map.
pub fn map_insert(fields: &mut Vec<(String, JsonValue)>, key: String, value: JsonValue)
    requires
        keys_sorted(old(fields)@),
    ensures
        keys_sorted(final(fields)@),
        forall|k: Seq<char>|
            #![trigger member(final(fields)@, k)]
            member(final(fields)@, k) == if k == key@ {
                Some(value)
            } else {
                member(old(fields)@, k)
            },
{
    let ghost before = fields@;
    let mut i: usize = 0;
    while i < fields.len() && text_less(fields[i].0.as_str(), key.as_str())
        invariant
            fields@ == before,
            keys_sorted(before),
            i <= before.len(),
            forall|j: int| 0 <= j < i ==> text_lt((#[trigger] before[j]).0@, key@),
        decreases fields.len() - i,
    {
        i = i + 1;
    }
    // Every member from `i` on has a key no smaller than `key`.
    proof {
        if i < before.len() {
            assert(!text_lt(before[i as int].0@, key@));
        }
    }
    let same = i < fields.len() && chars_eq(chars_of(fields[i].0.as_str()).as_slice(), chars_of(key.as_str()).as_slice());
    if same {
        let (k, _) = fields.remove(i);
        fields.insert(i, (k, value));
        let ghost after = fields@;
        assert(after =~= before.update(i as int, (before[i as int].0, value)));
        proof {
            assert forall|a: int, b: int| 0 <= a < b < after.len() implies text_lt((#[trigger] after[a]).0@, (#[trigger] after[b]).0@) by {
                assert(after[a].0@ == before[a].0@);
                assert(after[b].0@ == before[b].0@);
            }
            assert forall|k: Seq<char>| member(after, k) == (if k == key@ { Some(value) } else { member(before, k) }) by {
                if k == key@ {
                    lemma_member_at(after, k, i as int);
                } else {
                    lemma_members_agree(before, after, k, i as int);
                }
            }
        }
    } else {
        fields.insert(i, (key, value));
        let ghost after = fields@;
        proof {
            assert(after == before.insert(i as int, (key, value)));
            assert forall|j: int| i <= j < before.len() implies text_lt(key@, (#[trigger] before[j]).0@) by {
                lemma_text_lt_total(before[j].0@, key@);
                if j > i {
                    assert(text_lt(before[i as int].0@, before[j].0@));
                    lemma_text_lt_total(before[i as int].0@, key@);
                    if before[i as int].0@ != key@ {
                        lemma_text_lt_transitive(key@, before[i as int].0@, before[j].0@);
                    }
                }
            }
            assert forall|a: int, b: int| 0 <= a < b < after.len() implies text_lt((#[trigger] after[a]).0@, (#[trigger] after[b]).0@) by {
                if b < i {
                    assert(after[a] == before[a] && after[b] == before[b]);
                } else if b == i {
                    assert(after[a] == before[a]);
                } else if a < i {
                    assert(after[a] == before[a] && after[b] == before[b - 1]);
                    assert(text_lt(before[a].0@, key@));
                    assert(text_lt(key@, before[b - 1].0@));
                    lemma_text_lt_transitive(before[a].0@, key@, before[b - 1].0@);
                } else if a == i {
                    assert(after[b] == before[b - 1]);
                } else {
                    assert(after[a] == before[a - 1] && after[b] == before[b - 1]);
                }
            }
            assert forall|k: Seq<char>| member(after, k) == (if k == key@ { Some(value) } else { member(before, k) }) by {
                if k == key@ {
                    lemma_member_at(after, k, i as int);
                } else {
                    lemma_inserted_members_agree(before, after, k, i as int);
                }
            }
        }
    }
}

/// Replacing the value at `i` leaves every other key's member alone.
proof fn lemma_members_agree(before: Seq<(String, JsonValue)>, after: Seq<(String, JsonValue)>, k: Seq<char>, i: int)
    requires
        keys_sorted(before),
        keys_sorted(after),
        0 <= i < before.len(),
        after.len() == before.len(),
        forall|j: int| 0 <= j < before.len() ==> (#[trigger] after[j]).0@ == before[j].0@,
        forall|j: int| 0 <= j < before.len() && j != i ==> (#[trigger] after[j]) == before[j],
        before[i].0@ != k,
    ensures
        member(after, k) == member(before, k),
{
    if exists|j: int| 0 <= j < before.len() && (#[trigger] before[j]).0@ == k {
        let j = choose|j: int| 0 <= j < before.len() && (#[trigger] before[j]).0@ == k;
        lemma_member_at(before, k, j);
        lemma_member_at(after, k, j);
    } else {
        assert forall|j: int| 0 <= j < after.len() implies (#[trigger] after[j]).0@ != k by {
            assert(after[j].0@ == before[j].0@);
        }
        lemma_member_absent(before, k);
        lemma_member_absent(after, k);
    }
}

/// Inserting a member named other than `k` leaves `k`'s member alone.
proof fn lemma_inserted_members_agree(before: Seq<(String, JsonValue)>, after: Seq<(String, JsonValue)>, k: Seq<char>, i: int)
    requires
        keys_sorted(before),
        keys_sorted(after),
        0 <= i <= before.len(),
        after.len() == before.len() + 1,
        forall|j: int| 0 <= j < i ==> (#[trigger] after[j]) == before[j],
        forall|j: int| i < j < after.len() ==> (#[trigger] after[j]) == before[j - 1],
        after[i].0@ != k,
    ensures
        member(after, k) == member(before, k),
{
    if exists|j: int| 0 <= j < before.len() && (#[trigger] before[j]).0@ == k {
        let j = choose|j: int| 0 <= j < before.len() && (#[trigger] before[j]).0@ == k;
        lemma_member_at(before, k, j);
        if j < i {
            lemma_member_at(after, k, j);
        } else {
            assert(after[j + 1] == before[j]);
            lemma_member_at(after, k, j + 1);
        }
    } else {
        assert forall|j: int| 0 <= j < after.len() implies (#[trigger] after[j]).0@ != k by {
            if j < i {
                assert(after[j] == before[j]);
            } else if j > i {
                assert(after[j] == before[j - 1]);
            }
        }
        lemma_member_absent(before, k);
        lemma_member_absent(after, k);
    }
}

/// Whether an object's members are in map order (ascending keys, none twice).
pub fn keys_in_order(fields: &Vec<(String, JsonValue)>) -> (r: bool)
    ensures
        r == keys_sorted(fields@),
{
    if fields.len() == 0 {
        return true;
    }
    let mut i: usize = 1;
    while i < fields.len()
        invariant
            1 <= i <= fields@.len(),
            keys_sorted(fields@.take(i as int)),
        decreases fields.len() - i,
    {
        if !text_less(fields[i - 1].0.as_str(), fields[i].0.as_str()) {
            proof {
                let a = (i - 1) as int;
                let b = i as int;
                assert(!text_lt(fields@[a].0@, fields@[b].0@));
                if keys_sorted(fields@) {
                    assert(text_lt(fields@[a].0@, fields@[b].0@));
                }
            }
            return false;
        }
        proof {
            let t = fields@.take(i + 1);
            assert forall|a: int, b: int| 0 <= a < b < t.len() implies text_lt((#[trigger] t[a]).0@, (#[trigger] t[b]).0@) by {
                if b < i {
                    assert(t[a] == fields@.take(i as int)[a] && t[b] == fields@.take(i as int)[b]);
                } else if a < i - 1 {
                    assert(t[a] == fields@.take(i as int)[a]);
                    assert(fields@.take(i as int)[i - 1] == fields@[i - 1]);
                    assert(text_lt(t[a].0@, fields@[i - 1].0@));
                    lemma_text_lt_transitive(t[a].0@, fields@[i - 1].0@, t[b].0@);
                }
            }
        }
        i = i + 1;
    }
    assert(fields@.take(fields@.len() as int) =~= fields@);
    true
}

} // verus!
