//! The order of strings (`<` on `String`) and sorting by it.
use vstd::prelude::*;
use vstd::multiset::Multiset;
use vstd::seq_lib::to_multiset_build;
use vstd::seq_lib::to_multiset_insert;
use crate::text::chars_of;

verus! {

/// `a < b` on strings: `String` compares the UTF-8 bytes lexicographically,
/// which orders the characters by code point.
pub open spec fn text_lt(a: Seq<char>, b: Seq<char>) -> bool
    decreases a.len(),
{
    if a.len() == 0 {
        b.len() > 0
    } else if b.len() == 0 {
        false
    } else if a[0] != b[0] {
        a[0] < b[0]
    } else {
        text_lt(a.drop_first(), b.drop_first())
    }
}

pub proof fn lemma_text_lt_transitive(a: Seq<char>, b: Seq<char>, c: Seq<char>)
    requires
        text_lt(a, b),
        text_lt(b, c),
    ensures
        text_lt(a, c),
    decreases a.len(),
{
    if a.len() > 0 && a[0] == b[0] && b[0] == c[0] {
        lemma_text_lt_transitive(a.drop_first(), b.drop_first(), c.drop_first());
    }
}

pub proof fn lemma_text_lt_irreflexive(a: Seq<char>)
    ensures
        !text_lt(a, a),
    decreases a.len(),
{
    if a.len() > 0 {
        lemma_text_lt_irreflexive(a.drop_first());
    }
}

/// `a < b` for two strings.
pub fn text_less(a: &str, b: &str) -> (r: bool)
    ensures
        r == text_lt(a@, b@),
{
    let x = chars_of(a);
    let y = chars_of(b);
    let mut i: usize = 0;
    proof {
        assert(x@.skip(0) =~= x@);
        assert(y@.skip(0) =~= y@);
    }
    while i < x.len() && i < y.len() && x[i] == y[i]
        invariant
            i <= x@.len(),
            i <= y@.len(),
            x@ == a@,
            y@ == b@,
            text_lt(a@, b@) == text_lt(x@.skip(i as int), y@.skip(i as int)),
        decreases x.len() - i,
    {
        proof {
            assert(x@.skip(i as int).drop_first() =~= x@.skip(i + 1));
            assert(y@.skip(i as int).drop_first() =~= y@.skip(i + 1));
        }
        i = i + 1;
    }
    if i == x.len() {
        i < y.len()
    } else if i == y.len() {
        false
    } else {
        x[i] < y[i]
    }
}

/// The characters of each string.
pub open spec fn texts(v: Seq<String>) -> Seq<Seq<char>> {
    v.map_values(|s: String| s@)
}

/// No string comes after one that is greater.
pub open spec fn sorted_texts(s: Seq<Seq<char>>) -> bool {
    forall|i: int, j: int| 0 <= i < j < s.len() ==> !text_lt(#[trigger] s[j], #[trigger] s[i])
}

/// `items` in ascending order: the same strings, each as often, sorted.
/// (Two sorted sequences of the same strings are equal, so this names one
/// sequence.)
pub open spec fn sorted_version(items: Seq<Seq<char>>, out: Seq<Seq<char>>) -> bool {
    sorted_texts(out) && out.to_multiset() == items.to_multiset()
}

/// Sorts strings in ascending order; equal strings keep their order.
pub fn sort_texts(items: Vec<String>) -> (r: Vec<String>)
    ensures
        sorted_version(texts(items@), texts(r@)),
{
    let ghost all = texts(items@);
    let mut rest = items;
    let mut out: Vec<String> = Vec::new();
    proof {
        assert(texts(out@) =~= Seq::<Seq<char>>::empty());
        assert(texts(out@).to_multiset() =~= Multiset::empty()) by {
            broadcast use vstd::seq_lib::group_to_multiset_ensures;
        }
    }
    while rest.len() > 0
        invariant
            sorted_texts(texts(out@)),
            texts(out@).to_multiset().add(texts(rest@).to_multiset()) == all.to_multiset(),
        decreases rest.len(),
    {
        let ghost before_rest = rest@;
        let x = rest.pop().unwrap();
        proof {
            assert(texts(before_rest) =~= texts(rest@).push(x@));
            to_multiset_build(texts(rest@), x@);
        }
        let mut p: usize = 0;
        while p < out.len() && !text_less(x.as_str(), out[p].as_str())
            invariant
                p <= out@.len(),
                forall|k: int| 0 <= k < p ==> !text_lt(x@, #[trigger] out@[k]@),
            decreases out.len() - p,
        {
            p = p + 1;
        }
        let ghost old_out = texts(out@);
        proof {
            if p < out@.len() {
                assert(text_lt(x@, out@[p as int]@));
            }
        }
        out.insert(p, x);
        proof {
            let s = texts(out@);
            assert(s =~= old_out.insert(p as int, x@));
            to_multiset_insert(old_out, p as int, x@);
            assert forall|i: int, j: int| 0 <= i < j < s.len() implies !text_lt(
                #[trigger] s[j],
                #[trigger] s[i],
            ) by {
                if i < p && j < p {
                    assert(s[i] == old_out[i] && s[j] == old_out[j]);
                } else if i < p && j == p {
                    assert(s[i] == old_out[i]);
                    assert(s[j] == x@);
                    assert(!text_lt(x@, out@[i]@));
                } else if i < p && j > p {
                    assert(s[i] == old_out[i] && s[j] == old_out[j - 1]);
                } else if i == p {
                    assert(s[i] == x@);
                    assert(s[j] == old_out[j - 1]);
                    if j - 1 == p {
                        lemma_text_lt_irreflexive(old_out[p as int]);
                    }
                    assert(!text_lt(old_out[j - 1], old_out[p as int]));
                    if text_lt(old_out[j - 1], x@) {
                        lemma_text_lt_transitive(old_out[j - 1], x@, old_out[p as int]);
                    }
                } else {
                    assert(s[i] == old_out[i - 1] && s[j] == old_out[j - 1]);
                }
            }
            assert(s.to_multiset().add(texts(rest@).to_multiset()) =~= all.to_multiset()) by {
                broadcast use vstd::multiset::group_multiset_axioms;
            }
        }
    }
    proof {
        assert(texts(rest@) =~= Seq::<Seq<char>>::empty());
        assert(texts(rest@).to_multiset() =~= Multiset::empty()) by {
            broadcast use vstd::seq_lib::group_to_multiset_ensures;
        }
        assert(texts(out@).to_multiset().add(Multiset::empty()) =~= texts(out@).to_multiset()) by {
            broadcast use vstd::multiset::group_multiset_axioms;
        }
    }
    out
}

pub proof fn lemma_text_lt_total(a: Seq<char>, b: Seq<char>)
    requires
        a != b,
    ensures
        text_lt(a, b) || text_lt(b, a),
    decreases a.len(),
{
    if a.len() > 0 && b.len() > 0 && a[0] == b[0] {
        if a.drop_first() == b.drop_first() {
            assert(a =~= seq![a[0]] + a.drop_first());
            assert(b =~= seq![b[0]] + b.drop_first());
        }
        lemma_text_lt_total(a.drop_first(), b.drop_first());
    } else if a.len() == 0 && b.len() == 0 {
        assert(a =~= b);
    }
}

proof fn lemma_sorted_tail(x: Seq<Seq<char>>)
    requires
        sorted_texts(x),
        x.len() > 0,
    ensures
        sorted_texts(x.drop_first()),
{
    assert forall|a: int, b: int| 0 <= a < b < x.drop_first().len() implies !text_lt(
        #[trigger] x.drop_first()[b],
        #[trigger] x.drop_first()[a],
    ) by {
        assert(x.drop_first()[b] == x[b + 1] && x.drop_first()[a] == x[a + 1]);
    }
}

proof fn lemma_sorted_unique(x: Seq<Seq<char>>, y: Seq<Seq<char>>)
    requires
        sorted_texts(x),
        sorted_texts(y),
        x.to_multiset() == y.to_multiset(),
    ensures
        x == y,
    decreases x.len(),
{
    vstd::seq_lib::to_multiset_len(x);
    vstd::seq_lib::to_multiset_len(y);
    if x.len() == 0 {
        assert(x =~= y);
    } else {
        let m = x[0];
        let k = y[0];
        assert(x.contains(m));
        vstd::seq_lib::to_multiset_contains(x, m);
        vstd::seq_lib::to_multiset_contains(y, m);
        let j = choose|j: int| 0 <= j < y.len() && y[j] == m;
        assert(y.contains(k));
        vstd::seq_lib::to_multiset_contains(y, k);
        vstd::seq_lib::to_multiset_contains(x, k);
        let i = choose|i: int| 0 <= i < x.len() && x[i] == k;
        if m != k {
            lemma_text_lt_total(m, k);
            if text_lt(m, k) {
                assert(i != 0);
                assert(!text_lt(x[i], x[0]));
            } else {
                assert(j != 0);
                assert(!text_lt(y[j], y[0]));
            }
        }
        vstd::seq_lib::to_multiset_remove(x, 0);
        vstd::seq_lib::to_multiset_remove(y, 0);
        assert(x.remove(0) =~= x.drop_first());
        assert(y.remove(0) =~= y.drop_first());
        lemma_sorted_tail(x);
        lemma_sorted_tail(y);
        lemma_sorted_unique(x.drop_first(), y.drop_first());
        assert(x =~= seq![m] + x.drop_first());
        assert(y =~= seq![k] + y.drop_first());
    }
}

/// There is one ascending order of a collection of strings: two sorted
/// sequences holding the same strings, each as often, are equal.
pub proof fn law_sorted_version_is_unique(items: Seq<Seq<char>>, x: Seq<Seq<char>>, y: Seq<Seq<char>>)
    requires
        sorted_version(items, x),
        sorted_version(items, y),
    ensures
        x == y,
{
    lemma_sorted_unique(x, y);
}

} // verus!
