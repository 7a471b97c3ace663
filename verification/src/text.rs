//! Character-level text model shared by every parser of the gateway.
//!
//! A `&str` is viewed as its sequence of Unicode scalar values (`s@`); the
//! spec functions here give the meaning of the standard string operations the
//! gateway relies on (trimming, case folding, searching, line splitting).
use vstd::prelude::*;

verus! {

/// Unicode `White_Space` property, as used by `char::is_whitespace` and `str::trim`.
pub open spec fn is_ws(c: char) -> bool {
    let u = c as u32;
    (0x09 <= u && u <= 0x0D) || u == 0x20 || u == 0x85 || u == 0xA0 || u == 0x1680
        || (0x2000 <= u && u <= 0x200A) || u == 0x2028 || u == 0x2029 || u == 0x202F
        || u == 0x205F || u == 0x3000
}

/// General category `Cc`, as used by `char::is_control`.
pub open spec fn is_ctrl(c: char) -> bool {
    let u = c as u32;
    u <= 0x1F || (0x7F <= u && u <= 0x9F)
}

pub open spec fn is_ascii_digit_char(c: char) -> bool {
    '0' <= c && c <= '9'
}

pub open spec fn is_ascii_alnum_char(c: char) -> bool {
    ('0' <= c && c <= '9') || ('a' <= c && c <= 'z') || ('A' <= c && c <= 'Z')
}

/// `char::to_ascii_lowercase`.
pub open spec fn lower_char(c: char) -> char {
    if 'A' <= c && c <= 'Z' {
        ((c as u32) + 32) as char
    } else {
        c
    }
}

/// `str::to_ascii_lowercase`, character by character.
pub open spec fn lower(s: Seq<char>) -> Seq<char> {
    s.map_values(|c: char| lower_char(c))
}

/// Number of leading whitespace characters.
pub open spec fn leading_ws(s: Seq<char>) -> nat
    decreases s.len(),
{
    if s.len() > 0 && is_ws(s[0]) {
        1 + leading_ws(s.drop_first())
    } else {
        0
    }
}

/// Number of trailing whitespace characters.
pub open spec fn trailing_ws(s: Seq<char>) -> nat
    decreases s.len(),
{
    if s.len() > 0 && is_ws(s.last()) {
        1 + trailing_ws(s.drop_last())
    } else {
        0
    }
}

/// `str::trim_start`.
pub open spec fn trim_start(s: Seq<char>) -> Seq<char> {
    s.skip(leading_ws(s) as int)
}

/// `str::trim_end`.
pub open spec fn trim_end(s: Seq<char>) -> Seq<char> {
    s.take(s.len() - trailing_ws(s))
}

/// `str::trim`.
pub open spec fn trim(s: Seq<char>) -> Seq<char> {
    trim_end(trim_start(s))
}

pub open spec fn starts_with(s: Seq<char>, p: Seq<char>) -> bool {
    p.len() <= s.len() && s.take(p.len() as int) == p
}

pub open spec fn ends_with(s: Seq<char>, p: Seq<char>) -> bool {
    p.len() <= s.len() && s.skip(s.len() - p.len()) == p
}

/// `needle` occurs in `hay` starting at position `i`.
pub open spec fn occurs_at(hay: Seq<char>, needle: Seq<char>, i: int) -> bool {
    0 <= i && i + needle.len() <= hay.len() && hay.subrange(i, i + needle.len()) == needle
}

/// `str::contains` for a string pattern.
pub open spec fn contains(hay: Seq<char>, needle: Seq<char>) -> bool {
    exists|i: int| occurs_at(hay, needle, i)
}

/// `str::contains` for a char pattern.
pub open spec fn has_char(s: Seq<char>, c: char) -> bool {
    exists|i: int| 0 <= i < s.len() && s[i] == c
}

pub proof fn lemma_leading_ws_bound(s: Seq<char>)
    ensures
        leading_ws(s) <= s.len(),
        forall|j: int| 0 <= j < leading_ws(s) ==> is_ws(#[trigger] s[j]),
        leading_ws(s) < s.len() ==> !is_ws(s[leading_ws(s) as int]),
    decreases s.len(),
{
    if s.len() > 0 && is_ws(s[0]) {
        lemma_leading_ws_bound(s.drop_first());
        assert forall|j: int| 0 <= j < leading_ws(s) implies is_ws(#[trigger] s[j]) by {
            if j > 0 {
                assert(s[j] == s.drop_first()[j - 1]);
            }
        }
    }
}

pub proof fn lemma_trailing_ws_bound(s: Seq<char>)
    ensures
        trailing_ws(s) <= s.len(),
        forall|j: int| s.len() - trailing_ws(s) <= j < s.len() ==> is_ws(#[trigger] s[j]),
        trailing_ws(s) < s.len() ==> !is_ws(s[s.len() - trailing_ws(s) - 1]),
    decreases s.len(),
{
    if s.len() > 0 && is_ws(s.last()) {
        lemma_trailing_ws_bound(s.drop_last());
        assert forall|j: int| s.len() - trailing_ws(s) <= j < s.len() implies is_ws(#[trigger] s[j]) by {
            if j < s.len() - 1 {
                assert(s[j] == s.drop_last()[j]);
            }
        }
    }
}

/// A prefix of whitespace followed by a non-whitespace character (or the end) is exactly `leading_ws`.
pub proof fn lemma_leading_ws_is(s: Seq<char>, k: int)
    requires
        0 <= k <= s.len(),
        forall|j: int| 0 <= j < k ==> is_ws(#[trigger] s[j]),
        k < s.len() ==> !is_ws(s[k]),
    ensures
        leading_ws(s) == k,
    decreases s.len(),
{
    if k > 0 {
        assert(is_ws(s[0]));
        assert forall|j: int| 0 <= j < k - 1 implies is_ws(#[trigger] s.drop_first()[j]) by {
            assert(s.drop_first()[j] == s[j + 1]);
        }
        lemma_leading_ws_is(s.drop_first(), k - 1);
    }
}

pub proof fn lemma_trailing_ws_is(s: Seq<char>, k: int)
    requires
        0 <= k <= s.len(),
        forall|j: int| s.len() - k <= j < s.len() ==> is_ws(#[trigger] s[j]),
        k < s.len() ==> !is_ws(s[s.len() - k - 1]),
    ensures
        trailing_ws(s) == k,
    decreases s.len(),
{
    if k > 0 {
        assert(is_ws(s[s.len() - 1]));
        assert forall|j: int| s.drop_last().len() - (k - 1) <= j < s.drop_last().len() implies is_ws(
            #[trigger] s.drop_last()[j],
        ) by {
            assert(s.drop_last()[j] == s[j]);
        }
        lemma_trailing_ws_is(s.drop_last(), k - 1);
    }
}

/// Unicode `White_Space`, executable.
pub fn char_is_ws(c: char) -> (b: bool)
    ensures
        b == is_ws(c),
{
    let u = c as u32;
    (0x09 <= u && u <= 0x0D) || u == 0x20 || u == 0x85 || u == 0xA0 || u == 0x1680
        || (0x2000 <= u && u <= 0x200A) || u == 0x2028 || u == 0x2029 || u == 0x202F
        || u == 0x205F || u == 0x3000
}

/// General category `Cc`, executable.
pub fn char_is_ctrl(c: char) -> (b: bool)
    ensures
        b == is_ctrl(c),
{
    let u = c as u32;
    u <= 0x1F || (0x7F <= u && u <= 0x9F)
}

pub fn char_is_ascii_alnum(c: char) -> (b: bool)
    ensures
        b == is_ascii_alnum_char(c),
{
    ('0' <= c && c <= '9') || ('a' <= c && c <= 'z') || ('A' <= c && c <= 'Z')
}

pub fn char_lower(c: char) -> (r: char)
    ensures
        r == lower_char(c),
{
    if 'A' <= c && c <= 'Z' {
        let u = (c as u32) + 32;
        assert(u < 0xD800);
        char_from_ascii_code(u)
    } else {
        c
    }
}

/// Characters of `s`, in order.
pub fn chars_of(s: &str) -> (v: Vec<char>)
    ensures
        v@ == s@,
{
    let mut v: Vec<char> = Vec::new();
    for c in it: s.chars()
        invariant
            v@ == it.seq().take(it.index() as int),
    {
        v.push(c);
    }
    v
}

/// Appends a character to a string (`String::push`).
#[verifier::external_body]
pub fn push_char(s: &mut String, c: char)
    ensures
        final(s)@ == old(s)@.push(c),
{
    s.push(c);
}

/// The character with the given code below the surrogate range (`char::from_u32`).
#[verifier::external_body]
fn char_from_ascii_code(u: u32) -> (c: char)
    requires
        u < 0xD800,
    ensures
        c as u32 == u,
{
    char::from_u32(u).unwrap()
}

/// A string holding exactly the characters of `v`.
pub fn string_from_chars(v: &[char]) -> (s: String)
    ensures
        s@ == v@,
{
    let mut s = String::new();
    let mut i: usize = 0;
    while i < v.len()
        invariant
            i <= v.len(),
            s@ == v@.take(i as int),
        decreases v.len() - i,
    {
        push_char(&mut s, v[i]);
        assert(v@.take(i + 1) == v@.take(i as int).push(v@[i as int]));
        i = i + 1;
    }
    assert(v@.take(v.len() as int) == v@);
    s
}

/// Index of the first non-whitespace character (`v.len()` when there is none).
pub fn leading_ws_count(v: &[char]) -> (k: usize)
    ensures
        k == leading_ws(v@),
{
    let mut k: usize = 0;
    while k < v.len() && char_is_ws(v[k])
        invariant
            k <= v.len(),
            forall|j: int| 0 <= j < k ==> is_ws(#[trigger] v@[j]),
        decreases v.len() - k,
    {
        k = k + 1;
    }
    proof {
        lemma_leading_ws_is(v@, k as int);
    }
    k
}

/// Number of trailing whitespace characters.
pub fn trailing_ws_count(v: &[char]) -> (k: usize)
    ensures
        k == trailing_ws(v@),
{
    let mut k: usize = 0;
    while k < v.len() && char_is_ws(v[v.len() - 1 - k])
        invariant
            k <= v.len(),
            forall|j: int| v.len() - k <= j < v.len() ==> is_ws(#[trigger] v@[j]),
        decreases v.len() - k,
    {
        k = k + 1;
    }
    proof {
        lemma_trailing_ws_is(v@, k as int);
    }
    k
}

/// Bounds `[start, end)` of the trimmed part of `v` (`str::trim`).
pub fn trim_bounds(v: &[char]) -> (r: (usize, usize))
    ensures
        r.0 <= r.1 <= v.len(),
        v@.subrange(r.0 as int, r.1 as int) == trim(v@),
        r.0 == leading_ws(v@),
{
    let a = leading_ws_count(v);
    proof {
        lemma_leading_ws_bound(v@);
    }
    let mut k: usize = 0;
    while k < v.len() - a && char_is_ws(v[v.len() - 1 - k])
        invariant
            a == leading_ws(v@),
            a <= v.len(),
            k <= v.len() - a,
            forall|j: int| v.len() - k <= j < v.len() ==> is_ws(#[trigger] v@[j]),
        decreases v.len() - a - k,
    {
        k = k + 1;
    }
    let ghost t = v@.skip(a as int);
    proof {
        assert forall|j: int| t.len() - k <= j < t.len() implies is_ws(#[trigger] t[j]) by {
            assert(t[j] == v@[j + a]);
        }
        if k < t.len() {
            assert(t[t.len() - k - 1] == v@[v.len() - k - 1]);
        }
        lemma_trailing_ws_is(t, k as int);
        assert(v@.subrange(a as int, (v.len() - k) as int) == t.take(t.len() - k));
    }
    (a, v.len() - k)
}

/// `str::trim` on a character vector.
pub fn trim_chars(v: &[char]) -> (r: Vec<char>)
    ensures
        r@ == trim(v@),
{
    let (a, b) = trim_bounds(v);
    let mut r: Vec<char> = Vec::new();
    let mut i = a;
    while i < b
        invariant
            a <= i <= b <= v.len(),
            r@ == v@.subrange(a as int, i as int),
        decreases b - i,
    {
        r.push(v[i]);
        assert(v@.subrange(a as int, i + 1) == v@.subrange(a as int, i as int).push(v@[i as int]));
        i = i + 1;
    }
    r
}

/// `str::trim`, returning a slice of the input.
pub fn trim_str(s: &str) -> (r: &str)
    ensures
        r@ == trim(s@),
{
    let v = chars_of(s);
    let (a, b) = trim_bounds(v.as_slice());
    s.substring_char(a, b)
}

/// Equality of two character sequences.
pub fn chars_eq(a: &[char], b: &[char]) -> (r: bool)
    ensures
        r == (a@ == b@),
{
    if a.len() != b.len() {
        return false;
    }
    let mut i: usize = 0;
    while i < a.len()
        invariant
            a.len() == b.len(),
            i <= a.len(),
            forall|j: int| 0 <= j < i ==> a@[j] == b@[j],
        decreases a.len() - i,
    {
        if a[i] != b[i] {
            return false;
        }
        i = i + 1;
    }
    assert(a@ =~= b@);
    true
}

/// Does `v` equal the characters of `lit`?
pub fn chars_eq_str(v: &[char], lit: &str) -> (r: bool)
    ensures
        r == (v@ == lit@),
{
    let w = chars_of(lit);
    chars_eq(v, w.as_slice())
}

/// `needle` occurs at position `i` of `hay`.
pub fn occurs_at_exec(hay: &[char], needle: &[char], i: usize) -> (r: bool)
    ensures
        r == occurs_at(hay@, needle@, i as int),
{
    if i > hay.len() || needle.len() > hay.len() - i {
        return false;
    }
    let mut j: usize = 0;
    while j < needle.len()
        invariant
            i + needle.len() <= hay.len(),
            j <= needle.len(),
            forall|k: int| 0 <= k < j ==> hay@[i + k] == needle@[k],
        decreases needle.len() - j,
    {
        if hay[i + j] != needle[j] {
            assert(hay@.subrange(i as int, i + needle.len())[j as int] != needle@[j as int]);
            return false;
        }
        j = j + 1;
    }
    assert(hay@.subrange(i as int, i + needle.len()) =~= needle@);
    true
}

/// First position at or after `from` where `needle` occurs.
pub fn find_from(hay: &[char], needle: &[char], from: usize) -> (r: Option<usize>)
    ensures
        match r {
            Some(i) => from <= i && occurs_at(hay@, needle@, i as int) && forall|j: int|
                from <= j < i ==> !occurs_at(hay@, needle@, j),
            None => forall|j: int| from <= j ==> !occurs_at(hay@, needle@, j),
        },
{
    if from > hay.len() {
        return None;
    }
    let mut i = from;
    while i < hay.len()
        invariant
            from <= i <= hay.len(),
            forall|j: int| from <= j < i ==> !occurs_at(hay@, needle@, j),
        decreases hay.len() - i,
    {
        if occurs_at_exec(hay, needle, i) {
            return Some(i);
        }
        i = i + 1;
    }
    if occurs_at_exec(hay, needle, i) {
        return Some(i);
    }
    None
}

/// `str::contains` with a string pattern.
pub fn contains_exec(hay: &[char], needle: &[char]) -> (r: bool)
    ensures
        r == contains(hay@, needle@),
{
    match find_from(hay, needle, 0) {
        Some(i) => true,
        None => false,
    }
}

/// `str::contains` on strings.
pub fn str_contains(hay: &str, needle: &str) -> (r: bool)
    ensures
        r == contains(hay@, needle@),
{
    let h = chars_of(hay);
    let n = chars_of(needle);
    contains_exec(h.as_slice(), n.as_slice())
}

pub fn starts_with_exec(s: &[char], p: &[char]) -> (r: bool)
    ensures
        r == starts_with(s@, p@),
{
    let r = occurs_at_exec(s, p, 0);
    proof {
        if p@.len() <= s@.len() {
            assert(s@.subrange(0, p@.len() as int) == s@.take(p@.len() as int));
        }
    }
    r
}

pub fn ends_with_exec(s: &[char], p: &[char]) -> (r: bool)
    ensures
        r == ends_with(s@, p@),
{
    if p.len() > s.len() {
        return false;
    }
    let r = occurs_at_exec(s, p, s.len() - p.len());
    proof {
        assert(s@.subrange(s.len() - p.len(), s.len() as int) == s@.skip(s.len() - p.len()));
    }
    r
}

/// `str::to_ascii_lowercase` on a character vector.
pub fn lower_chars(v: &[char]) -> (r: Vec<char>)
    ensures
        r@ == lower(v@),
{
    let mut r: Vec<char> = Vec::new();
    let mut i: usize = 0;
    while i < v.len()
        invariant
            i <= v.len(),
            r@ == lower(v@.take(i as int)),
        decreases v.len() - i,
    {
        r.push(char_lower(v[i]));
        assert(lower(v@.take(i + 1)) =~= lower(v@.take(i as int)).push(lower_char(v@[i as int])));
        i = i + 1;
    }
    assert(v@.take(v.len() as int) == v@);
    r
}

/// `str::contains` with a char pattern.
pub fn has_char_exec(v: &[char], c: char) -> (r: bool)
    ensures
        r == has_char(v@, c),
{
    let mut i: usize = 0;
    while i < v.len()
        invariant
            i <= v.len(),
            forall|j: int| 0 <= j < i ==> v@[j] != c,
        decreases v.len() - i,
    {
        if v[i] == c {
            return true;
        }
        i = i + 1;
    }
    false
}

/// Any control character in `v` (`chars().any(char::is_control)`).
pub fn any_ctrl(v: &[char]) -> (r: bool)
    ensures
        r == exists|i: int| 0 <= i < v@.len() && is_ctrl(#[trigger] v@[i]),
{
    let mut i: usize = 0;
    while i < v.len()
        invariant
            i <= v.len(),
            forall|j: int| 0 <= j < i ==> !is_ctrl(#[trigger] v@[j]),
        decreases v.len() - i,
    {
        if char_is_ctrl(v[i]) {
            return true;
        }
        i = i + 1;
    }
    false
}


/// Position of the first `c` in `s`.
pub open spec fn index_of(s: Seq<char>, c: char) -> Option<nat>
    decreases s.len(),
{
    if s.len() == 0 {
        None
    } else if s[0] == c {
        Some(0)
    } else {
        match index_of(s.drop_first(), c) {
            Some(k) => Some(k + 1),
            None => None,
        }
    }
}

pub proof fn lemma_index_of(s: Seq<char>, c: char)
    ensures
        match index_of(s, c) {
            Some(k) => k < s.len() && s[k as int] == c && forall|j: int| 0 <= j < k ==> s[j] != c,
            None => forall|j: int| 0 <= j < s.len() ==> s[j] != c,
        },
    decreases s.len(),
{
    if s.len() > 0 && s[0] != c {
        lemma_index_of(s.drop_first(), c);
        match index_of(s.drop_first(), c) {
            Some(k) => {
                assert forall|j: int| 0 <= j < k + 1 implies s[j] != c by {
                    if j > 0 {
                        assert(s[j] == s.drop_first()[j - 1]);
                    }
                }
            },
            None => {
                assert forall|j: int| 0 <= j < s.len() implies s[j] != c by {
                    if j > 0 {
                        assert(s[j] == s.drop_first()[j - 1]);
                    }
                }
            },
        }
    }
}

pub proof fn lemma_index_of_is(s: Seq<char>, c: char, k: int)
    requires
        0 <= k <= s.len(),
        forall|j: int| 0 <= j < k ==> s[j] != c,
        k < s.len() ==> s[k] == c,
    ensures
        index_of(s, c) == (if k < s.len() { Some(k as nat) } else { None::<nat> }),
{
    lemma_index_of(s, c);
    match index_of(s, c) {
        Some(m) => {
            if (m as int) < k {
            } else if (m as int) > k {
                assert(s[k] == c);
            }
        },
        None => {
            if k < s.len() {
                assert(s[k] == c);
            }
        },
    }
}

/// Drops one trailing carriage return.
pub open spec fn drop_cr(s: Seq<char>) -> Seq<char> {
    if s.len() > 0 && s.last() == '\r' {
        s.drop_last()
    } else {
        s
    }
}

/// `str::lines`: pieces between `\n` terminators, a `\r` before the `\n`
/// removed, and no empty piece after a final terminator.
pub open spec fn lines(s: Seq<char>) -> Seq<Seq<char>>
    decreases s.len(),
{
    if s.len() == 0 {
        seq![]
    } else {
        match index_of(s, '\n') {
            Some(i) => {
                proof {
                    lemma_index_of(s, '\n');
                }
                seq![drop_cr(s.take(i as int))] + lines(s.skip(i + 1 as int))
            },
            None => seq![s],
        }
    }
}

/// Copy of `v[a..b]`.
pub fn sub_chars(v: &[char], a: usize, b: usize) -> (r: Vec<char>)
    requires
        a <= b <= v.len(),
    ensures
        r@ == v@.subrange(a as int, b as int),
{
    let mut r: Vec<char> = Vec::new();
    let mut i = a;
    while i < b
        invariant
            a <= i <= b <= v.len(),
            r@ == v@.subrange(a as int, i as int),
        decreases b - i,
    {
        r.push(v[i]);
        assert(v@.subrange(a as int, i + 1) == v@.subrange(a as int, i as int).push(v@[i as int]));
        i = i + 1;
    }
    r
}

/// First position at or after `from` holding `c` (`v.len()` when there is none).
pub fn find_char_from(v: &[char], c: char, from: usize) -> (r: usize)
    requires
        from <= v.len(),
    ensures
        from <= r <= v.len(),
        r < v.len() ==> v@[r as int] == c,
        forall|j: int| from <= j < r ==> v@[j] != c,
{
    let mut i = from;
    while i < v.len() && v[i] != c
        invariant
            from <= i <= v.len(),
            forall|j: int| from <= j < i ==> v@[j] != c,
        decreases v.len() - i,
    {
        i = i + 1;
    }
    i
}

/// `str::lines` on a character vector.
pub fn split_lines(v: &[char]) -> (r: Vec<Vec<char>>)
    ensures
        r@.len() == lines(v@).len(),
        forall|k: int| 0 <= k < r@.len() ==> #[trigger] r@[k]@ == lines(v@)[k],
{
    let mut r: Vec<Vec<char>> = Vec::new();
    let ghost done: Seq<Seq<char>> = seq![];
    let mut start: usize = 0;
    proof {
        assert(v@.skip(0) =~= v@);
        assert(done + lines(v@.skip(0)) =~= lines(v@));
    }
    while start < v.len()
        invariant
            start <= v.len(),
            r@.len() == done.len(),
            forall|k: int| 0 <= k < r@.len() ==> #[trigger] r@[k]@ == done[k],
            done + lines(v@.skip(start as int)) == lines(v@),
        decreases v.len() - start,
    {
        let ghost rest = v@.skip(start as int);
        let i = find_char_from(v, '\n', start);
        proof {
            assert forall|j: int| 0 <= j < i - start implies rest[j] != '\n' by {
                assert(rest[j] == v@[start + j]);
            }
            lemma_index_of_is(rest, '\n', i - start);
        }
        if i == v.len() {
            let piece = sub_chars(v, start, i);
            proof {
                assert(piece@ =~= rest);
                assert(lines(rest) == seq![rest]);
                assert(v@.skip(v.len() as int) =~= Seq::<char>::empty());
                let old_done = done;
                done = done.push(rest);
                assert(done + lines(v@.skip(v.len() as int)) =~= old_done + lines(rest));
            }
            r.push(piece);
            start = i;
        } else {
            let mut end = i;
            if end > start && v[end - 1] == '\r' {
                end = end - 1;
            }
            let piece = sub_chars(v, start, end);
            proof {
                let t = rest.take(i - start);
                assert(t =~= v@.subrange(start as int, i as int));
                assert(piece@ =~= drop_cr(t));
                assert(rest.skip(i - start + 1) =~= v@.skip(i + 1));
                assert(lines(rest) == seq![drop_cr(t)] + lines(rest.skip(i - start + 1)));
                let old_done = done;
                done = done.push(drop_cr(t));
                assert(done + lines(v@.skip(i + 1)) =~= old_done + (seq![drop_cr(t)] + lines(
                    v@.skip(i + 1),
                )));
            }
            r.push(piece);
            start = i + 1;
        }
    }
    proof {
        assert(v@.skip(start as int) =~= Seq::<char>::empty());
        assert(done + lines(v@.skip(start as int)) =~= done);
    }
    r
}

/// Value of a string of decimal digits.
pub open spec fn digits_value(s: Seq<char>) -> nat
    decreases s.len(),
{
    if s.len() == 0 {
        0
    } else {
        digits_value(s.drop_last()) * 10 + ((s.last() as u32) - ('0' as u32)) as nat
    }
}

pub open spec fn all_digits(s: Seq<char>) -> bool {
    forall|i: int| 0 <= i < s.len() ==> is_ascii_digit_char(#[trigger] s[i])
}

/// The unsigned magnitude accepted by `FromStr` for integers: an optional `+`
/// followed by at least one decimal digit.
pub open spec fn unsigned_magnitude(s: Seq<char>) -> Option<nat> {
    let d = if s.len() > 0 && s[0] == '+' {
        s.drop_first()
    } else {
        s
    };
    if d.len() > 0 && all_digits(d) {
        Some(digits_value(d))
    } else {
        None
    }
}

/// `u16::from_str`.
pub open spec fn parse_u16(s: Seq<char>) -> Option<u16> {
    match unsigned_magnitude(s) {
        Some(v) => if v <= u16::MAX {
            Some(v as u16)
        } else {
            None
        },
        None => None,
    }
}

/// `u64::from_str`.
pub open spec fn parse_u64(s: Seq<char>) -> Option<u64> {
    match unsigned_magnitude(s) {
        Some(v) => if v <= u64::MAX {
            Some(v as u64)
        } else {
            None
        },
        None => None,
    }
}

/// `i64::from_str`: an optional sign followed by at least one decimal digit.
pub open spec fn parse_i64(s: Seq<char>) -> Option<i64> {
    if s.len() > 0 && s[0] == '-' {
        let d = s.drop_first();
        if d.len() > 0 && all_digits(d) && digits_value(d) <= 0x8000_0000_0000_0000 {
            Some((0 - digits_value(d)) as i64)
        } else {
            None
        }
    } else {
        match unsigned_magnitude(s) {
            Some(v) => if v <= i64::MAX {
                Some(v as i64)
            } else {
                None
            },
            None => None,
        }
    }
}

pub proof fn lemma_digits_value_prefix(s: Seq<char>, k: int)
    requires
        0 <= k <= s.len(),
    ensures
        digits_value(s.take(k)) <= digits_value(s),
    decreases s.len(),
{
    if k < s.len() {
        assert(s.drop_last().take(k) =~= s.take(k));
        lemma_digits_value_prefix(s.drop_last(), k);
    } else {
        assert(s.take(k) =~= s);
    }
}

/// Value of the digits `d[a..]` when it is at most `bound`, else `None`.
pub fn digits_upto(d: &[char], a: usize, bound: u64) -> (r: Option<u64>)
    requires
        a <= d.len(),
        all_digits(d@.skip(a as int)),
    ensures
        match r {
            Some(v) => v == digits_value(d@.skip(a as int)) && v <= bound,
            None => digits_value(d@.skip(a as int)) > bound,
        },
{
    let mut acc: u64 = 0;
    let mut i = a;
    while i < d.len()
        invariant
            a <= i <= d.len(),
            all_digits(d@.skip(a as int)),
            acc == digits_value(d@.subrange(a as int, i as int)),
            acc <= bound,
        decreases d.len() - i,
    {
        let ghost pre = d@.subrange(a as int, i as int);
        let ghost next = d@.subrange(a as int, i + 1);
        assert(next.drop_last() =~= pre);
        assert(next.last() == d@[i as int]);
        assert(d@.skip(a as int)[i - a] == d@[i as int]);
        assert(is_ascii_digit_char(d@.skip(a as int)[i - a]));
        let digit = (d[i] as u32 - '0' as u32) as u64;
        let nv: u128 = acc as u128 * 10 + digit as u128;
        assert(digits_value(next) == nv);
        if nv > bound as u128 {
            proof {
                assert(d@.skip(a as int).take((i + 1 - a) as int) =~= next);
                lemma_digits_value_prefix(d@.skip(a as int), (i + 1 - a) as int);
            }
            return None;
        }
        acc = nv as u64;
        i = i + 1;
    }
    assert(d@.subrange(a as int, d.len() as int) =~= d@.skip(a as int));
    Some(acc)
}

/// Are `d[a..]` all decimal digits?
pub fn all_digits_from(d: &[char], a: usize) -> (r: bool)
    requires
        a <= d.len(),
    ensures
        r == all_digits(d@.skip(a as int)),
{
    let mut i = a;
    while i < d.len()
        invariant
            a <= i <= d.len(),
            forall|j: int| a <= j < i ==> is_ascii_digit_char(#[trigger] d@[j]),
        decreases d.len() - i,
    {
        if !('0' <= d[i] && d[i] <= '9') {
            assert(d@.skip(a as int)[i - a] == d@[i as int]);
            return false;
        }
        i = i + 1;
    }
    assert forall|j: int| 0 <= j < d@.skip(a as int).len() implies is_ascii_digit_char(
        #[trigger] d@.skip(a as int)[j],
    ) by {
        assert(d@.skip(a as int)[j] == d@[j + a]);
    }
    true
}

/// Unsigned decimal magnitude (optional `+`) when it is at most `bound`.
pub fn unsigned_upto(s: &[char], bound: u64) -> (r: Option<u64>)
    ensures
        match r {
            Some(v) => unsigned_magnitude(s@) == Some(v as nat) && v <= bound,
            None => match unsigned_magnitude(s@) {
                Some(m) => m > bound,
                None => true,
            },
        },
{
    let a: usize = if s.len() > 0 && s[0] == '+' { 1 } else { 0 };
    proof {
        assert(s@.skip(a as int) =~= (if s@.len() > 0 && s@[0] == '+' { s@.drop_first() } else { s@ }));
    }
    if a >= s.len() {
        return None;
    }
    if !all_digits_from(s, a) {
        return None;
    }
    digits_upto(s, a, bound)
}

/// `u16::from_str(..).ok()`.
pub fn parse_u16_exec(s: &[char]) -> (r: Option<u16>)
    ensures
        r == parse_u16(s@),
{
    match unsigned_upto(s, 65535) {
        Some(v) => Some(v as u16),
        None => None,
    }
}

/// `u64::from_str(..).ok()`.
pub fn parse_u64_exec(s: &[char]) -> (r: Option<u64>)
    ensures
        r == parse_u64(s@),
{
    unsigned_upto(s, u64::MAX)
}

/// `i64::from_str(..).ok()`.
pub fn parse_i64_exec(s: &[char]) -> (r: Option<i64>)
    ensures
        r == parse_i64(s@),
{
    if s.len() > 0 && s[0] == '-' {
        proof {
            assert(s@.skip(1) =~= s@.drop_first());
        }
        if s.len() == 1 || !all_digits_from(s, 1) {
            return None;
        }
        match digits_upto(s, 1, 0x8000_0000_0000_0000) {
            Some(v) => {
                if v == 0x8000_0000_0000_0000 {
                    Some(i64::MIN)
                } else {
                    Some(0 - (v as i64))
                }
            },
            None => None,
        }
    } else {
        match unsigned_upto(s, 0x7fff_ffff_ffff_ffff) {
            Some(v) => Some(v as i64),
            None => None,
        }
    }
}


/// `Path::join` on Unix paths held as text: an absolute `rel` replaces the
/// base, otherwise a separator is inserted unless the base is empty or
/// already ends with one.
pub open spec fn path_join(base: Seq<char>, rel: Seq<char>) -> Seq<char> {
    if rel.len() > 0 && rel[0] == '/' {
        rel
    } else if base.len() == 0 || base.last() == '/' {
        base + rel
    } else {
        base + seq!['/'] + rel
    }
}

/// `PathBuf::push` on a path held as text.
pub fn push_path(base: &mut String, rel: &str)
    ensures
        final(base)@ == path_join(old(base)@, rel@),
{
    let r = chars_of(rel);
    if r.len() > 0 && r[0] == '/' {
        let mut fresh = String::new();
        fresh.append(rel);
        *base = fresh;
        return;
    }
    let b = chars_of(base.as_str());
    if b.len() == 0 || b[b.len() - 1] == '/' {
        base.append(rel);
    } else {
        push_char(base, '/');
        base.append(rel);
        proof {
            assert(old(base)@.push('/') + rel@ =~= old(base)@ + seq!['/'] + rel@);
        }
    }
}


/// The decimal digit character for `d < 10`.
pub open spec fn digit_char(d: nat) -> char {
    ((d + 48) as u32) as char
}

/// Decimal representation of `n` (`u64::to_string`).
pub open spec fn decimal(n: nat) -> Seq<char>
    decreases n,
{
    if n < 10 {
        seq![digit_char(n)]
    } else {
        decimal(n / 10).push(digit_char(n % 10))
    }
}

/// `format!("{n}")` for an unsigned integer.
pub fn u64_to_decimal(n: u64) -> (s: String)
    ensures
        s@ == decimal(n as nat),
{
    let mut rev: Vec<char> = Vec::new();
    let mut m = n;
    let ghost mut suffix: Seq<char> = seq![];
    loop
        invariant
            decimal(n as nat) == decimal(m as nat) + suffix,
            rev@.len() == suffix.len(),
            forall|i: int| 0 <= i < suffix.len() ==> rev@[i] == suffix[suffix.len() - 1 - i],
        decreases m,
    {
        let d = m % 10;
        let c = char_from_ascii_code((d + 48) as u32);
        rev.push(c);
        if m < 10 {
            proof {
                let old_suffix = suffix;
                suffix = seq![c] + suffix;
                assert(decimal(m as nat) == seq![digit_char(m as nat)]);
                assert(decimal(n as nat) =~= suffix);
                assert forall|i: int| 0 <= i < suffix.len() implies rev@[i] == suffix[suffix.len()
                    - 1 - i] by {
                    if i < old_suffix.len() {
                        assert(suffix[suffix.len() - 1 - i] == old_suffix[old_suffix.len() - 1 - i]);
                    }
                }
            }
            let mut s = String::new();
            let mut k = rev.len();
            while k > 0
                invariant
                    k <= rev@.len(),
                    rev@.len() == suffix.len(),
                    forall|i: int| 0 <= i < suffix.len() ==> rev@[i] == suffix[suffix.len() - 1 - i],
                    s@ == suffix.take(suffix.len() - k),
                decreases k,
            {
                k = k - 1;
                push_char(&mut s, rev[k]);
                assert(suffix.take(suffix.len() - k) =~= suffix.take(suffix.len() - k - 1).push(
                    suffix[suffix.len() - k - 1],
                ));
            }
            assert(suffix.take(suffix.len() as int) =~= suffix);
            return s;
        }
        proof {
            let old_suffix = suffix;
            suffix = seq![c] + suffix;
            assert(decimal(m as nat) == decimal((m / 10) as nat).push(digit_char((m % 10) as nat)));
            assert(decimal(n as nat) =~= decimal((m / 10) as nat) + suffix);
            assert forall|i: int| 0 <= i < suffix.len() implies rev@[i] == suffix[suffix.len() - 1
                - i] by {
                if i < old_suffix.len() {
                    assert(suffix[suffix.len() - 1 - i] == old_suffix[old_suffix.len() - 1 - i]);
                }
            }
        }
        m = m / 10;
    }
}

/// Characters of `a` followed by those of `b`.
pub fn concat2(a: &str, b: &str) -> (s: String)
    ensures
        s@ == a@ + b@,
{
    let mut s = String::new();
    s.append(a);
    s.append(b);
    s
}


/// First occurrence of `needle` in `hay` at or after `i`.
pub open spec fn first_occurrence(hay: Seq<char>, needle: Seq<char>, i: int) -> Option<int>
    decreases hay.len() + 1 - i,
{
    if i < 0 || i > hay.len() {
        None
    } else if occurs_at(hay, needle, i) {
        Some(i)
    } else {
        first_occurrence(hay, needle, i + 1)
    }
}

pub proof fn lemma_first_occurrence_is(hay: Seq<char>, needle: Seq<char>, i: int, r: Option<int>)
    requires
        0 <= i,
        match r {
            Some(k) => i <= k && occurs_at(hay, needle, k) && forall|j: int|
                i <= j < k ==> !occurs_at(hay, needle, j),
            None => forall|j: int| i <= j ==> !occurs_at(hay, needle, j),
        },
    ensures
        first_occurrence(hay, needle, i) == r,
    decreases hay.len() + 1 - i,
{
    if i <= hay.len() && !occurs_at(hay, needle, i) {
        lemma_first_occurrence_is(hay, needle, i + 1, r);
    }
}

/// `find_from`, stated with `first_occurrence`.
pub fn find_first_from(hay: &[char], needle: &[char], from: usize) -> (r: Option<usize>)
    ensures
        match r {
            Some(k) => first_occurrence(hay@, needle@, from as int) == Some(k as int) && occurs_at(
                hay@,
                needle@,
                k as int,
            ) && from <= k,
            None => first_occurrence(hay@, needle@, from as int) is None,
        },
{
    let r = find_from(hay, needle, from);
    proof {
        match r {
            Some(k) => lemma_first_occurrence_is(hay@, needle@, from as int, Some(k as int)),
            None => lemma_first_occurrence_is(hay@, needle@, from as int, None),
        }
    }
    r
}


/// `str::split` on a char: the pieces between occurrences of `c`.
pub open spec fn split_on(s: Seq<char>, c: char) -> Seq<Seq<char>>
    decreases s.len(),
{
    match index_of(s, c) {
        Some(i) => {
            proof {
                lemma_index_of(s, c);
            }
            seq![s.take(i as int)] + split_on(s.skip(i + 1 as int), c)
        },
        None => seq![s],
    }
}

/// `str::split` on a char, for a character vector.
pub fn split_on_exec(v: &[char], c: char) -> (r: Vec<Vec<char>>)
    ensures
        r@.len() == split_on(v@, c).len(),
        forall|k: int| 0 <= k < r@.len() ==> #[trigger] r@[k]@ == split_on(v@, c)[k],
{
    let mut r: Vec<Vec<char>> = Vec::new();
    let ghost done: Seq<Seq<char>> = seq![];
    let mut start: usize = 0;
    proof {
        assert(v@.skip(0) =~= v@);
        assert(done + split_on(v@.skip(0), c) =~= split_on(v@, c));
    }
    loop
        invariant
            start <= v.len(),
            r@.len() == done.len(),
            forall|k: int| 0 <= k < r@.len() ==> #[trigger] r@[k]@ == done[k],
            done + split_on(v@.skip(start as int), c) == split_on(v@, c),
        decreases v.len() - start,
    {
        let ghost rest = v@.skip(start as int);
        let i = find_char_from(v, c, start);
        proof {
            assert forall|j: int| 0 <= j < i - start implies rest[j] != c by {
                assert(rest[j] == v@[start + j]);
            }
            lemma_index_of_is(rest, c, i - start);
        }
        let piece = sub_chars(v, start, i);
        if i == v.len() {
            proof {
                assert(piece@ =~= rest);
                let old_done = done;
                done = done.push(rest);
                assert(done =~= old_done + split_on(rest, c));
            }
            r.push(piece);
            return r;
        }
        proof {
            let t = rest.take(i - start);
            assert(t =~= piece@);
            assert(rest.skip(i - start + 1) =~= v@.skip(i + 1));
            let old_done = done;
            done = done.push(t);
            assert(done + split_on(v@.skip(i + 1), c) =~= old_done + (seq![t] + split_on(
                v@.skip(i + 1),
                c,
            )));
        }
        r.push(piece);
        start = i + 1;
    }
}

/// Appends the characters of `v` to `s`.
pub fn append_chars(s: &mut String, v: &[char])
    ensures
        final(s)@ == old(s)@ + v@,
{
    let mut i: usize = 0;
    while i < v.len()
        invariant
            i <= v.len(),
            s@ == old(s)@ + v@.take(i as int),
        decreases v.len() - i,
    {
        push_char(s, v[i]);
        assert(old(s)@ + v@.take(i + 1) =~= (old(s)@ + v@.take(i as int)).push(v@[i as int]));
        i = i + 1;
    }
    assert(v@.take(v.len() as int) =~= v@);
}

/// An owned copy of `s`.
pub fn owned(s: &str) -> (r: String)
    ensures
        r@ == s@,
{
    let mut r = String::new();
    r.append(s);
    r
}

/// `parts` joined with `sep` between neighbours.
pub open spec fn join(parts: Seq<Seq<char>>, sep: Seq<char>) -> Seq<char>
    decreases parts.len(),
{
    if parts.len() == 0 {
        seq![]
    } else if parts.len() == 1 {
        parts[0]
    } else {
        join(parts.drop_last(), sep) + sep + parts.last()
    }
}

pub proof fn lemma_join_push(parts: Seq<Seq<char>>, sep: Seq<char>, x: Seq<char>)
    ensures
        join(parts.push(x), sep) == (if parts.len() == 0 {
            x
        } else {
            join(parts, sep) + sep + x
        }),
{
    assert(parts.push(x).drop_last() =~= parts);
    if parts.len() == 0 {
        assert(parts.push(x)[0] == x);
    }
}

/// `String::from_utf8(..).ok()`: a string comes back exactly when the
/// bytes are valid UTF-8, and it holds the characters they encode.
#[verifier::external_body]
pub fn string_from_utf8(bytes: Vec<u8>) -> (r: Option<String>)
    ensures
        r is Some <==> vstd::utf8::valid_utf8(bytes@),
        r matches Some(s) ==> s@ == vstd::utf8::decode_utf8(bytes@),
{
    match String::from_utf8(bytes) {
        Ok(s) => Some(s),
        Err(_) => None,
    }
}

/// The UTF-8 bytes of `s` (`str::as_bytes`, copied).
pub fn bytes_of(s: &str) -> (r: Vec<u8>)
    ensures
        r@ == vstd::utf8::encode_utf8(s@),
{
    let b = s.as_bytes();
    let mut r: Vec<u8> = Vec::new();
    let mut i: usize = 0;
    while i < b.len()
        invariant
            i <= b@.len(),
            b@ == vstd::utf8::encode_utf8(s@),
            r@ == b@.take(i as int),
        decreases b.len() - i,
    {
        r.push(b[i]);
        assert(b@.take(i + 1) =~= b@.take(i as int).push(b@[i as int]));
        i = i + 1;
    }
    assert(b@.take(b@.len() as int) =~= b@);
    r
}

} // verus!
