//! OpenSSH client configuration reading: comments, directives, quoted words,
//! host aliases, include patterns and the effective settings printed by `ssh -G`.
use vstd::prelude::*;
use crate::text::{
    char_is_ws, chars_eq_str, chars_of, has_char, has_char_exec, is_ws, lemma_leading_ws_is,
    lemma_trailing_ws_is, lines, lower, lower_chars, parse_u16, parse_u16_exec, split_lines,
    string_from_chars, sub_chars, trim, trim_bounds, trim_start, path_join, push_path,
};

verus! {

// ── Comments ──────────────────────────────────────────────────────────

/// Quoting state while scanning a configuration line: whether the previous
/// character was an unconsumed backslash, and the open quote character.
pub open spec fn quote_step(st: (bool, Option<char>), ch: char) -> (bool, Option<char>) {
    if st.0 {
        (false, st.1)
    } else if ch == '\\' {
        (true, st.1)
    } else if ch == '\'' || ch == '"' {
        if st.1 == Some(ch) {
            (false, None)
        } else if st.1 is None {
            (false, Some(ch))
        } else {
            (false, st.1)
        }
    } else {
        (false, st.1)
    }
}

/// Quoting state before position `n`.
pub open spec fn quote_state(s: Seq<char>, n: int) -> (bool, Option<char>)
    decreases n,
{
    if n <= 0 {
        (false, None)
    } else {
        quote_step(quote_state(s, n - 1), s[n - 1])
    }
}

/// Position `i` holds a `#` outside quotes and not escaped.
pub open spec fn is_comment_start(s: Seq<char>, i: int) -> bool {
    0 <= i < s.len() && s[i] == '#' && !quote_state(s, i).0 && quote_state(s, i).1 is None
}

/// Where the line's comment starts (its length when it has none).
pub open spec fn comment_cut_from(s: Seq<char>, i: int) -> int
    decreases s.len() - i,
{
    if i >= s.len() {
        s.len() as int
    } else if is_comment_start(s, i) {
        i
    } else {
        comment_cut_from(s, i + 1)
    }
}

pub open spec fn comment_cut(s: Seq<char>) -> int {
    comment_cut_from(s, 0)
}

/// The line without its inline comment.
pub open spec fn strip_comment(s: Seq<char>) -> Seq<char> {
    s.take(comment_cut(s))
}

pub proof fn lemma_comment_cut_from(s: Seq<char>, i: int)
    requires
        0 <= i <= s.len(),
    ensures
        i <= comment_cut_from(s, i) <= s.len(),
        comment_cut_from(s, i) < s.len() ==> is_comment_start(s, comment_cut_from(s, i)),
        forall|j: int| i <= j < comment_cut_from(s, i) ==> !is_comment_start(s, j),
    decreases s.len() - i,
{
    if i < s.len() && !is_comment_start(s, i) {
        lemma_comment_cut_from(s, i + 1);
    }
}

/// Index of the inline comment of `v` (`v.len()` when there is none).
pub fn comment_cut_exec(v: &[char]) -> (k: usize)
    ensures
        k == comment_cut(v@),
        k <= v.len(),
{
    let mut escaped = false;
    let mut quote: Option<char> = None;
    let mut i: usize = 0;
    while i < v.len()
        invariant
            i <= v.len(),
            (escaped, quote) == quote_state(v@, i as int),
            comment_cut_from(v@, 0) == comment_cut_from(v@, i as int),
        decreases v.len() - i,
    {
        let ch = v[i];
        if !escaped && quote.is_none() && ch == '#' {
            assert(is_comment_start(v@, i as int));
            return i;
        }
        assert(!is_comment_start(v@, i as int));
        if escaped {
            escaped = false;
        } else if ch == '\\' {
            escaped = true;
        } else if ch == '\'' || ch == '"' {
            if quote == Some(ch) {
                quote = None;
            } else if quote.is_none() {
                quote = Some(ch);
            }
        }
        i = i + 1;
    }
    i
}

/// The line up to its first `#` that is neither quoted nor escaped.
pub fn strip_inline_comment(line: &str) -> (r: &str)
    ensures
        r@ == strip_comment(line@),
{
    let v = chars_of(line);
    let k = comment_cut_exec(v.as_slice());
    line.substring_char(0, k)
}

// ── Directives ────────────────────────────────────────────────────────

pub open spec fn is_key_delim(c: char) -> bool {
    is_ws(c) || c == '='
}

/// Position of the first whitespace or `=` in `s`.
pub open spec fn delim_index(s: Seq<char>) -> Option<nat>
    decreases s.len(),
{
    if s.len() == 0 {
        None
    } else if is_key_delim(s[0]) {
        Some(0)
    } else {
        match delim_index(s.drop_first()) {
            Some(k) => Some(k + 1),
            None => None,
        }
    }
}

pub proof fn lemma_delim_index_is(s: Seq<char>, k: int)
    requires
        0 <= k <= s.len(),
        forall|j: int| 0 <= j < k ==> !is_key_delim(#[trigger] s[j]),
        k < s.len() ==> is_key_delim(s[k]),
    ensures
        delim_index(s) == (if k < s.len() { Some(k as nat) } else { None::<nat> }),
    decreases s.len(),
{
    if s.len() > 0 && k > 0 {
        assert(!is_key_delim(s[0]));
        assert forall|j: int| 0 <= j < k - 1 implies !is_key_delim(#[trigger] s.drop_first()[j]) by {
            assert(s.drop_first()[j] == s[j + 1]);
        }
        lemma_delim_index_is(s.drop_first(), k - 1);
    }
}

/// The value part of a directive once the key is removed: leading
/// whitespace, then an optional `=`, then surrounding whitespace dropped.
pub open spec fn directive_value(rest: Seq<char>) -> Seq<char> {
    let r = trim_start(rest);
    trim(if r.len() > 0 && r[0] == '=' { r.drop_first() } else { r })
}

/// `Key value` or `Key=value` with a non-empty key and value, after the inline
/// comment and surrounding whitespace are removed.
pub open spec fn directive(line: Seq<char>) -> Option<(Seq<char>, Seq<char>)> {
    let l = trim(strip_comment(line));
    match delim_index(l) {
        Some(i) => {
            let key = l.take(i as int);
            let value = directive_value(l.skip(i as int));
            if key.len() > 0 && value.len() > 0 {
                Some((key, value))
            } else {
                None
            }
        },
        None => None,
    }
}

/// `[a', b')` is `v[a..b]` without leading whitespace.
pub fn skip_ws_range(v: &[char], a: usize, b: usize) -> (r: usize)
    requires
        a <= b <= v.len(),
    ensures
        a <= r <= b,
        v@.subrange(r as int, b as int) == trim_start(v@.subrange(a as int, b as int)),
{
    let ghost t = v@.subrange(a as int, b as int);
    let mut i = a;
    while i < b && char_is_ws(v[i])
        invariant
            a <= i <= b <= v.len(),
            forall|j: int| a <= j < i ==> is_ws(#[trigger] v@[j]),
        decreases b - i,
    {
        i = i + 1;
    }
    proof {
        assert forall|j: int| 0 <= j < i - a implies is_ws(#[trigger] t[j]) by {
            assert(t[j] == v@[a + j]);
        }
        if i < b {
            assert(t[i - a] == v@[i as int]);
        }
        lemma_leading_ws_is(t, i - a);
        assert(v@.subrange(i as int, b as int) =~= t.skip(i - a));
    }
    i
}

/// `[a', b')` is `v[a..b]` trimmed on both sides.
pub fn trim_range(v: &[char], a: usize, b: usize) -> (r: (usize, usize))
    requires
        a <= b <= v.len(),
    ensures
        a <= r.0 <= r.1 <= b,
        v@.subrange(r.0 as int, r.1 as int) == trim(v@.subrange(a as int, b as int)),
{
    let s = skip_ws_range(v, a, b);
    let ghost t = v@.subrange(s as int, b as int);
    let mut e = b;
    while e > s && char_is_ws(v[e - 1])
        invariant
            a <= s <= e <= b <= v.len(),
            forall|j: int| e <= j < b ==> is_ws(#[trigger] v@[j]),
        decreases e - s,
    {
        e = e - 1;
    }
    proof {
        let k = (b - e) as int;
        assert forall|j: int| t.len() - k <= j < t.len() implies is_ws(#[trigger] t[j]) by {
            assert(t[j] == v@[s + j]);
        }
        if k < t.len() {
            assert(t[t.len() - k - 1] == v@[e - 1]);
        }
        lemma_trailing_ws_is(t, k);
        assert(v@.subrange(s as int, e as int) =~= t.take(t.len() - k));
    }
    (s, e)
}

/// Character ranges of the key and value of a directive line.
pub fn directive_ranges(v: &[char]) -> (r: Option<(usize, usize, usize, usize)>)
    ensures
        match r {
            Some((ka, kb, va, vb)) => ka <= kb <= v.len() && va <= vb <= v.len() && directive(v@)
                == Some((v@.subrange(ka as int, kb as int), v@.subrange(va as int, vb as int))),
            None => directive(v@) is None,
        },
{
    let cut = comment_cut_exec(v);
    proof {
        lemma_comment_cut_from(v@, 0);
        assert(v@.subrange(0, cut as int) == strip_comment(v@));
    }
    let (a, b) = trim_range(v, 0, cut);
    let ghost l = v@.subrange(a as int, b as int);
    let mut d = a;
    while d < b && !(char_is_ws(v[d]) || v[d] == '=')
        invariant
            a <= d <= b <= v.len(),
            forall|j: int| a <= j < d ==> !is_key_delim(#[trigger] v@[j]),
        decreases b - d,
    {
        d = d + 1;
    }
    proof {
        assert forall|j: int| 0 <= j < d - a implies !is_key_delim(#[trigger] l[j]) by {
            assert(l[j] == v@[a + j]);
        }
        if d < b {
            assert(l[d - a] == v@[d as int]);
        }
        lemma_delim_index_is(l, d - a);
    }
    if d == b {
        return None;
    }
    let r0 = skip_ws_range(v, d, b);
    let mut r1 = r0;
    if r0 < b && v[r0] == '=' {
        r1 = r0 + 1;
    }
    let (va, vb) = trim_range(v, r1, b);
    proof {
        let rest = l.skip(d - a);
        assert(rest =~= v@.subrange(d as int, b as int));
        let rs = trim_start(rest);
        assert(rs == v@.subrange(r0 as int, b as int));
        if r0 < b && v@[r0 as int] == '=' {
            assert(rs.drop_first() =~= v@.subrange(r1 as int, b as int));
        } else {
            assert(rs =~= v@.subrange(r1 as int, b as int));
        }
        assert(l.take(d - a) =~= v@.subrange(a as int, d as int));
    }
    if d > a && vb > va {
        Some((a, d, va, vb))
    } else {
        None
    }
}

/// Splits a configuration line into its key and value.
pub fn split_directive(line: &str) -> (r: Option<(&str, &str)>)
    ensures
        match r {
            Some((k, val)) => directive(line@) == Some((k@, val@)),
            None => directive(line@) is None,
        },
{
    let v = chars_of(line);
    match directive_ranges(v.as_slice()) {
        Some((ka, kb, va, vb)) => Some((line.substring_char(ka, kb), line.substring_char(va, vb))),
        None => None,
    }
}

/// A `Host` pattern that names exactly one host.
pub open spec fn concrete_alias(s: Seq<char>) -> bool {
    s.len() > 0 && s[0] != '!' && !has_char(s, '*') && !has_char(s, '?')
}

/// Is `value` a plain host alias rather than a pattern or a negation?
pub fn is_concrete_host_alias(value: &str) -> (r: bool)
    ensures
        r == concrete_alias(value@),
{
    let v = chars_of(value);
    v.len() > 0 && v[0] != '!' && !has_char_exec(v.as_slice(), '*') && !has_char_exec(
        v.as_slice(),
        '?',
    )
}

// ── Quoted words ──────────────────────────────────────────────────────

/// Tokenizer state: finished words, the word being built, the open quote and
/// whether a backslash is pending.
pub struct WordState {
    pub words: Seq<Seq<char>>,
    pub current: Seq<char>,
    pub quote: Option<char>,
    pub escaped: bool,
}

pub open spec fn word_step(st: WordState, ch: char) -> WordState {
    if st.escaped {
        WordState { current: st.current.push(ch), escaped: false, ..st }
    } else if ch == '\\' {
        WordState { escaped: true, ..st }
    } else if ch == '\'' || ch == '"' {
        if st.quote == Some(ch) {
            WordState { quote: None, ..st }
        } else if st.quote is None {
            WordState { quote: Some(ch), ..st }
        } else {
            WordState { current: st.current.push(ch), ..st }
        }
    } else if is_ws(ch) && st.quote is None {
        if st.current.len() > 0 {
            WordState { words: st.words.push(st.current), current: seq![], ..st }
        } else {
            st
        }
    } else {
        WordState { current: st.current.push(ch), ..st }
    }
}

pub open spec fn word_scan(s: Seq<char>) -> WordState
    decreases s.len(),
{
    if s.len() == 0 {
        WordState { words: seq![], current: seq![], quote: None, escaped: false }
    } else {
        word_step(word_scan(s.drop_last()), s.last())
    }
}

/// Shell-like words of an OpenSSH argument list: whitespace separates words
/// outside quotes, quotes group, a backslash keeps the next character.
pub open spec fn ssh_words(s: Seq<char>) -> Seq<Seq<char>> {
    let st = word_scan(s);
    let cur = if st.escaped { st.current.push('\\') } else { st.current };
    if cur.len() > 0 {
        st.words.push(cur)
    } else {
        st.words
    }
}

pub open spec fn words_nonempty(w: Seq<Seq<char>>) -> bool {
    forall|i: int| 0 <= i < w.len() ==> (#[trigger] w[i]).len() > 0
}

proof fn lemma_word_scan_nonempty(s: Seq<char>)
    ensures
        words_nonempty(word_scan(s).words),
    decreases s.len(),
{
    if s.len() > 0 {
        lemma_word_scan_nonempty(s.drop_last());
    }
}

/// Every word produced by the OpenSSH word splitter is non-empty.
pub proof fn lemma_ssh_words_nonempty(s: Seq<char>)
    ensures
        words_nonempty(ssh_words(s)),
{
    lemma_word_scan_nonempty(s);
}

/// Splits an OpenSSH argument list into words.
pub fn split_ssh_words(value: &str) -> (r: Vec<String>)
    ensures
        r@.len() == ssh_words(value@).len(),
        forall|i: int| 0 <= i < r@.len() ==> #[trigger] r@[i]@ == ssh_words(value@)[i],
{
    let v = chars_of(value);
    let mut words: Vec<String> = Vec::new();
    let mut current: Vec<char> = Vec::new();
    let mut quote: Option<char> = None;
    let mut escaped = false;
    let mut i: usize = 0;
    while i < v.len()
        invariant
            i <= v.len(),
            v@ == value@,
            words@.len() == word_scan(v@.take(i as int)).words.len(),
            forall|k: int| 0 <= k < words@.len() ==> #[trigger] words@[k]@ == word_scan(
                v@.take(i as int),
            ).words[k],
            current@ == word_scan(v@.take(i as int)).current,
            quote == word_scan(v@.take(i as int)).quote,
            escaped == word_scan(v@.take(i as int)).escaped,
        decreases v.len() - i,
    {
        let ch = v[i];
        proof {
            assert(v@.take(i + 1).drop_last() =~= v@.take(i as int));
            assert(v@.take(i + 1).last() == ch);
        }
        let ghost prev = word_scan(v@.take(i as int));
        if escaped {
            current.push(ch);
            escaped = false;
        } else if ch == '\\' {
            escaped = true;
        } else if ch == '\'' || ch == '"' {
            if quote == Some(ch) {
                quote = None;
            } else if quote.is_none() {
                quote = Some(ch);
            } else {
                current.push(ch);
            }
        } else if char_is_ws(ch) && quote.is_none() {
            if current.len() > 0 {
                let w = string_from_chars(current.as_slice());
                words.push(w);
                current = Vec::new();
                proof {
                    assert(current@ =~= Seq::<char>::empty());
                }
            }
        } else {
            current.push(ch);
        }
        i = i + 1;
    }
    proof {
        assert(v@.take(v.len() as int) =~= v@);
    }
    if escaped {
        current.push('\\');
    }
    if current.len() > 0 {
        let w = string_from_chars(current.as_slice());
        words.push(w);
    }
    words
}

// ── Effective settings ────────────────────────────────────────────────

/// Host settings reported to the user for one alias.
#[derive(Debug, Clone)]
pub struct SshHost {
    pub name: String,
    pub hostname: Option<String>,
    pub user: Option<String>,
    pub port: Option<u16>,
    pub identity_file: Option<String>,
}

/// The directives of a configuration text, line by line.
pub open spec fn directives_of(lines: Seq<Seq<char>>) -> Seq<(Seq<char>, Seq<char>)>
    decreases lines.len(),
{
    if lines.len() == 0 {
        seq![]
    } else {
        let rest = directives_of(lines.drop_first());
        match directive(lines[0]) {
            Some(d) => seq![d] + rest,
            None => rest,
        }
    }
}

/// Value of the first directive whose lower-cased key is `key`.
pub open spec fn first_value(ds: Seq<(Seq<char>, Seq<char>)>, key: Seq<char>) -> Option<Seq<char>>
    decreases ds.len(),
{
    if ds.len() == 0 {
        None
    } else if lower(ds[0].0) == key {
        Some(ds[0].1)
    } else {
        first_value(ds.drop_first(), key)
    }
}

/// First `port` directive whose value is a valid port number.
pub open spec fn first_port(ds: Seq<(Seq<char>, Seq<char>)>) -> Option<u16>
    decreases ds.len(),
{
    if ds.len() == 0 {
        None
    } else if lower(ds[0].0) == "port"@ && parse_u16(ds[0].1) is Some {
        parse_u16(ds[0].1)
    } else {
        first_port(ds.drop_first())
    }
}

pub open spec fn opt_view(o: Option<String>) -> Option<Seq<char>> {
    match o {
        Some(s) => Some(s@),
        None => None,
    }
}

/// What `ssh -G` output says about a host: the first hostname, user, valid
/// port and identity file; keys are matched case-insensitively.
pub open spec fn effective_host_spec(name: Seq<char>, content: Seq<char>, h: SshHost) -> bool {
    let ds = directives_of(lines(content));
    &&& h.name@ == name
    &&& opt_view(h.hostname) == first_value(ds, "hostname"@)
    &&& opt_view(h.user) == first_value(ds, "user"@)
    &&& h.port == first_port(ds)
    &&& opt_view(h.identity_file) == first_value(ds, "identityfile"@)
}

proof fn lemma_first_value_step(
    ds: Seq<(Seq<char>, Seq<char>)>,
    i: int,
    key: Seq<char>,
)
    requires
        0 <= i < ds.len(),
    ensures
        first_value(ds.skip(i), key) == (if lower(ds[i].0) == key {
            Some(ds[i].1)
        } else {
            first_value(ds.skip(i + 1), key)
        }),
{
    assert(ds.skip(i)[0] == ds[i]);
    assert(ds.skip(i).drop_first() =~= ds.skip(i + 1));
}

proof fn lemma_first_port_step(ds: Seq<(Seq<char>, Seq<char>)>, i: int)
    requires
        0 <= i < ds.len(),
    ensures
        first_port(ds.skip(i)) == (if lower(ds[i].0) == "port"@ && parse_u16(ds[i].1) is Some {
            parse_u16(ds[i].1)
        } else {
            first_port(ds.skip(i + 1))
        }),
{
    assert(ds.skip(i)[0] == ds[i]);
    assert(ds.skip(i).drop_first() =~= ds.skip(i + 1));
}

proof fn lemma_directives_of_step(ls: Seq<Seq<char>>, i: int)
    requires
        0 <= i < ls.len(),
    ensures
        directives_of(ls.skip(i)) == (match directive(ls[i]) {
            Some(d) => seq![d] + directives_of(ls.skip(i + 1)),
            None => directives_of(ls.skip(i + 1)),
        }),
{
    assert(ls.skip(i)[0] == ls[i]);
    assert(ls.skip(i).drop_first() =~= ls.skip(i + 1));
}

/// Keeps `cur` when set, else takes `value` when the key matches.
pub open spec fn fold_first(cur: Option<Seq<char>>, matched: bool, value: Seq<char>) -> Option<
    Seq<char>,
> {
    if cur is None && matched {
        Some(value)
    } else {
        cur
    }
}

/// Reads the hostname, user, port and identity file from `ssh -G` output.
pub fn parse_effective_ssh_config(name: String, content: &str) -> (h: SshHost)
    ensures
        effective_host_spec(name@, content@, h),
{
    let ghost name_v = name@;
    let mut host = SshHost { name, hostname: None, user: None, port: None, identity_file: None };
    let v = chars_of(content);
    let ls = split_lines(v.as_slice());
    let ghost lsv = lines(content@);
    let ghost ds = directives_of(lsv);
    let mut i: usize = 0;
    proof {
        assert(lsv.skip(0) =~= lsv);
    }
    while i < ls.len()
        invariant
            i <= ls.len(),
            ls@.len() == lsv.len(),
            forall|k: int| 0 <= k < ls@.len() ==> #[trigger] ls@[k]@ == lsv[k],
            ds == directives_of(lsv),
            host.name@ == name_v,
            first_value(ds, "hostname"@) == (match opt_view(host.hostname) {
                Some(x) => Some(x),
                None => first_value(directives_of(lsv.skip(i as int)), "hostname"@),
            }),
            first_value(ds, "user"@) == (match opt_view(host.user) {
                Some(x) => Some(x),
                None => first_value(directives_of(lsv.skip(i as int)), "user"@),
            }),
            first_value(ds, "identityfile"@) == (match opt_view(host.identity_file) {
                Some(x) => Some(x),
                None => first_value(directives_of(lsv.skip(i as int)), "identityfile"@),
            }),
            first_port(ds) == (match host.port {
                Some(x) => Some(x),
                None => first_port(directives_of(lsv.skip(i as int))),
            }),
        decreases ls.len() - i,
    {
        let line = &ls[i];
        proof {
            lemma_directives_of_step(lsv, i as int);
        }
        match directive_ranges(line.as_slice()) {
            Some((ka, kb, va, vb)) => {
                let key = lower_chars(sub_chars(line.as_slice(), ka, kb).as_slice());
                let value = sub_chars(line.as_slice(), va, vb);
                let ghost d = directive(lsv[i as int]).unwrap();
                let ghost dd = seq![d] + directives_of(lsv.skip(i + 1));
                proof {
                    assert(dd[0] == d);
                    assert(dd.drop_first() =~= directives_of(lsv.skip(i + 1)));
                    assert(key@ == lower(d.0));
                    assert(value@ == d.1);
                }
                if host.hostname.is_none() && chars_eq_str(key.as_slice(), "hostname") {
                    host.hostname = Some(string_from_chars(value.as_slice()));
                }
                if host.user.is_none() && chars_eq_str(key.as_slice(), "user") {
                    host.user = Some(string_from_chars(value.as_slice()));
                }
                if host.port.is_none() && chars_eq_str(key.as_slice(), "port") {
                    host.port = parse_u16_exec(value.as_slice());
                }
                if host.identity_file.is_none() && chars_eq_str(key.as_slice(), "identityfile") {
                    host.identity_file = Some(string_from_chars(value.as_slice()));
                }
            },
            None => {},
        }
        i = i + 1;
    }
    proof {
        assert(lsv.skip(ls.len() as int) =~= Seq::<Seq<char>>::empty());
    }
    host
}

/// `~/.ssh/config` below `home`, unless `home` is blank.
pub fn ssh_config_path(home: &str) -> (r: Option<String>)
    ensures
        match r {
            Some(p) => trim(home@).len() > 0 && p@ == path_join(path_join(home@, ".ssh"@), "config"@),
            None => trim(home@).len() == 0,
        },
{
    let v = chars_of(home);
    let (a, b) = trim_bounds(v.as_slice());
    if a == b {
        return None;
    }
    let mut p = String::new();
    p.append(home);
    push_path(&mut p, ".ssh");
    push_path(&mut p, "config");
    Some(p)
}


/// A host alias is concrete exactly when it is not empty, is not a
/// negation (leading `!`), and holds no `*` or `?` wildcard.
pub proof fn law_concrete_aliases(s: Seq<char>)
    ensures
        concrete_alias(s) <==> s.len() > 0 && s[0] != '!' && (forall|j: int| 0 <= j < s.len() ==> s[j] != '*'
            && s[j] != '?'),
{
    if !has_char(s, '*') && !has_char(s, '?') {
        assert forall|j: int| 0 <= j < s.len() implies s[j] != '*' && s[j] != '?' by {
            if s[j] == '*' {
                assert(has_char(s, '*'));
            }
            if s[j] == '?' {
                assert(has_char(s, '?'));
            }
        }
    }
}
} // verus!
