//! Importing native harness sessions found in a workspace: the lock that
//! serialises imports of one session, the remote paths that may be scanned,
//! and the names and drivers imported agents get.
use vstd::prelude::*;
use crate::json_text::{json_char, json_escaped, json_string, push_json_string};
use crate::filesystem::{path_starts_with, path_starts_with_exec};
use crate::harness::has_ctrl;
use crate::redaction::AppError;
use crate::telemetry::JsonValue;
use crate::remote_control::hex_digit;
use crate::text::{
    any_ctrl, bytes_of, char_is_ctrl, char_is_ws, chars_eq, chars_eq_str, chars_of, concat2, is_ctrl,
    is_ws,
    join, lemma_join_push, owned, push_char, split_on, split_on_exec, string_from_chars, sub_chars,
    trim, trim_str,
};
use vstd::utf8::encode_utf8;

verus! {

/// A JSON string, or `null` for an absent value.
pub open spec fn json_opt(s: Option<Seq<char>>) -> Seq<char> {
    match s {
        Some(x) => json_string(x),
        None => "null"@,
    }
}

pub open spec fn opt_view(s: Option<&str>) -> Option<Seq<char>> {
    match s {
        Some(x) => Some(x@),
        None => None,
    }
}

/// The advisory-lock key of one native session import: the JSON array
/// `[host, workspace path, driver, native session id, harness account]`.
pub open spec fn lock_key(
    host: Option<Seq<char>>,
    workspace_path: Seq<char>,
    driver_type: Seq<char>,
    native_session_id: Seq<char>,
    account: Option<Seq<char>>,
) -> Seq<char> {
    seq!['['] + json_opt(host) + (seq![','] + json_string(workspace_path) + (seq![',']
        + json_string(driver_type) + (seq![','] + json_string(native_session_id) + (seq![',']
        + json_opt(account) + seq![']']))))
}

fn push_json_opt(out: &mut String, s: Option<&str>)
    ensures
        final(out)@ == old(out)@ + json_opt(opt_view(s)),
{
    match s {
        Some(x) => push_json_string(out, x),
        None => out.append("null"),
    }
}

/// The key under which imports of one native session are serialised. It is
/// valid PostgreSQL text (every control byte is escaped, so no NUL) and
/// tells any two tuples apart.
pub fn native_session_import_lock_key(
    runtime_host_id: Option<&str>,
    workspace_path: &str,
    driver_type: &str,
    native_session_id: &str,
    harness_account_id: Option<&str>,
) -> (r: String)
    ensures
        r@ == lock_key(
            opt_view(runtime_host_id),
            workspace_path@,
            driver_type@,
            native_session_id@,
            opt_view(harness_account_id),
        ),
{
    let mut out = String::new();
    out.append("[");
    push_json_opt(&mut out, runtime_host_id);
    out.append(",");
    push_json_string(&mut out, workspace_path);
    out.append(",");
    push_json_string(&mut out, driver_type);
    out.append(",");
    push_json_string(&mut out, native_session_id);
    out.append(",");
    push_json_opt(&mut out, harness_account_id);
    out.append("]");
    proof {
        reveal_strlit("[");
        reveal_strlit(",");
        reveal_strlit("]");
    }
    assert(out@ =~= lock_key(
        opt_view(runtime_host_id),
        workspace_path@,
        driver_type@,
        native_session_id@,
        opt_view(harness_account_id),
    ));
    out
}

// ── No control characters ───────────────────────────────────────────

/// No character of `s` is below U+0020 (the C0 controls, NUL among them).
pub open spec fn no_ctrl(s: Seq<char>) -> bool {
    forall|i: int| 0 <= i < s.len() ==> !is_c0(#[trigger] s[i])
}

pub open spec fn is_c0(c: char) -> bool {
    (c as u32) < 0x20
}

proof fn lemma_json_char_printable(c: char)
    ensures
        no_ctrl(json_char(c)),
        json_char(c).len() > 0,
        json_char(c)[0] != '"',
{
    let u = c as u32;
    let j = json_char(c);
    if u < 0x20 && !(u == 8 || u == 9 || u == 10 || u == 12 || u == 13) {
        assert(!is_c0(hex_digit((u / 16) as int)));
        assert(!is_c0(hex_digit((u % 16) as int)));
    }
    assert forall|i: int| 0 <= i < j.len() implies !is_c0(#[trigger] j[i]) by {
        if c == '"' || c == '\\' || u == 8 || u == 9 || u == 10 || u == 12 || u == 13 {
            assert(i == 0 || i == 1);
        } else if u < 0x20 {
            assert(0 <= i < 6);
        }
    }
}

proof fn lemma_json_escaped_printable(s: Seq<char>)
    ensures
        no_ctrl(json_escaped(s)),
    decreases s.len(),
{
    if s.len() > 0 {
        lemma_json_escaped_printable(s.drop_last());
        lemma_json_char_printable(s.last());
        let a = json_escaped(s.drop_last());
        let b = json_char(s.last());
        assert forall|i: int| 0 <= i < (a + b).len() implies !is_c0(#[trigger] (a + b)[i]) by {
            if i < a.len() {
                assert((a + b)[i] == a[i]);
            } else {
                assert((a + b)[i] == b[i - a.len()]);
            }
        }
    }
}

proof fn lemma_no_ctrl_concat(a: Seq<char>, b: Seq<char>)
    requires
        no_ctrl(a),
        no_ctrl(b),
    ensures
        no_ctrl(a + b),
{
    assert forall|i: int| 0 <= i < (a + b).len() implies !is_c0(#[trigger] (a + b)[i]) by {
        if i < a.len() {
            assert((a + b)[i] == a[i]);
        } else {
            assert((a + b)[i] == b[i - a.len()]);
        }
    }
}

proof fn lemma_json_string_printable(s: Seq<char>)
    ensures
        no_ctrl(json_string(s)),
{
    lemma_json_escaped_printable(s);
    assert(no_ctrl(seq!['"']));
    lemma_no_ctrl_concat(seq!['"'], json_escaped(s));
    lemma_no_ctrl_concat(seq!['"'] + json_escaped(s), seq!['"']);
}

proof fn lemma_json_opt_printable(s: Option<Seq<char>>)
    ensures
        no_ctrl(json_opt(s)),
{
    match s {
        Some(x) => lemma_json_string_printable(x),
        None => {
            reveal_strlit("null");
        },
    }
}

/// A lock key never holds a character below U+0020, so in particular no
/// NUL, which PostgreSQL text cannot store.
pub proof fn law_lock_key_has_no_control_characters(
    host: Option<Seq<char>>,
    workspace_path: Seq<char>,
    driver_type: Seq<char>,
    native_session_id: Seq<char>,
    account: Option<Seq<char>>,
)
    ensures
        no_ctrl(lock_key(host, workspace_path, driver_type, native_session_id, account)),
{
    let comma = seq![','];
    assert(no_ctrl(comma));
    assert(no_ctrl(seq!['[']));
    assert(no_ctrl(seq![']']));
    lemma_json_opt_printable(host);
    lemma_json_opt_printable(account);
    lemma_json_string_printable(workspace_path);
    lemma_json_string_printable(driver_type);
    lemma_json_string_printable(native_session_id);
    let p1 = seq!['['] + json_opt(host);
    lemma_no_ctrl_concat(seq!['['], json_opt(host));
    lemma_no_ctrl_concat(p1, comma);
    let p2 = p1 + comma + json_string(workspace_path);
    lemma_no_ctrl_concat(p1 + comma, json_string(workspace_path));
    lemma_no_ctrl_concat(p2, comma);
    let p3 = p2 + comma + json_string(driver_type);
    lemma_no_ctrl_concat(p2 + comma, json_string(driver_type));
    lemma_no_ctrl_concat(p3, comma);
    let p4 = p3 + comma + json_string(native_session_id);
    lemma_no_ctrl_concat(p3 + comma, json_string(native_session_id));
    lemma_no_ctrl_concat(p4, comma);
    let p5 = p4 + comma + json_opt(account);
    lemma_no_ctrl_concat(p4 + comma, json_opt(account));
    lemma_no_ctrl_concat(p5, seq![']']);
}

// ── Unambiguity ─────────────────────────────────────────────────────

proof fn lemma_json_escaped_first(s: Seq<char>)
    requires
        s.len() > 0,
    ensures
        json_escaped(s) == json_char(s[0]) + json_escaped(s.drop_first()),
    decreases s.len(),
{
    if s.len() == 1 {
        assert(s.drop_last() =~= Seq::<char>::empty());
        assert(s.drop_first() =~= Seq::<char>::empty());
        assert(json_escaped(Seq::<char>::empty()) =~= Seq::<char>::empty());
        assert(s.last() == s[0]);
        assert(json_escaped(s) =~= json_char(s[0]));
    } else {
        let init = s.drop_last();
        lemma_json_escaped_first(init);
        assert(init.drop_first() =~= s.drop_first().drop_last());
        assert(s.drop_first().last() == s.last());
        assert(json_escaped(s) =~= json_char(s[0]) + json_escaped(s.drop_first()));
    }
}

proof fn lemma_hex_digit_injective(p: int, q: int)
    requires
        0 <= p < 16,
        0 <= q < 16,
        hex_digit(p) == hex_digit(q),
    ensures
        p == q,
{
}

/// The escaped form of one character is never a proper prefix of another's,
/// and differs for different characters.
proof fn lemma_json_char_prefix(c: char, d: char, x: Seq<char>, y: Seq<char>)
    requires
        json_char(c) + x == json_char(d) + y,
    ensures
        c == d,
        x == y,
{
    let a = json_char(c);
    let b = json_char(d);
    let z = a + x;
    let u = c as u32;
    let v = d as u32;
    lemma_json_char_printable(c);
    lemma_json_char_printable(d);
    assert(z[0] == a[0]);
    assert(z[0] == b[0]);
    if a.len() >= 2 && b.len() >= 2 {
        assert(z[1] == a[1]);
        assert(z[1] == b[1]);
    }
    if a.len() == 6 && b.len() == 6 {
        assert(z[4] == a[4]);
        assert(z[4] == b[4]);
        assert(z[5] == a[5]);
        assert(z[5] == b[5]);
        lemma_hex_digit_injective((u / 16) as int, (v / 16) as int);
        lemma_hex_digit_injective((u % 16) as int, (v % 16) as int);
    }
    assert(a.len() == b.len());
    assert(u == v);
    assert(x =~= z.skip(a.len() as int));
    assert(y =~= (b + y).skip(b.len() as int));
}

/// Inside a JSON string, the closing quote is the first unescaped quote:
/// the escaped text before it, and what follows it, are determined.
proof fn lemma_escaped_prefix(a: Seq<char>, b: Seq<char>, x: Seq<char>, y: Seq<char>)
    requires
        json_escaped(a) + seq!['"'] + x == json_escaped(b) + seq!['"'] + y,
    ensures
        a == b,
        x == y,
    decreases a.len(),
{
    let l = json_escaped(a) + seq!['"'] + x;
    let r = json_escaped(b) + seq!['"'] + y;
    if a.len() == 0 {
        if b.len() > 0 {
            lemma_json_escaped_first(b);
            lemma_json_char_printable(b[0]);
            assert(l[0] == '"');
            assert(r[0] == json_char(b[0])[0]);
        }
        assert(b.len() == 0);
        assert(a =~= b);
        assert(x =~= l.skip(1));
        assert(y =~= r.skip(1));
    } else if b.len() == 0 {
        lemma_json_escaped_first(a);
        lemma_json_char_printable(a[0]);
        assert(r[0] == '"');
        assert(l[0] == json_char(a[0])[0]);
    } else {
        lemma_json_escaped_first(a);
        lemma_json_escaped_first(b);
        let ra = json_escaped(a.drop_first()) + seq!['"'] + x;
        let rb = json_escaped(b.drop_first()) + seq!['"'] + y;
        assert(l =~= json_char(a[0]) + ra);
        assert(r =~= json_char(b[0]) + rb);
        lemma_json_char_prefix(a[0], b[0], ra, rb);
        lemma_escaped_prefix(a.drop_first(), b.drop_first(), x, y);
        assert(a =~= seq![a[0]] + a.drop_first());
        assert(b =~= seq![b[0]] + b.drop_first());
    }
}

proof fn lemma_json_string_prefix(a: Seq<char>, b: Seq<char>, x: Seq<char>, y: Seq<char>)
    requires
        json_string(a) + x == json_string(b) + y,
    ensures
        a == b,
        x == y,
{
    let l = json_string(a) + x;
    let r = json_string(b) + y;
    assert(l.skip(1) =~= json_escaped(a) + seq!['"'] + x);
    assert(r.skip(1) =~= json_escaped(b) + seq!['"'] + y);
    lemma_escaped_prefix(a, b, x, y);
}

proof fn lemma_json_opt_prefix(a: Option<Seq<char>>, b: Option<Seq<char>>, x: Seq<char>, y: Seq<char>)
    requires
        json_opt(a) + x == json_opt(b) + y,
    ensures
        a == b,
        x == y,
{
    reveal_strlit("null");
    let l = json_opt(a) + x;
    let r = json_opt(b) + y;
    match (a, b) {
        (Some(p), Some(q)) => lemma_json_string_prefix(p, q, x, y),
        (None, None) => {
            assert(x =~= l.skip(4));
            assert(y =~= r.skip(4));
        },
        (None, Some(q)) => {
            assert(l[0] == 'n');
            assert(r[0] == '"');
        },
        (Some(p), None) => {
            assert(l[0] == '"');
            assert(r[0] == 'n');
        },
    }
}

proof fn lemma_string_field(a: Seq<char>, b: Seq<char>, x: Seq<char>, y: Seq<char>)
    requires
        seq![','] + json_string(a) + x == seq![','] + json_string(b) + y,
    ensures
        a == b,
        x == y,
{
    let l = seq![','] + json_string(a) + x;
    let r = seq![','] + json_string(b) + y;
    assert(l.skip(1) =~= json_string(a) + x);
    assert(r.skip(1) =~= json_string(b) + y);
    lemma_json_string_prefix(a, b, x, y);
}

proof fn lemma_opt_field(a: Option<Seq<char>>, b: Option<Seq<char>>, x: Seq<char>, y: Seq<char>)
    requires
        seq![','] + json_opt(a) + x == seq![','] + json_opt(b) + y,
    ensures
        a == b,
        x == y,
{
    let l = seq![','] + json_opt(a) + x;
    let r = seq![','] + json_opt(b) + y;
    assert(l.skip(1) =~= json_opt(a) + x);
    assert(r.skip(1) =~= json_opt(b) + y);
    lemma_json_opt_prefix(a, b, x, y);
}

/// Two imports share a lock key only when they are imports of the same
/// session: same host, workspace path, driver, native session id and
/// harness account.
pub proof fn law_lock_keys_are_unambiguous(
    host1: Option<Seq<char>>,
    path1: Seq<char>,
    driver1: Seq<char>,
    session1: Seq<char>,
    account1: Option<Seq<char>>,
    host2: Option<Seq<char>>,
    path2: Seq<char>,
    driver2: Seq<char>,
    session2: Seq<char>,
    account2: Option<Seq<char>>,
)
    requires
        lock_key(host1, path1, driver1, session1, account1) == lock_key(
            host2,
            path2,
            driver2,
            session2,
            account2,
        ),
    ensures
        host1 == host2,
        path1 == path2,
        driver1 == driver2,
        session1 == session2,
        account1 == account2,
{
    let c = seq![','];
    let t4a = c + json_opt(account1) + seq![']'];
    let t4b = c + json_opt(account2) + seq![']'];
    let t3a = c + json_string(session1) + t4a;
    let t3b = c + json_string(session2) + t4b;
    let t2a = c + json_string(driver1) + t3a;
    let t2b = c + json_string(driver2) + t3b;
    let t1a = c + json_string(path1) + t2a;
    let t1b = c + json_string(path2) + t2b;
    let ka = lock_key(host1, path1, driver1, session1, account1);
    let kb = lock_key(host2, path2, driver2, session2, account2);
    assert(ka.skip(1) =~= json_opt(host1) + t1a);
    assert(kb.skip(1) =~= json_opt(host2) + t1b);
    lemma_json_opt_prefix(host1, host2, t1a, t1b);
    lemma_string_field(path1, path2, t2a, t2b);
    lemma_string_field(driver1, driver2, t3a, t3b);
    lemma_string_field(session1, session2, t4a, t4b);
    lemma_opt_field(account1, account2, seq![']'], seq![']']);
}

// ── Agent names ─────────────────────────────────────────────────────

/// `s` without its control characters.
pub open spec fn printable_chars(s: Seq<char>) -> Seq<char>
    decreases s.len(),
{
    if s.len() == 0 {
        seq![]
    } else {
        let r = printable_chars(s.drop_last());
        if is_ctrl(s.last()) {
            r
        } else {
            r.push(s.last())
        }
    }
}

/// The maximal runs of non-whitespace characters of `s`, as
/// `str::split_whitespace` yields them.
pub open spec fn ws_words(s: Seq<char>) -> Seq<Seq<char>>
    decreases s.len(),
{
    if s.len() == 0 {
        seq![]
    } else {
        let w = ws_words(s.drop_last());
        let c = s.last();
        if is_ws(c) {
            w
        } else if s.len() >= 2 && !is_ws(s[s.len() - 2]) && w.len() > 0 {
            w.update(w.len() - 1, w.last().push(c))
        } else {
            w.push(seq![c])
        }
    }
}

/// A title without control characters, its words separated by single spaces.
pub open spec fn single_spaced(title: Seq<char>) -> Seq<char> {
    join(ws_words(printable_chars(title)), " "@)
}

/// The name an imported session's agent gets: the cleaned title, or
/// `"<harness> session"` when nothing is left of it, cut to 80 characters.
pub open spec fn display_name(title: Seq<char>, harness_label: Seq<char>) -> Seq<char> {
    let cleaned = single_spaced(title);
    let value = if cleaned.len() == 0 {
        harness_label + " session"@
    } else {
        cleaned
    };
    if value.len() <= 80 {
        value
    } else {
        value.take(80)
    }
}

proof fn lemma_join_extend(w: Seq<Seq<char>>, sep: Seq<char>, c: char)
    requires
        w.len() > 0,
    ensures
        join(w.update(w.len() - 1, w.last().push(c)), sep) == join(w, sep).push(c),
{
    let u = w.update(w.len() - 1, w.last().push(c));
    if w.len() == 1 {
        assert(u[0] == w[0].push(c));
    } else {
        assert(u.drop_last() =~= w.drop_last());
        assert(u.last() == w.last().push(c));
        assert(join(u, sep) =~= join(w, sep).push(c));
    }
}

/// The title without control characters, split on whitespace and joined
/// with single spaces.
fn single_spaced_exec(title: &str) -> (r: String)
    ensures
        r@ == single_spaced(title@),
{
    let v = chars_of(title);
    let mut out = String::new();
    let mut prev_ws = false;
    let mut has_word = false;
    let mut i: usize = 0;
    proof {
        reveal_strlit(" ");
        assert(v@.take(0) =~= Seq::<char>::empty());
    }
    while i < v.len()
        invariant
            i <= v@.len(),
            v@ == title@,
            " "@ == seq![' '],
            out@ == join(ws_words(printable_chars(v@.take(i as int))), " "@),
            has_word == (ws_words(printable_chars(v@.take(i as int))).len() > 0),
            prev_ws == (printable_chars(v@.take(i as int)).len() > 0 && is_ws(
                printable_chars(v@.take(i as int)).last(),
            )),
        decreases v.len() - i,
    {
        let c = v[i];
        let ghost p = printable_chars(v@.take(i as int));
        let ghost w = ws_words(p);
        assert(v@.take(i + 1).drop_last() =~= v@.take(i as int));
        assert(v@.take(i + 1).last() == c);
        if char_is_ctrl(c) {
        } else {
            let ghost q = p.push(c);
            assert(printable_chars(v@.take(i + 1)) == q);
            assert(q.drop_last() =~= p);
            assert(q.last() == c);
            if char_is_ws(c) {
                prev_ws = true;
            } else {
                if !has_word {
                    push_char(&mut out, c);
                    proof {
                        lemma_join_push(w, " "@, seq![c]);
                        assert(w.len() == 0);
                        assert(ws_words(q) == w.push(seq![c]));
                    }
                    has_word = true;
                } else if prev_ws {
                    push_char(&mut out, ' ');
                    push_char(&mut out, c);
                    proof {
                        lemma_join_push(w, " "@, seq![c]);
                        assert(q[q.len() - 2] == p.last());
                        assert(ws_words(q) == w.push(seq![c]));
                        assert(out@ =~= join(w, " "@) + " "@ + seq![c]);
                    }
                } else {
                    push_char(&mut out, c);
                    proof {
                        assert(p.len() > 0) by {
                            if p.len() == 0 {
                                assert(ws_words(p).len() == 0);
                            }
                        }
                        assert(q[q.len() - 2] == p.last());
                        lemma_join_extend(w, " "@, c);
                    }
                }
                prev_ws = false;
            }
        }
        i = i + 1;
    }
    assert(v@.take(v.len() as int) =~= v@);
    out
}

/// The agent name for an imported session titled `title`, from a harness
/// labelled `harness_label`: one line, at most 80 characters.
pub fn display_agent_name(title: &str, harness_label: &str) -> (r: String)
    ensures
        r@ == display_name(title@, harness_label@),
{
    let cleaned = single_spaced_exec(title);
    let n = chars_of(cleaned.as_str()).len();
    let value = if n == 0 {
        concat2(harness_label, " session")
    } else {
        cleaned
    };
    let v = chars_of(value.as_str());
    if v.len() <= 80 {
        value
    } else {
        let s = sub_chars(v.as_slice(), 0, 80);
        proof {
            assert(v@.subrange(0, 80) =~= v@.take(80));
        }
        string_from_chars(s.as_slice())
    }
}

pub open spec fn words_plain(w: Seq<Seq<char>>) -> bool {
    forall|k: int, j: int|
        0 <= k < w.len() && 0 <= j < w[k].len() ==> !is_ctrl(#[trigger] w[k][j]) && !is_ws(
            w[k][j],
        )
}

proof fn lemma_printable_chars(s: Seq<char>)
    ensures
        !has_ctrl(printable_chars(s)),
    decreases s.len(),
{
    if s.len() > 0 {
        lemma_printable_chars(s.drop_last());
        let r = printable_chars(s.drop_last());
        if !is_ctrl(s.last()) {
            assert forall|i: int| 0 <= i < r.push(s.last()).len() implies !is_ctrl(
                #[trigger] r.push(s.last())[i],
            ) by {
                if i < r.len() {
                    assert(r.push(s.last())[i] == r[i]);
                    if is_ctrl(r[i]) {
                        assert(has_ctrl(r));
                    }
                }
            }
        }
    }
}

proof fn lemma_words_plain(s: Seq<char>)
    requires
        !has_ctrl(s),
    ensures
        words_plain(ws_words(s)),
    decreases s.len(),
{
    if s.len() > 0 {
        let init = s.drop_last();
        assert(!has_ctrl(init)) by {
            if has_ctrl(init) {
                let i = choose|i: int| 0 <= i < init.len() && is_ctrl(#[trigger] init[i]);
                assert(s[i] == init[i]);
            }
        }
        lemma_words_plain(init);
        let w = ws_words(init);
        let c = s.last();
        assert(!is_ctrl(c)) by {
            if is_ctrl(c) {
                assert(is_ctrl(s[s.len() - 1]));
            }
        }
        if !is_ws(c) {
            if s.len() >= 2 && !is_ws(s[s.len() - 2]) && w.len() > 0 {
                let u = w.update(w.len() - 1, w.last().push(c));
                assert forall|k: int, j: int|
                    0 <= k < u.len() && 0 <= j < u[k].len() implies !is_ctrl(#[trigger] u[k][j])
                    && !is_ws(u[k][j]) by {
                    if k < w.len() - 1 {
                        assert(u[k] == w[k]);
                    } else if j < w.last().len() {
                        assert(u[k][j] == w[k][j]);
                    }
                }
            } else {
                let u = w.push(seq![c]);
                assert forall|k: int, j: int|
                    0 <= k < u.len() && 0 <= j < u[k].len() implies !is_ctrl(#[trigger] u[k][j])
                    && !is_ws(u[k][j]) by {
                    if k < w.len() {
                        assert(u[k] == w[k]);
                    }
                }
            }
        }
    }
}

proof fn lemma_join_printable(w: Seq<Seq<char>>)
    requires
        words_plain(w),
    ensures
        !has_ctrl(join(w, " "@)),
    decreases w.len(),
{
    reveal_strlit(" ");
    if w.len() == 1 {
        assert forall|j: int| 0 <= j < w[0].len() implies !is_ctrl(#[trigger] w[0][j]) by {}
    } else if w.len() > 1 {
        let init = w.drop_last();
        assert(words_plain(init)) by {
            assert forall|k: int, j: int|
                0 <= k < init.len() && 0 <= j < init[k].len() implies !is_ctrl(
                #[trigger] init[k][j],
            ) && !is_ws(init[k][j]) by {
                assert(init[k] == w[k]);
            }
        }
        lemma_join_printable(init);
        let a = join(init, " "@);
        let z = a + " "@ + w.last();
        assert forall|i: int| 0 <= i < z.len() implies !is_ctrl(#[trigger] z[i]) by {
            if i < a.len() {
                assert(z[i] == a[i]);
                if is_ctrl(a[i]) {
                    assert(has_ctrl(a));
                }
            } else if i == a.len() {
                assert(z[i] == ' ');
            } else {
                assert(z[i] == w.last()[i - a.len() - 1]);
                assert(w[w.len() - 1] == w.last());
            }
        }
    }
}

/// An imported agent's name is one line of at most 80 characters: it holds
/// no control character (no line break, no tab) whenever the harness label
/// holds none.
pub proof fn law_agent_names_are_short_and_single_line(title: Seq<char>, harness_label: Seq<char>)
    requires
        !has_ctrl(harness_label),
    ensures
        display_name(title, harness_label).len() <= 80,
        !has_ctrl(display_name(title, harness_label)),
{
    reveal_strlit(" session");
    lemma_printable_chars(title);
    lemma_words_plain(printable_chars(title));
    lemma_join_printable(ws_words(printable_chars(title)));
    let cleaned = single_spaced(title);
    let value = if cleaned.len() == 0 {
        harness_label + " session"@
    } else {
        cleaned
    };
    assert(!has_ctrl(value)) by {
        if cleaned.len() == 0 {
            assert forall|i: int| 0 <= i < value.len() implies !is_ctrl(#[trigger] value[i]) by {
                if i < harness_label.len() {
                    assert(value[i] == harness_label[i]);
                    if is_ctrl(harness_label[i]) {
                        assert(has_ctrl(harness_label));
                    }
                }
            }
        } else {
            assert forall|i: int| 0 <= i < value.len() implies !is_ctrl(#[trigger] value[i]) by {
                if is_ctrl(cleaned[i]) {
                    assert(has_ctrl(cleaned));
                }
            }
        }
    }
    if value.len() > 80 {
        assert forall|i: int| 0 <= i < value.take(80).len() implies !is_ctrl(
            #[trigger] value.take(80)[i],
        ) by {
            assert(value.take(80)[i] == value[i]);
            if is_ctrl(value[i]) {
                assert(has_ctrl(value));
            }
        }
    }
}

// ── Remote workspace paths ──────────────────────────────────────────

/// Some `/`-separated segment of `p` is `..` (a parent-directory component).
pub open spec fn has_parent_segment(p: Seq<char>) -> bool {
    exists|k: int| 0 <= k < split_on(p, '/').len() && #[trigger] split_on(p, '/')[k] == ".."@
}

/// A remote workspace path, once trimmed: not empty, at most 4096 bytes,
/// absolute, without `..` components and without control characters.
pub open spec fn remote_path_ok(value: Seq<char>) -> bool {
    let t = trim(value);
    &&& t.len() > 0
    &&& encode_utf8(t).len() <= 4096
    &&& t[0] == '/'
    &&& !has_parent_segment(t)
    &&& !has_ctrl(t)
}

fn has_parent_segment_exec(v: &[char]) -> (r: bool)
    ensures
        r == has_parent_segment(v@),
{
    let segs = split_on_exec(v, '/');
    let mut k: usize = 0;
    while k < segs.len()
        invariant
            k <= segs@.len(),
            segs@.len() == split_on(v@, '/').len(),
            forall|j: int| 0 <= j < segs@.len() ==> #[trigger] segs@[j]@ == split_on(v@, '/')[j],
            forall|j: int| 0 <= j < k ==> split_on(v@, '/')[j] != ".."@,
        decreases segs.len() - k,
    {
        if chars_eq_str(segs[k].as_slice(), "..") {
            assert(segs@[k as int]@ == split_on(v@, '/')[k as int]);
            return true;
        }
        assert(segs@[k as int]@ == split_on(v@, '/')[k as int]);
        k = k + 1;
    }
    false
}

/// The trimmed remote workspace path, or a validation error.
pub fn validate_remote_workspace_path(value: &str) -> (r: Result<&str, AppError>)
    ensures
        remote_path_ok(value@) ==> (r matches Ok(t) && t@ == trim(value@)),
        !remote_path_ok(value@) ==> (r matches Err(e) && e matches AppError::Validation(m) && m@
            == "remote workspace path must be an absolute normalized path"@),
{
    let t = trim_str(value);
    let v = chars_of(t);
    let b = bytes_of(t);
    if v.len() == 0 || b.len() > 4096 || v[0] != '/' || has_parent_segment_exec(v.as_slice())
        || any_ctrl(v.as_slice()) {
        return Err(
            AppError::Validation(owned("remote workspace path must be an absolute normalized path")),
        );
    }
    Ok(t)
}

// ── Drivers and unique names ────────────────────────────────────────

/// The harnesses whose native sessions can be imported.
#[derive(Debug, Clone, Copy, PartialEq, Eq, Structural)]
pub enum HarnessKind {
    Claude,
    Codex,
    Pi,
    Grok,
    OpenCode,
}

/// The terminal driver an imported session of `harness` runs under.
pub fn import_driver(harness: HarnessKind) -> (r: &'static str)
    ensures
        r@ == match harness {
            HarnessKind::Claude => "claude_terminal"@,
            HarnessKind::Codex => "codex_terminal"@,
            HarnessKind::Pi => "pi_terminal"@,
            HarnessKind::Grok => "grok_terminal"@,
            HarnessKind::OpenCode => "opencode_terminal"@,
        },
{
    match harness {
        HarnessKind::Claude => "claude_terminal",
        HarnessKind::Codex => "codex_terminal",
        HarnessKind::Pi => "pi_terminal",
        HarnessKind::Grok => "grok_terminal",
        HarnessKind::OpenCode => "opencode_terminal",
    }
}

/// The names tried, in order, for an imported session's agent: the display
/// name, then that name followed by the harness label, then followed by
/// the first six characters of the native session id.
pub open spec fn name_candidates(title: Seq<char>, label: Seq<char>, native_session_id: Seq<char>) -> Seq<Seq<char>> {
    let base = display_name(title, label);
    let short_id = if native_session_id.len() <= 6 {
        native_session_id
    } else {
        native_session_id.take(6)
    };
    seq![
        base,
        display_name(base + " \u{b7} "@ + label, label),
        display_name(base + " \u{b7} "@ + short_id, label),
    ]
}

/// The candidate names for the agent of an imported session.
pub fn agent_name_candidates(title: &str, harness_label: &str, native_session_id: &str) -> (r: Vec<String>)
    ensures
        r@.len() == 3,
        forall|k: int| 0 <= k < 3 ==> #[trigger] r@[k]@ == name_candidates(
            title@,
            harness_label@,
            native_session_id@,
        )[k],
{
    let base = display_agent_name(title, harness_label);
    let with_label = concat2(concat2(base.as_str(), " \u{b7} ").as_str(), harness_label);
    let id = chars_of(native_session_id);
    let short_id = if id.len() <= 6 {
        string_from_chars(id.as_slice())
    } else {
        let s = sub_chars(id.as_slice(), 0, 6);
        proof {
            assert(id@.subrange(0, 6) =~= id@.take(6));
        }
        string_from_chars(s.as_slice())
    };
    let with_id = concat2(concat2(base.as_str(), " \u{b7} ").as_str(), short_id.as_str());
    let second = display_agent_name(with_label.as_str(), harness_label);
    let third = display_agent_name(with_id.as_str(), harness_label);
    let mut r: Vec<String> = Vec::new();
    r.push(base);
    r.push(second);
    r.push(third);
    r
}

/// The first name that is not taken.
pub open spec fn first_free(taken: Seq<bool>) -> Option<int>
    decreases taken.len(),
{
    if taken.len() == 0 {
        None
    } else {
        match first_free(taken.drop_last()) {
            Some(i) => Some(i),
            None => if taken.last() {
                None
            } else {
                Some(taken.len() - 1)
            },
        }
    }
}

proof fn lemma_first_free_is(taken: Seq<bool>, k: int)
    requires
        0 <= k <= taken.len(),
        forall|j: int| 0 <= j < k ==> #[trigger] taken[j],
        k < taken.len() ==> !taken[k],
    ensures
        first_free(taken) == (if k < taken.len() { Some(k) } else { None::<int> }),
    decreases taken.len(),
{
    if taken.len() > 0 {
        let init = taken.drop_last();
        if k < taken.len() - 1 {
            lemma_first_free_is(init, k);
        } else {
            assert forall|j: int| 0 <= j < init.len() implies #[trigger] init[j] by {
                assert(init[j] == taken[j]);
            }
            lemma_first_free_is(init, init.len() as int);
        }
    }
}

/// Picks the first candidate name that no live principal of the company
/// uses yet (`taken[i]` says whether `candidates[i]` is in use).
pub fn unique_agent_name(candidates: &[String], taken: &[bool]) -> (r: Result<String, AppError>)
    requires
        taken@.len() == candidates@.len(),
    ensures
        match first_free(taken@) {
            Some(i) => r matches Ok(n) && n@ == candidates@[i]@,
            None => r matches Err(e) && e matches AppError::Conflict(m) && m@
                == "could not derive a unique Agent name for this session"@,
        },
{
    let mut i: usize = 0;
    while i < taken.len()
        invariant
            i <= taken@.len(),
            taken@.len() == candidates@.len(),
            forall|j: int| 0 <= j < i ==> #[trigger] taken@[j],
        decreases taken.len() - i,
    {
        if !taken[i] {
            proof {
                lemma_first_free_is(taken@, i as int);
            }
            return Ok(owned(candidates[i].as_str()));
        }
        i = i + 1;
    }
    proof {
        lemma_first_free_is(taken@, taken@.len() as int);
    }
    Err(AppError::Conflict(owned("could not derive a unique Agent name for this session")))
}

// ── Scans and imports ───────────────────────────────────────────────

/// A session the operator picked for import.
#[derive(Debug)]
pub struct ImportSessionSelection {
    pub harness: HarnessKind,
    pub harness_account_id: Option<String>,
    pub native_session_id: String,
    /// The session's workspace, when it is not the scanned root itself.
    pub workspace_path: Option<String>,
}

/// A session a scan found.
#[derive(Debug)]
pub struct NativeSessionSummary {
    pub harness: HarnessKind,
    pub native_session_id: String,
    pub workspace_path: String,
    pub harness_account_id: Option<String>,
    pub title: String,
}

/// A scan covers at least one harness; scanning another device needs the
/// company the device belongs to.
pub fn check_scan_request(harness_count: usize, remote: bool, company_id: Option<&str>) -> (r: Result<(), AppError>)
    ensures
        harness_count == 0 ==> (r matches Err(e) && e matches AppError::Validation(m) && m@
            == "select at least one harness"@),
        harness_count > 0 && remote && company_id is None ==> (r matches Err(e) && e matches AppError::Validation(m)
            && m@ == "company_id is required when scanning another device"@),
        harness_count > 0 && !(remote && company_id is None) ==> r is Ok,
{
    if harness_count == 0 {
        return Err(AppError::Validation(owned("select at least one harness")));
    }
    if remote && company_id.is_none() {
        return Err(AppError::Validation(owned("company_id is required when scanning another device")));
    }
    Ok(())
}

/// The harness of an isolated account profile, from its driver: the
/// `claude_terminal` driver's harness, else Codex.
pub fn session_account_harness(driver_type: &str) -> (r: HarnessKind)
    ensures
        r == (if driver_type@ == "claude_terminal"@ { HarnessKind::Claude } else { HarnessKind::Codex }),
{
    if chars_eq_str(chars_of(driver_type).as_slice(), "claude_terminal") {
        HarnessKind::Claude
    } else {
        HarnessKind::Codex
    }
}

/// A selection names a session: its id is not blank, nor is its workspace
/// when it gives one.
pub open spec fn selection_ok(s: ImportSessionSelection) -> bool {
    trim(s.native_session_id@).len() > 0 && match s.workspace_path {
        Some(p) => trim(p@).len() > 0,
        None => true,
    }
}

/// Why a batch of selections is refused, if it is.
pub open spec fn selections_error(s: Seq<ImportSessionSelection>) -> Option<Seq<char>> {
    if s.len() == 0 || s.len() > 100 {
        Some("select between 1 and 100 sessions"@)
    } else if exists|i: int| 0 <= i < s.len() && !selection_ok(#[trigger] s[i]) {
        Some("native session id and workspace path cannot be empty"@)
    } else {
        None
    }
}

fn selection_ok_exec(s: &ImportSessionSelection) -> (r: bool)
    ensures
        r == selection_ok(*s),
{
    if chars_of(trim_str(s.native_session_id.as_str())).len() == 0 {
        return false;
    }
    match &s.workspace_path {
        Some(p) => chars_of(trim_str(p.as_str())).len() > 0,
        None => true,
    }
}

/// Checks a batch of selections before anything is imported.
pub fn check_import_selections(selections: &[ImportSessionSelection]) -> (r: Result<(), AppError>)
    ensures
        match selections_error(selections@) {
            None => r is Ok,
            Some(m) => r matches Err(e) && e matches AppError::Validation(x) && x@ == m,
        },
{
    if selections.len() == 0 || selections.len() > 100 {
        return Err(AppError::Validation(owned("select between 1 and 100 sessions")));
    }
    let mut i: usize = 0;
    while i < selections.len()
        invariant
            i <= selections@.len(),
            0 < selections@.len() <= 100,
            forall|k: int| 0 <= k < i ==> selection_ok(#[trigger] selections@[k]),
        decreases selections.len() - i,
    {
        if !selection_ok_exec(&selections[i]) {
            assert(!selection_ok(selections@[i as int]));
            return Err(AppError::Validation(owned("native session id and workspace path cannot be empty")));
        }
        i = i + 1;
    }
    Ok(())
}

/// The company sessions are imported into must be one the operator can
/// reach (`None` when it is not among them) and active (`Some(inactive)`).
pub fn check_import_company(inactive: Option<bool>) -> (r: Result<(), AppError>)
    ensures
        inactive is None ==> (r matches Err(e) && e matches AppError::Forbidden(m) && m@
            == "company is not accessible"@),
        inactive == Some(true) ==> (r matches Err(e) && e matches AppError::Forbidden(m) && m@
            == "cannot import sessions into an inactive company"@),
        inactive == Some(false) ==> r is Ok,
{
    match inactive {
        None => Err(AppError::Forbidden(owned("company is not accessible"))),
        Some(true) => Err(AppError::Forbidden(owned("cannot import sessions into an inactive company"))),
        Some(false) => Ok(()),
    }
}

/// A selected session must lie under the scanned root.
pub fn check_session_workspace(selected: &str, root: &str) -> (r: Result<(), AppError>)
    ensures
        path_starts_with(selected@, root@) ==> r is Ok,
        !path_starts_with(selected@, root@) ==> (r matches Err(e) && e matches AppError::Forbidden(m) && m@
            == "session workspace is outside the selected scan root"@),
{
    if !path_starts_with_exec(selected, root) {
        return Err(AppError::Forbidden(owned("session workspace is outside the selected scan root")));
    }
    Ok(())
}

pub open spec fn opt_text_view(o: Option<String>) -> Option<Seq<char>> {
    match o {
        Some(s) => Some(s@),
        None => None,
    }
}

/// `s` is the session a selection names: same harness, session id,
/// workspace and account.
pub open spec fn names_session(s: NativeSessionSummary, harness: HarnessKind, native_session_id: Seq<char>, workspace: Seq<char>, account: Option<Seq<char>>) -> bool {
    s.harness == harness && s.native_session_id@ == native_session_id && s.workspace_path@ == workspace
        && opt_text_view(s.harness_account_id) == account
}

/// Index of the last discovered session a selection names (the scan is
/// indexed by that key, so a later duplicate replaces an earlier one).
pub open spec fn last_named(sessions: Seq<NativeSessionSummary>, harness: HarnessKind, id: Seq<char>, workspace: Seq<char>, account: Option<Seq<char>>) -> Option<int>
    decreases sessions.len(),
{
    if sessions.len() == 0 {
        None
    } else if names_session(sessions.last(), harness, id, workspace, account) {
        Some(sessions.len() - 1)
    } else {
        last_named(sessions.drop_last(), harness, id, workspace, account)
    }
}

fn opt_same(a: &Option<String>, b: Option<&str>) -> (r: bool)
    ensures
        r == (opt_text_view(*a) == match b {
            Some(x) => Some(x@),
            None => None::<Seq<char>>,
        }),
{
    match (a, b) {
        (Some(x), Some(y)) => chars_eq(chars_of(x.as_str()).as_slice(), chars_of(y).as_slice()),
        (None, None) => true,
        _ => false,
    }
}

/// The discovered session a selection names, if the scan still finds it.
pub fn find_discovered(sessions: &[NativeSessionSummary], harness: HarnessKind, native_session_id: &str, workspace: &str, account: Option<&str>) -> (r: Option<usize>)
    ensures
        match r {
            Some(i) => last_named(sessions@, harness, native_session_id@, workspace@, match account {
                Some(x) => Some(x@),
                None => None,
            }) == Some(i as int) && i < sessions@.len(),
            None => last_named(sessions@, harness, native_session_id@, workspace@, match account {
                Some(x) => Some(x@),
                None => None,
            }) is None,
        },
{
    let ghost acc = match account {
        Some(x) => Some(x@),
        None => None::<Seq<char>>,
    };
    let mut k: usize = sessions.len();
    assert(sessions@.take(k as int) =~= sessions@);
    while k > 0
        invariant
            k <= sessions@.len(),
            acc == match account {
                Some(x) => Some(x@),
                None => None::<Seq<char>>,
            },
            last_named(sessions@, harness, native_session_id@, workspace@, acc) == last_named(
                sessions@.take(k as int),
                harness,
                native_session_id@,
                workspace@,
                acc,
            ),
        decreases k,
    {
        let s = &sessions[k - 1];
        let hit = s.harness == harness && chars_eq(chars_of(s.native_session_id.as_str()).as_slice(), chars_of(native_session_id).as_slice())
            && chars_eq(chars_of(s.workspace_path.as_str()).as_slice(), chars_of(workspace).as_slice())
            && opt_same(&s.harness_account_id, account);
        assert(sessions@.take(k as int).last() == sessions@[k - 1]);
        assert(sessions@.take(k as int).drop_last() =~= sessions@.take(k - 1));
        assert(hit == names_session(sessions@[k - 1], harness, native_session_id@, workspace@, acc));
        assert(last_named(sessions@.take(k as int), harness, native_session_id@, workspace@, acc) == (if hit {
            Some(k - 1)
        } else {
            last_named(sessions@.take(k - 1), harness, native_session_id@, workspace@, acc)
        }));
        if hit {
            return Some(k - 1);
        }
        k = k - 1;
    }
    assert(sessions@.take(0) =~= Seq::<NativeSessionSummary>::empty());
    None
}

/// The error for a selection the scan no longer finds.
pub fn session_missing(harness_label: &str) -> (e: AppError)
    ensures
        e matches AppError::NotFound(m) && m@ == harness_label@ + " session is no longer present in this workspace"@,
{
    let mut m = owned(harness_label);
    m.append(" session is no longer present in this workspace");
    AppError::NotFound(m)
}

// ── One import ──────────────────────────────────────────────────────

/// Whether an earlier import of the same session may be taken over: only
/// the operator's own deleted company gives it up, and only once its agent
/// has no queued or running work.
pub fn check_previous_import(owner_is_operator: bool, company_deleted: bool, pending_commands: usize, binding_running: bool, turn_in_flight: bool) -> (r: Result<(), AppError>)
    ensures
        !(owner_is_operator && company_deleted) ==> (r matches Err(e) && e matches AppError::Conflict(m) && m@
            == "this native session is already imported into another company"@),
        owner_is_operator && company_deleted && (pending_commands > 0 || binding_running || turn_in_flight) ==> (r matches Err(e)
            && e matches AppError::Conflict(m) && m@
            == "the previous agent has queued or running work; wait for it to finish before importing"@),
        owner_is_operator && company_deleted && !(pending_commands > 0 || binding_running || turn_in_flight) ==> r is Ok,
{
    if !owner_is_operator || !company_deleted {
        return Err(AppError::Conflict(owned("this native session is already imported into another company")));
    }
    if pending_commands > 0 || binding_running || turn_in_flight {
        return Err(
            AppError::Conflict(
                owned("the previous agent has queued or running work; wait for it to finish before importing"),
            ),
        );
    }
    Ok(())
}

/// An earlier import of the same native session, as the import record holds it.
#[derive(Debug)]
pub struct PreviousImport {
    pub company_id: String,
    pub agent_principal_id: String,
    pub conversation_id: String,
    pub binding_id: String,
    pub agent_name: String,
}

/// The outcome of importing one session.
#[derive(Debug)]
pub struct ImportedWorkspaceSession {
    pub harness: HarnessKind,
    pub native_session_id: String,
    pub agent_principal_id: String,
    pub conversation_id: String,
    pub binding_id: String,
    pub agent_name: String,
    pub already_imported: bool,
}

/// What an import does about an earlier import of the same session.
#[derive(Debug)]
pub enum PriorImportPlan {
    /// Already imported into this company: answer with the earlier import
    /// and create nothing.
    Reuse(ImportedWorkspaceSession),
    /// Imported into another company: the earlier import is retired, once
    /// `check_previous_import` allows it, and the session imported afresh.
    TakeOver(PreviousImport),
    /// Never imported: import afresh.
    Fresh,
}

/// Decides what importing `session` into `company_id` does, given the earlier
/// import of the same session, if there is one. A session imported into the
/// same company again keeps its agent, conversation and binding.
pub fn plan_prior_import(company_id: &str, session: &NativeSessionSummary, previous: Option<PreviousImport>) -> (r: PriorImportPlan)
    ensures
        match previous {
            None => r is Fresh,
            Some(p) => if p.company_id@ == company_id@ {
                r matches PriorImportPlan::Reuse(s) && {
                    &&& s.harness == session.harness
                    &&& s.native_session_id@ == session.native_session_id@
                    &&& s.agent_principal_id == p.agent_principal_id
                    &&& s.conversation_id == p.conversation_id
                    &&& s.binding_id == p.binding_id
                    &&& s.agent_name == p.agent_name
                    &&& s.already_imported
                }
            } else {
                r == PriorImportPlan::TakeOver(p)
            },
        },
{
    match previous {
        None => PriorImportPlan::Fresh,
        Some(p) => {
            let theirs = chars_of(p.company_id.as_str());
            let ours = chars_of(company_id);
            if chars_eq(theirs.as_slice(), ours.as_slice()) {
                PriorImportPlan::Reuse(
                    ImportedWorkspaceSession {
                        harness: session.harness,
                        native_session_id: owned(session.native_session_id.as_str()),
                        agent_principal_id: p.agent_principal_id,
                        conversation_id: p.conversation_id,
                        binding_id: p.binding_id,
                        agent_name: p.agent_name,
                        already_imported: true,
                    },
                )
            } else {
                PriorImportPlan::TakeOver(p)
            }
        },
    }
}

/// Where the import of one session stands once its lock is held.
#[derive(Debug)]
pub enum ImportState {
    /// Waiting for the earlier import of the session, if any.
    AwaitPrevious,
    /// Waiting for what decides whether the earlier import may be taken over.
    AwaitTakeOverFacts(PreviousImport),
    /// Waiting for the earlier import to be retired.
    AwaitRetirement,
    /// The import's course is decided.
    Done,
}

/// What the outside world answers an import.
#[derive(Debug)]
pub enum ImportEvent {
    /// The earlier import of the same session, if there is one.
    Previous(Option<PreviousImport>),
    /// The earlier import's company owner and state, and its agent's work.
    TakeOverFacts {
        owner_is_operator: bool,
        company_deleted: bool,
        pending_commands: usize,
        binding_running: bool,
        turn_in_flight: bool,
    },
    /// The earlier binding is disabled, its agent disabled and its claim released.
    Retired,
}

/// What an import asks for next.
#[derive(Debug)]
pub enum ImportAction {
    /// Answer with the earlier import (restoring its hidden session); nothing is created.
    Answer(ImportedWorkspaceSession),
    /// Read the facts of the earlier import in `company_id`.
    CheckTakeOver { company_id: String, agent_principal_id: String, binding_id: String },
    /// Close the earlier binding's terminal and retire the earlier import.
    Retire { agent_principal_id: String, binding_id: String },
    /// Create the agent, conversation and binding of a new import.
    ImportFresh,
    /// The import is refused.
    Fail(AppError),
}

/// The event answers what the import waits for.
pub open spec fn import_accepts(state: ImportState, event: ImportEvent) -> bool {
    match state {
        ImportState::AwaitPrevious => event is Previous,
        ImportState::AwaitTakeOverFacts(_) => event is TakeOverFacts,
        ImportState::AwaitRetirement => event is Retired,
        ImportState::Done => false,
    }
}

/// One step of importing `session` into `company_id`. A session imported
/// into the same company before is answered with that import, its agent,
/// conversation and binding, and nothing new is created: importing again is
/// idempotent. One imported into another company is taken over only when
/// `check_previous_import` allows it, and only after it is retired; a
/// session never imported is imported afresh.
pub fn import_step(company_id: &str, session: &NativeSessionSummary, state: ImportState, event: ImportEvent) -> (r: (
    ImportState,
    ImportAction,
))
    requires
        import_accepts(state, event),
    ensures
        match (state, event) {
            (ImportState::AwaitPrevious, ImportEvent::Previous(None)) => r.0 is Done && r.1 is ImportFresh,
            (ImportState::AwaitPrevious, ImportEvent::Previous(Some(p))) => if p.company_id@ == company_id@ {
                r.1 matches ImportAction::Answer(s) && s.harness == session.harness && s.native_session_id@
                    == session.native_session_id@ && s.agent_principal_id == p.agent_principal_id
                    && s.conversation_id == p.conversation_id && s.binding_id == p.binding_id && s.agent_name
                    == p.agent_name && s.already_imported && r.0 is Done
            } else {
                r.1 matches ImportAction::CheckTakeOver { company_id: c, agent_principal_id: a, binding_id: b }
                    && c == p.company_id && a == p.agent_principal_id && b == p.binding_id && r.0
                    == ImportState::AwaitTakeOverFacts(p)
            },
            (
                ImportState::AwaitTakeOverFacts(p),
                ImportEvent::TakeOverFacts {
                    owner_is_operator,
                    company_deleted,
                    pending_commands,
                    binding_running,
                    turn_in_flight,
                },
            ) => if !(owner_is_operator && company_deleted) {
                r.1 matches ImportAction::Fail(e) && e matches AppError::Conflict(m) && m@
                    == "this native session is already imported into another company"@ && r.0 is Done
            } else if pending_commands > 0 || binding_running || turn_in_flight {
                r.1 matches ImportAction::Fail(e) && e matches AppError::Conflict(m) && m@
                    == "the previous agent has queued or running work; wait for it to finish before importing"@
                    && r.0 is Done
            } else {
                r.1 matches ImportAction::Retire { agent_principal_id: a, binding_id: b } && a == p.agent_principal_id
                    && b == p.binding_id && r.0 is AwaitRetirement
            },
            (ImportState::AwaitRetirement, ImportEvent::Retired) => r.0 is Done && r.1 is ImportFresh,
            _ => false,
        },
{
    match (state, event) {
        (ImportState::AwaitPrevious, ImportEvent::Previous(previous)) => {
            match plan_prior_import(company_id, session, previous) {
                PriorImportPlan::Fresh => (ImportState::Done, ImportAction::ImportFresh),
                PriorImportPlan::Reuse(s) => (ImportState::Done, ImportAction::Answer(s)),
                PriorImportPlan::TakeOver(p) => {
                    let action = ImportAction::CheckTakeOver {
                        company_id: p.company_id.clone(),
                        agent_principal_id: p.agent_principal_id.clone(),
                        binding_id: p.binding_id.clone(),
                    };
                    (ImportState::AwaitTakeOverFacts(p), action)
                },
            }
        },
        (
            ImportState::AwaitTakeOverFacts(p),
            ImportEvent::TakeOverFacts {
                owner_is_operator,
                company_deleted,
                pending_commands,
                binding_running,
                turn_in_flight,
            },
        ) => {
            match check_previous_import(
                owner_is_operator,
                company_deleted,
                pending_commands,
                binding_running,
                turn_in_flight,
            ) {
                Err(e) => (ImportState::Done, ImportAction::Fail(e)),
                Ok(()) => (
                    ImportState::AwaitRetirement,
                    ImportAction::Retire { agent_principal_id: p.agent_principal_id, binding_id: p.binding_id },
                ),
            }
        },
        (_, _) => (ImportState::Done, ImportAction::ImportFresh),
    }
}

/// Member `key` of `m` is the string `s`.
pub open spec fn has_text(m: Seq<(String, JsonValue)>, key: Seq<char>, s: Seq<char>) -> bool {
    match crate::telemetry::member(m, key) {
        Some(v) => crate::runtime_bindings::is_string(v, s),
        None => false,
    }
}

/// Member `key` of `m` is the number written `n`.
pub open spec fn has_number(m: Seq<(String, JsonValue)>, key: Seq<char>, n: Seq<char>) -> bool {
    match crate::telemetry::member(m, key) {
        Some(JsonValue::Number(x)) => x@ == n,
        _ => false,
    }
}

fn text_value(s: &str) -> (v: JsonValue)
    ensures
        crate::runtime_bindings::is_string(v, s@),
{
    JsonValue::Str(owned(s))
}

/// The record of where an imported session came from (members sorted by
/// name); `harness` is the harness's name as it serializes.
pub fn native_session_record(harness: &str, native_session_id: &str, title: &str, workspace: &str, verified_at: &str) -> (r: Vec<(String, JsonValue)>)
    ensures
        r@.len() == 5,
        r@[0].0@ == "harness"@ && crate::runtime_bindings::is_string(r@[0].1, harness@),
        r@[1].0@ == "native_session_id"@ && crate::runtime_bindings::is_string(r@[1].1, native_session_id@),
        r@[2].0@ == "native_title"@ && crate::runtime_bindings::is_string(r@[2].1, title@),
        r@[3].0@ == "verified_at"@ && crate::runtime_bindings::is_string(r@[3].1, verified_at@),
        r@[4].0@ == "workspace_path"@ && crate::runtime_bindings::is_string(r@[4].1, workspace@),
{
    let mut m: Vec<(String, JsonValue)> = Vec::new();
    m.push((owned("harness"), text_value(harness)));
    m.push((owned("native_session_id"), text_value(native_session_id)));
    m.push((owned("native_title"), text_value(title)));
    m.push((owned("verified_at"), text_value(verified_at)));
    m.push((owned("workspace_path"), text_value(workspace)));
    m
}

/// `m[i]` is the member `key` holding the string `s`.
pub open spec fn text_at(m: Seq<(String, JsonValue)>, i: int, key: Seq<char>, s: Seq<char>) -> bool {
    0 <= i < m.len() && m[i].0@ == key && crate::runtime_bindings::is_string(m[i].1, s)
}

/// The terminal-session anchor of an imported Codex session: it proves the
/// copied history belongs to this binding (members sorted by name; the
/// binding generation is `0`).
pub fn codex_import_anchor(
    session_id: &str,
    binding_id: &str,
    conversation_id: &str,
    agent_principal_id: &str,
    company_id: &str,
    workspace_id: &str,
    workspace_path: &str,
    native_home_path: &str,
    native_session_path: &str,
    now: &str,
) -> (r: Vec<(String, JsonValue)>)
    ensures
        r@.len() == 15,
        text_at(r@, 0, "agent_principal_id"@, agent_principal_id@),
        r@[1].0@ == "binding_generation"@ && (r@[1].1 matches JsonValue::Number(n) && n@ == "0"@),
        text_at(r@, 2, "binding_id"@, binding_id@),
        text_at(r@, 3, "captured_at"@, now@),
        text_at(r@, 4, "company_id"@, company_id@),
        text_at(r@, 5, "conversation_id"@, conversation_id@),
        text_at(r@, 6, "driver_type"@, "codex_terminal"@),
        text_at(r@, 7, "last_verified_at"@, now@),
        text_at(r@, 8, "native_home_path"@, native_home_path@),
        text_at(r@, 9, "native_session_path"@, native_session_path@),
        text_at(r@, 10, "provenance"@, "workspace_scan_imported"@),
        text_at(r@, 11, "session_id"@, session_id@),
        text_at(r@, 12, "source"@, "native_cli"@),
        text_at(r@, 13, "workspace_id"@, workspace_id@),
        text_at(r@, 14, "workspace_path"@, workspace_path@),
{
    let mut m: Vec<(String, JsonValue)> = Vec::new();
    m.push((owned("agent_principal_id"), text_value(agent_principal_id)));
    m.push((owned("binding_generation"), JsonValue::Number(owned("0"))));
    m.push((owned("binding_id"), text_value(binding_id)));
    m.push((owned("captured_at"), text_value(now)));
    m.push((owned("company_id"), text_value(company_id)));
    m.push((owned("conversation_id"), text_value(conversation_id)));
    m.push((owned("driver_type"), text_value("codex_terminal")));
    m.push((owned("last_verified_at"), text_value(now)));
    m.push((owned("native_home_path"), text_value(native_home_path)));
    m.push((owned("native_session_path"), text_value(native_session_path)));
    m.push((owned("provenance"), text_value("workspace_scan_imported")));
    m.push((owned("session_id"), text_value(session_id)));
    m.push((owned("source"), text_value("native_cli")));
    m.push((owned("workspace_id"), text_value(workspace_id)));
    m.push((owned("workspace_path"), text_value(workspace_path)));
    m
}

/// What the audit log records of an import (members sorted by name).
pub fn import_audit_metadata(driver_type: &str, runtime_host_id: Option<&str>, workspace: &str) -> (r: Vec<(String, JsonValue)>)
    ensures
        r@.len() == 3,
        text_at(r@, 0, "driver_type"@, driver_type@),
        r@[1].0@ == "runtime_host_id"@ && match runtime_host_id {
            Some(h) => crate::runtime_bindings::is_string(r@[1].1, h@),
            None => r@[1].1 is Null,
        },
        text_at(r@, 2, "workspace_path"@, workspace@),
{
    let mut m: Vec<(String, JsonValue)> = Vec::new();
    m.push((owned("driver_type"), text_value(driver_type)));
    m.push((owned("runtime_host_id"), match runtime_host_id {
        Some(h) => text_value(h),
        None => JsonValue::Null,
    }));
    m.push((owned("workspace_path"), text_value(workspace)));
    m
}

/// The configuration of an imported session's binding: the agent's name
/// and aliases, a terminal transcript, where the session came from, the
/// verified session provenance, and its account and host when it has them.
/// `harness` is the harness's name as it serializes.
pub fn imported_binding_config(
    agent_name: &str,
    harness: &str,
    native_session_id: &str,
    title: &str,
    workspace: &str,
    now: &str,
    driver_type: &str,
    binding_id: &str,
    account: Option<&str>,
    runtime_host_id: Option<&str>,
) -> (r: Vec<(String, JsonValue)>)
    ensures
        r@.len() == 10 + (if account is Some { 2int } else { 0int }) + (if runtime_host_id is Some { 1int } else { 0int }),
        text_at(r@, 0, "agent_name"@, agent_name@),
        text_at(r@, 1, "external_session_binding_id"@, binding_id@),
        text_at(r@, 2, "external_session_captured_at"@, now@),
        text_at(r@, 3, "external_session_driver_type"@, driver_type@),
        text_at(r@, 4, "external_session_mode"@, "terminal"@),
        text_at(r@, 5, "external_session_provenance"@, "workspace_scan_verified"@),
        text_at(r@, 6, "interaction_mode"@, "terminal"@),
        r@[7].0@ == "is_primary"@ && r@[7].1 == JsonValue::Bool(true),
        r@[8].0@ == "mention_aliases"@ && (r@[8].1 matches JsonValue::Array(a) && a@.len() == 1
            && crate::runtime_bindings::is_string(a@[0], agent_name@)),
        r@[9].0@ == "native_session_import"@ && (r@[9].1 matches JsonValue::Object(n) && n@.len() == 5
            && text_at(n@, 0, "harness"@, harness@) && text_at(n@, 1, "native_session_id"@, native_session_id@)
            && text_at(n@, 2, "native_title"@, title@) && text_at(n@, 3, "verified_at"@, now@)
            && text_at(n@, 4, "workspace_path"@, workspace@)),
        match account {
            Some(a) => text_at(r@, 10, "harness_account_id"@, a@) && text_at(r@, 11, "harness_account_profile_kind"@, "isolated"@),
            None => true,
        },
        match runtime_host_id {
            Some(h) => text_at(r@, r@.len() - 1, "runtime_host_id"@, h@),
            None => true,
        },
{
    let mut aliases: Vec<JsonValue> = Vec::new();
    aliases.push(text_value(agent_name));
    let record = native_session_record(harness, native_session_id, title, workspace, now);
    let mut m: Vec<(String, JsonValue)> = Vec::new();
    m.push((owned("agent_name"), text_value(agent_name)));
    m.push((owned("external_session_binding_id"), text_value(binding_id)));
    m.push((owned("external_session_captured_at"), text_value(now)));
    m.push((owned("external_session_driver_type"), text_value(driver_type)));
    m.push((owned("external_session_mode"), text_value("terminal")));
    m.push((owned("external_session_provenance"), text_value("workspace_scan_verified")));
    m.push((owned("interaction_mode"), text_value("terminal")));
    m.push((owned("is_primary"), JsonValue::Bool(true)));
    m.push((owned("mention_aliases"), JsonValue::Array(aliases)));
    m.push((owned("native_session_import"), JsonValue::Object(record)));
    match account {
        Some(a) => {
            m.push((owned("harness_account_id"), text_value(a)));
            m.push((owned("harness_account_profile_kind"), text_value("isolated")));
        },
        None => {},
    }
    match runtime_host_id {
        Some(h) => {
            m.push((owned("runtime_host_id"), text_value(h)));
        },
        None => {},
    }
    m
}

/// An imported Codex session's binding also starts at terminal generation
/// `0` with the anchor of its copied session.
pub fn with_codex_anchor(config: Vec<(String, JsonValue)>, anchor: Vec<(String, JsonValue)>) -> (r: Vec<(String, JsonValue)>)
    ensures
        r@.len() == config@.len() + 2,
        r@.take(config@.len() as int) == config@,
        r@[config@.len() as int].0@ == "terminal_generation"@ && (r@[config@.len() as int].1 matches JsonValue::Number(n)
            && n@ == "0"@),
        r@[config@.len() + 1int].0@ == "terminal_session"@ && r@[config@.len() + 1int].1 == JsonValue::Object(anchor),
{
    let mut m = config;
    let ghost c = m@;
    m.push((owned("terminal_generation"), JsonValue::Number(owned("0"))));
    m.push((owned("terminal_session"), JsonValue::Object(anchor)));
    assert(m@.take(c.len() as int) =~= c);
    m
}

} // verus!
