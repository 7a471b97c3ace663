//! JSON text as the gateway writes it: strings escaped as `serde_json`
//! escapes them, objects with their members in key order.
use vstd::prelude::*;
use crate::remote_control::hex_digit;
use crate::text::{chars_of, decimal, push_char, u64_to_decimal};

verus! {

/// The JSON text of one character inside a string.
pub open spec fn json_char(c: char) -> Seq<char> {
    let u = c as u32;
    if c == '"' {
        seq!['\\', '"']
    } else if c == '\\' {
        seq!['\\', '\\']
    } else if u == 8 {
        seq!['\\', 'b']
    } else if u == 9 {
        seq!['\\', 't']
    } else if u == 10 {
        seq!['\\', 'n']
    } else if u == 12 {
        seq!['\\', 'f']
    } else if u == 13 {
        seq!['\\', 'r']
    } else if u < 0x20 {
        seq!['\\', 'u', '0', '0', hex_digit((u / 16) as int), hex_digit((u % 16) as int)]
    } else {
        seq![c]
    }
}

pub open spec fn json_escaped(s: Seq<char>) -> Seq<char>
    decreases s.len(),
{
    if s.len() == 0 {
        seq![]
    } else {
        json_escaped(s.drop_last()) + json_char(s.last())
    }
}

/// A JSON string literal holding `s`.
pub open spec fn json_string(s: Seq<char>) -> Seq<char> {
    seq!['"'] + json_escaped(s) + seq!['"']
}

/// A JSON integer.
pub open spec fn json_int(n: int) -> Seq<char> {
    if n < 0 {
        seq!['-'] + decimal((-n) as nat)
    } else {
        decimal(n as nat)
    }
}

/// `"key":value`.
pub open spec fn json_member(key: Seq<char>, value: Seq<char>) -> Seq<char> {
    json_string(key) + seq![':'] + value
}

fn hex_digit_exec(v: u32) -> (c: char)
    requires
        v < 16,
    ensures
        c == hex_digit(v as int),
{
    if v < 10 {
        let c = (('0' as u8) + (v as u8)) as char;
        c
    } else {
        let c = (('a' as u8) + (v as u8) - 10) as char;
        c
    }
}

/// Appends the escaped form of `c`.
fn push_json_char(out: &mut String, c: char)
    ensures
        final(out)@ == old(out)@ + json_char(c),
{
    let u = c as u32;
    let ghost start = out@;
    if c == '"' {
        push_char(out, '\\');
        push_char(out, '"');
    } else if c == '\\' {
        push_char(out, '\\');
        push_char(out, '\\');
    } else if u == 8 {
        push_char(out, '\\');
        push_char(out, 'b');
    } else if u == 9 {
        push_char(out, '\\');
        push_char(out, 't');
    } else if u == 10 {
        push_char(out, '\\');
        push_char(out, 'n');
    } else if u == 12 {
        push_char(out, '\\');
        push_char(out, 'f');
    } else if u == 13 {
        push_char(out, '\\');
        push_char(out, 'r');
    } else if u < 0x20 {
        push_char(out, '\\');
        push_char(out, 'u');
        push_char(out, '0');
        push_char(out, '0');
        push_char(out, hex_digit_exec(u / 16));
        push_char(out, hex_digit_exec(u % 16));
    } else {
        push_char(out, c);
    }
    assert(out@ =~= start + json_char(c));
}

/// Appends `s` as a JSON string literal.
pub fn push_json_string(out: &mut String, s: &str)
    ensures
        final(out)@ == old(out)@ + json_string(s@),
{
    let v = chars_of(s);
    let ghost start = out@;
    push_char(out, '"');
    let mut i: usize = 0;
    while i < v.len()
        invariant
            i <= v@.len(),
            out@ == start + seq!['"'] + json_escaped(v@.take(i as int)),
        decreases v.len() - i,
    {
        assert(v@.take(i + 1).drop_last() =~= v@.take(i as int));
        push_json_char(out, v[i]);
        assert(out@ =~= start + seq!['"'] + json_escaped(v@.take(i + 1)));
        i = i + 1;
    }
    assert(v@.take(v@.len() as int) =~= v@);
    push_char(out, '"');
    assert(out@ =~= start + json_string(s@));
}

/// Appends `n` as a JSON integer.
pub fn push_json_int(out: &mut String, n: i64)
    ensures
        final(out)@ == old(out)@ + json_int(n as int),
{
    if n < 0 {
        push_char(out, '-');
        let m: u64 = (0i128 - (n as i128)) as u64;
        let d = u64_to_decimal(m);
        out.append(d.as_str());
    } else {
        let d = u64_to_decimal(n as u64);
        out.append(d.as_str());
    }
}

/// Appends `"key":` to an object being written.
pub fn push_json_key(out: &mut String, key: &str)
    ensures
        final(out)@ == old(out)@ + json_string(key@) + seq![':'],
{
    push_json_string(out, key);
    push_char(out, ':');
}

} // verus!
