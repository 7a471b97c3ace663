//! Which paths the file browser and editor may touch, and which files it shows as text.
use vstd::prelude::*;
use crate::redaction::AppError;
use vstd::utf8::{decode_utf8, valid_utf8};
use crate::text::{
    chars_eq, chars_eq_str, chars_of, decimal, owned, split_on, split_on_exec, string_from_utf8,
    u64_to_decimal,
};

verus! {

/// Largest file the editor reads or writes, in bytes (1 MiB).
pub const MAX_READ_SIZE: u64 = 1048576;

/// Bytes inspected for a NUL when deciding that a file is binary.
pub const BINARY_SNIFF_BYTES: usize = 8192;

/// Does a NUL byte occur among the first 8 KiB?
pub open spec fn binary_content(buf: Seq<u8>) -> bool {
    exists|i: int| 0 <= i < buf.len() && i < BINARY_SNIFF_BYTES && buf[i] == 0
}

/// Treats content as binary when its first 8 KiB hold a NUL byte.
pub fn looks_binary(buf: &[u8]) -> (r: bool)
    ensures
        r == binary_content(buf@),
{
    let check_len = if buf.len() < BINARY_SNIFF_BYTES {
        buf.len()
    } else {
        BINARY_SNIFF_BYTES
    };
    let mut i: usize = 0;
    while i < check_len
        invariant
            i <= check_len,
            check_len <= buf.len(),
            check_len == buf.len() || check_len == BINARY_SNIFF_BYTES,
            check_len <= BINARY_SNIFF_BYTES,
            forall|j: int| 0 <= j < i ==> buf@[j] != 0,
        decreases check_len - i,
    {
        if buf[i] == 0 {
            return true;
        }
        i = i + 1;
    }
    false
}

/// A segment that names a component: not empty and not `.`.
pub open spec fn kept_segment(s: Seq<char>) -> bool {
    s.len() > 0 && s != "."@
}

pub open spec fn kept_segments(segs: Seq<Seq<char>>) -> Seq<Seq<char>>
    decreases segs.len(),
{
    if segs.len() == 0 {
        seq![]
    } else {
        let r = kept_segments(segs.drop_last());
        if kept_segment(segs.last()) {
            r.push(segs.last())
        } else {
            r
        }
    }
}

/// The components of a Unix path, as `Path::components` yields them: a
/// leading `/` (the root) or a leading `.` (the current directory), then
/// every non-empty segment other than `.`; repeated and trailing separators
/// produce nothing.
pub open spec fn path_components(p: Seq<char>) -> Seq<Seq<char>> {
    let head = if p.len() > 0 && p[0] == '/' {
        seq!["/"@]
    } else if p.len() > 0 && p[0] == '.' && (p.len() == 1 || p[1] == '/') {
        seq!["."@]
    } else {
        seq![]
    };
    head + kept_segments(split_on(p, '/'))
}

/// `Path::starts_with`: the components of `base` begin those of `p`.
pub open spec fn path_starts_with(p: Seq<char>, base: Seq<char>) -> bool {
    let a = path_components(p);
    let b = path_components(base);
    b.len() <= a.len() && a.take(b.len() as int) == b
}

fn components_exec(p: &str) -> (r: Vec<Vec<char>>)
    ensures
        r@.len() == path_components(p@).len(),
        forall|k: int| 0 <= k < r@.len() ==> #[trigger] r@[k]@ == path_components(p@)[k],
{
    let v = chars_of(p);
    let segs = split_on_exec(v.as_slice(), '/');
    let ghost sv = split_on(p@, '/');
    let mut r: Vec<Vec<char>> = Vec::new();
    let ghost head: Seq<Seq<char>> = seq![];
    if v.len() > 0 && v[0] == '/' {
        r.push(chars_of("/"));
        proof {
            head = seq!["/"@];
        }
    } else if v.len() > 0 && v[0] == '.' && (v.len() == 1 || v[1] == '/') {
        r.push(chars_of("."));
        proof {
            head = seq!["."@];
        }
    }
    assert(sv.take(0) =~= Seq::<Seq<char>>::empty());
    let mut i: usize = 0;
    while i < segs.len()
        invariant
            i <= segs@.len(),
            segs@.len() == sv.len(),
            forall|k: int| 0 <= k < segs@.len() ==> #[trigger] segs@[k]@ == sv[k],
            r@.len() == head.len() + kept_segments(sv.take(i as int)).len(),
            forall|k: int| 0 <= k < r@.len() ==> #[trigger] r@[k]@ == (head + kept_segments(sv.take(i as int)))[k],
            head + kept_segments(sv) == path_components(p@),
        decreases segs.len() - i,
    {
        assert(sv.take(i + 1).drop_last() =~= sv.take(i as int));
        assert(sv.take(i + 1).last() == sv[i as int]);
        let s = &segs[i];
        if s.len() > 0 && !chars_eq_str(s.as_slice(), ".") {
            let c = s.clone();
            r.push(c);
            assert(head + kept_segments(sv.take(i + 1)) =~= (head + kept_segments(sv.take(i as int))).push(sv[i as int]));
        }
        i = i + 1;
    }
    assert(sv.take(segs@.len() as int) =~= sv);
    r
}

/// Is `path` at or below `base`, component by component?
pub fn path_starts_with_exec(path: &str, base: &str) -> (r: bool)
    ensures
        r == path_starts_with(path@, base@),
{
    let a = components_exec(path);
    let b = components_exec(base);
    if b.len() > a.len() {
        return false;
    }
    let mut i: usize = 0;
    while i < b.len()
        invariant
            i <= b@.len() <= a@.len(),
            a@.len() == path_components(path@).len(),
            b@.len() == path_components(base@).len(),
            forall|k: int| 0 <= k < a@.len() ==> #[trigger] a@[k]@ == path_components(path@)[k],
            forall|k: int| 0 <= k < b@.len() ==> #[trigger] b@[k]@ == path_components(base@)[k],
            forall|k: int| 0 <= k < i ==> path_components(path@)[k] == path_components(base@)[k],
        decreases b.len() - i,
    {
        if !chars_eq(a[i].as_slice(), b[i].as_slice()) {
            assert(path_components(path@).take(b@.len() as int)[i as int] != path_components(base@)[i as int]);
            return false;
        }
        i = i + 1;
    }
    assert(path_components(path@).take(b@.len() as int) =~= path_components(base@));
    true
}

/// Is `path` inside one of `roots`?
pub open spec fn within_roots(path: Seq<char>, roots: Seq<String>) -> bool {
    exists|i: int| 0 <= i < roots.len() && path_starts_with(path, #[trigger] roots[i]@)
}

/// Is `path` at or below one of the browse roots?
pub fn path_is_within_roots(path: &str, roots: &[String]) -> (r: bool)
    ensures
        r == within_roots(path@, roots@),
{
    let mut i: usize = 0;
    while i < roots.len()
        invariant
            i <= roots@.len(),
            forall|j: int| 0 <= j < i ==> !path_starts_with(path@, #[trigger] roots@[j]@),
        decreases roots.len() - i,
    {
        if path_starts_with_exec(path, roots[i].as_str()) {
            return true;
        }
        i = i + 1;
    }
    false
}

/// Refuses a path outside every browse root.
pub fn validate_path_whitelist(path: &str, roots: &[String]) -> (r: Result<(), AppError>)
    ensures
        r is Ok <==> within_roots(path@, roots@),
        r matches Err(e) ==> e matches AppError::Forbidden(m) && m@ == "path "@ + path@
            + " is outside allowed browse roots"@,
{
    if path_is_within_roots(path, roots) {
        Ok(())
    } else {
        let mut m = owned("path ");
        m.append(path);
        m.append(" is outside allowed browse roots");
        Err(AppError::Forbidden(m))
    }
}

/// The home directory paths are confined to: `HOME`, or `/` when it is unset.
pub open spec fn home_or_root(home: Option<Seq<char>>) -> Seq<char> {
    match home {
        Some(h) => h,
        None => "/"@,
    }
}

/// Refuses a path outside the home directory (`/` when `HOME` is unset).
pub fn validate_path_under_home(path: &str, home: Option<&str>) -> (r: Result<(), AppError>)
    ensures
        r is Ok <==> path_starts_with(
            path@,
            home_or_root(
                match home {
                    Some(h) => Some(h@),
                    None => None,
                },
            ),
        ),
        r matches Err(e) ==> e matches AppError::Forbidden(m) && m@ == "path "@ + path@
            + " is outside HOME directory"@,
{
    let inside = match home {
        Some(h) => path_starts_with_exec(path, h),
        None => path_starts_with_exec(path, "/"),
    };
    if inside {
        Ok(())
    } else {
        let mut m = owned("path ");
        m.append(path);
        m.append(" is outside HOME directory");
        Err(AppError::Forbidden(m))
    }
}

/// Before reading: only regular files of at most `MAX_READ_SIZE` bytes.
pub fn check_editable_metadata(is_file: bool, size: u64) -> (r: Result<(), AppError>)
    ensures
        r is Ok <==> (is_file && size <= MAX_READ_SIZE),
        !is_file ==> (r matches Err(e) && e matches AppError::Validation(m) && m@
            == "path is not a file"@),
        is_file && size > MAX_READ_SIZE ==> (r matches Err(e) && e matches AppError::Validation(m)
            && m@ == "file too large ("@ + decimal(size as nat) + " bytes, max "@ + decimal(
            MAX_READ_SIZE as nat,
        ) + ")"@),
{
    if !is_file {
        return Err(AppError::Validation(owned("path is not a file")));
    }
    if size > MAX_READ_SIZE {
        let mut m = owned("file too large (");
        let n = u64_to_decimal(size);
        m.append(n.as_str());
        m.append(" bytes, max ");
        let cap = u64_to_decimal(MAX_READ_SIZE);
        m.append(cap.as_str());
        m.append(")");
        return Err(AppError::Validation(m));
    }
    Ok(())
}

/// What the editor shows of a file's bytes: the text, or why it cannot.
pub open spec fn editable_outcome(bytes: Seq<u8>) -> Result<Seq<char>, Seq<char>> {
    if bytes.len() > MAX_READ_SIZE {
        Err("file too large"@)
    } else if binary_content(bytes) {
        Err("binary file, cannot display"@)
    } else {
        if valid_utf8(bytes) {
            Ok(decode_utf8(bytes))
        } else {
            Err("binary file, cannot display"@)
        }
    }
}

/// The text of a file read for editing; refused when too large, binary or not UTF-8.
pub fn editable_content(bytes: Vec<u8>) -> (r: Result<String, AppError>)
    ensures
        match editable_outcome(bytes@) {
            Ok(t) => r matches Ok(s) && s@ == t,
            Err(m) => r matches Err(e) && e matches AppError::Validation(x) && x@ == m,
        },
{
    if bytes.len() as u64 > MAX_READ_SIZE {
        return Err(AppError::Validation(owned("file too large")));
    }
    if looks_binary(bytes.as_slice()) {
        return Err(AppError::Validation(owned("binary file, cannot display")));
    }
    match string_from_utf8(bytes) {
        Some(s) => Ok(s),
        None => Err(AppError::Validation(owned("binary file, cannot display"))),
    }
}

/// A save is refused when either the draft or the text it was based on is too large.
pub fn check_write_sizes(content_bytes: usize, original_bytes: usize) -> (r: Result<(), AppError>)
    ensures
        r is Ok <==> (content_bytes <= MAX_READ_SIZE && original_bytes <= MAX_READ_SIZE),
        r matches Err(e) ==> e matches AppError::Validation(m) && m@ == "file too large"@,
{
    if content_bytes as u64 > MAX_READ_SIZE || original_bytes as u64 > MAX_READ_SIZE {
        return Err(AppError::Validation(owned("file too large")));
    }
    Ok(())
}

/// The kind reported for an existing path.
pub fn entry_type(is_dir: bool, is_file: bool) -> (r: &'static str)
    ensures
        r@ == (if is_dir {
            "directory"@
        } else if is_file {
            "file"@
        } else {
            "other"@
        }),
{
    if is_dir {
        "directory"
    } else if is_file {
        "file"
    } else {
        "other"
    }
}


/// Content is binary exactly when a NUL byte occurs at an offset below 8192
/// (8 KiB): a NUL at any such offset makes it binary, wherever in those
/// 8 KiB it is, and bytes from offset 8192 on never matter.
pub proof fn law_a_nul_in_the_first_8_kib_means_binary(buf: Seq<u8>, i: int)
    ensures
        0 <= i < buf.len() && i < 8192 && buf[i] == 0 ==> binary_content(buf),
        (forall|j: int| 0 <= j < buf.len() && j < 8192 ==> buf[j] != 0) ==> !binary_content(buf),
        binary_content(buf) == binary_content(buf.take(if buf.len() < 8192 { buf.len() as int } else { 8192 })),
{
    let k = if buf.len() < 8192 { buf.len() as int } else { 8192 };
    let t = buf.take(k);
    if binary_content(buf) {
        let j = choose|j: int| 0 <= j < buf.len() && j < BINARY_SNIFF_BYTES && buf[j] == 0;
        assert(t[j] == buf[j]);
    }
    if binary_content(t) {
        let j = choose|j: int| 0 <= j < t.len() && j < BINARY_SNIFF_BYTES && t[j] == 0;
        assert(t[j] == buf[j]);
    }
}
} // verus!
