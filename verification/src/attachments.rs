//! Checks applied to an uploaded attachment before it is stored: the
//! request's fields, the decoded payload and the content type it is kept as.
use vstd::prelude::*;
use base64::Engine;
use crate::redaction::AppError;
use crate::cron::UtcInstant;
use crate::text::{
    chars_eq_str, chars_of, decimal, has_char, has_char_exec, index_of, lower, lower_chars, owned,
    starts_with, starts_with_exec, sub_chars, trim, trim_bounds, trim_chars, u64_to_decimal,
    find_char_from, lemma_index_of, lemma_index_of_is,
};

verus! {

/// Largest attachment accepted, in bytes (25 MiB).
pub const MAX_ATTACHMENT_BYTES: usize = 26214400;

/// An upload as received from a client.
#[derive(Debug, Clone)]
pub struct UploadAttachmentRequest {
    pub actor_id: String,
    pub filename: String,
    pub content_type: String,
    pub data_base64: String,
}

/// What is kept of an accepted upload: its bytes and the type they are served as.
#[derive(Debug, Clone)]
pub struct PreparedAttachment {
    pub bytes: Vec<u8>,
    pub content_type: String,
}

/// Text before the first `c` (all of `s` when there is none), as `split(c).next()`.
pub open spec fn first_field(s: Seq<char>, c: char) -> Seq<char> {
    match index_of(s, c) {
        Some(i) => s.take(i as int),
        None => s,
    }
}

/// Position of the last `c` in `s`.
pub open spec fn last_index_of(s: Seq<char>, c: char) -> Option<nat>
    decreases s.len(),
{
    if s.len() == 0 {
        None
    } else if s.last() == c {
        Some((s.len() - 1) as nat)
    } else {
        last_index_of(s.drop_last(), c)
    }
}

/// Text after the last `c` (all of `s` when there is none), as `rsplit(c).next()`.
pub open spec fn last_field(s: Seq<char>, c: char) -> Seq<char> {
    match last_index_of(s, c) {
        Some(i) => s.skip(i + 1 as int),
        None => s,
    }
}

proof fn lemma_last_index_of(s: Seq<char>, c: char)
    ensures
        match last_index_of(s, c) {
            Some(i) => i < s.len() && s[i as int] == c && forall|j: int|
                i < j < s.len() ==> s[j] != c,
            None => forall|j: int| 0 <= j < s.len() ==> s[j] != c,
        },
    decreases s.len(),
{
    if s.len() > 0 && s.last() != c {
        lemma_last_index_of(s.drop_last(), c);
        assert forall|j: int| 0 <= j < s.len() - 1 implies s[j] == s.drop_last()[j] by {}
    }
}

proof fn lemma_last_index_of_is(s: Seq<char>, c: char, k: int)
    requires
        0 <= k < s.len(),
        s[k] == c,
        forall|j: int| k < j < s.len() ==> s[j] != c,
    ensures
        last_index_of(s, c) == Some(k as nat),
    decreases s.len(),
{
    if s.last() != c {
        lemma_last_index_of_is(s.drop_last(), c, k);
    }
}

fn first_field_exec(v: &[char], c: char) -> (r: Vec<char>)
    ensures
        r@ == first_field(v@, c),
{
    let k = find_char_from(v, c, 0);
    proof {
        lemma_index_of(v@, c);
        if k < v.len() {
            lemma_index_of_is(v@, c, k as int);
        }
    }
    let r = sub_chars(v, 0, k);
    proof {
        if k == v.len() {
            assert(r@ =~= v@);
        }
    }
    r
}

fn last_field_exec(v: &[char], c: char) -> (r: Vec<char>)
    ensures
        r@ == last_field(v@, c),
{
    let mut i: usize = v.len();
    while i > 0
        invariant
            i <= v.len(),
            forall|j: int| i <= j < v.len() ==> v@[j] != c,
        decreases i,
    {
        if v[i - 1] == c {
            proof {
                lemma_last_index_of_is(v@, c, i - 1);
            }
            let r = sub_chars(v, i, v.len());
            assert(r@ =~= v@.skip(i as int));
            return r;
        }
        i = i - 1;
    }
    proof {
        lemma_last_index_of(v@, c);
    }
    let r = sub_chars(v, 0, v.len());
    assert(r@ =~= v@);
    r
}

/// File extensions stored as plain text whatever type the browser claimed.
pub open spec fn source_extension(e: Seq<char>) -> bool {
    e == "c"@ || e == "cc"@ || e == "cpp"@ || e == "cs"@ || e == "css"@ || e == "go"@ || e == "h"@
        || e == "hpp"@ || e == "java"@ || e == "js"@ || e == "jsx"@ || e == "kt"@ || e == "kts"@
        || e == "lua"@ || e == "m"@ || e == "md"@ || e == "php"@ || e == "pl"@ || e == "pm"@
        || e == "py"@ || e == "r"@ || e == "rb"@ || e == "rs"@ || e == "sh"@ || e == "sql"@
        || e == "swift"@ || e == "toml"@ || e == "ts"@ || e == "tsx"@ || e == "vue"@ || e
        == "yaml"@ || e == "yml"@ || e == "zsh"@
}

/// The file has an extension (text after its last `.`) that, case-folded,
/// names source code; a name without a `.` has no extension.
pub open spec fn source_file(filename: Seq<char>) -> bool {
    has_char(filename, '.') && source_extension(lower(last_field(filename, '.')))
}

fn source_extension_exec(e: &[char]) -> (r: bool)
    ensures
        r == source_extension(e@),
{
    chars_eq_str(e, "c") || chars_eq_str(e, "cc") || chars_eq_str(e, "cpp") || chars_eq_str(e, "cs")
        || chars_eq_str(e, "css") || chars_eq_str(e, "go") || chars_eq_str(e, "h") || chars_eq_str(
        e,
        "hpp",
    ) || chars_eq_str(e, "java") || chars_eq_str(e, "js") || chars_eq_str(e, "jsx")
        || chars_eq_str(e, "kt") || chars_eq_str(e, "kts") || chars_eq_str(e, "lua")
        || chars_eq_str(e, "m") || chars_eq_str(e, "md") || chars_eq_str(e, "php") || chars_eq_str(
        e,
        "pl",
    ) || chars_eq_str(e, "pm") || chars_eq_str(e, "py") || chars_eq_str(e, "r") || chars_eq_str(
        e,
        "rb",
    ) || chars_eq_str(e, "rs") || chars_eq_str(e, "sh") || chars_eq_str(e, "sql")
        || chars_eq_str(e, "swift") || chars_eq_str(e, "toml") || chars_eq_str(e, "ts")
        || chars_eq_str(e, "tsx") || chars_eq_str(e, "vue") || chars_eq_str(e, "yaml")
        || chars_eq_str(e, "yml") || chars_eq_str(e, "zsh")
}

/// Is `filename` source code by its extension?
pub fn is_source_file(filename: &str) -> (r: bool)
    ensures
        r == source_file(filename@),
{
    let v = chars_of(filename);
    if !has_char_exec(v.as_slice(), '.') {
        return false;
    }
    let ext = last_field_exec(v.as_slice(), '.');
    let l = lower_chars(ext.as_slice());
    source_extension_exec(l.as_slice())
}

/// The media type proper of a `Content-Type` value: before any `;`,
/// trimmed and case-folded.
pub open spec fn mime_essence(mime: Seq<char>) -> Seq<char> {
    lower(trim(first_field(mime, ';')))
}

/// Media types accepted for storage.
pub open spec fn allowed_mime(m: Seq<char>) -> bool {
    starts_with(m, "image/"@) || starts_with(m, "video/"@) || starts_with(m, "audio/"@) || m
        == "application/pdf"@ || m == "application/zip"@ || m == "application/x-tar"@ || m
        == "application/gzip"@ || m == "application/octet-stream"@ || m == "text/plain"@ || m
        == "text/markdown"@ || m == "text/csv"@
}

/// May a payload of type `mime` be stored?
pub fn mime_allowed(mime: &str) -> (r: bool)
    ensures
        r == allowed_mime(mime_essence(mime@)),
{
    let v = chars_of(mime);
    let f = first_field_exec(v.as_slice(), ';');
    let t = trim_chars(f.as_slice());
    let m = lower_chars(t.as_slice());
    let ms = m.as_slice();
    let image = chars_of("image/");
    let video = chars_of("video/");
    let audio = chars_of("audio/");
    starts_with_exec(ms, image.as_slice()) || starts_with_exec(ms, video.as_slice())
        || starts_with_exec(ms, audio.as_slice()) || chars_eq_str(ms, "application/pdf")
        || chars_eq_str(ms, "application/zip") || chars_eq_str(ms, "application/x-tar")
        || chars_eq_str(ms, "application/gzip") || chars_eq_str(ms, "application/octet-stream")
        || chars_eq_str(ms, "text/plain") || chars_eq_str(ms, "text/markdown") || chars_eq_str(
        ms,
        "text/csv",
    )
}

/// The refusal of an upload's fields, checked before its payload is decoded.
pub open spec fn upload_field_error(filename: Seq<char>, content_type: Seq<char>) -> Option<Seq<char>> {
    if trim(filename).len() == 0 {
        Some("filename is required"@)
    } else if trim(content_type).len() == 0 {
        Some("content_type is required"@)
    } else if has_char(filename, '/') || has_char(filename, '\\') {
        Some("filename must not contain path separators"@)
    } else {
        None
    }
}

/// Refuses an upload whose name or declared type is missing, or whose name is a path.
pub fn check_upload_fields(upload: &UploadAttachmentRequest) -> (r: Result<(), AppError>)
    ensures
        match upload_field_error(upload.filename@, upload.content_type@) {
            None => r is Ok,
            Some(m) => r matches Err(e) && e matches AppError::Validation(x) && x@ == m,
        },
{
    let f = chars_of(upload.filename.as_str());
    let (a, b) = trim_bounds(f.as_slice());
    if a == b {
        return Err(AppError::Validation(owned("filename is required")));
    }
    let c = chars_of(upload.content_type.as_str());
    let (a, b) = trim_bounds(c.as_slice());
    if a == b {
        return Err(AppError::Validation(owned("content_type is required")));
    }
    if has_char_exec(f.as_slice(), '/') || has_char_exec(f.as_slice(), '\\') {
        return Err(AppError::Validation(owned("filename must not contain path separators")));
    }
    Ok(())
}

/// What standard (padded) base64 decoding gives for `text`: the bytes, or the decoder's message.
pub uninterp spec fn standard_base64(text: Seq<char>) -> Result<Seq<u8>, Seq<char>>;

/// `base64::engine::general_purpose::STANDARD.decode`: the result is named
/// `standard_base64` of the input text; an error is kept as its message.
#[verifier::external_body]
fn decode_standard_base64(text: &str) -> (r: Result<Vec<u8>, String>)
    ensures
        match r {
            Ok(b) => standard_base64(text@) == Ok::<Seq<u8>, Seq<char>>(b@),
            Err(m) => standard_base64(text@) == Err::<Seq<u8>, Seq<char>>(m@),
        },
{
    match base64::engine::general_purpose::STANDARD.decode(text.as_bytes()) {
        Ok(b) => Ok(b),
        Err(e) => Err(e.to_string()),
    }
}

/// The media type that `infer` recognises from the leading bytes, if any.
pub uninterp spec fn detected_mime(bytes: Seq<u8>) -> Option<Seq<char>>;

/// `infer::get(..).map(|t| t.mime_type())`: named `detected_mime` of the bytes.
#[verifier::external_body]
fn infer_mime_type(bytes: &[u8]) -> (r: Option<String>)
    ensures
        match r {
            Some(m) => detected_mime(bytes@) == Some(m@),
            None => detected_mime(bytes@) is None,
        },
{
    match infer::get(bytes) {
        Some(t) => Some(t.mime_type().to_string()),
        None => None,
    }
}

/// The refusal of a decoded payload: undecodable, too large or empty.
pub open spec fn payload_error(decoded: Result<Seq<u8>, Seq<char>>) -> Option<Seq<char>> {
    match decoded {
        Err(m) => Some("invalid attachment payload: "@ + m),
        Ok(b) => if b.len() > MAX_ATTACHMENT_BYTES {
            Some(
                "attachment exceeds "@ + decimal(MAX_ATTACHMENT_BYTES as nat) + " bytes (got "@
                    + decimal(b.len()) + ")"@,
            )
        } else if b.len() == 0 {
            Some("attachment is empty"@)
        } else {
            None
        },
    }
}

/// Accepts a decoded payload of 1 to `MAX_ATTACHMENT_BYTES` bytes.
pub fn check_payload(decoded: Result<Vec<u8>, String>) -> (r: Result<Vec<u8>, AppError>)
    ensures
        ({
            let d = match decoded {
                Ok(b) => Ok::<Seq<u8>, Seq<char>>(b@),
                Err(m) => Err::<Seq<u8>, Seq<char>>(m@),
            };
            match payload_error(d) {
                None => r matches Ok(b) && d == Ok::<Seq<u8>, Seq<char>>(b@),
                Some(m) => r matches Err(e) && e matches AppError::Validation(x) && x@ == m,
            }
        }),
{
    match decoded {
        Err(m) => {
            let mut x = owned("invalid attachment payload: ");
            x.append(m.as_str());
            Err(AppError::Validation(x))
        },
        Ok(b) => {
            if b.len() > MAX_ATTACHMENT_BYTES {
                let mut x = owned("attachment exceeds ");
                let cap = u64_to_decimal(MAX_ATTACHMENT_BYTES as u64);
                x.append(cap.as_str());
                x.append(" bytes (got ");
                let got = u64_to_decimal(b.len() as u64);
                x.append(got.as_str());
                x.append(")");
                return Err(AppError::Validation(x));
            }
            if b.len() == 0 {
                return Err(AppError::Validation(owned("attachment is empty")));
            }
            Ok(b)
        },
    }
}

/// The type an accepted payload is stored as: what its bytes show, else
/// plain text for source code, else the declared type without parameters.
pub open spec fn effective_mime(filename: Seq<char>, content_type: Seq<char>, detected: Option<Seq<char>>) -> Seq<char> {
    match detected {
        Some(d) => d,
        None => if source_file(filename) {
            "text/plain"@
        } else {
            trim(first_field(content_type, ';'))
        },
    }
}

pub open spec fn content_type_outcome(filename: Seq<char>, content_type: Seq<char>, detected: Option<Seq<char>>) -> Result<Seq<char>, Seq<char>> {
    let m = effective_mime(filename, content_type, detected);
    if allowed_mime(mime_essence(m)) {
        Ok(m)
    } else {
        Err("content_type "@ + m + " is not allowed"@)
    }
}

/// The stored type of an upload given what its bytes were recognised as;
/// refused unless it is on the allowlist.
pub fn effective_content_type(upload: &UploadAttachmentRequest, detected: Option<String>) -> (r: Result<String, AppError>)
    ensures
        ({
            let d = match detected {
                Some(m) => Some(m@),
                None => None,
            };
            match content_type_outcome(upload.filename@, upload.content_type@, d) {
                Ok(m) => r matches Ok(x) && x@ == m,
                Err(m) => r matches Err(e) && e matches AppError::Validation(x) && x@ == m,
            }
        }),
{
    let eff = match detected {
        Some(d) => d,
        None => {
            if is_source_file(upload.filename.as_str()) {
                owned("text/plain")
            } else {
                let c = chars_of(upload.content_type.as_str());
                let f = first_field_exec(c.as_slice(), ';');
                let t = trim_chars(f.as_slice());
                crate::text::string_from_chars(t.as_slice())
            }
        },
    };
    if !mime_allowed(eff.as_str()) {
        let mut x = owned("content_type ");
        x.append(eff.as_str());
        x.append(" is not allowed");
        return Err(AppError::Validation(x));
    }
    Ok(eff)
}

/// Everything `put` decides before storing: the upload is accepted with its
/// decoded bytes and stored type, or refused with the first failed check.
pub open spec fn prepared_outcome(filename: Seq<char>, content_type: Seq<char>, data: Seq<char>) -> Result<(Seq<u8>, Seq<char>), Seq<char>> {
    match upload_field_error(filename, content_type) {
        Some(m) => Err(m),
        None => match payload_error(standard_base64(data)) {
            Some(m) => Err(m),
            None => {
                let bytes = standard_base64(data)->Ok_0;
                match content_type_outcome(filename, content_type, detected_mime(bytes)) {
                    Ok(m) => Ok((bytes, m)),
                    Err(m) => Err(m),
                }
            },
        },
    }
}

/// Checks an upload and decodes its payload; every refusal is a validation error.
pub fn prepare_attachment(upload: &UploadAttachmentRequest) -> (r: Result<PreparedAttachment, AppError>)
    ensures
        match prepared_outcome(upload.filename@, upload.content_type@, upload.data_base64@) {
            Ok((bytes, mime)) => r matches Ok(p) && p.bytes@ == bytes && p.content_type@ == mime,
            Err(m) => r matches Err(e) && e matches AppError::Validation(x) && x@ == m,
        },
{
    check_upload_fields(upload)?;
    let decoded = decode_standard_base64(upload.data_base64.as_str());
    let bytes = check_payload(decoded)?;
    let detected = infer_mime_type(bytes.as_slice());
    let content_type = effective_content_type(upload, detected)?;
    Ok(PreparedAttachment { bytes, content_type })
}

/// Where a stored attachment is downloaded from.
pub fn download_path(id: &str) -> (r: String)
    ensures
        r@ == "/v1/attachments/"@ + id@,
{
    let mut r = owned("/v1/attachments/");
    r.append(id);
    r
}

/// What is stored and answered for an accepted attachment.
#[derive(Debug, Clone)]
pub struct AttachmentRecord {
    pub id: String,
    pub workspace_id: String,
    pub owner_id: String,
    pub filename: String,
    pub content_type: String,
    pub size_bytes: usize,
    pub download_path: String,
    pub created_at: UtcInstant,
}

/// The record of an accepted upload under the new id `id`: it belongs to
/// the uploader's workspace and to the uploader, keeps the upload's file
/// name, and takes the type and size of the prepared bytes.
pub fn attachment_record(
    id: &str,
    workspace_id: &str,
    owner_id: &str,
    upload: UploadAttachmentRequest,
    prepared: &PreparedAttachment,
    created_at: UtcInstant,
) -> (r: AttachmentRecord)
    ensures
        r.id@ == id@,
        r.workspace_id@ == workspace_id@,
        r.owner_id@ == owner_id@,
        r.filename == upload.filename,
        r.content_type@ == prepared.content_type@,
        r.size_bytes == prepared.bytes@.len(),
        r.download_path@ == "/v1/attachments/"@ + id@,
        r.created_at == created_at,
{
    AttachmentRecord {
        id: owned(id),
        workspace_id: owned(workspace_id),
        owner_id: owned(owner_id),
        filename: upload.filename,
        content_type: owned(prepared.content_type.as_str()),
        size_bytes: prepared.bytes.len(),
        download_path: download_path(id),
        created_at,
    }
}

/// Reading an attachment: its owner always may, anyone else only as a
/// member of a conversation that references it.
pub fn check_attachment_read(owner_id: &str, principal_id: &str, shares_conversation: bool) -> (r: Result<(), AppError>)
    ensures
        r is Ok <==> (owner_id@ == principal_id@ || shares_conversation),
        r matches Err(e) ==> e matches AppError::Forbidden(m) && m@ == "attachment access denied"@,
{
    let a = chars_of(owner_id);
    let b = chars_of(principal_id);
    if crate::text::chars_eq(a.as_slice(), b.as_slice()) || shares_conversation {
        Ok(())
    } else {
        Err(AppError::Forbidden(owned("attachment access denied")))
    }
}

/// Deleting an attachment: only its owner may, and only while no message references it.
pub fn check_attachment_delete(owner_id: &str, principal_id: &str, referenced: bool) -> (r: Result<(), AppError>)
    ensures
        r is Ok <==> (owner_id@ == principal_id@ && !referenced),
        owner_id@ != principal_id@ ==> (r matches Err(e) && e matches AppError::Forbidden(m) && m@
            == "attachment delete denied"@),
        owner_id@ == principal_id@ && referenced ==> (r matches Err(e) && e matches AppError::Conflict(
            m,
        ) && m@ == "attachment is already referenced by a message"@),
{
    let a = chars_of(owner_id);
    let b = chars_of(principal_id);
    if !crate::text::chars_eq(a.as_slice(), b.as_slice()) {
        return Err(AppError::Forbidden(owned("attachment delete denied")));
    }
    if referenced {
        return Err(AppError::Conflict(owned("attachment is already referenced by a message")));
    }
    Ok(())
}


/// The uploads that are stored are exactly those whose media type (before
/// any `;`, trimmed, in any letter case) is an image, video or audio type,
/// or one of PDF, ZIP, tar, gzip, raw bytes, plain text, Markdown or CSV;
/// anything else (HTML, JavaScript, ...) is refused.
pub proof fn law_stored_media_types(mime: Seq<char>)
    ensures
        allowed_mime(mime_essence(mime)) <==> {
            let e = mime_essence(mime);
            ||| starts_with(e, "image/"@)
            ||| starts_with(e, "video/"@)
            ||| starts_with(e, "audio/"@)
            ||| e == "application/pdf"@
            ||| e == "application/zip"@
            ||| e == "application/x-tar"@
            ||| e == "application/gzip"@
            ||| e == "application/octet-stream"@
            ||| e == "text/plain"@
            ||| e == "text/markdown"@
            ||| e == "text/csv"@
        },
{
}

/// A file counts as source code exactly when its name has a `.` and the
/// text after the last `.`, in any letter case, is one of the listed
/// source extensions; a name without a `.` (such as `py`) has no extension.
pub proof fn law_source_files_are_named_by_extension(filename: Seq<char>)
    ensures
        source_file(filename) <==> has_char(filename, '.') && {
            let e = lower(last_field(filename, '.'));
            ||| e == "c"@ ||| e == "cc"@ ||| e == "cpp"@ ||| e == "cs"@ ||| e == "css"@ ||| e == "go"@
            ||| e == "h"@ ||| e == "hpp"@ ||| e == "java"@ ||| e == "js"@ ||| e == "jsx"@ ||| e == "kt"@
            ||| e == "kts"@ ||| e == "lua"@ ||| e == "m"@ ||| e == "md"@ ||| e == "php"@ ||| e == "pl"@
            ||| e == "pm"@ ||| e == "py"@ ||| e == "r"@ ||| e == "rb"@ ||| e == "rs"@ ||| e == "sh"@
            ||| e == "sql"@ ||| e == "swift"@ ||| e == "toml"@ ||| e == "ts"@ ||| e == "tsx"@
            ||| e == "vue"@ ||| e == "yaml"@ ||| e == "yml"@ ||| e == "zsh"@
        },
{
}
} // verus!
