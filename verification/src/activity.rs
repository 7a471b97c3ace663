//! Paging through the activity log: the opaque cursor a client hands back,
//! the page size, and the summary that takes no paging at all.
use vstd::prelude::*;
use vstd::utf8::encode_utf8;
use crate::redaction::AppError;
use crate::remote_control::{base64url_decoded, base64url_nopad, decode_base64url, encode_base64url};
use crate::text::{bytes_of, owned};

verus! {

/// Longest cursor accepted, in bytes.
pub const MAX_CURSOR_BYTES: usize = 1024;

/// Rows in a page when the client names no limit.
pub const DEFAULT_PAGE_LIMIT: i64 = 100;

/// The bytes a client's activity cursor stands for: none without a cursor;
/// the base64url-decoded bytes of a cursor of at most 1024 bytes; an
/// "invalid activity cursor" error otherwise. (The bytes hold the JSON of
/// the store's cursor, which the store reads.)
pub fn activity_cursor_bytes(cursor: Option<&str>) -> (r: Result<Option<Vec<u8>>, AppError>)
    ensures
        match cursor {
            None => r matches Ok(None),
            Some(c) => if encode_utf8(c@).len() > MAX_CURSOR_BYTES {
                r matches Err(e) && e matches AppError::Validation(m) && m@ == "invalid activity cursor"@
            } else {
                match base64url_decoded(c@) {
                    Some(b) => r matches Ok(Some(x)) && x@ == b,
                    None => r matches Err(e) && e matches AppError::Validation(m) && m@
                        == "invalid activity cursor"@,
                }
            },
        },
{
    match cursor {
        None => Ok(None),
        Some(c) => {
            let bytes = bytes_of(c);
            if bytes.len() > MAX_CURSOR_BYTES {
                return Err(AppError::Validation(owned("invalid activity cursor")));
            }
            match decode_base64url(c) {
                Some(b) => Ok(Some(b)),
                None => Err(AppError::Validation(owned("invalid activity cursor"))),
            }
        },
    }
}

/// The cursor handed to the client for the next page: the store's cursor
/// bytes in unpadded base64url, which `activity_cursor_bytes` reads back.
pub fn encode_activity_cursor(bytes: &[u8]) -> (r: String)
    ensures
        r@ == base64url_nopad(bytes@),
        base64url_decoded(r@) == Some(bytes@),
{
    encode_base64url(bytes)
}

/// The page size: the client's limit, else 100.
pub fn page_limit(limit: Option<i64>) -> (r: i64)
    ensures
        r == match limit {
            Some(l) => l,
            None => DEFAULT_PAGE_LIMIT,
        },
{
    match limit {
        Some(l) => l,
        None => DEFAULT_PAGE_LIMIT,
    }
}

/// A summary covers the whole range: it refuses paging parameters.
pub fn check_summary_query(cursor: Option<&str>, limit: Option<i64>) -> (r: Result<(), AppError>)
    ensures
        (cursor is None && limit is None) ==> r is Ok,
        !(cursor is None && limit is None) ==> (r matches Err(e) && e matches AppError::Validation(m)
            && m@ == "summary does not accept pagination parameters"@),
{
    if cursor.is_some() || limit.is_some() {
        return Err(AppError::Validation(owned("summary does not accept pagination parameters")));
    }
    Ok(())
}

} // verus!
