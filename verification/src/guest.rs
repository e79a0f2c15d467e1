//! Decisions of the WebDAV guest served by `wasmtime serve`: which directory
//! it serves, and which responses lose their `Content-Length` header.
use vstd::prelude::*;

use crate::text::{chars_of, string_from_chars, string_from_str, trim_chars, trimmed};

verus! {

/// The directory served when none is configured but one named `data` is
/// present.
pub open spec fn default_root() -> Seq<char> {
    "data"@
}

/// The directory to serve: the configured value with surrounding whitespace
/// removed, where that leaves something; else `data` where that exists;
/// else none (and the in-memory demo backend is served).
pub open spec fn fs_root_view(configured: Option<Seq<char>>, data_exists: bool) -> Option<Seq<char>> {
    if configured is Some && trimmed(configured->0).len() > 0 {
        Some(trimmed(configured->0))
    } else if data_exists {
        Some(default_root())
    } else {
        None
    }
}

/// Chooses the directory to serve from the configured value (the
/// `WEBDAV_FS_ROOT` variable, where it is set and valid Unicode) and
/// whether a `data` directory exists.
pub fn select_fs_root(configured: Option<&str>, data_exists: bool) -> (r: Option<String>)
    ensures
        match r {
            Some(s) => fs_root_view(
                match configured {
                    Some(c) => Some(c@),
                    None => None,
                },
                data_exists,
            ) == Some(s@),
            None => fs_root_view(
                match configured {
                    Some(c) => Some(c@),
                    None => None,
                },
                data_exists,
            ) is None,
        },
{
    if let Some(value) = configured {
        let t = trim_chars(&chars_of(value));
        if t.len() > 0 {
            return Some(string_from_chars(&t));
        }
    }
    if data_exists {
        return Some(string_from_str("data"));
    }
    None
}

/// A response with this status carries no body: informational (1xx),
/// `204 No Content`, `205 Reset Content` and `304 Not Modified`.
pub open spec fn status_has_no_body(status: u16) -> bool {
    (100 <= status < 200) || status == 204 || status == 205 || status == 304
}

/// Whether a response with status code `status` carries no body.
pub fn response_status_has_no_body(status: u16) -> (r: bool)
    ensures
        r == status_has_no_body(status),
{
    (100 <= status && status < 200) || status == 204 || status == 205 || status == 304
}

/// Whether the `Content-Length` header is dropped from the response to a
/// request: for `HEAD` requests and for statuses without a body.
pub fn drops_content_length(is_head: bool, status: u16) -> (r: bool)
    ensures
        r == (is_head || status_has_no_body(status)),
{
    is_head || response_status_has_no_body(status)
}

} // verus!
