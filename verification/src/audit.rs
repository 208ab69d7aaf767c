//! What the API audit log records of a request: which requests are
//! logged, and which key was used, told by a short hash prefix.

use vstd::prelude::*;
use vstd::utf8::encode_utf8;

use crate::crypto::{hex_text, key_hash_prefix, sha256};
use crate::text::{is_prefix, starts_with, str_eq};

verus! {

/// Whether a request to `path` is audited: every path but `/health`.
pub fn is_audited(path: &str) -> (r: bool)
    ensures
        r == (path@ != "/health"@),
{
    !str_eq(path, "/health")
}

/// The token after a `Bearer ` or `bearer ` prefix of an authorization
/// header, empty or not.
pub open spec fn audit_token(header: Option<Seq<char>>) -> Option<Seq<char>> {
    match header {
        Some(h) => if is_prefix("Bearer "@, h) || is_prefix("bearer "@, h) {
            Some(h.subrange(7, h.len() as int))
        } else {
            None
        },
        None => None,
    }
}

/// The key prefix the audit log records for a request: the first four
/// hexadecimal characters of the SHA-256 digest of its bearer token, if
/// it has one.
pub fn audit_key_prefix(auth_header: Option<&str>) -> (r: Option<String>)
    ensures
        match audit_token(match auth_header {
            Some(h) => Some(h@),
            None => None,
        }) {
            Some(t) => r matches Some(p) && p@ == hex_text(sha256(encode_utf8(t)).subrange(0, 2)),
            None => r is None,
        },
{
    let header = match auth_header {
        Some(h) => h,
        None => return None,
    };
    proof {
        reveal_strlit("Bearer ");
        reveal_strlit("bearer ");
    }
    if starts_with(header, "Bearer ") || starts_with(header, "bearer ") {
        let n = header.unicode_len();
        let token = header.substring_char(7, n);
        Some(key_hash_prefix(token))
    } else {
        None
    }
}

} // verus!
