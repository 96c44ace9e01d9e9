//! Tokens for sharing resources between devices, and collaborator records.

use vstd::prelude::*;
use crate::text::{push_str, string_from_chars};

verus! {

/// Lower-case hexadecimal digits.
pub open spec fn is_lower_hex_char(c: char) -> bool {
    ('0' <= c <= '9') || ('a' <= c <= 'f')
}

/// Thirty-two lower-case hexadecimal digits: the simple form of a UUID.
pub open spec fn is_simple_uuid_text(s: Seq<char>) -> bool {
    s.len() == 32 && forall|i: int| 0 <= i < s.len() ==> is_lower_hex_char(#[trigger] s[i])
}

/// `uuid::Uuid::new_v4` shown with `Uuid::simple`: a random version-4 UUID as 32
/// lower-case hexadecimal digits without hyphens (`uuid`'s `Simple` formats through
/// `LowerHex`). Which UUID comes out is chance; only its form is stated.
#[verifier::external_body]
fn random_uuid_simple() -> (s: String)
    ensures
        is_simple_uuid_text(s@),
{
    uuid::Uuid::new_v4().simple().to_string()
}

/// Generates a random URL-safe UUIDv4 token for sharing collections, trips, or documents.
pub fn generate_share_token() -> (token: String)
    ensures
        is_simple_uuid_text(token@),
{
    random_uuid_simple()
}

/// Generates a random cryptographic user token with prefix.
pub fn generate_user_token(prefix: &str) -> (token: String)
    ensures
        token@.len() == prefix@.len() + 32,
        token@.subrange(0, prefix@.len() as int) == prefix@,
        is_simple_uuid_text(token@.subrange(prefix@.len() as int, token@.len() as int)),
{
    let id = random_uuid_simple();
    let mut out: Vec<char> = Vec::new();
    push_str(&mut out, prefix);
    push_str(&mut out, id.as_str());
    assert(out@.subrange(0, prefix@.len() as int) =~= prefix@);
    assert(out@.subrange(prefix@.len() as int, out@.len() as int) =~= id@);
    string_from_chars(&out)
}

/// Generic collaborator permissions record.
#[derive(Debug, Clone, PartialEq, Eq)]
pub struct ResourceCollaborator {
    pub user_token: String,
    pub resource_id: i64,
    pub is_owner: bool,
    pub joined_at: String,
}

} // verus!
