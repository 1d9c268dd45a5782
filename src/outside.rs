//! The calls this library makes into other crates, each with the contract
//! that the crate's documentation and source support.
use base64::Engine;
use fake::Fake;
use vstd::prelude::*;

verus! {

/// What base64's standard engine (with padding) turns `data` into.
pub uninterp spec fn base64_text(data: Seq<u8>) -> Seq<char>;

/// Relies on `base64::engine::general_purpose::STANDARD.encode`: the text
/// depends on the bytes alone, and no bytes give no text.
#[verifier::external_body]
pub(crate) fn base64_encode(data: &[u8]) -> (r: String)
    ensures
        r@ == base64_text(data@),
        data@.len() == 0 ==> r@.len() == 0,
{
    base64::engine::general_purpose::STANDARD.encode(data)
}

/// Relies on `rand::random_range`: a value drawn from the half-open range
/// `lo..hi`, which must not be empty.
#[verifier::external_body]
pub(crate) fn random_in_range(lo: u64, hi: u64) -> (r: u64)
    requires
        lo < hi,
    ensures
        lo <= r < hi,
{
    rand::random_range(lo..hi)
}

/// Relies on `uuid::Uuid::new_v4`: a random identifier, handed over as its
/// 128-bit value; only its version (4) and variant (RFC 4122) bits are fixed.
#[verifier::external_body]
pub(crate) fn new_session_id() -> (r: u128)
    ensures
        (r >> 76u128) & 0xfu128 == 4,
        (r >> 62u128) & 0x3u128 == 2,
{
    uuid::Uuid::new_v4().as_u128()
}

/// Whether serde_json reads `doc` as one JSON document.
pub uninterp spec fn json_valid(doc: Seq<u8>) -> bool;

/// The string member `key` of the JSON object `doc`, as serde_json reads it.
pub uninterp spec fn json_text_member(doc: Seq<u8>, key: Seq<char>) -> Option<Seq<char>>;

/// The non-negative integer member `key` of the JSON object `doc`, as
/// serde_json reads it.
pub uninterp spec fn json_count_member(doc: Seq<u8>, key: Seq<char>) -> Option<u64>;

/// Relies on `serde_json::from_slice::<serde_json::Value>`: whether the
/// bytes parse, which depends on the bytes alone.
#[verifier::external_body]
pub(crate) fn is_json(doc: &[u8]) -> (r: bool)
    ensures
        r == json_valid(doc@),
{
    serde_json::from_slice::<serde_json::Value>(doc).is_ok()
}

/// Relies on `serde_json::from_slice::<serde_json::Value>`, then
/// `Value::get` and `Value::as_str`: the string member `key` of the parsed
/// object, if the bytes parse and the member is a string.
#[verifier::external_body]
pub(crate) fn json_text(doc: &[u8], key: &str) -> (r: Option<String>)
    ensures
        r is Some ==> json_text_member(doc@, key@) == Some(r->0@),
        r is None ==> json_text_member(doc@, key@) is None,
{
    match serde_json::from_slice::<serde_json::Value>(doc) {
        Ok(value) => match value.get(key) {
            Some(member) => member.as_str().map(String::from),
            None => None,
        },
        Err(_) => None,
    }
}

/// Relies on `serde_json::from_slice::<serde_json::Value>`, then
/// `Value::get` and `Value::as_u64`: the member `key` of the parsed object,
/// if the bytes parse and the member is an integer that fits in `u64`.
#[verifier::external_body]
pub(crate) fn json_count(doc: &[u8], key: &str) -> (r: Option<u64>)
    ensures
        r == json_count_member(doc@, key@),
{
    match serde_json::from_slice::<serde_json::Value>(doc) {
        Ok(value) => match value.get(key) {
            Some(member) => member.as_u64(),
            None => None,
        },
        Err(_) => None,
    }
}

/// Relies on fake's English `FirstName` faker: a random first name.
#[verifier::external_body]
pub(crate) fn random_first_name() -> (r: String) {
    fake::faker::name::en::FirstName().fake::<String>()
}

/// Relies on fake's English `LastName` faker: a random last name.
#[verifier::external_body]
pub(crate) fn random_last_name() -> (r: String) {
    fake::faker::name::en::LastName().fake::<String>()
}

} // verus!
