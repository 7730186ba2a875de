//! The JSON bodies of the API's POST requests: the feeder id of a kick,
//! block or unblock, and the id and limit of a rate-limit override.
use vstd::prelude::*;
use crate::client::RATE_LIMIT;

verus! {

/// Whether `serde_json` reads `text` as a JSON value.
pub uninterp spec fn json_value_ok(text: Seq<char>) -> bool;

/// The string under `key` in the JSON object `text`, as `serde_json` reads
/// it: none when `text` is no JSON, no object, lacks the key, or holds no
/// string there.
pub uninterp spec fn json_str_field(text: Seq<char>, key: Seq<char>) -> Option<Seq<char>>;

/// The unsigned integer under `key` in the JSON object `text`, as
/// `serde_json` reads it (`Value::as_u64`).
pub uninterp spec fn json_u64_field(text: Seq<char>, key: Seq<char>) -> Option<u64>;

/// `serde_json::from_str::<Value>`: whether the text parses.
#[verifier::external_body]
fn parses_as_json(text: &str) -> (ok: bool)
    ensures
        ok == json_value_ok(text@),
{
    serde_json::from_str::<serde_json::Value>(text).is_ok()
}

/// `serde_json::from_str::<Value>` then `Value::get(key)` and
/// `Value::as_str`: the string under `key`, copied.
#[verifier::external_body]
fn string_field(text: &str, key: &str) -> (r: Option<String>)
    ensures
        match r {
            Some(s) => json_str_field(text@, key@) == Some(s@),
            None => json_str_field(text@, key@) is None,
        },
{
    let v: serde_json::Value = serde_json::from_str(text).ok()?;
    v.get(key).and_then(|f| f.as_str()).map(|s| s.to_string())
}

/// `serde_json::from_str::<Value>` then `Value::get(key)` and
/// `Value::as_u64`: the unsigned integer under `key`.
#[verifier::external_body]
fn u64_field(text: &str, key: &str) -> (r: Option<u64>)
    ensures
        r == json_u64_field(text@, key@),
{
    let v: serde_json::Value = serde_json::from_str(text).ok()?;
    v.get(key).and_then(|f| f.as_u64())
}

/// The feeder id of a kick, block or unblock request: the string under
/// "id"; none when there is none (the request is refused).
pub fn request_id(body: &str) -> (r: Option<String>)
    ensures
        match r {
            Some(s) => json_str_field(body@, seq!['i', 'd']) == Some(s@),
            None => json_str_field(body@, seq!['i', 'd']) is None,
        },
{
    let key = "id";
    proof {
        reveal_strlit("id");
    }
    assert(key@ =~= seq!['i', 'd']);
    string_field(body, key)
}

/// A rate-limit override: none when the body is no JSON (the request is
/// refused); otherwise the id under "id" (empty when there is none) and the
/// limit under "limit" (the default rate limit when there is none).
pub fn rate_limit_request(body: &str) -> (r: Option<(String, u64)>)
    ensures
        !json_value_ok(body@) ==> r is None,
        json_value_ok(body@) ==> (r matches Some((id, limit)) && id@ == match json_str_field(
            body@,
            seq!['i', 'd'],
        ) {
            Some(s) => s,
            None => Seq::empty(),
        } && limit == match json_u64_field(body@, seq!['l', 'i', 'm', 'i', 't']) {
            Some(n) => n,
            None => RATE_LIMIT,
        }),
{
    if !parses_as_json(body) {
        return None;
    }
    let id_key = "id";
    let limit_key = "limit";
    proof {
        reveal_strlit("id");
        reveal_strlit("limit");
    }
    assert(id_key@ =~= seq!['i', 'd']);
    assert(limit_key@ =~= seq!['l', 'i', 'm', 'i', 't']);
    let id = match string_field(body, id_key) {
        Some(s) => s,
        None => String::new(),
    };
    let limit = match u64_field(body, limit_key) {
        Some(n) => n,
        None => RATE_LIMIT,
    };
    Some((id, limit))
}

} // verus!
