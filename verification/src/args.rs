//! Reading the optional argument bags of the tool invocation surface.
//!
//! Tool calls hand the engine a JSON object with optional overrides
//! (`channel_id` for a join; `listen_window_ms`, `chunk_gap_ms`,
//! `max_turn_ms` for a listen). The JSON value itself is opaque to the
//! verified code: the trusted wrappers below extract plain values from
//! it, under names that let callers state exactly what they return,
//! and everything that depends on those values is verified.

use vstd::prelude::*;

use serde_json::Value;

verus! {

#[verifier::external_type_specification]
#[verifier::external_body]
pub struct ExValue(Value);

/// The string stored under `key` when `v` is a JSON object holding a
/// string there, nothing otherwise; a function of the value and the
/// key alone.
pub uninterp spec fn json_string_field(v: Value, key: Seq<char>) -> Option<Seq<char>>;

/// The number stored under `key` when `v` is a JSON object holding an
/// unsigned 64-bit integer there, nothing otherwise; a function of the
/// value and the key alone.
pub uninterp spec fn json_u64_field(v: Value, key: Seq<char>) -> Option<u64>;

/// Relies on serde_json::Value::get with a string key, then
/// Value::as_str: the entry under the key when `args` is an object
/// holding a string there, nothing otherwise; never panics.
#[verifier::external_body]
pub(crate) fn arg_string(args: &Value, key: &str) -> (r: Option<String>)
    ensures
        r is Some <==> json_string_field(*args, key@) is Some,
        r is Some ==> (r->0)@ == json_string_field(*args, key@)->0,
{
    args.get(key).and_then(Value::as_str).map(str::to_owned)
}

/// Relies on serde_json::Value::get with a string key, then
/// Value::as_u64: the entry under the key when `args` is an object
/// holding an unsigned 64-bit integer there, nothing otherwise; never
/// panics.
#[verifier::external_body]
pub(crate) fn arg_u64(args: &Value, key: &str) -> (r: Option<u64>)
    ensures
        r == json_u64_field(*args, key@),
{
    args.get(key).and_then(Value::as_u64)
}

} // verus!
