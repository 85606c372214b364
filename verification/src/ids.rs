//! Identifier generation: UUIDs, order ids and time-based ids.

use vstd::prelude::*;
use crate::text::{dec, pad_zeros, push_dec_padded, push_sdec, push_str_chars, sdec, string_from_chars};

verus! {

/// uuid's `Uuid::new_v4`, rendered by its `Display`. Claimed: the text
/// of a hyphenated UUID has 36 characters.
#[verifier::external_body]
fn new_uuid_v4_text() -> (r: String)
    ensures
        r@.len() == 36,
{
    uuid::Uuid::new_v4().to_string()
}

/// chrono's `Utc::now().timestamp_millis()`. Nothing is claimed of the
/// value: it is the clock.
#[verifier::external_body]
fn now_millis() -> i64 {
    chrono::Utc::now().timestamp_millis()
}

/// chrono's `Utc::now().timestamp_nanos_opt()`, with 0 where chrono
/// gives none. Nothing is claimed of the value: it is the clock.
#[verifier::external_body]
fn now_nanos() -> i64 {
    chrono::Utc::now().timestamp_nanos_opt().unwrap_or(0)
}

/// chrono's `Utc::now().to_rfc3339()`. Nothing is claimed of the text.
#[verifier::external_body]
pub(crate) fn now_rfc3339() -> String {
    chrono::Utc::now().to_rfc3339()
}

/// A random UUID v4 in hyphenated text form.
pub fn generate_uuid() -> (r: String)
    ensures
        r@.len() == 36,
{
    new_uuid_v4_text()
}

/// Pseudo-random number drawn from a nanosecond clock reading: the high
/// half of one linear-congruential step.
pub open spec fn lcg_high(nanos: i64) -> u32 {
    let x = nanos as u64;
    let s = vstd::wrapping::u64_specs::wrapping_add(
        vstd::wrapping::u64_specs::wrapping_mul(x, 6364136223846793005u64),
        1442695040888963407u64,
    );
    (s / 0x1_0000_0000) as u32
}

pub fn rand_from_nanos(nanos: i64) -> (r: u32)
    ensures
        r == lcg_high(nanos),
{
    let x = nanos as u64;
    let s = x.wrapping_mul(6364136223846793005u64).wrapping_add(1442695040888963407u64);
    (s / 0x1_0000_0000) as u32
}

/// `{prefix}_{millis}_{suffix}` with the suffix taken below 100000 and
/// written with five digits.
pub open spec fn order_id_text(prefix: Seq<char>, millis: i64, rand: u32) -> Seq<char> {
    prefix + "_"@ + sdec(millis as int) + "_"@ + pad_zeros(dec((rand % 100000) as nat), 5)
}

pub fn format_order_id(prefix: &str, millis: i64, rand: u32) -> (r: String)
    ensures
        r@ == order_id_text(prefix@, millis, rand),
{
    let mut v: Vec<char> = Vec::new();
    push_str_chars(&mut v, prefix);
    push_str_chars(&mut v, "_");
    push_sdec(&mut v, millis);
    push_str_chars(&mut v, "_");
    push_dec_padded(&mut v, (rand % 100000) as u64, 5);
    assert(v@ =~= order_id_text(prefix@, millis, rand));
    string_from_chars(v)
}

/// An order id `{prefix}_{millis}_{suffix}` from the clock.
pub fn generate_order_id(prefix: &str) -> (r: String)
    ensures
        exists|millis: i64, nanos: i64| r@ == #[trigger] order_id_text(prefix@, millis, lcg_high(nanos)),
{
    let ts = now_millis();
    let nanos = now_nanos();
    let rand = rand_from_nanos(nanos);
    let r = format_order_id(prefix, ts, rand);
    assert(r@ == order_id_text(prefix@, ts, lcg_high(nanos)));
    r
}

/// `{prefix}_{nanos}`.
pub open spec fn time_id_text(prefix: Seq<char>, nanos: i64) -> Seq<char> {
    prefix + "_"@ + sdec(nanos as int)
}

/// An id `{prefix}_{nanos}` from the clock.
pub fn generate_time_based_id(prefix: &str) -> (r: String)
    ensures
        exists|nanos: i64| r@ == time_id_text(prefix@, nanos),
{
    let ns = now_nanos();
    let mut v: Vec<char> = Vec::new();
    push_str_chars(&mut v, prefix);
    push_str_chars(&mut v, "_");
    push_sdec(&mut v, ns);
    assert(v@ =~= time_id_text(prefix@, ns));
    string_from_chars(v)
}

} // verus!
