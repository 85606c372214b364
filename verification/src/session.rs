//! The minutes of an A-share trading day, for minute bars.

use vstd::prelude::*;
use crate::date::{date_text, Date};
use crate::text::{dec, pad_zeros, push_dec_padded, push_str_chars, string_from_chars};

verus! {

/// Minutes in one trading day: 09:31 to 11:30 and 13:01 to 15:00.
pub const SESSION_MINUTES: usize = 240;

/// The minute of the day (counted from midnight) at which the `k`-th bar
/// of a trading day closes: 120 minutes from 09:31, then 120 from 13:01.
pub open spec fn session_minute(k: int) -> int {
    if k < 120 {
        9 * 60 + 31 + k
    } else {
        13 * 60 + 1 + (k - 120)
    }
}

/// `<day> HH:MM:00` for the minute `t` of the day.
pub open spec fn minute_text(day: Seq<char>, t: int) -> Seq<char> {
    day + " "@ + pad_zeros(dec((t / 60) as nat), 2) + ":"@ + pad_zeros(dec((t % 60) as nat), 2) + ":00"@
}

/// The bar times of one trading day, in order.
pub fn a_share_minutes(date: Date) -> (r: Vec<String>)
    ensures
        r@.len() == SESSION_MINUTES,
        forall|k: int|
            0 <= k < r@.len() ==> (#[trigger] r@[k])@ == minute_text(
                date_text(date.y(), date.m(), date.d()),
                session_minute(k),
            ),
{
    let day = date.as_str();
    let mut out: Vec<String> = Vec::new();
    let mut k: u64 = 0;
    while k < 240
        invariant
            k <= 240,
            out@.len() == k,
            day@ == date_text(date.y(), date.m(), date.d()),
            forall|j: int|
                0 <= j < out@.len() ==> (#[trigger] out@[j])@ == minute_text(day@, session_minute(j)),
        decreases 240 - k,
    {
        let t: u64 = if k < 120 { 571 + k } else { 661 + k };
        let mut v: Vec<char> = Vec::new();
        push_str_chars(&mut v, day.as_str());
        push_str_chars(&mut v, " ");
        push_dec_padded(&mut v, t / 60, 2);
        push_str_chars(&mut v, ":");
        push_dec_padded(&mut v, t % 60, 2);
        push_str_chars(&mut v, ":00");
        assert(v@ =~= minute_text(day@, session_minute(k as int)));
        out.push(string_from_chars(v));
        k = k + 1;
    }
    out
}

} // verus!
