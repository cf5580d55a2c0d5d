//! The wall clock, for correlation ids and audit timestamps.

use vstd::prelude::*;

use crate::text::{decimal, push_decimal_wide, string_of};

verus! {

/// std's wall-clock time.
#[verifier::external_type_specification]
#[verifier::external_body]
pub struct ExSystemTime(std::time::SystemTime);

/// The current time (std `SystemTime::now`). Nothing is stated of it: it is the time.
#[verifier::external_body]
fn system_now() -> (r: std::time::SystemTime) {
    std::time::SystemTime::now()
}

/// How long after the Unix epoch `t` is (std `SystemTime::duration_since` with
/// `UNIX_EPOCH`); `None` when `t` is before it. Nothing is stated of which.
#[verifier::external_body]
fn since_epoch(t: &std::time::SystemTime) -> (r: Option<std::time::Duration>) {
    match t.duration_since(std::time::UNIX_EPOCH) {
        Ok(d) => Some(d),
        Err(_) => None,
    }
}

/// The whole nanoseconds of `d` (std `Duration::as_nanos`). Nothing is stated of
/// the value, which here is always a time.
#[verifier::external_body]
fn duration_nanos(d: &std::time::Duration) -> (r: u128) {
    d.as_nanos()
}

/// Nanoseconds since the Unix epoch; 0 when the clock stands before the epoch.
pub(crate) fn now_stamp() -> (r: u128) {
    let now = system_now();
    match since_epoch(&now) {
        Some(d) => duration_nanos(&d),
        None => 0,
    }
}

/// Milliseconds since the Unix epoch, cut to 64 bits.
pub fn now_ms() -> (r: u64) {
    let n = now_stamp();
    let ms: u128 = n / 1_000_000;
    #[verifier::truncate]
    let r = (ms as u64);
    r
}

/// `prefix` followed by a decimal number.
pub open spec fn stamped(prefix: Seq<char>, id: Seq<char>) -> bool {
    exists|n: nat| id == prefix + decimal(n)
}

/// An id made of `prefix` and the current time in nanoseconds.
pub fn time_id(prefix: &str) -> (r: String)
    ensures
        stamped(prefix@, r@),
{
    let n = now_stamp();
    let mut v: Vec<char> = crate::text::chars_of(prefix);
    let ghost head = v@;
    push_decimal_wide(n, &mut v);
    assert(v@ == head + decimal(n as nat));
    string_of(v.as_slice())
}

} // verus!
